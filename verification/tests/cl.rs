use rufuf::cl::display::{DisplayFsList, DisplayPanel, DisplayPanelsLayout, PanelType};
use rufuf::cl::events::{event_for_key, CursorMov, Event, KeyCode, KeyPress};
use rufuf::cl::fs_entries::{Cords, EntryType, FsEntry, FsListLayout};
use rufuf::cl::{handle_event, handle_event_checked, Actions, Index_Pos, LineColor, RufufDirection, RufufLayout, Step, Wrap};
use rufuf::tools::Rect;

fn rect(x: u16, y: u16, width: u16, height: u16) -> Rect {
    Rect { x, y, width, height }
}

fn node(name: &str, dir: bool) -> FsEntry {
    FsEntry::new(name.to_string(), format!("/r/{}", name), dir)
}

fn texts(lines: &[rufuf::cl::RufufLine]) -> Vec<(String, usize)> {
    lines.iter().map(|l| (l.text.clone(), l.depth)).collect()
}

#[test]
fn to_lines_of_flat_tree() {
    let tree = FsListLayout::new(vec![node("a", true), node("b.txt", false)]);
    let lines = tree.to_lines();
    assert_eq!(texts(&lines), vec![("a".to_string(), 0), ("b.txt".to_string(), 0)]);
    assert_eq!(lines[0].color, LineColor::Blue);
    assert_eq!(lines[1].color, LineColor::White);
}

#[test]
fn toggle_opens_and_closes() {
    let mut tree = FsListLayout::new(vec![node("a", true), node("b.txt", false)]);
    assert_eq!(tree.listing_needed(0), Some(&"/r/a".to_string()));
    assert_eq!(tree.listing_needed(1), None);
    tree.toggle(0, vec![node("x", false), node("y", true)]);
    assert!(tree.nodes[0].open);
    assert_eq!(tree.nodes[0].children_count, 2);
    assert_eq!(tree.listing_needed(0), None);
    let lines = tree.to_lines();
    assert_eq!(
        texts(&lines),
        vec![
            ("a".to_string(), 0),
            ("    x".to_string(), 1),
            ("    y".to_string(), 1),
            ("b.txt".to_string(), 0)
        ]
    );
    tree.toggle(0, vec![]);
    assert!(!tree.nodes[0].open);
    assert_eq!(tree.nodes.len(), 2);
    assert_eq!(tree.nodes[1].name, "b.txt");
    // The count stays.
    assert_eq!(tree.nodes[0].children_count, 2);
    assert_eq!(texts(&tree.to_lines()), vec![("a".to_string(), 0), ("b.txt".to_string(), 0)]);
}

#[test]
fn toggle_file_changes_nothing() {
    let mut tree = FsListLayout::new(vec![node("f", false)]);
    tree.toggle(0, vec![node("ignored", false)]);
    assert_eq!(tree.nodes.len(), 1);
    assert!(!tree.nodes[0].open);
}

#[test]
fn nested_open_directories_indent_twice() {
    let mut tree = FsListLayout::new(vec![node("a", true)]);
    tree.toggle(0, vec![node("b", true)]);
    tree.toggle(1, vec![node("c", false)]);
    // The walk skips only the direct children after an open directory, so
    // the grandchild shows again at the top level.
    assert_eq!(
        texts(&tree.to_lines()),
        vec![
            ("a".to_string(), 0),
            ("    b".to_string(), 1),
            ("        c".to_string(), 2),
            ("c".to_string(), 0)
        ]
    );
}

#[test]
fn click_at_uses_offset() {
    let mut tree = FsListLayout::new(vec![node("a", true), node("b", true)]);
    assert_eq!(tree.click_target(1), Some(&"/r/b".to_string()));
    assert_eq!(tree.click_at(1, vec![node("z", false)]), Some(()));
    assert_eq!(tree.nodes.len(), 3);
    assert_eq!(tree.nodes[2].name, "z");
    assert_eq!(tree.click_target(7), None);
    assert_eq!(tree.click_at(7, vec![]), None);
    assert_eq!(tree.nodes.len(), 3);
}

#[test]
fn display_fs_list_click_line_three() {
    let tree = FsListLayout::new(vec![node("a", false), node("b", false), node("c", false), node("d", true)]);
    let mut list = DisplayFsList::new(tree);
    assert_eq!(list.data.len(), 4);
    assert_eq!(list.click(vec![node("e", false)]), Actions::Redraw);
    assert_eq!(list.data.len(), 5);
    assert_eq!(list.data[4].text, "    e");
    let mut short = DisplayFsList::new(FsListLayout::new(vec![node("a", true)]));
    assert_eq!(short.click(vec![]), Actions::NoAction);
}

#[test]
fn wrap_add_stops_at_zero() {
    assert_eq!(Wrap { num: 5 }.add(-2), 3);
    assert_eq!(Wrap { num: 1 }.add(-2), 0);
    assert_eq!(Wrap { num: 0 }.add(4), 4);
}

#[test]
fn add_to_cursor_stops_at_zero() {
    let m = CursorMov::new(-3, 2);
    assert_eq!(m.add_to_cursor((1, 5)), (0, 7));
    assert_eq!(CursorMov::new(1, -1).add_to_cursor((4, 4)), (5, 3));
}

#[test]
fn keys_to_events() {
    let key = |code, control| Some(KeyPress { code, press: true, control });
    assert_eq!(event_for_key(None), Event::Continue);
    assert_eq!(event_for_key(key(KeyCode::Char('q'), false)), Event::Close);
    assert_eq!(event_for_key(key(KeyCode::Char('q'), true)), Event::Close);
    assert_eq!(event_for_key(key(KeyCode::Char('j'), false)), Event::MoveCursor(CursorMov::new(0, 1)));
    assert_eq!(event_for_key(key(KeyCode::Char('j'), true)), Event::ChangePanel(CursorMov::new(0, 1)));
    assert_eq!(event_for_key(key(KeyCode::Char('k'), false)), Event::MoveCursor(CursorMov::new(0, -1)));
    assert_eq!(event_for_key(key(KeyCode::Char('h'), true)), Event::ChangePanel(CursorMov::new(-1, 0)));
    assert_eq!(event_for_key(key(KeyCode::Char('l'), false)), Event::MoveCursor(CursorMov::new(1, 0)));
    assert_eq!(event_for_key(key(KeyCode::Right, true)), Event::ShowData);
    assert_eq!(event_for_key(key(KeyCode::Right, false)), Event::Continue);
    assert_eq!(event_for_key(key(KeyCode::Enter, false)), Event::Click);
    assert_eq!(event_for_key(key(KeyCode::Char('x'), false)), Event::Continue);
    assert_eq!(
        event_for_key(Some(KeyPress { code: KeyCode::Char('q'), press: false, control: false })),
        Event::Continue
    );
}

fn panels() -> DisplayPanelsLayout {
    DisplayPanelsLayout {
        panels: vec![
            DisplayPanel::new(&PanelType::FsList(0), rect(0, 0, 40, 10), Cords { x: 0, y: 0 }),
            DisplayPanel::new(&PanelType::ShowData, rect(0, 10, 40, 10), Cords { x: 0, y: 0 }),
            DisplayPanel::new(&PanelType::FsList(1), rect(40, 0, 40, 20), Cords { x: 0, y: 3 }),
        ],
        current_focused: 0,
    }
}

#[test]
fn get_panel_directions() {
    let p = panels();
    assert_eq!(p.get_panel(CursorMov::new(1, 0)), Some(2));
    assert_eq!(p.get_panel(CursorMov::new(-1, 0)), Some(0));
    // Downwards compares with the left edge plus the height: 0 + 10.
    assert_eq!(p.get_panel(CursorMov::new(0, 1)), Some(1));
    assert_eq!(p.get_panel(CursorMov::new(0, -1)), Some(0));
    assert_eq!(p.get_panel(CursorMov::new(0, 0)), None);
    assert_eq!(p.get_focused().panel, PanelType::FsList(0));
}

#[test]
fn handle_event_moves_and_focuses() {
    let mut p = panels();
    assert_eq!(handle_event(Event::MoveCursor(CursorMov::new(0, 1)), &mut p), Step::SetCursor(1, 1));
    assert_eq!(p.panels[0].cursor.y, 1);
    assert_eq!(handle_event(Event::MoveCursor(CursorMov::new(0, 20)), &mut p), Step::SetCursor(1, 8));
    assert_eq!(handle_event(Event::ChangePanel(CursorMov::new(1, 0)), &mut p), Step::SetCursor(41, 1));
    assert_eq!(p.current_focused, 2);
    assert_eq!(handle_event(Event::ChangePanel(CursorMov::new(1, 0)), &mut p), Step::Act(Actions::NoAction));
    assert_eq!(p.current_focused, 2);
    assert_eq!(handle_event(Event::Click, &mut p), Step::ClickList(1));
    p.current_focused = 1;
    assert_eq!(handle_event(Event::Click, &mut p), Step::Act(Actions::Redraw));
    assert_eq!(handle_event(Event::Close, &mut p), Step::Quit);
    assert_eq!(handle_event(Event::Continue, &mut p), Step::Act(Actions::NoAction));
    assert_eq!(handle_event(Event::ShowData, &mut p), Step::Act(Actions::NoAction));
}

#[test]
fn layout_frames() {
    let mut layout = RufufLayout::new(PanelType::FsList(0));
    layout.add(PanelType::ShowData);
    assert_eq!(layout.panels.len(), 2);
    assert_eq!(*layout.index(1), PanelType::FsList(0));
    let frames = layout.get_display_frames(rect(0, 0, 80, 24));
    // Both parts name panel 0.
    assert_eq!(frames.len(), 2);
    assert_eq!(frames[0].area, rect(0, 0, 80, 12));
    assert_eq!(frames[1].area, rect(0, 12, 80, 12));
    assert_eq!(frames[1].panel, PanelType::FsList(0));
    assert_eq!(frames[1].cursor, Cords { x: 0, y: 0 });
    *layout.index_mut(1) = PanelType::FsList(7);
    assert_eq!(layout.panels[1], PanelType::FsList(7));
}

#[test]
fn layout_nested_and_empty_parts() {
    let layout = RufufLayout {
        panels: vec![PanelType::FsList(0), PanelType::ShowData],
        layout: RufufDirection::Horizontal(vec![
            RufufDirection::Panel(1),
            RufufDirection::Vertical(vec![]),
            RufufDirection::Vertical(vec![RufufDirection::Panel(0), RufufDirection::Panel(1)]),
        ]),
        current_focused_panel: 0,
    };
    let frames = layout.get_display_frames(rect(0, 0, 90, 20));
    assert_eq!(frames.len(), 3);
    assert_eq!(frames[0].area, rect(0, 0, 30, 20));
    assert_eq!(frames[0].panel, PanelType::ShowData);
    assert_eq!(frames[1].area, rect(60, 0, 30, 10));
    assert_eq!(frames[2].area, rect(60, 10, 30, 10));
}

#[test]
fn layout_clips_large_areas() {
    let layout = RufufLayout::new(PanelType::ShowData);
    let frames = layout.get_display_frames(rect(0, 0, 1000, 1000));
    assert_eq!(frames.len(), 1);
    assert!((frames[0].area.width as u32) * (frames[0].area.height as u32) <= u16::MAX as u32);
}

#[test]
fn index_pos_new() {
    let p = Index_Pos::new(3, 4);
    assert_eq!((p.index, p.pos), (3, 4));
}

#[test]
fn entry_type_of_new_entry() {
    assert_eq!(node("d", true).entry_type, EntryType::Directory);
    assert_eq!(node("f", false).entry_type, EntryType::File);
}

#[test]
fn cursor_move_stays_inside_border() {
    let mut p = panels();
    assert_eq!(handle_event(Event::MoveCursor(CursorMov::new(0, -20)), &mut p), Step::SetCursor(1, 1));
    assert_eq!(handle_event(Event::MoveCursor(CursorMov::new(0, 100)), &mut p), Step::SetCursor(1, 8));
    assert_eq!(handle_event(Event::MoveCursor(CursorMov::new(0, 0)), &mut p), Step::SetCursor(1, 8));
    assert_eq!(p.panels[0].cursor.y, 8);
}

#[test]
fn vertical_split_gives_equal_bands() {
    let layout = RufufLayout {
        panels: vec![PanelType::FsList(0), PanelType::ShowData],
        layout: RufufDirection::Vertical(vec![
            RufufDirection::Panel(0),
            RufufDirection::Panel(1),
            RufufDirection::Panel(0),
        ]),
        current_focused_panel: 0,
    };
    let frames = layout.get_display_frames(rect(3, 2, 10, 20));
    assert_eq!(frames.len(), 3);
    assert_eq!(frames[0].area, rect(3, 2, 10, 6));
    assert_eq!(frames[1].area, rect(3, 8, 10, 6));
    assert_eq!(frames[2].area, rect(3, 14, 10, 6));
    assert_eq!(frames[1].panel, PanelType::ShowData);
}

#[test]
fn checked_events_refuse_what_would_overflow() {
    let mut p = panels();
    assert_eq!(handle_event_checked(Event::MoveCursor(CursorMov::new(0, 1)), &mut p), Some(Step::SetCursor(1, 1)));
    let mut edge = DisplayPanelsLayout {
        panels: vec![DisplayPanel::new(&PanelType::FsList(0), rect(0, 65535, 10, 0), Cords { x: 0, y: 0 })],
        current_focused: 0,
    };
    assert_eq!(handle_event_checked(Event::MoveCursor(CursorMov::new(0, 1)), &mut edge), None);
    assert_eq!(edge.panels[0].cursor.y, 0);
    let mut empty = DisplayPanelsLayout::empty();
    assert_eq!(handle_event_checked(Event::Click, &mut empty), None);
    assert_eq!(handle_event_checked(Event::Close, &mut empty), Some(Step::Quit));
}

#[test]
fn frames_lie_inside_the_screen() {
    let layout = RufufLayout::new(PanelType::ShowData);
    let area = rect(5, 5, 1000, 1000);
    for f in layout.get_display_frames(area) {
        assert!(f.area.x >= area.x && f.area.x + f.area.width <= area.x + area.width);
        assert!(f.area.y >= area.y && f.area.y + f.area.height <= area.y + area.height);
    }
}
