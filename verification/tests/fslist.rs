use rufuf::cl::events::{KeyCode, KeyPress};
use rufuf::cli::fslist::{
    colors_ready,
    ColorConfig, DirEntry, DisplayEntries, EntryKind, FsList, FsListError, Vec2, WidgetChoice,
};
use rufuf::misc::rgb::Rgb;
use rufuf::tools::Rect;

fn entry(name: &str, kind: EntryKind) -> DirEntry {
    DirEntry::new(name.to_string(), format!("/top/{}", name), kind)
}

fn config() -> ColorConfig {
    ColorConfig {
        tree: vec![
            ("folder".to_string(), "blue".to_string()),
            ("file".to_string(), "white".to_string()),
        ],
        colors: vec![
            ("blue".to_string(), "#0000ff".to_string()),
            ("white".to_string(), "#ffffff".to_string()),
            ("orange".to_string(), "#ffa500".to_string()),
        ],
    }
}

fn names(list: &FsList) -> Vec<String> {
    list.entries.iter().map(|e| e.name.clone()).collect()
}

fn rect(x: u16, y: u16, width: u16, height: u16) -> Rect {
    Rect { x, y, width, height }
}

#[test]
fn sort_puts_directories_first_by_lower_case_name() {
    let list = FsList::new(
        "/top".to_string(),
        vec![
            entry("b.txt", EntryKind::File),
            entry("Zeta", EntryKind::Dir),
            entry("broken", EntryKind::Unknown),
            entry("alpha", EntryKind::Dir),
            entry("C.md", EntryKind::File),
            entry("a.txt", EntryKind::File),
        ],
    );
    assert_eq!(names(&list), vec!["alpha", "Zeta", "a.txt", "b.txt", "C.md"]);
    assert!(list.display_entries.is_unitialized());
    assert_eq!(list.cwd, "/top");
}

#[test]
fn sort_reverses_entries_with_equal_keys() {
    let list = FsList::new(
        "/".to_string(),
        vec![entry("A", EntryKind::File), entry("a", EntryKind::File), entry("x", EntryKind::File)],
    );
    assert_eq!(names(&list), vec!["a", "A", "x"]);
}

#[test]
fn sort_of_nothing() {
    let list = FsList::new("/".to_string(), vec![]);
    assert!(list.entries.is_empty());
}

#[test]
fn to_spans_colours_and_icons() {
    let mut list = FsList::new(
        "/".to_string(),
        vec![entry("docs", EntryKind::Dir), entry("notes", EntryKind::File)],
    );
    let spans = list.to_spans(&config());
    assert!(list.entries.is_empty());
    assert_eq!(spans.len(), 2);
    assert_eq!(spans[0].span.content, "\u{ea83} docs");
    assert_eq!(spans[0].span.fg, Rgb { r: 0, g: 0, b: 255 });
    assert_eq!(spans[1].span.content, "\u{ea7b} notes");
    assert_eq!(spans[1].span.fg, Rgb { r: 255, g: 255, b: 255 });
    assert!(!spans[0].span.on_white);
}

#[test]
fn to_spans_falls_back_to_orange() {
    let mut cfg = config();
    cfg.tree.clear();
    let mut list = FsList::new("/".to_string(), vec![entry("f", EntryKind::File)]);
    let spans = list.to_spans(&cfg);
    assert_eq!(spans[0].span.fg, Rgb { r: 255, g: 165, b: 0 });
}

fn laid_out_rows() -> FsList {
    let mut list = FsList::new(
        "/".to_string(),
        vec![entry("a.txt", EntryKind::File), entry("src", EntryKind::Dir), entry("b.txt", EntryKind::File)],
    );
    assert_eq!(list.update_display(rect(0, 0, 20, 10), false, &config()), Ok(()));
    list
}

#[test]
fn update_display_wraps_rows() {
    let list = laid_out_rows();
    assert!(list.entries.is_empty());
    match &list.display_entries {
        DisplayEntries::MultiLine(m) => {
            assert_eq!(m.selected, Vec2(0, 0));
            assert_eq!(m.vec.len(), 2);
            assert_eq!(m.vec[0].len(), 2);
            assert_eq!(m.vec[1].len(), 1);
            assert_eq!(m.vec[0][0].entry.name, "src");
            assert_eq!(m.vec[0][0].rect, rect(0, 0, 5, 1));
            assert!(m.vec[0][0].selected);
            assert_eq!(m.vec[0][1].entry.name, "a.txt");
            assert_eq!(m.vec[0][1].rect, rect(9, 0, 7, 1));
            assert!(!m.vec[0][1].selected);
            assert_eq!(m.vec[1][0].entry.name, "b.txt");
            assert_eq!(m.vec[1][0].rect, rect(0, 1, 7, 1));
        }
        _ => panic!("expected rows"),
    }
}

#[test]
fn update_display_inside_border() {
    let mut list = FsList::new("/".to_string(), vec![entry("a", EntryKind::File)]);
    assert_eq!(list.update_display(rect(0, 0, 20, 10), true, &config()), Ok(()));
    match &list.display_entries {
        DisplayEntries::MultiLine(m) => assert_eq!(m.vec[0][0].rect, rect(1, 1, 3, 1)),
        _ => panic!("expected rows"),
    }
}

#[test]
fn update_display_first_entry_too_wide_for_row() {
    let mut list = FsList::new("/".to_string(), vec![entry("a-long-name", EntryKind::File)]);
    assert_eq!(list.update_display(rect(2, 3, 5, 10), false, &config()), Ok(()));
    match &list.display_entries {
        DisplayEntries::MultiLine(m) => {
            assert_eq!(m.vec.len(), 2);
            assert!(m.vec[0].is_empty());
            assert_eq!(m.vec[1][0].rect, rect(2, 4, 13, 1));
        }
        _ => panic!("expected rows"),
    }
}

#[test]
fn update_display_single_column() {
    let mut list = FsList::new(
        "/".to_string(),
        vec![entry("a", EntryKind::File), entry("b", EntryKind::File)],
    );
    list.options.single_line = true;
    assert_eq!(list.update_display(rect(4, 2, 30, 10), false, &config()), Ok(()));
    match &list.display_entries {
        DisplayEntries::SingleLine(line) => {
            assert_eq!(line.selected, 0);
            assert_eq!(line.vec.len(), 2);
            assert_eq!(line.vec[0].rect, rect(4, 2, 30, 1));
            assert_eq!(line.vec[1].rect, rect(4, 3, 30, 1));
            assert!(line.vec[0].selected && !line.vec[1].selected);
        }
        _ => panic!("expected a column"),
    }
}

#[test]
fn update_display_only_once() {
    let mut list = laid_out_rows();
    list.entries.push(entry("late", EntryKind::File));
    assert_eq!(list.update_display(rect(0, 0, 5, 5), false, &config()), Ok(()));
    assert_eq!(list.entries.len(), 1);
}

#[test]
fn update_display_too_wide() {
    let huge = "x".repeat(70_000);
    let mut list = FsList::new("/".to_string(), vec![entry(&huge, EntryKind::File)]);
    assert_eq!(list.update_display(rect(0, 0, 20, 10), false, &config()), Err(FsListError::TooWide));
    assert!(list.display_entries.is_unitialized());
    assert!(list.entries.is_empty());
}

#[test]
fn update_display_checked_refuses_overflow() {
    let mut list = FsList::new(
        "/".to_string(),
        vec![entry("a", EntryKind::File), entry("b", EntryKind::File)],
    );
    list.options.single_line = true;
    assert_eq!(list.update_display_checked(rect(0, u16::MAX, 10, 1), false, &config()), None);
    assert_eq!(list.entries.len(), 2);
    assert_eq!(list.update_display_checked(rect(0, 0, 10, 5), false, &config()), Some(Ok(())));
    assert!(list.entries.is_empty());
}

#[test]
fn move_selected_in_rows() {
    let mut list = laid_out_rows();
    assert_eq!(list.move_selected(Vec2(1, 0)), Ok(()));
    match &list.display_entries {
        DisplayEntries::MultiLine(m) => {
            assert_eq!(m.selected, Vec2(1, 0));
            assert!(!m.vec[0][0].selected && m.vec[0][1].selected && !m.vec[1][0].selected);
        }
        _ => panic!(),
    }
    assert_eq!(list.get_focus().entry.name, "a.txt");
    // Row 1 has one entry only.
    assert_eq!(list.move_selected(Vec2(0, 1)), Err(FsListError::OutOfRange));
    assert_eq!(list.move_selected(Vec2(-1, 0)), Ok(()));
    assert_eq!(list.get_focus().entry.name, "src");
    // Before the first entry.
    assert_eq!(list.move_selected(Vec2(-1, 0)), Err(FsListError::OutOfRange));
    assert_eq!(list.get_focus().entry.name, "src");
}

#[test]
fn move_selected_and_back_restores() {
    let mut list = laid_out_rows();
    assert_eq!(list.move_selected(Vec2(0, 1)), Ok(()));
    assert_eq!(list.get_focus().entry.name, "b.txt");
    assert_eq!(list.move_selected(Vec2(0, -1)), Ok(()));
    match &list.display_entries {
        DisplayEntries::MultiLine(m) => {
            assert_eq!(m.selected, Vec2(0, 0));
            assert!(m.vec[0][0].selected && !m.vec[0][1].selected && !m.vec[1][0].selected);
        }
        _ => panic!(),
    }
}

#[test]
fn move_selected_by_nothing_clears_the_flag() {
    let mut list = laid_out_rows();
    assert_eq!(list.move_selected(Vec2(0, 0)), Ok(()));
    assert!(!list.get_focus().selected);
}

#[test]
fn move_selected_in_column() {
    let mut list = FsList::new(
        "/".to_string(),
        vec![entry("a", EntryKind::File), entry("b", EntryKind::File)],
    );
    list.options.single_line = true;
    list.update_display(rect(0, 0, 10, 10), false, &config()).unwrap();
    assert_eq!(list.move_selected(Vec2(0, 1)), Ok(()));
    assert_eq!(list.get_focus().entry.name, "b");
    assert_eq!(list.move_selected(Vec2(0, 1)), Err(FsListError::OutOfRange));
    assert_eq!(list.get_focus().entry.name, "b");
}

#[test]
fn select_and_widget() {
    let mut list = FsList::new(
        "/top".to_string(),
        vec![
            entry("pic.png", EntryKind::File),
            entry("dir", EntryKind::Dir),
            entry("photo.jpg", EntryKind::File),
            entry(".png", EntryKind::File),
            entry("notes.txt", EntryKind::File),
        ],
    );
    list.options.single_line = true;
    list.update_display(rect(0, 0, 10, 10), false, &config()).unwrap();
    // dir, .png, notes.txt, photo.jpg, pic.png
    assert_eq!(list.select(), Ok(&"/top/dir".to_string()));
    assert!(matches!(list.get_widget(), WidgetChoice::Dir(p) if p == "/top/dir"));
    list.move_selected(Vec2(0, 1)).unwrap();
    assert_eq!(list.select(), Err(FsListError::NotADirectory));
    assert!(matches!(list.get_widget(), WidgetChoice::Text(p) if p == "/top/.png"));
    list.move_selected(Vec2(0, 1)).unwrap();
    assert!(matches!(list.get_widget(), WidgetChoice::Text(p) if p == "/top/notes.txt"));
    list.move_selected(Vec2(0, 1)).unwrap();
    assert!(matches!(list.get_widget(), WidgetChoice::Image(p) if p == "/top/photo.jpg"));
    list.move_selected(Vec2(0, 1)).unwrap();
    assert!(matches!(list.get_widget(), WidgetChoice::Image(p) if p == "/top/pic.png"));
}

#[test]
fn render_highlights_selected() {
    let list = laid_out_rows();
    match &list.display_entries {
        DisplayEntries::MultiLine(m) => {
            assert!(m.vec[0][0].render().on_white);
            assert!(!m.vec[0][1].render().on_white);
            assert_eq!(m.vec[0][1].render().content, "\u{ea7b} a.txt");
        }
        _ => panic!(),
    }
}

#[test]
fn key_press_type_is_shared() {
    let k = KeyPress { code: KeyCode::Enter, press: true, control: false };
    assert!(k.press);
}

#[test]
fn layout_selects_the_first_entry() {
    let list = laid_out_rows();
    let focus = list.get_focus();
    assert_eq!(focus.entry.name, "src");
    assert!(focus.selected);
    assert_eq!(list.select(), Ok(&"/top/src".to_string()));
}

#[test]
fn entries_in_a_row_are_four_cells_apart() {
    let list = laid_out_rows();
    match &list.display_entries {
        DisplayEntries::MultiLine(m) => {
            let (a, b) = (m.vec[0][0].rect, m.vec[0][1].rect);
            assert_eq!(b.y, a.y);
            assert_eq!(b.x, a.x + a.width + 4);
            assert!(b.x + b.width <= 20);
        }
        _ => panic!("expected rows"),
    }
}

#[test]
fn sorting_a_sorted_listing_keeps_it() {
    let once = FsList::new(
        "/".to_string(),
        vec![
            entry("b.txt", EntryKind::File),
            entry("Src", EntryKind::Dir),
            entry("a.txt", EntryKind::File),
            entry("docs", EntryKind::Dir),
        ],
    );
    assert_eq!(names(&once), vec!["docs", "Src", "a.txt", "b.txt"]);
    let copy = once.entries.iter().map(|e| DirEntry::new(e.name.clone(), e.path.clone(), e.kind)).collect();
    let again = FsList::new("/".to_string(), copy);
    assert_eq!(names(&again), names(&once));
}

#[test]
fn colors_ready_checks_the_needed_roles() {
    let dir = vec![entry("src", EntryKind::Dir)];
    let file = vec![entry("a", EntryKind::File)];
    assert!(colors_ready(&config(), &dir));
    assert!(colors_ready(&config(), &file));
    assert!(colors_ready(&ColorConfig { tree: vec![], colors: vec![] }, &vec![entry("?", EntryKind::Unknown)]));
    let bad = ColorConfig {
        tree: vec![("folder".to_string(), "blue".to_string())],
        colors: vec![("blue".to_string(), "#00zz00".to_string())],
    };
    assert!(!colors_ready(&bad, &dir));
    // The file role falls back to orange, which this table lacks.
    assert!(!colors_ready(&bad, &file));
}
