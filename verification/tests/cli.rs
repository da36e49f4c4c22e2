use rufuf::cl::events::{KeyCode, KeyPress};
use rufuf::cli::buffer::{Buffer, ReadFileWidget, WidgetState};
use rufuf::cli::events::{handle_event, Actions, InputEvent};
use rufuf::cli::fslist::Vec2;
use rufuf::cli::panel::{CursorPos, Panel, PanelState, Viewer};
use rufuf::cli::tabs::{Directions, RufLayout};
use rufuf::tools::Rect;

fn rect(x: u16, y: u16, width: u16, height: u16) -> Rect {
    Rect { x, y, width, height }
}

#[test]
fn panel_state_and_cursor() {
    assert!(PanelState::new(true).boxed);
    assert!(!PanelState::new(false).boxed);
    let c = CursorPos::new(3, 9);
    assert_eq!((c.x, c.y), (3, 9));
    assert!(!WidgetState::default().boxed);
}

#[test]
fn events_to_actions() {
    let key = |c| InputEvent::Key(KeyPress { code: KeyCode::Char(c), press: true, control: false });
    assert_eq!(handle_event(key('q')), Some(Actions::Quit));
    assert_eq!(handle_event(key('h')), Some(Actions::Move(Vec2(-1, 0))));
    assert_eq!(handle_event(key('l')), Some(Actions::Move(Vec2(1, 0))));
    assert_eq!(handle_event(key('j')), Some(Actions::Move(Vec2(0, 1))));
    assert_eq!(handle_event(key('k')), Some(Actions::Move(Vec2(0, -1))));
    assert_eq!(handle_event(key('v')), Some(Actions::ToggleViewer));
    assert_eq!(handle_event(key('z')), None);
    assert_eq!(
        handle_event(InputEvent::Key(KeyPress { code: KeyCode::Enter, press: true, control: false })),
        Some(Actions::Select)
    );
    assert_eq!(
        handle_event(InputEvent::Key(KeyPress { code: KeyCode::Enter, press: false, control: false })),
        None
    );
    assert_eq!(handle_event(InputEvent::Resize), Some(Actions::Redraw));
    assert_eq!(handle_event(InputEvent::Mouse), None);
}

#[test]
fn layout_sizes_and_focus() {
    let panel = Panel::new("list", true, rect(0, 0, 1, 1), 1);
    assert_eq!(panel.cursor, CursorPos::new(0, 0));
    assert!(panel.state.boxed);
    assert_eq!(panel.overlay, None);
    let mut layout = RufLayout::new(panel);
    assert_eq!(layout.boundries.ratio, 100);
    assert!(matches!(layout.boundries.directions, Directions::Panel(1)));
    layout.update_panels_size(rect(0, 0, 100, 40), rect(0, 0, 60, 20));
    assert_eq!(layout.panels[0].rect, rect(20, 10, 60, 20));
    assert_eq!(layout.get_current_focus(), 0);
}

#[test]
fn viewer_opens_and_closes() {
    let mut layout = RufLayout::new(Panel::new("list", true, rect(0, 0, 100, 40), 1));
    Panel::toggle_viewer(&mut layout, 0, Some(Viewer { buffer: "viewer", size: rect(0, 0, 60, 24), id: 2 }));
    assert_eq!(layout.panels.len(), 2);
    assert_eq!(layout.panels[0].overlay, Some(2));
    assert_eq!(layout.panels[1].rect, rect(20, 13, 60, 24));
    assert_eq!(layout.panels[1].buffer, "viewer");
    assert!(!layout.panels[1].focus);
    assert_eq!(layout.get_current_focus(), 0);
    Panel::toggle_viewer(&mut layout, 0, None);
    assert_eq!(layout.panels.len(), 1);
    assert_eq!(layout.panels[0].overlay, None);
}

#[test]
fn read_file_widget_new() {
    let w = ReadFileWidget::new("text".to_string(), "/a".to_string());
    assert_eq!((w.buffer.as_str(), w.cwd.as_str()), ("text", "/a"));
}

#[test]
fn buffer_text_with_invalid_bytes() {
    let mut b = Buffer::with_capacity(10);
    assert_eq!(b.read, 0);
    assert!(b.buf.iter().all(|x| *x == 0));
    let bytes = b"ab\xffc\xe2\x82\xac\xf0zzzzzzz";
    b.buf[..bytes.len()].copy_from_slice(bytes);
    b.set_read(bytes.len());
    // The last seven bytes do not count.
    assert_eq!(b.read, bytes.len() - 7);
    assert_eq!(b.to_string(), "ab c\u{20ac} ");
}

#[test]
fn buffer_text_of_valid_utf8() {
    let mut b = Buffer::with_capacity(0);
    let bytes = "h\u{e9}llo \u{20ac}1234567".as_bytes();
    b.buf[..bytes.len()].copy_from_slice(bytes);
    b.set_read(bytes.len());
    assert_eq!(b.to_string(), "h\u{e9}llo \u{20ac}");
    let empty = Buffer::with_capacity(0);
    assert_eq!(empty.to_string(), "");
}

#[test]
fn viewer_needs_a_fresh_id() {
    let panel = Panel::new(1u8, true, rect(0, 0, 100, 40), 0);
    let mut layout = RufLayout::new(panel);
    Panel::toggle_viewer(&mut layout, 0, Some(Viewer { buffer: 2u8, size: rect(0, 0, 60, 24), id: 1 }));
    assert_eq!(layout.panels.len(), 2);
    Panel::toggle_viewer(&mut layout, 0, None);
    assert_eq!(layout.panels.len(), 1);
    assert_eq!(layout.panels[0].overlay, None);
    assert_eq!(layout.panels[0].id, 0);
}
