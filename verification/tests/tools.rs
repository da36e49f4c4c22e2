use rufuf::tools::{center, clamp, clamp_simple, Rect};

fn rect(x: u16, y: u16, width: u16, height: u16) -> Rect {
    Rect { x, y, width, height }
}

#[test]
fn clamp_simple_cases() {
    assert_eq!(clamp_simple(5, 1, 10), 5);
    assert_eq!(clamp_simple(0, 1, 10), 1);
    assert_eq!(clamp_simple(11, 1, 10), 10);
    assert_eq!(clamp_simple(1, 1, 10), 1);
    assert_eq!(clamp_simple(10, 1, 10), 10);
    // Twice is the same as once.
    assert_eq!(clamp_simple(clamp_simple(42, 3, 7), 3, 7), clamp_simple(42, 3, 7));
}

#[test]
fn clamp_keeps_inside_border() {
    let r = rect(10, 5, 20, 8);
    assert_eq!(clamp((0, 0), r, true), (11, 6));
    assert_eq!(clamp((0, 0), r, false), (10, 5));
    assert_eq!(clamp((100, 100), r, true), (28, 11));
    assert_eq!(clamp((100, 100), r, false), (29, 12));
    assert_eq!(clamp((15, 7), r, true), (15, 7));
    let once = clamp((100, 0), r, true);
    assert_eq!(clamp(once, r, true), once);
}

#[test]
fn center_cases() {
    assert_eq!(center(rect(3, 4, 10, 6), rect(0, 0, 30, 20)), rect(10, 7, 10, 6));
    assert_eq!(center(rect(0, 0, 30, 20), rect(0, 0, 30, 20)), rect(0, 0, 30, 20));
    assert_eq!(center(rect(0, 0, 9, 9), rect(0, 0, 10, 10)), rect(0, 0, 9, 9));
}
