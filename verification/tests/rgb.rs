use rufuf::misc::rgb::{to_rgb, Rgb};

#[test]
fn to_rgb_test() {
    let bytes = to_rgb("0xff00ff");
    println!("{:?}", bytes);
    assert_eq!(bytes, Rgb::new(255, 0, 255));
}

#[test]
fn to_rgb_reads_last_six_digits() {
    assert_eq!(to_rgb("#ff8800"), Rgb { r: 255, g: 136, b: 0 });
    assert_eq!(to_rgb("0x12AbCd"), Rgb { r: 0x12, g: 0xab, b: 0xcd });
    assert_eq!(to_rgb("000000"), Rgb { r: 0, g: 0, b: 0 });
}

#[test]
fn to_rgb_cuts_by_character_count() {
    // Nine characters, eleven bytes: the cut at byte three leaves eight digits.
    assert_eq!(to_rgb("\u{20ac}00ff00ff"), Rgb { r: 0, g: 255, b: 0 });
}

#[test]
fn rgb_new_keeps_parts() {
    let c = Rgb::new(1, 2, 3);
    assert_eq!((c.r, c.g, c.b), (1, 2, 3));
}

#[test]
fn to_rgb_reads_back_written_colours() {
    for &(r, g, b) in &[(0u8, 0u8, 0u8), (255, 255, 255), (0x12, 0xab, 0x0f), (7, 128, 200)] {
        let hash = format!("#{:02x}{:02x}{:02x}", r, g, b);
        let zero_x = format!("0x{:02x}{:02x}{:02x}", r, g, b);
        assert_eq!(to_rgb(&hash), Rgb::new(r, g, b));
        assert_eq!(to_rgb(&zero_x), Rgb::new(r, g, b));
    }
}
