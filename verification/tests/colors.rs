use ers::color::{holds_pairs, parse_color, Color};

fn color(r: u8, g: u8, b: u8, a: u8) -> Color {
    Color { r, g, b, a }
}

#[test]
fn colors_are_read_with_and_without_hash() {
    assert_eq!(parse_color("#5294e2"), Some(color(0x52, 0x94, 0xe2, 255)));
    assert_eq!(parse_color("5294E2"), Some(color(0x52, 0x94, 0xe2, 255)));
    assert_eq!(parse_color("#59595980"), Some(color(0x59, 0x59, 0x59, 0x80)));
}

#[test]
fn other_lengths_are_no_colors() {
    for text in ["", "#", "#12345", "#1234567", "#123456789", "##123456"] {
        assert_eq!(parse_color(text), None, "{text}");
    }
}

#[test]
fn other_characters_are_no_colors() {
    for text in ["#gg0000", "#00gg00", "#0000gg", "#000000gg", "-10000", "1+0000", "++0000"] {
        assert_eq!(parse_color(text), None, "{text}");
    }
}

#[test]
fn a_sign_is_read_by_the_lenient_reader_only() {
    for text in ["+f+0+9", "#+1+2+3", "00+100", "-10000"] {
        assert_eq!(parse_color(text), None, "{text}");
    }
    assert_eq!(Color::from_hex("+f94e2"), color(15, 0x94, 0xe2, 255));
    assert_eq!(Color::from_hex("#+f+0+9"), color(15, 0, 9, 255));
    assert_eq!(Color::from_hex("+f+f+f+8"), color(15, 15, 15, 8));
    assert_eq!(Color::from_hex("++f+-2f-"), color(0, 0, 0, 255));
    assert_eq!(Color::from_hex("-15294e2"), color(0, 0x52, 0x94, 0xe2));
}

#[test]
fn other_alphabets_are_no_colors() {
    let texts = ["#é1234", "zzé12", "#1é234", "123é4", "zz3é4", "1é", "12345é7", "123456é"];
    for text in texts {
        assert_eq!(parse_color(text), None, "{text}");
    }
    assert_eq!(parse_color("a\u{20AC}aa"), None);
}

#[test]
fn the_lenient_reader_takes_what_it_can() {
    assert_eq!(Color::from_hex("#5294e2"), color(0x52, 0x94, 0xe2, 255));
    assert_eq!(Color::from_hex("###2d2d2d80"), color(0x2d, 0x2d, 0x2d, 0x80));
    assert_eq!(Color::from_hex("zz94e2"), color(0, 0x94, 0xe2, 255));
    assert_eq!(Color::from_hex("5294e2zz"), color(0x52, 0x94, 0xe2, 255));
    assert_eq!(Color::from_hex("5294e27"), color(0x52, 0x94, 0xe2, 255));
    assert_eq!(Color::from_hex("5294e27fxyz"), color(0x52, 0x94, 0xe2, 0x7f));
    assert_eq!(Color::from_hex("é94e2"), color(0, 0x94, 0xe2, 255));
}

#[test]
fn the_lenient_reader_needs_three_pairs() {
    assert!(holds_pairs("#123456"));
    assert!(!holds_pairs("#12345"));
    assert!(!holds_pairs("###"));
    assert!(!holds_pairs("1é2345"));
    assert!(holds_pairs("1234567"));
    assert!(!holds_pairs("1234567é"));
    assert!(holds_pairs("12345678é"));
}

#[test]
fn both_readers_agree_on_written_colors() {
    for text in ["#5294e2", "00ff0080", "012345", "#FFFFFFFF"] {
        assert!(holds_pairs(text));
        assert_eq!(parse_color(text), Some(Color::from_hex(text)));
    }
}
