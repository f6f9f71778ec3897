use ers::color::Color;
use ers::config::{Config, Request};
use ers::geometry::POINT;
use ers::options::{flag_value, read_invocation, Invocation, Options};
use ers::text::{parse_i32, parse_u32, same_text};

fn args(words: &[&str]) -> Vec<String> {
    words.iter().map(|w| w.to_string()).collect()
}

fn lengths(args: &[String]) -> Vec<Option<i64>> {
    args.iter()
        .map(|a| a.parse::<f64>().ok().map(|v| (v * POINT as f64).round() as i64))
        .collect()
}

fn invoke(words: &[&str]) -> Invocation {
    let args = args(words);
    read_invocation(&args, &lengths(&args))
}

fn usual() -> Options {
    Options {
        border_width: 4 * POINT,
        radius: 10 * POINT,
        active_color: Color { r: 0x52, g: 0x94, b: 0xe2, a: 0xff },
        inactive_color: Color { r: 0x59, g: 0x59, b: 0x59, a: 0x80 },
        active_only: false,
        target: None,
    }
}

fn configure(words: &[&str]) -> Request {
    let args = args(words);
    Config::from_args(&args, &lengths(&args))
}

fn config(words: &[&str]) -> Config {
    match configure(words) {
        Request::Run(c) => c,
        other => panic!("{other:?}"),
    }
}

#[test]
fn a_flag_has_the_value_behind_it() {
    let a = args(&["ers", "-w", "3", "--width", "5"]);
    assert_eq!(flag_value(&a, &["--width", "-w"]), Some("3"));
    assert_eq!(flag_value(&a, &["--width"]), Some("5"));
    assert_eq!(flag_value(&a, &["--radius"]), None);
}

#[test]
fn the_first_flag_decides() {
    let a = args(&["ers", "-w", "--width"]);
    assert_eq!(flag_value(&a, &["--width"]), None);
    assert_eq!(flag_value(&a, &["-w", "--width"]), Some("--width"));
    assert_eq!(flag_value(&[], &["-w"]), None);
}

#[test]
fn without_arguments_the_documented_defaults_hold() {
    assert_eq!(invoke(&["ers"]), Invocation::Run(usual()));
    assert_eq!(invoke(&[]), Invocation::Run(usual()));
}

#[test]
fn every_option_is_read() {
    assert_eq!(
        invoke(&[
            "ers", "-w", "2.5", "--radius", "0", "-c", "#010203", "--inactive", "04050607",
            "--active-only",
        ]),
        Invocation::Run(Options {
            border_width: 2 * POINT + POINT / 2,
            radius: 0,
            active_color: Color { r: 1, g: 2, b: 3, a: 255 },
            inactive_color: Color { r: 4, g: 5, b: 6, a: 7 },
            active_only: true,
            target: None,
        })
    );
}

#[test]
fn values_that_cannot_be_read_are_passed_over() {
    assert_eq!(
        invoke(&["ers", "-w", "wide", "-r", "-c", "blue", "-i"]),
        Invocation::Run(usual())
    );
}

#[test]
fn help_and_list_come_first() {
    assert_eq!(invoke(&["ers", "--list", "-h"]), Invocation::Help);
    assert_eq!(invoke(&["ers", "-c", "--help"]), Invocation::Help);
    assert_eq!(invoke(&["ers", "--list", "-c", "1é234"]), Invocation::List);
    assert_eq!(invoke(&["ers", "-w", "--list"]), Invocation::Run(usual()));
}

#[test]
fn a_color_with_cut_characters_is_passed_over() {
    assert_eq!(invoke(&["ers", "-c", "#1é234"]), Invocation::Run(usual()));
    assert_eq!(invoke(&["ers", "--inactive", "1é234"]), Invocation::Run(usual()));
}

#[test]
fn the_first_argument_can_be_a_window() {
    let target = |word| match invoke(&["ers", word]) {
        Invocation::Run(o) => o.target,
        other => panic!("{other:?}"),
    };
    assert_eq!(target("42"), Some(42));
    assert_eq!(target("+42"), Some(42));
    assert_eq!(target("4294967295"), Some(u32::MAX));
    assert_eq!(target("4294967296"), None);
    assert_eq!(target("-1"), None);
    assert_eq!(target("--active-only"), None);
    assert_eq!(invoke(&["ers", "-w", "42"]), Invocation::Run(Options {
        border_width: 42 * POINT,
        ..usual()
    }));
}

#[test]
fn numbers_are_read_as_by_the_standard_library() {
    for text in [
        "", "0", "7", "+7", "-7", "+", "-", "+-1", "007", "12a", " 1", "4294967295", "4294967296",
        "99999999999999999999", "2147483647", "2147483648", "-2147483648", "-2147483649", "é",
    ] {
        assert_eq!(parse_u32(text), text.parse::<u32>().ok(), "{text}");
        assert_eq!(parse_i32(text), text.parse::<i32>().ok(), "{text}");
    }
}

#[test]
fn texts_are_compared_whole() {
    assert!(same_text("--width", "--width"));
    assert!(!same_text("--width", "--widt"));
    assert!(!same_text("--width", "--widtH"));
    assert!(same_text("", ""));
    assert!(same_text("é", "é"));
}

#[test]
fn the_tracker_has_defaults_of_its_own() {
    let c = Config::default();
    assert_eq!(c.border_width, 4 * POINT);
    assert_eq!(c.radius, 10 * POINT);
    assert_eq!(c.active_color, Color::from_hex("#5294e2"));
    assert_eq!(c.inactive_color, Color::from_hex("#2d2d2d80"));
    assert_eq!(c.border_order, -1);
    assert!(c.hidpi && !c.active_only && !c.standalone);
    assert_eq!((c.tarmac_socket, c.test_wid), (None, None));
    assert_eq!(config(&["ers"]).border_width, 4 * POINT);
}

#[test]
fn every_tracker_option_is_read() {
    let c = config(&[
        "ers", "--width", "2", "-c", "#010203", "-i", "04050607", "-r", "3", "--active-only",
        "--standalone", "--tarmac", "/tmp/sock", "--test-wid", "9", "--order", "above",
        "--no-hidpi",
    ]);
    assert_eq!(c.border_width, 2 * POINT);
    assert_eq!(c.active_color, Color { r: 1, g: 2, b: 3, a: 255 });
    assert_eq!(c.inactive_color, Color { r: 4, g: 5, b: 6, a: 7 });
    assert_eq!(c.radius, 3 * POINT);
    assert!(c.active_only && c.standalone && !c.hidpi);
    assert_eq!(c.tarmac_socket.as_deref(), Some("/tmp/sock"));
    assert_eq!(c.test_wid, Some(9));
    assert_eq!(c.border_order, 1);
}

#[test]
fn the_order_is_a_word_or_a_number() {
    assert_eq!(config(&["ers", "--order", "below"]).border_order, -1);
    assert_eq!(config(&["ers", "--order", "above"]).border_order, 1);
    assert_eq!(config(&["ers", "--order", "5"]).border_order, 5);
    assert_eq!(config(&["ers", "--order", "up"]).border_order, -1);
}

#[test]
fn missing_and_wrong_values_keep_what_was() {
    assert_eq!(config(&["ers", "-w", "2", "-w", "x"]).border_width, 2 * POINT);
    assert_eq!(config(&["ers", "-w"]).border_width, 4 * POINT);
    assert_eq!(config(&["ers", "--test-wid", "9", "--test-wid", "x"]).test_wid, None);
    assert_eq!(config(&["ers", "--test-wid", "9", "--test-wid"]).test_wid, Some(9));
    assert_eq!(config(&["ers", "--tarmac", "a", "--tarmac"]).tarmac_socket, None);
    assert_eq!(config(&["ers", "-w", "-h"]).border_width, 4 * POINT);
}

#[test]
fn help_version_and_unknown_options_end_the_reading() {
    assert!(matches!(configure(&["ers", "-w", "1", "--help", "--what"]), Request::Help));
    assert!(matches!(configure(&["ers", "-h"]), Request::Help));
    assert!(matches!(configure(&["ers", "-v"]), Request::Version));
    assert!(matches!(configure(&["ers", "--version"]), Request::Version));
    assert!(matches!(configure(&["ers", "-w", "1", "--what"]), Request::UnknownOption(3)));
    assert!(matches!(configure(&["ers", "7"]), Request::UnknownOption(1)));
}

#[test]
fn colors_too_short_for_the_tracker_end_the_reading() {
    assert!(matches!(configure(&["ers", "-c", "#123"]), Request::BadColor(2)));
    assert!(matches!(configure(&["ers", "-i", "1é2345"]), Request::BadColor(2)));
    assert!(matches!(configure(&["ers", "-h", "-c", "#123"]), Request::Help));
}
