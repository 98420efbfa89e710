use richterm::control::{strip_control_codes, Control, STRIP_CONTROL_CODES};
use richterm::options::{ConsoleOptions, Encoding, JustifyMethod, UpdateConsoleOptions};

fn options() -> ConsoleOptions {
    ConsoleOptions {
        legacy_windows: false,
        min_width: 1,
        max_width: 100,
        is_terminal: true,
        encoding: Encoding::new("utf-8"),
        justify: None,
        overflow: None,
        no_wrap: Some(true),
        highlight: None,
    }
}

#[test]
fn ascii_only_unless_utf8() {
    let mut o = options();
    assert!(!o.ascii_only());
    o.encoding = Encoding::new("latin-1");
    assert!(o.ascii_only());
}

#[test]
fn update_takes_over_what_is_given() {
    let mut o = options();
    o.update(UpdateConsoleOptions {
        width: Some(40),
        max_width: Some(60),
        justify: Some(JustifyMethod("center")),
        ..Default::default()
    });
    assert_eq!(o.min_width, 40);
    assert_eq!(o.max_width, 60);
    assert_eq!(o.justify.unwrap().0, "center");
    assert_eq!(o.no_wrap, Some(true));
    assert_eq!(o.highlight, None);
    assert!(o.overflow.is_none());
    o.update(Default::default());
    assert_eq!(o.min_width, 40);
    assert_eq!(o.max_width, 60);
}

#[test]
fn control_codes_are_stripped() {
    assert_eq!(
        strip_control_codes("a\x08b\x0Bc\x0Cd\re\n", &STRIP_CONTROL_CODES),
        "abcde\n"
    );
    assert_eq!(strip_control_codes("abc", &[]), "abc");
    assert_eq!(strip_control_codes("abcabc", &['b', 'c']), "aa");
    assert_eq!(Control::new("\x1b[2J").to_string(), "\x1b[2J");
}
