use richterm::options::{ConsoleOptions, Encoding};
use richterm::render_box::{
    ascii, ascii2, ascii_double_head, double, double_edge, draws_box, heavy, heavy_edge,
    heavy_head, horizontals, minimal, minimal_double_head, minimal_heavy_head, rounded, simple,
    simple_head, simple_heavy, square, square_double_head, RenderBox, RenderBoxLevel,
};

#[test]
fn test_string() {
    assert_eq!(
        ascii().to_string(),
        "+--+\n| ||\n|-+|\n| ||\n|-+|\n|-+|\n| ||\n+--+\n"
    );
}

#[test]
fn test_get_top() {
    assert_eq!(heavy().get_top(&[1, 2]), "┏━┳━━┓");
}

#[test]
fn test_get_row() {
    assert_eq!(
        double().get_row(&[3, 2, 1], Some(RenderBoxLevel::Head), None),
        "╠═══╬══╬═╣"
    );

    assert_eq!(
        ascii().get_row(&[1, 2, 3], Some(RenderBoxLevel::Row), None),
        "|-+--+---|"
    );

    assert_eq!(
        rounded().get_row(&[2, 1, 3], Some(RenderBoxLevel::Foot), None),
        "├──┼─┼───┤"
    );
}

#[test]
fn get_row_in_the_middle_and_without_edges() {
    assert_eq!(
        heavy_edge().get_row(&[2, 1], Some(RenderBoxLevel::Mid), None),
        "┃  │ ┃"
    );
    assert_eq!(
        square().get_row(&[2, 1], None, Some(false)),
        "──┼─"
    );
    assert_eq!(square().get_row(&[], None, None), "├┤");
    assert_eq!(square().get_top(&[0, 0]), "┌┬┐");
}

#[test]
fn test_get_bottom() {
    assert_eq!(heavy().get_bottom(&[1, 2, 3]), "┗━┻━━┻━━━┛");
}

#[test]
fn test_static_boxes_build() {
    ascii().clone();
    ascii2().clone();
    ascii_double_head().clone();
    square().clone();
    square_double_head().clone();
    minimal().clone();
    minimal_heavy_head().clone();
    minimal_double_head().clone();
    simple().clone();
    simple_head().clone();
    simple_heavy().clone();
    horizontals().clone();
    rounded().clone();
    heavy().clone();
    heavy_edge().clone();
    heavy_head().clone();
    double().clone();
    double_edge().clone();
}

#[test]
fn test_box_substitute() {
    let mut options = ConsoleOptions {
        legacy_windows: true,
        min_width: 1,
        max_width: 100,
        is_terminal: true,
        encoding: Encoding::new("utf-8"),
        justify: None,
        overflow: None,
        no_wrap: None,
        highlight: None,
    };

    assert_eq!(heavy().substitute(&options, None), square().clone());

    options.legacy_windows = false;
    assert_eq!(heavy().substitute(&options, None), heavy().clone());

    options.encoding = Encoding::new("ascii");
    assert_eq!(heavy().substitute(&options, None), ascii().clone());
}

#[test]
fn substitute_on_an_old_windows_console() {
    let options = ConsoleOptions {
        legacy_windows: true,
        min_width: 1,
        max_width: 100,
        is_terminal: true,
        encoding: Encoding::new("utf-8"),
        justify: None,
        overflow: None,
        no_wrap: None,
        highlight: None,
    };
    assert_eq!(rounded().substitute(&options, None), square());
    assert_eq!(minimal_heavy_head().substitute(&options, None), minimal());
    assert_eq!(simple_heavy().substitute(&options, None), simple());
    assert_eq!(heavy_edge().substitute(&options, None), square());
    assert_eq!(heavy_head().substitute(&options, None), square());
    assert_eq!(double().substitute(&options, None), double());
    assert_eq!(rounded().substitute(&options, Some(false)), rounded());
}

#[test]
fn a_box_is_eight_lines_of_four_characters() {
    assert!(draws_box("abcd\nabcd\nabcd\nabcd\nabcd\nabcd\nabcd\nabcd"));
    assert!(draws_box("abcde\nabcd\nabcd\nabcd\nabcd\nabcd\nabcd\nabcd\nmore"));
    assert!(!draws_box("abcd\nabcd\nabcd\nabcd\nabcd\nabcd\nabcd\nabc"));
    assert!(!draws_box("abcd\nabcd\nabcd\nabcd\nabcd\nabcd\nabcd"));
    assert!(!draws_box(""));
    let custom = RenderBox::new("abcde\n1234\nabcd\nabcd\nabcd\nabcd\nabcd\nwxyz\nmore", None);
    assert_eq!(custom.get_top(&[2]), "abbd");
    assert_eq!(custom.get_bottom(&[1, 1]), "wxyxz");
}
