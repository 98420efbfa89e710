use richterm::color::color::Color;
use richterm::segment::Segment;
use richterm::style::{StyleAttribute, StyleBuilder};

#[test]
fn test_line() {
    assert_eq!(Segment::line(None), Segment::new("\n", None, false))
}

#[test]
fn test_apply_style() {
    let bold = StyleBuilder::new()
        .with_attribute(StyleAttribute::bold(), true)
        .build();

    let segments = [
        Segment::new("foo", None, false),
        Segment::new("bar", Some(bold.clone()), false),
    ];
    let computed: Vec<Segment> = Segment::apply_style(&segments, None);
    assert_eq!(computed, segments);

    let italic = StyleBuilder::new()
        .with_attribute(StyleAttribute::italic(), true)
        .build();

    let italic_bold = StyleBuilder::new()
        .with_attribute(StyleAttribute::italic(), true)
        .with_attribute(StyleAttribute::bold(), true)
        .build();

    let expected = [
        Segment::new("foo", Some(italic.clone()), false),
        Segment::new("bar", Some(italic_bold), false),
    ];
    let computed: Vec<Segment> = Segment::apply_style(&segments, Some(italic));
    assert_eq!(computed, expected);
}

#[test]
fn apply_style_takes_the_style_off_control_segments() {
    let bold = StyleBuilder::new()
        .with_attribute(StyleAttribute::bold(), true)
        .build();
    let italic = StyleBuilder::new()
        .with_attribute(StyleAttribute::italic(), true)
        .build();
    let segments = [Segment::control("\x1b[2J", Some(bold))];
    assert_eq!(
        Segment::apply_style(&segments, Some(italic)),
        [Segment::control("\x1b[2J", None)]
    );
}

#[test]
fn test_split_lines() {
    let lines = [Segment::new("Hello\nWorld", None, false)];
    let expected = [
        [Segment::new("Hello", None, false)],
        [Segment::new("World", None, false)],
    ];
    let computed: Vec<Vec<Segment>> = Segment::split_lines(&lines);
    assert_eq!(computed, expected);
}

#[test]
fn split_lines_keeps_control_segments_whole() {
    let segments = [
        Segment::new("a\n", None, false),
        Segment::control("x\ny", None),
        Segment::new("\nb", None, false),
    ];
    let expected = vec![
        vec![Segment::new("a", None, false)],
        vec![Segment::control("x\ny", None), Segment::new("", None, false)],
        vec![Segment::new("b", None, false)],
    ];
    assert_eq!(Segment::split_lines(&segments), expected);
    let none: Vec<Vec<Segment>> = Vec::new();
    assert_eq!(Segment::split_lines(&[]), none);
}

#[test]
fn test_adjust_line_length() {
    let strike = StyleBuilder::new()
        .with_attribute(StyleAttribute::strike(), true)
        .build();

    let bold = StyleBuilder::new()
        .with_attribute(StyleAttribute::bold(), true)
        .build();

    let line = [Segment::new("Hello", Some(strike.clone()), false)];
    let expected = [
        Segment::new("Hello", Some(strike.clone()), false),
        Segment::new("     ", Some(bold.clone()), false),
    ];
    assert_eq!(
        Segment::adjust_line_length(&line, 10, Some(bold), None),
        expected
    );

    let line = [
        Segment::new("H", None, false),
        Segment::new("ello, World!", None, false),
    ];
    let expected = [
        Segment::new("H", None, false),
        Segment::new("ello", None, false),
    ];
    assert_eq!(Segment::adjust_line_length(&line, 5, None, None), expected);

    let line = [Segment::new("Hello", None, false)];
    assert_eq!(Segment::adjust_line_length(&line, 5, None, None), line);
}

#[test]
fn adjust_line_length_gives_the_length_asked_for() {
    let line = [
        Segment::new("ab", None, false),
        Segment::control("\x1b[1m", None),
        Segment::new("😽😽", None, false),
        Segment::new("cd", None, false),
    ];
    for length in 0..12 {
        let adjusted = Segment::adjust_line_length(&line, length, None, None);
        assert_eq!(Segment::get_line_length(&adjusted), length);
    }
    assert_eq!(
        Segment::adjust_line_length(&line, 5, None, None),
        [
            Segment::new("ab", None, false),
            Segment::control("\x1b[1m", None),
            Segment::new("😽 ", None, false),
        ]
    );
    assert_eq!(
        Segment::adjust_line_length(&line, 0, None, None),
        [Segment::new("", None, false)]
    );
}

#[test]
fn adjust_line_length_without_padding_leaves_a_short_line() {
    let line = [Segment::new("Hello", None, false)];
    assert_eq!(
        Segment::adjust_line_length(&line, 10, None, Some(false)),
        line
    );
}

#[test]
fn test_split_and_crop_lines() {
    let original = [
        Segment::new("Hello\nWorld!\n", None, false),
        Segment::new("foo", None, false),
    ];
    let result = Segment::split_and_crop_lines(&original, 4, None, None, None);
    let expected = [
        [Segment::new("Hell", None, false), Segment::line(None)],
        [Segment::new("Worl", None, false), Segment::line(None)],
        [
            Segment::new("foo", None, false),
            Segment::new(" ", None, false),
        ],
    ];
    assert_eq!(result, expected);
}

#[test]
fn split_and_crop_lines_without_line_breaks() {
    let original = [Segment::new("Hello\nWorld!\n", None, false)];
    let result = Segment::split_and_crop_lines(&original, 5, None, None, Some(false));
    let expected = [
        [Segment::new("Hello", None, false)],
        [Segment::new("World", None, false)],
    ];
    assert_eq!(result, expected);
}

#[test]
fn test_get_line_length() {
    let lines = [
        Segment::new("foo", None, false),
        Segment::new("bar", None, false),
    ];
    assert_eq!(Segment::get_line_length(&lines), 6)
}

#[test]
fn control_segments_take_no_cells() {
    assert_eq!(Segment::control("\x1b[31m", None).cell_len(), 0);
    assert_eq!(Segment::new("😽a", None, false).cell_len(), 3);
    let line = [
        Segment::new("foo", None, false),
        Segment::control("bar", None),
    ];
    assert_eq!(Segment::get_line_length(&line), 3);
}

#[test]
fn test_get_shape() {
    assert_eq!(
        Segment::get_shape(&[&[Segment::new("Hello", None, false)]]),
        (5, 1)
    );
    assert_eq!(
        Segment::get_shape(&[
            &[Segment::new("Hello", None, false)],
            &[Segment::new("World!", None, false)]
        ]),
        (6, 2)
    );
}

#[test]
fn get_shape_of_nothing() {
    assert_eq!(Segment::get_shape(&[]), (0, 0));
}

#[test]
fn test_set_shape() {
    let segment = Segment::new("Hello", None, false);
    let gap_segment = Segment::new("     ", None, false);
    assert_eq!(
        Segment::set_shape(&[&[segment.clone()]], 10, None, None),
        [[segment.clone(), gap_segment.clone()]]
    );

    assert_eq!(
        Segment::set_shape(&[&[segment.clone()]], 10, Some(2), None),
        [
            vec![segment.clone(), gap_segment.clone()],
            vec![Segment::new(&" ".repeat(10), None, false)]
        ]
    );
}

#[test]
fn set_shape_leaves_out_lines_beyond_the_height() {
    let first = Segment::new("Hello", None, false);
    let second = Segment::new("World!", None, false);
    assert_eq!(
        Segment::set_shape(&[&[first.clone()], &[second.clone()]], 3, Some(1), None),
        [[Segment::new("Hel", None, false)]]
    );
    let none: Vec<Vec<Segment>> = Vec::new();
    assert_eq!(Segment::set_shape(&[&[first]], 3, Some(0), None), none);
}

#[test]
fn test_simplify() {
    let segments = [
        Segment::new("Hello", None, false),
        Segment::new(" ", None, false),
        Segment::new("World!", None, false),
    ];
    let expected = [Segment::new("Hello World!", None, false)];
    assert_eq!(Segment::simplify(&segments), expected);

    let red_style = StyleBuilder::new()
        .with_color(Color::parse("red").unwrap())
        .build();
    let blue_style = StyleBuilder::new()
        .with_color(Color::parse("blue").unwrap())
        .build();
    let segments = [
        Segment::new("Hello", Some(red_style.clone()), false),
        Segment::new(" ", Some(red_style.clone()), false),
        Segment::new("World!", Some(blue_style.clone()), false),
    ];
    let expected = [
        Segment::new("Hello ", Some(red_style.clone()), false),
        Segment::new("World!", Some(blue_style.clone()), false),
    ];
    assert_eq!(Segment::simplify(&segments), expected);

    assert_eq!(Segment::simplify(&[]), []);
}

#[test]
fn simplify_twice_is_simplify_once() {
    let red_style = StyleBuilder::new()
        .with_color(Color::parse("red").unwrap())
        .build();
    let segments = [
        Segment::new("a", None, false),
        Segment::new("b", None, false),
        Segment::control("c", None),
        Segment::new("d", None, false),
        Segment::new("e", Some(red_style.clone()), false),
        Segment::new("f", Some(red_style.clone()), false),
        Segment::control("g", Some(red_style.clone())),
        Segment::control("h", Some(red_style.clone())),
    ];
    let once = Segment::simplify(&segments);
    let expected = [
        Segment::new("ab", None, false),
        Segment::control("c", None),
        Segment::new("d", None, false),
        Segment::new("ef", Some(red_style.clone()), false),
        Segment::control("g", Some(red_style.clone())),
        Segment::control("h", Some(red_style.clone())),
    ];
    assert_eq!(once, expected);
    assert_eq!(Segment::simplify(&once), once);
}

#[test]
fn test_filter_control() {
    let segments = [
        Segment::new("foo", None, false),
        Segment::new("bar", None, true),
    ];

    assert_eq!(
        Segment::filter_control(&segments, false)
            .into_iter()
            .cloned()
            .collect::<Vec<Segment>>(),
        [Segment::new("foo", None, false)]
    );

    assert_eq!(
        Segment::filter_control(&segments, true)
            .into_iter()
            .cloned()
            .collect::<Vec<Segment>>(),
        [Segment::new("bar", None, true)]
    )
}

#[test]
fn test_strip_styles() {
    let segments = [Segment::new(
        "foo",
        Some(
            StyleBuilder::new()
                .with_attribute(StyleAttribute::bold(), true)
                .build(),
        ),
        false,
    )];

    assert_eq!(
        Segment::strip_styles(&segments),
        [Segment::new("foo", None, false)]
    );
}

#[test]
fn test_strip_links() {
    let segments = [Segment::new(
        "foo",
        Some(
            StyleBuilder::new()
                .with_attribute(StyleAttribute::bold(), true)
                .with_link("https://www.example.org")
                .build(),
        ),
        false,
    )];

    assert_eq!(
        Segment::strip_links(&segments),
        [Segment::new(
            "foo",
            Some(
                StyleBuilder::new()
                    .with_attribute(StyleAttribute::bold(), true)
                    .build()
            ),
            false
        )]
    );
}

#[test]
fn make_control_keeps_text_and_style() {
    let bold = StyleBuilder::new()
        .with_attribute(StyleAttribute::bold(), true)
        .build();
    let segments = vec![
        Segment::new("foo", None, false),
        Segment::new("bar", Some(bold.clone()), false),
    ];
    assert_eq!(
        Segment::make_control(segments),
        [
            Segment::control("foo", None),
            Segment::control("bar", Some(bold)),
        ]
    );
}

#[test]
fn as_tuple_and_as_bool() {
    let segment = Segment::new("foo", None, true);
    assert_eq!(segment.as_tuple(), ("foo", &None, true));
    assert!(segment.as_bool());
    assert!(!Segment::new("", None, false).as_bool());
    assert_eq!(Segment::line(Some(true)), Segment::control("\n", None));
}
