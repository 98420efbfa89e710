use richterm::color::color::{Color, ColorSystem, ColorType};
use richterm::style::{Style, StyleAttribute, StyleBuilder, StyleStack};

#[test]
fn test_str() {
    assert_eq!(
        StyleBuilder::new()
            .with_attribute(StyleAttribute::bold(), false)
            .build()
            .to_string(),
        "not bold"
    );

    assert_eq!(
        StyleBuilder::new()
            .with_color(Color::parse("red").unwrap())
            .with_attribute(StyleAttribute::bold(), false)
            .build()
            .to_string(),
        "not bold red"
    );

    assert_eq!(
        StyleBuilder::new()
            .with_color(Color::parse("red").unwrap())
            .with_attribute(StyleAttribute::bold(), false)
            .with_attribute(StyleAttribute::italic(), true)
            .build()
            .to_string(),
        "not bold italic red"
    );

    assert_eq!(Style::null().to_string(), "none");

    assert_eq!(
        StyleBuilder::new()
            .with_attribute(StyleAttribute::bold(), true)
            .build()
            .to_string(),
        "bold"
    );

    assert_eq!(
        StyleBuilder::new()
            .with_color(Color::parse("red").unwrap())
            .with_attribute(StyleAttribute::bold(), true)
            .build()
            .to_string(),
        "bold red"
    );

    assert_eq!(
        StyleBuilder::new()
            .with_color(Color::parse("red").unwrap())
            .with_background_color(Color::parse("black").unwrap())
            .with_attribute(StyleAttribute::bold(), true)
            .build()
            .to_string(),
        "bold red on black"
    );

    let all_styles_builder = StyleBuilder::new()
        .with_color(Color::parse("red").unwrap())
        .with_background_color(Color::parse("black").unwrap());
    let all_styles_builder = StyleAttribute::all_flags()
        .iter()
        .fold(all_styles_builder, |builder, flag| {
            builder.with_attribute(*flag, true)
        });
    let all_styles_expected = "bold dim italic underline blink blink2 reverse conceal strike underline2 frame encircle overline red on black";
    assert_eq!(all_styles_builder.build().to_string(), all_styles_expected);

    assert_eq!(
        StyleBuilder::new().with_link("foo").build().to_string(),
        "link foo"
    );
}

#[test]
fn test_ansi_codes() {
    let all_styles_builder = StyleBuilder::new()
        .with_color(Color::parse("red").unwrap())
        .with_background_color(Color::parse("black").unwrap());
    let all_styles_builder = StyleAttribute::all_flags()
        .iter()
        .fold(all_styles_builder, |builder, flag| {
            builder.with_attribute(*flag, true)
        });

    let expected_ansi_codes = "1;2;3;4;5;6;7;8;9;21;51;52;53;31;40";

    assert_eq!(
        all_styles_builder
            .build()
            .ansi_codes(ColorSystem::TrueColor),
        expected_ansi_codes
    );
}

#[test]
fn test_eq() {
    let red_builder = StyleBuilder::new()
        .with_attribute(StyleAttribute::bold(), true)
        .with_color(Color::parse("red").unwrap());
    let green_builder = StyleBuilder::new()
        .with_attribute(StyleAttribute::bold(), true)
        .with_color(Color::parse("green").unwrap());
    assert_eq!(red_builder.clone().build(), red_builder.clone().build());
    assert_ne!(red_builder.build(), green_builder.build());
}

#[test]
fn styles_with_other_background_colours_differ() {
    let on_red = StyleBuilder::new()
        .with_background_color(Color::parse("red").unwrap())
        .build();
    let on_blue = StyleBuilder::new()
        .with_background_color(Color::parse("blue").unwrap())
        .build();
    assert_ne!(on_red, on_blue);
}

#[test]
fn test_empty() {
    assert_eq!(Style::null(), Style::default());
}

#[test]
fn test_bool() {
    assert_eq!(Style::null().as_bool(), false);
    assert_eq!(
        StyleBuilder::new()
            .with_attribute(StyleAttribute::bold(), true)
            .build()
            .as_bool(),
        true
    );
    assert_eq!(
        StyleBuilder::new()
            .with_color(Color::parse("red").unwrap())
            .build()
            .as_bool(),
        true
    );
    assert_eq!(Style::parse("").unwrap().as_bool(), false);
}

#[test]
fn test_color_property() {
    assert_eq!(
        *StyleBuilder::new()
            .with_color(Color::parse("red").unwrap())
            .build()
            .color()
            .unwrap(),
        Color {
            name: "red".to_string(),
            color_type: ColorType::Standard,
            number: Some(1),
            triplet: None
        }
    )
}

#[test]
fn test_background_color_property() {
    assert_eq!(
        *StyleBuilder::new()
            .with_background_color(Color::parse("black").unwrap())
            .build()
            .background_color()
            .unwrap(),
        Color {
            name: "black".to_string(),
            color_type: ColorType::Standard,
            number: Some(0),
            triplet: None
        }
    )
}

#[test]
fn test_parse_success() {
    assert_eq!(
        Style::parse("").expect("a 'null' style was expected"),
        Style::null()
    );

    assert_eq!(
        Style::parse("red").expect("a 'red' only style"),
        Style::new(Color::parse("red").ok(), None, &[], None)
    );

    assert_eq!(
        Style::parse("not bold").expect("a 'not bold' style"),
        StyleBuilder::new()
            .with_attribute(StyleAttribute::bold(), false)
            .build()
    );

    assert_eq!(
        Style::parse("bold red on black").expect("a 'bold red on black' style"),
        StyleBuilder::new()
            .with_color(Color::parse("red").unwrap())
            .with_background_color(Color::parse("black").unwrap())
            .with_attribute(StyleAttribute::bold(), true)
            .build()
    );

    assert_eq!(
        Style::parse("bold link https://example.org").expect("a style with a bold link"),
        StyleBuilder::new()
            .with_attribute(StyleAttribute::bold(), true)
            .with_link("https://example.org")
            .build()
    )
}

#[test]
fn test_parse_fails() {
    assert!(Style::parse("on").is_err());
    assert!(Style::parse("on nothing").is_err());
    assert!(Style::parse("rgb(999,999,999)").is_err());
    assert!(Style::parse("not monkey").is_err());
    assert!(Style::parse("link").is_err());
}

#[test]
fn parse_errors_say_what_is_wrong() {
    assert_eq!(
        Style::parse("on").unwrap_err().to_string(),
        "color expected after 'on'"
    );
    assert_eq!(
        Style::parse("bold link").unwrap_err().to_string(),
        "URL expected after 'link'"
    );
    assert_eq!(
        Style::parse("not monkey").unwrap_err().to_string(),
        "style attribute expected after 'not', found: monkey"
    );
    assert_eq!(
        Style::parse("not").unwrap_err().to_string(),
        "style attribute expected after 'not', found: "
    );
    assert_eq!(
        Style::parse("rgb(999,999,999)").unwrap_err().to_string(),
        "Color rgb(999,999,999) could not be parsed due to: red component must be <= 255"
    );
    assert_eq!(
        Style::parse("on nothing").unwrap_err().to_string(),
        "Color nothing could not be parsed due to: unable to match color"
    );
}

#[test]
fn parse_reads_names_in_any_case_and_short_names() {
    assert_eq!(
        Style::parse("  BOLD  Red ON Black ").unwrap().to_string(),
        "bold red on black"
    );
    assert_eq!(Style::parse("b i not u").unwrap().to_string(), "bold italic not underline");
    assert_eq!(Style::parse(" none ").unwrap(), Style::null());
    assert_eq!(Style::normalize("  BOLD  Red "), "bold red");
    assert_eq!(Style::normalize(" On "), "on");
    assert_eq!(Style::normalize("none"), "none");
}

#[test]
fn test_background_style() {
    assert_eq!(
        StyleBuilder::new()
            .with_background_color(Color::parse("red").expect("a red color"))
            .with_color(Color::parse("yellow").expect("a yellow color"))
            .with_attribute(StyleAttribute::bold(), true)
            .build()
            .background_style(),
        StyleBuilder::new()
            .with_background_color(Color::parse("red").expect("a red color"))
            .build()
    );
}

#[test]
fn test_link_id() {
    assert_eq!(Style::null().link_id(), "");
    assert_eq!(Style::parse("").expect("null style expected").link_id(), "");
    assert_eq!(Style::parse("red").expect("a red only style").link_id(), "");
    assert!(
        Style::parse("red link https://example.org")
            .expect("a red link style")
            .link_id()
            .len()
            > 1
    );
}

#[test]
fn link_ids_are_36_characters_and_fresh() {
    let first = StyleBuilder::new().with_link("https://example.org").build();
    let second = StyleBuilder::new().with_link("https://example.org").build();
    assert_eq!(first.link_id().chars().count(), 36);
    assert_ne!(first.link_id(), second.link_id());
    assert_eq!(first, second);
}

#[test]
fn test_get_html_style() {
    let expected = "color: #7f7fbf; background-color: #800000; font-weight: bold; font-style: italic; text-decoration: underline; text-decoration: line-through; text-decoration: overline";
    let style = Style::new(
        Color::parse("red").ok(),
        Color::parse("blue").ok(),
        &[
            (StyleAttribute::reverse(), true),
            (StyleAttribute::dim(), true),
            (StyleAttribute::bold(), true),
            (StyleAttribute::italic(), true),
            (StyleAttribute::underline(), true),
            (StyleAttribute::strike(), true),
            (StyleAttribute::overline(), true),
        ],
        None,
    );
    assert_eq!(style.get_html_style(None), expected);
}

#[test]
fn html_style_of_the_null_style_is_empty() {
    assert_eq!(Style::null().get_html_style(None), "");
    assert_eq!(
        Style::parse("dim").unwrap().get_html_style(None),
        "color: #7f7f7f"
    );
}

#[test]
fn test_chain() {
    let red = StyleBuilder::new()
        .with_color(Color::parse("red").expect("a red color"))
        .build();
    let bold = StyleBuilder::new()
        .with_attribute(StyleAttribute::bold(), true)
        .build();
    let expected = StyleBuilder::new()
        .with_color(Color::parse("red").expect("a red color"))
        .with_attribute(StyleAttribute::bold(), true)
        .build();
    let styles = [Some(&red), Some(&bold)];
    assert_eq!(Style::chain(&styles), expected);
}

#[test]
fn test_copy() {
    let style = StyleBuilder::new()
        .with_color(Color::parse("red").expect("red color"))
        .with_background_color(Color::parse("black").expect("black color"))
        .with_attribute(StyleAttribute::italic(), true)
        .with_link("https://foo.bar")
        .build();
    assert_eq!(style.clone(), style.clone());
    assert_ne!(style.clone().link_id(), style.link_id());
}

#[test]
fn test_render() {
    assert_eq!(
        StyleBuilder::new()
            .with_color(Color::parse("red").expect("a red color"))
            .build()
            .render("foo1", None, None),
        "foo1"
    );

    assert_eq!(
        StyleBuilder::new()
            .with_color(Color::parse("red").expect("a red color"))
            .with_background_color(Color::parse("black").expect("a black color"))
            .with_attribute(StyleAttribute::bold(), true)
            .build()
            .render("foo2", Some(ColorSystem::TrueColor), None),
        "\x1b[1;31;40mfoo2\x1b[0m"
    );

    assert_eq!(Style::null().render("foo3", None, None), "foo3");
}

#[test]
fn render_wraps_a_link_around_the_text() {
    let style = StyleBuilder::new()
        .with_attribute(StyleAttribute::bold(), true)
        .with_link("https://example.org")
        .build();
    let id = style.link_id().to_string();
    assert_eq!(
        style.render("foo", Some(ColorSystem::Standard), None),
        format!("\x1b]8;id={};https://example.org\x1b\\\x1b[1mfoo\x1b[0m\x1b]8;;\x1b\\", id)
    );
    assert_eq!(
        style.render("foo", Some(ColorSystem::Standard), Some(true)),
        "\x1b[1mfoo\x1b[0m"
    );
    assert_eq!(style.render("", Some(ColorSystem::Standard), None), "");
}

#[test]
fn test_combine() {
    let red = StyleBuilder::new()
        .with_color(Color::parse("red").expect("a red color"))
        .build();
    let bold = StyleBuilder::new()
        .with_attribute(StyleAttribute::bold(), true)
        .build();
    let expected = StyleBuilder::new()
        .with_color(Color::parse("red").expect("a red color"))
        .with_attribute(StyleAttribute::bold(), true)
        .build();
    assert_eq!(red.combine(None), red);
    assert_eq!(red.combine(Some(&bold)), expected)
}

#[test]
fn combine_lets_the_first_style_stand() {
    let red_not_bold = Style::parse("not bold red").unwrap();
    let blue_bold_italic = Style::parse("bold italic blue on black").unwrap();
    let combined = red_not_bold.combine(Some(&blue_bold_italic));
    assert_eq!(combined.to_string(), "not bold italic red on black");
    assert_eq!(combined.bold(), Some(false));
    assert_eq!(combined.italic(), Some(true));
    assert_eq!(combined.dim(), None);
}

#[test]
fn test_pick_first() {
    let void: Vec<Option<&Style>> = vec![];
    assert!(Style::pick_first(&void).is_none());
}

#[test]
fn pick_first_takes_the_first_style_that_is_there() {
    let red = Style::parse("red").unwrap();
    let bold = Style::parse("bold").unwrap();
    assert_eq!(Style::pick_first(&[None, Some(&red), Some(&bold)]), Some(red.clone()));
    assert_eq!(Style::pick_first(&[None, None]), None);
}

#[test]
fn test_style_stack() {
    let red = StyleBuilder::new()
        .with_color(Color::parse("red").expect("a red color"))
        .build();
    let bold = StyleBuilder::new()
        .with_attribute(StyleAttribute::bold(), true)
        .build();
    let expected = StyleBuilder::new()
        .with_color(Color::parse("red").expect("a red color"))
        .with_attribute(StyleAttribute::bold(), true)
        .build();

    let mut stack = StyleStack::new(red.clone());
    assert_eq!(*stack.current(), red.clone());

    stack.push(bold.clone());
    assert_eq!(*stack.current(), expected);

    stack.pop();
    assert_eq!(*stack.current(), red);
}

#[test]
fn style_stack_keeps_its_last_style() {
    let red = Style::parse("red").unwrap();
    let mut stack = StyleStack::new(red.clone());
    assert_eq!(stack.pop(), red);
    assert_eq!(stack.pop(), red);
    assert_eq!(*stack.current(), red);
}

#[test]
fn attributes_are_on_off_or_not_set() {
    let style = Style::parse("bold not italic").unwrap();
    assert_eq!(style.bold(), Some(true));
    assert_eq!(style.italic(), Some(false));
    assert_eq!(style.underline(), None);
    assert_eq!(style.blink(), None);
    assert_eq!(style.blink2(), None);
    assert_eq!(style.reverse(), None);
    assert_eq!(style.conceal(), None);
    assert_eq!(style.strike(), None);
    assert_eq!(style.underline2(), None);
    assert_eq!(style.frame(), None);
    assert_eq!(style.encircle(), None);
    assert_eq!(style.overline(), None);
    assert_eq!(style.style_definition(), "bold not italic");
    assert_eq!(style.link(), &None);
    assert!(StyleAttribute::from_bits(3).enabled(StyleAttribute::bold()));
    assert!(!StyleAttribute::from_bits(2).enabled(StyleAttribute::bold()));
    assert_eq!(StyleAttribute::default().bits(), 0);
}

#[test]
fn transparent_background_is_the_default_colour() {
    assert!(Style::parse("on default").unwrap().transparent_background());
    assert!(!Style::parse("on red").unwrap().transparent_background());
    assert!(!Style::parse("red").unwrap().transparent_background());
}

#[test]
fn from_color_and_update_link() {
    let style = Style::from_color(Color::parse("red").ok(), None);
    assert!(style.as_bool());
    assert_eq!(style.to_string(), "none");
    assert!(!Style::from_color(None, None).as_bool());
    let linked = Style::parse("bold link https://example.org").unwrap();
    assert_eq!(linked.update_link(None), Style::parse("bold").unwrap());
    assert_eq!(
        linked.update_link(Some("https://other.org")).link(),
        &Some("https://other.org".to_string())
    );
}

#[test]
fn builder_reads_attributes_by_name() {
    let style = StyleBuilder::new()
        .attribute_from_str("uu", true)
        .attribute_from_str("dim", false)
        .attribute_from_str("monkey", true)
        .build();
    assert_eq!(style.to_string(), "not dim underline2");
}
