use richterm::color::color::{
    eight_bit_color, eightbit_2_standard, eightbit_2_windows, parse_rgb_hex, truecolor_2_eightbit,
    truecolor_2_standard, truecolor_2_windows, Color, ColorSystem, ColorType, Error,
};
use richterm::color::palette::Palette;
use richterm::color::terminal_theme::TerminalTheme;
use richterm::color::triplet::{blend_half, ColorTriplet};

fn message(result: Result<Color, Error>) -> String {
    match result {
        Err(Error::ParseColor { original: _, message }) => message,
        Ok(_) => panic!("an error was expected"),
    }
}

#[test]
fn parse_names() {
    let red = Color::parse("red").unwrap();
    assert_eq!(red.name, "red");
    assert_eq!(red.color_type, ColorType::Standard);
    assert_eq!(red.number, Some(1));
    assert_eq!(red.triplet, None);
    let grey = Color::parse("  GREY93 ").unwrap();
    assert_eq!(grey.name, "grey93");
    assert_eq!(grey.color_type, ColorType::EightBit);
    assert_eq!(grey.number, Some(255));
    assert_eq!(Color::parse("default").unwrap(), Color::default());
    assert!(Color::parse("default").unwrap().is_default());
}

#[test]
fn parse_hex_number_and_rgb() {
    let hex = Color::parse("#FF8000").unwrap();
    assert_eq!(hex.name, "#ff8000");
    assert_eq!(hex.color_type, ColorType::TrueColor);
    assert_eq!(hex.triplet, Some(ColorTriplet { red: 255, green: 128, blue: 0 }));
    let number = Color::parse("color(9)").unwrap();
    assert_eq!(number.color_type, ColorType::Standard);
    assert_eq!(number.number, Some(9));
    let number = Color::parse("color(100)").unwrap();
    assert_eq!(number.color_type, ColorType::EightBit);
    assert_eq!(number.number, Some(100));
    let rgb = Color::parse("rgb(1,20,255)").unwrap();
    assert_eq!(rgb.name, "rgb(1,20,255)");
    assert_eq!(rgb.triplet, Some(ColorTriplet { red: 1, green: 20, blue: 255 }));
}

#[test]
fn parse_errors() {
    assert_eq!(message(Color::parse("nothing")), "unable to match color");
    assert_eq!(message(Color::parse("")), "unable to match color");
    assert_eq!(message(Color::parse("#ff80")), "unable to match color");
    assert_eq!(message(Color::parse("#ff800g")), "unable to match color");
    assert_eq!(message(Color::parse("color(1234)")), "unable to match color");
    assert_eq!(message(Color::parse("color(256)")), "color number must be <= 255");
    assert_eq!(message(Color::parse("rgb(1,2)")), "expected three components (r, g, b)");
    assert_eq!(message(Color::parse("rgb(1,2,3,4)")), "expected three components (r, g, b)");
    assert_eq!(message(Color::parse("rgb(256,2,3)")), "red component must be <= 255");
    assert_eq!(message(Color::parse("rgb(1, 2,3)")), "green component must be <= 255");
    assert_eq!(message(Color::parse("rgb(1,2,)")), "blue component must be <= 255");
    let error = Color::parse(" Nothing ").unwrap_err();
    assert_eq!(
        error.to_string(),
        "Color  Nothing  could not be parsed due to: unable to match color"
    );
}

#[test]
fn colors_by_number_and_components() {
    let color = Color::from_ansi(7);
    assert_eq!(color.name, "color(7)");
    assert_eq!(color.color_type, ColorType::Standard);
    assert!(color.is_system_defined());
    let color = Color::from_ansi(200);
    assert_eq!(color.name, "color(200)");
    assert_eq!(color.color_type, ColorType::EightBit);
    assert_eq!(color.system(), ColorSystem::EightBit);
    assert!(!color.is_system_defined());
    let color = Color::from_rgb((255, 0, 10));
    assert_eq!(color.name, "#ff000a");
    assert_eq!(color.triplet, Some(ColorTriplet { red: 255, green: 0, blue: 10 }));
    assert_eq!(color, Color::from_triplet(ColorTriplet::from((255, 0, 10))));
    assert_eq!(Color::default().system(), ColorSystem::Standard);
}

#[test]
fn triplets_in_css() {
    let triplet = ColorTriplet { red: 127, green: 0, blue: 255 };
    assert_eq!(triplet.hex(), "#7f00ff");
    assert_eq!(triplet.rgb(), "rgb(127,0,255)");
    assert_eq!(triplet.as_raw(), (127, 0, 255));
    assert_eq!(parse_rgb_hex("7f00FF"), triplet);
    assert_eq!(
        blend_half(triplet, ColorTriplet { red: 0, green: 1, blue: 0 }),
        ColorTriplet { red: 63, green: 0, blue: 127 }
    );
}

#[test]
fn ansi_codes() {
    assert_eq!(Color::default().get_ansi_codes(Some(true)), ["39"]);
    assert_eq!(Color::default().get_ansi_codes(None), ["49"]);
    assert_eq!(Color::from_ansi(1).get_ansi_codes(Some(true)), ["31"]);
    assert_eq!(Color::from_ansi(1).get_ansi_codes(Some(false)), ["41"]);
    assert_eq!(Color::from_ansi(9).get_ansi_codes(Some(true)), ["91"]);
    assert_eq!(Color::from_ansi(9).get_ansi_codes(Some(false)), ["101"]);
    assert_eq!(Color::from_ansi(100).get_ansi_codes(Some(true)), ["38", "5", "100"]);
    assert_eq!(Color::from_ansi(100).get_ansi_codes(None), ["48", "5", "100"]);
    assert_eq!(
        Color::from_rgb((1, 20, 255)).get_ansi_codes(Some(true)),
        ["38", "2", "1", "20", "255"]
    );
    assert_eq!(eightbit_2_windows("x", 3).get_ansi_codes(Some(true)), ["33"]);
}

#[test]
fn true_colors() {
    let theme = TerminalTheme::new((1, 2, 3), (4, 5, 6), &[(7, 8, 9), (10, 11, 12)], None);
    assert_eq!(theme.ansi_colors.len(), 4);
    assert_eq!(theme.ansi_colors.get(3), (10, 11, 12));
    assert_eq!(
        Color::default().get_true_color(Some(&theme), Some(true)),
        ColorTriplet { red: 4, green: 5, blue: 6 }
    );
    assert_eq!(
        Color::default().get_true_color(Some(&theme), None),
        ColorTriplet { red: 1, green: 2, blue: 3 }
    );
    assert_eq!(
        Color::from_ansi(1).get_true_color(Some(&theme), None),
        ColorTriplet { red: 10, green: 11, blue: 12 }
    );
    assert_eq!(
        Color::from_ansi(1).get_true_color(None, None),
        ColorTriplet { red: 128, green: 0, blue: 0 }
    );
    assert_eq!(
        Color::from_ansi(196).get_true_color(None, None),
        ColorTriplet { red: 255, green: 0, blue: 0 }
    );
    assert_eq!(
        Color::from_rgb((9, 8, 7)).get_true_color(None, None),
        ColorTriplet { red: 9, green: 8, blue: 7 }
    );
    assert_eq!(
        eightbit_2_windows("x", 9).get_true_color(None, None),
        ColorTriplet { red: 170, green: 0, blue: 0 }
    );
    assert_eq!(eight_bit_color(16), (0, 0, 0));
    assert_eq!(eight_bit_color(231), (255, 255, 255));
    assert_eq!(eight_bit_color(67), (95, 135, 175));
    assert_eq!(eight_bit_color(232), (8, 8, 8));
    assert_eq!(eight_bit_color(255), (238, 238, 238));
}

#[test]
fn downgrade() {
    let red = Color::from_rgb((255, 0, 0));
    assert_eq!(red.downgrade(ColorSystem::TrueColor), red);
    assert_eq!(Color::default().downgrade(ColorSystem::EightBit), Color::default());
    let eight = red.downgrade(ColorSystem::EightBit);
    assert_eq!(eight.color_type, ColorType::EightBit);
    assert_eq!(eight.number, Some(196));
    assert_eq!(eight.name, "#ff0000");
    assert_eq!(truecolor_2_eightbit("x", ColorTriplet { red: 0, green: 0, blue: 0 }).number, Some(16));
    assert_eq!(
        truecolor_2_eightbit("x", ColorTriplet { red: 255, green: 255, blue: 255 }).number,
        Some(231)
    );
    assert_eq!(
        truecolor_2_eightbit("x", ColorTriplet { red: 128, green: 128, blue: 128 }).number,
        Some(244)
    );
    let standard = red.downgrade(ColorSystem::Standard);
    assert_eq!(standard.color_type, ColorType::Standard);
    assert_eq!(standard.number, Some(1));
    assert_eq!(
        Color::from_rgb((255, 100, 100)).downgrade(ColorSystem::Standard).number,
        Some(9)
    );
    assert_eq!(truecolor_2_standard("x", ColorTriplet { red: 0, green: 0, blue: 160 }).number, Some(4));
    assert_eq!(eightbit_2_standard("x", 21).number, Some(4));
    assert_eq!(
        truecolor_2_windows("x", ColorTriplet { red: 200, green: 10, blue: 30 }).number,
        Some(1)
    );
    let windows = Color::from_ansi(100).downgrade(ColorSystem::Windows);
    assert_eq!(windows.color_type, ColorType::Windows);
    assert_eq!(eightbit_2_windows("x", 5).number, Some(5));
    assert_eq!(eightbit_2_windows("x", 13).number, Some(5));
    assert_eq!(eightbit_2_windows("x", 196).number, Some(1));
    assert_eq!(
        Color::from_ansi(3).downgrade(ColorSystem::EightBit),
        Color::from_ansi(3)
    );
}

#[test]
fn palette_matches_the_nearest_colour_and_the_first_of_equals() {
    let palette = Palette::new(vec![(0, 0, 0), (10, 0, 0), (0, 10, 0), (10, 0, 0)]);
    assert_eq!(palette.match_color((9, 1, 0)), Some(1));
    assert_eq!(palette.match_color((5, 0, 0)), Some(0));
    assert_eq!(palette.match_color((0, 200, 0)), Some(2));
    assert_eq!(Palette::from_vec_of_colors(vec![]).match_color((1, 2, 3)), None);
    let theme = TerminalTheme::default();
    assert_eq!(theme.ansi_colors.match_color((250, 250, 0)), Some(11));
}
