//! Terminal colours: what kind a colour is, how it is written in ANSI
//! escape codes, and how it is brought down to a poorer colour system.

use vstd::prelude::*;
use vstd::std_specs::cmp::PartialEqSpecImpl;
use vstd::std_specs::convert::FromSpecImpl;
use vstd::string::StringExecFns;
use crate::color::palette::nearest_color;
use crate::color::palette::nearest_index;
use crate::color::terminal_theme::TerminalTheme;
use crate::color::terminal_theme::DEFAULT_ANSI_COLORS;
use crate::color::triplet::hex_text;
use crate::color::triplet::ColorTriplet;
use crate::color::triplet::ColortripletRaw;
use crate::strings::chars_of;
use crate::strings::decimal;
use crate::strings::decimal_string;
use crate::strings::is_space;
use crate::strings::is_whitespace;
use crate::strings::lowercased;
use crate::strings::string_of;
use crate::strings::texts;
use crate::strings::trim;
use crate::strings::trimmed;

verus! {

/// What a terminal can show: sixteen colours, 256 colours, 24 bits of colour,
/// or the sixteen colours of the old Windows console.
#[derive(Clone, Copy, Debug, PartialEq, Eq, Hash, Structural)]
pub enum ColorSystem {
    Standard,
    EightBit,
    TrueColor,
    Windows,
}

/// What kind a colour is: the terminal's default, or one of a colour system.
#[derive(Clone, Copy, Debug, PartialEq, Eq, Hash, Structural)]
pub enum ColorType {
    Default,
    Standard,
    EightBit,
    TrueColor,
    Windows,
}

/// The colour system that a kind of colour belongs to; the default colour
/// goes with the standard system.
pub open spec fn system_of(color_type: ColorType) -> ColorSystem {
    match color_type {
        ColorType::Default => ColorSystem::Standard,
        ColorType::Standard => ColorSystem::Standard,
        ColorType::EightBit => ColorSystem::EightBit,
        ColorType::TrueColor => ColorSystem::TrueColor,
        ColorType::Windows => ColorSystem::Windows,
    }
}

impl From<ColorType> for ColorSystem {
    fn from(color_type: ColorType) -> (system: Self) {
        match color_type {
            ColorType::Default => ColorSystem::Standard,
            ColorType::Standard => ColorSystem::Standard,
            ColorType::EightBit => ColorSystem::EightBit,
            ColorType::TrueColor => ColorSystem::TrueColor,
            ColorType::Windows => ColorSystem::Windows,
        }
    }
}

impl FromSpecImpl<ColorType> for ColorSystem {
    open spec fn obeys_from_spec() -> bool {
        true
    }

    open spec fn from_spec(color_type: ColorType) -> Self {
        system_of(color_type)
    }
}

/// Why a text is not a colour.
#[derive(Debug)]
pub enum Error {
    ParseColor { original: String, message: String },
}

impl Error {
    /// The text that could not be parsed.
    pub open spec fn original(&self) -> Seq<char> {
        match self {
            Error::ParseColor { original, message } => original@,
        }
    }

    /// What was wrong with it.
    pub open spec fn message(&self) -> Seq<char> {
        match self {
            Error::ParseColor { original, message } => message@,
        }
    }

    /// The error as a sentence.
    pub fn to_string(&self) -> (text: String)
        ensures
            text@ == "Color "@ + self.original() + " could not be parsed due to: "@ + self.message(),
    {
        match self {
            Error::ParseColor { original, message } => {
                let mut text = "Color ".to_owned();
                text.append(original.as_str());
                text.append(" could not be parsed due to: ");
                text.append(message.as_str());
                text
            },
        }
    }
}

/// The names of the 256 colours, each with its number.
pub const ANSI_COLOR_NAMES: [(&'static str, u8); 203] = [
    ("black", 0),
    ("red", 1),
    ("green", 2),
    ("yellow", 3),
    ("blue", 4),
    ("magenta", 5),
    ("cyan", 6),
    ("white", 7),
    ("bright_black", 8),
    ("bright_red", 9),
    ("bright_green", 10),
    ("bright_yellow", 11),
    ("bright_blue", 12),
    ("bright_magenta", 13),
    ("bright_cyan", 14),
    ("bright_white", 15),
    ("grey0", 16),
    ("navy_blue", 17),
    ("dark_blue", 18),
    ("blue3", 20),
    ("blue1", 21),
    ("dark_green", 22),
    ("deep_sky_blue4", 25),
    ("dodger_blue3", 26),
    ("dodger_blue2", 27),
    ("green4", 28),
    ("spring_green4", 29),
    ("turquoise4", 30),
    ("deep_sky_blue3", 32),
    ("dodger_blue1", 33),
    ("green3", 40),
    ("spring_green3", 41),
    ("dark_cyan", 36),
    ("light_sea_green", 37),
    ("deep_sky_blue2", 38),
    ("deep_sky_blue1", 39),
    ("spring_green2", 47),
    ("cyan3", 43),
    ("dark_turquoise", 44),
    ("turquoise2", 45),
    ("green1", 46),
    ("spring_green1", 48),
    ("medium_spring_green", 49),
    ("cyan2", 50),
    ("cyan1", 51),
    ("dark_red", 88),
    ("deep_pink4", 125),
    ("purple4", 55),
    ("purple3", 56),
    ("blue_violet", 57),
    ("orange4", 94),
    ("grey37", 59),
    ("medium_purple4", 60),
    ("slate_blue3", 62),
    ("royal_blue1", 63),
    ("chartreuse4", 64),
    ("dark_sea_green4", 71),
    ("pale_turquoise4", 66),
    ("steel_blue", 67),
    ("steel_blue3", 68),
    ("cornflower_blue", 69),
    ("chartreuse3", 76),
    ("cadet_blue", 73),
    ("sky_blue3", 74),
    ("steel_blue1", 81),
    ("pale_green3", 114),
    ("sea_green3", 78),
    ("aquamarine3", 79),
    ("medium_turquoise", 80),
    ("chartreuse2", 112),
    ("sea_green2", 83),
    ("sea_green1", 85),
    ("aquamarine1", 122),
    ("dark_slate_gray2", 87),
    ("dark_magenta", 91),
    ("dark_violet", 128),
    ("purple", 129),
    ("light_pink4", 95),
    ("plum4", 96),
    ("medium_purple3", 98),
    ("slate_blue1", 99),
    ("yellow4", 106),
    ("wheat4", 101),
    ("grey53", 102),
    ("light_slate_grey", 103),
    ("medium_purple", 104),
    ("light_slate_blue", 105),
    ("dark_olive_green3", 149),
    ("dark_sea_green", 108),
    ("light_sky_blue3", 110),
    ("sky_blue2", 111),
    ("dark_sea_green3", 150),
    ("dark_slate_gray3", 116),
    ("sky_blue1", 117),
    ("chartreuse1", 118),
    ("light_green", 120),
    ("pale_green1", 156),
    ("dark_slate_gray1", 123),
    ("red3", 160),
    ("medium_violet_red", 126),
    ("magenta3", 164),
    ("dark_orange3", 166),
    ("indian_red", 167),
    ("hot_pink3", 168),
    ("medium_orchid3", 133),
    ("medium_orchid", 134),
    ("medium_purple2", 140),
    ("dark_goldenrod", 136),
    ("light_salmon3", 173),
    ("rosy_brown", 138),
    ("grey63", 139),
    ("medium_purple1", 141),
    ("gold3", 178),
    ("dark_khaki", 143),
    ("navajo_white3", 144),
    ("grey69", 145),
    ("light_steel_blue3", 146),
    ("light_steel_blue", 147),
    ("yellow3", 184),
    ("dark_sea_green2", 157),
    ("light_cyan3", 152),
    ("light_sky_blue1", 153),
    ("green_yellow", 154),
    ("dark_olive_green2", 155),
    ("dark_sea_green1", 193),
    ("pale_turquoise1", 159),
    ("deep_pink3", 162),
    ("magenta2", 200),
    ("hot_pink2", 169),
    ("orchid", 170),
    ("medium_orchid1", 207),
    ("orange3", 172),
    ("light_pink3", 174),
    ("pink3", 175),
    ("plum3", 176),
    ("violet", 177),
    ("light_goldenrod3", 179),
    ("tan", 180),
    ("misty_rose3", 181),
    ("thistle3", 182),
    ("plum2", 183),
    ("khaki3", 185),
    ("light_goldenrod2", 222),
    ("light_yellow3", 187),
    ("grey84", 188),
    ("light_steel_blue1", 189),
    ("yellow2", 190),
    ("dark_olive_green1", 192),
    ("honeydew2", 194),
    ("light_cyan1", 195),
    ("red1", 196),
    ("deep_pink2", 197),
    ("deep_pink1", 199),
    ("magenta1", 201),
    ("orange_red1", 202),
    ("indian_red1", 204),
    ("hot_pink", 206),
    ("dark_orange", 208),
    ("salmon1", 209),
    ("light_coral", 210),
    ("pale_violet_red1", 211),
    ("orchid2", 212),
    ("orchid1", 213),
    ("orange1", 214),
    ("sandy_brown", 215),
    ("light_salmon1", 216),
    ("light_pink1", 217),
    ("pink1", 218),
    ("plum1", 219),
    ("gold1", 220),
    ("navajo_white1", 223),
    ("misty_rose1", 224),
    ("thistle1", 225),
    ("yellow1", 226),
    ("light_goldenrod1", 227),
    ("khaki1", 228),
    ("wheat1", 229),
    ("cornsilk1", 230),
    ("grey100", 231),
    ("grey3", 232),
    ("grey7", 233),
    ("grey11", 234),
    ("grey15", 235),
    ("grey19", 236),
    ("grey23", 237),
    ("grey27", 238),
    ("grey30", 239),
    ("grey35", 240),
    ("grey39", 241),
    ("grey42", 242),
    ("grey46", 243),
    ("grey50", 244),
    ("grey54", 245),
    ("grey58", 246),
    ("grey62", 247),
    ("grey66", 248),
    ("grey70", 249),
    ("grey74", 250),
    ("grey78", 251),
    ("grey82", 252),
    ("grey85", 253),
    ("grey89", 254),
    ("grey93", 255),
];

/// The sixteen colours of the standard palette.
pub const STANDARD_COLORS: [(u8, u8, u8); 16] = [
    (0, 0, 0),
    (170, 0, 0),
    (0, 170, 0),
    (170, 85, 0),
    (0, 0, 170),
    (170, 0, 170),
    (0, 170, 170),
    (170, 170, 170),
    (85, 85, 85),
    (255, 85, 85),
    (85, 255, 85),
    (255, 255, 85),
    (85, 85, 255),
    (255, 85, 255),
    (85, 255, 255),
    (255, 255, 255),
];

/// The sixteen colours of the Windows console.
pub const WINDOWS_COLORS: [(u8, u8, u8); 16] = [
    (12, 12, 12),
    (197, 15, 31),
    (19, 161, 14),
    (193, 156, 0),
    (0, 55, 218),
    (136, 23, 152),
    (58, 150, 221),
    (204, 204, 204),
    (118, 118, 118),
    (231, 72, 86),
    (22, 198, 12),
    (249, 241, 165),
    (59, 120, 255),
    (180, 0, 158),
    (97, 214, 214),
    (242, 242, 242),
];

/// One of the six levels of a component in the colour cube of the 256-colour
/// palette.
pub open spec fn cube_level(i: int) -> int {
    if i <= 0 {
        0
    } else {
        55 + 40 * i
    }
}

/// Colour number `n` of the 256-colour palette: sixteen named colours, a
/// cube of six levels for each component, and 24 greys.
pub open spec fn eight_bit_rgb(n: u8) -> ColortripletRaw {
    if n < 16 {
        DEFAULT_ANSI_COLORS@[n as int]
    } else if n < 232 {
        let c = n - 16;
        (cube_level(c / 36) as u8, cube_level((c / 6) % 6) as u8, cube_level(c % 6) as u8)
    } else {
        let grey = 8 + 10 * (n - 232);
        (grey as u8, grey as u8, grey as u8)
    }
}

/// One level of the colour cube.
fn cube_level_of(i: u8) -> (level: u8)
    requires
        i < 6,
    ensures
        level == cube_level(i as int),
{
    if i == 0 {
        0
    } else {
        55 + 40 * i
    }
}

/// Colour number `n` of the 256-colour palette.
pub fn eight_bit_color(n: u8) -> (rgb: ColortripletRaw)
    ensures
        rgb == eight_bit_rgb(n),
{
    if n < 16 {
        DEFAULT_ANSI_COLORS[n as usize]
    } else if n < 232 {
        let c = n - 16;
        (cube_level_of(c / 36), cube_level_of((c / 6) % 6), cube_level_of(c % 6))
    } else {
        let grey = 8 + 10 * (n - 232);
        (grey, grey, grey)
    }
}

/// A colour as plain values.
pub struct ColorView {
    pub name: Seq<char>,
    pub color_type: ColorType,
    pub number: Option<u8>,
    pub triplet: Option<ColorTriplet>,
}

/// A terminal colour.
#[derive(Debug, Hash)]
pub struct Color {
    /// The name of the colour, most often the text it was parsed from.
    pub name: String,
    /// The kind of colour.
    pub color_type: ColorType,
    /// The colour's number, where it is a colour of a palette.
    pub number: Option<u8>,
    /// The colour's components, where it is a 24-bit colour.
    pub triplet: Option<ColorTriplet>,
}

impl View for Color {
    type V = ColorView;

    open spec fn view(&self) -> ColorView {
        ColorView {
            name: self.name@,
            color_type: self.color_type,
            number: self.number,
            triplet: self.triplet,
        }
    }
}

impl Clone for Color {
    fn clone(&self) -> (copy: Self)
        ensures
            copy@ == self@,
    {
        Color {
            name: self.name.clone(),
            color_type: self.color_type,
            number: self.number,
            triplet: self.triplet,
        }
    }
}

impl PartialEq for Color {
    fn eq(&self, other: &Self) -> (same: bool) {
        let numbers = match (self.number, other.number) {
            (Some(a), Some(b)) => a == b,
            (None, None) => true,
            _ => false,
        };
        let triplets = match (self.triplet, other.triplet) {
            (Some(a), Some(b)) => a == b,
            (None, None) => true,
            _ => false,
        };
        self.name == other.name && self.color_type == other.color_type && numbers && triplets
    }
}

impl PartialEqSpecImpl for Color {
    open spec fn obeys_eq_spec() -> bool {
        true
    }

    open spec fn eq_spec(&self, other: &Self) -> bool {
        self@ == other@
    }
}

impl Eq for Color {

}

/// The default colour: the terminal's own.
pub open spec fn default_color() -> ColorView {
    ColorView { name: "default"@, color_type: ColorType::Default, number: None, triplet: None }
}

impl Default for Color {
    fn default() -> (color: Self)
        ensures
            color@ == default_color(),
    {
        Color {
            name: "default".to_owned(),
            color_type: ColorType::Default,
            number: None,
            triplet: None,
        }
    }
}

/// The kind of the palette colour with number `n`: standard below 16,
/// eight-bit from there on.
pub open spec fn palette_type(n: u8) -> ColorType {
    if n < 16 {
        ColorType::Standard
    } else {
        ColorType::EightBit
    }
}

/// The name of a colour that is given by its number alone.
pub open spec fn ansi_name(n: u8) -> Seq<char> {
    "color("@ + decimal(n as nat) + ")"@
}

/// A colour holds what its kind needs: no number for the default colour, a
/// number for a palette colour, components for a 24-bit colour.
pub open spec fn well_formed(c: ColorView) -> bool {
    match c.color_type {
        ColorType::Default => c.number is None,
        ColorType::Standard => c.number is Some,
        ColorType::EightBit => c.number is Some,
        ColorType::TrueColor => c.triplet is Some,
        ColorType::Windows => c.number is Some,
    }
}

/// The components that a colour stands for under a theme.
pub open spec fn true_color(
    c: ColorView,
    background: ColorTriplet,
    foreground: ColorTriplet,
    ansi_colors: Seq<ColortripletRaw>,
    as_foreground: bool,
) -> ColorTriplet {
    match c.color_type {
        ColorType::Default => if as_foreground {
            foreground
        } else {
            background
        },
        ColorType::Standard => triplet_of(ansi_colors[c.number->0 as int]),
        ColorType::EightBit => triplet_of(eight_bit_rgb(c.number->0)),
        ColorType::TrueColor => c.triplet->0,
        ColorType::Windows => triplet_of(STANDARD_COLORS@[c.number->0 as int]),
    }
}

/// The triplet of three components.
pub open spec fn triplet_of(raw: ColortripletRaw) -> ColorTriplet {
    ColorTriplet { red: raw.0, green: raw.1, blue: raw.2 }
}

/// The numbers of the ANSI escape code that selects a colour, as foreground
/// or as background.
pub open spec fn ansi_code_numbers(c: ColorView, foreground: bool) -> Seq<nat> {
    match c.color_type {
        ColorType::Default => if foreground {
            seq![39nat]
        } else {
            seq![49nat]
        },
        ColorType::Standard => {
            let n = c.number->0;
            let base: nat = if n < 8 {
                if foreground {
                    30
                } else {
                    40
                }
            } else {
                if foreground {
                    82
                } else {
                    92
                }
            };
            seq![base + n as nat]
        },
        ColorType::EightBit => seq![
            if foreground {
                38nat
            } else {
                48nat
            },
            5nat,
            c.number->0 as nat,
        ],
        ColorType::TrueColor => seq![
            if foreground {
                38nat
            } else {
                48nat
            },
            2nat,
            c.triplet->0.red as nat,
            c.triplet->0.green as nat,
            c.triplet->0.blue as nat,
        ],
        ColorType::Windows => seq![
            (if foreground {
                30nat
            } else {
                40nat
            }) + c.number->0 as nat,
        ],
    }
}

/// The numbers `codes`, each written in base ten.
pub open spec fn code_texts(codes: Seq<nat>) -> Seq<Seq<char>> {
    Seq::new(codes.len(), |i: int| decimal(codes[i]))
}

/// The strings of the given numbers.
pub fn number_strings(codes: &[u16]) -> (strings: Vec<String>)
    ensures
        texts(strings@) == code_texts(Seq::new(codes@.len(), |i: int| codes@[i] as nat)),
{
    let mut strings: Vec<String> = Vec::new();
    let mut i: usize = 0;
    let ghost all = Seq::new(codes@.len(), |i: int| codes@[i] as nat);
    while i < codes.len()
        invariant
            i <= codes@.len(),
            all == Seq::new(codes@.len(), |i: int| codes@[i] as nat),
            strings@.len() == i,
            forall|k: int| 0 <= k < i ==> (#[trigger] strings@[k])@ == decimal(codes@[k] as nat),
        decreases codes@.len() - i,
    {
        strings.push(decimal_string(codes[i]));
        i = i + 1;
    }
    assert(texts(strings@) =~= code_texts(all));
    strings
}

/// The largest and the smallest of three components.
pub open spec fn max3(t: ColorTriplet) -> int {
    if t.red >= t.green && t.red >= t.blue {
        t.red as int
    } else if t.green >= t.blue {
        t.green as int
    } else {
        t.blue as int
    }
}

pub open spec fn min3(t: ColorTriplet) -> int {
    if t.red <= t.green && t.red <= t.blue {
        t.red as int
    } else if t.green <= t.blue {
        t.green as int
    } else {
        t.blue as int
    }
}

/// Whether a colour is grey enough to go on the grey ramp of the 256-colour
/// palette: its saturation, in the hue-saturation-lightness model, is under a
/// tenth.
pub open spec fn nearly_grey(t: ColorTriplet) -> bool {
    let spread = max3(t) - min3(t);
    let sum = max3(t) + min3(t);
    if spread == 0 {
        true
    } else if sum <= 255 {
        10 * spread < sum
    } else {
        10 * spread < 510 - sum
    }
}

/// The number in the 256-colour palette that a 24-bit colour is brought down
/// to. A colour that is nearly grey goes to one of 24 greys by its lightness,
/// black and white to the ends of the colour cube; any other colour goes to
/// the colour cube, each component rounded to the nearest of six levels.
pub open spec fn eight_bit_number(t: ColorTriplet) -> int {
    if nearly_grey(t) {
        let grey = (10 * (max3(t) + min3(t)) + 102) / 204;
        if grey == 0 {
            16
        } else if grey == 25 {
            231
        } else {
            231 + grey
        }
    } else {
        16 + 36 * ((10 * t.red + 255) / 510) + 6 * ((10 * t.green + 255) / 510) + (10 * t.blue
            + 255) / 510
    }
}

/// A colour brought down to `system`. The default colour and a colour of
/// that system stay as they are, and so does a colour that the system can
/// show as it is.
pub open spec fn downgraded(c: ColorView, system: ColorSystem) -> ColorView {
    if c.color_type == ColorType::Default || system_of(c.color_type) == system {
        c
    } else {
        match (system, system_of(c.color_type)) {
            (ColorSystem::EightBit, ColorSystem::TrueColor) => ColorView {
                name: c.name,
                color_type: ColorType::EightBit,
                number: Some(eight_bit_number(c.triplet->0) as u8),
                triplet: None,
            },
            (ColorSystem::Standard, ColorSystem::TrueColor) => ColorView {
                name: c.name,
                color_type: ColorType::Standard,
                number: Some(nearest_index(STANDARD_COLORS@, c.triplet->0.as_raw_spec()) as u8),
                triplet: None,
            },
            (ColorSystem::Standard, ColorSystem::EightBit) => ColorView {
                name: c.name,
                color_type: ColorType::Standard,
                number: Some(nearest_index(STANDARD_COLORS@, eight_bit_rgb(c.number->0)) as u8),
                triplet: None,
            },
            (ColorSystem::Windows, ColorSystem::TrueColor) => ColorView {
                name: c.name,
                color_type: ColorType::Standard,
                number: Some(nearest_index(WINDOWS_COLORS@, c.triplet->0.as_raw_spec()) as u8),
                triplet: None,
            },
            (ColorSystem::Windows, ColorSystem::EightBit) => ColorView {
                name: c.name,
                color_type: ColorType::Windows,
                number: Some(
                    if c.number->0 < 8 {
                        c.number->0
                    } else if c.number->0 < 16 {
                        (c.number->0 - 8) as u8
                    } else {
                        nearest_index(WINDOWS_COLORS@, eight_bit_rgb(c.number->0)) as u8
                    },
                ),
                triplet: None,
            },
            _ => c,
        }
    }
}

impl Color {
    /// The palette colour with the given number.
    pub fn from_ansi(number: u8) -> (color: Self)
        ensures
            color@ == (ColorView {
                name: ansi_name(number),
                color_type: palette_type(number),
                number: Some(number),
                triplet: None,
            }),
    {
        let color_type = if number < 16 {
            ColorType::Standard
        } else {
            ColorType::EightBit
        };
        let mut name = "color(".to_owned();
        name.append(decimal_string(number as u16).as_str());
        name.append(")");
        Color { name, color_type, number: Some(number), triplet: None }
    }

    /// The 24-bit colour of the given components, named by its form in base
    /// 16.
    pub fn from_triplet(triplet: ColorTriplet) -> (color: Self)
        ensures
            color@ == (ColorView {
                name: hex_text(triplet),
                color_type: ColorType::TrueColor,
                number: None,
                triplet: Some(triplet),
            }),
    {
        Color {
            name: triplet.hex(),
            color_type: ColorType::TrueColor,
            number: None,
            triplet: Some(triplet),
        }
    }

    /// The 24-bit colour of the given components.
    pub fn from_rgb(rgb: ColortripletRaw) -> (color: Self)
        ensures
            color@ == (ColorView {
                name: hex_text(triplet_of(rgb)),
                color_type: ColorType::TrueColor,
                number: None,
                triplet: Some(triplet_of(rgb)),
            }),
    {
        Self::from_triplet(ColorTriplet { red: rgb.0, green: rgb.1, blue: rgb.2 })
    }

    /// The colour system that this colour belongs to.
    pub fn system(&self) -> (system: ColorSystem)
        ensures
            system == system_of(self.color_type),
    {
        match self.color_type {
            ColorType::Default => ColorSystem::Standard,
            ColorType::Standard => ColorSystem::Standard,
            ColorType::EightBit => ColorSystem::EightBit,
            ColorType::TrueColor => ColorSystem::TrueColor,
            ColorType::Windows => ColorSystem::Windows,
        }
    }

    /// Whether it is the system that decides what the colour looks like:
    /// true of all colours but the eight-bit and the 24-bit ones.
    pub fn is_system_defined(&self) -> (defined: bool)
        ensures
            defined == (system_of(self.color_type) != ColorSystem::EightBit && system_of(
                self.color_type,
            ) != ColorSystem::TrueColor),
    {
        match self.system() {
            ColorSystem::EightBit => false,
            ColorSystem::TrueColor => false,
            _ => true,
        }
    }

    /// Whether this is the terminal's default colour.
    pub fn is_default(&self) -> (default: bool)
        ensures
            default == (self.color_type == ColorType::Default),
    {
        match self.color_type {
            ColorType::Default => true,
            _ => false,
        }
    }

    /// The components that this colour stands for under `theme`, or under the
    /// default theme where none is given. The default colour is the theme's
    /// foreground where `foreground` is true, its background otherwise.
    pub fn get_true_color(&self, theme: Option<&TerminalTheme>, foreground: Option<bool>) -> (rgb:
        ColorTriplet)
        requires
            well_formed(self@),
            self.color_type == ColorType::Standard ==> match theme {
                Some(t) => self.number->0 < t.ansi_colors@.len(),
                None => self.number->0 < 16,
            },
            self.color_type == ColorType::Windows ==> self.number->0 < 16,
        ensures
            rgb == match theme {
                Some(t) => true_color(
                    self@,
                    t.background_color,
                    t.foreground_color,
                    t.ansi_colors@,
                    foreground == Some(true),
                ),
                None => true_color(
                    self@,
                    ColorTriplet { red: 255, green: 255, blue: 255 },
                    ColorTriplet { red: 0, green: 0, blue: 0 },
                    DEFAULT_ANSI_COLORS@,
                    foreground == Some(true),
                ),
            },
    {
        let default_theme = TerminalTheme::default();
        let theme: &TerminalTheme = match theme {
            Some(t) => t,
            None => &default_theme,
        };
        let foreground = match foreground {
            Some(f) => f,
            None => false,
        };
        match self.color_type {
            ColorType::Default => {
                if foreground {
                    theme.foreground_color
                } else {
                    theme.background_color
                }
            },
            ColorType::Standard => {
                let raw = theme.ansi_colors.get(self.number.unwrap() as usize);
                ColorTriplet { red: raw.0, green: raw.1, blue: raw.2 }
            },
            ColorType::EightBit => {
                let raw = eight_bit_color(self.number.unwrap());
                ColorTriplet { red: raw.0, green: raw.1, blue: raw.2 }
            },
            ColorType::TrueColor => self.triplet.unwrap(),
            ColorType::Windows => {
                let raw = STANDARD_COLORS[self.number.unwrap() as usize];
                ColorTriplet { red: raw.0, green: raw.1, blue: raw.2 }
            },
        }
    }

    /// The ANSI escape codes that select this colour, as foreground where
    /// `foreground` is true and as background otherwise.
    pub fn get_ansi_codes(&self, foreground: Option<bool>) -> (codes: Vec<String>)
        requires
            well_formed(self@),
        ensures
            texts(codes@) == code_texts(ansi_code_numbers(self@, foreground == Some(true))),
    {
        let foreground = match foreground {
            Some(f) => f,
            None => false,
        };
        let ghost want = ansi_code_numbers(self@, foreground);
        match self.color_type {
            ColorType::Default => {
                let codes: [u16; 1] = [
                    if foreground {
                        39
                    } else {
                        49
                    },
                ];
                let strings = number_strings(codes.as_slice());
                assert(Seq::new(codes@.len(), |i: int| codes@[i] as nat) =~= want);
                strings
            },
            ColorType::Standard => {
                let n = self.number.unwrap();
                let base: u16 = if n < 8 {
                    if foreground {
                        30
                    } else {
                        40
                    }
                } else {
                    if foreground {
                        82
                    } else {
                        92
                    }
                };
                let codes: [u16; 1] = [base + n as u16];
                let strings = number_strings(codes.as_slice());
                assert(Seq::new(codes@.len(), |i: int| codes@[i] as nat) =~= want);
                strings
            },
            ColorType::EightBit => {
                let codes: [u16; 3] = [
                    if foreground {
                        38
                    } else {
                        48
                    },
                    5,
                    self.number.unwrap() as u16,
                ];
                let strings = number_strings(codes.as_slice());
                assert(Seq::new(codes@.len(), |i: int| codes@[i] as nat) =~= want);
                strings
            },
            ColorType::TrueColor => {
                let t = self.triplet.unwrap();
                let codes: [u16; 5] = [
                    if foreground {
                        38
                    } else {
                        48
                    },
                    2,
                    t.red as u16,
                    t.green as u16,
                    t.blue as u16,
                ];
                let strings = number_strings(codes.as_slice());
                assert(Seq::new(codes@.len(), |i: int| codes@[i] as nat) =~= want);
                strings
            },
            ColorType::Windows => {
                let base: u16 = if foreground {
                    30
                } else {
                    40
                };
                let codes: [u16; 1] = [base + self.number.unwrap() as u16];
                let strings = number_strings(codes.as_slice());
                assert(Seq::new(codes@.len(), |i: int| codes@[i] as nat) =~= want);
                strings
            },
        }
    }

    /// This colour brought down to `system`, a system with fewer colours.
    pub fn downgrade(&self, system: ColorSystem) -> (color: Self)
        requires
            well_formed(self@),
        ensures
            color@ == downgraded(self@, system),
            well_formed(color@),
    {
        if self.is_default() {
            return self.clone();
        }
        if self.system() == system {
            return self.clone();
        }
        match (system, self.system()) {
            (ColorSystem::EightBit, ColorSystem::TrueColor) => truecolor_2_eightbit(
                self.name.as_str(),
                self.triplet.unwrap(),
            ),
            (ColorSystem::Standard, ColorSystem::TrueColor) => truecolor_2_standard(
                self.name.as_str(),
                self.triplet.unwrap(),
            ),
            (ColorSystem::Standard, ColorSystem::EightBit) => eightbit_2_standard(
                self.name.as_str(),
                self.number.unwrap(),
            ),
            (ColorSystem::Windows, ColorSystem::TrueColor) => truecolor_2_windows(
                self.name.as_str(),
                self.triplet.unwrap(),
            ),
            (ColorSystem::Windows, ColorSystem::EightBit) => eightbit_2_windows(
                self.name.as_str(),
                self.number.unwrap(),
            ),
            _ => self.clone(),
        }
    }
}

/// The largest of three components.
fn largest(t: ColorTriplet) -> (m: u8)
    ensures
        m == max3(t),
{
    if t.red >= t.green && t.red >= t.blue {
        t.red
    } else if t.green >= t.blue {
        t.green
    } else {
        t.blue
    }
}

/// The smallest of three components.
fn smallest(t: ColorTriplet) -> (m: u8)
    ensures
        m == min3(t),
{
    if t.red <= t.green && t.red <= t.blue {
        t.red
    } else if t.green <= t.blue {
        t.green
    } else {
        t.blue
    }
}

/// A 24-bit colour as a colour of the 256-colour palette.
pub fn truecolor_2_eightbit(name: &str, triplet: ColorTriplet) -> (color: Color)
    ensures
        color@ == (ColorView {
            name: name@,
            color_type: ColorType::EightBit,
            number: Some(eight_bit_number(triplet) as u8),
            triplet: None,
        }),
        16 <= eight_bit_number(triplet) <= 255,
{
    let high = largest(triplet) as u16;
    let low = smallest(triplet) as u16;
    let spread = high - low;
    let sum = high + low;
    let grey_enough = if spread == 0 {
        true
    } else if sum <= 255 {
        10 * spread < sum
    } else {
        10 * spread < 510 - sum
    };
    let color_number: u16 = if grey_enough {
        let grey = (10 * sum + 102) / 204;
        if grey == 0 {
            16
        } else if grey == 25 {
            231
        } else {
            231 + grey
        }
    } else {
        16 + 36 * ((10 * triplet.red as u16 + 255) / 510) + 6 * ((10 * triplet.green as u16 + 255)
            / 510) + (10 * triplet.blue as u16 + 255) / 510
    };
    Color {
        name: name.to_owned(),
        color_type: ColorType::EightBit,
        number: Some(color_number as u8),
        triplet: None,
    }
}

/// A 24-bit colour as the nearest of the sixteen standard colours.
pub fn truecolor_2_standard(name: &str, triplet: ColorTriplet) -> (color: Color)
    ensures
        color@ == (ColorView {
            name: name@,
            color_type: ColorType::Standard,
            number: Some(nearest_index(STANDARD_COLORS@, triplet.as_raw_spec()) as u8),
            triplet: None,
        }),
{
    let color_number = nearest_color(STANDARD_COLORS.as_slice(), triplet.as_raw()).unwrap();
    Color {
        name: name.to_owned(),
        color_type: ColorType::Standard,
        number: Some(color_number as u8),
        triplet: None,
    }
}

/// A colour of the 256-colour palette as the nearest of the sixteen standard
/// colours.
pub fn eightbit_2_standard(name: &str, number: u8) -> (color: Color)
    ensures
        color@ == (ColorView {
            name: name@,
            color_type: ColorType::Standard,
            number: Some(nearest_index(STANDARD_COLORS@, eight_bit_rgb(number)) as u8),
            triplet: None,
        }),
{
    let rgb = eight_bit_color(number);
    let color_number = nearest_color(STANDARD_COLORS.as_slice(), rgb).unwrap();
    Color {
        name: name.to_owned(),
        color_type: ColorType::Standard,
        number: Some(color_number as u8),
        triplet: None,
    }
}

/// A 24-bit colour as the nearest of the sixteen colours of the Windows
/// console.
pub fn truecolor_2_windows(name: &str, triplet: ColorTriplet) -> (color: Color)
    ensures
        color@ == (ColorView {
            name: name@,
            color_type: ColorType::Standard,
            number: Some(nearest_index(WINDOWS_COLORS@, triplet.as_raw_spec()) as u8),
            triplet: None,
        }),
{
    let color_number = nearest_color(WINDOWS_COLORS.as_slice(), triplet.as_raw()).unwrap();
    Color {
        name: name.to_owned(),
        color_type: ColorType::Standard,
        number: Some(color_number as u8),
        triplet: None,
    }
}

/// A colour of the 256-colour palette as a colour of the Windows console:
/// the first eight as they are, the eight bright ones as their normal
/// fellows, the others as the nearest colour.
pub fn eightbit_2_windows(name: &str, number: u8) -> (color: Color)
    ensures
        color@ == (ColorView {
            name: name@,
            color_type: ColorType::Windows,
            number: Some(
                if number < 8 {
                    number
                } else if number < 16 {
                    (number - 8) as u8
                } else {
                    nearest_index(WINDOWS_COLORS@, eight_bit_rgb(number)) as u8
                },
            ),
            triplet: None,
        }),
{
    let color_number: u8 = if number < 8 {
        number
    } else if number < 16 {
        number - 8
    } else {
        let rgb = eight_bit_color(number);
        nearest_color(WINDOWS_COLORS.as_slice(), rgb).unwrap() as u8
    };
    Color {
        name: name.to_owned(),
        color_type: ColorType::Windows,
        number: Some(color_number),
        triplet: None,
    }
}

/// Whether `i` is the first row of the name table with the name `name`.
pub open spec fn is_first_named(name: Seq<char>, i: int) -> bool {
    &&& 0 <= i < ANSI_COLOR_NAMES@.len()
    &&& ANSI_COLOR_NAMES@[i].0@ == name
    &&& forall|j: int| 0 <= j < i ==> (#[trigger] ANSI_COLOR_NAMES@[j]).0@ != name
}

/// The number of the colour with the name `name`, if there is one.
pub open spec fn named_color_number(name: Seq<char>) -> Option<u8> {
    if exists|i: int| is_first_named(name, i) {
        Some(ANSI_COLOR_NAMES@[choose|i: int| is_first_named(name, i)].1)
    } else {
        None
    }
}

/// The number of the colour with the name `name`, if there is one.
pub fn ansi_color_number(name: &str) -> (number: Option<u8>)
    ensures
        number == named_color_number(name@),
{
    let table = ANSI_COLOR_NAMES.as_slice();
    let mut i: usize = 0;
    while i < table.len()
        invariant
            i <= table@.len(),
            table@ == ANSI_COLOR_NAMES@,
            forall|j: int| 0 <= j < i ==> (#[trigger] table@[j]).0@ != name@,
        decreases table@.len() - i,
    {
        if table[i].0.eq(name) {
            proof {
                assert(is_first_named(name@, i as int));
                let k = choose|k: int| is_first_named(name@, k);
                assert(k == i) by {
                    if k < i {
                        assert(table@[k].0@ != name@);
                    } else if i < k {
                        assert(ANSI_COLOR_NAMES@[i as int].0@ != name@);
                    }
                }
            }
            return Some(table[i].1);
        }
        i = i + 1;
    }
    proof {
        assert forall|k: int| !is_first_named(name@, k) by {
            if 0 <= k < table@.len() {
                assert(table@[k].0@ != name@);
            }
        }
    }
    None
}

/// Whether `c` is one of the digits `0` to `9`.
pub open spec fn is_digit(c: char) -> bool {
    0x30 <= c as u32 <= 0x39
}

/// The value of a digit in base 16, where `c` is one, in either case.
pub open spec fn hex_value(c: char) -> Option<nat> {
    let u = c as u32;
    if 0x30 <= u <= 0x39 {
        Some((u - 0x30) as nat)
    } else if 0x61 <= u <= 0x66 {
        Some((u - 0x61 + 10) as nat)
    } else if 0x41 <= u <= 0x46 {
        Some((u - 0x41 + 10) as nat)
    } else {
        None
    }
}

/// The number that the digits `s` stand for in base ten.
pub open spec fn digits_value(s: Seq<char>) -> nat
    decreases s.len(),
{
    if s.len() == 0 {
        0
    } else {
        digits_value(s.drop_last()) * 10 + (s.last() as u32 - 0x30) as nat
    }
}

/// The number from 0 to 255 that the text `s` is: one or more digits, with
/// nothing before, between or after them.
pub open spec fn parsed_u8(s: Seq<char>) -> Option<u8> {
    if s.len() > 0 && (forall|i: int| 0 <= i < s.len() ==> is_digit(#[trigger] s[i]))
        && digits_value(s) <= 255 {
        Some(digits_value(s) as u8)
    } else {
        None
    }
}

/// The number from 0 to 255 that the text `chars[from..to]` is.
pub fn parse_u8(chars: &[char], from: usize, to: usize) -> (number: Option<u8>)
    requires
        from <= to <= chars@.len(),
    ensures
        number == parsed_u8(chars@.subrange(from as int, to as int)),
{
    let ghost s = chars@.subrange(from as int, to as int);
    if from == to {
        return None;
    }
    let mut value: u32 = 0;
    let mut too_large = false;
    let mut i: usize = from;
    assert(s.take(0) =~= Seq::<char>::empty());
    while i < to
        invariant
            from <= i <= to <= chars@.len(),
            s == chars@.subrange(from as int, to as int),
            forall|j: int| 0 <= j < i - from ==> is_digit(#[trigger] s[j]),
            !too_large ==> value == digits_value(s.take(i - from)) && value <= 255,
            too_large ==> digits_value(s.take(i - from)) > 255,
        decreases to - i,
    {
        let u = chars[i] as u32;
        if !(0x30 <= u && u <= 0x39) {
            assert(!is_digit(s[i - from]));
            return None;
        }
        proof {
            assert(s.take(i - from + 1).drop_last() =~= s.take(i - from));
            assert(s.take(i - from + 1).last() == chars@[i as int]);
        }
        if !too_large {
            value = value * 10 + (u - 0x30);
            if value > 255 {
                too_large = true;
            }
        }
        i = i + 1;
    }
    assert(s.take(to - from) =~= s);
    if too_large {
        None
    } else {
        Some(value as u8)
    }
}

/// The 24-bit colour that `s` is where `s` is `#` and six digits in base 16,
/// in lower case.
pub open spec fn hex_color(s: Seq<char>) -> Option<ColorTriplet> {
    if s.len() == 7 && s[0] == '#' && (forall|i: int|
        1 <= i < 7 ==> hex_value(#[trigger] s[i]) is Some && !(0x41 <= s[i] as u32 <= 0x46)) {
        Some(hex_triplet(s.skip(1)))
    } else {
        None
    }
}

/// The colour that six digits in base 16 stand for.
pub open spec fn hex_triplet(s: Seq<char>) -> ColorTriplet {
    ColorTriplet {
        red: (16 * hex_value(s[0])->0 + hex_value(s[1])->0) as u8,
        green: (16 * hex_value(s[2])->0 + hex_value(s[3])->0) as u8,
        blue: (16 * hex_value(s[4])->0 + hex_value(s[5])->0) as u8,
    }
}

/// The value of a digit in base 16.
fn hex_digit(c: char) -> (value: Option<u8>)
    ensures
        value is Some <==> hex_value(c) is Some,
        value matches Some(v) ==> v == hex_value(c)->0 && v < 16,
{
    let u = c as u32;
    if 0x30 <= u && u <= 0x39 {
        Some((u - 0x30) as u8)
    } else if 0x61 <= u && u <= 0x66 {
        Some((u - 0x61 + 10) as u8)
    } else if 0x41 <= u && u <= 0x46 {
        Some((u - 0x41 + 10) as u8)
    } else {
        None
    }
}

/// The colour that the six digits in base 16 at `chars[from..]` stand for,
/// if that is what they are.
fn hex_triplet_at(chars: &[char], from: usize) -> (triplet: Option<ColorTriplet>)
    requires
        from + 6 == chars@.len(),
    ensures
        triplet is Some <==> (forall|i: int|
            from <= i < from + 6 ==> hex_value(#[trigger] chars@[i]) is Some),
        triplet matches Some(t) ==> t == hex_triplet(chars@.skip(from as int)),
{
    let mut values: Vec<u8> = Vec::new();
    let mut i: usize = 0;
    let n = chars.len();
    while i < 6
        invariant
            i <= 6,
            from + 6 == n == chars@.len(),
            values@.len() == i,
            forall|j: int| 0 <= j < i ==> #[trigger] values@[j] < 16,
            forall|j: int|
                0 <= j < i ==> hex_value(chars@[from + j]) == Some(#[trigger] values@[j] as nat),
        decreases 6 - i,
    {
        match hex_digit(chars[from + i]) {
            Some(v) => {
                values.push(v);
            },
            None => {
                return None;
            },
        }
        i = i + 1;
    }
    proof {
        let s = chars@.skip(from as int);
        assert forall|j: int| 0 <= j < 6 implies s[j] == chars@[from + j] by {}
        assert forall|i: int| from <= i < from + 6 implies hex_value(
            #[trigger] chars@[i],
        ) is Some by {
            assert(hex_value(chars@[from + (i - from)]) == Some(values@[i - from] as nat));
        }
        assert(hex_value(s[0]) == Some(values@[0] as nat));
        assert(hex_value(s[1]) == Some(values@[1] as nat));
        assert(hex_value(s[2]) == Some(values@[2] as nat));
        assert(hex_value(s[3]) == Some(values@[3] as nat));
        assert(hex_value(s[4]) == Some(values@[4] as nat));
        assert(hex_value(s[5]) == Some(values@[5] as nat));
    }
    Some(
        ColorTriplet {
            red: 16 * values[0] + values[1],
            green: 16 * values[2] + values[3],
            blue: 16 * values[4] + values[5],
        },
    )
}

/// The colour that six digits in base 16 stand for, two digits for each of
/// red, green and blue.
pub fn parse_rgb_hex(hex_color: &str) -> (triplet: ColorTriplet)
    requires
        hex_color@.len() == 6,
        forall|i: int| 0 <= i < 6 ==> hex_value(#[trigger] hex_color@[i]) is Some,
    ensures
        triplet == hex_triplet(hex_color@),
{
    let chars = chars_of(hex_color);
    assert(chars@.skip(0) =~= chars@);
    hex_triplet_at(chars.as_slice(), 0).unwrap()
}

/// Whether `c` may stand between the brackets of `color(..)`, or, where
/// `wide` is true, of `rgb(..)`: a digit, and for `rgb` also white space and
/// the comma.
pub open spec fn in_argument(c: char, wide: bool) -> bool {
    is_digit(c) || (wide && (is_space(c) || c == ','))
}

/// How many characters at the end of `s` may stand between the brackets.
pub open spec fn trailing_run(s: Seq<char>, wide: bool) -> nat
    decreases s.len(),
{
    if s.len() > 0 && in_argument(s.last(), wide) {
        1 + trailing_run(s.drop_last(), wide)
    } else {
        0
    }
}

/// Whether `s` ends with `suffix`.
pub open spec fn ends_with(s: Seq<char>, suffix: Seq<char>) -> bool {
    s.len() >= suffix.len() && s.skip(s.len() - suffix.len()) == suffix
}

/// What stands between the brackets where `s` ends in a call of `function`
/// (a name with its opening bracket) with an argument of digits, or of
/// digits, white space and commas where `wide` is true.
pub open spec fn call_argument(s: Seq<char>, function: Seq<char>, wide: bool) -> Option<Seq<char>> {
    if s.len() > 0 && s.last() == ')' {
        let body = s.drop_last();
        let k = trailing_run(body, wide);
        if k > 0 && ends_with(body.take(body.len() - k), function) {
            Some(body.skip(body.len() - k))
        } else {
            None
        }
    } else {
        None
    }
}

/// The number of commas in `s`.
pub open spec fn comma_count(s: Seq<char>) -> nat
    decreases s.len(),
{
    if s.len() == 0 {
        0
    } else {
        comma_count(s.drop_last()) + if s.last() == ',' {
            1nat
        } else {
            0nat
        }
    }
}

/// The place of the first comma in `s`, or the length of `s` where it has
/// none.
pub open spec fn first_comma(s: Seq<char>) -> nat
    decreases s.len(),
{
    if s.len() == 0 || s[0] == ',' {
        0
    } else {
        1 + first_comma(s.drop_first())
    }
}

/// What a cleaned text is as a colour, or else what is wrong with it.
pub open spec fn parse_outcome(cleaned: Seq<char>) -> Result<ColorView, Seq<char>> {
    if let Some(n) = named_color_number(cleaned) {
        Ok(ColorView { name: cleaned, color_type: palette_type(n), number: Some(n), triplet: None })
    } else if let Some(t) = hex_color(cleaned) {
        Ok(
            ColorView {
                name: cleaned,
                color_type: ColorType::TrueColor,
                number: None,
                triplet: Some(t),
            },
        )
    } else if call_argument(cleaned, "color("@, false) is Some && call_argument(
        cleaned,
        "color("@,
        false,
    )->0.len() <= 3 {
        match parsed_u8(call_argument(cleaned, "color("@, false)->0) {
            Some(n) => Ok(
                ColorView {
                    name: cleaned,
                    color_type: palette_type(n),
                    number: Some(n),
                    triplet: None,
                },
            ),
            None => Err("color number must be <= 255"@),
        }
    } else if let Some(arg) = call_argument(cleaned, "rgb("@, true) {
        if comma_count(arg) != 2 {
            Err("expected three components (r, g, b)"@)
        } else {
            let i = first_comma(arg) as int;
            let rest = arg.skip(i + 1);
            let j = first_comma(rest) as int;
            match parsed_u8(arg.take(i)) {
                None => Err("red component must be <= 255"@),
                Some(red) => match parsed_u8(rest.take(j)) {
                    None => Err("green component must be <= 255"@),
                    Some(green) => match parsed_u8(rest.skip(j + 1)) {
                        None => Err("blue component must be <= 255"@),
                        Some(blue) => Ok(
                            ColorView {
                                name: cleaned,
                                color_type: ColorType::TrueColor,
                                number: None,
                                triplet: Some(ColorTriplet { red, green, blue }),
                            },
                        ),
                    },
                },
            }
        }
    } else {
        Err("unable to match color"@)
    }
}

/// Whether `result` is what `outcome` asks for, for the text `original`.
pub open spec fn parsed_as(
    result: Result<Color, Error>,
    original: Seq<char>,
    outcome: Result<ColorView, Seq<char>>,
) -> bool {
    match outcome {
        Ok(view) => result matches Ok(color) && color@ == view,
        Err(message) => result matches Err(e) && e.original() == original && e.message()
            == message,
    }
}

/// Whether `c` may stand between the brackets.
fn is_argument_char(c: char, wide: bool) -> (inside: bool)
    ensures
        inside == in_argument(c, wide),
{
    let u = c as u32;
    (0x30 <= u && u <= 0x39) || (wide && (is_whitespace(c) || c == ','))
}

/// How many characters at the end of `chars[..end]` may stand between the
/// brackets.
fn trailing_run_len(chars: &[char], end: usize, wide: bool) -> (k: usize)
    requires
        end <= chars@.len(),
    ensures
        k <= end,
        k == trailing_run(chars@.take(end as int), wide),
{
    let mut k: usize = 0;
    while k < end && is_argument_char(chars[end - k - 1], wide)
        invariant
            k <= end <= chars@.len(),
            trailing_run(chars@.take(end as int), wide) == k + trailing_run(
                chars@.take(end - k),
                wide,
            ),
        decreases end - k,
    {
        assert(chars@.take(end - k).drop_last() =~= chars@.take(end - k - 1));
        k = k + 1;
    }
    k
}

/// Whether `chars[..end]` ends with `suffix`.
fn ends_with_at(chars: &[char], end: usize, suffix: &str) -> (found: bool)
    requires
        end <= chars@.len(),
    ensures
        found == ends_with(chars@.take(end as int), suffix@),
{
    let wanted = chars_of(suffix);
    if wanted.len() > end {
        return false;
    }
    let from = end - wanted.len();
    let tail = string_of(chars, from, end);
    assert(chars@.subrange(from as int, end as int) =~= chars@.take(end as int).skip(
        end - wanted@.len(),
    ));
    tail.as_str().eq(suffix)
}

/// A parse error for the text `original`.
fn parse_error(original: &str, message: &str) -> (result: Result<Color, Error>)
    ensures
        result matches Err(e) && e.original() == original@ && e.message() == message@,
{
    Err(Error::ParseColor { original: original.to_owned(), message: message.to_owned() })
}

/// The argument of a call of `function` at the end of `chars`, as the range
/// of its characters.
fn call_argument_at(chars: &[char], function: &str, wide: bool) -> (range: Option<(usize, usize)>)
    ensures
        range is Some <==> call_argument(chars@, function@, wide) is Some,
        range matches Some((from, to)) ==> from < to <= chars@.len() && chars@.subrange(
            from as int,
            to as int,
        ) == call_argument(chars@, function@, wide)->0,
{
    let n = chars.len();
    if n == 0 || chars[n - 1] != ')' {
        return None;
    }
    assert(chars@.drop_last() =~= chars@.take(n - 1));
    let k = trailing_run_len(chars, n - 1, wide);
    if k == 0 {
        return None;
    }
    let ghost body = chars@.take(n - 1);
    assert(body.take(body.len() - k) =~= chars@.take(n - 1 - k));
    if !ends_with_at(chars, n - 1 - k, function) {
        return None;
    }
    assert(chars@.subrange(n - 1 - k, n - 1) =~= body.skip(body.len() - k));
    Some((n - 1 - k, n - 1))
}

/// The number of commas in `chars[from..to]`.
fn count_commas(chars: &[char], from: usize, to: usize) -> (count: usize)
    requires
        from <= to <= chars@.len(),
    ensures
        count == comma_count(chars@.subrange(from as int, to as int)),
        count <= to - from,
{
    let ghost s = chars@.subrange(from as int, to as int);
    let mut count: usize = 0;
    let mut i: usize = from;
    assert(s.take(0) =~= Seq::<char>::empty());
    while i < to
        invariant
            from <= i <= to <= chars@.len(),
            s == chars@.subrange(from as int, to as int),
            count == comma_count(s.take(i - from)),
            count <= i - from,
        decreases to - i,
    {
        assert(s.take(i - from + 1).drop_last() =~= s.take(i - from));
        if chars[i] == ',' {
            count = count + 1;
        }
        i = i + 1;
    }
    assert(s.take(to - from) =~= s);
    count
}

/// The place of the first comma in `chars[from..to]`, counted from `from`.
fn find_comma(chars: &[char], from: usize, to: usize) -> (place: usize)
    requires
        from <= to <= chars@.len(),
    ensures
        place == first_comma(chars@.subrange(from as int, to as int)),
        place <= to - from,
{
    let ghost s = chars@.subrange(from as int, to as int);
    let mut i: usize = from;
    assert(s.skip(0) =~= s);
    while i < to && chars[i] != ','
        invariant
            from <= i <= to <= chars@.len(),
            s == chars@.subrange(from as int, to as int),
            first_comma(s) == (i - from) + first_comma(s.skip(i - from)),
        decreases to - i,
    {
        assert(s.skip(i - from).drop_first() =~= s.skip(i - from + 1));
        i = i + 1;
    }
    i - from
}

/// Parses a colour from `cleaned`, the text `original` in lower case and
/// without white space around it: the name of a colour, `#` and six digits
/// in base 16, `color(n)` with a number from 0 to 255, or `rgb(r,g,b)` with
/// three such numbers.
pub fn parse_cleaned(original: &str, cleaned: &str) -> (result: Result<Color, Error>)
    ensures
        parsed_as(result, original@, parse_outcome(cleaned@)),
{
    if let Some(number) = ansi_color_number(cleaned) {
        return Ok(parsed_ansi_color(cleaned, number));
    }
    let chars = chars_of(cleaned);
    let n = chars.len();
    if n == 7 && chars[0] == '#' {
        if let Some(triplet) = hex_triplet_at(chars.as_slice(), 1) {
            let mut lower = true;
            let mut i: usize = 1;
            while i < 7
                invariant
                    1 <= i <= 7,
                    chars@.len() == 7,
                    lower <==> (forall|j: int|
                        1 <= j < i ==> !(0x41 <= #[trigger] chars@[j] as u32 <= 0x46)),
                decreases 7 - i,
            {
                let u = chars[i] as u32;
                if 0x41 <= u && u <= 0x46 {
                    lower = false;
                }
                i = i + 1;
            }
            if lower {
                return Ok(
                    Color {
                        name: cleaned.to_owned(),
                        color_type: ColorType::TrueColor,
                        number: None,
                        triplet: Some(triplet),
                    },
                );
            }
        }
    }
    assert(hex_color(cleaned@) is None);
    if let Some((from, to)) = call_argument_at(chars.as_slice(), "color(", false) {
        if to - from <= 3 {
            return match parse_u8(chars.as_slice(), from, to) {
                Some(number) => Ok(parsed_ansi_color(cleaned, number)),
                None => parse_error(original, "color number must be <= 255"),
            };
        }
    }
    if let Some((from, to)) = call_argument_at(chars.as_slice(), "rgb(", true) {
        let ghost arg = chars@.subrange(from as int, to as int);
        if count_commas(chars.as_slice(), from, to) != 2 {
            return parse_error(original, "expected three components (r, g, b)");
        }
        let i = find_comma(chars.as_slice(), from, to);
        proof {
            lemma_comma_within(arg);
        }
        let rest_from = from + i + 1;
        let ghost rest = arg.skip(i + 1);
        assert(chars@.subrange(rest_from as int, to as int) =~= rest);
        let j = find_comma(chars.as_slice(), rest_from, to);
        proof {
            lemma_comma_count_skip(arg);
            lemma_comma_within(rest);
            assert(chars@.subrange(from as int, from + i) =~= arg.take(i as int));
            assert(chars@.subrange(rest_from as int, rest_from + j) =~= rest.take(j as int));
            assert(chars@.subrange(rest_from + j + 1, to as int) =~= rest.skip(j + 1));
        }
        let red = match parse_u8(chars.as_slice(), from, from + i) {
            Some(v) => v,
            None => {
                return parse_error(original, "red component must be <= 255");
            },
        };
        let green = match parse_u8(chars.as_slice(), rest_from, rest_from + j) {
            Some(v) => v,
            None => {
                return parse_error(original, "green component must be <= 255");
            },
        };
        let blue = match parse_u8(chars.as_slice(), rest_from + j + 1, to) {
            Some(v) => v,
            None => {
                return parse_error(original, "blue component must be <= 255");
            },
        };
        return Ok(
            Color {
                name: cleaned.to_owned(),
                color_type: ColorType::TrueColor,
                number: None,
                triplet: Some(ColorTriplet { red, green, blue }),
            },
        );
    }
    parse_error(original, "unable to match color")
}

/// A text with a comma has its first comma inside it.
pub proof fn lemma_comma_within(s: Seq<char>)
    ensures
        comma_count(s) > 0 ==> first_comma(s) < s.len() && s[first_comma(s) as int] == ',',
        first_comma(s) <= s.len(),
    decreases s.len(),
{
    if s.len() > 0 && s[0] != ',' {
        lemma_comma_within(s.drop_first());
        lemma_comma_count_skip(s);
    }
}

/// Past its first character, or its first comma, a text has the commas that
/// are left.
pub proof fn lemma_comma_count_skip(s: Seq<char>)
    ensures
        s.len() > 0 ==> comma_count(s) == comma_count(s.drop_first()) + if s[0] == ',' {
            1nat
        } else {
            0nat
        },
        first_comma(s) < s.len() ==> comma_count(s) == comma_count(s.skip(first_comma(s) as int + 1))
            + 1,
    decreases s.len(),
{
    if s.len() > 0 {
        if s.len() == 1 {
            assert(s.drop_last() =~= Seq::<char>::empty());
            assert(s.drop_first() =~= Seq::<char>::empty());
        } else {
            lemma_comma_count_skip(s.drop_last());
            assert(s.drop_last().drop_first() =~= s.drop_first().drop_last());
        }
        if s[0] == ',' {
            assert(s.skip(1) =~= s.drop_first());
        } else {
            lemma_comma_count_skip(s.drop_first());
            if first_comma(s) < s.len() {
                assert(s.drop_first().skip(first_comma(s.drop_first()) as int + 1) =~= s.skip(
                    first_comma(s) as int + 1,
                ));
            }
        }
    }
}

/// The palette colour with the given name and number.
pub fn parsed_ansi_color(color_name: &str, color_number: u8) -> (color: Color)
    ensures
        color@ == (ColorView {
            name: color_name@,
            color_type: palette_type(color_number),
            number: Some(color_number),
            triplet: None,
        }),
{
    let color_type = if color_number < 16 {
        ColorType::Standard
    } else {
        ColorType::EightBit
    };
    Color { name: color_name.to_owned(), color_type, number: Some(color_number), triplet: None }
}

impl Color {
    /// Parses a colour. The text `default` is the default colour. Any other
    /// text is put in lower case and freed of the white space around it, and
    /// is then the name of a colour, `#` and six digits in base 16,
    /// `color(n)` with a number from 0 to 255, or `rgb(r,g,b)` with three
    /// such numbers.
    pub fn parse(color: &str) -> (result: Result<Self, Error>)
        ensures
            color@ == "default"@ ==> (result matches Ok(c) && c@ == default_color()),
            color@ != "default"@ ==> parsed_as(
                result,
                color@,
                parse_outcome(trimmed(lowercased(color@))),
            ),
    {
        if color.eq("default") {
            return Ok(Color::default());
        }
        let lower = color.to_lowercase();
        let cleaned = trim(lower.as_str());
        parse_cleaned(color, cleaned.as_str())
    }
}

} // verus!
