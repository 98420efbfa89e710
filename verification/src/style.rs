//! Styles: colours, attributes such as bold or italic, and links.

use vstd::prelude::*;
use vstd::std_specs::cmp::PartialEqSpecImpl;
use vstd::std_specs::convert::FromSpecImpl;
use vstd::string::StringExecFns;
use crate::color::color::ansi_code_numbers;
use crate::color::color::code_texts;
use crate::color::color::default_color;
use crate::color::color::downgraded;
use crate::color::color::number_strings;
use crate::color::color::true_color;
use crate::color::color::well_formed;
use crate::color::color::ColorSystem;
use crate::color::color::ColorType;
use crate::color::terminal_theme::TerminalTheme;
use crate::color::terminal_theme::DEFAULT_ANSI_COLORS;
use crate::color::triplet::blend_half;
use crate::color::triplet::blended_half;
use crate::color::triplet::hex_text;
use crate::color::triplet::ColorTriplet;
use crate::color::triplet::ColortripletRaw;
use crate::color::color::parse_outcome;
use crate::color::color::Color;
use crate::color::color::ColorView;
use crate::strings::chars_of;
use crate::strings::is_ascii_space;
use crate::strings::is_ascii_whitespace;
use crate::strings::lowercased;
use crate::strings::string_of;
use crate::strings::trim;
use crate::strings::trimmed;
use crate::strings::join;
use crate::strings::joined;
use crate::strings::texts;

verus! {

/// A set of style attributes, one bit for each.
#[derive(Clone, Copy, Debug, PartialEq, Eq, Hash, Structural)]
pub struct StyleAttribute {
    pub bits: u32,
}

/// The bits of the thirteen attributes, in the order in which a style names
/// them: bold, dim, italic, underline, blink, blink2, reverse, conceal,
/// strike, underline2, frame, encircle, overline.
pub const FLAG_BITS: [u32; 13] = [1, 2, 4, 8, 16, 32, 64, 128, 256, 512, 1024, 2048, 4096];

/// The names of the thirteen attributes.
pub const FLAG_NAMES: [&'static str; 13] = [
    "bold",
    "dim",
    "italic",
    "underline",
    "blink",
    "blink2",
    "reverse",
    "conceal",
    "strike",
    "underline2",
    "frame",
    "encircle",
    "overline",
];

/// What a style says of an attribute that it switches off.
pub const NEGATED_FLAG_NAMES: [&'static str; 13] = [
    "not bold",
    "not dim",
    "not italic",
    "not underline",
    "not blink",
    "not blink2",
    "not reverse",
    "not conceal",
    "not strike",
    "not underline2",
    "not frame",
    "not encircle",
    "not overline",
];

/// The ANSI escape code of each of the thirteen attributes.
pub const FLAG_CODES: [u16; 13] = [1, 2, 3, 4, 5, 6, 7, 8, 9, 21, 51, 52, 53];

/// Whether every bit of `flag` is set in `bits`.
pub open spec fn has_bits(bits: u32, flag: u32) -> bool {
    bits & flag == flag
}

impl View for StyleAttribute {
    type V = u32;

    open spec fn view(&self) -> u32 {
        self.bits
    }
}

impl StyleAttribute {
    /// The set with the given bits.
    pub fn from_bits(bits: u32) -> (set: Self)
        ensures
            set@ == bits,
    {
        StyleAttribute { bits }
    }

    /// The bits of this set.
    pub fn bits(&self) -> (bits: u32)
        ensures
            bits == self@,
    {
        self.bits
    }

    /// Bold text.
    pub fn bold() -> (flag: Self)
        ensures
            flag@ == 1,
    {
        StyleAttribute { bits: 1 }
    }

    /// Dim text.
    pub fn dim() -> (flag: Self)
        ensures
            flag@ == 2,
    {
        StyleAttribute { bits: 2 }
    }

    /// Text in italics.
    pub fn italic() -> (flag: Self)
        ensures
            flag@ == 4,
    {
        StyleAttribute { bits: 4 }
    }

    /// Underlined text.
    pub fn underline() -> (flag: Self)
        ensures
            flag@ == 8,
    {
        StyleAttribute { bits: 8 }
    }

    /// Blinking text.
    pub fn blink() -> (flag: Self)
        ensures
            flag@ == 16,
    {
        StyleAttribute { bits: 16 }
    }

    /// Fast blinking text.
    pub fn blink2() -> (flag: Self)
        ensures
            flag@ == 32,
    {
        StyleAttribute { bits: 32 }
    }

    /// Foreground and background swapped.
    pub fn reverse() -> (flag: Self)
        ensures
            flag@ == 64,
    {
        StyleAttribute { bits: 64 }
    }

    /// Concealed text.
    pub fn conceal() -> (flag: Self)
        ensures
            flag@ == 128,
    {
        StyleAttribute { bits: 128 }
    }

    /// Text struck through.
    pub fn strike() -> (flag: Self)
        ensures
            flag@ == 256,
    {
        StyleAttribute { bits: 256 }
    }

    /// Text underlined twice.
    pub fn underline2() -> (flag: Self)
        ensures
            flag@ == 512,
    {
        StyleAttribute { bits: 512 }
    }

    /// Framed text.
    pub fn frame() -> (flag: Self)
        ensures
            flag@ == 1024,
    {
        StyleAttribute { bits: 1024 }
    }

    /// Encircled text.
    pub fn encircle() -> (flag: Self)
        ensures
            flag@ == 2048,
    {
        StyleAttribute { bits: 2048 }
    }

    /// Text with a line over it.
    pub fn overline() -> (flag: Self)
        ensures
            flag@ == 4096,
    {
        StyleAttribute { bits: 4096 }
    }

    /// Whether every attribute of `flag` is in this set.
    pub fn enabled(&self, flag: StyleAttribute) -> (on: bool)
        ensures
            on == has_bits(self@, flag@),
    {
        (self.bits & flag.bits) == flag.bits
    }

    /// The thirteen attributes, in the order in which a style names them.
    pub fn all_flags() -> (flags: [StyleAttribute; 13])
        ensures
            forall|i: int| 0 <= i < 13 ==> (#[trigger] flags@[i])@ == FLAG_BITS@[i],
    {
        [
            StyleAttribute { bits: 1 },
            StyleAttribute { bits: 2 },
            StyleAttribute { bits: 4 },
            StyleAttribute { bits: 8 },
            StyleAttribute { bits: 16 },
            StyleAttribute { bits: 32 },
            StyleAttribute { bits: 64 },
            StyleAttribute { bits: 128 },
            StyleAttribute { bits: 256 },
            StyleAttribute { bits: 512 },
            StyleAttribute { bits: 1024 },
            StyleAttribute { bits: 2048 },
            StyleAttribute { bits: 4096 },
        ]
    }
}

impl Default for StyleAttribute {
    /// The empty set.
    fn default() -> (set: Self)
        ensures
            set@ == 0,
    {
        StyleAttribute { bits: 0 }
    }
}

/// A style as plain values.
pub struct StyleView {
    /// The style written out, as `Style::parse` reads it.
    pub style_definition: Seq<char>,
    pub color: Option<ColorView>,
    pub background_color: Option<ColorView>,
    /// The attributes that the style says something of.
    pub set_attributes: u32,
    /// Of those, the attributes that it switches on.
    pub attributes: u32,
    pub link: Option<Seq<char>>,
    pub link_id: Seq<char>,
    /// Whether the style was made without a colour, an attribute or a link.
    pub null: bool,
}

/// A terminal style: a colour, a background colour, a link, and attributes
/// that are each on, off, or not set.
#[derive(Debug)]
pub struct Style {
    style_definition: String,
    color: Option<Color>,
    background_color: Option<Color>,
    set_attributes: StyleAttribute,
    attributes: StyleAttribute,
    link: Option<String>,
    link_id: String,
    null: bool,
}

/// An optional colour as plain values.
pub open spec fn color_view(color: Option<Color>) -> Option<ColorView> {
    match color {
        Some(c) => Some(c@),
        None => None,
    }
}

/// An optional text as plain values.
pub open spec fn text_view(text: Option<String>) -> Option<Seq<char>> {
    match text {
        Some(t) => Some(t@),
        None => None,
    }
}

impl View for Style {
    type V = StyleView;

    closed spec fn view(&self) -> StyleView {
        StyleView {
            style_definition: self.style_definition@,
            color: color_view(self.color),
            background_color: color_view(self.background_color),
            set_attributes: self.set_attributes@,
            attributes: self.attributes@,
            link: text_view(self.link),
            link_id: self.link_id@,
            null: self.null,
        }
    }
}

/// The words that a style says of the first `upto` attributes: the name of
/// each one that is set and on, `not` and the name of each one that is set
/// and off.
pub open spec fn attribute_words(set: u32, on: u32, upto: int) -> Seq<Seq<char>>
    decreases upto,
{
    if upto <= 0 {
        Seq::empty()
    } else {
        let before = attribute_words(set, on, upto - 1);
        let flag = FLAG_BITS@[upto - 1];
        if has_bits(set, flag) {
            before.push(
                if has_bits(on, flag) {
                    FLAG_NAMES@[upto - 1]@
                } else {
                    NEGATED_FLAG_NAMES@[upto - 1]@
                },
            )
        } else {
            before
        }
    }
}

/// The words of a style's definition: its attributes, the name of its
/// colour, `on` and the name of its background colour, `link` and its link.
pub open spec fn definition_words(
    color: Option<ColorView>,
    background_color: Option<ColorView>,
    set: u32,
    on: u32,
    link: Option<Seq<char>>,
) -> Seq<Seq<char>> {
    attribute_words(set, on, 13) + (match color {
        Some(c) => seq![c.name],
        None => Seq::empty(),
    }) + (match background_color {
        Some(c) => seq!["on"@, c.name],
        None => Seq::empty(),
    }) + (match link {
        Some(l) => seq!["link"@, l],
        None => Seq::empty(),
    })
}

/// A style's definition: its words with a space between each two, or `none`
/// where that is empty.
pub open spec fn definition_text(words: Seq<Seq<char>>) -> Seq<char> {
    let text = joined(words, " "@);
    if text.len() == 0 {
        "none"@
    } else {
        text
    }
}

/// The definition that goes with what a style holds.
pub open spec fn definition_of(v: StyleView) -> Seq<char> {
    definition_text(
        definition_words(v.color, v.background_color, v.set_attributes, v.attributes, v.link),
    )
}

/// What a style says of the attributes `flag`: nothing where they are not
/// set, else whether they are on.
pub open spec fn flag_state(v: StyleView, flag: u32) -> Option<bool> {
    if has_bits(v.set_attributes, flag) {
        Some(has_bits(v.attributes, flag))
    } else {
        None
    }
}

/// Two styles are the same when they have the same colours, attributes and
/// link. The identifier of the link and the written definition do not count.
pub open spec fn same_style(a: StyleView, b: StyleView) -> bool {
    &&& a.color == b.color
    &&& a.background_color == b.background_color
    &&& a.set_attributes == b.set_attributes
    &&& a.attributes == b.attributes
    &&& a.link == b.link
}

/// Two optional styles are the same when both are missing, or both are there
/// and the same.
pub open spec fn same_optional_style(a: Option<StyleView>, b: Option<StyleView>) -> bool {
    match (a, b) {
        (Some(x), Some(y)) => same_style(x, y),
        (None, None) => true,
        _ => false,
    }
}

/// A link identifier goes with a link: 36 characters where there is a link,
/// none where there is not.
pub open spec fn link_id_fits(link: Option<Seq<char>>, id: Seq<char>) -> bool {
    match link {
        Some(_) => id.len() == 36,
        None => id.len() == 0,
    }
}

/// A copy of a style holds what the style holds, with a link identifier of
/// its own where there is a link, and is never null.
pub open spec fn is_copy_of(copy: StyleView, original: StyleView) -> bool {
    &&& copy.style_definition == original.style_definition
    &&& copy.color == original.color
    &&& copy.background_color == original.background_color
    &&& copy.set_attributes == original.set_attributes
    &&& copy.attributes == original.attributes
    &&& copy.link == original.link
    &&& link_id_fits(copy.link, copy.link_id)
    &&& !copy.null
}

/// The attributes that a list of attributes, each with its value, sets.
pub open spec fn set_bits(attributes: Seq<(StyleAttribute, bool)>) -> u32
    decreases attributes.len(),
{
    if attributes.len() == 0 {
        0
    } else {
        set_bits(attributes.drop_last()) | attributes.last().0@
    }
}

/// The attributes that a list of attributes, each with its value, switches
/// on.
pub open spec fn on_bits(attributes: Seq<(StyleAttribute, bool)>) -> u32
    decreases attributes.len(),
{
    if attributes.len() == 0 {
        0
    } else if attributes.last().1 {
        on_bits(attributes.drop_last()) | attributes.last().0@
    } else {
        on_bits(attributes.drop_last())
    }
}

/// The null style: nothing set, written `none`.
pub open spec fn null_style() -> StyleView {
    StyleView {
        style_definition: "none"@,
        color: None,
        background_color: None,
        set_attributes: 0,
        attributes: 0,
        link: None,
        link_id: Seq::empty(),
        null: true,
    }
}

/// What `Style::new` makes of its arguments, but for the link identifier.
pub open spec fn is_new_style(
    v: StyleView,
    color: Option<ColorView>,
    background_color: Option<ColorView>,
    attributes: Seq<(StyleAttribute, bool)>,
    link: Option<Seq<char>>,
) -> bool {
    &&& v.color == color
    &&& v.background_color == background_color
    &&& v.set_attributes == set_bits(attributes)
    &&& v.attributes == if set_bits(attributes) > 0 {
        on_bits(attributes)
    } else {
        0
    }
    &&& v.link == link
    &&& link_id_fits(link, v.link_id)
    &&& v.null == !(set_bits(attributes) > 0 || color is Some || background_color is Some
        || link is Some)
    &&& v.style_definition == definition_of(v)
}

/// `Uuid::new_v4` and the `to_string` of what it gives: a fresh random
/// identifier, written as 36 characters.
#[verifier::external_body]
fn random_link_id() -> (id: String)
    ensures
        id@.len() == 36,
{
    uuid::Uuid::new_v4().to_string()
}

/// A copy of an optional colour.
fn copy_color(color: &Option<Color>) -> (copy: Option<Color>)
    ensures
        color_view(copy) == color_view(*color),
{
    match color {
        Some(c) => Some(c.clone()),
        None => None,
    }
}

/// A copy of an optional text.
fn copy_text(text: &Option<String>) -> (copy: Option<String>)
    ensures
        text_view(copy) == text_view(*text),
{
    match text {
        Some(t) => Some(t.clone()),
        None => None,
    }
}

/// Whether two optional colours are equal.
fn same_color(a: &Option<Color>, b: &Option<Color>) -> (same: bool)
    ensures
        same == (color_view(*a) == color_view(*b)),
{
    match (a, b) {
        (Some(x), Some(y)) => x == y,
        (None, None) => true,
        _ => false,
    }
}

/// Whether two optional texts are equal.
fn same_text(a: &Option<String>, b: &Option<String>) -> (same: bool)
    ensures
        same == (text_view(*a) == text_view(*b)),
{
    match (a, b) {
        (Some(x), Some(y)) => x.as_str().eq(y.as_str()),
        (None, None) => true,
        _ => false,
    }
}

/// Writes out the definition of a style.
fn write_definition(
    color: &Option<Color>,
    background_color: &Option<Color>,
    set: StyleAttribute,
    on: StyleAttribute,
    link: &Option<String>,
) -> (text: String)
    ensures
        text@ == definition_text(
            definition_words(
                color_view(*color),
                color_view(*background_color),
                set@,
                on@,
                text_view(*link),
            ),
        ),
{
    let mut words: Vec<String> = Vec::new();
    let mut i: usize = 0;
    assert(texts(words@) =~= attribute_words(set@, on@, 0));
    while i < 13
        invariant
            i <= 13,
            texts(words@) == attribute_words(set@, on@, i as int),
        decreases 13 - i,
    {
        let flag = FLAG_BITS[i];
        if (set.bits & flag) == flag {
            let ghost before = words@;
            if (on.bits & flag) == flag {
                words.push(FLAG_NAMES[i].to_owned());
            } else {
                words.push(NEGATED_FLAG_NAMES[i].to_owned());
            }
            assert(texts(words@) =~= texts(before).push(words@.last()@));
        }
        i = i + 1;
    }
    let ghost attribute_part = texts(words@);
    match color {
        Some(c) => {
            let ghost before = words@;
            words.push(c.name.clone());
            assert(texts(words@) =~= texts(before) + seq![c.name@]);
        },
        None => {
            assert(texts(words@) =~= texts(words@) + Seq::<Seq<char>>::empty());
        },
    }
    let ghost color_part = texts(words@);
    match background_color {
        Some(c) => {
            let ghost before = words@;
            words.push("on".to_owned());
            words.push(c.name.clone());
            assert(texts(words@) =~= texts(before) + seq!["on"@, c.name@]);
        },
        None => {
            assert(texts(words@) =~= texts(words@) + Seq::<Seq<char>>::empty());
        },
    }
    match link {
        Some(l) => {
            let ghost before = words@;
            words.push("link".to_owned());
            words.push(l.clone());
            assert(texts(words@) =~= texts(before) + seq!["link"@, l@]);
        },
        None => {
            assert(texts(words@) =~= texts(words@) + Seq::<Seq<char>>::empty());
        },
    }
    let text = join(&words, " ");
    if text.as_str().is_empty() {
        "none".to_owned()
    } else {
        text
    }
}

impl Clone for Style {
    /// A copy with a link identifier of its own, which is never null.
    fn clone(&self) -> (copy: Self)
        ensures
            is_copy_of(copy@, self@),
    {
        let link_id = match &self.link {
            Some(_) => random_link_id(),
            None => String::new(),
        };
        Style {
            style_definition: self.style_definition.clone(),
            color: copy_color(&self.color),
            background_color: copy_color(&self.background_color),
            set_attributes: self.set_attributes,
            attributes: self.attributes,
            link: copy_text(&self.link),
            link_id,
            null: false,
        }
    }
}

impl PartialEq for Style {
    fn eq(&self, other: &Self) -> (same: bool) {
        same_color(&self.color, &other.color) && same_color(
            &self.background_color,
            &other.background_color,
        ) && self.set_attributes.bits == other.set_attributes.bits && self.attributes.bits
            == other.attributes.bits && same_text(&self.link, &other.link)
    }
}

impl PartialEqSpecImpl for Style {
    open spec fn obeys_eq_spec() -> bool {
        true
    }

    open spec fn eq_spec(&self, other: &Self) -> bool {
        same_style(self@, other@)
    }
}

impl Eq for Style {

}

impl Default for Style {
    /// The null style.
    fn default() -> (style: Self)
        ensures
            style@ == null_style(),
    {
        Style {
            style_definition: "none".to_owned(),
            color: None,
            background_color: None,
            set_attributes: StyleAttribute { bits: 0 },
            attributes: StyleAttribute { bits: 0 },
            link: None,
            link_id: String::new(),
            null: true,
        }
    }
}

impl Style {
    /// A style of the given colours, attributes and link. An attribute that
    /// is listed is set; it is on where it is listed with `true` at least
    /// once. A style with a link gets a fresh random link identifier.
    pub fn new(
        color: Option<Color>,
        background_color: Option<Color>,
        attributes: &[(StyleAttribute, bool)],
        link: Option<String>,
    ) -> (style: Self)
        ensures
            is_new_style(
                style@,
                color_view(color),
                color_view(background_color),
                attributes@,
                text_view(link),
            ),
    {
        let mut set: u32 = 0;
        let mut on: u32 = 0;
        let mut i: usize = 0;
        assert(attributes@.take(0) =~= Seq::<(StyleAttribute, bool)>::empty());
        while i < attributes.len()
            invariant
                i <= attributes@.len(),
                set == set_bits(attributes@.take(i as int)),
                on == on_bits(attributes@.take(i as int)),
            decreases attributes@.len() - i,
        {
            assert(attributes@.take(i + 1).drop_last() =~= attributes@.take(i as int));
            let (flag, value) = attributes[i];
            set = set | flag.bits;
            if value {
                on = on | flag.bits;
            }
            i = i + 1;
        }
        assert(attributes@.take(attributes@.len() as int) =~= attributes@);
        if set == 0 {
            on = 0;
        }
        let null = !(set > 0 || color.is_some() || background_color.is_some() || link.is_some());
        let link_id = match &link {
            Some(_) => random_link_id(),
            None => String::new(),
        };
        let set_attributes = StyleAttribute { bits: set };
        let attributes = StyleAttribute { bits: on };
        let style_definition = write_definition(
            &color,
            &background_color,
            set_attributes,
            attributes,
            &link,
        );
        Style {
            style_definition,
            color,
            background_color,
            set_attributes,
            attributes,
            link,
            link_id,
            null,
        }
    }

    /// The null style.
    pub fn null() -> (style: Self)
        ensures
            style@ == null_style(),
    {
        Style::default()
    }

    /// A style of colours alone. Its written definition is left at `none`.
    pub fn from_color(color: Option<Color>, background_color: Option<Color>) -> (style: Self)
        ensures
            style@ == (StyleView {
                color: color_view(color),
                background_color: color_view(background_color),
                null: !(color is Some || background_color is Some),
                ..null_style()
            }),
    {
        let null = !(color.is_some() || background_color.is_some());
        Style {
            style_definition: "none".to_owned(),
            color,
            background_color,
            set_attributes: StyleAttribute { bits: 0 },
            attributes: StyleAttribute { bits: 0 },
            link: None,
            link_id: String::new(),
            null,
        }
    }

    /// What the style says of the attributes `flag`.
    fn flag_value(&self, flag: u32) -> (state: Option<bool>)
        ensures
            state == flag_state(self@, flag),
    {
        if (self.set_attributes.bits & flag) == flag {
            Some((self.attributes.bits & flag) == flag)
        } else {
            None
        }
    }

    /// The foreground colour, where one is set.
    pub fn color(&self) -> (color: Option<&Color>)
        ensures
            match color {
                Some(c) => self@.color == Some(c@),
                None => self@.color is None,
            },
    {
        self.color.as_ref()
    }

    /// The background colour, where one is set.
    pub fn background_color(&self) -> (color: Option<&Color>)
        ensures
            match color {
                Some(c) => self@.background_color == Some(c@),
                None => self@.background_color is None,
            },
    {
        self.background_color.as_ref()
    }

    /// The link, where one is set.
    pub fn link(&self) -> (link: &Option<String>)
        ensures
            text_view(*link) == self@.link,
    {
        &self.link
    }

    /// Whether text is bold.
    pub fn bold(&self) -> (state: Option<bool>)
        ensures
            state == flag_state(self@, 1),
    {
        self.flag_value(1)
    }

    /// Whether text is dim.
    pub fn dim(&self) -> (state: Option<bool>)
        ensures
            state == flag_state(self@, 2),
    {
        self.flag_value(2)
    }

    /// Whether text is in italics.
    pub fn italic(&self) -> (state: Option<bool>)
        ensures
            state == flag_state(self@, 4),
    {
        self.flag_value(4)
    }

    /// Whether text is underlined.
    pub fn underline(&self) -> (state: Option<bool>)
        ensures
            state == flag_state(self@, 8),
    {
        self.flag_value(8)
    }

    /// Whether text blinks.
    pub fn blink(&self) -> (state: Option<bool>)
        ensures
            state == flag_state(self@, 16),
    {
        self.flag_value(16)
    }

    /// Whether text blinks fast.
    pub fn blink2(&self) -> (state: Option<bool>)
        ensures
            state == flag_state(self@, 32),
    {
        self.flag_value(32)
    }

    /// Whether foreground and background are swapped.
    pub fn reverse(&self) -> (state: Option<bool>)
        ensures
            state == flag_state(self@, 64),
    {
        self.flag_value(64)
    }

    /// Whether text is concealed.
    pub fn conceal(&self) -> (state: Option<bool>)
        ensures
            state == flag_state(self@, 128),
    {
        self.flag_value(128)
    }

    /// Whether text is struck through.
    pub fn strike(&self) -> (state: Option<bool>)
        ensures
            state == flag_state(self@, 256),
    {
        self.flag_value(256)
    }

    /// Whether text is underlined twice.
    pub fn underline2(&self) -> (state: Option<bool>)
        ensures
            state == flag_state(self@, 512),
    {
        self.flag_value(512)
    }

    /// Whether text is framed.
    pub fn frame(&self) -> (state: Option<bool>)
        ensures
            state == flag_state(self@, 1024),
    {
        self.flag_value(1024)
    }

    /// Whether text is encircled.
    pub fn encircle(&self) -> (state: Option<bool>)
        ensures
            state == flag_state(self@, 2048),
    {
        self.flag_value(2048)
    }

    /// Whether text has a line over it.
    pub fn overline(&self) -> (state: Option<bool>)
        ensures
            state == flag_state(self@, 4096),
    {
        self.flag_value(4096)
    }

    /// The identifier of the link, empty where the style has no link.
    pub fn link_id(&self) -> (id: &str)
        ensures
            id@ == self@.link_id,
    {
        self.link_id.as_str()
    }

    /// Whether the style is anything but null.
    pub fn as_bool(&self) -> (set: bool)
        ensures
            set == !self@.null,
    {
        !self.null
    }

    /// Whether the background is the terminal's default colour.
    pub fn transparent_background(&self) -> (transparent: bool)
        ensures
            transparent == match self@.background_color {
                Some(c) => c.color_type == crate::color::color::ColorType::Default,
                None => false,
            },
    {
        match &self.background_color {
            Some(color) => color.is_default(),
            None => false,
        }
    }

    /// The style written out.
    pub fn style_definition(&self) -> (text: &str)
        ensures
            text@ == self@.style_definition,
    {
        self.style_definition.as_str()
    }

    /// The style written out, as a string of its own.
    pub fn to_string(&self) -> (text: String)
        ensures
            text@ == self@.style_definition,
    {
        self.style_definition.clone()
    }

    /// A copy of the style with another link, or with none. The link
    /// identifier is the copy's, and goes with the link that the style had.
    pub fn update_link(&self, link: Option<&str>) -> (style: Self)
        ensures
            style@.link == match link {
                Some(l) => Some(l@),
                None => None,
            },
            is_copy_of(StyleView { link: self@.link, ..style@ }, self@),
    {
        let mut ret = self.clone();
        ret.link = match link {
            Some(l) => Some(l.to_owned()),
            None => None,
        };
        ret
    }
}

/// Two styles are alike when they are the same and are written the same.
pub open spec fn alike_style(a: StyleView, b: StyleView) -> bool {
    same_style(a, b) && a.style_definition == b.style_definition
}

/// Two optional styles are alike when both are missing, or both are there
/// and alike.
pub open spec fn alike_optional_style(a: Option<StyleView>, b: Option<StyleView>) -> bool {
    match (a, b) {
        (Some(x), Some(y)) => alike_style(x, y),
        (None, None) => true,
        _ => false,
    }
}

/// Two styles, neither of them null, laid over each other. What `a` sets
/// stands; `b` fills in the colours, the attributes and the link that `a`
/// leaves open.
pub open spec fn merged(a: StyleView, b: StyleView) -> StyleView {
    let v = StyleView {
        style_definition: Seq::empty(),
        color: if a.color is Some {
            a.color
        } else {
            b.color
        },
        background_color: if a.background_color is Some {
            a.background_color
        } else {
            b.background_color
        },
        set_attributes: a.set_attributes | b.set_attributes,
        attributes: (b.attributes & !a.set_attributes) | (a.attributes & a.set_attributes),
        link: if a.link is Some {
            a.link
        } else {
            b.link
        },
        link_id: if a.link_id.len() > 0 {
            a.link_id
        } else {
            b.link_id
        },
        null: false,
    };
    StyleView { style_definition: definition_of(v), ..v }
}

/// What a copy of a style holds: what the style holds, but never null, and
/// with a link identifier of its own, which stands here as 36 zeros.
pub open spec fn copy_view(a: StyleView) -> StyleView {
    StyleView {
        link_id: if a.link is Some {
            Seq::new(36, |i: int| '0')
        } else {
            Seq::empty()
        },
        null: false,
        ..a
    }
}

/// Two styles hold the same but for their link identifiers, which are
/// equally long.
pub open spec fn same_but_id(a: StyleView, b: StyleView) -> bool {
    &&& a.style_definition == b.style_definition
    &&& a.color == b.color
    &&& a.background_color == b.background_color
    &&& a.set_attributes == b.set_attributes
    &&& a.attributes == b.attributes
    &&& a.link == b.link
    &&& a.link_id.len() == b.link_id.len()
    &&& a.null == b.null
}

/// A style combined with another, or with none: a null style gives way to
/// a copy of the other, and two styles that are not null are laid over each
/// other.
pub open spec fn combined(a: StyleView, b: Option<StyleView>) -> StyleView {
    match b {
        None => copy_view(a),
        Some(b) => if b.null {
            copy_view(a)
        } else if a.null {
            copy_view(b)
        } else {
            merged(a, b)
        },
    }
}

/// Combining styles that hold the same but for their link identifiers gives
/// styles that hold the same but for their link identifiers.
pub proof fn lemma_combined_same(a: StyleView, x: StyleView, b: Option<StyleView>, y: Option<StyleView>)
    requires
        same_but_id(a, x),
        match (b, y) {
            (Some(p), Some(q)) => same_but_id(p, q),
            (None, None) => true,
            _ => false,
        },
    ensures
        same_but_id(combined(a, b), combined(x, y)),
{
}

impl Style {
    /// This style combined with `style2`. Where `style2` is missing or null
    /// the result is a copy of this style; where this style is null, a copy
    /// of `style2`; otherwise the two laid over each other, this style
    /// first.
    pub fn combine(&self, style2: Option<&Self>) -> (style: Self)
        ensures
            match style2 {
                None => is_copy_of(style@, self@),
                Some(s) => if s@.null {
                    is_copy_of(style@, self@)
                } else if self@.null {
                    is_copy_of(style@, s@)
                } else {
                    style@ == merged(self@, s@)
                },
            },
            same_but_id(
                style@,
                combined(
                    self@,
                    match style2 {
                        Some(s) => Some(s@),
                        None => None,
                    },
                ),
            ),
    {
        let style2 = match style2 {
            None => {
                return self.clone();
            },
            Some(s) => s,
        };
        if style2.null {
            return self.clone();
        }
        if self.null {
            return style2.clone();
        }
        let color = match &self.color {
            Some(c) => Some(c.clone()),
            None => copy_color(&style2.color),
        };
        let background_color = match &self.background_color {
            Some(c) => Some(c.clone()),
            None => copy_color(&style2.background_color),
        };
        let link = match &self.link {
            Some(l) => Some(l.clone()),
            None => copy_text(&style2.link),
        };
        let link_id = if self.link_id.as_str().is_empty() {
            style2.link_id.clone()
        } else {
            self.link_id.clone()
        };
        let set_attributes = StyleAttribute {
            bits: self.set_attributes.bits | style2.set_attributes.bits,
        };
        let attributes = StyleAttribute {
            bits: (style2.attributes.bits & !self.set_attributes.bits) | (self.attributes.bits
                & self.set_attributes.bits),
        };
        let style_definition = write_definition(
            &color,
            &background_color,
            set_attributes,
            attributes,
            &link,
        );
        Style {
            style_definition,
            color,
            background_color,
            set_attributes,
            attributes,
            link,
            link_id,
            null: false,
        }
    }
}

/// The short and the long names of the attributes, each with the bit of its
/// attribute.
pub const STYLE_ATTRIBUTES: [(&'static str, u32); 22] = [
    ("dim", 2),
    ("d", 2),
    ("bold", 1),
    ("b", 1),
    ("italic", 4),
    ("i", 4),
    ("underline", 8),
    ("u", 8),
    ("blink", 16),
    ("blink2", 32),
    ("reverse", 64),
    ("r", 64),
    ("conceal", 128),
    ("c", 128),
    ("strike", 256),
    ("s", 256),
    ("underline2", 512),
    ("uu", 512),
    ("frame", 1024),
    ("encircle", 2048),
    ("overline", 4096),
    ("o", 4096),
];

/// Whether `i` is the first row of the attribute names with the name `name`.
pub open spec fn is_first_attribute(name: Seq<char>, i: int) -> bool {
    &&& 0 <= i < STYLE_ATTRIBUTES@.len()
    &&& STYLE_ATTRIBUTES@[i].0@ == name
    &&& forall|j: int| 0 <= j < i ==> (#[trigger] STYLE_ATTRIBUTES@[j]).0@ != name
}

/// The bit of the attribute with the name `name`, if there is one.
pub open spec fn attribute_bits(name: Seq<char>) -> Option<u32> {
    if exists|i: int| is_first_attribute(name, i) {
        Some(STYLE_ATTRIBUTES@[choose|i: int| is_first_attribute(name, i)].1)
    } else {
        None
    }
}

/// The bit of the attribute with the name `name`, if there is one.
pub fn attribute_flag(name: &str) -> (flag: Option<u32>)
    ensures
        flag == attribute_bits(name@),
{
    let table = STYLE_ATTRIBUTES.as_slice();
    let mut i: usize = 0;
    while i < table.len()
        invariant
            i <= table@.len(),
            table@ == STYLE_ATTRIBUTES@,
            forall|j: int| 0 <= j < i ==> (#[trigger] table@[j]).0@ != name@,
        decreases table@.len() - i,
    {
        if table[i].0.eq(name) {
            proof {
                assert(is_first_attribute(name@, i as int));
                let k = choose|k: int| is_first_attribute(name@, k);
                assert(k == i) by {
                    if k < i {
                        assert(table@[k].0@ != name@);
                    } else if i < k {
                        assert(STYLE_ATTRIBUTES@[i as int].0@ != name@);
                    }
                }
            }
            return Some(table[i].1);
        }
        i = i + 1;
    }
    proof {
        assert forall|k: int| !is_first_attribute(name@, k) by {
            if 0 <= k < table@.len() {
                assert(table@[k].0@ != name@);
            }
        }
    }
    None
}

/// A style in the making, as plain values.
pub struct BuilderView {
    pub color: Option<ColorView>,
    pub background_color: Option<ColorView>,
    /// The attributes that were given a value, each once, in the order in
    /// which they first came.
    pub flags: Seq<u32>,
    /// The attributes that are on.
    pub attributes: u32,
    pub link: Option<Seq<char>>,
}

/// A style in the making: colours, attributes and a link are added one by
/// one, and `build` makes the style.
pub struct StyleBuilder {
    color: Option<Color>,
    background_color: Option<Color>,
    attributes_set: Vec<StyleAttribute>,
    attributes: StyleAttribute,
    link: Option<String>,
}

/// The bits of a list of attribute sets.
pub open spec fn bits_of(flags: Seq<StyleAttribute>) -> Seq<u32> {
    Seq::new(flags.len(), |i: int| flags[i]@)
}

impl View for StyleBuilder {
    type V = BuilderView;

    closed spec fn view(&self) -> BuilderView {
        BuilderView {
            color: color_view(self.color),
            background_color: color_view(self.background_color),
            flags: bits_of(self.attributes_set@),
            attributes: self.attributes@,
            link: text_view(self.link),
        }
    }
}

/// A builder that nothing was added to.
pub open spec fn empty_builder() -> BuilderView {
    BuilderView {
        color: None,
        background_color: None,
        flags: Seq::empty(),
        attributes: 0,
        link: None,
    }
}

/// A builder after the attributes `flag` were given the value `value`.
pub open spec fn with_flag(b: BuilderView, flag: u32, value: bool) -> BuilderView {
    BuilderView {
        flags: if b.flags.contains(flag) {
            b.flags
        } else {
            b.flags.push(flag)
        },
        attributes: if value {
            b.attributes | flag
        } else {
            b.attributes & !flag
        },
        ..b
    }
}

/// The attributes of a builder as `Style::new` takes them: each with
/// whether all of it is on.
pub open spec fn flag_pairs(flags: Seq<u32>, attributes: u32) -> Seq<(StyleAttribute, bool)> {
    Seq::new(flags.len(), |i: int| (StyleAttribute { bits: flags[i] }, has_bits(attributes, flags[i])))
}

/// Whether `v` is a style that `b` builds.
pub open spec fn is_built(v: StyleView, b: BuilderView) -> bool {
    is_new_style(v, b.color, b.background_color, flag_pairs(b.flags, b.attributes), b.link)
}

impl Clone for StyleBuilder {
    fn clone(&self) -> (copy: Self)
        ensures
            copy@ == self@,
    {
        let mut flags: Vec<StyleAttribute> = Vec::new();
        let mut i: usize = 0;
        while i < self.attributes_set.len()
            invariant
                i <= self.attributes_set@.len(),
                flags@ == self.attributes_set@.take(i as int),
            decreases self.attributes_set@.len() - i,
        {
            flags.push(self.attributes_set[i]);
            assert(flags@ =~= self.attributes_set@.take(i + 1));
            i = i + 1;
        }
        assert(self.attributes_set@.take(self.attributes_set@.len() as int) =~= self.attributes_set@);
        StyleBuilder {
            color: copy_color(&self.color),
            background_color: copy_color(&self.background_color),
            attributes_set: flags,
            attributes: self.attributes,
            link: copy_text(&self.link),
        }
    }
}

impl Default for StyleBuilder {
    fn default() -> (builder: Self)
        ensures
            builder@ == empty_builder(),
    {
        let builder = StyleBuilder {
            color: None,
            background_color: None,
            attributes_set: Vec::new(),
            attributes: StyleAttribute { bits: 0 },
            link: None,
        };
        assert(bits_of(builder.attributes_set@) =~= Seq::<u32>::empty());
        builder
    }
}

impl StyleBuilder {
    /// A builder that nothing was added to.
    pub fn new() -> (builder: Self)
        ensures
            builder@ == empty_builder(),
    {
        StyleBuilder::default()
    }

    /// Sets the foreground colour.
    pub fn with_color(self, color: Color) -> (builder: Self)
        ensures
            builder@ == (BuilderView { color: Some(color@), ..self@ }),
    {
        let mut builder = self;
        builder.color = Some(color);
        builder
    }

    /// Sets the background colour.
    pub fn with_background_color(self, color: Color) -> (builder: Self)
        ensures
            builder@ == (BuilderView { background_color: Some(color@), ..self@ }),
    {
        let mut builder = self;
        builder.background_color = Some(color);
        builder
    }

    /// Gives the attributes `flag` a value: on or off.
    pub fn with_attribute(self, flag: StyleAttribute, value: bool) -> (builder: Self)
        ensures
            builder@ == with_flag(self@, flag@, value),
    {
        let mut builder = self;
        let ghost before = builder.attributes_set@;
        let mut known = false;
        let mut i: usize = 0;
        while i < builder.attributes_set.len()
            invariant
                i <= builder.attributes_set@.len(),
                builder.attributes_set@ == before,
                known <==> exists|j: int| 0 <= j < i && bits_of(before)[j] == flag@,
            decreases builder.attributes_set@.len() - i,
        {
            if builder.attributes_set[i].bits == flag.bits {
                assert(bits_of(before)[i as int] == flag@);
                known = true;
            }
            i = i + 1;
        }
        proof {
            if known {
                let j = choose|j: int| 0 <= j < i && bits_of(before)[j] == flag@;
                assert(bits_of(before).contains(flag@));
            } else {
                assert(!bits_of(before).contains(flag@));
            }
        }
        if !known {
            builder.attributes_set.push(flag);
            assert(bits_of(builder.attributes_set@) =~= bits_of(before).push(flag@));
        }
        builder.attributes = StyleAttribute {
            bits: if value {
                builder.attributes.bits | flag.bits
            } else {
                builder.attributes.bits & !flag.bits
            },
        };
        builder
    }

    /// Sets the link.
    pub fn with_link(self, link: &str) -> (builder: Self)
        ensures
            builder@ == (BuilderView { link: Some(link@), ..self@ }),
    {
        let mut builder = self;
        builder.link = Some(link.to_owned());
        builder
    }

    /// Gives the attribute with the name `attribute` a value. A name that
    /// is no attribute's changes nothing.
    pub fn attribute_from_str(self, attribute: &str, value: bool) -> (builder: Self)
        ensures
            builder@ == match attribute_bits(attribute@) {
                Some(bits) => with_flag(self@, bits, value),
                None => self@,
            },
    {
        match attribute_flag(attribute) {
            Some(bits) => self.with_attribute(StyleAttribute { bits }, value),
            None => self,
        }
    }

    /// The style that was built.
    pub fn build(self) -> (style: Style)
        ensures
            is_built(style@, self@),
    {
        let mut pairs: Vec<(StyleAttribute, bool)> = Vec::new();
        let mut i: usize = 0;
        let ghost want = flag_pairs(self@.flags, self@.attributes);
        while i < self.attributes_set.len()
            invariant
                i <= self.attributes_set@.len(),
                want == flag_pairs(self@.flags, self@.attributes),
                pairs@ == want.take(i as int),
            decreases self.attributes_set@.len() - i,
        {
            let flag = self.attributes_set[i];
            pairs.push((flag, self.attributes.enabled(flag)));
            assert(pairs@ =~= want.take(i + 1));
            i = i + 1;
        }
        assert(want.take(self.attributes_set@.len() as int) =~= want);
        Style::new(self.color, self.background_color, pairs.as_slice(), self.link)
    }
}

/// Styles combined one after the other, starting from the null style, each
/// style over what the earlier ones gave.
pub open spec fn chained(styles: Seq<Option<StyleView>>) -> StyleView
    decreases styles.len(),
{
    if styles.len() == 0 {
        null_style()
    } else {
        combined(chained(styles.drop_last()), styles.last())
    }
}

/// A list of optional styles as plain values.
pub open spec fn optional_views(styles: Seq<Option<&Style>>) -> Seq<Option<StyleView>> {
    Seq::new(
        styles.len(),
        |i: int|
            match styles[i] {
                Some(s) => Some(s@),
                None => None,
            },
    )
}

/// The first of `styles` that is there.
pub open spec fn first_style(styles: Seq<Option<StyleView>>) -> Option<StyleView>
    decreases styles.len(),
{
    if styles.len() == 0 {
        None
    } else if styles[0] is Some {
        styles[0]
    } else {
        first_style(styles.drop_first())
    }
}

impl Style {
    /// A style with the background colour of this style and nothing else;
    /// the null style where this style has no background colour.
    pub fn background_style(&self) -> (style: Self)
        ensures
            match self@.background_color {
                Some(c) => is_built(
                    style@,
                    BuilderView { background_color: Some(c), ..empty_builder() },
                ),
                None => style@ == null_style(),
            },
    {
        match &self.background_color {
            Some(color) => StyleBuilder::new().with_background_color(color.clone()).build(),
            None => Style::default(),
        }
    }

    /// The styles combined one after the other, starting from the null
    /// style.
    pub fn chain(styles: &[Option<&Style>]) -> (style: Style)
        ensures
            same_but_id(style@, chained(optional_views(styles@))),
    {
        let mut ret_style = Style::default();
        let mut i: usize = 0;
        let ghost all = optional_views(styles@);
        assert(all.take(0) =~= Seq::<Option<StyleView>>::empty());
        while i < styles.len()
            invariant
                i <= styles@.len(),
                all == optional_views(styles@),
                same_but_id(ret_style@, chained(all.take(i as int))),
            decreases styles@.len() - i,
        {
            proof {
                assert(all.take(i + 1).drop_last() =~= all.take(i as int));
                assert(all.take(i + 1).last() == all[i as int]);
                lemma_combined_same(
                    ret_style@,
                    chained(all.take(i as int)),
                    all[i as int],
                    all[i as int],
                );
            }
            ret_style = ret_style.combine(styles[i]);
            i = i + 1;
        }
        assert(all.take(styles@.len() as int) =~= all);
        ret_style
    }

    /// A copy of the first of `styles` that is there, if any is.
    pub fn pick_first(styles: &[Option<&Style>]) -> (style: Option<Style>)
        ensures
            match first_style(optional_views(styles@)) {
                Some(first) => style matches Some(s) && is_copy_of(s@, first),
                None => style is None,
            },
    {
        let mut i: usize = 0;
        let ghost all = optional_views(styles@);
        assert(all.skip(0) =~= all);
        while i < styles.len()
            invariant
                i <= styles@.len(),
                all == optional_views(styles@),
                first_style(all) == first_style(all.skip(i as int)),
            decreases styles@.len() - i,
        {
            assert(all.skip(i as int).drop_first() =~= all.skip(i + 1));
            assert(all.skip(i as int)[0] == all[i as int]);
            if let Some(style) = styles[i] {
                return Some(style.clone());
            }
            i = i + 1;
        }
        None
    }
}

/// A stack of styles that is never empty: each style that is pushed is
/// combined with the style on top.
pub struct StyleStack {
    bottom: Style,
    above: Vec<Style>,
}

impl View for StyleStack {
    type V = Seq<StyleView>;

    closed spec fn view(&self) -> Seq<StyleView> {
        seq![self.bottom@] + Seq::new(self.above@.len(), |i: int| self.above@[i]@)
    }
}

impl StyleStack {
    /// A stack that holds `default_style` and nothing else.
    pub fn new(default_style: Style) -> (stack: Self)
        ensures
            stack@ == seq![default_style@],
    {
        let stack = StyleStack { bottom: default_style, above: Vec::new() };
        assert(stack@ =~= seq![default_style@]);
        stack
    }

    /// The style on top.
    pub fn current(&self) -> (style: &Style)
        ensures
            self@.len() > 0,
            style@ == self@.last(),
    {
        if self.above.len() == 0 {
            &self.bottom
        } else {
            &self.above[self.above.len() - 1]
        }
    }

    /// Puts the style on top combined with `new_style` on the stack.
    pub fn push(&mut self, new_style: Style)
        ensures
            old(self)@.len() > 0,
            final(self)@.len() == old(self)@.len() + 1,
            final(self)@.drop_last() == old(self)@,
            same_but_id(final(self)@.last(), combined(old(self)@.last(), Some(new_style@))),
    {
        let top = self.current().combine(Some(&new_style));
        self.above.push(top);
        assert(final(self)@.drop_last() =~= old(self)@);
    }

    /// Takes the style on top off the stack and returns it. The last style
    /// stays where it is: a copy of it is returned.
    pub fn pop(&mut self) -> (style: Style)
        ensures
            old(self)@.len() > 0,
            old(self)@.len() == 1 ==> final(self)@ == old(self)@ && is_copy_of(
                style@,
                old(self)@.last(),
            ),
            old(self)@.len() > 1 ==> final(self)@ == old(self)@.drop_last() && style@ == old(
                self,
            )@.last(),
    {
        if self.above.len() == 0 {
            return self.bottom.clone();
        }
        let style = self.above.pop().unwrap();
        assert(final(self)@ =~= old(self)@.drop_last());
        style
    }
}

/// Why a text is not a style.
#[derive(Debug)]
pub enum Error {
    SyntaxError(String),
    ColorParseError(crate::color::color::Error),
}

/// An error as plain values: what is wrong with the syntax, or the colour
/// that could not be parsed and what is wrong with it.
pub enum ErrorView {
    Syntax(Seq<char>),
    Color(Seq<char>, Seq<char>),
}

impl View for Error {
    type V = ErrorView;

    open spec fn view(&self) -> ErrorView {
        match self {
            Error::SyntaxError(message) => ErrorView::Syntax(message@),
            Error::ColorParseError(e) => ErrorView::Color(e.original(), e.message()),
        }
    }
}

impl From<crate::color::color::Error> for Error {
    fn from(e: crate::color::color::Error) -> (error: Self) {
        Error::ColorParseError(e)
    }
}

impl FromSpecImpl<crate::color::color::Error> for Error {
    open spec fn obeys_from_spec() -> bool {
        true
    }

    open spec fn from_spec(e: crate::color::color::Error) -> Self {
        Error::ColorParseError(e)
    }
}

impl Error {
    /// The error as a sentence.
    pub fn to_string(&self) -> (text: String)
        ensures
            text@ == match self@ {
                ErrorView::Syntax(message) => message,
                ErrorView::Color(original, message) => "Color "@ + original
                    + " could not be parsed due to: "@ + message,
            },
    {
        match self {
            Error::SyntaxError(message) => message.clone(),
            Error::ColorParseError(e) => e.to_string(),
        }
    }
}

/// The number of characters of ASCII white space at the start of `s`.
pub open spec fn blank_run(s: Seq<char>) -> nat
    decreases s.len(),
{
    if s.len() > 0 && is_ascii_space(s[0]) {
        1 + blank_run(s.drop_first())
    } else {
        0
    }
}

/// The number of characters at the start of `s` that are not ASCII white
/// space.
pub open spec fn mark_run(s: Seq<char>) -> nat
    decreases s.len(),
{
    if s.len() > 0 && !is_ascii_space(s[0]) {
        1 + mark_run(s.drop_first())
    } else {
        0
    }
}

/// Runs end within the text, and a run of marks that starts at a mark is
/// not empty.
pub proof fn lemma_runs(s: Seq<char>)
    ensures
        blank_run(s) <= s.len(),
        mark_run(s) <= s.len(),
        blank_run(s) < s.len() ==> !is_ascii_space(s[blank_run(s) as int]),
        s.len() > 0 && !is_ascii_space(s[0]) ==> mark_run(s) > 0,
    decreases s.len(),
{
    if s.len() > 0 {
        lemma_runs(s.drop_first());
    }
}

/// The words of `s`: what stands between stretches of ASCII white space.
pub open spec fn ascii_words(s: Seq<char>) -> Seq<Seq<char>>
    decreases s.len(),
    via ascii_words_decreases
{
    let a = blank_run(s);
    if a >= s.len() {
        Seq::empty()
    } else {
        let b = a + mark_run(s.skip(a as int));
        seq![s.subrange(a as int, b as int)] + ascii_words(s.skip(b as int))
    }
}

#[via_fn]
proof fn ascii_words_decreases(s: Seq<char>) {
    lemma_runs(s);
    let a = blank_run(s);
    if a < s.len() {
        lemma_runs(s.skip(a as int));
    }
}

/// The number of characters from `from` on that are ASCII white space, or
/// that are not, as `blanks` says.
fn ascii_run_from(chars: &[char], from: usize, blanks: bool) -> (n: usize)
    requires
        from <= chars@.len(),
    ensures
        from + n <= chars@.len(),
        blanks ==> n == blank_run(chars@.skip(from as int)),
        !blanks ==> n == mark_run(chars@.skip(from as int)),
{
    let ghost s = chars@.skip(from as int);
    let mut i: usize = from;
    assert(s.skip(0) =~= s);
    while i < chars.len() && is_ascii_whitespace(chars[i]) == blanks
        invariant
            from <= i <= chars@.len(),
            s == chars@.skip(from as int),
            blanks ==> blank_run(s) == (i - from) + blank_run(s.skip(i - from)),
            !blanks ==> mark_run(s) == (i - from) + mark_run(s.skip(i - from)),
        decreases chars@.len() - i,
    {
        assert(s.skip(i - from).drop_first() =~= s.skip(i - from + 1));
        i = i + 1;
    }
    i - from
}

/// The words of `text`: what stands between stretches of ASCII white space.
pub fn split_ascii_whitespace(text: &str) -> (words: Vec<String>)
    ensures
        texts(words@) == ascii_words(text@),
{
    let chars = chars_of(text);
    let n = chars.len();
    let mut words: Vec<String> = Vec::new();
    let mut from: usize = 0;
    proof {
        assert(chars@.skip(0) =~= chars@);
        assert(texts(words@) + ascii_words(chars@) =~= ascii_words(chars@));
    }
    loop
        invariant
            from <= chars@.len() == n,
            chars@ == text@,
            ascii_words(text@) == texts(words@) + ascii_words(chars@.skip(from as int)),
        ensures
            texts(words@) == ascii_words(text@),
        decreases chars@.len() - from,
    {
        let ghost rest = chars@.skip(from as int);
        let a = from + ascii_run_from(chars.as_slice(), from, true);
        if a >= n {
            assert(texts(words@) + Seq::<Seq<char>>::empty() =~= texts(words@));
            break;
        }
        proof {
            lemma_runs(rest);
            assert(rest.skip(a - from) =~= chars@.skip(a as int));
            lemma_runs(chars@.skip(a as int));
        }
        let b = a + ascii_run_from(chars.as_slice(), a, false);
        let word = string_of(chars.as_slice(), a, b);
        proof {
            let before = words@;
            assert(chars@.subrange(a as int, b as int) =~= rest.subrange(a - from, b - from));
            assert(rest.skip(b - from) =~= chars@.skip(b as int));
            assert(texts(before.push(word)) + ascii_words(chars@.skip(b as int)) =~= texts(before)
                + (seq![word@] + ascii_words(chars@.skip(b as int))));
        }
        words.push(word);
        from = b;
    }
    words
}

/// What `Color::parse` makes of a text.
pub open spec fn color_outcome(text: Seq<char>) -> Result<ColorView, ErrorView> {
    if text == "default"@ {
        Ok(default_color())
    } else {
        match parse_outcome(trimmed(lowercased(text))) {
            Ok(c) => Ok(c),
            Err(message) => Err(ErrorView::Color(text, message)),
        }
    }
}

/// What the words of a style definition from word `i` on make of the
/// builder `b`. `on` takes the next word as the background colour, `not`
/// the next word as an attribute to switch off, `link` the next word as the
/// link. The name of an attribute switches it on. Any other word is the
/// foreground colour. The words `on`, `not` and `link`, the names of
/// attributes to switch on and the foreground colour are read in lower
/// case.
pub open spec fn parse_from(words: Seq<Seq<char>>, i: nat, b: BuilderView) -> Result<
    BuilderView,
    ErrorView,
>
    decreases words.len() - i,
{
    if i >= words.len() {
        Ok(b)
    } else {
        let word = lowercased(words[i as int]);
        if word == "on"@ {
            if i + 1 >= words.len() {
                Err(ErrorView::Syntax("color expected after 'on'"@))
            } else {
                match color_outcome(words[i as int + 1]) {
                    Ok(c) => parse_from(words, i + 2, BuilderView { background_color: Some(c), ..b }),
                    Err(e) => Err(e),
                }
            }
        } else if word == "not"@ {
            let next = if i + 1 < words.len() {
                words[i as int + 1]
            } else {
                Seq::empty()
            };
            match attribute_bits(next) {
                Some(bits) => parse_from(
                    words,
                    if i + 1 < words.len() {
                        i + 2
                    } else {
                        i + 1
                    },
                    with_flag(b, bits, false),
                ),
                None => Err(
                    ErrorView::Syntax("style attribute expected after 'not', found: "@ + next),
                ),
            }
        } else if word == "link"@ {
            if i + 1 >= words.len() {
                Err(ErrorView::Syntax("URL expected after 'link'"@))
            } else {
                parse_from(words, i + 2, BuilderView { link: Some(words[i as int + 1]), ..b })
            }
        } else {
            match attribute_bits(word) {
                Some(bits) => parse_from(words, i + 1, with_flag(b, bits, true)),
                None => match color_outcome(word) {
                    Ok(c) => parse_from(words, i + 1, BuilderView { color: Some(c), ..b }),
                    Err(e) => Err(e),
                },
            }
        }
    }
}

/// What a style definition is: the null style (`None`) where it is `none`
/// with white space around it at most, else what its words build.
pub open spec fn parsed_style(definition: Seq<char>) -> Result<Option<BuilderView>, ErrorView> {
    if trimmed(definition) == "none"@ {
        Ok(None)
    } else {
        match parse_from(ascii_words(definition), 0, empty_builder()) {
            Ok(b) => Ok(Some(b)),
            Err(e) => Err(e),
        }
    }
}

/// The definition of a style that `b` builds.
pub open spec fn built_definition(b: BuilderView) -> Seq<char> {
    let pairs = flag_pairs(b.flags, b.attributes);
    definition_text(
        definition_words(
            b.color,
            b.background_color,
            set_bits(pairs),
            if set_bits(pairs) > 0 {
                on_bits(pairs)
            } else {
                0
            },
            b.link,
        ),
    )
}

/// A colour parsed for a style.
fn parse_color(text: &str) -> (result: Result<Color, Error>)
    ensures
        match color_outcome(text@) {
            Ok(c) => result matches Ok(color) && color@ == c,
            Err(e) => result matches Err(error) && error@ == e,
        },
{
    match Color::parse(text) {
        Ok(color) => Ok(color),
        Err(e) => Err(Error::from(e)),
    }
}

impl Style {
    /// Parses a style definition: see `parse_from`.
    pub fn parse(style_definition: &str) -> (result: Result<Style, Error>)
        ensures
            match parsed_style(style_definition@) {
                Ok(None) => result matches Ok(style) && style@ == null_style(),
                Ok(Some(b)) => result matches Ok(style) && is_built(style@, b),
                Err(e) => result matches Err(error) && error@ == e,
            },
    {
        if trim(style_definition).as_str().eq("none") {
            return Ok(Style::null());
        }
        let words = split_ascii_whitespace(style_definition);
        let ghost all = texts(words@);
        let mut style_builder = StyleBuilder::new();
        let mut i: usize = 0;
        while i < words.len()
            invariant
                i <= words@.len(),
                all == texts(words@),
                all == ascii_words(style_definition@),
                trimmed(style_definition@) != "none"@,
                parse_from(all, i as nat, style_builder@) == parse_from(all, 0, empty_builder()),
            decreases words@.len() - i,
        {
            assert(all[i as int] == words@[i as int]@);
            let word = words[i].as_str().to_lowercase();
            if word.as_str().eq("on") {
                if i + 1 >= words.len() {
                    return Err(Error::SyntaxError("color expected after 'on'".to_owned()));
                }
                assert(all[i + 1] == words@[i + 1]@);
                let color = match parse_color(words[i + 1].as_str()) {
                    Ok(c) => c,
                    Err(e) => {
                        return Err(e);
                    },
                };
                style_builder = style_builder.with_background_color(color);
                i = i + 2;
            } else if word.as_str().eq("not") {
                let empty = String::new();
                let next: &String = if i + 1 < words.len() {
                    assert(all[i + 1] == words@[i + 1]@);
                    &words[i + 1]
                } else {
                    &empty
                };
                match attribute_flag(next.as_str()) {
                    Some(bits) => {
                        style_builder = style_builder.with_attribute(StyleAttribute { bits }, false);
                    },
                    None => {
                        let mut message = "style attribute expected after 'not', found: ".to_owned();
                        message.append(next.as_str());
                        return Err(Error::SyntaxError(message));
                    },
                }
                i = if i + 1 < words.len() {
                    i + 2
                } else {
                    i + 1
                };
            } else if word.as_str().eq("link") {
                if i + 1 >= words.len() {
                    return Err(Error::SyntaxError("URL expected after 'link'".to_owned()));
                }
                assert(all[i + 1] == words@[i + 1]@);
                style_builder = style_builder.with_link(words[i + 1].as_str());
                i = i + 2;
            } else {
                match attribute_flag(word.as_str()) {
                    Some(bits) => {
                        style_builder = style_builder.with_attribute(StyleAttribute { bits }, true);
                    },
                    None => {
                        let color = match parse_color(word.as_str()) {
                            Ok(c) => c,
                            Err(e) => {
                                return Err(e);
                            },
                        };
                        style_builder = style_builder.with_color(color);
                    },
                }
                i = i + 1;
            }
        }
        Ok(style_builder.build())
    }

    /// A style definition in its normal form, so that definitions that make
    /// the same style are written the same: the definition of the style
    /// that it parses to, or, where it does not parse, the text without the
    /// white space around it, in lower case.
    pub fn normalize(style: &str) -> (text: String)
        ensures
            text@ == match parsed_style(style@) {
                Ok(None) => "none"@,
                Ok(Some(b)) => built_definition(b),
                Err(_) => lowercased(trimmed(style@)),
            },
    {
        match Style::parse(style) {
            Ok(parsed) => parsed.to_string(),
            Err(_) => trim(style).as_str().to_lowercase(),
        }
    }
}

/// The ANSI escape codes of those of the first `upto` attributes that are
/// set and on.
pub open spec fn attribute_codes(set: u32, on: u32, upto: int) -> Seq<nat>
    decreases upto,
{
    if upto <= 0 {
        Seq::empty()
    } else {
        let before = attribute_codes(set, on, upto - 1);
        let flag = FLAG_BITS@[upto - 1];
        if has_bits(set, flag) && has_bits(on, flag) {
            before.push(FLAG_CODES@[upto - 1] as nat)
        } else {
            before
        }
    }
}

/// The ANSI escape codes of a style under a colour system, each as a text:
/// those of its attributes, of its colour and of its background colour, the
/// colours brought down to the colour system.
pub open spec fn style_code_texts(v: StyleView, system: ColorSystem) -> Seq<Seq<char>> {
    code_texts(attribute_codes(v.set_attributes, v.attributes, 13)) + (match v.color {
        Some(c) => code_texts(ansi_code_numbers(downgraded(c, system), true)),
        None => Seq::empty(),
    }) + (match v.background_color {
        Some(c) => code_texts(ansi_code_numbers(downgraded(c, system), false)),
        None => Seq::empty(),
    })
}

/// The ANSI escape codes of a style, with `;` between each two.
pub open spec fn style_codes(v: StyleView, system: ColorSystem) -> Seq<char> {
    joined(style_code_texts(v, system), ";"@)
}

/// A text in the escape sequences of a style: those that switch the style
/// on and off around the text, where the style has any codes, and those of
/// the link around that, where the style has a link and `links` is true.
pub open spec fn rendered(v: StyleView, text: Seq<char>, system: ColorSystem, links: bool) -> Seq<char> {
    let codes = style_codes(v, system);
    let inner = if codes.len() > 0 {
        "\x1b["@ + codes + "m"@ + text + "\x1b[0m"@
    } else {
        text
    };
    match v.link {
        Some(link) if links => "\x1b]8;id="@ + v.link_id + ";"@ + link + "\x1b\\"@ + inner
            + "\x1b]8;;\x1b\\"@,
        _ => inner,
    }
}

/// The colours of a style hold what their kinds need.
pub open spec fn colors_well_formed(v: StyleView) -> bool {
    &&& v.color matches Some(c) ==> well_formed(c)
    &&& v.background_color matches Some(c) ==> well_formed(c)
}

/// The colours of a theme as plain values.
pub struct ThemeColors {
    pub background: ColorTriplet,
    pub foreground: ColorTriplet,
    pub ansi_colors: Seq<ColortripletRaw>,
}

/// The colours of the default theme.
pub open spec fn default_theme_colors() -> ThemeColors {
    ThemeColors {
        background: ColorTriplet { red: 255, green: 255, blue: 255 },
        foreground: ColorTriplet { red: 0, green: 0, blue: 0 },
        ansi_colors: DEFAULT_ANSI_COLORS@,
    }
}

/// The colours of a theme, or of the default theme where none is given.
pub open spec fn theme_colors(theme: Option<TerminalTheme>) -> ThemeColors {
    match theme {
        Some(t) => ThemeColors {
            background: t.background_color,
            foreground: t.foreground_color,
            ansi_colors: t.ansi_colors@,
        },
        None => default_theme_colors(),
    }
}

/// A colour can be shown under a theme: it holds what its kind needs, and
/// its number is the number of a colour that is there.
pub open spec fn shows_under(c: ColorView, theme: ThemeColors) -> bool {
    &&& well_formed(c)
    &&& c.color_type == ColorType::Standard ==> c.number->0 < theme.ansi_colors.len()
    &&& c.color_type == ColorType::Windows ==> c.number->0 < 16
}

/// The components of a colour under a theme, as a background.
pub open spec fn themed(c: ColorView, theme: ThemeColors) -> ColorTriplet {
    true_color(c, theme.background, theme.foreground, theme.ansi_colors, false)
}

/// The foreground colour of a style in a web page: the background colour
/// where the style is reversed; where the style is dim, half way between
/// that colour, or the theme's foreground, and the theme's background.
pub open spec fn html_color(v: StyleView, theme: ThemeColors) -> Option<ColorTriplet> {
    let color = if flag_state(v, 64) == Some(true) {
        v.background_color
    } else {
        v.color
    };
    if flag_state(v, 2) == Some(true) {
        Some(
            blended_half(
                match color {
                    Some(c) => themed(c, theme),
                    None => theme.foreground,
                },
                theme.background,
            ),
        )
    } else {
        match color {
            Some(c) => Some(themed(c, theme)),
            None => None,
        }
    }
}

/// The background colour of a style in a web page: the foreground colour
/// where the style is reversed.
pub open spec fn html_background(v: StyleView, theme: ThemeColors) -> Option<ColorTriplet> {
    let color = if flag_state(v, 64) == Some(true) {
        v.color
    } else {
        v.background_color
    };
    match color {
        Some(c) => Some(themed(c, theme)),
        None => None,
    }
}

/// A rule where `on` is true, nothing otherwise.
pub open spec fn rule_if(on: bool, rule: Seq<char>) -> Seq<Seq<char>> {
    if on {
        seq![rule]
    } else {
        Seq::empty()
    }
}

/// The CSS rules of a style.
pub open spec fn html_rules(v: StyleView, theme: ThemeColors) -> Seq<Seq<char>> {
    (match html_color(v, theme) {
        Some(t) => seq!["color: "@ + hex_text(t)],
        None => Seq::empty(),
    }) + (match html_background(v, theme) {
        Some(t) => seq!["background-color: "@ + hex_text(t)],
        None => Seq::empty(),
    }) + rule_if(flag_state(v, 1) == Some(true), "font-weight: bold"@) + rule_if(
        flag_state(v, 4) == Some(true),
        "font-style: italic"@,
    ) + rule_if(flag_state(v, 8) == Some(true), "text-decoration: underline"@) + rule_if(
        flag_state(v, 256) == Some(true),
        "text-decoration: line-through"@,
    ) + rule_if(flag_state(v, 4096) == Some(true), "text-decoration: overline"@)
}

/// Adds the strings of `more` to `all`.
fn extend(all: &mut Vec<String>, more: Vec<String>)
    ensures
        texts(final(all)@) == texts(old(all)@) + texts(more@),
{
    let mut more = more;
    let ghost added = texts(more@);
    let ghost start = texts(all@);
    let mut i: usize = 0;
    assert(start + added.take(0) =~= start);
    while i < more.len()
        invariant
            i <= more@.len(),
            added == texts(more@),
            texts(all@) == start + added.take(i as int),
        decreases more@.len() - i,
    {
        let ghost before = all@;
        all.push(more[i].clone());
        assert(texts(all@) =~= texts(before).push(more@[i as int]@));
        assert(start + added.take(i + 1) =~= (start + added.take(i as int)).push(added[i as int]));
        i = i + 1;
    }
    assert(added.take(more@.len() as int) =~= added);
}

/// Adds `rule` to `css` where `state` says that an attribute is on.
fn push_rule(css: &mut Vec<String>, state: Option<bool>, rule: &str)
    ensures
        texts(final(css)@) == texts(old(css)@) + rule_if(state == Some(true), rule@),
{
    let on = match state {
        Some(b) => b,
        None => false,
    };
    if on {
        let ghost before = css@;
        css.push(rule.to_owned());
        assert(texts(css@) =~= texts(before) + seq![rule@]);
    } else {
        assert(texts(css@) =~= texts(css@) + Seq::<Seq<char>>::empty());
    }
}

impl Style {
    /// The ANSI escape codes of the style under `color_system`, with `;`
    /// between each two.
    pub fn ansi_codes(&self, color_system: ColorSystem) -> (codes: String)
        requires
            colors_well_formed(self@),
        ensures
            codes@ == style_codes(self@, color_system),
    {
        let mut numbers: Vec<u16> = Vec::new();
        let mut i: usize = 0;
        let ghost set = self@.set_attributes;
        let ghost on = self@.attributes;
        while i < 13
            invariant
                i <= 13,
                set == self@.set_attributes,
                on == self@.attributes,
                Seq::new(numbers@.len(), |k: int| numbers@[k] as nat) == attribute_codes(
                    set,
                    on,
                    i as int,
                ),
            decreases 13 - i,
        {
            let flag = FLAG_BITS[i];
            if (self.set_attributes.bits & flag) == flag && (self.attributes.bits & flag) == flag {
                let ghost before = numbers@;
                numbers.push(FLAG_CODES[i]);
                assert(Seq::new(numbers@.len(), |k: int| numbers@[k] as nat) =~= Seq::new(
                    before.len(),
                    |k: int| before[k] as nat,
                ).push(FLAG_CODES@[i as int] as nat));
            }
            i = i + 1;
        }
        let mut codes = number_strings(numbers.as_slice());
        match &self.color {
            Some(color) => {
                extend(&mut codes, color.downgrade(color_system).get_ansi_codes(Some(true)));
            },
            None => {
                assert(texts(codes@) + Seq::<Seq<char>>::empty() =~= texts(codes@));
            },
        }
        match &self.background_color {
            Some(color) => {
                extend(&mut codes, color.downgrade(color_system).get_ansi_codes(Some(false)));
            },
            None => {
                assert(texts(codes@) + Seq::<Seq<char>>::empty() =~= texts(codes@));
            },
        }
        join(&codes, ";")
    }

    /// The text in the escape sequences of the style. Without a colour
    /// system, or for an empty text, the text is returned as it is. The
    /// link of the style is left out where `legacy_windows` is true.
    pub fn render(&self, text: &str, color_system: Option<ColorSystem>, legacy_windows: Option<bool>) -> (out:
        String)
        requires
            colors_well_formed(self@),
        ensures
            out@ == match color_system {
                Some(system) if text@.len() > 0 => rendered(
                    self@,
                    text@,
                    system,
                    legacy_windows != Some(true),
                ),
                _ => text@,
            },
    {
        let system = match color_system {
            Some(s) => s,
            None => {
                return text.to_owned();
            },
        };
        if text.is_empty() {
            return text.to_owned();
        }
        let attrs = self.ansi_codes(system);
        let inner = if !attrs.as_str().is_empty() {
            let mut s = "\x1b[".to_owned();
            s.append(attrs.as_str());
            s.append("m");
            s.append(text);
            s.append("\x1b[0m");
            s
        } else {
            text.to_owned()
        };
        let links = match legacy_windows {
            Some(b) => !b,
            None => true,
        };
        match &self.link {
            Some(link) if links => {
                let mut s = "\x1b]8;id=".to_owned();
                s.append(self.link_id.as_str());
                s.append(";");
                s.append(link.as_str());
                s.append("\x1b\\");
                s.append(inner.as_str());
                s.append("\x1b]8;;\x1b\\");
                s
            },
            _ => inner,
        }
    }

    /// The foreground and the background colour of the style in a web page.
    fn html_colors(&self, theme: &TerminalTheme) -> (shown: (Option<ColorTriplet>, Option<ColorTriplet>))
        requires
            self@.color matches Some(c) ==> shows_under(c, theme_colors(Some(*theme))),
            self@.background_color matches Some(c) ==> shows_under(c, theme_colors(Some(*theme))),
        ensures
            shown.0 == html_color(self@, theme_colors(Some(*theme))),
            shown.1 == html_background(self@, theme_colors(Some(*theme))),
    {
        let reversed = match self.reverse() {
            Some(b) => b,
            None => false,
        };
        let dimmed = match self.dim() {
            Some(b) => b,
            None => false,
        };
        let (color, background_color) = if reversed {
            (&self.background_color, &self.color)
        } else {
            (&self.color, &self.background_color)
        };
        let color_shown: Option<ColorTriplet> = match color {
            Some(c) => Some(c.get_true_color(Some(theme), None)),
            None => None,
        };
        let foreground: Option<ColorTriplet> = if dimmed {
            Some(
                blend_half(
                    match color_shown {
                        Some(t) => t,
                        None => theme.foreground_color,
                    },
                    theme.background_color,
                ),
            )
        } else {
            color_shown
        };
        let background: Option<ColorTriplet> = match background_color {
            Some(c) => Some(c.get_true_color(Some(theme), Some(false))),
            None => None,
        };
        (foreground, background)
    }

    /// The CSS rules that show the style in a web page, with `; ` between
    /// each two, under `theme` or under the default theme.
    pub fn get_html_style(&self, theme: Option<TerminalTheme>) -> (css: String)
        requires
            self@.color matches Some(c) ==> shows_under(c, theme_colors(theme)),
            self@.background_color matches Some(c) ==> shows_under(c, theme_colors(theme)),
        ensures
            css@ == joined(html_rules(self@, theme_colors(theme)), "; "@),
    {
        let ghost colors = theme_colors(theme);
        let theme = match theme {
            Some(t) => t,
            None => TerminalTheme::default(),
        };
        assert(theme_colors(Some(theme)) == colors);
        let (foreground, background) = self.html_colors(&theme);
        let mut css: Vec<String> = Vec::new();
        assert(texts(css@) =~= Seq::<Seq<char>>::empty());
        match foreground {
            Some(t) => {
                let mut rule = "color: ".to_owned();
                rule.append(t.hex().as_str());
                css.push(rule);
                assert(texts(css@) =~= seq!["color: "@ + hex_text(t)]);
            },
            None => {},
        }
        match background {
            Some(t) => {
                let mut rule = "background-color: ".to_owned();
                rule.append(t.hex().as_str());
                let ghost before = css@;
                css.push(rule);
                assert(texts(css@) =~= texts(before) + seq!["background-color: "@ + hex_text(t)]);
            },
            None => {
                assert(texts(css@) =~= texts(css@) + Seq::<Seq<char>>::empty());
            },
        }
        push_rule(&mut css, self.bold(), "font-weight: bold");
        push_rule(&mut css, self.italic(), "font-style: italic");
        push_rule(&mut css, self.underline(), "text-decoration: underline");
        push_rule(&mut css, self.strike(), "text-decoration: line-through");
        push_rule(&mut css, self.overline(), "text-decoration: overline");
        join(&css, "; ")
    }
}

} // verus!
