//! Colours as red, green and blue components.

use vstd::prelude::*;
use vstd::std_specs::convert::FromSpecImpl;
use crate::strings::decimal;
use crate::strings::decimal_string;
use crate::strings::hex_pair;
use crate::strings::hex_pair_string;
use vstd::string::StringExecFns;

verus! {

/// Red, green and blue, each from 0 to 255.
pub type ColortripletRaw = (u8, u8, u8);

/// The red, green and blue components of a colour.
#[derive(Clone, Copy, Debug, PartialEq, Eq, Hash, Structural)]
pub struct ColorTriplet {
    pub red: u8,
    pub green: u8,
    pub blue: u8,
}

impl From<ColortripletRaw> for ColorTriplet {
    fn from(raw: ColortripletRaw) -> (triplet: Self) {
        ColorTriplet { red: raw.0, green: raw.1, blue: raw.2 }
    }
}

impl FromSpecImpl<ColortripletRaw> for ColorTriplet {
    open spec fn obeys_from_spec() -> bool {
        true
    }

    open spec fn from_spec(raw: ColortripletRaw) -> Self {
        ColorTriplet { red: raw.0, green: raw.1, blue: raw.2 }
    }
}

/// The CSS form of a colour in base 16: `#` and two digits for each
/// component.
pub open spec fn hex_text(t: ColorTriplet) -> Seq<char> {
    seq!['#'] + hex_pair(t.red) + hex_pair(t.green) + hex_pair(t.blue)
}

/// The CSS form of a colour in base ten: `rgb(r,g,b)`.
pub open spec fn rgb_text(t: ColorTriplet) -> Seq<char> {
    seq!['r', 'g', 'b', '('] + decimal(t.red as nat) + seq![','] + decimal(t.green as nat) + seq![
        ',',
    ] + decimal(t.blue as nat) + seq![')']
}

impl ColorTriplet {
    /// The three components as a tuple.
    pub open spec fn as_raw_spec(&self) -> ColortripletRaw {
        (self.red, self.green, self.blue)
    }

    /// The three components as a tuple.
    #[verifier::when_used_as_spec(as_raw_spec)]
    pub fn as_raw(&self) -> (raw: ColortripletRaw)
        ensures
            raw == self.as_raw_spec(),
    {
        (self.red, self.green, self.blue)
    }

    /// The colour in CSS form, base 16: `#7f7fbf`.
    pub fn hex(&self) -> (text: String)
        ensures
            text@ == hex_text(*self),
    {
        let mut text = String::new();
        text.push('#');
        text.append(hex_pair_string(self.red).as_str());
        text.append(hex_pair_string(self.green).as_str());
        text.append(hex_pair_string(self.blue).as_str());
        assert(text@ =~= hex_text(*self));
        text
    }

    /// The colour in CSS form, base ten: `rgb(127,127,191)`.
    pub fn rgb(&self) -> (text: String)
        ensures
            text@ == rgb_text(*self),
    {
        let mut text = String::new();
        text.push('r');
        text.push('g');
        text.push('b');
        text.push('(');
        text.append(decimal_string(self.red as u16).as_str());
        text.push(',');
        text.append(decimal_string(self.green as u16).as_str());
        text.push(',');
        text.append(decimal_string(self.blue as u16).as_str());
        text.push(')');
        assert(text@ =~= rgb_text(*self));
        text
    }
}

/// The colour half way between two colours, each component rounded down.
pub open spec fn blended_half(a: ColorTriplet, b: ColorTriplet) -> ColorTriplet {
    ColorTriplet {
        red: ((a.red + b.red) / 2) as u8,
        green: ((a.green + b.green) / 2) as u8,
        blue: ((a.blue + b.blue) / 2) as u8,
    }
}

/// Blends two colours in equal parts.
pub fn blend_half(color1: ColorTriplet, color2: ColorTriplet) -> (blend: ColorTriplet)
    ensures
        blend == blended_half(color1, color2),
{
    ColorTriplet {
        red: ((color1.red as u16 + color2.red as u16) / 2) as u8,
        green: ((color1.green as u16 + color2.green as u16) / 2) as u8,
        blue: ((color1.blue as u16 + color2.blue as u16) / 2) as u8,
    }
}

} // verus!
