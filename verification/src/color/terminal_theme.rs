//! The colours that stand for a terminal's own when content is exported.

use vstd::prelude::*;
use crate::color::palette::Palette;
use crate::color::triplet::ColorTriplet;
use crate::color::triplet::ColortripletRaw;

verus! {

/// A colour theme: the background, the foreground, and the sixteen ANSI
/// colours.
pub struct TerminalTheme {
    pub background_color: ColorTriplet,
    pub foreground_color: ColorTriplet,
    pub ansi_colors: Palette,
}

/// The eight normal and the eight bright colours of the default theme.
pub const DEFAULT_ANSI_COLORS: [(u8, u8, u8); 16] = [
    (0, 0, 0),
    (128, 0, 0),
    (0, 128, 0),
    (128, 128, 0),
    (0, 0, 128),
    (128, 0, 128),
    (0, 128, 128),
    (192, 192, 192),
    (128, 128, 128),
    (255, 0, 0),
    (0, 255, 0),
    (255, 255, 0),
    (0, 0, 255),
    (255, 0, 255),
    (0, 255, 255),
    (255, 255, 255),
];

impl TerminalTheme {
    /// A theme of the given colours. Without bright colours the normal ones
    /// stand in for them.
    pub fn new(
        background_color: ColortripletRaw,
        foreground_color: ColortripletRaw,
        normal: &[ColortripletRaw],
        bright: Option<&[ColortripletRaw]>,
    ) -> (theme: Self)
        ensures
            theme.background_color.as_raw_spec() == background_color,
            theme.foreground_color.as_raw_spec() == foreground_color,
            theme.ansi_colors@ == normal@ + (match bright {
                Some(b) => b@,
                None => normal@,
            }),
    {
        let second: &[ColortripletRaw] = match bright {
            Some(b) => b,
            None => normal,
        };
        let mut colors: Vec<ColortripletRaw> = Vec::new();
        let mut i: usize = 0;
        while i < normal.len()
            invariant
                i <= normal@.len(),
                colors@ == normal@.take(i as int),
            decreases normal@.len() - i,
        {
            colors.push(normal[i]);
            assert(colors@ =~= normal@.take(i + 1));
            i = i + 1;
        }
        assert(normal@.take(normal@.len() as int) =~= normal@);
        let mut j: usize = 0;
        while j < second.len()
            invariant
                j <= second@.len(),
                colors@ == normal@ + second@.take(j as int),
            decreases second@.len() - j,
        {
            colors.push(second[j]);
            assert(colors@ =~= normal@ + second@.take(j + 1));
            j = j + 1;
        }
        assert(second@.take(second@.len() as int) =~= second@);
        TerminalTheme {
            background_color: ColorTriplet::from(background_color),
            foreground_color: ColorTriplet::from(foreground_color),
            ansi_colors: Palette::new(colors),
        }
    }
}

impl Default for TerminalTheme {
    /// Black on white, with the sixteen colours of `DEFAULT_ANSI_COLORS`.
    fn default() -> (theme: Self)
        ensures
            theme.background_color == (ColorTriplet { red: 255, green: 255, blue: 255 }),
            theme.foreground_color == (ColorTriplet { red: 0, green: 0, blue: 0 }),
            theme.ansi_colors@ == DEFAULT_ANSI_COLORS@,
    {
        let all = DEFAULT_ANSI_COLORS.as_slice();
        let mut colors: Vec<ColortripletRaw> = Vec::new();
        let mut i: usize = 0;
        while i < all.len()
            invariant
                i <= all@.len(),
                colors@ == all@.take(i as int),
            decreases all@.len() - i,
        {
            colors.push(all[i]);
            assert(colors@ =~= all@.take(i + 1));
            i = i + 1;
        }
        assert(all@.take(all@.len() as int) =~= all@);
        TerminalTheme {
            background_color: ColorTriplet { red: 255, green: 255, blue: 255 },
            foreground_color: ColorTriplet { red: 0, green: 0, blue: 0 },
            ansi_colors: Palette::new(colors),
        }
    }
}

} // verus!
