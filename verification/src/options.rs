//! What a console offers to the things that it shows.

use vstd::prelude::*;
use vstd::std_specs::cmp::PartialEqSpecImpl;

verus! {

/// The name of a text encoding.
#[derive(Clone, Copy, Debug)]
pub struct Encoding(pub &'static str);

/// How text is justified: `left`, `center`, `right` or `full`.
#[derive(Clone, Copy, Debug)]
pub struct JustifyMethod(pub &'static str);

/// What happens to text that is too long: `fold`, `crop` or `ellipsis`.
#[derive(Clone, Copy, Debug)]
pub struct OverflowMethod(pub &'static str);

impl Encoding {
    /// The encoding with the given name.
    pub fn new(encoding: &'static str) -> (e: Self)
        ensures
            e.0@ == encoding@,
    {
        Encoding(encoding)
    }
}

impl PartialEq for Encoding {
    fn eq(&self, other: &Self) -> (same: bool) {
        self.0.eq(other.0)
    }
}

impl PartialEqSpecImpl for Encoding {
    open spec fn obeys_eq_spec() -> bool {
        true
    }

    open spec fn eq_spec(&self, other: &Self) -> bool {
        self.0@ == other.0@
    }
}

/// The size of the terminal, in cells.
#[derive(Clone, Copy, Debug)]
pub struct ConsoleDimensions {
    pub width: usize,
    pub height: usize,
}

/// What a console tells a thing that it is about to show.
pub struct ConsoleOptions {
    /// Whether the console is an old Windows console.
    pub legacy_windows: bool,
    /// The least width of what is shown.
    pub min_width: usize,
    /// The greatest width of what is shown.
    pub max_width: usize,
    /// Whether the target is a terminal.
    pub is_terminal: bool,
    /// The encoding of the terminal.
    pub encoding: Encoding,
    /// How to justify, where that is fixed.
    pub justify: Option<JustifyMethod>,
    /// What to do with text that is too long, where that is fixed.
    pub overflow: Option<OverflowMethod>,
    /// Whether wrapping is switched off, where that is fixed.
    pub no_wrap: Option<bool>,
    /// Whether highlighting is on, where that is fixed.
    pub highlight: Option<bool>,
}

/// Changes to the options of a console: each option that is given takes
/// the place of the one that was there.
pub struct UpdateConsoleOptions {
    pub width: Option<usize>,
    pub min_width: Option<usize>,
    pub max_width: Option<usize>,
    pub justify: Option<JustifyMethod>,
    pub overflow: Option<OverflowMethod>,
    pub no_wrap: Option<bool>,
    pub highlight: Option<bool>,
}

impl Default for UpdateConsoleOptions {
    /// No change at all.
    fn default() -> (update: Self)
        ensures
            update.width is None,
            update.min_width is None,
            update.max_width is None,
            update.justify is None,
            update.overflow is None,
            update.no_wrap is None,
            update.highlight is None,
    {
        UpdateConsoleOptions {
            width: None,
            min_width: None,
            max_width: None,
            justify: None,
            overflow: None,
            no_wrap: None,
            highlight: None,
        }
    }
}

/// `update` where it is given, `current` otherwise.
pub open spec fn updated<T>(current: Option<T>, update: Option<T>) -> Option<T> {
    if update is Some {
        update
    } else {
        current
    }
}

/// A width after an update: the least or greatest width where it is given,
/// else the width for both where that is given, else the width that was
/// there.
pub open spec fn updated_width(current: usize, both: Option<usize>, own: Option<usize>) -> usize {
    match own {
        Some(w) => w,
        None => match both {
            Some(w) => w,
            None => current,
        },
    }
}

impl ConsoleOptions {
    /// Whether the console shows ASCII only: true unless its encoding is
    /// `utf-8`.
    pub fn ascii_only(&self) -> (ascii: bool)
        ensures
            ascii == (self.encoding.0@ != "utf-8"@),
    {
        !self.encoding.0.eq("utf-8")
    }

    /// Takes over the options that `other` gives.
    pub fn update(&mut self, other: UpdateConsoleOptions)
        ensures
            final(self).legacy_windows == old(self).legacy_windows,
            final(self).is_terminal == old(self).is_terminal,
            final(self).encoding == old(self).encoding,
            final(self).min_width == updated_width(old(self).min_width, other.width, other.min_width),
            final(self).max_width == updated_width(old(self).max_width, other.width, other.max_width),
            final(self).justify == updated(old(self).justify, other.justify),
            final(self).overflow == updated(old(self).overflow, other.overflow),
            final(self).no_wrap == updated(old(self).no_wrap, other.no_wrap),
            final(self).highlight == updated(old(self).highlight, other.highlight),
    {
        if let Some(width) = other.width {
            self.min_width = width;
            self.max_width = width;
        }
        if let Some(min_width) = other.min_width {
            self.min_width = min_width;
        }
        if let Some(max_width) = other.max_width {
            self.max_width = max_width;
        }
        if let Some(justify) = other.justify {
            self.justify = Some(justify);
        }
        if let Some(overflow) = other.overflow {
            self.overflow = Some(overflow);
        }
        if let Some(no_wrap) = other.no_wrap {
            self.no_wrap = Some(no_wrap);
        }
        if let Some(highlight) = other.highlight {
            self.highlight = Some(highlight);
        }
    }
}

} // verus!
