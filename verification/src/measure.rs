//! Measurements: the least and the greatest number of cells that something
//! needs to be shown.

use vstd::prelude::*;

verus! {

/// The least and the greatest width, in cells, that a thing needs.
#[derive(Clone, Copy, Debug, PartialEq, Eq, Structural)]
pub struct Measurement {
    /// The least number of cells.
    pub minimum: usize,
    /// The greatest number of cells.
    pub maximum: usize,
}

/// The smaller of two numbers.
pub open spec fn lesser(a: usize, b: usize) -> usize {
    if a <= b {
        a
    } else {
        b
    }
}

/// The larger of two numbers.
pub open spec fn greater(a: usize, b: usize) -> usize {
    if a >= b {
        a
    } else {
        b
    }
}

/// A measurement with both widths brought up to `width` where they are
/// below it.
pub open spec fn raised(m: Measurement, width: usize) -> Measurement {
    Measurement { minimum: greater(m.minimum, width), maximum: greater(m.maximum, width) }
}

/// A measurement with both widths brought down to `width` where they are
/// above it.
pub open spec fn lowered(m: Measurement, width: usize) -> Measurement {
    Measurement { minimum: lesser(m.minimum, width), maximum: lesser(m.maximum, width) }
}

/// A measurement held between two widths: first raised to the lower one,
/// then lowered to the upper one, each where it is given.
pub open spec fn clamped(m: Measurement, min_width: Option<usize>, max_width: Option<usize>) -> Measurement {
    let low = match min_width {
        Some(w) => raised(m, w),
        None => m,
    };
    match max_width {
        Some(w) => lowered(low, w),
        None => low,
    }
}

impl Measurement {
    /// A measurement of the given widths.
    pub fn new(minimum: usize, maximum: usize) -> (m: Self)
        ensures
            m == (Measurement { minimum, maximum }),
    {
        Measurement { minimum, maximum }
    }

    /// How far the greatest width is from the least.
    pub fn span(&self) -> (span: i32)
        requires
            self.minimum <= i32::MAX,
            self.maximum <= i32::MAX,
        ensures
            span == self.maximum - self.minimum,
    {
        self.maximum as i32 - self.minimum as i32
    }

    /// The least and the greatest width.
    pub fn as_tuple(&self) -> (widths: (usize, usize))
        ensures
            widths == (self.minimum, self.maximum),
    {
        (self.minimum, self.maximum)
    }

    /// The measurement with its least width no greater than its greatest.
    pub fn normalized(&self) -> (m: Self)
        ensures
            m == (Measurement {
                minimum: lesser(self.minimum, self.maximum),
                maximum: self.maximum,
            }),
            m.minimum <= m.maximum,
    {
        let minimum = if self.minimum <= self.maximum {
            self.minimum
        } else {
            self.maximum
        };
        Measurement { minimum, maximum: self.maximum }
    }

    /// The measurement with no width above `width`.
    pub fn with_maximum(&self, width: usize) -> (m: Self)
        ensures
            m == lowered(*self, width),
    {
        Measurement {
            minimum: if self.minimum <= width {
                self.minimum
            } else {
                width
            },
            maximum: if self.maximum <= width {
                self.maximum
            } else {
                width
            },
        }
    }

    /// The measurement with no width below `width`.
    pub fn with_minimum(&self, width: usize) -> (m: Self)
        ensures
            m == raised(*self, width),
    {
        Measurement {
            minimum: if self.minimum >= width {
                self.minimum
            } else {
                width
            },
            maximum: if self.maximum >= width {
                self.maximum
            } else {
                width
            },
        }
    }

    /// The measurement held between `min_width` and `max_width`, each where
    /// it is given.
    pub fn clamp(&self, min_width: Option<usize>, max_width: Option<usize>) -> (m: Self)
        ensures
            m == clamped(*self, min_width, max_width),
    {
        let mut measurement = Measurement { minimum: self.minimum, maximum: self.maximum };
        if let Some(min_width) = min_width {
            measurement = measurement.with_minimum(min_width);
        }
        if let Some(max_width) = max_width {
            measurement = measurement.with_maximum(max_width);
        }
        measurement
    }
}

} // verus!
