//! The width table: the code point ranges that do not take exactly one cell.

use vstd::prelude::*;

verus! {

/// One row of the width table: first code point, last code point (both
/// inclusive) and the width of every code point between them. A width of `-1`
/// marks combining and other zero-width marks.
pub type WidthRange = (i32, i32, i32);

/// The table, ascending and without overlap. A code point in no row is one
/// cell wide.
pub const CELL_WIDTHS: [(i32, i32, i32); 151] = [
    (0x0300, 0x036F, -1),
    (0x0483, 0x0489, -1),
    (0x0591, 0x05BD, -1),
    (0x05BF, 0x05BF, -1),
    (0x05C1, 0x05C2, -1),
    (0x05C4, 0x05C5, -1),
    (0x05C7, 0x05C7, -1),
    (0x0610, 0x061A, -1),
    (0x064B, 0x065F, -1),
    (0x0670, 0x0670, -1),
    (0x06D6, 0x06DC, -1),
    (0x06DF, 0x06E4, -1),
    (0x06E7, 0x06E8, -1),
    (0x06EA, 0x06ED, -1),
    (0x0711, 0x0711, -1),
    (0x0730, 0x074A, -1),
    (0x07A6, 0x07B0, -1),
    (0x07EB, 0x07F3, -1),
    (0x0E31, 0x0E31, -1),
    (0x0E34, 0x0E3A, -1),
    (0x0E47, 0x0E4E, -1),
    (0x0EB1, 0x0EB1, -1),
    (0x0EB4, 0x0EBC, -1),
    (0x0EC8, 0x0ECD, -1),
    (0x1100, 0x115F, 2),
    (0x1AB0, 0x1AFF, -1),
    (0x1DC0, 0x1DFF, -1),
    (0x200B, 0x200F, -1),
    (0x202A, 0x202E, -1),
    (0x2060, 0x2064, -1),
    (0x20D0, 0x20F0, -1),
    (0x231A, 0x231B, 2),
    (0x2329, 0x232A, 2),
    (0x23E9, 0x23EC, 2),
    (0x23F0, 0x23F0, 2),
    (0x23F3, 0x23F3, 2),
    (0x25FD, 0x25FE, 2),
    (0x2614, 0x2615, 2),
    (0x2648, 0x2653, 2),
    (0x267F, 0x267F, 2),
    (0x2693, 0x2693, 2),
    (0x26A1, 0x26A1, 2),
    (0x26AA, 0x26AB, 2),
    (0x26BD, 0x26BE, 2),
    (0x26C4, 0x26C5, 2),
    (0x26CE, 0x26CE, 2),
    (0x26D4, 0x26D4, 2),
    (0x26EA, 0x26EA, 2),
    (0x26F2, 0x26F3, 2),
    (0x26F5, 0x26F5, 2),
    (0x26FA, 0x26FA, 2),
    (0x26FD, 0x26FD, 2),
    (0x2705, 0x2705, 2),
    (0x270A, 0x270B, 2),
    (0x2728, 0x2728, 2),
    (0x274C, 0x274C, 2),
    (0x274E, 0x274E, 2),
    (0x2753, 0x2755, 2),
    (0x2757, 0x2757, 2),
    (0x2795, 0x2797, 2),
    (0x27B0, 0x27B0, 2),
    (0x27BF, 0x27BF, 2),
    (0x2B1B, 0x2B1C, 2),
    (0x2B50, 0x2B50, 2),
    (0x2B55, 0x2B55, 2),
    (0x2E80, 0x2E99, 2),
    (0x2E9B, 0x2EF3, 2),
    (0x2F00, 0x2FD5, 2),
    (0x2FF0, 0x2FFB, 2),
    (0x3000, 0x3029, 2),
    (0x302A, 0x302D, -1),
    (0x302E, 0x303E, 2),
    (0x3041, 0x3096, 2),
    (0x3099, 0x309A, -1),
    (0x309B, 0x30FF, 2),
    (0x3105, 0x312F, 2),
    (0x3131, 0x318E, 2),
    (0x3190, 0x31E3, 2),
    (0x31F0, 0x321E, 2),
    (0x3220, 0x3247, 2),
    (0x3250, 0x4DBF, 2),
    (0x4E00, 0xA48C, 2),
    (0xA490, 0xA4C6, 2),
    (0xA960, 0xA97C, 2),
    (0xAC00, 0xD7A3, 2),
    (0xF900, 0xFAFF, 2),
    (0xFE00, 0xFE0F, -1),
    (0xFE10, 0xFE19, 2),
    (0xFE20, 0xFE2F, -1),
    (0xFE30, 0xFE52, 2),
    (0xFE54, 0xFE66, 2),
    (0xFE68, 0xFE6B, 2),
    (0xFEFF, 0xFEFF, -1),
    (0xFF01, 0xFF60, 2),
    (0xFFE0, 0xFFE6, 2),
    (0x16FE0, 0x16FE4, 2),
    (0x17000, 0x187F7, 2),
    (0x18800, 0x18CD5, 2),
    (0x1B000, 0x1B11E, 2),
    (0x1B150, 0x1B152, 2),
    (0x1B164, 0x1B167, 2),
    (0x1B170, 0x1B2FB, 2),
    (0x1F004, 0x1F004, 2),
    (0x1F0CF, 0x1F0CF, 2),
    (0x1F18E, 0x1F18E, 2),
    (0x1F191, 0x1F19A, 2),
    (0x1F200, 0x1F202, 2),
    (0x1F210, 0x1F23B, 2),
    (0x1F240, 0x1F248, 2),
    (0x1F250, 0x1F251, 2),
    (0x1F260, 0x1F265, 2),
    (0x1F300, 0x1F320, 2),
    (0x1F32D, 0x1F335, 2),
    (0x1F337, 0x1F37C, 2),
    (0x1F37E, 0x1F393, 2),
    (0x1F3A0, 0x1F3CA, 2),
    (0x1F3CF, 0x1F3D3, 2),
    (0x1F3E0, 0x1F3F0, 2),
    (0x1F3F4, 0x1F3F4, 2),
    (0x1F3F8, 0x1F43E, 2),
    (0x1F440, 0x1F440, 2),
    (0x1F442, 0x1F4FC, 2),
    (0x1F4FF, 0x1F53D, 2),
    (0x1F54B, 0x1F54E, 2),
    (0x1F550, 0x1F567, 2),
    (0x1F57A, 0x1F57A, 2),
    (0x1F595, 0x1F596, 2),
    (0x1F5A4, 0x1F5A4, 2),
    (0x1F5FB, 0x1F64F, 2),
    (0x1F680, 0x1F6C5, 2),
    (0x1F6CC, 0x1F6CC, 2),
    (0x1F6D0, 0x1F6D2, 2),
    (0x1F6D5, 0x1F6D7, 2),
    (0x1F6EB, 0x1F6EC, 2),
    (0x1F6F4, 0x1F6FC, 2),
    (0x1F7E0, 0x1F7EB, 2),
    (0x1F90C, 0x1F93A, 2),
    (0x1F93C, 0x1F945, 2),
    (0x1F947, 0x1F978, 2),
    (0x1F97A, 0x1F9CB, 2),
    (0x1F9CD, 0x1F9FF, 2),
    (0x1FA70, 0x1FA74, 2),
    (0x1FA78, 0x1FA7A, 2),
    (0x1FA80, 0x1FA86, 2),
    (0x1FA90, 0x1FAA8, 2),
    (0x1FAB0, 0x1FAB6, 2),
    (0x1FAC0, 0x1FAC2, 2),
    (0x1FAD0, 0x1FAD6, 2),
    (0x20000, 0x2FFFD, 2),
    (0x30000, 0x3FFFD, 2),
    (0xE0100, 0xE01EF, -1),
];

/// Display width that a row stands for: `-1` counts as no cell at all.
pub open spec fn row_width(row: WidthRange) -> nat {
    if row.2 <= 0 {
        0
    } else {
        row.2 as nat
    }
}

/// A table is well formed when every row is a non-empty range of
/// non-negative code points with a width of -1, 1 or 2, and each row ends
/// before the next one starts.
pub open spec fn table_well_formed(t: Seq<WidthRange>) -> bool {
    forall|i: int|
        0 <= i < t.len() ==> {
            &&& 0 <= (#[trigger] t[i]).0 <= t[i].1
            &&& (t[i].2 == -1 || t[i].2 == 1 || t[i].2 == 2)
            &&& (i + 1 < t.len() ==> t[i].1 < t[i + 1].0)
        }
}

/// The row of `t` that holds `cp`, if there is one.
pub open spec fn row_of(t: Seq<WidthRange>, cp: int) -> Option<int> {
    if exists|i: int| 0 <= i < t.len() && (#[trigger] t[i]).0 <= cp <= t[i].1 {
        Some(choose|i: int| 0 <= i < t.len() && (#[trigger] t[i]).0 <= cp <= t[i].1)
    } else {
        None
    }
}

/// Width of code point `cp` by table `t`: the width of the row that holds it,
/// one cell where no row does.
pub open spec fn table_width(t: Seq<WidthRange>, cp: int) -> nat {
    match row_of(t, cp) {
        Some(i) => row_width(t[i]),
        None => 1,
    }
}

/// Rows of a well-formed table are strictly ordered, not only neighbours.
pub proof fn lemma_rows_ordered(t: Seq<WidthRange>, i: int, j: int)
    requires
        table_well_formed(t),
        0 <= i < j < t.len(),
    ensures
        t[i].1 < t[j].0,
    decreases j - i,
{
    if i + 1 < j {
        lemma_rows_ordered(t, i, j - 1);
        assert(t[j - 1].0 <= t[j - 1].1);
        assert(t[j - 1].1 < t[j].0);
    }
}

/// At most one row of a well-formed table holds a given code point.
pub proof fn lemma_row_unique(t: Seq<WidthRange>, cp: int, i: int)
    requires
        table_well_formed(t),
        0 <= i < t.len(),
        t[i].0 <= cp <= t[i].1,
    ensures
        row_of(t, cp) == Some(i),
{
    let k = row_of(t, cp)->0;
    if k < i {
        lemma_rows_ordered(t, k, i);
    } else if i < k {
        lemma_rows_ordered(t, i, k);
    }
}

/// The built-in table is well formed.
pub proof fn lemma_cell_widths_well_formed()
    ensures
        table_well_formed(CELL_WIDTHS@),
{
}

} // verus!
