//! Display widths: how many terminal cells a character or a text takes, and
//! how to cut or pad a text to an exact number of cells.

use vstd::prelude::*;
use vstd::utf8::encode_utf8;
use vstd::utf8::encode_scalar;
use crate::cell_widths::CELL_WIDTHS;
use crate::cell_widths::table_width;
use crate::cell_widths::table_well_formed;
use crate::cell_widths::row_of;
use crate::cell_widths::lemma_rows_ordered;
use crate::cell_widths::lemma_row_unique;
use crate::cell_widths::lemma_cell_widths_well_formed;
use crate::strings::chars_of;
use crate::strings::string_of;
use crate::strings::texts;

verus! {

/// Width in cells of the code point `cp`, by the built-in table.
pub open spec fn codepoint_width(cp: int) -> nat {
    table_width(CELL_WIDTHS@, cp)
}

/// Width in cells of one character: ASCII is always one cell, everything else
/// goes by the table.
pub open spec fn char_width(c: char) -> nat {
    if (c as u32) < 128 {
        1
    } else {
        codepoint_width(c as u32 as int)
    }
}

/// Width in cells of a text: the sum of the widths of its characters.
pub open spec fn cell_width(s: Seq<char>) -> nat
    decreases s.len(),
{
    if s.len() == 0 {
        0
    } else {
        cell_width(s.drop_last()) + char_width(s.last())
    }
}

/// `n` spaces.
pub open spec fn spaces(n: nat) -> Seq<char> {
    Seq::new(n, |i: int| ' ')
}

/// No code point is wider than two cells.
pub proof fn lemma_codepoint_width_bound(cp: int)
    ensures
        codepoint_width(cp) <= 2,
{
    lemma_cell_widths_well_formed();
    let t = CELL_WIDTHS@;
    if let Some(i) = row_of(t, cp) {
        assert(t[i].2 == -1 || t[i].2 == 1 || t[i].2 == 2);
    }
}

/// No character is wider than two cells.
pub proof fn lemma_char_width_bound(c: char)
    ensures
        char_width(c) <= 2,
{
    lemma_codepoint_width_bound(c as u32 as int);
}

/// A character is never wider than its UTF-8 encoding is long.
pub proof fn lemma_char_width_le_bytes(c: char)
    ensures
        char_width(c) <= encode_scalar(c as u32).len(),
{
    lemma_char_width_bound(c);
}

/// Every ASCII character is one cell wide.
pub proof fn lemma_ascii_width(c: char)
    requires
        (c as u32) < 128,
    ensures
        char_width(c) == 1,
{
}

/// Appending one character adds its width.
pub proof fn lemma_cell_width_push(s: Seq<char>, c: char)
    ensures
        cell_width(s.push(c)) == cell_width(s) + char_width(c),
{
    assert(s.push(c).drop_last() =~= s);
}

/// The width of a concatenation is the sum of the widths.
pub proof fn lemma_cell_width_concat(a: Seq<char>, b: Seq<char>)
    ensures
        cell_width(a + b) == cell_width(a) + cell_width(b),
    decreases b.len(),
{
    if b.len() == 0 {
        assert(a + b =~= a);
    } else {
        lemma_cell_width_concat(a, b.drop_last());
        assert((a + b).drop_last() =~= a + b.drop_last());
    }
}

/// A prefix is never wider than the whole text.
pub proof fn lemma_cell_width_prefix(s: Seq<char>, n: int)
    requires
        0 <= n <= s.len(),
    ensures
        cell_width(s.take(n)) <= cell_width(s),
{
    lemma_cell_width_concat(s.take(n), s.skip(n));
    assert(s.take(n) + s.skip(n) =~= s);
}

/// A text is never wider than its UTF-8 encoding is long.
pub proof fn lemma_cell_width_le_bytes(s: Seq<char>)
    ensures
        cell_width(s) <= encode_utf8(s).len(),
    decreases s.len(),
{
    if s.len() > 0 {
        let head = seq![s[0]];
        lemma_cell_width_le_bytes(s.drop_first());
        lemma_char_width_le_bytes(s[0]);
        lemma_cell_width_concat(head, s.drop_first());
        assert(head + s.drop_first() =~= s);
        assert(head.drop_last() =~= Seq::<char>::empty());
        assert(cell_width(head.drop_last()) == 0);
        assert(cell_width(head) == char_width(s[0]));
    }
}

/// Spaces are one cell each.
pub proof fn lemma_spaces_width(n: nat)
    ensures
        cell_width(spaces(n)) == n,
    decreases n,
{
    if n > 0 {
        lemma_spaces_width((n - 1) as nat);
        assert(spaces(n).drop_last() =~= spaces((n - 1) as nat));
    }
}

/// Width of code point `cp` by `table`: binary search over its rows, one cell
/// where no row holds `cp`.
pub fn search_width_table(table: &[(i32, i32, i32)], cp: u32) -> (width: usize)
    requires
        table_well_formed(table@),
        table@.len() <= i32::MAX,
    ensures
        width == table_width(table@, cp as int),
{
    let mut lower_bound: i32 = 0;
    let mut upper_bound: i32 = table.len() as i32 - 1;
    while lower_bound <= upper_bound
        invariant
            0 <= lower_bound <= table@.len() <= i32::MAX,
            -1 <= upper_bound < table@.len(),
            table_well_formed(table@),
            forall|i: int| 0 <= i < lower_bound ==> (#[trigger] table@[i]).1 < cp,
            forall|i: int| upper_bound < i < table@.len() ==> cp < (#[trigger] table@[i]).0,
        decreases upper_bound - lower_bound + 1,
    {
        let index: i32 = lower_bound + (upper_bound - lower_bound) / 2;
        let (start, end, width) = table[index as usize];
        if (cp as i64) < start as i64 {
            proof {
                assert forall|i: int| index - 1 < i < table@.len() implies cp < (#[trigger] table@[i]).0 by {
                    if i > index {
                        lemma_rows_ordered(table@, index as int, i);
                    }
                }
            }
            upper_bound = index - 1;
        } else if (cp as i64) > end as i64 {
            proof {
                assert forall|i: int| 0 <= i < index + 1 implies (#[trigger] table@[i]).1 < cp by {
                    if i < index {
                        lemma_rows_ordered(table@, i, index as int);
                    }
                }
            }
            lower_bound = index + 1;
        } else {
            proof {
                lemma_row_unique(table@, cp as int, index as int);
            }
            return if width == -1 {
                0
            } else {
                width as usize
            };
        }
    }
    assert(row_of(table@, cp as int) is None);
    1
}

/// Width of a code point by the built-in table.
pub fn get_codepoint_cell_size(codepoint: u32) -> (width: usize)
    ensures
        width == codepoint_width(codepoint as int),
        width <= 2,
{
    proof {
        lemma_cell_widths_well_formed();
        lemma_codepoint_width_bound(codepoint as int);
    }
    search_width_table(CELL_WIDTHS.as_slice(), codepoint)
}

/// Width of a character: one cell for ASCII, the table's answer otherwise.
pub fn get_character_cell_size(c: char) -> (width: usize)
    ensures
        width == char_width(c),
        width <= 2,
        (c as u32) < 128 ==> width == 1,
{
    if (c as u32) < 128 {
        1
    } else {
        get_codepoint_cell_size(c as u32)
    }
}

/// Width of a sequence of characters.
pub fn chars_width(chars: &[char]) -> (width: usize)
    requires
        cell_width(chars@) <= usize::MAX,
    ensures
        width == cell_width(chars@),
{
    let mut total: usize = 0;
    let mut i: usize = 0;
    while i < chars.len()
        invariant
            0 <= i <= chars@.len(),
            total == cell_width(chars@.take(i as int)),
            cell_width(chars@) <= usize::MAX,
        decreases chars@.len() - i,
    {
        let w = get_character_cell_size(chars[i]);
        proof {
            lemma_cell_width_push(chars@.take(i as int), chars@[i as int]);
            assert(chars@.take(i as int).push(chars@[i as int]) =~= chars@.take(i + 1));
            lemma_cell_width_prefix(chars@, i + 1);
        }
        total = total + w;
        i = i + 1;
    }
    assert(chars@.take(chars@.len() as int) =~= chars@);
    total
}

/// Width of a text, computed afresh.
pub fn text_width(text: &str) -> (width: usize)
    ensures
        width == cell_width(text@),
{
    let bytes = text.as_bytes();
    let n = bytes.len();
    proof {
        lemma_cell_width_le_bytes(text@);
    }
    let chars = chars_of(text);
    chars_width(chars.as_slice())
}

/// How many leading characters of `s` are kept when `s` is cut to `total`
/// cells: the longest prefix that is not wider than `total`.
pub open spec fn fitting_len(s: Seq<char>, total: nat) -> nat
    decreases s.len(),
{
    if s.len() == 0 || cell_width(s) <= total {
        s.len()
    } else {
        fitting_len(s.drop_last(), total)
    }
}

/// `s` brought to exactly `total` cells: its longest prefix that fits,
/// filled up with spaces.
pub open spec fn sized(s: Seq<char>, total: nat) -> Seq<char> {
    let kept = s.take(fitting_len(s, total) as int);
    kept + spaces((total - cell_width(kept)) as nat)
}

/// The prefix that is kept fits, and what is missing is at most the cell
/// that half of a double-width character leaves behind.
pub proof fn lemma_fitting_len(s: Seq<char>, total: nat)
    ensures
        fitting_len(s, total) <= s.len(),
        cell_width(s.take(fitting_len(s, total) as int)) <= total,
        cell_width(s) <= total ==> fitting_len(s, total) == s.len(),
        cell_width(s) > total ==> total - cell_width(s.take(fitting_len(s, total) as int)) <= 1,
    decreases s.len(),
{
    if s.len() == 0 || cell_width(s) <= total {
        assert(s.take(s.len() as int) =~= s);
    } else {
        let t = s.drop_last();
        lemma_fitting_len(t, total);
        let k = fitting_len(t, total) as int;
        assert(t.take(k) =~= s.take(k));
        lemma_char_width_bound(s.last());
        if cell_width(t) <= total {
            assert(t.take(t.len() as int) =~= t);
        }
    }
}

/// Sizing a text gives exactly the width asked for, whether the text had to
/// be padded or cut, also where the cut falls inside a double-width
/// character.
pub proof fn lemma_sized_width(s: Seq<char>, total: nat)
    ensures
        cell_width(sized(s, total)) == total,
        cell_width(s) <= total ==> sized(s, total) == s + spaces((total - cell_width(s)) as nat),
        cell_width(s) == total ==> sized(s, total) == s,
{
    lemma_fitting_len(s, total);
    let kept = s.take(fitting_len(s, total) as int);
    let pad = (total - cell_width(kept)) as nat;
    lemma_spaces_width(pad);
    lemma_cell_width_concat(kept, spaces(pad));
    if cell_width(s) <= total {
        assert(kept =~= s);
        if cell_width(s) == total {
            assert(s + spaces(0) =~= s);
        }
    }
}

/// Sets the width of `text` to exactly `total` cells: pads it with spaces
/// where it is narrower; where it is wider, drops characters from the end
/// and puts one space in the place of a double-width character that had to
/// be cut in half.
pub fn set_cell_size(text: &str, total: usize) -> (sized_text: String)
    ensures
        sized_text@ == sized(text@, total as nat),
        cell_width(sized_text@) == total,
{
    proof {
        lemma_sized_width(text@, total as nat);
        lemma_fitting_len(text@, total as nat);
        lemma_cell_width_le_bytes(text@);
    }
    let bytes_len = text.as_bytes().len();
    let chars = chars_of(text);
    let cell_size = chars_width(chars.as_slice());
    if cell_size <= total {
        let mut padded = string_of(chars.as_slice(), 0, chars.len());
        assert(chars@.subrange(0, chars@.len() as int) =~= chars@);
        let mut missing: usize = total - cell_size;
        while missing > 0
            invariant
                padded@ == text@ + spaces((total - cell_size - missing) as nat),
                missing <= total - cell_size,
            decreases missing,
        {
            padded.push(' ');
            missing = missing - 1;
            assert(padded@ =~= text@ + spaces((total - cell_size - missing) as nat));
        }
        assert(text@ + spaces(0) =~= text@);
        return padded;
    }
    let mut kept: usize = chars.len();
    let mut width: usize = cell_size;
    assert(chars@.take(kept as int) =~= chars@);
    while width > total
        invariant
            kept <= chars@.len(),
            chars@ == text@,
            width == cell_width(chars@.take(kept as int)),
            total < width + 2,
            fitting_len(chars@.take(kept as int), total as nat) == fitting_len(chars@, total as nat),
        decreases kept,
    {
        proof {
            let cur = chars@.take(kept as int);
            assert(cur.len() > 0) by {
                if kept == 0 {
                    assert(cur.len() == 0);
                }
            }
            assert(cur.drop_last() =~= chars@.take(kept - 1));
            assert(cur.last() == chars@[kept - 1]);
            lemma_char_width_bound(cur.last());
        }
        kept = kept - 1;
        let w = get_character_cell_size(chars[kept]);
        width = width - w;
    }
    proof {
        let cur = chars@.take(kept as int);
        assert(fitting_len(cur, total as nat) == kept);
        assert(cur.take(kept as int) =~= cur);
    }
    let mut cut = string_of(chars.as_slice(), 0, kept);
    assert(chars@.subrange(0, kept as int) =~= chars@.take(kept as int));
    if width < total {
        cut.push(' ');
        assert(spaces(1) =~= seq![' ']);
        assert(cut@ =~= chars@.take(kept as int) + spaces(1));
    } else {
        assert(cut@ =~= chars@.take(kept as int) + spaces(0));
    }
    cut
}

/// How many leading characters of `s` still fit on a line of `max` cells that
/// already holds `used` cells.
pub open spec fn run_len(s: Seq<char>, max: nat, used: nat) -> nat
    decreases s.len(),
{
    if s.len() == 0 || used + char_width(s[0]) > max {
        0
    } else {
        1 + run_len(s.drop_first(), max, used + char_width(s[0]))
    }
}

/// `s` cut into lines of at most `max` cells, each line started afresh: a
/// line takes its first character whatever its width, and then every
/// character that still fits.
pub open spec fn chop_fresh(s: Seq<char>, max: nat) -> Seq<Seq<char>>
    decreases s.len(),
    via chop_fresh_decreases
{
    if s.len() == 0 {
        Seq::empty()
    } else {
        let n = 1 + run_len(s.drop_first(), max, char_width(s[0]));
        seq![s.take(n as int)] + chop_fresh(s.skip(n as int), max)
    }
}

#[via_fn]
proof fn chop_fresh_decreases(s: Seq<char>, max: nat) {
    if s.len() != 0 {
        lemma_run_len_bound(s.drop_first(), max, char_width(s[0]));
    }
}

/// `s` cut into lines of at most `max` cells, where the first line already
/// holds `position` cells: the first line takes what still fits, which may be
/// nothing, and the rest is cut into fresh lines.
pub open spec fn chopped(s: Seq<char>, max: nat, position: nat) -> Seq<Seq<char>> {
    let n = run_len(s, max, position);
    seq![s.take(n as int)] + chop_fresh(s.skip(n as int), max)
}

/// What the lines of `chopped` are once the line being filled holds the
/// characters `current`, `used` cells are taken on it, and `rest` is still
/// to come.
pub open spec fn chop_pending(
    current: Seq<char>,
    rest: Seq<char>,
    max: nat,
    used: nat,
) -> Seq<Seq<char>> {
    let n = run_len(rest, max, used);
    seq![current + rest.take(n as int)] + chop_fresh(rest.skip(n as int), max)
}

/// The run of characters that fit never reaches past the text.
pub proof fn lemma_run_len_bound(s: Seq<char>, max: nat, used: nat)
    ensures
        run_len(s, max, used) <= s.len(),
    decreases s.len(),
{
    if !(s.len() == 0 || used + char_width(s[0]) > max) {
        lemma_run_len_bound(s.drop_first(), max, used + char_width(s[0]));
    }
}

/// Breaks `text` into lines of at most `max_size` cells, going from left to
/// right. The first line already holds `position` cells and may stay empty;
/// every later line takes at least one character.
pub fn chop_cells(text: &str, max_size: usize, position: usize) -> (lines: Vec<String>)
    ensures
        texts(lines@) == chopped(text@, max_size as nat, position as nat),
{
    let chars = chars_of(text);
    let mut lines: Vec<String> = Vec::new();
    let mut current = String::new();
    let mut total_size: usize = position;
    let mut i: usize = 0;
    assert(chars@.skip(0) =~= chars@);
    assert(texts(lines@) =~= Seq::<Seq<char>>::empty());
    assert(Seq::<Seq<char>>::empty() + chopped(text@, max_size as nat, position as nat)
        =~= chopped(text@, max_size as nat, position as nat));
    assert(Seq::<char>::empty() + chars@.take(run_len(chars@, max_size as nat, position as nat) as int)
        =~= chars@.take(run_len(chars@, max_size as nat, position as nat) as int));
    while i < chars.len()
        invariant
            i <= chars@.len(),
            chars@ == text@,
            chopped(text@, max_size as nat, position as nat) == texts(lines@) + chop_pending(
                current@,
                chars@.skip(i as int),
                max_size as nat,
                total_size as nat,
            ),
        decreases chars@.len() - i,
    {
        let c = chars[i];
        let size = get_character_cell_size(c);
        let ghost rest = chars@.skip(i as int);
        let ghost next = chars@.skip(i + 1);
        proof {
            assert(rest[0] == c);
            assert(rest.drop_first() =~= next);
        }
        if total_size > max_size || size > max_size - total_size {
            proof {
                let m = run_len(next, max_size as nat, size as nat);
                lemma_run_len_bound(next, max_size as nat, size as nat);
                assert(rest.take(0) =~= Seq::<char>::empty());
                assert(current@ + rest.take(0) =~= current@);
                assert(rest.skip(0) =~= rest);
                assert(rest.take(1 + m as int) =~= seq![c] + next.take(m as int));
                assert(rest.skip(1 + m as int) =~= next.skip(m as int));
                assert(texts(lines@.push(current)) =~= texts(lines@) + seq![current@]);
                assert(Seq::<char>::empty().push(c) =~= seq![c]);
            }
            lines.push(current);
            current = String::new();
            current.push(c);
            total_size = size;
            proof {
                let m = run_len(next, max_size as nat, size as nat);
                assert(chopped(text@, max_size as nat, position as nat) =~= texts(lines@)
                    + chop_pending(current@, next, max_size as nat, total_size as nat));
            }
        } else {
            proof {
                let m = run_len(next, max_size as nat, (total_size + size) as nat);
                lemma_run_len_bound(next, max_size as nat, (total_size + size) as nat);
                assert(rest.take(1 + m as int) =~= seq![c] + next.take(m as int));
                assert(rest.skip(1 + m as int) =~= next.skip(m as int));
                assert(current@ + rest.take(1 + m as int) =~= current@.push(c) + next.take(m as int));
            }
            total_size = total_size + size;
            current.push(c);
        }
        i = i + 1;
    }
    proof {
        let rest = chars@.skip(i as int);
        assert(rest.len() == 0);
        assert(rest.take(0) =~= Seq::<char>::empty());
        assert(current@ + rest.take(0) =~= current@);
        assert(texts(lines@.push(current)) =~= texts(lines@) + seq![current@]);
        assert(seq![current@] + Seq::<Seq<char>>::empty() =~= seq![current@]);
    }
    lines.push(current);
    lines
}

} // verus!
