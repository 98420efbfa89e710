//! Line wrapping: where to break a text so that no line is wider than a
//! given number of cells.

use vstd::prelude::*;
use vstd::string::StrSliceExecFns;
use crate::cells::cell_width;
use crate::cells::char_width;
use crate::cells::chop_cells;
use crate::cells::chop_fresh;
use crate::cells::chopped;
use crate::cells::get_character_cell_size;
use crate::cells::lemma_cell_width_concat;
use crate::cells::lemma_cell_width_le_bytes;
use crate::cells::lemma_cell_width_prefix;
use crate::cells::lemma_cell_width_push;
use crate::cells::lemma_run_len_bound;
use crate::cells::run_len;
use crate::cells::text_width;
use crate::strings::chars_of;
use crate::strings::is_space;
use crate::strings::is_whitespace;
use crate::strings::string_of;
use crate::strings::texts;
use crate::strings::trim_end_len;
use crate::strings::trimmed_end;

verus! {

/// The number of white space characters at the start of `s`.
pub open spec fn space_run(s: Seq<char>) -> nat
    decreases s.len(),
{
    if s.len() > 0 && is_space(s[0]) {
        1 + space_run(s.drop_first())
    } else {
        0
    }
}

/// The number of characters at the start of `s` that are not white space.
pub open spec fn word_run(s: Seq<char>) -> nat
    decreases s.len(),
{
    if s.len() > 0 && !is_space(s[0]) {
        1 + word_run(s.drop_first())
    } else {
        0
    }
}

/// Where the word that starts at `from` ends: behind the white space at
/// `from`, the characters that follow it, and the white space after those.
/// There is no word where only white space is left.
pub open spec fn word_end(s: Seq<char>, from: nat) -> Option<nat> {
    let a = from + space_run(s.skip(from as int));
    if a >= s.len() {
        None
    } else {
        let b = a + word_run(s.skip(a as int));
        Some(b + space_run(s.skip(b as int)))
    }
}

/// A run of white space ends within the text, before a character that is
/// not white space.
pub proof fn lemma_space_run(s: Seq<char>)
    ensures
        space_run(s) <= s.len(),
        space_run(s) < s.len() ==> !is_space(s[space_run(s) as int]),
        forall|i: int| 0 <= i < space_run(s) ==> is_space(#[trigger] s[i]),
    decreases s.len(),
{
    if s.len() > 0 && is_space(s[0]) {
        lemma_space_run(s.drop_first());
        assert forall|i: int| 0 <= i < space_run(s) implies is_space(#[trigger] s[i]) by {
            if i > 0 {
                assert(s[i] == s.drop_first()[i - 1]);
            }
        }
    }
}

/// A run of other characters ends within the text, before white space.
pub proof fn lemma_word_run(s: Seq<char>)
    ensures
        word_run(s) <= s.len(),
        word_run(s) < s.len() ==> is_space(s[word_run(s) as int]),
        s.len() > 0 && !is_space(s[0]) ==> word_run(s) > 0,
        forall|i: int| 0 <= i < word_run(s) ==> !is_space(#[trigger] s[i]),
    decreases s.len(),
{
    if s.len() > 0 && !is_space(s[0]) {
        lemma_word_run(s.drop_first());
        assert forall|i: int| 0 <= i < word_run(s) implies !is_space(#[trigger] s[i]) by {
            if i > 0 {
                assert(s[i] == s.drop_first()[i - 1]);
            }
        }
    }
}

/// A word is not empty and ends within the text.
pub proof fn lemma_word_end(s: Seq<char>, from: nat)
    requires
        from <= s.len(),
    ensures
        word_end(s, from) matches Some(e) ==> from < e <= s.len(),
{
    lemma_space_run(s.skip(from as int));
    let a = from + space_run(s.skip(from as int));
    if a < s.len() {
        lemma_word_run(s.skip(a as int));
        let b = a + word_run(s.skip(a as int));
        lemma_space_run(s.skip(b as int));
    }
}

/// The words of `s` from `from` on, each as the places where it starts and
/// ends.
pub open spec fn words_from(s: Seq<char>, from: nat) -> Seq<(nat, nat)>
    decreases s.len() - from,
    via words_from_decreases
{
    if from > s.len() {
        Seq::empty()
    } else {
        match word_end(s, from) {
            Some(e) => seq![(from, e)] + words_from(s, e),
            None => Seq::empty(),
        }
    }
}

#[via_fn]
proof fn words_from_decreases(s: Seq<char>, from: nat) {
    if from <= s.len() {
        lemma_word_end(s, from);
    }
}

/// The words of `s`. A word takes the white space before it, where there is
/// any at the start of the text, and the white space after it: the words
/// follow each other without a gap. A text of white space has no word.
pub open spec fn word_spans(s: Seq<char>) -> Seq<(nat, nat)> {
    words_from(s, 0)
}

/// The places after each of `chunks` but the last, where the first chunk
/// starts at `start`.
pub open spec fn chunk_ends(chunks: Seq<Seq<char>>, start: nat) -> Seq<nat>
    decreases chunks.len(),
{
    if chunks.len() <= 1 {
        Seq::empty()
    } else {
        seq![start + chunks[0].len()] + chunk_ends(chunks.drop_first(), start + chunks[0].len())
    }
}

/// A line in the making: the places where the text is broken so far, and
/// the cells that are taken on the line that is being filled.
pub struct Wrapped {
    pub divides: Seq<nat>,
    pub line_position: nat,
}

/// One more word for a line in the making. The word is measured without the
/// white space at its end. A word that still fits goes on the line. A word
/// that does not fit, but would fit on a line of its own, starts a new line.
/// A word that is wider than a line is folded where `fold` is true: cut into
/// lines, of which the first is what is left of the line being filled;
/// where `fold` is false it starts a new line and hangs over.
pub open spec fn place_word(w: Wrapped, word: Seq<char>, start: nat, width: nat, fold: bool) -> Wrapped {
    let word_len = cell_width(trimmed_end(word));
    if w.line_position + word_len > width {
        if word_len > width {
            if fold {
                let chunks = chopped(word, width, w.line_position);
                Wrapped {
                    divides: w.divides + chunk_ends(chunks, start),
                    line_position: cell_width(chunks.last()),
                }
            } else {
                Wrapped {
                    divides: if start > 0 {
                        w.divides.push(start)
                    } else {
                        w.divides
                    },
                    line_position: cell_width(word),
                }
            }
        } else if w.line_position > 0 && start > 0 {
            Wrapped { divides: w.divides.push(start), line_position: cell_width(word) }
        } else {
            w
        }
    } else {
        Wrapped { divides: w.divides, line_position: w.line_position + cell_width(word) }
    }
}

/// The line that the given words of `s` make.
pub open spec fn place_words(s: Seq<char>, spans: Seq<(nat, nat)>, width: nat, fold: bool) -> Wrapped
    decreases spans.len(),
{
    if spans.len() == 0 {
        Wrapped { divides: Seq::empty(), line_position: 0 }
    } else {
        place_word(
            place_words(s, spans.drop_last(), width, fold),
            s.subrange(spans.last().0 as int, spans.last().1 as int),
            spans.last().0,
            width,
            fold,
        )
    }
}

/// The places where `s` is broken into lines of at most `width` cells.
pub open spec fn divided(s: Seq<char>, width: nat, fold: bool) -> Seq<nat> {
    place_words(s, word_spans(s), width, fold).divides
}

/// The spans as numbers without a bound.
pub open spec fn span_values(spans: Seq<(usize, usize)>) -> Seq<(nat, nat)> {
    Seq::new(spans.len(), |i: int| (spans[i].0 as nat, spans[i].1 as nat))
}

/// The places as numbers without a bound.
pub open spec fn place_values(places: Seq<usize>) -> Seq<nat> {
    Seq::new(places.len(), |i: int| places[i] as nat)
}

/// The number of characters from `from` on that are white space, or that
/// are not, as `spaces` says.
fn run_from(chars: &[char], from: usize, spaces: bool) -> (n: usize)
    requires
        from <= chars@.len(),
    ensures
        from + n <= chars@.len(),
        spaces ==> n == space_run(chars@.skip(from as int)),
        !spaces ==> n == word_run(chars@.skip(from as int)),
{
    let ghost s = chars@.skip(from as int);
    let mut i: usize = from;
    assert(s.skip(0) =~= s);
    while i < chars.len() && is_whitespace(chars[i]) == spaces
        invariant
            from <= i <= chars@.len(),
            s == chars@.skip(from as int),
            spaces ==> space_run(s) == (i - from) + space_run(s.skip(i - from)),
            !spaces ==> word_run(s) == (i - from) + word_run(s.skip(i - from)),
        decreases chars@.len() - i,
    {
        assert(s.skip(i - from).drop_first() =~= s.skip(i - from + 1));
        i = i + 1;
    }
    i - from
}

/// The words of `chars`, each as the places where it starts and ends.
pub fn word_ranges(chars: &[char]) -> (spans: Vec<(usize, usize)>)
    ensures
        span_values(spans@) == word_spans(chars@),
        forall|i: int| 0 <= i < spans@.len() ==> (#[trigger] spans@[i]).0 < spans@[i].1 <= chars@.len(),
        spans@.len() > 0 ==> spans@[0].0 == 0,
        forall|i: int| 0 <= i < spans@.len() - 1 ==> (#[trigger] spans@[i]).1 == spans@[i + 1].0,
{
    let mut spans: Vec<(usize, usize)> = Vec::new();
    let mut from: usize = 0;
    let ghost s = chars@;
    let n = chars.len();
    assert(span_values(spans@) + words_from(s, 0) =~= words_from(s, 0));
    loop
        invariant
            from <= chars@.len() == n,
            s == chars@,
            word_spans(s) == span_values(spans@) + words_from(s, from as nat),
            forall|i: int| 0 <= i < spans@.len() ==> (#[trigger] spans@[i]).0 < spans@[i].1 <= s.len(),
            spans@.len() > 0 ==> spans@[0].0 == 0 && spans@[spans@.len() - 1].1 == from,
            spans@.len() == 0 ==> from == 0,
            forall|i: int| 0 <= i < spans@.len() - 1 ==> (#[trigger] spans@[i]).1 == spans@[i + 1].0,
        ensures
            span_values(spans@) == word_spans(s),
            forall|i: int| 0 <= i < spans@.len() ==> (#[trigger] spans@[i]).0 < spans@[i].1 <= s.len(),
            spans@.len() > 0 ==> spans@[0].0 == 0,
            forall|i: int| 0 <= i < spans@.len() - 1 ==> (#[trigger] spans@[i]).1 == spans@[i + 1].0,
        decreases chars@.len() - from,
    {
        let a = from + run_from(chars, from, true);
        if a >= chars.len() {
            assert(span_values(spans@) + Seq::<(nat, nat)>::empty() =~= span_values(spans@));
            break;
        }
        let b = a + run_from(chars, a, false);
        let e = b + run_from(chars, b, true);
        proof {
            lemma_word_end(s, from as nat);
            let before = spans@;
            assert(span_values(before.push((from, e))) + words_from(s, e as nat) =~= span_values(
                before,
            ) + (seq![(from as nat, e as nat)] + words_from(s, e as nat)));
        }
        spans.push((from, e));
        from = e;
    }
    spans
}

/// The words of `text`: where each starts and ends, counted in characters,
/// and the word itself.
pub fn words(text: &str) -> (found: Vec<(usize, usize, String)>)
    ensures
        found@.len() == word_spans(text@).len(),
        forall|i: int|
            0 <= i < found@.len() ==> (#[trigger] found@[i]).0 == word_spans(text@)[i].0
                && found@[i].1 == word_spans(text@)[i].1 && found@[i].2@ == text@.subrange(
                word_spans(text@)[i].0 as int,
                word_spans(text@)[i].1 as int,
            ),
{
    let chars = chars_of(text);
    let spans = word_ranges(chars.as_slice());
    let mut found: Vec<(usize, usize, String)> = Vec::new();
    let mut i: usize = 0;
    while i < spans.len()
        invariant
            i <= spans@.len(),
            chars@ == text@,
            found@.len() == i,
            span_values(spans@) == word_spans(text@),
            forall|j: int| 0 <= j < spans@.len() ==> (#[trigger] spans@[j]).0 < spans@[j].1 <= chars@.len(),
            forall|j: int|
                0 <= j < i ==> (#[trigger] found@[j]).0 == spans@[j].0 && found@[j].1 == spans@[j].1
                    && found@[j].2@ == text@.subrange(spans@[j].0 as int, spans@[j].1 as int),
        decreases spans@.len() - i,
    {
        let (start, end) = spans[i];
        found.push((start, end, string_of(chars.as_slice(), start, end)));
        i = i + 1;
    }
    assert forall|i: int| 0 <= i < found@.len() implies (#[trigger] found@[i]).0 == word_spans(
        text@,
    )[i].0 && found@[i].1 == word_spans(text@)[i].1 && found@[i].2@ == text@.subrange(
        word_spans(text@)[i].0 as int,
        word_spans(text@)[i].1 as int,
    ) by {
        assert(span_values(spans@)[i] == (spans@[i].0 as nat, spans@[i].1 as nat));
    }
    found
}

/// A part of a text is never wider than the text, and the width of a text up
/// to a place is the width up to an earlier place and of what lies between.
pub proof fn lemma_cell_width_subrange(s: Seq<char>, a: int, b: int)
    requires
        0 <= a <= b <= s.len(),
    ensures
        cell_width(s.subrange(a, b)) <= cell_width(s),
        cell_width(s.take(b)) == cell_width(s.take(a)) + cell_width(s.subrange(a, b)),
{
    lemma_cell_width_concat(s.take(a), s.subrange(a, b));
    assert(s.take(a) + s.subrange(a, b) =~= s.take(b));
    lemma_cell_width_prefix(s, b);
}

/// The number of characters in all of `chunks`.
pub open spec fn total_len(chunks: Seq<Seq<char>>) -> nat
    decreases chunks.len(),
{
    if chunks.len() == 0 {
        0
    } else {
        chunks[0].len() + total_len(chunks.drop_first())
    }
}

/// Fresh lines hold every character of the text, and the last of them is
/// never wider than the text.
pub proof fn lemma_chop_fresh(s: Seq<char>, max: nat)
    ensures
        total_len(chop_fresh(s, max)) == s.len(),
        s.len() > 0 ==> chop_fresh(s, max).len() > 0 && cell_width(chop_fresh(s, max).last())
            <= cell_width(s),
        forall|i: int| 0 <= i < chop_fresh(s, max).len() ==> (#[trigger] chop_fresh(s, max)[i]).len() > 0,
    decreases s.len(),
{
    if s.len() > 0 {
        let n = 1 + run_len(s.drop_first(), max, char_width(s[0]));
        lemma_run_len_bound(s.drop_first(), max, char_width(s[0]));
        let rest = chop_fresh(s.skip(n as int), max);
        let all = seq![s.take(n as int)] + rest;
        lemma_chop_fresh(s.skip(n as int), max);
        assert(all.drop_first() =~= rest);
        lemma_cell_width_prefix(s, n as int);
        lemma_cell_width_subrange(s, n as int, s.len() as int);
        assert(s.subrange(n as int, s.len() as int) =~= s.skip(n as int));
        if rest.len() > 0 {
            assert(all.last() == rest.last());
        }
        assert forall|i: int| 0 <= i < all.len() implies (#[trigger] all[i]).len() > 0 by {
            if i > 0 {
                assert(all[i] == rest[i - 1]);
            }
        }
    }
}

/// The lines of a chopped text hold every character of it, the last of them
/// is never wider than the text, and every line after the first holds
/// something.
pub proof fn lemma_chopped(s: Seq<char>, max: nat, position: nat)
    ensures
        total_len(chopped(s, max, position)) == s.len(),
        chopped(s, max, position).len() > 0,
        cell_width(chopped(s, max, position).last()) <= cell_width(s),
        forall|i: int|
            1 <= i < chopped(s, max, position).len() ==> (#[trigger] chopped(s, max, position)[i]).len()
                > 0,
{
    let n = run_len(s, max, position);
    lemma_run_len_bound(s, max, position);
    let rest = chop_fresh(s.skip(n as int), max);
    let all = seq![s.take(n as int)] + rest;
    lemma_chop_fresh(s.skip(n as int), max);
    assert(all.drop_first() =~= rest);
    lemma_cell_width_prefix(s, n as int);
    lemma_cell_width_subrange(s, n as int, s.len() as int);
    assert(s.subrange(n as int, s.len() as int) =~= s.skip(n as int));
    if rest.len() > 0 {
        assert(all.last() == rest.last());
    }
    assert forall|i: int| 1 <= i < all.len() implies (#[trigger] all[i]).len() > 0 by {
        assert(all[i] == rest[i - 1]);
    }
}

/// The width of `chars[from..to]`.
fn range_width(chars: &[char], from: usize, to: usize) -> (width: usize)
    requires
        from <= to <= chars@.len(),
        cell_width(chars@) <= usize::MAX,
    ensures
        width == cell_width(chars@.subrange(from as int, to as int)),
{
    let mut total: usize = 0;
    let mut i: usize = from;
    assert(chars@.subrange(from as int, from as int) =~= Seq::<char>::empty());
    while i < to
        invariant
            from <= i <= to <= chars@.len(),
            total == cell_width(chars@.subrange(from as int, i as int)),
            cell_width(chars@) <= usize::MAX,
        decreases to - i,
    {
        let w = get_character_cell_size(chars[i]);
        proof {
            lemma_cell_width_push(chars@.subrange(from as int, i as int), chars@[i as int]);
            assert(chars@.subrange(from as int, i as int).push(chars@[i as int]) =~= chars@.subrange(
                from as int,
                i + 1,
            ));
            lemma_cell_width_subrange(chars@, from as int, i + 1);
        }
        total = total + w;
        i = i + 1;
    }
    total
}

/// The places where `text` is to be broken so that no line is wider than
/// `width` cells, counted in characters and in rising order. The text is
/// broken between words where it can be. A word that is wider than a line
/// is folded, unless `fold` is `Some(false)`: then it hangs over.
pub fn divide_line(text: &str, width: usize, fold: Option<bool>) -> (divides: Vec<usize>)
    ensures
        place_values(divides@) == divided(text@, width as nat, fold != Some(false)),
        rising_below(place_values(divides@), text@.len()),
{
    proof {
        lemma_divided_rising(text@, width as nat, fold != Some(false));
    }
    let fold = match fold {
        Some(f) => f,
        None => true,
    };
    let bytes = text.as_bytes().len();
    let chars = chars_of(text);
    let ghost s = chars@;
    proof {
        lemma_cell_width_le_bytes(s);
    }
    let spans = word_ranges(chars.as_slice());
    let ghost all = span_values(spans@);
    let mut divides: Vec<usize> = Vec::new();
    let mut line_position: usize = 0;
    let mut k: usize = 0;
    let n = chars.len();
    proof {
        assert(all.take(0) =~= Seq::<(nat, nat)>::empty());
        assert(place_values(divides@) =~= Seq::<nat>::empty());
        assert(s.take(0) =~= Seq::<char>::empty());
    }
    while k < spans.len()
        invariant
            k <= spans@.len(),
            s == chars@,
            s == text@,
            n == s.len(),
            cell_width(s) <= usize::MAX,
            all == span_values(spans@),
            all == word_spans(s),
            forall|i: int| 0 <= i < spans@.len() ==> (#[trigger] spans@[i]).0 < spans@[i].1 <= s.len(),
            spans@.len() > 0 ==> spans@[0].0 == 0,
            forall|i: int| 0 <= i < spans@.len() - 1 ==> (#[trigger] spans@[i]).1 == spans@[i + 1].0,
            place_values(divides@) == place_words(s, all.take(k as int), width as nat, fold).divides,
            line_position == place_words(s, all.take(k as int), width as nat, fold).line_position,
            k < spans@.len() ==> line_position <= cell_width(s.take(spans@[k as int].0 as int)),
        decreases spans@.len() - k,
    {
        let (start, end) = spans[k];
        let ghost before = place_words(s, all.take(k as int), width as nat, fold);
        let ghost word = s.subrange(start as int, end as int);
        proof {
            assert(all.take(k + 1).drop_last() =~= all.take(k as int));
            assert(all.take(k + 1).last() == (start as nat, end as nat));
            lemma_cell_width_subrange(s, start as int, end as int);
            lemma_cell_width_prefix(s, end as int);
            if k + 1 < spans@.len() {
                assert(spans@[k as int].1 == spans@[k + 1].0);
            }
        }
        let word_chars = chars_of(string_of(chars.as_slice(), start, end).as_str());
        let kept = trim_end_len(word_chars.as_slice());
        proof {
            assert(word_chars@.subrange(0, kept as int) =~= word_chars@.take(kept as int));
            assert(word_chars@.subrange(0, word_chars@.len() as int) =~= word_chars@);
            lemma_cell_width_prefix(word, kept as int);
        }
        let word_len = range_width(word_chars.as_slice(), 0, kept);
        let full_len = range_width(word_chars.as_slice(), 0, word_chars.len());
        let ghost after = place_word(before, word, start as nat, width as nat, fold);
        if line_position > width || word_len > width - line_position {
            if word_len > width {
                if fold {
                    let word_text = string_of(word_chars.as_slice(), 0, word_chars.len());
                    let chunks = chop_cells(word_text.as_str(), width, line_position);
                    let ghost parts = chopped(word, width as nat, line_position as nat);
                    proof {
                        lemma_chopped(word, width as nat, line_position as nat);
                        assert(texts(chunks@).len() == chunks@.len());
                    }
                    let mut place: usize = start;
                    let mut j: usize = 0;
                    let last = chunks.len() - 1;
                    let ghost held = divides@;
                    proof {
                        assert(parts.skip(0) =~= parts);
                        assert(place_values(held) + chunk_ends(parts, start as nat) =~= after.divides);
                    }
                    while j < last
                        invariant
                            j <= last == chunks@.len() - 1,
                            texts(chunks@) == parts,
                            start <= place,
                            place + total_len(parts.skip(j as int)) == end,
                            end <= n,
                            after.divides == place_values(divides@) + chunk_ends(
                                parts.skip(j as int),
                                place as nat,
                            ),
                        decreases chunks@.len() - j,
                    {
                        let ghost rest = parts.skip(j as int);
                        proof {
                            assert(rest[0] == chunks@[j as int]@);
                            assert(rest.drop_first() =~= parts.skip(j + 1));
                        }
                        let size = chunks[j].as_str().unicode_len();
                        place = place + size;
                        let ghost earlier = divides@;
                        divides.push(place);
                        proof {
                            assert(place_values(divides@) + chunk_ends(parts.skip(j + 1), place as nat)
                                =~= place_values(earlier) + (seq![place as nat] + chunk_ends(
                                parts.skip(j + 1),
                                place as nat,
                            )));
                        }
                        j = j + 1;
                    }
                    proof {
                        assert(parts.skip(j as int).len() == 1);
                        assert(place_values(divides@) + Seq::<nat>::empty() =~= place_values(
                            divides@,
                        ));
                        assert(parts.last() == chunks@[j as int]@);
                    }
                    line_position = text_width(chunks[chunks.len() - 1].as_str());
                } else {
                    if start > 0 {
                        let ghost earlier = divides@;
                        divides.push(start);
                        assert(place_values(divides@) =~= place_values(earlier).push(start as nat));
                    }
                    line_position = full_len;
                }
            } else if line_position > 0 && start > 0 {
                let ghost earlier = divides@;
                divides.push(start);
                assert(place_values(divides@) =~= place_values(earlier).push(start as nat));
                line_position = full_len;
            }
        } else {
            line_position = line_position + full_len;
        }
        k = k + 1;
    }
    assert(all.take(spans@.len() as int) =~= all);
    divides
}

/// The words follow each other without a gap, from `from` on, and each of
/// them holds something.
pub proof fn lemma_words_from(s: Seq<char>, from: nat)
    requires
        from <= s.len(),
    ensures
        forall|i: int|
            0 <= i < words_from(s, from).len() ==> (#[trigger] words_from(s, from)[i]).0
                < words_from(s, from)[i].1 <= s.len(),
        words_from(s, from).len() > 0 ==> words_from(s, from)[0].0 == from,
        forall|i: int|
            0 <= i < words_from(s, from).len() - 1 ==> (#[trigger] words_from(s, from)[i]).1
                == words_from(s, from)[i + 1].0,
    decreases s.len() - from,
{
    lemma_word_end(s, from);
    match word_end(s, from) {
        Some(e) => {
            lemma_words_from(s, e);
            let rest = words_from(s, e);
            let all = seq![(from, e)] + rest;
            assert(all == words_from(s, from));
            assert forall|i: int| 0 <= i < all.len() implies (#[trigger] all[i]).0 < all[i].1
                <= s.len() by {
                if i > 0 {
                    assert(all[i] == rest[i - 1]);
                }
            }
            assert forall|i: int| 0 <= i < all.len() - 1 implies (#[trigger] all[i]).1 == all[i
                + 1].0 by {
                assert(all[i + 1] == rest[i]);
                if i > 0 {
                    assert(all[i] == rest[i - 1]);
                }
            }
        },
        None => {},
    }
}

/// The places after chunks rise strictly from `start` on, and stay before
/// the end of the chunks, where every chunk after the first holds
/// something.
pub proof fn lemma_chunk_ends(chunks: Seq<Seq<char>>, start: nat)
    requires
        forall|i: int| 1 <= i < chunks.len() ==> (#[trigger] chunks[i]).len() > 0,
    ensures
        chunks.len() > 0 ==> chunk_ends(chunks, start).len() == chunks.len() - 1,
        forall|i: int|
            0 <= i < chunk_ends(chunks, start).len() ==> start <= #[trigger] chunk_ends(
                chunks,
                start,
            )[i] < start + total_len(chunks),
        forall|i: int, j: int|
            0 <= i < j < chunk_ends(chunks, start).len() ==> #[trigger] chunk_ends(chunks, start)[i]
                < #[trigger] chunk_ends(chunks, start)[j],
    decreases chunks.len(),
{
    if chunks.len() > 1 {
        let first = start + chunks[0].len();
        let rest = chunks.drop_first();
        assert forall|i: int| 1 <= i < rest.len() implies (#[trigger] rest[i]).len() > 0 by {
            assert(rest[i] == chunks[i + 1]);
        }
        lemma_chunk_ends(rest, first);
        let tail = chunk_ends(rest, first);
        let all = seq![first] + tail;
        assert(all == chunk_ends(chunks, start));
        assert(rest[0] == chunks[1]);
        assert(total_len(rest) > 0) by {
            assert(rest[0].len() > 0);
        }
        assert forall|i: int| 0 <= i < all.len() implies start <= #[trigger] all[i] < start
            + total_len(chunks) by {
            if i > 0 {
                assert(all[i] == tail[i - 1]);
            }
        }
        assert forall|i: int, j: int| 0 <= i < j < all.len() implies #[trigger] all[i]
            < #[trigger] all[j] by {
            assert(all[j] == tail[j - 1]);
            if i > 0 {
                assert(all[i] == tail[i - 1]);
            } else {
                if rest.len() > 1 {
                    assert(tail[0] == first + rest[0].len());
                    if j - 1 > 0 {
                        assert(tail[0] < tail[j - 1]);
                    }
                }
            }
        }
    }
}

/// A sequence of places rises strictly and stays below `bound`.
pub open spec fn rising_below(places: Seq<nat>, bound: nat) -> bool {
    &&& forall|i: int| 0 <= i < places.len() ==> #[trigger] places[i] < bound
    &&& forall|i: int, j: int|
        0 <= i < j < places.len() ==> #[trigger] places[i] < #[trigger] places[j]
}

/// Placing one more word keeps the places rising, and below the end of the
/// word.
pub proof fn lemma_place_word_rising(w: Wrapped, word: Seq<char>, start: nat, width: nat, fold: bool)
    requires
        word.len() > 0,
        start == 0 ==> w.divides.len() == 0,
        rising_below(w.divides, start) || start == 0,
    ensures
        rising_below(place_word(w, word, start, width, fold).divides, start + word.len()),
{
    let after = place_word(w, word, start, width, fold).divides;
    let word_len = cell_width(trimmed_end(word));
    if w.line_position + word_len > width && word_len > width && fold {
        let chunks = chopped(word, width, w.line_position);
        lemma_chopped(word, width, w.line_position);
        lemma_chunk_ends(chunks, start);
        let ends = chunk_ends(chunks, start);
        assert(after == w.divides + ends);
        assert forall|i: int| 0 <= i < after.len() implies #[trigger] after[i] < start
            + word.len() by {
            if i >= w.divides.len() {
                assert(after[i] == ends[i - w.divides.len()]);
            }
        }
        assert forall|i: int, j: int| 0 <= i < j < after.len() implies #[trigger] after[i]
            < #[trigger] after[j] by {
            if j >= w.divides.len() {
                assert(after[j] == ends[j - w.divides.len()]);
                if i >= w.divides.len() {
                    assert(after[i] == ends[i - w.divides.len()]);
                }
            }
        }
    }
}

/// Placing words that follow each other keeps the places rising, and below
/// the end of the last word.
pub proof fn lemma_place_words_rising(s: Seq<char>, spans: Seq<(nat, nat)>, width: nat, fold: bool)
    requires
        forall|i: int| 0 <= i < spans.len() ==> (#[trigger] spans[i]).0 < spans[i].1 <= s.len(),
        spans.len() > 0 ==> spans[0].0 == 0,
        forall|i: int| 0 <= i < spans.len() - 1 ==> (#[trigger] spans[i]).1 == spans[i + 1].0,
    ensures
        spans.len() == 0 ==> place_words(s, spans, width, fold).divides.len() == 0,
        spans.len() > 0 ==> rising_below(place_words(s, spans, width, fold).divides, spans.last().1),
    decreases spans.len(),
{
    if spans.len() > 0 {
        let before = spans.drop_last();
        assert forall|i: int| 0 <= i < before.len() implies (#[trigger] before[i]).0 < before[i].1
            <= s.len() by {
            assert(before[i] == spans[i]);
        }
        assert forall|i: int| 0 <= i < before.len() - 1 implies (#[trigger] before[i]).1
            == before[i + 1].0 by {
            assert(before[i] == spans[i]);
            assert(before[i + 1] == spans[i + 1]);
        }
        if before.len() > 0 {
            assert(before[0] == spans[0]);
            assert(before.last() == spans[spans.len() - 2]);
            assert(spans[spans.len() - 2].1 == spans[spans.len() - 2 + 1].0);
        }
        lemma_place_words_rising(s, before, width, fold);
        let last = spans.last();
        lemma_place_word_rising(
            place_words(s, before, width, fold),
            s.subrange(last.0 as int, last.1 as int),
            last.0,
            width,
            fold,
        );
    }
}

/// The places where a text is broken rise strictly, and each of them lies
/// within the text.
pub proof fn lemma_divided_rising(s: Seq<char>, width: nat, fold: bool)
    ensures
        rising_below(divided(s, width, fold), s.len()),
{
    lemma_words_from(s, 0);
    lemma_place_words_rising(s, word_spans(s), width, fold);
    let spans = word_spans(s);
    if spans.len() > 0 {
        assert(spans.last() == spans[spans.len() - 1]);
    }
}

/// Line `i` of a text that is broken at `divides`: what stands between one
/// place and the next, with the start and the end of the text as the
/// outermost places.
pub open spec fn line_of(s: Seq<char>, divides: Seq<nat>, i: int) -> Seq<char> {
    s.subrange(
        if i == 0 {
            0
        } else {
            divides[i - 1] as int
        },
        if i == divides.len() {
            s.len() as int
        } else {
            divides[i] as int
        },
    )
}

/// The chunks put together again.
pub open spec fn flat(chunks: Seq<Seq<char>>) -> Seq<char>
    decreases chunks.len(),
{
    if chunks.len() == 0 {
        Seq::empty()
    } else {
        chunks[0] + flat(chunks.drop_first())
    }
}

/// What fits on a line fits: the run of characters that still fit is not
/// wider than what is left of the line.
pub proof fn lemma_run_fits(s: Seq<char>, max: nat, used: nat)
    ensures
        run_len(s, max, used) <= s.len(),
        used <= max ==> used + cell_width(s.take(run_len(s, max, used) as int)) <= max,
        cell_width(s.take(0)) == 0,
    decreases s.len(),
{
    assert(s.take(0) =~= Seq::<char>::empty());
    if !(s.len() == 0 || used + char_width(s[0]) > max) {
        let rest = s.drop_first();
        let more = used + char_width(s[0]);
        lemma_run_fits(rest, max, more);
        let n = run_len(rest, max, more);
        lemma_cell_width_concat(seq![s[0]], rest.take(n as int));
        assert(seq![s[0]] + rest.take(n as int) =~= s.take(n as int + 1));
        assert(seq![s[0]].drop_last() =~= Seq::<char>::empty());
        assert(cell_width(seq![s[0]].drop_last()) == 0);
    }
}

/// Fresh lines put together are the text, and none of them is wider than a
/// line, where no character is.
pub proof fn lemma_chop_fresh_lines(s: Seq<char>, max: nat)
    requires
        forall|k: int| 0 <= k < s.len() ==> char_width(#[trigger] s[k]) <= max,
    ensures
        flat(chop_fresh(s, max)) == s,
        forall|i: int|
            0 <= i < chop_fresh(s, max).len() ==> cell_width(#[trigger] chop_fresh(s, max)[i]) <= max,
    decreases s.len(),
{
    if s.len() > 0 {
        let rest = s.drop_first();
        let used = char_width(s[0]);
        let m = run_len(rest, max, used);
        lemma_run_fits(rest, max, used);
        let n = 1 + m;
        let tail = s.skip(n as int);
        assert forall|k: int| 0 <= k < tail.len() implies char_width(#[trigger] tail[k]) <= max by {
            assert(tail[k] == s[k + n]);
        }
        lemma_chop_fresh_lines(tail, max);
        let all = seq![s.take(n as int)] + chop_fresh(tail, max);
        assert(all.drop_first() =~= chop_fresh(tail, max));
        assert(s.take(n as int) + tail =~= s);
        lemma_cell_width_concat(seq![s[0]], rest.take(m as int));
        assert(seq![s[0]] + rest.take(m as int) =~= s.take(n as int));
        assert(seq![s[0]].drop_last() =~= Seq::<char>::empty());
        assert(cell_width(seq![s[0]].drop_last()) == 0);
        assert(char_width(s[0]) <= max);
        assert forall|i: int| 0 <= i < all.len() implies cell_width(#[trigger] all[i]) <= max by {
            if i > 0 {
                assert(all[i] == chop_fresh(tail, max)[i - 1]);
            }
        }
    }
}

/// The lines of a chopped text put together are the text, and none of them
/// is wider than a line, where no character is.
pub proof fn lemma_chopped_lines(s: Seq<char>, max: nat, position: nat)
    requires
        forall|k: int| 0 <= k < s.len() ==> char_width(#[trigger] s[k]) <= max,
    ensures
        flat(chopped(s, max, position)) == s,
        forall|i: int|
            0 <= i < chopped(s, max, position).len() ==> cell_width(
                #[trigger] chopped(s, max, position)[i],
            ) <= max,
{
    let n = run_len(s, max, position);
    lemma_run_fits(s, max, position);
    let tail = s.skip(n as int);
    assert forall|k: int| 0 <= k < tail.len() implies char_width(#[trigger] tail[k]) <= max by {
        assert(tail[k] == s[k + n]);
    }
    lemma_chop_fresh_lines(tail, max);
    let all = seq![s.take(n as int)] + chop_fresh(tail, max);
    assert(all.drop_first() =~= chop_fresh(tail, max));
    assert(s.take(n as int) + tail =~= s);
    assert forall|i: int| 0 <= i < all.len() implies cell_width(#[trigger] all[i]) <= max by {
        if i > 0 {
            assert(all[i] == chop_fresh(tail, max)[i - 1]);
        }
    }
}

/// The places after chunks move with the place where the chunks start.
pub proof fn lemma_chunk_ends_shift(chunks: Seq<Seq<char>>, start: nat)
    ensures
        chunk_ends(chunks, start).len() == chunk_ends(chunks, 0).len(),
        forall|i: int|
            0 <= i < chunk_ends(chunks, 0).len() ==> #[trigger] chunk_ends(chunks, start)[i]
                == start + chunk_ends(chunks, 0)[i],
    decreases chunks.len(),
{
    if chunks.len() > 1 {
        let rest = chunks.drop_first();
        let n = chunks[0].len();
        lemma_chunk_ends_shift(rest, start + n);
        lemma_chunk_ends_shift(rest, n);
        let a = chunk_ends(chunks, start);
        let b = chunk_ends(chunks, 0);
        assert forall|i: int| 0 <= i < b.len() implies #[trigger] a[i] == start + b[i] by {
            if i > 0 {
                assert(a[i] == chunk_ends(rest, start + n)[i - 1]);
                assert(b[i] == chunk_ends(rest, n)[i - 1]);
            }
        }
    }
}

/// The lines of a text that was put together from chunks, and is broken
/// after each chunk but the last, are the chunks.
pub proof fn lemma_lines_of_chunks(chunks: Seq<Seq<char>>, i: int)
    requires
        0 <= i < chunks.len(),
    ensures
        chunk_ends(chunks, 0).len() == chunks.len() - 1,
        line_of(flat(chunks), chunk_ends(chunks, 0), i) == chunks[i],
    decreases chunks.len(),
{
    let rest = chunks.drop_first();
    let n = chunks[0].len();
    let t = flat(chunks);
    if chunks.len() == 1 {
        assert(flat(rest) =~= Seq::<char>::empty());
        assert(t.subrange(0, t.len() as int) =~= chunks[0]);
    } else {
        lemma_lines_of_chunks(rest, 0);
        lemma_chunk_ends_shift(rest, n);
        let e = chunk_ends(chunks, 0);
        let r = chunk_ends(rest, 0);
        assert(e =~= seq![n] + chunk_ends(rest, n));
        if i == 0 {
            assert(t.subrange(0, n as int) =~= chunks[0]);
        } else {
            lemma_lines_of_chunks(rest, i - 1);
            assert(chunks[i] == rest[i - 1]);
            let lo: int = if i - 1 == 0 {
                0
            } else {
                r[i - 2] as int
            };
            let hi: int = if i - 1 == r.len() {
                flat(rest).len() as int
            } else {
                r[i - 1] as int
            };
            assert(flat(rest).subrange(lo, hi) == rest[i - 1]);
            if i - 1 > 0 {
                assert(e[i - 1] == chunk_ends(rest, n)[i - 2]);
            }
            if i < e.len() {
                assert(e[i] == chunk_ends(rest, n)[i - 1]);
            }
            lemma_flat_len(rest);
            lemma_chunk_ends_within(rest, i - 1);
            assert(t.subrange(lo + n, hi + n) =~= flat(rest).subrange(lo, hi));
        }
    }
}

/// A text put together from chunks is as long as the chunks together.
pub proof fn lemma_flat_len(chunks: Seq<Seq<char>>)
    ensures
        flat(chunks).len() == total_len(chunks),
    decreases chunks.len(),
{
    if chunks.len() > 0 {
        lemma_flat_len(chunks.drop_first());
    }
}

/// The places after chunks rise and lie within the chunks.
pub proof fn lemma_chunk_ends_within(chunks: Seq<Seq<char>>, i: int)
    requires
        0 <= i < chunks.len(),
    ensures
        chunk_ends(chunks, 0).len() == chunks.len() - 1,
        i > 0 ==> chunk_ends(chunks, 0)[i - 1] <= total_len(chunks),
        i < chunks.len() - 1 ==> chunk_ends(chunks, 0)[i] <= total_len(chunks),
        0 < i < chunks.len() - 1 ==> chunk_ends(chunks, 0)[i - 1] <= chunk_ends(chunks, 0)[i],
    decreases chunks.len(),
{
    if chunks.len() > 1 {
        let rest = chunks.drop_first();
        let n = chunks[0].len();
        lemma_chunk_ends_shift(rest, n);
        let e = chunk_ends(chunks, 0);
        assert(e =~= seq![n] + chunk_ends(rest, n));
        if i > 0 {
            lemma_chunk_ends_within(rest, i - 1);
            if i - 1 > 0 {
                assert(e[i - 1] == chunk_ends(rest, n)[i - 2]);
            }
            if i < e.len() {
                assert(e[i] == chunk_ends(rest, n)[i - 1]);
            }
        } else {
            lemma_chunk_ends_within(rest, 0);
        }
    }
}

/// A text without white space is one run of characters.
pub proof fn lemma_one_word(s: Seq<char>)
    requires
        forall|k: int| 0 <= k < s.len() ==> !is_space(#[trigger] s[k]),
    ensures
        word_run(s) == s.len(),
        space_run(s) == 0,
        trimmed_end(s) == s,
    decreases s.len(),
{
    if s.len() > 0 {
        let rest = s.drop_first();
        assert forall|k: int| 0 <= k < rest.len() implies !is_space(#[trigger] rest[k]) by {
            assert(rest[k] == s[k + 1]);
        }
        lemma_one_word(rest);
        assert(!is_space(s[0]));
        assert(!is_space(s[s.len() - 1]));
    }
}

/// No line of a folded text is wider than the width asked for, where the
/// text is a single word, without white space, and none of its characters
/// is wider than a line.
pub proof fn lemma_wrap_bounded(s: Seq<char>, width: nat, i: int)
    requires
        forall|k: int| 0 <= k < s.len() ==> !is_space(#[trigger] s[k]),
        forall|k: int| 0 <= k < s.len() ==> char_width(#[trigger] s[k]) <= width,
        0 <= i <= divided(s, width, true).len(),
    ensures
        cell_width(line_of(s, divided(s, width, true), i)) <= width,
{
    lemma_one_word(s);
    assert(s.skip(0) =~= s);
    if s.len() == 0 {
        assert(word_spans(s) =~= Seq::<(nat, nat)>::empty());
        assert(s.subrange(0, 0) =~= s);
    } else {
        let n = s.len();
        assert(s.skip(n as int) =~= Seq::<char>::empty());
        assert(word_end(s, 0) == Some(n));
        assert(word_end(s, n) is None);
        assert(words_from(s, n) =~= Seq::<(nat, nat)>::empty());
        let spans = word_spans(s);
        assert(spans =~= seq![(0nat, n)]);
        assert(spans.drop_last() =~= Seq::<(nat, nat)>::empty());
        assert(s.subrange(0, n as int) =~= s);
        let start = Wrapped { divides: Seq::empty(), line_position: 0 };
        assert(place_words(s, spans.drop_last(), width, true) == start);
        assert(place_words(s, spans, width, true) == place_word(start, s, 0, width, true));
        if cell_width(s) > width {
            let chunks = chopped(s, width, 0);
            lemma_chopped_lines(s, width, 0);
            lemma_chopped(s, width, 0);
            lemma_chunk_ends(chunks, 0);
            assert(divided(s, width, true) =~= chunk_ends(chunks, 0));
            lemma_lines_of_chunks(chunks, i);
        } else {
            assert(divided(s, width, true) =~= Seq::<nat>::empty());
        }
    }
}

/// A text without the white space at its end is a start of the text, and so
/// no wider.
pub proof fn lemma_trimmed_end(t: Seq<char>)
    ensures
        trimmed_end(t).len() <= t.len(),
        trimmed_end(t) == t.take(trimmed_end(t).len() as int),
        cell_width(trimmed_end(t)) <= cell_width(t),
        trimmed_end(t).len() > 0 ==> !is_space(trimmed_end(t).last()),
        forall|j: int| trimmed_end(t).len() <= j < t.len() ==> is_space(#[trigger] t[j]),
    decreases t.len(),
{
    if t.len() > 0 && is_space(t.last()) {
        let shorter = t.drop_last();
        lemma_trimmed_end(shorter);
        let n = trimmed_end(shorter).len() as int;
        assert(shorter.take(n) =~= t.take(n));
        lemma_cell_width_prefix(t, n);
        assert forall|j: int| n <= j < t.len() implies is_space(#[trigger] t[j]) by {
            if j < t.len() - 1 {
                assert(t[j] == shorter[j]);
            }
        }
    } else {
        assert(t.take(t.len() as int) =~= t);
    }
}

/// Taking the white space off the end of two texts in a row takes it off
/// the second, where the second holds any character that is not white
/// space.
pub proof fn lemma_trimmed_end_concat(a: Seq<char>, w: Seq<char>, j: int)
    requires
        0 <= j < w.len(),
        !is_space(w[j]),
    ensures
        trimmed_end(a + w) == a + trimmed_end(w),
    decreases w.len(),
{
    if is_space(w.last()) {
        assert(j < w.len() - 1);
        lemma_trimmed_end_concat(a, w.drop_last(), j);
        assert((a + w).drop_last() =~= a + w.drop_last());
        assert((a + w).last() == w.last());
    } else {
        assert((a + w).last() == w.last());
    }
}

/// Where line `i` of a text that is broken at `divides` starts.
pub open spec fn line_start(divides: Seq<nat>, i: int) -> nat {
    if i == 0 {
        0
    } else {
        divides[i - 1]
    }
}

/// A line in the making is sound up to the place `pos`: the places where
/// the text is broken rise and lie before `pos`, the line position is the
/// width of what stands on the open line, and no line, the open one
/// included, is wider than `width` once the white space at its end is taken
/// off.
pub open spec fn wrapped_well(s: Seq<char>, w: Wrapped, pos: nat, width: nat) -> bool {
    let open_from = line_start(w.divides, w.divides.len() as int);
    &&& pos <= s.len()
    &&& pos == 0 ==> w.divides.len() == 0 && w.line_position == 0
    &&& forall|i: int| 0 <= i < w.divides.len() ==> #[trigger] w.divides[i] < pos
    &&& forall|i: int, j: int|
        0 <= i < j < w.divides.len() ==> #[trigger] w.divides[i] < #[trigger] w.divides[j]
    &&& open_from <= pos
    &&& w.line_position == cell_width(s.subrange(open_from as int, pos as int))
    &&& cell_width(trimmed_end(s.subrange(open_from as int, pos as int))) <= width
    &&& forall|i: int|
        0 <= i < w.divides.len() ==> cell_width(
            trimmed_end(s.subrange(line_start(w.divides, i) as int, #[trigger] w.divides[i] as int)),
        ) <= width
}

/// Line `j` of a word that is chopped, as a stretch of the text that the
/// word is taken from.
pub proof fn lemma_chunk_in_text(s: Seq<char>, start: nat, end: nat, chunks: Seq<Seq<char>>, j: int)
    requires
        start <= end <= s.len(),
        flat(chunks) == s.subrange(start as int, end as int),
        forall|i: int| 1 <= i < chunks.len() ==> (#[trigger] chunks[i]).len() > 0,
        0 <= j < chunks.len(),
    ensures
        chunk_ends(chunks, start).len() == chunks.len() - 1,
        forall|i: int|
            0 <= i < chunks.len() - 1 ==> start <= #[trigger] chunk_ends(chunks, start)[i] <= end,
        chunks[j] == s.subrange(
            if j == 0 {
                start as int
            } else {
                chunk_ends(chunks, start)[j - 1] as int
            },
            if j == chunks.len() - 1 {
                end as int
            } else {
                chunk_ends(chunks, start)[j] as int
            },
        ),
{
    let word = s.subrange(start as int, end as int);
    let rel = chunk_ends(chunks, 0);
    let abs = chunk_ends(chunks, start);
    lemma_chunk_ends_shift(chunks, start);
    lemma_lines_of_chunks(chunks, j);
    lemma_chunk_ends_within(chunks, j);
    lemma_flat_len(chunks);
    lemma_chunk_ends(chunks, start);
    let lo: int = if j == 0 {
        0
    } else {
        rel[j - 1] as int
    };
    let hi: int = if j == chunks.len() - 1 {
        word.len() as int
    } else {
        rel[j] as int
    };
    assert(word.subrange(lo, hi) == chunks[j]);
    assert(lo <= hi) by {
        if j > 0 && j < chunks.len() - 1 {
            assert(rel[j - 1] <= rel[j]);
        }
    }
    assert(word.subrange(lo, hi) =~= s.subrange(start + lo, start + hi));
    assert forall|i: int| 0 <= i < chunks.len() - 1 implies start <= #[trigger] abs[i] <= end by {
        assert(abs[i] < start + total_len(chunks));
    }
}

/// A word that is folded keeps a line in the making sound.
#[verifier::spinoff_prover]
#[verifier::rlimit(60)]
proof fn lemma_place_fold(s: Seq<char>, w: Wrapped, start: nat, end: nat, width: nat)
    requires
        start < end <= s.len(),
        forall|k: int| 0 <= k < s.len() ==> char_width(#[trigger] s[k]) <= width,
        wrapped_well(s, w, start, width),
        cell_width(trimmed_end(s.subrange(start as int, end as int))) > width,
    ensures
        wrapped_well(
            s,
            Wrapped {
                divides: w.divides + chunk_ends(
                    chopped(s.subrange(start as int, end as int), width, w.line_position),
                    start,
                ),
                line_position: cell_width(
                    chopped(s.subrange(start as int, end as int), width, w.line_position).last(),
                ),
            },
            end,
            width,
        ),
{
    let word = s.subrange(start as int, end as int);
    let open_from = line_start(w.divides, w.divides.len() as int);
    let held = s.subrange(open_from as int, start as int);
    let chunks = chopped(word, width, w.line_position);
    let n = chunks.len() as int;
    let ends = chunk_ends(chunks, start);
    let d = w.divides + ends;
    let m = w.divides.len() as int;
    lemma_trimmed_end(word);
    assert forall|k: int| 0 <= k < word.len() implies char_width(#[trigger] word[k]) <= width by {
        assert(word[k] == s[start + k]);
    }
    lemma_chopped_lines(word, width, w.line_position);
    lemma_chopped(word, width, w.line_position);
    lemma_run_fits(word, width, w.line_position);
    lemma_chunk_ends(chunks, start);
    lemma_chunk_in_text(s, start, end, chunks, 0);
    lemma_chunk_in_text(s, start, end, chunks, n - 1);
    let first = run_len(word, width, w.line_position);
    assert(chunks[0] == word.take(first as int));
    assert(n >= 2) by {
        if n == 1 {
            assert(chunks[0] == word);
            assert(word.take(first as int).len() == word.len());
            assert(word.take(word.len() as int) =~= word);
            if w.line_position > width {
                assert(first == 0);
            }
        }
    }
    assert forall|i: int| 0 <= i < d.len() implies #[trigger] d[i] < end by {
        if i >= m {
            assert(d[i] == ends[i - m]);
            assert(ends[i - m] < start + total_len(chunks));
        }
    }
    assert forall|i: int, j: int| 0 <= i < j < d.len() implies #[trigger] d[i] < #[trigger] d[j] by {
        if j >= m {
            assert(d[j] == ends[j - m]);
            if i >= m {
                assert(d[i] == ends[i - m]);
            }
        }
    }
    assert(d[d.len() - 1] == ends[n - 2]);
    assert(s.subrange(ends[n - 2] as int, end as int) == chunks[n - 1]);
    lemma_trimmed_end(chunks[n - 1]);
    assert forall|i: int| 0 <= i < d.len() implies cell_width(
        trimmed_end(s.subrange(line_start(d, i) as int, #[trigger] d[i] as int)),
    ) <= width by {
        if i < m {
            assert(d[i] == w.divides[i]);
            if i > 0 {
                assert(d[i - 1] == w.divides[i - 1]);
            }
        } else if i == m {
            assert(d[m] == ends[0]);
            if m > 0 {
                assert(d[m - 1] == w.divides[m - 1]);
            }
            let line = s.subrange(open_from as int, ends[0] as int);
            assert(chunks[0] == s.subrange(start as int, ends[0] as int));
            assert(line =~= held + chunks[0]);
            lemma_trimmed_end(line);
            lemma_cell_width_concat(held, chunks[0]);
            if w.line_position > width {
                assert(first == 0);
                assert(chunks[0] =~= Seq::<char>::empty());
                assert(line =~= held);
            }
        } else {
            let j = i - m;
            lemma_chunk_in_text(s, start, end, chunks, j);
            assert(d[i] == ends[j]);
            assert(d[i - 1] == ends[j - 1]);
            assert(s.subrange(ends[j - 1] as int, ends[j] as int) == chunks[j]);
            lemma_trimmed_end(chunks[j]);
        }
    }
}

/// A word that starts a new line keeps a line in the making sound.
#[verifier::spinoff_prover]
proof fn lemma_place_break(s: Seq<char>, w: Wrapped, start: nat, end: nat, width: nat)
    requires
        0 < start < end <= s.len(),
        wrapped_well(s, w, start, width),
        cell_width(trimmed_end(s.subrange(start as int, end as int))) <= width,
    ensures
        wrapped_well(
            s,
            Wrapped {
                divides: w.divides.push(start),
                line_position: cell_width(s.subrange(start as int, end as int)),
            },
            end,
            width,
        ),
{
    let d = w.divides.push(start);
    let m = w.divides.len() as int;
    assert forall|i: int| 0 <= i < d.len() implies cell_width(
        trimmed_end(s.subrange(line_start(d, i) as int, #[trigger] d[i] as int)),
    ) <= width by {
        if i < m {
            assert(d[i] == w.divides[i]);
            if i > 0 {
                assert(d[i - 1] == w.divides[i - 1]);
            }
        } else {
            if m > 0 {
                assert(d[m - 1] == w.divides[m - 1]);
            }
        }
    }
}

/// A word that goes on the open line keeps a line in the making sound.
#[verifier::spinoff_prover]
proof fn lemma_place_fits(s: Seq<char>, w: Wrapped, start: nat, end: nat, width: nat, mark: int)
    requires
        start < end <= s.len(),
        start <= mark < end,
        !is_space(s[mark]),
        wrapped_well(s, w, start, width),
        w.line_position + cell_width(trimmed_end(s.subrange(start as int, end as int))) <= width,
    ensures
        wrapped_well(
            s,
            Wrapped {
                divides: w.divides,
                line_position: w.line_position + cell_width(s.subrange(start as int, end as int)),
            },
            end,
            width,
        ),
{
    let word = s.subrange(start as int, end as int);
    let open_from = line_start(w.divides, w.divides.len() as int);
    let held = s.subrange(open_from as int, start as int);
    assert(word[mark - start] == s[mark]);
    lemma_cell_width_concat(held, word);
    assert(held + word =~= s.subrange(open_from as int, end as int));
    lemma_trimmed_end_concat(held, word, mark - start);
    lemma_cell_width_concat(held, trimmed_end(word));
}

/// Placing one more word, folded where it is too wide, keeps a line in the
/// making sound, where no character is wider than a line.
pub proof fn lemma_place_word_well(s: Seq<char>, w: Wrapped, start: nat, end: nat, width: nat, mark: int)
    requires
        start < end <= s.len(),
        start <= mark < end,
        !is_space(s[mark]),
        forall|k: int| 0 <= k < s.len() ==> char_width(#[trigger] s[k]) <= width,
        wrapped_well(s, w, start, width),
    ensures
        wrapped_well(
            s,
            place_word(w, s.subrange(start as int, end as int), start, width, true),
            end,
            width,
        ),
{
    let word = s.subrange(start as int, end as int);
    let word_len = cell_width(trimmed_end(word));
    if w.line_position + word_len > width {
        if word_len > width {
            lemma_place_fold(s, w, start, end, width);
        } else {
            assert(w.line_position > 0);
            assert(start > 0);
            lemma_place_break(s, w, start, end, width);
        }
    } else {
        lemma_place_fits(s, w, start, end, width, mark);
    }
}

/// Placing the words of a text, folded where they are too wide, gives a
/// line in the making that is sound.
pub proof fn lemma_place_words_well(s: Seq<char>, spans: Seq<(nat, nat)>, width: nat)
    requires
        forall|k: int| 0 <= k < s.len() ==> char_width(#[trigger] s[k]) <= width,
        forall|i: int| 0 <= i < spans.len() ==> (#[trigger] spans[i]).0 < spans[i].1 <= s.len(),
        spans.len() > 0 ==> spans[0].0 == 0,
        forall|i: int| 0 <= i < spans.len() - 1 ==> (#[trigger] spans[i]).1 == spans[i + 1].0,
        forall|i: int|
            0 <= i < spans.len() ==> exists|mark: int|
                (#[trigger] spans[i]).0 <= mark < spans[i].1 && !is_space(s[mark]),
    ensures
        wrapped_well(
            s,
            place_words(s, spans, width, true),
            if spans.len() == 0 {
                0
            } else {
                spans.last().1
            },
            width,
        ),
    decreases spans.len(),
{
    if spans.len() == 0 {
        assert(s.subrange(0, 0) =~= Seq::<char>::empty());
    } else {
        let before = spans.drop_last();
        assert forall|i: int| 0 <= i < before.len() implies (#[trigger] before[i]).0 < before[i].1
            <= s.len() by {
            assert(before[i] == spans[i]);
        }
        assert forall|i: int| 0 <= i < before.len() - 1 implies (#[trigger] before[i]).1
            == before[i + 1].0 by {
            assert(before[i] == spans[i]);
            assert(before[i + 1] == spans[i + 1]);
        }
        assert forall|i: int| 0 <= i < before.len() implies exists|mark: int|
            (#[trigger] before[i]).0 <= mark < before[i].1 && !is_space(s[mark]) by {
            assert(before[i] == spans[i]);
        }
        if before.len() > 0 {
            assert(before[0] == spans[0]);
            assert(before.last() == spans[spans.len() - 2]);
            assert(spans[spans.len() - 2].1 == spans[spans.len() - 2 + 1].0);
        }
        lemma_place_words_well(s, before, width);
        let last = spans.last();
        assert(last == spans[spans.len() - 1]);
        let mark = choose|mark: int| last.0 <= mark < last.1 && !is_space(s[mark]);
        lemma_place_word_well(s, place_words(s, before, width, true), last.0, last.1, width, mark);
    }
}

/// Every word holds a character that is not white space, and the last word
/// ends where the text ends.
pub proof fn lemma_words_marks(s: Seq<char>, from: nat)
    requires
        from <= s.len(),
    ensures
        forall|i: int|
            0 <= i < words_from(s, from).len() ==> exists|mark: int|
                (#[trigger] words_from(s, from)[i]).0 <= mark < words_from(s, from)[i].1
                    && !is_space(s[mark]),
        words_from(s, from).len() > 0 ==> words_from(s, from).last().1 == s.len(),
        words_from(s, from).len() == 0 ==> forall|j: int| from <= j < s.len() ==> is_space(#[trigger] s[j]),
    decreases s.len() - from,
{
    lemma_word_end(s, from);
    let tail = s.skip(from as int);
    lemma_space_run(tail);
    let a = from + space_run(tail);
    match word_end(s, from) {
        Some(e) => {
            lemma_words_marks(s, e);
            let rest = words_from(s, e);
            let all = seq![(from, e)] + rest;
            assert(all == words_from(s, from));
            lemma_word_run(s.skip(a as int));
            assert(tail[a - from] == s[a as int]);
            assert(from <= a < e && !is_space(s[a as int]));
            assert forall|i: int| 0 <= i < all.len() implies exists|mark: int|
                (#[trigger] all[i]).0 <= mark < all[i].1 && !is_space(s[mark]) by {
                if i > 0 {
                    assert(all[i] == rest[i - 1]);
                    let mark = choose|mark: int|
                        rest[i - 1].0 <= mark < rest[i - 1].1 && !is_space(s[mark]);
                    assert(all[i].0 <= mark < all[i].1 && !is_space(s[mark]));
                } else {
                    assert(all[0].0 <= a < all[0].1 && !is_space(s[a as int]));
                }
            }
            if rest.len() > 0 {
                assert(all.last() == rest.last());
            } else {
                let b = a + word_run(s.skip(a as int));
                lemma_space_run(s.skip(b as int));
                lemma_space_run(s.skip(e as int));
                if e < s.len() {
                    assert(is_space(s[e as int]));
                    if b < e {
                        assert(s.skip(b as int)[e - b] == s[e as int]);
                    } else {
                        assert(s.skip(b as int)[0] == s[e as int]);
                    }
                    assert(false);
                }
            }
        },
        None => {
            assert forall|j: int| from <= j < s.len() implies is_space(#[trigger] s[j]) by {
                assert(tail[j - from] == s[j]);
            }
        },
    }
}

/// No line of a folded text is wider than the width asked for, once the
/// white space at the end of the line is taken off, where no character of
/// the text is wider than a line.
pub proof fn lemma_wrap_trimmed(s: Seq<char>, width: nat, i: int)
    requires
        forall|k: int| 0 <= k < s.len() ==> char_width(#[trigger] s[k]) <= width,
        0 <= i <= divided(s, width, true).len(),
    ensures
        cell_width(trimmed_end(line_of(s, divided(s, width, true), i))) <= width,
{
    let spans = word_spans(s);
    lemma_words_from(s, 0);
    lemma_words_marks(s, 0);
    lemma_place_words_well(s, spans, width);
    let d = divided(s, width, true);
    if spans.len() == 0 {
        lemma_trimmed_end(s);
        assert(s.subrange(0, s.len() as int) =~= s);
        if trimmed_end(s).len() > 0 {
            assert(trimmed_end(s).last() == s[trimmed_end(s).len() - 1]);
        }
        assert(trimmed_end(s) =~= Seq::<char>::empty());
    } else {
        if i < d.len() {
            assert(line_start(d, i) == if i == 0 {
                0
            } else {
                d[i - 1]
            });
        }
    }
}

} // verus!
