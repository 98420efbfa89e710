//! Small string helpers shared by the other modules.

use vstd::prelude::*;
use vstd::string::StringExecFns;

verus! {

/// `String::push` appends one character to the end of the string.
pub assume_specification[ String::push ](s: &mut String, c: char)
    ensures
        final(s)@ == old(s)@.push(c),
;

/// The characters of `text`, in order.
pub fn chars_of(text: &str) -> (v: Vec<char>)
    ensures
        v@ == text@,
{
    let mut v: Vec<char> = Vec::new();
    for c in it: text.chars()
        invariant
            v@ == it.seq().take(it.index()),
            it.seq() == text@,
    {
        v.push(c);
    }
    v
}

/// The string made of the characters `chars[from..to]`.
pub fn string_of(chars: &[char], from: usize, to: usize) -> (s: String)
    requires
        from <= to <= chars@.len(),
    ensures
        s@ == chars@.subrange(from as int, to as int),
{
    let mut s = String::new();
    let mut i: usize = from;
    while i < to
        invariant
            from <= i <= to <= chars@.len(),
            s@ == chars@.subrange(from as int, i as int),
        decreases to - i,
    {
        s.push(chars[i]);
        i += 1;
    }
    s
}

/// `str`'s `==`: two texts are equal when they hold the same characters.
pub assume_specification[ <str as PartialEq>::eq ](a: &str, b: &str) -> (same: bool)
    ensures
        same == (a@ == b@),
;

/// The whole of `chars` as a string.
pub fn string_from_chars(chars: &[char]) -> (s: String)
    ensures
        s@ == chars@,
{
    let s = string_of(chars, 0, chars.len());
    assert(chars@.subrange(0, chars@.len() as int) =~= chars@);
    s
}

/// The character that stands for the digit `d` in base 16, in lower case.
pub open spec fn digit_char(d: nat) -> char
    recommends
        d < 16,
{
    if d < 10 {
        (0x30 + d) as char
    } else {
        (0x61 + d - 10) as char
    }
}

/// `n` written in base ten, without leading zeros.
pub open spec fn decimal(n: nat) -> Seq<char>
    decreases n,
{
    if n < 10 {
        seq![digit_char(n)]
    } else {
        decimal(n / 10).push(digit_char(n % 10))
    }
}

/// `b` written as two digits in base 16, in lower case.
pub open spec fn hex_pair(b: u8) -> Seq<char> {
    seq![digit_char((b / 16) as nat), digit_char((b % 16) as nat)]
}

/// The character for the digit `d`.
pub fn digit_to_char(d: u8) -> (c: char)
    requires
        d < 16,
    ensures
        c == digit_char(d as nat),
{
    if d < 10 {
        (0x30u8 + d) as char
    } else {
        (0x61u8 + (d - 10)) as char
    }
}

/// `n` in base ten.
pub fn decimal_string(n: u16) -> (s: String)
    ensures
        s@ == decimal(n as nat),
{
    let mut digits: Vec<char> = Vec::new();
    let mut rest: u16 = n;
    // the digits of `n`, lowest first
    while rest >= 10
        invariant
            decimal(n as nat) == decimal(rest as nat) + digits@.reverse(),
        decreases rest,
    {
        let d = digit_to_char((rest % 10) as u8);
        proof {
            let r = rest as nat;
            assert(decimal(r) == decimal(r / 10).push(digit_char(r % 10)));
            assert(digits@.push(d).reverse() =~= seq![d] + digits@.reverse());
            assert(decimal(r / 10).push(d) + digits@.reverse() =~= decimal(r / 10) + (seq![d]
                + digits@.reverse()));
        }
        digits.push(d);
        rest = rest / 10;
    }
    let first = digit_to_char(rest as u8);
    let mut s = String::new();
    s.push(first);
    let mut i: usize = digits.len();
    while i > 0
        invariant
            i <= digits@.len(),
            s@ == seq![first] + digits@.reverse().take(digits@.len() - i),
        decreases i,
    {
        i = i - 1;
        s.push(digits[i]);
        proof {
            let rev = digits@.reverse();
            let k = digits@.len() - i - 1;
            assert(rev[k] == digits@[i as int]);
            assert(rev.take(k + 1) =~= rev.take(k).push(rev[k]));
            assert(s@ =~= seq![first] + rev.take(k + 1));
        }
    }
    assert(digits@.reverse().take(digits@.len() as int) =~= digits@.reverse());
    s
}

/// `b` as two digits in base 16.
pub fn hex_pair_string(b: u8) -> (s: String)
    ensures
        s@ == hex_pair(b),
{
    let mut s = String::new();
    s.push(digit_to_char(b / 16));
    s.push(digit_to_char(b % 16));
    assert(s@ =~= hex_pair(b));
    s
}

/// The texts of `parts` put together, with `sep` between each two of them.
pub open spec fn joined(parts: Seq<Seq<char>>, sep: Seq<char>) -> Seq<char>
    decreases parts.len(),
{
    if parts.len() == 0 {
        Seq::empty()
    } else if parts.len() == 1 {
        parts[0]
    } else {
        joined(parts.drop_last(), sep) + sep + parts.last()
    }
}

/// The texts that a sequence of strings holds.
pub open spec fn texts(v: Seq<String>) -> Seq<Seq<char>> {
    Seq::new(v.len(), |i: int| v[i]@)
}

/// Joins `parts`, with `sep` between each two of them.
pub fn join(parts: &Vec<String>, sep: &str) -> (s: String)
    ensures
        s@ == joined(texts(parts@), sep@),
{
    let mut s = String::new();
    let mut i: usize = 0;
    while i < parts.len()
        invariant
            i <= parts@.len(),
            s@ == joined(texts(parts@).take(i as int), sep@),
        decreases parts@.len() - i,
    {
        proof {
            let p = texts(parts@);
            assert(p.take(i + 1).drop_last() =~= p.take(i as int));
            assert(p.take(i + 1).last() == parts@[i as int]@);
        }
        if i > 0 {
            s.append(sep);
        } else {
            assert(Seq::<char>::empty() + parts@[i as int]@ =~= parts@[i as int]@);
        }
        s.append(parts[i].as_str());
        i = i + 1;
    }
    assert(texts(parts@).take(parts@.len() as int) =~= texts(parts@));
    s
}

/// `text` repeated `n` times.
pub open spec fn repeated(text: Seq<char>, n: nat) -> Seq<char>
    decreases n,
{
    if n == 0 {
        Seq::empty()
    } else {
        repeated(text, (n - 1) as nat) + text
    }
}

/// `text` repeated `n` times.
pub fn repeat(text: &str, n: usize) -> (s: String)
    ensures
        s@ == repeated(text@, n as nat),
{
    let mut s = String::new();
    let mut i: usize = 0;
    while i < n
        invariant
            i <= n,
            s@ == repeated(text@, i as nat),
        decreases n - i,
    {
        s.append(text);
        i = i + 1;
    }
    s
}

/// What `str::to_lowercase` makes of a text: each character in its lower
/// case by Unicode's rules.
pub uninterp spec fn lowercased(s: Seq<char>) -> Seq<char>;

/// `str::to_lowercase`: the text in lower case.
pub assume_specification[ str::to_lowercase ](s: &str) -> (lower: String)
    ensures
        lower@ == lowercased(s@),
;

/// Whether `c` is white space: a character with Unicode's `White_Space`
/// property.
pub open spec fn is_space(c: char) -> bool {
    let u = c as u32;
    (0x09 <= u <= 0x0D) || u == 0x20 || u == 0x85 || u == 0xA0 || u == 0x1680 || (0x2000 <= u
        <= 0x200A) || u == 0x2028 || u == 0x2029 || u == 0x202F || u == 0x205F || u == 0x3000
}

/// Whether `c` is ASCII white space: space, tab, line feed, form feed or
/// carriage return.
pub open spec fn is_ascii_space(c: char) -> bool {
    c == ' ' || c == '\t' || c == '\n' || c == '\x0C' || c == '\r'
}

/// Whether `c` is white space.
pub fn is_whitespace(c: char) -> (space: bool)
    ensures
        space == is_space(c),
{
    let u = c as u32;
    (0x09 <= u && u <= 0x0D) || u == 0x20 || u == 0x85 || u == 0xA0 || u == 0x1680 || (0x2000 <= u
        && u <= 0x200A) || u == 0x2028 || u == 0x2029 || u == 0x202F || u == 0x205F || u == 0x3000
}

/// Whether `c` is ASCII white space.
pub fn is_ascii_whitespace(c: char) -> (space: bool)
    ensures
        space == is_ascii_space(c),
{
    c == ' ' || c == '\t' || c == '\n' || c == '\x0C' || c == '\r'
}

/// `s` without the white space at its end.
pub open spec fn trimmed_end(s: Seq<char>) -> Seq<char>
    decreases s.len(),
{
    if s.len() > 0 && is_space(s.last()) {
        trimmed_end(s.drop_last())
    } else {
        s
    }
}

/// `s` without the white space at its start.
pub open spec fn trimmed_start(s: Seq<char>) -> Seq<char>
    decreases s.len(),
{
    if s.len() > 0 && is_space(s[0]) {
        trimmed_start(s.drop_first())
    } else {
        s
    }
}

/// `s` without the white space at its start and at its end.
pub open spec fn trimmed(s: Seq<char>) -> Seq<char> {
    trimmed_end(trimmed_start(s))
}

/// The number of characters that are left of `chars` once the white space
/// at its end is taken off.
pub fn trim_end_len(chars: &[char]) -> (kept: usize)
    ensures
        kept <= chars@.len(),
        chars@.take(kept as int) == trimmed_end(chars@),
{
    let mut kept: usize = chars.len();
    assert(chars@.take(kept as int) =~= chars@);
    while kept > 0 && is_whitespace(chars[kept - 1])
        invariant
            kept <= chars@.len(),
            trimmed_end(chars@.take(kept as int)) == trimmed_end(chars@),
        decreases kept,
    {
        assert(chars@.take(kept as int).drop_last() =~= chars@.take(kept - 1));
        kept = kept - 1;
    }
    kept
}

/// The number of characters of white space at the start of `chars`.
pub fn trim_start_len(chars: &[char]) -> (skipped: usize)
    ensures
        skipped <= chars@.len(),
        chars@.skip(skipped as int) == trimmed_start(chars@),
{
    let mut skipped: usize = 0;
    assert(chars@.skip(0) =~= chars@);
    while skipped < chars.len() && is_whitespace(chars[skipped])
        invariant
            skipped <= chars@.len(),
            trimmed_start(chars@.skip(skipped as int)) == trimmed_start(chars@),
        decreases chars@.len() - skipped,
    {
        assert(chars@.skip(skipped as int).drop_first() =~= chars@.skip(skipped + 1));
        skipped = skipped + 1;
    }
    skipped
}

/// `text` without the white space at its start and at its end.
pub fn trim(text: &str) -> (s: String)
    ensures
        s@ == trimmed(text@),
{
    let chars = chars_of(text);
    let from = trim_start_len(chars.as_slice());
    let rest = string_of(chars.as_slice(), from, chars.len());
    assert(chars@.subrange(from as int, chars@.len() as int) =~= chars@.skip(from as int));
    let rest_chars = chars_of(rest.as_str());
    let kept = trim_end_len(rest_chars.as_slice());
    let s = string_of(rest_chars.as_slice(), 0, kept);
    assert(rest_chars@.subrange(0, kept as int) =~= rest_chars@.take(kept as int));
    s
}

} // verus!
