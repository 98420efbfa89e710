//! Control codes: characters that move the cursor or ring the bell rather
//! than show anything.

use vstd::prelude::*;
use crate::segment::Segment;
use crate::segment::SegmentView;
use crate::strings::chars_of;

verus! {

/// The control codes that are taken out of a text before it is shown:
/// backspace, vertical tab, form feed and carriage return.
pub const STRIP_CONTROL_CODES: [char; 4] = ['\x08', '\x0B', '\x0C', '\r'];

/// Something to show that is made of control codes only.
pub struct Control {
    control_codes: Segment,
}

impl View for Control {
    type V = SegmentView;

    closed spec fn view(&self) -> SegmentView {
        self.control_codes@
    }
}

impl Control {
    /// The control codes `control_codes`, as a control segment without a
    /// style.
    pub fn new(control_codes: &str) -> (control: Self)
        ensures
            control@ == (SegmentView { text: control_codes@, style: None, is_control: true }),
    {
        Control { control_codes: Segment::control(control_codes, None) }
    }

    /// The control codes as a text.
    pub fn to_string(&self) -> (text: String)
        ensures
            text@ == self@.text,
    {
        let mut text = String::new();
        vstd::string::StringExecFns::append(&mut text, self.control_codes.text());
        assert(text@ =~= self@.text);
        text
    }
}

/// `s` without the characters that are among `codes`.
pub open spec fn stripped(s: Seq<char>, codes: Seq<char>) -> Seq<char>
    decreases s.len(),
{
    if s.len() == 0 {
        Seq::empty()
    } else if codes.contains(s.last()) {
        stripped(s.drop_last(), codes)
    } else {
        stripped(s.drop_last(), codes).push(s.last())
    }
}

/// Whether `c` is among `codes`.
fn is_code(c: char, codes: &[char]) -> (found: bool)
    ensures
        found == codes@.contains(c),
{
    let mut i: usize = 0;
    while i < codes.len()
        invariant
            i <= codes@.len(),
            forall|j: int| 0 <= j < i ==> codes@[j] != c,
        decreases codes@.len() - i,
    {
        if codes[i] == c {
            return true;
        }
        i = i + 1;
    }
    false
}

/// The text without the characters that are among `codes_set`.
pub fn strip_control_codes(text: &str, codes_set: &[char]) -> (clean: String)
    ensures
        clean@ == stripped(text@, codes_set@),
{
    let chars = chars_of(text);
    let mut clean = String::new();
    let mut i: usize = 0;
    assert(chars@.take(0) =~= Seq::<char>::empty());
    while i < chars.len()
        invariant
            i <= chars@.len(),
            chars@ == text@,
            clean@ == stripped(chars@.take(i as int), codes_set@),
        decreases chars@.len() - i,
    {
        assert(chars@.take(i + 1).drop_last() =~= chars@.take(i as int));
        if !is_code(chars[i], codes_set) {
            clean.push(chars[i]);
        }
        i = i + 1;
    }
    assert(chars@.take(chars@.len() as int) =~= chars@);
    clean
}

} // verus!
