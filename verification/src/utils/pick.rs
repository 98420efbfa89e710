//! Picking the first value that is set.

use vstd::prelude::*;

verus! {

/// The first value of `values` that is set, `false` where none is.
pub open spec fn first_set(values: Seq<Option<bool>>) -> bool
    decreases values.len(),
{
    if values.len() == 0 {
        false
    } else {
        match values[0] {
            Some(value) => value,
            None => first_set(values.drop_first()),
        }
    }
}

/// The first value that is set, `false` where none is.
pub fn pick_bool(values: &[Option<bool>]) -> (picked: bool)
    ensures
        picked == first_set(values@),
{
    let mut i: usize = 0;
    assert(values@.skip(0) =~= values@);
    while i < values.len()
        invariant
            i <= values@.len(),
            first_set(values@) == first_set(values@.skip(i as int)),
        decreases values@.len() - i,
    {
        assert(values@.skip(i as int).drop_first() =~= values@.skip(i + 1));
        if let Some(value) = values[i] {
            return value;
        }
        i = i + 1;
    }
    false
}

} // verus!
