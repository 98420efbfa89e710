//! Walking a sequence while knowing which value is the first and which is
//! the last.

use vstd::prelude::*;

verus! {

/// Each value with a flag that is true for the first one.
pub fn loop_first<T>(values: &[T]) -> (flagged: Vec<(bool, &T)>)
    ensures
        flagged@.len() == values@.len(),
        forall|i: int|
            0 <= i < values@.len() ==> (#[trigger] flagged@[i]).0 == (i == 0) && *flagged@[i].1
                == values@[i],
{
    let mut flagged: Vec<(bool, &T)> = Vec::new();
    let mut i: usize = 0;
    while i < values.len()
        invariant
            i <= values@.len(),
            flagged@.len() == i,
            forall|j: int|
                0 <= j < i ==> (#[trigger] flagged@[j]).0 == (j == 0) && *flagged@[j].1 == values@[j],
        decreases values@.len() - i,
    {
        flagged.push((i == 0, &values[i]));
        i = i + 1;
    }
    flagged
}

/// Each value with a flag that is true for the last one.
pub fn loop_last<T>(values: &[T]) -> (flagged: Vec<(bool, &T)>)
    ensures
        flagged@.len() == values@.len(),
        forall|i: int|
            0 <= i < values@.len() ==> (#[trigger] flagged@[i]).0 == (i == values@.len() - 1)
                && *flagged@[i].1 == values@[i],
{
    let mut flagged: Vec<(bool, &T)> = Vec::new();
    let mut i: usize = 0;
    while i < values.len()
        invariant
            i <= values@.len(),
            flagged@.len() == i,
            forall|j: int|
                0 <= j < i ==> (#[trigger] flagged@[j]).0 == (j == values@.len() - 1)
                    && *flagged@[j].1 == values@[j],
        decreases values@.len() - i,
    {
        flagged.push((i + 1 == values.len(), &values[i]));
        i = i + 1;
    }
    flagged
}

/// Each value with a flag that is true for the first and for the last one.
pub fn loop_first_last<T>(values: &[T]) -> (flagged: Vec<(bool, &T)>)
    ensures
        flagged@.len() == values@.len(),
        forall|i: int|
            0 <= i < values@.len() ==> (#[trigger] flagged@[i]).0 == (i == 0 || i == values@.len()
                - 1) && *flagged@[i].1 == values@[i],
{
    let mut flagged: Vec<(bool, &T)> = Vec::new();
    let mut i: usize = 0;
    while i < values.len()
        invariant
            i <= values@.len(),
            flagged@.len() == i,
            forall|j: int|
                0 <= j < i ==> (#[trigger] flagged@[j]).0 == (j == 0 || j == values@.len() - 1)
                    && *flagged@[j].1 == values@[j],
        decreases values@.len() - i,
    {
        flagged.push((i == 0 || i + 1 == values.len(), &values[i]));
        i = i + 1;
    }
    flagged
}

} // verus!
