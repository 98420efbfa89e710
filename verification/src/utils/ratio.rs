//! Dividing a whole number into shares by ratios.

use vstd::prelude::*;

verus! {

/// `a` divided by `b`, rounded up, for a divisor above zero.
pub open spec fn ceil_div(a: int, b: int) -> int
    recommends
        b > 0,
{
    if a >= 0 {
        (a + b - 1) / b
    } else {
        -((-a) / b)
    }
}

/// The ratios that count: all of them where no minimums are given; else one
/// for each pair of a ratio and a minimum, the ratio where the minimum is
/// above zero and zero otherwise.
pub open spec fn counted_ratios(ratios: Seq<i32>, minimums: Option<Seq<i32>>) -> Seq<int> {
    match minimums {
        Some(m) => Seq::new(
            if ratios.len() <= m.len() {
                ratios.len()
            } else {
                m.len()
            },
            |i: int|
                if m[i] > 0 {
                    ratios[i] as int
                } else {
                    0
                },
        ),
        None => Seq::new(ratios.len(), |i: int| ratios[i] as int),
    }
}

/// The minimum of each share: zero where none are given.
pub open spec fn counted_minimums(ratios: Seq<i32>, minimums: Option<Seq<i32>>) -> Seq<int> {
    match minimums {
        Some(m) => Seq::new(
            if ratios.len() <= m.len() {
                ratios.len()
            } else {
                m.len()
            },
            |i: int| m[i] as int,
        ),
        None => Seq::new(ratios.len(), |i: int| 0int),
    }
}

/// The sum of the numbers.
pub open spec fn sum(numbers: Seq<int>) -> int
    decreases numbers.len(),
{
    if numbers.len() == 0 {
        0
    } else {
        sum(numbers.drop_last()) + numbers.last()
    }
}

/// The share that goes to the first ratio: its part of what is left by what
/// is left of the ratios, rounded up, but no less than its minimum; all that
/// is left where no ratio is left.
pub open spec fn share(total: int, total_ratio: int, ratio: int, minimum: int) -> int {
    if total_ratio > 0 {
        let part = ceil_div(ratio * total, total_ratio);
        if minimum >= part {
            minimum
        } else {
            part
        }
    } else {
        total
    }
}

/// The shares of `total` by `ratios`, where `total_ratio` is what the
/// ratios add up to: each ratio takes its share of what the ratios before it
/// left.
pub open spec fn shares(total: int, total_ratio: int, ratios: Seq<int>, minimums: Seq<int>) -> Seq<int>
    decreases ratios.len(),
{
    if ratios.len() == 0 || minimums.len() == 0 {
        Seq::empty()
    } else {
        let first = share(total, total_ratio, ratios[0], minimums[0]);
        seq![first] + shares(
            total - first,
            total_ratio - ratios[0],
            ratios.drop_first(),
            minimums.drop_first(),
        )
    }
}

/// Whether a number is an `i32`.
pub open spec fn is_i32(n: int) -> bool {
    i32::MIN <= n <= i32::MAX
}

/// Whether the shares, and what is left after each of them, are all `i32`.
pub open spec fn shares_fit(total: int, total_ratio: int, ratios: Seq<int>, minimums: Seq<int>) -> bool
    decreases ratios.len(),
{
    if ratios.len() == 0 || minimums.len() == 0 {
        true
    } else {
        let first = share(total, total_ratio, ratios[0], minimums[0]);
        is_i32(first) && is_i32(total - first) && is_i32(total_ratio - ratios[0]) && shares_fit(
            total - first,
            total_ratio - ratios[0],
            ratios.drop_first(),
            minimums.drop_first(),
        )
    }
}

/// The numbers of `v` without a bound.
pub open spec fn unbounded(v: Seq<i32>) -> Seq<int> {
    Seq::new(v.len(), |i: int| v[i] as int)
}

/// `a` divided by `b`, rounded up.
fn ceiling(a: i64, b: i64) -> (q: i64)
    requires
        0 < b <= i32::MAX,
        -0x4000_0000_0000_0000 <= a <= 0x4000_0000_0000_0000,
    ensures
        q == ceil_div(a as int, b as int),
{
    if a >= 0 {
        (a + b - 1) / b
    } else {
        -((-a) / b)
    }
}

/// The minimums that are given, as a sequence.
pub open spec fn given_minimums(minimums: Option<&[i32]>) -> Option<Seq<i32>> {
    match minimums {
        Some(m) => Some(m@),
        None => None,
    }
}

/// What the ratios that count add up to.
pub open spec fn ratio_total(ratios: Seq<i32>, minimums: Option<Seq<i32>>) -> int {
    sum(counted_ratios(ratios, minimums))
}

/// The shares of `total` by `ratios`, none below its minimum.
pub open spec fn distribution(total: int, ratios: Seq<i32>, minimums: Option<Seq<i32>>) -> Seq<int> {
    shares(
        total,
        ratio_total(ratios, minimums),
        counted_ratios(ratios, minimums),
        counted_minimums(ratios, minimums),
    )
}

/// Whether every number on the way to the shares is an `i32`: the sum of
/// the ratios as far as it is added up, each share, and what is left after
/// it.
pub open spec fn distribution_fits(total: int, ratios: Seq<i32>, minimums: Option<Seq<i32>>) -> bool {
    &&& forall|n: int|
        0 <= n <= ratios.len() ==> is_i32(#[trigger] sum(counted_ratios(ratios, minimums).take(n)))
    &&& shares_fit(
        total,
        ratio_total(ratios, minimums),
        counted_ratios(ratios, minimums),
        counted_minimums(ratios, minimums),
    )
}

/// Divides `total` into shares by `ratios`: each ratio in turn takes its
/// part of what is left, rounded up, but no less than its minimum. With
/// minimums, a ratio counts only where its minimum is above zero.
pub fn ratio_distribute(total: i32, ratios: &[i32], minimums: Option<&[i32]>) -> (distributed: Vec<i32>)
    requires
        ratio_total(ratios@, given_minimums(minimums)) > 0,
        distribution_fits(total as int, ratios@, given_minimums(minimums)),
    ensures
        unbounded(distributed@) == distribution(total as int, ratios@, given_minimums(minimums)),
{
    let ghost given = given_minimums(minimums);
    let ghost counted = counted_ratios(ratios@, given);
    let ghost floors = counted_minimums(ratios@, given);
    let n = match minimums {
        Some(m) => if ratios.len() <= m.len() {
            ratios.len()
        } else {
            m.len()
        },
        None => ratios.len(),
    };
    let mut effective: Vec<i32> = Vec::new();
    let mut lowest: Vec<i32> = Vec::new();
    let mut total_ratio: i32 = 0;
    let mut i: usize = 0;
    assert(counted.take(0) =~= Seq::<int>::empty());
    while i < n
        invariant
            i <= n == counted.len() <= ratios@.len(),
            floors.len() == n,
            minimums matches Some(m) ==> n <= m@.len(),
            given == given_minimums(minimums),
            counted == counted_ratios(ratios@, given),
            floors == counted_minimums(ratios@, given),
            effective@.len() == i,
            lowest@.len() == i,
            unbounded(effective@) == counted.take(i as int),
            unbounded(lowest@) == floors.take(i as int),
            total_ratio == sum(counted.take(i as int)),
            forall|k: int| 0 <= k <= ratios@.len() ==> is_i32(#[trigger] sum(counted.take(k))),
        decreases n - i,
    {
        let (ratio, minimum) = match minimums {
            Some(m) => (
                if m[i] > 0 {
                    ratios[i]
                } else {
                    0
                },
                m[i],
            ),
            None => (ratios[i], 0),
        };
        proof {
            assert(counted.take(i + 1).drop_last() =~= counted.take(i as int));
            assert(counted.take(i + 1).last() == ratio);
            assert(floors[i as int] == minimum);
            assert(is_i32(sum(counted.take(i + 1))));
        }
        let ghost effective_before = effective@;
        let ghost lowest_before = lowest@;
        effective.push(ratio);
        lowest.push(minimum);
        total_ratio = total_ratio + ratio;
        proof {
            assert forall|j: int| 0 <= j < i + 1 implies unbounded(effective@)[j] == counted.take(
                i + 1,
            )[j] by {
                if j < i {
                    assert(unbounded(effective_before)[j] == counted.take(i as int)[j]);
                }
            }
            assert(unbounded(effective@) =~= counted.take(i + 1));
            assert forall|j: int| 0 <= j < i + 1 implies unbounded(lowest@)[j] == floors.take(
                i + 1,
            )[j] by {
                if j < i {
                    assert(unbounded(lowest_before)[j] == floors.take(i as int)[j]);
                }
            }
            assert(unbounded(lowest@) =~= floors.take(i + 1));
        }
        i = i + 1;
    }
    proof {
        assert(counted.take(n as int) =~= counted);
        assert(floors.take(n as int) =~= floors);
    }
    let mut total_remaining: i32 = total;
    let mut distributed_total: Vec<i32> = Vec::new();
    let mut k: usize = 0;
    let ghost want = shares(total as int, total_ratio as int, counted, floors);
    proof {
        assert(counted.skip(0) =~= counted);
        assert(floors.skip(0) =~= floors);
        assert(unbounded(distributed_total@) + want =~= want);
    }
    while k < n
        invariant
            k <= n == counted.len() == floors.len(),
            effective@.len() == n,
            lowest@.len() == n,
            unbounded(effective@) == counted,
            unbounded(lowest@) == floors,
            want == unbounded(distributed_total@) + shares(
                total_remaining as int,
                total_ratio as int,
                counted.skip(k as int),
                floors.skip(k as int),
            ),
            shares_fit(
                total_remaining as int,
                total_ratio as int,
                counted.skip(k as int),
                floors.skip(k as int),
            ),
        decreases n - k,
    {
        let ratio = effective[k];
        let minimum = lowest[k];
        let ghost rest_ratios = counted.skip(k as int);
        let ghost rest_floors = floors.skip(k as int);
        proof {
            assert(rest_ratios[0] == ratio) by {
                assert(unbounded(effective@)[k as int] == ratio);
            }
            assert(rest_floors[0] == minimum) by {
                assert(unbounded(lowest@)[k as int] == minimum);
            }
            assert(rest_ratios.drop_first() =~= counted.skip(k + 1));
            assert(rest_floors.drop_first() =~= floors.skip(k + 1));
        }
        let share_now: i64 = if total_ratio > 0 {
            assert(-0x4000_0000_0000_0000 <= ratio as int * total_remaining as int
                <= 0x4000_0000_0000_0000) by (nonlinear_arith)
                requires
                    -0x8000_0000 <= ratio as int <= 0x7fff_ffff,
                    -0x8000_0000 <= total_remaining as int <= 0x7fff_ffff,
            ;
            let product: i64 = ratio as i64 * total_remaining as i64;
            let part = ceiling(product, total_ratio as i64);
            if minimum as i64 >= part {
                minimum as i64
            } else {
                part
            }
        } else {
            total_remaining as i64
        };
        assert(share_now == share(total_remaining as int, total_ratio as int, ratio as int, minimum as int));
        let ghost earlier = distributed_total@;
        distributed_total.push(share_now as i32);
        proof {
            assert(unbounded(distributed_total@) + shares(
                total_remaining - share_now,
                total_ratio - ratio,
                counted.skip(k + 1),
                floors.skip(k + 1),
            ) =~= unbounded(earlier) + (seq![share_now as int] + shares(
                total_remaining - share_now,
                total_ratio - ratio,
                counted.skip(k + 1),
                floors.skip(k + 1),
            )));
        }
        total_ratio = total_ratio - ratio;
        total_remaining = (total_remaining as i64 - share_now) as i32;
        k = k + 1;
    }
    proof {
        assert(counted.skip(n as int) =~= Seq::<int>::empty());
        assert(unbounded(distributed_total@) + Seq::<int>::empty() =~= unbounded(
            distributed_total@,
        ));
    }
    distributed_total
}

/// `a` divided by `b`, rounded to the nearest whole number, halves away
/// from zero, for a divisor above zero.
pub open spec fn round_div(a: int, b: int) -> int
    recommends
        b > 0,
{
    if a >= 0 {
        (2 * a + b) / (2 * b)
    } else {
        -((2 * (-a) + b) / (2 * b))
    }
}

/// The ratios that count when values are reduced: one for each pair of a
/// ratio and a maximum, the ratio where the maximum is above zero and zero
/// otherwise.
pub open spec fn capped_ratios(ratios: Seq<i32>, maximums: Seq<i32>) -> Seq<int> {
    counted_ratios(ratios, Some(maximums))
}

/// What is taken off a value: its part of what is left by what is left of
/// the ratios, rounded, but no more than its maximum.
pub open spec fn cut(total: int, total_ratio: int, ratio: int, maximum: int) -> int {
    let part = round_div(ratio * total, total_ratio);
    if maximum <= part {
        maximum
    } else {
        part
    }
}

/// The values that are left once each ratio above zero has taken its cut;
/// a value whose ratio is not above zero is left out.
pub open spec fn reduced(
    total: int,
    total_ratio: int,
    ratios: Seq<int>,
    maximums: Seq<int>,
    values: Seq<int>,
) -> Seq<int>
    decreases ratios.len(),
{
    if ratios.len() == 0 || maximums.len() == 0 || values.len() == 0 {
        Seq::empty()
    } else if ratios[0] > 0 && total_ratio > 0 {
        let taken = cut(total, total_ratio, ratios[0], maximums[0]);
        seq![values[0] - taken] + reduced(
            total - taken,
            total_ratio - ratios[0],
            ratios.drop_first(),
            maximums.drop_first(),
            values.drop_first(),
        )
    } else {
        reduced(total, total_ratio, ratios.drop_first(), maximums.drop_first(), values.drop_first())
    }
}

/// Whether every number on the way to the reduced values is an `i32`.
pub open spec fn reduced_fit(
    total: int,
    total_ratio: int,
    ratios: Seq<int>,
    maximums: Seq<int>,
    values: Seq<int>,
) -> bool
    decreases ratios.len(),
{
    if ratios.len() == 0 || maximums.len() == 0 || values.len() == 0 {
        true
    } else if ratios[0] > 0 && total_ratio > 0 {
        let taken = cut(total, total_ratio, ratios[0], maximums[0]);
        is_i32(values[0] - taken) && is_i32(total - taken) && is_i32(total_ratio - ratios[0])
            && reduced_fit(
            total - taken,
            total_ratio - ratios[0],
            ratios.drop_first(),
            maximums.drop_first(),
            values.drop_first(),
        )
    } else {
        reduced_fit(
            total,
            total_ratio,
            ratios.drop_first(),
            maximums.drop_first(),
            values.drop_first(),
        )
    }
}

/// The values after `total` was taken off them by `ratios`, none by more
/// than its maximum; the values as they are where the ratios that count do
/// not add up to more than zero.
pub open spec fn reduction(total: int, ratios: Seq<i32>, maximums: Seq<i32>, values: Seq<i32>) -> Seq<
    int,
> {
    if sum(capped_ratios(ratios, maximums)) <= 0 {
        unbounded(values)
    } else {
        reduced(
            total,
            sum(capped_ratios(ratios, maximums)),
            capped_ratios(ratios, maximums),
            unbounded(maximums),
            unbounded(values),
        )
    }
}

/// Whether every number on the way to the reduction is an `i32`.
pub open spec fn reduction_fits(total: int, ratios: Seq<i32>, maximums: Seq<i32>, values: Seq<i32>) -> bool {
    &&& forall|n: int|
        0 <= n <= ratios.len() ==> is_i32(#[trigger] sum(capped_ratios(ratios, maximums).take(n)))
    &&& reduced_fit(
        total,
        sum(capped_ratios(ratios, maximums)),
        capped_ratios(ratios, maximums),
        unbounded(maximums),
        unbounded(values),
    )
}

/// `a` divided by `b`, rounded to the nearest whole number.
fn rounded(a: i128, b: i128) -> (q: i128)
    requires
        0 < b <= i32::MAX,
        -0x4000_0000_0000_0000 <= a <= 0x4000_0000_0000_0000,
    ensures
        q == round_div(a as int, b as int),
{
    if a >= 0 {
        (2 * a + b) / (2 * b)
    } else {
        -((2 * (-a) + b) / (2 * b))
    }
}

/// Takes `total` off `values` by `ratios`: each ratio above zero in turn
/// takes its part of what is left, rounded, but no more than its maximum,
/// off its value. A ratio counts only where its maximum is above zero, and
/// a value whose ratio does not count is left out. Where no ratio counts
/// the values come back as they are.
pub fn ratio_reduce(total: i32, ratios: &[i32], maximums: &[i32], values: &[i32]) -> (result: Vec<i32>)
    requires
        reduction_fits(total as int, ratios@, maximums@, values@),
    ensures
        unbounded(result@) == reduction(total as int, ratios@, maximums@, values@),
{
    let ghost counted = capped_ratios(ratios@, maximums@);
    let n = if ratios.len() <= maximums.len() {
        ratios.len()
    } else {
        maximums.len()
    };
    let mut effective: Vec<i32> = Vec::new();
    let mut total_ratio: i32 = 0;
    let mut i: usize = 0;
    assert(counted.take(0) =~= Seq::<int>::empty());
    while i < n
        invariant
            i <= n == counted.len() <= ratios@.len(),
            n <= maximums@.len(),
            counted == capped_ratios(ratios@, maximums@),
            effective@.len() == i,
            unbounded(effective@) == counted.take(i as int),
            total_ratio == sum(counted.take(i as int)),
            forall|k: int| 0 <= k <= ratios@.len() ==> is_i32(#[trigger] sum(counted.take(k))),
        decreases n - i,
    {
        let ratio = if maximums[i] > 0 {
            ratios[i]
        } else {
            0
        };
        proof {
            assert(counted.take(i + 1).drop_last() =~= counted.take(i as int));
            assert(counted.take(i + 1).last() == ratio);
            assert(is_i32(sum(counted.take(i + 1))));
        }
        let ghost effective_before = effective@;
        effective.push(ratio);
        total_ratio = total_ratio + ratio;
        proof {
            assert forall|j: int| 0 <= j < i + 1 implies unbounded(effective@)[j] == counted.take(
                i + 1,
            )[j] by {
                if j < i {
                    assert(unbounded(effective_before)[j] == counted.take(i as int)[j]);
                }
            }
            assert(unbounded(effective@) =~= counted.take(i + 1));
        }
        i = i + 1;
    }
    assert(counted.take(n as int) =~= counted);
    if total_ratio <= 0 {
        let mut same: Vec<i32> = Vec::new();
        let mut j: usize = 0;
        while j < values.len()
            invariant
                j <= values@.len(),
                same@ == values@.take(j as int),
            decreases values@.len() - j,
        {
            same.push(values[j]);
            assert(same@ =~= values@.take(j + 1));
            j = j + 1;
        }
        assert(values@.take(values@.len() as int) =~= values@);
        return same;
    }
    let m = if n <= values.len() {
        n
    } else {
        values.len()
    };
    let ghost caps = unbounded(maximums@);
    let ghost all = unbounded(values@);
    let ghost want = reduced(total as int, total_ratio as int, counted, caps, all);
    let mut total_remaining: i32 = total;
    let mut result: Vec<i32> = Vec::new();
    let mut k: usize = 0;
    proof {
        assert(counted.skip(0) =~= counted);
        assert(caps.skip(0) =~= caps);
        assert(all.skip(0) =~= all);
        assert(unbounded(result@) + want =~= want);
    }
    while k < m
        invariant
            k <= m <= n == counted.len(),
            m <= values@.len(),
            n <= maximums@.len(),
            (m == n || m == values@.len()),
            effective@.len() == n,
            unbounded(effective@) == counted,
            caps == unbounded(maximums@),
            all == unbounded(values@),
            want == unbounded(result@) + reduced(
                total_remaining as int,
                total_ratio as int,
                counted.skip(k as int),
                caps.skip(k as int),
                all.skip(k as int),
            ),
            reduced_fit(
                total_remaining as int,
                total_ratio as int,
                counted.skip(k as int),
                caps.skip(k as int),
                all.skip(k as int),
            ),
        decreases m - k,
    {
        let ratio = effective[k];
        let maximum = maximums[k];
        let value = values[k];
        proof {
            assert(counted.skip(k as int)[0] == ratio) by {
                assert(unbounded(effective@)[k as int] == ratio);
            }
            assert(caps.skip(k as int)[0] == maximum);
            assert(all.skip(k as int)[0] == value);
            assert(counted.skip(k as int).drop_first() =~= counted.skip(k + 1));
            assert(caps.skip(k as int).drop_first() =~= caps.skip(k + 1));
            assert(all.skip(k as int).drop_first() =~= all.skip(k + 1));
        }
        if ratio > 0 && total_ratio > 0 {
            assert(-0x4000_0000_0000_0000 <= ratio as int * total_remaining as int
                <= 0x4000_0000_0000_0000) by (nonlinear_arith)
                requires
                    0 < ratio as int <= 0x7fff_ffff,
                    -0x8000_0000 <= total_remaining as int <= 0x7fff_ffff,
            ;
            let product: i128 = ratio as i128 * total_remaining as i128;
            let part = rounded(product, total_ratio as i128);
            let taken: i128 = if maximum as i128 <= part {
                maximum as i128
            } else {
                part
            };
            assert(taken == cut(total_remaining as int, total_ratio as int, ratio as int, maximum as int));
            let ghost earlier = result@;
            result.push((value as i128 - taken) as i32);
            proof {
                let rest = reduced(
                    total_remaining - taken,
                    total_ratio - ratio,
                    counted.skip(k + 1),
                    caps.skip(k + 1),
                    all.skip(k + 1),
                );
                assert(unbounded(result@) + rest =~= unbounded(earlier) + (seq![value - taken] + rest));
            }
            total_remaining = (total_remaining as i128 - taken) as i32;
            total_ratio = total_ratio - ratio;
        }
        k = k + 1;
    }
    proof {
        if m == n {
            assert(counted.skip(m as int) =~= Seq::<int>::empty());
        } else {
            assert(all.skip(m as int) =~= Seq::<int>::empty());
        }
        assert(unbounded(result@) + Seq::<int>::empty() =~= unbounded(result@));
    }
    result
}

} // verus!
