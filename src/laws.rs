use core::cmp::Ordering;
use vstd::prelude::*;
use vstd::std_specs::cmp::PartialOrdSpec;

use crate::shape::{
    all_falling_or_flat, all_rising_or_flat, flip, has_order, mirror, pair_orders, shape_of,
    shape_of_orders, traversed, Monotonic,
};

verus! {

/// Each outcome of `pair_orders` compares an element with the next one.
proof fn lemma_pair_orders<T: PartialOrd>(s: Seq<T>)
    ensures
        pair_orders(s).len() == if s.len() < 2 { 0 } else { s.len() - 1 },
        forall|i: int|
            0 <= i < s.len() - 1 ==> #[trigger] pair_orders(s)[i] == s[i].partial_cmp_spec(&s[i + 1]),
{
}

/// A sequence of fewer than two elements has no trend.
pub proof fn lemma_short_not_monotonic<T: PartialOrd>(s: Seq<T>)
    requires
        s.len() <= 1,
    ensures
        shape_of(s) == Monotonic::NotMonotonic,
{
}

/// A sequence of two or more elements in which every element equals the next
/// one has no trend.
pub proof fn lemma_flat_not_monotonic<T: PartialOrd>(s: Seq<T>)
    requires
        s.len() >= 2,
        forall|i: int|
            0 <= i < s.len() - 1 ==> #[trigger] s[i].partial_cmp_spec(&s[i + 1]) == Some(
                Ordering::Equal,
            ),
    ensures
        shape_of(s) == Monotonic::NotMonotonic,
{
    lemma_pair_orders(s);
    let os = pair_orders(s);
    assert(!has_order(os, Ordering::Less));
    assert(!has_order(os, Ordering::Greater));
}

/// A sequence of two or more elements in which every element is less than the
/// next one is strictly rising.
pub proof fn lemma_strictly_increasing<T: PartialOrd>(s: Seq<T>)
    requires
        s.len() >= 2,
        forall|i: int|
            0 <= i < s.len() - 1 ==> #[trigger] s[i].partial_cmp_spec(&s[i + 1]) == Some(
                Ordering::Less,
            ),
    ensures
        shape_of(s) == (Monotonic::Rising { strict: true }),
{
    lemma_pair_orders(s);
    let os = pair_orders(s);
    assert(os[0] == Some(Ordering::Less));
    assert(!has_order(os, Ordering::Equal));
}

/// A sequence that never falls, rises at least once and has at least one pair
/// of equal neighbours is rising, not strictly.
pub proof fn lemma_increasing_with_plateau<T: PartialOrd>(s: Seq<T>, up: int, flat: int)
    requires
        0 <= up < s.len() - 1,
        0 <= flat < s.len() - 1,
        s[up].partial_cmp_spec(&s[up + 1]) == Some(Ordering::Less),
        s[flat].partial_cmp_spec(&s[flat + 1]) == Some(Ordering::Equal),
        forall|i: int|
            0 <= i < s.len() - 1 ==> (#[trigger] s[i].partial_cmp_spec(&s[i + 1]) == Some(
                Ordering::Less,
            ) || s[i].partial_cmp_spec(&s[i + 1]) == Some(Ordering::Equal)),
    ensures
        shape_of(s) == (Monotonic::Rising { strict: false }),
{
    lemma_pair_orders(s);
    let os = pair_orders(s);
    assert(os[up] == Some(Ordering::Less));
    assert(os[flat] == Some(Ordering::Equal));
}

/// A sequence of two or more elements in which every element is greater than
/// the next one is strictly falling.
pub proof fn lemma_strictly_decreasing<T: PartialOrd>(s: Seq<T>)
    requires
        s.len() >= 2,
        forall|i: int|
            0 <= i < s.len() - 1 ==> #[trigger] s[i].partial_cmp_spec(&s[i + 1]) == Some(
                Ordering::Greater,
            ),
    ensures
        shape_of(s) == (Monotonic::Falling { strict: true }),
{
    lemma_pair_orders(s);
    let os = pair_orders(s);
    assert(os[0] == Some(Ordering::Greater));
    assert(!has_order(os, Ordering::Equal));
    assert(!has_order(os, Ordering::Less));
}

/// A sequence that never rises, falls at least once and has at least one pair
/// of equal neighbours is falling, not strictly.
pub proof fn lemma_decreasing_with_plateau<T: PartialOrd>(s: Seq<T>, down: int, flat: int)
    requires
        0 <= down < s.len() - 1,
        0 <= flat < s.len() - 1,
        s[down].partial_cmp_spec(&s[down + 1]) == Some(Ordering::Greater),
        s[flat].partial_cmp_spec(&s[flat + 1]) == Some(Ordering::Equal),
        forall|i: int|
            0 <= i < s.len() - 1 ==> (#[trigger] s[i].partial_cmp_spec(&s[i + 1]) == Some(
                Ordering::Greater,
            ) || s[i].partial_cmp_spec(&s[i + 1]) == Some(Ordering::Equal)),
    ensures
        shape_of(s) == (Monotonic::Falling { strict: false }),
{
    lemma_pair_orders(s);
    let os = pair_orders(s);
    assert(os[down] == Some(Ordering::Greater));
    assert(os[flat] == Some(Ordering::Equal));
    assert(!has_order(os, Ordering::Less));
}

/// A sequence that rises between one pair of neighbours and falls between
/// another, in either order, has no trend.
pub proof fn lemma_turning_not_monotonic<T: PartialOrd>(s: Seq<T>, up: int, down: int)
    requires
        0 <= up < s.len() - 1,
        0 <= down < s.len() - 1,
        s[up].partial_cmp_spec(&s[up + 1]) == Some(Ordering::Less),
        s[down].partial_cmp_spec(&s[down + 1]) == Some(Ordering::Greater),
    ensures
        shape_of(s) == Monotonic::NotMonotonic,
{
    lemma_pair_orders(s);
    let os = pair_orders(s);
    assert(os[up] == Some(Ordering::Less));
    assert(os[down] == Some(Ordering::Greater));
}

/// Outcomes read back to front, each with its operands swapped, describe the
/// mirrored shape.
proof fn lemma_mirrored_orders(os: Seq<Option<Ordering>>, ros: Seq<Option<Ordering>>)
    requires
        ros.len() == os.len(),
        forall|j: int| 0 <= j < os.len() ==> #[trigger] ros[j] == flip(os[os.len() - 1 - j]),
    ensures
        shape_of_orders(ros) == mirror(shape_of_orders(os)),
{
    let m = os.len();
    assert forall|k: int| 0 <= k < m implies #[trigger] os[k] == flip(ros[m - 1 - k]) by {
        assert(ros[m - 1 - k] == flip(os[k]));
    }
    assert(all_rising_or_flat(ros) == all_falling_or_flat(os)) by {
        if all_falling_or_flat(os) {
            assert forall|j: int| 0 <= j < m implies (#[trigger] ros[j] == Some(Ordering::Less)
                || ros[j] == Some(Ordering::Equal)) by {
                assert(ros[j] == flip(os[m - 1 - j]));
            }
        }
        if all_rising_or_flat(ros) {
            assert forall|k: int| 0 <= k < m implies (#[trigger] os[k] == Some(Ordering::Greater)
                || os[k] == Some(Ordering::Equal)) by {
                assert(os[k] == flip(ros[m - 1 - k]));
            }
        }
    }
    assert(all_falling_or_flat(ros) == all_rising_or_flat(os)) by {
        if all_rising_or_flat(os) {
            assert forall|j: int| 0 <= j < m implies (#[trigger] ros[j] == Some(Ordering::Greater)
                || ros[j] == Some(Ordering::Equal)) by {
                assert(ros[j] == flip(os[m - 1 - j]));
            }
        }
        if all_falling_or_flat(ros) {
            assert forall|k: int| 0 <= k < m implies (#[trigger] os[k] == Some(Ordering::Less)
                || os[k] == Some(Ordering::Equal)) by {
                assert(os[k] == flip(ros[m - 1 - k]));
            }
        }
    }
    assert(has_order(ros, Ordering::Less) == has_order(os, Ordering::Greater)) by {
        if has_order(os, Ordering::Greater) {
            let k = choose|k: int| 0 <= k < m && os[k] == Some(Ordering::Greater);
            assert(ros[m - 1 - k] == flip(os[k]));
        }
        if has_order(ros, Ordering::Less) {
            let j = choose|j: int| 0 <= j < m && ros[j] == Some(Ordering::Less);
            assert(os[m - 1 - j] == flip(ros[j]));
        }
    }
    assert(has_order(ros, Ordering::Greater) == has_order(os, Ordering::Less)) by {
        if has_order(os, Ordering::Less) {
            let k = choose|k: int| 0 <= k < m && os[k] == Some(Ordering::Less);
            assert(ros[m - 1 - k] == flip(os[k]));
        }
        if has_order(ros, Ordering::Greater) {
            let j = choose|j: int| 0 <= j < m && ros[j] == Some(Ordering::Greater);
            assert(os[m - 1 - j] == flip(ros[j]));
        }
    }
    assert(has_order(ros, Ordering::Equal) == has_order(os, Ordering::Equal)) by {
        if has_order(os, Ordering::Equal) {
            let k = choose|k: int| 0 <= k < m && os[k] == Some(Ordering::Equal);
            assert(ros[m - 1 - k] == flip(os[k]));
        }
        if has_order(ros, Ordering::Equal) {
            let j = choose|j: int| 0 <= j < m && ros[j] == Some(Ordering::Equal);
            assert(os[m - 1 - j] == flip(ros[j]));
        }
    }
    if all_rising_or_flat(os) && has_order(os, Ordering::Less) {
        if has_order(os, Ordering::Greater) {
            let k = choose|k: int| 0 <= k < m && os[k] == Some(Ordering::Greater);
        }
    }
    if all_falling_or_flat(os) && has_order(os, Ordering::Greater) {
        if has_order(os, Ordering::Less) {
            let k = choose|k: int| 0 <= k < m && os[k] == Some(Ordering::Less);
        }
    }
}

/// Read back to front, a rising sequence falls and a falling one rises, with
/// the same strictness, and one without a trend still has none; this holds for
/// any order in which swapping the operands of a comparison swaps `Less` and
/// `Greater`, as `PartialOrd` requires.
pub proof fn lemma_reversal_symmetry<T: PartialOrd>(s: Seq<T>)
    requires
        forall|a: T, b: T| #[trigger] a.partial_cmp_spec(&b) == flip(b.partial_cmp_spec(&a)),
    ensures
        shape_of(traversed(s, true)) == mirror(shape_of(s)),
{
    let r = traversed(s, true);
    let n = s.len();
    lemma_pair_orders(s);
    lemma_pair_orders(r);
    let os = pair_orders(s);
    let ros = pair_orders(r);
    assert forall|j: int| 0 <= j < os.len() implies #[trigger] ros[j] == flip(os[os.len() - 1 - j]) by {
        assert(r[j] == s[n - 1 - j]);
        assert(r[j + 1] == s[n - 2 - j]);
        assert(os[n - 2 - j] == s[n - 2 - j].partial_cmp_spec(&s[n - 1 - j]));
    }
    lemma_mirrored_orders(os, ros);
}

} // verus!
