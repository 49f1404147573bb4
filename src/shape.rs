use core::cmp::Ordering;
use vstd::prelude::*;
use vstd::std_specs::cmp::PartialOrdSpec;

verus! {

/// The monotonic shape of a sequence.
#[derive(Debug, Clone, Copy, PartialEq, Eq, Structural)]
pub enum Monotonic {
    /// Every adjacent pair satisfies `a <= b`; strict when every pair satisfies `a < b`.
    Rising { strict: bool },
    /// Every adjacent pair satisfies `a >= b`; strict when every pair satisfies `a > b`.
    Falling { strict: bool },
    /// Fewer than two elements, entirely flat, or changing direction.
    NotMonotonic,
}

/// The elements of `s` in the order of traversal: as stored, or back to front.
pub open spec fn traversed<T>(s: Seq<T>, reversed: bool) -> Seq<T> {
    if reversed {
        Seq::new(s.len(), |i: int| s[s.len() - 1 - i])
    } else {
        s
    }
}

/// The outcome of comparing each element with the next one.
pub open spec fn pair_orders<T: PartialOrd>(s: Seq<T>) -> Seq<Option<Ordering>> {
    if s.len() < 2 {
        Seq::empty()
    } else {
        Seq::new((s.len() - 1) as nat, |i: int| s[i].partial_cmp_spec(&s[i + 1]))
    }
}

/// Every outcome in `os` is `Less` or `Equal`.
pub open spec fn all_rising_or_flat(os: Seq<Option<Ordering>>) -> bool {
    forall|i: int| 0 <= i < os.len() ==> (#[trigger] os[i] == Some(Ordering::Less) || os[i] == Some(
        Ordering::Equal,
    ))
}

/// Every outcome in `os` is `Greater` or `Equal`.
pub open spec fn all_falling_or_flat(os: Seq<Option<Ordering>>) -> bool {
    forall|i: int| 0 <= i < os.len() ==> (#[trigger] os[i] == Some(Ordering::Greater) || os[i] == Some(
        Ordering::Equal,
    ))
}

/// Some outcome in `os` is `Some(o)`.
pub open spec fn has_order(os: Seq<Option<Ordering>>, o: Ordering) -> bool {
    exists|i: int| 0 <= i < os.len() && #[trigger] os[i] == Some(o)
}

/// The shape described by the outcomes of the adjacent comparisons: a trend
/// needs at least one step that is not flat and no step against it, and is
/// strict when no step is flat.
pub open spec fn shape_of_orders(os: Seq<Option<Ordering>>) -> Monotonic {
    if all_rising_or_flat(os) && has_order(os, Ordering::Less) {
        Monotonic::Rising { strict: !has_order(os, Ordering::Equal) }
    } else if all_falling_or_flat(os) && has_order(os, Ordering::Greater) {
        Monotonic::Falling { strict: !has_order(os, Ordering::Equal) }
    } else {
        Monotonic::NotMonotonic
    }
}

/// The shape of a sequence.
pub open spec fn shape_of<T: PartialOrd>(s: Seq<T>) -> Monotonic {
    shape_of_orders(pair_orders(s))
}

/// The outcome of a comparison with its operands swapped.
pub open spec fn flip(o: Option<Ordering>) -> Option<Ordering> {
    match o {
        Some(Ordering::Less) => Some(Ordering::Greater),
        Some(Ordering::Greater) => Some(Ordering::Less),
        _ => o,
    }
}

/// The shape of the same sequence read back to front.
pub open spec fn mirror(m: Monotonic) -> Monotonic {
    match m {
        Monotonic::Rising { strict } => Monotonic::Falling { strict },
        Monotonic::Falling { strict } => Monotonic::Rising { strict },
        Monotonic::NotMonotonic => Monotonic::NotMonotonic,
    }
}

} // verus!
