use core::cmp::Ordering;
use vstd::prelude::*;
use vstd::std_specs::cmp::PartialOrdSpec;

use crate::shape::{
    all_falling_or_flat, all_rising_or_flat, has_order, pair_orders, shape_of, shape_of_orders,
    traversed, Monotonic,
};

verus! {

/// Where a scan over the adjacent pairs stands.
enum Scan {
    /// Every pair seen so far was equal (or none was seen).
    Flat,
    /// A trend was found; it is the shape of the pairs seen so far.
    Settled(Monotonic),
}

/// What `scan` says of the outcomes `obs` of the pairs seen so far.
spec fn scan_matches(scan: Scan, obs: Seq<Option<Ordering>>) -> bool {
    match scan {
        Scan::Flat => forall|j: int| 0 <= j < obs.len() ==> #[trigger] obs[j] == Some(Ordering::Equal),
        Scan::Settled(m) => m == shape_of_orders(obs) && m != Monotonic::NotMonotonic,
    }
}

/// A prefix that holds steps in both directions rules out every trend.
proof fn lemma_turn_in_prefix(os: Seq<Option<Ordering>>, k: int)
    requires
        0 <= k <= os.len(),
        !all_rising_or_flat(os.take(k)),
        !all_falling_or_flat(os.take(k)),
    ensures
        shape_of_orders(os) == Monotonic::NotMonotonic,
{
    let p = os.take(k);
    let i = choose|i: int| 0 <= i < p.len() && !(p[i] == Some(Ordering::Less) || p[i] == Some(Ordering::Equal));
    let j = choose|j: int| 0 <= j < p.len() && !(p[j] == Some(Ordering::Greater) || p[j] == Some(Ordering::Equal));
    assert(os[i] == p[i]);
    assert(os[j] == p[j]);
}

/// Classifies `s` read front to back, or back to front when `reversed`.
fn classify<T: PartialOrd>(s: &[T], reversed: bool) -> (r: Monotonic)
    ensures
        T::obeys_partial_cmp_spec() ==> r == shape_of(traversed(s@, reversed)),
{
    let n = s.len();
    let ghost t = traversed(s@, reversed);
    if n <= 1 {
        proof {
            assert(pair_orders(t).len() == 0);
        }
        return Monotonic::NotMonotonic;
    }
    let ghost all = pair_orders(t);
    let mut scan = Scan::Flat;
    let ghost mut obs: Seq<Option<Ordering>> = Seq::empty();
    let mut i: usize = 0;
    while i + 1 < n
        invariant
            n == s@.len(),
            n >= 2,
            i + 1 <= n,
            t == traversed(s@, reversed),
            all == pair_orders(t),
            all.len() == n - 1,
            obs.len() == i,
            T::obeys_partial_cmp_spec() ==> obs == all.take(i as int),
            scan_matches(scan, obs),
        decreases n - i,
    {
        let (a, b) = if reversed {
            (&s[n - 1 - i], &s[n - 2 - i])
        } else {
            (&s[i], &s[i + 1])
        };
        proof {
            assert(*a == t[i as int]);
            assert(*b == t[i + 1]);
        }
        let o = a.partial_cmp(b);
        let ghost prev = obs;
        proof {
            obs = obs.push(o);
            assert(obs[i as int] == o);
            assert forall|j: int| 0 <= j < i implies obs[j] == prev[j] by {}
            if T::obeys_partial_cmp_spec() {
                assert(obs =~= all.take(i + 1));
            }
        }
        match scan {
            Scan::Flat => {
                let strict = i == 0;
                match o {
                    Some(Ordering::Less) => {
                        scan = Scan::Settled(Monotonic::Rising { strict });
                        proof {
                            assert(has_order(obs, Ordering::Less));
                            if !strict {
                                assert(obs[0] == Some(Ordering::Equal));
                            }
                        }
                    },
                    Some(Ordering::Equal) => {},
                    _ => {
                        if o.is_none() {
                            proof {
                                assert(!all_rising_or_flat(obs));
                                assert(!all_falling_or_flat(obs));
                                if T::obeys_partial_cmp_spec() {
                                    lemma_turn_in_prefix(all, i + 1);
                                }
                            }
                            return Monotonic::NotMonotonic;
                        }
                        scan = Scan::Settled(Monotonic::Falling { strict });
                        proof {
                            assert(has_order(obs, Ordering::Greater));
                            assert(!has_order(obs, Ordering::Less));
                            if !strict {
                                assert(obs[0] == Some(Ordering::Equal));
                            }
                        }
                    },
                }
            },
            Scan::Settled(Monotonic::Rising { strict }) => {
                match o {
                    Some(Ordering::Less) => {},
                    Some(Ordering::Equal) => {
                        scan = Scan::Settled(Monotonic::Rising { strict: false });
                    },
                    _ => {
                        proof {
                            assert(!all_rising_or_flat(obs));
                            let w = choose|w: int| 0 <= w < prev.len() && prev[w] == Some(Ordering::Less);
                            assert(obs[w] == Some(Ordering::Less));
                            assert(!all_falling_or_flat(obs));
                            if T::obeys_partial_cmp_spec() {
                                lemma_turn_in_prefix(all, i + 1);
                            }
                        }
                        return Monotonic::NotMonotonic;
                    },
                }
            },
            Scan::Settled(Monotonic::Falling { strict }) => {
                match o {
                    Some(Ordering::Greater) => {},
                    Some(Ordering::Equal) => {
                        scan = Scan::Settled(Monotonic::Falling { strict: false });
                    },
                    _ => {
                        proof {
                            assert(!all_falling_or_flat(obs));
                            let w = choose|w: int| 0 <= w < prev.len() && prev[w] == Some(Ordering::Greater);
                            assert(obs[w] == Some(Ordering::Greater));
                            assert(!all_rising_or_flat(obs));
                            if T::obeys_partial_cmp_spec() {
                                lemma_turn_in_prefix(all, i + 1);
                            }
                        }
                        return Monotonic::NotMonotonic;
                    },
                }
            },
            // A settled scan never holds `NotMonotonic`.
            Scan::Settled(Monotonic::NotMonotonic) => {},
        }
        i = i + 1;
    }
    proof {
        if T::obeys_partial_cmp_spec() {
            assert(obs =~= all);
        }
    }
    match scan {
        Scan::Flat => Monotonic::NotMonotonic,
        Scan::Settled(m) => m,
    }
}

/// Classifies the trend of `s`, read front to back.
pub fn monotonic_of<T: PartialOrd>(s: &[T]) -> (r: Monotonic)
    ensures
        T::obeys_partial_cmp_spec() ==> r == shape_of(s@),
{
    classify(s, false)
}

/// Classifies the trend of `s`, read back to front.
pub fn monotonic_of_reversed<T: PartialOrd>(s: &[T]) -> (r: Monotonic)
    ensures
        T::obeys_partial_cmp_spec() ==> r == shape_of(traversed(s@, true)),
{
    classify(s, true)
}

} // verus!

verus! {

/// Sequences whose monotonic trend can be classified.
pub trait VectorExtensions {
    /// The shape of the sequence, in its order of traversal.
    spec fn shape(&self) -> Monotonic;

    /// Whether the element type's comparison agrees with its specification.
    spec fn ordered(&self) -> bool;

    /// Classifies the monotonic trend of the sequence.
    fn monotonic_prop(&self) -> (r: Monotonic)
        ensures
            self.ordered() ==> r == self.shape(),
    ;
}

impl<T: PartialOrd> VectorExtensions for [T] {
    open spec fn shape(&self) -> Monotonic {
        shape_of(self@)
    }

    open spec fn ordered(&self) -> bool {
        T::obeys_partial_cmp_spec()
    }

    fn monotonic_prop(&self) -> (r: Monotonic) {
        monotonic_of(self)
    }
}

impl<T: PartialOrd> VectorExtensions for Vec<T> {
    open spec fn shape(&self) -> Monotonic {
        shape_of(self@)
    }

    open spec fn ordered(&self) -> bool {
        T::obeys_partial_cmp_spec()
    }

    fn monotonic_prop(&self) -> (r: Monotonic) {
        monotonic_of(self.as_slice())
    }
}

} // verus!
