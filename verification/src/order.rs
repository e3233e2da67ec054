//! Ordering positions of a list by a strict total order, the way a stable
//! sort orders them.

use vstd::prelude::*;

verus! {

/// A strict total order on the positions `0..size()` of some list.
pub trait IndexOrder {
    spec fn size(&self) -> nat;

    spec fn precedes(&self, i: int, j: int) -> bool;

    proof fn lemma_order(&self, i: int, j: int, k: int)
        ensures
            !self.precedes(i, i),
            self.precedes(i, j) ==> !self.precedes(j, i),
            i != j ==> self.precedes(i, j) || self.precedes(j, i),
            self.precedes(i, j) && self.precedes(j, k) ==> self.precedes(i, k),
    ;

    fn index_precedes(&self, i: usize, j: usize) -> (r: bool)
        requires
            i < self.size(),
            j < self.size(),
        ensures
            r == self.precedes(i as int, j as int),
    ;
}

/// Every position in `s` is earlier in the order than every later one.
pub open spec fn ordered_by<O: IndexOrder>(order: &O, s: Seq<usize>) -> bool {
    forall|a: int, b: int|
        0 <= a < b < s.len() ==> order.precedes(#[trigger] s[a] as int, #[trigger] s[b] as int)
}

/// `input`'s positions, ordered by `order`.
pub fn sort_indices<O: IndexOrder>(order: &O, input: &Vec<usize>) -> (out: Vec<usize>)
    requires
        input@.no_duplicates(),
        forall|i: int| 0 <= i < input@.len() ==> (#[trigger] input@[i]) < order.size(),
    ensures
        out@.len() == input@.len(),
        out@.no_duplicates(),
        out@.to_set() == input@.to_set(),
        ordered_by(order, out@),
{
    let mut out: Vec<usize> = Vec::new();
    let mut i: usize = 0;
    while i < input.len()
        invariant
            i <= input@.len(),
            input@.no_duplicates(),
            forall|k: int| 0 <= k < input@.len() ==> (#[trigger] input@[k]) < order.size(),
            out@.len() == i,
            forall|m: int| 0 <= m < out@.len() ==> (#[trigger] out@[m]) < order.size(),
            out@.no_duplicates(),
            out@.to_set() == input@.take(i as int).to_set(),
            ordered_by(order, out@),
        decreases input@.len() - i,
    {
        let x = input[i];
        assert(!out@.contains(x)) by {
            if out@.contains(x) {
                assert(out@.to_set().contains(x));
                assert(input@.take(i as int).to_set().contains(x));
                let k = choose|k: int| 0 <= k < i && input@.take(i as int)[k] == x;
                assert(input@[k] == input@[i as int]);
            }
        }
        let mut k: usize = 0;
        while k < out.len() && order.index_precedes(out[k], x)
            invariant
                k <= out@.len(),
                x < order.size(),
                forall|m: int| 0 <= m < out@.len() ==> (#[trigger] out@[m]) < order.size(),
                forall|m: int| 0 <= m < k ==> order.precedes(#[trigger] out@[m] as int, x as int),
            decreases out@.len() - k,
        {
            assert(out@[k as int] < order.size());
            k = k + 1;
        }
        let ghost before = out@;
        proof {
            if k < before.len() {
                order.lemma_order(before[k as int] as int, x as int, x as int);
                assert(before[k as int] != x);
                assert(order.precedes(x as int, before[k as int] as int));
            }
        }
        out.insert(k, x);
        proof {
            assert(out@ == before.insert(k as int, x));
            assert forall|a: int, b: int| 0 <= a < b < out@.len() implies order.precedes(
                #[trigger] out@[a] as int,
                #[trigger] out@[b] as int,
            ) by {
                if a < k && b < k {
                    assert(out@[a] == before[a] && out@[b] == before[b]);
                } else if a < k && b == k {
                    assert(out@[a] == before[a]);
                } else if a < k && b > k {
                    assert(out@[a] == before[a] && out@[b] == before[b - 1]);
                    order.lemma_order(before[a] as int, x as int, before[k as int] as int);
                    if b - 1 > k {
                        order.lemma_order(x as int, before[k as int] as int, before[b - 1] as int);
                    }
                    order.lemma_order(before[a] as int, x as int, before[b - 1] as int);
                } else if a == k {
                    assert(out@[b] == before[b - 1]);
                    if b - 1 > k {
                        order.lemma_order(x as int, before[k as int] as int, before[b - 1] as int);
                    }
                } else {
                    assert(out@[a] == before[a - 1] && out@[b] == before[b - 1]);
                }
            }
            assert forall|a: int, b: int|
                0 <= a < out@.len() && 0 <= b < out@.len() && a != b implies out@[a]
                != out@[b] by {
                if a < k && b < k {
                } else if a == k || b == k {
                    if a != k {
                        assert(before.contains(out@[a]));
                    }
                    if b != k {
                        assert(before.contains(out@[b]));
                    }
                } else {
                    let aa = if a < k { a } else { a - 1 };
                    let bb = if b < k { b } else { b - 1 };
                    assert(out@[a] == before[aa] && out@[b] == before[bb]);
                }
            }
            assert(input@.take(i + 1) =~= input@.take(i as int).push(x));
            assert(out@.to_set() =~= before.to_set().insert(x)) by {
                assert forall|y: usize| out@.to_set().contains(y) implies before.to_set().insert(
                    x,
                ).contains(y) by {
                    let m = choose|m: int| 0 <= m < out@.len() && out@[m] == y;
                    if m < k {
                        assert(before[m] == y);
                    } else if m > k {
                        assert(before[m - 1] == y);
                    }
                }
                assert forall|y: usize| before.to_set().insert(x).contains(y) implies out@.to_set(
                ).contains(y) by {
                    if y == x {
                        assert(out@[k as int] == x);
                    } else {
                        let m = choose|m: int| 0 <= m < before.len() && before[m] == y;
                        if m < k {
                            assert(out@[m] == y);
                        } else {
                            assert(out@[m + 1] == y);
                        }
                    }
                }
            }
            input@.take(i as int).lemma_push_to_set_commute(x);
            assert forall|m: int| 0 <= m < out@.len() implies (#[trigger] out@[m]) < order.size() by {
                if m < k {
                    assert(out@[m] == before[m]);
                } else if m > k {
                    assert(out@[m] == before[m - 1]);
                }
            }
        }
        i = i + 1;
    }
    assert(input@.take(input@.len() as int) =~= input@);
    out
}

} // verus!
