//! A stable insertion sort by an integer key, shared by the dashboards: the
//! sorted order is pinned by a spec-level insertion fold, so equal keys keep
//! their relative order.

use vstd::prelude::*;

verus! {

/// A value the dashboards sort by an integer key.
pub trait Keyed: Sized {
    /// The sort key.
    spec fn spec_key(&self) -> int;

    /// The sort key, as `spec_key` defines it.
    fn key(&self) -> (r: i64)
        ensures
            r as int == self.spec_key(),
    ;
}

/// A sorted sequence with `e` inserted after every element of equal or
/// smaller key: the insertion step of a stable sort.
pub open spec fn spec_insert_by_key<T: Keyed>(s: Seq<T>, e: T) -> Seq<T>
    decreases s.len(),
{
    if s.len() == 0 {
        seq![e]
    } else if s.last().spec_key() <= e.spec_key() {
        s.push(e)
    } else {
        spec_insert_by_key(s.drop_last(), e).push(s.last())
    }
}

/// The stable sort of a sequence by key: elements with equal keys keep
/// their relative order.
pub open spec fn spec_sort_by_key<T: Keyed>(s: Seq<T>) -> Seq<T>
    decreases s.len(),
{
    if s.len() == 0 {
        Seq::empty()
    } else {
        spec_insert_by_key(spec_sort_by_key(s.drop_last()), s.last())
    }
}

/// Sorted by key, non-decreasing.
pub open spec fn spec_sorted_by_key<T: Keyed>(s: Seq<T>) -> bool {
    forall|i: int, j: int| 0 <= i <= j < s.len() ==> s[i].spec_key() <= s[j].spec_key()
}

/// Inserting at the position the scan finds is what [`spec_insert_by_key`]
/// computes.
proof fn lemma_insert_by_key_at<T: Keyed>(s: Seq<T>, e: T, p: int)
    requires
        spec_sorted_by_key(s),
        0 <= p <= s.len(),
        forall|i: int| 0 <= i < p ==> (#[trigger] s[i]).spec_key() <= e.spec_key(),
        forall|i: int| p <= i < s.len() ==> (#[trigger] s[i]).spec_key() > e.spec_key(),
    ensures
        spec_insert_by_key(s, e) =~= s.subrange(0, p) + seq![e] + s.subrange(p, s.len() as int),
    decreases s.len(),
{
    if s.len() == 0 {
    } else if s.last().spec_key() <= e.spec_key() {
        assert(p == s.len());
    } else {
        lemma_insert_by_key_at(s.drop_last(), e, p);
    }
}

/// Sorts by key with a stable insertion sort, as [`spec_sort_by_key`]
/// defines it.
pub fn sort_by_key_stable<T: Keyed>(mut v: Vec<T>) -> (r: Vec<T>)
    ensures
        r@ == spec_sort_by_key(v@),
        spec_sorted_by_key(r@),
{
    let ghost input = v@;
    let mut out: Vec<T> = Vec::new();
    let ghost mut taken: int = 0;
    proof {
        assert(input.subrange(0, 0) =~= Seq::<T>::empty());
        assert(out@ =~= spec_sort_by_key(input.subrange(0, 0)));
    }
    while v.len() > 0
        invariant
            0 <= taken <= input.len(),
            v@ == input.subrange(taken, input.len() as int),
            out@ == spec_sort_by_key(input.subrange(0, taken)),
            spec_sorted_by_key(out@),
        decreases v@.len(),
    {
        let item = v.remove(0);
        proof {
            assert(item == input[taken]);
            assert(v@ =~= input.subrange(taken + 1, input.len() as int));
        }
        let e = item.key();
        let mut p: usize = 0;
        while p < out.len() && key_at(&out, p) <= e
            invariant
                p <= out@.len(),
                forall|k: int| 0 <= k < p ==> (#[trigger] out@[k]).spec_key() <= e,
                e as int == item.spec_key(),
                spec_sorted_by_key(out@),
            decreases out@.len() - p,
        {
            p = p + 1;
        }
        proof {
            assert(forall|k: int| p <= k < out@.len() ==> (#[trigger] out@[k]).spec_key() > e)
                by {
                assert forall|k: int| p <= k < out@.len() implies (#[trigger] out@[k]).spec_key()
                    > e by {
                    if p < out@.len() {
                        assert(out@[p as int].spec_key() > e);
                        assert(out@[p as int].spec_key() <= out@[k].spec_key());
                    }
                }
            }
            lemma_insert_by_key_at(out@, item, p as int);
        }
        let ghost prior = out@;
        out.insert(p, item);
        proof {
            assert(out@ =~= prior.subrange(0, p as int) + seq![item] + prior.subrange(
                p as int,
                prior.len() as int,
            ));
            assert(input.subrange(0, taken + 1).drop_last() =~= input.subrange(0, taken));
            assert(input.subrange(0, taken + 1).last() == input[taken]);
            assert(out@ == spec_insert_by_key(prior, item));
            assert(spec_sorted_by_key(out@)) by {
                assert(forall|k: int|
                    0 <= k < out@.len() ==> (#[trigger] out@[k]).spec_key() == (if k < p {
                        prior[k].spec_key()
                    } else if k == p {
                        item.spec_key()
                    } else {
                        prior[k - 1].spec_key()
                    }));
            }
            taken = taken + 1;
        }
    }
    proof {
        assert(input.subrange(0, input.len() as int) =~= input);
        assert(taken == input.len());
    }
    out
}

/// The key of the element at one position.
fn key_at<T: Keyed>(v: &Vec<T>, p: usize) -> (r: i64)
    requires
        p < v@.len(),
    ensures
        r as int == v@[p as int].spec_key(),
{
    v[p].key()
}

/// Filtering commutes with `push` in the evident way.
pub proof fn lemma_filter_push<T>(s: Seq<T>, p: spec_fn(T) -> bool, a: T)
    ensures
        s.push(a).filter(p) == if p(a) {
            s.filter(p).push(a)
        } else {
            s.filter(p)
        },
{
    reveal(Seq::filter);
    assert(s.push(a).drop_last() =~= s);
    assert(s.push(a).last() == a);
}

/// A sequence in reverse order.
pub open spec fn spec_reverse<T>(s: Seq<T>) -> Seq<T> {
    Seq::new(s.len(), |i: int| s[s.len() - 1 - i])
}

/// Reverses a list, as [`spec_reverse`] defines it.
pub fn reverse_vec<T>(mut v: Vec<T>) -> (r: Vec<T>)
    ensures
        r@ == spec_reverse(v@),
{
    let ghost input = v@;
    let mut out: Vec<T> = Vec::new();
    while v.len() > 0
        invariant
            out@.len() + v@.len() == input.len(),
            v@ == input.subrange(0, input.len() - out@.len()),
            forall|k: int| 0 <= k < out@.len() ==> out@[k] == input[input.len() - 1 - k],
        decreases v@.len(),
    {
        let ghost before = v@;
        let last = v.pop();
        match last {
            Some(x) => {
                proof {
                    assert(x == before[before.len() - 1]);
                    assert(v@ =~= input.subrange(0, input.len() - out@.len() - 1));
                }
                out.push(x);
            },
            None => {
                proof {
                    assert(false);
                }
            },
        }
    }
    proof {
        assert(out@ =~= spec_reverse(input));
    }
    out
}

} // verus!
