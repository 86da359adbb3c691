//! Stable ordering of items by a 16-bit rank.
//!
//! The outcome of a stable sort is fixed by two facts: the ranks never fall
//! from one item to the next, and the items of any one rank keep the order
//! they came in. [`stable_sort_of`] states both, and [`stable_sort`] is
//! proved to meet them.

use vstd::prelude::*;

verus! {

/// An item that carries a rank to be ordered by.
pub trait Ranked {
    /// The rank of this item.
    spec fn rank(&self) -> u16;

    /// Reads the rank of this item.
    fn rank_of(&self) -> (r: u16)
        ensures
            r == self.rank(),
    ;
}

/// Whether the ranks in `s` never fall from an item to a later one.
pub open spec fn sorted_by_rank<T: Ranked>(s: Seq<T>) -> bool {
    forall|i: int, j: int| 0 <= i <= j < s.len() ==> s[i].rank() <= s[j].rank()
}

/// The items of `s` whose rank is `k`, in their order in `s`.
pub open spec fn with_rank<T: Ranked>(s: Seq<T>, k: u16) -> Seq<T>
    decreases s.len(),
{
    if s.len() == 0 {
        Seq::empty()
    } else if s.last().rank() == k {
        with_rank(s.drop_last(), k).push(s.last())
    } else {
        with_rank(s.drop_last(), k)
    }
}

/// Whether `out` is `inp` in stable order: sorted by rank, and for every
/// rank holding the same items in the same order as `inp`.
pub open spec fn stable_sort_of<T: Ranked>(out: Seq<T>, inp: Seq<T>) -> bool {
    &&& out.len() == inp.len()
    &&& sorted_by_rank(out)
    &&& forall|k: u16| with_rank(out, k) == with_rank(inp, k)
}

/// The stable merge of two sorted sequences, built from the back: of two
/// last items the one with the greater rank comes last, and on equal ranks
/// the one of `b`.
pub open spec fn merged<T: Ranked>(a: Seq<T>, b: Seq<T>) -> Seq<T>
    decreases a.len() + b.len(),
{
    if a.len() == 0 {
        b
    } else if b.len() == 0 {
        a
    } else if a.last().rank() > b.last().rank() {
        merged(a.drop_last(), b).push(a.last())
    } else {
        merged(a, b.drop_last()).push(b.last())
    }
}

/// The items of one rank in `a + b` are those in `a`, then those in `b`.
pub proof fn lemma_with_rank_concat<T: Ranked>(a: Seq<T>, b: Seq<T>, k: u16)
    ensures
        with_rank(a + b, k) == with_rank(a, k) + with_rank(b, k),
    decreases b.len(),
{
    if b.len() == 0 {
        assert(a + b =~= a);
        assert(with_rank(a, k) + with_rank(b, k) =~= with_rank(a, k));
    } else {
        assert((a + b).drop_last() =~= a + b.drop_last());
        assert((a + b).last() == b.last());
        lemma_with_rank_concat(a, b.drop_last(), k);
        if b.last().rank() == k {
            assert(with_rank(a + b, k) =~= with_rank(a, k) + with_rank(b, k));
        }
    }
}

/// A sequence without an item of rank `k` has no items of rank `k`.
pub proof fn lemma_with_rank_absent<T: Ranked>(s: Seq<T>, k: u16)
    requires
        forall|i: int| 0 <= i < s.len() ==> s[i].rank() != k,
    ensures
        with_rank(s, k) == Seq::<T>::empty(),
    decreases s.len(),
{
    if s.len() > 0 {
        assert(s.last().rank() != k);
        assert forall|i: int| 0 <= i < s.drop_last().len() implies s.drop_last()[i].rank()
            != k by {
            assert(s.drop_last()[i] == s[i]);
        }
        lemma_with_rank_absent(s.drop_last(), k);
    }
}

/// The merge has the items of both sequences, and ranks no greater than any
/// bound on the ranks of both.
pub proof fn lemma_merged_bound<T: Ranked>(a: Seq<T>, b: Seq<T>, m: u16)
    requires
        forall|i: int| 0 <= i < a.len() ==> a[i].rank() <= m,
        forall|i: int| 0 <= i < b.len() ==> b[i].rank() <= m,
    ensures
        merged(a, b).len() == a.len() + b.len(),
        forall|i: int| 0 <= i < merged(a, b).len() ==> (#[trigger] merged(a, b)[i]).rank() <= m,
    decreases a.len() + b.len(),
{
    if a.len() == 0 {
    } else if b.len() == 0 {
    } else if a.last().rank() > b.last().rank() {
        assert forall|i: int| 0 <= i < a.drop_last().len() implies a.drop_last()[i].rank()
            <= m by {
            assert(a.drop_last()[i] == a[i]);
        }
        lemma_merged_bound(a.drop_last(), b, m);
    } else {
        assert forall|i: int| 0 <= i < b.drop_last().len() implies b.drop_last()[i].rank()
            <= m by {
            assert(b.drop_last()[i] == b[i]);
        }
        lemma_merged_bound(a, b.drop_last(), m);
    }
}

/// A sequence that is sorted stays sorted without its last item, and its
/// last item bounds the ranks of the others.
pub proof fn lemma_sorted_drop_last<T: Ranked>(s: Seq<T>)
    requires
        sorted_by_rank(s),
        s.len() > 0,
    ensures
        sorted_by_rank(s.drop_last()),
        forall|i: int| 0 <= i < s.len() ==> s[i].rank() <= s.last().rank(),
{
    assert forall|i: int, j: int| 0 <= i <= j < s.drop_last().len() implies s.drop_last()[i].rank()
        <= s.drop_last()[j].rank() by {
        assert(s.drop_last()[i] == s[i]);
        assert(s.drop_last()[j] == s[j]);
    }
}

/// The merge of two sorted sequences is their stable merge: it is sorted,
/// and for every rank it holds the items of `a`, then those of `b`.
pub proof fn lemma_merged_stable<T: Ranked>(a: Seq<T>, b: Seq<T>)
    requires
        sorted_by_rank(a),
        sorted_by_rank(b),
    ensures
        merged(a, b).len() == a.len() + b.len(),
        sorted_by_rank(merged(a, b)),
        forall|k: u16| #[trigger] with_rank(merged(a, b), k) == with_rank(a, k) + with_rank(b, k),
    decreases a.len() + b.len(),
{
    if a.len() == 0 {
        assert forall|k: u16| #[trigger]
            with_rank(merged(a, b), k) == with_rank(a, k) + with_rank(b, k) by {
            assert(with_rank(a, k) + with_rank(b, k) =~= with_rank(b, k));
        }
    } else if b.len() == 0 {
        assert forall|k: u16| #[trigger]
            with_rank(merged(a, b), k) == with_rank(a, k) + with_rank(b, k) by {
            assert(with_rank(a, k) + with_rank(b, k) =~= with_rank(a, k));
        }
    } else if a.last().rank() > b.last().rank() {
        let x = a.last();
        let rest = merged(a.drop_last(), b);
        lemma_sorted_drop_last(a);
        lemma_sorted_drop_last(b);
        lemma_merged_stable(a.drop_last(), b);
        assert forall|i: int| 0 <= i < a.drop_last().len() implies a.drop_last()[i].rank()
            <= x.rank() by {
            assert(a.drop_last()[i] == a[i]);
        }
        lemma_merged_bound(a.drop_last(), b, x.rank());
        assert(sorted_by_rank(rest.push(x)));
        assert forall|k: u16| #[trigger]
            with_rank(merged(a, b), k) == with_rank(a, k) + with_rank(b, k) by {
            assert(rest.push(x).drop_last() =~= rest);
            assert(with_rank(rest, k) == with_rank(a.drop_last(), k) + with_rank(b, k));
            if x.rank() == k {
                lemma_with_rank_absent(b, k);
                assert(with_rank(merged(a, b), k) =~= with_rank(a, k) + with_rank(b, k));
            }
        }
    } else {
        let y = b.last();
        let rest = merged(a, b.drop_last());
        lemma_sorted_drop_last(a);
        lemma_sorted_drop_last(b);
        lemma_merged_stable(a, b.drop_last());
        assert forall|i: int| 0 <= i < b.drop_last().len() implies b.drop_last()[i].rank()
            <= y.rank() by {
            assert(b.drop_last()[i] == b[i]);
        }
        lemma_merged_bound(a, b.drop_last(), y.rank());
        assert(sorted_by_rank(rest.push(y)));
        assert forall|k: u16| #[trigger]
            with_rank(merged(a, b), k) == with_rank(a, k) + with_rank(b, k) by {
            assert(rest.push(y).drop_last() =~= rest);
            assert(with_rank(rest, k) == with_rank(a, k) + with_rank(b.drop_last(), k));
            if y.rank() == k {
                assert(with_rank(merged(a, b), k) =~= with_rank(a, k) + with_rank(b, k));
            }
        }
    }
}

/// Whether `r` holds the items of `s` in the opposite order.
pub open spec fn reversed<T>(r: Seq<T>, s: Seq<T>) -> bool {
    &&& r.len() == s.len()
    &&& forall|i: int| 0 <= i < s.len() ==> r[i] == s[s.len() - 1 - i]
}

/// Turns the order of the items round.
pub fn reverse<T>(items: Vec<T>) -> (r: Vec<T>)
    ensures
        reversed(r@, items@),
{
    let mut rest = items;
    let mut out: Vec<T> = Vec::new();
    while rest.len() > 0
        invariant
            rest@.len() + out@.len() == items@.len(),
            rest@ == items@.take(rest@.len() as int),
            forall|i: int| 0 <= i < out@.len() ==> out@[i] == items@[items@.len() - 1 - i],
        decreases rest@.len(),
    {
        let ghost before = rest@;
        match rest.pop() {
            Some(x) => {
                out.push(x);
                proof {
                    assert(rest@ =~= items@.take(rest@.len() as int));
                }
            },
            None => {},
        }
    }
    out
}

/// Merges two sorted vectors into one, keeping for equal ranks the items of
/// `a` before those of `b`.
pub fn merge<T: Ranked>(a: Vec<T>, b: Vec<T>) -> (r: Vec<T>)
    requires
        sorted_by_rank(a@),
        sorted_by_rank(b@),
    ensures
        r@ == merged(a@, b@),
{
    let mut a = a;
    let mut b = b;
    let ghost a0 = a@;
    let ghost b0 = b@;
    let ghost mut done: Seq<T> = Seq::empty();
    let mut back: Vec<T> = Vec::new();
    proof {
        assert(merged(a0, b0) + done =~= merged(a0, b0));
    }
    while a.len() > 0 || b.len() > 0
        invariant
            merged(a0, b0) == merged(a@, b@) + done,
            reversed(back@, done),
        decreases a@.len() + b@.len(),
    {
        let ghost a1 = a@;
        let ghost b1 = b@;
        let from_a = if a.len() == 0 {
            false
        } else if b.len() == 0 {
            true
        } else {
            a[a.len() - 1].rank_of() > b[b.len() - 1].rank_of()
        };
        let item = if from_a {
            a.pop()
        } else {
            b.pop()
        };
        match item {
            Some(x) => {
                back.push(x);
                proof {
                    assert(a1.subrange(0, a1.len() - 1) =~= a1.drop_last());
                    assert(b1.subrange(0, b1.len() - 1) =~= b1.drop_last());
                    assert(merged(a1, b1) =~= merged(a@, b@).push(x));
                    let next = seq![x] + done;
                    assert(merged(a@, b@).push(x) + done =~= merged(a@, b@) + next);
                    assert forall|i: int| 0 <= i < next.len() implies back@[i] == next[next.len()
                        - 1 - i] by {
                        if i < done.len() {
                            assert(next[next.len() - 1 - i] == done[done.len() - 1 - i]);
                        }
                    }
                    done = next;
                }
            },
            None => {},
        }
    }
    let out = reverse(back);
    proof {
        assert(merged(a@, b@) =~= Seq::<T>::empty());
        assert(out@ =~= done);
        assert(merged(a0, b0) =~= done);
    }
    out
}

/// Sorts the items by rank; items of equal rank keep their order.
pub fn stable_sort<T: Ranked>(items: Vec<T>) -> (r: Vec<T>)
    ensures
        stable_sort_of(r@, items@),
    decreases items@.len(),
{
    let n = items.len();
    if n <= 1 {
        return items;
    }
    let mut left = items;
    let right = left.split_off(n / 2);
    let ghost l0 = left@;
    let ghost r0 = right@;
    proof {
        assert(items@ =~= l0 + r0);
    }
    let left = stable_sort(left);
    let right = stable_sort(right);
    proof {
        lemma_merged_stable(left@, right@);
        assert forall|k: u16| with_rank(merged(left@, right@), k) == with_rank(items@, k) by {
            lemma_with_rank_concat(l0, r0, k);
        }
    }
    merge(left, right)
}

/// Taking the items of one rank commutes with a function that keeps ranks.
pub proof fn lemma_with_rank_mapped<T: Ranked, U: Ranked>(s: Seq<T>, f: spec_fn(T) -> U, k: u16)
    requires
        forall|x: T| #[trigger] f(x).rank() == x.rank(),
    ensures
        with_rank(s.map_values(f), k) == with_rank(s, k).map_values(f),
    decreases s.len(),
{
    if s.len() == 0 {
        assert(with_rank(s, k).map_values(f) =~= Seq::<U>::empty());
    } else {
        lemma_with_rank_mapped(s.drop_last(), f, k);
        assert(s.map_values(f).drop_last() =~= s.drop_last().map_values(f));
        assert(s.map_values(f).last() == f(s.last()));
        if s.last().rank() == k {
            assert(with_rank(s, k).map_values(f) =~= with_rank(s.drop_last(), k).map_values(
                f,
            ).push(f(s.last())));
        }
    }
}

/// A stable ordering stays one when every item is taken through a function
/// that keeps its rank.
pub proof fn lemma_stable_sort_mapped<T: Ranked, U: Ranked>(
    out: Seq<T>,
    inp: Seq<T>,
    f: spec_fn(T) -> U,
)
    requires
        stable_sort_of(out, inp),
        forall|x: T| #[trigger] f(x).rank() == x.rank(),
    ensures
        stable_sort_of(out.map_values(f), inp.map_values(f)),
{
    assert forall|k: u16| with_rank(out.map_values(f), k) == with_rank(inp.map_values(f), k) by {
        lemma_with_rank_mapped(out, f, k);
        lemma_with_rank_mapped(inp, f, k);
    }
}

/// The stable order of a sequence is one sequence only: two sequences that
/// are both a stable order of `inp` are equal.
pub proof fn lemma_stable_sort_unique<T: Ranked>(a: Seq<T>, b: Seq<T>, inp: Seq<T>)
    requires
        stable_sort_of(a, inp),
        stable_sort_of(b, inp),
    ensures
        a == b,
{
    lemma_same_ranks_same_order(a, b);
}

/// Two sorted sequences of one length that hold the same items of every
/// rank in the same order are equal.
pub proof fn lemma_same_ranks_same_order<T: Ranked>(a: Seq<T>, b: Seq<T>)
    requires
        a.len() == b.len(),
        sorted_by_rank(a),
        sorted_by_rank(b),
        forall|k: u16| with_rank(a, k) == with_rank(b, k),
    ensures
        a == b,
    decreases a.len(),
{
    if a.len() == 0 {
        assert(a =~= b);
    } else {
        let top = a.last().rank();
        let other = b.last().rank();
        lemma_sorted_drop_last(a);
        lemma_sorted_drop_last(b);
        assert(with_rank(a, top) == with_rank(b, top));
        assert(with_rank(a, other) == with_rank(b, other));
        if top != other {
            if top > other {
                assert forall|i: int| 0 <= i < b.len() implies b[i].rank() != top by {}
                lemma_with_rank_absent(b, top);
            } else {
                assert forall|i: int| 0 <= i < a.len() implies a[i].rank() != other by {}
                lemma_with_rank_absent(a, other);
            }
            assert(false);
        }
        assert(with_rank(a, top).last() == a.last());
        assert(with_rank(b, top).last() == b.last());
        assert forall|k: u16| with_rank(a.drop_last(), k) == with_rank(b.drop_last(), k) by {
            assert(with_rank(a, k) == with_rank(b, k));
            if k == top {
                assert(with_rank(a, k).drop_last() =~= with_rank(a.drop_last(), k));
                assert(with_rank(b, k).drop_last() =~= with_rank(b.drop_last(), k));
            }
        }
        lemma_same_ranks_same_order(a.drop_last(), b.drop_last());
        assert(a =~= a.drop_last().push(a.last()));
        assert(b =~= b.drop_last().push(b.last()));
    }
}

} // verus!
