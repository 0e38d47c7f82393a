//! Restoring a deterministic order: results that finish in any order are
//! put back in ascending order of their key (a page number, an image index).
use vstd::prelude::*;

verus! {

/// A value that carries a sort key.
pub trait Keyed {
    spec fn key(&self) -> u32;

    fn key_of(&self) -> (k: u32)
        ensures
            k == self.key(),
    ;
}

/// The first position in `s`, from `i` on, whose key exceeds `k`.
pub open spec fn first_above<T: Keyed>(s: Seq<T>, k: u32, i: int) -> int
    decreases s.len() - i,
{
    if i >= s.len() || i < 0 {
        s.len() as int
    } else if s[i].key() > k {
        i
    } else {
        first_above(s, k, i + 1)
    }
}

/// `x` put into `s` after every element at the front of `s` whose key is no
/// greater than `x`'s.
pub open spec fn insert_by_key<T: Keyed>(s: Seq<T>, x: T) -> Seq<T> {
    s.insert(first_above(s, x.key(), 0), x)
}

/// `s` in ascending key order; elements with equal keys keep their order.
pub open spec fn sort_by_key<T: Keyed>(s: Seq<T>) -> Seq<T>
    decreases s.len(),
{
    if s.len() == 0 {
        Seq::empty()
    } else {
        insert_by_key(sort_by_key(s.drop_last()), s.last())
    }
}

/// Keys never decrease along `s`.
pub open spec fn keys_ascending<T: Keyed>(s: Seq<T>) -> bool {
    forall|i: int, j: int| 0 <= i < j < s.len() ==> s[i].key() <= s[j].key()
}

/// Keys strictly increase along `s`.
pub open spec fn keys_increasing<T: Keyed>(s: Seq<T>) -> bool {
    forall|i: int, j: int| 0 <= i < j < s.len() ==> s[i].key() < s[j].key()
}

/// No two elements of `s` share a key.
pub open spec fn keys_distinct<T: Keyed>(s: Seq<T>) -> bool {
    forall|i: int, j: int| 0 <= i < s.len() && 0 <= j < s.len() && i != j ==> s[i].key() != s[j].key()
}

pub proof fn lemma_first_above_bounds<T: Keyed>(s: Seq<T>, k: u32, i: int)
    requires
        0 <= i <= s.len(),
    ensures
        i <= first_above(s, k, i) <= s.len(),
        forall|j: int| i <= j < first_above(s, k, i) ==> s[j].key() <= k,
        first_above(s, k, i) < s.len() ==> s[first_above(s, k, i)].key() > k,
    decreases s.len() - i,
{
    if i < s.len() && s[i].key() <= k {
        lemma_first_above_bounds(s, k, i + 1);
    }
}

/// Sorting yields ascending keys and the same elements.
pub proof fn lemma_sort_by_key<T: Keyed>(s: Seq<T>)
    ensures
        keys_ascending(sort_by_key(s)),
        sort_by_key(s).to_multiset() == s.to_multiset(),
        sort_by_key(s).len() == s.len(),
    decreases s.len(),
{
    broadcast use vstd::seq_lib::group_to_multiset_ensures, vstd::seq_lib::to_multiset_insert;

    if s.len() > 0 {
        let t = sort_by_key(s.drop_last());
        lemma_sort_by_key(s.drop_last());
        let x = s.last();
        let p = first_above(t, x.key(), 0);
        lemma_first_above_bounds(t, x.key(), 0);
        let r = t.insert(p, x);
        assert(r.len() == t.len() + 1);
        assert forall|i: int, j: int| 0 <= i < j < r.len() implies r[i].key() <= r[j].key() by {
            if j < p {
            } else if j == p {
            } else if i < p {
                assert(r[j] == t[j - 1]);
            } else if i == p {
                assert(r[j] == t[j - 1]);
                if p < t.len() {
                    assert(t[p].key() <= t[j - 1].key());
                }
            } else {
                assert(r[i] == t[i - 1]);
                assert(r[j] == t[j - 1]);
            }
        }
        assert(s =~= s.drop_last().push(x));
    }
}

/// The sum of `f` over `s`.
pub open spec fn tally<T>(s: Seq<T>, f: spec_fn(T) -> nat) -> nat
    decreases s.len(),
{
    if s.len() == 0 {
        0
    } else {
        tally(s.drop_last(), f) + f(s.last())
    }
}

pub proof fn lemma_tally_insert<T>(s: Seq<T>, i: int, x: T, f: spec_fn(T) -> nat)
    requires
        0 <= i <= s.len(),
    ensures
        tally(s.insert(i, x), f) == tally(s, f) + f(x),
    decreases s.len(),
{
    if i == s.len() {
        assert(s.insert(i, x).drop_last() =~= s);
    } else {
        assert(s.insert(i, x).drop_last() =~= s.drop_last().insert(i, x));
        lemma_tally_insert(s.drop_last(), i, x, f);
    }
}

/// Sorting keeps every sum over the elements.
pub proof fn lemma_tally_sort<T: Keyed>(s: Seq<T>, f: spec_fn(T) -> nat)
    ensures
        tally(sort_by_key(s), f) == tally(s, f),
    decreases s.len(),
{
    if s.len() > 0 {
        let t = sort_by_key(s.drop_last());
        lemma_tally_sort(s.drop_last(), f);
        lemma_sort_by_key(s.drop_last());
        lemma_first_above_bounds(t, s.last().key(), 0);
        lemma_tally_insert(t, first_above(t, s.last().key(), 0), s.last(), f);
    }
}

/// Sorting elements whose keys are distinct gives strictly increasing keys.
pub proof fn lemma_sort_strict<T: Keyed>(s: Seq<T>)
    requires
        keys_distinct(s),
    ensures
        keys_increasing(sort_by_key(s)),
    decreases s.len(),
{
    broadcast use vstd::seq_lib::group_to_multiset_ensures;

    if s.len() > 0 {
        let d = s.drop_last();
        let t = sort_by_key(d);
        let x = s.last();
        assert(keys_distinct(d));
        lemma_sort_strict(d);
        lemma_sort_by_key(d);
        lemma_first_above_bounds(t, x.key(), 0);
        let p = first_above(t, x.key(), 0);
        let r = t.insert(p, x);
        assert forall|m: int| 0 <= m < t.len() implies t[m].key() != x.key() by {
            assert(t.to_multiset().contains(t[m]));
            assert(d.contains(t[m]));
            let j = choose|j: int| 0 <= j < d.len() && d[j] == t[m];
            assert(s[j] == t[m]);
        }
        assert forall|i: int, j: int| 0 <= i < j < r.len() implies r[i].key() < r[j].key() by {
            if j < p {
            } else if j == p {
                assert(r[i] == t[i]);
                assert(t[i].key() != x.key());
            } else if i < p {
                assert(r[j] == t[j - 1]);
            } else if i == p {
                assert(r[j] == t[j - 1]);
                if p < t.len() {
                    assert(t[p].key() <= t[j - 1].key());
                }
            } else {
                assert(r[i] == t[i - 1]);
                assert(r[j] == t[j - 1]);
            }
        }
    }
}

/// Two sequences with strictly increasing keys and the same elements are
/// equal.
pub proof fn lemma_increasing_unique<T: Keyed>(x: Seq<T>, y: Seq<T>)
    requires
        keys_increasing(x),
        keys_increasing(y),
        x.to_multiset() == y.to_multiset(),
    ensures
        x == y,
    decreases x.len(),
{
    broadcast use vstd::seq_lib::group_to_multiset_ensures;
    broadcast use vstd::multiset::group_multiset_axioms;

    if x.len() == 0 || y.len() == 0 {
        vstd::seq_lib::to_multiset_len(x);
        vstd::seq_lib::to_multiset_len(y);
        assert(x.len() == y.len());
        assert(x =~= y);
    } else {
        assert(x.to_multiset().contains(x[0]));
        assert(y.contains(x[0]));
        let i = choose|i: int| 0 <= i < y.len() && y[i] == x[0];
        assert(y.to_multiset().contains(y[0]));
        assert(x.contains(y[0]));
        let j = choose|j: int| 0 <= j < x.len() && x[j] == y[0];
        if i > 0 {
            assert(y[0].key() < y[i].key());
            if j > 0 {
                assert(x[0].key() < x[j].key());
            }
        }
        assert(x[0] == y[0]);
        vstd::seq_lib::to_multiset_remove(x, 0);
        vstd::seq_lib::to_multiset_remove(y, 0);
        assert(x.remove(0) =~= x.drop_first());
        assert(y.remove(0) =~= y.drop_first());
        lemma_increasing_unique(x.drop_first(), y.drop_first());
        assert(x =~= seq![x[0]] + x.drop_first());
        assert(y =~= seq![y[0]] + y.drop_first());
    }
}

/// Sorting forgets the order of elements whose keys are distinct: two
/// arrangements of the same elements sort to the same sequence.
pub proof fn lemma_sort_order_free<T: Keyed>(a: Seq<T>, b: Seq<T>)
    requires
        keys_distinct(a),
        keys_distinct(b),
        a.to_multiset() == b.to_multiset(),
    ensures
        sort_by_key(a) == sort_by_key(b),
{
    lemma_sort_strict(a);
    lemma_sort_strict(b);
    lemma_sort_by_key(a);
    lemma_sort_by_key(b);
    lemma_increasing_unique(sort_by_key(a), sort_by_key(b));
}

/// Computes `sort_by_key(v@)`.
pub fn sort_by_key_exec<T: Keyed>(v: Vec<T>) -> (r: Vec<T>)
    ensures
        r@ == sort_by_key(v@),
{
    let mut out: Vec<T> = Vec::new();
    let mut rest = v;
    let ghost orig = rest@;
    let n = rest.len();
    while rest.len() > 0
        invariant
            n == orig.len(),
            rest@.len() <= n,
            rest@ == orig.subrange(n - rest@.len(), n as int),
            out@ == sort_by_key(orig.subrange(0, n - rest@.len())),
        decreases rest.len(),
    {
        let ghost i = n - rest@.len();
        let x = rest.remove(0);
        assert(orig[i] == x);
        assert(rest@ =~= orig.subrange(n - rest@.len(), n as int));
        assert(orig.subrange(0, i + 1).drop_last() =~= orig.subrange(0, i));
        let k = x.key_of();
        let mut pos: usize = 0;
        while pos < out.len() && out[pos].key_of() <= k
            invariant
                pos <= out.len(),
                first_above(out@, k, pos as int) == first_above(out@, k, 0),
            decreases out.len() - pos,
        {
            pos = pos + 1;
        }
        out.insert(pos, x);
    }
    assert(orig.subrange(0, n as int) =~= orig);
    out
}

} // verus!
