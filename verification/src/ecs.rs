//! Entity ids and sequence helpers shared by the engine modules.
//!
//! An entity is identified by the 64-bit inner representation of a shipyard `EntityId`:
//! index + 1 in the low 48 bits, generation in the high 16 bits. The dead (null) entity is
//! all ones.

use vstd::prelude::*;

verus! {

/// The inner representation of the dead (null) entity id.
pub const DEAD: u64 = 0xffff_ffff_ffff_ffffu64;

/// The index part of an entity id: the low 48 bits hold index + 1.
pub open spec fn spec_eid_index(e: u64) -> u64 {
    ((e & 0xffff_ffff_ffffu64) - 1) as u64
}

/// The index part of an entity id (shipyard's `EntityId::index`). The low 48 bits of a
/// valid id are never zero.
pub fn eid_index(e: u64) -> (r: u64)
    requires
        e & 0xffff_ffff_ffffu64 != 0,
    ensures
        r == spec_eid_index(e),
{
    (e & 0xffff_ffff_ffffu64) - 1
}

/// The first index at which `e` occurs in `s`, or -1 when it does not occur.
pub open spec fn first_index(s: Seq<u64>, e: u64) -> int {
    if s.contains(e) {
        choose|i: int| 0 <= i < s.len() && s[i] == e && (forall|j: int| 0 <= j < i ==> s[j] != e)
    } else {
        -1
    }
}

/// `s` with the first occurrence of `e` removed (unchanged when `e` does not occur).
pub open spec fn remove_first(s: Seq<u64>, e: u64) -> Seq<u64> {
    if s.contains(e) {
        s.remove(first_index(s, e))
    } else {
        s
    }
}

/// The first index is the unique index that holds `e` with no earlier occurrence.
pub proof fn lemma_first_index(s: Seq<u64>, e: u64, i: int)
    requires
        0 <= i < s.len(),
        s[i] == e,
        forall|j: int| 0 <= j < i ==> s[j] != e,
    ensures
        first_index(s, e) == i,
{
    assert(s.contains(e));
    let k = first_index(s, e);
    assert(0 <= k < s.len() && s[k] == e && (forall|j: int| 0 <= j < k ==> s[j] != e));
    if k < i {
        assert(s[k] != e);
    }
    if i < k {
        assert(s[i] != e);
    }
}

/// Properties of the first index of an element that occurs at `w`.
proof fn lemma_first_index_below(s: Seq<u64>, e: u64, w: int)
    requires
        0 <= w < s.len(),
        s[w] == e,
    ensures
        0 <= first_index(s, e) <= w,
        s[first_index(s, e)] == e,
        forall|j: int| 0 <= j < first_index(s, e) ==> s[j] != e,
    decreases w,
{
    if forall|j: int| 0 <= j < w ==> s[j] != e {
        lemma_first_index(s, e, w);
    } else {
        let j = choose|j: int| 0 <= j < w && s[j] == e;
        lemma_first_index_below(s, e, j);
    }
}

/// Properties of the first index of an element that occurs.
pub proof fn lemma_first_index_props(s: Seq<u64>, e: u64)
    requires
        s.contains(e),
    ensures
        0 <= first_index(s, e) < s.len(),
        s[first_index(s, e)] == e,
        forall|j: int| 0 <= j < first_index(s, e) ==> s[j] != e,
{
    let w = choose|w: int| 0 <= w < s.len() && s[w] == e;
    lemma_first_index_below(s, e, w);
}

/// Removing the first occurrence of `e` from a sequence without duplicates removes exactly
/// `e` and keeps the sequence free of duplicates.
pub proof fn lemma_remove_first_nodup(s: Seq<u64>, e: u64)
    requires
        s.no_duplicates(),
    ensures
        remove_first(s, e).no_duplicates(),
        forall|x: u64| #[trigger] remove_first(s, e).contains(x) <==> (s.contains(x) && x != e),
        s.contains(e) ==> remove_first(s, e).len() == s.len() - 1,
        !s.contains(e) ==> remove_first(s, e) == s,
{
    if s.contains(e) {
        lemma_first_index_props(s, e);
        let k = first_index(s, e);
        s.remove_ensures(k);
        let r = s.remove(k);
        assert forall|x: u64| #[trigger] r.contains(x) <==> (s.contains(x) && x != e) by {
            if r.contains(x) {
                let j = choose|j: int| 0 <= j < r.len() && r[j] == x;
                if j < k {
                    assert(s[j] == x);
                    assert(j != k);
                } else {
                    assert(s[j + 1] == x);
                    assert(j + 1 != k);
                }
            }
            if s.contains(x) && x != e {
                let j = choose|j: int| 0 <= j < s.len() && s[j] == x;
                assert(j != k);
                if j < k {
                    assert(r[j] == x);
                } else {
                    assert(r[j - 1] == x);
                }
            }
        }
        assert forall|i: int, j: int| 0 <= i < r.len() && 0 <= j < r.len() && i != j implies r[i]
            != r[j] by {
            let si = if i < k { i } else { i + 1 };
            let sj = if j < k { j } else { j + 1 };
            assert(r[i] == s[si]);
            assert(r[j] == s[sj]);
        }
    }
}

/// Inserting an element that does not occur keeps a sequence free of duplicates.
pub proof fn lemma_insert_nodup(s: Seq<u64>, i: int, e: u64)
    requires
        s.no_duplicates(),
        !s.contains(e),
        0 <= i <= s.len(),
    ensures
        s.insert(i, e).no_duplicates(),
        forall|x: u64| #[trigger] s.insert(i, e).contains(x) <==> (s.contains(x) || x == e),
        s.insert(i, e).len() == s.len() + 1,
{
    s.insert_ensures(i, e);
    let r = s.insert(i, e);
    assert(r[i] == e);
    assert forall|x: u64| #[trigger] r.contains(x) <==> (s.contains(x) || x == e) by {
        if r.contains(x) {
            let j = choose|j: int| 0 <= j < r.len() && r[j] == x;
            if j < i {
                assert(s[j] == x);
            } else if j > i {
                assert(r[j] == s[j - 1]);
            }
        }
        if s.contains(x) {
            let j = choose|j: int| 0 <= j < s.len() && s[j] == x;
            if j < i {
                assert(r[j] == x);
            } else {
                assert(r[j + 1] == x);
            }
        }
    }
    assert forall|a: int, b: int| 0 <= a < r.len() && 0 <= b < r.len() && a != b implies r[a]
        != r[b] by {
        if a != i && b != i {
            let sa = if a < i { a } else { a - 1 };
            let sb = if b < i { b } else { b - 1 };
            assert(r[a] == s[sa]);
            assert(r[b] == s[sb]);
        } else if a == i {
            let sb = if b < i { b } else { b - 1 };
            assert(r[b] == s[sb]);
        } else {
            let sa = if a < i { a } else { a - 1 };
            assert(r[a] == s[sa]);
        }
    }
}

/// The elements of `s` that satisfy `pred`, in order.
pub open spec fn seq_filter(s: Seq<u64>, pred: spec_fn(u64) -> bool) -> Seq<u64>
    decreases s.len(),
{
    if s.len() == 0 {
        Seq::empty()
    } else {
        let r = seq_filter(s.drop_last(), pred);
        if pred(s.last()) {
            r.push(s.last())
        } else {
            r
        }
    }
}

/// An element is kept by a filter exactly when it occurs and satisfies the predicate; a
/// filter of a sequence without duplicates has none.
pub proof fn lemma_seq_filter(s: Seq<u64>, pred: spec_fn(u64) -> bool)
    ensures
        forall|x: u64| #[trigger] seq_filter(s, pred).contains(x) <==> (s.contains(x) && pred(x)),
        s.no_duplicates() ==> seq_filter(s, pred).no_duplicates(),
    decreases s.len(),
{
    if s.len() > 0 {
        let d = s.drop_last();
        lemma_seq_filter(d, pred);
        let r = seq_filter(d, pred);
        assert forall|x: u64| #[trigger] seq_filter(s, pred).contains(x) <==> (s.contains(x) && pred(x)) by {
            if s.contains(x) && x != s.last() {
                let j = choose|j: int| 0 <= j < s.len() && s[j] == x;
                assert(j < s.len() - 1);
                assert(d[j] == x);
            }
            if d.contains(x) {
                let j = choose|j: int| 0 <= j < d.len() && d[j] == x;
                assert(s[j] == x);
            }
            if pred(s.last()) {
                let f = r.push(s.last());
                assert(f[r.len() as int] == s.last());
                if f.contains(x) {
                    let j = choose|j: int| 0 <= j < f.len() && f[j] == x;
                    if j < r.len() {
                        assert(r[j] == x);
                    }
                }
                if r.contains(x) {
                    let j = choose|j: int| 0 <= j < r.len() && r[j] == x;
                    assert(f[j] == x);
                }
            }
            assert(s[s.len() - 1] == s.last());
        }
        if s.no_duplicates() {
            assert(d.no_duplicates());
            if pred(s.last()) {
                let f = r.push(s.last());
                assert(!d.contains(s.last())) by {
                    if d.contains(s.last()) {
                        let j = choose|j: int| 0 <= j < d.len() && d[j] == s.last();
                        assert(s[j] == s[s.len() - 1]);
                    }
                }
                assert forall|a: int, b: int| 0 <= a < f.len() && 0 <= b < f.len() && a != b implies f[a] != f[b] by {
                    assert(!r.contains(s.last()));
                    if a == r.len() {
                        assert(r[b] == f[b]);
                        assert(r.contains(r[b]));
                    } else if b == r.len() {
                        assert(r[a] == f[a]);
                        assert(r.contains(r[a]));
                    } else {
                        assert(r[a] == f[a] && r[b] == f[b]);
                    }
                }
            }
        }
    }
}

/// Finds the first position of `e` in `v`, as `Iterator::position` does.
pub fn find_position(v: &Vec<u64>, e: u64) -> (r: Option<usize>)
    ensures
        match r {
            Some(i) => v@.contains(e) && i < v.len() && v@[i as int] == e && i as int == first_index(
                v@,
                e,
            ),
            None => !v@.contains(e),
        },
{
    let mut i: usize = 0;
    while i < v.len()
        invariant
            i <= v.len(),
            forall|j: int| 0 <= j < i ==> v@[j] != e,
        decreases v.len() - i,
    {
        if v[i] == e {
            proof {
                lemma_first_index(v@, e, i as int);
            }
            return Some(i);
        }
        i = i + 1;
    }
    None
}

/// Removes the first occurrence of `e` from `v`; returns whether there was one.
pub fn vec_remove_first(v: &mut Vec<u64>, e: u64) -> (r: bool)
    ensures
        r == old(v)@.contains(e),
        final(v)@ == remove_first(old(v)@, e),
{
    match find_position(v, e) {
        Some(i) => {
            v.remove(i);
            true
        },
        None => false,
    }
}

} // verus!
