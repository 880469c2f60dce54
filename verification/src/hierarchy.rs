//! The entity hierarchy: every entity either sits in the root list of the [Hierarchy] unique
//! or has a [Parent] and is listed in the [Children] of that parent.

use crate::ecs::{
    first_index, find_position, lemma_first_index_props, lemma_insert_nodup, lemma_remove_first_nodup,
    lemma_seq_filter, remove_first, seq_filter, vec_remove_first, DEAD,
};
use crate::data::{
    copy_u64s, entities_field, entity_field, lemma_kv_get_at, lemma_kv_put_fresh, limits_view, Data, Limit, LimitView, Value,
    ValueView,
};
use crate::edit::Edit;
use std::collections::{HashMap, HashSet};
use vstd::prelude::*;

verus! {

/// Stores the parent of an entity in the hierarchy tree. An entity without a Parent
/// component is at the top level.
///
/// Users should not add or remove this component by hand: [attach_before] and
/// [attach_after] keep it consistent with [Children] and [Hierarchy].
#[derive(Clone, Copy, PartialEq, Eq, Structural, Debug)]
pub struct Parent(pub u64);

/// Stores all children of an entity in the hierarchy tree, in order.
///
/// Users should not add or remove this component by hand.
#[derive(Clone, Debug)]
pub struct Children(pub Vec<u64>);

impl View for Children {
    type V = Seq<u64>;

    open spec fn view(&self) -> Seq<u64> {
        self.0@
    }
}

/// The Hierarchy unique stores all root entities at the top level, in order.
#[derive(Clone, Debug)]
pub struct Hierarchy {
    pub roots: Vec<u64>,
}

impl Hierarchy {
    /// An empty hierarchy.
    pub fn new() -> (r: Hierarchy)
        ensures
            r.roots@ == Seq::<u64>::empty(),
    {
        Hierarchy { roots: Vec::new() }
    }

    /// Get all root entities at the top level.
    pub fn roots(&self) -> (r: &Vec<u64>)
        ensures
            r@ == self.roots@,
    {
        &self.roots
    }
}

impl Default for Parent {
    /// The dead entity as parent.
    fn default() -> (r: Parent)
        ensures
            r.0 == DEAD,
    {
        Parent(DEAD)
    }
}

impl Default for Children {
    /// No children.
    fn default() -> (r: Children)
        ensures
            r@ == Seq::<u64>::empty(),
    {
        Children(Vec::new())
    }
}

impl Default for Hierarchy {
    /// An empty hierarchy.
    fn default() -> (r: Hierarchy)
        ensures
            r.roots@ == Seq::<u64>::empty(),
    {
        Hierarchy::new()
    }
}

impl Parent {
    /// The parent entity.
    pub fn entity(&self) -> (r: u64)
        ensures
            r == self.0,
    {
        self.0
    }
}

impl Children {
    /// The children entities, in order.
    pub fn entities(&self) -> (r: &Vec<u64>)
        ensures
            r@ == self@,
    {
        &self.0
    }
}

/// The children lists of a Children storage, by parent entity.
pub open spec fn children_view(m: Map<u64, Children>) -> Map<u64, Seq<u64>> {
    m.map_values(|c: Children| c@)
}

/// The parent of each entity of a Parent storage.
pub open spec fn parents_view(m: Map<u64, Parent>) -> Map<u64, u64> {
    m.map_values(|p: Parent| p.0)
}

/// The root list after detaching `eid`: it leaves the root list only when it has no parent.
pub open spec fn dettach_roots(roots: Seq<u64>, parents: Map<u64, u64>, eid: u64) -> Seq<u64> {
    if parents.contains_key(eid) {
        roots
    } else {
        remove_first(roots, eid)
    }
}

/// The children storage after detaching `eid` from its parent.
pub open spec fn dettach_children(
    c: Map<u64, Seq<u64>>,
    parents: Map<u64, u64>,
    eid: u64,
) -> Map<u64, Seq<u64>> {
    if parents.contains_key(eid) {
        children_without(c, parents[eid], eid)
    } else {
        c
    }
}

/// Whether attaching `eid` to `parent` next to `adjacent` can be done without panicking:
/// a non-dead `adjacent` must be found in the target sibling list (after `eid` itself was
/// detached). A parent without a Children component gets `eid` as its only child and
/// `adjacent` is not looked up.
pub open spec fn attach_ok(
    roots: Seq<u64>,
    c: Map<u64, Seq<u64>>,
    parents: Map<u64, u64>,
    eid: u64,
    parent: u64,
    adjacent: u64,
) -> bool {
    let r1 = dettach_roots(roots, parents, eid);
    let c1 = dettach_children(c, parents, eid);
    adjacent == DEAD || (if parent == DEAD {
        r1.contains(adjacent)
    } else {
        c1.contains_key(parent) ==> c1[parent].contains(adjacent)
    })
}

/// The root list after attaching.
pub open spec fn attach_roots(
    roots: Seq<u64>,
    parents: Map<u64, u64>,
    eid: u64,
    parent: u64,
    adjacent: u64,
    prev: bool,
) -> Seq<u64> {
    let r1 = dettach_roots(roots, parents, eid);
    if parent == DEAD {
        r1.insert(insert_position(adjacent, prev, r1), eid)
    } else {
        r1
    }
}

/// The children storage after attaching.
pub open spec fn attach_children(
    c: Map<u64, Seq<u64>>,
    parents: Map<u64, u64>,
    eid: u64,
    parent: u64,
    adjacent: u64,
    prev: bool,
) -> Map<u64, Seq<u64>> {
    let c1 = dettach_children(c, parents, eid);
    if parent == DEAD {
        c1
    } else if c1.contains_key(parent) {
        c1.insert(parent, c1[parent].insert(insert_position(adjacent, prev, c1[parent]), eid))
    } else {
        c1.insert(parent, seq![eid])
    }
}

/// The parent storage after attaching.
pub open spec fn attach_parents(parents: Map<u64, u64>, eid: u64, parent: u64) -> Map<u64, u64> {
    if parent == DEAD {
        parents.remove(eid)
    } else {
        parents.remove(eid).insert(eid, parent)
    }
}

/// The hierarchy is well formed: every entity occurs at most once among the root list and
/// all children lists (no list holds an entity twice, roots have no parent), and an entity
/// is listed in the children of `q` exactly when its parent is `q`.
pub open spec fn hierarchy_wf(roots: Seq<u64>, c: Map<u64, Seq<u64>>, p: Map<u64, u64>) -> bool {
    &&& roots.no_duplicates()
    &&& forall|e: u64| #[trigger] roots.contains(e) ==> !p.contains_key(e)
    &&& forall|q: u64| #[trigger] c.contains_key(q) ==> c[q].no_duplicates()
    &&& forall|q: u64, e: u64|
        #![trigger c[q].contains(e)]
        c.contains_key(q) && c[q].contains(e) ==> p.contains_key(e) && p[e] == q
    &&& forall|e: u64| #[trigger] p.contains_key(e) ==> c.contains_key(p[e]) && c[p[e]].contains(e)
}

/// Law: detaching an entity keeps the hierarchy well formed, and afterwards the entity is
/// neither a root nor anyone's child, and has no parent.
pub proof fn lemma_dettach_wf(roots: Seq<u64>, c: Map<u64, Seq<u64>>, p: Map<u64, u64>, eid: u64)
    requires
        hierarchy_wf(roots, c, p),
    ensures
        hierarchy_wf(dettach_roots(roots, p, eid), dettach_children(c, p, eid), p.remove(eid)),
        !dettach_roots(roots, p, eid).contains(eid),
        forall|q: u64|
            #![trigger dettach_children(c, p, eid)[q]]
            dettach_children(c, p, eid).contains_key(q) ==> !dettach_children(c, p, eid)[q].contains(
                eid,
            ),
{
    let r1 = dettach_roots(roots, p, eid);
    let c1 = dettach_children(c, p, eid);
    let p1 = p.remove(eid);
    if p.contains_key(eid) {
        let q = p[eid];
        assert(c.contains_key(q) && c[q].contains(eid));
        lemma_remove_first_nodup(c[q], eid);
        let l = remove_first(c[q], eid);
        assert(r1 == roots);
        assert(!roots.contains(eid));
        assert forall|q2: u64| #[trigger] c1.contains_key(q2) implies c1[q2].no_duplicates() && !c1[q2].contains(eid) by {
            if q2 != q {
                assert(c1[q2] == c[q2]);
                if c[q2].contains(eid) {
                    assert(p[eid] == q2);
                }
            }
        }
        assert forall|q2: u64, e: u64|
            #![trigger c1[q2].contains(e)]
            c1.contains_key(q2) && c1[q2].contains(e) implies p1.contains_key(e) && p1[e] == q2 by {
            if q2 == q {
                assert(c[q].contains(e) && e != eid);
            } else {
                assert(c1[q2] == c[q2]);
            }
        }
        assert forall|e: u64| #[trigger] p1.contains_key(e) implies c1.contains_key(p1[e])
            && c1[p1[e]].contains(e) by {
            assert(e != eid);
            assert(p[e] == p1[e]);
            assert(c[p[e]].contains(e));
            if p[e] == q {
                assert(l.contains(e));
            }
        }
    } else {
        lemma_remove_first_nodup(roots, eid);
        assert(c1 == c);
        assert(p1 =~= p);
        assert forall|q2: u64| #[trigger] c1.contains_key(q2) implies !c1[q2].contains(eid) by {
            if c[q2].contains(eid) {
                assert(p.contains_key(eid));
            }
        }
    }
}

/// Law: attaching keeps the hierarchy well formed; the attached entity ends up in the root
/// list (dead parent) or as a child of `parent` with `parent` as its Parent.
pub proof fn lemma_attach_wf(
    roots: Seq<u64>,
    c: Map<u64, Seq<u64>>,
    p: Map<u64, u64>,
    eid: u64,
    parent: u64,
    adjacent: u64,
    prev: bool,
)
    requires
        hierarchy_wf(roots, c, p),
        attach_ok(roots, c, p, eid, parent, adjacent),
    ensures
        hierarchy_wf(
            attach_roots(roots, p, eid, parent, adjacent, prev),
            attach_children(c, p, eid, parent, adjacent, prev),
            attach_parents(p, eid, parent),
        ),
        parent == DEAD ==> attach_roots(roots, p, eid, parent, adjacent, prev).contains(eid)
            && !attach_parents(p, eid, parent).contains_key(eid),
        parent != DEAD ==> attach_parents(p, eid, parent).contains_key(eid) && attach_parents(
            p,
            eid,
            parent,
        )[eid] == parent && attach_children(c, p, eid, parent, adjacent, prev)[parent].contains(eid),
{
    lemma_dettach_wf(roots, c, p, eid);
    let r1 = dettach_roots(roots, p, eid);
    let c1 = dettach_children(c, p, eid);
    let p1 = p.remove(eid);
    let r2 = attach_roots(roots, p, eid, parent, adjacent, prev);
    let c2 = attach_children(c, p, eid, parent, adjacent, prev);
    let p2 = attach_parents(p, eid, parent);
    if parent == DEAD {
        let pos = insert_position(adjacent, prev, r1);
        if adjacent != DEAD {
            lemma_first_index_props(r1, adjacent);
        }
        lemma_insert_nodup(r1, pos, eid);
        assert(r2 == r1.insert(pos, eid));
        assert(c2 == c1);
        assert(p2 == p1);
        assert(r2.contains(eid));
    } else {
        assert(r2 == r1);
        assert(p2 == p1.insert(eid, parent));
        if c1.contains_key(parent) {
            let l1 = c1[parent];
            let pos = insert_position(adjacent, prev, l1);
            if adjacent != DEAD {
                lemma_first_index_props(l1, adjacent);
            }
            lemma_insert_nodup(l1, pos, eid);
            assert(c2 == c1.insert(parent, l1.insert(pos, eid)));
            assert(c2[parent].contains(eid));
        } else {
            assert(c2 == c1.insert(parent, seq![eid]));
            assert(seq![eid][0] == eid);
            assert(c2[parent].contains(eid));
        }
        assert forall|q: u64| #[trigger] c2.contains_key(q) implies c2[q].no_duplicates() by {
            if q != parent {
                assert(c2[q] == c1[q]);
            }
        }
        assert forall|q: u64, e: u64|
            #![trigger c2[q].contains(e)]
            c2.contains_key(q) && c2[q].contains(e) implies p2.contains_key(e) && p2[e] == q by {
            if q == parent {
                if e != eid {
                    assert(c1.contains_key(parent) && c1[parent].contains(e));
                }
            } else {
                assert(c2[q] == c1[q]);
                assert(c1[q].contains(e));
                assert(e != eid);
            }
        }
        assert forall|e: u64| #[trigger] p2.contains_key(e) implies c2.contains_key(p2[e])
            && c2[p2[e]].contains(e) by {
            if e != eid {
                assert(p1.contains_key(e));
                let q = p1[e];
                assert(c1[q].contains(e));
                if q == parent {
                    assert(c1.contains_key(parent));
                }
            }
        }
        assert forall|e: u64| #[trigger] r2.contains(e) implies !p2.contains_key(e) by {
            assert(e != eid);
        }
    }
}

/// `x` occurs exactly once among the root list and all children lists.
pub open spec fn occurs_once(roots: Seq<u64>, c: Map<u64, Seq<u64>>, x: u64) -> bool {
    ||| (roots.contains(x) && roots.no_duplicates() && forall|q: u64| !#[trigger] listed(c, q, x))
    ||| (!roots.contains(x) && exists|q: u64|
        #[trigger] listed(c, q, x) && c[q].no_duplicates() && forall|q2: u64| q2 != q ==> !#[trigger] listed(c, q2, x))
}

/// `x` occurs nowhere among the root list and all children lists.
pub open spec fn occurs_never(roots: Seq<u64>, c: Map<u64, Seq<u64>>, x: u64) -> bool {
    !roots.contains(x) && forall|q: u64| !#[trigger] listed(c, q, x)
}

/// Law: in a well formed hierarchy every entity occurs at most once among the root list and
/// all children lists.
pub proof fn lemma_wf_at_most_once(roots: Seq<u64>, c: Map<u64, Seq<u64>>, p: Map<u64, u64>, x: u64)
    requires
        hierarchy_wf(roots, c, p),
    ensures
        occurs_once(roots, c, x) || occurs_never(roots, c, x),
{
    if roots.contains(x) {
        assert forall|q: u64| !#[trigger] listed(c, q, x) by {
            if listed(c, q, x) {
                assert(c[q].contains(x));
            }
        }
    } else if exists|q: u64| #[trigger] listed(c, q, x) {
        let q = choose|q: u64| #[trigger] listed(c, q, x);
        assert(c[q].contains(x));
        assert forall|q2: u64| q2 != q implies !#[trigger] listed(c, q2, x) by {
            if listed(c, q2, x) {
                assert(c[q2].contains(x));
            }
        }
    }
}

/// Law: attaching keeps the hierarchy well formed; afterwards the attached entity occurs
/// exactly once (in the root list for a dead parent, else in the children of `parent`),
/// every other entity occurs in the same lists as before, so as many times as before, and
/// keeps its Parent.
pub proof fn lemma_attach_occurrences(
    roots: Seq<u64>,
    c: Map<u64, Seq<u64>>,
    p: Map<u64, u64>,
    eid: u64,
    parent: u64,
    adjacent: u64,
    prev: bool,
)
    requires
        hierarchy_wf(roots, c, p),
        attach_ok(roots, c, p, eid, parent, adjacent),
    ensures
        ({
            let r2 = attach_roots(roots, p, eid, parent, adjacent, prev);
            let c2 = attach_children(c, p, eid, parent, adjacent, prev);
            let p2 = attach_parents(p, eid, parent);
            &&& hierarchy_wf(r2, c2, p2)
            &&& occurs_once(r2, c2, eid)
            &&& parent == DEAD ==> r2.contains(eid)
            &&& parent != DEAD ==> listed(c2, parent, eid)
            &&& forall|x: u64| x != eid ==> (#[trigger] r2.contains(x) <==> roots.contains(x))
            &&& forall|q: u64, x: u64| x != eid ==> (#[trigger] listed(c2, q, x) <==> listed(c, q, x))
            &&& forall|x: u64| x != eid ==> (occurs_once(r2, c2, x) <==> occurs_once(roots, c, x))
            &&& forall|x: u64| x != eid ==> (occurs_never(r2, c2, x) <==> occurs_never(roots, c, x))
            &&& forall|x: u64|
                x != eid ==> (#[trigger] p2.contains_key(x) <==> p.contains_key(x)) && (p.contains_key(x)
                    ==> p2[x] == p[x])
        }),
{
    lemma_attach_wf(roots, c, p, eid, parent, adjacent, prev);
    lemma_dettach_wf(roots, c, p, eid);
    let r1 = dettach_roots(roots, p, eid);
    let c1 = dettach_children(c, p, eid);
    let r2 = attach_roots(roots, p, eid, parent, adjacent, prev);
    let c2 = attach_children(c, p, eid, parent, adjacent, prev);
    let p2 = attach_parents(p, eid, parent);
    lemma_remove_first_nodup(roots, eid);
    // membership of other entities through the detach
    assert forall|x: u64| x != eid implies (r1.contains(x) <==> roots.contains(x)) by {}
    assert forall|q: u64, x: u64| x != eid implies (#[trigger] listed(c1, q, x) <==> listed(c, q, x)) by {
        if p.contains_key(eid) {
            let q0 = p[eid];
            lemma_remove_first_nodup(c[q0], eid);
            if q != q0 {
                assert(c1.contains_key(q) == c.contains_key(q));
                if c.contains_key(q) {
                    assert(c1[q] == c[q]);
                }
            } else if listed(c, q, x) {
                assert(remove_first(c[q0], eid).contains(x));
                assert(remove_first(c[q0], eid).len() > 0);
            }
        }
    }
    // membership of other entities through the attach
    if parent == DEAD {
        let pos = insert_position(adjacent, prev, r1);
        if adjacent != DEAD {
            lemma_first_index_props(r1, adjacent);
        }
        lemma_insert_nodup(r1, pos, eid);
        assert(c2 == c1);
        assert forall|q: u64| !#[trigger] listed(c2, q, eid) by {}
    } else {
        assert(r2 == r1);
        if c1.contains_key(parent) {
            let l1 = c1[parent];
            let pos = insert_position(adjacent, prev, l1);
            if adjacent != DEAD {
                lemma_first_index_props(l1, adjacent);
            }
            lemma_insert_nodup(l1, pos, eid);
        }
        assert forall|q: u64, x: u64| x != eid implies (#[trigger] listed(c2, q, x) <==> listed(c1, q, x)) by {
            if q == parent && c1.contains_key(parent) {
                assert(c2[parent] == c1[parent].insert(insert_position(adjacent, prev, c1[parent]), eid));
            } else if q == parent {
                assert(c2[parent] == seq![eid]);
                if listed(c2, q, x) {
                    assert(seq![eid].contains(x));
                    let j = choose|j: int| 0 <= j < 1 && seq![eid][j] == x;
                }
            } else {
                assert(c2.contains_key(q) == c1.contains_key(q));
            }
        }
        assert(c2[parent].contains(eid));
        assert forall|q2: u64| q2 != parent implies !#[trigger] listed(c2, q2, eid) by {
            if q2 != parent && c2.contains_key(q2) {
                assert(c2[q2] == c1[q2]);
            }
        }
        assert(listed(c2, parent, eid));
    }
    lemma_wf_at_most_once(r2, c2, p2, eid);
    assert forall|x: u64| x != eid implies (occurs_once(r2, c2, x) <==> occurs_once(roots, c, x)) by {
        lemma_wf_at_most_once(r2, c2, p2, x);
        lemma_wf_at_most_once(roots, c, p, x);
        if exists|q: u64| #[trigger] listed(c, q, x) {
            let q = choose|q: u64| #[trigger] listed(c, q, x);
            assert(listed(c2, q, x));
        }
        if exists|q: u64| #[trigger] listed(c2, q, x) {
            let q = choose|q: u64| #[trigger] listed(c2, q, x);
            assert(listed(c, q, x));
        }
    }
    assert forall|x: u64| x != eid implies (occurs_never(r2, c2, x) <==> occurs_never(roots, c, x)) by {
        if !occurs_never(r2, c2, x) && !r2.contains(x) {
            let q = choose|q: u64| #[trigger] listed(c2, q, x);
            assert(listed(c, q, x));
        }
        if !occurs_never(roots, c, x) && !roots.contains(x) {
            let q = choose|q: u64| #[trigger] listed(c, q, x);
            assert(listed(c2, q, x));
        }
    }
}

/// Where to insert a child next to `adjacent` in `s`.
pub open spec fn insert_position(adjacent: u64, prev: bool, s: Seq<u64>) -> int {
    if prev {
        if adjacent == DEAD { s.len() as int } else { first_index(s, adjacent) }
    } else {
        if adjacent == DEAD { 0 } else { first_index(s, adjacent) + 1 }
    }
}

/// The index at which a child is inserted: before `adjacent` when `prev` (at the end when
/// `adjacent` is dead), after it otherwise (at the start when `adjacent` is dead).
fn get_insert_position(adjacent: u64, prev: bool, list: &Vec<u64>) -> (r: usize)
    requires
        adjacent == DEAD || list@.contains(adjacent),
    ensures
        r as int == insert_position(adjacent, prev, list@),
        r <= list.len(),
{
    if adjacent == DEAD {
        if prev { list.len() } else { 0 }
    } else {
        let i = find_position(list, adjacent);
        proof { lemma_first_index_props(list@, adjacent); }
        match i {
            Some(i) => {
                assert(i < list.len());
                if prev { i } else { i + 1 }
            },
            None => 0,
        }
    }
}

/// The children storage after removing `eid` from the list of `p`; a list that becomes
/// empty is removed together with its Children component.
pub open spec fn children_without(c: Map<u64, Seq<u64>>, p: u64, eid: u64) -> Map<u64, Seq<u64>> {
    if c.contains_key(p) && c[p].contains(eid) {
        let l = remove_first(c[p], eid);
        if l.len() == 0 {
            c.remove(p)
        } else {
            c.insert(p, l)
        }
    } else {
        c
    }
}

/// Remove `eid` from the children list of `p`, dropping the Children component of `p`
/// when the list becomes empty.
fn remove_from_children(childrens: &mut HashMap<u64, Children>, p: u64, eid: u64)
    ensures
        children_view(final(childrens)@) == children_without(children_view(old(childrens)@), p, eid),
{
    broadcast use vstd::std_specs::hash::group_hash_axioms;

    let ghost c0 = children_view(childrens@);
    let removed_children = childrens.remove(&p);
    match removed_children {
        Some(children) => {
            assert(c0.contains_key(p) && c0[p] == children@);
            let mut list = children.0;
            let found = vec_remove_first(&mut list, eid);
            if !found {
                childrens.insert(p, Children(list));
                assert(children_view(childrens@) =~= c0);
            } else if list.len() > 0 {
                childrens.insert(p, Children(list));
                assert(children_view(childrens@) =~= c0.insert(p, remove_first(c0[p], eid)));
            } else {
                assert(children_view(childrens@) =~= c0.remove(p));
            }
        },
        None => {
            assert(!c0.contains_key(p));
            assert(children_view(childrens@) =~= c0);
        },
    }
}

/// Detach a child from its parent (or from the root list when it has no parent).
fn dettach(
    hierarchy: &mut Hierarchy,
    childrens: &mut HashMap<u64, Children>,
    parents: &mut HashMap<u64, Parent>,
    eid: u64,
)
    ensures
        final(hierarchy).roots@ == dettach_roots(
            old(hierarchy).roots@,
            parents_view(old(parents)@),
            eid,
        ),
        children_view(final(childrens)@) == dettach_children(
            children_view(old(childrens)@),
            parents_view(old(parents)@),
            eid,
        ),
        parents_view(final(parents)@) == parents_view(old(parents)@).remove(eid),
{
    broadcast use vstd::std_specs::hash::group_hash_axioms;

    let ghost p0 = parents_view(parents@);
    let removed = parents.remove(&eid);
    assert(parents_view(parents@) =~= p0.remove(eid));
    match removed {
        Some(parent) => {
            assert(p0.contains_key(eid) && p0[eid] == parent.0);
            remove_from_children(childrens, parent.0, eid);
        },
        None => {
            assert(!p0.contains_key(eid));
            vec_remove_first(&mut hierarchy.roots, eid);
        },
    }
}

/// Attach a child to a parent adjacent to `adjacent`: before it when `prev` (as the last
/// child when `adjacent` is dead), after it otherwise (as the first child when `adjacent` is
/// dead). A dead `parent` means the top level.
fn attach(
    hierarchy: &mut Hierarchy,
    childrens: &mut HashMap<u64, Children>,
    parents: &mut HashMap<u64, Parent>,
    eid: u64,
    parent: u64,
    adjacent: u64,
    prev: bool,
)
    requires
        attach_ok(
            old(hierarchy).roots@,
            children_view(old(childrens)@),
            parents_view(old(parents)@),
            eid,
            parent,
            adjacent,
        ),
    ensures
        final(hierarchy).roots@ == attach_roots(
            old(hierarchy).roots@,
            parents_view(old(parents)@),
            eid,
            parent,
            adjacent,
            prev,
        ),
        children_view(final(childrens)@) == attach_children(
            children_view(old(childrens)@),
            parents_view(old(parents)@),
            eid,
            parent,
            adjacent,
            prev,
        ),
        parents_view(final(parents)@) == attach_parents(parents_view(old(parents)@), eid, parent),
{
    broadcast use vstd::std_specs::hash::group_hash_axioms;

    // the entity we want to attach might already be attached to another parent
    dettach(hierarchy, childrens, parents, eid);
    if parent == DEAD {
        // attach to the top level
        let i = get_insert_position(adjacent, prev, &hierarchy.roots);
        hierarchy.roots.insert(i, eid);
    } else {
        let ghost c1 = children_view(childrens@);
        let ghost p1 = parents_view(parents@);
        let existing = childrens.remove(&parent);
        match existing {
            Some(children) => {
                // the parent entity already has a Children component
                assert(c1.contains_key(parent) && c1[parent] == children@);
                let mut list = children.0;
                let i = get_insert_position(adjacent, prev, &list);
                list.insert(i, eid);
                childrens.insert(parent, Children(list));
                assert(children_view(childrens@) =~= c1.insert(
                    parent,
                    c1[parent].insert(insert_position(adjacent, prev, c1[parent]), eid),
                ));
            },
            None => {
                // the parent entity is missing a Children component
                assert(!c1.contains_key(parent));
                let mut list = Vec::new();
                list.push(eid);
                assert(list@ =~= seq![eid]);
                childrens.insert(parent, Children(list));
                assert(children_view(childrens@) =~= c1.insert(parent, seq![eid]));
            },
        }
        parents.insert(eid, Parent(parent));
        assert(parents_view(parents@) =~= p1.insert(eid, parent));
    }
}

/// Attach a child to a parent before the `before` entity. If `before` is dead, attach as
/// the last child. A dead `parent` means the top level.
pub fn attach_before(
    hierarchy: &mut Hierarchy,
    childrens: &mut HashMap<u64, Children>,
    parents: &mut HashMap<u64, Parent>,
    eid: u64,
    parent: u64,
    before: u64,
)
    requires
        attach_ok(
            old(hierarchy).roots@,
            children_view(old(childrens)@),
            parents_view(old(parents)@),
            eid,
            parent,
            before,
        ),
    ensures
        final(hierarchy).roots@ == attach_roots(
            old(hierarchy).roots@,
            parents_view(old(parents)@),
            eid,
            parent,
            before,
            true,
        ),
        children_view(final(childrens)@) == attach_children(
            children_view(old(childrens)@),
            parents_view(old(parents)@),
            eid,
            parent,
            before,
            true,
        ),
        parents_view(final(parents)@) == attach_parents(parents_view(old(parents)@), eid, parent),
{
    attach(hierarchy, childrens, parents, eid, parent, before, true);
}

/// Attach a child to a parent after the `after` entity. If `after` is dead, attach as the
/// first child. A dead `parent` means the top level.
pub fn attach_after(
    hierarchy: &mut Hierarchy,
    childrens: &mut HashMap<u64, Children>,
    parents: &mut HashMap<u64, Parent>,
    eid: u64,
    parent: u64,
    after: u64,
)
    requires
        attach_ok(
            old(hierarchy).roots@,
            children_view(old(childrens)@),
            parents_view(old(parents)@),
            eid,
            parent,
            after,
        ),
    ensures
        final(hierarchy).roots@ == attach_roots(
            old(hierarchy).roots@,
            parents_view(old(parents)@),
            eid,
            parent,
            after,
            false,
        ),
        children_view(final(childrens)@) == attach_children(
            children_view(old(childrens)@),
            parents_view(old(parents)@),
            eid,
            parent,
            after,
            false,
        ),
        parents_view(final(parents)@) == attach_parents(parents_view(old(parents)@), eid, parent),
{
    attach(hierarchy, childrens, parents, eid, parent, after, false);
}

/// Whether `e` is in the hierarchy, following Parent links for at most `fuel` steps: an
/// entity without parent is in it; an entity whose parent is not alive is not; otherwise the
/// answer is its parent's. `None` when `fuel` runs out first.
pub open spec fn hierarchy_status(p: Map<u64, u64>, alive: Set<u64>, e: u64, fuel: nat) -> Option<
    bool,
>
    decreases fuel,
{
    if !p.contains_key(e) {
        Some(true)
    } else if !alive.contains(p[e]) {
        Some(false)
    } else if fuel == 0 {
        None
    } else {
        hierarchy_status(p, alive, p[e], (fuel - 1) as nat)
    }
}

/// `e` is in the hierarchy: its chain of alive ancestors ends at an entity without parent.
pub open spec fn in_hierarchy(p: Map<u64, u64>, alive: Set<u64>, e: u64) -> bool {
    exists|n: nat| #[trigger] hierarchy_status(p, alive, e, n) == Some(true)
}

/// `e` is not in the hierarchy: its chain of alive ancestors reaches a dead parent.
pub open spec fn out_of_hierarchy(p: Map<u64, u64>, alive: Set<u64>, e: u64) -> bool {
    exists|n: nat| #[trigger] hierarchy_status(p, alive, e, n) == Some(false)
}

/// The chain of alive ancestors of `e` ends (it does not run into a cycle).
pub open spec fn chain_ends(p: Map<u64, u64>, alive: Set<u64>, e: u64) -> bool {
    exists|n: nat| #[trigger] hierarchy_status(p, alive, e, n) is Some
}

/// More fuel does not change a decided status.
pub proof fn lemma_status_mono(p: Map<u64, u64>, alive: Set<u64>, e: u64, n: nat, m: nat)
    requires
        hierarchy_status(p, alive, e, n) is Some,
        n <= m,
    ensures
        hierarchy_status(p, alive, e, m) == hierarchy_status(p, alive, e, n),
    decreases n,
{
    if p.contains_key(e) && alive.contains(p[e]) && n > 0 {
        lemma_status_mono(p, alive, p[e], (n - 1) as nat, (m - 1) as nat);
    }
}

/// An entity is never both in and out of the hierarchy.
pub proof fn lemma_status_unique(p: Map<u64, u64>, alive: Set<u64>, e: u64)
    ensures
        !(in_hierarchy(p, alive, e) && out_of_hierarchy(p, alive, e)),
{
    if in_hierarchy(p, alive, e) && out_of_hierarchy(p, alive, e) {
        let n = choose|n: nat| #[trigger] hierarchy_status(p, alive, e, n) == Some(true);
        let m = choose|m: nat| #[trigger] hierarchy_status(p, alive, e, m) == Some(false);
        if n <= m {
            lemma_status_mono(p, alive, e, n, m);
        } else {
            lemma_status_mono(p, alive, e, m, n);
        }
    }
}

/// Decides whether `eid` is in the hierarchy, remembering every decided entity in
/// `alive_set` (in the hierarchy) or `dead_set`/`dead_list` (not in it).
fn check_in_hierarchy(
    eid: u64,
    alive_set: &mut HashSet<u64>,
    dead_set: &mut HashSet<u64>,
    dead_list: &mut Vec<u64>,
    parents: &HashMap<u64, Parent>,
    entities: &HashSet<u64>,
    Ghost(fuel): Ghost<nat>,
) -> (r: bool)
    requires
        hierarchy_status(parents_view(parents@), entities@, eid, fuel) is Some,
        forall|x: u64| #[trigger] old(alive_set)@.contains(x) ==> in_hierarchy(parents_view(parents@), entities@, x),
        forall|x: u64| #[trigger] old(dead_set)@.contains(x) ==> out_of_hierarchy(parents_view(parents@), entities@, x),
        forall|x: u64| #[trigger] old(dead_set)@.contains(x) <==> old(dead_list)@.contains(x),
        old(dead_list)@.no_duplicates(),
    ensures
        r == in_hierarchy(parents_view(parents@), entities@, eid),
        !r == out_of_hierarchy(parents_view(parents@), entities@, eid),
        old(alive_set)@.subset_of(final(alive_set)@),
        old(dead_set)@.subset_of(final(dead_set)@),
        forall|x: u64| #[trigger] final(alive_set)@.contains(x) ==> in_hierarchy(parents_view(parents@), entities@, x),
        forall|x: u64| #[trigger] final(dead_set)@.contains(x) ==> out_of_hierarchy(parents_view(parents@), entities@, x),
        forall|x: u64| #[trigger] final(dead_set)@.contains(x) <==> final(dead_list)@.contains(x),
        final(dead_list)@.no_duplicates(),
        forall|x: u64| #[trigger] final(dead_set)@.contains(x) && !old(dead_set)@.contains(x) ==> x == eid || entities@.contains(x),
        r ==> final(alive_set)@.contains(eid),
        !r ==> final(dead_set)@.contains(eid),
    decreases fuel,
{
    broadcast use vstd::std_specs::hash::group_hash_axioms;

    let ghost pv = parents_view(parents@);
    let ghost al = entities@;
    // already checked entity
    if alive_set.contains(&eid) {
        proof { lemma_status_unique(pv, al, eid); }
        return true;
    } else if dead_set.contains(&eid) {
        proof { lemma_status_unique(pv, al, eid); }
        return false;
    }
    // not yet checked, check now
    let in_hierarchy = match parents.get(&eid) {
        Some(parent) => {
            let pe = parent.0;
            assert(pv.contains_key(eid) && pv[eid] == pe);
            if entities.contains(&pe) {
                // alive or dead depends on parent
                assert(fuel > 0);
                let r = check_in_hierarchy(pe, alive_set, dead_set, dead_list, parents, entities, Ghost((fuel - 1) as nat));
                proof {
                    if r {
                        let n = choose|n: nat| #[trigger] hierarchy_status(pv, al, pe, n) == Some(true);
                        assert(hierarchy_status(pv, al, eid, n + 1) == Some(true));
                    } else {
                        let n = choose|n: nat| #[trigger] hierarchy_status(pv, al, pe, n) == Some(false);
                        assert(hierarchy_status(pv, al, eid, n + 1) == Some(false));
                    }
                }
                r
            } else {
                // parent is dead
                assert(hierarchy_status(pv, al, eid, 0) == Some(false));
                false
            }
        },
        None => {
            // eid is a root entity in top level
            assert(!pv.contains_key(eid));
            assert(hierarchy_status(pv, al, eid, 0) == Some(true));
            true
        },
    };
    proof { lemma_status_unique(pv, al, eid); }
    // remember check result and return
    if in_hierarchy {
        alive_set.insert(eid);
    } else {
        let ghost l0 = dead_list@;
        if !dead_set.contains(&eid) {
            dead_list.push(eid);
            proof {
                assert forall|x: u64| #[trigger] dead_list@.contains(x) <==> (l0.contains(x) || x == eid) by {
                    if dead_list@.contains(x) {
                        let j = choose|j: int| 0 <= j < dead_list@.len() && dead_list@[j] == x;
                        if j < l0.len() {
                            assert(l0[j] == x);
                        }
                    }
                    if l0.contains(x) {
                        let j = choose|j: int| 0 <= j < l0.len() && l0[j] == x;
                        assert(dead_list@[j] == x);
                    }
                    if x == eid {
                        assert(dead_list@[l0.len() as int] == eid);
                    }
                }
            }
        }
        dead_set.insert(eid);
    }
    in_hierarchy
}

/// The children storage after removing, in order, every child whose Parent component was
/// deleted together with its entity; `deleted` holds (child, parent) pairs.
pub open spec fn remove_deleted_children(c: Map<u64, Seq<u64>>, deleted: Seq<(u64, u64)>) -> Map<
    u64,
    Seq<u64>,
>
    decreases deleted.len(),
{
    if deleted.len() == 0 {
        c
    } else {
        let prev = remove_deleted_children(c, deleted.drop_last());
        children_without(prev, deleted.last().1, deleted.last().0)
    }
}

/// The roots that are still alive, in order.
pub open spec fn alive_roots(roots: Seq<u64>, entities: Seq<u64>) -> Seq<u64> {
    seq_filter(roots, |e: u64| entities.contains(e))
}

/// An entity without parent that is not among `kept`.
pub open spec fn orphan(p: Map<u64, u64>, kept: Seq<u64>) -> spec_fn(u64) -> bool {
    |e: u64| !p.contains_key(e) && !kept.contains(e)
}

/// The root list after maintenance: the alive roots, then every alive entity without parent
/// that was not already a root, in entity order.
pub open spec fn maintained_roots(roots: Seq<u64>, p: Map<u64, u64>, entities: Seq<u64>) -> Seq<u64> {
    let kept = alive_roots(roots, entities);
    kept + seq_filter(entities, orphan(p, kept))
}

/// The set of the entities of `v`.
pub fn set_of(v: &Vec<u64>) -> (r: HashSet<u64>)
    ensures
        r@ == v@.to_set(),
{
    broadcast use vstd::std_specs::hash::group_hash_axioms;

    let mut set: HashSet<u64> = HashSet::new();
    let mut i: usize = 0;
    while i < v.len()
        invariant
            i <= v.len(),
            forall|x: u64| #[trigger] set@.contains(x) <==> v@.take(i as int).contains(x),
        decreases v.len() - i,
    {
        let e = v[i];
        set.insert(e);
        proof {
            assert forall|x: u64| #[trigger] set@.contains(x) <==> v@.take(i + 1).contains(x) by {
                let t = v@.take(i + 1);
                let t0 = v@.take(i as int);
                assert(t[i as int] == e);
                if t0.contains(x) {
                    let j = choose|j: int| 0 <= j < t0.len() && t0[j] == x;
                    assert(t[j] == x);
                }
                if t.contains(x) {
                    let j = choose|j: int| 0 <= j < t.len() && t[j] == x;
                    if j < i {
                        assert(t0[j] == x);
                    }
                }
            }
        }
        i = i + 1;
    }
    assert(v@.take(v.len() as int) =~= v@);
    assert(set@ =~= v@.to_set());
    set
}

/// The roots of `roots` that are alive, in order.
fn keep_alive_roots(roots: &Vec<u64>, alive: &HashSet<u64>, Ghost(ents): Ghost<Seq<u64>>) -> (r: Vec<
    u64,
>)
    requires
        alive@ == ents.to_set(),
    ensures
        r@ == alive_roots(roots@, ents),
{
    broadcast use vstd::std_specs::hash::group_hash_axioms;

    let mut kept: Vec<u64> = Vec::new();
    let mut i: usize = 0;
    while i < roots.len()
        invariant
            i <= roots.len(),
            alive@ == ents.to_set(),
            kept@ == alive_roots(roots@.take(i as int), ents),
        decreases roots.len() - i,
    {
        let e = roots[i];
        assert(roots@.take(i + 1).drop_last() =~= roots@.take(i as int));
        if alive.contains(&e) {
            kept.push(e);
        }
        i = i + 1;
    }
    assert(roots@.take(roots.len() as int) =~= roots@);
    kept
}

/// Removes, in order, each deleted child from the Children of its parent.
fn remove_deleted(childrens: &mut HashMap<u64, Children>, deleted_parents: &Vec<(u64, u64)>)
    ensures
        children_view(final(childrens)@) == remove_deleted_children(
            children_view(old(childrens)@),
            deleted_parents@,
        ),
{
    let ghost c0 = children_view(childrens@);
    let mut k: usize = 0;
    while k < deleted_parents.len()
        invariant
            k <= deleted_parents.len(),
            children_view(childrens@) == remove_deleted_children(c0, deleted_parents@.take(k as int)),
        decreases deleted_parents.len() - k,
    {
        let (e, parent) = deleted_parents[k];
        let ghost t = deleted_parents@.take(k + 1);
        assert(t.drop_last() =~= deleted_parents@.take(k as int));
        assert(t.last() == (e, parent));
        assert(remove_deleted_children(c0, t) == children_without(
            remove_deleted_children(c0, deleted_parents@.take(k as int)),
            parent,
            e,
        ));
        remove_from_children(childrens, parent, e);
        k = k + 1;
    }
    assert(deleted_parents@.take(deleted_parents.len() as int) =~= deleted_parents@);
}

/// `e` is listed in the children of `q`.
pub open spec fn listed(c: Map<u64, Seq<u64>>, q: u64, e: u64) -> bool {
    c.contains_key(q) && c[q].contains(e)
}

/// The children storage with `e` listed in the children of `q`: appended when it is not
/// listed there yet, in a new Children component when `q` has none.
pub open spec fn add_child(c: Map<u64, Seq<u64>>, q: u64, e: u64) -> Map<u64, Seq<u64>> {
    if listed(c, q, e) {
        c
    } else if c.contains_key(q) {
        c.insert(q, c[q].push(e))
    } else {
        c.insert(q, seq![e])
    }
}

/// The children storage after every entity of `es` (in order) whose parent is alive was
/// added to the children of that parent.
pub open spec fn add_missing_children(
    c: Map<u64, Seq<u64>>,
    p: Map<u64, u64>,
    alive: Set<u64>,
    es: Seq<u64>,
) -> Map<u64, Seq<u64>>
    decreases es.len(),
{
    if es.len() == 0 {
        c
    } else {
        let prev = add_missing_children(c, p, alive, es.drop_last());
        let e = es.last();
        if p.contains_key(e) && alive.contains(p[e]) {
            add_child(prev, p[e], e)
        } else {
            prev
        }
    }
}

/// Lists `e` in the children of `q` when it is not listed there yet.
fn add_to_children(childrens: &mut HashMap<u64, Children>, q: u64, e: u64)
    ensures
        children_view(final(childrens)@) == add_child(children_view(old(childrens)@), q, e),
{
    broadcast use vstd::std_specs::hash::group_hash_axioms;

    let ghost c0 = children_view(childrens@);
    let removed_children = childrens.remove(&q);
    match removed_children {
        Some(children) => {
            assert(c0.contains_key(q) && c0[q] == children@);
            let mut list = children.0;
            match find_position(&list, e) {
                Some(_) => {
                    childrens.insert(q, Children(list));
                    assert(children_view(childrens@) =~= c0);
                },
                None => {
                    list.push(e);
                    childrens.insert(q, Children(list));
                    assert(children_view(childrens@) =~= c0.insert(q, c0[q].push(e)));
                },
            }
        },
        None => {
            let mut list = Vec::new();
            list.push(e);
            assert(list@ =~= seq![e]);
            childrens.insert(q, Children(list));
            assert(children_view(childrens@) =~= c0.insert(q, seq![e]));
        },
    }
}

/// Adds every entity whose parent is alive to the children of its parent, where it is
/// missing.
fn add_missing(
    childrens: &mut HashMap<u64, Children>,
    parents: &HashMap<u64, Parent>,
    entities: &Vec<u64>,
    alive: &HashSet<u64>,
)
    ensures
        children_view(final(childrens)@) == add_missing_children(
            children_view(old(childrens)@),
            parents_view(parents@),
            alive@,
            entities@,
        ),
{
    broadcast use vstd::std_specs::hash::group_hash_axioms;

    let ghost c0 = children_view(childrens@);
    let ghost pv = parents_view(parents@);
    let mut i: usize = 0;
    while i < entities.len()
        invariant
            i <= entities.len(),
            pv == parents_view(parents@),
            children_view(childrens@) == add_missing_children(c0, pv, alive@, entities@.take(i as int)),
        decreases entities.len() - i,
    {
        let e = entities[i];
        assert(entities@.take(i + 1).drop_last() =~= entities@.take(i as int));
        assert(entities@.take(i + 1).last() == e);
        match parents.get(&e) {
            Some(parent) => {
                let q = parent.0;
                assert(pv.contains_key(e) && pv[e] == q);
                if alive.contains(&q) {
                    add_to_children(childrens, q, e);
                }
            },
            None => {
                assert(!pv.contains_key(e));
            },
        }
        i = i + 1;
    }
    assert(entities@.take(entities.len() as int) =~= entities@);
}

/// Appends to `roots` every entity without parent that is not already a root.
fn append_orphans(roots: &mut Vec<u64>, parents: &HashMap<u64, Parent>, entities: &Vec<u64>)
    ensures
        final(roots)@ == old(roots)@ + seq_filter(entities@, orphan(parents_view(parents@), old(roots)@)),
{
    broadcast use vstd::std_specs::hash::group_hash_axioms;

    let ghost pv = parents_view(parents@);
    let ghost kept0 = roots@;
    let ghost pred = orphan(pv, kept0);
    let root_set = set_of(roots);
    let mut i: usize = 0;
    while i < entities.len()
        invariant
            i <= entities.len(),
            pv == parents_view(parents@),
            pred == orphan(pv, kept0),
            root_set@ == kept0.to_set(),
            roots@ == kept0 + seq_filter(entities@.take(i as int), pred),
        decreases entities.len() - i,
    {
        let e = entities[i];
        let ghost t = entities@.take(i + 1);
        let ghost f0 = seq_filter(entities@.take(i as int), pred);
        assert(t.drop_last() =~= entities@.take(i as int));
        assert(t.last() == e);
        let has_parent = parents.contains_key(&e);
        let in_roots = root_set.contains(&e);
        assert(has_parent == pv.contains_key(e));
        assert(in_roots == kept0.contains(e));
        assert(pred(e) == (!has_parent && !in_roots));
        if !has_parent && !in_roots {
            roots.push(e);
            assert(seq_filter(t, pred) == f0.push(e));
            assert(roots@ =~= kept0 + seq_filter(t, pred));
        } else {
            assert(seq_filter(t, pred) == f0);
        }
        i = i + 1;
    }
    assert(entities@.take(entities.len() as int) =~= entities@);
}

/// The entities of `entities` that are not in the hierarchy, without duplicates.
fn entities_out_of_hierarchy(parents: &HashMap<u64, Parent>, entities: &Vec<u64>, alive: &HashSet<
    u64,
>) -> (r: Vec<u64>)
    requires
        alive@ == entities@.to_set(),
        forall|e: u64|
            #![trigger entities@.contains(e)]
            entities@.contains(e) ==> chain_ends(parents_view(parents@), entities@.to_set(), e),
    ensures
        forall|x: u64| #[trigger]
            r@.contains(x) <==> (entities@.contains(x) && out_of_hierarchy(
                parents_view(parents@),
                entities@.to_set(),
                x,
            )),
        r@.no_duplicates(),
{
    let ghost pv = parents_view(parents@);
    let ghost ents = entities@;
    let mut alive_set: HashSet<u64> = HashSet::new();
    let mut dead_set: HashSet<u64> = HashSet::new();
    let mut dead_list: Vec<u64> = Vec::new();
    let mut i: usize = 0;
    while i < entities.len()
        invariant
            i <= entities.len(),
            entities@ == ents,
            pv == parents_view(parents@),
            alive@ == ents.to_set(),
            forall|e: u64|
                #![trigger ents.contains(e)]
                ents.contains(e) ==> chain_ends(pv, ents.to_set(), e),
            forall|x: u64| #[trigger] alive_set@.contains(x) ==> in_hierarchy(pv, alive@, x),
            forall|x: u64| #[trigger] dead_set@.contains(x) ==> out_of_hierarchy(pv, alive@, x),
            forall|x: u64| #[trigger] dead_set@.contains(x) <==> dead_list@.contains(x),
            forall|x: u64| #[trigger] dead_set@.contains(x) ==> ents.contains(x),
            dead_list@.no_duplicates(),
            forall|j: int|
                0 <= j < i ==> #[trigger] out_of_hierarchy(pv, alive@, ents[j]) ==> dead_set@.contains(
                    ents[j],
                ),
        decreases entities.len() - i,
    {
        let e = entities[i];
        assert(ents.contains(e));
        let ghost n = choose|n: nat| #[trigger] hierarchy_status(pv, alive@, e, n) is Some;
        let ghost dead0 = dead_set@;
        let _r = check_in_hierarchy(
            e,
            &mut alive_set,
            &mut dead_set,
            &mut dead_list,
            parents,
            alive,
            Ghost(n),
        );
        proof {
            assert forall|x: u64| #[trigger] dead_set@.contains(x) implies ents.contains(x) by {
                if !dead0.contains(x) {
                    assert(x == e || alive@.contains(x));
                }
            }
        }
        i = i + 1;
    }
    proof {
        assert forall|x: u64| #[trigger] dead_list@.contains(x) <==> (ents.contains(x)
            && out_of_hierarchy(pv, ents.to_set(), x)) by {
            if ents.contains(x) && out_of_hierarchy(pv, ents.to_set(), x) {
                let j = choose|j: int| 0 <= j < ents.len() && ents[j] == x;
                assert(out_of_hierarchy(pv, alive@, ents[j]));
                assert(dead_set@.contains(x));
            }
            if dead_list@.contains(x) {
                assert(dead_set@.contains(x));
                assert(out_of_hierarchy(pv, alive@, x));
            }
        }
    }
    dead_list
}

/// Law: after maintenance the root list holds only alive entities, every alive entity
/// without a Parent component is in it, and it holds no entity twice when the alive
/// entities are distinct and the old roots were.
pub proof fn lemma_maintained_roots(roots: Seq<u64>, p: Map<u64, u64>, entities: Seq<u64>)
    ensures
        forall|e: u64| #[trigger]
            maintained_roots(roots, p, entities).contains(e) ==> entities.contains(e),
        forall|e: u64|
            entities.contains(e) && !p.contains_key(e) ==> #[trigger] maintained_roots(
                roots,
                p,
                entities,
            ).contains(e),
        roots.no_duplicates() && entities.no_duplicates() ==> maintained_roots(
            roots,
            p,
            entities,
        ).no_duplicates(),
{
    let kept = alive_roots(roots, entities);
    let added = seq_filter(entities, orphan(p, kept));
    let m = maintained_roots(roots, p, entities);
    lemma_seq_filter(roots, |e: u64| entities.contains(e));
    lemma_seq_filter(entities, orphan(p, kept));
    assert(m == kept + added);
    assert forall|e: u64| #[trigger] m.contains(e) implies entities.contains(e) by {
        let j = choose|j: int| 0 <= j < m.len() && m[j] == e;
        if j < kept.len() {
            assert(kept[j] == e);
            assert(kept.contains(e));
        } else {
            assert(added[j - kept.len()] == e);
            assert(added.contains(e));
        }
    }
    assert forall|e: u64| entities.contains(e) && !p.contains_key(e) implies #[trigger] m.contains(e) by {
        if kept.contains(e) {
            let j = choose|j: int| 0 <= j < kept.len() && kept[j] == e;
            assert(m[j] == e);
        } else {
            assert(orphan(p, kept)(e));
            assert(added.contains(e));
            let j = choose|j: int| 0 <= j < added.len() && added[j] == e;
            assert(m[kept.len() + j] == e);
        }
    }
    if roots.no_duplicates() && entities.no_duplicates() {
        assert forall|a: int, b: int| 0 <= a < m.len() && 0 <= b < m.len() && a != b implies m[a]
            != m[b] by {
            if a < kept.len() && b >= kept.len() {
                assert(added.contains(m[b]));
                assert(!kept.contains(m[b]));
                assert(kept[a] == m[a]);
            } else if b < kept.len() && a >= kept.len() {
                assert(added.contains(m[a]));
                assert(!kept.contains(m[a]));
                assert(kept[b] == m[b]);
            } else if a < kept.len() {
                assert(kept[a] == m[a] && kept[b] == m[b]);
            } else {
                assert(added[a - kept.len()] == m[a] && added[b - kept.len()] == m[b]);
            }
        }
    }
}

/// The hierarchy maintenance step of a frame:
/// * dead entities are removed from the root list;
/// * entities whose Parent component was deleted with them are removed from the Children of
///   their parent (a Children left empty is removed);
/// * alive entities whose parent is alive are added to the Children of their parent where
///   they are missing;
/// * alive entities without a Parent component are appended to the root list;
/// * the entities that are not in the hierarchy (an ancestor is dead) are returned, so that
///   the caller deletes them with all their descendants.
///
/// `entities` are the alive entities in iteration order, `deleted_parents` the (child,
/// parent) pairs of the Parent components deleted since the last maintenance.
pub fn hierarchy_maintain_system(
    hierarchy: &mut Hierarchy,
    childrens: &mut HashMap<u64, Children>,
    parents: &HashMap<u64, Parent>,
    deleted_parents: &Vec<(u64, u64)>,
    entities: &Vec<u64>,
) -> (entities_to_delete: Vec<u64>)
    requires
        forall|e: u64|
            #![trigger entities@.contains(e)]
            entities@.contains(e) ==> chain_ends(parents_view(parents@), entities@.to_set(), e),
    ensures
        final(hierarchy).roots@ == maintained_roots(
            old(hierarchy).roots@,
            parents_view(parents@),
            entities@,
        ),
        children_view(final(childrens)@) == add_missing_children(
            remove_deleted_children(children_view(old(childrens)@), deleted_parents@),
            parents_view(parents@),
            entities@.to_set(),
            entities@,
        ),
        forall|x: u64| #[trigger]
            entities_to_delete@.contains(x) <==> (entities@.contains(x) && out_of_hierarchy(
                parents_view(parents@),
                entities@.to_set(),
                x,
            )),
        entities_to_delete@.no_duplicates(),
{
    let alive = set_of(entities);
    // remove dead entities in hierarchy root list
    let mut roots = keep_alive_roots(&hierarchy.roots, &alive, Ghost(entities@));
    // remove dead entities with Parent component from Children component
    remove_deleted(childrens, deleted_parents);
    // entities with a Parent component whose parent is alive must be in its Children component
    add_missing(childrens, parents, entities, &alive);
    // entities without a Parent component must be added to the root list
    append_orphans(&mut roots, parents, entities);
    hierarchy.roots = roots;
    // find entities which are not in hierarchy
    entities_out_of_hierarchy(parents, entities, &alive)
}

impl Edit for Parent {
    fn name() -> (r: &'static str)
        ensures
            r@ == "Parent"@,
    {
        "Parent"
    }

    /// The parent entity, read-only.
    fn get_data(&self) -> (r: Data)
        ensures
            r@ == seq![("unnamed-0"@, ValueView::Entity(self.0))],
            limits_view(r.limits@) == seq![("unnamed-0"@, LimitView::ReadOnly)],
    {
        let r = Data::new().insert_with_limit("unnamed-0", Value::Entity(self.0), Limit::ReadOnly);
        proof {
            lemma_kv_put_fresh(Seq::<(Seq<char>, ValueView)>::empty(), "unnamed-0"@, ValueView::Entity(self.0));
            lemma_kv_put_fresh(Seq::<(Seq<char>, LimitView)>::empty(), "unnamed-0"@, LimitView::ReadOnly);
            assert(r@ =~= seq![("unnamed-0"@, ValueView::Entity(self.0))]);
            assert(limits_view(r.limits@) =~= seq![("unnamed-0"@, LimitView::ReadOnly)]);
        }
        r
    }

    /// Takes an entity value named `unnamed-0`.
    fn set_data(&mut self, data: &Data)
        ensures
            final(self).0 == entity_field(data@, "unnamed-0"@, old(self).0),
    {
        if let Some(Value::Entity(v)) = data.get("unnamed-0") {
            self.0 = *v;
        }
    }
}

impl Edit for Children {
    fn name() -> (r: &'static str)
        ensures
            r@ == "Children"@,
    {
        "Children"
    }

    /// The children entities, read-only.
    fn get_data(&self) -> (r: Data)
        ensures
            r@ == seq![("unnamed-0"@, ValueView::VecEntity(self@))],
            limits_view(r.limits@) == seq![("unnamed-0"@, LimitView::ReadOnly)],
    {
        let r = Data::new().insert_with_limit(
            "unnamed-0",
            Value::VecEntity(copy_u64s(&self.0)),
            Limit::ReadOnly,
        );
        proof {
            lemma_kv_put_fresh(Seq::<(Seq<char>, ValueView)>::empty(), "unnamed-0"@, ValueView::VecEntity(self@));
            lemma_kv_put_fresh(Seq::<(Seq<char>, LimitView)>::empty(), "unnamed-0"@, LimitView::ReadOnly);
            assert(r@ =~= seq![("unnamed-0"@, ValueView::VecEntity(self@))]);
            assert(limits_view(r.limits@) =~= seq![("unnamed-0"@, LimitView::ReadOnly)]);
        }
        r
    }

    /// Takes an entity list value named `unnamed-0`.
    fn set_data(&mut self, data: &Data)
        ensures
            final(self)@ == entities_field(data@, "unnamed-0"@, old(self)@),
    {
        if let Some(Value::VecEntity(v)) = data.get("unnamed-0") {
            self.0 = copy_u64s(v);
        }
    }
}

impl Edit for Hierarchy {
    fn name() -> (r: &'static str)
        ensures
            r@ == "Hierarchy"@,
    {
        "Hierarchy"
    }

    /// The root entities, read-only.
    fn get_data(&self) -> (r: Data)
        ensures
            r@ == seq![("roots"@, ValueView::VecEntity(self.roots@))],
            limits_view(r.limits@) == seq![("roots"@, LimitView::ReadOnly)],
    {
        let r = Data::new().insert_with_limit(
            "roots",
            Value::VecEntity(copy_u64s(&self.roots)),
            Limit::ReadOnly,
        );
        proof {
            lemma_kv_put_fresh(Seq::<(Seq<char>, ValueView)>::empty(), "roots"@, ValueView::VecEntity(self.roots@));
            lemma_kv_put_fresh(Seq::<(Seq<char>, LimitView)>::empty(), "roots"@, LimitView::ReadOnly);
            assert(r@ =~= seq![("roots"@, ValueView::VecEntity(self.roots@))]);
            assert(limits_view(r.limits@) =~= seq![("roots"@, LimitView::ReadOnly)]);
        }
        r
    }

    /// Takes an entity list value named `roots`.
    fn set_data(&mut self, data: &Data)
        ensures
            final(self).roots@ == entities_field(data@, "roots"@, old(self).roots@),
    {
        if let Some(Value::VecEntity(v)) = data.get("roots") {
            self.roots = copy_u64s(v);
        }
    }
}

/// Law: writing back the data that a parent, children or hierarchy shows restores it,
/// whatever value it is written into.
pub proof fn lemma_hierarchy_edit_roundtrip(p: u64, q: u64, c: Seq<u64>, d: Seq<u64>)
    ensures
        entity_field(seq![("unnamed-0"@, ValueView::Entity(p))], "unnamed-0"@, q) == p,
        entities_field(seq![("unnamed-0"@, ValueView::VecEntity(c))], "unnamed-0"@, d) == c,
        entities_field(seq![("roots"@, ValueView::VecEntity(c))], "roots"@, d) == c,
{
    lemma_kv_get_at(seq![("unnamed-0"@, ValueView::Entity(p))], 0);
    lemma_kv_get_at(seq![("unnamed-0"@, ValueView::VecEntity(c))], 0);
    lemma_kv_get_at(seq![("roots"@, ValueView::VecEntity(c))], 0);
}

/// Removing the children of deleted Parent components keeps the lists non-empty and free of
/// duplicates, only removes, and leaves no removed child in its list.
proof fn lemma_remove_deleted(c: Map<u64, Seq<u64>>, d: Seq<(u64, u64)>)
    requires
        forall|q: u64| #[trigger] c.contains_key(q) ==> c[q].len() > 0 && c[q].no_duplicates(),
    ensures
        forall|q: u64|
            #[trigger] remove_deleted_children(c, d).contains_key(q) ==> remove_deleted_children(c, d)[q].len()
                > 0 && remove_deleted_children(c, d)[q].no_duplicates(),
        forall|q: u64, x: u64| #[trigger] listed(remove_deleted_children(c, d), q, x) ==> listed(c, q, x),
        forall|k: int| 0 <= k < d.len() ==> !listed(remove_deleted_children(c, d), (#[trigger] d[k]).1, d[k].0),
    decreases d.len(),
{
    if d.len() > 0 {
        let d1 = d.drop_last();
        lemma_remove_deleted(c, d1);
        let r1 = remove_deleted_children(c, d1);
        let r = remove_deleted_children(c, d);
        let (x0, q0) = d.last();
        assert(r == children_without(r1, q0, x0));
        if r1.contains_key(q0) && r1[q0].contains(x0) {
            lemma_remove_first_nodup(r1[q0], x0);
        }
        assert forall|q: u64| #[trigger] r.contains_key(q) implies r[q].len() > 0 && r[q].no_duplicates() by {
            if q != q0 {
                assert(r[q] == r1[q]);
            }
        }
        assert forall|q: u64, x: u64| #[trigger] listed(r, q, x) implies listed(c, q, x) by {
            if q != q0 {
                assert(r[q] == r1[q]);
            }
            assert(listed(r1, q, x));
        }
        assert forall|k: int| 0 <= k < d.len() implies !listed(r, (#[trigger] d[k]).1, d[k].0) by {
            if k < d.len() - 1 {
                assert(d[k] == d1[k]);
                assert(!listed(r1, d1[k].1, d1[k].0));
            }
        }
    }
}

/// Adding missing children keeps the lists non-empty and free of duplicates, keeps every
/// child listed, adds only entities of `es` to the list of their alive parent, and lists
/// every such entity there.
proof fn lemma_add_missing(c: Map<u64, Seq<u64>>, p: Map<u64, u64>, alive: Set<u64>, es: Seq<u64>)
    requires
        forall|q: u64| #[trigger] c.contains_key(q) ==> c[q].len() > 0 && c[q].no_duplicates(),
    ensures
        forall|q: u64|
            #[trigger] add_missing_children(c, p, alive, es).contains_key(q) ==> add_missing_children(
                c,
                p,
                alive,
                es,
            )[q].len() > 0 && add_missing_children(c, p, alive, es)[q].no_duplicates(),
        forall|q: u64, x: u64|
            #[trigger] listed(add_missing_children(c, p, alive, es), q, x) ==> listed(c, q, x) || (es.contains(x)
                && p.contains_key(x) && p[x] == q && alive.contains(q)),
        forall|x: u64|
            #[trigger] es.contains(x) && p.contains_key(x) && alive.contains(p[x]) ==> listed(
                add_missing_children(c, p, alive, es),
                p[x],
                x,
            ),
        forall|q: u64, x: u64| #[trigger] listed(c, q, x) ==> listed(add_missing_children(c, p, alive, es), q, x),
    decreases es.len(),
{
    if es.len() > 0 {
        let d = es.drop_last();
        lemma_add_missing(c, p, alive, d);
        let m1 = add_missing_children(c, p, alive, d);
        let m = add_missing_children(c, p, alive, es);
        let e = es.last();
        assert forall|x: u64| #[trigger] d.contains(x) implies es.contains(x) by {
            let j = choose|j: int| 0 <= j < d.len() && d[j] == x;
            assert(es[j] == x);
        }
        assert(es[es.len() - 1] == e);
        if p.contains_key(e) && alive.contains(p[e]) {
            let q0 = p[e];
            assert(m == add_child(m1, q0, e));
            if !listed(m1, q0, e) && m1.contains_key(q0) {
                assert forall|i: int, j: int| 0 <= i < j < m1[q0].push(e).len() implies m1[q0].push(e)[i]
                    != m1[q0].push(e)[j] by {
                    if j == m1[q0].len() {
                        assert(m1[q0].contains(m1[q0][i]));
                    }
                }
            }
            assert forall|q: u64| #[trigger] m.contains_key(q) implies m[q].len() > 0 && m[q].no_duplicates() by {
                if q != q0 {
                    assert(m[q] == m1[q]);
                }
            }
            assert forall|q: u64, x: u64| #[trigger] listed(m, q, x) implies listed(c, q, x) || (es.contains(x)
                && p.contains_key(x) && p[x] == q && alive.contains(q)) by {
                if q != q0 || x != e {
                    if q == q0 && !listed(m1, q0, e) {
                        if m1.contains_key(q0) {
                            let j = choose|j: int| 0 <= j < m[q].len() && m[q][j] == x;
                            if j < m1[q0].len() {
                                assert(m1[q0][j] == x);
                            }
                        } else {
                            assert(m[q0] == seq![e]);
                            let j = choose|j: int| 0 <= j < m[q].len() && m[q][j] == x;
                        }
                    }
                    assert(listed(m1, q, x));
                }
            }
            assert forall|x: u64| #[trigger] es.contains(x) && p.contains_key(x) && alive.contains(p[x]) implies listed(
                m,
                p[x],
                x,
            ) by {
                if x != e {
                    let j = choose|j: int| 0 <= j < es.len() && es[j] == x;
                    assert(d[j] == x);
                    assert(d.contains(x));
                    assert(listed(m1, p[x], x));
                    if p[x] == q0 && !listed(m1, q0, e) {
                        let i = choose|i: int| 0 <= i < m1[q0].len() && m1[q0][i] == x;
                        assert(m[q0][i] == x);
                    }
                } else if !listed(m1, q0, e) {
                    if m1.contains_key(q0) {
                        assert(m[q0][m1[q0].len() as int] == e);
                    } else {
                        assert(m[q0][0] == e);
                    }
                }
            }
            assert forall|q: u64, x: u64| #[trigger] listed(c, q, x) implies listed(m, q, x) by {
                assert(listed(m1, q, x));
                if q == q0 && !listed(m1, q0, e) {
                    let i = choose|i: int| 0 <= i < m1[q0].len() && m1[q0][i] == x;
                    assert(m[q0][i] == x);
                }
            }
        } else {
            assert(m == m1);
            assert forall|x: u64| #[trigger] es.contains(x) && p.contains_key(x) && alive.contains(p[x]) implies listed(
                m,
                p[x],
                x,
            ) by {
                let j = choose|j: int| 0 <= j < es.len() && es[j] == x;
                if j < d.len() {
                    assert(d[j] == x);
                    assert(d.contains(x));
                } else {
                    assert(x == e);
                }
            }
        }
    }
}

/// An entity in the hierarchy whose Parent is set has an alive parent that is in the
/// hierarchy too; the alive children of an entity in the hierarchy are in it.
proof fn lemma_in_hierarchy_parent(p: Map<u64, u64>, alive: Set<u64>, x: u64, q: u64)
    requires
        p.contains_key(x),
        p[x] == q,
    ensures
        in_hierarchy(p, alive, x) ==> alive.contains(q) && in_hierarchy(p, alive, q),
        alive.contains(q) && in_hierarchy(p, alive, q) ==> in_hierarchy(p, alive, x),
{
    if in_hierarchy(p, alive, x) {
        let n = choose|n: nat| #[trigger] hierarchy_status(p, alive, x, n) == Some(true);
        assert(hierarchy_status(p, alive, q, (n - 1) as nat) == Some(true));
    }
    if alive.contains(q) && in_hierarchy(p, alive, q) {
        let n = choose|n: nat| #[trigger] hierarchy_status(p, alive, q, n) == Some(true);
        assert(hierarchy_status(p, alive, x, n + 1) == Some(true));
    }
}

/// An entity whose chain of ancestors ends and that is not out of the hierarchy is in it.
proof fn lemma_chain_ends_in(p: Map<u64, u64>, alive: Set<u64>, x: u64)
    requires
        chain_ends(p, alive, x),
        !out_of_hierarchy(p, alive, x),
    ensures
        in_hierarchy(p, alive, x),
{
    let n = choose|n: nat| #[trigger] hierarchy_status(p, alive, x, n) is Some;
    if hierarchy_status(p, alive, x, n) == Some(false) {
        assert(out_of_hierarchy(p, alive, x));
    } else {
        assert(hierarchy_status(p, alive, x, n) == Some(true));
    }
}

/// Law: when the children lists were consistent with the Parent components before the
/// frame's deletions (non-empty, without duplicates, each child listed under its parent)
/// and the Parent components of all deleted entities are reported, then once maintenance
/// ran and the entities it returns are deleted (with their components), every alive entity
/// with a Parent has an alive parent that lists it, and every Children list left is
/// non-empty and holds only alive entities.
pub proof fn lemma_maintenance_then_deletion(
    c0: Map<u64, Seq<u64>>,
    p0: Map<u64, u64>,
    entities: Seq<u64>,
    deleted: Seq<(u64, u64)>,
)
    requires
        forall|q: u64| #[trigger] c0.contains_key(q) ==> c0[q].len() > 0 && c0[q].no_duplicates(),
        forall|q: u64, x: u64| #[trigger] listed(c0, q, x) ==> p0.contains_key(x) && p0[x] == q,
        forall|x: u64|
            #[trigger] p0.contains_key(x) && !entities.contains(x) ==> deleted.contains((x, p0[x])),
        forall|e: u64|
            #[trigger] entities.contains(e) ==> chain_ends(p0.restrict(entities.to_set()), entities.to_set(), e),
    ensures
        ({
            let alive = entities.to_set();
            let p = p0.restrict(alive);
            let c1 = add_missing_children(remove_deleted_children(c0.restrict(alive), deleted), p, alive, entities);
            let kept = alive.filter(|x: u64| !out_of_hierarchy(p, alive, x));
            let c2 = c1.restrict(kept);
            let p2 = p.restrict(kept);
            &&& forall|x: u64| #[trigger] p2.contains_key(x) ==> kept.contains(p2[x]) && listed(c2, p2[x], x)
            &&& forall|q: u64|
                #[trigger] c2.contains_key(q) ==> c2[q].len() > 0 && forall|x: u64|
                    c2[q].contains(x) ==> kept.contains(x)
        }),
{
    let alive = entities.to_set();
    let p = p0.restrict(alive);
    let c = c0.restrict(alive);
    let rd = remove_deleted_children(c, deleted);
    let c1 = add_missing_children(rd, p, alive, entities);
    let kept = alive.filter(|x: u64| !out_of_hierarchy(p, alive, x));
    let c2 = c1.restrict(kept);
    let p2 = p.restrict(kept);
    assert forall|q: u64| #[trigger] c.contains_key(q) implies c[q].len() > 0 && c[q].no_duplicates() by {
        assert(c0.contains_key(q));
    }
    lemma_remove_deleted(c, deleted);
    lemma_add_missing(rd, p, alive, entities);
    // every listed child is alive, with the list's owner as its parent
    assert forall|q: u64, x: u64| #[trigger] listed(c1, q, x) implies alive.contains(x) && p.contains_key(x)
        && p[x] == q by {
        if listed(rd, q, x) {
            assert(listed(c, q, x));
            assert(listed(c0, q, x));
            if !alive.contains(x) {
                assert(p0.contains_key(x) && !entities.contains(x));
                assert(deleted.contains((x, p0[x])));
                let k = choose|k: int| 0 <= k < deleted.len() && deleted[k] == (x, p0[x]);
                assert(!listed(rd, deleted[k].1, deleted[k].0));
            }
        }
    }
    assert forall|x: u64| #[trigger] p2.contains_key(x) implies kept.contains(p2[x]) && listed(c2, p2[x], x) by {
        let q = p[x];
        assert(alive.contains(x) && entities.contains(x));
        lemma_chain_ends_in(p, alive, x);
        lemma_in_hierarchy_parent(p, alive, x, q);
        lemma_status_unique(p, alive, q);
        assert(kept.contains(q));
        assert(listed(c1, q, x));
    }
    assert forall|q: u64| #[trigger] c2.contains_key(q) implies c2[q].len() > 0 && forall|x: u64|
        c2[q].contains(x) ==> kept.contains(x) by {
        assert(kept.contains(q) && c1.contains_key(q));
        assert(entities.contains(q));
        lemma_chain_ends_in(p, alive, q);
        assert forall|x: u64| c2[q].contains(x) implies kept.contains(x) by {
            assert(listed(c1, q, x));
            lemma_in_hierarchy_parent(p, alive, x, q);
            lemma_status_unique(p, alive, x);
        }
    }
}

/// The library's filter of a sequence is the filter of the sequence.
proof fn lemma_seq_filter_is_filter(s: Seq<u64>, pred: spec_fn(u64) -> bool)
    ensures
        seq_filter(s, pred) == s.filter(pred),
    decreases s.len(),
{
    reveal_with_fuel(Seq::filter, 1);
    if s.len() == 0 {
        assert(s =~= Seq::<u64>::empty());
    } else {
        lemma_seq_filter_is_filter(s.drop_last(), pred);
    }
}

/// Law: maintenance keeps the alive old roots first, in their old order (the i-th alive old
/// root stays at index i), and appends after them the alive entities without a Parent that
/// were not roots yet, in the order of the entities.
pub proof fn lemma_maintained_roots_order(roots: Seq<u64>, p: Map<u64, u64>, entities: Seq<u64>)
    ensures
        ({
            let m = maintained_roots(roots, p, entities);
            let kept = roots.filter(|e: u64| entities.contains(e));
            &&& kept.len() <= m.len()
            &&& forall|i: int| 0 <= i < kept.len() ==> #[trigger] m[i] == kept[i]
            &&& m.skip(kept.len() as int) == entities.filter(|e: u64| !p.contains_key(e) && !kept.contains(e))
        }),
{
    let kept = roots.filter(|e: u64| entities.contains(e));
    lemma_seq_filter_is_filter(roots, |e: u64| entities.contains(e));
    assert(alive_roots(roots, entities) == kept);
    lemma_seq_filter_is_filter(entities, orphan(p, kept));
    let m = maintained_roots(roots, p, entities);
    let added = entities.filter(orphan(p, kept));
    assert(m == kept + added);
    assert(m.skip(kept.len() as int) =~= added);
    assert(orphan(p, kept) =~= (|e: u64| !p.contains_key(e) && !kept.contains(e)));
}

/// Every entity but `e`.
pub open spec fn other_than(e: u64) -> spec_fn(u64) -> bool {
    |x: u64| x != e
}

/// Keeping every entity but `e` keeps a sequence in which `e` does not occur unchanged.
proof fn lemma_filter_other_absent(s: Seq<u64>, e: u64)
    requires
        !s.contains(e),
    ensures
        s.filter(other_than(e)) == s,
    decreases s.len(),
{
    reveal_with_fuel(Seq::filter, 1);
    if s.len() > 0 {
        let d = s.drop_last();
        assert(!d.contains(e)) by {
            if d.contains(e) {
                let j = choose|j: int| 0 <= j < d.len() && d[j] == e;
                assert(s[j] == e);
            }
        }
        lemma_filter_other_absent(d, e);
        assert(s.last() != e) by {
            assert(s[s.len() - 1] == s.last());
        }
        assert(d.push(s.last()) =~= s);
    }
}

/// Keeping every entity but `e` of `a`, then `e`, then `b`, where `e` occurs in neither `a`
/// nor `b`, gives `a` then `b`.
proof fn lemma_filter_other_around(a: Seq<u64>, b: Seq<u64>, e: u64)
    requires
        !a.contains(e),
        !b.contains(e),
    ensures
        (a + seq![e] + b).filter(other_than(e)) == a + b,
{
    reveal_with_fuel(Seq::filter, 2);
    Seq::filter_distributes_over_add(a + seq![e], b, other_than(e));
    Seq::filter_distributes_over_add(a, seq![e], other_than(e));
    lemma_filter_other_absent(a, e);
    lemma_filter_other_absent(b, e);
    let one = seq![e];
    assert(one.drop_last() =~= Seq::<u64>::empty());
    assert(one.last() == e);
    assert(one.filter(other_than(e)) =~= Seq::<u64>::empty());
    assert(a + Seq::<u64>::empty() =~= a);
}

/// In a sequence without duplicates, removing the first occurrence of `e` is keeping every
/// entity but `e`.
proof fn lemma_remove_first_is_filter(s: Seq<u64>, e: u64)
    requires
        s.no_duplicates(),
    ensures
        remove_first(s, e) == s.filter(other_than(e)),
{
    if s.contains(e) {
        lemma_first_index_props(s, e);
        let k = first_index(s, e);
        let a = s.take(k);
        let b = s.skip(k + 1);
        assert(!a.contains(e)) by {
            if a.contains(e) {
                let j = choose|j: int| 0 <= j < a.len() && a[j] == e;
                assert(s[j] == e);
            }
        }
        assert(!b.contains(e)) by {
            if b.contains(e) {
                let j = choose|j: int| 0 <= j < b.len() && b[j] == e;
                assert(s[k + 1 + j] == e);
            }
        }
        assert(s =~= a + seq![e] + b);
        assert(s.remove(k) =~= a + b);
        lemma_filter_other_around(a, b, e);
    } else {
        lemma_filter_other_absent(s, e);
    }
}

/// Inserting `e` into a sequence where it does not occur, then keeping every entity but `e`,
/// gives the sequence back.
proof fn lemma_insert_filter(s: Seq<u64>, i: int, e: u64)
    requires
        !s.contains(e),
        0 <= i <= s.len(),
    ensures
        s.insert(i, e).filter(other_than(e)) == s,
{
    let a = s.take(i);
    let b = s.skip(i);
    assert(!a.contains(e)) by {
        if a.contains(e) {
            let j = choose|j: int| 0 <= j < a.len() && a[j] == e;
            assert(s[j] == e);
        }
    }
    assert(!b.contains(e)) by {
        if b.contains(e) {
            let j = choose|j: int| 0 <= j < b.len() && b[j] == e;
            assert(s[i + j] == e);
        }
    }
    assert(s.insert(i, e) =~= a + seq![e] + b);
    lemma_filter_other_around(a, b, e);
    assert(a + b =~= s);
}

/// The sibling list that `eid` joins when attached to `parent` (the root list for a dead
/// parent), before attaching.
pub open spec fn target_list(roots: Seq<u64>, c: Map<u64, Seq<u64>>, parent: u64) -> Seq<u64> {
    if parent == DEAD {
        roots
    } else if c.contains_key(parent) {
        c[parent]
    } else {
        Seq::empty()
    }
}

/// `l` is `others` with `eid` placed next to `adjacent`: the other entries keep their order;
/// with a dead `adjacent`, `eid` is last when `prev` and first otherwise; else, where
/// `adjacent` is among `others`, `eid` stands right before it when `prev` and right after it
/// otherwise.
pub open spec fn placed(l: Seq<u64>, others: Seq<u64>, eid: u64, adjacent: u64, prev: bool) -> bool {
    &&& l.len() == others.len() + 1
    &&& l.contains(eid)
    &&& l.filter(other_than(eid)) == others
    &&& adjacent == DEAD && prev ==> l[l.len() - 1] == eid
    &&& adjacent == DEAD && !prev ==> l[0] == eid
    &&& adjacent != DEAD && others.contains(adjacent) && prev ==> exists|i: int|
        0 <= i < l.len() - 1 && l[i] == eid && #[trigger] l[i + 1] == adjacent
    &&& adjacent != DEAD && others.contains(adjacent) && !prev ==> exists|i: int|
        0 <= i < l.len() - 1 && l[i] == adjacent && #[trigger] l[i + 1] == eid
}

/// Inserting `eid` next to `adjacent` places it as `insert_position` says, and leaves the
/// other entries in their order.
proof fn lemma_insert_placement(l1: Seq<u64>, eid: u64, adjacent: u64, prev: bool)
    requires
        !l1.contains(eid),
        adjacent == DEAD || l1.contains(adjacent),
    ensures
        placed(l1.insert(insert_position(adjacent, prev, l1), eid), l1, eid, adjacent, prev),
{
    let pos = insert_position(adjacent, prev, l1);
    if adjacent != DEAD {
        lemma_first_index_props(l1, adjacent);
    }
    let l = l1.insert(pos, eid);
    l1.insert_ensures(pos, eid);
    lemma_insert_filter(l1, pos, eid);
    assert(l[pos] == eid);
    if adjacent != DEAD && prev {
        assert(l[pos + 1] == l1[pos]);
        assert(0 <= pos < l.len() - 1 && l[pos] == eid && l[pos + 1] == adjacent);
    }
    if adjacent != DEAD && !prev {
        let w = pos - 1;
        assert(l[w] == l1[w]);
        assert(0 <= w < l.len() - 1 && l[w] == adjacent && l[w + 1] == eid);
    }
}

/// Before `eid` is inserted, the sibling list that it joins holds the other entries of the
/// target list; a parent without children gets no list until `eid` is inserted.
proof fn lemma_attach_detached_list(
    roots: Seq<u64>,
    c: Map<u64, Seq<u64>>,
    p: Map<u64, u64>,
    eid: u64,
    parent: u64,
)
    requires
        hierarchy_wf(roots, c, p),
    ensures
        ({
            let others = target_list(roots, c, parent).filter(other_than(eid));
            let c1 = dettach_children(c, p, eid);
            &&& !others.contains(eid)
            &&& parent == DEAD ==> dettach_roots(roots, p, eid) == others
            &&& parent != DEAD && c1.contains_key(parent) ==> c1[parent] == others
            &&& parent != DEAD && !c1.contains_key(parent) ==> others.len() == 0
        }),
{
    lemma_dettach_wf(roots, c, p, eid);
    let r1 = dettach_roots(roots, p, eid);
    let c1 = dettach_children(c, p, eid);
    let others = target_list(roots, c, parent).filter(other_than(eid));
    if parent == DEAD {
        if p.contains_key(eid) {
            assert(!roots.contains(eid));
            lemma_filter_other_absent(roots, eid);
        } else {
            lemma_remove_first_is_filter(roots, eid);
        }
        assert(r1 == others);
    } else {
        reveal_with_fuel(Seq::filter, 1);
        if p.contains_key(eid) && p[eid] == parent {
            assert(c.contains_key(parent) && c[parent].contains(eid));
            lemma_remove_first_is_filter(c[parent], eid);
            assert(remove_first(c[parent], eid) == others);
        } else {
            if c.contains_key(parent) {
                assert(!c[parent].contains(eid));
                lemma_filter_other_absent(c[parent], eid);
                assert(c1.contains_key(parent) && c1[parent] == c[parent]);
            } else {
                assert(!c1.contains_key(parent));
            }
        }
        if c1.contains_key(parent) {
            assert(c1[parent] == others);
        }
    }
}

/// Law: attaching puts `eid` into the sibling list of `parent` (the root list for a dead
/// parent), and the other siblings stay in their order. With a dead `adjacent`, `eid`
/// becomes the last sibling when attached before, the first when attached after. Otherwise,
/// when `adjacent` is one of the other siblings, `eid` stands right before it when attached
/// before, right after it when attached after.
pub proof fn lemma_attach_placement(
    roots: Seq<u64>,
    c: Map<u64, Seq<u64>>,
    p: Map<u64, u64>,
    eid: u64,
    parent: u64,
    adjacent: u64,
    prev: bool,
)
    requires
        hierarchy_wf(roots, c, p),
        attach_ok(roots, c, p, eid, parent, adjacent),
    ensures
        parent != DEAD ==> attach_children(c, p, eid, parent, adjacent, prev).contains_key(parent),
        placed(
            if parent == DEAD {
                attach_roots(roots, p, eid, parent, adjacent, prev)
            } else {
                attach_children(c, p, eid, parent, adjacent, prev)[parent]
            },
            target_list(roots, c, parent).filter(other_than(eid)),
            eid,
            adjacent,
            prev,
        ),
{
    lemma_attach_detached_list(roots, c, p, eid, parent);
    let r1 = dettach_roots(roots, p, eid);
    let c1 = dettach_children(c, p, eid);
    let others = target_list(roots, c, parent).filter(other_than(eid));
    if parent == DEAD {
        lemma_insert_placement(r1, eid, adjacent, prev);
    } else if c1.contains_key(parent) {
        lemma_insert_placement(c1[parent], eid, adjacent, prev);
    } else {
        reveal_with_fuel(Seq::filter, 2);
        let l = seq![eid];
        assert(l[0] == eid);
        assert(l.drop_last() =~= Seq::<u64>::empty());
        assert(l.filter(other_than(eid)) =~= Seq::<u64>::empty());
        assert(others =~= Seq::<u64>::empty());
        assert(l.contains(eid));
        assert(placed(l, others, eid, adjacent, prev));
    }
}

} // verus!
