//! Prefab bookkeeping: which prefab asset each entity comes from, its index and path in
//! the prefab, and the root entity of the prefab instance.

use crate::asset::AssetId;
use crate::data::{copy_u64s, lemma_kv_put_fresh, limits_view, Data, Limit, LimitView, Value, ValueView};
use crate::edit::Edit;
use crate::ecs::{eid_index, spec_eid_index, DEAD};
use crate::hierarchy::{children_view, Children, Parent, parents_view};
use std::collections::{HashMap, HashSet};
use vstd::prelude::*;

verus! {

/// Prefab component: the prefab asset an entity belongs to, the entity index in that prefab,
/// the entity id path of nested prefabs, and the root entity of the prefab instance. An
/// entity without this component was not created from a prefab.
#[derive(Clone, Debug)]
pub struct Prefab {
    pub asset: AssetId,
    pub entity_index: u64,
    pub entity_path: Vec<u64>,
    pub root_entity: u64,
}

/// The view of a [Prefab].
pub struct PrefabView {
    pub asset: u64,
    pub entity_index: u64,
    pub entity_path: Seq<u64>,
    pub root_entity: u64,
}

impl View for Prefab {
    type V = PrefabView;

    open spec fn view(&self) -> PrefabView {
        PrefabView {
            asset: self.asset.0,
            entity_index: self.entity_index,
            entity_path: self.entity_path@,
            root_entity: self.root_entity,
        }
    }
}

/// The default Prefab component: invalid asset, index 0, empty path, dead root.
pub open spec fn default_prefab() -> PrefabView {
    PrefabView { asset: 0, entity_index: 0, entity_path: Seq::empty(), root_entity: DEAD }
}

impl Default for Prefab {
    /// Invalid asset, index 0, empty path, dead root.
    fn default() -> (r: Prefab)
        ensures
            r@ == default_prefab(),
    {
        Prefab::new()
    }
}

impl Prefab {
    /// The default Prefab component.
    pub fn new() -> (r: Prefab)
        ensures
            r@ == default_prefab(),
    {
        Prefab { asset: AssetId(0), entity_index: 0, entity_path: Vec::new(), root_entity: DEAD }
    }

    /// Get the asset id of the prefab that this entity belongs to.
    pub fn asset(&self) -> (r: AssetId)
        ensures
            r == self.asset,
    {
        self.asset
    }

    /// Get the entity id index in prefab.
    pub fn entity_index(&self) -> (r: u64)
        ensures
            r == self.entity_index,
    {
        self.entity_index
    }

    /// Get the entity id path in prefab.
    pub fn entity_path(&self) -> (r: &Vec<u64>)
        ensures
            r@ == self.entity_path@,
    {
        &self.entity_path
    }

    /// Get the root entity of prefab that this entity belongs to.
    pub fn root_entity(&self) -> (r: u64)
        ensures
            r == self.root_entity,
    {
        self.root_entity
    }
}

/// The view of a Prefab storage.
pub open spec fn prefabs_view(m: Map<u64, Prefab>) -> Map<u64, PrefabView> {
    m.map_values(|p: Prefab| p@)
}

/// `e` is listed in the Children of `q`.
pub open spec fn child_of(c: Map<u64, Seq<u64>>, q: u64, e: u64) -> bool {
    c.contains_key(q) && c[q].contains(e)
}

/// `e` is `root` or a descendant of `root` at depth at most `n`.
pub open spec fn in_subtree_within(c: Map<u64, Seq<u64>>, root: u64, e: u64, n: nat) -> bool
    decreases n,
{
    e == root || (n > 0 && exists|q: u64|
        #[trigger] child_of(c, q, e) && in_subtree_within(c, root, q, (n - 1) as nat))
}

/// `e` is `root` or one of its descendants.
pub open spec fn in_subtree(c: Map<u64, Seq<u64>>, root: u64, e: u64) -> bool {
    exists|n: nat| #[trigger] in_subtree_within(c, root, e, n)
}

/// The subtree of `root` is a tree: no children list in it lists an entity twice, no entity
/// is listed by two entities of it, and none of it lists `root`.
pub open spec fn subtree_is_tree(c: Map<u64, Seq<u64>>, root: u64) -> bool {
    &&& forall|q: u64| #[trigger] in_subtree(c, root, q) && c.contains_key(q) ==> c[q].no_duplicates()
    &&& forall|q1: u64, q2: u64, e: u64|
        in_subtree(c, root, q1) && in_subtree(c, root, q2) && #[trigger] child_of(c, q1, e) && #[trigger] child_of(
            c,
            q2,
            e,
        ) ==> q1 == q2
    &&& forall|q: u64| in_subtree(c, root, q) ==> !#[trigger] child_of(c, q, root)
}

/// Parameters of [create_prefab_system].
pub struct CreatePrefabParam {
    pub prefab_root_entity: u64,
    pub prefab_asset: AssetId,
    pub prefab_root_entity_to_nested_prefabs_index: HashMap<u64, u64>,
}

/// The Prefab component of `e` after a prefab was created from the subtree it belongs to:
/// an entity that was in no prefab gets its own index; an entity of a nested prefab gets
/// the index of that nested prefab in front of its path. Both get the new asset and root.
pub open spec fn created_prefab(
    old: Option<PrefabView>,
    e: u64,
    root: u64,
    asset: u64,
    nested: Map<u64, u64>,
) -> PrefabView {
    let p = if old is Some { old.unwrap() } else { default_prefab() };
    if p.asset == 0 {
        PrefabView { asset, entity_index: spec_eid_index(e), entity_path: p.entity_path, root_entity: root }
    } else {
        PrefabView {
            asset,
            entity_index: p.entity_index,
            entity_path: seq![nested[p.root_entity]] + p.entity_path,
            root_entity: root,
        }
    }
}

/// The update of the Prefab component of `e` does not panic: a new prefab entity has a
/// valid id, a nested prefab root is known to the parameters.
pub open spec fn create_ok(old: Option<PrefabView>, e: u64, nested: Map<u64, u64>) -> bool {
    let p = if old is Some { old.unwrap() } else { default_prefab() };
    if p.asset == 0 {
        e & 0xffff_ffff_ffffu64 != 0
    } else {
        nested.contains_key(p.root_entity)
    }
}

/// The subtree of a node with depth `n` is visited when the visited set holds the root and
/// is closed under children.
proof fn lemma_subtree_visited(c: Map<u64, Seq<u64>>, root: u64, visited: Set<u64>, e: u64, n: nat)
    requires
        visited.contains(root),
        forall|q: u64, x: u64| #[trigger] child_of(c, q, x) && visited.contains(q) ==> visited.contains(x),
        in_subtree_within(c, root, e, n),
    ensures
        visited.contains(e),
    decreases n,
{
    if e != root {
        let q = choose|q: u64| #[trigger] child_of(c, q, e) && in_subtree_within(c, root, q, (n - 1) as nat);
        lemma_subtree_visited(c, root, visited, q, (n - 1) as nat);
    }
}

/// Update the Prefab component of one entity of a newly created prefab.
fn update_created_prefab(prefabs: &mut HashMap<u64, Prefab>, e: u64, param: &CreatePrefabParam)
    requires
        create_ok(
            if prefabs_view(old(prefabs)@).contains_key(e) { Some(prefabs_view(old(prefabs)@)[e]) } else { None },
            e,
            param.prefab_root_entity_to_nested_prefabs_index@,
        ),
    ensures
        prefabs_view(final(prefabs)@) == prefabs_view(old(prefabs)@).insert(
            e,
            created_prefab(
                if prefabs_view(old(prefabs)@).contains_key(e) { Some(prefabs_view(old(prefabs)@)[e]) } else { None },
                e,
                param.prefab_root_entity,
                param.prefab_asset.0,
                param.prefab_root_entity_to_nested_prefabs_index@,
            ),
        ),
{
    broadcast use vstd::std_specs::hash::group_hash_axioms;

    let ghost pv = prefabs_view(prefabs@);
    let ghost old_p = if pv.contains_key(e) { Some(pv[e]) } else { None::<PrefabView> };
    let mut prefab = match prefabs.remove(&e) {
        Some(p) => p,
        None => Prefab::new(),
    };
    assert(prefab@ == (if old_p is Some { old_p.unwrap() } else { default_prefab() }));
    if prefab.asset.0 == 0 {
        prefab.entity_index = eid_index(e);
    } else {
        let index = match param.prefab_root_entity_to_nested_prefabs_index.get(&prefab.root_entity) {
            Some(i) => *i,
            None => 0,
        };
        let ghost path0 = prefab.entity_path@;
        prefab.entity_path.insert(0, index);
        assert(prefab.entity_path@ =~= seq![index] + path0);
    }
    prefab.asset = AssetId(param.prefab_asset.0);
    prefab.root_entity = param.prefab_root_entity;
    let ghost np = prefab@;
    prefabs.insert(e, prefab);
    assert(prefabs_view(prefabs@) =~= pv.insert(e, np));
}

/// After creating a prefab from the subtree of `param.prefab_root_entity`, update the Prefab
/// component of the root and of each of its descendants, each once. The subtree must be a
/// tree, as the hierarchy keeps it.
pub fn create_prefab_system(
    param: &CreatePrefabParam,
    childrens: &HashMap<u64, Children>,
    prefabs: &mut HashMap<u64, Prefab>,
)
    requires
        subtree_is_tree(children_view(childrens@), param.prefab_root_entity),
        forall|e: u64|
            #![trigger in_subtree(children_view(childrens@), param.prefab_root_entity, e)]
            in_subtree(children_view(childrens@), param.prefab_root_entity, e) ==> create_ok(
                if prefabs_view(old(prefabs)@).contains_key(e) { Some(prefabs_view(old(prefabs)@)[e]) } else { None },
                e,
                param.prefab_root_entity_to_nested_prefabs_index@,
            ),
    ensures
        forall|e: u64|
            #![trigger prefabs_view(final(prefabs)@)[e]]
            in_subtree(children_view(childrens@), param.prefab_root_entity, e) ==> prefabs_view(final(prefabs)@).contains_key(e)
                && prefabs_view(final(prefabs)@)[e] == created_prefab(
                if prefabs_view(old(prefabs)@).contains_key(e) { Some(prefabs_view(old(prefabs)@)[e]) } else { None },
                e,
                param.prefab_root_entity,
                param.prefab_asset.0,
                param.prefab_root_entity_to_nested_prefabs_index@,
            ),
        forall|e: u64|
            !in_subtree(children_view(childrens@), param.prefab_root_entity, e) ==> (
            #[trigger] prefabs_view(final(prefabs)@).contains_key(e) == prefabs_view(old(prefabs)@).contains_key(e))
                && (prefabs_view(old(prefabs)@).contains_key(e) ==> prefabs_view(final(prefabs)@)[e] == prefabs_view(old(prefabs)@)[e]),
{
    broadcast use vstd::std_specs::hash::group_hash_axioms;

    let ghost c = children_view(childrens@);
    let ghost pv0 = prefabs_view(prefabs@);
    let ghost root = param.prefab_root_entity;
    let ghost nested = param.prefab_root_entity_to_nested_prefabs_index@;
    let ghost asset = param.prefab_asset.0;
    let mut visited: HashSet<u64> = HashSet::new();
    let mut es: Vec<u64> = Vec::new();
    es.push(param.prefab_root_entity);
    assert(in_subtree_within(c, root, root, 0));
    assert(es@[0] == root);
    proof {
        assert(childrens@.dom().finite());
        assert(c.dom() =~= childrens@.dom());
    }
    // traverse the root entity and all its descendants
    while es.len() > 0
        invariant
            c == children_view(childrens@),
            c.dom().finite(),
            root == param.prefab_root_entity,
            nested == param.prefab_root_entity_to_nested_prefabs_index@,
            asset == param.prefab_asset.0,
            forall|x: u64| #[trigger] visited@.contains(x) ==> in_subtree(c, root, x),
            forall|i: int| 0 <= i < es@.len() ==> #[trigger] in_subtree(c, root, es@[i]),
            visited@.contains(root) || es@.contains(root),
            forall|q: u64, x: u64|
                #[trigger] child_of(c, q, x) && visited@.contains(q) ==> visited@.contains(x) || es@.contains(x),
            forall|e: u64|
                #![trigger in_subtree(c, root, e)]
                in_subtree(c, root, e) ==> create_ok(if pv0.contains_key(e) { Some(pv0[e]) } else { None }, e, nested),
            forall|e: u64|
                #![trigger visited@.contains(e)]
                visited@.contains(e) ==> prefabs_view(prefabs@).contains_key(e) && prefabs_view(prefabs@)[e]
                    == created_prefab(if pv0.contains_key(e) { Some(pv0[e]) } else { None }, e, root, asset, nested),
            forall|e: u64|
                !visited@.contains(e) ==> (#[trigger] prefabs_view(prefabs@).contains_key(e) == pv0.contains_key(e))
                    && (pv0.contains_key(e) ==> prefabs_view(prefabs@)[e] == pv0[e]),
        decreases c.dom().difference(visited@).len(), es.len(),
    {
        let ghost es0 = es@;
        let e = match es.pop() {
            Some(e) => e,
            None => 0,
        };
        let ghost es1 = es@;
        assert(es0 =~= es1.push(e));
        assert(in_subtree(c, root, e));
        if visited.contains(&e) {
            proof {
                assert forall|q: u64, x: u64| #[trigger] child_of(c, q, x) && visited@.contains(q) implies visited@.contains(x) || es@.contains(x) by {
                    if !visited@.contains(x) {
                        assert(es0.contains(x));
                        let k = choose|k: int| 0 <= k < es1.push(e).len() && es1.push(e)[k] == x;
                        assert(es1[k] == x);
                    }
                }
                if !visited@.contains(root) {
                    assert(es0.contains(root));
                    let k = choose|k: int| 0 <= k < es1.push(e).len() && es1.push(e)[k] == root;
                    assert(es1[k] == root);
                }
            }
            continue;
        }
        let ghost v0 = visited@;
        visited.insert(e);
        proof {
            assert(c.dom().difference(visited@) =~= c.dom().difference(v0).remove(e));
        }
        match childrens.get(&e) {
            Some(children) => {
                assert(c.contains_key(e) && c[e] == children@);
                let list = &children.0;
                let ghost n = choose|n: nat| #[trigger] in_subtree_within(c, root, e, n);
                let mut j: usize = 0;
                while j < list.len()
                    invariant
                        j <= list.len(),
                        c.contains_key(e) && c[e] == list@,
                        in_subtree_within(c, root, e, n),
                        es@ == es1 + list@.take(j as int),
                    decreases list.len() - j,
                {
                    proof {
                        assert(child_of(c, e, list@[j as int]));
                        assert(in_subtree_within(c, root, list@[j as int], n + 1));
                    }
                    es.push(list[j]);
                    assert(es@ =~= es1 + list@.take(j + 1));
                    j = j + 1;
                }
                assert(list@.take(list.len() as int) =~= list@);
                proof {
                    assert forall|i: int| 0 <= i < es@.len() implies #[trigger] in_subtree(c, root, es@[i]) by {
                        if i >= es1.len() {
                            let x = list@[i - es1.len()];
                            assert(es@[i] == x);
                            assert(child_of(c, e, x));
                            assert(in_subtree_within(c, root, x, n + 1));
                        }
                    }
                    assert forall|x: u64| #[trigger] child_of(c, e, x) implies es@.contains(x) by {
                        let k = choose|k: int| 0 <= k < list@.len() && list@[k] == x;
                        assert(es@[es1.len() + k] == x);
                    }
                }
            },
            None => {
                assert(!c.contains_key(e));
            },
        }
        let ghost pv1 = prefabs_view(prefabs@);
        assert(!v0.contains(e));
        assert(pv1.contains_key(e) == pv0.contains_key(e));
        assert(pv0.contains_key(e) ==> pv1[e] == pv0[e]);
        update_created_prefab(prefabs, e, param);
        proof {
            assert forall|x: u64| #[trigger] visited@.contains(x) implies prefabs_view(prefabs@).contains_key(x)
                && prefabs_view(prefabs@)[x] == created_prefab(if pv0.contains_key(x) { Some(pv0[x]) } else { None }, x, root, asset, nested) by {
                if x != e {
                    assert(v0.contains(x));
                    assert(pv1[x] == prefabs_view(prefabs@)[x]);
                }
            }
            assert forall|q: u64, x: u64| #[trigger] child_of(c, q, x) && visited@.contains(q) implies visited@.contains(x) || es@.contains(x) by {
                if q != e {
                    assert(v0.contains(q));
                    if !v0.contains(x) && x != e {
                        assert(es0.contains(x));
                        let k = choose|k: int| 0 <= k < es1.push(e).len() && es1.push(e)[k] == x;
                        assert(es1[k] == x);
                        assert(es@[k] == x);
                    }
                }
            }
            if !visited@.contains(root) {
                assert(es0.contains(root));
                let k = choose|k: int| 0 <= k < es1.push(e).len() && es1.push(e)[k] == root;
                assert(es1[k] == root);
                assert(es@[k] == root);
            }
        }
    }
    proof {
        assert forall|e: u64| #[trigger] in_subtree(c, root, e) implies visited@.contains(e) by {
            let n = choose|n: nat| #[trigger] in_subtree_within(c, root, e, n);
            lemma_subtree_visited(c, root, visited@, e, n);
        }
        assert forall|e: u64| in_subtree(c, root, e) implies #[trigger] prefabs_view(prefabs@).contains_key(e)
            && prefabs_view(prefabs@)[e] == created_prefab(if pv0.contains_key(e) { Some(pv0[e]) } else { None }, e, root, asset, nested) by {
            assert(visited@.contains(e));
            assert(prefabs_view(prefabs@).contains_key(e));
            assert(prefabs_view(prefabs@)[e] == created_prefab(if pv0.contains_key(e) { Some(pv0[e]) } else { None }, e, root, asset, nested));
        }
    }
}

/// An entity id in a prefab together with the path of nested prefab indices leading to it.
#[derive(Clone, Debug, PartialEq, Eq)]
pub struct EntityIdWithPath(pub u64, pub Vec<u64>);

/// The view of the entities of a loaded prefab: (entity, (prefab entity id, path)).
pub open spec fn entries_view(v: Seq<(u64, EntityIdWithPath)>) -> Seq<(u64, (u64, Seq<u64>))> {
    v.map_values(|p: (u64, EntityIdWithPath)| (p.0, (p.1.0, p.1.1@)))
}

/// Parameters of [load_prefab_system].
pub struct LoadPrefabParam {
    pub prefab_root_entity: u64,
    pub prefab_asset: AssetId,
    pub entity_id_to_prefab_entity_id_with_path: Vec<(u64, EntityIdWithPath)>,
}

/// The Prefab storage after setting, in order, the Prefab component of each loaded entity.
pub open spec fn loaded_prefabs(
    pv: Map<u64, PrefabView>,
    entries: Seq<(u64, (u64, Seq<u64>))>,
    asset: u64,
    root: u64,
) -> Map<u64, PrefabView>
    decreases entries.len(),
{
    if entries.len() == 0 {
        pv
    } else {
        let (e, (prefab_entity, path)) = entries.last();
        loaded_prefabs(pv, entries.drop_last(), asset, root).insert(
            e,
            PrefabView {
                asset,
                entity_index: spec_eid_index(prefab_entity),
                entity_path: path,
                root_entity: root,
            },
        )
    }
}

/// Every prefab entity id of the entries is a valid id.
pub open spec fn entries_valid(entries: Seq<(u64, (u64, Seq<u64>))>) -> bool {
    forall|i: int|
        #![trigger entries[i]]
        0 <= i < entries.len() ==> entries[i].1.0 & 0xffff_ffff_ffffu64 != 0
}

/// Set the Prefab component of each loaded entity.
fn load_entries(
    prefabs: &mut HashMap<u64, Prefab>,
    entries: Vec<(u64, EntityIdWithPath)>,
    asset: AssetId,
    root: u64,
)
    requires
        entries_valid(entries_view(entries@)),
    ensures
        prefabs_view(final(prefabs)@) == loaded_prefabs(
            prefabs_view(old(prefabs)@),
            entries_view(entries@),
            asset.0,
            root,
        ),
{
    broadcast use vstd::std_specs::hash::group_hash_axioms;

    let ghost pv0 = prefabs_view(prefabs@);
    let ghost ev = entries_view(entries@);
    let n = entries.len();
    let mut i: usize = 0;
    while i < n
        invariant
            i <= n,
            n == entries.len(),
            ev == entries_view(entries@),
            entries_valid(ev),
            prefabs_view(prefabs@) == loaded_prefabs(pv0, ev.take(i as int), asset.0, root),
        decreases n - i,
    {
        let (e, EntityIdWithPath(prefab_entity, prefab_entity_path)) = &entries[i];
        assert(ev[i as int] == (*e, (*prefab_entity, prefab_entity_path@)));
        assert(ev.take(i + 1).drop_last() =~= ev.take(i as int));
        assert(*prefab_entity & 0xffff_ffff_ffffu64 != 0);
        let prefab = Prefab {
            asset: AssetId(asset.0),
            entity_index: eid_index(*prefab_entity),
            entity_path: copy_u64s(prefab_entity_path),
            root_entity: root,
        };
        let ghost np = prefab@;
        let ghost before = prefabs_view(prefabs@);
        prefabs.insert(*e, prefab);
        assert(prefabs_view(prefabs@) =~= before.insert(*e, np));
        i = i + 1;
    }
    assert(ev.take(n as int) =~= ev);
}

/// After loading a prefab, set the Prefab component of each of its entities: the prefab
/// asset, the entity index and path in the prefab, and the prefab root entity.
pub fn load_prefab_system(param: LoadPrefabParam, prefabs: &mut HashMap<u64, Prefab>)
    requires
        entries_valid(entries_view(param.entity_id_to_prefab_entity_id_with_path@)),
    ensures
        prefabs_view(final(prefabs)@) == loaded_prefabs(
            prefabs_view(old(prefabs)@),
            entries_view(param.entity_id_to_prefab_entity_id_with_path@),
            param.prefab_asset.0,
            param.prefab_root_entity,
        ),
{
    let LoadPrefabParam { prefab_root_entity, prefab_asset, entity_id_to_prefab_entity_id_with_path } = param;
    load_entries(prefabs, entity_id_to_prefab_entity_id_with_path, prefab_asset, prefab_root_entity);
}

/// The parent of `e`, or the dead entity when it has none.
pub open spec fn parent_or_dead(p: Map<u64, u64>, e: u64) -> u64 {
    if p.contains_key(e) {
        p[e]
    } else {
        DEAD
    }
}

/// The entities of the entries.
pub open spec fn entry_keys(entries: Seq<(u64, (u64, Seq<u64>))>) -> Seq<u64> {
    entries.map_values(|x: (u64, (u64, Seq<u64>))| x.0)
}

/// The index of the first entry in `s` whose parent is not an entity of the prefab, or -1.
pub open spec fn root_index(s: Seq<(u64, (u64, Seq<u64>))>, keys: Seq<u64>, p: Map<u64, u64>) -> int
    decreases s.len(),
{
    if s.len() == 0 {
        -1
    } else {
        let i = root_index(s.drop_last(), keys, p);
        if i >= 0 {
            i
        } else if !keys.contains(parent_or_dead(p, s.last().0)) {
            s.len() - 1
        } else {
            -1
        }
    }
}

/// The root entity of a loaded prefab: its first entity whose parent is not in the prefab.
pub open spec fn prefab_root(entries: Seq<(u64, (u64, Seq<u64>))>, p: Map<u64, u64>) -> u64 {
    entries[root_index(entries, entry_keys(entries), p)].0
}

/// A root index found in a prefix is the root index of the whole sequence.
proof fn lemma_root_index_prefix(s: Seq<(u64, (u64, Seq<u64>))>, keys: Seq<u64>, p: Map<u64, u64>, n: int)
    requires
        0 <= n <= s.len(),
        root_index(s.take(n), keys, p) >= 0,
    ensures
        root_index(s, keys, p) == root_index(s.take(n), keys, p),
    decreases s.len() - n,
{
    if n < s.len() {
        assert(s.take(n + 1).drop_last() =~= s.take(n));
        lemma_root_index_prefix(s, keys, p, n + 1);
    } else {
        assert(s.take(n) =~= s);
    }
}

/// The range of a root index.
proof fn lemma_root_index_range(s: Seq<(u64, (u64, Seq<u64>))>, keys: Seq<u64>, p: Map<u64, u64>)
    ensures
        -1 <= root_index(s, keys, p) < s.len(),
    decreases s.len(),
{
    if s.len() > 0 {
        lemma_root_index_range(s.drop_last(), keys, p);
    }
}

/// Finds the root entity of a loaded prefab.
fn find_prefab_root(entries: &Vec<(u64, EntityIdWithPath)>, parents: &HashMap<u64, Parent>) -> (r: u64)
    requires
        root_index(entries_view(entries@), entry_keys(entries_view(entries@)), parents_view(parents@)) >= 0,
    ensures
        r == prefab_root(entries_view(entries@), parents_view(parents@)),
{
    broadcast use vstd::std_specs::hash::group_hash_axioms;

    let ghost ev = entries_view(entries@);
    let ghost keys = entry_keys(ev);
    let ghost pv = parents_view(parents@);
    let mut key_list: Vec<u64> = Vec::new();
    let mut i: usize = 0;
    while i < entries.len()
        invariant
            i <= entries.len(),
            ev == entries_view(entries@),
            keys == entry_keys(ev),
            key_list@ == keys.take(i as int),
        decreases entries.len() - i,
    {
        key_list.push(entries[i].0);
        assert(ev[i as int].0 == entries@[i as int].0);
        assert(keys[i as int] == ev[i as int].0);
        assert(key_list@ =~= keys.take(i + 1));
        i = i + 1;
    }
    assert(keys.take(entries.len() as int) =~= keys);
    let key_set = crate::hierarchy::set_of(&key_list);
    let mut i: usize = 0;
    while i < entries.len()
        invariant
            i <= entries.len(),
            ev == entries_view(entries@),
            keys == entry_keys(ev),
            pv == parents_view(parents@),
            key_set@ == keys.to_set(),
            root_index(ev, keys, pv) >= 0,
            root_index(ev.take(i as int), keys, pv) < 0,
        decreases entries.len() - i,
    {
        let e = entries[i].0;
        let parent = match parents.get(&e) {
            Some(p) => p.0,
            None => DEAD,
        };
        assert(parent == parent_or_dead(pv, e));
        assert(ev.take(i + 1).drop_last() =~= ev.take(i as int));
        assert(ev.take(i + 1).last() == ev[i as int]);
        if !key_set.contains(&parent) {
            proof {
                assert(root_index(ev.take(i + 1), keys, pv) == i);
                lemma_root_index_prefix(ev, keys, pv, i + 1);
            }
            return e;
        }
        i = i + 1;
    }
    proof {
        assert(ev.take(entries.len() as int) =~= ev);
    }
    0
}

/// Parameters of [load_scene_prefabs_system]: for each prefab in the scene, its asset and
/// its loaded entities.
pub struct LoadScenePrefabsParam {
    pub prefab_asset_and_entity_id_to_prefab_entity_id_with_path: Vec<(AssetId, Vec<(u64, EntityIdWithPath)>)>,
}

/// The view of the prefabs of a scene.
pub open spec fn groups_view(v: Seq<(AssetId, Vec<(u64, EntityIdWithPath)>)>) -> Seq<(u64, Seq<(u64, (u64, Seq<u64>))>)> {
    v.map_values(|g: (AssetId, Vec<(u64, EntityIdWithPath)>)| (g.0.0, entries_view(g.1@)))
}

/// Each prefab of a scene can be loaded: a non-empty prefab has a root, and valid ids.
pub open spec fn groups_ok(groups: Seq<(u64, Seq<(u64, (u64, Seq<u64>))>)>, p: Map<u64, u64>) -> bool {
    forall|i: int|
        #![trigger groups[i]]
        0 <= i < groups.len() ==> entries_valid(groups[i].1) && (groups[i].1.len() > 0 ==> root_index(
            groups[i].1,
            entry_keys(groups[i].1),
            p,
        ) >= 0)
}

/// The Prefab storage after loading, in order, every non-empty prefab of a scene.
pub open spec fn loaded_scene(
    pv: Map<u64, PrefabView>,
    groups: Seq<(u64, Seq<(u64, (u64, Seq<u64>))>)>,
    p: Map<u64, u64>,
) -> Map<u64, PrefabView>
    decreases groups.len(),
{
    if groups.len() == 0 {
        pv
    } else {
        let prev = loaded_scene(pv, groups.drop_last(), p);
        let (asset, entries) = groups.last();
        if entries.len() == 0 {
            prev
        } else {
            loaded_prefabs(prev, entries, asset, prefab_root(entries, p))
        }
    }
}

/// After loading a scene, set the Prefab components of the entities of every prefab in the
/// scene, with the root of each prefab found as its entity whose parent is not in it.
/// Prefabs without entities (deleted prefabs) are skipped.
pub fn load_scene_prefabs_system(
    param: LoadScenePrefabsParam,
    parents: &HashMap<u64, Parent>,
    prefabs: &mut HashMap<u64, Prefab>,
)
    requires
        groups_ok(groups_view(param.prefab_asset_and_entity_id_to_prefab_entity_id_with_path@), parents_view(parents@)),
    ensures
        prefabs_view(final(prefabs)@) == loaded_scene(
            prefabs_view(old(prefabs)@),
            groups_view(param.prefab_asset_and_entity_id_to_prefab_entity_id_with_path@),
            parents_view(parents@),
        ),
{
    let groups = param.prefab_asset_and_entity_id_to_prefab_entity_id_with_path;
    let ghost gv = groups_view(groups@);
    let ghost pv0 = prefabs_view(prefabs@);
    let ghost par = parents_view(parents@);
    let mut i: usize = 0;
    while i < groups.len()
        invariant
            i <= groups.len(),
            gv == groups_view(groups@),
            par == parents_view(parents@),
            groups_ok(gv, par),
            prefabs_view(prefabs@) == loaded_scene(pv0, gv.take(i as int), par),
        decreases groups.len() - i,
    {
        let (prefab_asset, entries) = &groups[i];
        assert(gv[i as int] == (prefab_asset.0, entries_view(entries@)));
        assert(gv.take(i + 1).drop_last() =~= gv.take(i as int));
        if entries.len() > 0 {
            let root = find_prefab_root(entries, parents);
            let mut copied: Vec<(u64, EntityIdWithPath)> = Vec::new();
            let mut j: usize = 0;
            while j < entries.len()
                invariant
                    j <= entries.len(),
                    copied@.len() == j,
                    entries_view(copied@) == entries_view(entries@).take(j as int),
                decreases entries.len() - j,
            {
                let (e, EntityIdWithPath(pe, path)) = &entries[j];
                let ghost before = copied@;
                copied.push((*e, EntityIdWithPath(*pe, copy_u64s(path))));
                assert(entries_view(entries@)[j as int] == (*e, (*pe, path@)));
                assert(entries_view(copied@)[j as int] == (*e, (*pe, path@)));
                assert(entries_view(copied@) =~= entries_view(entries@).take(j + 1));
                j = j + 1;
            }
            assert(entries_view(entries@).take(entries.len() as int) =~= entries_view(entries@));
            load_entries(prefabs, copied, AssetId(prefab_asset.0), root);
        }
        i = i + 1;
    }
    assert(gv.take(groups.len() as int) =~= gv);
}

/// The data that a Prefab component shows: all four fields, read-only.
pub open spec fn prefab_data(p: PrefabView) -> Seq<(Seq<char>, ValueView)> {
    seq![
        ("asset"@, ValueView::Asset(p.asset)),
        ("entity_index"@, ValueView::UInt64(p.entity_index)),
        ("entity_path"@, ValueView::VecUInt64(p.entity_path)),
        ("root_entity"@, ValueView::Entity(p.root_entity)),
    ]
}

impl Edit for Prefab {
    fn name() -> (r: &'static str)
        ensures
            r@ == "Prefab"@,
    {
        "Prefab"
    }

    /// The asset, entity index, entity path and root entity, each read-only.
    fn get_data(&self) -> (r: Data)
        ensures
            r@ == prefab_data(self@),
            limits_view(r.limits@) == seq![
                ("asset"@, LimitView::ReadOnly),
                ("entity_index"@, LimitView::ReadOnly),
                ("entity_path"@, LimitView::ReadOnly),
                ("root_entity"@, LimitView::ReadOnly),
            ],
    {
        let d0 = Data::new();
        let d1 = d0.insert_with_limit("asset", Value::Asset(self.asset), Limit::ReadOnly);
        let d2 = d1.insert_with_limit("entity_index", Value::UInt64(self.entity_index), Limit::ReadOnly);
        let d3 = d2.insert_with_limit(
            "entity_path",
            Value::VecUInt64(copy_u64s(&self.entity_path)),
            Limit::ReadOnly,
        );
        let r = d3.insert_with_limit("root_entity", Value::Entity(self.root_entity), Limit::ReadOnly);
        proof {
            reveal_strlit("asset");
            reveal_strlit("entity_index");
            reveal_strlit("entity_path");
            reveal_strlit("root_entity");
            let p = self@;
            assert("asset"@.len() == 5 && "entity_index"@.len() == 12);
            assert("entity_path"@.len() == 11 && "root_entity"@.len() == 11);
            assert("root_entity"@[0] != "entity_path"@[0]);
            lemma_kv_put_fresh(d0@, "asset"@, ValueView::Asset(p.asset));
            lemma_kv_put_fresh(limits_view(d0.limits@), "asset"@, LimitView::ReadOnly);
            assert(d1@ =~= seq![("asset"@, ValueView::Asset(p.asset))]);
            lemma_kv_put_fresh(d1@, "entity_index"@, ValueView::UInt64(p.entity_index));
            lemma_kv_put_fresh(limits_view(d1.limits@), "entity_index"@, LimitView::ReadOnly);
            assert(d2@ =~= d1@.push(("entity_index"@, ValueView::UInt64(p.entity_index))));
            lemma_kv_put_fresh(d2@, "entity_path"@, ValueView::VecUInt64(p.entity_path));
            lemma_kv_put_fresh(limits_view(d2.limits@), "entity_path"@, LimitView::ReadOnly);
            assert(d3@ =~= d2@.push(("entity_path"@, ValueView::VecUInt64(p.entity_path))));
            lemma_kv_put_fresh(d3@, "root_entity"@, ValueView::Entity(p.root_entity));
            lemma_kv_put_fresh(limits_view(d3.limits@), "root_entity"@, LimitView::ReadOnly);
            assert(r@ =~= prefab_data(p));
            assert(limits_view(r.limits@) =~= seq![
                ("asset"@, LimitView::ReadOnly),
                ("entity_index"@, LimitView::ReadOnly),
                ("entity_path"@, LimitView::ReadOnly),
                ("root_entity"@, LimitView::ReadOnly),
            ]);
        }
        r
    }

    /// All fields are read-only: nothing is taken.
    fn set_data(&mut self, data: &Data)
        ensures
            final(self)@ == old(self)@,
    {
    }
}

} // verus!
