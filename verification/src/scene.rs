//! The scene manager: which scene is current and which one is to be loaded next, and how
//! the entities of prefabs nested in a loaded scene are grouped.

use crate::asset::AssetId;
use crate::data::{copy_u64s, kv_index, kv_put, lemma_kv_index_prefix};
use crate::prefab::{entries_view, groups_view, EntityIdWithPath};
use std::collections::HashMap;
use vstd::prelude::*;

verus! {

/// The SceneManager unique: the current scene, and the scene to switch to at the start of
/// the next frame.
#[derive(Clone, Copy, PartialEq, Eq, Debug)]
pub struct SceneManager {
    pub current_scene: Option<AssetId>,
    pub to_scene: Option<AssetId>,
}

impl SceneManager {
    /// Create a new SceneManager; when `scene` is some, it is switched to at the start of the
    /// next frame.
    pub fn new(scene: Option<AssetId>) -> (r: SceneManager)
        ensures
            r.current_scene is None,
            r.to_scene == scene,
    {
        SceneManager { current_scene: None, to_scene: scene }
    }

    /// Get the current scene.
    pub fn current_scene(&self) -> (r: Option<AssetId>)
        ensures
            r == self.current_scene,
    {
        self.current_scene
    }

    /// Switch to the scene at the start of next frame.
    pub fn switch_scene(&mut self, scene: AssetId)
        ensures
            final(self).to_scene == Some(scene),
            final(self).current_scene == old(self).current_scene,
    {
        self.to_scene = Some(scene);
    }

    /// Take the scene to load this frame, if a switch was requested: the request is consumed.
    pub fn take_scene_to_load(&mut self) -> (r: Option<AssetId>)
        ensures
            r == old(self).to_scene,
            final(self).to_scene is None,
            final(self).current_scene == old(self).current_scene,
    {
        let r = self.to_scene;
        self.to_scene = None;
        r
    }

    /// Update the current scene.
    pub fn set_current_scene(&mut self, scene: Option<AssetId>)
        ensures
            final(self).current_scene == scene,
            final(self).to_scene == old(self).to_scene,
    {
        self.current_scene = scene;
    }
}

/// The view of an entity map of a loaded scene: ((prefab entity id, path), old id).
pub open spec fn entity_map_view(v: Seq<(EntityIdWithPath, u64)>) -> Seq<((u64, Seq<u64>), u64)> {
    v.map_values(|x: (EntityIdWithPath, u64)| ((x.0.0, x.0.1@), x.1))
}

/// The groups of entities of each nested prefab after adding, in order, the entities of the
/// map that belong to a nested prefab (non-empty path): the first path element selects the
/// nested prefab, the entity is keyed by its new id, and keeps the rest of its path.
pub open spec fn scene_prefab_groups(
    groups: Seq<(u64, Seq<(u64, (u64, Seq<u64>))>)>,
    entity_map: Seq<((u64, Seq<u64>), u64)>,
    old_id_to_new_id: Map<u64, u64>,
) -> Seq<(u64, Seq<(u64, (u64, Seq<u64>))>)>
    decreases entity_map.len(),
{
    if entity_map.len() == 0 {
        groups
    } else {
        let prev = scene_prefab_groups(groups, entity_map.drop_last(), old_id_to_new_id);
        let ((prefab_eid, p), old_id) = entity_map.last();
        if p.len() == 0 {
            prev
        } else {
            let i = p[0] as int;
            prev.update(i, (prev[i].0, kv_put(prev[i].1, old_id_to_new_id[old_id], (prefab_eid, p.drop_first()))))
        }
    }
}

/// Every entity of a nested prefab has a new id and a nested prefab index in range.
pub open spec fn scene_entities_ok(
    n: nat,
    entity_map: Seq<((u64, Seq<u64>), u64)>,
    old_id_to_new_id: Map<u64, u64>,
) -> bool {
    forall|k: int|
        #![trigger entity_map[k]]
        0 <= k < entity_map.len() && entity_map[k].0.1.len() > 0 ==> old_id_to_new_id.contains_key(
            entity_map[k].1,
        ) && entity_map[k].0.1[0] < n
}

/// The index of the entry of an entity id.
fn entry_index(entries: &Vec<(u64, EntityIdWithPath)>, id: u64) -> (r: Option<usize>)
    ensures
        match r {
            Some(i) => i < entries.len() && i as int == kv_index(entries_view(entries@), id),
            None => kv_index(entries_view(entries@), id) < 0,
        },
{
    let ghost v0 = entries_view(entries@);
    let mut i: usize = 0;
    while i < entries.len()
        invariant
            i <= entries.len(),
            v0 == entries_view(entries@),
            kv_index(v0.take(i as int), id) < 0,
        decreases entries.len() - i,
    {
        assert(v0.take(i + 1).drop_last() =~= v0.take(i as int));
        if entries[i].0 == id {
            proof {
                assert(v0[i as int].0 == id);
                assert(kv_index(v0.take(i + 1), id) == i);
                lemma_kv_index_prefix(v0, id, i + 1);
            }
            return Some(i);
        }
        i = i + 1;
    }
    assert(v0.take(v0.len() as int) =~= v0);
    None
}

/// Puts an entity keyed by its id, replacing the entry of an existing id in place.
fn put_entry(entries: &mut Vec<(u64, EntityIdWithPath)>, id: u64, x: EntityIdWithPath)
    ensures
        entries_view(final(entries)@) == kv_put(entries_view(old(entries)@), id, (x.0, x.1@)),
{
    let ghost v0 = entries_view(entries@);
    let ghost xv = (x.0, x.1@);
    match entry_index(entries, id) {
        Some(i) => {
            entries[i] = (id, x);
            assert(entries_view(entries@) =~= kv_put(v0, id, xv));
        },
        None => {
            entries.push((id, x));
            assert(entries_view(entries@) =~= kv_put(v0, id, xv));
        },
    }
}

/// For each prefab nested in a loaded scene, its asset and the entities (by new id) that
/// belong to it, each with its prefab entity id and the rest of its path.
pub fn prefab_entities_of_scene(
    nested_prefabs: &Vec<AssetId>,
    entity_map: &Vec<(EntityIdWithPath, u64)>,
    old_id_to_new_id: &HashMap<u64, u64>,
) -> (r: Vec<(AssetId, Vec<(u64, EntityIdWithPath)>)>)
    requires
        scene_entities_ok(nested_prefabs.len() as nat, entity_map_view(entity_map@), old_id_to_new_id@),
    ensures
        groups_view(r@) == scene_prefab_groups(
            nested_prefabs@.map_values(|a: AssetId| (a.0, Seq::<(u64, (u64, Seq<u64>))>::empty())),
            entity_map_view(entity_map@),
            old_id_to_new_id@,
        ),
{
    broadcast use vstd::std_specs::hash::group_hash_axioms;

    let ghost g0 = nested_prefabs@.map_values(|a: AssetId| (a.0, Seq::<(u64, (u64, Seq<u64>))>::empty()));
    let ghost em = entity_map_view(entity_map@);
    let ghost m = old_id_to_new_id@;
    let mut groups: Vec<(AssetId, Vec<(u64, EntityIdWithPath)>)> = Vec::new();
    let mut i: usize = 0;
    while i < nested_prefabs.len()
        invariant
            i <= nested_prefabs.len(),
            groups@.len() == i,
            groups_view(groups@) == g0.take(i as int),
            g0 == nested_prefabs@.map_values(|a: AssetId| (a.0, Seq::<(u64, (u64, Seq<u64>))>::empty())),
        decreases nested_prefabs.len() - i,
    {
        let empty: Vec<(u64, EntityIdWithPath)> = Vec::new();
        assert(entries_view(empty@) =~= Seq::<(u64, (u64, Seq<u64>))>::empty());
        let item = (AssetId(nested_prefabs[i].0), empty);
        assert(entries_view(item.1@) =~= Seq::<(u64, (u64, Seq<u64>))>::empty());
        groups.push(item);
        assert(g0[i as int] == (nested_prefabs@[i as int].0, Seq::<(u64, (u64, Seq<u64>))>::empty()));
        assert(groups_view(groups@)[i as int] == g0[i as int]);
        assert(groups_view(groups@) =~= g0.take(i + 1));
        i = i + 1;
    }
    assert(g0.take(nested_prefabs.len() as int) =~= g0);
    let mut k: usize = 0;
    while k < entity_map.len()
        invariant
            k <= entity_map.len(),
            em == entity_map_view(entity_map@),
            m == old_id_to_new_id@,
            scene_entities_ok(nested_prefabs.len() as nat, em, m),
            groups@.len() == nested_prefabs.len(),
            groups_view(groups@) == scene_prefab_groups(g0, em.take(k as int), m),
        decreases entity_map.len() - k,
    {
        let (EntityIdWithPath(prefab_eid, p), old_id) = &entity_map[k];
        assert(em[k as int] == ((*prefab_eid, p@), *old_id));
        assert(em.take(k + 1).drop_last() =~= em.take(k as int));
        if p.len() > 0 {
            let new_id = match old_id_to_new_id.get(old_id) {
                Some(n) => *n,
                None => 0,
            };
            let gi = p[0] as usize;
            let mut rest = copy_u64s(p);
            rest.remove(0);
            assert(rest@ =~= p@.drop_first());
            let ghost before = groups_view(groups@);
            let (asset, mut entries) = groups.remove(gi);
            put_entry(&mut entries, new_id, EntityIdWithPath(*prefab_eid, rest));
            groups.insert(gi, (asset, entries));
            assert(groups_view(groups@) =~= before.update(gi as int, (before[gi as int].0, kv_put(before[gi as int].1, m[*old_id], (*prefab_eid, p@.drop_first())))));
        }
        k = k + 1;
    }
    assert(em.take(entity_map.len() as int) =~= em);
    groups
}

/// Every old id of the entity map has a new id.
pub open spec fn all_mapped(entity_map: Seq<((u64, Seq<u64>), u64)>, old_id_to_new_id: Map<u64, u64>) -> bool {
    forall|k: int| 0 <= k < entity_map.len() ==> old_id_to_new_id.contains_key(#[trigger] entity_map[k].1)
}

/// The entities added from a prefab, keyed by new id, each with its prefab entity id and
/// path, in the order of the entity map (a later entry of the same new id replaces an
/// earlier one in place).
pub open spec fn prefab_entries(
    entity_map: Seq<((u64, Seq<u64>), u64)>,
    old_id_to_new_id: Map<u64, u64>,
) -> Seq<(u64, (u64, Seq<u64>))>
    decreases entity_map.len(),
{
    if entity_map.len() == 0 {
        Seq::empty()
    } else {
        let (x, old_id) = entity_map.last();
        kv_put(prefab_entries(entity_map.drop_last(), old_id_to_new_id), old_id_to_new_id[old_id], x)
    }
}

/// The entities added to the world from a prefab, by new id, each with its prefab entity id
/// and path; `None` when an old id of the entity map has no new id.
pub fn prefab_entities_of_map(
    entity_map: &Vec<(EntityIdWithPath, u64)>,
    old_id_to_new_id: &HashMap<u64, u64>,
) -> (r: Option<Vec<(u64, EntityIdWithPath)>>)
    ensures
        r is Some <==> all_mapped(entity_map_view(entity_map@), old_id_to_new_id@),
        r is Some ==> entries_view(r.unwrap()@) == prefab_entries(entity_map_view(entity_map@), old_id_to_new_id@),
{
    broadcast use vstd::std_specs::hash::group_hash_axioms;

    let ghost em = entity_map_view(entity_map@);
    let ghost m = old_id_to_new_id@;
    let mut entries: Vec<(u64, EntityIdWithPath)> = Vec::new();
    assert(entries_view(entries@) =~= Seq::<(u64, (u64, Seq<u64>))>::empty());
    let mut k: usize = 0;
    while k < entity_map.len()
        invariant
            k <= entity_map.len(),
            em == entity_map_view(entity_map@),
            m == old_id_to_new_id@,
            all_mapped(em.take(k as int), m),
            entries_view(entries@) == prefab_entries(em.take(k as int), m),
        decreases entity_map.len() - k,
    {
        let (EntityIdWithPath(prefab_eid, p), old_id) = &entity_map[k];
        assert(em[k as int] == ((*prefab_eid, p@), *old_id));
        assert(em.take(k + 1).drop_last() =~= em.take(k as int));
        assert(em.take(k + 1).last() == em[k as int]);
        match old_id_to_new_id.get(old_id) {
            Some(new_id) => {
                put_entry(&mut entries, *new_id, EntityIdWithPath(*prefab_eid, copy_u64s(p)));
                assert forall|j: int| 0 <= j < k + 1 implies m.contains_key(#[trigger] em.take(k + 1)[j].1) by {
                    if j < k {
                        assert(em.take(k + 1)[j] == em.take(k as int)[j]);
                    }
                }
            },
            None => {
                assert(!all_mapped(em, m)) by {
                    assert(!m.contains_key(em[k as int].1));
                }
                return None;
            },
        }
        k = k + 1;
    }
    assert(em.take(entity_map.len() as int) =~= em);
    Some(entries)
}

} // verus!
