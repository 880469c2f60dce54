//! Asset ids and the asset manager, which maps asset ids to asset paths and caches the
//! bytes of each asset.

use std::collections::HashMap;
use vstd::std_specs::iter::IteratorSpec;
use vstd::prelude::*;

verus! {

/// The id of an asset. The default id is the invalid id, 0.
#[derive(Clone, Copy, PartialEq, Eq, Structural, Debug, Hash)]
pub struct AssetId(pub u64);

impl AssetId {
    /// Wrap a raw id.
    pub fn new(id: u64) -> (r: AssetId)
        ensures
            r.0 == id,
    {
        AssetId(id)
    }

    /// The raw id.
    pub fn id(&self) -> (r: u64)
        ensures
            r == self.0,
    {
        self.0
    }

    /// The invalid asset id, which is also the default one.
    pub fn invalid() -> (r: AssetId)
        ensures
            r.0 == 0,
    {
        AssetId(0)
    }
}

/// The view of an asset path: its components.
pub open spec fn path_view(p: Seq<String>) -> Seq<Seq<char>> {
    p.map_values(|s: String| s@)
}

/// Asset info: the path relative to the root asset directory, as path components, and the
/// cached file content.
#[derive(Clone, Debug)]
pub struct Asset {
    pub path: Vec<String>,
    pub content: Option<Vec<u8>>,
}

/// The view of an [Asset].
pub struct AssetView {
    pub path: Seq<Seq<char>>,
    pub content: Option<Seq<u8>>,
}

impl View for Asset {
    type V = AssetView;

    open spec fn view(&self) -> AssetView {
        AssetView {
            path: path_view(self.path@),
            content: match self.content {
                Some(c) => Some(c@),
                None => None,
            },
        }
    }
}

impl Asset {
    /// Create a new Asset with path and no cached content.
    pub fn new(path: Vec<String>) -> (r: Asset)
        ensures
            r@.path == path_view(path@),
            r@.content is None,
    {
        Asset { path, content: None }
    }
}

/// AssetManager stores all asset info, by asset id.
#[derive(Debug)]
pub struct AssetManager {
    pub assets: HashMap<u64, Asset>,
}

impl View for AssetManager {
    type V = Map<u64, AssetView>;

    open spec fn view(&self) -> Map<u64, AssetView> {
        self.assets@.map_values(|a: Asset| a@)
    }
}

/// Compares two paths component by component.
pub fn path_eq(a: &Vec<String>, b: &Vec<String>) -> (r: bool)
    ensures
        r == (path_view(a@) == path_view(b@)),
{
    if a.len() != b.len() {
        assert(path_view(a@).len() != path_view(b@).len());
        return false;
    }
    let mut i: usize = 0;
    while i < a.len()
        invariant
            i <= a.len(),
            a.len() == b.len(),
            forall|j: int| 0 <= j < i ==> a@[j]@ == b@[j]@,
        decreases a.len() - i,
    {
        if a[i] != b[i] {
            assert(path_view(a@)[i as int] != path_view(b@)[i as int]);
            return false;
        }
        i = i + 1;
    }
    assert(path_view(a@) =~= path_view(b@));
    true
}

/// `dir` is a prefix of `p`, component by component.
pub open spec fn path_starts_with(p: Seq<Seq<char>>, dir: Seq<Seq<char>>) -> bool {
    dir.len() <= p.len() && p.take(dir.len() as int) == dir
}

/// Whether `dir` is a prefix of `p`, component by component (as `Path::starts_with`).
pub fn starts_with(p: &Vec<String>, dir: &Vec<String>) -> (r: bool)
    ensures
        r == path_starts_with(path_view(p@), path_view(dir@)),
{
    if dir.len() > p.len() {
        return false;
    }
    let mut i: usize = 0;
    while i < dir.len()
        invariant
            i <= dir.len(),
            dir.len() <= p.len(),
            forall|j: int| 0 <= j < i ==> p@[j]@ == dir@[j]@,
        decreases dir.len() - i,
    {
        if p[i] != dir[i] {
            assert(path_view(p@).take(dir.len() as int)[i as int] != path_view(dir@)[i as int]);
            return false;
        }
        i = i + 1;
    }
    assert(path_view(p@).take(dir.len() as int) =~= path_view(dir@));
    true
}

/// The content that is cached for an asset: `None` for an unknown asset or one not read.
pub open spec fn cached_content(m: Map<u64, AssetView>, id: u64) -> Option<Seq<u8>> {
    if m.contains_key(id) {
        m[id].content
    } else {
        None
    }
}

/// The path still to read for an asset: that of a known asset whose content is not cached.
pub open spec fn path_to_read(m: Map<u64, AssetView>, id: u64) -> Option<Seq<Seq<char>>> {
    if m.contains_key(id) && m[id].content is None {
        Some(m[id].path)
    } else {
        None
    }
}

/// The assets after the content read for an asset was cached; unknown assets are not added.
pub open spec fn after_read(m: Map<u64, AssetView>, id: u64, content: Seq<u8>) -> Map<u64, AssetView> {
    if m.contains_key(id) {
        m.insert(id, AssetView { path: m[id].path, content: Some(content) })
    } else {
        m
    }
}

impl AssetManager {
    /// An empty asset manager.
    pub fn new() -> (r: AssetManager)
        ensures
            r@ == Map::<u64, AssetView>::empty(),
    {
        let r = AssetManager { assets: HashMap::new() };
        assert(r@ =~= Map::<u64, AssetView>::empty());
        r
    }

    /// The cached content of an asset, if it is known and was read.
    pub fn get_asset_content(&self, asset_id: AssetId) -> (r: Option<&Vec<u8>>)
        ensures
            r is Some <==> (self@.contains_key(asset_id.0) && self@[asset_id.0].content is Some),
            r is Some ==> r.unwrap()@ == self@[asset_id.0].content.unwrap(),
            cached_content(self@, asset_id.0) == (match r {
                Some(c) => Some(c@),
                None => None,
            }),
    {
        broadcast use vstd::std_specs::hash::group_hash_axioms;

        match self.assets.get(&asset_id.0) {
            Some(asset) => match &asset.content {
                Some(c) => Some(c),
                None => None,
            },
            None => None,
        }
    }

    /// The path to read for an asset whose content is not cached yet; `None` when the asset
    /// is unknown or its content is cached.
    pub fn asset_to_read(&self, asset_id: AssetId) -> (r: Option<&Vec<String>>)
        ensures
            r is Some <==> (self@.contains_key(asset_id.0) && self@[asset_id.0].content is None),
            r is Some ==> path_view(r.unwrap()@) == self@[asset_id.0].path,
            path_to_read(self@, asset_id.0) == (match r {
                Some(p) => Some(path_view(p@)),
                None => None,
            }),
    {
        broadcast use vstd::std_specs::hash::group_hash_axioms;

        match self.assets.get(&asset_id.0) {
            Some(asset) => if asset.content.is_none() {
                Some(&asset.path)
            } else {
                None
            },
            None => None,
        }
    }

    /// Cache the content read for an asset; nothing happens for an unknown asset.
    pub fn set_asset_content(&mut self, asset_id: AssetId, content: Vec<u8>)
        ensures
            old(self)@.contains_key(asset_id.0) ==> final(self)@ == old(self)@.insert(
                asset_id.0,
                AssetView { path: old(self)@[asset_id.0].path, content: Some(content@) },
            ),
            !old(self)@.contains_key(asset_id.0) ==> final(self)@ == old(self)@,
            final(self)@ == after_read(old(self)@, asset_id.0, content@),
    {
        broadcast use vstd::std_specs::hash::group_hash_axioms;

        let ghost m0 = self@;
        match self.assets.remove(&asset_id.0) {
            Some(asset) => {
                let ghost cv = content@;
                let a = Asset { path: asset.path, content: Some(content) };
                self.assets.insert(asset_id.0, a);
                assert(self@ =~= m0.insert(asset_id.0, AssetView { path: m0[asset_id.0].path, content: Some(cv) }));
            },
            None => {
                assert(self@ =~= m0);
            },
        }
    }

    /// Get asset path by AssetId. The asset path is relative to the root asset directory.
    pub fn get_asset_path(&self, asset_id: AssetId) -> (r: Option<&Vec<String>>)
        ensures
            r is Some <==> self@.contains_key(asset_id.0),
            r is Some ==> path_view(r.unwrap()@) == self@[asset_id.0].path,
    {
        broadcast use vstd::std_specs::hash::group_hash_axioms;

        match self.assets.get(&asset_id.0) {
            Some(asset) => Some(&asset.path),
            None => None,
        }
    }

    /// Check if asset_id exists.
    pub fn contains_asset(&self, asset_id: AssetId) -> (r: bool)
        ensures
            r == self@.contains_key(asset_id.0),
    {
        broadcast use vstd::std_specs::hash::group_hash_axioms;

        self.assets.contains_key(&asset_id.0)
    }

    /// Get AssetId by asset path. The asset path is relative to the root asset directory.
    /// When several assets have this path, any one of them is returned.
    pub fn get_asset_id(&self, asset_path: &Vec<String>) -> (r: Option<AssetId>)
        ensures
            r is Some ==> self@.contains_key(r.unwrap().0) && self@[r.unwrap().0].path == path_view(
                asset_path@,
            ),
            r is None ==> forall|id: u64|
                #[trigger] self@.contains_key(id) ==> self@[id].path != path_view(asset_path@),
    {
        broadcast use vstd::std_specs::hash::group_hash_axioms;

        let ghost m = self.assets@;
        for x in it: self.assets.iter()
            invariant
                m == self.assets@,
                forall|j: int|
                    #![trigger it.seq()[j]]
                    0 <= j < it.index() ==> path_view((*it.seq()[j].1).path@) != path_view(asset_path@),
        {
            let (id, asset) = x;
            if path_eq(&asset.path, asset_path) {
                return Some(AssetId(*id));
            }
        }
        proof {
            assert forall|id: u64| #[trigger] self@.contains_key(id) implies self@[id].path != path_view(asset_path@) by {
                let v = vstd::std_specs::hash::spec_hash_map_iter(&self.assets).remaining();
                assert(m.contains_key(id));
                assert(v.contains((&id, &m[id])));
                let j = choose|j: int| 0 <= j < v.len() && v[j] == (&id, &m[id]);
            }
        }
        None
    }

    /// Insert an asset with asset_id and path. If asset_id exists, this is equivalent to
    /// clearing the asset cache by setting the asset's content to None.
    pub fn insert_asset(&mut self, asset_id: AssetId, path: Vec<String>)
        ensures
            final(self)@ == old(self)@.insert(asset_id.0, AssetView { path: path_view(path@), content: None }),
    {
        broadcast use vstd::std_specs::hash::group_hash_axioms;

        let ghost m0 = self@;
        let ghost pv = path_view(path@);
        self.assets.insert(asset_id.0, Asset::new(path));
        assert(self@ =~= m0.insert(asset_id.0, AssetView { path: pv, content: None }));
    }

    /// Delete an asset with asset_id.
    pub fn delete_asset(&mut self, asset_id: AssetId)
        ensures
            final(self)@ == old(self)@.remove(asset_id.0),
    {
        broadcast use vstd::std_specs::hash::group_hash_axioms;

        let ghost m0 = self@;
        self.assets.remove(&asset_id.0);
        assert(self@ =~= m0.remove(asset_id.0));
    }

    /// Delete all assets in an asset directory. `dir` is relative to the root asset directory.
    pub fn delete_asset_dir(&mut self, dir: &Vec<String>)
        ensures
            final(self)@ == old(self)@.restrict(
                old(self)@.dom().filter(|k: u64| !path_starts_with(old(self)@[k].path, path_view(dir@))),
            ),
    {
        broadcast use vstd::std_specs::hash::group_hash_axioms;

        let ghost m0 = self@;
        let ghost hm = self.assets@;
        let ghost dv = path_view(dir@);
        let mut asset_ids_to_delete: Vec<u64> = Vec::new();
        for x in it: self.assets.iter()
            invariant
                hm == self.assets@,
                m0 == self@,
                dv == path_view(dir@),
                forall|k: u64| #[trigger] asset_ids_to_delete@.contains(k) ==> m0.contains_key(k) && path_starts_with(m0[k].path, dv),
                forall|j: int|
                    #![trigger it.seq()[j]]
                    0 <= j < it.index() && path_starts_with(path_view((*it.seq()[j].1).path@), dv)
                        ==> asset_ids_to_delete@.contains(*it.seq()[j].0),
        {
            let (id, asset) = x;
            let ghost before = asset_ids_to_delete@;
            if starts_with(&asset.path, dir) {
                asset_ids_to_delete.push(*id);
                proof {
                    assert(asset_ids_to_delete@[before.len() as int] == *id);
                    assert forall|k: u64| #[trigger] asset_ids_to_delete@.contains(k) implies before.contains(k) || k == *id by {
                        let j = choose|j: int| 0 <= j < asset_ids_to_delete@.len() && asset_ids_to_delete@[j] == k;
                        if j < before.len() {
                            assert(before[j] == k);
                        }
                    }
                    assert forall|k: u64| #[trigger] before.contains(k) implies asset_ids_to_delete@.contains(k) by {
                        let j = choose|j: int| 0 <= j < before.len() && before[j] == k;
                        assert(asset_ids_to_delete@[j] == k);
                    }
                }
            }
        }
        let ghost to_delete = m0.dom().filter(|k: u64| path_starts_with(m0[k].path, dv));
        proof {
            assert forall|k: u64| #[trigger] to_delete.contains(k) implies asset_ids_to_delete@.contains(k) by {
                let v = vstd::std_specs::hash::spec_hash_map_iter(&self.assets).remaining();
                assert(hm.contains_key(k));
                assert(v.contains((&k, &hm[k])));
                let j = choose|j: int| 0 <= j < v.len() && v[j] == (&k, &hm[k]);
            }
        }
        let mut i: usize = 0;
        while i < asset_ids_to_delete.len()
            invariant
                i <= asset_ids_to_delete.len(),
                forall|k: u64| #[trigger] asset_ids_to_delete@.contains(k) ==> to_delete.contains(k),
                forall|k: u64| #[trigger] to_delete.contains(k) ==> asset_ids_to_delete@.contains(k),
                to_delete == m0.dom().filter(|k: u64| path_starts_with(m0[k].path, dv)),
                self@ == m0.remove_keys(asset_ids_to_delete@.take(i as int).to_set()),
            decreases asset_ids_to_delete.len() - i,
        {
            let id = asset_ids_to_delete[i];
            let ghost before = self@;
            self.assets.remove(&id);
            proof {
                assert(self@ =~= before.remove(id));
                assert(asset_ids_to_delete@.take(i + 1).to_set() =~= asset_ids_to_delete@.take(i as int).to_set().insert(id)) by {
                    let t = asset_ids_to_delete@.take(i + 1);
                    let t0 = asset_ids_to_delete@.take(i as int);
                    assert forall|k: u64| t.to_set().contains(k) <==> t0.to_set().contains(k) || k == id by {
                        if t.contains(k) {
                            let j = choose|j: int| 0 <= j < t.len() && t[j] == k;
                            if j < i {
                                assert(t0[j] == k);
                            }
                        }
                        if t0.contains(k) {
                            let j = choose|j: int| 0 <= j < t0.len() && t0[j] == k;
                            assert(t[j] == k);
                        }
                        if k == id {
                            assert(t[i as int] == id);
                        }
                    }
                }
                assert(self@ =~= m0.remove_keys(asset_ids_to_delete@.take(i + 1).to_set()));
            }
            i = i + 1;
        }
        proof {
            assert(asset_ids_to_delete@.take(asset_ids_to_delete.len() as int) =~= asset_ids_to_delete@);
            assert(self@ =~= m0.restrict(m0.dom().filter(|k: u64| !path_starts_with(m0[k].path, dv))));
        }
    }

    /// Update the path of an asset; nothing happens for an unknown asset. The cached content
    /// is kept.
    pub fn update_asset_path(&mut self, asset_id: AssetId, path: Vec<String>)
        ensures
            old(self)@.contains_key(asset_id.0) ==> final(self)@ == old(self)@.insert(
                asset_id.0,
                AssetView { path: path_view(path@), content: old(self)@[asset_id.0].content },
            ),
            !old(self)@.contains_key(asset_id.0) ==> final(self)@ == old(self)@,
    {
        broadcast use vstd::std_specs::hash::group_hash_axioms;

        let ghost m0 = self@;
        let ghost pv = path_view(path@);
        match self.assets.remove(&asset_id.0) {
            Some(asset) => {
                let a = Asset { path, content: asset.content };
                self.assets.insert(asset_id.0, a);
                assert(self@ =~= m0.insert(asset_id.0, AssetView { path: pv, content: m0[asset_id.0].content }));
            },
            None => {
                assert(self@ =~= m0);
            },
        }
    }
}

/// Law: an asset file is read once, then its content is served from the cache. An unknown
/// asset has nothing to read and no content, and caching for it changes nothing. A known
/// asset not read yet has its path to read and no content. Once the content read is
/// cached, that content is served and nothing is left to read, so that later lookups read
/// no file; caching the same content again changes nothing. A failed read caches nothing,
/// which leaves the path to read for a later lookup.
pub proof fn lemma_read_once_then_cached(m: Map<u64, AssetView>, id: u64, content: Seq<u8>)
    ensures
        !m.contains_key(id) ==> path_to_read(m, id) is None && cached_content(m, id) is None && after_read(
            m,
            id,
            content,
        ) == m,
        m.contains_key(id) && m[id].content is None ==> path_to_read(m, id) == Some(m[id].path) && cached_content(
            m,
            id,
        ) is None,
        m.contains_key(id) ==> cached_content(after_read(m, id, content), id) == Some(content) && path_to_read(
            after_read(m, id, content),
            id,
        ) is None,
        after_read(after_read(m, id, content), id, content) == after_read(m, id, content),
{
    if m.contains_key(id) {
        let m2 = after_read(m, id, content);
        assert(after_read(m2, id, content) =~= m2);
    }
}

/// Law: once content is cached for a known asset, the asset keeps its path, its content is
/// that content, and it is no longer to be read.
pub proof fn lemma_asset_content_cached(m: Map<u64, AssetView>, id: u64, content: Seq<u8>)
    requires
        m.contains_key(id),
    ensures
        ({
            let m2 = m.insert(id, AssetView { path: m[id].path, content: Some(content) });
            &&& m2.contains_key(id)
            &&& m2[id].path == m[id].path
            &&& m2[id].content == Some(content)
            &&& m2.remove(id) == m.remove(id)
        }),
{
    let m2 = m.insert(id, AssetView { path: m[id].path, content: Some(content) });
    assert(m2.remove(id) =~= m.remove(id));
}

/// Law: inserting an asset makes it known under its path with no cached content, whether
/// or not the id was known; the other assets are unchanged.
pub proof fn lemma_insert_asset_clears_cache(m: Map<u64, AssetView>, id: u64, path: Seq<Seq<char>>)
    ensures
        ({
            let m2 = m.insert(id, AssetView { path, content: None });
            &&& m2.contains_key(id)
            &&& m2[id].path == path
            &&& m2[id].content is None
            &&& forall|k: u64| k != id ==> (#[trigger] m2.contains_key(k) <==> m.contains_key(k))
            &&& forall|k: u64| k != id && m.contains_key(k) ==> #[trigger] m2[k] == m[k]
        }),
{
}

/// Law: deleting an asset directory removes exactly the assets whose path starts with the
/// directory, and keeps the others as they were.
pub proof fn lemma_delete_asset_dir(m: Map<u64, AssetView>, dir: Seq<Seq<char>>)
    ensures
        ({
            let m2 = m.restrict(m.dom().filter(|k: u64| !path_starts_with(m[k].path, dir)));
            &&& forall|k: u64| #[trigger] m2.contains_key(k) <==> (m.contains_key(k) && !path_starts_with(m[k].path, dir))
            &&& forall|k: u64| #[trigger] m2.contains_key(k) ==> m2[k] == m[k]
        }),
{
}

/// Law: a path lies in a directory exactly when the directory's components are the first
/// components of the path, one by one.
pub proof fn lemma_path_starts_with(p: Seq<Seq<char>>, dir: Seq<Seq<char>>)
    ensures
        path_starts_with(p, dir) <==> (dir.len() <= p.len() && forall|i: int| 0 <= i < dir.len() ==> #[trigger] p[i]
            == dir[i]),
{
    if dir.len() <= p.len() && forall|i: int| 0 <= i < dir.len() ==> #[trigger] p[i] == dir[i] {
        assert(p.take(dir.len() as int) =~= dir);
    }
    if path_starts_with(p, dir) {
        assert forall|i: int| 0 <= i < dir.len() implies #[trigger] p[i] == dir[i] by {
            assert(p.take(dir.len() as int)[i] == p[i]);
        }
    }
}

} // verus!
