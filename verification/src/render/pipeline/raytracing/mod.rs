//! The ray tracing pipeline: materials, shader binding table layout, and the batching of
//! draws into instances of bottom level acceleration structures.

pub mod material;
pub mod util;

use self::material::{vec3_view, EnumMaterial, Vec3Bits, F32_MAX, F32_ONE, F32_ZERO};
use crate::data::{
    float32_field, kv_get, kv_put, lemma_kv_put_get, limits_view, uint32_field, Data, Limit, LimitView, Value,
    ValueView,
};
use crate::ecs::DEAD;
use indexmap::IndexSet;
use std::collections::HashMap;
use vstd::prelude::*;

verus! {

/// The bit pattern of the `f32` value 10.0.
pub const F32_TEN: u32 = 0x4120_0000u32;

/// Ray tracing render pipeline settings; `f32` values by their bit patterns.
#[derive(Clone, Copy, PartialEq, Eq, Structural, Debug)]
pub struct RayTracingSettings {
    /// The radius of the camera lens, for depth of field.
    pub camera_lens_radius: u32,
    /// The distance at which objects appear sharp.
    pub camera_focus_dist: u32,
    /// The number of rays traced per pixel, for anti-aliasing.
    pub samples: u32,
    /// The most bounces a ray can make.
    pub max_bounces: u32,
    /// The miss color when the ray points to +Y; the miss color is a gradient from bottom to top.
    pub miss_color_top: Vec3Bits,
    /// The miss color when the ray points to -Y.
    pub miss_color_bottom: Vec3Bits,
}

impl Default for RayTracingSettings {
    /// No lens, focus at 10.0, 30 samples and bounces, white top and black bottom.
    fn default() -> (r: RayTracingSettings)
        ensures
            r == (RayTracingSettings {
                camera_lens_radius: F32_ZERO,
                camera_focus_dist: F32_TEN,
                samples: 30,
                max_bounces: 30,
                miss_color_top: Vec3Bits { x: F32_ONE, y: F32_ONE, z: F32_ONE },
                miss_color_bottom: Vec3Bits { x: F32_ZERO, y: F32_ZERO, z: F32_ZERO },
            }),
    {
        RayTracingSettings {
            camera_lens_radius: F32_ZERO,
            camera_focus_dist: F32_TEN,
            samples: 30,
            max_bounces: 30,
            miss_color_top: Vec3Bits { x: F32_ONE, y: F32_ONE, z: F32_ONE },
            miss_color_bottom: Vec3Bits { x: F32_ZERO, y: F32_ZERO, z: F32_ZERO },
        }
    }
}

/// `d` with the values of the settings put in, in field order.
pub open spec fn settings_data(d: Seq<(Seq<char>, ValueView)>, s: RayTracingSettings) -> Seq<(Seq<char>, ValueView)> {
    let d1 = kv_put(d, "camera_lens_radius"@, ValueView::Float32(s.camera_lens_radius));
    let d2 = kv_put(d1, "camera_focus_dist"@, ValueView::Float32(s.camera_focus_dist));
    let d3 = kv_put(d2, "samples"@, ValueView::UInt32(s.samples));
    let d4 = kv_put(d3, "max_bounces"@, ValueView::UInt32(s.max_bounces));
    let d5 = kv_put(d4, "miss_color_top"@, vec3_view(s.miss_color_top));
    kv_put(d5, "miss_color_bottom"@, vec3_view(s.miss_color_bottom))
}

/// `l` with the limits of the settings put in: ranges from 0.0 for the lens and the focus,
/// from 1 for the samples, color pickers for the miss colors; the bounces have no limit.
pub open spec fn settings_limits(l: Seq<(Seq<char>, LimitView)>) -> Seq<(Seq<char>, LimitView)> {
    let l1 = kv_put(l, "camera_lens_radius"@, LimitView::Float32Range(F32_ZERO, F32_MAX));
    let l2 = kv_put(l1, "camera_focus_dist"@, LimitView::Float32Range(F32_ZERO, F32_MAX));
    let l3 = kv_put(l2, "samples"@, LimitView::UInt32Range(1, u32::MAX));
    let l4 = kv_put(l3, "miss_color_top"@, LimitView::Vec3Color);
    kv_put(l4, "miss_color_bottom"@, LimitView::Vec3Color)
}

/// The three-`f32` value named `k` in `d`, or `old` when `d` holds none.
pub open spec fn vec3_bits_field(d: Seq<(Seq<char>, ValueView)>, k: Seq<char>, old: Vec3Bits) -> Vec3Bits {
    match kv_get(d, k) {
        Some(ValueView::Vec3(x, y, z)) => Vec3Bits { x, y, z },
        _ => old,
    }
}

/// The settings after taking the values of `d`.
pub open spec fn settings_set(s: RayTracingSettings, d: Seq<(Seq<char>, ValueView)>) -> RayTracingSettings {
    RayTracingSettings {
        camera_lens_radius: float32_field(d, "camera_lens_radius"@, s.camera_lens_radius),
        camera_focus_dist: float32_field(d, "camera_focus_dist"@, s.camera_focus_dist),
        samples: uint32_field(d, "samples"@, s.samples),
        max_bounces: uint32_field(d, "max_bounces"@, s.max_bounces),
        miss_color_top: vec3_bits_field(d, "miss_color_top"@, s.miss_color_top),
        miss_color_bottom: vec3_bits_field(d, "miss_color_bottom"@, s.miss_color_bottom),
    }
}

impl RayTracingSettings {
    /// Puts the settings into `data`, with their limits.
    pub fn get_data(&self, data: &mut Data)
        ensures
            final(data)@ == settings_data(old(data)@, *self),
            limits_view(final(data).limits@) == settings_limits(limits_view(old(data).limits@)),
    {
        data.add_value_with_limit(
            "camera_lens_radius",
            Value::Float32(self.camera_lens_radius),
            Limit::Float32Range(F32_ZERO, F32_MAX),
        );
        data.add_value_with_limit(
            "camera_focus_dist",
            Value::Float32(self.camera_focus_dist),
            Limit::Float32Range(F32_ZERO, F32_MAX),
        );
        data.add_value_with_limit("samples", Value::UInt32(self.samples), Limit::UInt32Range(1, u32::MAX));
        data.add_value("max_bounces", Value::UInt32(self.max_bounces));
        let t = self.miss_color_top;
        data.add_value_with_limit("miss_color_top", Value::Vec3(t.x, t.y, t.z), Limit::Vec3Color);
        let b = self.miss_color_bottom;
        data.add_value_with_limit("miss_color_bottom", Value::Vec3(b.x, b.y, b.z), Limit::Vec3Color);
    }

    /// Takes the values that `data` holds for the settings.
    pub fn set_data(&mut self, data: &Data)
        ensures
            *final(self) == settings_set(*old(self), data@),
    {
        if let Some(Value::Float32(v)) = data.get("camera_lens_radius") {
            self.camera_lens_radius = *v;
        }
        if let Some(Value::Float32(v)) = data.get("camera_focus_dist") {
            self.camera_focus_dist = *v;
        }
        if let Some(Value::UInt32(v)) = data.get("samples") {
            self.samples = *v;
        }
        if let Some(Value::UInt32(v)) = data.get("max_bounces") {
            self.max_bounces = *v;
        }
        if let Some(Value::Vec3(x, y, z)) = data.get("miss_color_top") {
            self.miss_color_top = Vec3Bits { x: *x, y: *y, z: *z };
        }
        if let Some(Value::Vec3(x, y, z)) = data.get("miss_color_bottom") {
            self.miss_color_bottom = Vec3Bits { x: *x, y: *y, z: *z };
        }
    }
}

/// Law: taking back the data that settings put into any data restores them, whatever
/// settings take it.
pub proof fn lemma_settings_roundtrip(d: Seq<(Seq<char>, ValueView)>, s: RayTracingSettings, s0: RayTracingSettings)
    ensures
        settings_set(s0, settings_data(d, s)) == s,
{
    reveal_strlit("camera_lens_radius");
    reveal_strlit("camera_focus_dist");
    reveal_strlit("samples");
    reveal_strlit("max_bounces");
    reveal_strlit("miss_color_top");
    reveal_strlit("miss_color_bottom");
    let k1 = "camera_lens_radius"@;
    let k2 = "camera_focus_dist"@;
    let k3 = "samples"@;
    let k4 = "max_bounces"@;
    let k5 = "miss_color_top"@;
    let k6 = "miss_color_bottom"@;
    assert(k1.len() == 18 && k2.len() == 17 && k3.len() == 7 && k4.len() == 11 && k5.len() == 14 && k6.len() == 17);
    assert(k2[0] != k6[0]);
    let v1 = ValueView::Float32(s.camera_lens_radius);
    let v2 = ValueView::Float32(s.camera_focus_dist);
    let v3 = ValueView::UInt32(s.samples);
    let v4 = ValueView::UInt32(s.max_bounces);
    let v5 = vec3_view(s.miss_color_top);
    let v6 = vec3_view(s.miss_color_bottom);
    let d1 = kv_put(d, k1, v1);
    let d2 = kv_put(d1, k2, v2);
    let d3 = kv_put(d2, k3, v3);
    let d4 = kv_put(d3, k4, v4);
    let d5 = kv_put(d4, k5, v5);
    let d6 = kv_put(d5, k6, v6);
    lemma_kv_put_get(d, k1, v1, k1);
    lemma_kv_put_get(d1, k2, v2, k1);
    lemma_kv_put_get(d1, k2, v2, k2);
    lemma_kv_put_get(d2, k3, v3, k1);
    lemma_kv_put_get(d2, k3, v3, k2);
    lemma_kv_put_get(d2, k3, v3, k3);
    lemma_kv_put_get(d3, k4, v4, k1);
    lemma_kv_put_get(d3, k4, v4, k2);
    lemma_kv_put_get(d3, k4, v4, k3);
    lemma_kv_put_get(d3, k4, v4, k4);
    lemma_kv_put_get(d4, k5, v5, k1);
    lemma_kv_put_get(d4, k5, v5, k2);
    lemma_kv_put_get(d4, k5, v5, k3);
    lemma_kv_put_get(d4, k5, v5, k4);
    lemma_kv_put_get(d4, k5, v5, k5);
    lemma_kv_put_get(d5, k6, v6, k1);
    lemma_kv_put_get(d5, k6, v6, k2);
    lemma_kv_put_get(d5, k6, v6, k3);
    lemma_kv_put_get(d5, k6, v6, k4);
    lemma_kv_put_get(d5, k6, v6, k5);
    lemma_kv_put_get(d5, k6, v6, k6);
}

#[verifier::external_type_specification]
#[verifier::external_body]
#[verifier::reject_recursive_types(T)]
#[verifier::reject_recursive_types(S)]
pub struct ExIndexSet<T, S>(IndexSet<T, S>);

/// The items of an index set of texture keys, in insertion order.
pub uninterp spec fn index_set_items(s: IndexSet<u64>) -> Seq<u64>;

/// `IndexSet::new`: an empty set.
#[verifier::external_body]
fn index_set_new() -> (r: IndexSet<u64>)
    ensures
        index_set_items(r) == Seq::<u64>::empty(),
{
    IndexSet::new()
}

/// `IndexSet::insert`: an item not in the set is appended at the end; an item already in
/// the set leaves it unchanged. Returns whether the item was new.
#[verifier::external_body]
fn index_set_insert(s: &mut IndexSet<u64>, value: u64) -> (r: bool)
    ensures
        r == !index_set_items(*old(s)).contains(value),
        index_set_items(*final(s)) == (if index_set_items(*old(s)).contains(value) {
            index_set_items(*old(s))
        } else {
            index_set_items(*old(s)).push(value)
        }),
{
    s.insert(value)
}

/// `IndexSet::get_index_of`: the position of an item in the set, if it is there.
#[verifier::external_body]
fn index_set_get_index_of(s: &IndexSet<u64>, value: u64) -> (r: Option<usize>)
    ensures
        r is Some <==> index_set_items(*s).contains(value),
        r is Some ==> r.unwrap() < index_set_items(*s).len() && index_set_items(*s)[r.unwrap() as int]
            == value,
{
    s.get_index_of(&value)
}

/// `IndexSet::len`: the number of items.
#[verifier::external_body]
fn index_set_len(s: &IndexSet<u64>) -> (r: usize)
    ensures
        r == index_set_items(*s).len(),
{
    s.len()
}

/// The set of texture resources of a frame, each texture by its key, in the order in which
/// they were first used; a draw refers to its texture by its position in this set.
pub struct TextureResources {
    pub set: IndexSet<u64>,
}

impl View for TextureResources {
    type V = Seq<u64>;

    open spec fn view(&self) -> Seq<u64> {
        index_set_items(self.set)
    }
}

impl TextureResources {
    /// No texture.
    pub fn new() -> (r: TextureResources)
        ensures
            r@ == Seq::<u64>::empty(),
    {
        TextureResources { set: index_set_new() }
    }

    /// The number of textures.
    pub fn len(&self) -> (r: usize)
        ensures
            r == self@.len(),
    {
        index_set_len(&self.set)
    }
}

/// The position of a texture in the set, or `u32::MAX` for no texture.
pub open spec fn texture_index_ok(textures: Seq<u64>, texture: Option<u64>, index: u32) -> bool {
    match texture {
        Some(t) => index < textures.len() && textures[index as int] == t,
        None => index == u32::MAX,
    }
}

/// The texture set after the use of `texture`: a new texture is appended.
pub open spec fn add_texture(textures: Seq<u64>, texture: Option<u64>) -> Seq<u64> {
    match texture {
        Some(t) => if textures.contains(t) {
            textures
        } else {
            textures.push(t)
        },
        None => textures,
    }
}

/// Adds the texture of a draw to the set and gives its position there.
fn use_texture(textures: &mut TextureResources, texture: Option<u64>) -> (r: u32)
    requires
        old(textures)@.no_duplicates(),
        old(textures)@.len() < u32::MAX,
    ensures
        final(textures)@ == add_texture(old(textures)@, texture),
        final(textures)@.no_duplicates(),
        texture_index_ok(final(textures)@, texture, r),
{
    match texture {
        Some(t) => {
            index_set_insert(&mut textures.set, t);
            assert(textures@.contains(t)) by {
                if !old(textures)@.contains(t) {
                    assert(textures@[textures@.len() - 1] == t);
                }
            }
            match index_set_get_index_of(&textures.set, t) {
                Some(i) => i as u32,
                None => {
                    assert(textures@.contains(t));
                    0
                },
            }
        },
        None => u32::MAX,
    }
}

/// One draw of a mesh or a shape: its texture (by key), its shader material, its transform
/// (four columns of three `f32` bit patterns) and its entity.
#[derive(Clone, Copy, PartialEq, Eq, Debug)]
pub struct Draw {
    pub texture: Option<u64>,
    pub material: EnumMaterial,
    pub transform: [[u32; 3]; 4],
    pub eid: u64,
}

/// One instance of a batch: the draw's transform, the position of its texture in the
/// texture set (`u32::MAX` for none), its material and its entity.
#[derive(Clone, Copy, PartialEq, Eq, Debug)]
pub struct BatchDraw {
    pub transform: [[u32; 3]; 4],
    pub texture_index: u32,
    pub material: EnumMaterial,
    pub eid: u64,
}

/// The draws that share one bottom level structure: a mesh (by key) or one kind of shape,
/// with the offset of their hit group in the shader binding table.
#[derive(Clone, Debug)]
pub struct InstanceBatch {
    pub mesh: Option<u64>,
    pub sbt_index: u32,
    pub draws: Vec<BatchDraw>,
}

/// Whether `bd` is the instance of draw `d`, with textures at their positions in `textures`.
pub open spec fn drawn_as(bd: BatchDraw, d: Draw, textures: Seq<u64>) -> bool {
    &&& bd.transform == d.transform
    &&& bd.material == d.material
    &&& bd.eid == d.eid
    &&& texture_index_ok(textures, d.texture, bd.texture_index)
}

/// Whether the instances `bds` are the draws `ds`, one for one, in order.
pub open spec fn drawn_all(bds: Seq<BatchDraw>, ds: Seq<Draw>, textures: Seq<u64>) -> bool {
    &&& bds.len() == ds.len()
    &&& forall|m: int| 0 <= m < bds.len() ==> drawn_as(#[trigger] bds[m], ds[m], textures)
}

/// The texture set after the draws `ds` in order.
pub open spec fn add_textures(textures: Seq<u64>, ds: Seq<Draw>) -> Seq<u64>
    decreases ds.len(),
{
    if ds.len() == 0 {
        textures
    } else {
        add_texture(add_textures(textures, ds.drop_last()), ds.last().texture)
    }
}

/// The distinct meshes of mesh draws, in the order of their first draw.
pub open spec fn meshes_in_order(items: Seq<(u64, Draw)>) -> Seq<u64>
    decreases items.len(),
{
    if items.len() == 0 {
        Seq::empty()
    } else {
        let p = meshes_in_order(items.drop_last());
        if p.contains(items.last().0) {
            p
        } else {
            p.push(items.last().0)
        }
    }
}

/// The draws of mesh `k`, in order.
pub open spec fn draws_of(items: Seq<(u64, Draw)>, k: u64) -> Seq<Draw>
    decreases items.len(),
{
    if items.len() == 0 {
        Seq::empty()
    } else {
        let p = draws_of(items.drop_last(), k);
        if items.last().0 == k {
            p.push(items.last().1)
        } else {
            p
        }
    }
}

/// Adding textures keeps the earlier ones in place and the set free of duplicates.
proof fn lemma_add_texture(textures: Seq<u64>, texture: Option<u64>)
    requires
        textures.no_duplicates(),
    ensures
        add_texture(textures, texture).no_duplicates(),
        textures.len() <= add_texture(textures, texture).len() <= textures.len() + 1,
        forall|i: int| 0 <= i < textures.len() ==> #[trigger] add_texture(textures, texture)[i] == textures[i],
{
}

/// The distinct meshes in order have no duplicates.
proof fn lemma_meshes_in_order(items: Seq<(u64, Draw)>)
    ensures
        meshes_in_order(items).no_duplicates(),
        meshes_in_order(items).len() <= items.len(),
        forall|k: u64| meshes_in_order(items).contains(k) <==> exists|n: int| 0 <= n < items.len() && #[trigger] items[n].0 == k,
    decreases items.len(),
{
    if items.len() > 0 {
        let d = items.drop_last();
        lemma_meshes_in_order(d);
        assert forall|k: u64| meshes_in_order(items).contains(k) <==> exists|n: int| 0 <= n < items.len() && #[trigger] items[n].0 == k by {
            let p = meshes_in_order(d);
            if p.contains(k) {
                let j = choose|j: int| 0 <= j < p.len() && p[j] == k;
                assert(meshes_in_order(items)[j] == k);
            }
            if !p.contains(items.last().0) {
                assert(meshes_in_order(items)[p.len() as int] == items.last().0);
            }
            if meshes_in_order(items).contains(k) {
                if meshes_in_order(d).contains(k) {
                    let n = choose|n: int| 0 <= n < d.len() && #[trigger] d[n].0 == k;
                    assert(items[n].0 == k);
                } else {
                    assert(items[items.len() - 1].0 == k);
                }
            }
            if exists|n: int| 0 <= n < items.len() && #[trigger] items[n].0 == k {
                let n = choose|n: int| 0 <= n < items.len() && #[trigger] items[n].0 == k;
                if n < d.len() {
                    assert(d[n].0 == k);
                } else {
                    assert(items.last().0 == k);
                }
            }
        }
    }
}

/// Instances stay the draws they are when textures are added.
proof fn lemma_drawn_all_extend(bds: Seq<BatchDraw>, ds: Seq<Draw>, t: Seq<u64>, t2: Seq<u64>)
    requires
        drawn_all(bds, ds, t),
        t.len() <= t2.len(),
        forall|i: int| 0 <= i < t.len() ==> #[trigger] t2[i] == t[i],
    ensures
        drawn_all(bds, ds, t2),
{
    assert forall|m: int| 0 <= m < bds.len() implies drawn_as(#[trigger] bds[m], ds[m], t2) by {
        assert(drawn_as(bds[m], ds[m], t));
    }
}

/// The draws of a mesh that no draw uses: none.
proof fn lemma_draws_of_absent(items: Seq<(u64, Draw)>, k: u64)
    requires
        forall|n: int| 0 <= n < items.len() ==> #[trigger] items[n].0 != k,
    ensures
        draws_of(items, k) == Seq::<Draw>::empty(),
    decreases items.len(),
{
    if items.len() > 0 {
        let d = items.drop_last();
        assert forall|n: int| 0 <= n < d.len() implies #[trigger] d[n].0 != k by {
            assert(d[n] == items[n]);
        }
        lemma_draws_of_absent(d, k);
    }
}

/// One more draw: the meshes in order and the draws of each mesh grow by it.
proof fn lemma_draws_of_step(items: Seq<(u64, Draw)>, n: int)
    requires
        0 <= n < items.len(),
    ensures
        items.take(n + 1).drop_last() == items.take(n),
        items.take(n + 1).last() == items[n],
        meshes_in_order(items.take(n + 1)) == (if meshes_in_order(items.take(n)).contains(items[n].0) {
            meshes_in_order(items.take(n))
        } else {
            meshes_in_order(items.take(n)).push(items[n].0)
        }),
        forall|k: u64| #[trigger] draws_of(items.take(n + 1), k) == (if items[n].0 == k {
            draws_of(items.take(n), k).push(items[n].1)
        } else {
            draws_of(items.take(n), k)
        }),
{
    assert(items.take(n + 1).drop_last() =~= items.take(n));
}

/// Batches mesh draws by mesh: one new batch per mesh, in the order of the meshes' first
/// draws, with hit group offset 0, holding the draws of that mesh in order; the texture of
/// each draw is added to the texture set and the instance refers to its position there.
pub fn draw_meshs(
    meshs: &Vec<(u64, Draw)>,
    textures: &mut TextureResources,
    batches: &mut Vec<InstanceBatch>,
)
    requires
        old(textures)@.no_duplicates(),
        old(textures)@.len() + meshs.len() < u32::MAX,
    ensures
        final(textures)@ == add_textures(old(textures)@, meshs@.map_values(|p: (u64, Draw)| p.1)),
        final(textures)@.no_duplicates(),
        final(batches).len() == old(batches).len() + meshes_in_order(meshs@).len(),
        forall|j: int| 0 <= j < old(batches).len() ==> #[trigger] final(batches)@[j] == old(batches)@[j],
        forall|j: int|
            0 <= j < meshes_in_order(meshs@).len() ==> {
                let b = #[trigger] final(batches)@[old(batches).len() + j];
                &&& b.mesh == Some(meshes_in_order(meshs@)[j])
                &&& b.sbt_index == 0
                &&& drawn_all(b.draws@, draws_of(meshs@, meshes_in_order(meshs@)[j]), final(textures)@)
            },
{
    let ghost items = meshs@;
    let ghost ds = items.map_values(|p: (u64, Draw)| p.1);
    let ghost t0 = textures@;
    let ghost b0 = batches@;
    let base = batches.len();
    let mut mesh_to_index: HashMap<u64, usize> = HashMap::new();
    let mut n: usize = 0;
    while n < meshs.len()
        invariant
            items == meshs@,
            ds == items.map_values(|p: (u64, Draw)| p.1),
            n <= meshs.len(),
            t0.len() + meshs.len() < u32::MAX,
            base == b0.len(),
            textures@ == add_textures(t0, ds.take(n as int)),
            textures@.no_duplicates(),
            textures@.len() <= t0.len() + n,
            batches.len() == base + meshes_in_order(items.take(n as int)).len(),
            forall|j: int| 0 <= j < base ==> #[trigger] batches@[j] == b0[j],
            forall|k: u64|
                #[trigger] mesh_to_index@.contains_key(k) <==> meshes_in_order(items.take(n as int)).contains(k),
            forall|j: int|
                0 <= j < meshes_in_order(items.take(n as int)).len() ==> mesh_to_index@[#[trigger] meshes_in_order(
                    items.take(n as int),
                )[j]] == base + j,
            forall|j: int|
                0 <= j < meshes_in_order(items.take(n as int)).len() ==> {
                    let b = #[trigger] batches@[base + j];
                    &&& b.mesh == Some(meshes_in_order(items.take(n as int))[j])
                    &&& b.sbt_index == 0
                    &&& drawn_all(
                        b.draws@,
                        draws_of(items.take(n as int), meshes_in_order(items.take(n as int))[j]),
                        textures@,
                    )
                },
        decreases meshs.len() - n,
    {
        broadcast use vstd::std_specs::hash::group_hash_axioms;

        let ghost pre = items.take(n as int);
        let ghost post = items.take(n + 1);
        let ghost tpre = textures@;
        assert(post.drop_last() =~= pre);
        assert(ds.take(n + 1).drop_last() =~= ds.take(n as int));
        proof {
            lemma_meshes_in_order(pre);
            lemma_meshes_in_order(items.take(n as int));
        }
        let key = meshs[n].0;
        let draw = meshs[n].1;
        let texture_index = use_texture(textures, draw.texture);
        proof {
            lemma_add_texture(tpre, draw.texture);
        }
        let bd = BatchDraw {
            transform: draw.transform,
            texture_index,
            material: draw.material,
            eid: draw.eid,
        };
        proof {
            lemma_draws_of_step(items, n as int);
            assert(ds[n as int] == draw);
            assert(ds.take(n + 1).last() == draw);
            let kk = meshes_in_order(pre);
            assert forall|j: int| 0 <= j < kk.len() implies drawn_all(
                #[trigger] batches@[base + j].draws@,
                draws_of(pre, kk[j]),
                textures@,
            ) by {
                lemma_drawn_all_extend(batches@[base + j].draws@, draws_of(pre, kk[j]), tpre, textures@);
            }
        }
        let ghost bpre = batches@;
        let found = mesh_to_index.get(&key);
        match found {
            Some(i) => {
                let i = *i;
                let ghost j0 = choose|j: int| 0 <= j < meshes_in_order(pre).len() && meshes_in_order(pre)[j] == key;
                assert(mesh_to_index@[meshes_in_order(pre)[j0]] == base + j0);
                batches[i].draws.push(bd);
                assert(batches.len() == bpre.len());
                assert(batches@[i as int].draws@ == bpre[i as int].draws@.push(bd));
                assert(batches@[i as int].mesh == bpre[i as int].mesh);
                assert(forall|j: int| 0 <= j < bpre.len() && j != i ==> batches@[j] == bpre[j]);
                proof {
                    let kk = meshes_in_order(pre);
                    assert(meshes_in_order(post) == kk);
                    assert forall|j: int| 0 <= j < kk.len() implies {
                        let b = #[trigger] batches@[base + j];
                        &&& b.mesh == Some(kk[j])
                        &&& b.sbt_index == 0
                        &&& drawn_all(b.draws@, draws_of(post, kk[j]), textures@)
                    } by {
                        if j == j0 {
                            assert(draws_of(post, key) == draws_of(pre, key).push(draw));
                        } else {
                            assert(kk[j] != key);
                        }
                    }
                }
            },
            None => {
                let i = batches.len();
                let mut v: Vec<BatchDraw> = Vec::new();
                v.push(bd);
                batches.push(InstanceBatch { mesh: Some(key), sbt_index: 0, draws: v });
                mesh_to_index.insert(key, i);
                proof {
                    let kk = meshes_in_order(pre);
                    assert(!kk.contains(key));
                    assert(meshes_in_order(post) == kk.push(key));
                    assert forall|k: u64| #[trigger] mesh_to_index@.contains_key(k) <==> kk.push(key).contains(k) by {
                        if kk.contains(k) {
                            let j = choose|j: int| 0 <= j < kk.len() && kk[j] == k;
                            assert(kk.push(key)[j] == k);
                        }
                        if k == key {
                            assert(kk.push(key)[kk.len() as int] == key);
                        }
                        if kk.push(key).contains(k) {
                            let j = choose|j: int| 0 <= j < kk.len() + 1 && kk.push(key)[j] == k;
                            if j < kk.len() {
                                assert(kk[j] == k);
                            }
                        }
                    }
                    lemma_draws_of_absent(pre, key);
                    assert(draws_of(post, key) =~= seq![draw]);
                }
            },
        }
        n = n + 1;
    }
    assert(items.take(meshs.len() as int) =~= items);
    assert(ds.take(meshs.len() as int) =~= ds);
}

/// The instances of draws, in order: the texture of each draw is added to the texture set
/// and the instance refers to its position there.
pub fn batch_draws(draws: &Vec<Draw>, textures: &mut TextureResources) -> (r: Vec<BatchDraw>)
    requires
        old(textures)@.no_duplicates(),
        old(textures)@.len() + draws.len() < u32::MAX,
    ensures
        final(textures)@ == add_textures(old(textures)@, draws@),
        final(textures)@.no_duplicates(),
        drawn_all(r@, draws@, final(textures)@),
{
    let shapes = draws;
    let ghost t0 = textures@;
    let mut out: Vec<BatchDraw> = Vec::new();
    let mut n: usize = 0;
    while n < shapes.len()
        invariant
            n <= shapes.len(),
            t0.len() + shapes.len() < u32::MAX,
            textures@ == add_textures(t0, shapes@.take(n as int)),
            textures@.no_duplicates(),
            textures@.len() <= t0.len() + n,
            drawn_all(out@, shapes@.take(n as int), textures@),
        decreases shapes.len() - n,
    {
        let ghost tpre = textures@;
        let ghost dpre = out@;
        assert(shapes@.take(n + 1).drop_last() =~= shapes@.take(n as int));
        let draw = shapes[n];
        let texture_index = use_texture(textures, draw.texture);
        proof {
            lemma_add_texture(tpre, draw.texture);
            lemma_drawn_all_extend(dpre, shapes@.take(n as int), tpre, textures@);
        }
        out.push(
            BatchDraw {
                transform: draw.transform,
                texture_index,
                material: draw.material,
                eid: draw.eid,
            },
        );
        proof {
            assert(shapes@.take(n + 1) =~= shapes@.take(n as int).push(draw));
            assert forall|m: int| 0 <= m < out@.len() implies drawn_as(
                #[trigger] out@[m],
                shapes@.take(n + 1)[m],
                textures@,
            ) by {
                if m < dpre.len() {
                    assert(out@[m] == dpre[m]);
                    assert(drawn_as(dpre[m], shapes@.take(n as int)[m], textures@));
                }
            }
        }
        n = n + 1;
    }
    assert(shapes@.take(shapes.len() as int) =~= shapes@);
    out
}

/// Batches the draws of one kind of shape: when there are any, one new batch with the given
/// hit group offset holds them all in order; the texture of each draw is added to the
/// texture set and the instance refers to its position there.
pub fn draw_shapes(
    shapes: &Vec<Draw>,
    sbt_index: u32,
    textures: &mut TextureResources,
    batches: &mut Vec<InstanceBatch>,
)
    requires
        old(textures)@.no_duplicates(),
        old(textures)@.len() + shapes.len() < u32::MAX,
    ensures
        final(textures)@ == add_textures(old(textures)@, shapes@),
        final(textures)@.no_duplicates(),
        shapes.len() == 0 ==> final(batches)@ == old(batches)@,
        shapes.len() > 0 ==> {
            &&& final(batches).len() == old(batches).len() + 1
            &&& forall|j: int| 0 <= j < old(batches).len() ==> #[trigger] final(batches)@[j] == old(batches)@[j]
            &&& final(batches)@[old(batches).len() as int].mesh is None
            &&& final(batches)@[old(batches).len() as int].sbt_index == sbt_index
            &&& drawn_all(final(batches)@[old(batches).len() as int].draws@, shapes@, final(textures)@)
        },
{
    if shapes.len() == 0 {
        assert(shapes@ =~= shapes@.take(0));
        return;
    }
    let draws = batch_draws(shapes, textures);
    batches.push(InstanceBatch { mesh: None, sbt_index, draws });
}

/// Adding the textures of draws keeps the earlier textures in place and the set free of
/// duplicates, and adds at most one texture per draw.
pub proof fn lemma_add_textures(t: Seq<u64>, ds: Seq<Draw>)
    requires
        t.no_duplicates(),
    ensures
        add_textures(t, ds).no_duplicates(),
        t.len() <= add_textures(t, ds).len() <= t.len() + ds.len(),
        forall|i: int| 0 <= i < t.len() ==> #[trigger] add_textures(t, ds)[i] == t[i],
    decreases ds.len(),
{
    if ds.len() > 0 {
        lemma_add_textures(t, ds.drop_last());
        lemma_add_texture(add_textures(t, ds.drop_last()), ds.last().texture);
    }
}

/// The sphere drawn when a frame has none, so that the top level structure is never empty:
/// an invisible instance (zero scale, black lambertian, no texture) of the dead entity.
pub open spec fn placeholder_sphere() -> Draw {
    Draw {
        texture: None,
        material: EnumMaterial { data: [F32_ZERO, F32_ZERO, F32_ZERO, F32_ZERO], t: 0 },
        transform: [[0u32, 0u32, 0u32], [0u32, 0u32, 0u32], [0u32, 0u32, 0u32], [0u32, 0u32, 0u32]],
        eid: DEAD,
    }
}

/// The spheres that a frame draws: the placeholder when there is none.
pub open spec fn frame_spheres(spheres: Seq<Draw>) -> Seq<Draw> {
    if spheres.len() == 0 {
        seq![placeholder_sphere()]
    } else {
        spheres
    }
}

/// The batches of a frame of the ray tracing pipeline, in order: one batch per mesh (hit
/// group 0, as [draw_meshs] makes them), then the circles in one batch (hit group 1) when
/// there are any, then the spheres in one batch (hit group 2), with the placeholder sphere
/// when there is none. The textures of all draws, in that order, make the texture set.
pub fn draw_frame(
    meshs: &Vec<(u64, Draw)>,
    circles: &Vec<Draw>,
    spheres: &Vec<Draw>,
    textures: &mut TextureResources,
    batches: &mut Vec<InstanceBatch>,
)
    requires
        old(textures)@.no_duplicates(),
        old(textures)@.len() + meshs.len() + circles.len() + spheres.len() + 1 < u32::MAX,
    ensures
        ({
            let ms = meshs@.map_values(|p: (u64, Draw)| p.1);
            let t = add_textures(add_textures(add_textures(old(textures)@, ms), circles@), frame_spheres(spheres@));
            let k = meshes_in_order(meshs@).len();
            let b0 = old(batches).len();
            let c = if circles.len() > 0 { 1int } else { 0int };
            &&& final(textures)@ == t
            &&& final(textures)@.no_duplicates()
            &&& final(batches).len() == b0 + k + c + 1
            &&& forall|j: int| 0 <= j < b0 ==> #[trigger] final(batches)@[j] == old(batches)@[j]
            &&& forall|j: int|
                0 <= j < k ==> {
                    let b = #[trigger] final(batches)@[b0 + j];
                    &&& b.mesh == Some(meshes_in_order(meshs@)[j])
                    &&& b.sbt_index == 0
                    &&& drawn_all(b.draws@, draws_of(meshs@, meshes_in_order(meshs@)[j]), t)
                }
            &&& circles.len() > 0 ==> {
                let b = final(batches)@[b0 + k];
                &&& b.mesh is None
                &&& b.sbt_index == 1
                &&& drawn_all(b.draws@, circles@, t)
            }
            &&& final(batches)@[b0 + k + c].mesh is None
            &&& final(batches)@[b0 + k + c].sbt_index == 2
            &&& drawn_all(final(batches)@[b0 + k + c].draws@, frame_spheres(spheres@), t)
        }),
{
    let ghost t0 = textures@;
    let ghost b0 = batches@;
    proof {
        lemma_meshes_in_order(meshs@);
    }
    draw_meshs(meshs, textures, batches);
    let ghost t1 = textures@;
    let ghost b1 = batches@;
    let ghost ms = meshs@.map_values(|p: (u64, Draw)| p.1);
    proof {
        lemma_add_textures(t0, ms);
    }
    draw_shapes(circles, 1, textures, batches);
    let ghost t2 = textures@;
    let ghost b2 = batches@;
    proof {
        lemma_add_textures(t1, circles@);
    }
    if spheres.len() == 0 {
        let placeholder = Draw {
            texture: None,
            material: EnumMaterial { data: [F32_ZERO, F32_ZERO, F32_ZERO, F32_ZERO], t: 0 },
            transform: [[0u32, 0u32, 0u32], [0u32, 0u32, 0u32], [0u32, 0u32, 0u32], [0u32, 0u32, 0u32]],
            eid: DEAD,
        };
        let v = vec![placeholder];
        assert(v@ =~= frame_spheres(spheres@));
        draw_shapes(&v, 2, textures, batches);
    } else {
        draw_shapes(spheres, 2, textures, batches);
    }
    proof {
        let sp = frame_spheres(spheres@);
        lemma_add_textures(t2, sp);
        let t = textures@;
        let k = meshes_in_order(meshs@).len();
        assert forall|j: int| 0 <= j < k implies {
            let b = #[trigger] batches@[b0.len() + j];
            &&& b.mesh == Some(meshes_in_order(meshs@)[j])
            &&& b.sbt_index == 0
            &&& drawn_all(b.draws@, draws_of(meshs@, meshes_in_order(meshs@)[j]), t)
        } by {
            assert(batches@[b0.len() + j] == b1[b0.len() + j]);
            lemma_drawn_all_extend(b1[b0.len() + j].draws@, draws_of(meshs@, meshes_in_order(meshs@)[j]), t1, t2);
            lemma_drawn_all_extend(b1[b0.len() + j].draws@, draws_of(meshs@, meshes_in_order(meshs@)[j]), t2, t);
        }
        if circles.len() > 0 {
            assert(batches@[(b0.len() + k) as int] == b2[(b0.len() + k) as int]);
            lemma_drawn_all_extend(b2[(b0.len() + k) as int].draws@, circles@, t2, t);
        }
    }
}

} // verus!
