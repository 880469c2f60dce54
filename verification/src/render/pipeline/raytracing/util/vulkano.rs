//! The inputs of acceleration structure builds: index lists, build ranges and the instances
//! of the top level structure.

use super::affine3a_to_rows_array_2d;
use vstd::prelude::*;

verus! {

/// The instance flag that disables face culling of triangles.
pub const GEOMETRY_INSTANCE_TRIANGLE_FACING_CULL_DISABLE: u32 = 0x1u32;

/// The mask of every instance: visible to all rays.
pub const INSTANCE_MASK: u32 = 0xffu32;

/// The primitives of one geometry of a build.
#[derive(Clone, Copy, PartialEq, Eq, Structural, Debug)]
pub struct AccelerationStructureBuildRangeInfo {
    pub primitive_count: u32,
    pub primitive_offset: u32,
    pub first_vertex: u32,
    pub transform_offset: u32,
}

/// The range of `n` primitives from the start of a geometry.
pub open spec fn range_of(n: u32) -> AccelerationStructureBuildRangeInfo {
    AccelerationStructureBuildRangeInfo {
        primitive_count: n,
        primitive_offset: 0,
        first_vertex: 0,
        transform_offset: 0,
    }
}

/// The geometry flag that marks a geometry opaque (no any-hit shader is run on it).
pub const GEOMETRY_OPAQUE: u32 = 0x1u32;

/// The build flag that prefers fast tracing over fast building.
pub const BUILD_PREFER_FAST_TRACE: u32 = 0x1u32;

/// The type of a bottom level acceleration structure.
pub const ACCELERATION_STRUCTURE_TYPE_BOTTOM_LEVEL: u32 = 1u32;

/// The format of the vertex positions: three 32-bit floats.
pub const FORMAT_R32G32B32_SFLOAT: u32 = 106u32;

/// The size of a vertex of the ray tracing shaders: position, normal (three `f32` each)
/// and texture coordinates (two `f32`), packed.
pub const VERTEX_STRIDE: u32 = 32u32;

/// The size of the corners of a box: two points of three `f32`.
pub const AABB_STRIDE: u32 = 24u32;

/// The build input of a triangle geometry: its bottom level build, with one opaque
/// geometry that is built for fast tracing.
#[derive(Clone, Debug)]
pub struct TrianglesBuildInput {
    /// The type of the structure.
    pub ty: u32,
    /// The build flags.
    pub build_flags: u32,
    /// The geometry flags.
    pub geometry_flags: u32,
    /// The format of the vertex positions.
    pub vertex_format: u32,
    /// The distance between vertices in the vertex buffer.
    pub vertex_stride: u32,
    /// The index list.
    pub indices: Vec<u32>,
    /// The number of vertices.
    pub max_vertex: u32,
    /// The most primitives of each geometry.
    pub max_primitive_counts: Vec<u32>,
    /// The build range: one primitive per three indices.
    pub build_range_info: AccelerationStructureBuildRangeInfo,
}

/// The indices `0..n`.
pub open spec fn identity_indices(n: u32) -> Seq<u32> {
    Seq::new(n as nat, |i: int| i as u32)
}

/// The build input of the triangles of a mesh of `vertex_count` vertices: its index list,
/// or each vertex once in order when it has none, and one primitive per three indices, in
/// one opaque geometry of the packed vertices, built for fast tracing.
pub fn create_bottom_level_acceleration_structure_triangles(
    vertex_count: u32,
    indices: Option<Vec<u32>>,
) -> (r: TrianglesBuildInput)
    requires
        indices is Some ==> indices.unwrap().len() <= u32::MAX,
    ensures
        r.indices@ == (match indices {
            Some(v) => v@,
            None => identity_indices(vertex_count),
        }),
        r.max_vertex == vertex_count,
        r.build_range_info == range_of((r.indices.len() / 3) as u32),
        r.max_primitive_counts@ == seq![(r.indices.len() / 3) as u32],
        r.ty == ACCELERATION_STRUCTURE_TYPE_BOTTOM_LEVEL,
        r.build_flags == BUILD_PREFER_FAST_TRACE,
        r.geometry_flags == GEOMETRY_OPAQUE,
        r.vertex_format == FORMAT_R32G32B32_SFLOAT,
        r.vertex_stride == VERTEX_STRIDE,
{
    let index_list = match indices {
        Some(v) => v,
        None => {
            let mut v: Vec<u32> = Vec::new();
            let mut i: u32 = 0;
            while i < vertex_count
                invariant
                    i <= vertex_count,
                    v@ == identity_indices(i),
                decreases vertex_count - i,
            {
                v.push(i);
                i = i + 1;
                assert(v@ =~= identity_indices(i));
            }
            v
        },
    };
    let primitive_count = (index_list.len() / 3) as u32;
    let mut max_primitive_counts: Vec<u32> = Vec::new();
    max_primitive_counts.push(primitive_count);
    assert(max_primitive_counts@ =~= seq![primitive_count]);
    TrianglesBuildInput {
        ty: ACCELERATION_STRUCTURE_TYPE_BOTTOM_LEVEL,
        build_flags: BUILD_PREFER_FAST_TRACE,
        geometry_flags: GEOMETRY_OPAQUE,
        vertex_format: FORMAT_R32G32B32_SFLOAT,
        vertex_stride: VERTEX_STRIDE,
        indices: index_list,
        max_vertex: vertex_count,
        max_primitive_counts,
        build_range_info: AccelerationStructureBuildRangeInfo {
            primitive_count,
            primitive_offset: 0,
            first_vertex: 0,
            transform_offset: 0,
        },
    }
}

/// The corners of a box, as `f32` bit patterns.
#[derive(Clone, Copy, PartialEq, Eq, Debug)]
pub struct AabbPositions {
    pub min: [u32; 3],
    pub max: [u32; 3],
}

/// A box geometry: the box, the size of its data, and its flags.
#[derive(Clone, Copy, PartialEq, Eq, Debug)]
pub struct AabbGeometry {
    pub data: AabbPositions,
    pub stride: u32,
    pub flags: u32,
}

/// The opaque geometry of one box.
pub open spec fn aabb_geometry(a: AabbPositions) -> AabbGeometry {
    AabbGeometry { data: a, stride: AABB_STRIDE, flags: GEOMETRY_OPAQUE }
}

/// The build input of boxes: a bottom level build for fast tracing, of one geometry per
/// box, each of one primitive.
#[derive(Clone, Debug)]
pub struct AabbsBuildInput {
    /// The type of the structure.
    pub ty: u32,
    /// The build flags.
    pub build_flags: u32,
    /// The geometries, one per box, in order.
    pub geometries: Vec<AabbGeometry>,
    /// The most primitives of each geometry.
    pub max_primitive_counts: Vec<u32>,
    /// The build range of each geometry.
    pub build_range_infos: Vec<AccelerationStructureBuildRangeInfo>,
}

/// The build input of boxes: one opaque geometry per box, in order, each with its box and
/// one primitive, built for fast tracing.
pub fn create_bottom_level_acceleration_structure_aabbs(aabb_positions: &Vec<AabbPositions>) -> (r:
    AabbsBuildInput)
    ensures
        r.geometries@ == aabb_positions@.map_values(|a: AabbPositions| aabb_geometry(a)),
        r.max_primitive_counts@ == Seq::new(aabb_positions.len() as nat, |i: int| 1u32),
        r.build_range_infos@ == Seq::new(aabb_positions.len() as nat, |i: int| range_of(1)),
        r.ty == ACCELERATION_STRUCTURE_TYPE_BOTTOM_LEVEL,
        r.build_flags == BUILD_PREFER_FAST_TRACE,
{
    let n = aabb_positions.len();
    let mut geometries: Vec<AabbGeometry> = Vec::new();
    let mut max_primitive_counts: Vec<u32> = Vec::new();
    let mut build_range_infos: Vec<AccelerationStructureBuildRangeInfo> = Vec::new();
    let mut i: usize = 0;
    while i < n
        invariant
            n == aabb_positions.len(),
            i <= n,
            geometries@ == aabb_positions@.take(i as int).map_values(|a: AabbPositions| aabb_geometry(a)),
            max_primitive_counts@ == Seq::new(i as nat, |j: int| 1u32),
            build_range_infos@ == Seq::new(i as nat, |j: int| range_of(1)),
        decreases n - i,
    {
        geometries.push(AabbGeometry { data: aabb_positions[i], stride: AABB_STRIDE, flags: GEOMETRY_OPAQUE });
        max_primitive_counts.push(1);
        build_range_infos.push(
            AccelerationStructureBuildRangeInfo {
                primitive_count: 1,
                primitive_offset: 0,
                first_vertex: 0,
                transform_offset: 0,
            },
        );
        assert(aabb_positions@.take(i + 1) =~= aabb_positions@.take(i as int).push(aabb_positions@[i as int]));
        i = i + 1;
        assert(geometries@ =~= aabb_positions@.take(i as int).map_values(|a: AabbPositions| aabb_geometry(a)));
        assert(max_primitive_counts@ =~= Seq::new(i as nat, |j: int| 1u32));
        assert(build_range_infos@ =~= Seq::new(i as nat, |j: int| range_of(1)));
    }
    assert(aabb_positions@.take(n as int) =~= aabb_positions@);
    AabbsBuildInput {
        ty: ACCELERATION_STRUCTURE_TYPE_BOTTOM_LEVEL,
        build_flags: BUILD_PREFER_FAST_TRACE,
        geometries,
        max_primitive_counts,
        build_range_infos,
    }
}

/// An instance of a bottom level structure in the top level structure.
#[derive(Clone, Copy, PartialEq, Eq, Debug)]
pub struct AccelerationStructureInstance {
    /// The rows of the instance's transform, as `f32` bit patterns.
    pub transform: [[u32; 4]; 3],
    /// The index of the object description of the instance.
    pub instance_custom_index: u32,
    /// The visibility mask.
    pub mask: u32,
    /// The offset of the instance's hit group in the shader binding table.
    pub instance_shader_binding_table_record_offset: u32,
    /// The instance flags.
    pub flags: u32,
    /// The device address of the bottom level structure.
    pub acceleration_structure_reference: u64,
}

/// Whether `rows` are the rows of the transform of columns `cols`.
pub open spec fn rows_of(rows: [[u32; 4]; 3], cols: [[u32; 3]; 4]) -> bool {
    forall|i: int, j: int| 0 <= i < 3 && 0 <= j < 4 ==> #[trigger] rows@[i]@[j] == cols@[j]@[i]
}

/// The view of the instance groups: bottom level address, hit group offset and transforms.
pub open spec fn groups_view(v: Seq<(u64, u32, Vec<[[u32; 3]; 4]>)>) -> Seq<(u64, u32, Seq<[[u32; 3]; 4]>)> {
    v.map_values(|p: (u64, u32, Vec<[[u32; 3]; 4]>)| (p.0, p.1, p.2@))
}

/// The (group, transform) positions of the instances, group by group and each group's
/// transforms in order.
pub open spec fn instance_positions(s: Seq<(u64, u32, Seq<[[u32; 3]; 4]>)>) -> Seq<(int, int)>
    decreases s.len(),
{
    if s.len() == 0 {
        Seq::empty()
    } else {
        let n = s.len() - 1;
        instance_positions(s.drop_last()) + Seq::new(s.last().2.len(), |t: int| (n, t))
    }
}

/// Whether `inst` is the instance of transform `t` of group `g` of `s`.
pub open spec fn instance_of(
    inst: AccelerationStructureInstance,
    s: Seq<(u64, u32, Seq<[[u32; 3]; 4]>)>,
    g: int,
    t: int,
) -> bool {
    &&& rows_of(inst.transform, s[g].2[t])
    &&& inst.instance_custom_index == g as u32
    &&& inst.mask == INSTANCE_MASK
    &&& inst.instance_shader_binding_table_record_offset == s[g].1
    &&& inst.flags == GEOMETRY_INSTANCE_TRIANGLE_FACING_CULL_DISABLE
    &&& inst.acceleration_structure_reference == s[g].0
}

/// The instances of the top level structure: one per transform of each group of a bottom
/// level structure (given by its device address) and a hit group offset, group by group,
/// with the group's index as custom index.
pub fn create_top_level_acceleration_structure(
    instances: &Vec<(u64, u32, Vec<[[u32; 3]; 4]>)>,
) -> (r: Vec<AccelerationStructureInstance>)
    requires
        instances.len() <= u32::MAX,
    ensures
        r.len() == instance_positions(groups_view(instances@)).len(),
        forall|k: int|
            0 <= k < r.len() ==> instance_of(
                #[trigger] r@[k],
                groups_view(instances@),
                instance_positions(groups_view(instances@))[k].0,
                instance_positions(groups_view(instances@))[k].1,
            ),
{
    let ghost s = groups_view(instances@);
    let mut r: Vec<AccelerationStructureInstance> = Vec::new();
    let mut i: usize = 0;
    while i < instances.len()
        invariant
            i <= instances.len(),
            instances.len() <= u32::MAX,
            s == groups_view(instances@),
            r.len() == instance_positions(s.take(i as int)).len(),
            forall|k: int|
                0 <= k < r.len() ==> instance_of(
                    #[trigger] r@[k],
                    s,
                    instance_positions(s.take(i as int))[k].0,
                    instance_positions(s.take(i as int))[k].1,
                ),
        decreases instances.len() - i,
    {
        let ghost before = instance_positions(s.take(i as int));
        let ghost base = r.len() as int;
        assert(s.take(i + 1).drop_last() =~= s.take(i as int));
        assert(s.take(i + 1).last() == s[i as int]);
        let ghost after = instance_positions(s.take(i + 1));
        assert(after == before + Seq::new(s[i as int].2.len(), |t: int| (i as int, t)));
        let blas_ref = instances[i].0;
        let sbt_index = instances[i].1;
        let transforms = &instances[i].2;
        assert(transforms@ == s[i as int].2);
        let mut t: usize = 0;
        while t < transforms.len()
            invariant
                i < instances.len(),
                instances.len() <= u32::MAX,
                s == groups_view(instances@),
                transforms@ == s[i as int].2,
                blas_ref == s[i as int].0,
                sbt_index == s[i as int].1,
                t <= transforms.len(),
                after == before + Seq::new(s[i as int].2.len(), |t: int| (i as int, t)),
                base == before.len(),
                r.len() == base + t,
                forall|k: int|
                    0 <= k < r.len() ==> instance_of(#[trigger] r@[k], s, after[k].0, after[k].1),
            decreases transforms.len() - t,
        {
            let rows = affine3a_to_rows_array_2d(transforms[t]);
            let inst = AccelerationStructureInstance {
                transform: rows,
                instance_custom_index: i as u32,
                mask: INSTANCE_MASK,
                instance_shader_binding_table_record_offset: sbt_index,
                flags: GEOMETRY_INSTANCE_TRIANGLE_FACING_CULL_DISABLE,
                acceleration_structure_reference: blas_ref,
            };
            r.push(inst);
            proof {
                assert(after[base + t] == (i as int, t as int));
                assert(instance_of(r@[base + t], s, i as int, t as int));
            }
            t = t + 1;
        }
        proof {
            assert forall|k: int| 0 <= k < r.len() implies instance_of(
                #[trigger] r@[k],
                s,
                instance_positions(s.take(i + 1))[k].0,
                instance_positions(s.take(i + 1))[k].1,
            ) by {
                assert(instance_of(r@[k], s, after[k].0, after[k].1));
            }
        }
        i = i + 1;
    }
    assert(s.take(instances.len() as int) =~= s);
    r
}

} // verus!
