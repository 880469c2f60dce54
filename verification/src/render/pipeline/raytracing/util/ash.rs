//! The Vulkan side of the ray tracing pipeline, as plain values: memory type selection,
//! shader groups, and the layout of the shader binding table.

use vstd::prelude::*;

verus! {

/// The shader index that marks an unused shader slot of a group.
pub const SHADER_UNUSED_KHR: u32 = 0xffff_ffffu32;

/// A buffer on the device with its bound memory, by their Vulkan handles.
#[derive(Clone, Copy, PartialEq, Eq, Debug)]
pub struct AshBuffer {
    /// The buffer handle.
    pub buffer: u64,
    /// The handle of the memory bound to the buffer.
    pub memory: u64,
    /// The size of the buffer in bytes.
    pub size: u64,
}

/// Whether memory type `i` is allowed by `type_bits` and has all of `properties`.
pub open spec fn memory_type_ok(flags: Seq<u32>, type_bits: u32, properties: u32, i: int) -> bool {
    &&& 0 <= i < flags.len()
    &&& (type_bits >> (i as u32)) & 1u32 == 1u32
    &&& flags[i] & properties == properties
}

impl AshBuffer {
    /// A buffer of its handles and size.
    pub fn from_handles(buffer: u64, memory: u64, size: u64) -> (r: AshBuffer)
        ensures
            r.buffer == buffer,
            r.memory == memory,
            r.size == size,
    {
        AshBuffer { buffer, memory, size }
    }

    /// The buffer handle.
    pub fn buffer(&self) -> (r: u64)
        ensures
            r == self.buffer,
    {
        self.buffer
    }

    /// Whether `size` bytes can be stored in the buffer.
    pub fn can_store(&self, size: u64) -> (r: bool)
        ensures
            r == (size <= self.size),
    {
        size <= self.size
    }

    /// The index of the first memory type that `type_bits` allows and that has all of
    /// `properties`; 0 when there is none. `property_flags` holds the property flags of the
    /// memory types of the device, at most 32 of them.
    pub fn get_memory_type_index(property_flags: &Vec<u32>, type_bits: u32, properties: u32) -> (r: u32)
        requires
            property_flags.len() <= 32,
        ensures
            (exists|i: int| memory_type_ok(property_flags@, type_bits, properties, i)) ==> {
                &&& memory_type_ok(property_flags@, type_bits, properties, r as int)
                &&& forall|j: int| 0 <= j < r ==> !memory_type_ok(property_flags@, type_bits, properties, j)
            },
            !(exists|i: int| memory_type_ok(property_flags@, type_bits, properties, i)) ==> r == 0,
    {
        let mut bits = type_bits;
        let mut i: u32 = 0;
        assert(type_bits >> 0u32 == type_bits) by (bit_vector);
        while (i as usize) < property_flags.len()
            invariant
                property_flags.len() <= 32,
                i <= property_flags.len(),
                bits == type_bits >> i,
                forall|j: int| 0 <= j < i ==> !memory_type_ok(property_flags@, type_bits, properties, j),
            decreases property_flags.len() - i,
        {
            if (bits & 1) == 1 && (property_flags[i as usize] & properties) == properties {
                assert(memory_type_ok(property_flags@, type_bits, properties, i as int));
                return i;
            }
            assert((type_bits >> i) >> 1u32 == type_bits >> ((i + 1) as u32)) by (bit_vector)
                requires
                    i < 32,
            ;
            bits = bits >> 1;
            i = i + 1;
        }
        0
    }
}

/// A shader group of the ray tracing pipeline, by the indices of its shaders.
#[derive(Clone, Copy, PartialEq, Eq, Structural, Debug)]
pub enum ShaderGroup {
    /// A group of one shader: ray generation, miss or callable.
    General(u32),
    /// A hit group for triangles.
    TrianglesHitGroup { closest_hit_shader: u32, any_hit_shader: u32 },
    /// A hit group for procedural geometry, with its intersection shader.
    ProceduralHitGroup { closest_hit_shader: u32, any_hit_shader: u32, intersection_shader: u32 },
}

/// The type of a shader group.
#[derive(Clone, Copy, PartialEq, Eq, Structural, Debug)]
pub enum ShaderGroupType {
    General,
    TrianglesHitGroup,
    ProceduralHitGroup,
}

/// The creation info of a shader group, with [SHADER_UNUSED_KHR] in the unused slots.
#[derive(Clone, Copy, PartialEq, Eq, Structural, Debug)]
pub struct ShaderGroupCreateInfo {
    pub ty: ShaderGroupType,
    pub general_shader: u32,
    pub closest_hit_shader: u32,
    pub any_hit_shader: u32,
    pub intersection_shader: u32,
}

/// The creation info of a shader group.
pub open spec fn group_info(g: ShaderGroup) -> ShaderGroupCreateInfo {
    match g {
        ShaderGroup::General(s) => ShaderGroupCreateInfo {
            ty: ShaderGroupType::General,
            general_shader: s,
            closest_hit_shader: SHADER_UNUSED_KHR,
            any_hit_shader: SHADER_UNUSED_KHR,
            intersection_shader: SHADER_UNUSED_KHR,
        },
        ShaderGroup::TrianglesHitGroup { closest_hit_shader, any_hit_shader } => ShaderGroupCreateInfo {
            ty: ShaderGroupType::TrianglesHitGroup,
            general_shader: SHADER_UNUSED_KHR,
            closest_hit_shader,
            any_hit_shader,
            intersection_shader: SHADER_UNUSED_KHR,
        },
        ShaderGroup::ProceduralHitGroup {
            closest_hit_shader,
            any_hit_shader,
            intersection_shader,
        } => ShaderGroupCreateInfo {
            ty: ShaderGroupType::ProceduralHitGroup,
            general_shader: SHADER_UNUSED_KHR,
            closest_hit_shader,
            any_hit_shader,
            intersection_shader,
        },
    }
}

/// The creation info of one shader group.
fn shader_group_info(g: ShaderGroup) -> (r: ShaderGroupCreateInfo)
    ensures
        r == group_info(g),
{
    match g {
        ShaderGroup::General(s) => ShaderGroupCreateInfo {
            ty: ShaderGroupType::General,
            general_shader: s,
            closest_hit_shader: SHADER_UNUSED_KHR,
            any_hit_shader: SHADER_UNUSED_KHR,
            intersection_shader: SHADER_UNUSED_KHR,
        },
        ShaderGroup::TrianglesHitGroup { closest_hit_shader, any_hit_shader } => ShaderGroupCreateInfo {
            ty: ShaderGroupType::TrianglesHitGroup,
            general_shader: SHADER_UNUSED_KHR,
            closest_hit_shader,
            any_hit_shader,
            intersection_shader: SHADER_UNUSED_KHR,
        },
        ShaderGroup::ProceduralHitGroup {
            closest_hit_shader,
            any_hit_shader,
            intersection_shader,
        } => ShaderGroupCreateInfo {
            ty: ShaderGroupType::ProceduralHitGroup,
            general_shader: SHADER_UNUSED_KHR,
            closest_hit_shader,
            any_hit_shader,
            intersection_shader,
        },
    }
}

/// The creation infos of shader groups, in order.
pub fn create_shader_groups(groups: Vec<ShaderGroup>) -> (r: Vec<ShaderGroupCreateInfo>)
    ensures
        r@ == groups@.map_values(|g: ShaderGroup| group_info(g)),
{
    let mut r: Vec<ShaderGroupCreateInfo> = Vec::new();
    let mut i: usize = 0;
    while i < groups.len()
        invariant
            i <= groups.len(),
            r@ == groups@.take(i as int).map_values(|g: ShaderGroup| group_info(g)),
        decreases groups.len() - i,
    {
        r.push(shader_group_info(groups[i]));
        assert(groups@.take(i + 1) =~= groups@.take(i as int).push(groups@[i as int]));
        assert(r@ =~= groups@.take(i + 1).map_values(|g: ShaderGroup| group_info(g)));
        i = i + 1;
    }
    assert(groups@.take(groups.len() as int) =~= groups@);
    r
}

/// A pipeline on the device, by its Vulkan handle.
#[derive(Clone, Copy, PartialEq, Eq, Debug)]
pub struct AshPipeline {
    /// The pipeline handle.
    pub pipeline: u64,
}

impl AshPipeline {
    /// A pipeline of its handle.
    pub fn new(pipeline: u64) -> (r: AshPipeline)
        ensures
            r.pipeline == pipeline,
    {
        AshPipeline { pipeline }
    }
}

/// A strided region of device addresses.
#[derive(Clone, Copy, PartialEq, Eq, Structural, Debug)]
pub struct StridedDeviceAddressRegion {
    pub device_address: u64,
    pub stride: u64,
    pub size: u64,
}

/// The regions of the shader binding table, one per kind of shader group.
#[derive(Clone, Copy, PartialEq, Eq, Structural, Debug)]
pub struct SbtRegion {
    pub raygen: StridedDeviceAddressRegion,
    pub miss: StridedDeviceAddressRegion,
    pub hit: StridedDeviceAddressRegion,
    pub call: StridedDeviceAddressRegion,
}

/// `value` rounded up to a multiple of `alignment`, a power of two.
pub fn aligned_size(value: u32, alignment: u32) -> (r: u32)
    requires
        alignment > 0,
        alignment & (alignment - 1) as u32 == 0,
        value + alignment <= u32::MAX,
    ensures
        r % alignment == 0,
        value <= r < value + alignment,
{
    let r = (value + alignment - 1) & !(alignment - 1);
    assert(r % alignment == 0 && value <= r && r < value + alignment) by (bit_vector)
        requires
            alignment > 0,
            alignment & ((alignment - 1) as u32) == 0,
            value + alignment <= 0xffff_ffff,
            r == ((value + alignment - 1) as u32) & !((alignment - 1) as u32),
    ;
    r
}

/// The shader binding table: the handle of group `i`, `handle_size` bytes of `handles` from
/// `i * handle_size`, stands at `i * handle_size_aligned`, and the rest is zero.
pub open spec fn sbt_byte(handles: Seq<u8>, handle_size: int, handle_size_aligned: int, j: int) -> u8 {
    let i = j / handle_size_aligned;
    let k = j % handle_size_aligned;
    if k < handle_size {
        handles[i * handle_size + k]
    } else {
        0u8
    }
}

/// Lays the group handles out in the shader binding table, each group in a slot of
/// `handle_size_aligned` bytes.
pub fn create_sbt_table_data(
    handles: &Vec<u8>,
    group_count: usize,
    handle_size: usize,
    handle_size_aligned: usize,
) -> (r: Vec<u8>)
    requires
        handle_size <= handle_size_aligned,
        group_count * handle_size <= handles.len(),
        group_count * handle_size_aligned <= usize::MAX,
    ensures
        r.len() == group_count * handle_size_aligned,
        forall|j: int|
            0 <= j < r.len() ==> #[trigger] r@[j] == sbt_byte(
                handles@,
                handle_size as int,
                handle_size_aligned as int,
                j,
            ),
{
    let mut r: Vec<u8> = Vec::new();
    let mut i: usize = 0;
    while i < group_count
        invariant
            handle_size <= handle_size_aligned,
            group_count * handle_size <= handles.len(),
            group_count * handle_size_aligned <= usize::MAX,
            i <= group_count,
            r.len() == i * handle_size_aligned,
            forall|j: int|
                0 <= j < r.len() ==> #[trigger] r@[j] == sbt_byte(
                    handles@,
                    handle_size as int,
                    handle_size_aligned as int,
                    j,
                ),
        decreases group_count - i,
    {
        assert((i + 1) * handle_size_aligned <= group_count * handle_size_aligned) by (nonlinear_arith)
            requires
                i < group_count,
        ;
        assert(i * handle_size <= (i + 1) * handle_size <= group_count * handle_size) by (nonlinear_arith)
            requires
                i < group_count,
        ;
        let base: usize = i * handle_size_aligned;
        let src: usize = i * handle_size;
        let mut k: usize = 0;
        while k < handle_size_aligned
            invariant
                handle_size <= handle_size_aligned,
                (i + 1) * handle_size <= handles.len(),
                (i + 1) * handle_size_aligned <= usize::MAX,
                base == i * handle_size_aligned,
                src == i * handle_size,
                k <= handle_size_aligned,
                r.len() == base + k,
                forall|j: int|
                    0 <= j < r.len() ==> #[trigger] r@[j] == sbt_byte(
                        handles@,
                        handle_size as int,
                        handle_size_aligned as int,
                        j,
                    ),
            decreases handle_size_aligned - k,
        {
            proof {
                let j = base + k;
                assert(j / (handle_size_aligned as int) == i && j % (handle_size_aligned as int) == k)
                    by (nonlinear_arith)
                    requires
                        j == i * handle_size_aligned + k,
                        k < handle_size_aligned,
                ;
                assert(i * handle_size + k < (i + 1) * handle_size || k >= handle_size) by (nonlinear_arith);
            }
            if k < handle_size {
                r.push(handles[src + k]);
            } else {
                r.push(0u8);
            }
            k = k + 1;
        }
        i = i + 1;
        assert(r.len() == i * handle_size_aligned) by (nonlinear_arith)
            requires
                r.len() == (i - 1) * handle_size_aligned + handle_size_aligned,
        ;
    }
    r
}

/// The regions of the shader binding table at `sbt_address`: ray generation in the first
/// slot, miss in the second, the hit groups in the rest, and no callable region.
pub fn sbt_region(sbt_address: u64, handle_size_aligned: u64, group_count: u64) -> (r: SbtRegion)
    requires
        group_count >= 3,
        sbt_address + 2 * handle_size_aligned <= u64::MAX,
        (group_count - 2) * handle_size_aligned <= u64::MAX,
    ensures
        r.raygen == (StridedDeviceAddressRegion {
            device_address: sbt_address,
            stride: handle_size_aligned,
            size: handle_size_aligned,
        }),
        r.miss == (StridedDeviceAddressRegion {
            device_address: (sbt_address + handle_size_aligned) as u64,
            stride: handle_size_aligned,
            size: handle_size_aligned,
        }),
        r.hit == (StridedDeviceAddressRegion {
            device_address: (sbt_address + 2 * handle_size_aligned) as u64,
            stride: handle_size_aligned,
            size: ((group_count - 2) * handle_size_aligned) as u64,
        }),
        r.call == (StridedDeviceAddressRegion { device_address: 0, stride: 0, size: 0 }),
{
    SbtRegion {
        raygen: StridedDeviceAddressRegion {
            device_address: sbt_address,
            stride: handle_size_aligned,
            size: handle_size_aligned,
        },
        miss: StridedDeviceAddressRegion {
            device_address: sbt_address + handle_size_aligned,
            stride: handle_size_aligned,
            size: handle_size_aligned,
        },
        hit: StridedDeviceAddressRegion {
            device_address: sbt_address + 2 * handle_size_aligned,
            stride: handle_size_aligned,
            size: (group_count - 2) * handle_size_aligned,
        },
        call: StridedDeviceAddressRegion { device_address: 0, stride: 0, size: 0 },
    }
}

} // verus!
