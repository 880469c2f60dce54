use steel::data::{Data, Limit, Value};
use steel::edit::Edit;
use steel::render::pipeline::raytracing::material::{EnumMaterial, Material, Vec3Bits, F32_MAX, F32_ONE, F32_ZERO};
use steel::render::pipeline::raytracing::util::ash::{
    aligned_size, create_sbt_table_data, create_shader_groups, sbt_region, AshBuffer, AshPipeline, ShaderGroup,
    ShaderGroupType, SHADER_UNUSED_KHR,
};
use steel::render::pipeline::raytracing::util::vulkano::{
    create_bottom_level_acceleration_structure_aabbs, create_bottom_level_acceleration_structure_triangles,
    create_top_level_acceleration_structure, AabbPositions, ACCELERATION_STRUCTURE_TYPE_BOTTOM_LEVEL,
    BUILD_PREFER_FAST_TRACE, FORMAT_R32G32B32_SFLOAT, GEOMETRY_OPAQUE,
};
use steel::render::pipeline::raytracing::util::{affine3a_to_rows_array_2d, create_shader_stages, ExecutionModel};
use steel::ecs::DEAD;
use steel::render::pipeline::rasterization::{draw_models, draw_textures};
use steel::render::pipeline::raytracing::{
    draw_frame, draw_meshs, draw_shapes, Draw, RayTracingSettings, TextureResources, F32_TEN,
};

fn c(x: f32, y: f32, z: f32) -> Vec3Bits {
    Vec3Bits { x: x.to_bits(), y: y.to_bits(), z: z.to_bits() }
}

#[test]
fn material_defaults_and_types() {
    assert_eq!(F32_ONE, 1.0f32.to_bits());
    assert_eq!(F32_ZERO, 0.0f32.to_bits());
    assert_eq!(F32_MAX, f32::MAX.to_bits());
    let d = Material::default();
    assert_eq!(d, Material::Lambertian { color: c(1.0, 1.0, 1.0) });
    assert_eq!(d.to_i32(), 0);
    assert_eq!(Material::from_i32(1), Material::Metal { color: c(1.0, 1.0, 1.0), fuzz: F32_ZERO });
    assert_eq!(Material::from_i32(2), Material::Dielectric { color: c(1.0, 1.0, 1.0), ri: F32_ONE });
    assert_eq!(Material::from_i32(3), Material::Emission { color: c(1.0, 1.0, 1.0), intensity: F32_ONE });
    assert_eq!(Material::from_i32(3).to_i32(), 3);
    assert_eq!(Material::from_i32(42), Material::default());
    let names: Vec<(i32, String)> = Material::enum_vector();
    assert_eq!(
        names,
        vec![
            (0, "Lambertian".to_string()),
            (1, "Metal".to_string()),
            (2, "Dielectric".to_string()),
            (3, "Emission".to_string())
        ]
    );
}

#[test]
fn material_color_has_alpha_one() {
    let m = Material::Metal { color: c(0.5, 0.25, 1.0), fuzz: 0.3f32.to_bits() };
    assert_eq!(m.color(), (0.5f32.to_bits(), 0.25f32.to_bits(), 1.0f32.to_bits(), 1.0f32.to_bits()));
}

#[test]
fn material_edit_roundtrip() {
    let m = Material::Dielectric { color: c(0.1, 0.2, 0.3), ri: 1.5f32.to_bits() };
    let d = m.get_data();
    assert_eq!(d.get("type"), Some(&Value::Int32(2)));
    assert_eq!(d.get("color"), Some(&Value::Vec3(0.1f32.to_bits(), 0.2f32.to_bits(), 0.3f32.to_bits())));
    assert_eq!(d.get("ri"), Some(&Value::Float32(1.5f32.to_bits())));
    assert_eq!(d.limits[2], ("ri".to_string(), Limit::Float32Range(F32_ONE, F32_MAX)));
    assert_eq!(d.limits[1], ("color".to_string(), Limit::Vec3Color));
    let mut other = Material::Emission { color: c(0.0, 0.0, 0.0), intensity: F32_ZERO };
    other.set_data(&d);
    assert_eq!(other, m);
    let mut same_kind = Material::Dielectric { color: c(0.9, 0.9, 0.9), ri: F32_ONE };
    same_kind.set_data(&d);
    assert_eq!(same_kind, m);
    assert_eq!(<Material as Edit>::name(), "Material");
}

#[test]
fn material_type_change_starts_fresh() {
    let mut m = Material::Metal { color: c(0.2, 0.2, 0.2), fuzz: 0.7f32.to_bits() };
    m.set_data(&Data::new().insert("type", Value::Int32(3)));
    assert_eq!(m, Material::Emission { color: c(1.0, 1.0, 1.0), intensity: F32_ONE });
    // the same type keeps the fields
    let mut m = Material::Metal { color: c(0.2, 0.2, 0.2), fuzz: 0.7f32.to_bits() };
    m.set_data(&Data::new().insert("type", Value::Int32(1)).insert("fuzz", Value::Float32(F32_ZERO)));
    assert_eq!(m, Material::Metal { color: c(0.2, 0.2, 0.2), fuzz: F32_ZERO });
}

#[test]
fn enum_material_constructors() {
    let col = c(0.5, 0.5, 0.5);
    let l = EnumMaterial::new_lambertian(col);
    assert_eq!(l.t, 0);
    assert_eq!(l.data, [col.x, col.y, col.z, F32_ZERO]);
    let e = EnumMaterial::new_emission(col, 2.0f32.to_bits());
    assert_eq!(e.t, 3);
    assert_eq!(e.data[3], 2.0f32.to_bits());
    let m = EnumMaterial::from_material(Material::Metal { color: c(1.0, 1.0, 1.0), fuzz: 0.4f32.to_bits() }, col);
    assert_eq!(m, EnumMaterial::new_metal(col, 0.4f32.to_bits()));
    let d = EnumMaterial::from_material(Material::Dielectric { color: c(1.0, 1.0, 1.0), ri: F32_ONE }, col);
    assert_eq!(d, EnumMaterial::new_dielectric(col, F32_ONE));
}

#[test]
fn aligned_sizes() {
    assert_eq!(aligned_size(32, 64), 64);
    assert_eq!(aligned_size(64, 64), 64);
    assert_eq!(aligned_size(65, 64), 128);
    assert_eq!(aligned_size(0, 16), 0);
    assert_eq!(aligned_size(5, 1), 5);
}

#[test]
fn memory_type_selection() {
    // flags of the memory types of a device
    let flags = vec![0b001, 0b110, 0b111, 0b010];
    // type 0 allowed and has bit 0
    assert_eq!(AshBuffer::get_memory_type_index(&flags, 0b1111, 0b001), 0);
    // type 0 not allowed: type 2 is the first allowed with bit 0
    assert_eq!(AshBuffer::get_memory_type_index(&flags, 0b1110, 0b001), 2);
    assert_eq!(AshBuffer::get_memory_type_index(&flags, 0b1111, 0b110), 1);
    // none: 0
    assert_eq!(AshBuffer::get_memory_type_index(&flags, 0b1000, 0b001), 0);
    assert_eq!(AshBuffer::get_memory_type_index(&flags, 0b1000, 0b010), 3);
}

#[test]
fn buffer_and_pipeline_handles() {
    let b = AshBuffer::from_handles(11, 12, 256);
    assert_eq!(b.buffer(), 11);
    assert!(b.can_store(256));
    assert!(!b.can_store(257));
    assert_eq!(AshPipeline::new(5).pipeline, 5);
}

#[test]
fn shader_groups_mark_unused_slots() {
    let r = create_shader_groups(vec![
        ShaderGroup::General(0),
        ShaderGroup::TrianglesHitGroup { closest_hit_shader: 2, any_hit_shader: SHADER_UNUSED_KHR },
        ShaderGroup::ProceduralHitGroup { closest_hit_shader: 3, any_hit_shader: 4, intersection_shader: 5 },
    ]);
    assert_eq!(r.len(), 3);
    assert_eq!(r[0].ty, ShaderGroupType::General);
    assert_eq!(r[0].general_shader, 0);
    assert_eq!(r[0].closest_hit_shader, SHADER_UNUSED_KHR);
    assert_eq!(r[0].intersection_shader, SHADER_UNUSED_KHR);
    assert_eq!(r[1].ty, ShaderGroupType::TrianglesHitGroup);
    assert_eq!(r[1].general_shader, SHADER_UNUSED_KHR);
    assert_eq!(r[1].closest_hit_shader, 2);
    assert_eq!(r[2].ty, ShaderGroupType::ProceduralHitGroup);
    assert_eq!(r[2].intersection_shader, 5);
    assert_eq!(r[2].any_hit_shader, 4);
}

#[test]
fn sbt_table_layout() {
    // 3 groups with handles of 2 bytes in slots of 4 bytes
    let handles = vec![1u8, 2, 3, 4, 5, 6];
    let t = create_sbt_table_data(&handles, 3, 2, 4);
    assert_eq!(t, vec![1, 2, 0, 0, 3, 4, 0, 0, 5, 6, 0, 0]);
}

#[test]
fn sbt_regions() {
    let r = sbt_region(1000, 64, 5);
    assert_eq!((r.raygen.device_address, r.raygen.size, r.raygen.stride), (1000, 64, 64));
    assert_eq!((r.miss.device_address, r.miss.size, r.miss.stride), (1064, 64, 64));
    assert_eq!((r.hit.device_address, r.hit.size, r.hit.stride), (1128, 192, 64));
    assert_eq!((r.call.device_address, r.call.size, r.call.stride), (0, 0, 0));
}

#[test]
fn shader_stage_flags() {
    let r = create_shader_stages(&vec![
        ExecutionModel::RayGenerationKHR,
        ExecutionModel::MissKHR,
        ExecutionModel::ClosestHitKHR,
        ExecutionModel::AnyHitKHR,
        ExecutionModel::IntersectionKHR,
        ExecutionModel::CallableKHR,
    ]);
    assert_eq!(r, vec![0x100, 0x800, 0x400, 0x200, 0x1000, 0x2000]);
}

#[test]
fn affine_rows() {
    let cols = [[1, 2, 3], [4, 5, 6], [7, 8, 9], [10, 11, 12]];
    assert_eq!(affine3a_to_rows_array_2d(cols), [[1, 4, 7, 10], [2, 5, 8, 11], [3, 6, 9, 12]]);
}

#[test]
fn blas_build_inputs() {
    let t = create_bottom_level_acceleration_structure_triangles(4, None);
    assert_eq!(t.indices, vec![0, 1, 2, 3]);
    assert_eq!(t.max_vertex, 4);
    assert_eq!(t.build_range_info.primitive_count, 1);
    let t = create_bottom_level_acceleration_structure_triangles(3, Some(vec![0, 1, 2, 2, 1, 0]));
    assert_eq!(t.indices, vec![0, 1, 2, 2, 1, 0]);
    assert_eq!(t.build_range_info.primitive_count, 2);
    assert_eq!(t.build_range_info.primitive_offset, 0);
    assert_eq!(t.max_primitive_counts, vec![2]);
    assert_eq!(t.vertex_stride, 32);
    assert_eq!(t.vertex_format, FORMAT_R32G32B32_SFLOAT);
    assert_eq!(t.geometry_flags, GEOMETRY_OPAQUE);
    assert_eq!(t.build_flags, BUILD_PREFER_FAST_TRACE);
    assert_eq!(t.ty, ACCELERATION_STRUCTURE_TYPE_BOTTOM_LEVEL);
    let b1 = AabbPositions { min: [(-0.5f32).to_bits(); 3], max: [0.5f32.to_bits(); 3] };
    let b2 = AabbPositions { min: [0; 3], max: [1.0f32.to_bits(); 3] };
    let a = create_bottom_level_acceleration_structure_aabbs(&vec![b1, b2]);
    assert_eq!(a.geometries.len(), 2);
    assert_eq!(a.geometries[0].data, b1);
    assert_eq!(a.geometries[1].data, b2);
    assert!(a.geometries.iter().all(|g| g.stride == 24 && g.flags == GEOMETRY_OPAQUE));
    assert_eq!(a.max_primitive_counts, vec![1, 1]);
    assert_eq!(a.build_range_infos.len(), 2);
    assert!(a.build_range_infos.iter().all(|r| r.primitive_count == 1 && r.first_vertex == 0));
    assert_eq!(a.build_flags, BUILD_PREFER_FAST_TRACE);
}

#[test]
fn tlas_instances_flatten_groups() {
    let t1 = [[1, 0, 0], [0, 1, 0], [0, 0, 1], [5, 6, 7]];
    let t2 = [[2, 0, 0], [0, 2, 0], [0, 0, 2], [8, 9, 10]];
    let r = create_top_level_acceleration_structure(&vec![(100, 0, vec![t1, t2]), (200, 2, vec![]), (300, 1, vec![t2])]);
    assert_eq!(r.len(), 3);
    assert_eq!(r[0].acceleration_structure_reference, 100);
    assert_eq!(r[0].instance_custom_index, 0);
    assert_eq!(r[0].transform, affine3a_to_rows_array_2d(t1));
    assert_eq!(r[1].transform, affine3a_to_rows_array_2d(t2));
    assert_eq!(r[2].acceleration_structure_reference, 300);
    assert_eq!(r[2].instance_custom_index, 2);
    assert_eq!(r[2].instance_shader_binding_table_record_offset, 1);
    assert_eq!(r[2].mask, 0xff);
    assert_eq!(r[2].flags, 1);
}

fn draw(texture: Option<u64>, eid: u64) -> Draw {
    Draw {
        texture,
        material: EnumMaterial::new_lambertian(c(1.0, 1.0, 1.0)),
        transform: [[eid as u32, 0, 0], [0, 1, 0], [0, 0, 1], [0, 0, 0]],
        eid,
    }
}

#[test]
fn draw_meshs_batches_by_mesh_and_dedups_textures() {
    let mut textures = TextureResources::new();
    let mut batches = Vec::new();
    let meshs = vec![
        (7u64, draw(Some(70), 1)),
        (8u64, draw(None, 2)),
        (7u64, draw(Some(71), 3)),
        (8u64, draw(Some(70), 4)),
    ];
    draw_meshs(&meshs, &mut textures, &mut batches);
    assert_eq!(textures.len(), 2);
    assert_eq!(batches.len(), 2);
    assert_eq!(batches[0].mesh, Some(7));
    assert_eq!(batches[0].sbt_index, 0);
    assert_eq!(batches[0].draws.iter().map(|d| d.eid).collect::<Vec<_>>(), vec![1, 3]);
    assert_eq!(batches[0].draws.iter().map(|d| d.texture_index).collect::<Vec<_>>(), vec![0, 1]);
    assert_eq!(batches[1].mesh, Some(8));
    assert_eq!(batches[1].draws.iter().map(|d| d.eid).collect::<Vec<_>>(), vec![2, 4]);
    assert_eq!(batches[1].draws.iter().map(|d| d.texture_index).collect::<Vec<_>>(), vec![u32::MAX, 0]);
    assert_eq!(batches[1].draws[1].transform, meshs[3].1.transform);

    // shapes go to one new batch; textures keep their positions
    draw_shapes(&vec![draw(Some(72), 5), draw(Some(71), 6)], 2, &mut textures, &mut batches);
    assert_eq!(batches.len(), 3);
    assert_eq!(batches[2].mesh, None);
    assert_eq!(batches[2].sbt_index, 2);
    assert_eq!(batches[2].draws.iter().map(|d| d.texture_index).collect::<Vec<_>>(), vec![2, 1]);
    assert_eq!(textures.len(), 3);
    // no shapes: no batch
    draw_shapes(&vec![], 1, &mut textures, &mut batches);
    assert_eq!(batches.len(), 3);
}

#[test]
fn ray_tracing_settings_edit_roundtrip() {
    let d0 = RayTracingSettings::default();
    assert_eq!(F32_TEN, 10.0f32.to_bits());
    assert_eq!(d0.samples, 30);
    assert_eq!(d0.max_bounces, 30);
    assert_eq!(d0.camera_focus_dist, 10.0f32.to_bits());
    let s = RayTracingSettings {
        camera_lens_radius: 0.5f32.to_bits(),
        camera_focus_dist: 3.0f32.to_bits(),
        samples: 4,
        max_bounces: 8,
        miss_color_top: c(0.1, 0.2, 0.3),
        miss_color_bottom: c(0.0, 0.0, 0.0),
    };
    let mut data = Data::new().insert("ray_tracing", Value::Bool(true));
    s.get_data(&mut data);
    assert_eq!(data.values.len(), 7);
    assert_eq!(data.get("samples"), Some(&Value::UInt32(4)));
    assert_eq!(data.get("max_bounces"), Some(&Value::UInt32(8)));
    assert_eq!(data.limits.len(), 5);
    assert_eq!(data.limits[2], ("samples".to_string(), Limit::UInt32Range(1, u32::MAX)));
    let mut t = RayTracingSettings::default();
    t.set_data(&data);
    assert_eq!(t, s);
}

#[test]
fn frame_batches_and_placeholder_sphere() {
    let mut textures = TextureResources::new();
    let mut batches = Vec::new();
    draw_frame(&vec![(7, draw(Some(70), 1))], &vec![], &vec![], &mut textures, &mut batches);
    // one mesh batch, no circle batch, the placeholder sphere
    assert_eq!(batches.len(), 2);
    assert_eq!(batches[0].mesh, Some(7));
    assert_eq!(batches[1].sbt_index, 2);
    assert_eq!(batches[1].draws.len(), 1);
    let p = batches[1].draws[0];
    assert_eq!(p.eid, DEAD);
    assert_eq!(p.texture_index, u32::MAX);
    assert_eq!(p.transform, [[0; 3]; 4]);
    assert_eq!(p.material, EnumMaterial::new_lambertian(Vec3Bits { x: 0, y: 0, z: 0 }));

    let mut textures = TextureResources::new();
    let mut batches = Vec::new();
    draw_frame(&vec![], &vec![draw(Some(1), 2)], &vec![draw(Some(1), 3), draw(None, 4)], &mut textures, &mut batches);
    assert_eq!(batches.len(), 2);
    assert_eq!((batches[0].sbt_index, batches[1].sbt_index), (1, 2));
    assert_eq!(batches[1].draws.iter().map(|d| d.eid).collect::<Vec<_>>(), vec![3, 4]);
    assert_eq!(batches[1].draws[0].texture_index, 0);
    assert_eq!(textures.len(), 1);
}

#[test]
fn rasterization_models_and_textures() {
    let mut textures = TextureResources::new();
    let mut batches = Vec::new();
    let models = vec![(5u64, true, draw(Some(9), 1)), (6, false, draw(Some(8), 2)), (5, true, draw(None, 3))];
    draw_models(&models, &mut textures, &mut batches);
    assert_eq!(batches.len(), 1);
    assert_eq!(batches[0].mesh, Some(5));
    assert_eq!(batches[0].draws.iter().map(|d| (d.eid, d.texture_index)).collect::<Vec<_>>(), vec![(1, 0), (3, u32::MAX)]);
    assert_eq!(textures.len(), 1);

    let mut set = TextureResources::new();
    let r = draw_textures(&vec![(true, draw(Some(4), 1)), (false, draw(Some(5), 2)), (true, draw(Some(4), 3))], &mut set);
    assert_eq!(r.iter().map(|d| (d.eid, d.texture_index)).collect::<Vec<_>>(), vec![(1, 0), (3, 0)]);
    assert_eq!(set.len(), 1);
}
