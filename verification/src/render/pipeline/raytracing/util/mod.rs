//! Helpers of the ray tracing pipeline: shader stages and instance transforms.

pub mod ash;
pub mod vulkano;

use vstd::prelude::*;

verus! {

/// The execution model of a shader entry point.
#[derive(Clone, Copy, PartialEq, Eq, Structural, Debug)]
pub enum ExecutionModel {
    Vertex,
    TessellationControl,
    TessellationEvaluation,
    Geometry,
    Fragment,
    GLCompute,
    Kernel,
    TaskNV,
    MeshNV,
    RayGenerationKHR,
    IntersectionKHR,
    AnyHitKHR,
    ClosestHitKHR,
    MissKHR,
    CallableKHR,
    TaskEXT,
    MeshEXT,
}

/// The stage flag bit of ray generation shaders.
pub const SHADER_STAGE_RAYGEN_KHR: u32 = 0x0100u32;

/// The stage flag bit of any-hit shaders.
pub const SHADER_STAGE_ANY_HIT_KHR: u32 = 0x0200u32;

/// The stage flag bit of closest-hit shaders.
pub const SHADER_STAGE_CLOSEST_HIT_KHR: u32 = 0x0400u32;

/// The stage flag bit of miss shaders.
pub const SHADER_STAGE_MISS_KHR: u32 = 0x0800u32;

/// The stage flag bit of intersection shaders.
pub const SHADER_STAGE_INTERSECTION_KHR: u32 = 0x1000u32;

/// The stage flag bit of callable shaders.
pub const SHADER_STAGE_CALLABLE_KHR: u32 = 0x2000u32;

/// Whether an execution model is a stage of the ray tracing pipeline.
pub open spec fn is_ray_tracing_stage(m: ExecutionModel) -> bool {
    match m {
        ExecutionModel::RayGenerationKHR
        | ExecutionModel::IntersectionKHR
        | ExecutionModel::AnyHitKHR
        | ExecutionModel::ClosestHitKHR
        | ExecutionModel::MissKHR
        | ExecutionModel::CallableKHR => true,
        _ => false,
    }
}

/// The stage flag of a ray tracing execution model.
pub open spec fn stage_flag(m: ExecutionModel) -> u32 {
    match m {
        ExecutionModel::RayGenerationKHR => SHADER_STAGE_RAYGEN_KHR,
        ExecutionModel::IntersectionKHR => SHADER_STAGE_INTERSECTION_KHR,
        ExecutionModel::AnyHitKHR => SHADER_STAGE_ANY_HIT_KHR,
        ExecutionModel::ClosestHitKHR => SHADER_STAGE_CLOSEST_HIT_KHR,
        ExecutionModel::MissKHR => SHADER_STAGE_MISS_KHR,
        _ => SHADER_STAGE_CALLABLE_KHR,
    }
}

/// The stage flag of the entry point of one shader.
pub fn shader_stage_flag(m: ExecutionModel) -> (r: u32)
    requires
        is_ray_tracing_stage(m),
    ensures
        r == stage_flag(m),
{
    match m {
        ExecutionModel::RayGenerationKHR => SHADER_STAGE_RAYGEN_KHR,
        ExecutionModel::IntersectionKHR => SHADER_STAGE_INTERSECTION_KHR,
        ExecutionModel::AnyHitKHR => SHADER_STAGE_ANY_HIT_KHR,
        ExecutionModel::ClosestHitKHR => SHADER_STAGE_CLOSEST_HIT_KHR,
        ExecutionModel::MissKHR => SHADER_STAGE_MISS_KHR,
        _ => SHADER_STAGE_CALLABLE_KHR,
    }
}

/// The stage flags of the shader stages of the ray tracing pipeline, one per shader, in
/// order, from the execution models of the shaders' `main` entry points, each of which is
/// a ray tracing stage.
pub fn create_shader_stages(models: &Vec<ExecutionModel>) -> (r: Vec<u32>)
    requires
        forall|i: int| 0 <= i < models.len() ==> is_ray_tracing_stage(#[trigger] models@[i]),
    ensures
        r@ == models@.map_values(|m: ExecutionModel| stage_flag(m)),
{
    let mut r: Vec<u32> = Vec::new();
    let mut i: usize = 0;
    while i < models.len()
        invariant
            i <= models.len(),
            forall|j: int| 0 <= j < models.len() ==> is_ray_tracing_stage(#[trigger] models@[j]),
            r@ == models@.take(i as int).map_values(|m: ExecutionModel| stage_flag(m)),
        decreases models.len() - i,
    {
        r.push(shader_stage_flag(models[i]));
        assert(models@.take(i + 1) =~= models@.take(i as int).push(models@[i as int]));
        assert(r@ =~= models@.take(i + 1).map_values(|m: ExecutionModel| stage_flag(m)));
        i = i + 1;
    }
    assert(models@.take(models.len() as int) =~= models@);
    r
}

/// The rows of an affine transform, given by its four columns of three `f32` bit patterns:
/// row `r` holds the `r`-th entry of each column.
pub fn affine3a_to_rows_array_2d(cols: [[u32; 3]; 4]) -> (r: [[u32; 4]; 3])
    ensures
        forall|i: int, j: int| 0 <= i < 3 && 0 <= j < 4 ==> #[trigger] r@[i]@[j] == cols@[j]@[i],
{
    let r = [
        [cols[0][0], cols[1][0], cols[2][0], cols[3][0]],
        [cols[0][1], cols[1][1], cols[2][1], cols[3][1]],
        [cols[0][2], cols[1][2], cols[2][2], cols[3][2]],
    ];
    assert forall|i: int, j: int| 0 <= i < 3 && 0 <= j < 4 implies #[trigger] r@[i]@[j] == cols@[j]@[i] by {
        if i == 0 {
            assert(r@[0]@ =~= seq![cols@[0]@[0], cols@[1]@[0], cols@[2]@[0], cols@[3]@[0]]);
        } else if i == 1 {
            assert(r@[1]@ =~= seq![cols@[0]@[1], cols@[1]@[1], cols@[2]@[1], cols@[3]@[1]]);
        } else {
            assert(r@[2]@ =~= seq![cols@[0]@[2], cols@[1]@[2], cols@[2]@[2], cols@[3]@[2]]);
        }
    }
    r
}

} // verus!
