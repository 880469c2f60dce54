//! The batching of the rasterization pipeline: models are drawn in instances grouped by
//! model, and textures share one de-duplicated list of textures.

use super::raytracing::{
    add_textures, batch_draws, draw_meshs, draws_of, drawn_all, meshes_in_order, BatchDraw, Draw,
    InstanceBatch, TextureResources,
};
use vstd::prelude::*;

verus! {

/// The draws of the models that were loaded, each with its model, in order.
pub open spec fn loaded_models(s: Seq<(u64, bool, Draw)>) -> Seq<(u64, Draw)>
    decreases s.len(),
{
    if s.len() == 0 {
        Seq::empty()
    } else {
        let p = loaded_models(s.drop_last());
        if s.last().1 {
            p.push((s.last().0, s.last().2))
        } else {
            p
        }
    }
}

/// The draws whose texture was loaded, in order.
pub open spec fn loaded_draws(s: Seq<(bool, Draw)>) -> Seq<Draw>
    decreases s.len(),
{
    if s.len() == 0 {
        Seq::empty()
    } else {
        let p = loaded_draws(s.drop_last());
        if s.last().0 {
            p.push(s.last().1)
        } else {
            p
        }
    }
}

/// The draws of models, each given by its model asset, whether the model was loaded, and
/// the draw; unloaded models are skipped. Returns them in order.
fn loaded_model_draws(models: &Vec<(u64, bool, Draw)>) -> (r: Vec<(u64, Draw)>)
    ensures
        r@ == loaded_models(models@),
        r.len() <= models.len(),
{
    let mut r: Vec<(u64, Draw)> = Vec::new();
    let mut i: usize = 0;
    while i < models.len()
        invariant
            i <= models.len(),
            r.len() <= i,
            r@ == loaded_models(models@.take(i as int)),
        decreases models.len() - i,
    {
        assert(models@.take(i + 1).drop_last() =~= models@.take(i as int));
        assert(models@.take(i + 1).last() == models@[i as int]);
        let (m, loaded, d) = models[i];
        if loaded {
            r.push((m, d));
        }
        i = i + 1;
    }
    assert(models@.take(models.len() as int) =~= models@);
    r
}

/// The draws of textures that were loaded, in order.
fn loaded_texture_draws(draws: &Vec<(bool, Draw)>) -> (r: Vec<Draw>)
    ensures
        r@ == loaded_draws(draws@),
        r.len() <= draws.len(),
{
    let mut r: Vec<Draw> = Vec::new();
    let mut i: usize = 0;
    while i < draws.len()
        invariant
            i <= draws.len(),
            r.len() <= i,
            r@ == loaded_draws(draws@.take(i as int)),
        decreases draws.len() - i,
    {
        assert(draws@.take(i + 1).drop_last() =~= draws@.take(i as int));
        assert(draws@.take(i + 1).last() == draws@[i as int]);
        let (loaded, d) = draws[i];
        if loaded {
            r.push(d);
        }
        i = i + 1;
    }
    assert(draws@.take(draws.len() as int) =~= draws@);
    r
}

/// Batches the draws of models by model: the draws of unloaded models are skipped; then one
/// new batch per model, in the order of the models' first draws, holds the draws of that
/// model in order (as [draw_meshs] does); the texture of each draw is added to the texture
/// list and the instance refers to its position there (`u32::MAX` for none).
pub fn draw_models(
    models: &Vec<(u64, bool, Draw)>,
    textures: &mut TextureResources,
    batches: &mut Vec<InstanceBatch>,
)
    requires
        old(textures)@.no_duplicates(),
        old(textures)@.len() + models.len() < u32::MAX,
    ensures
        final(textures)@ == add_textures(
            old(textures)@,
            loaded_models(models@).map_values(|p: (u64, Draw)| p.1),
        ),
        final(textures)@.no_duplicates(),
        final(batches).len() == old(batches).len() + meshes_in_order(loaded_models(models@)).len(),
        forall|j: int| 0 <= j < old(batches).len() ==> #[trigger] final(batches)@[j] == old(batches)@[j],
        forall|j: int|
            0 <= j < meshes_in_order(loaded_models(models@)).len() ==> {
                let b = #[trigger] final(batches)@[old(batches).len() + j];
                &&& b.mesh == Some(meshes_in_order(loaded_models(models@))[j])
                &&& drawn_all(
                    b.draws@,
                    draws_of(loaded_models(models@), meshes_in_order(loaded_models(models@))[j]),
                    final(textures)@,
                )
            },
{
    let loaded = loaded_model_draws(models);
    draw_meshs(&loaded, textures, batches);
}

/// The instances of the textures drawn as sprites: the draws whose texture was not loaded
/// are skipped; each other texture is added to the texture list and its instance refers to
/// its position there.
pub fn draw_textures(draws: &Vec<(bool, Draw)>, textures: &mut TextureResources) -> (r: Vec<BatchDraw>)
    requires
        old(textures)@.no_duplicates(),
        old(textures)@.len() + draws.len() < u32::MAX,
    ensures
        final(textures)@ == add_textures(old(textures)@, loaded_draws(draws@)),
        final(textures)@.no_duplicates(),
        drawn_all(r@, loaded_draws(draws@), final(textures)@),
{
    let loaded = loaded_texture_draws(draws);
    batch_draws(&loaded, textures)
}

} // verus!
