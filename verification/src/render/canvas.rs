//! Entity ids in render targets: every drawn pixel carries the id of the entity drawn there
//! as two u32 (low half first), so that an entity can be picked on the screen.

use crate::ecs::DEAD;
use vstd::prelude::*;

verus! {

/// The two u32 halves of an entity id, low half first.
pub open spec fn spec_eid_to_u32_array(eid: u64) -> [u32; 2] {
    [(eid % 0x1_0000_0000) as u32, (eid / 0x1_0000_0000) as u32]
}

/// The entity id of two u32 halves (low half first); the dead entity when both are zero,
/// since zero is no entity id.
pub open spec fn spec_u32_array_to_eid(arr: [u32; 2]) -> u64 {
    let e = arr[1] as int * 0x1_0000_0000 + arr[0] as int;
    if e == 0 {
        DEAD
    } else {
        e as u64
    }
}

/// Helper function to convert an entity id to [u32; 2], low half first.
pub fn eid_to_u32_array(eid: u64) -> (r: [u32; 2])
    ensures
        r == spec_eid_to_u32_array(eid),
{
    let lo = eid as u32;
    let hi = (eid >> 32u64) as u32;
    assert(lo == eid % 0x1_0000_0000) by (bit_vector)
        requires
            lo == eid as u32,
    ;
    assert(hi == eid / 0x1_0000_0000) by (bit_vector)
        requires
            hi == (eid >> 32u64) as u32,
    ;
    [lo, hi]
}

/// Helper function to convert [u32; 2] back into an entity id; zero, which is no entity id,
/// gives the dead entity.
pub fn u32_array_to_eid(arr: [u32; 2]) -> (r: u64)
    ensures
        r == spec_u32_array_to_eid(arr),
{
    let lo = arr[0];
    let hi = arr[1];
    let eid = ((hi as u64) << 32u64) | (lo as u64);
    assert(eid == hi as int * 0x1_0000_0000 + lo as int) by (bit_vector)
        requires
            eid == ((hi as u64) << 32u64) | (lo as u64),
    ;
    if eid == 0 {
        DEAD
    } else {
        eid
    }
}

/// Law: splitting a valid (non-zero) entity id into two u32 and joining them gives it back.
pub proof fn lemma_eid_u32_array_roundtrip(eid: u64)
    requires
        eid != 0,
    ensures
        spec_u32_array_to_eid(spec_eid_to_u32_array(eid)) == eid,
{
    let a = spec_eid_to_u32_array(eid);
    assert(a[1] as int * 0x1_0000_0000 + a[0] as int == eid);
}

/// Law: joining two u32 that are not both zero and splitting the result gives them back.
pub proof fn lemma_u32_array_eid_roundtrip(arr: [u32; 2])
    requires
        arr[0] != 0 || arr[1] != 0,
    ensures
        spec_eid_to_u32_array(spec_u32_array_to_eid(arr)) == arr,
{
    let e = arr[1] as int * 0x1_0000_0000 + arr[0] as int;
    assert(e != 0);
    assert(spec_eid_to_u32_array(e as u64) =~= arr);
}

/// The entity drawn at a screen position of an entity id image of `width` x `height`
/// pixels whose content is `pixels` (two u32 per pixel, row by row): the dead entity
/// outside the image or past the end of the pixels.
pub open spec fn spec_entity_at_screen(x: int, y: int, width: int, height: int, pixels: Seq<u32>) -> u64 {
    if x < 0 || x >= width || y < 0 || y >= height {
        DEAD
    } else {
        let index = (x + y * width) * 2;
        if index + 1 < pixels.len() {
            spec_u32_array_to_eid([pixels[index], pixels[index + 1]])
        } else {
            DEAD
        }
    }
}

/// Screen object picking: the entity drawn at `(x, y)` in an entity id image.
pub fn get_entity_at_screen(x: i32, y: i32, width: i32, height: i32, pixels: &Vec<u32>) -> (r: u64)
    requires
        0 <= width,
        0 <= height,
        width * height * 2 <= i32::MAX,
    ensures
        r == spec_entity_at_screen(x as int, y as int, width as int, height as int, pixels@),
{
    if x < 0 || x >= width || y < 0 || y >= height {
        return DEAD;
    }
    assert(0 <= y * width <= (height - 1) * width) by (nonlinear_arith)
        requires
            0 <= y < height,
            0 <= width,
    ;
    assert((height - 1) * width + width == height * width) by (nonlinear_arith);
    assert(0 <= height * width <= width * height) by (nonlinear_arith)
        requires
            0 <= width,
            0 <= height,
    ;
    let index = ((x + y * width) * 2) as usize;
    if index + 1 < pixels.len() {
        u32_array_to_eid([pixels[index], pixels[index + 1]])
    } else {
        DEAD
    }
}

} // verus!
