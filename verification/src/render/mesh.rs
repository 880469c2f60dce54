//! Mesh index generation for predefined shapes.

use vstd::prelude::*;

verus! {

/// Number of latitude bands of the sphere mesh.
pub const SPHERE_LATITUDE_COUNT: usize = 16;

/// Number of longitude bands of the sphere mesh.
pub const SPHERE_LONGITUDE_COUNT: usize = 32;

/// Number of vertices of the sphere mesh.
pub const SPHERE_VERTEX_COUNT: usize = 561;

/// Number of indices of the sphere mesh.
pub const SPHERE_INDEX_COUNT: usize = 3072;

/// The `k`-th index of the sphere mesh: quad `k / 6` covers latitude band `q / 32` and
/// longitude band `q % 32` and is drawn as the triangles (first, first + 1, second) and
/// (second, first + 1, second + 1), where `first` is the vertex at the top left corner of
/// the quad and `second` the one below it.
pub open spec fn sphere_index(k: int) -> int {
    let q = k / 6;
    let first = (q / 32) * 33 + q % 32;
    let second = first + 33;
    let r = k % 6;
    if r == 0 {
        first
    } else if r == 1 {
        first + 1
    } else if r == 2 {
        second
    } else if r == 3 {
        second
    } else if r == 4 {
        first + 1
    } else {
        second + 1
    }
}

/// The indices of the sphere mesh, two triangles for each quad of the latitude-longitude
/// grid of vertices.
pub fn generate_sphere_indices() -> (r: Vec<u32>)
    ensures
        r.len() == SPHERE_INDEX_COUNT,
        forall|k: int| 0 <= k < r.len() ==> #[trigger] r@[k] == sphere_index(k),
        forall|k: int| 0 <= k < r.len() ==> #[trigger] r@[k] < SPHERE_VERTEX_COUNT,
{
    let mut indices: Vec<u32> = Vec::new();
    let mut lat: usize = 0;
    while lat < SPHERE_LATITUDE_COUNT
        invariant
            lat <= SPHERE_LATITUDE_COUNT,
            indices.len() == lat * 32 * 6,
            forall|k: int| 0 <= k < indices.len() ==> #[trigger] indices@[k] == sphere_index(k),
        decreases SPHERE_LATITUDE_COUNT - lat,
    {
        let mut lon: usize = 0;
        while lon < SPHERE_LONGITUDE_COUNT
            invariant
                lat < SPHERE_LATITUDE_COUNT,
                lon <= SPHERE_LONGITUDE_COUNT,
                indices.len() == (lat * 32 + lon) * 6,
                forall|k: int| 0 <= k < indices.len() ==> #[trigger] indices@[k] == sphere_index(k),
            decreases SPHERE_LONGITUDE_COUNT - lon,
        {
            assert(lat * (SPHERE_LONGITUDE_COUNT + 1) + lon < SPHERE_VERTEX_COUNT) by (nonlinear_arith)
                requires
                    lat < 16,
                    lon < 32,
                    SPHERE_LONGITUDE_COUNT == 32,
                    SPHERE_VERTEX_COUNT == 561,
            ;
            let first = (lat * (SPHERE_LONGITUDE_COUNT + 1) + lon) as u32;
            let second = first + SPHERE_LONGITUDE_COUNT as u32 + 1;
            let base = indices.len();
            let ghost q = lat * 32 + lon;
            proof {
                assert forall|r: int| 0 <= r < 6 implies #[trigger] ((q * 6 + r) / 6) == q && (q * 6 + r) % 6 == r by {
                    assert((q * 6 + r) / 6 == q) by (nonlinear_arith) requires 0 <= r < 6, q >= 0;
                    assert((q * 6 + r) % 6 == r) by (nonlinear_arith) requires 0 <= r < 6, q >= 0;
                }
                assert(q / 32 == lat && q % 32 == lon) by (nonlinear_arith) requires q == lat * 32 + lon, 0 <= lon < 32;
            }
            indices.push(first);
            indices.push(first + 1);
            indices.push(second);
            indices.push(second);
            indices.push(first + 1);
            indices.push(second + 1);
            proof {
                assert forall|k: int| 0 <= k < indices.len() implies #[trigger] indices@[k] == sphere_index(k) by {
                    if k >= base {
                        let r = k - base;
                        assert(k == q * 6 + r);
                        assert((q * 6 + r) / 6 == q);
                        assert((q * 6 + r) % 6 == r);
                    }
                }
            }
            lon = lon + 1;
        }
        lat = lat + 1;
    }
    proof {
        assert forall|k: int| 0 <= k < indices.len() implies #[trigger] indices@[k] < SPHERE_VERTEX_COUNT by {
            let q = k / 6;
            assert(0 <= q < 512) by (nonlinear_arith) requires 0 <= k < 3072, q == k / 6;
            assert(0 <= q / 32 < 16 && 0 <= q % 32 < 32) by (nonlinear_arith) requires 0 <= q < 512;
            assert((q / 32) * 33 <= 15 * 33) by (nonlinear_arith) requires 0 <= q / 32 < 16;
        }
    }
    indices
}

} // verus!
