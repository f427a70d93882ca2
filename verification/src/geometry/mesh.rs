//! Vertex indexing of tessellated meshes.

use vstd::prelude::*;

verus! {

/// The position in the index array of corner `k` of grid cell `(v, u)`,
/// for a grid `us` cells wide: six indices (two triangles) per cell, cells
/// row by row.
pub open spec fn quad_slot(us: u32, v: int, u: int, k: int) -> int {
    6 * (v * us + u) + k
}

/// Corner `k` of the two triangles of grid cell `(v, u)` in a vertex grid
/// `us + 1` vertices wide: `(v, u)`, `(v + 1, u)`, `(v + 1, u + 1)`, then
/// `(v, u)`, `(v + 1, u + 1)`, `(v, u + 1)`.
pub open spec fn grid_corner(us: u32, v: int, u: int, k: int) -> int {
    let row = us + 1;
    if k == 0 || k == 3 {
        v * row + u
    } else if k == 1 {
        (v + 1) * row + u
    } else if k == 2 || k == 4 {
        (v + 1) * row + u + 1
    } else {
        v * row + u + 1
    }
}

proof fn lemma_cell_order(us: int, v2: int, u2: int, v: int, u: int)
    by (nonlinear_arith)
    requires
        0 <= u2 < us,
        0 <= v2,
        0 <= u,
        v2 < v || (v2 == v && u2 < u),
    ensures
        v2 * us + u2 < v * us + u,
{
    if v2 < v {
        assert(v2 * us + us <= v * us);
    }
}

proof fn lemma_corner_bound(us: int, vs: int, v: int, u: int)
    by (nonlinear_arith)
    requires
        0 <= v < vs,
        0 <= u < us,
    ensures
        (v + 1) * (us + 1) + u + 1 < (us + 1) * (vs + 1),
        0 <= v * (us + 1) + u,
        v * (us + 1) + u + 1 <= (v + 1) * (us + 1) + u + 1,
{
    assert((v + 1) * (us + 1) <= vs * (us + 1));
}

/// The triangle indices of a latitude/longitude sphere of `u_segments` by
/// `v_segments` cells, whose `(u_segments + 1) * (v_segments + 1)` vertices
/// are laid out ring by ring: each cell gives two triangles, and every
/// index names a vertex.
pub fn uv_sphere_indices(u_segments: u32, v_segments: u32) -> (idx: Vec<u32>)
    requires
        (u_segments + 1) * (v_segments + 1) <= u32::MAX,
        6 * u_segments * v_segments <= usize::MAX,
    ensures
        idx@.len() == 6 * u_segments * v_segments,
        forall|v: int, u: int, k: int|
            0 <= v < v_segments && 0 <= u < u_segments && 0 <= k < 6 ==> idx@[#[trigger] quad_slot(
                u_segments,
                v,
                u,
                k,
            )] == grid_corner(u_segments, v, u, k),
        forall|j: int| 0 <= j < idx@.len() ==> idx@[j] < (u_segments + 1) * (v_segments + 1),
{
    let us = u_segments;
    let vs = v_segments;
    proof {
        assert(us + 1 <= (us + 1) * (vs + 1)) by (nonlinear_arith);
    }
    let row = us + 1;
    let mut indices: Vec<u32> = Vec::new();
    let mut v: u32 = 0;
    while v < vs
        invariant
            row == us + 1,
            (us + 1) * (vs + 1) <= u32::MAX,
            6 * us * vs <= usize::MAX,
            v <= vs,
            indices@.len() == 6 * (v * us),
            forall|v2: int, u2: int, k: int|
                0 <= v2 < v && 0 <= u2 < us && 0 <= k < 6 ==> indices@[#[trigger] quad_slot(
                    us,
                    v2,
                    u2,
                    k,
                )] == grid_corner(us, v2, u2, k),
            forall|j: int| 0 <= j < indices@.len() ==> indices@[j] < (us + 1) * (vs + 1),
        decreases vs - v,
    {
        let mut u: u32 = 0;
        while u < us
            invariant
                row == us + 1,
                (us + 1) * (vs + 1) <= u32::MAX,
                6 * us * vs <= usize::MAX,
                v < vs,
                u <= us,
                indices@.len() == 6 * (v * us + u),
                forall|v2: int, u2: int, k: int|
                    0 <= v2 && 0 <= u2 < us && 0 <= k < 6 && (v2 < v || (v2 == v && u2 < u))
                        ==> indices@[#[trigger] quad_slot(us, v2, u2, k)] == grid_corner(
                        us,
                        v2,
                        u2,
                        k,
                    ),
                forall|j: int| 0 <= j < indices@.len() ==> indices@[j] < (us + 1) * (vs + 1),
            decreases us - u,
        {
            proof {
                lemma_corner_bound(us as int, vs as int, v as int, u as int);
                assert(6 * (v * us + u) + 6 <= 6 * us * vs) by (nonlinear_arith)
                    requires
                        v < vs,
                        u < us,
                ;
            }
            let i00 = v * row + u;
            let i01 = v * row + u + 1;
            let i10 = (v + 1) * row + u;
            let i11 = (v + 1) * row + u + 1;
            let ghost before = indices@;
            indices.push(i00);
            indices.push(i10);
            indices.push(i11);
            indices.push(i00);
            indices.push(i11);
            indices.push(i01);
            proof {
                let n = before.len();
                assert forall|v2: int, u2: int, k: int|
                    0 <= v2 && 0 <= u2 < us && 0 <= k < 6 && (v2 < v || (v2 == v && u2 < u + 1))
                        implies indices@[#[trigger] quad_slot(us, v2, u2, k)] == grid_corner(
                        us,
                        v2,
                        u2,
                        k,
                    ) by {
                    if v2 == v && u2 == u {
                        assert(quad_slot(us, v2, u2, k) == n + k);
                    } else {
                        lemma_cell_order(us as int, v2, u2, v as int, u as int);
                        assert(indices@[quad_slot(us, v2, u2, k)] == before[quad_slot(us, v2, u2, k)]);
                    }
                }
            }
            u = u + 1;
        }
        proof {
            assert(v * us + us == (v + 1) * us) by (nonlinear_arith);
        }
        v = v + 1;
    }
    proof {
        assert(6 * (vs * us) == 6 * us * vs) by (nonlinear_arith);
    }
    indices
}

/// The two triangles of grid cell `(v, u)`, with vertex `(r, c)` of the
/// grid at index `r * (us + 1) + c`: `(v, u)`, `(v + 1, u)`, `(v + 1, u + 1)`
/// and `(v, u)`, `(v + 1, u + 1)`, `(v, u + 1)`. Each triangle has three
/// distinct vertices, the two share the cell's diagonal, and neighbouring
/// cells share their common edge.
pub proof fn law_sphere_cell_triangles(us: u32, v: int, u: int)
    requires
        0 <= v,
        0 <= u < us,
    ensures
        grid_corner(us, v, u, 0) == v * (us + 1) + u,
        grid_corner(us, v, u, 1) == (v + 1) * (us + 1) + u,
        grid_corner(us, v, u, 2) == (v + 1) * (us + 1) + (u + 1),
        grid_corner(us, v, u, 3) == v * (us + 1) + u,
        grid_corner(us, v, u, 4) == (v + 1) * (us + 1) + (u + 1),
        grid_corner(us, v, u, 5) == v * (us + 1) + (u + 1),
        grid_corner(us, v, u, 0) != grid_corner(us, v, u, 1),
        grid_corner(us, v, u, 1) != grid_corner(us, v, u, 2),
        grid_corner(us, v, u, 0) != grid_corner(us, v, u, 2),
        grid_corner(us, v, u, 3) != grid_corner(us, v, u, 4),
        grid_corner(us, v, u, 4) != grid_corner(us, v, u, 5),
        grid_corner(us, v, u, 3) != grid_corner(us, v, u, 5),
        u + 1 < us ==> grid_corner(us, v, u, 5) == grid_corner(us, v, u + 1, 0)
            && grid_corner(us, v, u, 4) == grid_corner(us, v, u + 1, 1),
        grid_corner(us, v, u, 1) == grid_corner(us, v + 1, u, 0) && grid_corner(us, v, u, 2)
            == grid_corner(us, v + 1, u, 5),
{
    assert((v + 1) * (us + 1) == v * (us + 1) + us + 1) by (nonlinear_arith);
}

} // verus!
