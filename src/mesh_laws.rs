//! The mesh contract leaves no freedom: one heightmap and one corner
//! sequence admit exactly one vertex list and one index list.

use vstd::prelude::*;

verus! {

use crate::heightmap::HeightMapU16;
use crate::mesh::{
    TerrainVertex,
    Topology,
    is_mesh_of,
    is_payload_of,
    first_use,
    numbered_at_first_use,
    vertex_at,
    mesh_corners,
};
use crate::terrain_rtin::{selection, error_map, grid_size_of};
use crate::rtin::Vec2u32;

/// In a mesh, two corners share an index exactly when they share a lattice
/// point.
proof fn lemma_same_index_same_point(
    h: HeightMapU16,
    corners: Seq<Vec2u32>,
    vertices: Seq<TerrainVertex>,
    indices: Seq<u32>,
    j: int,
    k: int,
)
    requires
        is_mesh_of(h, corners, vertices, indices),
        0 <= j < indices.len(),
        0 <= k < indices.len(),
    ensures
        indices[j] == indices[k] <==> (corners[j].x == corners[k].x && corners[j].y
            == corners[k].y),
{
    let a = indices[j] as int;
    let b = indices[k] as int;
    assert(vertices[a] == vertex_at(h, corners[j]));
    assert(vertices[b] == vertex_at(h, corners[k]));
    if corners[j].x == corners[k].x && corners[j].y == corners[k].y && a != b {
        if a < b {
            assert(!(vertices[a].x == vertices[b].x && vertices[a].z == vertices[b].z));
        } else {
            assert(!(vertices[b].x == vertices[a].x && vertices[b].z == vertices[a].z));
        }
    }
}

/// A corner whose lattice point no earlier corner reached gets the vertex
/// numbered just above every earlier index.
proof fn lemma_new_point_index(
    h: HeightMapU16,
    corners: Seq<Vec2u32>,
    vertices: Seq<TerrainVertex>,
    indices: Seq<u32>,
    k: int,
)
    requires
        is_mesh_of(h, corners, vertices, indices),
        0 <= k < indices.len(),
        forall|j: int|
            0 <= j < k ==> !(corners[j].x == corners[k].x && corners[j].y == corners[k].y),
    ensures
        forall|j: int| 0 <= j < k ==> indices[j] < indices[k],
{
    let u = indices[k] as int;
    assert(indices[k] < vertices.len());
    assert(numbered_at_first_use(indices, u));
    let f = choose|f: int| #[trigger] first_use(indices, f, u);
    if f < k {
        lemma_same_index_same_point(h, corners, vertices, indices, f, k);
    }
    assert(f == k);
}

/// The index at position `k` is the same in two meshes of one corner
/// sequence that agree before `k`.
proof fn lemma_index_determined(
    h: HeightMapU16,
    corners: Seq<Vec2u32>,
    v1: Seq<TerrainVertex>,
    i1: Seq<u32>,
    v2: Seq<TerrainVertex>,
    i2: Seq<u32>,
    k: int,
)
    requires
        is_mesh_of(h, corners, v1, i1),
        is_mesh_of(h, corners, v2, i2),
        0 <= k < corners.len(),
        forall|j: int| 0 <= j < k ==> i1[j] == i2[j],
    ensures
        i1[k] == i2[k],
{
    if exists|j: int|
        0 <= j < k && corners[j].x == corners[k].x && corners[j].y == corners[k].y {
        let j = choose|j: int|
            0 <= j < k && corners[j].x == corners[k].x && corners[j].y == corners[k].y;
        lemma_same_index_same_point(h, corners, v1, i1, j, k);
        lemma_same_index_same_point(h, corners, v2, i2, j, k);
    } else {
        lemma_new_point_index(h, corners, v1, i1, k);
        lemma_new_point_index(h, corners, v2, i2, k);
        let u1 = i1[k] as int;
        let u2 = i2[k] as int;
        assert(i1[k] < v1.len());
        assert(i2[k] < v2.len());
        if u1 < u2 {
            assert(numbered_at_first_use(i2, u1));
            let f = choose|f: int| #[trigger] first_use(i2, f, u1);
            if f > k {
                assert(i2[k] < u1);
            }
            assert(f < k);
            assert(i1[f] == u1);
        } else if u2 < u1 {
            assert(numbered_at_first_use(i1, u2));
            let f = choose|f: int| #[trigger] first_use(i1, f, u2);
            if f > k {
                assert(i1[k] < u2);
            }
            assert(f < k);
            assert(i2[f] == u2);
        }
    }
}

proof fn lemma_indices_agree(
    h: HeightMapU16,
    corners: Seq<Vec2u32>,
    v1: Seq<TerrainVertex>,
    i1: Seq<u32>,
    v2: Seq<TerrainVertex>,
    i2: Seq<u32>,
    k: int,
)
    requires
        is_mesh_of(h, corners, v1, i1),
        is_mesh_of(h, corners, v2, i2),
        0 <= k <= corners.len(),
    ensures
        forall|j: int| 0 <= j < k ==> i1[j] == i2[j],
    decreases k,
{
    if k > 0 {
        lemma_indices_agree(h, corners, v1, i1, v2, i2, k - 1);
        lemma_index_determined(h, corners, v1, i1, v2, i2, k - 1);
    }
}

/// Mesh assembly is a function of its inputs: two meshes of the same
/// heightmap and corner sequence have identical vertices and indices.
pub proof fn lemma_mesh_unique(
    h: HeightMapU16,
    corners: Seq<Vec2u32>,
    v1: Seq<TerrainVertex>,
    i1: Seq<u32>,
    v2: Seq<TerrainVertex>,
    i2: Seq<u32>,
)
    requires
        is_mesh_of(h, corners, v1, i1),
        is_mesh_of(h, corners, v2, i2),
    ensures
        v1 == v2,
        i1 == i2,
{
    lemma_indices_agree(h, corners, v1, i1, v2, i2, corners.len() as int);
    assert(i1 =~= i2);
    assert forall|u: int| 0 <= u < v1.len() implies u < v2.len() && v1[u] == v2[u] by {
        assert(numbered_at_first_use(i1, u));
        let f = choose|f: int| #[trigger] first_use(i1, f, u);
        assert(i2[f] == u);
    }
    if v2.len() > v1.len() {
        let u = v1.len() as int;
        assert(numbered_at_first_use(i2, u));
        let f = choose|f: int| #[trigger] first_use(i2, f, u);
        assert(i1[f] == u);
        assert(i1[f] < v1.len());
    }
    if v1.len() > v2.len() {
        let u = v2.len() as int;
        assert(u < v1.len() && v1[u] == v2[u]);
    }
    assert(v1 =~= v2);
}

/// Building a mesh is a pure function: the same heightmap, threshold and
/// wireframe flag always give the same vertices, indices and topology.
pub proof fn lemma_build_mesh_deterministic(
    h: HeightMapU16,
    threshold: u32,
    wireframe: bool,
    va: Seq<TerrainVertex>,
    ia: Seq<u32>,
    ta: Topology,
    vb: Seq<TerrainVertex>,
    ib: Seq<u32>,
    tb: Topology,
)
    requires
        is_payload_of(h, threshold, wireframe, va, ia, ta),
        is_payload_of(h, threshold, wireframe, vb, ib, tb),
    ensures
        va == vb,
        ia == ib,
        ta == tb,
{
    let corners = mesh_corners(selection(error_map(h), h, threshold), grid_size_of(h));
    if wireframe {
        let tri_a = choose|t: Seq<u32>|
            #[trigger] is_mesh_of(h, corners, va, t) && ia == crate::mesh::line_list_of(t);
        let tri_b = choose|t: Seq<u32>|
            #[trigger] is_mesh_of(h, corners, vb, t) && ib == crate::mesh::line_list_of(t);
        lemma_mesh_unique(h, corners, va, tri_a, vb, tri_b);
    } else {
        lemma_mesh_unique(h, corners, va, ia, vb, ib);
    }
}

} // verus!
