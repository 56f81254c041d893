//! Mesh assembly: shared vertices for the chosen triangles, and the index
//! lists for shaded and wireframe drawing.

use vstd::prelude::*;

verus! {

use crate::heightmap::{
    HeightMapU16,
    RtinError,
    valid_rtin_heightmap,
    heightmap_error,
    sample,
    sample_heightmap_height_corner_mean,
    assert_valid_rtin_heightmap,
};
use crate::rtin::{TriangleU32, Vec2u32, triangle_coords, point_in_grid, get_triangle_coords};
use crate::terrain_rtin::{
    grid_size_of,
    lemma_valid_sizes,
    selection,
    error_map,
    build_triangle_errors_vec,
    rtin_select_triangles_for_heightmap,
};
use crate::selection_laws::lemma_selection_bounds;

/// A mesh vertex: lattice column `x`, the raw height sample, and the
/// lattice row as `z` (the lattice lies in the horizontal plane).
#[derive(Clone, Copy, Debug, PartialEq, Eq, Structural)]
pub struct TerrainVertex {
    pub x: u32,
    pub height: u16,
    pub z: u32,
}

/// Shared vertices and three vertex indices per triangle.
pub struct TerrainMeshData {
    pub vertices: Vec<TerrainVertex>,
    pub indices: Vec<u32>,
}

/// The vertex at lattice point `p`.
pub open spec fn vertex_at(h: HeightMapU16, p: Vec2u32) -> TerrainVertex {
    TerrainVertex { x: p.x, height: sample(h, p), z: p.y }
}

/// Corner `c` (0, 1 or 2 for A, B or C) of a triangle.
pub open spec fn corner_of(t: TriangleU32, c: int) -> Vec2u32 {
    if c == 0 {
        t.0
    } else if c == 1 {
        t.1
    } else {
        t.2
    }
}

/// The corners of the triangles of `bin_ids`, three per triangle in the
/// order A, B, C.
pub open spec fn mesh_corners(bin_ids: Seq<u32>, grid_size: u32) -> Seq<Vec2u32> {
    Seq::new(
        3 * bin_ids.len(),
        |k: int| corner_of(triangle_coords(bin_ids[k / 3], grid_size), k % 3),
    )
}

/// `vertices` and `indices` draw the corner sequence `corners`: index `k`
/// names the vertex at corner `k`, no two vertices share a lattice point, and
/// vertices are numbered in the order in which corners first reach them.
pub open spec fn is_mesh_of(
    h: HeightMapU16,
    corners: Seq<Vec2u32>,
    vertices: Seq<TerrainVertex>,
    indices: Seq<u32>,
) -> bool {
    &&& indices.len() == corners.len()
    &&& forall|k: int|
        0 <= k < indices.len() ==> #[trigger] indices[k] < vertices.len() && vertices[indices[k] as int]
            == vertex_at(h, corners[k])
    &&& forall|v1: int, v2: int|
        0 <= v1 < v2 < vertices.len() ==> !(#[trigger] vertices[v1].x == #[trigger] vertices[v2].x
            && vertices[v1].z == vertices[v2].z)
    &&& forall|v: int| 0 <= v < vertices.len() ==> #[trigger] numbered_at_first_use(indices, v)
}

/// Index `k` is the first to name vertex `v`, and every index before it
/// names a lower vertex.
pub open spec fn first_use(indices: Seq<u32>, k: int, v: int) -> bool {
    &&& 0 <= k < indices.len()
    &&& indices[k] == v
    &&& forall|j: int| 0 <= j < k ==> indices[j] < v
}

/// Vertex `v` got its number when an index first named it.
pub open spec fn numbered_at_first_use(indices: Seq<u32>, v: int) -> bool {
    exists|k: int| #[trigger] first_use(indices, k, v)
}

pub open spec fn vertex_slot(v: TerrainVertex, grid_size: u32) -> int {
    v.z * grid_size + v.x
}

/// The mesh built so far, with `lookup` mapping each lattice slot to the
/// vertex there, if any.
pub open spec fn mesh_state(
    h: HeightMapU16,
    grid_size: u32,
    corners: Seq<Vec2u32>,
    vertices: Seq<TerrainVertex>,
    indices: Seq<u32>,
    lookup: Seq<Option<u32>>,
) -> bool {
    &&& is_mesh_of(h, corners, vertices, indices)
    &&& vertices.len() <= indices.len()
    &&& lookup.len() == grid_size * grid_size
    &&& forall|s: int|
        0 <= s < lookup.len() && #[trigger] lookup[s] is Some ==> lookup[s]->0 < vertices.len()
            && vertex_slot(vertices[lookup[s]->0 as int], grid_size) == s
    &&& forall|v: int|
        0 <= v < vertices.len() ==> (#[trigger] vertices[v]).x < grid_size && vertices[v].z
            < grid_size && lookup[vertex_slot(vertices[v], grid_size)] == Some(v as u32)
            && vertices[v] == vertex_at(h, Vec2u32 { x: vertices[v].x, y: vertices[v].z })
}

proof fn lemma_slot_bound(x: u32, y: u32, g: u32)
    requires
        x < g,
        y < g,
    ensures
        0 <= y * g + x < g * g,
{
    assert(0 <= y * g + x < g * g) by (nonlinear_arith)
        requires
            x < g,
            y < g,
    ;
}

proof fn lemma_slot_injective(x1: u32, y1: u32, x2: u32, y2: u32, g: u32)
    requires
        x1 < g,
        x2 < g,
        y1 < g,
        y2 < g,
        y1 * g + x1 == y2 * g + x2,
    ensures
        x1 == x2 && y1 == y2,
{
    assert(y1 == y2) by (nonlinear_arith)
        requires
            x1 < g,
            x2 < g,
            y1 * g + x1 == y2 * g + x2,
    ;
}

/// Appends corner `p` to the mesh, adding its vertex when no earlier corner
/// reached its lattice point.
fn add_corner(
    heightmap: &HeightMapU16,
    grid_size: u32,
    p: Vec2u32,
    vertices: &mut Vec<TerrainVertex>,
    indices: &mut Vec<u32>,
    lookup: &mut Vec<Option<u32>>,
    Ghost(corners): Ghost<Seq<Vec2u32>>,
)
    requires
        valid_rtin_heightmap(*heightmap),
        grid_size == grid_size_of(*heightmap),
        point_in_grid(p, grid_size),
        old(indices)@.len() < u32::MAX,
        mesh_state(*heightmap, grid_size, corners, old(vertices)@, old(indices)@, old(lookup)@),
    ensures
        mesh_state(
            *heightmap,
            grid_size,
            corners.push(p),
            final(vertices)@,
            final(indices)@,
            final(lookup)@,
        ),
        final(indices)@.len() == old(indices)@.len() + 1,
{
    let ghost h = *heightmap;
    proof {
        lemma_valid_sizes(h);
        assert(p.y * grid_size + p.x < grid_size * grid_size) by (nonlinear_arith)
            requires
                p.x < grid_size,
                p.y < grid_size,
        ;
    }
    let vertex_id = (p.y * grid_size + p.x) as usize;
    let ghost old_vertices = vertices@;
    let ghost old_indices = indices@;
    let ghost old_lookup = lookup@;
    let ghost new_corners = corners.push(p);
    match lookup[vertex_id] {
        Some(v) => {
            indices.push(v);
            proof {
                let w = vertices@[v as int];
                lemma_slot_injective(w.x, w.z, p.x, p.y, grid_size);
                assert(vertices@[v as int] == vertex_at(h, p));
                assert forall|k: int| 0 <= k < indices@.len() implies #[trigger] indices@[k]
                    < vertices@.len() && vertices@[indices@[k] as int] == vertex_at(
                    h,
                    new_corners[k],
                ) by {
                    if k < old_indices.len() {
                        assert(indices@[k] == old_indices[k]);
                    }
                }
                assert forall|u: int| 0 <= u < vertices@.len() implies #[trigger] numbered_at_first_use(
                    indices@,
                    u,
                ) by {
                    assert(numbered_at_first_use(old_indices, u));
                    let k = choose|k: int| #[trigger] first_use(old_indices, k, u);
                    assert(indices@[k] == u);
                    assert forall|j: int| 0 <= j < k implies indices@[j] < u by {
                        assert(indices@[j] == old_indices[j]);
                    }
                    assert(first_use(indices@, k, u));
                }
            }
        },
        None => {
            let vertex_height = sample_heightmap_height_corner_mean(heightmap, p);
            let new_index = vertices.len();
            vertices.push(TerrainVertex { x: p.x, height: vertex_height, z: p.y });
            indices.push(new_index as u32);
            lookup.set(vertex_id, Some(new_index as u32));
            proof {
                let n = new_index as int;
                assert forall|k: int| 0 <= k < indices@.len() implies #[trigger] indices@[k]
                    < vertices@.len() && vertices@[indices@[k] as int] == vertex_at(
                    h,
                    new_corners[k],
                ) by {
                    if k < old_indices.len() {
                        assert(indices@[k] == old_indices[k]);
                        assert(vertices@[indices@[k] as int] == old_vertices[old_indices[k] as int]);
                    }
                }
                assert forall|v1: int, v2: int|
                    0 <= v1 < v2 < vertices@.len() implies !(#[trigger] vertices@[v1].x
                    == #[trigger] vertices@[v2].x && vertices@[v1].z == vertices@[v2].z) by {
                    if v2 == n && vertices@[v1].x == p.x && vertices@[v1].z == p.y {
                        assert(old_lookup[vertex_slot(old_vertices[v1], grid_size)] == Some(
                            v1 as u32,
                        ));
                    }
                }
                assert forall|u: int| 0 <= u < vertices@.len() implies #[trigger] numbered_at_first_use(
                    indices@,
                    u,
                ) by {
                    if u == n {
                        let k = old_indices.len() as int;
                        assert(indices@[k] == u);
                        assert forall|j: int| 0 <= j < k implies indices@[j] < u by {
                            assert(indices@[j] == old_indices[j]);
                            assert(old_indices[j] < old_vertices.len());
                        }
                        assert(first_use(indices@, k, u));
                    } else {
                        assert(numbered_at_first_use(old_indices, u));
                        let k = choose|k: int| #[trigger] first_use(old_indices, k, u);
                        assert(indices@[k] == u);
                        assert forall|j: int| 0 <= j < k implies indices@[j] < u by {
                            assert(indices@[j] == old_indices[j]);
                        }
                        assert(first_use(indices@, k, u));
                    }
                }
                assert forall|s: int|
                    0 <= s < lookup@.len() && #[trigger] lookup@[s] is Some implies lookup@[s]->0
                    < vertices@.len() && vertex_slot(vertices@[lookup@[s]->0 as int], grid_size)
                    == s by {
                    if s != vertex_id as int {
                        assert(lookup@[s] == old_lookup[s]);
                    }
                }
                assert forall|v: int| 0 <= v < vertices@.len() implies (#[trigger] vertices@[v]).x
                    < grid_size && vertices@[v].z < grid_size && lookup@[vertex_slot(
                    vertices@[v],
                    grid_size,
                )] == Some(v as u32) && vertices@[v] == vertex_at(
                    h,
                    Vec2u32 { x: vertices@[v].x, y: vertices@[v].z },
                ) by {
                    if v < n {
                        assert(vertices@[v] == old_vertices[v]);
                        lemma_slot_bound(old_vertices[v].x, old_vertices[v].z, grid_size);
                        assert(vertex_slot(old_vertices[v], grid_size) != vertex_id as int);
                        assert(lookup@[vertex_slot(vertices@[v], grid_size)] == old_lookup[vertex_slot(
                            old_vertices[v],
                            grid_size,
                        )]);
                    } else {
                        assert(vertex_slot(vertices@[v], grid_size) == vertex_id as int);
                        assert(lookup@[vertex_id as int] == Some(new_index as u32));
                    }
                }
            }
        },
    }
}

/// Builds the mesh of the triangles chosen for a heightmap at a threshold:
/// each lattice point used by a chosen triangle becomes one vertex, and each
/// chosen triangle names its corners A, B, C by three indices.
pub fn rtin_build_terrain_from_heightmap(heightmap: &HeightMapU16, error_threshold: u32) -> (r:
    TerrainMeshData)
    requires
        valid_rtin_heightmap(*heightmap),
    ensures
        is_mesh_of(
            *heightmap,
            mesh_corners(
                selection(error_map(*heightmap), *heightmap, error_threshold),
                grid_size_of(*heightmap),
            ),
            r.vertices@,
            r.indices@,
        ),
{
    let ghost h = *heightmap;
    proof {
        lemma_valid_sizes(h);
    }
    let errors_vec = build_triangle_errors_vec(heightmap);
    let triangle_bin_ids = rtin_select_triangles_for_heightmap(heightmap, &errors_vec, error_threshold);
    let ghost sel = triangle_bin_ids@;
    proof {
        lemma_selection_bounds(errors_vec@, h, error_threshold);
    }
    let grid_size = heightmap.width() + 1;
    let ghost corners = mesh_corners(sel, grid_size);
    let n_slots = (grid_size * grid_size) as usize;
    let mut lookup: Vec<Option<u32>> = Vec::new();
    while lookup.len() < n_slots
        invariant
            n_slots == grid_size * grid_size,
            lookup@.len() <= n_slots,
            forall|s: int| 0 <= s < lookup@.len() ==> lookup@[s] is None,
        decreases n_slots - lookup@.len(),
    {
        lookup.push(None);
    }
    let mut vertices: Vec<TerrainVertex> = Vec::new();
    let mut indices: Vec<u32> = Vec::new();
    proof {
        assert(corners.take(0) =~= Seq::<Vec2u32>::empty());
    }
    let mut j: usize = 0;
    while j < triangle_bin_ids.len()
        invariant
            h == *heightmap,
            valid_rtin_heightmap(h),
            grid_size == grid_size_of(h),
            sel == triangle_bin_ids@,
            corners == mesh_corners(sel, grid_size),
            sel.len() <= 0x2000_0000,
            forall|i: int| 0 <= i < sel.len() ==> #[trigger] sel[i] >= 2,
            0 <= j <= sel.len(),
            indices@.len() == 3 * j,
            mesh_state(h, grid_size, corners.take(3 * j), vertices@, indices@, lookup@),
        decreases sel.len() - j,
    {
        let t = get_triangle_coords(triangle_bin_ids[j], grid_size);
        let ghost c0 = corners.take(3 * j);
        add_corner(heightmap, grid_size, t.0, &mut vertices, &mut indices, &mut lookup, Ghost(c0));
        add_corner(
            heightmap,
            grid_size,
            t.1,
            &mut vertices,
            &mut indices,
            &mut lookup,
            Ghost(c0.push(t.0)),
        );
        add_corner(
            heightmap,
            grid_size,
            t.2,
            &mut vertices,
            &mut indices,
            &mut lookup,
            Ghost(c0.push(t.0).push(t.1)),
        );
        proof {
            assert(c0.push(t.0).push(t.1).push(t.2) =~= corners.take(3 * j + 3));
        }
        j = j + 1;
    }
    proof {
        assert(corners.take(3 * j) =~= corners);
    }
    TerrainMeshData { vertices, indices }
}

/// How the indices of a mesh are to be read.
#[derive(Clone, Copy, Debug, PartialEq, Eq, Structural)]
pub enum Topology {
    /// Three indices per triangle.
    TriangleList,
    /// Two indices per edge, three edges per triangle.
    LineList,
}

/// A finished mesh: shared vertices, indices, and how to read the indices.
pub struct MeshPayload {
    pub vertices: Vec<TerrainVertex>,
    pub indices: Vec<u32>,
    pub topology: Topology,
}

/// The corner (0 for A, 1 for B, 2 for C) at position `e` of the edge list
/// A-B, B-C, C-A.
pub open spec fn edge_corner(e: int) -> int {
    if e == 0 {
        0
    } else if e == 1 || e == 2 {
        1
    } else if e == 3 || e == 4 {
        2
    } else {
        0
    }
}

/// The line list that draws the three edges of each whole triangle of a
/// triangle list.
pub open spec fn line_list_of(triangle_indices: Seq<u32>) -> Seq<u32> {
    Seq::new(
        6 * (triangle_indices.len() / 3),
        |k: int| triangle_indices[3 * (k / 6) + edge_corner(k % 6)],
    )
}

/// Returns the line list A, B, B, C, C, A for each whole triangle of a
/// triangle list.
pub fn line_list_indices(triangle_indices: &Vec<u32>) -> (r: Vec<u32>)
    requires
        triangle_indices@.len() <= 0x6000_0000,
    ensures
        r@ == line_list_of(triangle_indices@),
{
    let triangle_number = triangle_indices.len() / 3;
    let edges: [usize; 6] = [0, 1, 1, 2, 2, 0];
    let mut indices: Vec<u32> = Vec::new();
    let mut i: usize = 0;
    while i < triangle_number
        invariant
            triangle_number == triangle_indices@.len() / 3,
            triangle_indices@.len() <= 0x6000_0000,
            edges@ == seq![0usize, 1, 1, 2, 2, 0],
            0 <= i <= triangle_number,
            indices@.len() == 6 * i,
            forall|k: int|
                0 <= k < 6 * i ==> #[trigger] indices@[k] == triangle_indices@[3 * (k / 6)
                    + edge_corner(k % 6)],
        decreases triangle_number - i,
    {
        let mut e: usize = 0;
        while e < 6
            invariant
                triangle_number == triangle_indices@.len() / 3,
                triangle_indices@.len() <= 0x6000_0000,
                edges@ == seq![0usize, 1, 1, 2, 2, 0],
                0 <= i < triangle_number,
                0 <= e <= 6,
                indices@.len() == 6 * i + e,
                forall|k: int|
                    0 <= k < 6 * i + e ==> #[trigger] indices@[k] == triangle_indices@[3 * (k / 6)
                        + edge_corner(k % 6)],
            decreases 6 - e,
        {
            let ghost k = 6 * i + e;
            assert(k / 6 == i && k % 6 == e) by (nonlinear_arith)
                requires
                    k == 6 * i + e,
                    0 <= e < 6,
            ;
            indices.push(triangle_indices[i * 3 + edges[e]]);
            e = e + 1;
        }
        i = i + 1;
    }
    assert(indices@ =~= line_list_of(triangle_indices@));
    indices
}

/// The mesh of heightmap `h` at `threshold`: the chosen triangles' shared
/// vertices with a triangle list, or with `wireframe` the line list of the
/// same triangles' edges.
pub open spec fn is_payload_of(
    h: HeightMapU16,
    threshold: u32,
    wireframe: bool,
    vertices: Seq<TerrainVertex>,
    indices: Seq<u32>,
    topology: Topology,
) -> bool {
    let corners = mesh_corners(selection(error_map(h), h, threshold), grid_size_of(h));
    &&& topology == (if wireframe {
        Topology::LineList
    } else {
        Topology::TriangleList
    })
    &&& !wireframe ==> is_mesh_of(h, corners, vertices, indices)
    &&& wireframe ==> exists|triangle_indices: Seq<u32>|
        #[trigger] is_mesh_of(h, corners, vertices, triangle_indices) && indices == line_list_of(
            triangle_indices,
        )
}

/// Builds the mesh of a heightmap at an error threshold, in units of
/// `1 / (2 * u16::MAX)` of full scale: a triangle list, or with `wireframe`
/// the line list of its edges. A heightmap that cannot be triangulated gives
/// the first reason found.
pub fn build_mesh(heightmap: &HeightMapU16, error_threshold: u32, wireframe: bool) -> (r: Result<
    MeshPayload,
    RtinError,
>)
    ensures
        r is Err <==> heightmap_error(*heightmap) is Some,
        r is Err ==> r->Err_0 == heightmap_error(*heightmap)->0,
        r is Ok ==> is_payload_of(
            *heightmap,
            error_threshold,
            wireframe,
            r->Ok_0.vertices@,
            r->Ok_0.indices@,
            r->Ok_0.topology,
        ),
{
    match assert_valid_rtin_heightmap(heightmap) {
        Err(e) => {
            return Err(e);
        },
        Ok(()) => {},
    }
    let terrain_mesh_data = rtin_build_terrain_from_heightmap(heightmap, error_threshold);
    let ghost h = *heightmap;
    proof {
        lemma_valid_sizes(h);
        lemma_selection_bounds(error_map(h), h, error_threshold);
    }
    let ghost corners = mesh_corners(
        selection(error_map(h), h, error_threshold),
        grid_size_of(h),
    );
    let ghost tri = terrain_mesh_data.indices@;
    assert(is_mesh_of(h, corners, terrain_mesh_data.vertices@, tri));
    if wireframe {
        let indices = line_list_indices(&terrain_mesh_data.indices);
        let p = MeshPayload {
            vertices: terrain_mesh_data.vertices,
            indices,
            topology: Topology::LineList,
        };
        assert(is_mesh_of(h, corners, p.vertices@, tri) && p.indices@ == line_list_of(tri));
        Ok(p)
    } else {
        let p = MeshPayload {
            vertices: terrain_mesh_data.vertices,
            indices: terrain_mesh_data.indices,
            topology: Topology::TriangleList,
        };
        assert(is_mesh_of(h, corners, p.vertices@, p.indices@));
        Ok(p)
    }
}

} // verus!
