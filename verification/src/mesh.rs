//! Assembly of selected triangles into a deduplicated vertex/index mesh.
//!
//! For each selected bin id the three corners are emitted in the addressing
//! order (right-angle corner, then the two hypotenuse ends), which fixes the
//! winding across the mesh.  A corner's identity is `y * (side + 1) + x`; a
//! corner seen before reuses its vertex, a new one is sampled and appended,
//! so shared edges share vertices.  Vertices carry the raw sampled height;
//! scaling and normalization belong to the rendering layer, as does the
//! optional expansion of the triangle list into a wireframe edge list.

use vstd::prelude::*;
use crate::addressing::{BinId, Vec2u32, MAX_GRID_SIDE, spec_coords, get_triangle_coords};
use crate::heightmap::{Heightmap, spec_sample, sample_heightmap_height_corner_mean};
use crate::errors::{spec_num_triangles, spec_build_errors, build_triangle_errors_vec};
use crate::select::{spec_select, spec_select_all, rtin_select_triangles_for_heightmap};

verus! {

/// One mesh vertex: corner-lattice position and raw sampled height.
#[derive(Clone, Copy, PartialEq, Eq, Structural, Debug)]
pub struct MeshVertex {
    pub x: u32,
    pub height: u16,
    pub z: u32,
}

/// A deduplicated vertex buffer and an index buffer grouping every three
/// entries into one triangle.
pub struct TerrainMeshData {
    pub vertices: Vec<MeshVertex>,
    pub indices: Vec<u32>,
}

/// Corner-lattice identity of a vertex: `z * grid_size + x`.
pub open spec fn spec_vertex_id(v: MeshVertex, grid_size: u32) -> int {
    v.z * grid_size + v.x
}

/// Whether vertex `v` stands for corner `c`: same lattice position, and the
/// height sampled there.
pub open spec fn vertex_matches_corner(v: MeshVertex, c: Vec2u32, h: Heightmap) -> bool {
    v.x == c.x && v.z == c.y && v.height == spec_sample(h.side, h.data@, c)
}

/// Corner `j` (0, 1 or 2) of the `t`-th selected triangle.
pub open spec fn spec_triangle_corner(bins: Seq<BinId>, t: int, j: int, side: u32) -> Vec2u32 {
    let tri = spec_coords(bins[t] as nat, side);
    if j == 0 {
        tri.0
    } else if j == 1 {
        tri.1
    } else {
        tri.2
    }
}

/// Everything the assembled mesh promises about a selected bin sequence:
/// three indices per triangle; every index points at a vertex standing for
/// exactly that triangle's corner; vertex identities are pairwise distinct
/// (the deduplication); and every vertex is referenced, so no more vertices
/// exist than distinct referenced corners.
pub open spec fn spec_mesh_correct(
    vertices: Seq<MeshVertex>,
    indices: Seq<u32>,
    bins: Seq<BinId>,
    h: Heightmap,
) -> bool {
    let g = (h.side + 1) as u32;
    &&& indices.len() == 3 * bins.len()
    &&& vertices.len() <= indices.len()
    &&& forall|n: int|
        0 <= n < indices.len() ==> #[trigger] indices[n] < vertices.len()
            && vertex_matches_corner(
            vertices[indices[n] as int],
            spec_triangle_corner(bins, n / 3, n % 3, h.side),
            h,
        )
    &&& forall|p: int, q: int|
        0 <= p < q < vertices.len() ==> spec_vertex_id(#[trigger] vertices[p], g)
            != spec_vertex_id(#[trigger] vertices[q], g)
    &&& exists|w: Seq<int>| #[trigger] referenced_by(w, vertices, indices)
}

/// `w` maps every vertex position to an index-buffer entry that references
/// it: no vertex is left unused, so the vertex count cannot exceed the
/// number of distinct referenced corners.
pub open spec fn referenced_by(w: Seq<int>, vertices: Seq<MeshVertex>, indices: Seq<u32>) -> bool {
    &&& w.len() == vertices.len()
    &&& forall|p: int|
        0 <= p < w.len() ==> 0 <= #[trigger] w[p] < indices.len() && indices[w[p]] == p
}

/// What one dedup-table slot promises: a filled slot names the unique
/// vertex carrying that identity; an empty slot means no vertex does.
pub open spec fn table_entry_ok(
    entry: Option<u32>,
    id: int,
    vertices: Seq<MeshVertex>,
    g: u32,
) -> bool {
    match entry {
        Some(p) => p < vertices.len() && spec_vertex_id(vertices[p as int], g) == id,
        None => forall|w: int|
            0 <= w < vertices.len() ==> spec_vertex_id(#[trigger] vertices[w], g) != id,
    }
}

/// Two corner-lattice points with the same identity are the same point.
proof fn lemma_vertex_id_injective(x1: u32, z1: u32, x2: u32, z2: u32, g: u32)
    requires
        x1 < g,
        x2 < g,
        z1 * g + x1 == z2 * g + x2,
    ensures
        x1 == x2 && z1 == z2,
{
    assert(x1 == x2 && z1 == z2) by (nonlinear_arith)
        requires
            x1 < g,
            x2 < g,
            z1 * g + x1 == z2 * g + x2,
    ;
}

/// Assembles the selected triangles into mesh data, deduplicating vertices
/// by corner identity.
pub fn assemble_mesh(heightmap: &Heightmap, bins: &Vec<BinId>) -> (r: TerrainMeshData)
    requires
        heightmap.rtin_valid(),
        forall|q: int| 0 <= q < bins@.len() ==> 2 <= #[trigger] bins@[q],
        bins@.len() <= 0x4000_0000,
    ensures
        spec_mesh_correct(r.vertices@, r.indices@, bins@, *heightmap),
{
    let side = heightmap.side;
    let grid_size = side + 1;
    proof {
        assert(grid_size * grid_size <= 0x4001_0001) by (nonlinear_arith)
            requires
                grid_size == side + 1,
                side <= MAX_GRID_SIDE,
        ;
    }
    let total_slots = grid_size * grid_size;

    let mut vertices: Vec<MeshVertex> = Vec::new();
    let mut indices: Vec<u32> = Vec::new();
    let mut vertices_array_position: Vec<Option<u32>> = Vec::new();
    let mut fill: u32 = 0;
    while fill < total_slots
        invariant
            fill <= total_slots,
            vertices_array_position@.len() == fill,
            forall|id: int|
                0 <= id < fill ==> vertices_array_position@[id] is None,
        decreases total_slots - fill,
    {
        vertices_array_position.push(None);
        fill = fill + 1;
    }

    let ghost mut wit: Seq<int> = Seq::empty();
    let mut t: usize = 0;
    while t < bins.len()
        invariant
            heightmap.rtin_valid(),
            side == heightmap.side,
            grid_size == side + 1,
            grid_size * grid_size <= 0x4001_0001,
            bins@.len() <= 0x4000_0000,
            forall|q: int| 0 <= q < bins@.len() ==> 2 <= #[trigger] bins@[q],
            t <= bins@.len(),
            vertices_array_position@.len() == grid_size * grid_size,
            indices@.len() == 3 * t,
            vertices@.len() <= indices@.len(),
            forall|p: int|
                0 <= p < vertices@.len() ==> (#[trigger] vertices@[p]).x < grid_size
                    && vertices@[p].z < grid_size
                    && vertices@[p].height == spec_sample(
                    side,
                    heightmap.data@,
                    Vec2u32 { x: vertices@[p].x, y: vertices@[p].z },
                ),
            forall|id: int|
                0 <= id < vertices_array_position@.len() ==> table_entry_ok(
                    #[trigger] vertices_array_position@[id],
                    id,
                    vertices@,
                    grid_size,
                ),
            forall|p: int, q: int|
                0 <= p < q < vertices@.len() ==> spec_vertex_id(#[trigger] vertices@[p], grid_size)
                    != spec_vertex_id(#[trigger] vertices@[q], grid_size),
            forall|n: int|
                0 <= n < indices@.len() ==> #[trigger] indices@[n] < vertices@.len()
                    && vertex_matches_corner(
                    vertices@[indices@[n] as int],
                    spec_triangle_corner(bins@, n / 3, n % 3, side),
                    *heightmap,
                ),
            wit.len() == vertices@.len(),
            forall|p: int|
                0 <= p < wit.len() ==> 0 <= #[trigger] wit[p] < indices@.len()
                    && indices@[wit[p]] == p,
        decreases bins@.len() - t,
    {
        let bin = bins[t];
        let tri = get_triangle_coords(bin, grid_size);
        let mut j: usize = 0;
        while j < 3
            invariant
                heightmap.rtin_valid(),
                side == heightmap.side,
                grid_size == side + 1,
                grid_size * grid_size <= 0x4001_0001,
                bins@.len() <= 0x4000_0000,
                forall|q: int| 0 <= q < bins@.len() ==> 2 <= #[trigger] bins@[q],
                t < bins@.len(),
                j <= 3,
                bin == bins@[t as int],
                tri == spec_coords(bin as nat, side),
                tri.0.x < grid_size && tri.0.y < grid_size,
                tri.1.x < grid_size && tri.1.y < grid_size,
                tri.2.x < grid_size && tri.2.y < grid_size,
                vertices_array_position@.len() == grid_size * grid_size,
                indices@.len() == 3 * t + j,
                vertices@.len() <= indices@.len(),
                forall|p: int|
                    0 <= p < vertices@.len() ==> (#[trigger] vertices@[p]).x < grid_size
                        && vertices@[p].z < grid_size
                        && vertices@[p].height == spec_sample(
                        side,
                        heightmap.data@,
                        Vec2u32 { x: vertices@[p].x, y: vertices@[p].z },
                    ),
                forall|id: int|
                    0 <= id < vertices_array_position@.len() ==> table_entry_ok(
                        #[trigger] vertices_array_position@[id],
                        id,
                        vertices@,
                        grid_size,
                    ),
                forall|p: int, q: int|
                    0 <= p < q < vertices@.len() ==> spec_vertex_id(
                        #[trigger] vertices@[p],
                        grid_size,
                    ) != spec_vertex_id(#[trigger] vertices@[q], grid_size),
                forall|n: int|
                    0 <= n < indices@.len() ==> #[trigger] indices@[n] < vertices@.len()
                        && vertex_matches_corner(
                        vertices@[indices@[n] as int],
                        spec_triangle_corner(bins@, n / 3, n % 3, side),
                        *heightmap,
                    ),
                wit.len() == vertices@.len(),
                forall|p: int|
                    0 <= p < wit.len() ==> 0 <= #[trigger] wit[p] < indices@.len()
                        && indices@[wit[p]] == p,
            decreases 3 - j,
        {
            let corner = if j == 0 {
                tri.0
            } else if j == 1 {
                tri.1
            } else {
                tri.2
            };
            assert(corner == spec_triangle_corner(bins@, t as int, j as int, side));
            proof {
                assert(corner.y * grid_size + corner.x < grid_size * grid_size)
                    by (nonlinear_arith)
                    requires
                        corner.x < grid_size,
                        corner.y < grid_size,
                ;
            }
            let vertex_id = corner.y * grid_size + corner.x;
            let ghost old_indices = indices@;
            let ghost old_vertices = vertices@;
            let ghost old_table = vertices_array_position@;
            let ghost old_wit = wit;
            let existing = vertices_array_position[vertex_id as usize];
            let vertex_index: u32 = match existing {
                Some(p) => {
                    proof {
                        let v = vertices@[p as int];
                        lemma_vertex_id_injective(v.x, v.z, corner.x, corner.y, grid_size);
                        assert(vertex_matches_corner(vertices@[p as int], corner, *heightmap));
                    }
                    p
                },
                None => {
                    let new_index = vertices.len() as u32;
                    let vertex_height = sample_heightmap_height_corner_mean(heightmap, corner);
                    vertices.push(
                        MeshVertex { x: corner.x, height: vertex_height, z: corner.y },
                    );
                    vertices_array_position[vertex_id as usize] = Some(new_index);
                    proof {
                        wit = wit.push(old_indices.len() as int);
                        let nv = vertices@[new_index as int];
                        assert(spec_vertex_id(nv, grid_size) == vertex_id);
                        assert(vertex_matches_corner(nv, corner, *heightmap));
                        assert(table_entry_ok(old_table[vertex_id as int], vertex_id as int,
                            old_vertices, grid_size));
                        assert forall|id2: int|
                            0 <= id2 < vertices_array_position@.len() implies table_entry_ok(
                            #[trigger] vertices_array_position@[id2],
                            id2,
                            vertices@,
                            grid_size,
                        ) by {
                            assert(table_entry_ok(old_table[id2], id2, old_vertices, grid_size));
                            if id2 == vertex_id {
                            } else {
                                match old_table[id2] {
                                    Some(q) => {
                                        assert(vertices@[q as int] == old_vertices[q as int]);
                                    },
                                    None => {
                                        assert forall|w: int| 0 <= w < vertices@.len() implies
                                            spec_vertex_id(#[trigger] vertices@[w], grid_size)
                                                != id2 by {
                                            if w < old_vertices.len() {
                                                assert(vertices@[w] == old_vertices[w]);
                                            } else {
                                                assert(vertices@[w] == nv);
                                            }
                                        }
                                    },
                                }
                            }
                        }
                        assert forall|p: int, q: int|
                            0 <= p < q < vertices@.len() implies spec_vertex_id(
                            #[trigger] vertices@[p],
                            grid_size,
                        ) != spec_vertex_id(#[trigger] vertices@[q], grid_size) by {
                            if q < old_vertices.len() {
                                assert(vertices@[p] == old_vertices[p]);
                                assert(vertices@[q] == old_vertices[q]);
                            } else {
                                assert(vertices@[q] == nv);
                                assert(vertices@[p] == old_vertices[p]);
                                assert(spec_vertex_id(old_vertices[p], grid_size) != vertex_id);
                            }
                        }
                    }
                    new_index
                },
            };
            indices.push(vertex_index);
            proof {
                assert(indices@ == old_indices.push(vertex_index));
                assert(vertex_matches_corner(
                    vertices@[vertex_index as int],
                    spec_triangle_corner(bins@, t as int, j as int, side),
                    *heightmap,
                ));
                assert forall|n: int|
                    0 <= n < indices@.len() implies #[trigger] indices@[n] < vertices@.len()
                        && vertex_matches_corner(
                        vertices@[indices@[n] as int],
                        spec_triangle_corner(bins@, n / 3, n % 3, side),
                        *heightmap,
                    ) by {
                    if n < old_indices.len() {
                        assert(indices@[n] == old_indices[n]);
                        assert(vertices@[old_indices[n] as int] == old_vertices[
                            old_indices[n] as int]);
                    } else {
                        assert(indices@[n] == vertex_index);
                        assert(n == 3 * (t as int) + (j as int));
                        assert(n / 3 == t as int && n % 3 == j as int);
                    }
                }
                assert forall|p: int|
                    0 <= p < wit.len() implies 0 <= #[trigger] wit[p] < indices@.len()
                        && indices@[wit[p]] == p by {
                    if p < old_wit.len() {
                        assert(wit[p] == old_wit[p]);
                        assert(indices@[old_wit[p]] == old_indices[old_wit[p]]);
                    } else {
                        assert(wit[p] == old_indices.len());
                        assert(indices@[old_indices.len() as int] == vertex_index);
                        assert(vertex_index == p);
                    }
                }
            }
            j = j + 1;
        }
        t = t + 1;
    }
    proof {
        assert(referenced_by(wit, vertices@, indices@));
    }
    TerrainMeshData { vertices, indices }
}

/// All bin ids a selection emits lie in the bin-id range of the tree.
pub proof fn lemma_select_bins_in_range(errs: Seq<u32>, side: u32, threshold: u32, i: nat)
    requires
        2 <= side <= MAX_GRID_SIDE,
        i < spec_num_triangles(side),
    ensures
        forall|q: int|
            0 <= q < spec_select(errs, side, threshold, i).len()
                ==> 2 <= #[trigger] spec_select(errs, side, threshold, i)[q]
                    < spec_num_triangles(side) + 2,
    decreases spec_num_triangles(side) - i,
{
    crate::select::lemma_num_triangles_shape(side);
    let s = spec_select(errs, side, threshold, i);
    if 2 * i + 2 >= spec_num_triangles(side)
        || errs[crate::errors::spec_mid_index(i + 2, side) as int] <= threshold {
        assert(s == seq![(i + 2) as BinId]);
        assert(i + 2 < 0x1_0000_0000);
        assert(s[0] == i + 2);
    } else {
        lemma_select_bins_in_range(errs, side, threshold, 2 * i + 2);
        lemma_select_bins_in_range(errs, side, threshold, 2 * i + 3);
        let a = spec_select(errs, side, threshold, 2 * i + 2);
        let b = spec_select(errs, side, threshold, 2 * i + 3);
        assert forall|q: int| 0 <= q < s.len() implies 2 <= #[trigger] s[q]
            < spec_num_triangles(side) + 2 by {
            if q < a.len() {
                assert(s[q] == a[q]);
            } else {
                assert(s[q] == b[q - a.len()]);
            }
        }
    }
}

/// The whole pipeline: build the error vector, select triangles under the
/// threshold, and assemble the deduplicated mesh.  The threshold is on the
/// error vector's scale: twice the interpolation error, in raw sample units.
pub fn rtin_build_terrain_from_heightmap(heightmap: &Heightmap, error_threshold: u32) -> (r:
    TerrainMeshData)
    requires
        heightmap.rtin_valid(),
    ensures
        ({
            let bins = spec_select_all(
                spec_build_errors(*heightmap),
                heightmap.side,
                error_threshold,
            );
            spec_mesh_correct(r.vertices@, r.indices@, bins, *heightmap)
        }),
{
    let errors_vec = build_triangle_errors_vec(heightmap);
    let triangle_bin_ids = rtin_select_triangles_for_heightmap(
        heightmap,
        &errors_vec,
        error_threshold,
    );
    proof {
        crate::select::lemma_num_triangles_shape(heightmap.side);
        lemma_select_bins_in_range(errors_vec@, heightmap.side, error_threshold, 0);
        lemma_select_bins_in_range(errors_vec@, heightmap.side, error_threshold, 1);
        crate::select::lemma_select_total_len_bound(
            errors_vec@,
            heightmap.side,
            error_threshold,
        );
        assert(heightmap.side * heightmap.side <= 0x4000_0000) by (nonlinear_arith)
            requires
                heightmap.side <= MAX_GRID_SIDE,
        ;
        let a = spec_select(errors_vec@, heightmap.side, error_threshold, 0);
        let b = spec_select(errors_vec@, heightmap.side, error_threshold, 1);
        assert(triangle_bin_ids@ == a + b);
        assert forall|q: int| 0 <= q < triangle_bin_ids@.len() implies
            2 <= #[trigger] triangle_bin_ids@[q] by {
            if q < a.len() {
                assert(triangle_bin_ids@[q] == a[q]);
            } else {
                assert(triangle_bin_ids@[q] == b[q - a.len()]);
            }
        }
    }
    assemble_mesh(heightmap, &triangle_bin_ids)
}

/// Mesh vertex deduplication: the vertex count never exceeds three per
/// selected triangle; vertex identities are pairwise distinct; and any two
/// index entries that name vertices of equal identity name the same vertex,
/// so every shared corner maps to exactly one vertex.
pub proof fn lemma_mesh_vertex_dedup(
    vertices: Seq<MeshVertex>,
    indices: Seq<u32>,
    bins: Seq<BinId>,
    h: Heightmap,
)
    requires
        spec_mesh_correct(vertices, indices, bins, h),
    ensures
        vertices.len() <= 3 * bins.len(),
        forall|p: int, q: int|
            0 <= p < q < vertices.len() ==> spec_vertex_id(
                #[trigger] vertices[p],
                (h.side + 1) as u32,
            ) != spec_vertex_id(#[trigger] vertices[q], (h.side + 1) as u32),
        forall|n1: int, n2: int|
            0 <= n1 < indices.len() && 0 <= n2 < indices.len() && spec_vertex_id(
                vertices[#[trigger] indices[n1] as int],
                (h.side + 1) as u32,
            ) == spec_vertex_id(vertices[#[trigger] indices[n2] as int], (h.side + 1) as u32)
                ==> indices[n1] == indices[n2],
{
    let g = (h.side + 1) as u32;
    assert forall|n1: int, n2: int|
        0 <= n1 < indices.len() && 0 <= n2 < indices.len() && spec_vertex_id(
            vertices[#[trigger] indices[n1] as int],
            g,
        ) == spec_vertex_id(vertices[#[trigger] indices[n2] as int], g) implies indices[n1]
        == indices[n2] by {
        let p1 = indices[n1] as int;
        let p2 = indices[n2] as int;
        if p1 < p2 {
            assert(spec_vertex_id(vertices[p1], g) != spec_vertex_id(vertices[p2], g));
        }
        if p2 < p1 {
            assert(spec_vertex_id(vertices[p2], g) != spec_vertex_id(vertices[p1], g));
        }
    }
}

/// Wireframe expansion: each triangle's three indices become six, tracing
/// the triangle's three edges; the output holds exactly two entries per
/// input entry, and every edge's two endpoints come from one original
/// triangle.
pub fn wireframe_expand_indices(indices: &Vec<u32>) -> (r: Vec<u32>)
    requires
        indices@.len() % 3 == 0,
        indices@.len() <= 0x4000_0000,
    ensures
        r@.len() == 2 * indices@.len(),
        forall|k: int|
            0 <= k < indices@.len() / 3 ==> #[trigger] r@[6 * k] == indices@[3 * k]
                && r@[6 * k + 1] == indices@[3 * k + 1] && r@[6 * k + 2] == indices@[3 * k + 1]
                && r@[6 * k + 3] == indices@[3 * k + 2] && r@[6 * k + 4] == indices@[3 * k + 2]
                && r@[6 * k + 5] == indices@[3 * k],
{
    let triangle_number = indices.len() / 3;
    let mut r: Vec<u32> = Vec::new();
    let mut i: usize = 0;
    while i < triangle_number
        invariant
            indices@.len() == 3 * triangle_number,
            indices@.len() <= 0x4000_0000,
            i <= triangle_number,
            r@.len() == 6 * i,
            forall|k: int|
                0 <= k < i ==> #[trigger] r@[6 * k] == indices@[3 * k]
                    && r@[6 * k + 1] == indices@[3 * k + 1] && r@[6 * k + 2] == indices@[3 * k + 1]
                    && r@[6 * k + 3] == indices@[3 * k + 2] && r@[6 * k + 4] == indices@[3 * k + 2]
                    && r@[6 * k + 5] == indices@[3 * k],
        decreases triangle_number - i,
    {
        let ghost old_r = r@;
        r.push(indices[i * 3]);
        r.push(indices[i * 3 + 1]);
        r.push(indices[i * 3 + 1]);
        r.push(indices[i * 3 + 2]);
        r.push(indices[i * 3 + 2]);
        r.push(indices[i * 3]);
        proof {
            assert forall|k: int| 0 <= k < i + 1 implies #[trigger] r@[6 * k] == indices@[3 * k]
                && r@[6 * k + 1] == indices@[3 * k + 1] && r@[6 * k + 2] == indices@[3 * k + 1]
                && r@[6 * k + 3] == indices@[3 * k + 2] && r@[6 * k + 4] == indices@[3 * k + 2]
                && r@[6 * k + 5] == indices@[3 * k] by {
                if k < i {
                    assert(r@[6 * k] == old_r[6 * k]);
                    assert(r@[6 * k + 1] == old_r[6 * k + 1]);
                    assert(r@[6 * k + 2] == old_r[6 * k + 2]);
                    assert(r@[6 * k + 3] == old_r[6 * k + 3]);
                    assert(r@[6 * k + 4] == old_r[6 * k + 4]);
                    assert(r@[6 * k + 5] == old_r[6 * k + 5]);
                } else {
                    assert(r@[6 * k] == indices@[3 * k]);
                }
            }
        }
        i = i + 1;
    }
    r
}

} // verus!
