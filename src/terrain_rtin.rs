//! Bottom-up approximation errors, top-down triangle selection and mesh
//! assembly for a heightmap.

use vstd::prelude::*;

verus! {

use crate::heightmap::{
    HeightMapU16,
    valid_rtin_heightmap,
    side_log2,
    sample,
    lemma_side_log2,
    log_2,
    sample_heightmap_height_corner_mean,
};
use crate::rtin::{
    BinId,
    Vec2u32,
    level_of,
    level_start,
    right_child,
    left_child,
    midpoint,
    triangle_coords,
    triangle_midpoint,
    lemma_child_steps,
    get_index_level_start,
    index_to_bin_id,
    get_triangle_children_bin_ids,
    get_triangle_coords,
    pixel_coords_for_triangle_mid_point,
};
use vstd::arithmetic::power2::{pow2, lemma_pow2_unfold, lemma_pow2_adds, lemma_pow2_strictly_increases, lemma2_to64};

/// Side of the vertex lattice: one more than the heightmap's side.
pub open spec fn grid_size_of(h: HeightMapU16) -> u32 {
    (h.width + 1) as u32
}

/// Number of levels above the finest one: `2 * log2(side)`.
pub open spec fn levels_of(h: HeightMapU16) -> nat {
    2 * side_log2(h.width)
}

/// Number of triangles that carry an error: every level above the finest.
pub open spec fn error_triangle_count(h: HeightMapU16) -> int {
    2 * h.width * h.width - 2
}

/// The error-map slot of lattice point `p`.
pub open spec fn slot(p: Vec2u32, grid_size: u32) -> int {
    p.y * grid_size + p.x
}

/// How far the surface at the hypotenuse midpoint of `bin_id` lies from the
/// mean of the hypotenuse ends, in units of `1 / (2 * u16::MAX)` of full scale.
pub open spec fn local_error(h: HeightMapU16, bin_id: u32) -> nat {
    let t = triangle_coords(bin_id, grid_size_of(h));
    let d = 2 * sample(h, midpoint(t.0, t.1)) - sample(h, t.0) - sample(h, t.1);
    if d >= 0 {
        d as nat
    } else {
        (-d) as nat
    }
}

pub open spec fn max_u32(a: u32, b: u32) -> u32 {
    if a >= b {
        a
    } else {
        b
    }
}

/// The error map after the triangle at dense index `index` is folded in:
/// a triangle of the last level stores its own error at its midpoint slot;
/// any other keeps the largest of that slot, its children's slots and its
/// own error.
pub open spec fn error_update(h: HeightMapU16, e: Seq<u32>, index: int) -> Seq<u32> {
    let b = (index + 2) as u32;
    let g = grid_size_of(h);
    let s = slot(triangle_midpoint(b, g), g);
    if level_of(b) >= levels_of(h) - 1 {
        e.update(s, local_error(h, b) as u32)
    } else {
        let rs = slot(triangle_midpoint(right_child(b) as u32, g), g);
        let ls = slot(triangle_midpoint(left_child(b) as u32, g), g);
        e.update(s, max_u32(max_u32(max_u32(e[s], e[ls]), e[rs]), local_error(h, b) as u32))
    }
}

/// The error map after the last `n` error-carrying triangles, taken from the
/// highest dense index down, were folded into a zeroed map.
pub open spec fn errors_after(h: HeightMapU16, n: nat) -> Seq<u32>
    decreases n,
{
    if n == 0 {
        Seq::new((grid_size_of(h) * grid_size_of(h)) as nat, |i: int| 0u32)
    } else {
        error_update(h, errors_after(h, (n - 1) as nat), error_triangle_count(h) - n)
    }
}

/// The error map of a heightmap: every error-carrying triangle folded in,
/// children before parents.
pub open spec fn error_map(h: HeightMapU16) -> Seq<u32> {
    errors_after(h, error_triangle_count(h) as nat)
}

/// The midpoint slot of any triangle lies inside the map.
pub proof fn lemma_midpoint_slot(bin_id: u32, grid_size: u32)
    requires
        1 <= grid_size <= 0x10000,
    ensures
        0 <= slot(triangle_midpoint(bin_id, grid_size), grid_size) < grid_size * grid_size,
{
    crate::rtin::lemma_corners_in_grid(crate::rtin::partition_steps(bin_id), grid_size);
    let p = triangle_midpoint(bin_id, grid_size);
    assert(0 <= p.y * grid_size + p.x < grid_size * grid_size) by (nonlinear_arith)
        requires
            p.x < grid_size,
            p.y < grid_size,
    ;
}

/// Folding a triangle in keeps the map's length.
pub proof fn lemma_errors_after_len(h: HeightMapU16, n: nat)
    requires
        valid_rtin_heightmap(h),
    ensures
        errors_after(h, n).len() == grid_size_of(h) * grid_size_of(h),
    decreases n,
{
    if n > 0 {
        lemma_errors_after_len(h, (n - 1) as nat);
        let b = (error_triangle_count(h) - n + 2) as u32;
        let g = grid_size_of(h);
        lemma_midpoint_slot(b, g);
        lemma_midpoint_slot(right_child(b) as u32, g);
        lemma_midpoint_slot(left_child(b) as u32, g);
    }
}

/// Sizes derived from a valid heightmap of side `2^k`.
pub proof fn lemma_valid_sizes(h: HeightMapU16)
    requires
        valid_rtin_heightmap(h),
    ensures
        2 <= levels_of(h) <= 28,
        h.width * h.width == pow2(levels_of(h)),
        2 * h.width * h.width == pow2(levels_of(h) + 1),
        4 * h.width * h.width == pow2(levels_of(h) + 2),
        grid_size_of(h) * grid_size_of(h) <= 0x1000_8001,
        4 * h.width * h.width <= 0x4000_0000,
        h.width * h.width <= 0x1000_0000,
        h.width * h.width >= 4,
        (h.width * h.width) * 2 == 2 * h.width * h.width,
        (h.width * h.width) * 4 == 4 * h.width * h.width,
{
    lemma_side_log2(h.width);
    let k = side_log2(h.width);
    lemma_pow2_adds(k, k);
    lemma_pow2_adds(2 * k, 1);
    lemma_pow2_adds(2 * k, 2);
    lemma2_to64();
    let w = h.width as int;
    assert(w * w == pow2(2 * k));
    assert(2 * w * w == (w * w) * 2) by (nonlinear_arith);
    assert(4 * w * w == (w * w) * 4) by (nonlinear_arith);
    assert(h.width * h.width <= 0x1000_0000) by (nonlinear_arith)
        requires
            h.width <= 0x4000,
    ;
    assert(h.width * h.width >= 4) by (nonlinear_arith)
        requires
            h.width >= 2,
    ;
    let g = grid_size_of(h);
    assert(g * g <= 0x1000_8001) by (nonlinear_arith)
        requires
            g <= 0x4001,
    ;
    assert(4 * h.width * h.width <= 0x4000_0000) by (nonlinear_arith)
        requires
            h.width <= 0x4000,
    ;
}

/// A triangle below `pow2(n + 1)` is at a level below `n`, and one at or
/// above it at a level of at least `n`.
pub proof fn lemma_level_bound(b: u32, n: nat)
    requires
        b >= 2,
        n <= 31,
    ensures
        b < pow2(n + 1) <==> level_of(b) < n,
{
    let l = level_of(b);
    crate::rtin::lemma_msb_position(b);
    lemma2_to64();
    assert(l >= 0);
    if l < n {
        if l + 2 < n + 1 {
            lemma_pow2_strictly_increases((l + 2) as nat, n + 1);
        }
    } else {
        if l + 1 > n + 1 {
            lemma_pow2_strictly_increases(n + 1, (l + 1) as nat);
        }
    }
}

/// Returns the error-map slot of a triangle's hypotenuse midpoint.
pub fn triangle_errors_vec_index(bin_id: BinId, grid_size: u32) -> (r: usize)
    requires
        bin_id >= 2,
        1 <= grid_size <= 0x10000,
    ensures
        r == slot(triangle_midpoint(bin_id, grid_size), grid_size),
        r < grid_size * grid_size,
{
    let triangle_midpoint = pixel_coords_for_triangle_mid_point(bin_id, grid_size);
    proof {
        let (x, y) = (triangle_midpoint.x, triangle_midpoint.y);
        assert(y * grid_size + x < grid_size * grid_size && grid_size * grid_size <= 0x1_0000_0000)
            by (nonlinear_arith)
            requires
                x < grid_size,
                y < grid_size,
                grid_size <= 0x10000,
        ;
    }
    let midpoint_error_vec_index = triangle_midpoint.y * grid_size + triangle_midpoint.x;
    midpoint_error_vec_index as usize
}

/// Returns `|2 * m - (a + b)|`.
fn midpoint_error(m: u16, a: u16, b: u16) -> (r: u32)
    ensures
        r == (if 2 * m >= a + b {
            2 * m - a - b
        } else {
            a + b - 2 * m
        }),
{
    let twice: u32 = 2 * (m as u32);
    let ends: u32 = a as u32 + b as u32;
    if twice >= ends {
        twice - ends
    } else {
        ends - twice
    }
}

/// Builds the error map of a heightmap, folding in the error-carrying
/// triangles from the highest dense index down, so that children come before
/// their parents.
pub fn build_triangle_errors_vec(heightmap: &HeightMapU16) -> (r: Vec<u32>)
    requires
        valid_rtin_heightmap(*heightmap),
    ensures
        r@ == error_map(*heightmap),
        r@.len() == grid_size_of(*heightmap) * grid_size_of(*heightmap),
{
    proof {
        lemma_valid_sizes(*heightmap);
    }
    let side = heightmap.width();
    let grid_size = side + 1;
    let number_of_triangles = side * side * 2 - 2;
    let number_of_levels = log_2(side) * 2;
    let last_level = number_of_levels - 1;
    let last_level_index_start = get_index_level_start(last_level);
    let ghost h = *heightmap;
    let n_slots = (grid_size * grid_size) as usize;
    let mut errors_vec: Vec<u32> = Vec::new();
    while errors_vec.len() < n_slots
        invariant
            n_slots == grid_size * grid_size,
            errors_vec@.len() <= n_slots,
            forall|i: int| 0 <= i < errors_vec@.len() ==> errors_vec@[i] == 0u32,
        decreases n_slots - errors_vec@.len(),
    {
        errors_vec.push(0u32);
    }
    proof {
        assert(errors_vec@ =~= errors_after(h, 0));
    }
    let mut triangle_index = number_of_triangles;
    while triangle_index > 0
        invariant
            h == *heightmap,
            valid_rtin_heightmap(h),
            side == h.width,
            grid_size == grid_size_of(h),
            number_of_triangles == error_triangle_count(h),
            number_of_triangles <= 0x2000_0000,
            number_of_levels == levels_of(h),
            2 <= number_of_levels <= 28,
            last_level == number_of_levels - 1,
            last_level_index_start == level_start(last_level as nat),
            2 * h.width * h.width == pow2(levels_of(h) + 1),
            triangle_index <= number_of_triangles,
            errors_vec@ == errors_after(h, (number_of_triangles - triangle_index) as nat),
            errors_vec@.len() == grid_size * grid_size,
        decreases triangle_index,
    {
        triangle_index = triangle_index - 1;
        let ghost before = errors_vec@;
        let triangle_bin_id = index_to_bin_id(triangle_index);
        proof {
            lemma_level_bound(triangle_bin_id, number_of_levels as nat);
            lemma_level_bound(triangle_bin_id, (number_of_levels - 1) as nat);
            lemma_pow2_unfold(number_of_levels as nat);
        }
        let triangle_coords = get_triangle_coords(triangle_bin_id, grid_size);
        let midpoint = pixel_coords_for_triangle_mid_point(triangle_bin_id, grid_size);
        let h0 = sample_heightmap_height_corner_mean(heightmap, triangle_coords.0);
        let h1 = sample_heightmap_height_corner_mean(heightmap, triangle_coords.1);
        let midpoint_height = sample_heightmap_height_corner_mean(heightmap, midpoint);
        let this_triangle_error = midpoint_error(midpoint_height, h0, h1);
        let this_index = triangle_errors_vec_index(triangle_bin_id, grid_size);
        if triangle_index >= last_level_index_start {
            errors_vec.set(this_index, this_triangle_error);
        } else {
            let (right_child_bin_id, left_child_bin_id) = get_triangle_children_bin_ids(
                triangle_bin_id,
            );
            proof {
                lemma_child_steps(triangle_bin_id);
            }
            let right_index = triangle_errors_vec_index(right_child_bin_id, grid_size);
            let left_index = triangle_errors_vec_index(left_child_bin_id, grid_size);
            let prev_error = errors_vec[this_index];
            let right_error = errors_vec[right_index];
            let left_error = errors_vec[left_index];
            let mut e = prev_error;
            if left_error > e {
                e = left_error;
            }
            if right_error > e {
                e = right_error;
            }
            if this_triangle_error > e {
                e = this_triangle_error;
            }
            errors_vec.set(this_index, e);
        }
        proof {
            assert(errors_vec@ =~= error_update(h, before, triangle_index as int));
        }
    }
    errors_vec
}

/// The triangles chosen under `bin_id`, `depth` levels above the finest: a
/// triangle is kept when it is of the finest level or when the error stored
/// at its midpoint is within the threshold; otherwise its left child's
/// choice comes first, then its right child's.
pub open spec fn select_below(
    errors: Seq<u32>,
    grid_size: u32,
    threshold: u32,
    bin_id: u32,
    depth: nat,
) -> Seq<u32>
    decreases depth,
{
    if depth == 0 || errors[slot(triangle_midpoint(bin_id, grid_size), grid_size)] <= threshold {
        seq![bin_id]
    } else {
        select_below(errors, grid_size, threshold, left_child(bin_id) as u32, (depth - 1) as nat)
            + select_below(
            errors,
            grid_size,
            threshold,
            right_child(bin_id) as u32,
            (depth - 1) as nat,
        )
    }
}

/// The choice under triangle `bin_id` for a heightmap with `levels` levels
/// above the finest.
pub open spec fn select_at(
    errors: Seq<u32>,
    grid_size: u32,
    levels: nat,
    threshold: u32,
    bin_id: u32,
) -> Seq<u32> {
    select_below(errors, grid_size, threshold, bin_id, (levels - level_of(bin_id)) as nat)
}

/// The triangles chosen for heightmap `h` with error map `errors`: the
/// choice under the bottom-left root, then under the top-right root.
pub open spec fn selection(errors: Seq<u32>, h: HeightMapU16, threshold: u32) -> Seq<u32> {
    select_at(errors, grid_size_of(h), levels_of(h), threshold, 2)
        + select_at(errors, grid_size_of(h), levels_of(h), threshold, 3)
}

/// Visits the triangle at dense index `triangle_index` and appends to
/// `triangles` the choice under it.
pub fn rtin_select_triangles_for_heightmap_process_triangle(
    heightmap: &HeightMapU16,
    errors_vec: &Vec<u32>,
    triangles: &mut Vec<BinId>,
    triangle_index: u32,
    error_threshold: u32,
)
    requires
        valid_rtin_heightmap(*heightmap),
        errors_vec@.len() == grid_size_of(*heightmap) * grid_size_of(*heightmap),
        triangle_index < 4 * heightmap.width * heightmap.width - 2,
    ensures
        final(triangles)@ == old(triangles)@ + select_at(
            errors_vec@,
            grid_size_of(*heightmap),
            levels_of(*heightmap),
            error_threshold,
            (triangle_index + 2) as u32,
        ),
    decreases levels_of(*heightmap) - level_of((triangle_index + 2) as u32),
{
    proof {
        lemma_valid_sizes(*heightmap);
    }
    let grid_size = heightmap.width() + 1;
    let triangle_bin_id = index_to_bin_id(triangle_index);
    let ghost levels = levels_of(*heightmap);
    proof {
        lemma_level_bound(triangle_bin_id, levels + 1);
        crate::rtin::lemma_msb_position(triangle_bin_id);
        lemma2_to64();
        lemma_child_steps(triangle_bin_id);
        lemma_level_bound(right_child(triangle_bin_id) as u32, levels + 1);
    }
    let (right_child_index, left_child_index) = crate::rtin::get_triangle_children_indices(
        triangle_bin_id,
    );
    let side = heightmap.width();
    let number_of_last_level_triangles = side * side * 2;
    let number_of_triangles = side * side * 2 - 2 + number_of_last_level_triangles;
    let has_children = right_child_index < number_of_triangles;
    let leaf_triangle = !has_children;
    let this_triangle_errors_vec_index = triangle_errors_vec_index(triangle_bin_id, grid_size);
    let this_triangle_error = errors_vec[this_triangle_errors_vec_index];
    let error_within_threshold = this_triangle_error <= error_threshold;
    if error_within_threshold || leaf_triangle {
        triangles.push(triangle_bin_id);
    } else {
        proof {
            lemma_level_bound(left_child(triangle_bin_id) as u32, levels + 1);
        }
        rtin_select_triangles_for_heightmap_process_triangle(
            heightmap,
            errors_vec,
            triangles,
            left_child_index,
            error_threshold,
        );
        rtin_select_triangles_for_heightmap_process_triangle(
            heightmap,
            errors_vec,
            triangles,
            right_child_index,
            error_threshold,
        );
        proof {
            assert(final(triangles)@ =~= old(triangles)@ + select_at(
                errors_vec@,
                grid_size,
                levels,
                error_threshold,
                triangle_bin_id,
            ));
        }
    }
}

/// Returns the triangles chosen for a heightmap, its error map and a
/// threshold.
pub fn rtin_select_triangles_for_heightmap(
    heightmap: &HeightMapU16,
    errors_vec: &Vec<u32>,
    error_threshold: u32,
) -> (r: Vec<BinId>)
    requires
        valid_rtin_heightmap(*heightmap),
        errors_vec@.len() == grid_size_of(*heightmap) * grid_size_of(*heightmap),
    ensures
        r@ == selection(errors_vec@, *heightmap, error_threshold),
{
    proof {
        lemma_valid_sizes(*heightmap);
    }
    let mut triangles: Vec<BinId> = Vec::new();
    rtin_select_triangles_for_heightmap_process_triangle(
        heightmap,
        errors_vec,
        &mut triangles,
        0,
        error_threshold,
    );
    rtin_select_triangles_for_heightmap_process_triangle(
        heightmap,
        errors_vec,
        &mut triangles,
        1,
        error_threshold,
    );
    proof {
        assert(triangles@ =~= selection(errors_vec@, *heightmap, error_threshold));
    }
    triangles
}

} // verus!
