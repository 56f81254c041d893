//! What the finished error map guarantees: the error stored for a triangle
//! bounds its own approximation error and the errors stored for its children.

use vstd::prelude::*;

verus! {

use crate::heightmap::{HeightMapU16, valid_rtin_heightmap};
use crate::midpoint_laws::lemma_midpoint_determines_level;
use crate::rtin::{Vec2u32, level_of, left_child, right_child, triangle_midpoint, lemma_child_steps};
use crate::terrain_rtin::{
    grid_size_of,
    levels_of,
    slot,
    local_error,
    error_map,
    errors_after,
    error_triangle_count,
    lemma_errors_after_len,
    lemma_midpoint_slot,
    lemma_valid_sizes,
    lemma_level_bound,
};
use vstd::arithmetic::power2::{pow2, lemma2_to64};

/// Distinct lattice points have distinct slots.
proof fn lemma_slot_injective(p: Vec2u32, q: Vec2u32, g: u32)
    requires
        p.x < g && p.y < g,
        q.x < g && q.y < g,
        slot(p, g) == slot(q, g),
    ensures
        p == q,
{
    assert(p.y == q.y) by (nonlinear_arith)
        requires
            p.x < g,
            q.x < g,
            p.y * g + p.x == q.y * g + q.x,
    ;
}

/// Folding in triangles whose slots differ from `s` leaves slot `s` alone.
proof fn lemma_fold_frame(h: HeightMapU16, n1: nat, n2: nat, s: int)
    requires
        valid_rtin_heightmap(h),
        n1 <= n2 <= error_triangle_count(h),
        0 <= s < grid_size_of(h) * grid_size_of(h),
        forall|i: int|
            error_triangle_count(h) - n2 <= i < error_triangle_count(h) - n1 ==> slot(
                #[trigger] triangle_midpoint((i + 2) as u32, grid_size_of(h)),
                grid_size_of(h),
            ) != s,
    ensures
        errors_after(h, n2)[s] == errors_after(h, n1)[s],
    decreases n2 - n1,
{
    if n2 > n1 {
        let i = error_triangle_count(h) - n2;
        assert(slot(triangle_midpoint((i + 2) as u32, grid_size_of(h)), grid_size_of(h)) != s);
        lemma_fold_frame(h, n1, (n2 - 1) as nat, s);
        lemma_valid_sizes(h);
        lemma_errors_after_len(h, (n2 - 1) as nat);
        lemma_midpoint_slot((i + 2) as u32, grid_size_of(h));
    }
}

/// Folding in triangles of the upper levels never lowers slot `s`.
proof fn lemma_fold_grows(h: HeightMapU16, n1: nat, n2: nat, s: int)
    requires
        valid_rtin_heightmap(h),
        n1 <= n2 <= error_triangle_count(h),
        0 <= s < grid_size_of(h) * grid_size_of(h),
        forall|i: int|
            error_triangle_count(h) - n2 <= i < error_triangle_count(h) - n1 && slot(
                #[trigger] triangle_midpoint((i + 2) as u32, grid_size_of(h)),
                grid_size_of(h),
            ) == s ==> level_of((i + 2) as u32) < levels_of(h) - 1,
    ensures
        errors_after(h, n2)[s] >= errors_after(h, n1)[s],
    decreases n2 - n1,
{
    if n2 > n1 {
        let i = error_triangle_count(h) - n2;
        assert(slot(triangle_midpoint((i + 2) as u32, grid_size_of(h)), grid_size_of(h)) == s
            ==> level_of((i + 2) as u32) < levels_of(h) - 1);
        lemma_fold_grows(h, n1, (n2 - 1) as nat, s);
        lemma_valid_sizes(h);
        lemma_errors_after_len(h, (n2 - 1) as nat);
        lemma_midpoint_slot((i + 2) as u32, grid_size_of(h));
    }
}

/// A smaller identifier is at the same or an upper level.
proof fn lemma_level_monotone(b1: u32, b2: u32)
    requires
        2 <= b1 <= b2,
        0 <= level_of(b2) <= 30,
    ensures
        level_of(b1) <= level_of(b2),
{
    crate::rtin::lemma_msb_position(b2);
    lemma_level_bound(b1, (level_of(b2) + 1) as nat);
}

/// Every hypotenuse midpoint is a point of the lattice.
proof fn lemma_midpoint_in_grid(bin_id: u32, g: u32)
    requires
        g >= 1,
    ensures
        triangle_midpoint(bin_id, g).x < g,
        triangle_midpoint(bin_id, g).y < g,
{
    crate::rtin::lemma_corners_in_grid(crate::rtin::partition_steps(bin_id), g);
}

/// A triangle other than `child`, at a level above `child`'s, has another
/// error slot.
proof fn lemma_upper_slot_differs(h: HeightMapU16, b: u32, child: u32)
    requires
        valid_rtin_heightmap(h),
        b >= 2,
        0 <= level_of(b) < level_of(child) < levels_of(h),
    ensures
        slot(triangle_midpoint(b, grid_size_of(h)), grid_size_of(h)) != slot(
            triangle_midpoint(child, grid_size_of(h)),
            grid_size_of(h),
        ),
{
    let g = grid_size_of(h);
    lemma_midpoint_in_grid(b, g);
    lemma_midpoint_in_grid(child, g);
    if slot(triangle_midpoint(b, g), g) == slot(triangle_midpoint(child, g), g) {
        lemma_slot_injective(triangle_midpoint(b, g), triangle_midpoint(child, g), g);
        lemma_midpoint_determines_level(h, b, child);
    }
}

/// The error stored for a triangle above the last level of the error map is
/// at least its own approximation error and at least the errors stored for
/// its two children.
pub proof fn lemma_error_map_bounds_children(h: HeightMapU16, b: u32)
    requires
        valid_rtin_heightmap(h),
        b >= 2,
        0 <= level_of(b) < levels_of(h) - 1,
    ensures
        error_map(h)[slot(triangle_midpoint(b, grid_size_of(h)), grid_size_of(h))] >= local_error(
            h,
            b,
        ),
        error_map(h)[slot(triangle_midpoint(b, grid_size_of(h)), grid_size_of(h))] >= error_map(
            h,
        )[slot(triangle_midpoint(left_child(b) as u32, grid_size_of(h)), grid_size_of(h))],
        error_map(h)[slot(triangle_midpoint(b, grid_size_of(h)), grid_size_of(h))] >= error_map(
            h,
        )[slot(triangle_midpoint(right_child(b) as u32, grid_size_of(h)), grid_size_of(h))],
{
    let g = grid_size_of(h);
    let l = levels_of(h);
    let n = error_triangle_count(h);
    lemma_valid_sizes(h);
    lemma2_to64();
    lemma_level_bound(b, (l - 1) as nat);
    lemma_pow2_unfold_twice(l);
    let ib = b - 2;
    let nb = (n - ib) as nat;
    assert(nb >= 1);
    lemma_errors_after_len(h, (nb - 1) as nat);
    lemma_child_steps(b);
    let lc = left_child(b) as u32;
    let rc = right_child(b) as u32;
    let sb = slot(triangle_midpoint(b, g), g);
    let sl = slot(triangle_midpoint(lc, g), g);
    let sr = slot(triangle_midpoint(rc, g), g);
    lemma_midpoint_slot(b, g);
    lemma_midpoint_slot(lc, g);
    lemma_midpoint_slot(rc, g);
    assert(((ib + 2) as u32) == b);
    assert forall|i: int| n - n <= i < n - (nb - 1) implies slot(
        #[trigger] triangle_midpoint((i + 2) as u32, g),
        g,
    ) != sl && slot(triangle_midpoint((i + 2) as u32, g), g) != sr by {
        let b2 = (i + 2) as u32;
        lemma_level_monotone(b2, b);
        lemma_level_bound(b2, 0);
        lemma_upper_slot_differs(h, b2, lc);
        lemma_upper_slot_differs(h, b2, rc);
    }
    lemma_fold_frame(h, (nb - 1) as nat, n as nat, sl);
    lemma_fold_frame(h, (nb - 1) as nat, n as nat, sr);
    assert forall|i: int|
        n - n <= i < n - nb && slot(#[trigger] triangle_midpoint((i + 2) as u32, g), g)
            == sb implies level_of((i + 2) as u32) < l - 1 by {
        let b2 = (i + 2) as u32;
        lemma_level_monotone(b2, b);
        lemma_level_bound(b2, 0);
        lemma_midpoint_in_grid(b2, g);
        lemma_midpoint_in_grid(b, g);
        lemma_slot_injective(triangle_midpoint(b2, g), triangle_midpoint(b, g), g);
        lemma_midpoint_determines_level(h, b2, b);
    }
    lemma_fold_grows(h, nb, n as nat, sb);
}

/// `2^(l + 1) == 4 * 2^(l - 1)` for `l >= 1`.
proof fn lemma_pow2_unfold_twice(l: nat)
    requires
        l >= 1,
    ensures
        pow2(l + 1) == 4 * pow2((l - 1) as nat),
{
    vstd::arithmetic::power2::lemma_pow2_unfold(l + 1);
    vstd::arithmetic::power2::lemma_pow2_unfold(l);
}

} // verus!
