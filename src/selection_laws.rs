//! What the triangle selection guarantees for every error map and threshold.

use vstd::prelude::*;

verus! {

use crate::heightmap::{HeightMapU16, valid_rtin_heightmap};
use crate::rtin::{
    level_of,
    left_child,
    right_child,
    triangle_coords,
    triangle_midpoint,
    lemma_child_steps,
    lemma_msb_at,
};
use crate::terrain_rtin::{
    grid_size_of,
    levels_of,
    slot,
    select_below,
    select_at,
    selection,
    lemma_valid_sizes,
    lemma_midpoint_slot,
    lemma_level_bound,
};
use vstd::arithmetic::power2::{pow2, lemma_pow2_unfold, lemma2_to64};

/// Each triangle of `xs`, in order, replaced by the choice under it at
/// threshold `threshold`.
pub open spec fn regroup(
    errors: Seq<u32>,
    grid_size: u32,
    levels: nat,
    threshold: u32,
    xs: Seq<u32>,
) -> Seq<u32>
    decreases xs.len(),
{
    if xs.len() == 0 {
        seq![]
    } else {
        regroup(errors, grid_size, levels, threshold, xs.drop_last()) + select_at(
            errors,
            grid_size,
            levels,
            threshold,
            xs.last(),
        )
    }
}

proof fn lemma_regroup_concat(
    errors: Seq<u32>,
    grid_size: u32,
    levels: nat,
    threshold: u32,
    xs: Seq<u32>,
    ys: Seq<u32>,
)
    ensures
        regroup(errors, grid_size, levels, threshold, xs + ys) == regroup(
            errors,
            grid_size,
            levels,
            threshold,
            xs,
        ) + regroup(errors, grid_size, levels, threshold, ys),
    decreases ys.len(),
{
    if ys.len() == 0 {
        assert(xs + ys =~= xs);
        assert(regroup(errors, grid_size, levels, threshold, xs) + seq![] =~= regroup(
            errors,
            grid_size,
            levels,
            threshold,
            xs,
        ));
    } else {
        assert((xs + ys).drop_last() =~= xs + ys.drop_last());
        lemma_regroup_concat(errors, grid_size, levels, threshold, xs, ys.drop_last());
        let a = regroup(errors, grid_size, levels, threshold, xs);
        let b = regroup(errors, grid_size, levels, threshold, ys.drop_last());
        let c = select_at(errors, grid_size, levels, threshold, ys.last());
        assert((a + b) + c =~= a + (b + c));
    }
}

proof fn lemma_select_nonempty(
    errors: Seq<u32>,
    grid_size: u32,
    threshold: u32,
    bin_id: u32,
    depth: nat,
)
    ensures
        select_below(errors, grid_size, threshold, bin_id, depth).len() >= 1,
    decreases depth,
{
    if depth > 0 {
        lemma_select_nonempty(errors, grid_size, threshold, left_child(bin_id) as u32, (depth - 1) as nat);
    }
}

proof fn lemma_regroup_len(
    errors: Seq<u32>,
    grid_size: u32,
    levels: nat,
    threshold: u32,
    xs: Seq<u32>,
)
    ensures
        regroup(errors, grid_size, levels, threshold, xs).len() >= xs.len(),
    decreases xs.len(),
{
    if xs.len() > 0 {
        lemma_regroup_len(errors, grid_size, levels, threshold, xs.drop_last());
        lemma_select_nonempty(
            errors,
            grid_size,
            threshold,
            xs.last(),
            (levels - level_of(xs.last())) as nat,
        );
    }
}

/// The choice under a triangle at a lower threshold is the choice under it
/// at a higher threshold with each chosen triangle replaced by the lower
/// threshold's choice under that triangle.
pub proof fn lemma_select_at_refines(
    errors: Seq<u32>,
    grid_size: u32,
    levels: nat,
    t1: u32,
    t2: u32,
    bin_id: u32,
)
    requires
        t1 <= t2,
        bin_id >= 2,
        0 <= level_of(bin_id) <= levels,
        levels <= 29,
    ensures
        select_at(errors, grid_size, levels, t1, bin_id) == regroup(
            errors,
            grid_size,
            levels,
            t1,
            select_at(errors, grid_size, levels, t2, bin_id),
        ),
    decreases levels - level_of(bin_id),
{
    let depth = (levels - level_of(bin_id)) as nat;
    let e = errors[slot(triangle_midpoint(bin_id, grid_size), grid_size)];
    if depth == 0 || e <= t2 {
        assert(select_at(errors, grid_size, levels, t2, bin_id) == seq![bin_id]);
        assert(seq![bin_id].drop_last() =~= Seq::<u32>::empty());
        assert(regroup(errors, grid_size, levels, t1, Seq::<u32>::empty()) + select_at(
            errors,
            grid_size,
            levels,
            t1,
            bin_id,
        ) =~= select_at(errors, grid_size, levels, t1, bin_id));
    } else {
        lemma_child_steps(bin_id);
        let lc = left_child(bin_id) as u32;
        let rc = right_child(bin_id) as u32;
        lemma_select_at_refines(errors, grid_size, levels, t1, t2, lc);
        lemma_select_at_refines(errors, grid_size, levels, t1, t2, rc);
        lemma_regroup_concat(
            errors,
            grid_size,
            levels,
            t1,
            select_at(errors, grid_size, levels, t2, lc),
            select_at(errors, grid_size, levels, t2, rc),
        );
    }
}

/// The two roots are the triangles 0b10 and 0b11 of level 0.
pub proof fn lemma_root_levels()
    ensures
        level_of(2) == 0,
        level_of(3) == 0,
{
    assert(2u32 >> 1u32 == 1 && 3u32 >> 1u32 == 1) by (bit_vector);
    lemma_msb_at(2, 1);
    lemma_msb_at(3, 1);
}

/// Monotone level of detail: a lower threshold never chooses fewer
/// triangles, and its choice is the higher threshold's choice with each
/// triangle replaced by the triangles that tile it.
pub proof fn lemma_selection_monotone(errors: Seq<u32>, h: HeightMapU16, t1: u32, t2: u32)
    requires
        valid_rtin_heightmap(h),
        t1 <= t2,
    ensures
        selection(errors, h, t1).len() >= selection(errors, h, t2).len(),
        selection(errors, h, t1) == regroup(
            errors,
            grid_size_of(h),
            levels_of(h),
            t1,
            selection(errors, h, t2),
        ),
{
    lemma_valid_sizes(h);
    lemma_root_levels();
    let g = grid_size_of(h);
    let l = levels_of(h);
    lemma_select_at_refines(errors, g, l, t1, t2, 2);
    lemma_select_at_refines(errors, g, l, t1, t2, 3);
    lemma_regroup_concat(
        errors,
        g,
        l,
        t1,
        select_at(errors, g, l, t2, 2),
        select_at(errors, g, l, t2, 3),
    );
    lemma_regroup_len(errors, g, l, t1, selection(errors, h, t2));
}

/// A threshold at or above every stored error chooses the two roots alone.
pub proof fn lemma_selection_coarsest(errors: Seq<u32>, h: HeightMapU16, threshold: u32)
    requires
        valid_rtin_heightmap(h),
        errors.len() == grid_size_of(h) * grid_size_of(h),
        forall|i: int| 0 <= i < errors.len() ==> errors[i] <= threshold,
    ensures
        selection(errors, h, threshold) == seq![2u32, 3u32],
{
    lemma_valid_sizes(h);
    lemma_root_levels();
    let g = grid_size_of(h);
    lemma_midpoint_slot(2, g);
    lemma_midpoint_slot(3, g);
    assert(selection(errors, h, threshold) =~= seq![2u32, 3u32]);
}

proof fn lemma_select_full(errors: Seq<u32>, grid_size: u32, levels: nat, bin_id: u32, depth: nat)
    requires
        bin_id >= 2,
        level_of(bin_id) + depth == levels,
        levels <= 29,
        forall|b: u32|
            2 <= b < pow2(levels + 1) ==> errors[slot(#[trigger] triangle_midpoint(b, grid_size), grid_size)] > 0,
    ensures
        select_below(errors, grid_size, 0, bin_id, depth).len() == pow2(depth),
        forall|i: int|
            0 <= i < select_below(errors, grid_size, 0, bin_id, depth).len() ==> level_of(
                #[trigger] select_below(errors, grid_size, 0, bin_id, depth)[i],
            ) == levels,
    decreases depth,
{
    lemma2_to64();
    if depth > 0 {
        lemma_level_bound(bin_id, levels);
        assert(errors[slot(triangle_midpoint(bin_id, grid_size), grid_size)] > 0);
        lemma_child_steps(bin_id);
        let lc = left_child(bin_id) as u32;
        let rc = right_child(bin_id) as u32;
        lemma_select_full(errors, grid_size, levels, lc, (depth - 1) as nat);
        lemma_select_full(errors, grid_size, levels, rc, (depth - 1) as nat);
        lemma_pow2_unfold(depth);
        let a = select_below(errors, grid_size, 0, lc, (depth - 1) as nat);
        let b = select_below(errors, grid_size, 0, rc, (depth - 1) as nat);
        assert forall|i: int| 0 <= i < (a + b).len() implies level_of(#[trigger] (a + b)[i])
            == levels by {
            if i < a.len() {
                assert((a + b)[i] == a[i]);
            } else {
                assert((a + b)[i] == b[i - a.len()]);
            }
        }
    }
}

/// When every triangle above the finest level stores a positive error,
/// threshold 0 chooses all `2 * side * side` triangles of the finest level.
pub proof fn lemma_selection_finest(errors: Seq<u32>, h: HeightMapU16)
    requires
        valid_rtin_heightmap(h),
        forall|b: u32|
            2 <= b < pow2(levels_of(h) + 1) ==> errors[slot(
                #[trigger] triangle_midpoint(b, grid_size_of(h)),
                grid_size_of(h),
            )] > 0,
    ensures
        selection(errors, h, 0).len() == 2 * h.width * h.width,
        forall|i: int|
            0 <= i < selection(errors, h, 0).len() ==> level_of(#[trigger] selection(errors, h, 0)[i])
                == levels_of(h),
{
    lemma_valid_sizes(h);
    lemma_root_levels();
    let g = grid_size_of(h);
    let l = levels_of(h);
    lemma_select_full(errors, g, l, 2, l);
    lemma_select_full(errors, g, l, 3, l);
    let a = select_at(errors, g, l, 0, 2);
    let b = select_at(errors, g, l, 0, 3);
    assert forall|i: int| 0 <= i < (a + b).len() implies level_of(#[trigger] (a + b)[i]) == l by {
        if i < a.len() {
            assert((a + b)[i] == a[i]);
        } else {
            assert((a + b)[i] == b[i - a.len()]);
        }
    }
}

/// Every triangle chosen under `bin_id` is a triangle at most `depth` levels
/// below it, and there are at most `2^depth` of them.
pub proof fn lemma_select_below_bounds(
    errors: Seq<u32>,
    grid_size: u32,
    threshold: u32,
    bin_id: u32,
    depth: nat,
)
    requires
        bin_id >= 2,
        0 <= level_of(bin_id),
        level_of(bin_id) + depth <= 29,
    ensures
        select_below(errors, grid_size, threshold, bin_id, depth).len() <= pow2(depth),
        forall|i: int|
            0 <= i < select_below(errors, grid_size, threshold, bin_id, depth).len() ==> {
                let x = #[trigger] select_below(errors, grid_size, threshold, bin_id, depth)[i];
                x >= 2 && 0 <= level_of(x) <= level_of(bin_id) + depth
            },
    decreases depth,
{
    lemma2_to64();
    let s = select_below(errors, grid_size, threshold, bin_id, depth);
    if depth > 0 && errors[slot(triangle_midpoint(bin_id, grid_size), grid_size)] > threshold {
        lemma_child_steps(bin_id);
        let lc = left_child(bin_id) as u32;
        let rc = right_child(bin_id) as u32;
        vstd::arithmetic::power2::lemma_pow2_pos(level_of(bin_id) as nat + 1);
        lemma_select_below_bounds(errors, grid_size, threshold, lc, (depth - 1) as nat);
        lemma_select_below_bounds(errors, grid_size, threshold, rc, (depth - 1) as nat);
        lemma_pow2_unfold(depth);
        let a = select_below(errors, grid_size, threshold, lc, (depth - 1) as nat);
        let b = select_below(errors, grid_size, threshold, rc, (depth - 1) as nat);
        assert forall|i: int| 0 <= i < (a + b).len() implies {
            let x = #[trigger] (a + b)[i];
            x >= 2 && 0 <= level_of(x) <= level_of(bin_id) + depth
        } by {
            if i < a.len() {
                assert((a + b)[i] == a[i]);
            } else {
                assert((a + b)[i] == b[i - a.len()]);
            }
        }
    }
}

/// The selection holds at most `2 * side * side` triangles, each of them a
/// triangle of the heightmap's tree.
pub proof fn lemma_selection_bounds(errors: Seq<u32>, h: HeightMapU16, threshold: u32)
    requires
        valid_rtin_heightmap(h),
    ensures
        selection(errors, h, threshold).len() <= 2 * h.width * h.width,
        forall|i: int|
            0 <= i < selection(errors, h, threshold).len() ==> {
                let x = #[trigger] selection(errors, h, threshold)[i];
                x >= 2 && 0 <= level_of(x) <= levels_of(h)
            },
{
    lemma_valid_sizes(h);
    lemma_root_levels();
    let g = grid_size_of(h);
    let l = levels_of(h);
    lemma_select_below_bounds(errors, g, threshold, 2, l);
    lemma_select_below_bounds(errors, g, threshold, 3, l);
    let a = select_at(errors, g, l, threshold, 2);
    let b = select_at(errors, g, l, threshold, 3);
    assert forall|i: int| 0 <= i < (a + b).len() implies {
        let x = #[trigger] (a + b)[i];
        x >= 2 && 0 <= level_of(x) <= l
    } by {
        if i < a.len() {
            assert((a + b)[i] == a[i]);
        } else {
            assert((a + b)[i] == b[i - a.len()]);
        }
    }
}

/// Two triangles at the same depth that share their hypotenuse read the same
/// error slot, so they are either both kept whole or both split.
pub proof fn lemma_shared_hypotenuse_same_decision(
    errors: Seq<u32>,
    grid_size: u32,
    threshold: u32,
    b1: u32,
    b2: u32,
    depth: nat,
)
    requires
        triangle_coords(b1, grid_size).0 == triangle_coords(b2, grid_size).1,
        triangle_coords(b1, grid_size).1 == triangle_coords(b2, grid_size).0,
    ensures
        select_below(errors, grid_size, threshold, b1, depth) == seq![b1] <==> select_below(
            errors,
            grid_size,
            threshold,
            b2,
            depth,
        ) == seq![b2],
{
    assert(triangle_midpoint(b1, grid_size) == triangle_midpoint(b2, grid_size));
    let e = errors[slot(triangle_midpoint(b1, grid_size), grid_size)];
    if depth > 0 && e > threshold {
        let d = (depth - 1) as nat;
        lemma_select_nonempty(errors, grid_size, threshold, left_child(b1) as u32, d);
        lemma_select_nonempty(errors, grid_size, threshold, right_child(b1) as u32, d);
        lemma_select_nonempty(errors, grid_size, threshold, left_child(b2) as u32, d);
        lemma_select_nonempty(errors, grid_size, threshold, right_child(b2) as u32, d);
        assert(select_below(errors, grid_size, threshold, b1, depth).len() >= 2);
        assert(select_below(errors, grid_size, threshold, b2, depth).len() >= 2);
        assert(seq![b1].len() == 1 && seq![b2].len() == 1);
    }
}

} // verus!
