//! Where hypotenuse midpoints lie: above the finest level, the lattice point
//! at a triangle's hypotenuse midpoint tells the triangle's level.

use vstd::prelude::*;

verus! {

use crate::heightmap::{HeightMapU16, valid_rtin_heightmap, side_log2, lemma_side_log2};
use crate::terrain_rtin::{grid_size_of, levels_of};
use crate::rtin::{
    PartitionStep,
    triangle_midpoint,
    TriangleU32,
    Vec2u32,
    apply_step,
    corners_of_steps,
    midpoint,
    partition_steps,
    triangle_coords,
    level_of,
};
use vstd::arithmetic::power2::{pow2, lemma_pow2_pos, lemma_pow2_unfold, lemma_pow2_adds};
use vstd::arithmetic::div_mod::{
    lemma_fundamental_div_mod,
    lemma_mod_multiples_basic,
    lemma_mod_multiples_vanish,
    lemma_small_mod,
};

/// `(dx, dy)` is one step of length `s` along an axis.
pub open spec fn axis_step(dx: int, dy: int, s: int) -> bool {
    (dy == 0 && (dx == s || dx == -s)) || (dx == 0 && (dy == s || dy == -s))
}

/// Both coordinates of `p` are multiples of `s`.
pub open spec fn on_grid(p: Vec2u32, s: int) -> bool {
    p.x as int % s == 0 && p.y as int % s == 0
}

/// A triangle whose legs are axis steps of length `s` from a right-angle
/// corner on the `s` grid.
pub open spec fn even_shape(t: TriangleU32, s: int) -> bool {
    let (a, b, c) = t;
    &&& on_grid(c, s)
    &&& axis_step(a.x - c.x, a.y - c.y, s)
    &&& axis_step(b.x - c.x, b.y - c.y, s)
    &&& (a.x == c.x) != (b.x == c.x)
}

/// A triangle whose hypotenuse is an axis step of length `s` between points
/// of the `s` grid, with the right-angle corner half a step off its middle.
pub open spec fn odd_shape(t: TriangleU32, s: int) -> bool {
    let (a, b, c) = t;
    &&& on_grid(a, s)
    &&& axis_step(b.x - a.x, b.y - a.y, s)
    &&& axis_step(2 * c.x - a.x - b.x, 2 * c.y - a.y - b.y, s)
    &&& (a.x == b.x) != (2 * c.x == a.x + b.x)
}

/// Offsets below `s` from a multiple of `s` keep their residue.
proof fn lemma_mod_offset(x: int, s: int, r: int)
    requires
        s > 0,
        x % s == 0,
        0 <= r < s,
    ensures
        (x + r) % s == r,
        (x - s + r) % s == r,
        (x + s) % s == 0,
        (x - s) % s == 0,
{
    lemma_fundamental_div_mod(x, s);
    let q = x / s;
    lemma_small_mod(r as nat, s as nat);
    lemma_mod_multiples_vanish(q, r, s);
    lemma_mod_multiples_vanish(q - 1, r, s);
    lemma_mod_multiples_vanish(q + 1, 0, s);
    lemma_mod_multiples_vanish(q - 1, 0, s);
    assert(s * (q - 1) + r == x - s + r) by (nonlinear_arith)
        requires
            x == s * q,
    ;
    assert(s * (q + 1) + 0 == x + s) by (nonlinear_arith)
        requires
            x == s * q,
    ;
    assert(s * (q - 1) + 0 == x - s) by (nonlinear_arith)
        requires
            x == s * q,
    ;
}

/// A multiple of `2 * h` is a multiple of `h`.
proof fn lemma_mod_half(x: int, h: int)
    requires
        h > 0,
        x % (2 * h) == 0,
    ensures
        x % h == 0,
{
    lemma_fundamental_div_mod(x, 2 * h);
    let q = x / (2 * h);
    lemma_mod_multiples_basic(2 * q, h);
    assert(x == (2 * q) * h) by (nonlinear_arith)
        requires
            x == (2 * h) * q,
    ;
}

/// Splitting a triangle of even shape gives one of odd shape, same step.
proof fn lemma_even_to_odd(t: TriangleU32, s: int, step: PartitionStep, grid_size: u32)
    requires
        even_shape(t, s),
        s >= 2,
        s % 2 == 0,
        step == PartitionStep::Left || step == PartitionStep::Right,
    ensures
        odd_shape(apply_step(t, step, grid_size), s),
{
    let (a, b, c) = t;
    lemma_mod_offset(c.x as int, s, 0);
    lemma_mod_offset(c.y as int, s, 0);
    assert((a.x + b.x) % 2 == 0 && (a.y + b.y) % 2 == 0);
}

/// Splitting a triangle of odd shape gives one of even shape, half the step.
proof fn lemma_odd_to_even(t: TriangleU32, s: int, step: PartitionStep, grid_size: u32)
    requires
        odd_shape(t, s),
        s >= 2,
        s % 2 == 0,
        step == PartitionStep::Left || step == PartitionStep::Right,
    ensures
        even_shape(apply_step(t, step, grid_size), s / 2),
{
    let (a, b, c) = t;
    let h = s / 2;
    lemma_mod_half(a.x as int, h);
    lemma_mod_half(a.y as int, h);
    lemma_mod_offset(a.x as int, h, 0);
    lemma_mod_offset(a.y as int, h, 0);
    assert((a.x + b.x) % 2 == 0 && (a.y + b.y) % 2 == 0);
}

/// The shape of a triangle `i` levels below a root of side `2^k`.
pub open spec fn shape_at(t: TriangleU32, i: nat, k: nat) -> bool {
    let s = pow2((k - i / 2) as nat) as int;
    if i % 2 == 0 {
        even_shape(t, s)
    } else {
        odd_shape(t, s)
    }
}

/// A descent: a root step, then left and right steps.
pub open spec fn is_descent(steps: Seq<PartitionStep>) -> bool {
    &&& steps.len() >= 1
    &&& (steps[0] == PartitionStep::TopRight || steps[0] == PartitionStep::BottomLeft)
    &&& forall|j: int|
        1 <= j < steps.len() ==> (#[trigger] steps[j] == PartitionStep::Left || steps[j]
            == PartitionStep::Right)
}

/// Every triangle above the finest level of a root of side `2^k` has the
/// shape of its level.
proof fn lemma_prefix_shape(steps: Seq<PartitionStep>, i: nat, k: nat, grid_size: u32)
    requires
        is_descent(steps),
        i < steps.len(),
        i < 2 * k,
        grid_size == pow2(k) + 1,
    ensures
        shape_at(corners_of_steps(steps.take(i as int + 1), grid_size), i, k),
    decreases i,
{
    lemma_pow2_pos(k);
    if i == 0 {
        assert(steps.take(1).drop_last() =~= Seq::<PartitionStep>::empty());
        let e = pow2(k) as int;
        lemma_mod_offset(0, e, 0);
        lemma_mod_offset(e, e, 0);
    } else {
        lemma_prefix_shape(steps, (i - 1) as nat, k, grid_size);
        assert(steps.take(i as int + 1).drop_last() =~= steps.take(i as int));
        let t = corners_of_steps(steps.take(i as int), grid_size);
        let step = steps[i as int];
        assert(step == PartitionStep::Left || step == PartitionStep::Right);
        let e = (k - (i - 1) / 2) as nat;
        lemma_pow2_unfold(e);
        lemma_pow2_pos((e - 1) as nat);
        if (i - 1) % 2 == 0 {
            lemma_even_to_odd(t, pow2(e) as int, step, grid_size);
        } else {
            assert((k - i / 2) as nat == (e - 1) as nat);
            lemma_odd_to_even(t, pow2(e) as int, step, grid_size);
        }
    }
}

/// The descent to a triangle is a descent.
proof fn lemma_partition_steps_descent(bin_id: u32)
    requires
        level_of(bin_id) >= 0,
    ensures
        is_descent(partition_steps(bin_id)),
{
}

/// The hypotenuse midpoint of a triangle of even shape lies half a step off
/// the `s` grid in both coordinates.
proof fn lemma_even_midpoint(t: TriangleU32, s: int)
    requires
        even_shape(t, s),
        s >= 2,
        s % 2 == 0,
    ensures
        midpoint(t.0, t.1).x as int % s == s / 2,
        midpoint(t.0, t.1).y as int % s == s / 2,
{
    let (a, b, c) = t;
    lemma_mod_offset(c.x as int, s, s / 2);
    lemma_mod_offset(c.y as int, s, s / 2);
}

/// The hypotenuse midpoint of a triangle of odd shape lies half a step off
/// the `s` grid in one coordinate and on it in the other.
proof fn lemma_odd_midpoint(t: TriangleU32, s: int)
    requires
        odd_shape(t, s),
        s >= 2,
        s % 2 == 0,
    ensures
        ({
            let m = midpoint(t.0, t.1);
            (m.x as int % s == s / 2 && m.y as int % s == 0) || (m.x as int % s == 0 && m.y as int
                % s == s / 2)
        }),
{
    let (a, b, c) = t;
    lemma_mod_offset(a.x as int, s, s / 2);
    lemma_mod_offset(a.y as int, s, s / 2);
}

/// A residue modulo `2^f` that is itself a multiple of `2^e`, with `e <= f`,
/// makes the number a multiple of `2^e`.
proof fn lemma_residue_multiple(x: int, e: nat, f: nat, r: int)
    requires
        e <= f,
        x % (pow2(f) as int) == r,
        r % (pow2(e) as int) == 0,
    ensures
        x % (pow2(e) as int) == 0,
{
    lemma_pow2_pos(e);
    lemma_pow2_pos(f);
    lemma_pow2_adds(e, (f - e) as nat);
    let pe = pow2(e) as int;
    let pf = pow2(f) as int;
    let d = pow2((f - e) as nat) as int;
    lemma_fundamental_div_mod(x, pf);
    let q = x / pf;
    assert(x == pe * (d * q) + r) by (nonlinear_arith)
        requires
            x == pf * q + r,
            pf == pe * d,
    ;
    lemma_mod_multiples_vanish(d * q, r, pe);
}

/// `2^(f - 1)` is a multiple of `2^e` when `e < f`.
proof fn lemma_half_power_multiple(e: nat, f: nat)
    requires
        e < f,
    ensures
        (pow2((f - 1) as nat) as int) % (pow2(e) as int) == 0,
{
    lemma_pow2_pos(e);
    lemma_pow2_adds(e, (f - 1 - e) as nat);
    lemma_mod_multiples_basic(pow2((f - 1 - e) as nat) as int, pow2(e) as int);
    assert(pow2((f - 1 - e) as nat) as int * pow2(e) as int == pow2((f - 1) as nat) as int) by (
    nonlinear_arith)
        requires
            pow2((f - 1) as nat) == pow2(e) * pow2((f - 1 - e) as nat),
    ;
}

/// A number has residue `2^(e - 1)` modulo `2^e` for at most one `e`.
proof fn lemma_half_residue_unique(x: int, e: nat, f: nat)
    requires
        e >= 1,
        f >= 1,
        x % (pow2(e) as int) == pow2((e - 1) as nat),
        x % (pow2(f) as int) == pow2((f - 1) as nat),
    ensures
        e == f,
{
    lemma_pow2_pos((e - 1) as nat);
    lemma_pow2_pos((f - 1) as nat);
    if e < f {
        lemma_half_power_multiple(e, f);
        lemma_residue_multiple(x, e, f, pow2((f - 1) as nat) as int);
    } else if f < e {
        lemma_half_power_multiple(f, e);
        lemma_residue_multiple(x, f, e, pow2((e - 1) as nat) as int);
    }
}

/// A number with residue `2^(e - 1)` modulo `2^e` is a multiple of `2^f`
/// only for `f < e`.
proof fn lemma_half_residue_multiple(x: int, e: nat, f: nat)
    requires
        e >= 1,
        x % (pow2(e) as int) == pow2((e - 1) as nat),
        x % (pow2(f) as int) == 0,
    ensures
        f < e,
{
    lemma_pow2_pos((e - 1) as nat);
    lemma_pow2_pos(e);
    if f >= e {
        lemma_small_mod(0, pow2(e));
        lemma_residue_multiple(x, e, f, 0);
    }
}

/// `x` is half a step of `2^e` off the `2^e` grid.
pub open spec fn half_off(x: u32, e: nat) -> bool {
    x as int % (pow2(e) as int) == pow2((e - 1) as nat)
}

/// `x` is on the `2^e` grid.
pub open spec fn on_line(x: u32, e: nat) -> bool {
    x as int % (pow2(e) as int) == 0
}

/// Where the hypotenuse midpoint of a triangle of step `2^e` lies: half a
/// step off the grid in both coordinates for legs along the axes (`odd`
/// false), in exactly one for a hypotenuse along an axis (`odd` true).
pub open spec fn midpoint_class(m: Vec2u32, e: nat, odd: bool) -> bool {
    if !odd {
        half_off(m.x, e) && half_off(m.y, e)
    } else {
        (half_off(m.x, e) && on_line(m.y, e)) || (on_line(m.x, e) && half_off(m.y, e))
    }
}

proof fn lemma_midpoint_class_unique(m: Vec2u32, e1: nat, odd1: bool, e2: nat, odd2: bool)
    requires
        e1 >= 1,
        e2 >= 1,
        midpoint_class(m, e1, odd1),
        midpoint_class(m, e2, odd2),
    ensures
        e1 == e2,
        odd1 == odd2,
{
    let x = m.x as int;
    let y = m.y as int;
    if half_off(m.x, e1) && half_off(m.x, e2) {
        lemma_half_residue_unique(x, e1, e2);
    }
    if half_off(m.y, e1) && half_off(m.y, e2) {
        lemma_half_residue_unique(y, e1, e2);
    }
    if half_off(m.x, e1) && on_line(m.x, e2) {
        lemma_half_residue_multiple(x, e1, e2);
    }
    if half_off(m.x, e2) && on_line(m.x, e1) {
        lemma_half_residue_multiple(x, e2, e1);
    }
    if half_off(m.y, e1) && on_line(m.y, e2) {
        lemma_half_residue_multiple(y, e1, e2);
    }
    if half_off(m.y, e2) && on_line(m.y, e1) {
        lemma_half_residue_multiple(y, e2, e1);
    }
}

/// The hypotenuse midpoint of a triangle at level `n < 2k` below roots of
/// side `2^k` is in the class of step `2^(k - n / 2)` and the parity of `n`.
proof fn lemma_triangle_midpoint_class(bin_id: u32, k: nat, grid_size: u32)
    requires
        0 <= level_of(bin_id) < 2 * k,
        grid_size == pow2(k) + 1,
    ensures
        midpoint_class(
            triangle_midpoint(bin_id, grid_size),
            (k - level_of(bin_id) / 2) as nat,
            level_of(bin_id) % 2 == 1,
        ),
{
    let n = level_of(bin_id) as nat;
    let steps = partition_steps(bin_id);
    lemma_partition_steps_descent(bin_id);
    lemma_prefix_shape(steps, n, k, grid_size);
    assert(steps.take(n as int + 1) =~= steps);
    let t = triangle_coords(bin_id, grid_size);
    let e = (k - n / 2) as nat;
    lemma_pow2_unfold(e);
    lemma_pow2_pos((e - 1) as nat);
    if n % 2 == 0 {
        lemma_even_midpoint(t, pow2(e) as int);
    } else {
        lemma_odd_midpoint(t, pow2(e) as int);
    }
}

/// Above the finest level, triangles whose hypotenuse midpoints coincide are
/// on the same level: the error slots of different levels never meet.
pub proof fn lemma_midpoint_determines_level(h: HeightMapU16, b1: u32, b2: u32)
    requires
        valid_rtin_heightmap(h),
        0 <= level_of(b1) < levels_of(h),
        0 <= level_of(b2) < levels_of(h),
        triangle_midpoint(b1, grid_size_of(h)) == triangle_midpoint(b2, grid_size_of(h)),
    ensures
        level_of(b1) == level_of(b2),
{
    let k = side_log2(h.width);
    lemma_side_log2(h.width);
    lemma_triangle_midpoint_class(b1, k, grid_size_of(h));
    lemma_triangle_midpoint_class(b2, k, grid_size_of(h));
    lemma_midpoint_class_unique(
        triangle_midpoint(b1, grid_size_of(h)),
        (k - level_of(b1) / 2) as nat,
        level_of(b1) % 2 == 1,
        (k - level_of(b2) / 2) as nat,
        level_of(b2) % 2 == 1,
    );
}

} // verus!
