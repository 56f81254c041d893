//! The implicit binary triangle tree: identifiers, levels, dense indices,
//! children, and the lattice corners of each triangle.

use vstd::prelude::*;

verus! {

use vstd::arithmetic::power2::{pow2, lemma_pow2_unfold, lemma_pow2_strictly_increases, lemma2_to64};
use vstd::bits::{lemma_u32_shl_is_mul, lemma_u32_shr_is_div, lemma_u32_pow2_no_overflow};
use vstd::std_specs::bits::{u32_leading_zeros, axiom_u32_leading_zeros};

/// A triangle of the tree, written as its path from the root with a
/// leading sentinel bit.
pub type BinId = u32;

/// 1-based position of the highest set bit of `x`, 0 when `x` is 0.
pub open spec fn msb_position(x: u32) -> u32 {
    (32 - u32_leading_zeros(x)) as u32
}

/// Depth of a triangle in the tree; the two roots are at level 0.
pub open spec fn level_of(bin_id: u32) -> int {
    msb_position(bin_id) - 2
}

/// Dense index of the first triangle of `level`.
pub open spec fn level_start(level: nat) -> int {
    pow2(level + 1) - 2
}

/// Dense breadth-first index of a triangle: the first index of its level
/// plus its place within the level.
pub open spec fn dense_index(bin_id: u32) -> int {
    level_start(level_of(bin_id) as nat) + (bin_id - pow2((level_of(bin_id) + 1) as nat))
}

/// The dense index of a triangle is its identifier less 2.
pub proof fn lemma_dense_index(bin_id: u32)
    requires
        bin_id >= 2,
    ensures
        dense_index(bin_id) == bin_id - 2,
{
    lemma_msb_position(bin_id);
    lemma2_to64();
    if msb_position(bin_id) < 2 {
        assert(bin_id < 2);
    }
}

/// Going from a dense index to its triangle and back gives the index again.
pub proof fn lemma_index_round_trip(index: u32)
    requires
        index <= u32::MAX - 2,
    ensures
        dense_index((index + 2) as u32) == index,
{
    lemma_dense_index((index + 2) as u32);
}

/// Going from a triangle to its dense index and back gives the triangle again.
pub proof fn lemma_bin_id_round_trip(bin_id: u32)
    requires
        bin_id >= 2,
    ensures
        dense_index(bin_id) + 2 == bin_id,
{
    lemma_dense_index(bin_id);
}

/// Relies on bitintr's `Lzcnt::lzcnt` for `u32`, which returns the number of
/// leading zero bits (`u32::leading_zeros`), 32 for zero.
#[verifier::external_body]
fn lzcnt(x: u32) -> (r: u32)
    ensures
        r == u32_leading_zeros(x),
{
    bitintr::Lzcnt::lzcnt(x)
}

/// The top set bit of a nonzero word bounds it between two powers of two.
pub proof fn lemma_msb_position(x: u32)
    requires
        x != 0,
    ensures
        1 <= msb_position(x) <= 32,
        x >> ((msb_position(x) - 1) as u32) == 1,
        pow2((msb_position(x) - 1) as nat) <= x < pow2(msb_position(x) as nat),
{
    axiom_u32_leading_zeros(x);
    let lz = u32_leading_zeros(x);
    let k: u32 = (31 - lz) as u32;
    assert(lz < 32);
    assert((x >> k) & 1u32 != 0u32 && x >> ((k + 1) as u32) == 0 && k < 32 ==> x >> k == 1)
        by (bit_vector);
    lemma_u32_shr_is_div(x, k);
    let d = pow2(k as nat);
    vstd::arithmetic::power2::lemma_pow2_pos(k as nat);
    vstd::arithmetic::div_mod::lemma_fundamental_div_mod(x as int, d as int);
    lemma_pow2_unfold((k + 1) as nat);
}

/// Position of the highest set bit.
pub trait MSBScan {
    spec fn msbscan_spec(self) -> Self;

    /// Returns the 1-based position of the most significant set bit,
    /// counted from the least significant end; 0 when no bit is set.
    fn msbscan(self) -> (r: Self)
        ensures
            r == self.msbscan_spec(),
    ;
}

impl MSBScan for u32 {
    open spec fn msbscan_spec(self) -> u32 {
        msb_position(self)
    }

    fn msbscan(self) -> (r: u32) {
        proof {
            axiom_u32_leading_zeros(self);
        }
        32 - lzcnt(self)
    }
}

/// Facts on `1 << n` for the shift amounts used by the tree arithmetic.
pub proof fn lemma_shl_one(n: u32)
    requires
        n < 32,
    ensures
        (1u32 << n) == pow2(n as nat),
        pow2(n as nat) <= 0x8000_0000,
{
    lemma_u32_pow2_no_overflow(n as nat);
    if n < 31 {
        lemma_pow2_strictly_increases(n as nat, 31);
    }
    lemma2_to64();
    lemma_u32_shl_is_mul(1u32, n);
}

/// Returns the dense index of the first triangle of a given level.
pub fn get_index_level_start(level: u32) -> (r: u32)
    requires
        level < 31,
    ensures
        r == level_start(level as nat),
{
    proof {
        lemma_u32_pow2_no_overflow((level + 1) as nat);
        lemma_pow2_unfold((level + 1) as nat);
        lemma_u32_shl_is_mul(2u32, level);
        assert(level < 31 ==> (2u32 << level) >= 2 && ((2u32 << level) - 1) as u32 & !1u32 == (
        2u32 << level) - 2) by (bit_vector);
    }
    ((2u32 << level) - 1) & (!1u32)
}

/// Returns the index of a triangle relative to the first triangle of its level.
pub fn bin_id_to_index_in_level(bin_id: u32) -> (r: u32)
    requires
        bin_id >= 1,
    ensures
        r == bin_id - pow2((msb_position(bin_id) - 1) as nat),
{
    proof {
        lemma_msb_position(bin_id);
        lemma_shl_one((msb_position(bin_id) - 1) as u32);
    }
    bin_id - (1u32 << (bin_id.msbscan() - 1))
}

/// Returns the level of a triangle.
pub fn bin_id_to_level(bin_id: u32) -> (r: u32)
    requires
        bin_id >= 2,
    ensures
        r == level_of(bin_id),
        r <= 30,
        pow2(r as nat + 1) <= bin_id < pow2(r as nat + 2),
{
    proof {
        lemma_msb_position(bin_id);
        if msb_position(bin_id) < 2 {
            lemma2_to64();
        }
    }
    bin_id.msbscan() - 2
}

/// Returns the dense breadth-first index of a triangle: the triangles of
/// level 0 come first, then those of level 1, and so on.
pub fn bin_id_to_index(bin_id: u32) -> (r: u32)
    requires
        bin_id >= 2,
    ensures
        r == bin_id - 2,
        r == dense_index(bin_id),
{
    proof {
        lemma_dense_index(bin_id);
    }
    let level = bin_id_to_level(bin_id);
    let index_level_start = get_index_level_start(level);
    let index_in_level = bin_id_to_index_in_level(bin_id);
    index_level_start + index_in_level
}

/// Returns the triangle at a dense breadth-first index.
pub fn index_to_bin_id(index: u32) -> (r: u32)
    requires
        index <= u32::MAX - 2,
    ensures
        r == index + 2,
        dense_index(r) == index,
{
    proof {
        lemma_index_round_trip(index);
    }
    let mut level: u32 = 0;
    let mut index_level_start: u32 = 0;
    let mut i: u32 = 0;
    proof {
        lemma2_to64();
    }
    while i < 31
        invariant
            i <= 31,
            level <= 30,
            index_level_start == level_start(level as nat),
            index_level_start <= index,
        decreases 31 - i,
    {
        let new_index_level_start = get_index_level_start(i);
        if index >= new_index_level_start {
            level = i;
            index_level_start = new_index_level_start;
        } else {
            break;
        }
        i = i + 1;
    }
    proof {
        lemma_shl_one((level + 1) as u32);
    }
    (1u32 << (level + 1)) + (index - index_level_start)
}

/// The child of `bin_id` on the right of its hypotenuse midpoint.
pub open spec fn right_child(bin_id: u32) -> int {
    bin_id + pow2((level_of(bin_id) + 1) as nat)
}

/// The child of `bin_id` on the left of its hypotenuse midpoint.
pub open spec fn left_child(bin_id: u32) -> int {
    bin_id + pow2((level_of(bin_id) + 2) as nat)
}

/// Returns the identifiers of the two children of a triangle, right first.
pub fn get_triangle_children_bin_ids(bin_id: u32) -> (r: (u32, u32))
    requires
        bin_id >= 2,
        level_of(bin_id) <= 29,
    ensures
        r.0 == right_child(bin_id),
        r.1 == left_child(bin_id),
{
    let level = bin_id_to_level(bin_id);
    proof {
        lemma_shl_one((level + 1) as u32);
        lemma_shl_one((level + 2) as u32);
        lemma_pow2_unfold(level as nat + 2);
    }
    let right_bin_id = bin_id + (1u32 << (level + 2)) - (1u32 << (level + 1));
    let left_bin_id = bin_id + (1u32 << (level + 2));
    (right_bin_id, left_bin_id)
}

/// Returns the dense indices of the two children of a triangle, right first.
pub fn get_triangle_children_indices(bin_id: u32) -> (r: (u32, u32))
    requires
        bin_id >= 2,
        level_of(bin_id) <= 29,
    ensures
        r.0 == right_child(bin_id) - 2,
        r.1 == left_child(bin_id) - 2,
{
    let (right_bin_id, left_bin_id) = get_triangle_children_bin_ids(bin_id);
    (bin_id_to_index(right_bin_id), bin_id_to_index(left_bin_id))
}

/// One step of the descent from the root to a triangle.
#[derive(Clone, Copy, Debug, PartialEq, Eq, Structural)]
pub enum PartitionStep {
    TopRight,
    BottomLeft,
    Left,
    Right,
}

/// Step `j` of the descent to `bin_id`: the root is chosen by bit 0, and
/// bit `j` chooses the left (1) or right (0) child at depth `j`.
pub open spec fn step_at(bin_id: u32, j: int) -> PartitionStep {
    if j == 0 {
        if bin_id & 1 == 1 {
            PartitionStep::TopRight
        } else {
            PartitionStep::BottomLeft
        }
    } else if (bin_id >> (j as u32)) & 1 == 1 {
        PartitionStep::Left
    } else {
        PartitionStep::Right
    }
}

/// The whole descent to `bin_id`, root step first.
pub open spec fn partition_steps(bin_id: u32) -> Seq<PartitionStep> {
    Seq::new((level_of(bin_id) + 1) as nat, |j: int| step_at(bin_id, j))
}

/// Decodes the descent from the root to a triangle, root step first.
pub fn bin_id_to_partition_steps(bin_id: u32) -> (r: Vec<PartitionStep>)
    requires
        bin_id >= 2,
    ensures
        r@ == partition_steps(bin_id),
{
    let mut steps: Vec<PartitionStep> = Vec::new();
    let triangle_level = bin_id_to_level(bin_id);
    if bin_id & 1 == 1 {
        steps.push(PartitionStep::TopRight);
    } else {
        steps.push(PartitionStep::BottomLeft);
    }
    let mut i: u32 = 1;
    while i <= triangle_level
        invariant
            1 <= i <= triangle_level + 1,
            triangle_level <= 30,
            triangle_level == level_of(bin_id),
            steps@.len() == i,
            forall|j: int| 0 <= j < i ==> steps@[j] == step_at(bin_id, j),
        decreases triangle_level + 1 - i,
    {
        if (bin_id >> i) & 1 == 1 {
            steps.push(PartitionStep::Left);
        } else {
            steps.push(PartitionStep::Right);
        }
        i = i + 1;
    }
    assert(steps@ =~= partition_steps(bin_id));
    steps
}

/// A point of the vertex lattice.
#[derive(Clone, Copy, Debug, PartialEq, Eq, Structural)]
pub struct Vec2u32 {
    pub x: u32,
    pub y: u32,
}

impl Vec2u32 {
    pub fn new(x: u32, y: u32) -> (r: Vec2u32)
        ensures
            r == (Vec2u32 { x, y }),
    {
        Vec2u32 { x, y }
    }
}

/// The corners (A, B, C) of a triangle: C is the right-angle corner, A and
/// B end the hypotenuse, and A, B, C run clockwise with y pointing down.
pub type TriangleU32 = (Vec2u32, Vec2u32, Vec2u32);

/// The lattice point halfway between `a` and `b`.
pub open spec fn midpoint(a: Vec2u32, b: Vec2u32) -> Vec2u32 {
    Vec2u32 { x: ((a.x + b.x) / 2) as u32, y: ((a.y + b.y) / 2) as u32 }
}

/// The corners after one step of the descent, on a lattice of side `grid_size`.
pub open spec fn apply_step(t: TriangleU32, step: PartitionStep, grid_size: u32) -> TriangleU32 {
    let e = (grid_size - 1) as u32;
    match step {
        PartitionStep::TopRight => (
            Vec2u32 { x: 0, y: 0 },
            Vec2u32 { x: e, y: e },
            Vec2u32 { x: e, y: 0 },
        ),
        PartitionStep::BottomLeft => (
            Vec2u32 { x: e, y: e },
            Vec2u32 { x: 0, y: 0 },
            Vec2u32 { x: 0, y: e },
        ),
        PartitionStep::Left => (t.2, t.0, midpoint(t.0, t.1)),
        PartitionStep::Right => (t.1, t.2, midpoint(t.0, t.1)),
    }
}

/// The corners reached by a sequence of steps taken from the origin.
pub open spec fn corners_of_steps(steps: Seq<PartitionStep>, grid_size: u32) -> TriangleU32
    decreases steps.len(),
{
    if steps.len() == 0 {
        (Vec2u32 { x: 0, y: 0 }, Vec2u32 { x: 0, y: 0 }, Vec2u32 { x: 0, y: 0 })
    } else {
        apply_step(corners_of_steps(steps.drop_last(), grid_size), steps.last(), grid_size)
    }
}

/// The corners of triangle `bin_id` on a lattice of side `grid_size`.
pub open spec fn triangle_coords(bin_id: u32, grid_size: u32) -> TriangleU32 {
    corners_of_steps(partition_steps(bin_id), grid_size)
}

/// The hypotenuse midpoint of triangle `bin_id`.
pub open spec fn triangle_midpoint(bin_id: u32, grid_size: u32) -> Vec2u32 {
    midpoint(triangle_coords(bin_id, grid_size).0, triangle_coords(bin_id, grid_size).1)
}

pub open spec fn point_in_grid(p: Vec2u32, grid_size: u32) -> bool {
    p.x < grid_size && p.y < grid_size
}

pub open spec fn triangle_in_grid(t: TriangleU32, grid_size: u32) -> bool {
    point_in_grid(t.0, grid_size) && point_in_grid(t.1, grid_size) && point_in_grid(t.2, grid_size)
}

/// Every step keeps the corners on the lattice.
pub proof fn lemma_corners_in_grid(steps: Seq<PartitionStep>, grid_size: u32)
    requires
        grid_size >= 1,
    ensures
        triangle_in_grid(corners_of_steps(steps, grid_size), grid_size),
    decreases steps.len(),
{
    if steps.len() > 0 {
        lemma_corners_in_grid(steps.drop_last(), grid_size);
    }
}

/// Returns the corners of a triangle on a lattice of side `grid_size`.
pub fn get_triangle_coords(bin_id: u32, grid_size: u32) -> (r: TriangleU32)
    requires
        bin_id >= 2,
        1 <= grid_size <= 0x8000_0000,
    ensures
        r == triangle_coords(bin_id, grid_size),
        triangle_in_grid(r, grid_size),
{
    let mut a = Vec2u32::new(0, 0);
    let mut b = Vec2u32::new(0, 0);
    let mut c = Vec2u32::new(0, 0);
    let steps = bin_id_to_partition_steps(bin_id);
    let mut k: usize = 0;
    while k < steps.len()
        invariant
            0 <= k <= steps@.len(),
            steps@ == partition_steps(bin_id),
            1 <= grid_size <= 0x8000_0000,
            (a, b, c) == corners_of_steps(steps@.take(k as int), grid_size),
        decreases steps@.len() - k,
    {
        proof {
            assert(steps@.take(k + 1).drop_last() =~= steps@.take(k as int));
            lemma_corners_in_grid(steps@.take(k as int), grid_size);
        }
        match steps[k] {
            PartitionStep::TopRight => {
                a = Vec2u32::new(0, 0);
                b = Vec2u32::new(grid_size - 1, grid_size - 1);
                c = Vec2u32::new(grid_size - 1, 0);
            },
            PartitionStep::BottomLeft => {
                a = Vec2u32::new(grid_size - 1, grid_size - 1);
                b = Vec2u32::new(0, 0);
                c = Vec2u32::new(0, grid_size - 1);
            },
            PartitionStep::Left => {
                let m = Vec2u32::new((a.x + b.x) / 2, (a.y + b.y) / 2);
                b = a;
                a = c;
                c = m;
            },
            PartitionStep::Right => {
                let m = Vec2u32::new((a.x + b.x) / 2, (a.y + b.y) / 2);
                a = b;
                b = c;
                c = m;
            },
        }
        k = k + 1;
    }
    proof {
        assert(steps@.take(k as int) =~= steps@);
        lemma_corners_in_grid(steps@, grid_size);
    }
    (a, b, c)
}

/// Returns the lattice point halfway along the hypotenuse of a triangle.
pub fn pixel_coords_for_triangle_mid_point(bin_id: u32, grid_size: u32) -> (r: Vec2u32)
    requires
        bin_id >= 2,
        1 <= grid_size <= 0x8000_0000,
    ensures
        r == triangle_midpoint(bin_id, grid_size),
        point_in_grid(r, grid_size),
{
    let triangle_coords = get_triangle_coords(bin_id, grid_size);
    Vec2u32::new(
        (triangle_coords.0.x + triangle_coords.1.x) / 2,
        (triangle_coords.0.y + triangle_coords.1.y) / 2,
    )
}

/// A word whose bits above `p` read 1 has its top set bit at `p`.
pub proof fn lemma_msb_at(x: u32, p: u32)
    requires
        p < 32,
        x >> p == 1,
    ensures
        msb_position(x) == p + 1,
{
    assert(x >> p == 1 ==> x != 0) by (bit_vector);
    lemma_msb_position(x);
    let q = (msb_position(x) - 1) as u32;
    assert(x >> p == 1 && x >> q == 1 && p < 32 && q < 32 ==> p == q) by (bit_vector);
}

/// The descent to a child is the descent to its parent followed by one step,
/// `Right` for the right child and `Left` for the left child.
pub proof fn lemma_child_steps(bin_id: u32)
    requires
        bin_id >= 2,
        level_of(bin_id) <= 29,
    ensures
        right_child(bin_id) <= u32::MAX,
        left_child(bin_id) <= u32::MAX,
        level_of(right_child(bin_id) as u32) == level_of(bin_id) + 1,
        level_of(left_child(bin_id) as u32) == level_of(bin_id) + 1,
        partition_steps(right_child(bin_id) as u32) == partition_steps(bin_id).push(
            PartitionStep::Right,
        ),
        partition_steps(left_child(bin_id) as u32) == partition_steps(bin_id).push(
            PartitionStep::Left,
        ),
{
    let b = bin_id;
    lemma_msb_position(b);
    lemma2_to64();
    assert(level_of(b) >= 0);
    let l = level_of(b) as u32;
    let l1 = (l + 1) as u32;
    let l2 = (l + 2) as u32;
    lemma_shl_one(l1);
    lemma_shl_one(l2);
    lemma_pow2_unfold(l as nat + 2);
    let rc = (b + (1u32 << (l + 1))) as u32;
    let lc = (b + (1u32 << (l + 2))) as u32;
    assert(rc == right_child(b));
    assert(lc == left_child(b));
    assert(b >> (l + 1) == 1 && l <= 29 ==> ((b + (1u32 << (l + 1))) as u32) >> (l + 2) == 1)
        by (bit_vector);
    assert(b >> (l + 1) == 1 && l <= 29 ==> ((b + (1u32 << (l + 2))) as u32) >> (l + 2) == 1)
        by (bit_vector);
    lemma_msb_at(rc, l2);
    lemma_msb_at(lc, l2);
    assert(b >> (l + 1) == 1 && l <= 29 ==> ((b + (1u32 << (l + 1))) as u32) & 1 == b & 1)
        by (bit_vector);
    assert(b >> (l + 1) == 1 && l <= 29 ==> ((b + (1u32 << (l + 2))) as u32) & 1 == b & 1)
        by (bit_vector);
    assert(b >> (l + 1) == 1 && l <= 29 ==> (((b + (1u32 << (l + 1))) as u32) >> (l + 1)) & 1
        == 0) by (bit_vector);
    assert(b >> (l + 1) == 1 && l <= 29 ==> (((b + (1u32 << (l + 2))) as u32) >> (l + 1)) & 1
        == 1) by (bit_vector);
    assert forall|j: u32| 1 <= j <= l implies (rc >> j) & 1 == (b >> j) & 1 && (lc >> j) & 1 == (b
        >> j) & 1 by {
        assert(b >> (l + 1) == 1 && l <= 29 && j <= l ==> (((b + (1u32 << (l + 1))) as u32) >> j)
            & 1 == (b >> j) & 1) by (bit_vector);
        assert(b >> (l + 1) == 1 && l <= 29 && j <= l ==> (((b + (1u32 << (l + 2))) as u32) >> j)
            & 1 == (b >> j) & 1) by (bit_vector);
    }
    assert forall|j: int| 0 <= j <= l implies step_at(rc, j) == step_at(b, j) && step_at(lc, j)
        == step_at(b, j) by {
        if j > 0 {
            assert((rc >> (j as u32)) & 1 == (b >> (j as u32)) & 1);
            assert((lc >> (j as u32)) & 1 == (b >> (j as u32)) & 1);
        }
    }
    assert(partition_steps(rc) =~= partition_steps(b).push(PartitionStep::Right));
    assert(partition_steps(lc) =~= partition_steps(b).push(PartitionStep::Left));
}

/// Splitting a triangle goes one level down, and both children have their
/// right-angle corner at the parent's hypotenuse midpoint.
pub proof fn lemma_children_split_at_midpoint(bin_id: u32, grid_size: u32)
    requires
        bin_id >= 2,
        level_of(bin_id) <= 29,
        1 <= grid_size <= 0x8000_0000,
    ensures
        level_of(right_child(bin_id) as u32) == level_of(bin_id) + 1,
        level_of(left_child(bin_id) as u32) == level_of(bin_id) + 1,
        triangle_coords(right_child(bin_id) as u32, grid_size).2 == triangle_midpoint(
            bin_id,
            grid_size,
        ),
        triangle_coords(left_child(bin_id) as u32, grid_size).2 == triangle_midpoint(
            bin_id,
            grid_size,
        ),
{
    lemma_child_steps(bin_id);
    let steps = partition_steps(bin_id);
    assert(steps.push(PartitionStep::Right).drop_last() =~= steps);
    assert(steps.push(PartitionStep::Left).drop_last() =~= steps);
}

} // verus!
