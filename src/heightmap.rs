//! Square grayscale heightmaps of 16-bit samples and their clamped sampling.

use vstd::prelude::*;

verus! {

use crate::rtin::{Vec2u32, msb_position, lemma_msb_position};
use vstd::arithmetic::power2::{pow2, lemma2_to64, lemma_pow2_strictly_increases};
use vstd::bits::{lemma_u32_shl_is_mul, lemma_u32_pow2_no_overflow};

/// A row-major grid of `width * height` samples.
pub struct HeightMapU16 {
    pub width: u32,
    pub height: u32,
    pub data: Vec<u16>,
}

/// The largest side accepted: with it every triangle of the finest level
/// and its children still have a `u32` identifier.
pub const MAX_SIDE: u32 = 0x4000;

/// `x` is `2^k` for some `k`.
pub open spec fn is_power_of_two(x: u32) -> bool {
    exists|k: u32| k < 32 && x == (1u32 << k)
}

/// The exponent `k` of a side `2^k`.
pub open spec fn side_log2(side: u32) -> nat {
    (msb_position(side) - 1) as nat
}

/// The heightmaps that the triangulation is defined on: square, with a side
/// that is a power of two between 2 and `MAX_SIDE`.
pub open spec fn valid_rtin_heightmap(h: HeightMapU16) -> bool {
    &&& h.wf()
    &&& h.width == h.height
    &&& is_power_of_two(h.width)
    &&& 2 <= h.width <= MAX_SIDE
}

impl HeightMapU16 {
    pub open spec fn wf(self) -> bool {
        self.data@.len() == self.width * self.height
    }

    /// The sample at column `x` and row `y`.
    pub open spec fn pixel(self, x: int, y: int) -> u16 {
        self.data@[y * self.width + x]
    }

    /// Wraps `data` as a `width` by `height` heightmap, or returns `None`
    /// when it does not hold exactly `width * height` samples.
    pub fn from_vec(width: u32, height: u32, data: Vec<u16>) -> (r: Option<HeightMapU16>)
        ensures
            r is Some <==> data@.len() == width * height,
            r is Some ==> r->0.width == width && r->0.height == height && r->0.data@ == data@,
    {
        proof {
            assert(width * height <= u64::MAX) by (nonlinear_arith)
                requires
                    width <= u32::MAX,
                    height <= u32::MAX,
            ;
        }
        let n: u64 = width as u64 * height as u64;
        if data.len() as u64 == n {
            Some(HeightMapU16 { width, height, data })
        } else {
            None
        }
    }

    pub fn width(&self) -> (r: u32)
        ensures
            r == self.width,
    {
        self.width
    }

    pub fn height(&self) -> (r: u32)
        ensures
            r == self.height,
    {
        self.height
    }

    /// Returns the sample at column `x` and row `y`.
    pub fn get_pixel(&self, x: u32, y: u32) -> (r: u16)
        requires
            self.wf(),
            x < self.width,
            y < self.height,
        ensures
            r == self.pixel(x as int, y as int),
    {
        let n_samples = self.data.len();
        proof {
            assert(n_samples == self.data@.len());
            assert(0 <= y * self.width && y * self.width + x < self.width * self.height) by (nonlinear_arith)
                requires
                    x < self.width,
                    y < self.height,
            ;
        }
        self.data[y as usize * self.width as usize + x as usize]
    }
}

/// The corner clamped into the pixel range, so that the lattice's last row
/// and column read the heightmap's edge.
pub open spec fn clamp_corner(h: HeightMapU16, c: Vec2u32) -> Vec2u32 {
    Vec2u32 {
        x: if c.x >= h.width { (h.width - 1) as u32 } else { c.x },
        y: if c.y >= h.height { (h.height - 1) as u32 } else { c.y },
    }
}

/// The raw sample under lattice corner `c`.
pub open spec fn sample(h: HeightMapU16, c: Vec2u32) -> u16 {
    h.pixel(clamp_corner(h, c).x as int, clamp_corner(h, c).y as int)
}

/// Returns whether `x` is a power of two.
pub fn is_power_of_2(x: u32) -> (r: bool)
    ensures
        r == is_power_of_two(x),
{
    if x == 0 {
        proof {
            assert forall|k: u32| k < 32 implies x != (1u32 << k) by {
                assert(k < 32 ==> (1u32 << k) != 0) by (bit_vector);
            }
        }
        return false;
    }
    let r = (x & (x - 1)) == 0;
    proof {
        lemma_msb_position(x);
        let p = (msb_position(x) - 1) as u32;
        if r {
            assert(x != 0 && x & ((x - 1) as u32) == 0 && p < 32 && x >> p == 1 ==> x == (1u32
                << p)) by (bit_vector);
        } else {
            assert forall|k: u32| k < 32 implies x != (1u32 << k) by {
                assert(k < 32 && x == (1u32 << k) ==> x & ((x - 1) as u32) == 0) by (bit_vector);
            }
        }
    }
    r
}

/// A power-of-two side is `2^side_log2(side)`.
pub proof fn lemma_side_log2(side: u32)
    requires
        is_power_of_two(side),
        2 <= side <= MAX_SIDE,
    ensures
        1 <= side_log2(side) <= 14,
        side == pow2(side_log2(side)),
{
    let k = choose|k: u32| k < 32 && side == (1u32 << k);
    assert(k < 32 ==> (1u32 << k) >> k == 1) by (bit_vector);
    lemma_msb_position(side);
    let p = (msb_position(side) - 1) as u32;
    assert(side >> p == 1 && side >> k == 1 && p < 32 && k < 32 ==> p == k) by (bit_vector);
    lemma_u32_pow2_no_overflow(k as nat);
    lemma_u32_shl_is_mul(1u32, k);
    lemma2_to64();
    if k > 14 {
        lemma_pow2_strictly_increases(14, k as nat);
    }
}

/// Returns the exponent `k` of a side `2^k`.
pub fn log_2(x: u32) -> (r: u32)
    requires
        x != 0,
    ensures
        r == msb_position(x) - 1,
{
    proof {
        lemma_msb_position(x);
    }
    32 - x.leading_zeros() - 1
}

/// Returns the raw sample under a lattice corner; corners on the last row or
/// column read the edge of the heightmap.
pub fn sample_heightmap_height_corner_mean(heightmap: &HeightMapU16, corner_u32: Vec2u32) -> (r: u16)
    requires
        heightmap.wf(),
        heightmap.width >= 1,
        heightmap.height >= 1,
    ensures
        r == sample(*heightmap, corner_u32),
{
    let mut new_corner = corner_u32;
    if new_corner.x >= heightmap.width() {
        new_corner.x = heightmap.width() - 1;
    }
    if new_corner.y >= heightmap.height() {
        new_corner.y = heightmap.height() - 1;
    }
    heightmap.get_pixel(new_corner.x, new_corner.y)
}

/// Why a heightmap cannot be triangulated.
#[derive(Clone, Copy, Debug, PartialEq, Eq, Structural)]
pub enum RtinError {
    /// The sample buffer does not hold `width * height` samples.
    SampleCountMismatch,
    /// Width and height differ.
    NotSquare,
    /// The side is not a power of two.
    SideNotPowerOfTwo,
    /// The side is below 2.
    SideTooSmall,
    /// The side is above `MAX_SIDE`.
    SideTooLarge,
}

/// The first reason, in the order checked, why `h` cannot be triangulated.
pub open spec fn heightmap_error(h: HeightMapU16) -> Option<RtinError> {
    if !h.wf() {
        Some(RtinError::SampleCountMismatch)
    } else if h.width != h.height {
        Some(RtinError::NotSquare)
    } else if !is_power_of_two(h.width) {
        Some(RtinError::SideNotPowerOfTwo)
    } else if h.width < 2 {
        Some(RtinError::SideTooSmall)
    } else if h.width > MAX_SIDE {
        Some(RtinError::SideTooLarge)
    } else {
        None
    }
}

/// Checks that a heightmap can be triangulated: its buffer matches its
/// size, it is square, and its side is a power of two from 2 to `MAX_SIDE`.
pub fn assert_valid_rtin_heightmap(heightmap: &HeightMapU16) -> (r: Result<(), RtinError>)
    ensures
        r is Ok <==> valid_rtin_heightmap(*heightmap),
        r is Ok <==> heightmap_error(*heightmap) is None,
        r is Err ==> r == Err::<(), RtinError>(heightmap_error(*heightmap)->0),
{
    proof {
        assert(heightmap.width * heightmap.height <= u64::MAX) by (nonlinear_arith)
            requires
                heightmap.width <= u32::MAX,
                heightmap.height <= u32::MAX,
        ;
    }
    let n: u64 = heightmap.width as u64 * heightmap.height as u64;
    if heightmap.data.len() as u64 != n {
        return Err(RtinError::SampleCountMismatch);
    }
    if heightmap.width() != heightmap.height() {
        return Err(RtinError::NotSquare);
    }
    if !is_power_of_2(heightmap.width()) {
        return Err(RtinError::SideNotPowerOfTwo);
    }
    if heightmap.width() < 2 {
        return Err(RtinError::SideTooSmall);
    }
    if heightmap.width() > MAX_SIDE {
        return Err(RtinError::SideTooLarge);
    }
    Ok(())
}

/// Returns whether a lattice coordinate names a pixel of the heightmap.
pub fn assert_coordinate_is_within_heightmap(heightmap: &HeightMapU16, coord: Vec2u32) -> (r: bool)
    ensures
        r == (coord.x < heightmap.width && coord.y < heightmap.height),
{
    coord.x < heightmap.width() && coord.y < heightmap.height()
}

} // verus!
