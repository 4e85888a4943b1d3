//! A seeded random engine. Every draw is an integer: uniform in a closed
//! range, a raw word, or a vector inside a disk.
use rand::rngs::SmallRng;
use rand::{Rng, RngCore, SeedableRng};
use vstd::prelude::*;

verus! {

/// `rand`'s small, fast generator, held opaque.
#[verifier::external_type_specification]
#[verifier::external_body]
pub struct ExSmallRng(SmallRng);

/// Relies on `SeedableRng::seed_from_u64` for `SmallRng`: builds a generator
/// from a 64-bit seed.
#[verifier::external_body]
fn small_rng_from_seed(seed: u64) -> (r: SmallRng) {
    SmallRng::seed_from_u64(seed)
}

/// Relies on `RngCore::next_u32` for `SmallRng`: the next 32 random bits.
#[verifier::external_body]
fn small_rng_next_u32(rng: &mut SmallRng) -> (r: u32) {
    rng.next_u32()
}

/// Relies on `RngCore::next_u64` for `SmallRng`: the next 64 random bits.
#[verifier::external_body]
fn small_rng_next_u64(rng: &mut SmallRng) -> (r: u64) {
    rng.next_u64()
}

/// Relies on `RngCore::fill_bytes` for `SmallRng`: overwrites every byte of
/// `dest` and leaves its length as it was.
#[verifier::external_body]
fn small_rng_fill_bytes(rng: &mut SmallRng, dest: &mut [u8])
    ensures
        final(dest)@.len() == old(dest)@.len(),
{
    rng.fill_bytes(dest)
}

/// Relies on `Rng::random_range` for `SmallRng` over an inclusive `i64`
/// range: a value between `lo` and `hi`, both included. The call panics on an
/// empty range, which `requires` rules out.
#[verifier::external_body]
fn small_rng_range_i64(rng: &mut SmallRng, lo: i64, hi: i64) -> (r: i64)
    requires
        lo <= hi,
    ensures
        lo <= r <= hi,
{
    rng.random_range(lo..=hi)
}

/// A point, or a vector, on the integer grid.
#[derive(Clone, Copy, Debug, PartialEq, Eq, Structural)]
pub struct Point {
    pub x: i64,
    pub y: i64,
}

impl Point {
    /// The squared length of the vector.
    pub open spec fn norm2(self) -> int {
        self.x * self.x + self.y * self.y
    }

    /// Whether the vector lies in the closed disk of the given radius.
    pub open spec fn in_disk(self, radius: int) -> bool {
        self.norm2() <= radius * radius
    }

    /// Whether the vector lies in the closed disk of radius `radius`.
    pub fn is_in_disk(&self, radius: u32) -> (r: bool)
        ensures
            r == self.in_disk(radius as int),
    {
        let xw = self.x as i128;
        let yw = self.y as i128;
        assert(0 <= xw * xw <= 0x8000_0000_0000_0000 * 0x8000_0000_0000_0000) by (nonlinear_arith)
            requires -0x8000_0000_0000_0000 <= xw <= 0x8000_0000_0000_0000;
        assert(0 <= yw * yw <= 0x8000_0000_0000_0000 * 0x8000_0000_0000_0000) by (nonlinear_arith)
            requires -0x8000_0000_0000_0000 <= yw <= 0x8000_0000_0000_0000;
        let rw = radius as u128;
        assert(rw * rw <= 0x1_0000_0000 * 0x1_0000_0000) by (nonlinear_arith)
            requires rw <= 0x1_0000_0000;
        ((xw * xw) as u128) + ((yw * yw) as u128) <= rw * rw
    }
}

/// The random engine: one seeded generator; identical seeds and identical
/// sequences of calls give identical outputs.
pub struct Rand {
    rng: SmallRng,
}

impl Rand {
    /// A generator seeded with `seed`.
    pub fn new(seed: u64) -> (r: Rand) {
        Rand { rng: small_rng_from_seed(seed) }
    }

    /// The next 32 random bits.
    pub fn next_u32(&mut self) -> (r: u32) {
        small_rng_next_u32(&mut self.rng)
    }

    /// The next 64 random bits.
    pub fn next_u64(&mut self) -> (r: u64) {
        small_rng_next_u64(&mut self.rng)
    }

    /// Fills `dest` with random bytes; its length is kept.
    pub fn fill_bytes(&mut self, dest: &mut [u8])
        ensures
            final(dest)@.len() == old(dest)@.len(),
    {
        small_rng_fill_bytes(&mut self.rng, dest)
    }

    /// A value drawn uniformly from `lo..=hi`.
    pub fn random_range(&mut self, lo: i64, hi: i64) -> (r: i64)
        requires
            lo <= hi,
        ensures
            lo <= r <= hi,
    {
        small_rng_range_i64(&mut self.rng, lo, hi)
    }

    /// One draw of a vector in the disk of radius `radius`: both coordinates
    /// are drawn uniformly from `-radius..=radius`, and the pair is kept only
    /// if it lies inside the disk.
    pub fn disk_sample(&mut self, radius: u32) -> (r: Option<Point>)
        ensures
            r matches Some(p) ==> p.in_disk(radius as int),
            radius == 0 ==> r == Some(Point { x: 0, y: 0 }),
    {
        let r = radius as i64;
        let x = self.random_range(-r, r);
        let y = self.random_range(-r, r);
        let p = Point { x, y };
        if radius == 0 {
            assert(x == 0 && y == 0);
            assert(p == Point { x: 0, y: 0 });
            assert(p.norm2() == 0) by (nonlinear_arith)
                requires p.x == 0, p.y == 0;
        }
        if p.is_in_disk(radius) {
            Some(p)
        } else {
            None
        }
    }

    /// A vector drawn uniformly from the disk of radius `radius`, by rejection
    /// from the enclosing square: up to `tries` draws are made, and `None`
    /// comes back when every one of them fell outside the disk.
    pub fn vec2(&mut self, radius: u32, tries: u32) -> (r: Option<Point>)
        ensures
            r matches Some(p) ==> p.in_disk(radius as int),
            tries == 0 ==> r is None,
            radius == 0 && tries > 0 ==> r == Some(Point { x: 0, y: 0 }),
    {
        let mut left: u32 = tries;
        while left > 0
            invariant
                left <= tries,
                radius == 0 ==> left == tries,
            decreases left,
        {
            left = left - 1;
            if let Some(p) = self.disk_sample(radius) {
                return Some(p);
            }
        }
        None
    }
}

} // verus!
