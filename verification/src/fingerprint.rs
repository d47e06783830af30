//! 64-bit difference hashes of frames and the Hamming distance between them.

use vstd::prelude::*;
use vstd::arithmetic::power2::{pow2, lemma_pow2_unfold, lemma_pow2_strictly_increases, lemma2_to64, lemma2_to64_rest};
use crate::frame::Frame;
use crate::imaging::{lanczos3_resampled, luma_plane, resample_lanczos3, rgb_to_luma};

verus! {

/// Number of one bits in the binary representation of `x`.
pub open spec fn popcount(x: nat) -> nat
    decreases x,
{
    if x == 0 {
        0
    } else {
        (x % 2) + popcount(x / 2)
    }
}

/// Number of bit positions in which two fingerprints differ.
pub open spec fn hamming(a: u64, b: u64) -> nat {
    popcount((a ^ b) as nat)
}

/// A value below `2^k` has at most `k` one bits.
pub proof fn lemma_popcount_bound(x: nat, k: nat)
    requires
        x < pow2(k),
    ensures
        popcount(x) <= k,
    decreases k,
{
    if k == 0 {
        lemma2_to64();
    } else if x != 0 {
        lemma_pow2_unfold(k);
        lemma_popcount_bound(x / 2, (k - 1) as nat);
    }
}

/// Only zero has no one bits.
pub proof fn lemma_popcount_zero(x: nat)
    ensures
        popcount(x) == 0 <==> x == 0,
    decreases x,
{
    if x != 0 {
        lemma_popcount_zero(x / 2);
    }
}

/// The Hamming distance of two 64-bit fingerprints lies in `[0, 64]`.
pub proof fn lemma_hamming_range(a: u64, b: u64)
    ensures
        hamming(a, b) <= 64,
{
    lemma2_to64_rest();
    lemma_popcount_bound((a ^ b) as nat, 64);
}

/// The distance is zero exactly between equal fingerprints.
pub proof fn lemma_hamming_zero_iff_equal(a: u64, b: u64)
    ensures
        hamming(a, b) == 0 <==> a == b,
{
    lemma_popcount_zero((a ^ b) as nat);
    assert((a ^ b) == 0 <==> a == b) by (bit_vector);
}

/// The distance does not depend on the order of its arguments.
pub proof fn lemma_hamming_symmetric(a: u64, b: u64)
    ensures
        hamming(a, b) == hamming(b, a),
{
    assert(a ^ b == b ^ a) by (bit_vector);
}

/// Hamming distance between two fingerprints.
pub fn hamming_distance(hash1: u64, hash2: u64) -> (d: u32)
    ensures
        d == hamming(hash1, hash2),
        d <= 64,
{
    let mut rest: u64 = hash1 ^ hash2;
    let mut count: u32 = 0;
    proof {
        lemma_hamming_range(hash1, hash2);
    }
    while rest != 0
        invariant
            count + popcount(rest as nat) == hamming(hash1, hash2),
            hamming(hash1, hash2) <= 64,
        decreases rest,
    {
        if rest % 2 == 1 {
            count = count + 1;
        }
        rest = rest / 2;
    }
    count
}


/// Width of the brightness grid that a fingerprint is read from.
pub const GRID_WIDTH: u32 = 9;

/// Height of the brightness grid that a fingerprint is read from.
pub const GRID_HEIGHT: u32 = 8;

/// Number of cells of the brightness grid.
pub const GRID_CELLS: usize = 72;

/// Bit `k` of a fingerprint: in row `k / 8`, whether the cell in column
/// `k % 8` is brighter than its right neighbour.
pub open spec fn gradient_bit(grid: Seq<u8>, k: int) -> bool {
    grid[(k / 8) * 9 + k % 8] > grid[(k / 8) * 9 + k % 8 + 1]
}

/// The number whose binary digits `0..k` are the first `k` gradient bits.
pub open spec fn pack_bits(grid: Seq<u8>, k: nat) -> nat
    decreases k,
{
    if k == 0 {
        0
    } else {
        pack_bits(grid, (k - 1) as nat) + if gradient_bit(grid, k - 1) {
            pow2((k - 1) as nat)
        } else {
            0
        }
    }
}

/// Fingerprint of a 9 by 8 brightness grid: its 64 gradient bits, row by row,
/// the first one least significant.
pub open spec fn grid_fingerprint(grid: Seq<u8>) -> u64 {
    pack_bits(grid, 64) as u64
}

/// Fingerprint of an RGB image: that of its brightness after resampling to
/// the 9 by 8 grid.
pub open spec fn frame_fingerprint(pixels: Seq<u8>, width: int, height: int) -> u64 {
    grid_fingerprint(luma_plane(lanczos3_resampled(pixels, width, height, 9, 8)))
}

/// Frames that can be hashed: well formed, not empty, and narrow enough for
/// the resampler's intermediate image to be addressable.
pub open spec fn hashable(frame: Frame) -> bool {
    &&& frame.wf()
    &&& frame.width >= 1
    &&& frame.height >= 1
    &&& frame.width * 128 <= isize::MAX
}

/// The first `k` gradient bits make a number below `2^k`.
pub proof fn lemma_pack_bits_bound(grid: Seq<u8>, k: nat)
    ensures
        pack_bits(grid, k) < pow2(k),
    decreases k,
{
    if k == 0 {
        lemma2_to64();
    } else {
        lemma_pack_bits_bound(grid, (k - 1) as nat);
        lemma_pow2_unfold(k);
    }
}

/// Binary digit `j` of the packed number is gradient bit `j`.
pub proof fn lemma_pack_bits_digit(grid: Seq<u8>, k: nat, j: nat)
    requires
        j < k,
    ensures
        (pack_bits(grid, k) / pow2(j)) % 2 == if gradient_bit(grid, j as int) {
            1nat
        } else {
            0nat
        },
    decreases k,
{
    let low = pack_bits(grid, (k - 1) as nat);
    lemma_pack_bits_bound(grid, (k - 1) as nat);
    if j == k - 1 {
        let p = pow2(j);
        assert(p > 0) by {
            vstd::arithmetic::power2::lemma_pow2_pos(j);
        }
        if gradient_bit(grid, j as int) {
            assert((low + p) / p == 1) by (nonlinear_arith)
                requires
                    0 <= low < p,
            ;
        } else {
            assert(low / p == 0) by (nonlinear_arith)
                requires
                    0 <= low < p,
            ;
        }
    } else {
        lemma_pack_bits_digit(grid, (k - 1) as nat, j);
        if gradient_bit(grid, k - 1) {
            let p = pow2(j);
            let q = pow2((k - 1) as nat);
            lemma_pow2_multiple(j, (k - 1) as nat);
            let m = q / p;
            assert(p > 0) by {
                vstd::arithmetic::power2::lemma_pow2_pos(j);
            }
            assert((low + m * p) / p == low / p + m) by (nonlinear_arith)
                requires
                    p > 0,
                    low >= 0,
                    m >= 0,
            ;
        }
    }
}

/// For `j < k`, `2^k` is an even multiple of `2^j`.
proof fn lemma_pow2_multiple(j: nat, k: nat)
    requires
        j < k,
    ensures
        pow2(k) == (pow2(k) / pow2(j)) * pow2(j),
        (pow2(k) / pow2(j)) % 2 == 0,
    decreases k - j,
{
    let p = pow2(j);
    vstd::arithmetic::power2::lemma_pow2_pos(j);
    lemma_pow2_unfold(k);
    if k == j + 1 {
        assert((2 * p) / p == 2) by (nonlinear_arith)
            requires
                p > 0,
        ;
    } else {
        lemma_pow2_multiple(j, (k - 1) as nat);
        let h = pow2((k - 1) as nat);
        let m = h / p;
        assert((2 * (m * p)) / p == 2 * m) by (nonlinear_arith)
            requires
                p > 0,
                m >= 0,
        ;
        assert(2 * (m * p) == (2 * m) * p) by (nonlinear_arith);
    }
}

/// A grid without any brightness step has the all-zero fingerprint.
pub proof fn lemma_flat_grid_is_zero(grid: Seq<u8>, k: nat)
    requires
        forall|j: int| 0 <= j < k ==> !gradient_bit(grid, j),
    ensures
        pack_bits(grid, k) == 0,
    decreases k,
{
    if k > 0 {
        lemma_flat_grid_is_zero(grid, (k - 1) as nat);
    }
}

/// Fingerprint of a 9 by 8 brightness grid given row by row; `None` for a
/// buffer of any other size.
pub fn gradient_hash(grid: &Vec<u8>) -> (out: Option<u64>)
    ensures
        out is Some <==> grid@.len() == 72,
        out matches Some(h) ==> h == grid_fingerprint(grid@),
{
    if grid.len() != GRID_CELLS {
        return None;
    }
    let mut hash: u64 = 0;
    let mut weight: u64 = 1;
    let mut k: usize = 0;
    proof {
        lemma2_to64();
        lemma2_to64_rest();
        lemma_pack_bits_bound(grid@, 64);
    }
    while k < 64
        invariant
            k <= 64,
            grid@.len() == 72,
            hash == pack_bits(grid@, k as nat),
            k < 64 ==> weight == pow2(k as nat),
            pow2(64) == 0x1_0000_0000_0000_0000,
        decreases 64 - k,
    {
        let row = k / 8;
        let col = k % 8;
        proof {
            lemma_pack_bits_bound(grid@, k as nat);
            lemma_pack_bits_bound(grid@, (k + 1) as nat);
            lemma_pow2_unfold((k + 1) as nat);
            if k + 1 < 64 {
                lemma_pow2_strictly_increases((k + 1) as nat, 64);
            }
        }
        if grid[row * 9 + col] > grid[row * 9 + col + 1] {
            hash = hash + weight;
        }
        if k < 63 {
            weight = weight * 2;
        }
        k = k + 1;
    }
    Some(hash)
}

/// Difference hash of a frame: the frame is resampled to 9 by 8 pixels,
/// reduced to brightness, and each of the 64 horizontal neighbour pairs
/// contributes one bit. `None` for a frame that cannot be hashed.
pub fn compute_phash(frame: &Frame) -> (out: Option<u64>)
    ensures
        out is Some <==> hashable(*frame),
        out matches Some(h) ==> h == frame_fingerprint(
            frame.pixels@,
            frame.width as int,
            frame.height as int,
        ),
{
    if !frame.is_well_formed() || frame.width == 0 || frame.height == 0 {
        return None;
    }
    if (frame.width as u64) * 128 > isize::MAX as u64 {
        return None;
    }
    let small = resample_lanczos3(&frame.pixels, frame.width, frame.height, GRID_WIDTH, GRID_HEIGHT);
    let grid = rgb_to_luma(&small, GRID_WIDTH, GRID_HEIGHT);
    assert(grid@.len() == 72);
    gradient_hash(&grid)
}

/// Hashing is a function of the image alone: frames with the same pixels
/// and dimensions have fingerprints at distance zero, whatever their
/// position or delay.
pub proof fn lemma_hash_deterministic(a: Frame, b: Frame)
    requires
        a.pixels@ == b.pixels@,
        a.width == b.width,
        a.height == b.height,
    ensures
        frame_fingerprint(a.pixels@, a.width as int, a.height as int) == frame_fingerprint(
            b.pixels@,
            b.width as int,
            b.height as int,
        ),
        hamming(
            frame_fingerprint(a.pixels@, a.width as int, a.height as int),
            frame_fingerprint(b.pixels@, b.width as int, b.height as int),
        ) == 0,
{
    lemma_hamming_zero_iff_equal(
        frame_fingerprint(a.pixels@, a.width as int, a.height as int),
        frame_fingerprint(b.pixels@, b.width as int, b.height as int),
    );
}

} // verus!
