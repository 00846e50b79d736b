//! Block geometry: powers of two and rounding a length down to a block
//! boundary.

use vstd::arithmetic::power2::is_pow2;
use vstd::prelude::*;

verus! {

/// The largest multiple of `block` that does not exceed `len`.
pub open spec fn round_down(len: nat, block: nat) -> nat
    recommends
        block > 0,
{
    (len - len % block) as nat
}

/// A block size and a staging capacity that a writer can be built on: the
/// block size is a power of two, and the capacity is a positive whole number
/// of blocks.
pub open spec fn valid_geometry(block_size: nat, capacity: nat) -> bool {
    &&& is_pow2(block_size as int)
    &&& capacity >= block_size
    &&& capacity % block_size == 0
}

/// Rounding down gives a multiple of the block size that is at most the
/// length and less than one block away from it; a length that is already a
/// multiple of the block size is left as it is.
pub proof fn lemma_round_down(len: nat, block: nat)
    requires
        block > 0,
    ensures
        round_down(len, block) % block == 0,
        round_down(len, block) <= len,
        len - round_down(len, block) < block,
        len % block == 0 ==> round_down(len, block) == len,
        len >= block ==> round_down(len, block) >= block,
        len < block ==> round_down(len, block) == 0,
{
    let l = len as int;
    let b = block as int;
    vstd::arithmetic::div_mod::lemma_fundamental_div_mod(l, b);
    vstd::arithmetic::div_mod::lemma_mod_multiples_basic(l / b, b);
    assert(b * (l / b) == (l / b) * b) by (nonlinear_arith);
    assert(l - l % b == (l / b) * b);
    if l >= b {
        vstd::arithmetic::div_mod::lemma_div_non_zero(l, b);
        assert((l / b) * b >= b) by (nonlinear_arith)
            requires
                l / b >= 1,
                b > 0,
        ;
    } else {
        vstd::arithmetic::div_mod::lemma_small_mod(len, block);
    }
}

/// Rounds `len` down to a multiple of `block`.
pub fn floor_to_block(len: usize, block: usize) -> (r: usize)
    requires
        block > 0,
    ensures
        r == round_down(len as nat, block as nat),
        r % block == 0,
        r <= len,
        len - r < block,
{
    proof {
        lemma_round_down(len as nat, block as nat);
        vstd::arithmetic::div_mod::lemma_mod_decreases(len as nat, block as nat);
    }
    len - len % block
}

/// Whether `n` is a power of two.
pub fn is_power_of_two(n: usize) -> (r: bool)
    ensures
        r == is_pow2(n as int),
{
    if n == 0 {
        proof {
            reveal(is_pow2);
        }
        return false;
    }
    let mut x: usize = n;
    while x % 2 == 0
        invariant
            x > 0,
            is_pow2(x as int) == is_pow2(n as int),
        decreases x,
    {
        proof {
            reveal(is_pow2);
        }
        x = x / 2;
    }
    proof {
        reveal(is_pow2);
    }
    x == 1
}

/// Whether a writer can be built on this block size and capacity.
pub fn check_geometry(block_size: usize, capacity: usize) -> (r: bool)
    ensures
        r == valid_geometry(block_size as nat, capacity as nat),
{
    if !is_power_of_two(block_size) {
        return false;
    }
    proof {
        reveal(is_pow2);
    }
    capacity >= block_size && capacity % block_size == 0
}

} // verus!
