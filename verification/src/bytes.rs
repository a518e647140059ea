//! Little-endian byte strings for fixed-width integers: the spec-level
//! encoding and value functions, the two's-complement representation
//! of signed values, their inversion lemmas, and the verified
//! executable readers and writers.

use vstd::arithmetic::div_mod::{lemma_fundamental_div_mod, lemma_fundamental_div_mod_converse};
use vstd::prelude::*;

verus! {

/// 256 to the power `n`: the number of distinct `n`-byte strings.
pub open spec fn pow256(n: nat) -> nat
    decreases n,
{
    if n == 0 {
        1
    } else {
        256 * pow256((n - 1) as nat)
    }
}

/// The values of `pow256` at every width this format uses.
pub proof fn lemma_pow256_vals()
    ensures
        pow256(0) == 1,
        pow256(1) == 0x100,
        pow256(2) == 0x10000,
        pow256(4) == 0x1_0000_0000,
        pow256(8) == 0x1_0000_0000_0000_0000,
        pow256(15) == 0x1_0000_0000_0000_0000_0000_0000_0000_00,
        pow256(16) == 0x1_0000_0000_0000_0000_0000_0000_0000_0000,
{
    reveal_with_fuel(pow256, 17);
}

/// `pow256` is monotonic.
pub proof fn lemma_pow256_mono(m: nat, n: nat)
    requires
        m <= n,
    ensures
        pow256(m) <= pow256(n),
    decreases n,
{
    if m < n {
        lemma_pow256_mono(m, (n - 1) as nat);
    }
}

/// The `n`-byte little-endian encoding of `x % pow256(n)`.
pub open spec fn le_bytes(x: nat, n: nat) -> Seq<u8>
    decreases n,
{
    if n == 0 {
        Seq::empty()
    } else {
        seq![(x % 256) as u8] + le_bytes(x / 256, (n - 1) as nat)
    }
}

/// The value of a little-endian byte string.
pub open spec fn le_val(s: Seq<u8>) -> nat
    decreases s.len(),
{
    if s.len() == 0 {
        0
    } else {
        (s[0] as nat) + 256 * le_val(s.drop_first())
    }
}

pub proof fn lemma_le_bytes_len(x: nat, n: nat)
    ensures
        le_bytes(x, n).len() == n,
    decreases n,
{
    if n > 0 {
        lemma_le_bytes_len(x / 256, (n - 1) as nat);
    }
}

/// Reading back the `n`-byte encoding of `x < pow256(n)` yields `x`.
pub proof fn lemma_le_val_le_bytes(x: nat, n: nat)
    requires
        x < pow256(n),
    ensures
        le_val(le_bytes(x, n)) == x,
    decreases n,
{
    if n > 0 {
        let rest = le_bytes(x / 256, (n - 1) as nat);
        let whole = seq![(x % 256) as u8] + rest;
        assert(whole.drop_first() =~= rest);
        lemma_fundamental_div_mod(x as int, 256);
        assert(x / 256 < pow256((n - 1) as nat));
        lemma_le_val_le_bytes(x / 256, (n - 1) as nat);
    }
}

/// The two's-complement representation of `x` in `n` bytes.
pub open spec fn signed_rep(x: int, n: nat) -> nat {
    if x >= 0 {
        x as nat
    } else {
        (x + pow256(n)) as nat
    }
}

/// The signed value represented by `u` in `n` bytes, two's complement.
pub open spec fn signed_val(u: nat, n: nat) -> int {
    if u < pow256(n) / 2 {
        u as int
    } else {
        u - pow256(n)
    }
}

/// For `x` in the signed `n`-byte range, the representation is in the
/// unsigned range and `signed_val` inverts it.
pub proof fn lemma_signed_roundtrip(x: int, n: nat)
    requires
        n > 0,
        -((pow256(n) / 2) as int) <= x < (pow256(n) / 2) as int,
    ensures
        signed_rep(x, n) < pow256(n),
        signed_val(signed_rep(x, n), n) == x,
{
    lemma_pow256_mono(1, n);
    assert(pow256(n) % 2 == 0) by {
        lemma_pow256_even(n);
    }
}

proof fn lemma_pow256_even(n: nat)
    requires
        n > 0,
    ensures
        pow256(n) == 2 * (pow256(n) / 2),
        pow256(n) / 2 == 128 * pow256((n - 1) as nat),
{
    let p = pow256((n - 1) as nat);
    assert(pow256(n) == 256 * p);
    lemma_fundamental_div_mod_converse(256 * (p as int), 2, 128 * (p as int), 0);
}

/// The unsigned lane carrying the two's-complement representation of
/// `x` for a width whose byte count is at most 8, given `pow` = 256 to
/// that byte count.
pub fn lane_of_small(x: i128, pow: u128) -> (r: u128)
    requires
        pow % 2 == 0,
        2 <= pow <= 0x1_0000_0000_0000_0000,
        -((pow / 2) as int) <= x < (pow / 2) as int,
    ensures
        r < pow,
        r as int == if x >= 0 {
            x as int
        } else {
            x + pow
        },
{
    if x >= 0 {
        x as u128
    } else {
        ((x + (pow / 2) as i128) as u128) + pow / 2
    }
}

/// The unsigned lane carrying the two's-complement representation of
/// a 16-byte signed value.
pub fn lane_of_i128(x: i128) -> (r: u128)
    ensures
        r as int == if x >= 0 {
            x as int
        } else {
            x + 0x1_0000_0000_0000_0000_0000_0000_0000_0000
        },
{
    if x >= 0 {
        x as u128
    } else {
        ((x - i128::MIN) as u128) + 0x8000_0000_0000_0000_0000_0000_0000_0000u128
    }
}

/// The signed value represented two's-complement by lane `u` for a
/// width whose byte count is at most 8, given `pow` = 256 to that
/// byte count.
pub fn small_of_lane(u: u128, pow: u128) -> (r: i128)
    requires
        pow % 2 == 0,
        2 <= pow <= 0x1_0000_0000_0000_0000,
        u < pow,
    ensures
        r as int == if u < pow / 2 {
            u as int
        } else {
            u - pow
        },
{
    if u < pow / 2 {
        u as i128
    } else {
        (u - pow / 2) as i128 - (pow / 2) as i128
    }
}

/// The signed value represented two's-complement by a 16-byte lane.
pub fn i128_of_lane(u: u128) -> (r: i128)
    ensures
        r as int == if (u as nat) < 0x8000_0000_0000_0000_0000_0000_0000_0000 {
            u as int
        } else {
            u - 0x1_0000_0000_0000_0000_0000_0000_0000_0000
        },
{
    if u < 0x8000_0000_0000_0000_0000_0000_0000_0000u128 {
        u as i128
    } else {
        (u - 0x8000_0000_0000_0000_0000_0000_0000_0000u128) as i128 + i128::MIN
    }
}

/// Appends the `n`-byte little-endian encoding of `x` to `out`.
pub fn push_le(out: &mut Vec<u8>, x: u128, n: usize)
    requires
        n <= 16,
        (x as nat) < pow256(n as nat),
    ensures
        final(out)@ == old(out)@ + le_bytes(x as nat, n as nat),
    decreases n,
{
    if n == 0 {
        assert(out@ =~= old(out)@ + le_bytes(x as nat, 0));
    } else {
        let b: u8 = (x % 256) as u8;
        out.push(b);
        proof {
            lemma_fundamental_div_mod(x as int, 256);
            assert(((x / 256) as nat) < pow256((n - 1) as nat));
        }
        push_le(out, x / 256, n - 1);
        proof {
            assert(out@ =~= old(out)@ + le_bytes(x as nat, n as nat));
        }
    }
}

/// Reads the value of the `n` little-endian bytes at `pos`.
pub fn read_le(bytes: &Vec<u8>, pos: usize, n: usize) -> (r: u128)
    requires
        n <= 16,
        pos + n <= bytes@.len(),
    ensures
        r as nat == le_val(bytes@.subrange(pos as int, pos + n)),
        (r as nat) < pow256(n as nat),
    decreases n,
{
    proof {
        lemma_pow256_vals();
        lemma_pow256_mono(n as nat, 16);
    }
    if n == 0 {
        proof {
            assert(bytes@.subrange(pos as int, pos as int) =~= Seq::<u8>::empty());
        }
        0
    } else {
        let total = bytes.len();
        let b0 = bytes[pos];
        let rest = read_le(bytes, pos + 1, n - 1);
        proof {
            lemma_pow256_mono((n - 1) as nat, 15);
            lemma_pow256_vals();
            let sub = bytes@.subrange(pos as int, pos + n);
            assert(sub.drop_first() =~= bytes@.subrange(pos + 1, pos + 1 + (n - 1)));
            assert(sub[0] == bytes@[pos as int]);
        }
        b0 as u128 + 256 * rest
    }
}

} // verus!
