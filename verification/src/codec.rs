use vstd::prelude::*;

verus! {

use vstd::arithmetic::power2::pow2;
use vstd::arithmetic::power2::lemma_pow2_adds;
use vstd::arithmetic::power2::lemma_pow2_pos;
use vstd::arithmetic::power2::lemma_pow2_strictly_increases;
use vstd::arithmetic::power2::lemma2_to64;
use vstd::arithmetic::power2::lemma2_to64_rest;
use crate::bits::uint_of;
use crate::bits::lemma_uint_of_snoc;
use crate::bits::lemma_uint_of_bound;

/// The numeric value of 2^128, which bounds every 128-bit reading.
pub proof fn lemma_pow2_128()
    ensures
        pow2(128) == 0x100000000000000000000000000000000,
        pow2(127) == 0x80000000000000000000000000000000,
{
    lemma_pow2_adds(64, 64);
    lemma_pow2_adds(63, 64);
    lemma2_to64();
    lemma2_to64_rest();
}

/// 2^e as an executable value.
pub fn pow2_u128(e: usize) -> (r: u128)
    requires
        e <= 127,
    ensures
        r as nat == pow2(e as nat),
{
    let mut r: u128 = 1;
    let mut i: usize = 0;
    proof {
        lemma2_to64();
    }
    while i < e
        invariant
            i <= e,
            e <= 127,
            r as nat == pow2(i as nat),
        decreases e - i,
    {
        proof {
            lemma_pow2_adds(i as nat, 1);
            lemma2_to64();
            lemma_pow2_strictly_increases(i as nat, 127);
            lemma_pow2_128();
        }
        r = r * 2;
        i += 1;
    }
    r
}

/// Encodes the low `n` bits of a host integer, least-significant bit first.
#[verifier::rlimit(50)]
pub fn bits_of_u128(v: u128, n: usize) -> (r: Vec<bool>)
    ensures
        r@.len() == n,
        uint_of(r@) == (v as nat) % pow2(n as nat),
        r@ == crate::bits::encode_bits(v as nat, n as nat),
{
    let mut r: Vec<bool> = Vec::new();
    let mut cur: u128 = v;
    let mut i: usize = 0;
    proof {
        lemma2_to64();
    }
    while i < n
        invariant
            i <= n,
            r@.len() == i,
            cur as nat == (v as nat) / pow2(i as nat),
            uint_of(r@) == (v as nat) % pow2(i as nat),
        decreases n - i,
    {
        let b = cur % 2 == 1;
        let ghost pre = r@;
        r.push(b);
        proof {
            lemma_uint_of_snoc(pre, b);
            lemma_pow2_pos(i as nat);
            // v % 2^(i+1) == 2^i * ((v / 2^i) % 2) + v % 2^i
            vstd::arithmetic::div_mod::lemma_breakdown(v as int, pow2(i as nat) as int, 2);
            lemma_pow2_adds(i as nat, 1);
            lemma2_to64();
            assert(pow2(i as nat) as int * 2 == pow2((i + 1) as nat));
            let p = pow2(i as nat) as int;
            let q = (v as int / p) % 2;
            vstd::arithmetic::div_mod::lemma_mod_bound(v as int / p, 2);
            vstd::arithmetic::div_mod::lemma_div_pos_is_pos(v as int, p);
            assert(b == (q == 1));
            if q == 1 {
                vstd::arithmetic::mul::lemma_mul_basics(p);
                assert(p * q == p);
            } else {
                assert(q == 0);
                vstd::arithmetic::mul::lemma_mul_by_zero_is_zero(p);
            }
            // the next quotient halves once more
            vstd::arithmetic::div_mod::lemma_div_denominator(v as int, pow2(i as nat) as int, 2);
        }
        cur = cur / 2;
        i += 1;
    }
    proof {
        crate::laws::lemma_encode_then_decode(v as nat, n as nat);
        crate::bits::lemma_uint_of_injective(r@, crate::bits::encode_bits(v as nat, n as nat));
    }
    r
}

/// Decodes a bit sequence (at most 128 bits, least-significant first) into the
/// unsigned host integer it denotes.
pub fn u128_of_bits(bits: &Vec<bool>) -> (r: u128)
    requires
        bits@.len() <= 128,
    ensures
        r as nat == uint_of(bits@),
{
    let n = bits.len();
    let mut r: u128 = 0;
    let mut i: usize = 0;
    proof {
        assert(bits@.skip(n as int) =~= Seq::<bool>::empty());
    }
    while i < n
        invariant
            i <= n,
            n == bits@.len(),
            n <= 128,
            r as nat == uint_of(bits@.skip(n - i)),
        decreases n - i,
    {
        let b = bits[n - 1 - i];
        proof {
            let s = bits@.skip(n - i - 1);
            assert(s.drop_first() =~= bits@.skip(n - i));
            assert(s[0] == bits@[n - 1 - i]);
            lemma_uint_of_bound(s);
            if s.len() < 128 {
                lemma_pow2_strictly_increases(s.len(), 128);
            }
            lemma_pow2_128();
        }
        r = r * 2 + (if b {
            1
        } else {
            0
        });
        i += 1;
    }
    proof {
        assert(bits@.skip(0) =~= bits@);
    }
    r
}

} // verus!
