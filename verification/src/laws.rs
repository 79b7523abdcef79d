use vstd::prelude::*;

verus! {

use vstd::arithmetic::power2::pow2;
use vstd::arithmetic::power2::lemma_pow2_unfold;
use vstd::arithmetic::power2::lemma_pow2_pos;
use vstd::arithmetic::power2::lemma_pow2_adds;
use vstd::arithmetic::power2::lemma2_to64;
use vstd::arithmetic::div_mod::lemma_small_mod;
use vstd::arithmetic::div_mod::lemma_fundamental_div_mod_converse;
use crate::bits::uint_of;
use crate::bits::sint_of;
use crate::bits::bit_of;
use crate::bits::encode_bits;
use crate::bits::and_bits;
use crate::bits::or_bits;
use crate::bits::xor_bits;
use crate::bits::not_bits;
use crate::bits::mux_bits;
use crate::bits::lemma_uint_of_bound;
use crate::bits::lemma_uint_of_snoc;
use crate::bits::lemma_uint_of_injective;

/// Encoding a host integer to n bits and reading the bits back as an unsigned
/// integer yields the value reduced modulo 2^n; for in-range values, the value
/// itself.
pub proof fn lemma_encode_then_decode(v: nat, n: nat)
    ensures
        uint_of(encode_bits(v, n)) == v % pow2(n),
    decreases n,
{
    if n == 0 {
        assert(encode_bits(v, n) =~= Seq::<bool>::empty());
        lemma2_to64();
        assert(v % 1 == 0) by (nonlinear_arith);
    } else {
        lemma_encode_then_decode(v, (n - 1) as nat);
        assert(encode_bits(v, n) =~= encode_bits(v, (n - 1) as nat).push(bit_of(v, (n - 1) as nat)));
        lemma_uint_of_snoc(encode_bits(v, (n - 1) as nat), bit_of(v, (n - 1) as nat));
        lemma_pow2_pos((n - 1) as nat);
        vstd::arithmetic::div_mod::lemma_breakdown(v as int, pow2((n - 1) as nat) as int, 2);
        lemma_pow2_adds((n - 1) as nat, 1);
        lemma2_to64();
        assert(pow2((n - 1) as nat) as int * 2 == pow2(n) as int);
        let p = pow2((n - 1) as nat) as int;
        let q = (v as int / p) % 2;
        vstd::arithmetic::div_mod::lemma_mod_bound(v as int / p, 2);
        vstd::arithmetic::div_mod::lemma_div_pos_is_pos(v as int, p);
        assert(0 <= q < 2);
        if q == 1 {
            assert(bit_of(v, (n - 1) as nat));
            vstd::arithmetic::mul::lemma_mul_basics(p);
            assert(p * q == p);
        } else {
            assert(!bit_of(v, (n - 1) as nat));
            assert(q == 0);
            vstd::arithmetic::mul::lemma_mul_by_zero_is_zero(p);
        }
        assert(v as int % (p * 2) == p * q + v as int % p);
    }
}

/// Decoding a bit pattern and encoding the result at the same width returns
/// the very same bits: patterns of one width and residues modulo 2^n are in
/// one-to-one correspondence.
pub proof fn lemma_decode_then_encode(s: Seq<bool>)
    ensures
        encode_bits(uint_of(s), s.len()) == s,
{
    lemma_encode_then_decode(uint_of(s), s.len());
    lemma_uint_of_bound(s);
    lemma_pow2_pos(s.len());
    lemma_small_mod(uint_of(s), pow2(s.len()));
    lemma_uint_of_injective(encode_bits(uint_of(s), s.len()), s);
}

/// The signed and the unsigned reading of one bit pattern agree modulo 2^n:
/// reinterpreting is purely syntactic.
pub proof fn lemma_reinterpret_congruent(s: Seq<bool>)
    requires
        s.len() >= 1,
    ensures
        sint_of(s) % (pow2(s.len()) as int) == uint_of(s) as int,
{
    let m = pow2(s.len()) as int;
    lemma_pow2_pos(s.len());
    lemma_uint_of_bound(s);
    lemma_small_mod(uint_of(s), pow2(s.len()));
    if s[s.len() - 1] {
        vstd::arithmetic::div_mod::lemma_mod_multiples_vanish(-1, uint_of(s) as int, m);
    }
}

/// Signed round trip: a host value within the width's two's-complement range
/// encodes (as its residue's bit pattern) and decodes back to itself.
pub proof fn lemma_signed_round_trip(v: int, n: nat)
    requires
        n >= 1,
        -(pow2((n - 1) as nat) as int) <= v < pow2((n - 1) as nat) as int,
    ensures
        sint_of(encode_bits((v % (pow2(n) as int)) as nat, n)) == v,
{
    let m = pow2(n) as int;
    let h = pow2((n - 1) as nat) as int;
    lemma_pow2_pos(n);
    lemma_pow2_pos((n - 1) as nat);
    lemma_pow2_unfold(n);
    let u = v % m;
    if v >= 0 {
        lemma_small_mod(v as nat, pow2(n));
        assert(u == v);
    } else {
        vstd::arithmetic::div_mod::lemma_mod_multiples_vanish(1, v, m);
        lemma_small_mod((v + m) as nat, pow2(n));
        assert(u == v + m);
    }
    let s = encode_bits(u as nat, n);
    lemma_encode_then_decode(u as nat, n);
    lemma_small_mod(u as nat, pow2(n));
    assert(uint_of(s) == u);
    assert(s.len() == n);
    assert(s[n - 1] == bit_of(u as nat, (n - 1) as nat));
    if v >= 0 {
        vstd::arithmetic::div_mod::lemma_basic_div(u, h);
        assert(u / h == 0);
        assert(!s[n - 1]);
    } else {
        assert(h <= u < 2 * h);
        lemma_fundamental_div_mod_converse(u, h, 1, u - h);
        assert(u / h == 1);
        assert(s[n - 1]);
    }
}

/// Wrapped addition is commutative.
pub proof fn lemma_add_wrap_commutes(x: nat, y: nat, n: nat)
    ensures
        (x + y) % pow2(n) == (y + x) % pow2(n),
{
}

/// Wrapped addition is associative.
pub proof fn lemma_add_wrap_associates(x: nat, y: nat, z: nat, n: nat)
    ensures
        (((x + y) % pow2(n)) + z) % pow2(n) == (x + ((y + z) % pow2(n))) % pow2(n),
{
    lemma_pow2_pos(n);
    let m = pow2(n) as int;
    vstd::arithmetic::div_mod::lemma_mod_adds((x + y) as int, z as int, m);
    vstd::arithmetic::div_mod::lemma_add_mod_noop((x + y) as int, z as int, m);
    vstd::arithmetic::div_mod::lemma_add_mod_noop(x as int, (y + z) as int, m);
    lemma_small_mod(((x + y) % pow2(n)), pow2(n));
    vstd::arithmetic::div_mod::lemma_mod_twice((x + y) as int, m);
    vstd::arithmetic::div_mod::lemma_mod_twice((y + z) as int, m);
    assert((((x + y) % pow2(n)) + z) % pow2(n) == (x + y + z) % pow2(n)) by {
        vstd::arithmetic::div_mod::lemma_add_mod_noop(((x + y) % pow2(n)) as int, z as int, m);
    }
    assert((x + ((y + z) % pow2(n))) % pow2(n) == (x + y + z) % pow2(n)) by {
        vstd::arithmetic::div_mod::lemma_add_mod_noop(x as int, ((y + z) % pow2(n)) as int, m);
    }
}

/// Wrapped multiplication is commutative.
pub proof fn lemma_mul_wrap_commutes(x: nat, y: nat, n: nat)
    ensures
        (x * y) % pow2(n) == (y * x) % pow2(n),
{
    vstd::arithmetic::mul::lemma_mul_is_commutative(x as int, y as int);
}

/// Wrapped multiplication is associative.
pub proof fn lemma_mul_wrap_associates(x: nat, y: nat, z: nat, n: nat)
    ensures
        (((x * y) % pow2(n)) * z) % pow2(n) == (x * ((y * z) % pow2(n))) % pow2(n),
{
    lemma_pow2_pos(n);
    let m = pow2(n) as int;
    vstd::arithmetic::div_mod::lemma_mul_mod_noop_general((x * y) as int, z as int, m);
    vstd::arithmetic::div_mod::lemma_mul_mod_noop_general(x as int, (y * z) as int, m);
    vstd::arithmetic::mul::lemma_mul_is_associative(x as int, y as int, z as int);
}

/// Elementwise conjunction is commutative.
pub proof fn lemma_and_bits_commutes(x: Seq<bool>, y: Seq<bool>)
    requires
        x.len() == y.len(),
    ensures
        and_bits(x, y) == and_bits(y, x),
{
    assert(and_bits(x, y) =~= and_bits(y, x));
}

/// Elementwise conjunction is associative.
pub proof fn lemma_and_bits_associates(x: Seq<bool>, y: Seq<bool>, z: Seq<bool>)
    requires
        x.len() == y.len(),
        y.len() == z.len(),
    ensures
        and_bits(and_bits(x, y), z) == and_bits(x, and_bits(y, z)),
{
    assert(and_bits(and_bits(x, y), z) =~= and_bits(x, and_bits(y, z)));
}

/// Elementwise disjunction is commutative.
pub proof fn lemma_or_bits_commutes(x: Seq<bool>, y: Seq<bool>)
    requires
        x.len() == y.len(),
    ensures
        or_bits(x, y) == or_bits(y, x),
{
    assert(or_bits(x, y) =~= or_bits(y, x));
}

/// Elementwise disjunction is associative.
pub proof fn lemma_or_bits_associates(x: Seq<bool>, y: Seq<bool>, z: Seq<bool>)
    requires
        x.len() == y.len(),
        y.len() == z.len(),
    ensures
        or_bits(or_bits(x, y), z) == or_bits(x, or_bits(y, z)),
{
    assert(or_bits(or_bits(x, y), z) =~= or_bits(x, or_bits(y, z)));
}

/// Elementwise exclusive or is commutative.
pub proof fn lemma_xor_bits_commutes(x: Seq<bool>, y: Seq<bool>)
    requires
        x.len() == y.len(),
    ensures
        xor_bits(x, y) == xor_bits(y, x),
{
    assert(xor_bits(x, y) =~= xor_bits(y, x));
}

/// Elementwise exclusive or is associative.
pub proof fn lemma_xor_bits_associates(x: Seq<bool>, y: Seq<bool>, z: Seq<bool>)
    requires
        x.len() == y.len(),
        y.len() == z.len(),
    ensures
        xor_bits(xor_bits(x, y), z) == xor_bits(x, xor_bits(y, z)),
{
    assert(xor_bits(xor_bits(x, y), z) =~= xor_bits(x, xor_bits(y, z)));
}

/// De Morgan: the negation of a conjunction is the disjunction of the
/// negations, and dually.
pub proof fn lemma_de_morgan(x: Seq<bool>, y: Seq<bool>)
    requires
        x.len() == y.len(),
    ensures
        not_bits(and_bits(x, y)) == or_bits(not_bits(x), not_bits(y)),
        not_bits(or_bits(x, y)) == and_bits(not_bits(x), not_bits(y)),
{
    assert(not_bits(and_bits(x, y)) =~= or_bits(not_bits(x), not_bits(y)));
    assert(not_bits(or_bits(x, y)) =~= and_bits(not_bits(x), not_bits(y)));
}

/// A multiplexer whose selector is 1 yields its first input.
pub proof fn lemma_mux_one(x: Seq<bool>, y: Seq<bool>)
    ensures
        mux_bits(true, x, y) == x,
{
}

/// A multiplexer whose selector is 0 yields its second input.
pub proof fn lemma_mux_zero(x: Seq<bool>, y: Seq<bool>)
    ensures
        mux_bits(false, x, y) == y,
{
}

/// A multiplexer over two copies of one value yields that value whatever the
/// selector is.
pub proof fn lemma_mux_same(sel: bool, x: Seq<bool>)
    ensures
        mux_bits(sel, x, x) == x,
{
}

/// What the divider and remainder circuits return decomposes the dividend:
/// `a == (a / b) * b + a % b`, with the remainder strictly below the divisor.
pub proof fn lemma_div_rem_decomposition(a: nat, b: nat)
    requires
        b != 0,
    ensures
        a == (a / b) * b + a % b,
        a % b < b,
{
    vstd::arithmetic::div_mod::lemma_fundamental_div_mod(a as int, b as int);
    vstd::arithmetic::div_mod::lemma_mod_bound(a as int, b as int);
    vstd::arithmetic::mul::lemma_mul_is_commutative(b as int, (a as int) / (b as int));
}

} // verus!
