use vstd::prelude::*;

verus! {

use vstd::arithmetic::power2::pow2;
use vstd::arithmetic::power2::lemma_pow2_unfold;
use vstd::arithmetic::power2::lemma_pow2_pos;
use vstd::arithmetic::power2::lemma_pow2_adds;


/// The unsigned integer denoted by a bit sequence, least-significant bit first:
/// value = sum over i of bit_i * 2^i.
pub open spec fn uint_of(s: Seq<bool>) -> nat
    decreases s.len(),
{
    if s.len() == 0 {
        0
    } else {
        (if s[0] {
            1nat
        } else {
            0nat
        }) + 2 * uint_of(s.drop_first())
    }
}

/// The two's-complement integer denoted by a bit sequence, least-significant
/// bit first: the top bit carries weight -2^(n-1), so the value is
/// uint_of(s) - 2^n when the top bit is set.
pub open spec fn sint_of(s: Seq<bool>) -> int {
    if s.len() > 0 && s[s.len() - 1] {
        uint_of(s) - pow2(s.len())
    } else {
        uint_of(s) as int
    }
}

/// Bit i of the nonnegative integer v (little-endian).
pub open spec fn bit_of(v: nat, i: nat) -> bool {
    (v / pow2(i)) % 2 == 1
}

/// Elementwise conjunction of two equal-length bit sequences.
pub open spec fn and_bits(x: Seq<bool>, y: Seq<bool>) -> Seq<bool> {
    Seq::new(x.len(), |i: int| x[i] && y[i])
}

/// Elementwise disjunction.
pub open spec fn or_bits(x: Seq<bool>, y: Seq<bool>) -> Seq<bool> {
    Seq::new(x.len(), |i: int| x[i] || y[i])
}

/// Elementwise exclusive or.
pub open spec fn xor_bits(x: Seq<bool>, y: Seq<bool>) -> Seq<bool> {
    Seq::new(x.len(), |i: int| x[i] != y[i])
}

/// Elementwise negation.
pub open spec fn not_bits(x: Seq<bool>) -> Seq<bool> {
    Seq::new(x.len(), |i: int| !x[i])
}

/// The multiplexer at the bit-sequence level: the first branch when the
/// selector is 1, the second when it is 0.
pub open spec fn mux_bits(sel: bool, x: Seq<bool>, y: Seq<bool>) -> Seq<bool> {
    if sel {
        x
    } else {
        y
    }
}

/// The n-bit encoding of a nonnegative integer, least-significant bit first.
pub open spec fn encode_bits(v: nat, n: nat) -> Seq<bool> {
    Seq::new(n, |i: int| bit_of(v, i as nat))
}

/// Logical left shift by k over a fixed width: bit i comes from bit i-k,
/// the low k bits fill with 0.
pub open spec fn shl_bits(x: Seq<bool>, k: int) -> Seq<bool> {
    Seq::new(x.len(), |i: int| if i < k {
        false
    } else {
        x[i - k]
    })
}

/// Logical right shift by k: bit i comes from bit i+k, the high bits fill with 0.
pub open spec fn shr_bits(x: Seq<bool>, k: int) -> Seq<bool> {
    Seq::new(x.len(), |i: int| if i + k < x.len() {
        x[i + k]
    } else {
        false
    })
}

/// Arithmetic right shift by k: the high bits fill with the sign bit.
pub open spec fn shr_arith_bits(x: Seq<bool>, k: int) -> Seq<bool> {
    Seq::new(x.len(), |i: int| if i + k < x.len() {
        x[i + k]
    } else {
        x[x.len() - 1]
    })
}

/// The two's-complement reading of an n-bit sequence lies in
/// [-2^(n-1), 2^(n-1)).
pub proof fn lemma_sint_of_bounds(s: Seq<bool>)
    requires
        s.len() >= 1,
    ensures
        -(pow2((s.len() - 1) as nat) as int) <= sint_of(s) < pow2((s.len() - 1) as nat),
        uint_of(s) == uint_of(s.take(s.len() - 1)) + (if s[s.len() - 1] {
            pow2((s.len() - 1) as nat)
        } else {
            0nat
        }),
{
    let n = s.len() as int;
    assert(s.take(n) =~= s);
    lemma_uint_of_take_succ(s, n - 1);
    lemma_uint_of_bound(s.take(n - 1));
    lemma_uint_of_bound(s);
    lemma_pow2_unfold(s.len());
}

/// A sequence of zero bits denotes 0.
pub proof fn lemma_uint_of_zeros(s: Seq<bool>)
    requires
        forall|i: int| 0 <= i < s.len() ==> !s[i],
    ensures
        uint_of(s) == 0,
    decreases s.len(),
{
    if s.len() > 0 {
        lemma_uint_of_zeros(s.drop_first());
    }
}

/// A bit sequence is bounded by 2^(its length).
pub proof fn lemma_uint_of_bound(s: Seq<bool>)
    ensures
        uint_of(s) < pow2(s.len()),
    decreases s.len(),
{
    if s.len() == 0 {
        assert(pow2(0) == 1) by {
            lemma_pow2_unfold(1);
            lemma_pow2_pos(0);
            assert(pow2(1) == 2 * pow2(0));
            vstd::arithmetic::power2::lemma2_to64();
        }
    } else {
        lemma_uint_of_bound(s.drop_first());
        lemma_pow2_unfold(s.len());
    }
}

/// Appending a bit at the most-significant end adds its weight.
pub proof fn lemma_uint_of_snoc(s: Seq<bool>, b: bool)
    ensures
        uint_of(s.push(b)) == uint_of(s) + (if b {
            pow2(s.len())
        } else {
            0nat
        }),
    decreases s.len(),
{
    if s.len() == 0 {
        assert(s.push(b).drop_first() =~= Seq::<bool>::empty());
        vstd::arithmetic::power2::lemma2_to64();
        assert(s.push(b).len() == 1);
        assert(s.push(b)[0] == b);
        assert(uint_of(s.push(b)) == (if b {
            1nat
        } else {
            0nat
        }) + 2 * uint_of(s.push(b).drop_first()));
        assert(uint_of(s.push(b).drop_first()) == 0);
        assert(uint_of(s) == 0);
        assert(pow2(0) == 1);
    } else {
        assert(s.push(b).drop_first() =~= s.drop_first().push(b));
        lemma_uint_of_snoc(s.drop_first(), b);
        lemma_pow2_unfold(s.len());
        assert(uint_of(s.push(b)) == (if s[0] {
            1nat
        } else {
            0nat
        }) + 2 * uint_of(s.drop_first().push(b)));
        assert(2 * (uint_of(s.drop_first()) + (if b {
            pow2((s.len() - 1) as nat)
        } else {
            0nat
        })) == 2 * uint_of(s.drop_first()) + (if b {
            2 * pow2((s.len() - 1) as nat)
        } else {
            0nat
        }));
    }
}

/// Taking one more bit of a sequence adds that bit's weight.
pub proof fn lemma_uint_of_take_succ(s: Seq<bool>, i: int)
    requires
        0 <= i < s.len(),
    ensures
        uint_of(s.take(i + 1)) == uint_of(s.take(i)) + (if s[i] {
            pow2(i as nat)
        } else {
            0nat
        }),
{
    assert(s.take(i + 1) =~= s.take(i).push(s[i]));
    lemma_uint_of_snoc(s.take(i), s[i]);
}

/// Equal-length bit sequences denoting the same integer are equal.
pub proof fn lemma_uint_of_injective(s: Seq<bool>, t: Seq<bool>)
    requires
        s.len() == t.len(),
        uint_of(s) == uint_of(t),
    ensures
        s == t,
    decreases s.len(),
{
    if s.len() == 0 {
        assert(s =~= t);
    } else {
        let sv = uint_of(s.drop_first());
        let tv = uint_of(t.drop_first());
        if s[0] != t[0] {
            assert((if s[0] { 1nat } else { 0nat }) + 2 * sv == (if t[0] { 1nat } else { 0nat })
                + 2 * tv);
            assert(false);
        }
        lemma_uint_of_injective(s.drop_first(), t.drop_first());
        assert forall|i: int| 0 <= i < s.len() implies s[i] == t[i] by {
            if i > 0 {
                assert(s[i] == s.drop_first()[i - 1]);
                assert(t[i] == t.drop_first()[i - 1]);
            }
        }
        assert(s =~= t);
    }
}

/// The low m bits of a sequence denote its value modulo 2^m.
pub proof fn lemma_uint_of_take_mod(s: Seq<bool>, m: int)
    requires
        0 <= m <= s.len(),
    ensures
        uint_of(s.take(m)) == uint_of(s) % pow2(m as nat),
{
    lemma_uint_of_split(s, m);
    lemma_uint_of_bound(s.take(m));
    lemma_pow2_pos(m as nat);
    assert(s.take(m).len() == m);
    assert(uint_of(s.take(m)) < pow2(m as nat));
    assert(uint_of(s) as int == (uint_of(s.skip(m)) as int) * (pow2(m as nat) as int) + uint_of(
        s.take(m),
    ) as int) by (nonlinear_arith)
        requires
            uint_of(s) == uint_of(s.take(m)) + pow2(m as nat) * uint_of(s.skip(m)),
    ;
    vstd::arithmetic::div_mod::lemma_fundamental_div_mod_converse(
        uint_of(s) as int,
        pow2(m as nat) as int,
        uint_of(s.skip(m)) as int,
        uint_of(s.take(m)) as int,
    );
}

/// Shifting left by k (within width n) multiplies by 2^k modulo 2^n.
pub proof fn lemma_uint_of_shl(x: Seq<bool>, k: int)
    requires
        0 <= k <= x.len(),
    ensures
        uint_of(shl_bits(x, k)) == (uint_of(x) * pow2(k as nat)) % pow2(x.len()),
{
    let n = x.len() as int;
    let s = shl_bits(x, k);
    lemma_uint_of_split(s, k);
    lemma_uint_of_zeros(s.take(k));
    assert(s.skip(k) =~= x.take(n - k));
    lemma_uint_of_take_mod(x, n - k);
    lemma_pow2_pos(k as nat);
    lemma_pow2_pos((n - k) as nat);
    // 2^k * (x % 2^(n-k)) == (2^k * x) % (2^k * 2^(n-k)) == (x * 2^k) % 2^n
    vstd::arithmetic::div_mod::lemma_truncate_middle(
        uint_of(x) as int,
        pow2(k as nat) as int,
        pow2((n - k) as nat) as int,
    );
    lemma_pow2_adds(k as nat, (n - k) as nat);
    assert(uint_of(s) == pow2(k as nat) * (uint_of(x) % pow2((n - k) as nat)));
    vstd::arithmetic::mul::lemma_mul_is_commutative(
        pow2(k as nat) as int,
        uint_of(x) as int,
    );
}

/// Shifting right by k divides by 2^k.
pub proof fn lemma_uint_of_shr(x: Seq<bool>, k: int)
    requires
        0 <= k <= x.len(),
    ensures
        uint_of(shr_bits(x, k)) == uint_of(x) / pow2(k as nat),
{
    let n = x.len() as int;
    let s = shr_bits(x, k);
    lemma_uint_of_split(s, n - k);
    assert(s.take(n - k) =~= x.skip(k));
    assert(forall|i: int| 0 <= i < s.skip(n - k).len() ==> !(#[trigger] s.skip(n - k)[i]));
    lemma_uint_of_zeros(s.skip(n - k));
    assert(uint_of(s) == uint_of(x.skip(k)));
    lemma_uint_of_split(x, k);
    lemma_uint_of_bound(x.take(k));
    lemma_pow2_pos(k as nat);
    vstd::arithmetic::div_mod::lemma_fundamental_div_mod_converse(
        uint_of(x) as int,
        pow2(k as nat) as int,
        uint_of(x.skip(k)) as int,
        uint_of(x.take(k)) as int,
    );
}

/// uint_of of a full sequence, split at position i: low bits plus shifted high bits.
pub proof fn lemma_uint_of_split(s: Seq<bool>, i: int)
    requires
        0 <= i <= s.len(),
    ensures
        uint_of(s) == uint_of(s.take(i)) + pow2(i as nat) * uint_of(s.skip(i)),
    decreases s.len() - i,
{
    if i == s.len() {
        assert(s.take(i) =~= s);
        assert(s.skip(i) =~= Seq::<bool>::empty());
        assert(uint_of(s.skip(i)) == 0);
        assert(pow2(i as nat) * uint_of(s.skip(i)) == 0);
        assert(uint_of(s) == uint_of(s.take(i)) + pow2(i as nat) * uint_of(s.skip(i)));
    } else {
        lemma_uint_of_split(s, i + 1);
        lemma_uint_of_take_succ(s, i);
        assert(s.skip(i).drop_first() =~= s.skip(i + 1));
        assert(s.skip(i)[0] == s[i]);
        assert(uint_of(s.skip(i)) == (if s[i] {
            1nat
        } else {
            0nat
        }) + 2 * uint_of(s.skip(i + 1)));
        lemma_pow2_adds(i as nat, 1);
        vstd::arithmetic::power2::lemma2_to64();
        assert(pow2(i as nat + 1) == pow2(i as nat) * 2);
        let p = pow2(i as nat) as int;
        let hb: int = if s[i] {
            1int
        } else {
            0int
        };
        let hi = uint_of(s.skip(i + 1)) as int;
        vstd::arithmetic::mul::lemma_mul_is_distributive_add(p, hb, 2 * hi);
        assert(p * (2 * hi) == (p * 2) * hi) by (nonlinear_arith);
        assert(p * hb == if s[i] {
            p
        } else {
            0int
        });
        assert(uint_of(s.skip(i)) == hb + 2 * hi);
        assert(pow2(i as nat) * uint_of(s.skip(i)) == p * (hb + 2 * hi));
        assert(pow2((i + 1) as nat) * uint_of(s.skip(i + 1)) == (p * 2) * hi);
        assert(uint_of(s.take(i)) + pow2(i as nat) * uint_of(s.skip(i)) == uint_of(s.take(i + 1))
            + pow2((i + 1) as nat) * uint_of(s.skip(i + 1)));
    }
}

} // verus!
