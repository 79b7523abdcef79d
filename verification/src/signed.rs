use vstd::prelude::*;

verus! {

use vstd::arithmetic::power2::pow2;
use vstd::arithmetic::power2::lemma_pow2_adds;
use vstd::arithmetic::power2::lemma_pow2_pos;
use vstd::arithmetic::power2::lemma_pow2_strictly_increases;
use vstd::arithmetic::power2::lemma2_to64;
use crate::bits::uint_of;
use crate::bits::sint_of;
use crate::bits::lemma_uint_of_bound;
use crate::bits::lemma_sint_of_bounds;
use crate::codec::bits_of_u128;
use crate::codec::u128_of_bits;
use crate::codec::pow2_u128;
use crate::codec::lemma_pow2_128;
use crate::uint::GarbledUint;
use crate::circuit::BoolCircuit;
use crate::mpc::MpcError;

pub type GarbledInt1 = GarbledInt<1>;

pub type GarbledInt2 = GarbledInt<2>;

pub type GarbledInt4 = GarbledInt<4>;

pub type GarbledInt8 = GarbledInt<8>;

pub type GarbledInt16 = GarbledInt<16>;

pub type GarbledInt32 = GarbledInt<32>;

pub type GarbledInt64 = GarbledInt<64>;

pub type GarbledInt128 = GarbledInt<128>;

/// A fixed-width signed integer held as its two's-complement bits,
/// least-significant first.
#[derive(Clone, Debug)]
pub struct GarbledInt<const N: usize> {
    pub bits: Vec<bool>,
}

impl<const N: usize> GarbledInt<N> {
    /// The width invariant: exactly N bits.
    pub open spec fn wf(self) -> bool {
        self.bits@.len() == N
    }

    /// The two's-complement value the bits denote.
    pub open spec fn value(self) -> int {
        sint_of(self.bits@)
    }

    /// Wraps a bit vector of exactly N bits.
    pub fn new(bits: Vec<bool>) -> (r: GarbledInt<N>)
        requires
            bits@.len() == N,
        ensures
            r.wf(),
            r.bits@ == bits@,
    {
        GarbledInt { bits }
    }

    /// Reinterprets an unsigned value of the same width: the bits are copied
    /// unchanged, only the reading changes.
    pub fn from_uint(u: GarbledUint<N>) -> (r: GarbledInt<N>)
        ensures
            r.bits@ == u.bits@,
    {
        GarbledInt { bits: u.bits }
    }

    /// Reinterprets back to unsigned, bit for bit.
    pub fn to_uint(self) -> (r: GarbledUint<N>)
        ensures
            r.bits@ == self.bits@,
    {
        GarbledUint { bits: self.bits }
    }

    /// Simulates the local execution of a circuit using the two-party MPC
    /// protocol; the messages between contributor and evaluator are exchanged
    /// in process, as if under ideal network conditions. On success the
    /// returned bits are the circuit's reference evaluation of the
    /// concatenated inputs.
    pub fn simulate(
        &self,
        circuit: &BoolCircuit,
        input_contributor: &Vec<bool>,
        input_evaluator: &Vec<bool>,
    ) -> (r: Result<Vec<bool>, MpcError>)
        requires
            circuit.wf(),
        ensures
            r matches Ok(bits) ==> bits@ == circuit.outputs_on(
                input_contributor@ + input_evaluator@,
            ),
    {
        crate::mpc::simulate(circuit, input_contributor, input_evaluator)
    }

    /// Encodes the low N bits of a host integer's two's-complement pattern.
    pub fn from_i128(v: i128) -> (r: GarbledInt<N>)
        requires
            1 <= N <= 128,
        ensures
            r.wf(),
            uint_of(r.bits@) as int == (v as int) % (pow2(N as nat) as int),
            r.bits@ == crate::bits::encode_bits(((v as int) % (pow2(N as nat) as int)) as nat, N as nat),
    {
        proof {
            lemma_pow2_pos(N as nat);
        }
        if v >= 0 {
            let r = GarbledInt { bits: bits_of_u128(v as u128, N) };
            proof {
                crate::laws::lemma_encode_then_decode(
                    ((v as int) % (pow2(N as nat) as int)) as nat,
                    N as nat,
                );
                vstd::arithmetic::div_mod::lemma_mod_bound(v as int, pow2(N as nat) as int);
                vstd::arithmetic::div_mod::lemma_mod_twice(v as int, pow2(N as nat) as int);
                crate::bits::lemma_uint_of_injective(
                    r.bits@,
                    crate::bits::encode_bits(((v as int) % (pow2(N as nat) as int)) as nat, N as nat),
                );
            }
            r
        } else {
            let mag = ((-(v + 1)) as u128) + 1;
            let pattern = u128::MAX - mag + 1;
            let r = GarbledInt { bits: bits_of_u128(pattern, N) };
            proof {
                lemma_pow2_128();
                lemma_pow2_adds(N as nat, (128 - N) as nat);
                assert(pattern as int == pow2(128) as int + v);
                // adding the multiple 2^128 of 2^N does not change the residue
                vstd::arithmetic::div_mod::lemma_mod_multiples_vanish(
                    pow2((128 - N) as nat) as int,
                    v as int,
                    pow2(N as nat) as int,
                );
                crate::laws::lemma_encode_then_decode(
                    ((v as int) % (pow2(N as nat) as int)) as nat,
                    N as nat,
                );
                vstd::arithmetic::div_mod::lemma_mod_bound(v as int, pow2(N as nat) as int);
                vstd::arithmetic::div_mod::lemma_mod_twice(v as int, pow2(N as nat) as int);
                crate::bits::lemma_uint_of_injective(
                    r.bits@,
                    crate::bits::encode_bits(((v as int) % (pow2(N as nat) as int)) as nat, N as nat),
                );
            }
            r
        }
    }

    pub fn from_i8(v: i8) -> (r: GarbledInt<N>)
        requires
            1 <= N <= 8,
        ensures
            r.wf(),
            uint_of(r.bits@) as int == (v as int) % (pow2(N as nat) as int),
    {
        Self::from_i128(v as i128)
    }

    pub fn from_i16(v: i16) -> (r: GarbledInt<N>)
        requires
            1 <= N <= 16,
        ensures
            r.wf(),
            uint_of(r.bits@) as int == (v as int) % (pow2(N as nat) as int),
    {
        Self::from_i128(v as i128)
    }

    pub fn from_i32(v: i32) -> (r: GarbledInt<N>)
        requires
            1 <= N <= 32,
        ensures
            r.wf(),
            uint_of(r.bits@) as int == (v as int) % (pow2(N as nat) as int),
    {
        Self::from_i128(v as i128)
    }

    pub fn from_i64(v: i64) -> (r: GarbledInt<N>)
        requires
            1 <= N <= 64,
        ensures
            r.wf(),
            uint_of(r.bits@) as int == (v as int) % (pow2(N as nat) as int),
    {
        Self::from_i128(v as i128)
    }

    /// Decodes the two's-complement bits into a host integer, sign-extending
    /// from the top bit.
    pub fn to_i128(&self) -> (r: i128)
        requires
            self.wf(),
            1 <= N <= 128,
        ensures
            r as int == self.value(),
    {
        let u = u128_of_bits(&self.bits);
        let sign = self.bits[N - 1];
        proof {
            lemma_sint_of_bounds(self.bits@);
            lemma_uint_of_bound(self.bits@);
            lemma_uint_of_bound(self.bits@.take(N - 1));
            if N < 128 {
                lemma_pow2_strictly_increases(N as nat, 128);
                lemma_pow2_strictly_increases((N - 1) as nat, 127);
            }
            lemma_pow2_128();
            lemma2_to64();
        }
        if !sign {
            u as i128
        } else {
            let diff: u128 = if N < 128 {
                let p = pow2_u128(N);
                p - u
            } else {
                (u128::MAX - u) + 1
            };
            proof {
                assert(diff as int == pow2(N as nat) - uint_of(self.bits@));
                assert(diff >= 1);
                assert(uint_of(self.bits@) >= pow2((N - 1) as nat));
                vstd::arithmetic::power2::lemma_pow2_unfold(N as nat);
                assert(diff as int <= pow2((N - 1) as nat));
            }
            -((diff - 1) as i128) - 1
        }
    }

    pub fn to_i8(&self) -> (r: i8)
        requires
            self.wf(),
            1 <= N <= 8,
        ensures
            r as int == self.value(),
    {
        let v = self.to_i128();
        proof {
            lemma_sint_of_bounds(self.bits@);
            if N < 8 {
                lemma_pow2_strictly_increases((N - 1) as nat, 7);
            }
            lemma2_to64();
        }
        v as i8
    }

    pub fn to_i16(&self) -> (r: i16)
        requires
            self.wf(),
            1 <= N <= 16,
        ensures
            r as int == self.value(),
    {
        let v = self.to_i128();
        proof {
            lemma_sint_of_bounds(self.bits@);
            if N < 16 {
                lemma_pow2_strictly_increases((N - 1) as nat, 15);
            }
            lemma2_to64();
        }
        v as i16
    }

    pub fn to_i32(&self) -> (r: i32)
        requires
            self.wf(),
            1 <= N <= 32,
        ensures
            r as int == self.value(),
    {
        let v = self.to_i128();
        proof {
            lemma_sint_of_bounds(self.bits@);
            if N < 32 {
                lemma_pow2_strictly_increases((N - 1) as nat, 31);
            }
            lemma2_to64();
        }
        v as i32
    }

    pub fn to_i64(&self) -> (r: i64)
        requires
            self.wf(),
            1 <= N <= 64,
        ensures
            r as int == self.value(),
    {
        let v = self.to_i128();
        proof {
            lemma_sint_of_bounds(self.bits@);
            if N < 64 {
                lemma_pow2_strictly_increases((N - 1) as nat, 63);
            }
            lemma2_to64();
            vstd::arithmetic::power2::lemma2_to64_rest();
        }
        v as i64
    }
}

} // verus!
