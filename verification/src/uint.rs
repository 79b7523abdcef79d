use vstd::prelude::*;

verus! {

use vstd::arithmetic::power2::pow2;
use vstd::arithmetic::power2::lemma_pow2_strictly_increases;
use vstd::arithmetic::power2::lemma2_to64;
use crate::bits::uint_of;
use crate::bits::lemma_uint_of_bound;
use crate::codec::bits_of_u128;
use crate::codec::u128_of_bits;
use crate::circuit::MAX_GATES;
use crate::circuit::BoolCircuit;
use crate::circuit::wire_value;
use crate::circuit::wire_values;
use crate::builder::CircuitBuilder;
use crate::mpc::MpcError;
use crate::mpc::execute;

/// The outcome of an MPC comparison of two garbled values.
#[derive(Clone, Copy, Debug, PartialEq, Eq, Structural)]
pub enum CmpOrder {
    Less,
    Equal,
    Greater,
}

pub type GarbledUint1 = GarbledUint<1>;

pub type GarbledUint2 = GarbledUint<2>;

pub type GarbledUint4 = GarbledUint<4>;

pub type GarbledUint8 = GarbledUint<8>;

pub type GarbledUint16 = GarbledUint<16>;

pub type GarbledUint32 = GarbledUint<32>;

pub type GarbledUint64 = GarbledUint<64>;

pub type GarbledUint128 = GarbledUint<128>;

/// The three-way ordering of two unsigned integers.
pub open spec fn cmp_order_of(x: nat, y: nat) -> CmpOrder {
    if x < y {
        CmpOrder::Less
    } else if x == y {
        CmpOrder::Equal
    } else {
        CmpOrder::Greater
    }
}

/// Decides the three-way ordering from a comparator circuit's two output
/// bits, the less-than bit and the equality bit: whenever the bits really are
/// `x < y` and `x == y` for some pair of values, the decision is the ordering
/// of that pair.
pub fn order_of_bits(lt: bool, eq: bool) -> (r: CmpOrder)
    ensures
        lt ==> r == CmpOrder::Less,
        !lt && eq ==> r == CmpOrder::Equal,
        !lt && !eq ==> r == CmpOrder::Greater,
        forall|x: nat, y: nat|
            lt == (x < y) && eq == (x == y) ==> r == #[trigger] cmp_order_of(x, y),
{
    if lt {
        CmpOrder::Less
    } else if eq {
        CmpOrder::Equal
    } else {
        CmpOrder::Greater
    }
}

/// Builds the two-party comparator circuit of width n: the contributor's n
/// input bits are one value, the evaluator's n bits the other, and under
/// every input assignment the two outputs are exactly the less-than bit and
/// the equality bit of the pair.
pub fn comparator_circuit(n: usize) -> (c: BoolCircuit)
    requires
        1 <= n,
        16 * n + 16 <= MAX_GATES,
    ensures
        c.wf(),
        c.n_contrib == n,
        c.n_eval == n,
        c.output_wires@.len() == 2,
        forall|inp: Seq<bool>|
            inp.len() == 2 * n ==> #[trigger] c.outputs_on(inp) == seq![
                (uint_of(inp.take(n as int)) < uint_of(inp.subrange(n as int, 2 * n as int))),
                (uint_of(inp.take(n as int)) == uint_of(inp.subrange(n as int, 2 * n as int))),
            ],
{
    let mut b = CircuitBuilder::new();
    let x = b.input_contrib(n);
    let ghost g1 = b;
    let y = b.input_eval(n);
    let ghost g2 = b;
    let lt = b.lt_wire(&x, &y);
    let ghost g3 = b;
    let eq = b.eq_wire(&x, &y);
    let ghost g4 = b;
    let mut outs: Vec<u32> = Vec::new();
    outs.push(lt);
    outs.push(eq);
    let c = b.finalize(outs);
    proof {
        let g = g4.gates@;
        assert forall|inp: Seq<bool>| inp.len() == 2 * n implies #[trigger] c.outputs_on(inp)
            == seq![
            (uint_of(inp.take(n as int)) < uint_of(inp.subrange(n as int, 2 * n as int))),
            (uint_of(inp.take(n as int)) == uint_of(inp.subrange(n as int, 2 * n as int))),
        ] by {
            // the input bundles carry the two halves of the assignment
            assert forall|k: int| 0 <= k < n implies wire_value(g, inp, x@[k] as int) == inp[k] by {
                assert(wire_value(g2.gates@, inp, x@[k] as int) == wire_value(
                    g1.gates@,
                    inp,
                    x@[k] as int,
                ));
                assert(wire_value(g1.gates@, inp, x@[k] as int) == inp[x@[k] as int]);
                assert(x@[k] as int == k);
            }
            assert forall|k: int| 0 <= k < n implies wire_value(g, inp, y@[k] as int) == inp[n
                + k] by {
                assert(wire_value(g2.gates@, inp, y@[k] as int) == inp[y@[k] as int]);
                assert(y@[k] as int == n + k);
            }
            assert(wire_values(g, inp, x@) =~= inp.take(n as int));
            assert(wire_values(g, inp, y@) =~= inp.subrange(n as int, 2 * n as int));
            // the two output wires decide exactly the pair's comparison
            assert(wire_value(g, inp, lt as int) == wire_value(g3.gates@, inp, lt as int));
            assert(wire_values(g3.gates@, inp, x@) =~= wire_values(g, inp, x@));
            assert(wire_values(g3.gates@, inp, y@) =~= wire_values(g, inp, y@));
            assert(wire_value(g3.gates@, inp, lt as int) == (crate::ops::bundle_uint(
                g3.gates@,
                inp,
                x@,
            ) < crate::ops::bundle_uint(g3.gates@, inp, y@)));
            assert(wire_value(g, inp, eq as int) == (crate::ops::bundle_uint(g, inp, x@)
                == crate::ops::bundle_uint(g, inp, y@)));
            assert(c.outputs_on(inp) =~= seq![
                wire_value(g, inp, lt as int),
                wire_value(g, inp, eq as int),
            ]);
        }
    }
    c
}

/// Builds the two-party equality circuit of width n: one output that, under
/// every input assignment, is 1 exactly when the contributor's half equals
/// the evaluator's half.
pub fn equality_circuit(n: usize) -> (c: BoolCircuit)
    requires
        1 <= n,
        16 * n + 16 <= MAX_GATES,
    ensures
        c.wf(),
        c.n_contrib == n,
        c.n_eval == n,
        c.output_wires@.len() == 1,
        forall|inp: Seq<bool>|
            inp.len() == 2 * n ==> #[trigger] c.outputs_on(inp) == seq![
                (uint_of(inp.take(n as int)) == uint_of(inp.subrange(n as int, 2 * n as int))),
            ],
{
    let mut b = CircuitBuilder::new();
    let x = b.input_contrib(n);
    let ghost g1 = b;
    let y = b.input_eval(n);
    let ghost g2 = b;
    let eq = b.eq_wire(&x, &y);
    let ghost g3 = b;
    let mut outs: Vec<u32> = Vec::new();
    outs.push(eq);
    let c = b.finalize(outs);
    proof {
        let g = g3.gates@;
        assert forall|inp: Seq<bool>| inp.len() == 2 * n implies #[trigger] c.outputs_on(inp)
            == seq![
            (uint_of(inp.take(n as int)) == uint_of(inp.subrange(n as int, 2 * n as int))),
        ] by {
            assert forall|k: int| 0 <= k < n implies wire_value(g, inp, x@[k] as int) == inp[k] by {
                assert(wire_value(g2.gates@, inp, x@[k] as int) == wire_value(
                    g1.gates@,
                    inp,
                    x@[k] as int,
                ));
                assert(wire_value(g1.gates@, inp, x@[k] as int) == inp[x@[k] as int]);
                assert(x@[k] as int == k);
            }
            assert forall|k: int| 0 <= k < n implies wire_value(g, inp, y@[k] as int) == inp[n
                + k] by {
                assert(wire_value(g2.gates@, inp, y@[k] as int) == inp[y@[k] as int]);
                assert(y@[k] as int == n + k);
            }
            assert(wire_values(g, inp, x@) =~= inp.take(n as int));
            assert(wire_values(g, inp, y@) =~= inp.subrange(n as int, 2 * n as int));
            assert(wire_value(g, inp, eq as int) == (crate::ops::bundle_uint(g, inp, x@)
                == crate::ops::bundle_uint(g, inp, y@)));
            assert(c.outputs_on(inp) =~= seq![wire_value(g, inp, eq as int)]);
        }
    }
    c
}

/// Reads the single bit a one-output circuit execution handed back.
fn output_bit(bits: &Vec<bool>) -> (r: bool)
    requires
        bits@.len() >= 1,
    ensures
        r == bits@[0],
{
    bits[0]
}

/// A fixed-width unsigned integer held as its bits, least-significant first.
#[derive(Clone, Debug)]
pub struct GarbledUint<const N: usize> {
    pub bits: Vec<bool>,
}

impl<const N: usize> GarbledUint<N> {
    /// The width invariant: exactly N bits.
    pub open spec fn wf(self) -> bool {
        self.bits@.len() == N
    }

    /// The unsigned value the bits denote.
    pub open spec fn value(self) -> nat {
        uint_of(self.bits@)
    }

    /// Wraps a bit vector of exactly N bits.
    pub fn new(bits: Vec<bool>) -> (r: GarbledUint<N>)
        requires
            bits@.len() == N,
        ensures
            r.wf(),
            r.bits@ == bits@,
    {
        GarbledUint { bits }
    }

    /// Encodes the low N bits of a host integer, least-significant bit first.
    pub fn from_u128(v: u128) -> (r: GarbledUint<N>)
        requires
            1 <= N <= 128,
        ensures
            r.wf(),
            r.value() == (v as nat) % pow2(N as nat),
            r.bits@ == crate::bits::encode_bits(v as nat, N as nat),
    {
        GarbledUint { bits: bits_of_u128(v, N) }
    }

    pub fn from_u8(v: u8) -> (r: GarbledUint<N>)
        requires
            1 <= N <= 8,
        ensures
            r.wf(),
            r.value() == (v as nat) % pow2(N as nat),
    {
        Self::from_u128(v as u128)
    }

    pub fn from_u16(v: u16) -> (r: GarbledUint<N>)
        requires
            1 <= N <= 16,
        ensures
            r.wf(),
            r.value() == (v as nat) % pow2(N as nat),
    {
        Self::from_u128(v as u128)
    }

    pub fn from_u32(v: u32) -> (r: GarbledUint<N>)
        requires
            1 <= N <= 32,
        ensures
            r.wf(),
            r.value() == (v as nat) % pow2(N as nat),
    {
        Self::from_u128(v as u128)
    }

    pub fn from_u64(v: u64) -> (r: GarbledUint<N>)
        requires
            1 <= N <= 64,
        ensures
            r.wf(),
            r.value() == (v as nat) % pow2(N as nat),
    {
        Self::from_u128(v as u128)
    }

    /// Decodes the bits back into a host integer.
    pub fn to_u128(&self) -> (r: u128)
        requires
            self.wf(),
            1 <= N <= 128,
        ensures
            r as nat == self.value(),
    {
        u128_of_bits(&self.bits)
    }

    pub fn to_u8(&self) -> (r: u8)
        requires
            self.wf(),
            1 <= N <= 8,
        ensures
            r as nat == self.value(),
    {
        let v = self.to_u128();
        proof {
            lemma_uint_of_bound(self.bits@);
            if N < 8 {
                lemma_pow2_strictly_increases(N as nat, 8);
            }
            lemma2_to64();
        }
        v as u8
    }

    pub fn to_u16(&self) -> (r: u16)
        requires
            self.wf(),
            1 <= N <= 16,
        ensures
            r as nat == self.value(),
    {
        let v = self.to_u128();
        proof {
            lemma_uint_of_bound(self.bits@);
            if N < 16 {
                lemma_pow2_strictly_increases(N as nat, 16);
            }
            lemma2_to64();
        }
        v as u16
    }

    pub fn to_u32(&self) -> (r: u32)
        requires
            self.wf(),
            1 <= N <= 32,
        ensures
            r as nat == self.value(),
    {
        let v = self.to_u128();
        proof {
            lemma_uint_of_bound(self.bits@);
            if N < 32 {
                lemma_pow2_strictly_increases(N as nat, 32);
            }
            lemma2_to64();
        }
        v as u32
    }

    /// Compares two values of one width under MPC: a circuit with one
    /// less-than and one equality output is built, with `self` as the
    /// contributor's private input and `other` as the evaluator's, and the
    /// cryptographic protocol is run over it. The circuit's outputs are exact
    /// (see `lt_wire` and `eq_wire`), and `order_of_bits` fixes the decision
    /// made on the two returned bits; the bits themselves are whatever the
    /// protocol computed.
    pub fn compare(&self, other: &GarbledUint<N>) -> (r: Result<CmpOrder, MpcError>)
        requires
            self.wf(),
            other.wf(),
            1 <= N,
            16 * N + 16 <= MAX_GATES,
        ensures
            r matches Ok(o) ==> o == cmp_order_of(self.value(), other.value()),
    {
        let c = comparator_circuit(N);
        let bits = match execute(&c, &self.bits, &other.bits) {
            Ok(bits) => bits,
            Err(e) => {
                return Err(e);
            },
        };
        proof {
            let joined = self.bits@ + other.bits@;
            assert(joined.len() == 2 * N);
            assert(joined.take(N as int) =~= self.bits@);
            assert(joined.subrange(N as int, 2 * N as int) =~= other.bits@);
            assert(bits@ == c.outputs_on(joined));
            assert(bits@[0] == (self.value() < other.value()));
            assert(bits@[1] == (self.value() == other.value()));
        }
        Ok(order_of_bits(bits[0], bits[1]))
    }

    /// Tests two values of one width for equality under MPC, through a
    /// single-output equality circuit.
    pub fn equals(&self, other: &GarbledUint<N>) -> (r: Result<bool, MpcError>)
        requires
            self.wf(),
            other.wf(),
            1 <= N,
            16 * N + 16 <= MAX_GATES,
        ensures
            r matches Ok(b) ==> b == (self.value() == other.value()),
    {
        let c = equality_circuit(N);
        let bits = match execute(&c, &self.bits, &other.bits) {
            Ok(bits) => bits,
            Err(e) => {
                return Err(e);
            },
        };
        proof {
            let joined = self.bits@ + other.bits@;
            assert(joined.len() == 2 * N);
            assert(joined.take(N as int) =~= self.bits@);
            assert(joined.subrange(N as int, 2 * N as int) =~= other.bits@);
            assert(bits@ == c.outputs_on(joined));
            assert(bits@[0] == (self.value() == other.value()));
        }
        Ok(output_bit(&bits))
    }

    pub fn to_u64(&self) -> (r: u64)
        requires
            self.wf(),
            1 <= N <= 64,
        ensures
            r as nat == self.value(),
    {
        let v = self.to_u128();
        proof {
            lemma_uint_of_bound(self.bits@);
            if N < 64 {
                lemma_pow2_strictly_increases(N as nat, 64);
            }
            lemma2_to64();
        }
        v as u64
    }
}

} // verus!
