use vstd::prelude::*;

verus! {

use vstd::arithmetic::power2::pow2;
use vstd::arithmetic::power2::lemma_pow2_unfold;
use vstd::arithmetic::power2::lemma_pow2_pos;
use vstd::arithmetic::div_mod::lemma_fundamental_div_mod_converse;
use crate::bits::uint_of;
use crate::bits::not_bits;
use crate::bits::lemma_uint_of_bound;
use crate::bits::lemma_uint_of_snoc;
use crate::circuit::Gate;
use crate::circuit::MAX_GATES;
use crate::circuit::wire_value;
use crate::circuit::wire_values;
use crate::circuit::bundle_ok;
use crate::builder::CircuitBuilder;

/// The unsigned integer carried by a wire bundle under one input assignment.
pub open spec fn bundle_uint(gates: Seq<Gate>, inp: Seq<bool>, ws: Seq<u32>) -> nat {
    uint_of(wire_values(gates, inp, ws))
}

/// 0 or 1 as a number.
pub open spec fn bit_nat(b: bool) -> nat {
    if b {
        1
    } else {
        0
    }
}

/// A conditional weight equals the weight times the bit's numeric value.
pub proof fn lemma_bit_weight(p: nat, b: bool)
    ensures
        (if b {
            p
        } else {
            0nat
        }) == p * bit_nat(b),
{
    if b {
        vstd::arithmetic::mul::lemma_mul_basics(p as int);
    } else {
        vstd::arithmetic::mul::lemma_mul_by_zero_is_zero(p as int);
    }
}

/// An elementwise Boolean connective over two wire bundles.
#[derive(Clone, Copy, Debug, PartialEq, Eq, Structural)]
pub enum BitOp {
    And,
    Or,
    Xor,
    Nand,
    Nor,
    Xnor,
}

/// The Boolean function a `BitOp` computes on one pair of bits.
pub open spec fn apply_bit_op(op: BitOp, x: bool, y: bool) -> bool {
    match op {
        BitOp::And => x && y,
        BitOp::Or => x || y,
        BitOp::Xor => x != y,
        BitOp::Nand => !(x && y),
        BitOp::Nor => !(x || y),
        BitOp::Xnor => x == y,
    }
}

/// The elementwise image of a `BitOp` over two equal-length bit sequences.
pub open spec fn map_bit_op(op: BitOp, x: Seq<bool>, y: Seq<bool>) -> Seq<bool> {
    Seq::new(x.len(), |i: int| apply_bit_op(op, x[i], y[i]))
}

/// The restoring-division invariant after `i` of `n` steps: the quotient bits
/// collected so far (most significant first, read back LSB-first after
/// reversal) and the remainder register stand exactly where long division of
/// the top `i` dividend bits by the divisor stands; with a zero divisor every
/// quotient bit is 1 and the register replays the dividend bits.
pub open spec fn div_step_inv(
    gates: Seq<Gate>,
    inp: Seq<bool>,
    a: Seq<u32>,
    b: Seq<u32>,
    rem: Seq<u32>,
    qrev: Seq<u32>,
    i: int,
    n: int,
) -> bool {
    let d = bundle_uint(gates, inp, b);
    let ai = uint_of(wire_values(gates, inp, a).skip(n - i));
    let ri = bundle_uint(gates, inp, rem);
    let qi = uint_of(wire_values(gates, inp, qrev).reverse());
    &&& ri < pow2(n as nat)
    &&& (d > 0 ==> qi == ai / d && ri == ai % d)
    &&& (d == 0 ==> qi == pow2(i as nat) - 1 && ri == ai)
}

/// `not_bits` of the uint reading: inverting all bits complements against 2^n - 1.
pub proof fn lemma_uint_of_not(s: Seq<bool>)
    ensures
        uint_of(not_bits(s)) == pow2(s.len()) - 1 - uint_of(s),
    decreases s.len(),
{
    if s.len() == 0 {
        assert(not_bits(s) =~= Seq::<bool>::empty());
        vstd::arithmetic::power2::lemma2_to64();
    } else {
        assert(not_bits(s).drop_first() =~= not_bits(s.drop_first()));
        lemma_uint_of_not(s.drop_first());
        lemma_uint_of_bound(s.drop_first());
        lemma_pow2_unfold(s.len());
    }
}

impl CircuitBuilder {
    /// Binds `n` fresh contributor input bits as one bundle; the bundle's bits
    /// under an assignment are exactly that assignment's slice at these wires.
    pub fn input_contrib(&mut self, n: usize) -> (r: Vec<u32>)
        requires
            old(self).wf(),
            old(self).gates@.len() == old(self).n_contrib,
            old(self).n_eval == 0,
            old(self).gates@.len() + n <= MAX_GATES,
        ensures
            final(self).wf(),
            final(self).gates@.len() == old(self).gates@.len() + n,
            final(self).gates@.len() == final(self).n_contrib,
            final(self).n_eval == 0,
            final(self).zero == old(self).zero,
            final(self).one == old(self).one,
            old(self).gates@.is_prefix_of(final(self).gates@),
            r@.len() == n,
            bundle_ok(r@, final(self).len()),
            forall|k: int| 0 <= k < n ==> r@[k] as int == old(self).gates@.len() + k,
            forall|inp: Seq<bool>, w: int|
                0 <= w < old(self).gates@.len() ==> #[trigger] wire_value(final(self).gates@, inp, w)
                    == wire_value(old(self).gates@, inp, w),
            forall|inp: Seq<bool>, k: int|
                0 <= k < n ==> #[trigger] wire_value(final(self).gates@, inp, r@[k] as int)
                    == inp[r@[k] as int],
    {
        let mut r: Vec<u32> = Vec::new();
        let mut i: usize = 0;
        while i < n
            invariant
                self.wf(),
                self.gates@.len() == old(self).gates@.len() + i,
                self.gates@.len() == self.n_contrib,
                self.n_eval == 0,
                self.zero == old(self).zero,
                self.one == old(self).one,
                old(self).gates@.is_prefix_of(self.gates@),
                old(self).gates@.len() + n <= MAX_GATES,
                i <= n,
                r@.len() == i,
                forall|k: int| 0 <= k < i ==> r@[k] as int == old(self).gates@.len() + k,
                forall|inp: Seq<bool>, w: int|
                    0 <= w < old(self).gates@.len() ==> #[trigger] wire_value(
                        self.gates@,
                        inp,
                        w,
                    ) == wire_value(old(self).gates@, inp, w),
                forall|inp: Seq<bool>, k: int|
                    0 <= k < i ==> #[trigger] wire_value(self.gates@, inp, r@[k] as int)
                        == inp[r@[k] as int],
            decreases n - i,
        {
            let w = self.push_input_contrib();
            r.push(w);
            i += 1;
        }
        r
    }

    /// Binds `n` fresh evaluator input bits as one bundle.
    pub fn input_eval(&mut self, n: usize) -> (r: Vec<u32>)
        requires
            old(self).wf(),
            old(self).gates@.len() == old(self).n_contrib + old(self).n_eval,
            old(self).gates@.len() + n <= MAX_GATES,
        ensures
            final(self).wf(),
            final(self).gates@.len() == old(self).gates@.len() + n,
            final(self).gates@.len() == final(self).n_contrib + final(self).n_eval,
            final(self).n_contrib == old(self).n_contrib,
            final(self).zero == old(self).zero,
            final(self).one == old(self).one,
            old(self).gates@.is_prefix_of(final(self).gates@),
            r@.len() == n,
            bundle_ok(r@, final(self).len()),
            forall|k: int| 0 <= k < n ==> r@[k] as int == old(self).gates@.len() + k,
            forall|inp: Seq<bool>, w: int|
                0 <= w < old(self).gates@.len() ==> #[trigger] wire_value(final(self).gates@, inp, w)
                    == wire_value(old(self).gates@, inp, w),
            forall|inp: Seq<bool>, k: int|
                0 <= k < n ==> #[trigger] wire_value(final(self).gates@, inp, r@[k] as int)
                    == inp[r@[k] as int],
    {
        let mut r: Vec<u32> = Vec::new();
        let mut i: usize = 0;
        while i < n
            invariant
                self.wf(),
                self.gates@.len() == old(self).gates@.len() + i,
                self.gates@.len() == self.n_contrib + self.n_eval,
                self.n_contrib == old(self).n_contrib,
                self.zero == old(self).zero,
                self.one == old(self).one,
                old(self).gates@.is_prefix_of(self.gates@),
                old(self).gates@.len() + n <= MAX_GATES,
                i <= n,
                r@.len() == i,
                forall|k: int| 0 <= k < i ==> r@[k] as int == old(self).gates@.len() + k,
                forall|inp: Seq<bool>, w: int|
                    0 <= w < old(self).gates@.len() ==> #[trigger] wire_value(
                        self.gates@,
                        inp,
                        w,
                    ) == wire_value(old(self).gates@, inp, w),
                forall|inp: Seq<bool>, k: int|
                    0 <= k < i ==> #[trigger] wire_value(self.gates@, inp, r@[k] as int)
                        == inp[r@[k] as int],
            decreases n - i,
        {
            let w = self.push_input_eval();
            r.push(w);
            i += 1;
        }
        r
    }

    /// Appends gates computing the disjunction of two wires: `(a ^ b) ^ (a & b)`.
    pub fn push_or(&mut self, a: u32, b: u32) -> (r: u32)
        requires
            old(self).wf(),
            (a as int) < old(self).len(),
            (b as int) < old(self).len(),
            old(self).len() + 3 <= MAX_GATES,
        ensures
            final(self).wf(),
            CircuitBuilder::extends(*final(self), *old(self)),
            final(self).len() <= old(self).len() + 3,
            (r as int) < final(self).len(),
            final(self).zero == old(self).zero,
            final(self).one == old(self).one,
            forall|inp: Seq<bool>| #[trigger] wire_value(final(self).gates@, inp, r as int)
                == (wire_value(final(self).gates@, inp, a as int) || wire_value(
                final(self).gates@,
                inp,
                b as int,
            )),
    {
        let x = self.push_xor(a, b);
        let y = self.push_and(a, b);
        self.push_xor(x, y)
    }

    /// Applies one Boolean connective elementwise over two wire bundles.
    pub fn map2(&mut self, op: BitOp, a: &Vec<u32>, b: &Vec<u32>) -> (r: Vec<u32>)
        requires
            old(self).wf(),
            a@.len() == b@.len(),
            bundle_ok(a@, old(self).len()),
            bundle_ok(b@, old(self).len()),
            old(self).len() + 4 * a@.len() <= MAX_GATES,
        ensures
            final(self).wf(),
            CircuitBuilder::extends(*final(self), *old(self)),
            final(self).len() <= old(self).len() + 4 * a@.len(),
            final(self).zero == old(self).zero,
            final(self).one == old(self).one,
            r@.len() == a@.len(),
            bundle_ok(r@, final(self).len()),
            forall|inp: Seq<bool>| #[trigger] wire_values(final(self).gates@, inp, r@)
                == map_bit_op(
                op,
                wire_values(final(self).gates@, inp, a@),
                wire_values(final(self).gates@, inp, b@),
            ),
    {
        let n = a.len();
        let mut r: Vec<u32> = Vec::new();
        let mut i: usize = 0;
        while i < n
            invariant
                self.wf(),
                CircuitBuilder::extends(*self, *old(self)),
                self.len() <= old(self).len() + 4 * i,
                self.zero == old(self).zero,
                self.one == old(self).one,
                n == a@.len(),
                a@.len() == b@.len(),
                bundle_ok(a@, old(self).len()),
                bundle_ok(b@, old(self).len()),
                old(self).len() + 4 * n <= MAX_GATES,
                i <= n,
                r@.len() == i,
                bundle_ok(r@, self.len()),
                forall|inp: Seq<bool>, k: int|
                    0 <= k < i ==> #[trigger] wire_value(self.gates@, inp, r@[k] as int)
                        == apply_bit_op(
                        op,
                        wire_value(self.gates@, inp, a@[k] as int),
                        wire_value(self.gates@, inp, b@[k] as int),
                    ),
            decreases n - i,
        {
            let ghost pre = *self;
            let ai = a[i];
            let bi = b[i];
            let w = match op {
                BitOp::And => self.push_and(ai, bi),
                BitOp::Or => self.push_or(ai, bi),
                BitOp::Xor => self.push_xor(ai, bi),
                BitOp::Nand => {
                    let t = self.push_and(ai, bi);
                    self.push_not(t)
                },
                BitOp::Nor => {
                    let t = self.push_or(ai, bi);
                    self.push_not(t)
                },
                BitOp::Xnor => {
                    let t = self.push_xor(ai, bi);
                    self.push_not(t)
                },
            };
            r.push(w);
            i += 1;
        }
        proof {
            assert forall|inp: Seq<bool>| #[trigger] wire_values(self.gates@, inp, r@)
                == map_bit_op(
                op,
                wire_values(self.gates@, inp, a@),
                wire_values(self.gates@, inp, b@),
            ) by {
                assert(wire_values(self.gates@, inp, r@) =~= map_bit_op(
                    op,
                    wire_values(self.gates@, inp, a@),
                    wire_values(self.gates@, inp, b@),
                ));
            }
        }
        r
    }

    /// Appends NOT gates over a whole bundle.
    pub fn not_wires(&mut self, a: &Vec<u32>) -> (r: Vec<u32>)
        requires
            old(self).wf(),
            bundle_ok(a@, old(self).len()),
            old(self).len() + a@.len() <= MAX_GATES,
        ensures
            final(self).wf(),
            CircuitBuilder::extends(*final(self), *old(self)),
            final(self).len() <= old(self).len() + a@.len(),
            final(self).zero == old(self).zero,
            final(self).one == old(self).one,
            r@.len() == a@.len(),
            bundle_ok(r@, final(self).len()),
            forall|inp: Seq<bool>| #[trigger] wire_values(final(self).gates@, inp, r@) == not_bits(
                wire_values(final(self).gates@, inp, a@),
            ),
    {
        let n = a.len();
        let mut r: Vec<u32> = Vec::new();
        let mut i: usize = 0;
        while i < n
            invariant
                self.wf(),
                CircuitBuilder::extends(*self, *old(self)),
                self.len() <= old(self).len() + i,
                self.zero == old(self).zero,
                self.one == old(self).one,
                n == a@.len(),
                bundle_ok(a@, old(self).len()),
                old(self).len() + n <= MAX_GATES,
                i <= n,
                r@.len() == i,
                bundle_ok(r@, self.len()),
                forall|inp: Seq<bool>, k: int|
                    0 <= k < i ==> #[trigger] wire_value(self.gates@, inp, r@[k] as int)
                        == !wire_value(self.gates@, inp, a@[k] as int),
            decreases n - i,
        {
            let w = self.push_not(a[i]);
            r.push(w);
            i += 1;
        }
        proof {
            assert forall|inp: Seq<bool>| #[trigger] wire_values(self.gates@, inp, r@) == not_bits(
                wire_values(self.gates@, inp, a@),
            ) by {
                assert(wire_values(self.gates@, inp, r@) =~= not_bits(
                    wire_values(self.gates@, inp, a@),
                ));
            }
        }
        r
    }

    /// One full adder: sum and carry-out wires for `a + b + c`.
    pub fn full_adder(&mut self, a: u32, b: u32, c: u32) -> (r: (u32, u32))
        requires
            old(self).wf(),
            (a as int) < old(self).len(),
            (b as int) < old(self).len(),
            (c as int) < old(self).len(),
            old(self).len() + 5 <= MAX_GATES,
        ensures
            final(self).wf(),
            CircuitBuilder::extends(*final(self), *old(self)),
            final(self).len() <= old(self).len() + 5,
            (r.0 as int) < final(self).len(),
            (r.1 as int) < final(self).len(),
            final(self).zero == old(self).zero,
            final(self).one == old(self).one,
            forall|inp: Seq<bool>|
                bit_nat(#[trigger] wire_value(final(self).gates@, inp, r.0 as int)) + 2 * bit_nat(
                    wire_value(final(self).gates@, inp, r.1 as int),
                ) == bit_nat(wire_value(final(self).gates@, inp, a as int)) + bit_nat(
                    wire_value(final(self).gates@, inp, b as int),
                ) + bit_nat(wire_value(final(self).gates@, inp, c as int)),
    {
        let t1 = self.push_xor(a, b);
        let s = self.push_xor(t1, c);
        let t2 = self.push_and(a, b);
        let t3 = self.push_and(c, t1);
        let c2 = self.push_xor(t2, t3);
        (s, c2)
    }

    /// Ripple-carry adder: `n` sum wires plus the carry-out wire, so that
    /// sum + 2^n * carry == a + b + carry_in under every input assignment.
    #[verifier::rlimit(50)]
    pub fn ripple_add(&mut self, a: &Vec<u32>, b: &Vec<u32>, c0: u32) -> (r: (Vec<u32>, u32))
        requires
            old(self).wf(),
            a@.len() == b@.len(),
            bundle_ok(a@, old(self).len()),
            bundle_ok(b@, old(self).len()),
            (c0 as int) < old(self).len(),
            old(self).len() + 5 * a@.len() <= MAX_GATES,
        ensures
            final(self).wf(),
            CircuitBuilder::extends(*final(self), *old(self)),
            final(self).len() <= old(self).len() + 5 * a@.len(),
            final(self).zero == old(self).zero,
            final(self).one == old(self).one,
            r.0@.len() == a@.len(),
            bundle_ok(r.0@, final(self).len()),
            (r.1 as int) < final(self).len(),
            forall|inp: Seq<bool>|
                #[trigger] bundle_uint(final(self).gates@, inp, r.0@) + pow2(a@.len()) * bit_nat(
                    wire_value(final(self).gates@, inp, r.1 as int),
                ) == bundle_uint(final(self).gates@, inp, a@) + bundle_uint(
                    final(self).gates@,
                    inp,
                    b@,
                ) + bit_nat(wire_value(final(self).gates@, inp, c0 as int)),
    {
        let n = a.len();
        let mut sum: Vec<u32> = Vec::new();
        let mut c: u32 = c0;
        let mut i: usize = 0;
        proof {
            vstd::arithmetic::power2::lemma2_to64();
        }
        while i < n
            invariant
                self.wf(),
                CircuitBuilder::extends(*self, *old(self)),
                self.len() <= old(self).len() + 5 * i,
                self.zero == old(self).zero,
                self.one == old(self).one,
                n == a@.len(),
                a@.len() == b@.len(),
                bundle_ok(a@, old(self).len()),
                bundle_ok(b@, old(self).len()),
                (c0 as int) < old(self).len(),
                old(self).len() + 5 * n <= MAX_GATES,
                i <= n,
                sum@.len() == i,
                bundle_ok(sum@, self.len()),
                (c as int) < self.len(),
                forall|inp: Seq<bool>|
                    #[trigger] bundle_uint(self.gates@, inp, sum@) + pow2(i as nat) * bit_nat(
                        wire_value(self.gates@, inp, c as int),
                    ) == bundle_uint(self.gates@, inp, a@.take(i as int)) + bundle_uint(
                        self.gates@,
                        inp,
                        b@.take(i as int),
                    ) + bit_nat(wire_value(self.gates@, inp, c0 as int)),
            decreases n - i,
        {
            let ghost pre = *self;
            let ghost sum_pre = sum@;
            let ghost c_pre = c;
            let (s, c2) = self.full_adder(a[i], b[i], c);
            sum.push(s);
            c = c2;
            i += 1;
            proof {
                let gi = (i - 1) as int;
                assert forall|inp: Seq<bool>|
                    #[trigger] bundle_uint(self.gates@, inp, sum@) + pow2(i as nat) * bit_nat(
                        wire_value(self.gates@, inp, c as int),
                    ) == bundle_uint(self.gates@, inp, a@.take(i as int)) + bundle_uint(
                        self.gates@,
                        inp,
                        b@.take(i as int),
                    ) + bit_nat(wire_value(self.gates@, inp, c0 as int)) by {
                    let g = self.gates@;
                    let gp = pre.gates@;
                    // instantiate the invariant before this iteration
                    assert(bundle_uint(gp, inp, sum_pre) + pow2(gi as nat) * bit_nat(
                        wire_value(gp, inp, c_pre as int),
                    ) == bundle_uint(gp, inp, a@.take(gi)) + bundle_uint(gp, inp, b@.take(gi))
                        + bit_nat(wire_value(gp, inp, c0 as int)));
                    // old wires keep their values across the full adder
                    assert(wire_values(g, inp, sum_pre) =~= wire_values(gp, inp, sum_pre));
                    assert(wire_values(g, inp, a@.take(gi)) =~= wire_values(gp, inp, a@.take(gi)));
                    assert(wire_values(g, inp, b@.take(gi)) =~= wire_values(gp, inp, b@.take(gi)));
                    // the new sum bundle appends the new sum bit
                    assert(wire_values(g, inp, sum@) =~= wire_values(g, inp, sum_pre).push(
                        wire_value(g, inp, s as int),
                    ));
                    lemma_uint_of_snoc(wire_values(g, inp, sum_pre), wire_value(g, inp, s as int));
                    // one more bit of each argument
                    assert(wire_values(g, inp, a@.take(gi + 1)) =~= wire_values(
                        g,
                        inp,
                        a@.take(gi),
                    ).push(wire_value(g, inp, a@[gi] as int)));
                    assert(wire_values(g, inp, b@.take(gi + 1)) =~= wire_values(
                        g,
                        inp,
                        b@.take(gi),
                    ).push(wire_value(g, inp, b@[gi] as int)));
                    lemma_uint_of_snoc(
                        wire_values(g, inp, a@.take(gi)),
                        wire_value(g, inp, a@[gi] as int),
                    );
                    lemma_uint_of_snoc(
                        wire_values(g, inp, b@.take(gi)),
                        wire_value(g, inp, b@[gi] as int),
                    );
                    lemma_pow2_unfold((gi + 1) as nat);
                    let p = pow2(gi as nat);
                    let sv = bit_nat(wire_value(g, inp, s as int));
                    let cv2 = bit_nat(wire_value(g, inp, c as int));
                    let av = bit_nat(wire_value(g, inp, a@[gi] as int));
                    let bv = bit_nat(wire_value(g, inp, b@[gi] as int));
                    let cv = bit_nat(wire_value(g, inp, c_pre as int));
                    let us = bundle_uint(g, inp, sum_pre);
                    let ua = bundle_uint(g, inp, a@.take(gi));
                    let ub = bundle_uint(g, inp, b@.take(gi));
                    let c0v = bit_nat(wire_value(g, inp, c0 as int));
                    assert(sv + 2 * cv2 == av + bv + cv);
                    assert(us + p * cv == ua + ub + c0v);
                    lemma_bit_weight(p, wire_value(g, inp, s as int));
                    lemma_bit_weight(p, wire_value(g, inp, a@[gi] as int));
                    lemma_bit_weight(p, wire_value(g, inp, b@[gi] as int));
                    assert(wire_values(g, inp, sum_pre).len() == gi);
                    assert(bundle_uint(g, inp, sum@) == us + p * sv);
                    assert(wire_values(g, inp, a@.take(gi)).len() == gi);
                    assert(wire_values(g, inp, b@.take(gi)).len() == gi);
                    assert(bundle_uint(g, inp, a@.take(gi + 1)) == ua + p * av);
                    assert(bundle_uint(g, inp, b@.take(gi + 1)) == ub + p * bv);
                    assert(pow2(i as nat) == 2 * p);
                    assert((us + p * sv) + (2 * p) * cv2 == (ua + p * av) + (ub + p * bv)
                        + c0v) by (nonlinear_arith)
                        requires
                            sv + 2 * cv2 == av + bv + cv,
                            us + p * cv == ua + ub + c0v,
                    ;
                    assert(pow2(i as nat) * cv2 == (2 * p) * cv2);
                    assert(a@.take(i as int) == a@.take(gi + 1));
                    assert(b@.take(i as int) == b@.take(gi + 1));
                }
            }
        }
        proof {
            assert(a@.take(n as int) =~= a@);
            assert(b@.take(n as int) =~= b@);
        }
        (sum, c)
    }

    /// Wrapping addition: the sum modulo 2^n of two n-bit bundles.
    pub fn add_wires(&mut self, a: &Vec<u32>, b: &Vec<u32>) -> (r: Vec<u32>)
        requires
            old(self).wf(),
            a@.len() == b@.len(),
            a@.len() >= 1,
            bundle_ok(a@, old(self).len()),
            bundle_ok(b@, old(self).len()),
            old(self).len() + 5 * a@.len() + 1 <= MAX_GATES,
        ensures
            final(self).wf(),
            CircuitBuilder::extends(*final(self), *old(self)),
            final(self).len() <= old(self).len() + 5 * a@.len() + 1,
            r@.len() == a@.len(),
            bundle_ok(r@, final(self).len()),
            forall|inp: Seq<bool>| #[trigger] bundle_uint(final(self).gates@, inp, r@) == (
            bundle_uint(final(self).gates@, inp, a@) + bundle_uint(final(self).gates@, inp, b@))
                % pow2(a@.len()),
    {
        proof {
            assert((a@[0] as int) < old(self).len());
        }
        let z = self.const_zero();
        let ghost mid = *self;
        let (sum, _carry) = self.ripple_add(a, b, z);
        proof {
            let g = self.gates@;
            let n = a@.len();
            assert forall|inp: Seq<bool>| #[trigger] bundle_uint(g, inp, sum@) == (bundle_uint(
                g,
                inp,
                a@,
            ) + bundle_uint(g, inp, b@)) % pow2(n) by {
                assert(bundle_uint(g, inp, sum@) + pow2(n) * bit_nat(
                    wire_value(g, inp, _carry as int),
                ) == bundle_uint(g, inp, a@) + bundle_uint(g, inp, b@) + bit_nat(
                    wire_value(g, inp, z as int),
                ));
                assert(wire_value(g, inp, z as int) == wire_value(mid.gates@, inp, z as int));
                assert(wire_value(mid.gates@, inp, z as int) == false);
                assert(bit_nat(wire_value(g, inp, z as int)) == 0);
                assert(wire_values(g, inp, sum@).len() == n);
                lemma_uint_of_bound(wire_values(g, inp, sum@));
                lemma_pow2_pos(n);
                let us = bundle_uint(g, inp, sum@) as int;
                let cvn = bit_nat(wire_value(g, inp, _carry as int));
                let cv = cvn as int;
                let tot = (bundle_uint(g, inp, a@) + bundle_uint(g, inp, b@)) as int;
                let usn = bundle_uint(g, inp, sum@);
                let an = bundle_uint(g, inp, a@);
                let bn = bundle_uint(g, inp, b@);
                let p = pow2(n);
                assert(usn + p * cvn == an + bn);
                assert(tot == cv * (p as int) + us) by (nonlinear_arith)
                    requires
                        usn + p * cvn == an + bn,
                        us == usn as int,
                        cv == cvn as int,
                        tot == (an + bn) as int,
                ;
                lemma_fundamental_div_mod_converse(tot, pow2(n) as int, cv, us);
            }
        }
        sum
    }

    /// Wrapping subtraction: `a - b` modulo 2^n, built as `a + not(b) + 1`.
    pub fn sub_wires(&mut self, a: &Vec<u32>, b: &Vec<u32>) -> (r: Vec<u32>)
        requires
            old(self).wf(),
            a@.len() == b@.len(),
            a@.len() >= 1,
            bundle_ok(a@, old(self).len()),
            bundle_ok(b@, old(self).len()),
            old(self).len() + 6 * a@.len() + 2 <= MAX_GATES,
        ensures
            final(self).wf(),
            CircuitBuilder::extends(*final(self), *old(self)),
            final(self).len() <= old(self).len() + 6 * a@.len() + 2,
            r@.len() == a@.len(),
            bundle_ok(r@, final(self).len()),
            forall|inp: Seq<bool>| #[trigger] bundle_uint(final(self).gates@, inp, r@) as int == (
            bundle_uint(final(self).gates@, inp, a@) as int - bundle_uint(
                final(self).gates@,
                inp,
                b@,
            ) as int) % (pow2(a@.len()) as int),
    {
        proof {
            assert((a@[0] as int) < old(self).len());
        }
        let nb = self.not_wires(b);
        let ghost g1 = *self;
        let one = self.const_one();
        let ghost g2 = *self;
        let (diff, _carry) = self.ripple_add(a, &nb, one);
        proof {
            let g = self.gates@;
            let n = a@.len();
            assert forall|inp: Seq<bool>| #[trigger] bundle_uint(g, inp, diff@) as int == (
            bundle_uint(g, inp, a@) as int - bundle_uint(g, inp, b@) as int) % (pow2(
                n,
            ) as int) by {
                let ua = bundle_uint(g, inp, a@) as int;
                let ub = bundle_uint(g, inp, b@) as int;
                let us = bundle_uint(g, inp, diff@) as int;
                let unb = bundle_uint(g, inp, nb@) as int;
                let cv = bit_nat(wire_value(g, inp, _carry as int)) as int;
                let p = pow2(n) as int;
                assert(bundle_uint(g, inp, diff@) + pow2(n) * bit_nat(
                    wire_value(g, inp, _carry as int),
                ) == bundle_uint(g, inp, a@) + bundle_uint(g, inp, nb@) + bit_nat(
                    wire_value(g, inp, one as int),
                ));
                assert(wire_value(g, inp, one as int) == wire_value(g2.gates@, inp, one as int));
                assert(wire_value(g2.gates@, inp, one as int) == true);
                // the inverted bundle keeps its values through the adder
                assert(wire_values(g1.gates@, inp, nb@) == not_bits(
                    wire_values(g1.gates@, inp, b@),
                ));
                assert(wire_values(g, inp, nb@) =~= wire_values(g1.gates@, inp, nb@));
                assert(wire_values(g, inp, b@) =~= wire_values(g1.gates@, inp, b@));
                lemma_uint_of_not(wire_values(g, inp, b@));
                assert(wire_values(g, inp, b@).len() == n);
                assert(unb == p - 1 - ub);
                lemma_uint_of_bound(wire_values(g, inp, diff@));
                lemma_uint_of_bound(wire_values(g, inp, b@));
                lemma_pow2_pos(n);
                // us + p * cv == ua + (p - 1 - ub) + 1 == ua - ub + p
                assert(us + p * cv == ua - ub + p);
                lemma_fundamental_div_mod_converse(ua - ub, p, cv - 1, us);
            }
        }
        diff
    }

    /// Two's-complement negation: invert all bits and add 1, so the result is
    /// `(2^n - a) mod 2^n`.
    pub fn neg_wires(&mut self, a: &Vec<u32>) -> (r: Vec<u32>)
        requires
            old(self).wf(),
            a@.len() >= 1,
            bundle_ok(a@, old(self).len()),
            old(self).len() + 6 * a@.len() + 3 <= MAX_GATES,
        ensures
            final(self).wf(),
            CircuitBuilder::extends(*final(self), *old(self)),
            final(self).len() <= old(self).len() + 6 * a@.len() + 3,
            r@.len() == a@.len(),
            bundle_ok(r@, final(self).len()),
            forall|inp: Seq<bool>| #[trigger] bundle_uint(final(self).gates@, inp, r@) as int == (0
                - bundle_uint(final(self).gates@, inp, a@) as int) % (pow2(a@.len()) as int),
    {
        proof {
            assert((a@[0] as int) < old(self).len());
        }
        let n = a.len();
        let z = self.const_zero();
        let mut zeros: Vec<u32> = Vec::new();
        let mut j: usize = 0;
        while j < n
            invariant
                j <= n,
                zeros@.len() == j,
                forall|k: int| 0 <= k < j ==> zeros@[k] == z,
            decreases n - j,
        {
            zeros.push(z);
            j += 1;
        }
        let ghost mid = *self;
        let r = self.sub_wires(&zeros, a);
        proof {
            let g = self.gates@;
            assert forall|inp: Seq<bool>| #[trigger] bundle_uint(g, inp, r@) as int == (0
                - bundle_uint(g, inp, a@) as int) % (pow2(a@.len()) as int) by {
                assert forall|k: int| 0 <= k < n implies !(#[trigger] wire_values(
                    g,
                    inp,
                    zeros@,
                )[k]) by {
                    assert(zeros@[k] == z);
                    assert(wire_value(g, inp, z as int) == wire_value(mid.gates@, inp, z as int));
                }
                crate::bits::lemma_uint_of_zeros(wire_values(g, inp, zeros@));
                assert(bundle_uint(g, inp, zeros@) == 0);
            }
        }
        r
    }

    /// Arithmetic right shift by a compile-time constant: pure rewiring, the
    /// high bits fill with the sign bit.
    pub fn shr_arith_wires(&mut self, a: &Vec<u32>, k: usize) -> (r: Vec<u32>)
        requires
            old(self).wf(),
            k <= a@.len(),
            a@.len() >= 1,
            bundle_ok(a@, old(self).len()),
        ensures
            final(self).wf(),
            CircuitBuilder::extends(*final(self), *old(self)),
            final(self).len() == old(self).len(),
            r@.len() == a@.len(),
            bundle_ok(r@, final(self).len()),
            forall|inp: Seq<bool>| #[trigger] wire_values(final(self).gates@, inp, r@)
                == crate::bits::shr_arith_bits(wire_values(final(self).gates@, inp, a@), k as int),
    {
        let n = a.len();
        let sign = a[n - 1];
        let mut r: Vec<u32> = Vec::new();
        let mut i: usize = 0;
        while i < n
            invariant
                self.wf(),
                *self == *old(self),
                n == a@.len(),
                k <= n,
                n >= 1,
                sign == a@[n - 1],
                bundle_ok(a@, old(self).len()),
                i <= n,
                r@.len() == i,
                bundle_ok(r@, self.len()),
                forall|j: int|
                    0 <= j < i ==> r@[j] == (if j + k < n {
                        a@[j + k]
                    } else {
                        a@[n - 1]
                    }),
            decreases n - i,
        {
            if i < n - k {
                r.push(a[i + k]);
            } else {
                r.push(sign);
            }
            i += 1;
        }
        proof {
            assert forall|inp: Seq<bool>| #[trigger] wire_values(self.gates@, inp, r@)
                == crate::bits::shr_arith_bits(wire_values(self.gates@, inp, a@), k as int) by {
                assert(wire_values(self.gates@, inp, r@) =~= crate::bits::shr_arith_bits(
                    wire_values(self.gates@, inp, a@),
                    k as int,
                ));
            }
        }
        r
    }

    /// A single wire that is 1 exactly when the two bundles carry equal values:
    /// the OR of all bitwise XORs, negated.
    pub fn eq_wire(&mut self, a: &Vec<u32>, b: &Vec<u32>) -> (r: u32)
        requires
            old(self).wf(),
            a@.len() == b@.len(),
            a@.len() >= 1,
            bundle_ok(a@, old(self).len()),
            bundle_ok(b@, old(self).len()),
            old(self).len() + 4 * a@.len() + 1 <= MAX_GATES,
        ensures
            final(self).wf(),
            CircuitBuilder::extends(*final(self), *old(self)),
            final(self).len() <= old(self).len() + 4 * a@.len() + 1,
            final(self).zero == old(self).zero,
            final(self).one == old(self).one,
            (r as int) < final(self).len(),
            forall|inp: Seq<bool>| #[trigger] wire_value(final(self).gates@, inp, r as int) == (
            bundle_uint(final(self).gates@, inp, a@) == bundle_uint(final(self).gates@, inp, b@)),
    {
        let d = self.ne_wire(a, b);
        let ghost pre = *self;
        let r = self.push_not(d);
        proof {
            assert forall|inp: Seq<bool>| #[trigger] wire_value(self.gates@, inp, r as int) == (
            bundle_uint(self.gates@, inp, a@) == bundle_uint(self.gates@, inp, b@)) by {
                assert(wire_values(self.gates@, inp, a@) =~= wire_values(pre.gates@, inp, a@));
                assert(wire_values(self.gates@, inp, b@) =~= wire_values(pre.gates@, inp, b@));
                assert(wire_value(self.gates@, inp, d as int) == wire_value(
                    pre.gates@,
                    inp,
                    d as int,
                ));
                assert(wire_value(pre.gates@, inp, d as int) == (bundle_uint(
                    pre.gates@,
                    inp,
                    a@,
                ) != bundle_uint(pre.gates@, inp, b@)));
            }
        }
        r
    }

    /// A single wire that is 1 exactly when the two bundles differ.
    pub fn ne_wire(&mut self, a: &Vec<u32>, b: &Vec<u32>) -> (r: u32)
        requires
            old(self).wf(),
            a@.len() == b@.len(),
            a@.len() >= 1,
            bundle_ok(a@, old(self).len()),
            bundle_ok(b@, old(self).len()),
            old(self).len() + 4 * a@.len() <= MAX_GATES,
        ensures
            final(self).wf(),
            CircuitBuilder::extends(*final(self), *old(self)),
            final(self).len() <= old(self).len() + 4 * a@.len(),
            final(self).zero == old(self).zero,
            final(self).one == old(self).one,
            (r as int) < final(self).len(),
            forall|inp: Seq<bool>| #[trigger] wire_value(final(self).gates@, inp, r as int) == (
            bundle_uint(final(self).gates@, inp, a@) != bundle_uint(final(self).gates@, inp, b@)),
    {
        let n = a.len();
        let mut acc = self.push_xor(a[0], b[0]);
        proof {
            assert forall|inp: Seq<bool>| #[trigger] wire_value(self.gates@, inp, acc as int) == (
            wire_values(self.gates@, inp, a@).take(1) != wire_values(self.gates@, inp, b@).take(
                1,
            )) by {
                let va = wire_values(self.gates@, inp, a@);
                let vb = wire_values(self.gates@, inp, b@);
                if va[0] == vb[0] {
                    assert(va.take(1) =~= vb.take(1));
                }
                if va.take(1) == vb.take(1) {
                    assert(va[0] == va.take(1)[0]);
                    assert(vb[0] == vb.take(1)[0]);
                }
            }
        }
        let mut i: usize = 1;
        while i < n
            invariant
                self.wf(),
                CircuitBuilder::extends(*self, *old(self)),
                self.len() <= old(self).len() + 1 + 4 * (i - 1),
                self.zero == old(self).zero,
                self.one == old(self).one,
                n == a@.len(),
                a@.len() == b@.len(),
                bundle_ok(a@, old(self).len()),
                bundle_ok(b@, old(self).len()),
                old(self).len() + 4 * n <= MAX_GATES,
                1 <= i <= n,
                (acc as int) < self.len(),
                forall|inp: Seq<bool>| #[trigger] wire_value(self.gates@, inp, acc as int) == (
                wire_values(self.gates@, inp, a@).take(i as int) != wire_values(
                    self.gates@,
                    inp,
                    b@,
                ).take(i as int)),
            decreases n - i,
        {
            let ghost pre = *self;
            let x = self.push_xor(a[i], b[i]);
            let acc2 = self.push_or(acc, x);
            proof {
                assert forall|inp: Seq<bool>| #[trigger] wire_value(self.gates@, inp, acc2 as int)
                    == (wire_values(self.gates@, inp, a@).take(i + 1) != wire_values(
                    self.gates@,
                    inp,
                    b@,
                ).take(i + 1)) by {
                    let g = self.gates@;
                    let va = wire_values(g, inp, a@);
                    let vb = wire_values(g, inp, b@);
                    assert(wire_values(g, inp, a@) =~= wire_values(pre.gates@, inp, a@));
                    assert(wire_values(g, inp, b@) =~= wire_values(pre.gates@, inp, b@));
                    assert(wire_value(g, inp, acc as int) == wire_value(
                        pre.gates@,
                        inp,
                        acc as int,
                    ));
                    assert(wire_value(pre.gates@, inp, acc as int) == (wire_values(
                        pre.gates@,
                        inp,
                        a@,
                    ).take(i as int) != wire_values(pre.gates@, inp, b@).take(i as int)));
                    assert(va.take(i + 1) =~= va.take(i as int).push(va[i as int]));
                    assert(vb.take(i + 1) =~= vb.take(i as int).push(vb[i as int]));
                    if va.take(i as int) == vb.take(i as int) && va[i as int] == vb[i as int] {
                        assert(va.take(i + 1) =~= vb.take(i + 1));
                    }
                    if va.take(i + 1) == vb.take(i + 1) {
                        assert(va.take(i as int) =~= va.take(i + 1).take(i as int));
                        assert(vb.take(i as int) =~= vb.take(i + 1).take(i as int));
                        assert(va[i as int] == va.take(i + 1)[i as int]);
                    }
                }
            }
            acc = acc2;
            i += 1;
        }
        proof {
            assert forall|inp: Seq<bool>| #[trigger] wire_value(self.gates@, inp, acc as int) == (
            bundle_uint(self.gates@, inp, a@) != bundle_uint(self.gates@, inp, b@)) by {
                let g = self.gates@;
                let va = wire_values(g, inp, a@);
                let vb = wire_values(g, inp, b@);
                assert(va.take(n as int) =~= va);
                assert(vb.take(n as int) =~= vb);
                if uint_of(va) == uint_of(vb) {
                    crate::bits::lemma_uint_of_injective(va, vb);
                }
            }
        }
        acc
    }

    /// A single wire that is 1 exactly when `a < b` as unsigned integers:
    /// the inverted carry of `a + not(b) + 1`.
    pub fn lt_wire(&mut self, a: &Vec<u32>, b: &Vec<u32>) -> (r: u32)
        requires
            old(self).wf(),
            a@.len() == b@.len(),
            a@.len() >= 1,
            bundle_ok(a@, old(self).len()),
            bundle_ok(b@, old(self).len()),
            old(self).len() + 6 * a@.len() + 3 <= MAX_GATES,
        ensures
            final(self).wf(),
            CircuitBuilder::extends(*final(self), *old(self)),
            final(self).len() <= old(self).len() + 6 * a@.len() + 3,
            (r as int) < final(self).len(),
            forall|inp: Seq<bool>| #[trigger] wire_value(final(self).gates@, inp, r as int) == (
            bundle_uint(final(self).gates@, inp, a@) < bundle_uint(final(self).gates@, inp, b@)),
    {
        proof {
            assert((a@[0] as int) < old(self).len());
        }
        let nb = self.not_wires(b);
        let ghost g1 = *self;
        let one = self.const_one();
        let ghost g2 = *self;
        let (diff, carry) = self.ripple_add(a, &nb, one);
        let ghost g3 = *self;
        let r = self.push_not(carry);
        proof {
            let g = self.gates@;
            let ga = g3.gates@;
            let n = a@.len();
            assert forall|inp: Seq<bool>| #[trigger] wire_value(g, inp, r as int) == (bundle_uint(
                g,
                inp,
                a@,
            ) < bundle_uint(g, inp, b@)) by {
                // instantiate the trial subtraction's arithmetic
                assert(bundle_uint(ga, inp, diff@) + pow2(n) * bit_nat(
                    wire_value(ga, inp, carry as int),
                ) == bundle_uint(ga, inp, a@) + bundle_uint(ga, inp, nb@) + bit_nat(
                    wire_value(ga, inp, one as int),
                ));
                assert(wire_value(ga, inp, one as int) == wire_value(g2.gates@, inp, one as int));
                assert(wire_value(g2.gates@, inp, one as int) == true);
                assert(wire_values(ga, inp, nb@) =~= wire_values(g1.gates@, inp, nb@));
                assert(wire_values(ga, inp, b@) =~= wire_values(g1.gates@, inp, b@));
                assert(wire_values(g1.gates@, inp, nb@) == not_bits(
                    wire_values(g1.gates@, inp, b@),
                ));
                lemma_uint_of_not(wire_values(ga, inp, b@));
                assert(wire_values(ga, inp, b@).len() == n);
                lemma_uint_of_bound(wire_values(ga, inp, diff@));
                lemma_uint_of_bound(wire_values(ga, inp, b@));
                lemma_pow2_pos(n);
                let ua = bundle_uint(ga, inp, a@) as int;
                let ub = bundle_uint(ga, inp, b@) as int;
                let us = bundle_uint(ga, inp, diff@) as int;
                let p = pow2(n) as int;
                let cvb = wire_value(ga, inp, carry as int);
                assert(us + p * bit_nat(cvb) == ua - ub + p);
                if cvb {
                    assert(us == ua - ub);
                    assert(ua >= ub);
                } else {
                    assert(us == ua - ub + p);
                    assert(ua < ub);
                }
                // carry and the argument bundles keep their values across the NOT
                assert(wire_values(g, inp, a@) =~= wire_values(ga, inp, a@));
                assert(wire_values(g, inp, b@) =~= wire_values(ga, inp, b@));
                assert(wire_value(g, inp, carry as int) == wire_value(ga, inp, carry as int));
                assert(wire_value(g, inp, r as int) == !wire_value(g, inp, carry as int));
            }
        }
        r
    }

    /// `a > b`: the less-than comparator with its arguments swapped.
    pub fn gt_wire(&mut self, a: &Vec<u32>, b: &Vec<u32>) -> (r: u32)
        requires
            old(self).wf(),
            a@.len() == b@.len(),
            a@.len() >= 1,
            bundle_ok(a@, old(self).len()),
            bundle_ok(b@, old(self).len()),
            old(self).len() + 6 * a@.len() + 3 <= MAX_GATES,
        ensures
            final(self).wf(),
            CircuitBuilder::extends(*final(self), *old(self)),
            final(self).len() <= old(self).len() + 6 * a@.len() + 3,
            (r as int) < final(self).len(),
            forall|inp: Seq<bool>| #[trigger] wire_value(final(self).gates@, inp, r as int) == (
            bundle_uint(final(self).gates@, inp, a@) > bundle_uint(final(self).gates@, inp, b@)),
    {
        self.lt_wire(b, a)
    }

    /// `a <= b`: the negation of `a > b`.
    pub fn le_wire(&mut self, a: &Vec<u32>, b: &Vec<u32>) -> (r: u32)
        requires
            old(self).wf(),
            a@.len() == b@.len(),
            a@.len() >= 1,
            bundle_ok(a@, old(self).len()),
            bundle_ok(b@, old(self).len()),
            old(self).len() + 6 * a@.len() + 4 <= MAX_GATES,
        ensures
            final(self).wf(),
            CircuitBuilder::extends(*final(self), *old(self)),
            final(self).len() <= old(self).len() + 6 * a@.len() + 4,
            (r as int) < final(self).len(),
            forall|inp: Seq<bool>| #[trigger] wire_value(final(self).gates@, inp, r as int) == (
            bundle_uint(final(self).gates@, inp, a@) <= bundle_uint(final(self).gates@, inp, b@)),
    {
        let gt = self.gt_wire(a, b);
        let ghost pre = *self;
        let r = self.push_not(gt);
        proof {
            assert forall|inp: Seq<bool>| #[trigger] wire_value(self.gates@, inp, r as int) == (
            bundle_uint(self.gates@, inp, a@) <= bundle_uint(self.gates@, inp, b@)) by {
                assert(wire_values(self.gates@, inp, a@) =~= wire_values(pre.gates@, inp, a@));
                assert(wire_values(self.gates@, inp, b@) =~= wire_values(pre.gates@, inp, b@));
                assert(wire_value(self.gates@, inp, gt as int) == wire_value(
                    pre.gates@,
                    inp,
                    gt as int,
                ));
                assert(wire_value(pre.gates@, inp, gt as int) == (bundle_uint(
                    pre.gates@,
                    inp,
                    a@,
                ) > bundle_uint(pre.gates@, inp, b@)));
            }
        }
        r
    }

    /// `a >= b`: the negation of `a < b`.
    pub fn ge_wire(&mut self, a: &Vec<u32>, b: &Vec<u32>) -> (r: u32)
        requires
            old(self).wf(),
            a@.len() == b@.len(),
            a@.len() >= 1,
            bundle_ok(a@, old(self).len()),
            bundle_ok(b@, old(self).len()),
            old(self).len() + 6 * a@.len() + 4 <= MAX_GATES,
        ensures
            final(self).wf(),
            CircuitBuilder::extends(*final(self), *old(self)),
            final(self).len() <= old(self).len() + 6 * a@.len() + 4,
            (r as int) < final(self).len(),
            forall|inp: Seq<bool>| #[trigger] wire_value(final(self).gates@, inp, r as int) == (
            bundle_uint(final(self).gates@, inp, a@) >= bundle_uint(final(self).gates@, inp, b@)),
    {
        let lt = self.lt_wire(a, b);
        let ghost pre = *self;
        let r = self.push_not(lt);
        proof {
            assert forall|inp: Seq<bool>| #[trigger] wire_value(self.gates@, inp, r as int) == (
            bundle_uint(self.gates@, inp, a@) >= bundle_uint(self.gates@, inp, b@)) by {
                assert(wire_values(self.gates@, inp, a@) =~= wire_values(pre.gates@, inp, a@));
                assert(wire_values(self.gates@, inp, b@) =~= wire_values(pre.gates@, inp, b@));
                assert(wire_value(self.gates@, inp, lt as int) == wire_value(
                    pre.gates@,
                    inp,
                    lt as int,
                ));
                assert(wire_value(pre.gates@, inp, lt as int) == (bundle_uint(
                    pre.gates@,
                    inp,
                    a@,
                ) < bundle_uint(pre.gates@, inp, b@)));
            }
        }
        r
    }

    /// Data-selectable multiplexer over bundles: when the selector wire is 1
    /// the result is `a`, when it is 0 the result is `b`. Each result bit is
    /// `b_i ^ (sel & (a_i ^ b_i))`.
    pub fn mux_wires(&mut self, sel: u32, a: &Vec<u32>, b: &Vec<u32>) -> (r: Vec<u32>)
        requires
            old(self).wf(),
            a@.len() == b@.len(),
            (sel as int) < old(self).len(),
            bundle_ok(a@, old(self).len()),
            bundle_ok(b@, old(self).len()),
            old(self).len() + 3 * a@.len() <= MAX_GATES,
        ensures
            final(self).wf(),
            CircuitBuilder::extends(*final(self), *old(self)),
            final(self).len() <= old(self).len() + 3 * a@.len(),
            final(self).zero == old(self).zero,
            final(self).one == old(self).one,
            r@.len() == a@.len(),
            bundle_ok(r@, final(self).len()),
            forall|inp: Seq<bool>| #[trigger] wire_values(final(self).gates@, inp, r@)
                == crate::bits::mux_bits(
                wire_value(final(self).gates@, inp, sel as int),
                wire_values(final(self).gates@, inp, a@),
                wire_values(final(self).gates@, inp, b@),
            ),
    {
        let n = a.len();
        let mut r: Vec<u32> = Vec::new();
        let mut i: usize = 0;
        while i < n
            invariant
                self.wf(),
                CircuitBuilder::extends(*self, *old(self)),
                self.len() <= old(self).len() + 3 * i,
                self.zero == old(self).zero,
                self.one == old(self).one,
                n == a@.len(),
                a@.len() == b@.len(),
                (sel as int) < old(self).len(),
                bundle_ok(a@, old(self).len()),
                bundle_ok(b@, old(self).len()),
                old(self).len() + 3 * n <= MAX_GATES,
                i <= n,
                r@.len() == i,
                bundle_ok(r@, self.len()),
                forall|inp: Seq<bool>, k: int|
                    0 <= k < i ==> #[trigger] wire_value(self.gates@, inp, r@[k] as int) == (
                    if wire_value(self.gates@, inp, sel as int) {
                        wire_value(self.gates@, inp, a@[k] as int)
                    } else {
                        wire_value(self.gates@, inp, b@[k] as int)
                    }),
            decreases n - i,
        {
            let t = self.push_xor(a[i], b[i]);
            let u = self.push_and(sel, t);
            let w = self.push_xor(b[i], u);
            r.push(w);
            i += 1;
        }
        proof {
            assert forall|inp: Seq<bool>| #[trigger] wire_values(self.gates@, inp, r@) == (
            if wire_value(self.gates@, inp, sel as int) {
                wire_values(self.gates@, inp, a@)
            } else {
                wire_values(self.gates@, inp, b@)
            }) by {
                if wire_value(self.gates@, inp, sel as int) {
                    assert(wire_values(self.gates@, inp, r@) =~= wire_values(
                        self.gates@,
                        inp,
                        a@,
                    ));
                } else {
                    assert(wire_values(self.gates@, inp, r@) =~= wire_values(
                        self.gates@,
                        inp,
                        b@,
                    ));
                }
            }
        }
        r
    }

    /// Lowers a constant bit pattern: each set bit becomes the cached 1-wire,
    /// each clear bit the cached 0-wire.
    pub fn constant_wires(&mut self, bits: &Vec<bool>) -> (r: Vec<u32>)
        requires
            old(self).wf(),
            old(self).len() >= 1,
            old(self).len() + 3 <= MAX_GATES,
        ensures
            final(self).wf(),
            CircuitBuilder::extends(*final(self), *old(self)),
            final(self).len() <= old(self).len() + 3,
            r@.len() == bits@.len(),
            bundle_ok(r@, final(self).len()),
            forall|inp: Seq<bool>| #[trigger] wire_values(final(self).gates@, inp, r@) == bits@,
    {
        let z = self.const_zero();
        let o = self.const_one();
        let ghost mid = *self;
        let n = bits.len();
        let mut r: Vec<u32> = Vec::new();
        let mut i: usize = 0;
        while i < n
            invariant
                self.wf(),
                *self == mid,
                CircuitBuilder::extends(*self, *old(self)),
                self.len() <= old(self).len() + 3,
                (z as int) < self.len(),
                (o as int) < self.len(),
                forall|inp: Seq<bool>| #[trigger] wire_value(self.gates@, inp, z as int) == false,
                forall|inp: Seq<bool>| #[trigger] wire_value(self.gates@, inp, o as int) == true,
                n == bits@.len(),
                i <= n,
                r@.len() == i,
                bundle_ok(r@, self.len()),
                forall|inp: Seq<bool>, k: int|
                    0 <= k < i ==> #[trigger] wire_value(self.gates@, inp, r@[k] as int)
                        == bits@[k],
            decreases n - i,
        {
            if bits[i] {
                r.push(o);
            } else {
                r.push(z);
            }
            i += 1;
        }
        proof {
            assert forall|inp: Seq<bool>| #[trigger] wire_values(self.gates@, inp, r@)
                == bits@ by {
                assert(wire_values(self.gates@, inp, r@) =~= bits@);
            }
        }
        r
    }

    /// Masks a bundle with one wire: the bundle itself when the mask is 1,
    /// all-zero when it is 0. One AND gate per bit.
    pub fn mask_wires(&mut self, s: u32, a: &Vec<u32>) -> (r: Vec<u32>)
        requires
            old(self).wf(),
            (s as int) < old(self).len(),
            bundle_ok(a@, old(self).len()),
            old(self).len() + a@.len() <= MAX_GATES,
        ensures
            final(self).wf(),
            CircuitBuilder::extends(*final(self), *old(self)),
            final(self).len() <= old(self).len() + a@.len(),
            final(self).zero == old(self).zero,
            final(self).one == old(self).one,
            r@.len() == a@.len(),
            bundle_ok(r@, final(self).len()),
            forall|inp: Seq<bool>| #[trigger] wire_values(final(self).gates@, inp, r@) == (
            if wire_value(final(self).gates@, inp, s as int) {
                wire_values(final(self).gates@, inp, a@)
            } else {
                Seq::new(a@.len() as nat, |j: int| false)
            }),
    {
        let n = a.len();
        let mut r: Vec<u32> = Vec::new();
        let mut i: usize = 0;
        while i < n
            invariant
                self.wf(),
                CircuitBuilder::extends(*self, *old(self)),
                self.len() <= old(self).len() + i,
                self.zero == old(self).zero,
                self.one == old(self).one,
                n == a@.len(),
                (s as int) < old(self).len(),
                bundle_ok(a@, old(self).len()),
                old(self).len() + n <= MAX_GATES,
                i <= n,
                r@.len() == i,
                bundle_ok(r@, self.len()),
                forall|inp: Seq<bool>, k: int|
                    0 <= k < i ==> #[trigger] wire_value(self.gates@, inp, r@[k] as int) == (
                    wire_value(self.gates@, inp, s as int) && wire_value(
                        self.gates@,
                        inp,
                        a@[k] as int,
                    )),
            decreases n - i,
        {
            let w = self.push_and(s, a[i]);
            r.push(w);
            i += 1;
        }
        proof {
            assert forall|inp: Seq<bool>| #[trigger] wire_values(self.gates@, inp, r@) == (
            if wire_value(self.gates@, inp, s as int) {
                wire_values(self.gates@, inp, a@)
            } else {
                Seq::new(a@.len() as nat, |j: int| false)
            }) by {
                if wire_value(self.gates@, inp, s as int) {
                    assert(wire_values(self.gates@, inp, r@) =~= wire_values(
                        self.gates@,
                        inp,
                        a@,
                    ));
                } else {
                    assert(wire_values(self.gates@, inp, r@) =~= Seq::new(
                        a@.len() as nat,
                        |j: int| false,
                    ));
                }
            }
        }
        r
    }

    /// Wrapping multiplication by shift-and-add: for each multiplier bit, the
    /// multiplicand shifted to that bit's place and masked by it, all summed
    /// with the ripple adder. The product is truncated to n bits.
    pub fn mul_wires(&mut self, a: &Vec<u32>, b: &Vec<u32>) -> (r: Vec<u32>)
        requires
            old(self).wf(),
            a@.len() == b@.len(),
            a@.len() >= 1,
            bundle_ok(a@, old(self).len()),
            bundle_ok(b@, old(self).len()),
            old(self).len() + 8 * a@.len() * a@.len() + 8 * a@.len() + 8 <= MAX_GATES,
        ensures
            final(self).wf(),
            CircuitBuilder::extends(*final(self), *old(self)),
            final(self).len() <= old(self).len() + 8 * a@.len() * a@.len() + 8 * a@.len() + 8,
            r@.len() == a@.len(),
            bundle_ok(r@, final(self).len()),
            forall|inp: Seq<bool>| #[trigger] bundle_uint(final(self).gates@, inp, r@) == (
            bundle_uint(final(self).gates@, inp, a@) * bundle_uint(final(self).gates@, inp, b@))
                % pow2(a@.len()),
    {
        proof {
            assert((a@[0] as int) < old(self).len());
        }
        let n = a.len();
        let z = self.const_zero();
        let mut acc: Vec<u32> = Vec::new();
        let mut j: usize = 0;
        while j < n
            invariant
                self.wf(),
                CircuitBuilder::extends(*self, *old(self)),
                self.len() <= old(self).len() + 1,
                (z as int) < self.len(),
                forall|inp: Seq<bool>| #[trigger] wire_value(self.gates@, inp, z as int) == false,
                n == a@.len(),
                j <= n,
                acc@.len() == j,
                bundle_ok(acc@, self.len()),
                forall|k: int| 0 <= k < j ==> acc@[k] == z,
            decreases n - j,
        {
            acc.push(z);
            j += 1;
        }
        proof {
            lemma_pow2_pos(n as nat);
            vstd::arithmetic::div_mod::lemma_small_mod(0nat, pow2(n as nat));
            assert forall|inp: Seq<bool>| #[trigger] bundle_uint(self.gates@, inp, acc@) == (
            bundle_uint(self.gates@, inp, a@) * uint_of(
                wire_values(self.gates@, inp, b@).take(0),
            )) % pow2(n as nat) by {
                assert forall|k: int| 0 <= k < n implies !(#[trigger] wire_values(
                    self.gates@,
                    inp,
                    acc@,
                )[k]) by {
                    assert(acc@[k] == z);
                    assert(wire_value(self.gates@, inp, z as int) == false);
                }
                crate::bits::lemma_uint_of_zeros(wire_values(self.gates@, inp, acc@));
                assert(bundle_uint(self.gates@, inp, acc@) == 0);
                assert(wire_values(self.gates@, inp, b@).take(0) =~= Seq::<bool>::empty());
                assert(uint_of(wire_values(self.gates@, inp, b@).take(0)) == 0);
                assert(bundle_uint(self.gates@, inp, a@) * 0 == 0);
                vstd::arithmetic::div_mod::lemma_small_mod(0nat, pow2(n as nat));
            }
        }
        let mut i: usize = 0;
        while i < n
            invariant
                self.wf(),
                CircuitBuilder::extends(*self, *old(self)),
                self.len() <= old(self).len() + 1 + (7 * n + 3) * i,
                n == a@.len(),
                a@.len() == b@.len(),
                n >= 1,
                bundle_ok(a@, old(self).len()),
                bundle_ok(b@, old(self).len()),
                old(self).len() + 8 * n * n + 8 * n + 8 <= MAX_GATES,
                i <= n,
                acc@.len() == n,
                bundle_ok(acc@, self.len()),
                forall|inp: Seq<bool>| #[trigger] bundle_uint(self.gates@, inp, acc@) == (
                bundle_uint(self.gates@, inp, a@) * uint_of(
                    wire_values(self.gates@, inp, b@).take(i as int),
                )) % pow2(n as nat),
            decreases n - i,
        {
            let ghost pre = *self;
            let ghost acc_pre = acc@;
            proof {
                let cur = self.len();
                let base = old(self).len();
                assert(cur + 7 * n + 3 <= MAX_GATES as int) by (nonlinear_arith)
                    requires
                        cur <= base + 1 + (7 * n + 3) * i,
                        base + 8 * n * n + 8 * n + 8 <= MAX_GATES as int,
                        0 <= i < n,
                ;
            }
            let shifted = self.shl_wires(a, i);
            let ghost s1 = *self;
            let masked = self.mask_wires(b[i], &shifted);
            let ghost s2 = *self;
            let next = self.add_wires(&acc, &masked);
            acc = next;
            i += 1;
            proof {
                assert((7 * n + 3) * (i as int) == (7 * n + 3) * (i - 1) + 7 * n
                    + 3) by (nonlinear_arith);
                let gi = (i - 1) as int;
                let g = self.gates@;
                assert forall|inp: Seq<bool>| #[trigger] bundle_uint(g, inp, acc@) == (
                bundle_uint(g, inp, a@) * uint_of(wire_values(g, inp, b@).take(i as int))) % pow2(
                    n as nat,
                ) by {
                    let p = pow2(n as nat) as int;
                    // previous invariant, under its own gate list
                    assert(bundle_uint(pre.gates@, inp, acc_pre) == (bundle_uint(
                        pre.gates@,
                        inp,
                        a@,
                    ) * uint_of(wire_values(pre.gates@, inp, b@).take(gi))) % pow2(n as nat));
                    // transport the old bundles to the current gate list
                    assert(wire_values(g, inp, a@) =~= wire_values(pre.gates@, inp, a@));
                    assert(wire_values(g, inp, b@) =~= wire_values(pre.gates@, inp, b@));
                    assert(wire_values(g, inp, acc_pre) =~= wire_values(pre.gates@, inp, acc_pre));
                    let ua = bundle_uint(g, inp, a@) as int;
                    let vb = wire_values(g, inp, b@);
                    let uacc = bundle_uint(g, inp, acc_pre) as int;
                    // the shifted bundle under the adder's gate list
                    assert(bundle_uint(s1.gates@, inp, shifted@) == (bundle_uint(
                        s1.gates@,
                        inp,
                        a@,
                    ) * pow2(gi as nat)) % pow2(n as nat));
                    assert(wire_values(s1.gates@, inp, a@) =~= wire_values(pre.gates@, inp, a@));
                    // the mask selects the shifted value or zero
                    assert(wire_values(s2.gates@, inp, masked@) == (if wire_value(
                        s2.gates@,
                        inp,
                        b@[gi] as int,
                    ) {
                        wire_values(s2.gates@, inp, shifted@)
                    } else {
                        Seq::new(n as nat, |t: int| false)
                    }));
                    assert(wire_values(s2.gates@, inp, shifted@) =~= wire_values(
                        s1.gates@,
                        inp,
                        shifted@,
                    ));
                    assert(wire_value(s2.gates@, inp, b@[gi] as int) == wire_value(
                        g,
                        inp,
                        b@[gi] as int,
                    ));
                    // the adder's contract
                    assert(bundle_uint(g, inp, acc@) == (bundle_uint(g, inp, acc_pre)
                        + bundle_uint(g, inp, masked@)) % pow2(n as nat));
                    assert(wire_values(g, inp, masked@) =~= wire_values(s2.gates@, inp, masked@));
                    let um = bundle_uint(g, inp, masked@) as int;
                    let bitv = vb[gi];
                    assert(bitv == wire_value(g, inp, b@[gi] as int));
                    lemma_pow2_pos(n as nat);
                    crate::bits::lemma_uint_of_take_succ(vb, gi);
                    let bi = uint_of(vb.take(gi)) as int;
                    let bi1 = uint_of(vb.take(gi + 1)) as int;
                    lemma_uint_of_bound(wire_values(g, inp, acc_pre));
                    if bitv {
                        assert(um == (ua * pow2(gi as nat)) % p);
                        // (acc + pp) mod p == (a*take(i) + a*2^i) mod p
                        vstd::arithmetic::div_mod::lemma_add_mod_noop(
                            ua * bi,
                            ua * pow2(gi as nat),
                            p,
                        );
                        assert((ua * bi) % p == uacc);
                        assert(ua * bi1 == ua * bi + ua * pow2(gi as nat)) by (nonlinear_arith)
                            requires
                                bi1 == bi + pow2(gi as nat),
                        ;
                    } else {
                        assert(forall|t: int|
                            0 <= t < n ==> !(#[trigger] wire_values(g, inp, masked@)[t]));
                        crate::bits::lemma_uint_of_zeros(wire_values(g, inp, masked@));
                        assert(um == 0);
                        vstd::arithmetic::div_mod::lemma_small_mod(
                            uacc as nat,
                            pow2(n as nat),
                        );
                        assert(bi1 == bi);
                    }
                }
            }
        }
        proof {
            assert(1 + (7 * n + 3) * n <= 8 * n * n + 8 * n + 8) by (nonlinear_arith);
            assert forall|inp: Seq<bool>| #[trigger] bundle_uint(self.gates@, inp, acc@) == (
            bundle_uint(self.gates@, inp, a@) * bundle_uint(self.gates@, inp, b@)) % pow2(
                a@.len(),
            ) by {
                assert(wire_values(self.gates@, inp, b@).take(n as int) =~= wire_values(
                    self.gates@,
                    inp,
                    b@,
                ));
            }
        }
        acc
    }

    /// Logical left shift by a compile-time constant: pure rewiring, with the
    /// low k result bits tied to the 0-wire. Multiplies by 2^k modulo 2^n.
    pub fn shl_wires(&mut self, a: &Vec<u32>, k: usize) -> (r: Vec<u32>)
        requires
            old(self).wf(),
            k <= a@.len(),
            a@.len() >= 1,
            bundle_ok(a@, old(self).len()),
            old(self).len() + 1 <= MAX_GATES,
        ensures
            final(self).wf(),
            CircuitBuilder::extends(*final(self), *old(self)),
            final(self).len() <= old(self).len() + 1,
            r@.len() == a@.len(),
            bundle_ok(r@, final(self).len()),
            forall|inp: Seq<bool>| #[trigger] wire_values(final(self).gates@, inp, r@)
                == crate::bits::shl_bits(wire_values(final(self).gates@, inp, a@), k as int),
            forall|inp: Seq<bool>| #[trigger] bundle_uint(final(self).gates@, inp, r@) == (
            bundle_uint(final(self).gates@, inp, a@) * pow2(k as nat)) % pow2(a@.len()),
    {
        proof {
            assert((a@[0] as int) < old(self).len());
        }
        let z = self.const_zero();
        let n = a.len();
        let mut r: Vec<u32> = Vec::new();
        let mut i: usize = 0;
        while i < n
            invariant
                self.wf(),
                CircuitBuilder::extends(*self, *old(self)),
                self.len() <= old(self).len() + 1,
                (z as int) < self.len(),
                forall|inp: Seq<bool>| #[trigger] wire_value(self.gates@, inp, z as int) == false,
                n == a@.len(),
                k <= n,
                bundle_ok(a@, old(self).len()),
                i <= n,
                r@.len() == i,
                bundle_ok(r@, self.len()),
                forall|inp: Seq<bool>, j: int|
                    0 <= j < i ==> #[trigger] wire_value(self.gates@, inp, r@[j] as int) == (
                    if j < k {
                        false
                    } else {
                        wire_value(self.gates@, inp, a@[j - k] as int)
                    }),
            decreases n - i,
        {
            if i < k {
                r.push(z);
            } else {
                r.push(a[i - k]);
            }
            i += 1;
        }
        proof {
            assert forall|inp: Seq<bool>| #[trigger] wire_values(self.gates@, inp, r@)
                == crate::bits::shl_bits(wire_values(self.gates@, inp, a@), k as int) by {
                assert(wire_values(self.gates@, inp, r@) =~= crate::bits::shl_bits(
                    wire_values(self.gates@, inp, a@),
                    k as int,
                ));
            }
            assert forall|inp: Seq<bool>| #[trigger] bundle_uint(self.gates@, inp, r@) == (
            bundle_uint(self.gates@, inp, a@) * pow2(k as nat)) % pow2(a@.len()) by {
                crate::bits::lemma_uint_of_shl(wire_values(self.gates@, inp, a@), k as int);
            }
        }
        r
    }

    /// Logical right shift by a compile-time constant: pure rewiring, with the
    /// high k result bits tied to the 0-wire. Divides by 2^k.
    pub fn shr_wires(&mut self, a: &Vec<u32>, k: usize) -> (r: Vec<u32>)
        requires
            old(self).wf(),
            k <= a@.len(),
            a@.len() >= 1,
            bundle_ok(a@, old(self).len()),
            old(self).len() + 1 <= MAX_GATES,
        ensures
            final(self).wf(),
            CircuitBuilder::extends(*final(self), *old(self)),
            final(self).len() <= old(self).len() + 1,
            r@.len() == a@.len(),
            bundle_ok(r@, final(self).len()),
            forall|inp: Seq<bool>| #[trigger] wire_values(final(self).gates@, inp, r@)
                == crate::bits::shr_bits(wire_values(final(self).gates@, inp, a@), k as int),
            forall|inp: Seq<bool>| #[trigger] bundle_uint(final(self).gates@, inp, r@)
                == bundle_uint(final(self).gates@, inp, a@) / pow2(k as nat),
    {
        proof {
            assert((a@[0] as int) < old(self).len());
        }
        let z = self.const_zero();
        let n = a.len();
        let mut r: Vec<u32> = Vec::new();
        let mut i: usize = 0;
        while i < n
            invariant
                self.wf(),
                CircuitBuilder::extends(*self, *old(self)),
                self.len() <= old(self).len() + 1,
                (z as int) < self.len(),
                forall|inp: Seq<bool>| #[trigger] wire_value(self.gates@, inp, z as int) == false,
                n == a@.len(),
                k <= n,
                bundle_ok(a@, old(self).len()),
                i <= n,
                r@.len() == i,
                bundle_ok(r@, self.len()),
                forall|inp: Seq<bool>, j: int|
                    0 <= j < i ==> #[trigger] wire_value(self.gates@, inp, r@[j] as int) == (
                    if j + k < n {
                        wire_value(self.gates@, inp, a@[j + k] as int)
                    } else {
                        false
                    }),
            decreases n - i,
        {
            if i < n - k {
                r.push(a[i + k]);
            } else {
                r.push(z);
            }
            i += 1;
        }
        proof {
            assert forall|inp: Seq<bool>| #[trigger] wire_values(self.gates@, inp, r@)
                == crate::bits::shr_bits(wire_values(self.gates@, inp, a@), k as int) by {
                assert(wire_values(self.gates@, inp, r@) =~= crate::bits::shr_bits(
                    wire_values(self.gates@, inp, a@),
                    k as int,
                ));
            }
            assert forall|inp: Seq<bool>| #[trigger] bundle_uint(self.gates@, inp, r@)
                == bundle_uint(self.gates@, inp, a@) / pow2(k as nat) by {
                crate::bits::lemma_uint_of_shr(wire_values(self.gates@, inp, a@), k as int);
            }
        }
        r
    }

    /// One restoring-division step preserves the divider's invariant: after
    /// the shift, the trial subtraction and the restoring multiplexer, the
    /// quotient bits and the remainder register stand where long division of
    /// one more dividend bit stands.
    #[verifier::rlimit(100)]
    proof fn lemma_div_step(
        gp: Seq<Gate>,
        gr: Seq<Gate>,
        g: Seq<Gate>,
        a: Seq<u32>,
        b: Seq<u32>,
        bx: Seq<u32>,
        nbx: Seq<u32>,
        rem_pre: Seq<u32>,
        rem2: Seq<u32>,
        diff: Seq<u32>,
        rem_new: Seq<u32>,
        qrev_pre: Seq<u32>,
        qrev_new: Seq<u32>,
        carry: u32,
        one: u32,
        z: u32,
        gi: int,
        n: int,
    )
        requires
            forall|inp: Seq<bool>, w: int|
                0 <= w < gp.len() ==> #[trigger] wire_value(gr, inp, w) == wire_value(gp, inp, w),
            forall|inp: Seq<bool>, w: int|
                0 <= w < gr.len() ==> #[trigger] wire_value(g, inp, w) == wire_value(gr, inp, w),
            gp.len() <= gr.len(),
            forall|inp: Seq<bool>| #[trigger] div_step_inv(gp, inp, a, b, rem_pre, qrev_pre, gi, n),
            forall|inp: Seq<bool>| #[trigger] wire_values(gp, inp, nbx) == not_bits(
                wire_values(gp, inp, bx),
            ),
            forall|inp: Seq<bool>| #[trigger] wire_value(gp, inp, z as int) == false,
            forall|inp: Seq<bool>| #[trigger] wire_value(gp, inp, one as int) == true,
            0 <= gi < n,
            a.len() == n,
            b.len() == n,
            bx == b.push(z),
            nbx.len() == n + 1,
            rem_pre.len() == n + 1,
            diff.len() == n + 1,
            rem2 == seq![a[n - 1 - gi]] + rem_pre.take(n),
            qrev_new == qrev_pre.push(carry),
            bundle_ok(a, gp.len() as int),
            bundle_ok(b, gp.len() as int),
            bundle_ok(bx, gp.len() as int),
            bundle_ok(nbx, gp.len() as int),
            bundle_ok(rem_pre, gp.len() as int),
            bundle_ok(rem2, gp.len() as int),
            bundle_ok(qrev_pre, gp.len() as int),
            bundle_ok(diff, gr.len() as int),
            (z as int) < gp.len(),
            (one as int) < gp.len(),
            (carry as int) < gr.len(),
            forall|inp: Seq<bool>|
                #[trigger] bundle_uint(gr, inp, diff) + pow2((n + 1) as nat) * bit_nat(
                    wire_value(gr, inp, carry as int),
                ) == bundle_uint(gr, inp, rem2) + bundle_uint(gr, inp, nbx) + bit_nat(
                    wire_value(gr, inp, one as int),
                ),
            forall|inp: Seq<bool>| #[trigger] wire_values(g, inp, rem_new)
                == crate::bits::mux_bits(
                wire_value(g, inp, carry as int),
                wire_values(g, inp, diff),
                wire_values(g, inp, rem2),
            ),
        ensures
            forall|inp: Seq<bool>| #[trigger] div_step_inv(g, inp, a, b, rem_new, qrev_new, gi + 1, n),
            forall|inp: Seq<bool>| #[trigger] wire_values(g, inp, nbx) == not_bits(
                wire_values(g, inp, bx),
            ),
    {
        assert forall|inp: Seq<bool>| #[trigger] wire_values(g, inp, nbx) == not_bits(
            wire_values(g, inp, bx),
        ) by {
            assert(wire_values(g, inp, nbx) =~= wire_values(gp, inp, nbx));
            assert(wire_values(g, inp, bx) =~= wire_values(gp, inp, bx));
            assert(wire_values(gp, inp, nbx) == not_bits(wire_values(gp, inp, bx)));
        }
        assert forall|inp: Seq<bool>| #[trigger] div_step_inv(
            g,
            inp,
            a,
            b,
            rem_new,
            qrev_new,
            gi + 1,
            n,
        ) by {
            assert(div_step_inv(gp, inp, a, b, rem_pre, qrev_pre, gi, n));
            // every bundle named below keeps its bits across the two ops
            assert(wire_values(g, inp, a) =~= wire_values(gp, inp, a));
            assert(wire_values(g, inp, b) =~= wire_values(gp, inp, b));
            assert(wire_values(g, inp, bx) =~= wire_values(gp, inp, bx));
            assert(wire_values(g, inp, nbx) =~= wire_values(gp, inp, nbx));
            assert(wire_values(g, inp, rem_pre) =~= wire_values(gp, inp, rem_pre));
            assert(wire_values(g, inp, qrev_pre) =~= wire_values(gp, inp, qrev_pre));
            assert(wire_values(g, inp, rem2) =~= wire_values(gr, inp, rem2));
            assert(wire_values(g, inp, diff) =~= wire_values(gr, inp, diff));
            assert(wire_values(gr, inp, rem2) =~= wire_values(gp, inp, rem2));
            assert(wire_values(gr, inp, nbx) =~= wire_values(gp, inp, nbx));
            assert(wire_values(gr, inp, bx) =~= wire_values(gp, inp, bx));
            assert(wire_value(gr, inp, one as int) == wire_value(gp, inp, one as int));
            assert(wire_value(g, inp, carry as int) == wire_value(gr, inp, carry as int));
            let va = wire_values(g, inp, a);
            let vrem = wire_values(g, inp, rem_pre);
            let d = bundle_uint(g, inp, b);
            let ri = uint_of(vrem);
            let ai = uint_of(va.skip(n - gi));
            let vq = wire_values(g, inp, qrev_pre);
            let qi = uint_of(vq.reverse());
            let p1 = pow2((n + 1) as nat);
            lemma_pow2_unfold((n + 1) as nat);
            lemma_pow2_pos(n as nat);
            // the shifted-in register reads bit || rem, dropping rem's top 0
            let bitb = va[n - 1 - gi];
            assert(wire_values(g, inp, rem2) =~= seq![bitb] + vrem.take(n));
            assert(vrem.take(n + 1) =~= vrem);
            crate::bits::lemma_uint_of_take_succ(vrem, n);
            assert(!vrem[n]);
            assert(uint_of(vrem.take(n)) == ri);
            assert((seq![bitb] + vrem.take(n)).drop_first() =~= vrem.take(n));
            let t = bit_nat(bitb) + 2 * ri;
            assert(uint_of(wire_values(g, inp, rem2)) == t);
            // the trial subtraction: diff + 2^(n+1)*carry == t - d + 2^(n+1)
            assert(bundle_uint(gr, inp, diff) + p1 * bit_nat(
                wire_value(gr, inp, carry as int),
            ) == bundle_uint(gr, inp, rem2) + bundle_uint(gr, inp, nbx) + bit_nat(
                wire_value(gr, inp, one as int),
            ));
            assert(wire_value(gp, inp, one as int) == true);
            assert(wire_values(gp, inp, nbx) == not_bits(wire_values(gp, inp, bx)));
            lemma_uint_of_not(wire_values(g, inp, bx));
            assert(wire_value(g, inp, z as int) == false);
            assert(wire_values(g, inp, bx) =~= wire_values(g, inp, b).push(false));
            lemma_uint_of_snoc(wire_values(g, inp, b), false);
            assert(bundle_uint(g, inp, bx) == d);
            assert(wire_values(g, inp, bx).len() == n + 1);
            let us = bundle_uint(g, inp, diff);
            let cv = wire_value(g, inp, carry as int);
            assert(us + p1 * bit_nat(cv) == t + (p1 - 1 - d) + 1);
            lemma_uint_of_bound(wire_values(g, inp, diff));
            lemma_uint_of_bound(wire_values(g, inp, b));
            lemma_uint_of_bound(vrem.take(n));
            // the kept remainder
            assert(wire_values(g, inp, rem_new) == (if cv {
                wire_values(g, inp, diff)
            } else {
                wire_values(g, inp, rem2)
            }));
            // the quotient grows by one most-significant-first bit
            assert(wire_values(g, inp, qrev_new) =~= vq.push(cv));
            assert((vq.push(cv)).reverse() =~= seq![cv] + vq.reverse());
            assert((seq![cv] + vq.reverse()).drop_first() =~= vq.reverse());
            assert(uint_of(wire_values(g, inp, qrev_new).reverse()) == bit_nat(cv) + 2 * qi);
            // one more dividend bit
            assert(va.skip(n - gi - 1).drop_first() =~= va.skip(n - gi));
            assert(va.skip(n - gi - 1)[0] == bitb);
            let ai1 = uint_of(va.skip(n - gi - 1));
            assert(ai1 == bit_nat(bitb) + 2 * ai);
            lemma_uint_of_bound(va.skip(n - gi - 1));
            if d > 0 {
                vstd::arithmetic::div_mod::lemma_fundamental_div_mod(ai as int, d as int);
                assert(ai == qi * d + ri) by (nonlinear_arith)
                    requires
                        qi == ai / d,
                        ri == ai % d,
                        d > 0,
                        ai as int == (d as int) * ((ai as int) / (d as int)) + (ai as int) % (
                        d as int),
                ;
                vstd::arithmetic::div_mod::lemma_mod_bound(ai as int, d as int);
                assert(ri < d);
                assert(ai1 as int == (2 * qi) * d + t) by (nonlinear_arith)
                    requires
                        ai == qi * d + ri,
                        ai1 == bit_nat(bitb) + 2 * ai,
                        t == bit_nat(bitb) + 2 * ri,
                ;
                if cv {
                    assert(us == t - d);
                    assert(t - d < d);
                    assert(bundle_uint(g, inp, rem_new) == us);
                    assert(ai1 as int == (2 * qi + 1) * d + (t - d)) by (nonlinear_arith)
                        requires
                            ai1 as int == (2 * qi) * d + t,
                            t >= d,
                    ;
                    lemma_fundamental_div_mod_converse(
                        ai1 as int,
                        d as int,
                        2 * (qi as int) + 1,
                        t as int - d as int,
                    );
                } else {
                    assert(us == t + p1 - d);
                    assert(t < d);
                    assert(bundle_uint(g, inp, rem_new) == t);
                    lemma_fundamental_div_mod_converse(
                        ai1 as int,
                        d as int,
                        2 * qi as int,
                        t as int,
                    );
                }
            } else {
                assert(us + p1 * bit_nat(cv) == t + p1);
                assert(us < p1);
                assert(cv);
                assert(bundle_uint(g, inp, rem_new) == t);
                assert(t == ai1);
                lemma_pow2_unfold((gi + 1) as nat);
                if gi + 1 < n {
                    vstd::arithmetic::power2::lemma_pow2_strictly_increases(
                        (gi + 1) as nat,
                        n as nat,
                    );
                }
            }
        }
    }

    /// Unsigned restoring long division: quotient and remainder bundles.
    /// Each of the n steps shifts the partial remainder left by one, brings in
    /// the next dividend bit, and trial-subtracts the divisor over n+1 bits;
    /// the subtraction's carry is the quotient bit and selects, through a
    /// multiplexer, whether the subtracted value or the old remainder is kept.
    /// A zero divisor yields an all-ones quotient and the dividend itself as
    /// the remainder.
    #[verifier::rlimit(100)]
    pub fn div_rem_wires(&mut self, a: &Vec<u32>, b: &Vec<u32>) -> (r: (Vec<u32>, Vec<u32>))
        requires
            old(self).wf(),
            a@.len() == b@.len(),
            a@.len() >= 1,
            a@.len() <= MAX_GATES,
            bundle_ok(a@, old(self).len()),
            bundle_ok(b@, old(self).len()),
            old(self).len() + 9 * (a@.len() + 1) * (a@.len() + 1) + 8 <= MAX_GATES,
        ensures
            final(self).wf(),
            CircuitBuilder::extends(*final(self), *old(self)),
            final(self).len() <= old(self).len() + 9 * (a@.len() + 1) * (a@.len() + 1) + 8,
            r.0@.len() == a@.len(),
            r.1@.len() == a@.len(),
            bundle_ok(r.0@, final(self).len()),
            bundle_ok(r.1@, final(self).len()),
            forall|inp: Seq<bool>|
                bundle_uint(final(self).gates@, inp, b@) != 0 ==> #[trigger] bundle_uint(
                    final(self).gates@,
                    inp,
                    r.0@,
                ) == bundle_uint(final(self).gates@, inp, a@) / bundle_uint(
                    final(self).gates@,
                    inp,
                    b@,
                ),
            forall|inp: Seq<bool>|
                bundle_uint(final(self).gates@, inp, b@) != 0 ==> #[trigger] bundle_uint(
                    final(self).gates@,
                    inp,
                    r.1@,
                ) == bundle_uint(final(self).gates@, inp, a@) % bundle_uint(
                    final(self).gates@,
                    inp,
                    b@,
                ),
            forall|inp: Seq<bool>|
                bundle_uint(final(self).gates@, inp, b@) == 0 ==> #[trigger] bundle_uint(
                    final(self).gates@,
                    inp,
                    r.0@,
                ) == pow2(a@.len()) - 1,
            forall|inp: Seq<bool>|
                bundle_uint(final(self).gates@, inp, b@) == 0 ==> #[trigger] bundle_uint(
                    final(self).gates@,
                    inp,
                    r.1@,
                ) == bundle_uint(final(self).gates@, inp, a@),
    {
        proof {
            assert((a@[0] as int) < old(self).len());
        }
        let n = a.len();
        let z = self.const_zero();
        let one = self.const_one();
        // divisor widened to n+1 bits with a constant 0 on top
        let mut bx: Vec<u32> = Vec::new();
        let mut j: usize = 0;
        while j < n
            invariant
                j <= n,
                n == b@.len(),
                bx@ == b@.take(j as int),
            decreases n - j,
        {
            bx.push(b[j]);
            j += 1;
        }
        proof {
            assert(b@.take(n as int) =~= b@);
        }
        bx.push(z);
        proof {
            let cur = self.len();
            let base = old(self).len();
            assert(cur + (n + 1) <= MAX_GATES as int) by (nonlinear_arith)
                requires
                    cur <= base + 3,
                    base + 9 * (n + 1) * (n + 1) + 8 <= MAX_GATES as int,
                    n >= 1,
            ;
        }
        let nbx = self.not_wires(&bx);
        // the partial remainder register, n+1 wires, initially all 0
        let mut rem: Vec<u32> = Vec::new();
        let np1: usize = n + 1;
        let mut jr: usize = 0;
        while jr < np1
            invariant
                jr <= np1,
                np1 == n + 1,
                rem@.len() == jr,
                forall|k: int| 0 <= k < jr ==> rem@[k] == z,
            decreases np1 - jr,
        {
            rem.push(z);
            jr += 1;
        }
        let mut qrev: Vec<u32> = Vec::new();
        proof {
            assert forall|inp: Seq<bool>| #[trigger] div_step_inv(
                self.gates@,
                inp,
                a@,
                b@,
                rem@,
                qrev@,
                0,
                n as int,
            ) by {
                let g = self.gates@;
                let d = bundle_uint(g, inp, b@);
                assert forall|k: int| 0 <= k < rem@.len() implies !(#[trigger] wire_values(
                    g,
                    inp,
                    rem@,
                )[k]) by {
                    assert(rem@[k] == z);
                }
                crate::bits::lemma_uint_of_zeros(wire_values(g, inp, rem@));
                assert(wire_values(g, inp, a@).skip(n as int) =~= Seq::<bool>::empty());
                assert(wire_values(g, inp, qrev@).reverse() =~= Seq::<bool>::empty());
                lemma_pow2_pos(n as nat);
                vstd::arithmetic::power2::lemma2_to64();
                if d > 0 {
                    vstd::arithmetic::div_mod::lemma_small_mod(0nat, d);
                    vstd::arithmetic::div_mod::lemma_div_of0(d as int);
                }
            }
        }
        let mut step: usize = 0;
        while step < n
            invariant
                self.wf(),
                CircuitBuilder::extends(*self, *old(self)),
                self.len() <= old(self).len() + 4 + (n + 1) + 8 * (n + 1) * step,
                n == a@.len(),
                a@.len() == b@.len(),
                n >= 1,
                bundle_ok(a@, old(self).len()),
                bundle_ok(b@, old(self).len()),
                old(self).len() + 9 * (n + 1) * (n + 1) + 8 <= MAX_GATES,
                (z as int) < self.len(),
                (one as int) < self.len(),
                forall|inp: Seq<bool>| #[trigger] wire_value(self.gates@, inp, z as int) == false,
                forall|inp: Seq<bool>| #[trigger] wire_value(self.gates@, inp, one as int) == true,
                bx@ == b@.push(z),
                nbx@.len() == n + 1,
                bundle_ok(nbx@, self.len()),
                forall|inp: Seq<bool>| #[trigger] wire_values(self.gates@, inp, nbx@) == not_bits(
                    wire_values(self.gates@, inp, bx@),
                ),
                step <= n,
                rem@.len() == n + 1,
                bundle_ok(rem@, self.len()),
                qrev@.len() == step,
                bundle_ok(qrev@, self.len()),
                forall|inp: Seq<bool>| #[trigger] div_step_inv(
                    self.gates@,
                    inp,
                    a@,
                    b@,
                    rem@,
                    qrev@,
                    step as int,
                    n as int,
                ),
            decreases n - step,
        {
            let ghost pre = *self;
            let ghost rem_pre = rem@;
            let ghost qrev_pre = qrev@;
            proof {
                let cur = self.len();
                let base = old(self).len();
                assert(cur + 8 * (n + 1) <= MAX_GATES as int) by (nonlinear_arith)
                    requires
                        cur <= base + 4 + (n + 1) + 8 * (n + 1) * step,
                        base + 9 * (n + 1) * (n + 1) + 8 <= MAX_GATES as int,
                        0 <= step < n,
                ;
            }
            // shift the remainder left by one, bringing in the next dividend bit
            let mut rem2: Vec<u32> = Vec::new();
            rem2.push(a[n - 1 - step]);
            let mut jj: usize = 0;
            while jj < n
                invariant
                    jj <= n,
                    rem_pre.len() == n + 1,
                    rem@ == rem_pre,
                    rem2@.len() == jj + 1,
                    rem2@[0] == a@[n - 1 - step as int],
                    n == a@.len(),
                    step < n,
                    forall|k: int| 0 <= k < jj ==> rem2@[k + 1] == rem_pre[k],
                decreases n - jj,
            {
                rem2.push(rem[jj]);
                jj += 1;
            }
            proof {
                assert(rem2@ =~= seq![a@[n - 1 - step as int]] + rem_pre.take(n as int));
                assert forall|k: int| 0 <= k < rem2@.len() implies (#[trigger] rem2@[k] as int)
                    < self.len() by {
                    assert((a@[n - 1 - step as int] as int) < old(self).len());
                    if k > 0 {
                        assert(rem2@[k] == rem_pre[k - 1]);
                    }
                }
            }
            // trial subtraction over n+1 bits
            let (diff, carry) = self.ripple_add(&rem2, &nbx, one);
            let ghost sr = *self;
            // keep the subtracted value exactly when it did not borrow
            let rem3 = self.mux_wires(carry, &diff, &rem2);
            qrev.push(carry);
            rem = rem3;
            step += 1;
            proof {
                assert(8 * (n + 1) * (step as int) == 8 * (n + 1) * (step - 1) + 8 * (n
                    + 1)) by (nonlinear_arith);
                CircuitBuilder::lemma_div_step(
                    pre.gates@,
                    sr.gates@,
                    self.gates@,
                    a@,
                    b@,
                    bx@,
                    nbx@,
                    rem_pre,
                    rem2@,
                    diff@,
                    rem@,
                    qrev_pre,
                    qrev@,
                    carry,
                    one,
                    z,
                    step - 1,
                    n as int,
                );
            }
        }
        // quotient bits were collected most significant first
        let mut q: Vec<u32> = Vec::new();
        let mut jq: usize = 0;
        while jq < n
            invariant
                jq <= n,
                qrev@.len() == n,
                n >= 1,
                q@.len() == jq,
                forall|k: int| 0 <= k < jq ==> q@[k] == qrev@[n - 1 - k],
            decreases n - jq,
        {
            q.push(qrev[n - 1 - jq]);
            jq += 1;
        }
        // the remainder is the low n wires of the register
        let mut rr: Vec<u32> = Vec::new();
        let mut jx: usize = 0;
        while jx < n
            invariant
                jx <= n,
                rem@.len() == n + 1,
                rr@ == rem@.take(jx as int),
            decreases n - jx,
        {
            rr.push(rem[jx]);
            jx += 1;
        }
        proof {
            assert(4 + (n + 1) + 8 * (n + 1) * n <= 9 * (n + 1) * (n + 1) + 8) by (nonlinear_arith);
            lemma_pow2_pos(n as nat);
            let g = self.gates@;
            assert forall|inp: Seq<bool>|
                (#[trigger] bundle_uint(g, inp, q@) == (if bundle_uint(g, inp, b@) == 0 {
                    (pow2(a@.len()) - 1) as nat
                } else {
                    bundle_uint(g, inp, a@) / bundle_uint(g, inp, b@)
                })) by {
                assert(div_step_inv(g, inp, a@, b@, rem@, qrev@, n as int, n as int));
                let va = wire_values(g, inp, a@);
                assert(va.skip(0) =~= va);
                let vq = wire_values(g, inp, qrev@);
                assert(wire_values(g, inp, q@) =~= vq.reverse());
                let vrem = wire_values(g, inp, rem@);
                assert(vrem.take(n as int + 1) =~= vrem);
                crate::bits::lemma_uint_of_take_succ(vrem, n as int);
                lemma_pow2_pos(n as nat);
                assert(!vrem[n as int]);
                assert(wire_values(g, inp, rr@) =~= vrem.take(n as int));
                assert(uint_of(wire_values(g, inp, rr@)) == bundle_uint(g, inp, rem@));
            }
            assert forall|inp: Seq<bool>|
                (#[trigger] bundle_uint(g, inp, rr@) == (if bundle_uint(g, inp, b@) == 0 {
                    bundle_uint(g, inp, a@)
                } else {
                    bundle_uint(g, inp, a@) % bundle_uint(g, inp, b@)
                })) by {
                assert(div_step_inv(g, inp, a@, b@, rem@, qrev@, n as int, n as int));
                let va = wire_values(g, inp, a@);
                assert(va.skip(0) =~= va);
                let vrem = wire_values(g, inp, rem@);
                assert(vrem.take(n as int + 1) =~= vrem);
                crate::bits::lemma_uint_of_take_succ(vrem, n as int);
                lemma_pow2_pos(n as nat);
                assert(!vrem[n as int]);
                assert(wire_values(g, inp, rr@) =~= vrem.take(n as int));
                assert(uint_of(wire_values(g, inp, rr@)) == bundle_uint(g, inp, rem@));
            }
        }
        (q, rr)
    }

}

} // verus!