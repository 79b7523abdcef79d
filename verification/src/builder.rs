use vstd::prelude::*;

verus! {

use crate::circuit::Gate;
use crate::circuit::BoolCircuit;
use crate::circuit::MAX_GATES;
use crate::circuit::wire_value;
use crate::circuit::gates_wf;
use crate::circuit::bundle_ok;
use crate::circuit::lemma_wire_value_prefix;

/// A wire fixed to one Boolean value under every input assignment.
pub open spec fn const_wire_ok(w: Option<u32>, gates: Seq<Gate>, v: bool) -> bool {
    match w {
        Some(w) => (w as int) < gates.len() && forall|inp: Seq<bool>|
            #[trigger] wire_value(gates, inp, w as int) == v,
        None => true,
    }
}

/// Accumulates gates and allocates wire indices. The builder is linear: it is
/// consumed by `finalize`, which produces an immutable `BoolCircuit`.
pub struct CircuitBuilder {
    pub gates: Vec<Gate>,
    pub n_contrib: usize,
    pub n_eval: usize,
    pub zero: Option<u32>,
    pub one: Option<u32>,
}

impl CircuitBuilder {
    /// Invariant kept by every builder operation.
    pub open spec fn wf(self) -> bool {
        &&& gates_wf(self.gates@, self.n_contrib as int, self.n_eval as int)
        &&& const_wire_ok(self.zero, self.gates@, false)
        &&& const_wire_ok(self.one, self.gates@, true)
    }

    /// The next wire index to be allocated.
    pub open spec fn len(self) -> int {
        self.gates@.len() as int
    }

    /// `post` extends `pre` with compute gates only: all existing wires keep
    /// their value under every input assignment.
    pub open spec fn extends(post: CircuitBuilder, pre: CircuitBuilder) -> bool {
        &&& pre.gates@.is_prefix_of(post.gates@)
        &&& post.n_contrib == pre.n_contrib
        &&& post.n_eval == pre.n_eval
        &&& forall|inp: Seq<bool>, w: int|
            0 <= w < pre.gates@.len() ==> #[trigger] wire_value(post.gates@, inp, w)
                == wire_value(pre.gates@, inp, w)
    }

    pub fn new() -> (r: CircuitBuilder)
        ensures
            r.wf(),
            r.gates@.len() == 0,
            r.n_contrib == 0,
            r.n_eval == 0,
    {
        CircuitBuilder { gates: Vec::new(), n_contrib: 0, n_eval: 0, zero: None, one: None }
    }

    /// Allocates a fresh wire holding a private input bit of the contributor.
    /// All contributor inputs must be bound before any other gate is placed.
    pub fn push_input_contrib(&mut self) -> (r: u32)
        requires
            old(self).wf(),
            old(self).gates@.len() == old(self).n_contrib,
            old(self).n_eval == 0,
            old(self).gates@.len() < MAX_GATES,
        ensures
            final(self).wf(),
            r as int == old(self).gates@.len(),
            final(self).gates@ == old(self).gates@.push(Gate::InContrib),
            final(self).n_contrib == old(self).n_contrib + 1,
            final(self).n_eval == 0,
            final(self).gates@.len() == final(self).n_contrib,
            final(self).zero == old(self).zero,
            final(self).one == old(self).one,
            forall|inp: Seq<bool>| #[trigger] wire_value(final(self).gates@, inp, r as int) == inp[r as int],
            forall|inp: Seq<bool>, w: int|
                0 <= w < old(self).gates@.len() ==> #[trigger] wire_value(final(self).gates@, inp, w)
                    == wire_value(old(self).gates@, inp, w),
    {
        let r = self.gates.len() as u32;
        self.gates.push(Gate::InContrib);
        self.n_contrib = self.n_contrib + 1;
        proof {
            self.lemma_push_preserves(*old(self));
        }
        r
    }

    /// Allocates a fresh wire holding a private input bit of the evaluator.
    /// Evaluator inputs come after the contributor's and before compute gates.
    pub fn push_input_eval(&mut self) -> (r: u32)
        requires
            old(self).wf(),
            old(self).gates@.len() == old(self).n_contrib + old(self).n_eval,
            old(self).gates@.len() < MAX_GATES,
        ensures
            final(self).wf(),
            r as int == old(self).gates@.len(),
            final(self).gates@ == old(self).gates@.push(Gate::InEval),
            final(self).n_contrib == old(self).n_contrib,
            final(self).n_eval == old(self).n_eval + 1,
            final(self).gates@.len() == final(self).n_contrib + final(self).n_eval,
            final(self).zero == old(self).zero,
            final(self).one == old(self).one,
            forall|inp: Seq<bool>| #[trigger] wire_value(final(self).gates@, inp, r as int) == inp[r as int],
            forall|inp: Seq<bool>, w: int|
                0 <= w < old(self).gates@.len() ==> #[trigger] wire_value(final(self).gates@, inp, w)
                    == wire_value(old(self).gates@, inp, w),
    {
        let r = self.gates.len() as u32;
        self.gates.push(Gate::InEval);
        self.n_eval = self.n_eval + 1;
        proof {
            self.lemma_push_preserves(*old(self));
        }
        r
    }

    /// Existing wires keep their values when gates are appended; the cached
    /// constant wires stay constant.
    proof fn lemma_push_preserves(&self, pre: CircuitBuilder)
        requires
            pre.gates@.is_prefix_of(self.gates@),
        ensures
            forall|inp: Seq<bool>, w: int|
                0 <= w < pre.gates@.len() ==> #[trigger] wire_value(self.gates@, inp, w)
                    == wire_value(pre.gates@, inp, w),
            const_wire_ok(pre.zero, pre.gates@, false) ==> const_wire_ok(
                pre.zero,
                self.gates@,
                false,
            ),
            const_wire_ok(pre.one, pre.gates@, true) ==> const_wire_ok(pre.one, self.gates@, true),
    {
        assert forall|inp: Seq<bool>, w: int| 0 <= w < pre.gates@.len() implies #[trigger]
            wire_value(self.gates@, inp, w) == wire_value(pre.gates@, inp, w) by {
            lemma_wire_value_prefix(pre.gates@, self.gates@, inp, w);
        }
        if const_wire_ok(pre.zero, pre.gates@, false) {
            match pre.zero {
                Some(w) => {
                    assert forall|inp: Seq<bool>| #[trigger] wire_value(self.gates@, inp, w as int)
                        == false by {
                        lemma_wire_value_prefix(pre.gates@, self.gates@, inp, w as int);
                    }
                },
                None => {},
            }
        }
        if const_wire_ok(pre.one, pre.gates@, true) {
            match pre.one {
                Some(w) => {
                    assert forall|inp: Seq<bool>| #[trigger] wire_value(self.gates@, inp, w as int)
                        == true by {
                        lemma_wire_value_prefix(pre.gates@, self.gates@, inp, w as int);
                    }
                },
                None => {},
            }
        }
    }

    /// Appends an XOR gate over two existing wires and returns its output wire.
    pub fn push_xor(&mut self, a: u32, b: u32) -> (r: u32)
        requires
            old(self).wf(),
            (a as int) < old(self).len(),
            (b as int) < old(self).len(),
            old(self).len() < MAX_GATES,
        ensures
            final(self).wf(),
            CircuitBuilder::extends(*final(self), *old(self)),
            r as int == old(self).len(),
            final(self).gates@ == old(self).gates@.push(Gate::Xor(a, b)),
            final(self).zero == old(self).zero,
            final(self).one == old(self).one,
            forall|inp: Seq<bool>| #[trigger] wire_value(final(self).gates@, inp, r as int)
                == (wire_value(final(self).gates@, inp, a as int) != wire_value(
                final(self).gates@,
                inp,
                b as int,
            )),
    {
        let r = self.gates.len() as u32;
        self.gates.push(Gate::Xor(a, b));
        proof {
            self.lemma_push_preserves(*old(self));
        }
        r
    }

    /// Appends an AND gate over two existing wires and returns its output wire.
    pub fn push_and(&mut self, a: u32, b: u32) -> (r: u32)
        requires
            old(self).wf(),
            (a as int) < old(self).len(),
            (b as int) < old(self).len(),
            old(self).len() < MAX_GATES,
        ensures
            final(self).wf(),
            CircuitBuilder::extends(*final(self), *old(self)),
            r as int == old(self).len(),
            final(self).gates@ == old(self).gates@.push(Gate::And(a, b)),
            final(self).zero == old(self).zero,
            final(self).one == old(self).one,
            forall|inp: Seq<bool>| #[trigger] wire_value(final(self).gates@, inp, r as int)
                == (wire_value(final(self).gates@, inp, a as int) && wire_value(
                final(self).gates@,
                inp,
                b as int,
            )),
    {
        let r = self.gates.len() as u32;
        self.gates.push(Gate::And(a, b));
        proof {
            self.lemma_push_preserves(*old(self));
        }
        r
    }

    /// Appends a NOT gate over an existing wire and returns its output wire.
    pub fn push_not(&mut self, a: u32) -> (r: u32)
        requires
            old(self).wf(),
            (a as int) < old(self).len(),
            old(self).len() < MAX_GATES,
        ensures
            final(self).wf(),
            CircuitBuilder::extends(*final(self), *old(self)),
            r as int == old(self).len(),
            final(self).gates@ == old(self).gates@.push(Gate::Not(a)),
            final(self).zero == old(self).zero,
            final(self).one == old(self).one,
            forall|inp: Seq<bool>| #[trigger] wire_value(final(self).gates@, inp, r as int)
                == !wire_value(final(self).gates@, inp, a as int),
    {
        let r = self.gates.len() as u32;
        self.gates.push(Gate::Not(a));
        proof {
            self.lemma_push_preserves(*old(self));
        }
        r
    }

    /// Returns a wire fixed to 0, synthesising it as `Xor(w, w)` on first use
    /// and caching it afterwards.
    pub fn const_zero(&mut self) -> (r: u32)
        requires
            old(self).wf(),
            old(self).len() >= 1,
            old(self).len() < MAX_GATES,
        ensures
            final(self).wf(),
            CircuitBuilder::extends(*final(self), *old(self)),
            (r as int) < final(self).len(),
            final(self).len() <= old(self).len() + 1,
            final(self).zero == Some(r),
            final(self).one == old(self).one,
            forall|inp: Seq<bool>| #[trigger] wire_value(final(self).gates@, inp, r as int)
                == false,
    {
        let cached = self.zero;
        match cached {
            Some(w) => w,
            None => {
                let w = self.push_xor(0, 0);
                self.zero = Some(w);
                w
            },
        }
    }

    /// Returns a wire fixed to 1 (`Not` of the zero wire), cached after first use.
    pub fn const_one(&mut self) -> (r: u32)
        requires
            old(self).wf(),
            old(self).len() >= 1,
            old(self).len() + 2 <= MAX_GATES,
        ensures
            final(self).wf(),
            CircuitBuilder::extends(*final(self), *old(self)),
            (r as int) < final(self).len(),
            final(self).len() <= old(self).len() + 2,
            final(self).one == Some(r),
            forall|inp: Seq<bool>| #[trigger] wire_value(final(self).gates@, inp, r as int) == true,
    {
        let cached = self.one;
        match cached {
            Some(w) => w,
            None => {
                let z = self.const_zero();
                let w = self.push_not(z);
                self.one = Some(w);
                w
            },
        }
    }

    /// Consumes the builder, fixing the given wires as the circuit's outputs.
    pub fn finalize(self, output_wires: Vec<u32>) -> (r: BoolCircuit)
        requires
            self.wf(),
            output_wires@.len() >= 1,
            bundle_ok(output_wires@, self.len()),
        ensures
            r.wf(),
            r.gates@ == self.gates@,
            r.output_wires@ == output_wires@,
            r.n_contrib == self.n_contrib,
            r.n_eval == self.n_eval,
    {
        BoolCircuit {
            gates: self.gates,
            output_wires,
            n_contrib: self.n_contrib,
            n_eval: self.n_eval,
        }
    }
}

} // verus!
