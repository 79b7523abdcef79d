use vstd::prelude::*;

verus! {

/// Cap on the number of gates in one circuit; the MPC engine rejects anything larger.
pub const MAX_GATES: usize = 0x0fff_ffff;

/// A primitive gate. Operands point backwards at earlier gates; gate number i
/// drives wire number i.
#[derive(Clone, Copy, Debug, PartialEq, Eq, Structural)]
pub enum Gate {
    /// An input bit supplied by the contributor party.
    InContrib,
    /// An input bit supplied by the evaluator party.
    InEval,
    /// Exclusive or of two earlier wires.
    Xor(u32, u32),
    /// Conjunction of two earlier wires.
    And(u32, u32),
    /// Negation of an earlier wire.
    Not(u32),
}

/// The boolean carried by wire `i` of a gate list under the input assignment
/// `inp`. Inputs are indexed by wire position: the input gate at position `i`
/// reads `inp[i]`; positions holding compute gates never read `inp`.
pub open spec fn wire_value(gates: Seq<Gate>, inp: Seq<bool>, i: int) -> bool
    decreases i,
{
    if 0 <= i < gates.len() {
        match gates[i] {
            Gate::InContrib => inp[i],
            Gate::InEval => inp[i],
            Gate::Xor(a, b) => if (a as int) < i && (b as int) < i {
                wire_value(gates, inp, a as int) != wire_value(gates, inp, b as int)
            } else {
                false
            },
            Gate::And(a, b) => if (a as int) < i && (b as int) < i {
                wire_value(gates, inp, a as int) && wire_value(gates, inp, b as int)
            } else {
                false
            },
            Gate::Not(a) => if (a as int) < i {
                !wire_value(gates, inp, a as int)
            } else {
                false
            },
        }
    } else {
        false
    }
}

/// The values carried by a list of wires, in order.
pub open spec fn wire_values(gates: Seq<Gate>, inp: Seq<bool>, ws: Seq<u32>) -> Seq<bool> {
    Seq::new(ws.len(), |k: int| wire_value(gates, inp, ws[k] as int))
}

/// A non-input gate is well formed at position `i` when its operands point
/// strictly backwards.
pub open spec fn compute_gate_ok(g: Gate, i: int) -> bool {
    match g {
        Gate::InContrib => false,
        Gate::InEval => false,
        Gate::Xor(a, b) => (a as int) < i && (b as int) < i,
        Gate::And(a, b) => (a as int) < i && (b as int) < i,
        Gate::Not(a) => (a as int) < i,
    }
}

/// Shape of a well-formed gate list: the contributor's input gates first, the
/// evaluator's next, then compute gates whose operands all point backwards.
pub open spec fn gates_wf(gates: Seq<Gate>, nc: int, ne: int) -> bool {
    &&& 0 <= nc
    &&& 0 <= ne
    &&& nc + ne <= gates.len()
    &&& gates.len() <= MAX_GATES as int
    &&& forall|i: int| 0 <= i < nc ==> gates[i] == Gate::InContrib
    &&& forall|i: int| nc <= i < nc + ne ==> gates[i] == Gate::InEval
    &&& forall|i: int| nc + ne <= i < gates.len() ==> compute_gate_ok(#[trigger] gates[i], i)
}

/// Every wire of a bundle points into the first `len` gates.
pub open spec fn bundle_ok(ws: Seq<u32>, len: int) -> bool {
    forall|k: int| 0 <= k < ws.len() ==> (#[trigger] ws[k] as int) < len
}

/// Extending a gate list never changes the value carried by an existing wire.
pub proof fn lemma_wire_value_prefix(g1: Seq<Gate>, g2: Seq<Gate>, inp: Seq<bool>, i: int)
    requires
        g1.is_prefix_of(g2),
        0 <= i < g1.len(),
    ensures
        wire_value(g2, inp, i) == wire_value(g1, inp, i),
    decreases i,
{
    assert(g2[i] == g1[i]);
    match g1[i] {
        Gate::InContrib => {},
        Gate::InEval => {},
        Gate::Xor(a, b) => {
            if (a as int) < i && (b as int) < i {
                lemma_wire_value_prefix(g1, g2, inp, a as int);
                lemma_wire_value_prefix(g1, g2, inp, b as int);
            }
        },
        Gate::And(a, b) => {
            if (a as int) < i && (b as int) < i {
                lemma_wire_value_prefix(g1, g2, inp, a as int);
                lemma_wire_value_prefix(g1, g2, inp, b as int);
            }
        },
        Gate::Not(a) => {
            if (a as int) < i {
                lemma_wire_value_prefix(g1, g2, inp, a as int);
            }
        },
    }
}

/// An immutable Boolean circuit: its gates, the wires exposed as outputs, and
/// how many leading input gates belong to the contributor and the evaluator.
#[derive(Clone, Debug)]
pub struct BoolCircuit {
    pub gates: Vec<Gate>,
    pub output_wires: Vec<u32>,
    pub n_contrib: usize,
    pub n_eval: usize,
}

impl BoolCircuit {
    /// Structural soundness: topological gate list with all inputs first, and
    /// at least one output, each naming an existing wire. The MPC engine has a
    /// separate, smaller cap on AND gates alone, which this invariant does not
    /// track: a well-formed circuit over that cap is rejected by the engine
    /// with an error, never executed wrongly.
    pub open spec fn wf(self) -> bool {
        &&& gates_wf(self.gates@, self.n_contrib as int, self.n_eval as int)
        &&& self.n_contrib + self.n_eval <= usize::MAX
        &&& self.output_wires@.len() >= 1
        &&& bundle_ok(self.output_wires@, self.gates@.len() as int)
    }

    /// The output bits the circuit denotes for one concatenated input assignment
    /// (contributor bits first, then evaluator bits).
    pub open spec fn outputs_on(self, inp: Seq<bool>) -> Seq<bool> {
        wire_values(self.gates@, inp, self.output_wires@)
    }

    /// Decides the structural invariant at run time: returns exactly `wf`.
    /// Unverified callers test this before handing a circuit to the MPC
    /// driver.
    pub fn validate(&self) -> (r: bool)
        ensures
            r == self.wf(),
    {
        let nc = self.n_contrib;
        let ne = self.n_eval;
        let len = self.gates.len();
        if usize::MAX - nc < ne {
            return false;
        }
        if nc + ne > len {
            return false;
        }
        if len > MAX_GATES {
            return false;
        }
        let mut i: usize = 0;
        while i < len
            invariant
                nc + ne <= len,
                len == self.gates@.len(),
                nc == self.n_contrib,
                ne == self.n_eval,
                i <= len,
                forall|j: int| 0 <= j < i && j < nc ==> self.gates@[j] == Gate::InContrib,
                forall|j: int| nc <= j < i && j < nc + ne ==> self.gates@[j] == Gate::InEval,
                forall|j: int|
                    nc + ne <= j < i ==> compute_gate_ok(#[trigger] self.gates@[j], j),
            decreases len - i,
        {
            let g = self.gates[i];
            let ok = if i < nc {
                matches!(g, Gate::InContrib)
            } else if i < nc + ne {
                matches!(g, Gate::InEval)
            } else {
                match g {
                    Gate::InContrib => false,
                    Gate::InEval => false,
                    Gate::Xor(a, b) => (a as usize) < i && (b as usize) < i,
                    Gate::And(a, b) => (a as usize) < i && (b as usize) < i,
                    Gate::Not(a) => (a as usize) < i,
                }
            };
            if !ok {
                proof {
                    if self.wf() {
                        assert(i < nc ==> self.gates@[i as int] == Gate::InContrib);
                        assert(nc <= i < nc + ne ==> self.gates@[i as int] == Gate::InEval);
                        assert(nc + ne <= i ==> compute_gate_ok(self.gates@[i as int], i as int));
                    }
                }
                return false;
            }
            i += 1;
        }
        if self.output_wires.len() == 0 {
            return false;
        }
        let m = self.output_wires.len();
        let mut j: usize = 0;
        while j < m
            invariant
                m == self.output_wires@.len(),
                len == self.gates@.len(),
                j <= m,
                forall|k: int| 0 <= k < j ==> (#[trigger] self.output_wires@[k] as int) < len,
            decreases m - j,
        {
            if !((self.output_wires[j] as usize) < len) {
                proof {
                    if self.wf() {
                        assert((self.output_wires@[j as int] as int) < len);
                    }
                }
                return false;
            }
            j += 1;
        }
        true
    }
}

/// Reference Boolean simulator: evaluates every gate in order and returns the
/// bits on the output wires. This is the plain-text meaning of a circuit,
/// against which the cryptographic execution can be compared.
pub fn eval_circuit(c: &BoolCircuit, inputs: &Vec<bool>) -> (r: Vec<bool>)
    requires
        c.wf(),
        inputs@.len() == c.n_contrib + c.n_eval,
    ensures
        r@ == c.outputs_on(inputs@),
        r@.len() == c.output_wires@.len(),
{
    let n = c.gates.len();
    let mut vals: Vec<bool> = Vec::new();
    let mut i: usize = 0;
    while i < n
        invariant
            c.wf(),
            inputs@.len() == c.n_contrib + c.n_eval,
            n == c.gates@.len(),
            i <= n,
            vals@.len() == i,
            forall|k: int| 0 <= k < i ==> vals@[k] == wire_value(c.gates@, inputs@, k),
        decreases n - i,
    {
        let g = c.gates[i];
        let v = match g {
            Gate::InContrib => inputs[i],
            Gate::InEval => inputs[i],
            Gate::Xor(a, b) => vals[a as usize] != vals[b as usize],
            Gate::And(a, b) => vals[a as usize] && vals[b as usize],
            Gate::Not(a) => !vals[a as usize],
        };
        vals.push(v);
        i += 1;
    }
    let m = c.output_wires.len();
    let mut r: Vec<bool> = Vec::new();
    let mut j: usize = 0;
    while j < m
        invariant
            c.wf(),
            m == c.output_wires@.len(),
            j <= m,
            vals@.len() == c.gates@.len(),
            forall|k: int| 0 <= k < vals@.len() ==> vals@[k] == wire_value(
                c.gates@,
                inputs@,
                k,
            ),
            r@.len() == j,
            forall|k: int| 0 <= k < j ==> r@[k] == wire_value(
                c.gates@,
                inputs@,
                c.output_wires@[k] as int,
            ),
        decreases m - j,
    {
        let w = c.output_wires[j];
        r.push(vals[w as usize]);
        j += 1;
    }
    proof {
        assert(r@ =~= c.outputs_on(inputs@));
    }
    r
}

} // verus!
