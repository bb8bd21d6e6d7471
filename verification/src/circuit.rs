//! The circuit that lowering produces: registers, gate templates and the
//! instruction sequence, together with the mathematical view of each.
use crate::gates::GateRef;
use crate::text::texts;
use vstd::prelude::*;

verus! {

/// Whether a register holds qubits or classical bits.
#[derive(Clone, Copy, Debug, PartialEq, Eq, Structural)]
pub enum RegisterKind {
    Quantum,
    Classical,
}

/// A named register of a fixed number of bits.
#[derive(Debug, PartialEq, Eq)]
pub struct Register {
    pub kind: RegisterKind,
    pub name: String,
    pub size: usize,
}

/// What a [`Register`] stands for.
pub struct RegisterView {
    pub kind: RegisterKind,
    pub name: Seq<char>,
    pub size: nat,
}

impl View for Register {
    type V = RegisterView;

    open spec fn view(&self) -> RegisterView {
        RegisterView { kind: self.kind, name: self.name@, size: self.size as nat }
    }
}

/// A handle to one bit: the position of its register among the circuit's
/// registers, and the position of the bit in that register.
#[derive(Clone, Copy, Debug, PartialEq, Eq, Structural)]
pub struct Bit {
    pub register: usize,
    pub index: usize,
}

/// One entry of the instruction sequence.
#[derive(Debug, PartialEq, Eq)]
pub enum Instruction {
    /// A gate, with its parameter expressions bound by position, applied to
    /// the listed bits.
    Gate { gate: GateRef, params: Vec<String>, bits: Vec<Bit> },
    /// A barrier across the listed qubits.
    Barrier { bits: Vec<Bit> },
    /// A reset of each of the listed qubits.
    Reset { bits: Vec<Bit> },
    /// A measurement of the listed qubits into the listed classical bits.
    Measure { qubits: Vec<Bit>, clbits: Vec<Bit> },
}

/// What an [`Instruction`] stands for.
pub enum InstructionView {
    Gate { gate: GateRef, params: Seq<Seq<char>>, bits: Seq<Bit> },
    Barrier { bits: Seq<Bit> },
    Reset { bits: Seq<Bit> },
    Measure { qubits: Seq<Bit>, clbits: Seq<Bit> },
}

impl View for Instruction {
    type V = InstructionView;

    open spec fn view(&self) -> InstructionView {
        match *self {
            Instruction::Gate { gate, params, bits } => InstructionView::Gate {
                gate,
                params: texts(params@),
                bits: bits@,
            },
            Instruction::Barrier { bits } => InstructionView::Barrier { bits: bits@ },
            Instruction::Reset { bits } => InstructionView::Reset { bits: bits@ },
            Instruction::Measure { qubits, clbits } => InstructionView::Measure {
                qubits: qubits@,
                clbits: clbits@,
            },
        }
    }
}

/// One gate application inside the body of a gate template. The operands are
/// positions among the template's formal qubits.
#[derive(Debug, PartialEq, Eq)]
pub struct TemplateOp {
    pub gate: GateRef,
    pub params: Vec<String>,
    pub positions: Vec<usize>,
}

/// What a [`TemplateOp`] stands for.
pub struct TemplateOpView {
    pub gate: GateRef,
    pub params: Seq<Seq<char>>,
    pub positions: Seq<usize>,
}

impl View for TemplateOp {
    type V = TemplateOpView;

    open spec fn view(&self) -> TemplateOpView {
        TemplateOpView {
            gate: self.gate,
            params: texts(self.params@),
            positions: self.positions@,
        }
    }
}

/// The views of a sequence of template operations.
pub open spec fn op_views(v: Seq<TemplateOp>) -> Seq<TemplateOpView> {
    Seq::new(v.len(), |i: int| v[i]@)
}

/// A reusable gate that a program has declared: either defined by a body of
/// gate applications, or opaque (declared without a body).
#[derive(Debug, PartialEq, Eq)]
pub struct GateTemplate {
    pub name: String,
    /// The number of qubits that it acts on.
    pub arity: usize,
    /// The names of the formal parameters.
    pub params: Vec<String>,
    /// The body; `None` for an opaque gate.
    pub body: Option<Vec<TemplateOp>>,
}

/// What a [`GateTemplate`] stands for.
pub struct GateTemplateView {
    pub name: Seq<char>,
    pub arity: nat,
    pub params: Seq<Seq<char>>,
    pub body: Option<Seq<TemplateOpView>>,
}

impl View for GateTemplate {
    type V = GateTemplateView;

    open spec fn view(&self) -> GateTemplateView {
        GateTemplateView {
            name: self.name@,
            arity: self.arity as nat,
            params: texts(self.params@),
            body: match self.body {
                Some(ops) => Some(op_views(ops@)),
                None => None,
            },
        }
    }
}

/// The views of a sequence of registers.
pub open spec fn register_views(v: Seq<Register>) -> Seq<RegisterView> {
    Seq::new(v.len(), |i: int| v[i]@)
}

/// The views of a sequence of gate templates.
pub open spec fn template_views(v: Seq<GateTemplate>) -> Seq<GateTemplateView> {
    Seq::new(v.len(), |i: int| v[i]@)
}

/// The views of a sequence of instructions.
pub open spec fn instruction_views(v: Seq<Instruction>) -> Seq<InstructionView> {
    Seq::new(v.len(), |i: int| v[i]@)
}

/// A lowered program. Registers and templates stand in declaration order,
/// instructions in the order of the statements they come from.
#[derive(Debug, PartialEq, Eq)]
pub struct Circuit {
    pub registers: Vec<Register>,
    pub templates: Vec<GateTemplate>,
    pub instructions: Vec<Instruction>,
}

/// What a [`Circuit`] stands for.
pub struct CircuitView {
    pub registers: Seq<RegisterView>,
    pub templates: Seq<GateTemplateView>,
    pub instructions: Seq<InstructionView>,
}

impl View for Circuit {
    type V = CircuitView;

    open spec fn view(&self) -> CircuitView {
        CircuitView {
            registers: register_views(self.registers@),
            templates: template_views(self.templates@),
            instructions: instruction_views(self.instructions@),
        }
    }
}

/// Whether `bit` is a bit of one of the registers `regs`, of the given kind:
/// its register is among them and has that kind, and its index lies within
/// that register.
pub open spec fn is_bit_of(regs: Seq<RegisterView>, bit: Bit, kind: RegisterKind) -> bool {
    &&& bit.register < regs.len()
    &&& regs[bit.register as int].kind == kind
    &&& bit.index < regs[bit.register as int].size
}

/// Whether the registers can be told apart by handles: there are no more of
/// them, and no more bits in any of them, than a machine word counts.
pub open spec fn in_reach(regs: Seq<RegisterView>) -> bool {
    &&& regs.len() <= usize::MAX
    &&& forall|r: int| 0 <= r < regs.len() ==> (#[trigger] regs[r]).size <= usize::MAX
}

/// Whether all of `bits` are bits of the registers `regs`, of the given kind.
pub open spec fn are_bits_of(regs: Seq<RegisterView>, bits: Seq<Bit>, kind: RegisterKind) -> bool {
    forall|k: int| 0 <= k < bits.len() ==> is_bit_of(regs, #[trigger] bits[k], kind)
}

/// Whether `gate` is a built-in gate or one of the first `n` templates.
pub open spec fn is_gate_of(gate: GateRef, n: int) -> bool {
    match gate {
        GateRef::BuiltIn(_) => true,
        GateRef::Custom(i) => i < n,
    }
}

/// Whether an operation fits the body of the template at position `k`, which
/// has `arity` formal qubits: its gate is built in or a template defined
/// before, and its operands are positions among the formal qubits.
pub open spec fn is_op_of(op: TemplateOpView, arity: nat, k: int) -> bool {
    &&& is_gate_of(op.gate, k)
    &&& forall|p: int| 0 <= p < op.positions.len() ==> #[trigger] op.positions[p] < arity
}

impl CircuitView {
    /// The circuit with nothing in it.
    pub open spec fn empty() -> CircuitView {
        CircuitView { registers: Seq::empty(), templates: Seq::empty(), instructions: Seq::empty() }
    }

    /// Whether the template at position `k` refers only to what is defined
    /// before it and to its own formal qubits.
    pub open spec fn template_fits(self, k: int) -> bool {
        match self.templates[k].body {
            None => true,
            Some(ops) => forall|j: int|
                0 <= j < ops.len() ==> is_op_of(#[trigger] ops[j], self.templates[k].arity, k),
        }
    }

    /// Whether an instruction refers only to bits and templates of this
    /// circuit: qubits where qubits are due, classical bits as the target of
    /// a measurement.
    pub open spec fn instruction_fits(self, instruction: InstructionView) -> bool {
        match instruction {
            InstructionView::Gate { gate, params, bits } => {
                &&& is_gate_of(gate, self.templates.len() as int)
                &&& are_bits_of(self.registers, bits, RegisterKind::Quantum)
            },
            InstructionView::Barrier { bits } => are_bits_of(
                self.registers,
                bits,
                RegisterKind::Quantum,
            ),
            InstructionView::Reset { bits } => are_bits_of(
                self.registers,
                bits,
                RegisterKind::Quantum,
            ),
            InstructionView::Measure { qubits, clbits } => {
                &&& are_bits_of(self.registers, qubits, RegisterKind::Quantum)
                &&& are_bits_of(self.registers, clbits, RegisterKind::Classical)
            },
        }
    }

    /// Whether the circuit is well formed: every handle in it refers to
    /// something that the circuit holds. Every bit names a register of the
    /// circuit, of the right kind, and an index within it; every template
    /// that is referred to is a template of the circuit (in a body: one
    /// defined before); every operand in a body is a formal qubit.
    pub open spec fn well_formed(self) -> bool {
        &&& forall|k: int| 0 <= k < self.templates.len() ==> #[trigger] self.template_fits(k)
        &&& forall|k: int|
            0 <= k < self.instructions.len() ==> self.instruction_fits(
                #[trigger] self.instructions[k],
            )
    }
}

impl Circuit {
    /// A circuit with no registers, templates or instructions.
    pub fn new() -> (c: Circuit)
        ensures
            c@ == CircuitView::empty(),
    {
        let c = Circuit { registers: Vec::new(), templates: Vec::new(), instructions: Vec::new() };
        assert(c@.registers =~= Seq::empty());
        assert(c@.templates =~= Seq::empty());
        assert(c@.instructions =~= Seq::empty());
        c
    }
}

} // verus!
