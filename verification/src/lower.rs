//! The lowering engine: one pass over the syntax tree, in document order,
//! that declares registers, registers gate templates and emits instructions.
use crate::ast::argument_names;
use crate::ast::node_view;
use crate::ast::node_views;
use crate::ast::operand_views;
use crate::ast::Operand;
use crate::ast::Node;
use crate::circuit::in_reach;
use crate::circuit::instruction_views;
use crate::circuit::is_bit_of;
use crate::circuit::is_gate_of;
use crate::circuit::is_op_of;
use crate::circuit::op_views;
use crate::circuit::register_views;
use crate::circuit::template_views;
use crate::circuit::Circuit;
use crate::circuit::CircuitView;
use crate::circuit::GateTemplate;
use crate::circuit::GateTemplateView;
use crate::circuit::Instruction;
use crate::circuit::InstructionView;
use crate::circuit::Register;
use crate::circuit::RegisterKind;
use crate::circuit::RegisterView;
use crate::circuit::TemplateOp;
use crate::circuit::TemplateOpView;
use crate::error::LoweringError;
use crate::gates::lemma_find_template;
use crate::gates::resolve;
use crate::gates::resolve_gate;
use crate::resolve::lemma_resolve_reads_view;
use crate::resolve::lemma_resolved_bits;
use crate::resolve::lemma_resolved_prefix;
use crate::resolve::lemma_resolve_reads_views;
use crate::resolve::resolve_all;
use crate::resolve::resolve_argument;
use crate::resolve::resolve_arguments;
use crate::resolve::resolve_one;
use crate::symbols::generate_qubit_list;
use crate::symbols::lemma_find_position;
use crate::symbols::positions_of;
use crate::text::clone_strings;
use crate::text::texts;
use vstd::prelude::*;

verus! {

/// What one statement in the body of a gate definition lowers to.
///
/// Only gate applications may stand in a body; anything else is an
/// `InvalidNodeType` failure. The operands are looked up among the formal
/// qubits `scope` (an index written after a name is not looked at), and a
/// name that is not among them is an `UndefinedQubit` failure. After that its
/// gate name is resolved among the built-in gates and the templates registered so
/// far; a name that resolves to nothing is an `InvalidNodeType` failure.
pub open spec fn lower_body_node(
    templates: Seq<GateTemplateView>,
    scope: Seq<Seq<char>>,
    node: Node,
) -> Result<TemplateOpView, LoweringError> {
    match node {
        Node::ApplyGate(name, args, params) => match positions_of(scope, argument_names(args@)) {
            None => Err(LoweringError::UndefinedQubit),
            Some(positions) => match resolve_gate(name@, templates) {
                None => Err(LoweringError::InvalidNodeType),
                Some(gate) => Ok(TemplateOpView { gate, params: texts(params@), positions }),
            },
        },
        _ => Err(LoweringError::InvalidNodeType),
    }
}

/// What the first `n` statements of a gate body lower to. The first statement
/// that fails decides the failure.
pub open spec fn lower_body_prefix(
    templates: Seq<GateTemplateView>,
    scope: Seq<Seq<char>>,
    body: Seq<Node>,
    n: nat,
) -> Result<Seq<TemplateOpView>, LoweringError>
    decreases n,
{
    if n == 0 {
        Ok(Seq::empty())
    } else {
        match lower_body_prefix(templates, scope, body, (n - 1) as nat) {
            Err(e) => Err(e),
            Ok(ops) => match lower_body_node(templates, scope, body[n - 1]) {
                Err(e) => Err(e),
                Ok(op) => Ok(ops.push(op)),
            },
        }
    }
}

/// What a whole gate body lowers to.
pub open spec fn lower_body(templates: Seq<GateTemplateView>, scope: Seq<Seq<char>>, body: Seq<Node>)
    -> Result<Seq<TemplateOpView>, LoweringError> {
    lower_body_prefix(templates, scope, body, body.len())
}

/// The circuit `c` with one more register.
pub open spec fn with_register(c: CircuitView, r: RegisterView) -> CircuitView {
    CircuitView { registers: c.registers.push(r), ..c }
}

/// The circuit `c` with one more gate template.
pub open spec fn with_template(c: CircuitView, t: GateTemplateView) -> CircuitView {
    CircuitView { templates: c.templates.push(t), ..c }
}

/// The circuit `c` with one more instruction.
pub open spec fn with_instruction(c: CircuitView, i: InstructionView) -> CircuitView {
    CircuitView { instructions: c.instructions.push(i), ..c }
}

/// What a register declaration of the given kind does to `c`. A negative size
/// is an `InvalidNodeType` failure.
pub open spec fn declare_register(c: CircuitView, kind: RegisterKind, name: Seq<char>, size: i32)
    -> Result<CircuitView, LoweringError> {
    if size < 0 {
        Err(LoweringError::InvalidNodeType)
    } else {
        Ok(with_register(c, RegisterView { kind, name, size: size as nat }))
    }
}

/// What one top-level statement does to the circuit `c` built so far.
///
/// - A register declaration adds a register; nothing checks whether the name
///   is taken.
/// - An opaque declaration adds a template without a body, a gate definition
///   one whose body is lowered against the definition's formal qubits and the
///   templates registered before it.
/// - A gate application resolves its operands among the quantum registers,
///   then its gate name, and adds one instruction; an unknown gate name is an
///   `InvalidNodeType` failure.
/// - A barrier and a reset add one instruction over the bits of their
///   operand; a measurement adds one that binds the bits of its quantum
///   operand to those of its classical operand.
/// - A conditional statement is not supported and is an `InvalidNodeType`
///   failure.
pub open spec fn lower_node(c: CircuitView, node: Node) -> Result<CircuitView, LoweringError> {
    match node {
        Node::QReg(name, size) => declare_register(c, RegisterKind::Quantum, name@, size),
        Node::CReg(name, size) => declare_register(c, RegisterKind::Classical, name@, size),
        Node::Opaque(name, qubits, params) => Ok(
            with_template(
                c,
                GateTemplateView {
                    name: name@,
                    arity: qubits@.len(),
                    params: texts(params@),
                    body: None,
                },
            ),
        ),
        Node::Gate(name, qubits, params, body) => match lower_body(
            c.templates,
            texts(qubits@),
            body@,
        ) {
            Err(e) => Err(e),
            Ok(ops) => Ok(
                with_template(
                    c,
                    GateTemplateView {
                        name: name@,
                        arity: qubits@.len(),
                        params: texts(params@),
                        body: Some(ops),
                    },
                ),
            ),
        },
        Node::ApplyGate(name, args, params) => match resolve_arguments(
            c.registers,
            RegisterKind::Quantum,
            args@,
        ) {
            Err(e) => Err(e),
            Ok(bits) => match resolve_gate(name@, c.templates) {
                None => Err(LoweringError::InvalidNodeType),
                Some(gate) => Ok(
                    with_instruction(
                        c,
                        InstructionView::Gate { gate, params: texts(params@), bits },
                    ),
                ),
            },
        },
        Node::Barrier(arg) => match resolve_argument(c.registers, RegisterKind::Quantum, arg) {
            Err(e) => Err(e),
            Ok(bits) => Ok(with_instruction(c, InstructionView::Barrier { bits })),
        },
        Node::Reset(arg) => match resolve_argument(c.registers, RegisterKind::Quantum, arg) {
            Err(e) => Err(e),
            Ok(bits) => Ok(with_instruction(c, InstructionView::Reset { bits })),
        },
        Node::Measure(source, target) => match resolve_argument(
            c.registers,
            RegisterKind::Quantum,
            source,
        ) {
            Err(e) => Err(e),
            Ok(qubits) => match resolve_argument(c.registers, RegisterKind::Classical, target) {
                Err(e) => Err(e),
                Ok(clbits) => Ok(with_instruction(c, InstructionView::Measure { qubits, clbits })),
            },
        },
        Node::If(_, _, _) => Err(LoweringError::InvalidNodeType),
    }
}

/// The circuit after the first `n` statements of a program, starting from the
/// empty circuit. The first statement that fails decides the failure.
pub open spec fn lower_prefix(nodes: Seq<Node>, n: nat) -> Result<CircuitView, LoweringError>
    decreases n,
{
    if n == 0 {
        Ok(CircuitView::empty())
    } else {
        match lower_prefix(nodes, (n - 1) as nat) {
            Err(e) => Err(e),
            Ok(c) => lower_node(c, nodes[n - 1]),
        }
    }
}

/// The circuit that a whole program lowers to.
pub open spec fn lower_program(nodes: Seq<Node>) -> Result<CircuitView, LoweringError> {
    lower_prefix(nodes, nodes.len())
}

/// Once a prefix of a gate body fails to lower, every longer prefix fails in
/// the same way.
pub proof fn lemma_body_failure(
    templates: Seq<GateTemplateView>,
    scope: Seq<Seq<char>>,
    body: Seq<Node>,
    n: nat,
    m: nat,
)
    requires
        n <= m,
        lower_body_prefix(templates, scope, body, n) is Err,
    ensures
        lower_body_prefix(templates, scope, body, m) == lower_body_prefix(templates, scope, body, n),
    decreases m,
{
    if n < m {
        lemma_body_failure(templates, scope, body, n, (m - 1) as nat);
    }
}

/// Once a prefix of a program fails to lower, every longer prefix fails in
/// the same way.
pub proof fn lemma_failure_is_final(nodes: Seq<Node>, n: nat, m: nat)
    requires
        n <= m,
        lower_prefix(nodes, n) is Err,
    ensures
        lower_prefix(nodes, m) == lower_prefix(nodes, n),
    decreases m,
{
    if n < m {
        lemma_failure_is_final(nodes, n, (m - 1) as nat);
    }
}

/// The names of a list of operands, copied out in order.
fn names_of(args: &Vec<Operand>) -> (names: Vec<String>)
    ensures
        texts(names@) == argument_names(args@),
{
    let mut names: Vec<String> = Vec::new();
    let mut i: usize = 0;
    while i < args.len()
        invariant
            i <= args.len(),
            names.len() == i,
            forall|k: int| 0 <= k < i ==> names@[k]@ == args@[k].spec_name(),
        decreases args.len() - i,
    {
        names.push(args[i].name().clone());
        i += 1;
    }
    assert(texts(names@) =~= argument_names(args@));
    names
}

/// Lowers one statement of a gate body: see [`lower_body_node`].
pub fn lower_template_op(templates: &Vec<GateTemplate>, scope: &Vec<String>, node: &Node) -> (r:
    Result<TemplateOp, LoweringError>)
    ensures
        match r {
            Ok(op) => lower_body_node(template_views(templates@), texts(scope@), *node) == Ok::<
                TemplateOpView,
                LoweringError,
            >(op@),
            Err(e) => lower_body_node(template_views(templates@), texts(scope@), *node) == Err::<
                TemplateOpView,
                LoweringError,
            >(e),
        },
{
    match node {
        Node::ApplyGate(name, args, params) => {
            let names = names_of(args);
            match generate_qubit_list(scope, &names) {
                Err(e) => Err(e),
                Ok(positions) => match resolve(name.as_str(), templates) {
                    None => Err(LoweringError::InvalidNodeType),
                    Some(gate) => Ok(TemplateOp { gate, params: clone_strings(params), positions }),
                },
            }
        },
        _ => Err(LoweringError::InvalidNodeType),
    }
}

/// Lowers the body of a gate definition: see [`lower_body`].
pub fn lower_gate_body(templates: &Vec<GateTemplate>, scope: &Vec<String>, body: &Vec<Node>) -> (r:
    Result<Vec<TemplateOp>, LoweringError>)
    ensures
        match r {
            Ok(ops) => lower_body(template_views(templates@), texts(scope@), body@) == Ok::<
                Seq<TemplateOpView>,
                LoweringError,
            >(op_views(ops@)),
            Err(e) => lower_body(template_views(templates@), texts(scope@), body@) == Err::<
                Seq<TemplateOpView>,
                LoweringError,
            >(e),
        },
{
    let mut ops: Vec<TemplateOp> = Vec::new();
    let mut i: usize = 0;
    assert(op_views(ops@) =~= Seq::empty());
    while i < body.len()
        invariant
            i <= body.len(),
            lower_body_prefix(template_views(templates@), texts(scope@), body@, i as nat) == Ok::<
                Seq<TemplateOpView>,
                LoweringError,
            >(op_views(ops@)),
        decreases body.len() - i,
    {
        match lower_template_op(templates, scope, &body[i]) {
            Err(e) => {
                proof {
                    lemma_body_failure(
                        template_views(templates@),
                        texts(scope@),
                        body@,
                        i as nat + 1,
                        body.len() as nat,
                    );
                }
                return Err(e);
            },
            Ok(op) => {
                let ghost before = ops@;
                ops.push(op);
                assert(op_views(ops@) =~= op_views(before).push(op@));
            },
        }
        i += 1;
    }
    Ok(ops)
}

impl Circuit {
    /// Adds a register to the circuit.
    pub fn add_register(&mut self, register: Register)
        ensures
            final(self)@ == with_register(old(self)@, register@),
    {
        let ghost before = self.registers@;
        self.registers.push(register);
        assert(register_views(self.registers@) =~= register_views(before).push(register@));
    }

    /// Registers a gate template with the circuit.
    pub fn add_template(&mut self, template: GateTemplate)
        ensures
            final(self)@ == with_template(old(self)@, template@),
    {
        let ghost before = self.templates@;
        self.templates.push(template);
        assert(template_views(self.templates@) =~= template_views(before).push(template@));
    }

    /// Appends an instruction to the circuit.
    pub fn append(&mut self, instruction: Instruction)
        ensures
            final(self)@ == with_instruction(old(self)@, instruction@),
    {
        let ghost before = self.instructions@;
        self.instructions.push(instruction);
        assert(instruction_views(self.instructions@) =~= instruction_views(before).push(
            instruction@,
        ));
    }

    /// Declares a register: see [`declare_register`].
    pub fn declare(&mut self, kind: RegisterKind, name: &String, size: i32) -> (r: Result<
        (),
        LoweringError,
    >)
        ensures
            match r {
                Ok(_) => declare_register(old(self)@, kind, name@, size) == Ok::<
                    CircuitView,
                    LoweringError,
                >(final(self)@),
                Err(e) => declare_register(old(self)@, kind, name@, size) == Err::<
                    CircuitView,
                    LoweringError,
                >(e) && *final(self) == *old(self),
            },
    {
        if size < 0 {
            Err(LoweringError::InvalidNodeType)
        } else {
            self.add_register(Register { kind, name: name.clone(), size: size as usize });
            Ok(())
        }
    }

    /// Processes one top-level statement: see [`lower_node`]. On failure the
    /// circuit is left as it was.
    pub fn lower_node(&mut self, node: &Node) -> (r: Result<(), LoweringError>)
        ensures
            match r {
                Ok(_) => lower_node(old(self)@, *node) == Ok::<CircuitView, LoweringError>(
                    final(self)@,
                ),
                Err(e) => lower_node(old(self)@, *node) == Err::<CircuitView, LoweringError>(e)
                    && *final(self) == *old(self),
            },
    {
        match node {
            Node::QReg(name, size) => self.declare(RegisterKind::Quantum, name, *size),
            Node::CReg(name, size) => self.declare(RegisterKind::Classical, name, *size),
            Node::Opaque(name, qubits, params) => {
                self.add_template(
                    GateTemplate {
                        name: name.clone(),
                        arity: qubits.len(),
                        params: clone_strings(params),
                        body: None,
                    },
                );
                Ok(())
            },
            Node::Gate(name, qubits, params, body) => {
                match lower_gate_body(&self.templates, qubits, body) {
                    Err(e) => Err(e),
                    Ok(ops) => {
                        self.add_template(
                            GateTemplate {
                                name: name.clone(),
                                arity: qubits.len(),
                                params: clone_strings(params),
                                body: Some(ops),
                            },
                        );
                        Ok(())
                    },
                }
            },
            Node::ApplyGate(name, args, params) => {
                match resolve_all(&self.registers, RegisterKind::Quantum, args) {
                    Err(e) => Err(e),
                    Ok(bits) => match resolve(name.as_str(), &self.templates) {
                        None => Err(LoweringError::InvalidNodeType),
                        Some(gate) => {
                            self.append(
                                Instruction::Gate { gate, params: clone_strings(params), bits },
                            );
                            Ok(())
                        },
                    },
                }
            },
            Node::Barrier(arg) => {
                match resolve_one(&self.registers, RegisterKind::Quantum, arg) {
                    Err(e) => Err(e),
                    Ok(bits) => {
                        self.append(Instruction::Barrier { bits });
                        Ok(())
                    },
                }
            },
            Node::Reset(arg) => {
                match resolve_one(&self.registers, RegisterKind::Quantum, arg) {
                    Err(e) => Err(e),
                    Ok(bits) => {
                        self.append(Instruction::Reset { bits });
                        Ok(())
                    },
                }
            },
            Node::Measure(source, target) => {
                match resolve_one(&self.registers, RegisterKind::Quantum, source) {
                    Err(e) => Err(e),
                    Ok(qubits) => match resolve_one(
                        &self.registers,
                        RegisterKind::Classical,
                        target,
                    ) {
                        Err(e) => Err(e),
                        Ok(clbits) => {
                            self.append(Instruction::Measure { qubits, clbits });
                            Ok(())
                        },
                    },
                }
            },
            Node::If(_, _, _) => Err(LoweringError::InvalidNodeType),
        }
    }
}

/// Lowers a program: processes its statements in order, starting from the
/// empty circuit, and hands out the finished circuit, which is well formed,
/// or the failure of the first statement that cannot be lowered.
pub fn lower(nodes: &Vec<Node>) -> (r: Result<Circuit, LoweringError>)
    ensures
        match r {
            Ok(c) => lower_program(nodes@) == Ok::<CircuitView, LoweringError>(c@)
                && c@.well_formed(),
            Err(e) => lower_program(nodes@) == Err::<CircuitView, LoweringError>(e),
        },
{
    let mut circuit = Circuit::new();
    let mut i: usize = 0;
    while i < nodes.len()
        invariant
            i <= nodes.len(),
            lower_prefix(nodes@, i as nat) == Ok::<CircuitView, LoweringError>(circuit@),
        decreases nodes.len() - i,
    {
        match circuit.lower_node(&nodes[i]) {
            Err(e) => {
                proof {
                    lemma_failure_is_final(nodes@, i as nat + 1, nodes.len() as nat);
                }
                return Err(e);
            },
            Ok(_) => {},
        }
        i += 1;
    }
    proof {
        lemma_lowered_circuit_is_well_formed(nodes@);
    }
    Ok(circuit)
}

/// The positions, among the first `n` statements of a program, of those that
/// give rise to an instruction, in ascending order.
pub open spec fn lowerable_positions(nodes: Seq<Node>, n: nat) -> Seq<int>
    decreases n,
{
    if n == 0 {
        Seq::empty()
    } else if nodes[n - 1].is_lowerable() {
        lowerable_positions(nodes, (n - 1) as nat).push(n - 1)
    } else {
        lowerable_positions(nodes, (n - 1) as nat)
    }
}

/// A statement that lowers adds exactly one instruction at the end of the
/// sequence if it is an application, a barrier, a reset or a measurement, and
/// leaves the sequence alone if it is a declaration.
pub proof fn lemma_node_effect(c: CircuitView, node: Node)
    requires
        lower_node(c, node) is Ok,
    ensures
        ({
            let after = lower_node(c, node)->Ok_0;
            if node.is_lowerable() {
                &&& after.instructions.len() == c.instructions.len() + 1
                &&& after == with_instruction(c, after.instructions.last())
            } else {
                after.instructions == c.instructions
            }
        }),
{
}

/// The positions listed by [`lowerable_positions`] lie within the prefix,
/// hold statements that give rise to an instruction, and ascend.
pub proof fn lemma_lowerable_positions(nodes: Seq<Node>, n: nat)
    requires
        n <= nodes.len(),
    ensures
        forall|k: int|
            0 <= k < lowerable_positions(nodes, n).len() ==> {
                &&& 0 <= #[trigger] lowerable_positions(nodes, n)[k] < n
                &&& nodes[lowerable_positions(nodes, n)[k]].is_lowerable()
            },
        forall|k: int, l: int|
            0 <= k < l < lowerable_positions(nodes, n).len() ==> lowerable_positions(nodes, n)[k]
                < lowerable_positions(nodes, n)[l],
    decreases n,
{
    if n > 0 {
        let places = lowerable_positions(nodes, n);
        let earlier = lowerable_positions(nodes, (n - 1) as nat);
        lemma_lowerable_positions(nodes, (n - 1) as nat);
        assert forall|k: int| 0 <= k < places.len() implies {
            &&& 0 <= #[trigger] places[k] < n
            &&& nodes[places[k]].is_lowerable()
        } by {
            if k < earlier.len() {
                assert(places[k] == earlier[k]);
            }
        }
        assert forall|k: int, l: int| 0 <= k < l < places.len() implies places[k] < places[l] by {
            assert(places[k] == earlier[k]);
            if l < earlier.len() {
                assert(places[l] == earlier[l]);
            }
        }
    }
}

/// Lowering preserves order, prefix by prefix. If the first `n` statements
/// lower to a circuit, that circuit has one instruction for each of those
/// statements that gives rise to one, in the order of the statements: its
/// instruction number `k` is exactly what the `k`-th such statement adds to
/// the circuit that the statements before it lower to, which holds the `k`
/// instructions before it and no other.
pub proof fn lemma_prefix_preserves_order(nodes: Seq<Node>, n: nat)
    requires
        n <= nodes.len(),
        lower_prefix(nodes, n) is Ok,
    ensures
        ({
            let c = lower_prefix(nodes, n)->Ok_0;
            let places = lowerable_positions(nodes, n);
            &&& c.instructions.len() == places.len()
            &&& forall|k: int|
                0 <= k < places.len() ==> {
                    let before = lower_prefix(nodes, (#[trigger] places[k]) as nat);
                    &&& before is Ok
                    &&& before->Ok_0.instructions == c.instructions.take(k)
                    &&& lower_node(before->Ok_0, nodes[places[k]]) == Ok::<
                        CircuitView,
                        LoweringError,
                    >(with_instruction(before->Ok_0, c.instructions[k]))
                }
        }),
    decreases n,
{
    if n > 0 {
        let m = (n - 1) as nat;
        let prev = lower_prefix(nodes, m)->Ok_0;
        let c = lower_prefix(nodes, n)->Ok_0;
        let places = lowerable_positions(nodes, n);
        let earlier = lowerable_positions(nodes, m);
        lemma_prefix_preserves_order(nodes, m);
        lemma_node_effect(prev, nodes[n - 1]);
        lemma_lowerable_positions(nodes, m);
        assert(prev.instructions.take(prev.instructions.len() as int) =~= prev.instructions);
        assert forall|k: int| 0 <= k < places.len() implies {
            let before = lower_prefix(nodes, (#[trigger] places[k]) as nat);
            &&& before is Ok
            &&& before->Ok_0.instructions == c.instructions.take(k)
            &&& lower_node(before->Ok_0, nodes[places[k]]) == Ok::<CircuitView, LoweringError>(
                with_instruction(before->Ok_0, c.instructions[k]),
            )
        } by {
            if k < earlier.len() {
                assert(places[k] == earlier[k]);
                assert(c.instructions.take(k) =~= prev.instructions.take(k));
                assert(c.instructions[k] == prev.instructions[k]);
            } else {
                assert(places[k] == n - 1);
                assert(c.instructions.take(k) =~= prev.instructions);
            }
        }
    } else {
        assert(CircuitView::empty().instructions.len() == 0);
    }
}

/// Lowering preserves order: the instruction sequence of a lowered program
/// has exactly one entry for each application, barrier, reset and measurement
/// of the program, in the order of the statements. See
/// [`lemma_prefix_preserves_order`] for what each entry is.
pub proof fn lemma_lowering_preserves_order(nodes: Seq<Node>)
    requires
        lower_program(nodes) is Ok,
    ensures
        ({
            let c = lower_program(nodes)->Ok_0;
            let places = lowerable_positions(nodes, nodes.len());
            &&& c.instructions.len() == places.len()
            &&& forall|k: int|
                0 <= k < places.len() ==> {
                    let before = lower_prefix(nodes, (#[trigger] places[k]) as nat);
                    &&& 0 <= places[k] < nodes.len()
                    &&& nodes[places[k]].is_lowerable()
                    &&& before is Ok
                    &&& before->Ok_0.instructions == c.instructions.take(k)
                    &&& lower_node(before->Ok_0, nodes[places[k]]) == Ok::<
                        CircuitView,
                        LoweringError,
                    >(with_instruction(before->Ok_0, c.instructions[k]))
                }
            &&& forall|k: int, l: int| 0 <= k < l < places.len() ==> places[k] < places[l]
        }),
{
    lemma_prefix_preserves_order(nodes, nodes.len());
    lemma_lowerable_positions(nodes, nodes.len());
}

/// Lowering a gate body never fails with `IOFailure`.
pub proof fn lemma_body_failure_kind(
    templates: Seq<GateTemplateView>,
    scope: Seq<Seq<char>>,
    body: Seq<Node>,
    n: nat,
)
    ensures
        lower_body_prefix(templates, scope, body, n) is Err ==> lower_body_prefix(
            templates,
            scope,
            body,
            n,
        )->Err_0 != LoweringError::IOFailure,
    decreases n,
{
    if n > 0 {
        lemma_body_failure_kind(templates, scope, body, (n - 1) as nat);
    }
}

/// Lowering never fails with `IOFailure`: that failure belongs to
/// preprocessing alone.
pub proof fn lemma_failure_kind(nodes: Seq<Node>, n: nat)
    ensures
        lower_prefix(nodes, n) is Err ==> lower_prefix(nodes, n)->Err_0
            != LoweringError::IOFailure,
    decreases n,
{
    if n > 0 {
        lemma_failure_kind(nodes, (n - 1) as nat);
        let before = lower_prefix(nodes, (n - 1) as nat);
        if before is Ok {
            let c = before->Ok_0;
            match nodes[n - 1] {
                Node::Gate(name, qubits, params, body) => {
                    lemma_body_failure_kind(c.templates, texts(qubits@), body@, body@.len());
                },
                Node::ApplyGate(name, args, params) => {
                    crate::resolve::lemma_resolution_failure(
                        c.registers,
                        RegisterKind::Quantum,
                        args@,
                        args@.len(),
                    );
                },
                _ => {},
            }
        }
    }
}

/// Two operand lists with the same views mention the same names.
proof fn lemma_names_read_views(a: Seq<Operand>, b: Seq<Operand>)
    requires
        operand_views(a) == operand_views(b),
    ensures
        a.len() == b.len(),
        argument_names(a) == argument_names(b),
{
    assert(operand_views(a).len() == a.len());
    assert(operand_views(b).len() == b.len());
    assert forall|i: int| 0 <= i < a.len() implies a[i].spec_name() == b[i].spec_name() by {
        assert(operand_views(a)[i] == a[i]@);
        assert(operand_views(b)[i] == b[i]@);
    }
    assert(argument_names(a) =~= argument_names(b));
}

/// A statement of a gate body is lowered by what it stands for.
proof fn lemma_body_node_reads_view(
    templates: Seq<GateTemplateView>,
    scope: Seq<Seq<char>>,
    a: Node,
    b: Node,
)
    requires
        node_view(a) == node_view(b),
    ensures
        lower_body_node(templates, scope, a) == lower_body_node(templates, scope, b),
{
    match (a, b) {
        (Node::ApplyGate(_, args, _), Node::ApplyGate(_, others, _)) => {
            lemma_names_read_views(args@, others@);
        },
        _ => {},
    }
}

/// Two gate bodies with the same views lower alike.
proof fn lemma_body_reads_views(
    templates: Seq<GateTemplateView>,
    scope: Seq<Seq<char>>,
    a: Seq<Node>,
    b: Seq<Node>,
    n: nat,
)
    requires
        node_views(a) == node_views(b),
        n <= a.len(),
    ensures
        a.len() == b.len(),
        lower_body_prefix(templates, scope, a, n) == lower_body_prefix(templates, scope, b, n),
    decreases n,
{
    assert(node_views(a).len() == a.len());
    assert(node_views(b).len() == b.len());
    if n > 0 {
        lemma_body_reads_views(templates, scope, a, b, (n - 1) as nat);
        assert(node_views(a)[n - 1] == node_view(a[n - 1]));
        assert(node_views(b)[n - 1] == node_view(b[n - 1]));
        lemma_body_node_reads_view(templates, scope, a[n - 1], b[n - 1]);
    }
}

/// A statement is lowered by what it stands for: two statements with the
/// same view do the same to a circuit.
pub proof fn lemma_node_reads_view(c: CircuitView, a: Node, b: Node)
    requires
        node_view(a) == node_view(b),
    ensures
        lower_node(c, a) == lower_node(c, b),
{
    match (a, b) {
        (Node::ApplyGate(_, args, _), Node::ApplyGate(_, others, _)) => {
            lemma_resolve_reads_views(c.registers, RegisterKind::Quantum, args@, others@, args@.len());
        },
        (Node::Opaque(_, args, _), Node::Opaque(_, others, _)) => {
            assert(operand_views(args@).len() == args@.len());
            assert(operand_views(others@).len() == others@.len());
        },
        (Node::Gate(_, qubits, _, body), Node::Gate(_, others, _, other_body)) => {
            assert(node_views(body@) =~= node_view(a)->Gate_3);
            assert(node_views(other_body@) =~= node_view(b)->Gate_3);
            assert(texts(qubits@).len() == qubits@.len());
            assert(texts(others@).len() == others@.len());
            lemma_body_reads_views(c.templates, texts(qubits@), body@, other_body@, body@.len());
        },
        (Node::Barrier(arg), Node::Barrier(other)) => {
            lemma_resolve_reads_view(c.registers, RegisterKind::Quantum, arg, other);
        },
        (Node::Reset(arg), Node::Reset(other)) => {
            lemma_resolve_reads_view(c.registers, RegisterKind::Quantum, arg, other);
        },
        (Node::Measure(source, target), Node::Measure(other_source, other_target)) => {
            lemma_resolve_reads_view(c.registers, RegisterKind::Quantum, source, other_source);
            lemma_resolve_reads_view(c.registers, RegisterKind::Classical, target, other_target);
        },
        _ => {},
    }
}

/// Lowering reads a program by what it stands for: two programs with the
/// same views lower to the same circuit, or fail alike.
pub proof fn lemma_lowering_reads_views(a: Seq<Node>, b: Seq<Node>, n: nat)
    requires
        node_views(a) == node_views(b),
        n <= a.len(),
    ensures
        a.len() == b.len(),
        lower_prefix(a, n) == lower_prefix(b, n),
    decreases n,
{
    assert(node_views(a).len() == a.len());
    assert(node_views(b).len() == b.len());
    if n > 0 {
        lemma_lowering_reads_views(a, b, (n - 1) as nat);
        assert(node_views(a)[n - 1] == node_view(a[n - 1]));
        assert(node_views(b)[n - 1] == node_view(b[n - 1]));
        if lower_prefix(a, (n - 1) as nat) is Ok {
            lemma_node_reads_view(lower_prefix(a, (n - 1) as nat)->Ok_0, a[n - 1], b[n - 1]);
        }
    }
}

/// What a gate name resolves to is a built-in gate or one of the templates.
pub proof fn lemma_resolved_gate(name: Seq<char>, templates: Seq<GateTemplateView>)
    requires
        templates.len() <= usize::MAX,
    ensures
        match resolve_gate(name, templates) {
            Some(gate) => is_gate_of(gate, templates.len() as int),
            None => true,
        },
{
    lemma_find_template(templates, name);
}

/// The operations that a gate body lowers to fit the template that is being
/// defined: see [`is_op_of`].
pub proof fn lemma_body_fits(
    templates: Seq<GateTemplateView>,
    scope: Seq<Seq<char>>,
    body: Seq<Node>,
    n: nat,
)
    requires
        templates.len() <= usize::MAX,
        scope.len() <= usize::MAX,
    ensures
        match lower_body_prefix(templates, scope, body, n) {
            Ok(ops) => forall|j: int|
                0 <= j < ops.len() ==> is_op_of(
                    #[trigger] ops[j],
                    scope.len(),
                    templates.len() as int,
                ),
            Err(_) => true,
        },
    decreases n,
{
    if n > 0 {
        lemma_body_fits(templates, scope, body, (n - 1) as nat);
        let before = lower_body_prefix(templates, scope, body, (n - 1) as nat);
        let step = lower_body_node(templates, scope, body[n - 1]);
        if before is Ok && step is Ok {
            let op = step->Ok_0;
            match body[n - 1] {
                Node::ApplyGate(name, args, params) => {
                    lemma_resolved_gate(name@, templates);
                    let names = argument_names(args@);
                    assert forall|p: int| 0 <= p < op.positions.len() implies #[trigger] op.positions[p]
                        < scope.len() by {
                        lemma_find_position(scope, names[p]);
                    }
                },
                _ => {},
            }
            assert forall|j: int| 0 <= j < before->Ok_0.push(op).len() implies is_op_of(
                #[trigger] before->Ok_0.push(op)[j],
                scope.len(),
                templates.len() as int,
            ) by {
                if j < before->Ok_0.len() {
                    assert(before->Ok_0.push(op)[j] == before->Ok_0[j]);
                }
            }
        }
    }
}

/// A statement keeps a circuit well formed, and adds at most one register or
/// template to it.
pub proof fn lemma_node_keeps_well_formed(c: CircuitView, node: Node)
    requires
        c.well_formed(),
        in_reach(c.registers),
        c.registers.len() < usize::MAX,
        c.templates.len() < usize::MAX,
        lower_node(c, node) is Ok,
    ensures
        ({
            let after = lower_node(c, node)->Ok_0;
            &&& after.well_formed()
            &&& in_reach(after.registers)
            &&& after.registers.len() + after.templates.len() <= c.registers.len()
                + c.templates.len() + 1
        }),
{
    let after = lower_node(c, node)->Ok_0;
    match node {
        Node::ApplyGate(name, args, params) => {
            lemma_resolved_prefix(c.registers, RegisterKind::Quantum, args@, args@.len());
            lemma_resolved_gate(name@, c.templates);
        },
        Node::Barrier(arg) => {
            lemma_resolved_bits(c.registers, RegisterKind::Quantum, arg);
        },
        Node::Reset(arg) => {
            lemma_resolved_bits(c.registers, RegisterKind::Quantum, arg);
        },
        Node::Measure(source, target) => {
            lemma_resolved_bits(c.registers, RegisterKind::Quantum, source);
            lemma_resolved_bits(c.registers, RegisterKind::Classical, target);
        },
        Node::Gate(name, qubits, params, body) => {
            assert(texts(qubits@).len() == qubits@.len());
            assert(qubits@.len() == qubits.len());
            lemma_body_fits(c.templates, texts(qubits@), body@, body@.len());
        },
        _ => {},
    }
    assert forall|k: int| 0 <= k < after.templates.len() implies #[trigger] after.template_fits(
        k,
    ) by {
        if k < c.templates.len() {
            assert(c.template_fits(k));
            assert(after.templates[k] == c.templates[k]);
        }
    }
    assert forall|k: int| 0 <= k < after.instructions.len() implies after.instruction_fits(
        #[trigger] after.instructions[k],
    ) by {
        if k < c.instructions.len() {
            assert(c.instruction_fits(c.instructions[k]));
            assert(after.instructions[k] == c.instructions[k]);
            lemma_instruction_still_fits(c, after, c.instructions[k]);
        }
    }
}

/// An instruction that fits a circuit fits every circuit that holds the
/// same registers and templates and more behind them.
pub proof fn lemma_instruction_still_fits(
    c: CircuitView,
    after: CircuitView,
    instruction: InstructionView,
)
    requires
        c.instruction_fits(instruction),
        c.registers.len() <= after.registers.len(),
        c.templates.len() <= after.templates.len(),
        forall|r: int| 0 <= r < c.registers.len() ==> after.registers[r] == c.registers[r],
    ensures
        after.instruction_fits(instruction),
{
    match instruction {
        InstructionView::Gate { gate, params, bits } => {
            assert forall|k: int| 0 <= k < bits.len() implies is_bit_of(
                after.registers,
                #[trigger] bits[k],
                RegisterKind::Quantum,
            ) by {
                assert(is_bit_of(c.registers, bits[k], RegisterKind::Quantum));
            }
        },
        InstructionView::Barrier { bits } => {
            assert forall|k: int| 0 <= k < bits.len() implies is_bit_of(
                after.registers,
                #[trigger] bits[k],
                RegisterKind::Quantum,
            ) by {
                assert(is_bit_of(c.registers, bits[k], RegisterKind::Quantum));
            }
        },
        InstructionView::Reset { bits } => {
            assert forall|k: int| 0 <= k < bits.len() implies is_bit_of(
                after.registers,
                #[trigger] bits[k],
                RegisterKind::Quantum,
            ) by {
                assert(is_bit_of(c.registers, bits[k], RegisterKind::Quantum));
            }
        },
        InstructionView::Measure { qubits, clbits } => {
            assert forall|k: int| 0 <= k < qubits.len() implies is_bit_of(
                after.registers,
                #[trigger] qubits[k],
                RegisterKind::Quantum,
            ) by {
                assert(is_bit_of(c.registers, qubits[k], RegisterKind::Quantum));
            }
            assert forall|k: int| 0 <= k < clbits.len() implies is_bit_of(
                after.registers,
                #[trigger] clbits[k],
                RegisterKind::Classical,
            ) by {
                assert(is_bit_of(c.registers, clbits[k], RegisterKind::Classical));
            }
        },
    }
}

/// The circuit that a prefix of a program lowers to is well formed, and
/// holds no more registers and templates than the prefix has statements.
pub proof fn lemma_prefix_is_well_formed(nodes: Seq<Node>, n: nat)
    requires
        n <= nodes.len() <= usize::MAX,
        lower_prefix(nodes, n) is Ok,
    ensures
        ({
            let c = lower_prefix(nodes, n)->Ok_0;
            &&& c.well_formed()
            &&& in_reach(c.registers)
            &&& c.registers.len() + c.templates.len() <= n
        }),
    decreases n,
{
    if n > 0 {
        lemma_prefix_is_well_formed(nodes, (n - 1) as nat);
        lemma_node_keeps_well_formed(lower_prefix(nodes, (n - 1) as nat)->Ok_0, nodes[n - 1]);
    }
}

/// A lowered circuit is well formed: every bit in an instruction names a
/// register of the circuit, of the right kind, and an index within it; every
/// template that an instruction or a body refers to is a template of the
/// circuit, in a body one defined before; every operand in a body is a
/// formal qubit of its template. See [`CircuitView::well_formed`].
pub proof fn lemma_lowered_circuit_is_well_formed(nodes: Seq<Node>)
    requires
        nodes.len() <= usize::MAX,
        lower_program(nodes) is Ok,
    ensures
        lower_program(nodes)->Ok_0.well_formed(),
{
    lemma_prefix_is_well_formed(nodes, nodes.len());
}

} // verus!
