use pyrqasm::ast::{Node, Operand};
use pyrqasm::circuit::{
    Bit, Circuit, GateTemplate, Instruction, Register, RegisterKind, TemplateOp,
};
use pyrqasm::error::LoweringError;
use pyrqasm::gates::{BuiltinGate, GateRef};
use pyrqasm::lower::{lower, lower_gate_body, lower_template_op};
use pyrqasm::pipeline::lower_parsed;

fn s(text: &str) -> String {
    text.to_string()
}

fn q(name: &str, index: i32) -> Operand {
    Operand::Qubit(s(name), index)
}

fn reg(name: &str) -> Operand {
    Operand::Register(s(name))
}

fn apply(name: &str, args: Vec<Operand>) -> Node {
    Node::ApplyGate(s(name), args, Vec::new())
}

fn bit(register: usize, index: usize) -> Bit {
    Bit { register, index }
}

fn gate(gate: BuiltinGate, bits: Vec<Bit>) -> Instruction {
    Instruction::Gate { gate: GateRef::BuiltIn(gate), params: Vec::new(), bits }
}

#[test]
fn an_empty_program_is_an_empty_circuit() {
    let circuit = lower(&Vec::new()).unwrap();
    assert_eq!(circuit, Circuit::new());
    assert!(circuit.registers.is_empty() && circuit.instructions.is_empty());
}

#[test]
fn x_then_controlled_x_on_two_qubits() {
    let program = vec![
        Node::QReg(s("q"), 2),
        apply("x", vec![q("q", 0)]),
        apply("cx", vec![q("q", 0), q("q", 1)]),
    ];
    let circuit = lower(&program).unwrap();
    assert_eq!(
        circuit.registers,
        vec![Register { kind: RegisterKind::Quantum, name: s("q"), size: 2 }]
    );
    assert!(circuit.templates.is_empty());
    assert_eq!(
        circuit.instructions,
        vec![
            gate(BuiltinGate::X, vec![bit(0, 0)]),
            gate(BuiltinGate::Cx, vec![bit(0, 0), bit(0, 1)]),
        ]
    );
}

#[test]
fn a_defined_gate_becomes_a_template_and_is_applied() {
    let program = vec![
        Node::Gate(
            s("bell"),
            vec![s("a"), s("b")],
            Vec::new(),
            vec![apply("h", vec![reg("a")]), apply("cx", vec![reg("a"), reg("b")])],
        ),
        Node::QReg(s("q"), 2),
        apply("bell", vec![q("q", 0), q("q", 1)]),
    ];
    let circuit = lower(&program).unwrap();
    assert_eq!(
        circuit.templates,
        vec![GateTemplate {
            name: s("bell"),
            arity: 2,
            params: Vec::new(),
            body: Some(vec![
                TemplateOp {
                    gate: GateRef::BuiltIn(BuiltinGate::H),
                    params: Vec::new(),
                    positions: vec![0]
                },
                TemplateOp {
                    gate: GateRef::BuiltIn(BuiltinGate::Cx),
                    params: Vec::new(),
                    positions: vec![0, 1]
                },
            ]),
        }]
    );
    assert_eq!(
        circuit.instructions,
        vec![Instruction::Gate {
            gate: GateRef::Custom(0),
            params: Vec::new(),
            bits: vec![bit(0, 0), bit(0, 1)]
        }]
    );
}

#[test]
fn an_undeclared_qubit_in_a_body_fails() {
    let program = vec![
        Node::QReg(s("q"), 1),
        Node::Gate(s("g"), vec![s("a")], Vec::new(), vec![apply("h", vec![reg("b")])]),
        apply("x", vec![q("q", 0)]),
    ];
    assert_eq!(lower(&program), Err(LoweringError::UndefinedQubit));
}

#[test]
fn only_applications_may_stand_in_a_body() {
    let scope = vec![s("a")];
    let none: Vec<GateTemplate> = Vec::new();
    assert_eq!(
        lower_template_op(&none, &scope, &Node::Barrier(reg("a"))),
        Err(LoweringError::InvalidNodeType)
    );
    assert_eq!(
        lower_template_op(&none, &scope, &Node::QReg(s("a"), 1)),
        Err(LoweringError::InvalidNodeType)
    );
    let body = vec![apply("h", vec![reg("a")]), Node::Reset(reg("a"))];
    assert_eq!(lower_gate_body(&none, &scope, &body), Err(LoweringError::InvalidNodeType));
    let program = vec![Node::Gate(s("g"), vec![s("a")], Vec::new(), body)];
    assert_eq!(lower(&program), Err(LoweringError::InvalidNodeType));
}

#[test]
fn an_index_in_a_body_is_not_looked_at() {
    let scope = vec![s("a"), s("b")];
    let none: Vec<GateTemplate> = Vec::new();
    assert_eq!(
        lower_template_op(&none, &scope, &apply("cx", vec![q("b", 7), reg("a")])),
        Ok(TemplateOp {
            gate: GateRef::BuiltIn(BuiltinGate::Cx),
            params: Vec::new(),
            positions: vec![1, 0]
        })
    );
}

#[test]
fn a_body_sees_the_templates_before_it_only() {
    let program = vec![
        Node::Gate(s("one"), vec![s("a")], Vec::new(), vec![apply("h", vec![reg("a")])]),
        Node::Gate(s("two"), vec![s("a")], Vec::new(), vec![apply("one", vec![reg("a")])]),
    ];
    let circuit = lower(&program).unwrap();
    assert_eq!(
        circuit.templates[1].body,
        Some(vec![TemplateOp { gate: GateRef::Custom(0), params: Vec::new(), positions: vec![0] }])
    );
    let own = vec![Node::Gate(
        s("loop"),
        vec![s("a")],
        Vec::new(),
        vec![apply("loop", vec![reg("a")])],
    )];
    assert_eq!(lower(&own), Err(LoweringError::InvalidNodeType));
}

#[test]
fn an_unknown_gate_fails() {
    let program = vec![Node::QReg(s("q"), 1), apply("nothing", vec![q("q", 0)])];
    assert_eq!(lower(&program), Err(LoweringError::InvalidNodeType));
}

#[test]
fn operands_are_checked_before_the_name() {
    let program = vec![Node::QReg(s("q"), 1), apply("nothing", vec![q("q", 5)])];
    assert_eq!(lower(&program), Err(LoweringError::UndefinedQubit));
    let scope = vec![s("a")];
    let none: Vec<GateTemplate> = Vec::new();
    assert_eq!(
        lower_template_op(&none, &scope, &apply("nothing", vec![reg("z")])),
        Err(LoweringError::UndefinedQubit)
    );
    assert_eq!(
        lower_template_op(&none, &scope, &apply("nothing", vec![reg("a")])),
        Err(LoweringError::InvalidNodeType)
    );
}

#[test]
fn a_register_must_be_declared_before_it_is_used() {
    let program = vec![apply("x", vec![q("q", 0)]), Node::QReg(s("q"), 1)];
    assert_eq!(lower(&program), Err(LoweringError::UndefinedQubit));
}

#[test]
fn a_negative_size_is_rejected() {
    assert_eq!(lower(&vec![Node::QReg(s("q"), -1)]), Err(LoweringError::InvalidNodeType));
    assert_eq!(lower(&vec![Node::CReg(s("c"), i32::MIN)]), Err(LoweringError::InvalidNodeType));
    let empty = lower(&vec![Node::QReg(s("q"), 0)]).unwrap();
    assert_eq!(empty.registers[0].size, 0);
}

#[test]
fn parameters_are_bound_by_position() {
    let program = vec![
        Node::QReg(s("q"), 1),
        Node::ApplyGate(s("U"), vec![q("q", 0)], vec![s(" pi "), s(" 0 "), s(" pi  /  2 ")]),
    ];
    let circuit = lower(&program).unwrap();
    assert_eq!(
        circuit.instructions,
        vec![Instruction::Gate {
            gate: GateRef::BuiltIn(BuiltinGate::U3),
            params: vec![s(" pi "), s(" 0 "), s(" pi  /  2 ")],
            bits: vec![bit(0, 0)]
        }]
    );
}

#[test]
fn a_whole_register_stands_for_all_its_bits() {
    let program = vec![
        Node::QReg(s("q"), 2),
        Node::QReg(s("r"), 1),
        apply("h", vec![reg("q")]),
        apply("ccx", vec![reg("q"), q("r", 0)]),
    ];
    let circuit = lower(&program).unwrap();
    assert_eq!(
        circuit.instructions,
        vec![
            gate(BuiltinGate::H, vec![bit(0, 0), bit(0, 1)]),
            gate(BuiltinGate::Ccx, vec![bit(0, 0), bit(0, 1), bit(1, 0)]),
        ]
    );
}

#[test]
fn barrier_reset_and_measurement() {
    let program = vec![
        Node::QReg(s("q"), 2),
        Node::CReg(s("c"), 2),
        Node::Barrier(reg("q")),
        Node::Barrier(q("q", 1)),
        Node::Reset(reg("q")),
        Node::Reset(q("q", 0)),
        Node::Measure(reg("q"), reg("c")),
        Node::Measure(q("q", 1), q("c", 0)),
    ];
    let circuit = lower(&program).unwrap();
    assert_eq!(
        circuit.registers,
        vec![
            Register { kind: RegisterKind::Quantum, name: s("q"), size: 2 },
            Register { kind: RegisterKind::Classical, name: s("c"), size: 2 },
        ]
    );
    assert_eq!(
        circuit.instructions,
        vec![
            Instruction::Barrier { bits: vec![bit(0, 0), bit(0, 1)] },
            Instruction::Barrier { bits: vec![bit(0, 1)] },
            Instruction::Reset { bits: vec![bit(0, 0), bit(0, 1)] },
            Instruction::Reset { bits: vec![bit(0, 0)] },
            Instruction::Measure {
                qubits: vec![bit(0, 0), bit(0, 1)],
                clbits: vec![bit(1, 0), bit(1, 1)]
            },
            Instruction::Measure { qubits: vec![bit(0, 1)], clbits: vec![bit(1, 0)] },
        ]
    );
}

#[test]
fn a_measurement_needs_a_classical_target() {
    let program = vec![Node::QReg(s("q"), 1), Node::Measure(q("q", 0), q("q", 0))];
    assert_eq!(lower(&program), Err(LoweringError::UndefinedQubit));
    let swapped = vec![
        Node::QReg(s("q"), 1),
        Node::CReg(s("c"), 1),
        Node::Measure(q("c", 0), q("q", 0)),
    ];
    assert_eq!(lower(&swapped), Err(LoweringError::UndefinedQubit));
}

#[test]
fn an_opaque_gate_is_a_template_without_a_body() {
    let program = vec![
        Node::Opaque(s("magic"), vec![reg("a"), reg("b")], vec![s("theta")]),
        Node::QReg(s("q"), 2),
        Node::ApplyGate(s("magic"), vec![reg("q")], vec![s(" 1 ")]),
    ];
    let circuit = lower(&program).unwrap();
    assert_eq!(
        circuit.templates,
        vec![GateTemplate { name: s("magic"), arity: 2, params: vec![s("theta")], body: None }]
    );
    assert_eq!(
        circuit.instructions,
        vec![Instruction::Gate {
            gate: GateRef::Custom(0),
            params: vec![s(" 1 ")],
            bits: vec![bit(0, 0), bit(0, 1)]
        }]
    );
}

#[test]
fn a_built_in_name_is_not_shadowed_by_a_definition() {
    let program = vec![
        Node::Gate(s("x"), vec![s("a")], Vec::new(), vec![apply("h", vec![reg("a")])]),
        Node::QReg(s("q"), 1),
        apply("x", vec![q("q", 0)]),
        apply("X", vec![q("q", 0)]),
    ];
    let circuit = lower(&program).unwrap();
    assert_eq!(circuit.templates.len(), 1);
    assert_eq!(
        circuit.instructions,
        vec![gate(BuiltinGate::X, vec![bit(0, 0)]), gate(BuiltinGate::X, vec![bit(0, 0)])]
    );
}

#[test]
fn a_conditional_statement_is_not_supported() {
    let program = vec![
        Node::QReg(s("q"), 1),
        Node::CReg(s("c"), 1),
        Node::If(s("c"), 1, Box::new(apply("x", vec![q("q", 0)]))),
    ];
    assert_eq!(lower(&program), Err(LoweringError::InvalidNodeType));
}

#[test]
fn instructions_follow_the_order_of_the_statements() {
    let program = vec![
        Node::QReg(s("q"), 1),
        apply("h", vec![q("q", 0)]),
        Node::CReg(s("c"), 1),
        Node::Barrier(reg("q")),
        Node::Opaque(s("o"), vec![reg("a")], Vec::new()),
        apply("z", vec![q("q", 0)]),
        Node::Measure(reg("q"), reg("c")),
        Node::QReg(s("r"), 1),
        Node::Reset(reg("r")),
    ];
    let circuit = lower(&program).unwrap();
    assert_eq!(
        circuit.instructions,
        vec![
            gate(BuiltinGate::H, vec![bit(0, 0)]),
            Instruction::Barrier { bits: vec![bit(0, 0)] },
            gate(BuiltinGate::Z, vec![bit(0, 0)]),
            Instruction::Measure { qubits: vec![bit(0, 0)], clbits: vec![bit(1, 0)] },
            Instruction::Reset { bits: vec![bit(2, 0)] },
        ]
    );
    for n in 0..program.len() {
        let prefix = lower(&program_prefix(n)).unwrap();
        assert_eq!(prefix.instructions[..], circuit.instructions[..prefix.instructions.len()]);
    }
}

fn program_prefix(n: usize) -> Vec<Node> {
    let mut all = vec![
        Node::QReg(s("q"), 1),
        apply("h", vec![q("q", 0)]),
        Node::CReg(s("c"), 1),
        Node::Barrier(reg("q")),
        Node::Opaque(s("o"), vec![reg("a")], Vec::new()),
        apply("z", vec![q("q", 0)]),
        Node::Measure(reg("q"), reg("c")),
        Node::QReg(s("r"), 1),
        Node::Reset(reg("r")),
    ];
    all.truncate(n);
    all
}

#[test]
fn the_first_failing_statement_decides() {
    let program = vec![
        Node::QReg(s("q"), 1),
        apply("nothing", vec![q("q", 0)]),
        apply("x", vec![q("nowhere", 0)]),
    ];
    assert_eq!(lower(&program), Err(LoweringError::InvalidNodeType));
}

#[test]
fn a_failed_statement_leaves_the_circuit_alone() {
    let mut circuit = Circuit::new();
    assert_eq!(circuit.lower_node(&Node::QReg(s("q"), 1)), Ok(()));
    assert_eq!(circuit.lower_node(&apply("x", vec![q("q", 0)])), Ok(()));
    assert_eq!(
        circuit.lower_node(&apply("x", vec![q("q", 1)])),
        Err(LoweringError::UndefinedQubit)
    );
    assert_eq!(circuit.declare(RegisterKind::Quantum, &s("r"), -3), Err(LoweringError::InvalidNodeType));
    assert_eq!(circuit.registers.len(), 1);
    assert_eq!(circuit.instructions, vec![gate(BuiltinGate::X, vec![bit(0, 0)])]);
}

#[test]
fn a_parsing_failure_is_passed_on() {
    assert_eq!(
        lower_parsed(&Err(LoweringError::InvalidNodeType)),
        Err(LoweringError::InvalidNodeType)
    );
    let circuit = lower_parsed(&Ok(vec![Node::QReg(s("q"), 1)])).unwrap();
    assert_eq!(circuit.registers.len(), 1);
}

#[test]
fn failures_have_messages() {
    assert_eq!(LoweringError::UndefinedQubit.message(), "Qubit not defined");
    assert_eq!(LoweringError::InvalidNodeType.message(), "Invalid Node type");
    assert_eq!(LoweringError::IOFailure.message(), "Couldn't Open An Include File");
}
