use pyrqasm::circuit::{Bit, GateTemplate, Instruction, Register, RegisterKind, TemplateOp};
use pyrqasm::error::LoweringError;
use pyrqasm::gates::{BuiltinGate, GateRef};
use pyrqasm::pipeline::qasm_ast_to_circuit;
use pyrqasm::preprocess::IncludeFile;
use pyrqasm::{generate_qubit_list, process};

fn no_files() -> Vec<IncludeFile> {
    Vec::new()
}

fn library() -> Vec<IncludeFile> {
    vec![IncludeFile {
        name: "qelib1.inc".to_string(),
        text: "// a small part of the standard library\ngate u3(theta,phi,lambda) q { U(theta,phi,lambda) q; }\ngate cx c,t { CX c,t; }\ngate h a { u2(0,pi) a; }\ngate bell a,b { h a; cx a,b; }\n".to_string(),
    }]
}

fn on(register: usize, index: usize) -> Bit {
    Bit { register, index }
}

#[test]
fn source_with_x_then_controlled_x() {
    let circuit =
        qasm_ast_to_circuit("OPENQASM 2.0;\nqreg q[2]; x q[0]; cx q[0],q[1];", &no_files())
            .unwrap();
    assert_eq!(
        circuit.registers,
        vec![Register { kind: RegisterKind::Quantum, name: "q".to_string(), size: 2 }]
    );
    assert_eq!(
        circuit.instructions,
        vec![
            Instruction::Gate {
                gate: GateRef::BuiltIn(BuiltinGate::X),
                params: vec![],
                bits: vec![on(0, 0)]
            },
            Instruction::Gate {
                gate: GateRef::BuiltIn(BuiltinGate::Cx),
                params: vec![],
                bits: vec![on(0, 0), on(0, 1)]
            },
        ]
    );
}

#[test]
fn source_with_a_defined_gate() {
    let circuit = qasm_ast_to_circuit(
        "OPENQASM 2.0;\ngate bell a,b { h a; cx a,b; }\nqreg q[2]; bell q[0],q[1];",
        &no_files(),
    )
    .unwrap();
    assert_eq!(
        circuit.templates,
        vec![GateTemplate {
            name: "bell".to_string(),
            arity: 2,
            params: vec![],
            body: Some(vec![
                TemplateOp {
                    gate: GateRef::BuiltIn(BuiltinGate::H),
                    params: vec![],
                    positions: vec![0]
                },
                TemplateOp {
                    gate: GateRef::BuiltIn(BuiltinGate::Cx),
                    params: vec![],
                    positions: vec![0, 1]
                },
            ]),
        }]
    );
    assert_eq!(
        circuit.instructions,
        vec![Instruction::Gate {
            gate: GateRef::Custom(0),
            params: vec![],
            bits: vec![on(0, 0), on(0, 1)]
        }]
    );
}

#[test]
fn source_with_an_undeclared_qubit_in_a_body() {
    let result = qasm_ast_to_circuit(
        "OPENQASM 2.0;\nqreg q[1];\nx q[0];\ngate broken a { h b; }\n",
        &no_files(),
    );
    assert_eq!(result, Err(LoweringError::UndefinedQubit));
}

#[test]
fn source_that_names_a_missing_file() {
    let result = qasm_ast_to_circuit("include \"missing.inc\";", &no_files());
    assert_eq!(result, Err(LoweringError::IOFailure));
    let unparsable = qasm_ast_to_circuit("= = include \"missing.inc\";", &no_files());
    assert_eq!(unparsable, Err(LoweringError::IOFailure));
}

#[test]
fn a_program_with_the_standard_library() {
    let source = "OPENQASM 2.0;\ninclude \"qelib1.inc\";\n// entangle\nqreg q[2];\ncreg c[2];\nbell q[0], q[1]; // defined in the library\nmeasure q -> c;\n";
    let circuit = qasm_ast_to_circuit(source, &library()).unwrap();
    assert_eq!(circuit.templates.len(), 4);
    assert_eq!(circuit.templates[3].name, "bell");
    assert_eq!(
        circuit.templates[0].body,
        Some(vec![TemplateOp {
            gate: GateRef::BuiltIn(BuiltinGate::U3),
            params: vec![" theta ".to_string(), " phi ".to_string(), " lambda ".to_string()],
            positions: vec![0]
        }])
    );
    assert_eq!(
        circuit.instructions,
        vec![
            Instruction::Gate {
                gate: GateRef::Custom(3),
                params: vec![],
                bits: vec![on(0, 0), on(0, 1)]
            },
            Instruction::Measure {
                qubits: vec![on(0, 0), on(0, 1)],
                clbits: vec![on(1, 0), on(1, 1)]
            },
        ]
    );
}

#[test]
fn text_that_is_no_program_is_an_invalid_node() {
    assert_eq!(
        qasm_ast_to_circuit("qreg q[2]; x q[0];", &no_files()),
        Err(LoweringError::InvalidNodeType)
    );
    assert_eq!(qasm_ast_to_circuit("", &no_files()), Err(LoweringError::InvalidNodeType));
    assert_eq!(
        qasm_ast_to_circuit("OPENQASM 2.0; // if (c = 1)\nif (c = 1) x q[0];", &no_files()),
        Err(LoweringError::InvalidNodeType)
    );
    assert_eq!(
        qasm_ast_to_circuit("OPENQASM 2.0; creg c[1]; qreg q[1]; if (c==1) x q[0];", &no_files()),
        Err(LoweringError::InvalidNodeType)
    );
}

#[test]
fn a_comment_may_hold_anything() {
    let circuit = qasm_ast_to_circuit(
        "OPENQASM 2.0; // \u{3c0} = 3.14.15 {{{ )\nqreg q[1]; // )",
        &no_files(),
    )
    .unwrap();
    assert_eq!(circuit.registers.len(), 1);
}

#[test]
fn the_entry_points_are_at_the_root() {
    assert_eq!(process("a // b", &no_files()), Ok("a ".to_string()));
    assert_eq!(generate_qubit_list(&vec!["a".to_string()], &vec!["a".to_string()]), Ok(vec![0]));
}
