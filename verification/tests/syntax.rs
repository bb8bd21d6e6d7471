use pyrqasm::ast::{Node, Operand};
use pyrqasm::circuit::{Bit, Circuit, Instruction, RegisterKind};
use pyrqasm::error::LoweringError;
use pyrqasm::gates::GateRef;
use pyrqasm::lower::lower;
use pyrqasm::syntax::{count_char, ends_well, is_parsable, lexes_well, parse_program};
use pyrqasm::text::{char_is_space, chars_of, clone_strings, string_of, to_lower_char, to_lowercase};

fn t(text: &str) -> String {
    text.to_string()
}

fn chars(text: &str) -> Vec<char> {
    text.chars().collect()
}

fn parsed(source: &str) -> Result<Vec<Node>, LoweringError> {
    parse_program(source)
}

#[test]
fn a_program_is_parsed_into_statements() {
    let source = "OPENQASM 2.0;\nqreg q[2];\ncreg c[2];\nh q[0];\nCX q[0], q[1];\nbarrier q;\nreset q[1];\nmeasure q -> c;\n";
    assert_eq!(
        parsed(source),
        Ok(vec![
            Node::QReg(t("q"), 2),
            Node::CReg(t("c"), 2),
            Node::ApplyGate(t("h"), vec![Operand::Qubit(t("q"), 0)], vec![]),
            Node::ApplyGate(
                t("CX"),
                vec![Operand::Qubit(t("q"), 0), Operand::Qubit(t("q"), 1)],
                vec![]
            ),
            Node::Barrier(Operand::Register(t("q"))),
            Node::Reset(Operand::Qubit(t("q"), 1)),
            Node::Measure(Operand::Register(t("q")), Operand::Register(t("c"))),
        ])
    );
}

#[test]
fn definitions_and_conditions_are_parsed() {
    let source = "OPENQASM 2.0; gate bell a,b { h a; cx a,b; } opaque magic(theta) a; if (c==3) if (c==1) x q[0];";
    assert_eq!(
        parsed(source),
        Ok(vec![
            Node::Gate(
                t("bell"),
                vec![t("a"), t("b")],
                vec![],
                vec![
                    Node::ApplyGate(t("h"), vec![Operand::Register(t("a"))], vec![]),
                    Node::ApplyGate(
                        t("cx"),
                        vec![Operand::Register(t("a")), Operand::Register(t("b"))],
                        vec![]
                    ),
                ]
            ),
            Node::Opaque(t("magic"), vec![Operand::Register(t("a"))], vec![t("theta")]),
            Node::If(
                t("c"),
                3,
                Box::new(Node::If(
                    t("c"),
                    1,
                    Box::new(Node::ApplyGate(t("x"), vec![Operand::Qubit(t("q"), 0)], vec![]))
                ))
            ),
        ])
    );
}

#[test]
fn parameters_are_kept_as_text() {
    assert_eq!(
        parsed("OPENQASM 2.0; u3(pi/2, 0, 1.5) q[0];"),
        Ok(vec![Node::ApplyGate(
            t("u3"),
            vec![Operand::Qubit(t("q"), 0)],
            vec![t(" pi  /  2 "), t(" 0 "), t(" 1.5 ")]
        )])
    );
}

#[test]
fn a_program_without_statements_is_empty() {
    assert_eq!(parsed("OPENQASM 2.0;"), Ok(vec![]));
    assert_eq!(parsed("OPENQASM 2.0; gate nothing a { }"), Ok(vec![Node::Gate(
        t("nothing"),
        vec![t("a")],
        vec![],
        vec![]
    )]));
}

#[test]
fn what_the_parser_rejects_is_an_invalid_node() {
    for source in [
        "qreg q[2];",
        "OPENQASM 3.0; qreg q[2];",
        "OPENQASM 2.0; qreg q[2]",
        "OPENQASM 2.0; qreg q;",
        "OPENQASM 2.0; qreg [2];",
        "OPENQASM 2.0; 5;",
        "OPENQASM 2.0; x q[0] q[1];",
        "OPENQASM 2.0; measure q[0] c[0];",
        "OPENQASM 2.0; qreg q[2]; @",
        "OPENQASM",
        "OPENQASM 2;",
    ] {
        assert_eq!(parsed(source), Err(LoweringError::InvalidNodeType), "{:?}", source);
    }
}

#[test]
fn text_the_parser_cannot_take_is_rejected_first() {
    for source in [
        "",
        "   \n\t ",
        "OPENQASM 2.0; if (c = 1) x q[0];",
        "OPENQASM 2.0; if (c === 1) x q[0];",
        "OPENQASM 2.0; qreg q[99999999999];",
        "OPENQASM 2.0; qreg q[2147483648];",
        "OPENQASM 2.0; rx(1.2.3) q[0];",
        "OPENQASM 2.0; rx(1..) q[0];",
        "OPENQASM 2.0; qreg q[2]; a1.12345678901 q;",
        "OPENQASM 2.0; gate g a {",
        "OPENQASM 2.0; gate g a { h a;",
        "OPENQASM 2.0; gate g a { h a; } }",
        "OPENQASM 2.0; if (c==1)",
        "OPENQASM 2.0; if (c==1) \n ",
        "OPENQASM 2.0; qreg q[\u{662}];",
        "OPENQASM 2.0; qreg q[\u{b2}];",
        "OPENQASM 2.0; rx(1.\u{662}) q[0];",
        "OPENQASM 2.0; qreg q[2];\u{a0})\u{2003}",
        "\u{a0}\u{3000}",
    ] {
        assert!(!is_parsable(&chars(source)), "{:?}", source);
        assert_eq!(parsed(source), Err(LoweringError::InvalidNodeType), "{:?}", source);
    }
}

#[test]
fn names_and_white_space_may_be_of_any_script() {
    assert_eq!(
        parsed("OPENQASM 2.0;\u{a0}qreg \u{3c0}[2];\u{2003}x \u{3c0}[0];"),
        Ok(vec![
            Node::QReg(t("\u{3c0}"), 2),
            Node::ApplyGate(t("x"), vec![Operand::Qubit(t("\u{3c0}"), 0)], vec![]),
        ])
    );
    assert_eq!(
        parsed("OPENQASM 2.0; qreg caf\u{e9}\u{662}_1[1];"),
        Ok(vec![Node::QReg(t("caf\u{e9}\u{662}_1"), 1)])
    );
}

#[test]
fn numbers_at_the_limit_are_taken() {
    assert_eq!(
        parsed("OPENQASM 2.0; qreg q[2147483647];"),
        Ok(vec![Node::QReg(t("q"), 2147483647)])
    );
    assert_eq!(parsed("OPENQASM 2.0; qreg q[0000000000012];"), Ok(vec![Node::QReg(t("q"), 12)]));
    assert!(is_parsable(&chars("OPENQASM 2.0; rx(99999999999.5) q[0];")));
    assert!(is_parsable(&chars("OPENQASM 2.0; rx(3.141592653589793) q[0];")));
    assert!(is_parsable(&chars("OPENQASM 2.0; rx(1.) q12345678901234567890[0];")));
    assert!(parsed("OPENQASM 2.0; rx(99999999999.5) q[0];").is_ok());
}

#[test]
fn the_parts_of_the_check() {
    assert!(ends_well(&chars("x;\u{a0}\u{2003}")));
    assert!(!ends_well(&chars("x)\u{a0}\u{2003}")));
    assert!(lexes_well(&chars("caf\u{e9} \u{3c0}\u{662} \u{2167}")));
    assert!(!lexes_well(&chars("\u{662}")));
    assert!(!lexes_well(&chars("1\u{662}")));
    assert!(!lexes_well(&chars("(\u{b2})")));
    assert!(lexes_well(&chars("=\u{a0}=") ) == false);
    assert_eq!(count_char(&chars("{a{b}c"), '{'), 2);
    assert_eq!(count_char(&chars("{a{b}c"), '}'), 1);
    assert_eq!(count_char(&chars(""), '{'), 0);
    assert!(ends_well(&chars("x;  \n")));
    assert!(ends_well(&chars("}")));
    assert!(!ends_well(&chars("x) \t\r\n")));
    assert!(!ends_well(&chars(" \n ")));
    assert!(!ends_well(&chars("")));
    assert!(lexes_well(&chars("a == b")));
    assert!(lexes_well(&chars("a ==== b")));
    assert!(!lexes_well(&chars("a = b")));
    assert!(!lexes_well(&chars("a === b")));
    assert!(!lexes_well(&chars("=")));
    assert!(lexes_well(&chars("q2147483648 x_9999999999")));
    assert!(lexes_well(&chars("2147483647")));
    assert!(!lexes_well(&chars("2147483648")));
    assert!(!lexes_well(&chars("18446744073709551616")));
    assert!(lexes_well(&chars("18446744073709551616.0")));
    assert!(!lexes_well(&chars("1.0.")));
    assert!(lexes_well(&chars(".5.5")));
    assert!(!lexes_well(&chars(".5.5.5")));
    assert!(lexes_well(&chars("a -> b - > c")));
}

#[test]
fn strings_and_characters_convert_both_ways() {
    assert_eq!(chars_of("a\u{3c0}c"), vec!['a', '\u{3c0}', 'c']);
    assert_eq!(chars_of(""), Vec::<char>::new());
    let v = vec!['q', 'a', 's', 'm'];
    assert_eq!(string_of(&v, 1, 3), "as");
    assert_eq!(string_of(&v, 0, 4), "qasm");
    assert_eq!(string_of(&v, 2, 2), "");
    assert_eq!(clone_strings(&vec![t("a"), t("bc")]), vec![t("a"), t("bc")]);
}

#[test]
fn only_ascii_capitals_are_put_in_lower_case() {
    assert_eq!(to_lowercase("CSwap"), "cswap");
    assert_eq!(to_lowercase("u3"), "u3");
    assert_eq!(to_lowercase(""), "");
    assert_eq!(to_lowercase("\u{c9}T\u{3a0}_Z@[`{"), "\u{c9}t\u{3a0}_z@[`{");
    for code in 0u32..0x500 {
        if let Some(c) = char::from_u32(code) {
            assert_eq!(to_lower_char(c), c.to_ascii_lowercase(), "{:?}", c);
            let text = format!("a{}Z", c);
            assert_eq!(to_lowercase(&text), text.to_ascii_lowercase());
        }
    }
}

#[test]
fn white_space_is_the_unicode_class() {
    for c in ['\t', '\n', '\u{b}', '\u{c}', '\r', ' ', '\u{85}', '\u{a0}', '\u{1680}', '\u{2000}',
        '\u{200a}', '\u{2028}', '\u{2029}', '\u{202f}', '\u{205f}', '\u{3000}']
    {
        assert!(char_is_space(c), "{:?}", c);
    }
    for c in ['a', '0', '\u{8}', '\u{e}', '\u{1f}', '\u{200b}', '\u{feff}', '"'] {
        assert!(!char_is_space(c), "{:?}", c);
    }
    for code in 0u32..0x3100 {
        if let Some(c) = char::from_u32(code) {
            assert_eq!(char_is_space(c), c.is_whitespace(), "{:?}", c);
        }
    }
}

fn bits_are_filled(circuit: &Circuit, bits: &[Bit], kind: RegisterKind) -> bool {
    bits.iter().all(|bit| {
        bit.register < circuit.registers.len()
            && circuit.registers[bit.register].kind == kind
            && bit.index < circuit.registers[bit.register].size
    })
}

fn gate_is_filled(gate: GateRef, templates: usize) -> bool {
    match gate {
        GateRef::BuiltIn(_) => true,
        GateRef::Custom(position) => position < templates,
    }
}

fn every_handle_is_filled(circuit: &Circuit) -> bool {
    let templates = circuit.templates.iter().enumerate().all(|(k, template)| {
        template.body.iter().flatten().all(|op| {
            gate_is_filled(op.gate, k) && op.positions.iter().all(|p| *p < template.arity)
        })
    });
    let instructions = circuit.instructions.iter().all(|instruction| match instruction {
        Instruction::Gate { gate, bits, .. } => {
            gate_is_filled(*gate, circuit.templates.len())
                && bits_are_filled(circuit, bits, RegisterKind::Quantum)
        }
        Instruction::Barrier { bits } | Instruction::Reset { bits } => {
            bits_are_filled(circuit, bits, RegisterKind::Quantum)
        }
        Instruction::Measure { qubits, clbits } => {
            bits_are_filled(circuit, qubits, RegisterKind::Quantum)
                && bits_are_filled(circuit, clbits, RegisterKind::Classical)
        }
    });
    templates && instructions
}

#[test]
fn a_lowered_circuit_is_well_formed() {
    let source = "OPENQASM 2.0; gate one a { h a; } gate two a,b { one b; cx b,a; } qreg q[2]; creg c[2]; qreg r[1]; two q[1], r[0]; barrier q; reset r; measure q -> c; U(0,0,0) r;";
    let circuit = lower(&parse_program(source).unwrap()).unwrap();
    assert_eq!(circuit.instructions.len(), 5);
    assert!(every_handle_is_filled(&circuit));
}

/// A small generator of repeatable pseudo-random numbers.
struct Dice(u64);

impl Dice {
    fn roll(&mut self, bound: usize) -> usize {
        self.0 = self.0.wrapping_mul(6364136223846793005).wrapping_add(1442695040888963407);
        ((self.0 >> 33) as usize) % bound
    }
}

#[test]
fn whatever_passes_the_check_is_taken_by_the_parser() {
    let pieces = [
        "OPENQASM", " ", "2.0", ";", ";", ";", "qreg", "creg", "q", "c", "[", "]", "2", "0", "gate",
        "{", "}", "(", ")", ",", "h", "cx", "measure", "->", "if", "==", "=", "1.5", "99999999999",
        ".", "pi", "+", "-", "*", "/", "^", "barrier", "reset", "opaque", "U", "CX", "\n", "a", "b",
        "sin", "@", "_x1", "q[0]", "q[1]", "h q[0];", "gate g a {", "h a;", "if (c==1)", "\u{1}",
        "\u{3c0}", "\u{a0}", "\u{662}", "\u{b2}", "\u{2167}", "\u{e9}", ">", "\u{3000}",
    ];
    let mut dice = Dice(11);
    let mut taken = 0;
    let mut programs = 0;
    let mut circuits = 0;
    for _ in 0..20000 {
        let mut source = String::new();
        if dice.roll(4) > 0 {
            source.push_str("OPENQASM 2.0;");
        }
        for _ in 0..dice.roll(14) {
            source.push_str(pieces[dice.roll(pieces.len())]);
            if dice.roll(3) == 0 {
                source.push(' ');
            }
        }
        let verdict = is_parsable(&chars(&source));
        let result = parse_program(&source);
        if !verdict {
            assert_eq!(result, Err(LoweringError::InvalidNodeType), "{:?}", source);
            continue;
        }
        taken += 1;
        if let Ok(program) = result {
            programs += 1;
            if let Ok(circuit) = lower(&program) {
                circuits += 1;
                assert!(every_handle_is_filled(&circuit), "{:?}", source);
            }
        }
    }
    assert!(taken > 1000 && programs > 100 && circuits > 10, "{} {} {}", taken, programs, circuits);
}
