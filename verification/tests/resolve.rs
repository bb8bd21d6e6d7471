use pyrqasm::ast::Operand;
use pyrqasm::circuit::{Bit, Register, RegisterKind};
use pyrqasm::error::LoweringError;
use pyrqasm::resolve::{materialize, resolve_all, resolve_one, SnapshotCache};
use pyrqasm::symbols::{generate_qubit_list, lookup_position, lookup_register};

fn register(kind: RegisterKind, name: &str, size: usize) -> Register {
    Register { kind, name: name.to_string(), size }
}

fn qubit(name: &str, index: i32) -> Operand {
    Operand::Qubit(name.to_string(), index)
}

fn whole(name: &str) -> Operand {
    Operand::Register(name.to_string())
}

fn table() -> Vec<Register> {
    vec![
        register(RegisterKind::Quantum, "q", 3),
        register(RegisterKind::Classical, "c", 2),
        register(RegisterKind::Quantum, "r", 1),
        register(RegisterKind::Classical, "q", 4),
    ]
}

#[test]
fn a_bare_register_is_all_its_bits_in_order() {
    let regs = table();
    assert_eq!(
        resolve_one(&regs, RegisterKind::Quantum, &whole("q")),
        Ok(vec![
            Bit { register: 0, index: 0 },
            Bit { register: 0, index: 1 },
            Bit { register: 0, index: 2 }
        ])
    );
    assert_eq!(materialize(7, 0), Vec::<Bit>::new());
}

#[test]
fn an_index_picks_one_bit() {
    let regs = table();
    for i in 0..3 {
        assert_eq!(
            resolve_one(&regs, RegisterKind::Quantum, &qubit("q", i)),
            Ok(vec![Bit { register: 0, index: i as usize }])
        );
    }
}

#[test]
fn an_index_outside_the_register_fails() {
    let regs = table();
    assert_eq!(
        resolve_one(&regs, RegisterKind::Quantum, &qubit("q", 3)),
        Err(LoweringError::UndefinedQubit)
    );
    assert_eq!(
        resolve_one(&regs, RegisterKind::Quantum, &qubit("q", -1)),
        Err(LoweringError::UndefinedQubit)
    );
    assert_eq!(
        resolve_one(&regs, RegisterKind::Quantum, &qubit("q", i32::MAX)),
        Err(LoweringError::UndefinedQubit)
    );
}

#[test]
fn an_unknown_register_fails() {
    let regs = table();
    assert_eq!(
        resolve_one(&regs, RegisterKind::Quantum, &whole("c")),
        Err(LoweringError::UndefinedQubit)
    );
    assert_eq!(
        resolve_one(&regs, RegisterKind::Classical, &qubit("r", 0)),
        Err(LoweringError::UndefinedQubit)
    );
}

#[test]
fn kinds_have_namespaces_of_their_own() {
    let regs = table();
    assert_eq!(lookup_register(&regs, RegisterKind::Quantum, "q"), Some(0));
    assert_eq!(lookup_register(&regs, RegisterKind::Classical, "q"), Some(3));
    assert_eq!(
        resolve_one(&regs, RegisterKind::Classical, &qubit("q", 3)),
        Ok(vec![Bit { register: 3, index: 3 }])
    );
}

#[test]
fn a_later_register_of_the_same_name_replaces_the_earlier() {
    let mut regs = table();
    regs.push(register(RegisterKind::Quantum, "q", 1));
    assert_eq!(lookup_register(&regs, RegisterKind::Quantum, "q"), Some(4));
    assert_eq!(
        resolve_one(&regs, RegisterKind::Quantum, &qubit("q", 1)),
        Err(LoweringError::UndefinedQubit)
    );
}

#[test]
fn operands_are_resolved_in_order() {
    let regs = table();
    let args = vec![qubit("q", 2), whole("r"), qubit("q", 0), whole("q"), qubit("r", 0)];
    assert_eq!(
        resolve_all(&regs, RegisterKind::Quantum, &args),
        Ok(vec![
            Bit { register: 0, index: 2 },
            Bit { register: 2, index: 0 },
            Bit { register: 0, index: 0 },
            Bit { register: 0, index: 0 },
            Bit { register: 0, index: 1 },
            Bit { register: 0, index: 2 },
            Bit { register: 2, index: 0 },
        ])
    );
    assert_eq!(resolve_all(&regs, RegisterKind::Quantum, &Vec::new()), Ok(Vec::new()));
}

#[test]
fn the_first_operand_that_fails_decides() {
    let regs = table();
    let args = vec![qubit("q", 0), qubit("q", 9), whole("nowhere")];
    assert_eq!(
        resolve_all(&regs, RegisterKind::Quantum, &args),
        Err(LoweringError::UndefinedQubit)
    );
}

#[test]
fn a_snapshot_is_taken_once_for_each_register() {
    let regs = table();
    let mut cache = SnapshotCache::new();
    assert_eq!(cache.position("q"), None);
    assert_eq!(
        cache.resolve(&regs, RegisterKind::Quantum, &qubit("q", 1)),
        Ok(vec![Bit { register: 0, index: 1 }])
    );
    assert_eq!(cache.position("q"), Some(0));
    assert_eq!(cache.entries[0].bits.len(), 3);
    assert_eq!(
        cache.resolve(&regs, RegisterKind::Quantum, &qubit("q", 2)),
        Ok(vec![Bit { register: 0, index: 2 }])
    );
    assert_eq!(
        cache.resolve(&regs, RegisterKind::Quantum, &qubit("q", 3)),
        Err(LoweringError::UndefinedQubit)
    );
    assert_eq!(cache.entries.len(), 1);
    assert_eq!(
        cache.resolve(&regs, RegisterKind::Quantum, &whole("r")),
        Ok(vec![Bit { register: 2, index: 0 }])
    );
    assert_eq!(cache.entries.len(), 1);
    assert_eq!(
        cache.resolve(&regs, RegisterKind::Quantum, &qubit("r", 0)),
        Ok(vec![Bit { register: 2, index: 0 }])
    );
    assert_eq!(cache.entries.len(), 2);
}

#[test]
fn formal_qubits_are_found_by_name() {
    let scope = vec!["a".to_string(), "b".to_string(), "a".to_string()];
    assert_eq!(lookup_position(&scope, "a"), Some(2));
    assert_eq!(lookup_position(&scope, "b"), Some(1));
    assert_eq!(lookup_position(&scope, "c"), None);
    assert_eq!(
        generate_qubit_list(&scope, &vec!["b".to_string(), "a".to_string(), "b".to_string()]),
        Ok(vec![1, 2, 1])
    );
    assert_eq!(generate_qubit_list(&scope, &Vec::new()), Ok(Vec::new()));
}

#[test]
fn an_unknown_formal_qubit_fails() {
    let scope = vec!["a".to_string(), "b".to_string()];
    assert_eq!(
        generate_qubit_list(&scope, &vec!["a".to_string(), "c".to_string()]),
        Err(LoweringError::UndefinedQubit)
    );
    assert_eq!(
        generate_qubit_list(&Vec::new(), &vec!["a".to_string()]),
        Err(LoweringError::UndefinedQubit)
    );
}
