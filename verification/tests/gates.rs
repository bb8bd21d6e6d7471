use pyrqasm::circuit::GateTemplate;
use pyrqasm::gates::{builtin_gate, lookup_template, resolve, BuiltinGate, GateRef};

fn template(name: &str) -> GateTemplate {
    GateTemplate { name: name.to_string(), arity: 1, params: Vec::new(), body: None }
}

#[test]
fn every_canonical_name_finds_its_gate() {
    let all = [
        BuiltinGate::U1,
        BuiltinGate::U2,
        BuiltinGate::U3,
        BuiltinGate::X,
        BuiltinGate::Y,
        BuiltinGate::Z,
        BuiltinGate::T,
        BuiltinGate::Tdg,
        BuiltinGate::S,
        BuiltinGate::Sdg,
        BuiltinGate::Swap,
        BuiltinGate::Rx,
        BuiltinGate::Ry,
        BuiltinGate::Rz,
        BuiltinGate::Rzz,
        BuiltinGate::Id,
        BuiltinGate::H,
        BuiltinGate::Cx,
        BuiltinGate::Cy,
        BuiltinGate::Cz,
        BuiltinGate::Ch,
        BuiltinGate::Crz,
        BuiltinGate::Cu1,
        BuiltinGate::Cu3,
        BuiltinGate::Ccx,
        BuiltinGate::Cswap,
    ];
    for gate in all {
        assert_eq!(builtin_gate(gate.name()), Some(gate));
    }
    assert_eq!(BuiltinGate::Ccx.name(), "ccx");
    assert_eq!(BuiltinGate::Tdg.name(), "tdg");
}

#[test]
fn the_table_is_keyed_in_lower_case() {
    assert_eq!(builtin_gate("x"), Some(BuiltinGate::X));
    assert_eq!(builtin_gate("X"), None);
    assert_eq!(builtin_gate("u"), None);
    assert_eq!(builtin_gate(""), None);
    assert_eq!(builtin_gate("cnot"), None);
}

#[test]
fn names_are_resolved_without_regard_to_case() {
    let none: Vec<GateTemplate> = Vec::new();
    assert_eq!(resolve("x", &none), Some(GateRef::BuiltIn(BuiltinGate::X)));
    assert_eq!(resolve("X", &none), Some(GateRef::BuiltIn(BuiltinGate::X)));
    assert_eq!(resolve("CSwap", &none), Some(GateRef::BuiltIn(BuiltinGate::Cswap)));
    assert_eq!(resolve("nothing", &none), None);
}

#[test]
fn built_in_gates_come_before_defined_ones() {
    let defined = vec![template("x"), template("bell")];
    assert_eq!(resolve("x", &defined), Some(GateRef::BuiltIn(BuiltinGate::X)));
    assert_eq!(resolve("bell", &defined), Some(GateRef::Custom(1)));
}

#[test]
fn the_latest_definition_of_a_name_counts() {
    let defined = vec![template("bell"), template("other"), template("bell")];
    assert_eq!(lookup_template(&defined, "bell"), Some(2));
    assert_eq!(lookup_template(&defined, "other"), Some(1));
    assert_eq!(lookup_template(&defined, "Bell"), None);
    assert_eq!(resolve("bell", &defined), Some(GateRef::Custom(2)));
}

#[test]
fn defined_names_are_case_sensitive() {
    let defined = vec![template("Bell"), template("bell")];
    assert_eq!(resolve("Bell", &defined), Some(GateRef::Custom(0)));
    assert_eq!(resolve("bell", &defined), Some(GateRef::Custom(1)));
    assert_eq!(resolve("BELL", &defined), None);
    let capital = vec![template("Bell")];
    assert_eq!(resolve("Bell", &capital), Some(GateRef::Custom(0)));
    assert_eq!(resolve("bell", &capital), None);
    let shadowed = vec![template("Swap")];
    assert_eq!(resolve("Swap", &shadowed), Some(GateRef::BuiltIn(BuiltinGate::Swap)));
}

#[test]
fn legacy_names_resolve() {
    let none: Vec<GateTemplate> = Vec::new();
    assert_eq!(resolve("U", &none), Some(GateRef::BuiltIn(BuiltinGate::U3)));
    assert_eq!(resolve("u", &none), None);
    assert_eq!(resolve("CX", &none), Some(GateRef::BuiltIn(BuiltinGate::Cx)));
    let lower = vec![template("u")];
    assert_eq!(resolve("U", &lower), Some(GateRef::BuiltIn(BuiltinGate::U3)));
    assert_eq!(resolve("u", &lower), Some(GateRef::Custom(0)));
    let defined = vec![template("U")];
    assert_eq!(resolve("U", &defined), Some(GateRef::Custom(0)));
}
