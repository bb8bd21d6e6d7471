//! A library of gates: the fixed table of built-in gates and the resolution of a
//! gate name against it and against the gates a program has defined.
use crate::circuit::template_views;
use crate::circuit::GateTemplate;
use crate::circuit::GateTemplateView;
use crate::text::ascii_lowercase;
use crate::text::same_text;
use crate::text::to_lowercase;
use vstd::prelude::*;

verus! {

/// A gate that the host provides a constructor for.
#[derive(Clone, Copy, Debug, PartialEq, Eq, Structural)]
pub enum BuiltinGate {
    /// A phase rotation by one angle.
    U1,
    /// A rotation given by two angles.
    U2,
    /// A general single-qubit rotation, given by three angles.
    U3,
    /// Pauli X.
    X,
    /// Pauli Y.
    Y,
    /// Pauli Z.
    Z,
    /// The fourth root of Z.
    T,
    /// The inverse of `T`.
    Tdg,
    /// The square root of Z.
    S,
    /// The inverse of `S`.
    Sdg,
    /// The swap of two qubits.
    Swap,
    /// A rotation about the X axis.
    Rx,
    /// A rotation about the Y axis.
    Ry,
    /// A rotation about the Z axis.
    Rz,
    /// A two-qubit rotation about ZZ.
    Rzz,
    /// The identity.
    Id,
    /// Hadamard.
    H,
    /// Controlled X.
    Cx,
    /// Controlled Y.
    Cy,
    /// Controlled Z.
    Cz,
    /// Controlled Hadamard.
    Ch,
    /// A controlled rotation about the Z axis.
    Crz,
    /// Controlled `U1`.
    Cu1,
    /// Controlled `U3`.
    Cu3,
    /// Doubly controlled X (Toffoli).
    Ccx,
    /// Controlled swap (Fredkin).
    Cswap,
}

impl BuiltinGate {
    /// The canonical, lower-case name under which this gate is looked up.
    pub open spec fn spec_name(self) -> Seq<char> {
        match self {
            BuiltinGate::U1 => "u1"@,
            BuiltinGate::U2 => "u2"@,
            BuiltinGate::U3 => "u3"@,
            BuiltinGate::X => "x"@,
            BuiltinGate::Y => "y"@,
            BuiltinGate::Z => "z"@,
            BuiltinGate::T => "t"@,
            BuiltinGate::Tdg => "tdg"@,
            BuiltinGate::S => "s"@,
            BuiltinGate::Sdg => "sdg"@,
            BuiltinGate::Swap => "swap"@,
            BuiltinGate::Rx => "rx"@,
            BuiltinGate::Ry => "ry"@,
            BuiltinGate::Rz => "rz"@,
            BuiltinGate::Rzz => "rzz"@,
            BuiltinGate::Id => "id"@,
            BuiltinGate::H => "h"@,
            BuiltinGate::Cx => "cx"@,
            BuiltinGate::Cy => "cy"@,
            BuiltinGate::Cz => "cz"@,
            BuiltinGate::Ch => "ch"@,
            BuiltinGate::Crz => "crz"@,
            BuiltinGate::Cu1 => "cu1"@,
            BuiltinGate::Cu3 => "cu3"@,
            BuiltinGate::Ccx => "ccx"@,
            BuiltinGate::Cswap => "cswap"@,
        }
    }

    /// The canonical, lower-case name under which this gate is looked up.
    pub fn name(&self) -> (s: &'static str)
        ensures
            s@ == self.spec_name(),
    {
        match self {
            BuiltinGate::U1 => "u1",
            BuiltinGate::U2 => "u2",
            BuiltinGate::U3 => "u3",
            BuiltinGate::X => "x",
            BuiltinGate::Y => "y",
            BuiltinGate::Z => "z",
            BuiltinGate::T => "t",
            BuiltinGate::Tdg => "tdg",
            BuiltinGate::S => "s",
            BuiltinGate::Sdg => "sdg",
            BuiltinGate::Swap => "swap",
            BuiltinGate::Rx => "rx",
            BuiltinGate::Ry => "ry",
            BuiltinGate::Rz => "rz",
            BuiltinGate::Rzz => "rzz",
            BuiltinGate::Id => "id",
            BuiltinGate::H => "h",
            BuiltinGate::Cx => "cx",
            BuiltinGate::Cy => "cy",
            BuiltinGate::Cz => "cz",
            BuiltinGate::Ch => "ch",
            BuiltinGate::Crz => "crz",
            BuiltinGate::Cu1 => "cu1",
            BuiltinGate::Cu3 => "cu3",
            BuiltinGate::Ccx => "ccx",
            BuiltinGate::Cswap => "cswap",
        }
    }

    /// The name of the host's constructor for this gate.
    pub open spec fn spec_constructor(self) -> Seq<char> {
        match self {
            BuiltinGate::U1 => "U1Gate"@,
            BuiltinGate::U2 => "U2Gate"@,
            BuiltinGate::U3 => "U3Gate"@,
            BuiltinGate::X => "XGate"@,
            BuiltinGate::Y => "YGate"@,
            BuiltinGate::Z => "ZGate"@,
            BuiltinGate::T => "TGate"@,
            BuiltinGate::Tdg => "TdgGate"@,
            BuiltinGate::S => "SGate"@,
            BuiltinGate::Sdg => "SdgGate"@,
            BuiltinGate::Swap => "SwapGate"@,
            BuiltinGate::Rx => "RXGate"@,
            BuiltinGate::Ry => "RYGate"@,
            BuiltinGate::Rz => "RZGate"@,
            BuiltinGate::Rzz => "RZZGate"@,
            BuiltinGate::Id => "IdGate"@,
            BuiltinGate::H => "HGate"@,
            BuiltinGate::Cx => "CnotGate"@,
            BuiltinGate::Cy => "CyGate"@,
            BuiltinGate::Cz => "CzGate"@,
            BuiltinGate::Ch => "CHGate"@,
            BuiltinGate::Crz => "CrzGate"@,
            BuiltinGate::Cu1 => "Cu1Gate"@,
            BuiltinGate::Cu3 => "Cu3Gate"@,
            BuiltinGate::Ccx => "ToffoliGate"@,
            BuiltinGate::Cswap => "FredkinGate"@,
        }
    }

    /// The name of the host's constructor for this gate.
    pub fn constructor(&self) -> (s: &'static str)
        ensures
            s@ == self.spec_constructor(),
    {
        match self {
            BuiltinGate::U1 => "U1Gate",
            BuiltinGate::U2 => "U2Gate",
            BuiltinGate::U3 => "U3Gate",
            BuiltinGate::X => "XGate",
            BuiltinGate::Y => "YGate",
            BuiltinGate::Z => "ZGate",
            BuiltinGate::T => "TGate",
            BuiltinGate::Tdg => "TdgGate",
            BuiltinGate::S => "SGate",
            BuiltinGate::Sdg => "SdgGate",
            BuiltinGate::Swap => "SwapGate",
            BuiltinGate::Rx => "RXGate",
            BuiltinGate::Ry => "RYGate",
            BuiltinGate::Rz => "RZGate",
            BuiltinGate::Rzz => "RZZGate",
            BuiltinGate::Id => "IdGate",
            BuiltinGate::H => "HGate",
            BuiltinGate::Cx => "CnotGate",
            BuiltinGate::Cy => "CyGate",
            BuiltinGate::Cz => "CzGate",
            BuiltinGate::Ch => "CHGate",
            BuiltinGate::Crz => "CrzGate",
            BuiltinGate::Cu1 => "Cu1Gate",
            BuiltinGate::Cu3 => "Cu3Gate",
            BuiltinGate::Ccx => "ToffoliGate",
            BuiltinGate::Cswap => "FredkinGate",
        }
    }
}

/// The table of built-in gates. To add a gate is to add it here, with its
/// names above.
pub open spec fn gate_table() -> Seq<BuiltinGate> {
    seq![
        BuiltinGate::U1,
        BuiltinGate::U2,
        BuiltinGate::U3,
        BuiltinGate::X,
        BuiltinGate::Y,
        BuiltinGate::Z,
        BuiltinGate::T,
        BuiltinGate::Tdg,
        BuiltinGate::S,
        BuiltinGate::Sdg,
        BuiltinGate::Swap,
        BuiltinGate::Rx,
        BuiltinGate::Ry,
        BuiltinGate::Rz,
        BuiltinGate::Rzz,
        BuiltinGate::Id,
        BuiltinGate::H,
        BuiltinGate::Cx,
        BuiltinGate::Cy,
        BuiltinGate::Cz,
        BuiltinGate::Ch,
        BuiltinGate::Crz,
        BuiltinGate::Cu1,
        BuiltinGate::Cu3,
        BuiltinGate::Ccx,
        BuiltinGate::Cswap,
    ]
}

/// The table of built-in gates: see [`gate_table`].
pub fn builtin_gates() -> (table: [BuiltinGate; 26])
    ensures
        table@ == gate_table(),
{
    let table = [
        BuiltinGate::U1,
        BuiltinGate::U2,
        BuiltinGate::U3,
        BuiltinGate::X,
        BuiltinGate::Y,
        BuiltinGate::Z,
        BuiltinGate::T,
        BuiltinGate::Tdg,
        BuiltinGate::S,
        BuiltinGate::Sdg,
        BuiltinGate::Swap,
        BuiltinGate::Rx,
        BuiltinGate::Ry,
        BuiltinGate::Rz,
        BuiltinGate::Rzz,
        BuiltinGate::Id,
        BuiltinGate::H,
        BuiltinGate::Cx,
        BuiltinGate::Cy,
        BuiltinGate::Cz,
        BuiltinGate::Ch,
        BuiltinGate::Crz,
        BuiltinGate::Cu1,
        BuiltinGate::Cu3,
        BuiltinGate::Ccx,
        BuiltinGate::Cswap,
    ];
    assert(table@ =~= gate_table());
    table
}

/// The built-in gate with the canonical name `name`, if the table holds one.
pub open spec fn builtin_lookup(name: Seq<char>) -> Option<BuiltinGate> {
    if exists|gate: BuiltinGate| #[trigger] gate.spec_name() == name {
        Some(choose|gate: BuiltinGate| #[trigger] gate.spec_name() == name)
    } else {
        None
    }
}

/// Looks a canonical (lower-case) name up in the table of built-in gates.
pub fn builtin_gate(name: &str) -> (r: Option<BuiltinGate>)
    ensures
        r == builtin_lookup(name@),
{
    let table = builtin_gates();
    let mut k: usize = 0;
    while k < table.len()
        invariant
            k <= table.len(),
            table@ == gate_table(),
            forall|j: int| 0 <= j < k ==> (#[trigger] table@[j]).spec_name() != name@,
        decreases table.len() - k,
    {
        if same_text(table[k].name(), name) {
            proof {
                lemma_names_differ(table@[k as int], builtin_lookup(name@)->0);
            }
            return Some(table[k]);
        }
        k += 1;
    }
    proof {
        assert forall|gate: BuiltinGate| #[trigger] gate.spec_name() != name@ by {
            lemma_table_is_complete(gate);
        }
    }
    None
}

/// What a gate name resolves to.
#[derive(Clone, Copy, Debug, PartialEq, Eq, Structural)]
pub enum GateRef {
    /// A gate of the built-in table.
    BuiltIn(BuiltinGate),
    /// A template of the program, by its position among the circuit's templates.
    Custom(usize),
}

/// The position of the latest template named `name`, if any. A later
/// definition of a name replaces an earlier one.
pub open spec fn find_template(templates: Seq<GateTemplateView>, name: Seq<char>) -> Option<int>
    decreases templates.len(),
{
    if templates.len() == 0 {
        None
    } else if templates.last().name == name {
        Some(templates.len() - 1)
    } else {
        find_template(templates.drop_last(), name)
    }
}

/// What `name` resolves to among the built-in gates and `templates`.
///
/// Built-in names are read without regard to case: the name is put in lower
/// case and looked up in the built-in table. Failing that, the name is
/// looked up among the templates as it is written: the names that a program
/// defines are case-sensitive. Failing that, the legacy name `U` stands for
/// the built-in `u3`. (The other legacy name, `CX`, needs no rule of its
/// own: see [`lemma_legacy_cx`].)
pub open spec fn resolve_gate(name: Seq<char>, templates: Seq<GateTemplateView>) -> Option<
    GateRef,
> {
    let lower = ascii_lowercase(name);
    match builtin_lookup(lower) {
        Some(g) => Some(GateRef::BuiltIn(g)),
        None => match find_template(templates, name) {
            Some(i) => Some(GateRef::Custom(i as usize)),
            None => if name == "U"@ {
                Some(GateRef::BuiltIn(BuiltinGate::U3))
            } else {
                None
            },
        },
    }
}

/// Finds the latest template named `name`.
pub fn lookup_template(templates: &Vec<GateTemplate>, name: &str) -> (r: Option<usize>)
    ensures
        match r {
            Some(i) => i < templates.len() && find_template(template_views(templates@), name@)
                == Some(i as int),
            None => find_template(template_views(templates@), name@) is None,
        },
{
    let ghost all = template_views(templates@);
    let mut i: usize = templates.len();
    assert(all.take(i as int) =~= all);
    while i > 0
        invariant
            i <= templates.len(),
            all == template_views(templates@),
            find_template(all, name@) == find_template(all.take(i as int), name@),
        decreases i,
    {
        proof {
            assert(all.take(i as int).drop_last() =~= all.take(i as int - 1));
        }
        if same_text(templates[i - 1].name.as_str(), name) {
            return Some(i - 1);
        }
        i -= 1;
    }
    proof {
        assert(all.take(0).len() == 0);
    }
    None
}

/// Resolves a gate name as written in a program: see [`resolve_gate`].
pub fn resolve(name: &str, templates: &Vec<GateTemplate>) -> (r: Option<GateRef>)
    ensures
        r == resolve_gate(name@, template_views(templates@)),
{
    let lower = to_lowercase(name);
    match builtin_gate(lower.as_str()) {
        Some(g) => Some(GateRef::BuiltIn(g)),
        None => match lookup_template(templates, name) {
            Some(i) => Some(GateRef::Custom(i)),
            None => if same_text(name, "U") {
                Some(GateRef::BuiltIn(BuiltinGate::U3))
            } else {
                None
            },
        },
    }
}

/// Built-in gates take precedence: a name whose lower-case form is in the
/// built-in table resolves to that built-in gate, whatever templates the
/// program has defined, under that name or any other.
pub proof fn lemma_builtin_takes_precedence(
    name: Seq<char>,
    templates: Seq<GateTemplateView>,
    gate: BuiltinGate,
)
    requires
        builtin_lookup(ascii_lowercase(name)) == Some(gate),
    ensures
        resolve_gate(name, templates) == Some(GateRef::BuiltIn(gate)),
{
}

/// The name `x` always resolves to the built-in Pauli X gate, also where the
/// program defines a gate called `x`.
pub proof fn lemma_x_is_pauli_x(templates: Seq<GateTemplateView>)
    ensures
        resolve_gate("x"@, templates) == Some(GateRef::BuiltIn(BuiltinGate::X)),
{
    reveal_strlit("x");
    assert(ascii_lowercase("x"@) =~= "x"@);
    lemma_canonical_names("x"@);
    assert(builtin_lookup(BuiltinGate::X.spec_name()) == Some(BuiltinGate::X));
}

/// The legacy name `CX` resolves to the built-in controlled X gate: in lower
/// case it is the canonical name `cx`, so the built-in table answers before
/// any other rule is asked.
pub proof fn lemma_legacy_cx(templates: Seq<GateTemplateView>)
    ensures
        resolve_gate("CX"@, templates) == Some(GateRef::BuiltIn(BuiltinGate::Cx)),
{
    reveal_strlit("CX");
    reveal_strlit("cx");
    assert(ascii_lowercase("CX"@) =~= "cx"@);
    lemma_canonical_names("cx"@);
    assert(builtin_lookup(BuiltinGate::Cx.spec_name()) == Some(BuiltinGate::Cx));
}

/// The legacy name `U` resolves to the built-in `u3` gate unless the program
/// defines a gate called `U`, which then takes its place.
pub proof fn lemma_legacy_u(templates: Seq<GateTemplateView>)
    ensures
        resolve_gate("U"@, templates) == match find_template(templates, "U"@) {
            Some(i) => Some(GateRef::Custom(i as usize)),
            None => Some(GateRef::BuiltIn(BuiltinGate::U3)),
        },
{
    reveal_strlit("U");
    reveal_strlit("u");
    assert(ascii_lowercase("U"@) =~= "u"@);
    lemma_canonical_names("u"@);
    assert forall|gate: BuiltinGate| #[trigger] gate.spec_name() != "u"@ by {
        reveal_canonical_names();
    }
}

/// The table is keyed by the canonical names: what a name finds has that
/// canonical name, a name finds nothing only if it is the canonical name of
/// no gate, and every gate is found by its own canonical name.
pub proof fn lemma_canonical_names(name: Seq<char>)
    ensures
        match builtin_lookup(name) {
            Some(gate) => gate.spec_name() == name,
            None => forall|gate: BuiltinGate| #[trigger] gate.spec_name() != name,
        },
        forall|gate: BuiltinGate| builtin_lookup(#[trigger] gate.spec_name()) == Some(gate),
{
    assert forall|gate: BuiltinGate| builtin_lookup(#[trigger] gate.spec_name()) == Some(gate) by {
        lemma_names_differ(gate, builtin_lookup(gate.spec_name())->0);
    }
}

/// No two gates share a canonical name.
pub proof fn lemma_names_differ(first: BuiltinGate, second: BuiltinGate)
    ensures
        first.spec_name() == second.spec_name() ==> first == second,
{
    reveal_canonical_names();
}

/// Every gate stands in the table.
pub proof fn lemma_table_is_complete(gate: BuiltinGate)
    ensures
        exists|k: int| 0 <= k < gate_table().len() && #[trigger] gate_table()[k] == gate,
{
    let k: int = match gate {
        BuiltinGate::U1 => 0,
        BuiltinGate::U2 => 1,
        BuiltinGate::U3 => 2,
        BuiltinGate::X => 3,
        BuiltinGate::Y => 4,
        BuiltinGate::Z => 5,
        BuiltinGate::T => 6,
        BuiltinGate::Tdg => 7,
        BuiltinGate::S => 8,
        BuiltinGate::Sdg => 9,
        BuiltinGate::Swap => 10,
        BuiltinGate::Rx => 11,
        BuiltinGate::Ry => 12,
        BuiltinGate::Rz => 13,
        BuiltinGate::Rzz => 14,
        BuiltinGate::Id => 15,
        BuiltinGate::H => 16,
        BuiltinGate::Cx => 17,
        BuiltinGate::Cy => 18,
        BuiltinGate::Cz => 19,
        BuiltinGate::Ch => 20,
        BuiltinGate::Crz => 21,
        BuiltinGate::Cu1 => 22,
        BuiltinGate::Cu3 => 23,
        BuiltinGate::Ccx => 24,
        BuiltinGate::Cswap => 25,
    };
    assert(gate_table()[k] == gate);
}

/// The lengths and characters of the canonical names.
proof fn reveal_canonical_names()
    ensures
        "u1"@.len() == 2,
        "u1"@[0] == 'u',
        "u1"@[1] == '1',
        "u2"@.len() == 2,
        "u2"@[0] == 'u',
        "u2"@[1] == '2',
        "u3"@.len() == 2,
        "u3"@[0] == 'u',
        "u3"@[1] == '3',
        "x"@.len() == 1,
        "x"@[0] == 'x',
        "y"@.len() == 1,
        "y"@[0] == 'y',
        "z"@.len() == 1,
        "z"@[0] == 'z',
        "t"@.len() == 1,
        "t"@[0] == 't',
        "tdg"@.len() == 3,
        "tdg"@[0] == 't',
        "tdg"@[1] == 'd',
        "tdg"@[2] == 'g',
        "s"@.len() == 1,
        "s"@[0] == 's',
        "sdg"@.len() == 3,
        "sdg"@[0] == 's',
        "sdg"@[1] == 'd',
        "sdg"@[2] == 'g',
        "swap"@.len() == 4,
        "swap"@[0] == 's',
        "swap"@[1] == 'w',
        "swap"@[2] == 'a',
        "swap"@[3] == 'p',
        "rx"@.len() == 2,
        "rx"@[0] == 'r',
        "rx"@[1] == 'x',
        "ry"@.len() == 2,
        "ry"@[0] == 'r',
        "ry"@[1] == 'y',
        "rz"@.len() == 2,
        "rz"@[0] == 'r',
        "rz"@[1] == 'z',
        "rzz"@.len() == 3,
        "rzz"@[0] == 'r',
        "rzz"@[1] == 'z',
        "rzz"@[2] == 'z',
        "id"@.len() == 2,
        "id"@[0] == 'i',
        "id"@[1] == 'd',
        "h"@.len() == 1,
        "h"@[0] == 'h',
        "cx"@.len() == 2,
        "cx"@[0] == 'c',
        "cx"@[1] == 'x',
        "cy"@.len() == 2,
        "cy"@[0] == 'c',
        "cy"@[1] == 'y',
        "cz"@.len() == 2,
        "cz"@[0] == 'c',
        "cz"@[1] == 'z',
        "ch"@.len() == 2,
        "ch"@[0] == 'c',
        "ch"@[1] == 'h',
        "crz"@.len() == 3,
        "crz"@[0] == 'c',
        "crz"@[1] == 'r',
        "crz"@[2] == 'z',
        "cu1"@.len() == 3,
        "cu1"@[0] == 'c',
        "cu1"@[1] == 'u',
        "cu1"@[2] == '1',
        "cu3"@.len() == 3,
        "cu3"@[0] == 'c',
        "cu3"@[1] == 'u',
        "cu3"@[2] == '3',
        "ccx"@.len() == 3,
        "ccx"@[0] == 'c',
        "ccx"@[1] == 'c',
        "ccx"@[2] == 'x',
        "cswap"@.len() == 5,
        "cswap"@[0] == 'c',
        "cswap"@[1] == 's',
        "cswap"@[2] == 'w',
        "cswap"@[3] == 'a',
        "cswap"@[4] == 'p',
{
    reveal_strlit("u1");
    reveal_strlit("u2");
    reveal_strlit("u3");
    reveal_strlit("x");
    reveal_strlit("y");
    reveal_strlit("z");
    reveal_strlit("t");
    reveal_strlit("tdg");
    reveal_strlit("s");
    reveal_strlit("sdg");
    reveal_strlit("swap");
    reveal_strlit("rx");
    reveal_strlit("ry");
    reveal_strlit("rz");
    reveal_strlit("rzz");
    reveal_strlit("id");
    reveal_strlit("h");
    reveal_strlit("cx");
    reveal_strlit("cy");
    reveal_strlit("cz");
    reveal_strlit("ch");
    reveal_strlit("crz");
    reveal_strlit("cu1");
    reveal_strlit("cu3");
    reveal_strlit("ccx");
    reveal_strlit("cswap");
}

/// The latest template of a name is found under that name.
pub proof fn lemma_find_template(templates: Seq<GateTemplateView>, name: Seq<char>)
    ensures
        match find_template(templates, name) {
            Some(i) => 0 <= i < templates.len() && templates[i].name == name,
            None => forall|i: int| 0 <= i < templates.len() ==> templates[i].name != name,
        },
    decreases templates.len(),
{
    if templates.len() > 0 && templates.last().name != name {
        lemma_find_template(templates.drop_last(), name);
        assert(forall|i: int|
            0 <= i < templates.len() - 1 ==> templates.drop_last()[i] == templates[i]);
    }
}

/// The names that a program defines are case-sensitive. A gate that was
/// just defined is applied under its name as written, capital letters
/// included, unless the name in lower case is that of a built-in gate; a
/// name that differs from every defined name, if only in the case of a
/// letter, finds none of them.
pub proof fn lemma_defined_names(
    templates: Seq<GateTemplateView>,
    defined: GateTemplateView,
    name: Seq<char>,
)
    requires
        builtin_lookup(ascii_lowercase(name)) is None,
    ensures
        defined.name == name ==> resolve_gate(name, templates.push(defined)) == Some(
            GateRef::Custom(templates.len() as usize),
        ),
        (forall|i: int| 0 <= i < templates.len() ==> templates[i].name != name) ==> resolve_gate(
            name,
            templates,
        ) == (if name == "U"@ {
            Some(GateRef::BuiltIn(BuiltinGate::U3))
        } else {
            None
        }),
{
    lemma_find_template(templates, name);
}

} // verus!
