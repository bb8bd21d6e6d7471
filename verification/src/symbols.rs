//! The symbol table: the registers of a program, found by kind and name, and
//! the formal qubits of a gate definition, found by name.
use crate::circuit::register_views;
use crate::circuit::Register;
use crate::circuit::RegisterKind;
use crate::circuit::RegisterView;
use crate::error::LoweringError;
use crate::text::same_text;
use crate::text::texts;
use vstd::prelude::*;

verus! {

/// The position of the latest register of the given kind and name, if any.
/// Registers of one kind share one flat namespace, and a later declaration of
/// a name replaces an earlier one.
pub open spec fn find_register(regs: Seq<RegisterView>, kind: RegisterKind, name: Seq<char>)
    -> Option<int>
    decreases regs.len(),
{
    if regs.len() == 0 {
        None
    } else if regs.last().kind == kind && regs.last().name == name {
        Some(regs.len() - 1)
    } else {
        find_register(regs.drop_last(), kind, name)
    }
}

/// A register that was found stands in the table, under the kind and name
/// asked for.
pub proof fn lemma_find_register(regs: Seq<RegisterView>, kind: RegisterKind, name: Seq<char>)
    ensures
        match find_register(regs, kind, name) {
            Some(i) => 0 <= i < regs.len() && regs[i].kind == kind && regs[i].name == name,
            None => forall|i: int| 0 <= i < regs.len() ==> !(regs[i].kind == kind && regs[i].name == name),
        },
    decreases regs.len(),
{
    if regs.len() > 0 && !(regs.last().kind == kind && regs.last().name == name) {
        lemma_find_register(regs.drop_last(), kind, name);
        assert(forall|i: int| 0 <= i < regs.len() - 1 ==> regs.drop_last()[i] == regs[i]);
    }
}

/// Finds the latest register of the given kind and name.
pub fn lookup_register(regs: &Vec<Register>, kind: RegisterKind, name: &str) -> (r: Option<usize>)
    ensures
        match r {
            Some(i) => find_register(register_views(regs@), kind, name@) == Some(i as int) && i
                < regs.len(),
            None => find_register(register_views(regs@), kind, name@) is None,
        },
{
    let ghost all = register_views(regs@);
    let mut i: usize = regs.len();
    assert(all.take(i as int) =~= all);
    while i > 0
        invariant
            i <= regs.len(),
            all == register_views(regs@),
            find_register(all, kind, name@) == find_register(all.take(i as int), kind, name@),
        decreases i,
    {
        proof {
            assert(all.take(i as int).drop_last() =~= all.take(i as int - 1));
        }
        if regs[i - 1].kind == kind && same_text(regs[i - 1].name.as_str(), name) {
            return Some(i - 1);
        }
        i -= 1;
    }
    proof {
        assert(all.take(0).len() == 0);
    }
    None
}

/// The position that the formal qubit `name` has in `scope`, if it is there.
/// Where a name is listed twice, the later position counts.
pub open spec fn find_position(scope: Seq<Seq<char>>, name: Seq<char>) -> Option<int>
    decreases scope.len(),
{
    if scope.len() == 0 {
        None
    } else if scope.last() == name {
        Some(scope.len() - 1)
    } else {
        find_position(scope.drop_last(), name)
    }
}

/// A position that was found lies in the scope and holds the name.
pub proof fn lemma_find_position(scope: Seq<Seq<char>>, name: Seq<char>)
    ensures
        match find_position(scope, name) {
            Some(i) => 0 <= i < scope.len() && scope[i] == name,
            None => forall|i: int| 0 <= i < scope.len() ==> scope[i] != name,
        },
    decreases scope.len(),
{
    if scope.len() > 0 && scope.last() != name {
        lemma_find_position(scope.drop_last(), name);
        assert(forall|i: int| 0 <= i < scope.len() - 1 ==> scope.drop_last()[i] == scope[i]);
    }
}

/// Finds the position of a formal qubit in the scope of a gate definition.
pub fn lookup_position(scope: &Vec<String>, name: &str) -> (r: Option<usize>)
    ensures
        match r {
            Some(i) => find_position(texts(scope@), name@) == Some(i as int) && i < scope.len(),
            None => find_position(texts(scope@), name@) is None,
        },
{
    let ghost all = texts(scope@);
    let mut i: usize = scope.len();
    assert(all.take(i as int) =~= all);
    while i > 0
        invariant
            i <= scope.len(),
            all == texts(scope@),
            find_position(all, name@) == find_position(all.take(i as int), name@),
        decreases i,
    {
        proof {
            assert(all.take(i as int).drop_last() =~= all.take(i as int - 1));
        }
        if same_text(scope[i - 1].as_str(), name) {
            return Some(i - 1);
        }
        i -= 1;
    }
    proof {
        assert(all.take(0).len() == 0);
    }
    None
}

/// The positions of `names` in `scope`, in order, provided that every one of
/// them is defined there.
pub open spec fn positions_of(scope: Seq<Seq<char>>, names: Seq<Seq<char>>) -> Option<Seq<usize>> {
    if forall|i: int| 0 <= i < names.len() ==> find_position(scope, #[trigger] names[i]) is Some {
        Some(Seq::new(names.len(), |i: int| find_position(scope, names[i])->0 as usize))
    } else {
        None
    }
}

/// Turns the qubit names used by one gate application inside a gate body into
/// positions among the formal qubits `scope` of the definition. Fails with
/// `UndefinedQubit` as soon as a name is not a formal qubit.
pub fn generate_qubit_list(scope: &Vec<String>, qubits: &Vec<String>) -> (r: Result<
    Vec<usize>,
    LoweringError,
>)
    ensures
        match r {
            Ok(v) => positions_of(texts(scope@), texts(qubits@)) == Some(v@),
            Err(e) => e == LoweringError::UndefinedQubit && positions_of(
                texts(scope@),
                texts(qubits@),
            ) is None,
        },
{
    let mut out: Vec<usize> = Vec::new();
    let mut i: usize = 0;
    while i < qubits.len()
        invariant
            i <= qubits.len(),
            out.len() == i,
            forall|k: int|
                0 <= k < i ==> find_position(texts(scope@), #[trigger] texts(qubits@)[k]) == Some(
                    out@[k] as int,
                ),
        decreases qubits.len() - i,
    {
        match lookup_position(scope, qubits[i].as_str()) {
            Some(p) => {
                assert(texts(qubits@)[i as int] == qubits@[i as int]@);
                out.push(p);
            },
            None => {
                assert(texts(qubits@)[i as int] == qubits@[i as int]@);
                return Err(LoweringError::UndefinedQubit);
            },
        }
        i += 1;
    }
    assert(positions_of(texts(scope@), texts(qubits@))->0 =~= out@);
    Ok(out)
}

} // verus!
