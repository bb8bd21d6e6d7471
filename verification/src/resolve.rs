//! The reference resolver: from an operand of a statement to the bit handles
//! it stands for.
use crate::ast::operand_views;
use crate::ast::Operand;
use crate::circuit::are_bits_of;
use crate::circuit::in_reach;
use crate::circuit::register_views;
use crate::circuit::Bit;
use crate::circuit::Register;
use crate::circuit::RegisterKind;
use crate::circuit::RegisterView;
use crate::error::LoweringError;
use crate::symbols::find_register;
use crate::symbols::lemma_find_register;
use crate::symbols::lookup_register;
use crate::text::same_text;
use vstd::prelude::*;

verus! {

/// The handles of all bits of the register at position `register`, which has
/// `size` bits, in the order of the bits.
pub open spec fn register_bits(register: int, size: nat) -> Seq<Bit> {
    Seq::new(size, |i: int| Bit { register: register as usize, index: i as usize })
}

/// What one operand stands for among the registers `regs` of the given kind.
///
/// A whole register stands for all of its bits in order; an indexed operand
/// for the one bit at that index. A name that is not declared, or an index
/// outside the register, is an `UndefinedQubit` failure.
pub open spec fn resolve_argument(regs: Seq<RegisterView>, kind: RegisterKind, arg: Operand)
    -> Result<Seq<Bit>, LoweringError> {
    match find_register(regs, kind, arg.spec_name()) {
        None => Err(LoweringError::UndefinedQubit),
        Some(r) => match arg {
            Operand::Register(_) => Ok(register_bits(r, regs[r].size)),
            Operand::Qubit(_, index) => if 0 <= index < regs[r].size {
                Ok(seq![Bit { register: r as usize, index: index as usize }])
            } else {
                Err(LoweringError::UndefinedQubit)
            },
        },
    }
}

/// What the first `n` operands of `args` stand for, one after the other. The
/// first operand that fails to resolve decides the failure.
pub open spec fn resolve_prefix(
    regs: Seq<RegisterView>,
    kind: RegisterKind,
    args: Seq<Operand>,
    n: nat,
) -> Result<Seq<Bit>, LoweringError>
    decreases n,
{
    if n == 0 {
        Ok(Seq::empty())
    } else {
        match resolve_prefix(regs, kind, args, (n - 1) as nat) {
            Err(e) => Err(e),
            Ok(bits) => match resolve_argument(regs, kind, args[n - 1]) {
                Err(e) => Err(e),
                Ok(more) => Ok(bits + more),
            },
        }
    }
}

/// What a whole operand list stands for.
pub open spec fn resolve_arguments(regs: Seq<RegisterView>, kind: RegisterKind, args: Seq<Operand>)
    -> Result<Seq<Bit>, LoweringError> {
    resolve_prefix(regs, kind, args, args.len())
}

/// Materialises the handles of all bits of one register.
pub fn materialize(register: usize, size: usize) -> (bits: Vec<Bit>)
    ensures
        bits@ == register_bits(register as int, size as nat),
{
    let mut bits: Vec<Bit> = Vec::new();
    let mut i: usize = 0;
    while i < size
        invariant
            i <= size,
            bits.len() == i,
            forall|k: int| 0 <= k < i ==> bits@[k] == (Bit { register, index: k as usize }),
        decreases size - i,
    {
        bits.push(Bit { register, index: i });
        i += 1;
    }
    assert(bits@ =~= register_bits(register as int, size as nat));
    bits
}

/// Resolves one operand: see [`resolve_argument`].
pub fn resolve_one(regs: &Vec<Register>, kind: RegisterKind, arg: &Operand) -> (r: Result<
    Vec<Bit>,
    LoweringError,
>)
    ensures
        match r {
            Ok(bits) => resolve_argument(register_views(regs@), kind, *arg) == Ok::<
                Seq<Bit>,
                LoweringError,
            >(bits@),
            Err(e) => resolve_argument(register_views(regs@), kind, *arg) == Err::<
                Seq<Bit>,
                LoweringError,
            >(e),
        },
{
    match lookup_register(regs, kind, arg.name().as_str()) {
        None => Err(LoweringError::UndefinedQubit),
        Some(r) => match arg {
            Operand::Register(_) => Ok(materialize(r, regs[r].size)),
            Operand::Qubit(_, index) => {
                if 0 <= *index && (*index as usize) < regs[r].size {
                    let mut bits: Vec<Bit> = Vec::new();
                    bits.push(Bit { register: r, index: *index as usize });
                    assert(bits@ =~= seq![Bit { register: r, index: *index as usize }]);
                    Ok(bits)
                } else {
                    Err(LoweringError::UndefinedQubit)
                }
            },
        },
    }
}

/// The materialised bits of one register, remembered under the register's
/// name while the operands of one statement are resolved.
pub struct RegisterSnapshot {
    pub name: String,
    pub bits: Vec<Bit>,
}

/// The snapshots taken so far for one statement. A register enters on the
/// first indexed access to it and is reused by later indexed accesses.
pub struct SnapshotCache {
    pub entries: Vec<RegisterSnapshot>,
}

impl SnapshotCache {
    /// Every snapshot holds exactly the bits of the register that its name
    /// resolves to among `regs`.
    pub open spec fn agrees_with(self, regs: Seq<RegisterView>, kind: RegisterKind) -> bool {
        forall|k: int|
            0 <= k < self.entries.len() ==> match find_register(
                regs,
                kind,
                (#[trigger] self.entries[k]).name@,
            ) {
                Some(r) => self.entries[k].bits@ == register_bits(r, regs[r].size),
                None => false,
            }
    }

    /// A cache with no snapshot in it.
    pub fn new() -> (c: SnapshotCache)
        ensures
            c.entries.len() == 0,
    {
        SnapshotCache { entries: Vec::new() }
    }

    /// Whether a snapshot of the register called `name` was taken.
    pub open spec fn holds(self, name: Seq<char>) -> bool {
        exists|k: int| 0 <= k < self.entries.len() && (#[trigger] self.entries[k]).name@ == name
    }

    /// The position of the snapshot of the register called `name`, if one was
    /// taken.
    pub fn position(&self, name: &str) -> (r: Option<usize>)
        ensures
            match r {
                Some(k) => k < self.entries.len() && self.entries[k as int].name@ == name@,
                None => !self.holds(name@),
            },
            r is Some <==> self.holds(name@),
    {
        let mut k: usize = 0;
        while k < self.entries.len()
            invariant
                k <= self.entries.len(),
                forall|j: int| 0 <= j < k ==> self.entries[j].name@ != name@,
            decreases self.entries.len() - k,
        {
            if same_text(self.entries[k].name.as_str(), name) {
                return Some(k);
            }
            k += 1;
        }
        None
    }

    /// Resolves one operand like [`resolve_one`], serving an indexed operand
    /// from the snapshot of its register and taking that snapshot first if
    /// there is none yet.
    pub fn resolve(&mut self, regs: &Vec<Register>, kind: RegisterKind, arg: &Operand) -> (r:
        Result<Vec<Bit>, LoweringError>)
        requires
            old(self).agrees_with(register_views(regs@), kind),
        ensures
            final(self).agrees_with(register_views(regs@), kind),
            match *arg {
                Operand::Qubit(name, _) => match find_register(
                    register_views(regs@),
                    kind,
                    name@,
                ) {
                    Some(r) => if old(self).holds(name@) {
                        final(self).entries@ == old(self).entries@
                    } else {
                        &&& final(self).entries@.len() == old(self).entries@.len() + 1
                        &&& final(self).entries@.drop_last() == old(self).entries@
                        &&& final(self).entries@.last().name@ == name@
                        &&& final(self).entries@.last().bits@ == register_bits(
                            r,
                            regs@[r].size as nat,
                        )
                    },
                    None => final(self).entries@ == old(self).entries@,
                },
                Operand::Register(_) => final(self).entries@ == old(self).entries@,
            },
            match r {
                Ok(bits) => resolve_argument(register_views(regs@), kind, *arg) == Ok::<
                    Seq<Bit>,
                    LoweringError,
                >(bits@),
                Err(e) => resolve_argument(register_views(regs@), kind, *arg) == Err::<
                    Seq<Bit>,
                    LoweringError,
                >(e),
            },
    {
        let ghost views = register_views(regs@);
        match arg {
            Operand::Register(_) => resolve_one(regs, kind, arg),
            Operand::Qubit(name, index) => {
                proof {
                    lemma_find_register(views, kind, name@);
                }
                match self.position(name.as_str()) {
                    Some(k) => {
                        let bits = &self.entries[k].bits;
                        assert(find_register(views, kind, self.entries[k as int].name@) is Some);
                        if 0 <= *index && (*index as usize) < bits.len() {
                            let mut out: Vec<Bit> = Vec::new();
                            out.push(bits[*index as usize]);
                            assert(out@ =~= seq![bits@[*index as int]]);
                            Ok(out)
                        } else {
                            Err(LoweringError::UndefinedQubit)
                        }
                    },
                    None => match lookup_register(regs, kind, name.as_str()) {
                        None => Err(LoweringError::UndefinedQubit),
                        Some(r) => {
                            let bits = materialize(r, regs[r].size);
                            let picked = if 0 <= *index && (*index as usize) < bits.len() {
                                let mut out: Vec<Bit> = Vec::new();
                                out.push(bits[*index as usize]);
                                assert(out@ =~= seq![bits@[*index as int]]);
                                Ok(out)
                            } else {
                                Err(LoweringError::UndefinedQubit)
                            };
                            let ghost before = self.entries@;
                            self.entries.push(RegisterSnapshot { name: name.clone(), bits });
                            assert(forall|j: int|
                                0 <= j < before.len() ==> self.entries@[j] == before[j]);
                            assert(self.entries@.drop_last() =~= before);
                            picked
                        },
                    },
                }
            },
        }
    }
}

/// Resolves the operands of one statement, in order: see
/// [`resolve_arguments`]. Indexed operands share one [`SnapshotCache`], which
/// lives for this statement only.
pub fn resolve_all(regs: &Vec<Register>, kind: RegisterKind, args: &Vec<Operand>) -> (r: Result<
    Vec<Bit>,
    LoweringError,
>)
    ensures
        match r {
            Ok(bits) => resolve_arguments(register_views(regs@), kind, args@) == Ok::<
                Seq<Bit>,
                LoweringError,
            >(bits@),
            Err(e) => resolve_arguments(register_views(regs@), kind, args@) == Err::<
                Seq<Bit>,
                LoweringError,
            >(e),
        },
{
    let mut cache = SnapshotCache::new();
    let mut out: Vec<Bit> = Vec::new();
    let mut i: usize = 0;
    while i < args.len()
        invariant
            i <= args.len(),
            cache.agrees_with(register_views(regs@), kind),
            resolve_prefix(register_views(regs@), kind, args@, i as nat) == Ok::<
                Seq<Bit>,
                LoweringError,
            >(out@),
        decreases args.len() - i,
    {
        match cache.resolve(regs, kind, &args[i]) {
            Err(e) => {
                proof {
                    lemma_prefix_failure(register_views(regs@), kind, args@, i as nat + 1, args.len() as nat);
                }
                return Err(e);
            },
            Ok(mut more) => {
                let ghost before = out@;
                let ghost added = more@;
                out.append(&mut more);
                assert(out@ == before + added);
            },
        }
        i += 1;
    }
    Ok(out)
}

/// Once a prefix of the operands fails to resolve, every longer prefix fails
/// in the same way.
pub proof fn lemma_prefix_failure(
    regs: Seq<RegisterView>,
    kind: RegisterKind,
    args: Seq<Operand>,
    n: nat,
    m: nat,
)
    requires
        n <= m,
        resolve_prefix(regs, kind, args, n) is Err,
    ensures
        resolve_prefix(regs, kind, args, m) == resolve_prefix(regs, kind, args, n),
    decreases m,
{
    if n < m {
        lemma_prefix_failure(regs, kind, args, n, (m - 1) as nat);
    }
}

/// A register declared with `size` bits resolves as declared. While no later
/// register of its kind takes its name, the bare register stands for exactly
/// `size` handles, the bits of the register in order; an index from 0 up to
/// but excluding `size` stands for the handle at that place among them; any
/// other index fails to resolve.
pub proof fn lemma_declared_register_resolves(
    regs: Seq<RegisterView>,
    kind: RegisterKind,
    name: String,
    size: nat,
    index: i32,
)
    ensures
        ({
            let declared = regs.push(RegisterView { kind, name: name@, size });
            let whole = resolve_argument(declared, kind, Operand::Register(name));
            let one = resolve_argument(declared, kind, Operand::Qubit(name, index));
            &&& whole == Ok::<Seq<Bit>, LoweringError>(register_bits(regs.len() as int, size))
            &&& whole->Ok_0.len() == size
            &&& 0 <= index < size ==> one == Ok::<Seq<Bit>, LoweringError>(
                seq![whole->Ok_0[index as int]],
            )
            &&& !(0 <= index < size) ==> one == Err::<Seq<Bit>, LoweringError>(
                LoweringError::UndefinedQubit,
            )
        }),
{
    let declared = regs.push(RegisterView { kind, name: name@, size });
    assert(declared.last().kind == kind && declared.last().name == name@);
    assert(find_register(declared, kind, name@) == Some(regs.len() as int));
    if 0 <= index < size {
        assert(register_bits(regs.len() as int, size)[index as int] == Bit {
            register: regs.len() as usize,
            index: index as usize,
        });
    }
}

/// Resolution is stable under later declarations of other names: a register
/// that was found is still found, at the same place, after a register of
/// another name or kind is declared.
pub proof fn lemma_resolution_is_stable(
    regs: Seq<RegisterView>,
    kind: RegisterKind,
    arg: Operand,
    later: RegisterView,
)
    requires
        !(later.kind == kind && later.name == arg.spec_name()),
    ensures
        resolve_argument(regs.push(later), kind, arg) == resolve_argument(regs, kind, arg),
{
    let declared = regs.push(later);
    assert(declared.drop_last() =~= regs);
    lemma_find_register(regs, kind, arg.spec_name());
}

/// Resolution fails in one way only: with `UndefinedQubit`.
pub proof fn lemma_resolution_failure(
    regs: Seq<RegisterView>,
    kind: RegisterKind,
    args: Seq<Operand>,
    n: nat,
)
    ensures
        resolve_prefix(regs, kind, args, n) is Err ==> resolve_prefix(regs, kind, args, n)->Err_0
            == LoweringError::UndefinedQubit,
    decreases n,
{
    if n > 0 {
        lemma_resolution_failure(regs, kind, args, (n - 1) as nat);
    }
}

/// Resolution reads an operand by what it stands for: two operands with the
/// same view resolve alike.
pub proof fn lemma_resolve_reads_view(
    regs: Seq<RegisterView>,
    kind: RegisterKind,
    a: Operand,
    b: Operand,
)
    requires
        a@ == b@,
    ensures
        resolve_argument(regs, kind, a) == resolve_argument(regs, kind, b),
{
}

/// Two operand lists with the same views resolve alike.
pub proof fn lemma_resolve_reads_views(
    regs: Seq<RegisterView>,
    kind: RegisterKind,
    a: Seq<Operand>,
    b: Seq<Operand>,
    n: nat,
)
    requires
        operand_views(a) == operand_views(b),
        n <= a.len(),
    ensures
        a.len() == b.len(),
        resolve_prefix(regs, kind, a, n) == resolve_prefix(regs, kind, b, n),
    decreases n,
{
    assert(operand_views(a).len() == a.len());
    assert(operand_views(b).len() == b.len());
    if n > 0 {
        lemma_resolve_reads_views(regs, kind, a, b, (n - 1) as nat);
        assert(operand_views(a)[n - 1] == a[n - 1]@);
        assert(operand_views(b)[n - 1] == b[n - 1]@);
        lemma_resolve_reads_view(regs, kind, a[n - 1], b[n - 1]);
    }
}

/// What an operand resolves to are bits of the registers, of the kind asked
/// for.
pub proof fn lemma_resolved_bits(regs: Seq<RegisterView>, kind: RegisterKind, arg: Operand)
    requires
        in_reach(regs),
    ensures
        match resolve_argument(regs, kind, arg) {
            Ok(bits) => are_bits_of(regs, bits, kind),
            Err(_) => true,
        },
{
    lemma_find_register(regs, kind, arg.spec_name());
}

/// What a list of operands resolves to are bits of the registers, of the
/// kind asked for.
pub proof fn lemma_resolved_prefix(
    regs: Seq<RegisterView>,
    kind: RegisterKind,
    args: Seq<Operand>,
    n: nat,
)
    requires
        in_reach(regs),
    ensures
        match resolve_prefix(regs, kind, args, n) {
            Ok(bits) => are_bits_of(regs, bits, kind),
            Err(_) => true,
        },
    decreases n,
{
    if n > 0 {
        lemma_resolved_prefix(regs, kind, args, (n - 1) as nat);
        lemma_resolved_bits(regs, kind, args[n - 1]);
    }
}

} // verus!
