//! Affine memory accesses of a loop and the dependences between them.

use crate::dependence::{
    classification, classify, never_meet, AccessKind, AffineAccess, Dependence,
};
use crate::ir::{BlockId, Function, Opcode, ScalarType, ValueId, ValueKind};
use crate::operations::{is_memory_element, is_supported_memory_type};
use crate::rejection::{
    first_rejection, lemma_first_rejection_err, lemma_first_rejection_ok, Rejection,
};
use vstd::prelude::*;

verus! {

/// An index of the form `induction + offset`.
#[derive(Clone, Copy, Debug, PartialEq, Eq, Structural)]
pub struct AffineIndex {
    pub offset: i64,
    /// The instruction that adds the offset, if there is one.
    pub node: Option<ValueId>,
}

/// An address `base[induction + offset]`.
#[derive(Clone, Copy, Debug, PartialEq, Eq, Structural)]
pub struct Address {
    pub base: ValueId,
    pub index: AffineIndex,
    pub element_type: ScalarType,
}

/// A load or store of `base[induction + offset]`.
#[derive(Clone, Copy, Debug, PartialEq, Eq, Structural)]
pub struct MemoryAccess {
    pub base: ValueId,
    pub offset: i64,
    pub kind: AccessKind,
    pub element_type: ScalarType,
}

/// Index `v` as an affine function of the induction: `i`, `i + c`, `c + i` or
/// `i - c`.
pub open spec fn affine_index(f: Function, v: ValueId, induction: ValueId) -> Result<
    AffineIndex,
    Rejection,
> {
    let left = f.operand(v, 0);
    let right = f.operand(v, 1);
    if v == induction {
        Ok(AffineIndex { offset: 0, node: None })
    } else if f.is_op(v, Opcode::Add) && left == induction {
        match f.signed_constant(right) {
            Some(c) => Ok(AffineIndex { offset: c, node: Some(v) }),
            None => Err(Rejection::NonConstantAffineOffset),
        }
    } else if f.is_op(v, Opcode::Sub) && left == induction {
        match f.signed_constant(right) {
            Some(c) => if c == i64::MIN {
                Err(Rejection::AffineOffsetOverflow)
            } else {
                Ok(AffineIndex { offset: (-c) as i64, node: Some(v) })
            },
            None => Err(Rejection::NonConstantAffineOffset),
        }
    } else if f.is_op(v, Opcode::Add) && right == induction {
        match f.signed_constant(left) {
            Some(c) => Ok(AffineIndex { offset: c, node: Some(v) }),
            None => Err(Rejection::NonConstantAffineOffset),
        }
    } else {
        Err(Rejection::NonAffineIndex)
    }
}

/// Reads an index as an affine function of the induction.
pub fn parse_affine_index(f: &Function, v: ValueId, induction: ValueId) -> (result: Result<
    AffineIndex,
    Rejection,
>)
    requires
        f.wf(),
        f.has_value(v),
    ensures
        result == affine_index(*f, v, induction),
{
    if v == induction {
        return Ok(AffineIndex { offset: 0, node: None });
    }
    assert(f.value_is_valid(v));
    let inst = match f.instruction(v) {
        Some(inst) => inst,
        None => return Err(Rejection::NonAffineIndex),
    };
    if inst.opcode != Opcode::Add && inst.opcode != Opcode::Sub {
        return Err(Rejection::NonAffineIndex);
    }
    let left: ValueId = inst.operands[0];
    let right: ValueId = inst.operands[1];
    assert(f.has_value(f.inst(v).operands@[0]) && f.has_value(f.inst(v).operands@[1]));
    if left == induction {
        let constant: i64 = match f.constant_signed(right) {
            Some(constant) => constant,
            None => return Err(Rejection::NonConstantAffineOffset),
        };
        if inst.opcode == Opcode::Sub {
            if constant == i64::MIN {
                return Err(Rejection::AffineOffsetOverflow);
            }
            return Ok(AffineIndex { offset: -constant, node: Some(v) });
        }
        return Ok(AffineIndex { offset: constant, node: Some(v) });
    }
    if inst.opcode == Opcode::Add && right == induction {
        return match f.constant_signed(left) {
            Some(constant) => Ok(AffineIndex { offset: constant, node: Some(v) }),
            None => Err(Rejection::NonConstantAffineOffset),
        };
    }
    Err(Rejection::NonAffineIndex)
}

/// `v` is an object with a clear identity: an argument or a global variable.
pub open spec fn is_object(f: Function, v: ValueId) -> bool {
    f.values@[v as int].kind is Argument || f.values@[v as int].kind is GlobalVariable
}

/// Address computation `v` as a loop address, or why it is none: one affine
/// index off a loop-invariant object, with a supported element type.
pub open spec fn loop_address(
    f: Function,
    v: ValueId,
    induction: ValueId,
    header: BlockId,
) -> Result<Address, Rejection> {
    let base = f.operand(v, 0);
    let element_type = f.inst(v).element_type;
    if f.inst(v).operands@.len() != 2 {
        Err(Rejection::GepMustHaveOneIndex)
    } else if f.in_block(base, header) {
        Err(Rejection::PointerBaseNotLoopInvariant)
    } else if !is_object(f, base) {
        Err(Rejection::UnsupportedPointerBase)
    } else {
        match affine_index(f, f.operand(v, 1), induction) {
            Err(rejection) => Err(rejection),
            Ok(index) => if is_memory_element(element_type) {
                Ok(Address { base, index, element_type })
            } else {
                Err(Rejection::UnsupportedMemoryElementType)
            },
        }
    }
}

/// Reads an address computation as a loop address.
pub fn analyze_gep(
    f: &Function,
    v: ValueId,
    induction: ValueId,
    header: BlockId,
) -> (result: Result<Address, Rejection>)
    requires
        f.wf(),
        f.has_value(v),
        f.is_op(v, Opcode::GetElementPtr),
    ensures
        result == loop_address(*f, v, induction, header),
        result matches Ok(address) ==> f.has_value(address.base) && (
        address.index.node matches Some(node) ==> f.has_value(node)),
{
    assert(f.value_is_valid(v));
    let inst = match f.instruction(v) {
        Some(inst) => inst,
        None => return Err(Rejection::GepMustHaveOneIndex),
    };
    if inst.operands.len() != 2 {
        return Err(Rejection::GepMustHaveOneIndex);
    }
    let base: ValueId = inst.operands[0];
    assert(f.has_value(f.inst(v).operands@[0]) && f.has_value(f.inst(v).operands@[1]));
    if !f.is_loop_invariant(base, header) {
        return Err(Rejection::PointerBaseNotLoopInvariant);
    }
    match f.values[base].kind {
        ValueKind::Argument | ValueKind::GlobalVariable => {},
        _ => return Err(Rejection::UnsupportedPointerBase),
    }
    let index: AffineIndex = match parse_affine_index(f, inst.operands[1], induction) {
        Ok(index) => index,
        Err(rejection) => return Err(rejection),
    };
    if !is_supported_memory_type(inst.element_type) {
        return Err(Rejection::UnsupportedMemoryElementType);
    }
    Ok(Address { base, index, element_type: inst.element_type })
}

/// `user` accesses memory through pointer `v` inside the loop.
pub open spec fn is_memory_use(f: Function, v: ValueId, user: ValueId, header: BlockId) -> bool {
    &&& f.in_block(user, header)
    &&& {
        ||| f.is_op(user, Opcode::Load) && f.operand(user, 0) == v
        ||| f.is_op(user, Opcode::Store) && f.operand(user, 1) == v
    }
}

/// Whether an address serves loads and stores of the loop only.
pub open spec fn address_uses(f: Function, v: ValueId, header: BlockId) -> Result<(), Rejection> {
    let users = f.values@[v as int].users@;
    if users.len() == 0 {
        Err(Rejection::UnusedGep)
    } else if forall|k: int|
        0 <= k < users.len() ==> is_memory_use(f, v, #[trigger] users[k], header) {
        Ok(())
    } else {
        Err(Rejection::GepHasNonMemoryUse)
    }
}

/// Rejects an address that is used for anything but memory accesses.
pub fn validate_gep_uses(f: &Function, v: ValueId, header: BlockId) -> (result: Result<
    (),
    Rejection,
>)
    requires
        f.wf(),
        f.has_value(v),
    ensures
        result == address_uses(*f, v, header),
{
    assert(f.value_is_valid(v));
    let users: &Vec<ValueId> = &f.values[v].users;
    if users.len() == 0 {
        return Err(Rejection::UnusedGep);
    }
    let mut k: usize = 0;
    while k < users.len()
        invariant
            f.wf(),
            f.value_is_valid(v),
            users@ == f.values@[v as int].users@,
            users@.len() > 0,
            k <= users@.len(),
            forall|j: int| 0 <= j < k ==> is_memory_use(*f, v, #[trigger] users@[j], header),
        decreases users@.len() - k,
    {
        let user: ValueId = users[k];
        assert(f.has_value(f.values@[v as int].users@[k as int]));
        assert(f.value_is_valid(user));
        let is_pointer_operand: bool = match f.instruction(user) {
            Some(inst) => match inst.opcode {
                Opcode::Load => inst.operands[0] == v,
                Opcode::Store => inst.operands[1] == v,
                _ => false,
            },
            None => false,
        };
        if !is_pointer_operand || !f.is_in_block(user, header) {
            assert(!is_memory_use(*f, v, users@[k as int], header));
            return Err(Rejection::GepHasNonMemoryUse);
        }
        k += 1;
    }
    Ok(())
}

/// Every use of index `v` is by an address computation of the loop.
pub open spec fn feeds_addresses_only(f: Function, v: ValueId, header: BlockId) -> bool {
    forall|k: int|
        0 <= k < f.values@[v as int].users@.len() ==> f.in_block(
            #[trigger] f.values@[v as int].users@[k],
            header,
        ) && f.is_op(f.values@[v as int].users@[k], Opcode::GetElementPtr)
}

/// Rejects an index helper with a data use: helpers are not widened.
pub fn validate_address_index_uses(f: &Function, v: ValueId, header: BlockId) -> (result: Result<
    (),
    Rejection,
>)
    requires
        f.wf(),
        f.has_value(v),
    ensures
        result == (if feeds_addresses_only(*f, v, header) {
            Ok::<(), Rejection>(())
        } else {
            Err(Rejection::AffineIndexHasDataUse)
        }),
{
    assert(f.value_is_valid(v));
    let users: &Vec<ValueId> = &f.values[v].users;
    let mut k: usize = 0;
    while k < users.len()
        invariant
            f.wf(),
            f.value_is_valid(v),
            users@ == f.values@[v as int].users@,
            k <= users@.len(),
            forall|j: int|
                0 <= j < k ==> f.in_block(#[trigger] f.values@[v as int].users@[j], header)
                    && f.is_op(f.values@[v as int].users@[j], Opcode::GetElementPtr),
        decreases users@.len() - k,
    {
        assert(f.has_value(f.values@[v as int].users@[k as int]));
        if !f.is_in_block(users[k], header) || !f.has_opcode(users[k], Opcode::GetElementPtr) {
            assert(!(f.in_block(f.values@[v as int].users@[k as int], header) && f.is_op(
                f.values@[v as int].users@[k as int],
                Opcode::GetElementPtr,
            )));
            return Err(Rejection::AffineIndexHasDataUse);
        }
        k += 1;
    }
    Ok(())
}

/// Where a load or store has its pointer operand.
pub open spec fn pointer_position(opcode: Opcode) -> int {
    if opcode == Opcode::Store {
        1
    } else {
        0
    }
}

/// Load or store `v` as an access of the loop, or why it is none.
pub open spec fn memory_access(
    f: Function,
    v: ValueId,
    induction: ValueId,
    header: BlockId,
) -> Result<MemoryAccess, Rejection> {
    let inst = f.inst(v);
    let pointer = f.operand(v, pointer_position(inst.opcode));
    let accessed_type = if inst.opcode == Opcode::Load {
        f.values@[v as int].ty
    } else {
        f.values@[f.operand(v, 0) as int].ty
    };
    if inst.volatile || inst.atomic {
        Err(Rejection::VolatileOrAtomicMemory)
    } else if !f.is_op(pointer, Opcode::GetElementPtr) || !f.in_block(pointer, header) {
        Err(Rejection::MemoryPointerMustBeLoopGep)
    } else {
        match loop_address(f, pointer, induction, header) {
            Err(rejection) => Err(rejection),
            Ok(address) => if accessed_type != address.element_type {
                Err(Rejection::MixedSizeMemoryAccess)
            } else {
                Ok(
                    MemoryAccess {
                        base: address.base,
                        offset: address.index.offset,
                        kind: if inst.opcode == Opcode::Load {
                            AccessKind::Read
                        } else {
                            AccessKind::Write
                        },
                        element_type: address.element_type,
                    },
                )
            },
        }
    }
}

/// Reads a load or store as an access of the loop.
pub fn analyze_memory(
    f: &Function,
    v: ValueId,
    induction: ValueId,
    header: BlockId,
) -> (result: Result<MemoryAccess, Rejection>)
    requires
        f.wf(),
        f.has_value(v),
        f.is_op(v, Opcode::Load) || f.is_op(v, Opcode::Store),
    ensures
        result == memory_access(*f, v, induction, header),
        result matches Ok(access) ==> f.has_value(access.base),
{
    assert(f.value_is_valid(v));
    let inst = match f.instruction(v) {
        Some(inst) => inst,
        None => return Err(Rejection::MemoryPointerMustBeLoopGep),
    };
    if inst.volatile || inst.atomic {
        return Err(Rejection::VolatileOrAtomicMemory);
    }
    let is_load: bool = inst.opcode == Opcode::Load;
    let pointer: ValueId = if is_load {
        inst.operands[0]
    } else {
        inst.operands[1]
    };
    assert(f.has_value(f.inst(v).operands@[0]));
    assert(f.has_value(f.inst(v).operands@[pointer_position(inst.opcode)]));
    if !f.has_opcode(pointer, Opcode::GetElementPtr) || !f.is_in_block(pointer, header) {
        return Err(Rejection::MemoryPointerMustBeLoopGep);
    }
    let address: Address = match analyze_gep(f, pointer, induction, header) {
        Ok(address) => address,
        Err(rejection) => return Err(rejection),
    };
    let accessed_type: ScalarType = if is_load {
        f.values[v].ty
    } else {
        f.values[inst.operands[0]].ty
    };
    if accessed_type != address.element_type {
        return Err(Rejection::MixedSizeMemoryAccess);
    }
    Ok(
        MemoryAccess {
            base: address.base,
            offset: address.index.offset,
            kind: if is_load {
                AccessKind::Read
            } else {
                AccessKind::Write
            },
            element_type: address.element_type,
        },
    )
}

/// `v` is an argument of the function that is marked `noalias`.
pub open spec fn is_noalias_argument(f: Function, v: ValueId) -> bool {
    &&& f.values@[v as int].kind is Argument
    &&& exists|k: int|
        0 <= k < f.parameters@.len() && (#[trigger] f.parameters@[k]).value == v
            && f.parameters@[k].noalias && forall|j: int|
            0 <= j < k ==> (#[trigger] f.parameters@[j]).value != v
}

/// Two distinct bases never overlap: both are globals, or both are `noalias`
/// arguments.
pub open spec fn statically_disjoint(f: Function, left: ValueId, right: ValueId) -> bool {
    ||| f.values@[left as int].kind is GlobalVariable && f.values@[right as int].kind
        is GlobalVariable
    ||| is_noalias_argument(f, left) && is_noalias_argument(f, right)
}

/// Whether `v` is an argument that is marked `noalias`.
pub fn argument_is_noalias(f: &Function, v: ValueId) -> (result: bool)
    requires
        f.has_value(v),
    ensures
        result == is_noalias_argument(*f, v),
{
    match f.values[v].kind {
        ValueKind::Argument => {},
        _ => return false,
    }
    let mut k: usize = 0;
    while k < f.parameters.len()
        invariant
            k <= f.parameters@.len(),
            f.values@[v as int].kind is Argument,
            forall|j: int| 0 <= j < k ==> (#[trigger] f.parameters@[j]).value != v,
        decreases f.parameters@.len() - k,
    {
        if f.parameters[k].value == v {
            assert(f.parameters@[k as int].value == v);
            return f.parameters[k].noalias;
        }
        k += 1;
    }
    false
}

/// Whether two distinct bases never overlap.
pub fn bases_are_statically_disjoint(f: &Function, left: ValueId, right: ValueId) -> (result: bool)
    requires
        f.has_value(left),
        f.has_value(right),
    ensures
        result == statically_disjoint(*f, left, right),
{
    match (&f.values[left].kind, &f.values[right].kind) {
        (ValueKind::GlobalVariable, ValueKind::GlobalVariable) => return true,
        _ => {},
    }
    argument_is_noalias(f, left) && argument_is_noalias(f, right)
}

/// The affine access of a loop access, whose coefficient is always one.
pub open spec fn affine(access: MemoryAccess) -> AffineAccess {
    AffineAccess {
        base: access.base,
        coefficient: 1,
        offset: access.offset,
        kind: access.kind,
    }
}

/// Why a pair of accesses keeps the loop scalar, if it does.
pub open spec fn pair_rejection(f: Function, left: MemoryAccess, right: MemoryAccess) -> Option<
    Rejection,
> {
    if left.kind == AccessKind::Read && right.kind == AccessKind::Read {
        None
    } else if left.base != right.base {
        if statically_disjoint(f, left.base, right.base) {
            None
        } else {
            Some(Rejection::PossiblePointerAlias)
        }
    } else if left.element_type != right.element_type {
        Some(Rejection::MixedTypeMemoryDependence)
    } else {
        match classification(affine(left), affine(right)) {
            Dependence::Independent | Dependence::SameIteration => None,
            _ => Some(Rejection::LoopCarriedMemoryDependence),
        }
    }
}

/// The first rejection among the pairs of access `i` with the later ones.
pub open spec fn row_rejection(f: Function, accesses: Seq<MemoryAccess>, i: int) -> Option<
    Rejection,
> {
    match first_rejection(
        |d: int| pair_rejection(f, accesses[i], accesses[i + 1 + d]),
        (accesses.len() - i - 1) as nat,
    ) {
        Ok(()) => None,
        Err(rejection) => Some(rejection),
    }
}

/// Whether every pair of accesses allows lane-wise execution; the first pair,
/// in order, that does not tells the reason.
pub open spec fn dependences(f: Function, accesses: Seq<MemoryAccess>) -> Result<(), Rejection> {
    first_rejection(|i: int| row_rejection(f, accesses, i), accesses.len())
}

fn check_pair(f: &Function, left: MemoryAccess, right: MemoryAccess) -> (result: Option<Rejection>)
    requires
        f.has_value(left.base),
        f.has_value(right.base),
    ensures
        result == pair_rejection(*f, left, right),
{
    if left.kind == AccessKind::Read && right.kind == AccessKind::Read {
        return None;
    }
    if left.base != right.base {
        if bases_are_statically_disjoint(f, left.base, right.base) {
            return None;
        }
        return Some(Rejection::PossiblePointerAlias);
    }
    if left.element_type != right.element_type {
        return Some(Rejection::MixedTypeMemoryDependence);
    }
    let dependence: Dependence = classify(
        AffineAccess {
            base: left.base,
            coefficient: 1,
            offset: left.offset,
            kind: left.kind,
        },
        AffineAccess {
            base: right.base,
            coefficient: 1,
            offset: right.offset,
            kind: right.kind,
        },
    );
    match dependence {
        Dependence::Independent | Dependence::SameIteration => None,
        _ => Some(Rejection::LoopCarriedMemoryDependence),
    }
}

/// Rejects a loop with two accesses whose order lane-wise execution could
/// change.
pub fn validate_dependences(f: &Function, accesses: &Vec<MemoryAccess>) -> (result: Result<
    (),
    Rejection,
>)
    requires
        forall|k: int| 0 <= k < accesses@.len() ==> f.has_value((#[trigger] accesses@[k]).base),
    ensures
        result == dependences(*f, accesses@),
{
    let ghost rows = |i: int| row_rejection(*f, accesses@, i);
    let mut i: usize = 0;
    while i < accesses.len()
        invariant
            i <= accesses@.len(),
            rows == (|i: int| row_rejection(*f, accesses@, i)),
            forall|k: int|
                0 <= k < accesses@.len() ==> f.has_value((#[trigger] accesses@[k]).base),
            first_rejection(rows, i as nat) is Ok,
        decreases accesses@.len() - i,
    {
        let ghost row = |d: int| pair_rejection(*f, accesses@[i as int], accesses@[i + 1 + d]);
        let ghost width = (accesses@.len() - i - 1) as nat;
        let mut j: usize = i + 1;
        while j < accesses.len()
            invariant
                i < j <= accesses@.len(),
                rows == (|i: int| row_rejection(*f, accesses@, i)),
                row == (|d: int| pair_rejection(*f, accesses@[i as int], accesses@[i + 1 + d])),
                width == accesses@.len() - i - 1,
                forall|k: int|
                    0 <= k < accesses@.len() ==> f.has_value((#[trigger] accesses@[k]).base),
                first_rejection(rows, i as nat) is Ok,
                first_rejection(row, (j - i - 1) as nat) is Ok,
            decreases accesses@.len() - j,
        {
            let ghost d = (j - i - 1) as nat;
            assert(row(d as int) == pair_rejection(*f, accesses@[i as int], accesses@[j as int]));
            match check_pair(f, accesses[i], accesses[j]) {
                Some(rejection) => {
                    proof {
                        lemma_first_rejection_err(row, d, width);
                        assert(rows(i as int) == Some(rejection));
                        lemma_first_rejection_err(rows, i as nat, accesses@.len());
                    }
                    return Err(rejection);
                },
                None => {},
            }
            j += 1;
        }
        assert(rows(i as int) is None);
        i += 1;
    }
    Ok(())
}

/// Accepted pairs of accesses. Two accesses that pass the test, one of them a
/// write, are on disjoint objects or touch one cell only within one iteration.
pub proof fn law_accepted_pairs_share_no_iteration(
    f: Function,
    accesses: Seq<MemoryAccess>,
    i: int,
    j: int,
)
    requires
        dependences(f, accesses) is Ok,
        0 <= i < j < accesses.len(),
        accesses[i].kind == AccessKind::Write || accesses[j].kind == AccessKind::Write,
    ensures
        accesses[i].base != accesses[j].base ==> statically_disjoint(
            f,
            accesses[i].base,
            accesses[j].base,
        ),
        accesses[i].base == accesses[j].base ==> accesses[i].offset == accesses[j].offset
            && accesses[i].element_type == accesses[j].element_type && forall|k: int, l: int|
            (#[trigger] affine(accesses[i]).cell(k) == #[trigger] affine(accesses[j]).cell(l))
                <==> k == l,
{
    let rows = |i: int| row_rejection(f, accesses, i);
    let row = |d: int| pair_rejection(f, accesses[i], accesses[i + 1 + d]);
    let width = (accesses.len() - i - 1) as nat;
    lemma_first_rejection_ok(rows, accesses.len());
    assert(rows(i) is None);
    lemma_first_rejection_ok(row, width);
    assert(row(j - i - 1) is None);
    assert(pair_rejection(f, accesses[i], accesses[j]) is None);
    if accesses[i].base == accesses[j].base {
        let left = affine(accesses[i]);
        let right = affine(accesses[j]);
        assert(left.cell(right.offset as int) == right.cell(left.offset as int));
        assert(!never_meet(left, right));
    }
}

} // verus!
