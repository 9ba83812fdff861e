//! Recognition of canonical single-block loops: control flow, induction and
//! latch.

use crate::ir::{BlockId, Function, IntPredicate, Opcode, ScalarType, ValueId};
use crate::rejection::Rejection;
use vstd::prelude::*;

verus! {

/// Block `b` ends in a two-way branch with an edge back to itself.
pub open spec fn is_loop_header(f: Function, b: BlockId) -> bool {
    match f.blocks@[b as int].terminator {
        Some(t) => {
            let successors = f.inst(t).successors@;
            &&& f.is_op(t, Opcode::Br)
            &&& successors.len() == 2
            &&& successors[0] == b || successors[1] == b
        },
        None => false,
    }
}

/// The blocks that are one-block loops, in order.
pub fn discover_single_block_loop_headers(f: &Function) -> (headers: Vec<BlockId>)
    requires
        f.wf(),
    ensures
        forall|b: BlockId| #[trigger]
            headers@.contains(b) <==> b < f.blocks@.len() && is_loop_header(*f, b),
        forall|j: int, k: int|
            0 <= j < k < headers@.len() ==> #[trigger] headers@[j] < #[trigger] headers@[k],
{
    let mut headers: Vec<BlockId> = Vec::new();
    let mut b: usize = 0;
    while b < f.blocks.len()
        invariant
            f.wf(),
            b <= f.blocks@.len(),
            forall|c: BlockId| #[trigger]
                headers@.contains(c) <==> c < b && is_loop_header(*f, c),
            forall|j: int, k: int|
                0 <= j < k < headers@.len() ==> #[trigger] headers@[j] < #[trigger] headers@[k],
        decreases f.blocks@.len() - b,
    {
        let ghost before = headers@;
        if check_loop_header(f, b) {
            headers.push(b);
            assert forall|j: int| 0 <= j < before.len() implies #[trigger] before[j] < b by {
                assert(before.contains(before[j]));
            }
            assert forall|c: BlockId| #[trigger]
                headers@.contains(c) <==> c < b + 1 && is_loop_header(*f, c) by {
                if headers@.contains(c) {
                    let k = headers@.index_of(c);
                    if k < before.len() {
                        assert(before[k] == c);
                        assert(before.contains(c));
                    }
                }
                if c < b && is_loop_header(*f, c) {
                    assert(before.contains(c));
                    let k = before.index_of(c);
                    assert(headers@[k] == c);
                }
                if c == b {
                    assert(headers@[before.len() as int] == b);
                }
            }
        }
        b += 1;
    }
    headers
}

fn check_loop_header(f: &Function, b: BlockId) -> (result: bool)
    requires
        f.wf(),
        b < f.blocks@.len(),
    ensures
        result == is_loop_header(*f, b),
{
    assert(f.block_is_valid(b));
    match f.blocks[b].terminator {
        Some(t) => {
            assert(f.value_is_valid(t));
            match f.instruction(t) {
                Some(inst) => inst.opcode == Opcode::Br && inst.successors.len() == 2 && (
                inst.successors[0] == b || inst.successors[1] == b),
                None => false,
            }
        },
        None => false,
    }
}

/// Every use of a value of block `header` is by an instruction of that block.
pub open spec fn no_live_outs(f: Function, header: BlockId) -> bool {
    forall|k: int, j: int|
        0 <= k < f.body(header).len() && 0 <= j < f.values@[f.body(header)[k] as int].users@.len()
            ==> f.in_block(
            #[trigger] f.values@[#[trigger] f.body(header)[k] as int].users@[j],
            header,
        )
}

/// Rejects a loop with a value that is used outside of it: such a use would no
/// longer be dominated when the vector path bypasses the scalar loop.
pub fn validate_no_live_outs(f: &Function, header: BlockId) -> (result: Result<(), Rejection>)
    requires
        f.wf(),
        header < f.blocks@.len(),
    ensures
        result == (if no_live_outs(*f, header) {
            Ok::<(), Rejection>(())
        } else {
            Err(Rejection::LoopValueLiveOut)
        }),
{
    assert(f.block_is_valid(header));
    let body: &Vec<ValueId> = &f.blocks[header].instructions;
    let mut k: usize = 0;
    while k < body.len()
        invariant
            f.wf(),
            header < f.blocks@.len(),
            f.block_is_valid(header),
            body@ == f.body(header),
            k <= body@.len(),
            forall|i: int, j: int|
                0 <= i < k && 0 <= j < f.values@[f.body(header)[i] as int].users@.len()
                    ==> f.in_block(
                    #[trigger] f.values@[#[trigger] f.body(header)[i] as int].users@[j],
                    header,
                ),
        decreases body@.len() - k,
    {
        let v: ValueId = body[k];
        assert(f.has_value(f.blocks@[header as int].instructions@[k as int]));
        assert(f.value_is_valid(v));
        let users: &Vec<ValueId> = &f.values[v].users;
        let mut j: usize = 0;
        while j < users.len()
            invariant
                f.wf(),
                k < f.body(header).len(),
                v == f.body(header)[k as int],
                f.has_value(v),
                f.value_is_valid(v),
                users@ == f.values@[v as int].users@,
                j <= users@.len(),
                forall|i: int|
                    0 <= i < j ==> f.in_block(#[trigger] f.values@[v as int].users@[i], header),
            decreases users@.len() - j,
        {
            assert(f.has_value(f.values@[v as int].users@[j as int]));
            if !f.is_in_block(users[j], header) {
                assert(!f.in_block(
                    f.values@[f.body(header)[k as int] as int].users@[j as int],
                    header,
                ));
                return Err(Rejection::LoopValueLiveOut);
            }
            j += 1;
        }
        k += 1;
    }
    Ok(())
}

/// Block `b` has a PHI.
pub open spec fn has_phi(f: Function, b: BlockId) -> bool {
    exists|k: int| 0 <= k < f.body(b).len() && f.is_op(#[trigger] f.body(b)[k], Opcode::Phi)
}

/// Rejects a loop whose exit begins with PHIs, which the rewrite would have to
/// repair.
pub fn reject_exit_phis(f: &Function, exit: BlockId) -> (result: Result<(), Rejection>)
    requires
        f.wf(),
        exit < f.blocks@.len(),
    ensures
        result == (if has_phi(*f, exit) {
            Err(Rejection::LiveOutPhi)
        } else {
            Ok::<(), Rejection>(())
        }),
{
    assert(f.block_is_valid(exit));
    let body: &Vec<ValueId> = &f.blocks[exit].instructions;
    let mut k: usize = 0;
    while k < body.len()
        invariant
            f.block_is_valid(exit),
            body@ == f.body(exit),
            k <= body@.len(),
            forall|i: int| 0 <= i < k ==> !f.is_op(#[trigger] f.body(exit)[i], Opcode::Phi),
        decreases body@.len() - k,
    {
        assert(f.has_value(f.blocks@[exit as int].instructions@[k as int]));
        if f.has_opcode(body[k], Opcode::Phi) {
            assert(f.is_op(f.body(exit)[k as int], Opcode::Phi));
            return Err(Rejection::LiveOutPhi);
        }
        k += 1;
    }
    Ok(())
}

/// The canonical induction of a loop.
#[derive(Clone, Copy, Debug, PartialEq, Eq, Structural)]
pub struct Induction {
    pub phi: ValueId,
    /// The increment that flows around the back edge.
    pub next: ValueId,
    pub preheader: BlockId,
    /// The position of the preheader among the PHI's incoming blocks.
    pub outside_index: usize,
}

/// `v` adds one to `phi`.
pub open spec fn adds_one(f: Function, v: ValueId, phi: ValueId) -> bool {
    &&& f.is_op(v, Opcode::Add)
    &&& {
        ||| f.operand(v, 0) == phi && f.signed_constant(f.operand(v, 1)) == Some(1i64)
        ||| f.operand(v, 1) == phi && f.signed_constant(f.operand(v, 0)) == Some(1i64)
    }
}

/// What a PHI of the header is as an induction, or why it is none. It is a
/// two-entry `i64` PHI that starts at zero outside the loop and steps by one.
pub open spec fn induction_of(
    f: Function,
    header: BlockId,
    phi: ValueId,
) -> Result<Induction, Rejection> {
    let incoming = f.inst(phi).incoming_blocks@;
    let inside: int = if incoming[1] == header { 1 } else { 0 };
    let outside: int = 1 - inside;
    if f.values@[phi as int].ty != ScalarType::Integer(64) {
        Err(Rejection::InductionTypeMustBeI64)
    } else if incoming.len() != 2 || incoming[inside] != header || incoming[outside] == header {
        Err(Rejection::NonCanonicalPhi)
    } else if f.signed_constant(f.operand(phi, outside)) != Some(0i64) {
        Err(Rejection::InductionMustStartAtZero)
    } else if !adds_one(f, f.operand(phi, inside), phi) {
        Err(Rejection::InductionStepMustBeOne)
    } else {
        Ok(
            Induction {
                phi,
                next: f.operand(phi, inside),
                preheader: incoming[outside],
                outside_index: outside as usize,
            },
        )
    }
}

/// The PHIs among the first `count` instructions of block `b`, in order.
pub open spec fn leading_phis(f: Function, b: BlockId, count: nat) -> Seq<ValueId> {
    f.body(b).take(count as int).filter(|v: ValueId| f.is_op(v, Opcode::Phi))
}

/// The induction among the PHIs of a header. There must be exactly one PHI; the
/// first that is no induction tells the reason.
pub open spec fn induction_among(
    f: Function,
    header: BlockId,
    phis: Seq<ValueId>,
) -> Result<Induction, Rejection> {
    if phis.len() == 0 {
        Err(Rejection::MissingCanonicalInduction)
    } else if induction_of(f, header, phis[0]) is Err || phis.len() == 1 {
        induction_of(f, header, phis[0])
    } else if induction_of(f, header, phis[1]) is Err {
        induction_of(f, header, phis[1])
    } else {
        Err(Rejection::MultipleHeaderPhis)
    }
}

/// The induction of the loop at `header`, or why it has none.
pub open spec fn loop_induction(f: Function, header: BlockId) -> Result<Induction, Rejection> {
    induction_among(f, header, leading_phis(f, header, f.body(header).len()))
}

/// Whether `v` adds one to `phi`.
pub fn is_add_one(f: &Function, v: ValueId, phi: ValueId) -> (result: bool)
    requires
        f.wf(),
        f.has_value(v),
    ensures
        result == adds_one(*f, v, phi),
{
    assert(f.value_is_valid(v));
    let inst = match f.instruction(v) {
        Some(inst) => inst,
        None => return false,
    };
    if inst.opcode != Opcode::Add {
        return false;
    }
    let left: ValueId = inst.operands[0];
    let right: ValueId = inst.operands[1];
    assert(f.has_value(f.inst(v).operands@[0]) && f.has_value(f.inst(v).operands@[1]));
    (left == phi && is_constant(f, right, 1)) || (right == phi && is_constant(f, left, 1))
}

fn is_constant(f: &Function, v: ValueId, expected: i64) -> (result: bool)
    requires
        f.has_value(v),
    ensures
        result == (f.signed_constant(v) == Some(expected)),
{
    match f.constant_signed(v) {
        Some(value) => value == expected,
        None => false,
    }
}

fn check_induction(f: &Function, header: BlockId, phi: ValueId) -> (result: Result<
    Induction,
    Rejection,
>)
    requires
        f.wf(),
        f.has_value(phi),
        f.is_op(phi, Opcode::Phi),
    ensures
        result == induction_of(*f, header, phi),
{
    assert(f.value_is_valid(phi));
    let inst = match f.instruction(phi) {
        Some(inst) => inst,
        None => return Err(Rejection::NonCanonicalPhi),
    };
    // Control arithmetic is restricted to i64 so that every synthesized mask,
    // threshold, lane offset and step is representable exactly.
    match f.values[phi].ty {
        ScalarType::Integer(bits) => {
            if bits != 64 {
                return Err(Rejection::InductionTypeMustBeI64);
            }
        },
        _ => return Err(Rejection::InductionTypeMustBeI64),
    }
    if inst.incoming_blocks.len() != 2 {
        return Err(Rejection::NonCanonicalPhi);
    }
    let inside: usize = if inst.incoming_blocks[1] == header {
        1
    } else {
        0
    };
    let outside: usize = 1 - inside;
    if inst.incoming_blocks[inside] != header || inst.incoming_blocks[outside] == header {
        return Err(Rejection::NonCanonicalPhi);
    }
    assert(f.has_value(f.inst(phi).operands@[0]) && f.has_value(f.inst(phi).operands@[1]));
    if !is_constant(f, inst.operands[outside], 0) {
        return Err(Rejection::InductionMustStartAtZero);
    }
    let next: ValueId = inst.operands[inside];
    if !is_add_one(f, next, phi) {
        return Err(Rejection::InductionStepMustBeOne);
    }
    Ok(Induction { phi, next, preheader: inst.incoming_blocks[outside], outside_index: outside })
}

/// Finds the induction of the loop at `header`.
pub fn find_induction(f: &Function, header: BlockId) -> (result: Result<Induction, Rejection>)
    requires
        f.wf(),
        header < f.blocks@.len(),
    ensures
        result == loop_induction(*f, header),
{
    assert(f.block_is_valid(header));
    let body: &Vec<ValueId> = &f.blocks[header].instructions;
    let ghost is_phi = |v: ValueId| f.is_op(v, Opcode::Phi);
    let mut found: Option<Induction> = None;
    let mut k: usize = 0;
    while k < body.len()
        invariant
            f.wf(),
            header < f.blocks@.len(),
            f.block_is_valid(header),
            body@ == f.body(header),
            k <= body@.len(),
            is_phi == (|v: ValueId| f.is_op(v, Opcode::Phi)),
            match found {
                None => leading_phis(*f, header, k as nat).len() == 0,
                Some(induction) => {
                    &&& leading_phis(*f, header, k as nat).len() == 1
                    &&& induction_of(*f, header, leading_phis(*f, header, k as nat)[0]) == Ok::<
                        Induction,
                        Rejection,
                    >(induction)
                },
            },
        decreases body@.len() - k,
    {
        let v: ValueId = body[k];
        assert(f.has_value(f.blocks@[header as int].instructions@[k as int]));
        proof {
            let taken = body@.take(k as int);
            assert(body@.take(k + 1) == taken.push(v));
            lemma_filter_push(taken, v, is_phi);
            lemma_filter_prefix(body@, k + 1, is_phi);
            assert(body@.take(body@.len() as int) == body@);
        }
        if f.has_opcode(v, Opcode::Phi) {
            let induction: Induction = match check_induction(f, header, v) {
                Ok(induction) => induction,
                Err(rejection) => return Err(rejection),
            };
            if found.is_some() {
                return Err(Rejection::MultipleHeaderPhis);
            }
            found = Some(induction);
        }
        k += 1;
    }
    match found {
        Some(induction) => Ok(induction),
        None => Err(Rejection::MissingCanonicalInduction),
    }
}

/// Edge `k` out of block `b` enters the loop at `header` from outside.
pub open spec fn external_edge(f: Function, header: BlockId, b: BlockId, k: int) -> bool {
    &&& b < f.blocks@.len()
    &&& b != header
    &&& f.blocks@[b as int].terminator matches Some(t)
    &&& 0 <= k < f.inst(t).successors@.len()
    &&& f.inst(t).successors@[k] == header
}

/// The only edge into the loop from outside is edge `k` out of `preheader`.
pub open spec fn unique_entry(
    f: Function,
    header: BlockId,
    preheader: BlockId,
    k: usize,
) -> bool {
    forall|b: BlockId, j: int| #[trigger]
        external_edge(f, header, b, j) <==> b == preheader && j == k
}

/// Block `b` ends in an ordinary branch.
pub open spec fn ends_in_branch(f: Function, b: BlockId) -> bool {
    match f.blocks@[b as int].terminator {
        Some(t) => f.is_op(t, Opcode::Br),
        None => false,
    }
}

/// Which edge of the preheader is the loop's only entry, or why none is.
pub open spec fn entry_edge(
    f: Function,
    header: BlockId,
    preheader: BlockId,
) -> Result<usize, Rejection> {
    if !ends_in_branch(f, preheader) {
        Err(Rejection::PreheaderTerminatorMustBeBranch)
    } else if exists|k: usize| unique_entry(f, header, preheader, k) {
        Ok(choose|k: usize| unique_entry(f, header, preheader, k))
    } else {
        Err(Rejection::LoopNeedsUniquePreheader)
    }
}

proof fn lemma_entry_is_unique(
    f: Function,
    header: BlockId,
    preheader: BlockId,
    j: usize,
    k: usize,
)
    requires
        unique_entry(f, header, preheader, j),
        unique_entry(f, header, preheader, k),
    ensures
        j == k,
{
    assert(external_edge(f, header, preheader, j as int));
}

/// Finds the only edge into the loop. Re-targeting any terminator but an
/// ordinary branch is not the same as splitting its edge, so others are
/// rejected.
pub fn validate_predecessors(f: &Function, header: BlockId, preheader: BlockId) -> (result: Result<
    usize,
    Rejection,
>)
    requires
        f.wf(),
        header < f.blocks@.len(),
        preheader < f.blocks@.len(),
    ensures
        result == entry_edge(*f, header, preheader),
{
    assert(f.block_is_valid(preheader));
    match f.blocks[preheader].terminator {
        Some(t) => {
            if !f.has_opcode(t, Opcode::Br) {
                return Err(Rejection::PreheaderTerminatorMustBeBranch);
            }
        },
        None => return Err(Rejection::PreheaderTerminatorMustBeBranch),
    }
    let mut entry: Option<(BlockId, usize)> = None;
    let mut b: usize = 0;
    while b < f.blocks.len()
        invariant
            f.wf(),
            ends_in_branch(*f, preheader),
            b <= f.blocks@.len(),
            match entry {
                None => forall|c: BlockId, j: int|
                    c < b ==> !#[trigger] external_edge(*f, header, c, j),
                Some(edge) => edge.0 < b && forall|c: BlockId, j: int|
                    c < b ==> (#[trigger] external_edge(*f, header, c, j) <==> c == edge.0 && j
                        == edge.1),
            },
        decreases f.blocks@.len() - b,
    {
        assert(f.block_is_valid(b));
        if b != header {
            if let Some(t) = f.blocks[b].terminator {
                assert(f.value_is_valid(t));
                if let Some(inst) = f.instruction(t) {
                    let mut k: usize = 0;
                    while k < inst.successors.len()
                        invariant
                            b < f.blocks@.len(),
                            b != header,
                            ends_in_branch(*f, preheader),
                            f.blocks@[b as int].terminator == Some(t),
                            *inst == f.inst(t),
                            k <= inst.successors@.len(),
                            match entry {
                                None => forall|c: BlockId, j: int|
                                    c < b || (c == b && j < k) ==> !#[trigger] external_edge(
                                        *f,
                                        header,
                                        c,
                                        j,
                                    ),
                                Some(edge) => edge.0 <= b && forall|c: BlockId, j: int|
                                    c < b || (c == b && j < k) ==> (#[trigger] external_edge(
                                        *f,
                                        header,
                                        c,
                                        j,
                                    ) <==> c == edge.0 && j == edge.1),
                            },
                            entry matches Some(edge) ==> edge.0 < b || edge.1 < k,
                        decreases inst.successors@.len() - k,
                    {
                        if inst.successors[k] == header {
                            assert(external_edge(*f, header, b, k as int));
                            if let Some(edge) = entry {
                                proof {
                                    assert(external_edge(*f, header, edge.0, edge.1 as int));
                                    assert forall|i: usize|
                                        !unique_entry(*f, header, preheader, i) by {
                                        if unique_entry(*f, header, preheader, i) {
                                            assert(edge.0 == preheader && edge.1 == i);
                                        }
                                    }
                                }
                                return Err(Rejection::LoopNeedsUniquePreheader);
                            }
                            entry = Some((b, k));
                        }
                        k += 1;
                    }
                }
            }
        }
        b += 1;
    }
    match entry {
        Some(edge) => {
            if edge.0 == preheader {
                proof {
                    assert(unique_entry(*f, header, preheader, edge.1));
                    lemma_entry_is_unique(
                        *f,
                        header,
                        preheader,
                        edge.1,
                        choose|k: usize| unique_entry(*f, header, preheader, k),
                    );
                }
                Ok(edge.1)
            } else {
                proof {
                    assert(external_edge(*f, header, edge.0, edge.1 as int));
                }
                Err(Rejection::LoopNeedsUniquePreheader)
            }
        },
        None => {
            proof {
                assert forall|i: usize| !unique_entry(*f, header, preheader, i) by {
                    assert(!external_edge(*f, header, preheader, i as int));
                }
            }
            Err(Rejection::LoopNeedsUniquePreheader)
        },
    }
}

/// The trip count that the latch compares against, or why the latch is not
/// supported. The incremented induction is compared for equality, inequality or
/// unsigned less-than with a loop-invariant value, and the loop continues while
/// the count is not reached.
pub open spec fn latch_trip_count(
    f: Function,
    compare: ValueId,
    next: ValueId,
    header: BlockId,
    on_true: BlockId,
    on_false: BlockId,
) -> Result<ValueId, Rejection> {
    let left = f.operand(compare, 0);
    let right = f.operand(compare, 1);
    let trip = if left == next { right } else { left };
    let supported = match f.inst(compare).int_predicate {
        IntPredicate::Eq => on_true != header && on_false == header,
        IntPredicate::Ne => on_true == header && on_false != header,
        IntPredicate::Ult => on_true == header && on_false != header && left == next,
        _ => false,
    };
    if !f.is_op(compare, Opcode::ICmp) {
        Err(Rejection::LatchConditionMustBeIcmp)
    } else if left != next && right != next {
        Err(Rejection::LatchMustCompareNextInduction)
    } else if f.in_block(trip, header) {
        Err(Rejection::TripCountNotLoopInvariant)
    } else if !supported {
        Err(Rejection::UnsupportedLatchPredicate)
    } else {
        Ok(trip)
    }
}

/// Matches the latch comparison and yields the trip count.
pub fn match_latch(
    f: &Function,
    compare: ValueId,
    next: ValueId,
    header: BlockId,
    on_true: BlockId,
    on_false: BlockId,
) -> (result: Result<ValueId, Rejection>)
    requires
        f.wf(),
        f.has_value(compare),
    ensures
        result == latch_trip_count(*f, compare, next, header, on_true, on_false),
        result matches Ok(trip) ==> f.has_value(trip),
{
    assert(f.value_is_valid(compare));
    let inst = match f.instruction(compare) {
        Some(inst) => inst,
        None => return Err(Rejection::LatchConditionMustBeIcmp),
    };
    if inst.opcode != Opcode::ICmp {
        return Err(Rejection::LatchConditionMustBeIcmp);
    }
    let left: ValueId = inst.operands[0];
    let right: ValueId = inst.operands[1];
    assert(f.has_value(f.inst(compare).operands@[0]) && f.has_value(f.inst(compare).operands@[1]));
    let trip: ValueId = if left == next {
        right
    } else if right == next {
        left
    } else {
        return Err(Rejection::LatchMustCompareNextInduction);
    };
    if !f.is_loop_invariant(trip, header) {
        return Err(Rejection::TripCountNotLoopInvariant);
    }
    let supported: bool = match inst.int_predicate {
        IntPredicate::Eq => on_true != header && on_false == header,
        IntPredicate::Ne => on_true == header && on_false != header,
        IntPredicate::Ult => on_true == header && on_false != header && left == next,
        _ => false,
    };
    if !supported {
        return Err(Rejection::UnsupportedLatchPredicate);
    }
    Ok(trip)
}

/// Every user of `v` is `first` or `second`.
pub open spec fn used_only_by(f: Function, v: ValueId, first: ValueId, second: ValueId) -> bool {
    forall|k: int|
        0 <= k < f.values@[v as int].users@.len() ==> {
            ||| #[trigger] f.values@[v as int].users@[k] == first
            ||| f.values@[v as int].users@[k] == second
        }
}

fn check_users(f: &Function, v: ValueId, first: ValueId, second: ValueId) -> (result: bool)
    requires
        f.has_value(v),
    ensures
        result == used_only_by(*f, v, first, second),
{
    let users: &Vec<ValueId> = &f.values[v].users;
    let mut k: usize = 0;
    while k < users.len()
        invariant
            users@ == f.values@[v as int].users@,
            k <= users@.len(),
            forall|j: int|
                0 <= j < k ==> {
                    ||| #[trigger] f.values@[v as int].users@[j] == first
                    ||| f.values@[v as int].users@[j] == second
                },
        decreases users@.len() - k,
    {
        if users[k] != first && users[k] != second {
            assert(f.values@[v as int].users@[k as int] != first);
            return false;
        }
        k += 1;
    }
    true
}

/// Whether the control values serve control only: the increment feeds the PHI
/// and the comparison, and the comparison feeds the branch.
pub open spec fn control_uses(
    f: Function,
    phi: ValueId,
    next: ValueId,
    compare: ValueId,
    terminator: ValueId,
) -> Result<(), Rejection> {
    if !used_only_by(f, next, phi, compare) {
        Err(Rejection::InductionNextHasDataUse)
    } else if !used_only_by(f, compare, terminator, terminator) {
        Err(Rejection::LatchCompareHasDataUse)
    } else {
        Ok(())
    }
}

/// Rejects control values with data uses, which are not widened.
pub fn validate_control_uses(
    f: &Function,
    phi: ValueId,
    next: ValueId,
    compare: ValueId,
    terminator: ValueId,
) -> (result: Result<(), Rejection>)
    requires
        f.has_value(next),
        f.has_value(compare),
    ensures
        result == control_uses(*f, phi, next, compare, terminator),
{
    if !check_users(f, next, phi, compare) {
        return Err(Rejection::InductionNextHasDataUse);
    }
    if !check_users(f, compare, terminator, terminator) {
        return Err(Rejection::LatchCompareHasDataUse);
    }
    Ok(())
}

proof fn lemma_filter_push(s: Seq<ValueId>, v: ValueId, keep: spec_fn(ValueId) -> bool)
    ensures
        s.push(v).filter(keep) == (if keep(v) {
            s.filter(keep).push(v)
        } else {
            s.filter(keep)
        }),
{
    reveal(Seq::filter);
    assert(s.push(v).drop_last() == s);
}

/// Filtering a prefix gives a prefix of the filtered sequence.
proof fn lemma_filter_prefix(s: Seq<ValueId>, count: int, keep: spec_fn(ValueId) -> bool)
    requires
        0 <= count <= s.len(),
    ensures
        s.take(count).filter(keep).len() <= s.filter(keep).len(),
        forall|i: int|
            0 <= i < s.take(count).filter(keep).len() ==> s.take(count).filter(keep)[i]
                == #[trigger] s.filter(keep)[i],
    decreases s.len() - count,
{
    if count < s.len() {
        lemma_filter_prefix(s, count + 1, keep);
        assert(s.take(count + 1) == s.take(count).push(s[count]));
        lemma_filter_push(s.take(count), s[count], keep);
        assert forall|i: int| 0 <= i < s.take(count).filter(keep).len() implies s.take(
            count,
        ).filter(keep)[i] == #[trigger] s.filter(keep)[i] by {
            assert(s.take(count + 1).filter(keep)[i] == s.filter(keep)[i]);
        }
    } else {
        assert(s.take(count) == s);
    }
}

/// The one-block loops are the blocks that end in a branch with a condition and
/// are among its two destinations.
pub proof fn law_one_block_loops_branch_to_themselves(f: Function, b: BlockId, t: ValueId)
    ensures
        f.blocks@[b as int].terminator is None ==> !is_loop_header(f, b),
        f.blocks@[b as int].terminator == Some(t) ==> (is_loop_header(f, b) <==> f.is_op(
            t,
            Opcode::Br,
        ) && f.inst(t).successors@.len() == 2 && f.inst(t).successors@.contains(b)),
{
    let successors = f.inst(t).successors@;
    if successors.len() == 2 && (successors[0] == b || successors[1] == b) {
        assert(successors.contains(b));
    }
}

} // verus!
