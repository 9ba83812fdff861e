//! Why loops are refused: each reason with the facts of the loop that it stands
//! for.

use crate::analysis::{analysis, estimated_trip_count, plan_for, CandidateView};
use crate::body::{
    address_rejection, contribution, index_helpers, is_skipped, operand_rejection,
    operands_are_widenable, totals,
};
use crate::config::PassConfig;
use crate::cost::{law_plans_are_right, planned, LoopCosts, Plan};
use crate::ir::{BlockId, Function, IntPredicate, Opcode, Parameter, ScalarType, ValueId};
use crate::memory::{
    affine_index, dependences, is_memory_use, loop_address, pair_rejection, row_rejection,
};
use crate::operations::computes;
use crate::recognize::{
    adds_one, external_edge, has_phi, induction_of, is_loop_header, leading_phis, loop_induction,
    no_live_outs, unique_entry, used_only_by,
};
use crate::rejection::{first_rejection, lemma_first_rejection_cause, Rejection};
use crate::semantics::is_marked_noalias;
use crate::shape::{loop_exit, loop_shape, LoopShape};
use crate::supported::{
    access_count, are_independent, are_separate, comes_before, counts_up, enters, expected_trips,
    has_known_operands, has_lane_form, has_right_plan, is_access_number, is_at_hand,
    is_clean_address, is_constant, is_control, is_densely_stored, is_element, is_free_pair,
    is_memory, is_own_name, is_skeleton, is_some_access, is_translatable, is_unaliased,
    is_vectorizable, law_counted_loops_are_recognized, lemma_access, lemma_address, lemma_addresses,
    lemma_available, lemma_cost_is_bounded, lemma_counts_grow, lemma_filter_of_distinct,
    lemma_free_pairs, lemma_helpers, lemma_index_reads, lemma_induction, lemma_layouts,
    lemma_own_name, lemma_pair, lemma_separate, lemma_totals, lemma_vectorizable_body,
    lemma_widest_is_unique, reads_index, serves_addresses, touches, works_on_scalars,
};
use crate::widening::{is_ready, needs_lane_indices, order_rejection, widening_order};
use vstd::prelude::*;

verus! {

/// Why a PHI of the header is not a canonical induction.
pub open spec fn is_phi_cause(f: Function, header: BlockId, p: ValueId, r: Rejection) -> bool {
    let incoming = f.inst(p).incoming_blocks@;
    let one_is_inside = incoming[0] == header && incoming[1] != header || incoming[0] != header
        && incoming[1] == header;
    match r {
        Rejection::InductionTypeMustBeI64 => f.ty(p) != ScalarType::Integer(64),
        Rejection::NonCanonicalPhi => incoming.len() != 2 || !one_is_inside,
        Rejection::InductionMustStartAtZero => {
            ||| incoming[0] != header && !is_constant(f, f.operand(p, 0), 0)
            ||| incoming[1] != header && !is_constant(f, f.operand(p, 1), 0)
        },
        Rejection::InductionStepMustBeOne => {
            ||| incoming[0] == header && !is_increment(f, f.operand(p, 0), p)
            ||| incoming[1] == header && !is_increment(f, f.operand(p, 1), p)
        },
        _ => false,
    }
}

/// `v` is `p` plus one.
pub open spec fn is_increment(f: Function, v: ValueId, p: ValueId) -> bool {
    &&& f.is_op(v, Opcode::Add)
    &&& {
        ||| f.operand(v, 0) == p && is_constant(f, f.operand(v, 1), 1)
        ||| f.operand(v, 1) == p && is_constant(f, f.operand(v, 0), 1)
    }
}

/// The values that use `v`.
pub open spec fn users_of(f: Function, v: ValueId) -> Seq<ValueId> {
    f.values@[v as int].users@
}

/// How block `b` ends.
pub open spec fn terminator_of(f: Function, b: BlockId) -> Option<ValueId> {
    f.blocks@[b as int].terminator
}

/// The name of block `b`.
pub open spec fn name_of(f: Function, b: BlockId) -> Seq<char> {
    f.blocks@[b as int].name@
}

/// Why a loop with a canonical induction is not a counted one-block loop. Of
/// `s`, only the induction's parts count.
pub open spec fn is_counter_cause(f: Function, s: LoopShape, r: Rejection) -> bool {
    let terminator = terminator_of(f, s.header)->0;
    let successors = f.inst(terminator).successors@;
    let compare = f.operand(terminator, 0);
    let left = f.operand(compare, 0);
    let right = f.operand(compare, 1);
    let next = s.induction_next;
    match r {
        Rejection::PreheaderTerminatorMustBeBranch => {
            ||| terminator_of(f, s.preheader) is None
            ||| !f.is_op(terminator_of(f, s.preheader)->0, Opcode::Br)
        },
        Rejection::LoopNeedsUniquePreheader => forall|k: usize| !#[trigger] is_only_entry(
            f,
            s.header,
            s.preheader,
            k,
        ),
        Rejection::AlreadyVectorized => is_own_name(name_of(f, s.preheader)),
        Rejection::LatchConditionMustBeIcmp => !f.is_op(compare, Opcode::ICmp),
        Rejection::LatchMustCompareNextInduction => left != next && right != next,
        Rejection::TripCountNotLoopInvariant => {
            ||| left == next && f.in_block(right, s.header)
            ||| right == next && f.in_block(left, s.header)
        },
        Rejection::UnsupportedLatchPredicate => match f.inst(compare).int_predicate {
            IntPredicate::Eq => successors[0] == s.header || successors[1] != s.header,
            IntPredicate::Ne => successors[0] != s.header || successors[1] == s.header,
            IntPredicate::Ult => {
                successors[0] != s.header || successors[1] == s.header || left != next
            },
            _ => true,
        },
        Rejection::InductionNextHasDataUse => exists|k: int|
            0 <= k < users_of(f, next).len()
                && #[trigger] users_of(f, next)[k] != s.induction
                && users_of(f, next)[k] != compare,
        Rejection::LatchCompareHasDataUse => exists|k: int|
            0 <= k < users_of(f, compare).len()
                && #[trigger] users_of(f, compare)[k] != terminator,
        _ => false,
    }
}

/// The one edge into the loop from outside is successor `k` of block `from`.
pub open spec fn is_only_entry(f: Function, header: BlockId, from: BlockId, k: usize) -> bool {
    forall|b: BlockId, j: int| #[trigger] enters(f, header, b, j) <==> b == from && j == k
}

/// Why the block at `header` is not a counted one-block loop.
pub open spec fn is_shape_cause(f: Function, header: BlockId, r: Rejection) -> bool {
    let body = f.body(header);
    let terminator = f.blocks@[header as int].terminator->0;
    let successors = f.inst(terminator).successors@;
    match r {
        Rejection::InstructionBudgetExceeded => body.len() > 96,
        Rejection::LoopValueLiveOut => exists|k: int, j: int|
            0 <= k < body.len() && 0 <= j < f.values@[body[k] as int].users@.len() && !f.in_block(
                #[trigger] f.values@[#[trigger] body[k] as int].users@[j],
                header,
            ),
        Rejection::DisabledByLoopMetadata => f.inst(terminator).vectorize_disabled,
        Rejection::LiveOutPhi => exists|i: int, k: int|
            0 <= i < 2 && (successors[i] != header || successors[1 - i] == header) && 0 <= k
                < f.body(successors[i]).len() && f.is_op(
                #[trigger] f.body(successors[i])[k],
                Opcode::Phi,
            ),
        Rejection::InductionTypeMustBeI64
        | Rejection::NonCanonicalPhi
        | Rejection::InductionMustStartAtZero
        | Rejection::InductionStepMustBeOne => exists|k: int|
            0 <= k < body.len() && f.is_op(#[trigger] body[k], Opcode::Phi) && is_phi_cause(
                f,
                header,
                body[k],
                r,
            ),
        Rejection::MultipleHeaderPhis => exists|j: int, k: int|
            0 <= j < k < body.len() && f.is_op(#[trigger] body[j], Opcode::Phi) && f.is_op(
                #[trigger] body[k],
                Opcode::Phi,
            ),
        Rejection::MissingCanonicalInduction => forall|k: int|
            0 <= k < body.len() ==> !f.is_op(#[trigger] body[k], Opcode::Phi),
        _ => exists|s: LoopShape|
            s.header == header && #[trigger] counts_up(f, s) && is_counter_cause(f, s, r),
    }
}

/// A PHI is refused as an induction for what it is.
proof fn lemma_phi_cause(f: Function, header: BlockId, p: ValueId)
    requires
        induction_of(f, header, p) is Err,
    ensures
        is_phi_cause(f, header, p, induction_of(f, header, p)->Err_0),
{
    let incoming = f.inst(p).incoming_blocks@;
    let inside: int = if incoming[1] == header {
        1
    } else {
        0
    };
    assert(adds_one(f, f.operand(p, inside), p) <==> is_increment(f, f.operand(p, inside), p));
}

/// A block without a canonical induction is refused for what its PHIs are.
proof fn lemma_no_induction(f: Function, header: BlockId)
    requires
        f.wf(),
        header < f.blocks@.len(),
        loop_induction(f, header) is Err,
    ensures
        is_shape_cause(f, header, loop_induction(f, header)->Err_0),
{
    let body = f.body(header);
    let is_phi = |v: ValueId| f.is_op(v, Opcode::Phi);
    let phis = leading_phis(f, header, body.len());
    assert(f.block_is_valid(header));
    assert(body.take(body.len() as int) =~= body);
    assert(phis == body.filter(is_phi));
    assert forall|i: int| 0 <= i < phis.len() implies body.contains(#[trigger] phis[i]) && f.is_op(
        phis[i],
        Opcode::Phi,
    ) by {
        body.lemma_filter_contains_rev(is_phi, phis[i]);
        body.lemma_filter_pred(is_phi, i);
    }
    if phis.len() == 0 {
        assert forall|k: int| 0 <= k < body.len() implies !f.is_op(
            #[trigger] body[k],
            Opcode::Phi,
        ) by {
            if f.is_op(body[k], Opcode::Phi) {
                body.lemma_filter_contains(is_phi, k);
            }
        }
    } else if induction_of(f, header, phis[0]) is Err {
        let k = choose|k: int| 0 <= k < body.len() && body[k] == phis[0];
        lemma_phi_cause(f, header, body[k]);
    } else if induction_of(f, header, phis[1]) is Err {
        let k = choose|k: int| 0 <= k < body.len() && body[k] == phis[1];
        lemma_phi_cause(f, header, body[k]);
    } else {
        lemma_filter_of_distinct(body, is_phi);
        let j = choose|j: int| 0 <= j < body.len() && body[j] == phis[0];
        let k = choose|k: int| 0 <= k < body.len() && body[k] == phis[1];
        assert(phis[0] != phis[1]);
        if j < k {
            assert(f.is_op(body[j], Opcode::Phi) && f.is_op(body[k], Opcode::Phi));
        } else {
            assert(f.is_op(body[k], Opcode::Phi) && f.is_op(body[j], Opcode::Phi));
        }
    }
}

/// A loop that is not recognized is refused for what it is.
pub proof fn law_shape_reasons_are_true(f: Function, header: BlockId)
    requires
        f.wf(),
        header < f.blocks@.len(),
        is_loop_header(f, header),
        loop_shape(f, header) is Err,
    ensures
        is_shape_cause(f, header, loop_shape(f, header)->Err_0),
{
    let r = loop_shape(f, header)->Err_0;
    let body = f.body(header);
    let terminator = f.blocks@[header as int].terminator->0;
    let successors = f.inst(terminator).successors@;
    let exit = loop_exit(f, header);
    if body.len() > 96 {
    } else if !no_live_outs(f, header) {
    } else if f.inst(terminator).vectorize_disabled {
    } else if has_phi(f, exit) {
        let k = choose|k: int| 0 <= k < f.body(exit).len() && f.is_op(#[trigger] f.body(exit)[k], Opcode::Phi);
        let i: int = if successors[0] == header {
            1
        } else {
            0
        };
        assert(f.is_op(f.body(successors[i])[k], Opcode::Phi));
    } else if loop_induction(f, header) is Err {
        lemma_no_induction(f, header);
    } else {
        let n = loop_induction(f, header)->Ok_0;
        let s = LoopShape {
            header,
            preheader: n.preheader,
            exit,
            terminator,
            induction: n.phi,
            induction_next: n.next,
            latch_compare: f.operand(terminator, 0),
            trip_count: n.phi,
            outside_phi_index: n.outside_index,
            preheader_successor_index: 0,
        };
        lemma_induction(f, s);
        lemma_own_name(f.blocks@[n.preheader as int].name@);
        assert(counts_up(f, s));
        if r == Rejection::LoopNeedsUniquePreheader {
            assert forall|k: usize| !#[trigger] is_only_entry(f, header, n.preheader, k) by {
                if is_only_entry(f, header, n.preheader, k) {
                    assert forall|b: BlockId, j: int| #[trigger]
                        external_edge(f, header, b, j) <==> b == n.preheader && j == k by {
                        assert(enters(f, header, b, j) <==> b == n.preheader && j == k);
                    }
                    assert(unique_entry(f, header, n.preheader, k));
                }
            }
        }
        if r == Rejection::InductionNextHasDataUse {
            assert(!used_only_by(f, n.next, n.phi, s.latch_compare));
            let k = choose|k: int|
                0 <= k < users_of(f, n.next).len() && #[trigger] users_of(f, n.next)[k] != n.phi
                    && users_of(f, n.next)[k] != s.latch_compare;
            assert(users_of(f, n.next)[k] != n.phi);
        }
        if r == Rejection::LatchCompareHasDataUse {
            assert(!used_only_by(f, s.latch_compare, terminator, terminator));
            let k = choose|k: int|
                0 <= k < users_of(f, s.latch_compare).len() && #[trigger] users_of(
                    f,
                    s.latch_compare,
                )[k] != terminator;
            assert(users_of(f, s.latch_compare)[k] != terminator);
        }
        assert(is_counter_cause(f, s, r));
    }
}

/// Why `g` is not an address of the loop.
pub open spec fn is_address_cause(f: Function, s: LoopShape, g: ValueId, r: Rejection) -> bool {
    let base = f.operand(g, 0);
    let index = f.operand(g, 1);
    let left = f.operand(index, 0);
    let right = f.operand(index, 1);
    let adds = f.is_op(index, Opcode::Add);
    let subtracts = f.is_op(index, Opcode::Sub);
    match r {
        Rejection::GepMustHaveOneIndex => f.inst(g).operands@.len() != 2,
        Rejection::PointerBaseNotLoopInvariant => f.in_block(base, s.header),
        Rejection::UnsupportedPointerBase => {
            let kind = f.values@[base as int].kind;
            !(kind is Argument) && !(kind is GlobalVariable)
        },
        Rejection::NonAffineIndex => {
            &&& index != s.induction
            &&& adds ==> left != s.induction && right != s.induction
            &&& subtracts ==> left != s.induction
        },
        Rejection::NonConstantAffineOffset => {
            ||| (adds || subtracts) && left == s.induction && !is_any_constant(f, right)
            ||| adds && right == s.induction && !is_any_constant(f, left)
        },
        Rejection::AffineOffsetOverflow => {
            subtracts && left == s.induction && is_constant(f, right, -0x8000_0000_0000_0000)
        },
        Rejection::UnsupportedMemoryElementType => !is_element(f.inst(g).element_type),
        _ => false,
    }
}

/// `v` is an integer constant.
pub open spec fn is_any_constant(f: Function, v: ValueId) -> bool {
    f.values@[v as int].kind is ConstantInt
}

/// Why instruction `v` of a counted loop has no vector form.
pub open spec fn is_form_cause(f: Function, s: LoopShape, v: ValueId, r: Rejection) -> bool {
    let opcode = f.inst(v).opcode;
    let users = f.values@[v as int].users@;
    let is_access = opcode == Opcode::Load || opcode == Opcode::Store;
    let pointer = f.operand(v, if opcode == Opcode::Load {
        0
    } else {
        1
    });
    match r {
        Rejection::AffineIndexHasDataUse => {
            &&& opcode == Opcode::GetElementPtr
            &&& f.operand(v, 1) != s.induction
            &&& !serves_addresses(f, s, f.operand(v, 1))
        },
        Rejection::UnusedGep => opcode == Opcode::GetElementPtr && users.len() == 0,
        Rejection::GepHasNonMemoryUse => {
            opcode == Opcode::GetElementPtr && exists|k: int|
                0 <= k < users.len() && !is_access_through(f, s, v, #[trigger] users[k])
        },
        Rejection::VolatileOrAtomicMemory => {
            is_access && (f.inst(v).volatile || f.inst(v).atomic)
        },
        Rejection::MemoryPointerMustBeLoopGep => {
            is_access && !(f.is_op(pointer, Opcode::GetElementPtr) && f.in_block(
                pointer,
                s.header,
            ))
        },
        Rejection::MixedSizeMemoryAccess => {
            is_access && f.inst(pointer).element_type != (if opcode == Opcode::Load {
                f.ty(v)
            } else {
                f.ty(f.operand(v, 0))
            })
        },
        Rejection::UnsupportedScalarType => has_lane_form(opcode) && !works_on_scalars(f, v),
        Rejection::UnsupportedComputeDependency => {
            has_lane_form(opcode) && !has_known_operands(f, s, v)
        },
        Rejection::UnsupportedInstruction => {
            opcode != Opcode::GetElementPtr && !is_access && !has_lane_form(opcode)
        },
        _ => {
            ||| opcode == Opcode::GetElementPtr && is_address_cause(f, s, v, r)
            ||| is_access && f.is_op(pointer, Opcode::GetElementPtr) && is_address_cause(
                f,
                s,
                pointer,
                r,
            )
        },
    }
}

/// `user`, in the loop, is a load through address `g` or a store to it.
pub open spec fn is_access_through(f: Function, s: LoopShape, g: ValueId, user: ValueId) -> bool {
    &&& f.in_block(user, s.header)
    &&& {
        ||| f.is_op(user, Opcode::Load) && f.operand(user, 0) == g
        ||| f.is_op(user, Opcode::Store) && f.operand(user, 1) == g
    }
}

/// Why instructions `j` and `k`, one of them a store, are not independent.
pub open spec fn is_pair_cause(f: Function, s: LoopShape, j: int, k: int, r: Rejection) -> bool {
    let u = f.body(s.header)[j];
    let v = f.body(s.header)[k];
    &&& is_memory(f, s, j) && is_memory(f, s, k)
    &&& f.inst(u).opcode == Opcode::Store || f.inst(v).opcode == Opcode::Store
    &&& exists|b: ValueId, c: int, t: ScalarType, d: ValueId, e: int, o: ScalarType|
        #[trigger] touches(f, s, u, b, c, t) && #[trigger] touches(f, s, v, d, e, o) && match r {
            Rejection::PossiblePointerAlias => b != d && !are_separate(f, b, d),
            Rejection::MixedTypeMemoryDependence => b == d && t != o,
            Rejection::LoopCarriedMemoryDependence => b == d && t == o && c != e,
            _ => false,
        }
}

/// Why instruction `k` of the loop is not in order.
pub open spec fn is_order_cause(f: Function, s: LoopShape, k: int, r: Rejection) -> bool {
    let v = f.body(s.header)[k];
    match r {
        Rejection::LoadPointerNotWidened => {
            f.inst(v).opcode == Opcode::Load && !comes_before(f, s, k, f.operand(v, 0))
        },
        Rejection::StoreInputNotWidened => {
            f.inst(v).opcode == Opcode::Store && (!comes_before(f, s, k, f.operand(v, 1))
                || !is_at_hand(f, s, k, f.operand(v, 0)))
        },
        Rejection::ComputeInputNotWidened => has_lane_form(f.inst(v).opcode) && exists|j: int|
            0 <= j < f.inst(v).operands@.len() && !is_at_hand(
                f,
                s,
                k,
                #[trigger] f.inst(v).operands@[j],
            ),
        _ => false,
    }
}

/// Why a counted loop is refused.
pub open spec fn is_body_cause(f: Function, s: LoopShape, config: PassConfig, r: Rejection) -> bool {
    let count = f.body(s.header).len();
    match r {
        Rejection::NoMemoryAccess => access_count(f, s, count) == 0,
        Rejection::MemoryAccessBudgetExceeded => access_count(f, s, count) > 24,
        Rejection::PossiblePointerAlias
        | Rejection::MixedTypeMemoryDependence
        | Rejection::LoopCarriedMemoryDependence => exists|j: int, k: int|
            0 <= j < k < count && #[trigger] is_pair_cause(f, s, j, k, r),
        Rejection::LoadPointerNotWidened
        | Rejection::StoreInputNotWidened
        | Rejection::ComputeInputNotWidened => exists|k: int|
            0 <= k < count && #[trigger] is_order_cause(f, s, k, r),
        Rejection::NotProfitable => forall|plan: Plan, bits: nat| !#[trigger] has_right_plan(
            f,
            s,
            config,
            plan,
            bits,
        ),
        Rejection::IncompatibleTargetMemoryLayout => exists|plan: Plan, bits: nat, k: int|
            #[trigger] has_right_plan(f, s, config, plan, bits) && 0 <= k < count
                && !#[trigger] is_densely_stored(f, s, plan.vf, k),
        _ => exists|k: int|
            0 <= k < count && is_form_cause(f, s, #[trigger] f.body(s.header)[k], r),
    }
}

/// An address is refused for what it is.
proof fn lemma_address_cause(f: Function, s: LoopShape, g: ValueId)
    requires
        loop_address(f, g, s.induction, s.header) is Err,
    ensures
        is_address_cause(f, s, g, loop_address(f, g, s.induction, s.header)->Err_0),
{
    let index = f.operand(g, 1);
    assert(affine_index(f, index, s.induction) is Err ==> is_address_cause(
        f,
        s,
        g,
        affine_index(f, index, s.induction)->Err_0,
    ));
}

/// An instruction is refused for what it is.
proof fn lemma_form_cause(f: Function, s: LoopShape, v: ValueId)
    requires
        contribution(f, s, v) is Err,
    ensures
        is_form_cause(f, s, v, contribution(f, s, v)->Err_0),
{
    let opcode = f.inst(v).opcode;
    let users = f.values@[v as int].users@;
    assert(computes(opcode) == has_lane_form(opcode));
    if opcode == Opcode::GetElementPtr {
        if loop_address(f, v, s.induction, s.header) is Err {
            lemma_address_cause(f, s, v);
        } else if users.len() > 0 {
            let k = choose|k: int|
                0 <= k < users.len() && !is_memory_use(
                    f,
                    v,
                    #[trigger] users[k],
                    s.header,
                );
            assert(!is_access_through(f, s, v, users[k]));
        }
    } else if opcode == Opcode::Load || opcode == Opcode::Store {
        let pointer = f.operand(v, if opcode == Opcode::Load {
            0
        } else {
            1
        });
        if loop_address(f, pointer, s.induction, s.header) is Err {
            lemma_address_cause(f, s, pointer);
        }
    } else if has_lane_form(opcode) {
        let check = |k: int| operand_rejection(f, s, v, k);
        if operands_are_widenable(f, s, v) is Err {
            let k = lemma_first_rejection_cause(check, f.inst(v).operands@.len());
            assert(computes(f.inst(f.operand(v, k)).opcode) == has_lane_form(
                f.inst(f.operand(v, k)).opcode,
            ));
            assert(f.operand(v, k) == f.operand(v, k));
            assert(!has_known_operands(f, s, v));
        }
    }
}

/// A survey that is refused is refused for one instruction.
proof fn lemma_survey_cause(f: Function, s: LoopShape, helpers: Set<ValueId>, count: nat) -> (k: int)
    requires
        totals(f, s, helpers, count) is Err,
    ensures
        0 <= k < count,
        !is_skipped(s, helpers, f.body(s.header)[k]),
        contribution(f, s, f.body(s.header)[k]) is Err,
        contribution(f, s, f.body(s.header)[k])->Err_0 == totals(f, s, helpers, count)->Err_0,
    decreases count,
{
    if totals(f, s, helpers, (count - 1) as nat) is Err {
        lemma_survey_cause(f, s, helpers, (count - 1) as nat)
    } else {
        count - 1
    }
}

/// Accesses are refused for two of them.
proof fn lemma_dependence_cause(f: Function, s: LoopShape) -> (pair: (int, int))
    requires
        ({
            let count = f.body(s.header).len();
            let t = totals(f, s, index_helpers(f, s, count), count);
            t is Ok && dependences(f, t->Ok_0.memory) is Err
        }),
    ensures
        ({
            let count = f.body(s.header).len();
            let t = totals(f, s, index_helpers(f, s, count), count);
            &&& 0 <= pair.0 < pair.1 < count
            &&& is_pair_cause(f, s, pair.0, pair.1, dependences(f, t->Ok_0.memory)->Err_0)
        }),
{
    let count = f.body(s.header).len();
    let memory = totals(f, s, index_helpers(f, s, count), count)->Ok_0.memory;
    let r = dependences(f, memory)->Err_0;
    lemma_totals(f, s, count);
    let rows = |i: int| row_rejection(f, memory, i);
    let i = lemma_first_rejection_cause(rows, memory.len());
    let row = |d: int| pair_rejection(f, memory[i], memory[i + 1 + d]);
    let d = lemma_first_rejection_cause(row, (memory.len() - i - 1) as nat);
    let l = i + 1 + d;
    let a = memory[i];
    let b = memory[l];
    assert(pair_rejection(f, a, b) == Some(r));
    assert(is_some_access(f, s, count, i));
    assert(is_some_access(f, s, count, l));
    let j = choose|j: int|
        0 <= j < count && #[trigger] is_access_number(f, s, j, i);
    let k = choose|k: int|
        0 <= k < count && #[trigger] is_access_number(f, s, k, l);
    if k <= j {
        lemma_counts_grow(f, s, k, j);
    }
    let u = f.body(s.header)[j];
    let v = f.body(s.header)[k];
    lemma_access(f, s, u, a.base, a.offset as int, a.element_type);
    lemma_access(f, s, v, b.base, b.offset as int, b.element_type);
    lemma_separate(f, a.base, b.base);
    lemma_pair(f, a, b);
    assert(touches(f, s, u, a.base, a.offset as int, a.element_type) && touches(
        f,
        s,
        v,
        b.base,
        b.offset as int,
        b.element_type,
    ));
    assert(is_pair_cause(f, s, j, k, r));
    (j, k)
}

/// An instruction that stands out of order is refused for what it reads.
proof fn lemma_order_cause(f: Function, s: LoopShape, k: int)
    requires
        f.wf(),
        s.header < f.blocks@.len(),
        0 <= k < f.body(s.header).len(),
        is_translatable(f, s, k),
        ({
            let helpers = index_helpers(f, s, f.body(s.header).len());
            order_rejection(f, s, helpers, needs_lane_indices(f, s, helpers), k) is Some
        }),
    ensures
        ({
            let helpers = index_helpers(f, s, f.body(s.header).len());
            is_order_cause(
                f,
                s,
                k,
                order_rejection(f, s, helpers, needs_lane_indices(f, s, helpers), k)->0,
            )
        }),
{
    let helpers = index_helpers(f, s, f.body(s.header).len());
    let widen = needs_lane_indices(f, s, helpers);
    let v = f.body(s.header)[k];
    let inst = f.inst(v);
    assert(f.block_is_valid(s.header));
    assert(f.has_value(f.blocks@[s.header as int].instructions@[k]));
    assert(f.value_is_valid(v));
    lemma_helpers(f, s, v);
    lemma_index_reads(f, s);
    if inst.operands@.contains(s.induction) && !is_control(f, s, v) && inst.opcode
        != Opcode::GetElementPtr {
        assert(reads_index(f, s, k));
    }
    assert(computes(inst.opcode) == has_lane_form(inst.opcode));
    lemma_available(f, s, k, f.operand(v, 0));
    lemma_available(f, s, k, f.operand(v, 1));
    if has_lane_form(inst.opcode) {
        let j = choose|j: int|
            0 <= j < inst.operands@.len() && !is_ready(
                f,
                s,
                helpers,
                widen,
                k,
                #[trigger] inst.operands@[j],
            );
        lemma_available(f, s, k, inst.operands@[j]);
        assert(!is_at_hand(f, s, k, inst.operands@[j]));
    }
    if inst.opcode == Opcode::Store {
        assert(inst.operands@[0] == f.operand(v, 0));
        if f.operand(v, 0) == s.induction {
            assert(inst.operands@.contains(s.induction));
        }
    }
}

/// Every refusal is true: a loop that the analysis refuses has what the reason
/// says, and a loop that is not a counted one-block loop is refused as such.
pub proof fn law_reasons_are_true(f: Function, header: BlockId, config: PassConfig)
    requires
        f.wf(),
        header < f.blocks@.len(),
        is_loop_header(f, header),
        analysis(f, header, config) is Err,
    ensures
        ({
            let r = analysis(f, header, config)->Err_0;
            is_shape_cause(f, header, r) || exists|s: LoopShape|
                s.header == header && #[trigger] is_skeleton(f, s) && is_body_cause(
                    f,
                    s,
                    config,
                    r,
                )
        }),
{
    let r = analysis(f, header, config)->Err_0;
    if loop_shape(f, header) is Err {
        law_shape_reasons_are_true(f, header);
    } else {
        let s = loop_shape(f, header)->Ok_0;
        law_counted_loops_are_recognized(f, s);
        assert(is_skeleton(f, s));
        lemma_refused_body(f, s, config);
    }
}

/// A counted loop that is refused is refused for what its body is.
proof fn lemma_refused_body(f: Function, s: LoopShape, config: PassConfig)
    requires
        f.wf(),
        s.header < f.blocks@.len(),
        f.body(s.header).len() <= 96,
        loop_shape(f, s.header) == Ok::<LoopShape, Rejection>(s),
        analysis(f, s.header, config) is Err,
    ensures
        is_body_cause(f, s, config, analysis(f, s.header, config)->Err_0),
{
    let header = s.header;
    let r = analysis(f, header, config)->Err_0;
    let count = f.body(header).len();
    let helpers = index_helpers(f, s, count);
    let widen = needs_lane_indices(f, s, helpers);
    let addresses = |k: int| address_rejection(f, s, k);
    lemma_totals(f, s, count);
    if first_rejection(addresses, count) is Err {
        let k = lemma_first_rejection_cause(addresses, count);
        let g = f.body(header)[k];
        if loop_address(f, g, s.induction, header) is Err {
            lemma_address_cause(f, s, g);
        } else {
            let a = loop_address(f, g, s.induction, header)->Ok_0;
            lemma_address(f, s, g, a.base, a.index.offset as int, a.element_type);
        }
        assert(is_form_cause(f, s, f.body(header)[k], r));
    } else if totals(f, s, helpers, count) is Err {
        let k = lemma_survey_cause(f, s, helpers, count);
        lemma_form_cause(f, s, f.body(header)[k]);
    } else {
        let t = totals(f, s, helpers, count)->Ok_0;
        if t.memory.len() == 0 || t.memory.len() > 24 {
        } else if dependences(f, t.memory) is Err {
            let pair = lemma_dependence_cause(f, s);
            assert(is_pair_cause(f, s, pair.0, pair.1, r));
        } else if widening_order(f, s, helpers, widen) is Err {
            let k = lemma_first_rejection_cause(
                |k: int| order_rejection(f, s, helpers, widen, k),
                count,
            );
            assert(is_translatable(f, s, k));
            lemma_order_cause(f, s, k);
            assert(is_order_cause(f, s, k, r));
        } else {
            lemma_refused_plan(f, s, config, r);
        }
    }
}

/// A plan is refused because there is no right one, or because an object is not
/// densely stored for it.
proof fn lemma_refused_plan(f: Function, s: LoopShape, config: PassConfig, r: Rejection)
    requires
        f.body(s.header).len() <= 96,
        ({
            let count = f.body(s.header).len();
            let t = totals(f, s, index_helpers(f, s, count), count);
            &&& t is Ok
            &&& plan_for(
                f,
                s.trip_count,
                t->Ok_0.bits,
                t->Ok_0.cost,
                t->Ok_0.memory,
                config,
            ) == Err::<Plan, Rejection>(r)
        }),
    ensures
        is_body_cause(f, s, config, r),
{
    let count = f.body(s.header).len();
    let t = totals(f, s, index_helpers(f, s, count), count)->Ok_0;
    let costs = LoopCosts {
        scalar_iteration: t.cost as u64,
        vector_iteration: t.cost as u64,
        setup: 6,
    };
    lemma_totals(f, s, count);
    lemma_cost_is_bounded(f, s, count);
    assert(estimated_trip_count(f, s.trip_count) == expected_trips(f, s));
    match planned(config, t.bits as nat, expected_trips(f, s), costs) {
        None => {
            assert forall|plan: Plan, bits: nat| !#[trigger] has_right_plan(
                f,
                s,
                config,
                plan,
                bits,
            ) by {
                if has_right_plan(f, s, config, plan, bits) {
                    lemma_widest_is_unique(f, s, count, bits, t.bits as nat);
                    law_plans_are_right(config, bits, expected_trips(f, s), costs, plan);
                }
            }
        },
        Some(plan) => {
            law_plans_are_right(config, t.bits as nat, expected_trips(f, s), costs, plan);
            assert(has_right_plan(f, s, config, plan, t.bits as nat));
            lemma_layouts(f, s, plan.vf);
            let k = choose|k: int|
                0 <= k < count && !#[trigger] is_densely_stored(f, s, plan.vf, k);
            assert(!is_densely_stored(f, s, plan.vf, k));
        },
    }
}

/// The turn at which a reason about a canonical induction's loop is looked at.
pub open spec fn turn(r: Rejection) -> nat {
    match r {
        Rejection::PreheaderTerminatorMustBeBranch => 1,
        Rejection::LoopNeedsUniquePreheader => 2,
        Rejection::AlreadyVectorized => 3,
        Rejection::LatchConditionMustBeIcmp => 4,
        Rejection::LatchMustCompareNextInduction => 5,
        Rejection::TripCountNotLoopInvariant => 6,
        Rejection::UnsupportedLatchPredicate => 7,
        Rejection::InductionNextHasDataUse => 8,
        Rejection::LatchCompareHasDataUse => 9,
        _ => 0,
    }
}

/// Of several reasons against a loop's shape, the first in a fixed order is
/// given: its size, values used outside, its metadata, a PHI at the exit, its own
/// PHIs, its entry, and its latch.
pub proof fn law_shape_reasons_come_in_order(f: Function, header: BlockId)
    requires
        f.wf(),
        header < f.blocks@.len(),
        is_loop_header(f, header),
        loop_shape(f, header) is Err,
    ensures
        ({
            let r = loop_shape(f, header)->Err_0;
            let is_size = r == Rejection::InstructionBudgetExceeded;
            let is_use = is_size || r == Rejection::LoopValueLiveOut;
            let is_metadata = is_use || r == Rejection::DisabledByLoopMetadata;
            let is_exit = is_metadata || r == Rejection::LiveOutPhi;
            &&& is_size || !is_shape_cause(f, header, Rejection::InstructionBudgetExceeded)
            &&& is_use || !is_shape_cause(f, header, Rejection::LoopValueLiveOut)
            &&& is_metadata || !is_shape_cause(f, header, Rejection::DisabledByLoopMetadata)
            &&& is_exit || !is_shape_cause(f, header, Rejection::LiveOutPhi)
            &&& turn(r) > 0 ==> forall|s: LoopShape, e: Rejection|
                s.header == header && #[trigger] counts_up(f, s) && 0 < turn(e) < turn(r)
                    ==> !#[trigger] is_counter_cause(f, s, e)
        }),
{
    let r = loop_shape(f, header)->Err_0;
    let terminator = f.blocks@[header as int].terminator->0;
    let successors = f.inst(terminator).successors@;
    let exit = loop_exit(f, header);
    if f.body(header).len() <= 96 && no_live_outs(f, header) {
        assert(!is_shape_cause(f, header, Rejection::LoopValueLiveOut));
    }
    if !has_phi(f, exit) {
        assert forall|i: int, k: int|
            0 <= i < 2 && (successors[i] != header || successors[1 - i] == header) && 0 <= k
                < f.body(successors[i]).len() implies !f.is_op(
            #[trigger] f.body(successors[i])[k],
            Opcode::Phi,
        ) by {
            assert(successors[i] == exit);
        }
    }
    if turn(r) > 0 {
        if loop_induction(f, header) is Err {
            lemma_no_induction(f, header);
            lemma_induction_reasons(f, header);
        }
        assert forall|s: LoopShape, e: Rejection|
            s.header == header && #[trigger] counts_up(f, s) && 0 < turn(e) < turn(r) implies !#[trigger] is_counter_cause(
            f,
            s,
            e,
        ) by {
            lemma_induction(f, s);
            lemma_own_name(f.blocks@[s.preheader as int].name@);
            if e == Rejection::LoopNeedsUniquePreheader {
                let k = choose|k: usize| unique_entry(f, header, s.preheader, k);
                assert(unique_entry(f, header, s.preheader, k));
                assert(is_only_entry(f, header, s.preheader, k)) by {
                    assert forall|b: BlockId, j: int| #[trigger]
                        enters(f, header, b, j) <==> b == s.preheader && j == k by {
                        assert(external_edge(f, header, b, j) <==> b == s.preheader && j == k);
                    }
                }
            }
            if e == Rejection::InductionNextHasDataUse {
                assert(used_only_by(
                    f,
                    s.induction_next,
                    s.induction,
                    f.operand(terminator, 0),
                ));
            }
        }
    }
}

/// The PHIs of a header are refused for the reasons against PHIs.
proof fn lemma_induction_reasons(f: Function, header: BlockId)
    requires
        loop_induction(f, header) is Err,
    ensures
        turn(loop_induction(f, header)->Err_0) == 0,
{
}

/// Of several reasons against a counted loop, the first in a fixed order is given:
/// its addresses, its other instructions, the number of its accesses, what they
/// touch, the order of its instructions, and last its plan.
pub proof fn law_body_reasons_come_in_order(f: Function, s: LoopShape, config: PassConfig)
    requires
        f.wf(),
        is_skeleton(f, s),
        analysis(f, s.header, config) is Err,
    ensures
        ({
            let r = analysis(f, s.header, config)->Err_0;
            let count = f.body(s.header).len();
            let is_plan = r == Rejection::NotProfitable || r
                == Rejection::IncompatibleTargetMemoryLayout;
            let is_order = is_plan || r == Rejection::LoadPointerNotWidened || r
                == Rejection::StoreInputNotWidened || r == Rejection::ComputeInputNotWidened;
            let is_pair = is_order || r == Rejection::PossiblePointerAlias || r
                == Rejection::MixedTypeMemoryDependence || r
                == Rejection::LoopCarriedMemoryDependence;
            let is_number = is_pair || r == Rejection::NoMemoryAccess || r
                == Rejection::MemoryAccessBudgetExceeded;
            &&& is_number ==> forall|k: int|
                0 <= k < count ==> #[trigger] is_clean_address(f, s, k)
            &&& is_number ==> forall|k: int|
                0 <= k < count ==> #[trigger] is_translatable(f, s, k)
            &&& is_pair ==> 1 <= access_count(f, s, count) <= 24
            &&& is_order ==> forall|j: int, k: int|
                0 <= j < k < count ==> #[trigger] is_free_pair(f, s, j, k)
            &&& is_plan ==> forall|k: int|
                0 <= k < count ==> #[trigger] is_vectorizable(f, s, k)
        }),
{
    let header = s.header;
    let count = f.body(header).len();
    let helpers = index_helpers(f, s, count);
    let widen = needs_lane_indices(f, s, helpers);
    let addresses = |k: int| address_rejection(f, s, k);
    law_counted_loops_are_recognized(f, s);
    lemma_addresses(f, s);
    lemma_totals(f, s, count);
    if first_rejection(addresses, count) is Err {
        let k = lemma_first_rejection_cause(addresses, count);
    } else if totals(f, s, helpers, count) is Err {
        let k = lemma_survey_cause(f, s, helpers, count);
        lemma_form_cause(f, s, f.body(header)[k]);
    } else {
        let t = totals(f, s, helpers, count)->Ok_0;
        lemma_free_pairs(f, s);
        if dependences(f, t.memory) is Err {
            let pair = lemma_dependence_cause(f, s);
        } else {
            lemma_vectorizable_body(f, s);
            if widening_order(f, s, helpers, widen) is Err {
                let k = lemma_first_rejection_cause(
                    |k: int| order_rejection(f, s, helpers, widen, k),
                    count,
                );
                assert(is_translatable(f, s, k));
                lemma_order_cause(f, s, k);
            }
        }
    }
}

/// A loop in which a store and another access may touch the same memory stays
/// scalar: where their objects differ and are neither two global variables nor two
/// arguments marked `noalias`, no configuration has it vectorized.
pub proof fn law_possible_aliases_are_refused(
    f: Function,
    s: LoopShape,
    config: PassConfig,
    j: int,
    k: int,
    first: (ValueId, int, ScalarType),
    second: (ValueId, int, ScalarType),
)
    requires
        f.wf(),
        is_skeleton(f, s),
        0 <= j < k < f.body(s.header).len(),
        is_memory(f, s, j),
        is_memory(f, s, k),
        f.is_op(f.body(s.header)[j], Opcode::Store) || f.is_op(f.body(s.header)[k], Opcode::Store),
        touches(f, s, f.body(s.header)[j], first.0, first.1, first.2),
        touches(f, s, f.body(s.header)[k], second.0, second.1, second.2),
        first.0 != second.0,
        !(f.values@[first.0 as int].kind is GlobalVariable && f.values@[second.0 as int].kind
            is GlobalVariable),
        !(is_marked_noalias(f, first.0)
            && is_marked_noalias(f, second.0)),
    ensures
        analysis(f, s.header, config) is Err,
        // Where nothing else stands against the loop, this is the reason.
        (forall|i: int|
            0 <= i < f.body(s.header).len() ==> #[trigger] is_clean_address(f, s, i)) && (forall|
            i: int,
        |
            0 <= i < f.body(s.header).len() ==> #[trigger] is_translatable(f, s, i)) && 1
            <= access_count(f, s, f.body(s.header).len()) <= 24 && (forall|i: int, l: int|
            0 <= i < l < f.body(s.header).len() && (i, l) != (j, k) ==> #[trigger] is_free_pair(
                f,
                s,
                i,
                l,
            )) ==> analysis(f, s.header, config) == Err::<(CandidateView, Plan), Rejection>(
            Rejection::PossiblePointerAlias,
        ),
{
    let header = s.header;
    let count = f.body(header).len();
    let u = f.body(header)[j];
    let v = f.body(header)[k];
    assert(!are_separate(f, first.0, second.0)) by {
        if are_separate(f, first.0, second.0) && !(f.values@[first.0 as int].kind
            is GlobalVariable) {
            lemma_unaliased_is_marked(f, first.0);
            lemma_unaliased_is_marked(f, second.0);
        }
    }
    assert(!are_independent(f, first, second));
    assert(!is_free_pair(f, s, j, k));
    law_counted_loops_are_recognized(f, s);
    lemma_addresses(f, s);
    lemma_totals(f, s, count);
    let helpers = index_helpers(f, s, count);
    if totals(f, s, helpers, count) is Ok {
        lemma_free_pairs(f, s);
        let t = totals(f, s, helpers, count)->Ok_0;
        let pair = lemma_dependence_cause(f, s);
        let r = dependences(f, t.memory)->Err_0;
        assert(is_pair_cause(f, s, pair.0, pair.1, r));
        if forall|i: int, l: int|
            0 <= i < l < count && (i, l) != (j, k) ==> #[trigger] is_free_pair(f, s, i, l) {
            lemma_cause_is_no_free_pair(f, s, pair.0, pair.1, r);
            assert(!is_free_pair(f, s, pair.0, pair.1));
            assert(pair == (j, k));
            assert forall|
                b: ValueId,
                c: int,
                t: ScalarType,
                d: ValueId,
                e: int,
                o: ScalarType,
            |
                #[trigger] touches(f, s, u, b, c, t) && #[trigger] touches(f, s, v, d, e, o) implies b
                == first.0 && d == second.0 by {
                lemma_access(f, s, u, b, c, t);
                lemma_access(f, s, v, d, e, o);
                lemma_access(f, s, u, first.0, first.1, first.2);
                lemma_access(f, s, v, second.0, second.1, second.2);
            }
            assert(r == Rejection::PossiblePointerAlias);
        }
    }
}

/// Accesses that a reason is given against are not free.
proof fn lemma_cause_is_no_free_pair(f: Function, s: LoopShape, j: int, k: int, r: Rejection)
    requires
        is_pair_cause(f, s, j, k, r),
    ensures
        !is_free_pair(f, s, j, k),
{
    let u = f.body(s.header)[j];
    let v = f.body(s.header)[k];
    let (b, c, t, d, e, o) = choose|
        b: ValueId,
        c: int,
        t: ScalarType,
        d: ValueId,
        e: int,
        o: ScalarType,
    |
        #[trigger] touches(f, s, u, b, c, t) && #[trigger] touches(f, s, v, d, e, o) && match r {
            Rejection::PossiblePointerAlias => b != d && !are_separate(f, b, d),
            Rejection::MixedTypeMemoryDependence => b == d && t != o,
            Rejection::LoopCarriedMemoryDependence => b == d && t == o && c != e,
            _ => false,
        };
    assert(touches(f, s, u, b, c, t) && touches(f, s, v, d, e, o));
    assert(!are_independent(f, (b, c, t), (d, e, o)));
}

/// An argument that counts as unaliased is marked so.
proof fn lemma_unaliased_is_marked(f: Function, v: ValueId)
    requires
        is_unaliased(f, v),
    ensures
        is_marked_noalias(f, v),
{
    let k = choose|k: int|
        0 <= k < f.parameters@.len() && #[trigger] f.parameters@[k].value == v
            && f.parameters@[k].noalias && forall|j: int|
            0 <= j < k ==> #[trigger] f.parameters@[j].value != v;
    assert(f.parameters@[k] == (Parameter { value: v, noalias: true }));
}

} // verus!
