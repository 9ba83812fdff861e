//! The loops that are vectorized, described by their instructions alone.
//!
//! The analysis finds a loop's parts in order and stops at the first obstacle.
//! The definitions here say what an accepted loop looks like, and the laws show
//! that the analysis accepts exactly the loops that look like this.

use crate::analysis::{analysis, estimated_trip_count, is_packed, plan_for, CandidateView};
use crate::body::{
    address_rejection, contribution, index_helpers, is_index_helper, is_skipped, operand_rejection,
    operands_are_widenable, totals,
};
use crate::config::{Heuristic, PassConfig};
use crate::cost::{is_right_plan, law_plans_are_right, LoopCosts, Plan};
use crate::dependence::AccessKind;
use crate::ir::{
    BlockId, Function, IntPredicate, Opcode, PackedLayout, ScalarType, ValueId, ValueKind,
};
use crate::memory::{
    affine, affine_index, dependences, is_noalias_argument, loop_address, memory_access,
    pair_rejection, row_rejection, statically_disjoint, MemoryAccess,
};
use crate::operations::computes;
use crate::recognize::{
    control_uses, entry_edge, external_edge, has_phi, is_loop_header, leading_phis, loop_induction,
    no_live_outs, unique_entry, used_only_by, Induction,
};
use crate::rejection::{first_rejection, lemma_first_rejection_ok, Rejection};
use crate::shape::{lemma_induction_is_valid, loop_exit, loop_shape, LoopShape};
use crate::widening::{
    is_available, is_ready, needs_lane_indices, order_rejection, produces_vector,
    uses_induction_as_data, widening_order,
};
use vstd::prelude::*;

verus! {

/// Value `v` is the integer constant `c`.
pub open spec fn is_constant(f: Function, v: ValueId, c: int) -> bool {
    f.values@[v as int].kind matches ValueKind::ConstantInt { signed, .. } && signed == c
}

/// The block name is one that this pass gives.
pub open spec fn is_own_name(name: Seq<char>) -> bool {
    name.len() >= 3 && name[0] == 'r' && name[1] == 'v' && name[2] == '.'
}

/// Block `b`, other than `header`, goes on to `header` as its successor `k`.
pub open spec fn enters(f: Function, header: BlockId, b: BlockId, k: int) -> bool {
    &&& b < f.blocks@.len()
    &&& b != header
    &&& f.blocks@[b as int].terminator is Some
    &&& 0 <= k < f.inst(f.blocks@[b as int].terminator->0).successors@.len()
    &&& f.inst(f.blocks@[b as int].terminator->0).successors@[k] == header
}

/// The induction counts from zero in steps of one: it comes into the header as
/// zero from the preheader, and as its own value plus one from the header.
pub open spec fn counts_up(f: Function, s: LoopShape) -> bool {
    let inside: int = 1 - s.outside_phi_index;
    let incoming = f.inst(s.induction).incoming_blocks@;
    let next = s.induction_next;
    &&& f.body(s.header).contains(s.induction)
    &&& f.is_op(s.induction, Opcode::Phi)
    &&& forall|k: int|
        0 <= k < f.body(s.header).len() && f.is_op(#[trigger] f.body(s.header)[k], Opcode::Phi)
            ==> f.body(s.header)[k] == s.induction
    &&& f.ty(s.induction) == ScalarType::Integer(64)
    &&& incoming.len() == 2
    &&& s.outside_phi_index == 0 || s.outside_phi_index == 1
    &&& incoming[inside] == s.header
    &&& incoming[s.outside_phi_index as int] == s.preheader
    &&& s.preheader != s.header
    &&& is_constant(f, f.operand(s.induction, s.outside_phi_index as int), 0)
    &&& f.operand(s.induction, inside) == next
    &&& f.is_op(next, Opcode::Add)
    &&& {
        ||| f.operand(next, 0) == s.induction && is_constant(f, f.operand(next, 1), 1)
        ||| f.operand(next, 1) == s.induction && is_constant(f, f.operand(next, 0), 1)
    }
}

/// The loop is entered through one edge, from the preheader.
pub open spec fn has_one_entry(f: Function, s: LoopShape) -> bool {
    &&& f.blocks@[s.preheader as int].terminator is Some
    &&& f.is_op(f.blocks@[s.preheader as int].terminator->0, Opcode::Br)
    &&& forall|b: BlockId, k: int| #[trigger]
        enters(f, s.header, b, k) <==> b == s.preheader && k == s.preheader_successor_index
    &&& !is_own_name(f.blocks@[s.preheader as int].name@)
}

/// The latch leaves the loop when the next index reaches the trip count, which
/// does not change in the loop.
pub open spec fn leaves_at_trip_count(f: Function, s: LoopShape) -> bool {
    let successors = f.inst(s.terminator).successors@;
    let stays_on_true = successors[0] == s.header && successors[1] == s.exit;
    let stays_on_false = successors[0] == s.exit && successors[1] == s.header;
    let left = f.operand(s.latch_compare, 0);
    let right = f.operand(s.latch_compare, 1);
    &&& f.blocks@[s.header as int].terminator == Some(s.terminator)
    &&& f.is_op(s.terminator, Opcode::Br)
    &&& successors.len() == 2
    &&& s.exit != s.header
    &&& f.operand(s.terminator, 0) == s.latch_compare
    &&& f.is_op(s.latch_compare, Opcode::ICmp)
    &&& {
        ||| left == s.induction_next && right == s.trip_count
        ||| left != s.induction_next && right == s.induction_next && left == s.trip_count
    }
    &&& !f.in_block(s.trip_count, s.header)
    &&& match f.inst(s.latch_compare).int_predicate {
        IntPredicate::Eq => stays_on_false,
        IntPredicate::Ne => stays_on_true,
        IntPredicate::Ult => stays_on_true && left == s.induction_next,
        _ => false,
    }
}

/// Nothing but the loop's own control uses the next index and the comparison,
/// and nothing outside the loop uses a value of it.
pub open spec fn keeps_to_itself(f: Function, s: LoopShape) -> bool {
    &&& forall|k: int|
        0 <= k < f.values@[s.induction_next as int].users@.len() ==> {
            ||| #[trigger] f.values@[s.induction_next as int].users@[k] == s.induction
            ||| f.values@[s.induction_next as int].users@[k] == s.latch_compare
        }
    &&& forall|k: int|
        0 <= k < f.values@[s.latch_compare as int].users@.len()
            ==> #[trigger] f.values@[s.latch_compare as int].users@[k] == s.terminator
    &&& forall|k: int, j: int|
        0 <= k < f.body(s.header).len() && 0 <= j < f.values@[f.body(
            s.header,
        )[k] as int].users@.len() ==> f.in_block(
            #[trigger] f.values@[#[trigger] f.body(s.header)[k] as int].users@[j],
            s.header,
        )
    &&& forall|k: int|
        0 <= k < f.body(s.exit).len() ==> !f.is_op(#[trigger] f.body(s.exit)[k], Opcode::Phi)
}

/// `s` names the parts of a counted one-block loop.
pub open spec fn is_skeleton(f: Function, s: LoopShape) -> bool {
    &&& s.header < f.blocks@.len()
    &&& f.body(s.header).len() <= 96
    &&& !f.inst(s.terminator).vectorize_disabled
    &&& counts_up(f, s)
    &&& has_one_entry(f, s)
    &&& leaves_at_trip_count(f, s)
    &&& keeps_to_itself(f, s)
}

/// The prefix that marks a block of this pass has three characters.
pub proof fn lemma_own_name(name: Seq<char>)
    ensures
        "rv."@.is_prefix_of(name) <==> is_own_name(name),
{
    reveal_strlit("rv.");
    let mark = "rv."@;
    if mark.is_prefix_of(name) {
        assert(name.subrange(0, 3)[0] == mark[0] && name.subrange(0, 3)[1] == mark[1]
            && name.subrange(0, 3)[2] == mark[2]);
    }
    if is_own_name(name) {
        assert(name.subrange(0, 3) =~= mark);
    }
}

/// The induction is found where the header has one PHI and it counts up.
pub proof fn lemma_induction(f: Function, s: LoopShape)
    requires
        f.wf(),
        s.header < f.blocks@.len(),
    ensures
        loop_induction(f, s.header) == Ok::<Induction, Rejection>(
            Induction {
                phi: s.induction,
                next: s.induction_next,
                preheader: s.preheader,
                outside_index: s.outside_phi_index,
            },
        ) <==> counts_up(f, s),
{
    let header = s.header;
    let body = f.body(header);
    let is_phi = |v: ValueId| f.is_op(v, Opcode::Phi);
    let phis = leading_phis(f, header, body.len());
    assert(f.block_is_valid(header));
    assert(body.take(body.len() as int) =~= body);
    assert(phis == body.filter(is_phi));
    if loop_induction(f, header) is Ok {
        lemma_induction_is_valid(f, header);
        let phi = phis[0];
        assert(phis.len() == 1);
        assert forall|k: int| 0 <= k < body.len() && f.is_op(#[trigger] body[k], Opcode::Phi) implies body[k]
            == phi by {
            body.lemma_filter_contains(is_phi, k);
            assert(phis.contains(body[k]));
        }
        assert(f.value_is_valid(phi));
    }
    if counts_up(f, s) {
        let k = choose|k: int| 0 <= k < body.len() && body[k] == s.induction;
        body.lemma_filter_contains(is_phi, k);
        assert(phis.contains(s.induction));
        assert forall|i: int| 0 <= i < phis.len() implies #[trigger] phis[i] == s.induction by {
            body.lemma_filter_contains_rev(is_phi, phis[i]);
            body.lemma_filter_pred(is_phi, i);
        }
        lemma_filter_of_distinct(body, is_phi);
        if phis.len() > 1 {
            assert(phis[0] != phis[1]);
        }
        assert(phis.len() == 1);
        assert(f.has_value(f.blocks@[header as int].instructions@[k]));
        assert(f.value_is_valid(s.induction));
    }
}

/// A selection of distinct values has distinct values.
pub proof fn lemma_filter_of_distinct(values: Seq<ValueId>, keep: spec_fn(ValueId) -> bool)
    requires
        forall|i: int, j: int|
            0 <= i < j < values.len() ==> #[trigger] values[i] != #[trigger] values[j],
    ensures
        forall|i: int, j: int|
            0 <= i < j < values.filter(keep).len() ==> #[trigger] values.filter(keep)[i]
                != #[trigger] values.filter(keep)[j],
    decreases values.len(),
{
    reveal(Seq::filter);
    if values.len() > 0 {
        let front = values.drop_last();
        lemma_filter_of_distinct(front, keep);
        if keep(values.last()) {
            let kept = front.filter(keep);
            assert(values.filter(keep) == kept.push(values.last()));
            assert forall|i: int| 0 <= i < kept.len() implies #[trigger] kept[i] != values.last() by {
                front.lemma_filter_contains_rev(keep, kept[i]);
                let k = choose|k: int| 0 <= k < front.len() && front[k] == kept[i];
                assert(values[k] != values[values.len() - 1]);
            }
        }
    }
}

/// The parts of a loop are recognized exactly where it is a counted one-block
/// loop, and then they are the ones that its instructions name.
pub proof fn law_counted_loops_are_recognized(f: Function, s: LoopShape)
    requires
        f.wf(),
        s.header < f.blocks@.len(),
    ensures
        is_loop_header(f, s.header) && loop_shape(f, s.header) == Ok::<LoopShape, Rejection>(s)
            <==> is_skeleton(f, s),
{
    let header = s.header;
    let terminator = f.blocks@[header as int].terminator->0;
    lemma_induction(f, s);
    lemma_own_name(f.blocks@[s.preheader as int].name@);
    if is_loop_header(f, header) && loop_shape(f, header) == Ok::<LoopShape, Rejection>(s) {
        assert(loop_induction(f, header) is Ok);
        lemma_induction_is_valid(f, header);
        assert(f.body(header).len() <= 96);
        assert(unique_entry(f, header, s.preheader, s.preheader_successor_index));
        assert forall|b: BlockId, k: int| #[trigger] enters(f, header, b, k) <==> b == s.preheader
            && k == s.preheader_successor_index by {
            assert(external_edge(f, header, b, k) <==> b == s.preheader && k
                == s.preheader_successor_index);
        }
        assert(leaves_at_trip_count(f, s));
        assert(keeps_to_itself(f, s)) by {
            assert(!has_phi(f, s.exit));
            assert(no_live_outs(f, header));
        }
    }
    if is_skeleton(f, s) {
        assert(loop_exit(f, header) == s.exit);
        assert(no_live_outs(f, header));
        assert(!has_phi(f, s.exit));
        assert(unique_entry(f, header, s.preheader, s.preheader_successor_index)) by {
            assert forall|b: BlockId, k: int| #[trigger]
                external_edge(f, header, b, k) <==> b == s.preheader && k
                    == s.preheader_successor_index by {
                assert(enters(f, header, b, k) <==> b == s.preheader && k
                    == s.preheader_successor_index);
            }
        }
        assert(entry_edge(f, header, s.preheader) == Ok::<usize, Rejection>(
            s.preheader_successor_index,
        )) by {
            let k = choose|k: usize| unique_entry(f, header, s.preheader, k);
            assert(external_edge(f, header, s.preheader, k as int));
        }
        assert(control_uses(
            f,
            s.induction,
            s.induction_next,
            s.latch_compare,
            s.terminator,
        ) is Ok) by {
            assert(used_only_by(f, s.induction_next, s.induction, s.latch_compare));
            assert(used_only_by(f, s.latch_compare, s.terminator, s.terminator));
        }
    }
}

/// Index `v` is the induction plus the constant `c`.
pub open spec fn is_offset(f: Function, induction: ValueId, v: ValueId, c: int) -> bool {
    let left = f.operand(v, 0);
    let right = f.operand(v, 1);
    ||| v == induction && c == 0
    ||| v != induction && f.is_op(v, Opcode::Add) && left == induction && is_constant(f, right, c)
    ||| v != induction && f.is_op(v, Opcode::Add) && left != induction && right == induction
        && is_constant(f, left, c)
    ||| v != induction && f.is_op(v, Opcode::Sub) && left == induction && is_constant(f, right, -c)
        && c <= 0x7FFF_FFFF_FFFF_FFFF
}

/// The types whose elements memory can hold.
pub open spec fn is_element(ty: ScalarType) -> bool {
    ||| ty == ScalarType::Integer(8)
    ||| ty == ScalarType::Integer(16)
    ||| ty == ScalarType::Integer(32)
    ||| ty == ScalarType::Integer(64)
    ||| ty is Half
    ||| ty is Float
    ||| ty is Double
}

/// How many bits a value of a type has.
pub open spec fn width(ty: ScalarType) -> nat {
    match ty {
        ScalarType::Integer(bits) => bits as nat,
        ScalarType::Half => 16,
        ScalarType::Float => 32,
        ScalarType::Double => 64,
        ScalarType::Other(_) => 0,
    }
}

/// `g` is the address of element induction plus `c` of the object `base`.
pub open spec fn is_address(
    f: Function,
    s: LoopShape,
    g: ValueId,
    base: ValueId,
    c: int,
    ty: ScalarType,
) -> bool {
    let kind = f.values@[base as int].kind;
    &&& f.inst(g).operands@.len() == 2
    &&& f.operand(g, 0) == base
    &&& kind is Argument || kind is GlobalVariable
    &&& is_offset(f, s.induction, f.operand(g, 1), c)
    &&& f.inst(g).element_type == ty
    &&& is_element(ty)
}

/// Load or store `v` touches element induction plus `c` of the object `base`.
pub open spec fn touches(
    f: Function,
    s: LoopShape,
    v: ValueId,
    base: ValueId,
    c: int,
    ty: ScalarType,
) -> bool {
    let is_load = f.inst(v).opcode == Opcode::Load;
    let pointer = f.operand(v, if is_load {
        0
    } else {
        1
    });
    &&& is_load || f.inst(v).opcode == Opcode::Store
    &&& !f.inst(v).volatile && !f.inst(v).atomic
    &&& f.is_op(pointer, Opcode::GetElementPtr)
    &&& f.in_block(pointer, s.header)
    &&& is_address(f, s, pointer, base, c, ty)
    &&& ty == (if is_load {
        f.ty(v)
    } else {
        f.ty(f.operand(v, 0))
    })
}

/// `v` computes an index for an address of the loop.
pub open spec fn is_helper(f: Function, s: LoopShape, v: ValueId) -> bool {
    exists|k: int|
        0 <= k < f.body(s.header).len() && #[trigger] is_indexed_by(f, s, f.body(s.header)[k], v)
}

/// `g` is an address whose index is computed by `v`.
pub open spec fn is_indexed_by(f: Function, s: LoopShape, g: ValueId, v: ValueId) -> bool {
    &&& f.is_op(g, Opcode::GetElementPtr)
    &&& f.operand(g, 1) == v
    &&& v != s.induction
    &&& exists|base: ValueId, c: int, ty: ScalarType| #[trigger] is_address(f, s, g, base, c, ty)
}

/// `v` is control or index arithmetic, which the vector loop has of its own.
pub open spec fn is_control(f: Function, s: LoopShape, v: ValueId) -> bool {
    ||| v == s.induction
    ||| v == s.induction_next
    ||| v == s.latch_compare
    ||| v == s.terminator
    ||| is_helper(f, s, v)
}

/// The value of an index is read off its instruction.
proof fn lemma_offset(f: Function, induction: ValueId, v: ValueId, c: int)
    ensures
        affine_index(f, v, induction) is Ok && affine_index(f, v, induction)->Ok_0.offset == c
            <==> is_offset(f, induction, v, c),
        affine_index(f, v, induction) matches Ok(index) ==> index.node == (if v == induction {
            None
        } else {
            Some(v)
        }),
{
}

/// The analysis reads an address as it is.
pub proof fn lemma_address(
    f: Function,
    s: LoopShape,
    g: ValueId,
    base: ValueId,
    c: int,
    ty: ScalarType,
)
    ensures
        ({
            let address = loop_address(f, g, s.induction, s.header);
            address is Ok && address->Ok_0.base == base && address->Ok_0.index.offset == c
                && address->Ok_0.element_type == ty
        }) <==> is_address(f, s, g, base, c, ty),
        loop_address(f, g, s.induction, s.header) matches Ok(address) ==> address.index.node == (
        if f.operand(g, 1) == s.induction {
            None
        } else {
            Some(f.operand(g, 1))
        }),
{
    lemma_offset(f, s.induction, f.operand(g, 1), c);
}

/// The analysis reads an access as it is.
pub proof fn lemma_access(
    f: Function,
    s: LoopShape,
    v: ValueId,
    base: ValueId,
    c: int,
    ty: ScalarType,
)
    requires
        f.inst(v).opcode == Opcode::Load || f.inst(v).opcode == Opcode::Store,
    ensures
        ({
            let access = memory_access(f, v, s.induction, s.header);
            access is Ok && access->Ok_0.base == base && access->Ok_0.offset == c
                && access->Ok_0.element_type == ty
        }) <==> touches(f, s, v, base, c, ty),
        memory_access(f, v, s.induction, s.header) matches Ok(access) ==> (access.kind
            == AccessKind::Write <==> f.inst(v).opcode == Opcode::Store),
{
    let pointer = f.operand(v, if f.inst(v).opcode == Opcode::Load {
        0
    } else {
        1
    });
    lemma_address(f, s, pointer, base, c, ty);
}

/// The index helpers are the values that compute indices.
pub proof fn lemma_helpers(f: Function, s: LoopShape, v: ValueId)
    ensures
        index_helpers(f, s, f.body(s.header).len()).contains(v) <==> is_helper(f, s, v),
        is_skipped(s, index_helpers(f, s, f.body(s.header).len()), v) <==> is_control(f, s, v),
{
    let count = f.body(s.header).len();
    assert forall|k: int| 0 <= k < count implies (#[trigger] is_index_helper(f, s, k, v)
        <==> is_indexed_by(f, s, f.body(s.header)[k], v)) by {
        let g = f.body(s.header)[k];
        if loop_address(f, g, s.induction, s.header) is Ok {
            let a = loop_address(f, g, s.induction, s.header)->Ok_0;
            lemma_address(f, s, g, a.base, a.index.offset as int, a.element_type);
        }
        if is_indexed_by(f, s, g, v) {
            let (base, c, ty) = choose|base: ValueId, c: int, ty: ScalarType| #[trigger]
                is_address(f, s, g, base, c, ty);
            lemma_address(f, s, g, base, c, ty);
        }
    }
    if is_helper(f, s, v) {
        let k = choose|k: int|
            0 <= k < count && #[trigger] is_indexed_by(f, s, f.body(s.header)[k], v);
        assert(is_index_helper(f, s, k, v));
    }
    if index_helpers(f, s, count).contains(v) {
        let k = choose|k: int| 0 <= k < count && #[trigger] is_index_helper(f, s, k, v);
        assert(is_indexed_by(f, s, f.body(s.header)[k], v));
    }
}

/// The operations that have a lane-wise form, one by one.
pub open spec fn has_lane_form(opcode: Opcode) -> bool {
    match opcode {
        Opcode::Add | Opcode::Sub | Opcode::Mul => true,
        Opcode::FAdd | Opcode::FSub | Opcode::FMul => true,
        Opcode::UDiv | Opcode::SDiv | Opcode::FDiv => true,
        Opcode::URem | Opcode::SRem | Opcode::FRem => true,
        Opcode::Shl | Opcode::LShr | Opcode::AShr => true,
        Opcode::And | Opcode::Or | Opcode::Xor => true,
        Opcode::FNeg => true,
        Opcode::Trunc | Opcode::ZExt | Opcode::SExt => true,
        Opcode::FPToUI | Opcode::FPToSI | Opcode::UIToFP | Opcode::SIToFP => true,
        Opcode::FPTrunc | Opcode::FPExt => true,
        Opcode::ICmp | Opcode::FCmp | Opcode::Select => true,
        Opcode::Br | Opcode::Phi | Opcode::GetElementPtr | Opcode::Load | Opcode::Store => false,
        Opcode::PtrToInt | Opcode::IntToPtr | Opcode::BitCast | Opcode::AddrSpaceCast => false,
        Opcode::Other => false,
    }
}

/// The operations whose result has another type than their input.
pub open spec fn changes_type(opcode: Opcode) -> bool {
    match opcode {
        Opcode::Trunc | Opcode::ZExt | Opcode::SExt => true,
        Opcode::FPToUI | Opcode::FPToSI | Opcode::UIToFP | Opcode::SIToFP => true,
        Opcode::FPTrunc | Opcode::FPExt => true,
        _ => false,
    }
}

/// The operation works on scalars: a comparison by what it compares, a conversion
/// by its input and its result, any other by its result.
pub open spec fn works_on_scalars(f: Function, v: ValueId) -> bool {
    let opcode = f.inst(v).opcode;
    let input = f.ty(f.operand(v, 0));
    if opcode == Opcode::ICmp || opcode == Opcode::FCmp {
        !(input is Other)
    } else if changes_type(opcode) {
        !(input is Other) && !(f.ty(v) is Other)
    } else {
        !(f.ty(v) is Other)
    }
}

/// The bits of the widest scalar that instruction `v` handles in each lane.
pub open spec fn lane_width(f: Function, v: ValueId) -> nat {
    let opcode = f.inst(v).opcode;
    let result = width(f.ty(v));
    let input = width(f.ty(f.operand(v, 0)));
    if opcode == Opcode::GetElementPtr {
        width(f.inst(v).element_type)
    } else if opcode == Opcode::Store || opcode == Opcode::ICmp || opcode == Opcode::FCmp {
        input
    } else if changes_type(opcode) && input > result {
        input
    } else {
        result
    }
}

/// What instruction `v` costs in one iteration.
pub open spec fn cost_of(f: Function, v: ValueId) -> nat {
    match f.inst(v).opcode {
        Opcode::GetElementPtr => 0,
        Opcode::Load | Opcode::Store => 2,
        Opcode::UDiv | Opcode::SDiv | Opcode::FDiv => 4,
        Opcode::URem | Opcode::SRem | Opcode::FRem => 4,
        _ => 1,
    }
}

/// Every use of address `g` is a load through it or a store to it, in the loop;
/// and there is a use.
pub open spec fn serves_accesses(f: Function, s: LoopShape, g: ValueId) -> bool {
    let users = f.values@[g as int].users@;
    &&& users.len() > 0
    &&& forall|k: int|
        0 <= k < users.len() ==> f.in_block(#[trigger] users[k], s.header) && {
            ||| f.is_op(users[k], Opcode::Load) && f.operand(users[k], 0) == g
            ||| f.is_op(users[k], Opcode::Store) && f.operand(users[k], 1) == g
        }
}

/// Every use of index helper `v` is an address of the loop.
pub open spec fn serves_addresses(f: Function, s: LoopShape, v: ValueId) -> bool {
    forall|k: int|
        0 <= k < f.values@[v as int].users@.len() ==> f.in_block(
            #[trigger] f.values@[v as int].users@[k],
            s.header,
        ) && f.is_op(f.values@[v as int].users@[k], Opcode::GetElementPtr)
}

/// Instruction `v` is of a kind that has a vector form.
pub open spec fn has_vector_form(f: Function, s: LoopShape, v: ValueId) -> bool {
    match f.inst(v).opcode {
        Opcode::GetElementPtr => {
            &&& exists|base: ValueId, c: int, ty: ScalarType| #[trigger]
                is_address(f, s, v, base, c, ty)
            &&& serves_accesses(f, s, v)
        },
        Opcode::Load | Opcode::Store => exists|base: ValueId, c: int, ty: ScalarType| #[trigger]
            touches(f, s, v, base, c, ty),
        _ => has_lane_form(f.inst(v).opcode) && works_on_scalars(f, v),
    }
}

/// The operands of an operation come from outside the loop or are themselves
/// the induction, loads, addresses or operations.
pub open spec fn has_known_operands(f: Function, s: LoopShape, v: ValueId) -> bool {
    forall|j: int|
        0 <= j < f.inst(v).operands@.len() ==> {
            ||| #[trigger] f.operand(v, j) == s.induction
            ||| !f.in_block(f.operand(v, j), s.header)
            ||| f.is_op(f.operand(v, j), Opcode::Load)
            ||| f.is_op(f.operand(v, j), Opcode::GetElementPtr)
            ||| has_lane_form(f.inst(f.operand(v, j)).opcode)
        }
}

/// What the analysis finds out about one instruction is what it is.
proof fn lemma_contribution(f: Function, s: LoopShape, v: ValueId)
    ensures
        contribution(f, s, v) is Ok <==> has_vector_form(f, s, v) && (has_lane_form(
            f.inst(v).opcode,
        ) ==> has_known_operands(f, s, v)),
        contribution(f, s, v) matches Ok(x) ==> {
            &&& x.bits == lane_width(f, v)
            &&& x.cost == cost_of(f, v)
            &&& x.access is Some <==> f.inst(v).opcode == Opcode::Load || f.inst(v).opcode
                == Opcode::Store
            &&& x.access is Some ==> memory_access(f, v, s.induction, s.header)
                == Ok::<MemoryAccess, Rejection>(x.access->0)
        },
{
    let opcode = f.inst(v).opcode;
    assert(computes(opcode) == has_lane_form(opcode));
    if opcode == Opcode::GetElementPtr {
        let address = loop_address(f, v, s.induction, s.header);
        if address is Ok {
            let a = address->Ok_0;
            lemma_address(f, s, v, a.base, a.index.offset as int, a.element_type);
            assert(is_address(f, s, v, a.base, a.index.offset as int, a.element_type));
        }
        if exists|base: ValueId, c: int, ty: ScalarType| #[trigger]
            is_address(f, s, v, base, c, ty) {
            let (base, c, ty) = choose|base: ValueId, c: int, ty: ScalarType| #[trigger]
                is_address(f, s, v, base, c, ty);
            lemma_address(f, s, v, base, c, ty);
        }
    } else if opcode == Opcode::Load || opcode == Opcode::Store {
        let access = memory_access(f, v, s.induction, s.header);
        if access is Ok {
            let a = access->Ok_0;
            lemma_access(f, s, v, a.base, a.offset as int, a.element_type);
            assert(touches(f, s, v, a.base, a.offset as int, a.element_type));
        }
        if exists|base: ValueId, c: int, ty: ScalarType| #[trigger]
            touches(f, s, v, base, c, ty) {
            let (base, c, ty) = choose|base: ValueId, c: int, ty: ScalarType| #[trigger]
                touches(f, s, v, base, c, ty);
            lemma_access(f, s, v, base, c, ty);
        }
    } else {
        let check = |k: int| operand_rejection(f, s, v, k);
        lemma_first_rejection_ok(check, f.inst(v).operands@.len());
        assert forall|j: int| 0 <= j < f.inst(v).operands@.len() implies (check(j) is None <==> {
            ||| #[trigger] f.operand(v, j) == s.induction
            ||| !f.in_block(f.operand(v, j), s.header)
            ||| f.is_op(f.operand(v, j), Opcode::Load)
            ||| f.is_op(f.operand(v, j), Opcode::GetElementPtr)
            ||| has_lane_form(f.inst(f.operand(v, j)).opcode)
        }) by {
            assert(computes(f.inst(f.operand(v, j)).opcode) == has_lane_form(
                f.inst(f.operand(v, j)).opcode,
            ));
        }
        if has_known_operands(f, s, v) {
            assert forall|k: int| 0 <= k < f.inst(v).operands@.len() implies (#[trigger] check(k))
                is None by {
                assert(f.operand(v, k) == f.operand(v, k));
            }
        }
        if operands_are_widenable(f, s, v) is Ok {
            assert forall|j: int| 0 <= j < f.inst(v).operands@.len() implies {
                ||| #[trigger] f.operand(v, j) == s.induction
                ||| !f.in_block(f.operand(v, j), s.header)
                ||| f.is_op(f.operand(v, j), Opcode::Load)
                ||| f.is_op(f.operand(v, j), Opcode::GetElementPtr)
                ||| has_lane_form(f.inst(f.operand(v, j)).opcode)
            } by {
                assert(check(j) is None);
            }
        }
    }
}

/// How many of the first `count` instructions are loads and stores.
pub open spec fn access_count(f: Function, s: LoopShape, count: nat) -> nat
    decreases count,
{
    if count == 0 {
        0
    } else {
        access_count(f, s, (count - 1) as nat) + if is_memory(f, s, count - 1) {
            1nat
        } else {
            0nat
        }
    }
}

/// Instruction `k` is a load or store.
pub open spec fn is_memory(f: Function, s: LoopShape, k: int) -> bool {
    let v = f.body(s.header)[k];
    !is_control(f, s, v) && (f.inst(v).opcode == Opcode::Load || f.inst(v).opcode
        == Opcode::Store)
}

/// Instruction `k` is load or store number `i`.
pub open spec fn is_access_number(f: Function, s: LoopShape, k: int, i: int) -> bool {
    is_memory(f, s, k) && access_count(f, s, k as nat) == i
}

/// One of the first `count` instructions is load or store number `i`.
pub open spec fn is_some_access(f: Function, s: LoopShape, count: nat, i: int) -> bool {
    exists|k: int| 0 <= k < count && #[trigger] is_access_number(f, s, k, i)
}

/// What the first `count` instructions cost together.
pub open spec fn total_cost(f: Function, s: LoopShape, count: nat) -> nat
    decreases count,
{
    if count == 0 {
        0
    } else {
        let v = f.body(s.header)[count - 1];
        total_cost(f, s, (count - 1) as nat) + if is_control(f, s, v) {
            0nat
        } else {
            cost_of(f, v)
        }
    }
}

/// The widest lane among the first `count` instructions has `bits` bits.
pub open spec fn is_widest(f: Function, s: LoopShape, count: nat, bits: nat) -> bool {
    &&& forall|k: int|
        0 <= k < count && !is_control(f, s, #[trigger] f.body(s.header)[k]) ==> lane_width(
            f,
            f.body(s.header)[k],
        ) <= bits
    &&& bits > 0 ==> exists|k: int|
        0 <= k < count && !is_control(f, s, #[trigger] f.body(s.header)[k]) && lane_width(
            f,
            f.body(s.header)[k],
        ) == bits
}

/// Instruction `k` either is control or has a vector form.
pub open spec fn is_translatable(f: Function, s: LoopShape, k: int) -> bool {
    let v = f.body(s.header)[k];
    is_control(f, s, v) || has_vector_form(f, s, v) && (has_lane_form(f.inst(v).opcode)
        ==> has_known_operands(f, s, v))
}

/// The totals of a body are the sums over its instructions, and its accesses
/// are its loads and stores in order.
pub proof fn lemma_totals(f: Function, s: LoopShape, count: nat)
    requires
        count <= f.body(s.header).len(),
    ensures
        ({
            let helpers = index_helpers(f, s, f.body(s.header).len());
            let t = totals(f, s, helpers, count);
            &&& t is Ok <==> forall|k: int| 0 <= k < count ==> #[trigger] is_translatable(f, s, k)
            &&& t is Ok ==> {
                &&& t->Ok_0.cost == total_cost(f, s, count)
                &&& t->Ok_0.memory.len() == access_count(f, s, count)
                &&& is_widest(f, s, count, t->Ok_0.bits as nat)
                &&& forall|k: int|
                    0 <= k < count && #[trigger] is_memory(f, s, k) ==> access_count(
                        f,
                        s,
                        k as nat,
                    ) < t->Ok_0.memory.len() && memory_access(
                        f,
                        f.body(s.header)[k],
                        s.induction,
                        s.header,
                    ) == Ok::<MemoryAccess, Rejection>(
                        t->Ok_0.memory[access_count(f, s, k as nat) as int],
                    )
                &&& forall|i: int|
                    0 <= i < access_count(f, s, count) ==> #[trigger] is_some_access(
                        f,
                        s,
                        count,
                        i,
                    )
            }
        }),
    decreases count,
{
    let helpers = index_helpers(f, s, f.body(s.header).len());
    if count > 0 {
        let before = (count - 1) as nat;
        let v = f.body(s.header)[count - 1];
        lemma_totals(f, s, before);
        lemma_helpers(f, s, v);
        lemma_contribution(f, s, v);
        let old = totals(f, s, helpers, before);
        let t = totals(f, s, helpers, count);
        assert(t is Ok <==> old is Ok && is_translatable(f, s, count - 1));
        if t is Ok {
            let was = old->Ok_0;
            let now = t->Ok_0;
            assert forall|i: int| 0 <= i < access_count(f, s, count) implies #[trigger] is_some_access(
                f,
                s,
                count,
                i,
            ) by {
                if i < was.memory.len() {
                    assert(is_some_access(f, s, before, i));
                    let k = choose|k: int| 0 <= k < before && #[trigger] is_access_number(f, s, k, i);
                    assert(is_access_number(f, s, k, i));
                } else {
                    assert(is_access_number(f, s, count - 1, i));
                }
            }
            assert(is_widest(f, s, count, now.bits as nat)) by {
                if now.bits > 0 && now.bits == was.bits {
                    let k = choose|k: int|
                        0 <= k < before && !is_control(f, s, #[trigger] f.body(s.header)[k])
                            && lane_width(f, f.body(s.header)[k]) == was.bits;
                    assert(!is_control(f, s, f.body(s.header)[k]));
                } else if now.bits > 0 {
                    assert(!is_control(f, s, f.body(s.header)[count - 1]));
                }
            }
        }
    }
}

/// The function marks argument `v` as `noalias`: so does the first parameter
/// entry for it.
pub open spec fn is_unaliased(f: Function, v: ValueId) -> bool {
    &&& f.values@[v as int].kind is Argument
    &&& exists|k: int|
        0 <= k < f.parameters@.len() && #[trigger] f.parameters@[k].value == v
            && f.parameters@[k].noalias && forall|j: int|
            0 <= j < k ==> #[trigger] f.parameters@[j].value != v
}

/// Objects `a` and `b` are known not to overlap: both are global variables, or
/// both are arguments that are marked `noalias`.
pub open spec fn are_separate(f: Function, a: ValueId, b: ValueId) -> bool {
    ||| f.values@[a as int].kind is GlobalVariable && f.values@[b as int].kind is GlobalVariable
    ||| is_unaliased(f, a) && is_unaliased(f, b)
}

/// Two accesses, one of them a store, keep out of each other's way: they touch
/// the same element of one object in every iteration, or separate objects.
pub open spec fn are_independent(
    f: Function,
    first: (ValueId, int, ScalarType),
    second: (ValueId, int, ScalarType),
) -> bool {
    if first.0 == second.0 {
        first.1 == second.1 && first.2 == second.2
    } else {
        are_separate(f, first.0, second.0)
    }
}

/// Instructions `j` and `k` do not depend on each other through memory.
pub open spec fn is_free_pair(f: Function, s: LoopShape, j: int, k: int) -> bool {
    let u = f.body(s.header)[j];
    let v = f.body(s.header)[k];
    is_memory(f, s, j) && is_memory(f, s, k) && (f.inst(u).opcode == Opcode::Store || f.inst(
        v,
    ).opcode == Opcode::Store) ==> forall|
        b: ValueId,
        c: int,
        t: ScalarType,
        d: ValueId,
        e: int,
        r: ScalarType,
    |
        #[trigger] touches(f, s, u, b, c, t) && #[trigger] touches(f, s, v, d, e, r)
            ==> are_independent(f, (b, c, t), (d, e, r))
}

/// The alias test separates exactly the objects that are separate.
pub proof fn lemma_separate(f: Function, a: ValueId, b: ValueId)
    ensures
        statically_disjoint(f, a, b) <==> are_separate(f, a, b),
        is_noalias_argument(f, a) <==> is_unaliased(f, a),
{
    assert forall|v: ValueId| #[trigger] is_noalias_argument(f, v) <==> is_unaliased(f, v) by {
        if is_noalias_argument(f, v) {
            let k = choose|k: int|
                0 <= k < f.parameters@.len() && (#[trigger] f.parameters@[k]).value == v
                    && f.parameters@[k].noalias && forall|j: int|
                    0 <= j < k ==> (#[trigger] f.parameters@[j]).value != v;
            assert(f.parameters@[k].value == v);
        }
        if is_unaliased(f, v) {
            let k = choose|k: int|
                0 <= k < f.parameters@.len() && #[trigger] f.parameters@[k].value == v
                    && f.parameters@[k].noalias && forall|j: int|
                    0 <= j < k ==> #[trigger] f.parameters@[j].value != v;
            assert(f.parameters@[k].value == v);
        }
    }
    assert(is_noalias_argument(f, a) <==> is_unaliased(f, a));
    assert(is_noalias_argument(f, b) <==> is_unaliased(f, b));
}

/// Two accesses are allowed exactly where both read or they are independent.
pub proof fn lemma_pair(f: Function, left: MemoryAccess, right: MemoryAccess)
    ensures
        pair_rejection(f, left, right) is None <==> (left.kind == AccessKind::Read && right.kind
            == AccessKind::Read) || are_independent(
            f,
            (left.base, left.offset as int, left.element_type),
            (right.base, right.offset as int, right.element_type),
        ),
{
    lemma_separate(f, left.base, right.base);
    let first = affine(left);
    let second = affine(right);
    assert(first.coefficient == 1 && second.coefficient == 1);
    assert(first.coefficient * (second.offset as int) == second.offset) by (nonlinear_arith)
        requires
            first.coefficient == 1,
    ;
    assert(second.coefficient * (first.offset as int) == first.offset) by (nonlinear_arith)
        requires
            second.coefficient == 1,
    ;
    assert(first.cell(second.offset as int) == second.cell(first.offset as int));
}

/// The accesses of a loop are allowed exactly where each two of them are.
proof fn lemma_dependences(f: Function, memory: Seq<MemoryAccess>)
    ensures
        dependences(f, memory) is Ok <==> forall|i: int, j: int|
            0 <= i < j < memory.len() ==> #[trigger] pair_rejection(f, memory[i], memory[j])
                is None,
{
    let check = |i: int| row_rejection(f, memory, i);
    lemma_first_rejection_ok(check, memory.len());
    assert forall|i: int| 0 <= i < memory.len() implies ((#[trigger] check(i)) is None
        <==> forall|j: int|
        i < j < memory.len() ==> #[trigger] pair_rejection(f, memory[i], memory[j]) is None) by {
        let row = |d: int| pair_rejection(f, memory[i], memory[i + 1 + d]);
        lemma_first_rejection_ok(row, (memory.len() - i - 1) as nat);
        if check(i) is None {
            assert forall|j: int| i < j < memory.len() implies #[trigger] pair_rejection(
                f,
                memory[i],
                memory[j],
            ) is None by {
                assert(row(j - i - 1) is None);
            }
        }
    }
    if forall|i: int, j: int|
        0 <= i < j < memory.len() ==> #[trigger] pair_rejection(f, memory[i], memory[j])
            is None {
        assert forall|i: int| 0 <= i < memory.len() implies (#[trigger] check(i)) is None by {
        }
    }
    if dependences(f, memory) is Ok {
        assert forall|i: int, j: int| 0 <= i < j < memory.len() implies #[trigger] pair_rejection(
            f,
            memory[i],
            memory[j],
        ) is None by {
            assert(check(i) is None);
        }
    }
}

/// A vector form of `u` is made before instruction `k`.
pub open spec fn comes_before(f: Function, s: LoopShape, k: int, u: ValueId) -> bool {
    exists|j: int|
        0 <= j < k && #[trigger] f.body(s.header)[j] == u && !is_control(f, s, u) && !f.is_op(
            u,
            Opcode::Store,
        )
}

/// The vector loop has `u` in every lane at instruction `k`: it comes from
/// outside the loop, or is the induction, or was computed before.
pub open spec fn is_at_hand(f: Function, s: LoopShape, k: int, u: ValueId) -> bool {
    !f.in_block(u, s.header) || u == s.induction || comes_before(f, s, k, u)
}

/// What instruction `k` reads was there before it.
pub open spec fn is_in_order(f: Function, s: LoopShape, k: int) -> bool {
    let v = f.body(s.header)[k];
    match f.inst(v).opcode {
        Opcode::GetElementPtr => true,
        Opcode::Load => comes_before(f, s, k, f.operand(v, 0)),
        Opcode::Store => comes_before(f, s, k, f.operand(v, 1)) && is_at_hand(
            f,
            s,
            k,
            f.operand(v, 0),
        ),
        _ => forall|j: int|
            0 <= j < f.inst(v).operands@.len() ==> is_at_hand(
                f,
                s,
                k,
                #[trigger] f.inst(v).operands@[j],
            ),
    }
}

/// Instruction `k` is control, or has a vector form and stands in order.
pub open spec fn is_vectorizable(f: Function, s: LoopShape, k: int) -> bool {
    let v = f.body(s.header)[k];
    is_control(f, s, v) || has_vector_form(f, s, v) && is_in_order(f, s, k)
}

/// Instruction `k`, if it is an address, is one of the loop, and the arithmetic
/// of its index serves addresses alone.
pub open spec fn is_clean_address(f: Function, s: LoopShape, k: int) -> bool {
    let g = f.body(s.header)[k];
    f.is_op(g, Opcode::GetElementPtr) ==> {
        &&& exists|base: ValueId, c: int, ty: ScalarType| #[trigger]
            is_address(f, s, g, base, c, ty)
        &&& f.operand(g, 1) != s.induction ==> serves_addresses(f, s, f.operand(g, 1))
    }
}

/// Instruction `k` uses the induction as a number, not for an address or to count.
pub open spec fn reads_index(f: Function, s: LoopShape, k: int) -> bool {
    let v = f.body(s.header)[k];
    &&& v != s.induction_next
    &&& v != s.latch_compare
    &&& !is_helper(f, s, v)
    &&& !f.is_op(v, Opcode::GetElementPtr)
    &&& f.inst(v).operands@.contains(s.induction)
}

/// How often the loop is taken to run: its constant trip count, or else sixty-four
/// times.
pub open spec fn expected_trips(f: Function, s: LoopShape) -> nat {
    match f.values@[s.trip_count as int].kind {
        ValueKind::ConstantInt { unsigned, .. } => unsigned as nat,
        _ => 64,
    }
}

/// The plan is the right one for a body with these lanes and this cost.
pub open spec fn has_right_plan(
    f: Function,
    s: LoopShape,
    config: PassConfig,
    plan: Plan,
    bits: nat,
) -> bool {
    let count = f.body(s.header).len();
    let cost = total_cost(f, s, count) as u64;
    &&& is_widest(f, s, count, bits)
    &&& is_right_plan(
        config,
        bits,
        expected_trips(f, s),
        LoopCosts { scalar_iteration: cost, vector_iteration: cost, setup: 6 },
        plan,
    )
}

/// Instruction `k`, if it is a load or store, touches elements that lie side by
/// side in vectors of `vf`.
pub open spec fn is_densely_stored(f: Function, s: LoopShape, vf: u32, k: int) -> bool {
    is_memory(f, s, k) ==> forall|base: ValueId, c: int, ty: ScalarType| #[trigger]
        touches(f, s, f.body(s.header)[k], base, c, ty) ==> f.packed_layouts@.contains(
            PackedLayout { base, element_type: ty, vf },
        )
}

/// The loop with skeleton `s` is one that is vectorized, by `plan`.
pub open spec fn is_supported(f: Function, s: LoopShape, config: PassConfig, plan: Plan) -> bool {
    let count = f.body(s.header).len();
    &&& is_skeleton(f, s)
    &&& forall|k: int| 0 <= k < count ==> #[trigger] is_clean_address(f, s, k)
    &&& forall|k: int| 0 <= k < count ==> #[trigger] is_vectorizable(f, s, k)
    &&& 1 <= access_count(f, s, count) <= 24
    &&& forall|j: int, k: int| 0 <= j < k < count ==> #[trigger] is_free_pair(f, s, j, k)
    &&& exists|bits: nat| #[trigger] has_right_plan(f, s, config, plan, bits)
    &&& forall|k: int| 0 <= k < count ==> #[trigger] is_densely_stored(f, s, plan.vf, k)
}

/// `c` says of the loop what there is to say for its vector form: which values
/// compute indices, whether the induction is read as a number, and from how many
/// iterations on vectors are used.
pub open spec fn is_described(f: Function, config: PassConfig, c: CandidateView, plan: Plan) -> bool {
    let vf = plan.vf as nat;
    &&& forall|v: ValueId| #[trigger] c.address_only.contains(v) <==> is_helper(f, c.shape, v)
    &&& c.widen_induction <==> exists|k: int|
        0 <= k < f.body(c.shape.header).len() && #[trigger] reads_index(f, c.shape, k)
    &&& config.forced_vf is Some ==> c.minimum_trip_count == vf
    &&& config.forced_vf is None && config.heuristic == Heuristic::Conservative
        ==> c.minimum_trip_count == 4 * vf
    &&& config.forced_vf is None && config.heuristic == Heuristic::Balanced
        ==> c.minimum_trip_count == 2 * vf
    &&& config.forced_vf is None && config.heuristic == Heuristic::Aggressive
        ==> c.minimum_trip_count == vf
}

/// The first pass over the body accepts exactly the clean addresses.
pub proof fn lemma_addresses(f: Function, s: LoopShape)
    ensures
        first_rejection(|k: int| address_rejection(f, s, k), f.body(s.header).len()) is Ok
            <==> forall|k: int|
            0 <= k < f.body(s.header).len() ==> #[trigger] is_clean_address(f, s, k),
{
    let check = |k: int| address_rejection(f, s, k);
    let count = f.body(s.header).len();
    lemma_first_rejection_ok(check, count);
    assert forall|k: int| 0 <= k < count implies ((#[trigger] check(k)) is None
        <==> is_clean_address(f, s, k)) by {
        let g = f.body(s.header)[k];
        if f.is_op(g, Opcode::GetElementPtr) {
            if loop_address(f, g, s.induction, s.header) is Ok {
                let a = loop_address(f, g, s.induction, s.header)->Ok_0;
                lemma_address(f, s, g, a.base, a.index.offset as int, a.element_type);
                assert(is_address(f, s, g, a.base, a.index.offset as int, a.element_type));
            }
            if exists|base: ValueId, c: int, ty: ScalarType| #[trigger]
                is_address(f, s, g, base, c, ty) {
                let (base, c, ty) = choose|base: ValueId, c: int, ty: ScalarType| #[trigger]
                    is_address(f, s, g, base, c, ty);
                lemma_address(f, s, g, base, c, ty);
            }
        }
    }
    if forall|k: int| 0 <= k < count ==> #[trigger] is_clean_address(f, s, k) {
        assert forall|k: int| 0 <= k < count implies (#[trigger] check(k)) is None by {
            assert(is_clean_address(f, s, k));
        }
    }
    if first_rejection(check, count) is Ok {
        assert forall|k: int| 0 <= k < count implies #[trigger] is_clean_address(f, s, k) by {
            assert(check(k) is None);
        }
    }
}

/// Where the induction is widened and what it is widened for.
pub proof fn lemma_index_reads(f: Function, s: LoopShape)
    ensures
        needs_lane_indices(f, s, index_helpers(f, s, f.body(s.header).len())) <==> exists|k: int|
            0 <= k < f.body(s.header).len() && #[trigger] reads_index(f, s, k),
        forall|k: int|
            0 <= k < f.body(s.header).len() ==> #[trigger] reads_index(f, s, k)
                == uses_induction_as_data(f, s, index_helpers(f, s, f.body(s.header).len()), k),
{
    let helpers = index_helpers(f, s, f.body(s.header).len());
    assert forall|k: int| 0 <= k < f.body(s.header).len() implies #[trigger] reads_index(f, s, k)
        == uses_induction_as_data(f, s, helpers, k) by {
        lemma_helpers(f, s, f.body(s.header)[k]);
    }
    if needs_lane_indices(f, s, helpers) {
        let k = choose|k: int|
            0 <= k < f.body(s.header).len() && #[trigger] uses_induction_as_data(f, s, helpers, k);
        assert(reads_index(f, s, k));
    }
    if exists|k: int| 0 <= k < f.body(s.header).len() && #[trigger] reads_index(f, s, k) {
        let k = choose|k: int| 0 <= k < f.body(s.header).len() && #[trigger] reads_index(f, s, k);
        assert(uses_induction_as_data(f, s, helpers, k));
    }
}

/// A value is available where it was computed before, or is the widened index.
pub proof fn lemma_available(f: Function, s: LoopShape, k: int, u: ValueId)
    requires
        f.block_is_valid(s.header),
        0 <= k <= f.body(s.header).len(),
    ensures
        ({
            let helpers = index_helpers(f, s, f.body(s.header).len());
            let widen = needs_lane_indices(f, s, helpers);
            is_available(f, s, helpers, widen, k, u) <==> (widen && u == s.induction)
                || comes_before(f, s, k, u)
        }),
{
    let helpers = index_helpers(f, s, f.body(s.header).len());
    lemma_helpers(f, s, u);
    if comes_before(f, s, k, u) {
        let j = choose|j: int|
            0 <= j < k && #[trigger] f.body(s.header)[j] == u && !is_control(f, s, u) && !f.is_op(
                u,
                Opcode::Store,
            );
        assert(produces_vector(f, s, helpers, j));
    }
    let widen = needs_lane_indices(f, s, helpers);
    if is_available(f, s, helpers, widen, k, u) && !(widen && u == s.induction) {
        let j = choose|j: int|
            0 <= j < k && f.body(s.header)[j] == u && #[trigger] produces_vector(
                f,
                s,
                helpers,
                j,
            );
        assert(f.body(s.header)[j] == u);
    }
}

/// One instruction that has a vector form stands in order exactly where the
/// analysis says so.
proof fn lemma_order(f: Function, s: LoopShape, k: int)
    requires
        f.wf(),
        s.header < f.blocks@.len(),
        f.is_op(s.induction, Opcode::Phi),
        0 <= k < f.body(s.header).len(),
        !is_control(f, s, f.body(s.header)[k]),
        has_vector_form(f, s, f.body(s.header)[k]),
    ensures
        ({
            let helpers = index_helpers(f, s, f.body(s.header).len());
            let widen = needs_lane_indices(f, s, helpers);
            order_rejection(f, s, helpers, widen, k) is None <==> is_in_order(f, s, k)
        }),
{
    let helpers = index_helpers(f, s, f.body(s.header).len());
    let widen = needs_lane_indices(f, s, helpers);
    let v = f.body(s.header)[k];
    let inst = f.inst(v);
    assert(f.block_is_valid(s.header));
    assert(f.has_value(f.blocks@[s.header as int].instructions@[k]));
    assert(f.value_is_valid(v));
    lemma_helpers(f, s, v);
    lemma_index_reads(f, s);
    assert(computes(inst.opcode) == has_lane_form(inst.opcode));
    if inst.opcode != Opcode::GetElementPtr {
        if inst.operands@.contains(s.induction) {
            assert(reads_index(f, s, k));
        }
        assert forall|j: int| 0 <= j < inst.operands@.len() implies is_ready(
            f,
            s,
            helpers,
            widen,
            k,
            #[trigger] inst.operands@[j],
        ) == is_at_hand(f, s, k, inst.operands@[j]) by {
            lemma_available(f, s, k, inst.operands@[j]);
        }
        lemma_available(f, s, k, f.operand(v, 0));
        lemma_available(f, s, k, f.operand(v, 1));
        if inst.opcode == Opcode::Store {
            assert(is_ready(f, s, helpers, widen, k, inst.operands@[0]) == is_at_hand(
                f,
                s,
                k,
                inst.operands@[0],
            ));
        }
    }
}

/// Operands that are at hand are of a known kind.
proof fn lemma_known_operands(f: Function, s: LoopShape, k: int)
    requires
        f.wf(),
        s.header < f.blocks@.len(),
        0 <= k < f.body(s.header).len(),
        forall|j: int| 0 <= j < f.body(s.header).len() ==> #[trigger] is_vectorizable(f, s, j),
        !is_control(f, s, f.body(s.header)[k]),
        has_lane_form(f.inst(f.body(s.header)[k]).opcode),
    ensures
        has_known_operands(f, s, f.body(s.header)[k]),
{
    let v = f.body(s.header)[k];
    assert(is_vectorizable(f, s, k));
    assert(f.block_is_valid(s.header));
    assert forall|j: int| 0 <= j < f.inst(v).operands@.len() implies {
        ||| #[trigger] f.operand(v, j) == s.induction
        ||| !f.in_block(f.operand(v, j), s.header)
        ||| f.is_op(f.operand(v, j), Opcode::Load)
        ||| f.is_op(f.operand(v, j), Opcode::GetElementPtr)
        ||| has_lane_form(f.inst(f.operand(v, j)).opcode)
    } by {
        let u = f.inst(v).operands@[j];
        assert(is_at_hand(f, s, k, u));
        if f.in_block(u, s.header) && u != s.induction {
            let i = choose|i: int|
                0 <= i < k && #[trigger] f.body(s.header)[i] == u && !is_control(f, s, u)
                    && !f.is_op(u, Opcode::Store);
            assert(is_vectorizable(f, s, i));
        }
    }
}

/// A body costs at most four for each instruction.
pub proof fn lemma_cost_is_bounded(f: Function, s: LoopShape, count: nat)
    ensures
        total_cost(f, s, count) <= 4 * count,
    decreases count,
{
    if count > 0 {
        lemma_cost_is_bounded(f, s, (count - 1) as nat);
    }
}

/// The accesses that the analysis collects are pairwise allowed exactly where
/// the loads and stores of the body are pairwise free.
pub proof fn lemma_free_pairs(f: Function, s: LoopShape)
    requires
        totals(
            f,
            s,
            index_helpers(f, s, f.body(s.header).len()),
            f.body(s.header).len(),
        ) is Ok,
    ensures
        ({
            let count = f.body(s.header).len();
            let memory = totals(f, s, index_helpers(f, s, count), count)->Ok_0.memory;
            dependences(f, memory) is Ok <==> forall|j: int, k: int|
                0 <= j < k < count ==> #[trigger] is_free_pair(f, s, j, k)
        }),
{
    let count = f.body(s.header).len();
    let memory = totals(f, s, index_helpers(f, s, count), count)->Ok_0.memory;
    lemma_totals(f, s, count);
    lemma_dependences(f, memory);
    assert forall|j: int, k: int|
        0 <= j < k < count && is_memory(f, s, j) && is_memory(f, s, k) implies (
    #[trigger] is_free_pair(f, s, j, k) <==> pair_rejection(
        f,
        memory[access_count(f, s, j as nat) as int],
        memory[access_count(f, s, k as nat) as int],
    ) is None) && access_count(f, s, j as nat) < access_count(f, s, k as nat) by {
        let u = f.body(s.header)[j];
        let v = f.body(s.header)[k];
        let a = memory[access_count(f, s, j as nat) as int];
        let b = memory[access_count(f, s, k as nat) as int];
        lemma_access(f, s, u, a.base, a.offset as int, a.element_type);
        lemma_access(f, s, v, b.base, b.offset as int, b.element_type);
        lemma_pair(f, a, b);
        lemma_counts_grow(f, s, j, k);
        assert forall|
            d: ValueId,
            c: int,
            t: ScalarType,
            e: ValueId,
            o: int,
            r: ScalarType,
        |
            #[trigger] touches(f, s, u, d, c, t) && #[trigger] touches(f, s, v, e, o, r) implies d
            == a.base && c == a.offset && t == a.element_type && e == b.base && o == b.offset && r
            == b.element_type by {
            lemma_access(f, s, u, d, c, t);
            lemma_access(f, s, v, e, o, r);
        }
        assert(touches(f, s, u, a.base, a.offset as int, a.element_type) && touches(
            f,
            s,
            v,
            b.base,
            b.offset as int,
            b.element_type,
        ));
    }
    if dependences(f, memory) is Ok {
        assert forall|j: int, k: int| 0 <= j < k < count implies #[trigger] is_free_pair(
            f,
            s,
            j,
            k,
        ) by {
            if is_memory(f, s, j) && is_memory(f, s, k) {
                let i = access_count(f, s, j as nat) as int;
                let l = access_count(f, s, k as nat) as int;
                lemma_counts_grow(f, s, j, k);
                assert(pair_rejection(f, memory[i], memory[l]) is None);
            }
        }
    }
    if forall|j: int, k: int| 0 <= j < k < count ==> #[trigger] is_free_pair(f, s, j, k) {
        assert forall|i: int, l: int| 0 <= i < l < memory.len() implies #[trigger] pair_rejection(
            f,
            memory[i],
            memory[l],
        ) is None by {
            assert(is_some_access(f, s, count, i) && is_some_access(f, s, count, l));
            let j = choose|j: int| 0 <= j < count && #[trigger] is_access_number(f, s, j, i);
            let k = choose|k: int| 0 <= k < count && #[trigger] is_access_number(f, s, k, l);
            if k <= j {
                lemma_counts_grow(f, s, k, j);
            }
            assert(is_free_pair(f, s, j, k));
        }
    }
}

/// Later accesses have higher numbers.
pub proof fn lemma_counts_grow(f: Function, s: LoopShape, j: int, k: int)
    requires
        0 <= j <= k,
    ensures
        access_count(f, s, j as nat) <= access_count(f, s, k as nat),
        j < k && is_memory(f, s, j) ==> access_count(f, s, j as nat) < access_count(
            f,
            s,
            k as nat,
        ),
    decreases k,
{
    if j < k {
        lemma_counts_grow(f, s, j, k - 1);
    }
}

/// What the analysis asks of memory layouts is asked of every load and store.
pub proof fn lemma_layouts(f: Function, s: LoopShape, vf: u32)
    requires
        totals(
            f,
            s,
            index_helpers(f, s, f.body(s.header).len()),
            f.body(s.header).len(),
        ) is Ok,
    ensures
        ({
            let count = f.body(s.header).len();
            let memory = totals(f, s, index_helpers(f, s, count), count)->Ok_0.memory;
            (forall|i: int| 0 <= i < memory.len() ==> is_packed(f, #[trigger] memory[i], vf))
                <==> forall|k: int|
                0 <= k < count ==> #[trigger] is_densely_stored(f, s, vf, k)
        }),
{
    let count = f.body(s.header).len();
    let memory = totals(f, s, index_helpers(f, s, count), count)->Ok_0.memory;
    lemma_totals(f, s, count);
    assert forall|k: int| 0 <= k < count && is_memory(f, s, k) implies (
    #[trigger] is_densely_stored(f, s, vf, k) <==> is_packed(
        f,
        memory[access_count(f, s, k as nat) as int],
        vf,
    )) by {
        let v = f.body(s.header)[k];
        let a = memory[access_count(f, s, k as nat) as int];
        lemma_access(f, s, v, a.base, a.offset as int, a.element_type);
        assert(touches(f, s, v, a.base, a.offset as int, a.element_type));
        assert forall|base: ValueId, c: int, ty: ScalarType| #[trigger]
            touches(f, s, v, base, c, ty) implies base == a.base && ty == a.element_type by {
            lemma_access(f, s, v, base, c, ty);
        }
    }
    if forall|k: int| 0 <= k < count ==> #[trigger] is_densely_stored(f, s, vf, k) {
        assert forall|i: int| 0 <= i < memory.len() implies is_packed(
            f,
            #[trigger] memory[i],
            vf,
        ) by {
            assert(is_some_access(f, s, count, i));
            let k = choose|k: int| 0 <= k < count && #[trigger] is_access_number(f, s, k, i);
            assert(is_densely_stored(f, s, vf, k));
        }
    }
}

/// The body passes the survey and the order test exactly where every
/// instruction can be vectorized.
pub proof fn lemma_vectorizable_body(f: Function, s: LoopShape)
    requires
        f.wf(),
        s.header < f.blocks@.len(),
        f.is_op(s.induction, Opcode::Phi),
    ensures
        ({
            let count = f.body(s.header).len();
            let helpers = index_helpers(f, s, count);
            let widen = needs_lane_indices(f, s, helpers);
            totals(f, s, helpers, count) is Ok && widening_order(f, s, helpers, widen) is Ok
                <==> forall|k: int| 0 <= k < count ==> #[trigger] is_vectorizable(f, s, k)
        }),
{
    let count = f.body(s.header).len();
    let helpers = index_helpers(f, s, count);
    let widen = needs_lane_indices(f, s, helpers);
    let check = |k: int| order_rejection(f, s, helpers, widen, k);
    lemma_totals(f, s, count);
    lemma_first_rejection_ok(check, count);
    if totals(f, s, helpers, count) is Ok && widening_order(f, s, helpers, widen) is Ok {
        assert forall|k: int| 0 <= k < count implies #[trigger] is_vectorizable(f, s, k) by {
            assert(is_translatable(f, s, k));
            assert(check(k) is None);
            if !is_control(f, s, f.body(s.header)[k]) {
                lemma_order(f, s, k);
            }
        }
    }
    if forall|k: int| 0 <= k < count ==> #[trigger] is_vectorizable(f, s, k) {
        assert forall|k: int| 0 <= k < count implies #[trigger] is_translatable(f, s, k) by {
            assert(is_vectorizable(f, s, k));
            if !is_control(f, s, f.body(s.header)[k]) && has_lane_form(
                f.inst(f.body(s.header)[k]).opcode,
            ) {
                lemma_known_operands(f, s, k);
            }
        }
        assert forall|k: int| 0 <= k < count implies (#[trigger] check(k)) is None by {
            assert(is_vectorizable(f, s, k));
            lemma_helpers(f, s, f.body(s.header)[k]);
            if !is_control(f, s, f.body(s.header)[k]) {
                lemma_order(f, s, k);
            }
        }
    }
}

/// The plan that the analysis makes is the right one, and there is one exactly
/// where there is a right one.
proof fn lemma_plan(f: Function, s: LoopShape, config: PassConfig, plan: Plan)
    requires
        f.body(s.header).len() <= 96,
        totals(
            f,
            s,
            index_helpers(f, s, f.body(s.header).len()),
            f.body(s.header).len(),
        ) is Ok,
    ensures
        ({
            let count = f.body(s.header).len();
            let t = totals(f, s, index_helpers(f, s, count), count)->Ok_0;
            plan_for(f, s.trip_count, t.bits, t.cost, t.memory, config) == Ok::<Plan, Rejection>(
                plan,
            ) <==> {
                &&& exists|bits: nat| #[trigger] has_right_plan(f, s, config, plan, bits)
                &&& forall|k: int|
                    0 <= k < count ==> #[trigger] is_densely_stored(f, s, plan.vf, k)
            }
        }),
{
    let count = f.body(s.header).len();
    let t = totals(f, s, index_helpers(f, s, count), count)->Ok_0;
    let costs = LoopCosts { scalar_iteration: t.cost as u64, vector_iteration: t.cost as u64, setup: 6 };
    lemma_totals(f, s, count);
    lemma_cost_is_bounded(f, s, count);
    lemma_layouts(f, s, plan.vf);
    law_plans_are_right(config, t.bits as nat, expected_trips(f, s), costs, plan);
    assert(estimated_trip_count(f, s.trip_count) == expected_trips(f, s));
    assert(is_right_plan(config, t.bits as nat, expected_trips(f, s), costs, plan)
        <==> has_right_plan(f, s, config, plan, t.bits as nat));
    assert forall|bits: nat| #[trigger] has_right_plan(f, s, config, plan, bits) implies bits
        == t.bits by {
        lemma_widest_is_unique(f, s, count, bits, t.bits as nat);
    }
}

/// A body has one widest lane.
pub proof fn lemma_widest_is_unique(f: Function, s: LoopShape, count: nat, a: nat, b: nat)
    requires
        is_widest(f, s, count, a),
        is_widest(f, s, count, b),
    ensures
        a == b,
{
    if a > 0 {
        let k = choose|k: int|
            0 <= k < count && !is_control(f, s, #[trigger] f.body(s.header)[k]) && lane_width(
                f,
                f.body(s.header)[k],
            ) == a;
        assert(lane_width(f, f.body(s.header)[k]) <= b);
    }
    if b > 0 {
        let k = choose|k: int|
            0 <= k < count && !is_control(f, s, #[trigger] f.body(s.header)[k]) && lane_width(
                f,
                f.body(s.header)[k],
            ) == b;
        assert(lane_width(f, f.body(s.header)[k]) <= a);
    }
}

/// The analysis accepts exactly the loops that are described above: counted
/// one-block loops whose instructions have vector forms and stand in order, whose
/// accesses are few, independent and densely stored, and that a plan pays for.
/// What it says of an accepted loop, and its plan, follow from the instructions.
pub proof fn law_supported_loops_are_accepted(
    f: Function,
    config: PassConfig,
    c: CandidateView,
    plan: Plan,
)
    requires
        f.wf(),
        c.shape.header < f.blocks@.len(),
    ensures
        is_loop_header(f, c.shape.header) && analysis(f, c.shape.header, config) == Ok::<
            (CandidateView, Plan),
            Rejection,
        >((c, plan)) <==> is_supported(f, c.shape, config, plan) && is_described(
            f,
            config,
            c,
            plan,
        ),
{
    let s = c.shape;
    let count = f.body(s.header).len();
    let helpers = index_helpers(f, s, count);
    law_counted_loops_are_recognized(f, s);
    if loop_shape(f, s.header) == Ok::<LoopShape, Rejection>(s) && is_loop_header(f, s.header) {
        lemma_addresses(f, s);
        lemma_vectorizable_body(f, s);
        lemma_index_reads(f, s);
        lemma_totals(f, s, count);
        assert forall|v: ValueId| #[trigger] helpers.contains(v) <==> is_helper(f, s, v) by {
            lemma_helpers(f, s, v);
        }
        if totals(f, s, helpers, count) is Ok {
            lemma_free_pairs(f, s);
            lemma_plan(f, s, config, plan);
        }
        if is_described(f, config, c, plan) {
            assert(c.address_only =~= helpers);
        }
    }
}

} // verus!
