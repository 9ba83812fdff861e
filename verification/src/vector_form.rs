//! What the vector form of a loop keeps of its instructions, and how it is tied
//! into the function.

use crate::analysis::{analysis, CandidateView};
use crate::body::is_skipped;
use crate::config::{Heuristic, PassConfig};
use crate::cost::Plan;
use crate::ir::{BlockId, Flags, Function, Instruction, IntPredicate, Opcode, ScalarType, ValueId};
use crate::lowering::{
    arity, is_rewrite, is_visit, latch_steps, lowered_body, lowered_instruction, vector_operation,
    with_operands, EmitterView,
};
use crate::operations::casts;
use crate::recipe::{Label, NewBlock, Operand, Rewrite, Step, Target};
use crate::recognize::is_loop_header;
use crate::rejection::Rejection;
use crate::report::Decision;
use crate::shape::LoopShape;
use crate::supported::{
    changes_type, enters, has_lane_form, has_right_plan, has_vector_form, is_address, is_constant,
    is_control, is_described, is_helper, is_own_name, is_supported, is_vectorizable, lane_width,
    law_supported_loops_are_accepted, lemma_address, lemma_helpers, reads_index,
};
use vstd::prelude::*;

verus! {

/// The flags of a vector operation are those of the scalar one: that it does not
/// wrap, for sums, differences, products and shifts to the left; that it is
/// exact, for quotients and shifts to the right; and the fast-math bits.
pub open spec fn keeps_flags(inst: Instruction, flags: Flags) -> bool {
    let may_wrap = inst.opcode == Opcode::Add || inst.opcode == Opcode::Sub || inst.opcode
        == Opcode::Mul || inst.opcode == Opcode::Shl;
    let may_round = inst.opcode == Opcode::UDiv || inst.opcode == Opcode::SDiv || inst.opcode
        == Opcode::LShr || inst.opcode == Opcode::AShr;
    &&& flags.nuw <==> may_wrap && inst.flags.nuw
    &&& flags.nsw <==> may_wrap && inst.flags.nsw
    &&& flags.exact <==> may_round && inst.flags.exact
    &&& flags.fast_math == inst.flags.fast_math
}

/// The step is the vector form of instruction `v`.
pub open spec fn mirrors(f: Function, v: ValueId, step: Step) -> bool {
    let inst = f.inst(v);
    match step {
        Step::Address { base, element_type, inbounds, .. } => {
            &&& inst.opcode == Opcode::GetElementPtr
            &&& base == inst.operands@[0]
            &&& element_type == inst.element_type
            &&& inbounds == inst.inbounds
        },
        Step::Load { element_type, alignment, .. } => {
            &&& inst.opcode == Opcode::Load
            &&& element_type == f.values@[v as int].ty
            &&& alignment == inst.alignment
        },
        Step::Store { alignment, .. } => {
            inst.opcode == Opcode::Store && alignment == inst.alignment
        },
        Step::Negate { flags, .. } => inst.opcode == Opcode::FNeg && keeps_flags(inst, flags),
        Step::CompareIntegers { predicate, flags, .. } => {
            &&& inst.opcode == Opcode::ICmp
            &&& predicate == inst.int_predicate
            &&& keeps_flags(inst, flags)
        },
        Step::CompareFloats { float_predicate, flags, .. } => {
            &&& inst.opcode == Opcode::FCmp
            &&& float_predicate == inst.float_predicate
            &&& keeps_flags(inst, flags)
        },
        Step::Select { flags, .. } => inst.opcode == Opcode::Select && keeps_flags(inst, flags),
        Step::Convert { opcode, element_type, flags, .. } => {
            &&& opcode == inst.opcode
            &&& changes_type(opcode)
            &&& element_type == f.values@[v as int].ty
            &&& keeps_flags(inst, flags)
        },
        Step::Binary { opcode, flags, .. } => {
            &&& opcode == inst.opcode
            &&& has_lane_form(opcode)
            &&& !changes_type(opcode)
            &&& opcode != Opcode::FNeg && opcode != Opcode::ICmp && opcode != Opcode::FCmp
            &&& opcode != Opcode::Select
            &&& keeps_flags(inst, flags)
        },
        _ => false,
    }
}

/// The step is there for the vector loop itself: its index, the indices of its
/// lanes and addresses, and copies of scalars in every lane.
pub open spec fn is_scaffold(f: Function, step: Step) -> bool {
    match step {
        Step::IndexPhi | Step::AddLanes { .. } => true,
        Step::AddIndex { label, .. } => label == Label::AddressIndex,
        Step::Splat { scalar, element_type } => match scalar {
            Operand::Original(u) => element_type == f.values@[u as int].ty,
            Operand::Result(_) => element_type == ScalarType::Integer(64),
            _ => false,
        },
        _ => false,
    }
}

/// Some instruction of the loop has `step` as its vector form.
pub open spec fn has_origin(f: Function, s: LoopShape, count: nat, step: Step) -> bool {
    exists|k: int|
        0 <= k < count && !is_control(f, s, #[trigger] f.body(s.header)[k]) && mirrors(
            f,
            f.body(s.header)[k],
            step,
        )
}

/// Instruction `v` has a vector form among the steps.
pub open spec fn has_image(f: Function, v: ValueId, steps: Seq<Step>) -> bool {
    exists|i: int| 0 <= i < steps.len() && mirrors(f, v, #[trigger] steps[i])
}

/// Preparing operands only adds copies of scalars.
proof fn lemma_prepared(e: EmitterView, f: Function, v: ValueId, count: nat)
    ensures
        ({
            let ready = with_operands(e, f, v, count);
            &&& e.steps.len() <= ready.steps.len()
            &&& forall|i: int| 0 <= i < e.steps.len() ==> #[trigger] ready.steps[i] == e.steps[i]
            &&& forall|i: int|
                e.steps.len() <= i < ready.steps.len() ==> is_scaffold(
                    f,
                    #[trigger] ready.steps[i],
                )
        }),
    decreases count,
{
    if count > 0 {
        lemma_prepared(e, f, v, (count - 1) as nat);
    }
}

/// One instruction becomes its vector form and what that needs.
proof fn lemma_one_instruction(f: Function, s: LoopShape, e: EmitterView, v: ValueId)
    requires
        has_vector_form(f, s, v),
    ensures
        ({
            let after = lowered_instruction(e, f, s, v);
            let last = after.steps.len() - 1;
            &&& e.steps.len() <= last
            &&& forall|i: int| 0 <= i < e.steps.len() ==> #[trigger] after.steps[i] == e.steps[i]
            &&& forall|i: int|
                e.steps.len() <= i < last ==> is_scaffold(f, #[trigger] after.steps[i])
            &&& mirrors(f, v, after.steps[last])
        }),
{
    let inst = f.inst(v);
    if inst.opcode == Opcode::GetElementPtr {
        let (base, c, ty) = choose|base: ValueId, c: int, ty: ScalarType| #[trigger]
            is_address(f, s, v, base, c, ty);
        lemma_address(f, s, v, base, c, ty);
    } else if inst.opcode == Opcode::Load {
    } else if inst.opcode == Opcode::Store {
        let ready = e.with_operand(f, f.operand(v, 0));
        assert(lowered_instruction(e, f, s, v).steps.len() == ready.steps.len() + 1);
    } else {
        let count = arity(inst.opcode);
        lemma_prepared(e, f, v, count);
        assert(casts(inst.opcode) == changes_type(inst.opcode));
        let ready = with_operands(e, f, v, count);
        assert(mirrors(f, v, vector_operation(ready, f, v)));
    }
}

/// The steps for the first `count` instructions are their vector forms and what
/// those need.
proof fn lemma_body_steps(f: Function, c: CandidateView, count: nat)
    requires
        count <= f.body(c.shape.header).len(),
        forall|k: int|
            0 <= k < f.body(c.shape.header).len() ==> #[trigger] is_vectorizable(f, c.shape, k),
        forall|v: ValueId| #[trigger]
            is_skipped(c.shape, c.address_only, v) <==> is_control(f, c.shape, v),
    ensures
        ({
            let steps = lowered_body(f, c, count).steps;
            &&& forall|i: int|
                0 <= i < steps.len() ==> is_scaffold(f, #[trigger] steps[i]) || has_origin(
                    f,
                    c.shape,
                    count,
                    steps[i],
                )
            &&& forall|k: int|
                0 <= k < count && !is_control(f, c.shape, #[trigger] f.body(c.shape.header)[k])
                    ==> has_image(f, f.body(c.shape.header)[k], steps)
        }),
    decreases count,
{
    if count > 0 {
        let before = (count - 1) as nat;
        let e = lowered_body(f, c, before);
        let v = f.body(c.shape.header)[count - 1];
        let steps = lowered_body(f, c, count).steps;
        lemma_body_steps(f, c, before);
        assert(is_vectorizable(f, c.shape, count - 1));
        assert(is_skipped(c.shape, c.address_only, v) <==> is_control(f, c.shape, v));
        if !is_control(f, c.shape, v) {
            lemma_one_instruction(f, c.shape, e, v);
        }
        assert forall|i: int| 0 <= i < steps.len() implies is_scaffold(f, #[trigger] steps[i])
            || has_origin(f, c.shape, count, steps[i]) by {
            if i < e.steps.len() {
                assert(steps[i] == e.steps[i]);
                if has_origin(f, c.shape, before, e.steps[i]) {
                    let k = choose|k: int|
                        0 <= k < before && !is_control(
                            f,
                            c.shape,
                            #[trigger] f.body(c.shape.header)[k],
                        ) && mirrors(f, f.body(c.shape.header)[k], e.steps[i]);
                    assert(!is_control(f, c.shape, f.body(c.shape.header)[k]));
                }
            } else if i == steps.len() - 1 {
                assert(!is_control(f, c.shape, f.body(c.shape.header)[count - 1]));
            }
        }
        assert forall|k: int|
            0 <= k < count && !is_control(f, c.shape, #[trigger] f.body(c.shape.header)[k]) implies has_image(
            f,
            f.body(c.shape.header)[k],
            steps,
        ) by {
            if k < before {
                assert(has_image(f, f.body(c.shape.header)[k], e.steps));
                let i = choose|i: int|
                    0 <= i < e.steps.len() && mirrors(
                        f,
                        f.body(c.shape.header)[k],
                        #[trigger] e.steps[i],
                    );
                assert(steps[i] == e.steps[i]);
            } else {
                assert(mirrors(f, v, steps[steps.len() - 1]));
            }
        }
    }
}

/// The vector body holds the vector form of every instruction of the loop but
/// its control, and beside its own scaffold nothing else. An operation keeps its
/// opcode, predicate and flags; a load or store its type and alignment; an
/// address its object, element type and whether it stays in bounds.
pub proof fn law_vector_body_mirrors_the_loop(
    f: Function,
    config: PassConfig,
    c: CandidateView,
    plan: Plan,
    r: Rewrite,
)
    requires
        f.wf(),
        c.shape.header < f.blocks@.len(),
        is_loop_header(f, c.shape.header),
        analysis(f, c.shape.header, config) == Ok::<(CandidateView, Plan), Rejection>((c, plan)),
        is_rewrite(f, c, plan, r),
    ensures
        ({
            let count = f.body(c.shape.header).len();
            let own = r.vector_body@.take(r.vector_body@.len() - 3);
            &&& r.vector_body@.len() >= 3
            &&& forall|k: int|
                0 <= k < count && !is_control(f, c.shape, #[trigger] f.body(c.shape.header)[k])
                    ==> has_image(f, f.body(c.shape.header)[k], own)
            &&& forall|i: int|
                0 <= i < own.len() ==> is_scaffold(f, #[trigger] own[i]) || has_origin(
                    f,
                    c.shape,
                    count,
                    own[i],
                )
        }),
{
    let count = f.body(c.shape.header).len();
    law_supported_loops_are_accepted(f, config, c, plan);
    assert forall|v: ValueId| #[trigger]
        is_skipped(c.shape, c.address_only, v) <==> is_control(f, c.shape, v) by {
        lemma_helpers(f, c.shape, v);
    }
    lemma_body_steps(f, c, count);
    let steps = lowered_body(f, c, count).steps;
    assert(r.vector_body@.take(r.vector_body@.len() - 3) =~= steps);
}

/// The rewritten loop is tied in where the scalar loop was entered. The edge from
/// the preheader that led to the header now leads to the dispatch block, and the
/// induction's entry that came from the preheader is the one that changes.
/// From the dispatch block control goes on to the vector body where the loop
/// runs often enough, and to the scalar loop where it does not; the vector body
/// repeats or goes on to the vector exit; and from there control goes on to the
/// scalar loop or leaves to where the scalar loop leaves.
pub proof fn law_vector_loop_is_tied_in(
    f: Function,
    config: PassConfig,
    c: CandidateView,
    plan: Plan,
    r: Rewrite,
)
    requires
        f.wf(),
        c.shape.header < f.blocks@.len(),
        is_loop_header(f, c.shape.header),
        analysis(f, c.shape.header, config) == Ok::<(CandidateView, Plan), Rejection>((c, plan)),
        is_rewrite(f, c, plan, r),
    ensures
        r.vf == plan.vf,
        r.header == c.shape.header,
        r.preheader != r.header,
        f.inst(f.blocks@[r.preheader as int].terminator->0).successors@[r.preheader_successor_index as int]
            == r.header,
        f.body(r.header).contains(r.induction),
        f.is_op(r.induction, Opcode::Phi),
        f.inst(r.induction).incoming_blocks@[r.outside_phi_index as int] == r.preheader,
        is_constant(f, f.operand(r.induction, r.outside_phi_index as int), 0),
        r.index_entry.block == NewBlock::Dispatch,
        r.index_back_edge.block == NewBlock::VectorBody,
        r.remainder_entry.block == NewBlock::VectorExit,
        ({
            let compare = f.operand(f.blocks@[r.header as int].terminator->0, 0);
            let successors = f.inst(f.blocks@[r.header as int].terminator->0).successors@;
            let vf = r.vf as nat;
            &&& r.dispatch@.len() == 3
            &&& r.dispatch@[0] matches Step::CompareIndex {
                predicate,
                left: Operand::Original(trips),
                right: Operand::Constant(enough),
                label,
            } && {
                &&& predicate == IntPredicate::Uge
                &&& label == Label::EnoughIterations
                &&& f.inst(compare).operands@.contains(trips)
                &&& !f.in_block(trips, r.header)
                &&& config.forced_vf is Some ==> enough == vf
                &&& config.forced_vf is None && config.heuristic == Heuristic::Conservative
                    ==> enough == 4 * vf
                &&& config.forced_vf is None && config.heuristic == Heuristic::Balanced ==> enough
                    == 2 * vf
                &&& config.forced_vf is None && config.heuristic == Heuristic::Aggressive
                    ==> enough == vf
            }
            &&& r.dispatch@[2] == (Step::Branch {
                condition: Operand::Result(0),
                on_true: Target::New(NewBlock::VectorBody),
                on_false: Target::Existing(r.header),
            })
            &&& r.vector_body@.last() matches Step::Branch { on_true, on_false, .. } && on_true
                == Target::New(NewBlock::VectorExit) && on_false == Target::New(
                NewBlock::VectorBody,
            )
            &&& r.vector_exit@.last() matches Step::Branch {
                on_true,
                on_false: Target::Existing(exit),
                ..
            } && on_true == Target::Existing(r.header) && exit != r.header && successors.contains(
                exit,
            )
        }),
{
    let s = c.shape;
    law_supported_loops_are_accepted(f, config, c, plan);
    assert(enters(
        f,
        s.header,
        s.preheader,
        s.preheader_successor_index as int,
    ));
    assert(plan.vf <= 64);
    assert(f.block_is_valid(s.header));
    assert(f.value_is_valid(s.terminator));
    assert(f.has_value(f.inst(s.terminator).operands@[0]));
    assert(f.value_is_valid(s.latch_compare));
    let operands = f.inst(s.latch_compare).operands@;
    assert(operands.len() >= 2);
    assert(operands[0] == s.trip_count || operands[1] == s.trip_count);
    let successors = f.inst(s.terminator).successors@;
    assert(successors[0] == s.exit || successors[1] == s.exit);
    let body = lowered_body(f, c, f.body(s.header).len());
    assert(r.vector_body@.last() == latch_steps(body.next(), plan.vf)[2]);
}

/// Without a forced factor, the lanes of every load, store, operation and address
/// fit side by side into 128 bits, and twice as many of the widest would not: half
/// precision takes 16 bits, single 32, double 64, and an integer its own width.
pub proof fn law_vectors_fill_a_register(
    f: Function,
    config: PassConfig,
    c: CandidateView,
    plan: Plan,
)
    requires
        f.wf(),
        c.shape.header < f.blocks@.len(),
        is_loop_header(f, c.shape.header),
        analysis(f, c.shape.header, config) == Ok::<(CandidateView, Plan), Rejection>((c, plan)),
        config.forced_vf is None,
    ensures
        forall|k: int|
            0 <= k < f.body(c.shape.header).len() && !is_control(
                f,
                c.shape,
                #[trigger] f.body(c.shape.header)[k],
            ) ==> plan.vf * lane_width(f, f.body(c.shape.header)[k]) <= 128,
        exists|k: int|
            0 <= k < f.body(c.shape.header).len() && !is_control(
                f,
                c.shape,
                #[trigger] f.body(c.shape.header)[k],
            ) && 2 * plan.vf * lane_width(f, f.body(c.shape.header)[k]) > 128,
{
    let s = c.shape;
    law_supported_loops_are_accepted(f, config, c, plan);
    let bits = choose|bits: nat| #[trigger] has_right_plan(f, s, config, plan, bits);
    assert forall|k: int|
        0 <= k < f.body(s.header).len() && !is_control(f, s, #[trigger] f.body(s.header)[k]) implies plan.vf
        * lane_width(f, f.body(s.header)[k]) <= 128 by {
        let lane = lane_width(f, f.body(s.header)[k]);
        assert(plan.vf * lane <= plan.vf * bits) by (nonlinear_arith)
            requires
                lane <= bits,
        ;
    }
    let k = choose|k: int|
        0 <= k < f.body(s.header).len() && !is_control(f, s, #[trigger] f.body(s.header)[k])
            && lane_width(f, f.body(s.header)[k]) == bits;
    assert(!is_control(f, s, f.body(s.header)[k]));
}

/// Every block and every named instruction that the rewrite adds has a name that
/// marks it as its own, so that a loop entered from such a block is left alone.
pub proof fn law_names_are_marked(block: NewBlock, label: Label)
    ensures
        is_own_name(block.text()),
        label != Label::Unnamed ==> is_own_name(label.text()),
        label == Label::Unnamed ==> label.text().len() == 0,
{
    reveal_strlit("rv.vector.dispatch");
    reveal_strlit("rv.vector.body");
    reveal_strlit("rv.vector.exit");
    reveal_strlit("rv.enough.iterations");
    reveal_strlit("rv.vector.trip.count");
    reveal_strlit("rv.index");
    reveal_strlit("rv.lane.indices");
    reveal_strlit("rv.index.next");
    reveal_strlit("rv.vector.done");
    reveal_strlit("rv.has.remainder");
    reveal_strlit("rv.address.index");
    reveal_strlit("rv.wide.ptr");
    reveal_strlit("rv.wide.load");
    reveal_strlit("rv.splat");
    reveal_strlit("rv.fneg");
    reveal_strlit("rv.icmp");
    reveal_strlit("rv.fcmp");
    reveal_strlit("rv.select");
    reveal_strlit("rv.cast");
    reveal_strlit("rv.binop");
    reveal_strlit("");
}

/// A loop that is visited is rewritten exactly where it is supported, by the plan
/// that is right for it; any other is left alone.
pub proof fn law_visits_rewrite_supported_loops(
    f: Function,
    header: BlockId,
    config: PassConfig,
    decision: Decision,
    rewrite: Option<Rewrite>,
    plan: Plan,
)
    requires
        f.wf(),
        header < f.blocks@.len(),
        is_loop_header(f, header),
        is_visit(f, header, config, decision, rewrite),
    ensures
        rewrite is Some <==> decision is Vectorized,
        decision == Decision::Vectorized(plan) <==> exists|s: LoopShape|
            s.header == header && #[trigger] is_supported(f, s, config, plan),
{
    if decision == Decision::Vectorized(plan) {
        let c = analysis(f, header, config)->Ok_0.0;
        assert(c.shape.header == header);
        law_supported_loops_are_accepted(f, config, c, plan);
        assert(is_supported(f, c.shape, config, plan));
    }
    if exists|s: LoopShape| s.header == header && #[trigger] is_supported(f, s, config, plan) {
        let s = choose|s: LoopShape|
            s.header == header && #[trigger] is_supported(f, s, config, plan);
        let c = lemma_description(f, config, s, plan);
        law_supported_loops_are_accepted(f, config, c, plan);
    }
}

/// Every supported loop has a description.
proof fn lemma_description(f: Function, config: PassConfig, s: LoopShape, plan: Plan) -> (c:
    CandidateView)
    ensures
        c.shape == s,
        is_described(f, config, c, plan),
{
    let vf = plan.vf as nat;
    let widen = exists|k: int| 0 <= k < f.body(s.header).len() && #[trigger] reads_index(f, s, k);
    let c = CandidateView {
        shape: s,
        address_only: Set::new(|v: ValueId| is_helper(f, s, v)),
        widen_induction: widen,
        minimum_trip_count: if config.forced_vf is Some {
            vf
        } else if config.heuristic == Heuristic::Conservative {
            4 * vf
        } else if config.heuristic == Heuristic::Balanced {
            2 * vf
        } else {
            vf
        },
    };
    assert forall|v: ValueId| #[trigger] c.address_only.contains(v) <==> is_helper(
        f,
        c.shape,
        v,
    ) by {}
    if widen {
        let k = choose|k: int|
            0 <= k < f.body(s.header).len() && #[trigger] reads_index(f, s, k);
        assert(reads_index(f, c.shape, k));
    }
    c
}

} // verus!
