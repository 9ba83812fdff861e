//! The control skeleton of a canonical one-block loop.

use crate::ir::{BlockId, Function, Opcode, ScalarType, ValueId};
use crate::recognize::{
    control_uses, entry_edge, find_induction, has_phi, is_loop_header, latch_trip_count,
    loop_induction, match_latch, no_live_outs, reject_exit_phis, validate_control_uses,
    validate_no_live_outs, validate_predecessors, Induction,
};
use crate::rejection::Rejection;
use crate::text::starts_with;
use vstd::prelude::*;

verus! {

/// The most instructions that a candidate body has.
pub const MAX_BODY_INSTRUCTIONS: usize = 96;

/// The control skeleton of a canonical loop.
#[derive(Clone, Copy, Debug, PartialEq, Eq, Structural)]
pub struct LoopShape {
    pub header: BlockId,
    pub preheader: BlockId,
    pub exit: BlockId,
    pub terminator: ValueId,
    pub induction: ValueId,
    pub induction_next: ValueId,
    pub latch_compare: ValueId,
    pub trip_count: ValueId,
    /// The position of the preheader among the induction's incoming blocks.
    pub outside_phi_index: usize,
    /// The position of the header among the preheader's successors.
    pub preheader_successor_index: usize,
}

/// The block that a one-block loop leaves to.
pub open spec fn loop_exit(f: Function, header: BlockId) -> BlockId {
    let successors = f.inst(f.blocks@[header as int].terminator->0).successors@;
    if successors[0] == header {
        successors[1]
    } else {
        successors[0]
    }
}

/// The skeleton of the loop at `header`, or why it is not canonical.
pub open spec fn loop_shape(f: Function, header: BlockId) -> Result<LoopShape, Rejection> {
    let terminator = f.blocks@[header as int].terminator->0;
    let successors = f.inst(terminator).successors@;
    let exit = loop_exit(f, header);
    let compare = f.operand(terminator, 0);
    if f.body(header).len() > MAX_BODY_INSTRUCTIONS {
        Err(Rejection::InstructionBudgetExceeded)
    } else if !no_live_outs(f, header) {
        Err(Rejection::LoopValueLiveOut)
    } else if f.inst(terminator).vectorize_disabled {
        Err(Rejection::DisabledByLoopMetadata)
    } else if has_phi(f, exit) {
        Err(Rejection::LiveOutPhi)
    } else {
        match loop_induction(f, header) {
            Err(rejection) => Err(rejection),
            Ok(induction) => match entry_edge(f, header, induction.preheader) {
                Err(rejection) => Err(rejection),
                Ok(edge) => if "rv."@.is_prefix_of(
                    f.blocks@[induction.preheader as int].name@,
                ) {
                    Err(Rejection::AlreadyVectorized)
                } else {
                    match latch_trip_count(
                        f,
                        compare,
                        induction.next,
                        header,
                        successors[0],
                        successors[1],
                    ) {
                        Err(rejection) => Err(rejection),
                        Ok(trip_count) => match control_uses(
                            f,
                            induction.phi,
                            induction.next,
                            compare,
                            terminator,
                        ) {
                            Err(rejection) => Err(rejection),
                            Ok(()) => Ok(
                                LoopShape {
                                    header,
                                    preheader: induction.preheader,
                                    exit,
                                    terminator,
                                    induction: induction.phi,
                                    induction_next: induction.next,
                                    latch_compare: compare,
                                    trip_count,
                                    outside_phi_index: induction.outside_index,
                                    preheader_successor_index: edge,
                                },
                            ),
                        },
                    }
                },
            },
        }
    }
}

/// Recognizes the skeleton of the loop at `header`.
pub fn recognize_loop(f: &Function, header: BlockId) -> (result: Result<LoopShape, Rejection>)
    requires
        f.wf(),
        header < f.blocks@.len(),
        is_loop_header(*f, header),
    ensures
        result == loop_shape(*f, header),
        result matches Ok(shape) ==> shape.header == header && f.has_value(shape.induction)
            && f.has_value(shape.trip_count),
{
    assert(f.block_is_valid(header));
    if f.blocks[header].instructions.len() > MAX_BODY_INSTRUCTIONS {
        return Err(Rejection::InstructionBudgetExceeded);
    }
    match validate_no_live_outs(f, header) {
        Ok(()) => {},
        Err(rejection) => return Err(rejection),
    }
    let terminator: ValueId = match f.blocks[header].terminator {
        Some(terminator) => terminator,
        None => return Err(Rejection::LatchConditionMustBeIcmp),
    };
    assert(f.value_is_valid(terminator));
    let inst = match f.instruction(terminator) {
        Some(inst) => inst,
        None => return Err(Rejection::LatchConditionMustBeIcmp),
    };
    if inst.vectorize_disabled {
        return Err(Rejection::DisabledByLoopMetadata);
    }
    let first_successor: BlockId = inst.successors[0];
    let second_successor: BlockId = inst.successors[1];
    let exit: BlockId = if first_successor == header {
        second_successor
    } else {
        first_successor
    };
    match reject_exit_phis(f, exit) {
        Ok(()) => {},
        Err(rejection) => return Err(rejection),
    }
    let induction: Induction = match find_induction(f, header) {
        Ok(induction) => induction,
        Err(rejection) => return Err(rejection),
    };
    proof {
        lemma_induction_is_valid(*f, header);
    }
    let edge: usize = match validate_predecessors(f, header, induction.preheader) {
        Ok(edge) => edge,
        Err(rejection) => return Err(rejection),
    };
    if starts_with(f.blocks[induction.preheader].name.as_str(), "rv.") {
        return Err(Rejection::AlreadyVectorized);
    }
    let compare: ValueId = inst.operands[0];
    assert(f.has_value(f.inst(terminator).operands@[0]));
    let trip_count: ValueId = match match_latch(
        f,
        compare,
        induction.next,
        header,
        first_successor,
        second_successor,
    ) {
        Ok(trip_count) => trip_count,
        Err(rejection) => return Err(rejection),
    };
    match validate_control_uses(f, induction.phi, induction.next, compare, terminator) {
        Ok(()) => {},
        Err(rejection) => return Err(rejection),
    }
    Ok(
        LoopShape {
            header,
            preheader: induction.preheader,
            exit,
            terminator,
            induction: induction.phi,
            induction_next: induction.next,
            latch_compare: compare,
            trip_count,
            outside_phi_index: induction.outside_index,
            preheader_successor_index: edge,
        },
    )
}

/// The induction that recognition finds is a 64-bit PHI of the header.
pub proof fn lemma_induction_is_valid(f: Function, header: BlockId)
    requires
        f.wf(),
        header < f.blocks@.len(),
    ensures
        loop_induction(f, header) matches Ok(induction) ==> {
            &&& f.has_value(induction.phi)
            &&& f.is_op(induction.phi, Opcode::Phi)
            &&& f.in_block(induction.phi, header)
            &&& f.ty(induction.phi) == ScalarType::Integer(64)
            &&& f.body(header).contains(induction.phi)
            &&& f.has_value(induction.next)
            &&& induction.preheader < f.blocks@.len()
            &&& induction.outside_index < 2
        },
{
    assert(f.block_is_valid(header));
    let is_phi = |v: ValueId| f.is_op(v, Opcode::Phi);
    let phis = f.body(header).take(f.body(header).len() as int).filter(is_phi);
    assert(f.body(header).take(f.body(header).len() as int) == f.body(header));
    if loop_induction(f, header) is Ok {
        let v = phis[0];
        f.body(header).lemma_filter_contains_rev(is_phi, v);
        f.body(header).lemma_filter_pred(is_phi, 0);
        let k = f.body(header).index_of(v);
        assert(f.has_value(f.blocks@[header as int].instructions@[k]));
        assert(f.in_block(f.blocks@[header as int].instructions@[k], header));
        assert(f.value_is_valid(v));
        assert(f.has_value(f.inst(v).operands@[0]) && f.has_value(f.inst(v).operands@[1]));
    }
}

} // verus!
