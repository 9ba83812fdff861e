//! The preflight of the widening order: every vector operand must have a
//! producer before its consumer.

use crate::body::{is_skipped, skips};
use crate::ir::{contains_id, Function, Opcode, ValueId};
use crate::operations::{computes, is_supported_compute};
use crate::rejection::{first_rejection, lemma_first_rejection_err, Rejection};
use crate::shape::LoopShape;
use std::collections::HashSet;
use vstd::prelude::*;

verus! {

broadcast use vstd::std_specs::hash::group_hash_axioms;

/// Instruction `k` of the body uses the induction as data: not for control, and
/// not to compute an address.
pub open spec fn uses_induction_as_data(
    f: Function,
    shape: LoopShape,
    helpers: Set<ValueId>,
    k: int,
) -> bool {
    let v = f.body(shape.header)[k];
    &&& v != shape.induction_next
    &&& v != shape.latch_compare
    &&& !helpers.contains(v)
    &&& !f.is_op(v, Opcode::GetElementPtr)
    &&& f.inst(v).operands@.contains(shape.induction)
}

/// Some instruction uses the induction as data, so it has to be widened.
pub open spec fn needs_lane_indices(f: Function, shape: LoopShape, helpers: Set<ValueId>) -> bool {
    exists|k: int|
        0 <= k < f.body(shape.header).len() && #[trigger] uses_induction_as_data(
            f,
            shape,
            helpers,
            k,
        )
}

/// Whether the induction has to be widened.
pub fn induction_is_data(f: &Function, shape: LoopShape, helpers: &HashSet<ValueId>) -> (result:
    bool)
    requires
        f.wf(),
        shape.header < f.blocks@.len(),
    ensures
        result == needs_lane_indices(*f, shape, helpers@),
{
    assert(f.block_is_valid(shape.header));
    let body: &Vec<ValueId> = &f.blocks[shape.header].instructions;
    let mut k: usize = 0;
    while k < body.len()
        invariant
            f.block_is_valid(shape.header),
            body@ == f.body(shape.header),
            k <= body@.len(),
            forall|j: int| 0 <= j < k ==> !uses_induction_as_data(*f, shape, helpers@, j),
        decreases body@.len() - k,
    {
        let v: ValueId = body[k];
        assert(f.has_value(f.blocks@[shape.header as int].instructions@[k as int]));
        if v != shape.induction_next && v != shape.latch_compare && !helpers.contains(&v)
            && !f.has_opcode(v, Opcode::GetElementPtr) {
            if let Some(inst) = f.instruction(v) {
                if contains_id(&inst.operands, shape.induction) {
                    assert(uses_induction_as_data(*f, shape, helpers@, k as int));
                    return true;
                }
            }
        }
        k += 1;
    }
    false
}

/// Instruction `k` of the body leaves a widened value behind.
pub open spec fn produces_vector(
    f: Function,
    shape: LoopShape,
    helpers: Set<ValueId>,
    k: int,
) -> bool {
    let v = f.body(shape.header)[k];
    !is_skipped(shape, helpers, v) && !f.is_op(v, Opcode::Store)
}

/// `v` has a widened form before instruction `count` of the body.
pub open spec fn is_available(
    f: Function,
    shape: LoopShape,
    helpers: Set<ValueId>,
    widen_induction: bool,
    count: int,
    v: ValueId,
) -> bool {
    ||| widen_induction && v == shape.induction
    ||| exists|k: int|
        0 <= k < count && f.body(shape.header)[k] == v && #[trigger] produces_vector(
            f,
            shape,
            helpers,
            k,
        )
}

/// `v` can be an operand of vector instruction `count` of the body: it is the
/// same in every lane, or it has been widened.
pub open spec fn is_ready(
    f: Function,
    shape: LoopShape,
    helpers: Set<ValueId>,
    widen_induction: bool,
    count: int,
    v: ValueId,
) -> bool {
    !f.in_block(v, shape.header) || is_available(f, shape, helpers, widen_induction, count, v)
}

/// Why instruction `k` of the body cannot be widened in its place, if it
/// cannot.
pub open spec fn order_rejection(
    f: Function,
    shape: LoopShape,
    helpers: Set<ValueId>,
    widen_induction: bool,
    k: int,
) -> Option<Rejection> {
    let v = f.body(shape.header)[k];
    let inst = f.inst(v);
    if is_skipped(shape, helpers, v) || inst.opcode == Opcode::GetElementPtr {
        None
    } else if inst.opcode == Opcode::Load {
        if is_available(f, shape, helpers, widen_induction, k, f.operand(v, 0)) {
            None
        } else {
            Some(Rejection::LoadPointerNotWidened)
        }
    } else if inst.opcode == Opcode::Store {
        if is_available(f, shape, helpers, widen_induction, k, f.operand(v, 1)) && is_ready(
            f,
            shape,
            helpers,
            widen_induction,
            k,
            f.operand(v, 0),
        ) {
            None
        } else {
            Some(Rejection::StoreInputNotWidened)
        }
    } else if computes(inst.opcode) {
        if forall|j: int|
            0 <= j < inst.operands@.len() ==> is_ready(
                f,
                shape,
                helpers,
                widen_induction,
                k,
                #[trigger] inst.operands@[j],
            ) {
            None
        } else {
            Some(Rejection::ComputeInputNotWidened)
        }
    } else {
        Some(Rejection::UnsupportedInstruction)
    }
}

/// Whether the body can be widened in its own order.
pub open spec fn widening_order(
    f: Function,
    shape: LoopShape,
    helpers: Set<ValueId>,
    widen_induction: bool,
) -> Result<(), Rejection> {
    first_rejection(
        |k: int| order_rejection(f, shape, helpers, widen_induction, k),
        f.body(shape.header).len(),
    )
}

/// The values that are available before instruction `count`.
spec fn available_set(
    f: Function,
    shape: LoopShape,
    helpers: Set<ValueId>,
    widen_induction: bool,
    count: int,
) -> Set<ValueId> {
    Set::new(|v: ValueId| is_available(f, shape, helpers, widen_induction, count, v))
}

fn check_ready(
    f: &Function,
    shape: LoopShape,
    available: &HashSet<ValueId>,
    v: ValueId,
) -> (result: bool)
    requires
        f.has_value(v),
    ensures
        result == (!f.in_block(v, shape.header) || available@.contains(v)),
{
    f.is_loop_invariant(v, shape.header) || available.contains(&v)
}

fn check_order(
    f: &Function,
    shape: LoopShape,
    Ghost(helpers): Ghost<Set<ValueId>>,
    Ghost(widen_induction): Ghost<bool>,
    Ghost(k): Ghost<int>,
    available: &HashSet<ValueId>,
    v: ValueId,
) -> (result: Option<Rejection>)
    requires
        f.wf(),
        f.has_value(v),
        f.is_instruction(v),
        f.body(shape.header)[k] == v,
        !is_skipped(shape, helpers, v),
        available@ == available_set(*f, shape, helpers, widen_induction, k),
    ensures
        result == order_rejection(*f, shape, helpers, widen_induction, k),
{
    assert(f.value_is_valid(v));
    let inst = match f.instruction(v) {
        Some(inst) => inst,
        None => return None,
    };
    match inst.opcode {
        Opcode::GetElementPtr => None,
        Opcode::Load => {
            if available.contains(&inst.operands[0]) {
                None
            } else {
                Some(Rejection::LoadPointerNotWidened)
            }
        },
        Opcode::Store => {
            assert(f.has_value(f.inst(v).operands@[0]));
            if available.contains(&inst.operands[1]) && check_ready(
                f,
                shape,
                available,
                inst.operands[0],
            ) {
                None
            } else {
                Some(Rejection::StoreInputNotWidened)
            }
        },
        _ => {
            if !is_supported_compute(inst.opcode) {
                return Some(Rejection::UnsupportedInstruction);
            }
            let mut j: usize = 0;
            while j < inst.operands.len()
                invariant
                    f.value_is_valid(v),
                    f.is_instruction(v),
                    *inst == f.inst(v),
                    computes(inst.opcode),
                    inst.opcode != Opcode::GetElementPtr,
                    inst.opcode != Opcode::Load,
                    inst.opcode != Opcode::Store,
                    f.body(shape.header)[k] == v,
                    !is_skipped(shape, helpers, v),
                    available@ == available_set(*f, shape, helpers, widen_induction, k),
                    j <= inst.operands@.len(),
                    forall|i: int|
                        0 <= i < j ==> is_ready(
                            *f,
                            shape,
                            helpers,
                            widen_induction,
                            k,
                            #[trigger] inst.operands@[i],
                        ),
                decreases inst.operands@.len() - j,
            {
                assert(f.has_value(f.inst(v).operands@[j as int]));
                if !check_ready(f, shape, available, inst.operands[j]) {
                    assert(!is_ready(
                        *f,
                        shape,
                        helpers,
                        widen_induction,
                        k,
                        inst.operands@[j as int],
                    ));
                    return Some(Rejection::ComputeInputNotWidened);
                }
                j += 1;
            }
            None
        },
    }
}

/// Rejects a body with an instruction that would be widened before one of its
/// operands.
pub fn validate_widening_order(
    f: &Function,
    shape: LoopShape,
    helpers: &HashSet<ValueId>,
    widen_induction: bool,
) -> (result: Result<(), Rejection>)
    requires
        f.wf(),
        shape.header < f.blocks@.len(),
    ensures
        result == widening_order(*f, shape, helpers@, widen_induction),
{
    assert(f.block_is_valid(shape.header));
    let ghost check = |k: int| order_rejection(*f, shape, helpers@, widen_induction, k);
    let body: &Vec<ValueId> = &f.blocks[shape.header].instructions;
    let mut available: HashSet<ValueId> = HashSet::new();
    if widen_induction {
        available.insert(shape.induction);
    }
    assert(available@ =~= available_set(*f, shape, helpers@, widen_induction, 0));
    let mut k: usize = 0;
    while k < body.len()
        invariant
            f.wf(),
            f.block_is_valid(shape.header),
            body@ == f.body(shape.header),
            check == (|k: int| order_rejection(*f, shape, helpers@, widen_induction, k)),
            k <= body@.len(),
            available@ == available_set(*f, shape, helpers@, widen_induction, k as int),
            first_rejection(check, k as nat) is Ok,
        decreases body@.len() - k,
    {
        let v: ValueId = body[k];
        assert(f.has_value(f.blocks@[shape.header as int].instructions@[k as int]));
        let ghost before = available@;
        let ghost rejection = check(k as int);
        if !skips(shape, helpers, v) {
            match check_order(
                f,
                shape,
                Ghost(helpers@),
                Ghost(widen_induction),
                Ghost(k as int),
                &available,
                v,
            ) {
                Some(rejection) => {
                    proof {
                        lemma_first_rejection_err(check, k as nat, body@.len());
                    }
                    return Err(rejection);
                },
                None => {},
            }
            if !f.has_opcode(v, Opcode::Store) {
                available.insert(v);
            }
        }
        assert(available@ =~= available_set(*f, shape, helpers@, widen_induction, k + 1)) by {
            assert forall|u: ValueId|
                available@.contains(u) <==> available_set(
                    *f,
                    shape,
                    helpers@,
                    widen_induction,
                    k + 1,
                ).contains(u) by {
                if before.contains(u) && !(widen_induction && u == shape.induction) {
                    let j = choose|j: int|
                        0 <= j < k && f.body(shape.header)[j] == u && #[trigger] produces_vector(
                            *f,
                            shape,
                            helpers@,
                            j,
                        );
                    assert(0 <= j < k + 1 && f.body(shape.header)[j] == u && produces_vector(
                        *f,
                        shape,
                        helpers@,
                        j,
                    ));
                }
                if u == v && produces_vector(*f, shape, helpers@, k as int) {
                    assert(f.body(shape.header)[k as int] == u);
                }
                if is_available(*f, shape, helpers@, widen_induction, k + 1, u) && !(widen_induction
                    && u == shape.induction) {
                    let j = choose|j: int|
                        0 <= j < k + 1 && f.body(shape.header)[j] == u
                            && #[trigger] produces_vector(*f, shape, helpers@, j);
                    if j < k {
                        assert(before.contains(u));
                    }
                }
            }
        }
        k += 1;
    }
    Ok(())
}

} // verus!
