//! What the instructions of a candidate body contribute: memory accesses,
//! widths, costs, and the order in which they can be widened.

use crate::ir::{Function, Opcode, ValueId};
use crate::memory::{
    address_uses, analyze_gep, analyze_memory, feeds_addresses_only, loop_address, memory_access,
    validate_address_index_uses, validate_gep_uses, MemoryAccess,
};
use crate::operations::{
    computes, instruction_cost, instruction_width, is_supported_compute, operation_bits,
    operation_cost, scalar_bits, type_bits,
};
use crate::rejection::{first_rejection, lemma_first_rejection_err, Rejection};
use crate::shape::{LoopShape, MAX_BODY_INSTRUCTIONS};
use std::collections::HashSet;
use vstd::prelude::*;

verus! {

broadcast use vstd::std_specs::hash::group_hash_axioms;

/// The cost of one load or store.
pub const MEMORY_COST: u64 = 2;

/// Why address computation `k` of the body keeps the loop scalar, if it does.
pub open spec fn address_rejection(f: Function, shape: LoopShape, k: int) -> Option<Rejection> {
    let v = f.body(shape.header)[k];
    if !f.is_op(v, Opcode::GetElementPtr) {
        None
    } else {
        match loop_address(f, v, shape.induction, shape.header) {
            Err(rejection) => Some(rejection),
            Ok(address) => match address.index.node {
                Some(node) => if feeds_addresses_only(f, node, shape.header) {
                    None
                } else {
                    Some(Rejection::AffineIndexHasDataUse)
                },
                None => None,
            },
        }
    }
}

/// `v` is the index helper of address computation `k` of the body.
pub open spec fn is_index_helper(f: Function, shape: LoopShape, k: int, v: ValueId) -> bool {
    let gep = f.body(shape.header)[k];
    &&& f.is_op(gep, Opcode::GetElementPtr)
    &&& loop_address(f, gep, shape.induction, shape.header) matches Ok(address)
    &&& address.index.node == Some(v)
}

/// The index helpers of the first `count` instructions. They are rebuilt once
/// per vector, so they are neither widened nor costed as lane-wise work.
pub open spec fn index_helpers(f: Function, shape: LoopShape, count: nat) -> Set<ValueId> {
    Set::new(
        |v: ValueId|
            exists|k: int| 0 <= k < count && #[trigger] is_index_helper(f, shape, k, v),
    )
}

/// Finds the index helpers of a body.
pub fn collect_index_helpers(f: &Function, shape: LoopShape) -> (result: Result<
    HashSet<ValueId>,
    Rejection,
>)
    requires
        f.wf(),
        shape.header < f.blocks@.len(),
    ensures
        match result {
            Ok(helpers) => {
                &&& helpers@ == index_helpers(*f, shape, f.body(shape.header).len())
                &&& first_rejection(
                    |k: int| address_rejection(*f, shape, k),
                    f.body(shape.header).len(),
                ) is Ok
            },
            Err(rejection) => first_rejection(
                |k: int| address_rejection(*f, shape, k),
                f.body(shape.header).len(),
            ) == Err::<(), Rejection>(rejection),
        },
{
    assert(f.block_is_valid(shape.header));
    let ghost check = |k: int| address_rejection(*f, shape, k);
    let body: &Vec<ValueId> = &f.blocks[shape.header].instructions;
    let mut helpers: HashSet<ValueId> = HashSet::new();
    assert(helpers@ == index_helpers(*f, shape, 0));
    let mut k: usize = 0;
    while k < body.len()
        invariant
            f.wf(),
            shape.header < f.blocks@.len(),
            f.block_is_valid(shape.header),
            body@ == f.body(shape.header),
            check == (|k: int| address_rejection(*f, shape, k)),
            k <= body@.len(),
            helpers@ == index_helpers(*f, shape, k as nat),
            first_rejection(check, k as nat) is Ok,
        decreases body@.len() - k,
    {
        let v: ValueId = body[k];
        assert(f.has_value(f.blocks@[shape.header as int].instructions@[k as int]));
        let ghost before = helpers@;
        let ghost rejection = check(k as int);
        if f.has_opcode(v, Opcode::GetElementPtr) {
            match analyze_gep(f, v, shape.induction, shape.header) {
                Ok(address) => {
                    if let Some(node) = address.index.node {
                        match validate_address_index_uses(f, node, shape.header) {
                            Ok(()) => {},
                            Err(rejection) => {
                                proof {
                                    lemma_first_rejection_err(check, k as nat, body@.len());
                                }
                                return Err(rejection);
                            },
                        }
                        helpers.insert(node);
                        assert(is_index_helper(*f, shape, k as int, node));
                    }
                },
                Err(rejection) => {
                    proof {
                        lemma_first_rejection_err(check, k as nat, body@.len());
                    }
                    return Err(rejection);
                },
            }
        }
        assert(helpers@ =~= index_helpers(*f, shape, (k + 1) as nat)) by {
            assert forall|u: ValueId|
                helpers@.contains(u) <==> index_helpers(*f, shape, (k + 1) as nat).contains(u) by {
                if index_helpers(*f, shape, (k + 1) as nat).contains(u) {
                    let j = choose|j: int|
                        0 <= j < k + 1 && #[trigger] is_index_helper(*f, shape, j, u);
                    if j < k {
                        assert(before.contains(u));
                    }
                }
                if before.contains(u) {
                    let j = choose|j: int|
                        0 <= j < k && #[trigger] is_index_helper(*f, shape, j, u);
                    assert(0 <= j < k + 1 && is_index_helper(*f, shape, j, u));
                }
            }
        }
        k += 1;
    }
    Ok(helpers)
}

/// The instructions that are not widened one by one: control and index helpers.
pub open spec fn is_skipped(shape: LoopShape, helpers: Set<ValueId>, v: ValueId) -> bool {
    ||| v == shape.induction
    ||| v == shape.induction_next
    ||| v == shape.latch_compare
    ||| v == shape.terminator
    ||| helpers.contains(v)
}

/// Whether an instruction is not widened on its own.
pub fn skips(shape: LoopShape, helpers: &HashSet<ValueId>, v: ValueId) -> (result: bool)
    ensures
        result == is_skipped(shape, helpers@, v),
{
    v == shape.induction || v == shape.induction_next || v == shape.latch_compare || v
        == shape.terminator || helpers.contains(&v)
}

/// Why operand `k` of operation `v` cannot be widened, if it cannot. An operand
/// from the loop must be a load, an address or another supported operation.
pub open spec fn operand_rejection(f: Function, shape: LoopShape, v: ValueId, k: int) -> Option<
    Rejection,
> {
    let operand = f.operand(v, k);
    if operand == shape.induction || !f.in_block(operand, shape.header) || f.is_op(
        operand,
        Opcode::Load,
    ) || f.is_op(operand, Opcode::GetElementPtr) || computes(f.inst(operand).opcode) {
        None
    } else {
        Some(Rejection::UnsupportedComputeDependency)
    }
}

/// Whether the operands of operation `v` can all be widened.
pub open spec fn operands_are_widenable(f: Function, shape: LoopShape, v: ValueId) -> Result<
    (),
    Rejection,
> {
    first_rejection(|k: int| operand_rejection(f, shape, v, k), f.inst(v).operands@.len())
}

/// Rejects an operation with an operand that cannot be widened.
pub fn validate_compute_operands(f: &Function, shape: LoopShape, v: ValueId) -> (result: Result<
    (),
    Rejection,
>)
    requires
        f.wf(),
        f.has_value(v),
        f.is_instruction(v),
    ensures
        result == operands_are_widenable(*f, shape, v),
{
    assert(f.value_is_valid(v));
    let ghost check = |k: int| operand_rejection(*f, shape, v, k);
    let inst = match f.instruction(v) {
        Some(inst) => inst,
        None => return Err(Rejection::UnsupportedComputeDependency),
    };
    let mut k: usize = 0;
    while k < inst.operands.len()
        invariant
            f.wf(),
            f.value_is_valid(v),
            f.is_instruction(v),
            *inst == f.inst(v),
            check == (|k: int| operand_rejection(*f, shape, v, k)),
            k <= inst.operands@.len(),
            first_rejection(check, k as nat) is Ok,
        decreases inst.operands@.len() - k,
    {
        let operand: ValueId = inst.operands[k];
        assert(f.has_value(f.inst(v).operands@[k as int]));
        let ghost rejection = check(k as int);
        if operand != shape.induction {
            if let Some(producer) = f.instruction(operand) {
                if producer.parent == shape.header && producer.opcode != Opcode::Load
                    && producer.opcode != Opcode::GetElementPtr && !is_supported_compute(
                    producer.opcode,
                ) {
                    proof {
                        lemma_first_rejection_err(check, k as nat, inst.operands@.len());
                    }
                    return Err(Rejection::UnsupportedComputeDependency);
                }
            }
        }
        assert(check(k as int) is None);
        k += 1;
    }
    Ok(())
}

/// What one instruction contributes to the plan.
#[derive(Clone, Copy, Debug, PartialEq, Eq, Structural)]
pub struct Contribution {
    /// The widest scalar that it handles.
    pub bits: u32,
    pub access: Option<MemoryAccess>,
    pub cost: u64,
}

/// The contribution of instruction `v`, or why it keeps the loop scalar.
pub open spec fn contribution(f: Function, shape: LoopShape, v: ValueId) -> Result<
    Contribution,
    Rejection,
> {
    let opcode = f.inst(v).opcode;
    if opcode == Opcode::GetElementPtr {
        match loop_address(f, v, shape.induction, shape.header) {
            Err(rejection) => Err(rejection),
            Ok(address) => match address_uses(f, v, shape.header) {
                Err(rejection) => Err(rejection),
                Ok(()) => Ok(
                    Contribution {
                        bits: scalar_bits(address.element_type)->0,
                        access: None,
                        cost: 0,
                    },
                ),
            },
        }
    } else if opcode == Opcode::Load || opcode == Opcode::Store {
        match memory_access(f, v, shape.induction, shape.header) {
            Err(rejection) => Err(rejection),
            Ok(access) => Ok(
                Contribution {
                    bits: scalar_bits(access.element_type)->0,
                    access: Some(access),
                    cost: MEMORY_COST,
                },
            ),
        }
    } else if computes(opcode) {
        match operation_bits(f, v) {
            Err(rejection) => Err(rejection),
            Ok(bits) => match operands_are_widenable(f, shape, v) {
                Err(rejection) => Err(rejection),
                Ok(()) => Ok(
                    Contribution { bits, access: None, cost: operation_cost(opcode) as u64 },
                ),
            },
        }
    } else {
        Err(Rejection::UnsupportedInstruction)
    }
}

/// Works out the contribution of one instruction.
pub fn examine(f: &Function, shape: LoopShape, v: ValueId) -> (result: Result<
    Contribution,
    Rejection,
>)
    requires
        f.wf(),
        f.has_value(v),
        f.is_instruction(v),
    ensures
        result == contribution(*f, shape, v),
        result matches Ok(c) ==> c.cost <= 4 && (c.access matches Some(access) ==> f.has_value(
            access.base,
        )),
{
    let opcode: Opcode = match f.instruction(v) {
        Some(inst) => inst.opcode,
        None => return Err(Rejection::UnsupportedInstruction),
    };
    match opcode {
        Opcode::GetElementPtr => match analyze_gep(f, v, shape.induction, shape.header) {
            Err(rejection) => Err(rejection),
            Ok(address) => match validate_gep_uses(f, v, shape.header) {
                Err(rejection) => Err(rejection),
                Ok(()) => match type_bits(address.element_type) {
                    Err(rejection) => Err(rejection),
                    Ok(bits) => Ok(Contribution { bits, access: None, cost: 0 }),
                },
            },
        },
        Opcode::Load | Opcode::Store => match analyze_memory(f, v, shape.induction, shape.header) {
            Err(rejection) => Err(rejection),
            Ok(access) => match type_bits(access.element_type) {
                Err(rejection) => Err(rejection),
                Ok(bits) => Ok(
                    Contribution { bits, access: Some(access), cost: MEMORY_COST },
                ),
            },
        },
        _ => {
            if !is_supported_compute(opcode) {
                return Err(Rejection::UnsupportedInstruction);
            }
            match instruction_width(f, v) {
                Err(rejection) => Err(rejection),
                Ok(bits) => match validate_compute_operands(f, shape, v) {
                    Err(rejection) => Err(rejection),
                    Ok(()) => Ok(
                        Contribution { bits, access: None, cost: instruction_cost(opcode) },
                    ),
                },
            }
        },
    }
}

/// The contributions of a body put together.
pub struct Totals {
    pub bits: u32,
    pub memory: Vec<MemoryAccess>,
    pub cost: u64,
}

/// The contributions of a body put together, as mathematical values.
pub ghost struct TotalsView {
    pub bits: u32,
    pub memory: Seq<MemoryAccess>,
    pub cost: nat,
}

impl View for Totals {
    type V = TotalsView;

    open spec fn view(&self) -> TotalsView {
        TotalsView { bits: self.bits, memory: self.memory@, cost: self.cost as nat }
    }
}

/// The totals of the first `count` instructions: the widest scalar, the
/// accesses in order and the summed cost, or the first rejection.
pub open spec fn totals(f: Function, shape: LoopShape, helpers: Set<ValueId>, count: nat) -> Result<
    TotalsView,
    Rejection,
>
    decreases count,
{
    if count == 0 {
        Ok(TotalsView { bits: 0, memory: Seq::empty(), cost: 0 })
    } else {
        let v = f.body(shape.header)[count - 1];
        match totals(f, shape, helpers, (count - 1) as nat) {
            Err(rejection) => Err(rejection),
            Ok(t) => if is_skipped(shape, helpers, v) {
                Ok(t)
            } else {
                match contribution(f, shape, v) {
                    Err(rejection) => Err(rejection),
                    Ok(c) => Ok(
                        TotalsView {
                            bits: if c.bits > t.bits {
                                c.bits
                            } else {
                                t.bits
                            },
                            memory: match c.access {
                                Some(access) => t.memory.push(access),
                                None => t.memory,
                            },
                            cost: t.cost + c.cost as nat,
                        },
                    ),
                }
            },
        }
    }
}

proof fn lemma_totals_rejection(
    f: Function,
    shape: LoopShape,
    helpers: Set<ValueId>,
    from: nat,
    count: nat,
)
    requires
        from <= count,
        totals(f, shape, helpers, from) is Err,
    ensures
        totals(f, shape, helpers, count) == totals(f, shape, helpers, from),
    decreases count,
{
    if from < count {
        lemma_totals_rejection(f, shape, helpers, from, (count - 1) as nat);
    }
}

/// Adds up the contributions of a body.
pub fn survey_body(f: &Function, shape: LoopShape, helpers: &HashSet<ValueId>) -> (result: Result<
    Totals,
    Rejection,
>)
    requires
        f.wf(),
        shape.header < f.blocks@.len(),
        f.body(shape.header).len() <= MAX_BODY_INSTRUCTIONS,
    ensures
        match result {
            Ok(t) => totals(*f, shape, helpers@, f.body(shape.header).len()) == Ok::<
                TotalsView,
                Rejection,
            >(t@) && forall|k: int|
                0 <= k < t.memory@.len() ==> f.has_value((#[trigger] t.memory@[k]).base),
            Err(rejection) => totals(*f, shape, helpers@, f.body(shape.header).len()) == Err::<
                TotalsView,
                Rejection,
            >(rejection),
        },
{
    assert(f.block_is_valid(shape.header));
    let body: &Vec<ValueId> = &f.blocks[shape.header].instructions;
    let mut t: Totals = Totals { bits: 0, memory: Vec::new(), cost: 0 };
    let mut k: usize = 0;
    while k < body.len()
        invariant
            f.wf(),
            shape.header < f.blocks@.len(),
            f.block_is_valid(shape.header),
            body@ == f.body(shape.header),
            body@.len() <= MAX_BODY_INSTRUCTIONS,
            k <= body@.len(),
            totals(*f, shape, helpers@, k as nat) == Ok::<TotalsView, Rejection>(t@),
            t.cost <= 4 * k,
            forall|j: int| 0 <= j < t.memory@.len() ==> f.has_value((#[trigger] t.memory@[j]).base),
        decreases body@.len() - k,
    {
        let v: ValueId = body[k];
        assert(f.has_value(f.blocks@[shape.header as int].instructions@[k as int]));
        if !skips(shape, helpers, v) {
            match examine(f, shape, v) {
                Ok(c) => {
                    if c.bits > t.bits {
                        t.bits = c.bits;
                    }
                    if let Some(access) = c.access {
                        t.memory.push(access);
                    }
                    t.cost = t.cost + c.cost;
                },
                Err(rejection) => {
                    proof {
                        lemma_totals_rejection(
                            *f,
                            shape,
                            helpers@,
                            (k + 1) as nat,
                            body@.len(),
                        );
                    }
                    return Err(rejection);
                },
            }
        }
        k += 1;
    }
    Ok(t)
}

} // verus!
