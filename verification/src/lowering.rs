//! Lowering of an accepted loop: the vector instructions that stand for the
//! scalar body, and the blocks around them.

use crate::analysis::{analysis, analyze_candidate, Candidate, CandidateView};
use crate::body::{contribution, is_skipped, skips, totals};
use crate::config::PassConfig;
use crate::cost::Plan;
use crate::ir::{BlockId, Flags, Function, Instruction, IntPredicate, Opcode, ScalarType, ValueId};
use crate::memory::{analyze_gep, loop_address, Address};
use crate::operations::{casts, computes, is_cast};
use crate::recipe::{Incoming, Label, NewBlock, Operand, Rewrite, Step, Target};
use crate::recognize::is_loop_header;
use crate::rejection::{lemma_first_rejection_ok, Rejection};
use crate::report::Decision;
use crate::shape::{LoopShape, MAX_BODY_INSTRUCTIONS};
use crate::widening::{is_available, order_rejection, produces_vector};
use std::collections::HashMap;
use vstd::prelude::*;

verus! {

broadcast use vstd::std_specs::hash::group_hash_axioms;

/// The number of the index PHI, behind the instructions of the dispatch block.
pub const INDEX_PHI: usize = 3;

/// The number of the vector trip count.
pub const VECTOR_TRIP: usize = 1;

/// The flags that the vector form of an operation inherits: wrap flags and
/// exactness where the opcode has them, fast-math bits where the operation
/// carries them.
pub open spec fn inherited_flags(inst: Instruction) -> Flags {
    let wraps = match inst.opcode {
        Opcode::Add | Opcode::Sub | Opcode::Mul | Opcode::Shl => true,
        _ => false,
    };
    let divides = match inst.opcode {
        Opcode::UDiv | Opcode::SDiv | Opcode::LShr | Opcode::AShr => true,
        _ => false,
    };
    Flags {
        nuw: wraps && inst.flags.nuw,
        nsw: wraps && inst.flags.nsw,
        exact: divides && inst.flags.exact,
        fast_math: inst.flags.fast_math,
    }
}

/// Collects the flags that the vector form of an operation inherits.
pub fn copy_instruction_flags(inst: &Instruction) -> (flags: Flags)
    ensures
        flags == inherited_flags(*inst),
{
    let wraps: bool = match inst.opcode {
        Opcode::Add | Opcode::Sub | Opcode::Mul | Opcode::Shl => true,
        _ => false,
    };
    let divides: bool = match inst.opcode {
        Opcode::UDiv | Opcode::SDiv | Opcode::LShr | Opcode::AShr => true,
        _ => false,
    };
    Flags {
        nuw: wraps && inst.flags.nuw,
        nsw: wraps && inst.flags.nsw,
        exact: divides && inst.flags.exact,
        fast_math: inst.flags.fast_math,
    }
}

/// A vector body under construction.
pub struct Emitter {
    pub steps: Vec<Step>,
    /// The numbers of widened values.
    pub values: HashMap<ValueId, usize>,
    /// The numbers of splatted loop invariants.
    pub splats: HashMap<ValueId, usize>,
}

/// A vector body under construction, as mathematical values.
#[verifier::ext_equal]
pub ghost struct EmitterView {
    pub steps: Seq<Step>,
    pub values: Map<ValueId, usize>,
    pub splats: Map<ValueId, usize>,
}

impl EmitterView {
    /// The number that the next instruction gets.
    pub open spec fn next(self) -> usize {
        (INDEX_PHI + self.steps.len()) as usize
    }

    /// The body with one more instruction.
    pub open spec fn with_step(self, step: Step) -> EmitterView {
        EmitterView { steps: self.steps.push(step), ..self }
    }

    /// The body in which the next instruction widens `v`.
    pub open spec fn with_value(self, v: ValueId, step: Step) -> EmitterView {
        EmitterView {
            steps: self.steps.push(step),
            values: self.values.insert(v, self.next()),
            ..self
        }
    }

    /// The body after `u` has been made available as a vector.
    pub open spec fn with_operand(self, f: Function, u: ValueId) -> EmitterView {
        if self.values.contains_key(u) || self.splats.contains_key(u) {
            self
        } else {
            EmitterView {
                steps: self.steps.push(
                    Step::Splat { scalar: Operand::Original(u), element_type: f.ty(u) },
                ),
                splats: self.splats.insert(u, self.next()),
                ..self
            }
        }
    }

    /// The vector form of an available `u`: its widened value, or its splat.
    pub open spec fn operand(self, u: ValueId) -> Operand {
        if self.values.contains_key(u) {
            Operand::Result(self.values[u])
        } else {
            Operand::Result(self.splats[u])
        }
    }
}

impl View for Emitter {
    type V = EmitterView;

    open spec fn view(&self) -> EmitterView {
        EmitterView { steps: self.steps@, values: self.values@, splats: self.splats@ }
    }
}

/// The body after an address has been lowered: the index of its first lane, if
/// the address has an offset, and the address itself.
pub open spec fn lowered_address(
    e: EmitterView,
    f: Function,
    v: ValueId,
    address: Address,
) -> EmitterView {
    if address.index.offset == 0 {
        e.with_value(
            v,
            Step::Address {
                base: address.base,
                index: Operand::Result(INDEX_PHI),
                element_type: address.element_type,
                inbounds: f.inst(v).inbounds,
            },
        )
    } else {
        e.with_step(
            Step::AddIndex {
                left: Operand::Result(INDEX_PHI),
                right: Operand::Constant(address.index.offset as u64),
                label: Label::AddressIndex,
            },
        ).with_value(
            v,
            Step::Address {
                base: address.base,
                index: Operand::Result(e.next()),
                element_type: address.element_type,
                inbounds: f.inst(v).inbounds,
            },
        )
    }
}

/// The vector form of operation `v` once its operands are available in `e`.
pub open spec fn vector_operation(e: EmitterView, f: Function, v: ValueId) -> Step {
    let inst = f.inst(v);
    let flags = inherited_flags(inst);
    let first = e.operand(f.operand(v, 0));
    let second = e.operand(f.operand(v, 1));
    match inst.opcode {
        Opcode::FNeg => Step::Negate { operand: first, flags },
        Opcode::ICmp => Step::CompareIntegers {
            predicate: inst.int_predicate,
            left: first,
            right: second,
            flags,
        },
        Opcode::FCmp => Step::CompareFloats {
            float_predicate: inst.float_predicate,
            left: first,
            right: second,
            flags,
        },
        Opcode::Select => Step::Select {
            condition: first,
            if_true: second,
            if_false: e.operand(f.operand(v, 2)),
            flags,
        },
        _ => if casts(inst.opcode) {
            Step::Convert { opcode: inst.opcode, operand: first, element_type: f.ty(v), flags }
        } else {
            Step::Binary { opcode: inst.opcode, left: first, right: second, flags }
        },
    }
}

/// How many operands a supported operation has.
pub open spec fn arity(opcode: Opcode) -> nat {
    if opcode == Opcode::FNeg || casts(opcode) {
        1
    } else if opcode == Opcode::Select {
        3
    } else {
        2
    }
}

/// The body after the first `count` operands of `v` have been made available.
pub open spec fn with_operands(e: EmitterView, f: Function, v: ValueId, count: nat) -> EmitterView
    decreases count,
{
    if count == 0 {
        e
    } else {
        with_operands(e, f, v, (count - 1) as nat).with_operand(f, f.operand(v, count - 1))
    }
}

/// The body after instruction `v` has been lowered.
pub open spec fn lowered_instruction(
    e: EmitterView,
    f: Function,
    shape: LoopShape,
    v: ValueId,
) -> EmitterView {
    let inst = f.inst(v);
    if inst.opcode == Opcode::GetElementPtr {
        lowered_address(e, f, v, loop_address(f, v, shape.induction, shape.header)->Ok_0)
    } else if inst.opcode == Opcode::Load {
        e.with_value(
            v,
            Step::Load {
                pointer: Operand::Result(e.values[f.operand(v, 0)]),
                element_type: f.ty(v),
                alignment: inst.alignment,
            },
        )
    } else if inst.opcode == Opcode::Store {
        let ready = e.with_operand(f, f.operand(v, 0));
        ready.with_step(
            Step::Store {
                value: ready.operand(f.operand(v, 0)),
                pointer: Operand::Result(e.values[f.operand(v, 1)]),
                alignment: inst.alignment,
            },
        )
    } else {
        let ready = with_operands(e, f, v, arity(inst.opcode));
        ready.with_value(v, vector_operation(ready, f, v))
    }
}

/// The vector body before any instruction has been lowered: the index, and the
/// indices of all lanes if the induction is used as data.
pub open spec fn body_prologue(c: CandidateView) -> EmitterView {
    let start = EmitterView {
        steps: seq![Step::IndexPhi],
        values: Map::empty(),
        splats: Map::empty(),
    };
    if c.widen_induction {
        let splat = start.with_step(
            Step::Splat {
                scalar: Operand::Result(INDEX_PHI),
                element_type: ScalarType::Integer(64),
            },
        );
        splat.with_value(
            c.shape.induction,
            Step::AddLanes { left: Operand::Result(start.next()), right: Operand::LaneNumbers },
        )
    } else {
        start
    }
}

/// The vector body after the first `count` instructions have been lowered in
/// their order.
pub open spec fn lowered_body(f: Function, c: CandidateView, count: nat) -> EmitterView
    decreases count,
{
    if count == 0 {
        body_prologue(c)
    } else {
        let e = lowered_body(f, c, (count - 1) as nat);
        let v = f.body(c.shape.header)[count - 1];
        if is_skipped(c.shape, c.address_only, v) {
            e
        } else {
            lowered_instruction(e, f, c.shape, v)
        }
    }
}

/// The mask that rounds a trip count down to whole vectors.
pub open spec fn trip_mask(vf: u32) -> u64 {
    !((vf - 1) as u64)
}

/// The dispatch block: long enough loops enter the vector body.
pub open spec fn dispatch_steps(c: CandidateView, vf: u32) -> Seq<Step> {
    seq![
        Step::CompareIndex {
            predicate: IntPredicate::Uge,
            left: Operand::Original(c.shape.trip_count),
            right: Operand::Constant(c.minimum_trip_count as u64),
            label: Label::EnoughIterations,
        },
        Step::MaskIndex {
            left: Operand::Original(c.shape.trip_count),
            right: Operand::Constant(trip_mask(vf)),
        },
        Step::Branch {
            condition: Operand::Result(0),
            on_true: Target::New(NewBlock::VectorBody),
            on_false: Target::Existing(c.shape.header),
        },
    ]
}

/// The end of the vector body: step by one vector until the vector trip count
/// is reached.
pub open spec fn latch_steps(first: usize, vf: u32) -> Seq<Step> {
    seq![
        Step::AddIndex {
            left: Operand::Result(INDEX_PHI),
            right: Operand::Constant(vf as u64),
            label: Label::IndexNext,
        },
        Step::CompareIndex {
            predicate: IntPredicate::Eq,
            left: Operand::Result(first),
            right: Operand::Result(VECTOR_TRIP),
            label: Label::VectorDone,
        },
        Step::Branch {
            condition: Operand::Result((first + 1) as usize),
            on_true: Target::New(NewBlock::VectorExit),
            on_false: Target::New(NewBlock::VectorBody),
        },
    ]
}

/// The vector exit: the scalar loop runs a remainder, if there is one.
pub open spec fn exit_steps(c: CandidateView, first: usize) -> Seq<Step> {
    seq![
        Step::CompareIndex {
            predicate: IntPredicate::Ne,
            left: Operand::Result(VECTOR_TRIP),
            right: Operand::Original(c.shape.trip_count),
            label: Label::HasRemainder,
        },
        Step::Branch {
            condition: Operand::Result(first),
            on_true: Target::Existing(c.shape.header),
            on_false: Target::Existing(c.shape.exit),
        },
    ]
}

/// `r` is the rewrite of candidate `c` under `plan`.
pub open spec fn is_rewrite(f: Function, c: CandidateView, plan: Plan, r: Rewrite) -> bool {
    let body = lowered_body(f, c, f.body(c.shape.header).len());
    &&& r.vf == plan.vf
    &&& r.header == c.shape.header
    &&& r.preheader == c.shape.preheader
    &&& r.preheader_successor_index == c.shape.preheader_successor_index
    &&& r.induction == c.shape.induction
    &&& r.outside_phi_index == c.shape.outside_phi_index
    &&& r.dispatch@ == dispatch_steps(c, plan.vf)
    &&& r.vector_body@ == body.steps + latch_steps(body.next(), plan.vf)
    &&& r.vector_exit@ == exit_steps(c, (body.next() + 3) as usize)
    &&& r.index_entry == (Incoming { value: Operand::Constant(0), block: NewBlock::Dispatch })
    &&& r.index_back_edge == (Incoming {
        value: Operand::Result(body.next()),
        block: NewBlock::VectorBody,
    })
    &&& r.remainder_entry == (Incoming {
        value: Operand::Result(VECTOR_TRIP),
        block: NewBlock::VectorExit,
    })
}

/// The candidate and plan are what the analysis of `f` accepted.
pub open spec fn is_accepted(f: Function, c: CandidateView, plan: Plan) -> bool {
    exists|config: PassConfig| #[trigger]
        analysis(f, c.shape.header, config) == Ok::<(CandidateView, Plan), Rejection>((c, plan))
}

/// What the analysis of an accepted loop has established about instruction `k`
/// of its body.
pub open spec fn is_lowerable(f: Function, c: CandidateView, k: int) -> bool {
    let v = f.body(c.shape.header)[k];
    is_skipped(c.shape, c.address_only, v) || {
        &&& contribution(f, c.shape, v) is Ok
        &&& order_rejection(f, c.shape, c.address_only, c.widen_induction, k) is None
    }
}

proof fn lemma_contributions(
    f: Function,
    shape: LoopShape,
    helpers: Set<ValueId>,
    count: nat,
    k: int,
)
    requires
        totals(f, shape, helpers, count) is Ok,
        0 <= k < count,
    ensures
        is_skipped(shape, helpers, f.body(shape.header)[k]) || contribution(
            f,
            shape,
            f.body(shape.header)[k],
        ) is Ok,
    decreases count,
{
    if k < count - 1 {
        lemma_contributions(f, shape, helpers, (count - 1) as nat, k);
    }
}

/// Every instruction of an accepted loop can be lowered in its place.
pub proof fn law_accepted_loops_are_lowerable(
    f: Function,
    header: BlockId,
    config: PassConfig,
    k: int,
)
    requires
        f.wf(),
        header < f.blocks@.len(),
        is_loop_header(f, header),
        analysis(f, header, config) is Ok,
        0 <= k < f.body(header).len(),
    ensures
        is_lowerable(f, analysis(f, header, config)->Ok_0.0, k),
{
    let c = analysis(f, header, config)->Ok_0.0;
    let n = f.body(header).len();
    let check = |k: int| order_rejection(f, c.shape, c.address_only, c.widen_induction, k);
    assert(c.shape.header == header);
    lemma_contributions(f, c.shape, c.address_only, n, k);
    lemma_first_rejection_ok(check, n);
    assert(check(k) is None);
}

pub proof fn lemma_operands_keep_values(e: EmitterView, f: Function, v: ValueId, count: nat)
    ensures
        with_operands(e, f, v, count).values == e.values,
        with_operands(e, f, v, count).steps.len() <= e.steps.len() + count,
        e.steps.len() <= with_operands(e, f, v, count).steps.len(),
    decreases count,
{
    if count > 0 {
        lemma_operands_keep_values(e, f, v, (count - 1) as nat);
    }
}

/// The widened values are those that the preflight takes to be available.
pub proof fn lemma_widened_values(f: Function, c: CandidateView, count: nat)
    requires
        f.block_is_valid(c.shape.header),
        count <= f.body(c.shape.header).len(),
    ensures
        forall|v: ValueId| #[trigger]
            lowered_body(f, c, count).values.contains_key(v) <==> is_available(
                f,
                c.shape,
                c.address_only,
                c.widen_induction,
                count as int,
                v,
            ),
        1 <= lowered_body(f, c, count).steps.len() <= 3 + 4 * count,
    decreases count,
{
    if count > 0 {
        let k = count - 1;
        let before = lowered_body(f, c, k as nat);
        let u = f.body(c.shape.header)[k];
        assert(f.in_block(f.blocks@[c.shape.header as int].instructions@[k], c.shape.header));
        lemma_widened_values(f, c, k as nat);
        lemma_operands_keep_values(before, f, u, arity(f.inst(u).opcode));
        assert forall|v: ValueId| #[trigger]
            lowered_body(f, c, count).values.contains_key(v) <==> is_available(
                f,
                c.shape,
                c.address_only,
                c.widen_induction,
                count as int,
                v,
            ) by {
            let known = before.values.contains_key(v);
            assert(known == is_available(
                f,
                c.shape,
                c.address_only,
                c.widen_induction,
                k,
                v,
            ));
            if v == u && produces_vector(f, c.shape, c.address_only, k) {
                assert(f.body(c.shape.header)[k] == v);
            }
            if is_available(f, c.shape, c.address_only, c.widen_induction, k, v) && !(
            c.widen_induction && v == c.shape.induction) {
                let j = choose|j: int|
                    0 <= j < k && f.body(c.shape.header)[j] == v && #[trigger] produces_vector(
                        f,
                        c.shape,
                        c.address_only,
                        j,
                    );
                assert(0 <= j < count && f.body(c.shape.header)[j] == v && produces_vector(
                    f,
                    c.shape,
                    c.address_only,
                    j,
                ));
            }
            if is_available(f, c.shape, c.address_only, c.widen_induction, count as int, v) && !(
            c.widen_induction && v == c.shape.induction) {
                let j = choose|j: int|
                    0 <= j < count && f.body(c.shape.header)[j] == v && #[trigger] produces_vector(
                        f,
                        c.shape,
                        c.address_only,
                        j,
                    );
                if j < k {
                    assert(is_available(
                        f,
                        c.shape,
                        c.address_only,
                        c.widen_induction,
                        k,
                        v,
                    ));
                }
            }
        }
    }
}

impl Emitter {
    /// Adds an instruction and returns its number.
    fn push(&mut self, step: Step) -> (number: usize)
        requires
            old(self)@.steps.len() < 1000,
        ensures
            final(self)@ == old(self)@.with_step(step),
            number == old(self)@.next(),
    {
        let number: usize = INDEX_PHI + self.steps.len();
        self.steps.push(step);
        number
    }

    /// Adds the instruction that widens `v`.
    fn push_value(&mut self, v: ValueId, step: Step)
        requires
            old(self)@.steps.len() < 1000,
        ensures
            final(self)@ == old(self)@.with_value(v, step),
    {
        let number: usize = self.push(step);
        self.values.insert(v, number);
    }

    /// Makes `u` available as a vector, by a splat if it has no vector form
    /// yet.
    fn widen_operand(&mut self, f: &Function, u: ValueId) -> (operand: Operand)
        requires
            f.has_value(u),
            old(self)@.steps.len() < 1000,
        ensures
            final(self)@ == old(self)@.with_operand(*f, u),
            operand == final(self)@.operand(u),
    {
        if let Some(number) = self.values.get(&u) {
            return Operand::Result(*number);
        }
        if let Some(number) = self.splats.get(&u) {
            return Operand::Result(*number);
        }
        let number: usize = self.push(
            Step::Splat { scalar: Operand::Original(u), element_type: f.values[u].ty },
        );
        self.splats.insert(u, number);
        Operand::Result(number)
    }

    /// Lowers an address.
    fn build_vector_gep(&mut self, f: &Function, shape: LoopShape, v: ValueId)
        requires
            f.wf(),
            f.has_value(v),
            f.is_op(v, Opcode::GetElementPtr),
            loop_address(*f, v, shape.induction, shape.header) is Ok,
            old(self)@.steps.len() < 999,
        ensures
            final(self)@ == lowered_instruction(old(self)@, *f, shape, v),
    {
        let inbounds: bool = match f.instruction(v) {
            Some(inst) => inst.inbounds,
            None => false,
        };
        if let Ok(address) = analyze_gep(f, v, shape.induction, shape.header) {
            let index: Operand = if address.index.offset == 0 {
                Operand::Result(INDEX_PHI)
            } else {
                Operand::Result(
                    self.push(
                        Step::AddIndex {
                            left: Operand::Result(INDEX_PHI),
                            right: Operand::Constant(
                                #[verifier::truncate]
                                (address.index.offset as u64),
                            ),
                            label: Label::AddressIndex,
                        },
                    ),
                )
            };
            self.push_value(
                v,
                Step::Address {
                    base: address.base,
                    index,
                    element_type: address.element_type,
                    inbounds,
                },
            );
        }
    }

    /// Lowers a supported operation.
    fn widen_compute(&mut self, f: &Function, shape: LoopShape, v: ValueId)
        requires
            f.wf(),
            f.has_value(v),
            f.is_instruction(v),
            computes(f.inst(v).opcode),
            old(self)@.steps.len() < 990,
        ensures
            final(self)@ == lowered_instruction(old(self)@, *f, shape, v),
    {
        assert(f.value_is_valid(v));
        let inst: &Instruction = match f.instruction(v) {
            Some(inst) => inst,
            None => return ,
        };
        let flags: Flags = copy_instruction_flags(inst);
        proof {
            reveal_with_fuel(with_operands, 4);
            assert(f.has_value(f.inst(v).operands@[0]));
        }
        let first: Operand = self.widen_operand(f, inst.operands[0]);
        let step: Step = match inst.opcode {
            Opcode::FNeg => Step::Negate { operand: first, flags },
            Opcode::ICmp => {
                assert(f.has_value(f.inst(v).operands@[1]));
                let second: Operand = self.widen_operand(f, inst.operands[1]);
                Step::CompareIntegers {
                    predicate: inst.int_predicate,
                    left: first,
                    right: second,
                    flags,
                }
            },
            Opcode::FCmp => {
                assert(f.has_value(f.inst(v).operands@[1]));
                let second: Operand = self.widen_operand(f, inst.operands[1]);
                Step::CompareFloats {
                    float_predicate: inst.float_predicate,
                    left: first,
                    right: second,
                    flags,
                }
            },
            Opcode::Select => {
                assert(f.has_value(f.inst(v).operands@[1]));
                assert(f.has_value(f.inst(v).operands@[2]));
                let second: Operand = self.widen_operand(f, inst.operands[1]);
                let third: Operand = self.widen_operand(f, inst.operands[2]);
                Step::Select { condition: first, if_true: second, if_false: third, flags }
            },
            _ => {
                if is_cast(inst.opcode) {
                    Step::Convert {
                        opcode: inst.opcode,
                        operand: first,
                        element_type: f.values[v].ty,
                        flags,
                    }
                } else {
                    assert(f.has_value(f.inst(v).operands@[1]));
                    let second: Operand = self.widen_operand(f, inst.operands[1]);
                    Step::Binary { opcode: inst.opcode, left: first, right: second, flags }
                }
            },
        };
        self.push_value(v, step);
    }

    /// Lowers one instruction of the body.
    fn lower(
        &mut self,
        f: &Function,
        shape: LoopShape,
        Ghost(c): Ghost<CandidateView>,
        k: usize,
        v: ValueId,
    )
        requires
            f.wf(),
            shape == c.shape,
            c.shape.header < f.blocks@.len(),
            k < f.body(c.shape.header).len() <= MAX_BODY_INSTRUCTIONS,
            v == f.body(c.shape.header)[k as int],
            f.has_value(v),
            f.is_instruction(v),
            !is_skipped(c.shape, c.address_only, v),
            is_lowerable(*f, c, k as int),
            old(self)@ == lowered_body(*f, c, k as nat),
        ensures
            final(self)@ == lowered_body(*f, c, (k + 1) as nat),
    {
        assert(f.value_is_valid(v));
        assert(f.block_is_valid(c.shape.header));
        proof {
            lemma_widened_values(*f, c, k as nat);
        }
        let inst: &Instruction = match f.instruction(v) {
            Some(inst) => inst,
            None => return ,
        };
        match inst.opcode {
            Opcode::GetElementPtr => self.build_vector_gep(f, shape, v),
            Opcode::Load => {
                if let Some(number) = self.values.get(&inst.operands[0]) {
                    let pointer: usize = *number;
                    self.push_value(
                        v,
                        Step::Load {
                            pointer: Operand::Result(pointer),
                            element_type: f.values[v].ty,
                            alignment: inst.alignment,
                        },
                    );
                }
            },
            Opcode::Store => {
                assert(f.has_value(f.inst(v).operands@[0]));
                if let Some(number) = self.values.get(&inst.operands[1]) {
                    let pointer: usize = *number;
                    let value: Operand = self.widen_operand(f, inst.operands[0]);
                    self.push(
                        Step::Store {
                            value,
                            pointer: Operand::Result(pointer),
                            alignment: inst.alignment,
                        },
                    );
                }
            },
            _ => self.widen_compute(f, shape, v),
        }
    }
}

/// Starts a vector body: the index, and the indices of all lanes if the
/// induction is used as data.
fn build_induction_vector(candidate: &Candidate) -> (emitter: Emitter)
    ensures
        emitter@ == body_prologue(candidate@),
{
    let mut emitter = Emitter { steps: Vec::new(), values: HashMap::new(), splats: HashMap::new() };
    emitter.steps.push(Step::IndexPhi);
    assert(emitter@ =~= (EmitterView {
        steps: seq![Step::IndexPhi],
        values: Map::empty(),
        splats: Map::empty(),
    }));
    if candidate.widen_induction {
        let splat: usize = emitter.push(
            Step::Splat {
                scalar: Operand::Result(INDEX_PHI),
                element_type: ScalarType::Integer(64),
            },
        );
        emitter.push_value(
            candidate.shape.induction,
            Step::AddLanes { left: Operand::Result(splat), right: Operand::LaneNumbers },
        );
    }
    emitter
}

/// Lowers an accepted loop. Every operand that the lowering asks for is there,
/// so it cannot fail.
pub fn transform(f: &Function, candidate: &Candidate, plan: Plan) -> (rewrite: Rewrite)
    requires
        f.wf(),
        candidate.shape.header < f.blocks@.len(),
        is_loop_header(*f, candidate.shape.header),
        is_accepted(*f, candidate@, plan),
    ensures
        is_rewrite(*f, candidate@, plan, rewrite),
{
    let ghost c = candidate@;
    let shape: LoopShape = candidate.shape;
    assert(f.block_is_valid(shape.header));
    let ghost config = choose|config: PassConfig| #[trigger]
        analysis(*f, c.shape.header, config) == Ok::<(CandidateView, Plan), Rejection>((c, plan));
    let body: &Vec<ValueId> = &f.blocks[shape.header].instructions;
    let mut emitter: Emitter = build_induction_vector(candidate);
    let mut k: usize = 0;
    while k < body.len()
        invariant
            f.wf(),
            c == candidate@,
            shape == c.shape,
            shape.header < f.blocks@.len(),
            f.block_is_valid(shape.header),
            is_loop_header(*f, shape.header),
            analysis(*f, c.shape.header, config) == Ok::<(CandidateView, Plan), Rejection>(
                (c, plan),
            ),
            body@ == f.body(shape.header),
            body@.len() <= MAX_BODY_INSTRUCTIONS,
            k <= body@.len(),
            emitter@ == lowered_body(*f, c, k as nat),
        decreases body@.len() - k,
    {
        let v: ValueId = body[k];
        assert(f.has_value(f.blocks@[shape.header as int].instructions@[k as int]));
        if !skips(shape, &candidate.address_only, v) {
            proof {
                law_accepted_loops_are_lowerable(*f, shape.header, config, k as int);
            }
            emitter.lower(f, shape, Ghost(c), k, v);
        }
        k += 1;
    }
    proof {
        lemma_widened_values(*f, c, body@.len());
    }
    let index_next: usize = INDEX_PHI + emitter.steps.len();
    let mut vector_body: Vec<Step> = emitter.steps;
    vector_body.push(
        Step::AddIndex {
            left: Operand::Result(INDEX_PHI),
            right: Operand::Constant(plan.vf as u64),
            label: Label::IndexNext,
        },
    );
    vector_body.push(
        Step::CompareIndex {
            predicate: IntPredicate::Eq,
            left: Operand::Result(index_next),
            right: Operand::Result(VECTOR_TRIP),
            label: Label::VectorDone,
        },
    );
    vector_body.push(
        Step::Branch {
            condition: Operand::Result(index_next + 1),
            on_true: Target::New(NewBlock::VectorExit),
            on_false: Target::New(NewBlock::VectorBody),
        },
    );
    assert(vector_body@ =~= emitter@.steps + latch_steps(index_next, plan.vf));
    assert(plan.vf >= 1);
    let dispatch: Vec<Step> = vec![
        Step::CompareIndex {
            predicate: IntPredicate::Uge,
            left: Operand::Original(shape.trip_count),
            right: Operand::Constant(candidate.minimum_trip_count),
            label: Label::EnoughIterations,
        },
        Step::MaskIndex {
            left: Operand::Original(shape.trip_count),
            right: Operand::Constant(!(plan.vf as u64 - 1)),
        },
        Step::Branch {
            condition: Operand::Result(0),
            on_true: Target::New(NewBlock::VectorBody),
            on_false: Target::Existing(shape.header),
        },
    ];
    assert(dispatch@ =~= dispatch_steps(c, plan.vf));
    let vector_exit: Vec<Step> = vec![
        Step::CompareIndex {
            predicate: IntPredicate::Ne,
            left: Operand::Result(VECTOR_TRIP),
            right: Operand::Original(shape.trip_count),
            label: Label::HasRemainder,
        },
        Step::Branch {
            condition: Operand::Result(index_next + 3),
            on_true: Target::Existing(shape.header),
            on_false: Target::Existing(shape.exit),
        },
    ];
    assert(vector_exit@ =~= exit_steps(c, (index_next + 3) as usize));
    Rewrite {
        vf: plan.vf,
        header: shape.header,
        preheader: shape.preheader,
        preheader_successor_index: shape.preheader_successor_index,
        induction: shape.induction,
        outside_phi_index: shape.outside_phi_index,
        dispatch,
        vector_body,
        vector_exit,
        index_entry: Incoming { value: Operand::Constant(0), block: NewBlock::Dispatch },
        index_back_edge: Incoming {
            value: Operand::Result(index_next),
            block: NewBlock::VectorBody,
        },
        remainder_entry: Incoming {
            value: Operand::Result(VECTOR_TRIP),
            block: NewBlock::VectorExit,
        },
    }
}

/// Analyzes the loop at `header` and, if it is legal and profitable, lowers it.
pub fn vectorize_loop(f: &Function, header: BlockId, config: PassConfig) -> (result: Result<
    (Plan, Rewrite),
    Rejection,
>)
    requires
        f.wf(),
        header < f.blocks@.len(),
        is_loop_header(*f, header),
    ensures
        match result {
            Ok((plan, rewrite)) => analysis(*f, header, config) matches Ok((c, p)) && p == plan
                && is_rewrite(*f, c, plan, rewrite),
            Err(rejection) => analysis(*f, header, config) == Err::<
                (CandidateView, Plan),
                Rejection,
            >(rejection),
        },
{
    match analyze_candidate(f, header, config) {
        Err(rejection) => Err(rejection),
        Ok((candidate, plan)) => {
            assert(candidate@.shape.header == header);
            assert(is_accepted(*f, candidate@, plan));
            Ok((plan, transform(f, &candidate, plan)))
        },
    }
}

/// A decision about the loop at `header`, with what is to be done about it: a
/// loop that the analysis accepts is vectorized as planned, by a rewrite; any
/// other loop is rejected for the reason that the analysis gives, and is left
/// alone.
pub open spec fn is_visit(
    f: Function,
    header: BlockId,
    config: PassConfig,
    decision: Decision,
    rewrite: Option<Rewrite>,
) -> bool {
    match analysis(f, header, config) {
        Ok((c, plan)) => decision == Decision::Vectorized(plan) && rewrite is Some && is_rewrite(
            f,
            c,
            plan,
            rewrite->0,
        ),
        Err(rejection) => decision == Decision::Rejected(rejection) && rewrite is None,
    }
}

/// Decides about the loop at `header`. The function is changed if and only if
/// there is a rewrite.
pub fn visit_loop(f: &Function, header: BlockId, config: PassConfig) -> (result: (
    Decision,
    Option<Rewrite>,
))
    requires
        f.wf(),
        header < f.blocks@.len(),
        is_loop_header(*f, header),
    ensures
        is_visit(*f, header, config, result.0, result.1),
{
    match vectorize_loop(f, header, config) {
        Ok((plan, rewrite)) => (Decision::Vectorized(plan), Some(rewrite)),
        Err(rejection) => (Decision::Rejected(rejection), None),
    }
}

} // verus!
