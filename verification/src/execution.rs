//! What the instructions of a rewrite do when they run, and that a vector body
//! does what its scalar iterations do.

use crate::analysis::{analysis, CandidateView};
use crate::body::{contribution, is_skipped};
use crate::config::PassConfig;
use crate::cost::Plan;
use crate::ir::{BlockId, Flags, Function, IntPredicate, Opcode, ScalarType, ValueId};
use crate::lowering::{
    arity, is_accepted, is_lowerable, law_accepted_loops_are_lowerable, lemma_operands_keep_values,
    lemma_widened_values, lowered_address, lowered_body, lowered_instruction, vector_operation,
    with_operands, EmitterView, INDEX_PHI,
};
use crate::memory::{affine_index, loop_address};
use crate::operations::{computes, is_scalar};
use crate::recipe::{Label, Operand, Step};
use crate::recognize::is_loop_header;
use crate::rejection::Rejection;
use crate::semantics::{
    access_cell, inputs_of, lane_body, lane_instruction, law_affine_index_value,
    lemma_skipped_opcode, operation_of, pointer_of, stored_lanes, value_of, word, Lanes, Machine,
    Memory, Operation, OperationKind,
};
use crate::shape::lemma_induction_is_valid;
use crate::widening::produces_vector;
use vstd::prelude::*;

verus! {

/// What an added instruction yields.
pub ghost enum Outcome {
    Nothing,
    Flag(bool),
    /// A scalar.
    Word(int),
    /// A vector with its element type.
    Vector(ScalarType, Seq<int>),
    /// The address of an element of an object.
    Pointer(ValueId, ScalarType, int),
}

/// The added instructions in progress: memory, and what each has yielded.
pub ghost struct Execution {
    pub memory: Memory,
    pub outcomes: Seq<Outcome>,
}

/// What an operand stands for.
pub open spec fn operand_outcome(
    m: Machine,
    vf: nat,
    outcomes: Seq<Outcome>,
    operand: Operand,
) -> Outcome {
    match operand {
        Operand::Original(v) => Outcome::Word((m.invariant)(v)),
        Operand::Constant(value) => Outcome::Word(value as int),
        Operand::LaneNumbers => Outcome::Vector(
            ScalarType::Integer(64),
            Seq::new(vf, |l: int| l),
        ),
        Operand::Result(number) => outcomes[number as int],
    }
}

/// A 64-bit pattern as a signed number.
pub open spec fn as_signed(value: int) -> int {
    if value < word() / 2 {
        value
    } else {
        value - word()
    }
}

/// Whether a 64-bit comparison holds.
pub open spec fn holds(predicate: IntPredicate, left: int, right: int) -> bool {
    match predicate {
        IntPredicate::Eq => left == right,
        IntPredicate::Ne => left != right,
        IntPredicate::Ugt => left > right,
        IntPredicate::Uge => left >= right,
        IntPredicate::Ult => left < right,
        IntPredicate::Ule => left <= right,
        IntPredicate::Sgt => as_signed(left) > as_signed(right),
        IntPredicate::Sge => as_signed(left) >= as_signed(right),
        IntPredicate::Slt => as_signed(left) < as_signed(right),
        IntPredicate::Sle => as_signed(left) <= as_signed(right),
    }
}

/// A scalar operation on every lane of its operands.
pub open spec fn lane_wise(
    m: Machine,
    vf: nat,
    kind: OperationKind,
    flags: Flags,
    result_type: ScalarType,
    operands: Seq<Outcome>,
) -> Outcome {
    Outcome::Vector(
        result_type,
        Seq::new(
            vf,
            |l: int|
                (m.apply)(
                    Operation { kind, input: operands[0]->Vector_0, flags },
                    Seq::new(operands.len(), |j: int| operands[j]->Vector_1[l]),
                ),
        ),
    )
}

/// What an added instruction yields, in the vector iteration at `start`.
pub open spec fn step_outcome(
    m: Machine,
    vf: nat,
    start: int,
    e: Execution,
    step: Step,
) -> Outcome {
    let get = |operand: Operand| operand_outcome(m, vf, e.outcomes, operand);
    match step {
        Step::IndexPhi => Outcome::Word(start),
        Step::CompareIndex { predicate, left, right, .. } => Outcome::Flag(
            holds(predicate, get(left)->Word_0, get(right)->Word_0),
        ),
        Step::MaskIndex { left, right } => Outcome::Word(
            ((get(left)->Word_0 as u64) & (get(right)->Word_0 as u64)) as int,
        ),
        Step::AddIndex { left, right, .. } => Outcome::Word(
            (get(left)->Word_0 + get(right)->Word_0) % word(),
        ),
        Step::AddLanes { left, right } => Outcome::Vector(
            get(left)->Vector_0,
            Seq::new(
                vf,
                |l: int| (get(left)->Vector_1[l] + get(right)->Vector_1[l]) % word(),
            ),
        ),
        Step::Branch { .. } => Outcome::Nothing,
        Step::Splat { scalar, element_type } => Outcome::Vector(
            element_type,
            Seq::new(vf, |l: int| get(scalar)->Word_0),
        ),
        Step::Address { base, index, element_type, .. } => Outcome::Pointer(
            base,
            element_type,
            get(index)->Word_0,
        ),
        Step::Load { pointer, element_type, .. } => Outcome::Vector(
            element_type,
            Seq::new(vf, |l: int| e.memory[element_cell(m, get(pointer), l)]),
        ),
        Step::Store { .. } => Outcome::Nothing,
        Step::Negate { operand, flags } => lane_wise(
            m,
            vf,
            OperationKind::Negate,
            flags,
            get(operand)->Vector_0,
            seq![get(operand)],
        ),
        Step::CompareIntegers { predicate, left, right, flags } => lane_wise(
            m,
            vf,
            OperationKind::CompareIntegers(predicate),
            flags,
            ScalarType::Integer(1),
            seq![get(left), get(right)],
        ),
        Step::CompareFloats { float_predicate, left, right, flags } => lane_wise(
            m,
            vf,
            OperationKind::CompareFloats(float_predicate),
            flags,
            ScalarType::Integer(1),
            seq![get(left), get(right)],
        ),
        Step::Select { condition, if_true, if_false, flags } => lane_wise(
            m,
            vf,
            OperationKind::Select,
            flags,
            get(if_true)->Vector_0,
            seq![get(condition), get(if_true), get(if_false)],
        ),
        Step::Convert { opcode, operand, element_type, flags } => lane_wise(
            m,
            vf,
            OperationKind::Convert(opcode, element_type),
            flags,
            element_type,
            seq![get(operand)],
        ),
        Step::Binary { opcode, left, right, flags } => lane_wise(
            m,
            vf,
            OperationKind::Binary(opcode),
            flags,
            get(left)->Vector_0,
            seq![get(left), get(right)],
        ),
    }
}

/// The cell of the element that is `l` elements behind a pointer.
pub open spec fn element_cell(m: Machine, pointer: Outcome, l: int) -> int {
    (m.locate)(
        pointer->Pointer_0,
        pointer->Pointer_1,
        (pointer->Pointer_2 + l) % word(),
    )
}

/// Memory after an added instruction.
pub open spec fn step_memory(m: Machine, vf: nat, e: Execution, step: Step) -> Memory {
    match step {
        Step::Store { value, pointer, .. } => stored_lanes(
            e.memory,
            |l: int| element_cell(m, operand_outcome(m, vf, e.outcomes, pointer), l),
            |l: int| operand_outcome(m, vf, e.outcomes, value)->Vector_1[l],
            vf,
        ),
        _ => e.memory,
    }
}

/// The execution after one more instruction.
pub open spec fn run_step(m: Machine, vf: nat, start: int, e: Execution, step: Step) -> Execution {
    Execution {
        memory: step_memory(m, vf, e, step),
        outcomes: e.outcomes.push(step_outcome(m, vf, start, e, step)),
    }
}

/// The execution after a sequence of instructions.
pub open spec fn run_steps(
    m: Machine,
    vf: nat,
    start: int,
    e: Execution,
    steps: Seq<Step>,
) -> Execution
    decreases steps.len(),
{
    if steps.len() == 0 {
        e
    } else {
        run_step(m, vf, start, run_steps(m, vf, start, e, steps.drop_last()), steps.last())
    }
}

proof fn lemma_run_push(
    m: Machine,
    vf: nat,
    start: int,
    e: Execution,
    steps: Seq<Step>,
    step: Step,
)
    ensures
        run_steps(m, vf, start, e, steps.push(step)) == run_step(
            m,
            vf,
            start,
            run_steps(m, vf, start, e, steps),
            step,
        ),
{
    assert(steps.push(step).drop_last() =~= steps);
}

/// The values that `v` has in the lanes.
pub open spec fn lane_values(
    m: Machine,
    f: Function,
    header: BlockId,
    s: Lanes,
    v: ValueId,
) -> Seq<int> {
    Seq::new(s.lanes.len(), |l: int| value_of(m, f, header, s.lanes[l], v))
}

/// The address of the first lane of address computation `v`.
spec fn first_address(f: Function, c: CandidateView, start: int, v: ValueId) -> Outcome {
    let address = loop_address(f, v, c.shape.induction, c.shape.header)->Ok_0;
    Outcome::Pointer(address.base, address.element_type, (start + address.index.offset) % word())
}

/// The vector form of `v` that an instruction yields while the lanes are `s`.
spec fn vector_form(
    m: Machine,
    f: Function,
    c: CandidateView,
    start: int,
    s: Lanes,
    v: ValueId,
) -> Outcome {
    if f.is_op(v, Opcode::GetElementPtr) && f.in_block(v, c.shape.header) {
        first_address(f, c, start, v)
    } else {
        Outcome::Vector(f.ty(v), lane_values(m, f, c.shape.header, s, v))
    }
}

/// The execution of the instructions emitted so far agrees with the lanes.
spec fn agrees(
    m: Machine,
    f: Function,
    c: CandidateView,
    start: int,
    b: EmitterView,
    e: Execution,
    s: Lanes,
) -> bool {
    &&& e.memory == s.memory
    &&& e.outcomes.len() == INDEX_PHI + b.steps.len()
    &&& b.steps.len() >= 1
    &&& e.outcomes[INDEX_PHI as int] == Outcome::Word(start)
    &&& forall|v: ValueId| #[trigger]
        b.values.contains_key(v) ==> b.values[v] < e.outcomes.len() && f.in_block(
            v,
            c.shape.header,
        ) && e.outcomes[b.values[v] as int] == vector_form(m, f, c, start, s, v)
    &&& forall|u: ValueId| #[trigger]
        b.splats.contains_key(u) ==> b.splats[u] < e.outcomes.len() && !f.in_block(
            u,
            c.shape.header,
        ) && e.outcomes[b.splats[u] as int] == vector_form(m, f, c, start, s, u)
}

proof fn lemma_agrees_with_operand(
    m: Machine,
    f: Function,
    c: CandidateView,
    start: int,
    entry: Execution,
    b: EmitterView,
    s: Lanes,
    u: ValueId,
)
    requires
        agrees(m, f, c, start, b, run_steps(m, s.lanes.len(), start, entry, b.steps), s),
        b.steps.len() < 1000,
        b.values.contains_key(u) || !f.in_block(u, c.shape.header),
    ensures
        ({
            let after = b.with_operand(f, u);
            let e = run_steps(m, s.lanes.len(), start, entry, after.steps);
            &&& agrees(m, f, c, start, after, e, s)
            &&& operand_outcome(m, s.lanes.len(), e.outcomes, after.operand(u)) == vector_form(
                m,
                f,
                c,
                start,
                s,
                u,
            )
            &&& after.values.contains_key(u) || after.splats.contains_key(u)
        }),
{
    let after = b.with_operand(f, u);
    if !b.values.contains_key(u) && !b.splats.contains_key(u) {
        let vf = s.lanes.len();
        let step = Step::Splat { scalar: Operand::Original(u), element_type: f.ty(u) };
        let e = run_steps(m, vf, start, entry, b.steps);
        lemma_run_push(m, vf, start, entry, b.steps, step);
        assert(Seq::new(vf, |l: int| (m.invariant)(u)) =~= lane_values(
            m,
            f,
            c.shape.header,
            s,
            u,
        ));
        assert(step_outcome(m, vf, start, e, step)->Vector_1 =~= lane_values(
            m,
            f,
            c.shape.header,
            s,
            u,
        ));
    }
}

proof fn lemma_agrees_with_operands(
    m: Machine,
    f: Function,
    c: CandidateView,
    start: int,
    entry: Execution,
    b: EmitterView,
    s: Lanes,
    v: ValueId,
    count: nat,
)
    requires
        agrees(m, f, c, start, b, run_steps(m, s.lanes.len(), start, entry, b.steps), s),
        b.steps.len() + count < 1000,
        forall|j: int|
            0 <= j < count ==> b.values.contains_key(#[trigger] f.operand(v, j)) || !f.in_block(
                f.operand(v, j),
                c.shape.header,
            ),
    ensures
        ({
            let after = with_operands(b, f, v, count);
            let e = run_steps(m, s.lanes.len(), start, entry, after.steps);
            &&& agrees(m, f, c, start, after, e, s)
            &&& forall|j: int|
                0 <= j < count ==> operand_outcome(
                    m,
                    s.lanes.len(),
                    e.outcomes,
                    after.operand(#[trigger] f.operand(v, j)),
                ) == vector_form(m, f, c, start, s, f.operand(v, j))
            &&& forall|j: int|
                0 <= j < count ==> after.values.contains_key(#[trigger] f.operand(v, j))
                    || after.splats.contains_key(f.operand(v, j))
        }),
    decreases count,
{
    if count > 0 {
        lemma_agrees_with_operands(m, f, c, start, entry, b, s, v, (count - 1) as nat);
        lemma_operands_keep_values(b, f, v, (count - 1) as nat);
        let before = with_operands(b, f, v, (count - 1) as nat);
        let last = f.operand(v, count - 1);
        lemma_agrees_with_operand(m, f, c, start, entry, before, s, last);
        let after = with_operands(b, f, v, count);
        assert forall|j: int| 0 <= j < count implies after.values.contains_key(
            #[trigger] f.operand(v, j),
        ) || after.splats.contains_key(f.operand(v, j)) by {
            if j < count - 1 {
                let earlier = f.operand(v, j);
                assert(before.values.contains_key(earlier) || before.splats.contains_key(earlier));
            }
        }
    }
}

/// The operands of a supported operation are scalars, none of them an address.
proof fn lemma_operands_are_scalars(f: Function, c: CandidateView, v: ValueId)
    requires
        f.wf(),
        f.has_value(v),
        f.is_instruction(v),
        computes(f.inst(v).opcode),
        contribution(f, c.shape, v) is Ok,
    ensures
        arity(f.inst(v).opcode) <= f.inst(v).operands@.len(),
        forall|j: int|
            0 <= j < arity(f.inst(v).opcode) ==> is_scalar(f.ty(#[trigger] f.operand(v, j)))
                && !f.is_op(f.operand(v, j), Opcode::GetElementPtr),
        is_scalar(f.ty(v)),
{
    assert(f.value_is_valid(v));
    assert forall|j: int| 0 <= j < arity(f.inst(v).opcode) implies is_scalar(
        f.ty(#[trigger] f.operand(v, j)),
    ) && !f.is_op(f.operand(v, j), Opcode::GetElementPtr) by {
        assert(f.has_value(f.inst(v).operands@[j]));
        assert(f.value_is_valid(f.operand(v, j)));
    }
}

/// A vector operation computes in every lane what the scalar operation does.
proof fn lemma_operation_is_lane_wise(
    m: Machine,
    f: Function,
    c: CandidateView,
    start: int,
    b: EmitterView,
    e: Execution,
    s: Lanes,
    v: ValueId,
)
    requires
        f.wf(),
        f.has_value(v),
        f.is_instruction(v),
        computes(f.inst(v).opcode),
        contribution(f, c.shape, v) is Ok,
        forall|j: int|
            0 <= j < arity(f.inst(v).opcode) ==> operand_outcome(
                m,
                s.lanes.len(),
                e.outcomes,
                b.operand(#[trigger] f.operand(v, j)),
            ) == vector_form(m, f, c, start, s, f.operand(v, j)),
    ensures
        step_memory(m, s.lanes.len(), e, vector_operation(b, f, v)) == e.memory,
        step_outcome(m, s.lanes.len(), start, e, vector_operation(b, f, v)) == Outcome::Vector(
            f.ty(v),
            Seq::new(
                s.lanes.len(),
                |l: int|
                    (m.apply)(
                        operation_of(f, v),
                        inputs_of(m, f, c.shape.header, s.lanes[l], v),
                    ),
            ),
        ),
{
    let vf = s.lanes.len();
    let opcode = f.inst(v).opcode;
    let n = arity(opcode);
    let wanted = Seq::new(
        vf,
        |l: int|
            (m.apply)(operation_of(f, v), inputs_of(m, f, c.shape.header, s.lanes[l], v)),
    );
    lemma_operands_are_scalars(f, c, v);
    assert(f.value_is_valid(v));
    let get = |j: int| operand_outcome(m, vf, e.outcomes, b.operand(f.operand(v, j)));
    assert forall|j: int| 0 <= j < n implies #[trigger] get(j) == Outcome::Vector(
        f.ty(f.operand(v, j)),
        lane_values(m, f, c.shape.header, s, f.operand(v, j)),
    ) by {
        let operand = f.operand(v, j);
    }
    let operands = if n == 1 {
        seq![get(0)]
    } else if n == 2 {
        seq![get(0), get(1)]
    } else {
        seq![get(0), get(1), get(2)]
    };
    let outcome = step_outcome(m, vf, start, e, vector_operation(b, f, v));
    assert(get(0) is Vector);
    assert forall|l: int| 0 <= l < vf implies #[trigger] outcome->Vector_1[l] == wanted[l] by {
        let inputs = Seq::new(operands.len(), |j: int| operands[j]->Vector_1[l]);
        assert(inputs =~= inputs_of(m, f, c.shape.header, s.lanes[l], v)) by {
            assert forall|j: int| 0 <= j < n implies inputs[j] == inputs_of(
                m,
                f,
                c.shape.header,
                s.lanes[l],
                v,
            )[j] by {
                let value = get(j);
            }
        }
    }
    assert(n > 1 ==> get(1) is Vector);
    assert(outcome->Vector_1 =~= wanted);
}

/// The lanes `after` differ from `before` in nothing but `v`.
spec fn only_changes(before: Lanes, after: Lanes, v: ValueId) -> bool {
    &&& after.lanes.len() == before.lanes.len()
    &&& forall|l: int, u: ValueId|
        0 <= l < before.lanes.len() && u != v ==> #[trigger] after.lanes[l][u]
            == before.lanes[l][u]
}

proof fn lemma_agrees_with_value(
    m: Machine,
    f: Function,
    c: CandidateView,
    start: int,
    entry: Execution,
    b: EmitterView,
    before: Lanes,
    after: Lanes,
    v: ValueId,
    step: Step,
)
    requires
        ({
            let vf = before.lanes.len();
            let e = run_steps(m, vf, start, entry, b.steps);
            &&& agrees(m, f, c, start, b, e, before)
            &&& only_changes(before, after, v)
            &&& step_memory(m, vf, e, step) == after.memory
            &&& step_outcome(m, vf, start, e, step) == vector_form(m, f, c, start, after, v)
        }),
        b.steps.len() < 1000,
        f.in_block(v, c.shape.header),
    ensures
        agrees(
            m,
            f,
            c,
            start,
            b.with_value(v, step),
            run_steps(m, before.lanes.len(), start, entry, b.with_value(v, step).steps),
            after,
        ),
{
    lemma_run_push(m, before.lanes.len(), start, entry, b.steps, step);
    assert forall|u: ValueId| u != v implies #[trigger] vector_form(m, f, c, start, after, u)
        == vector_form(m, f, c, start, before, u) by {
        assert(lane_values(m, f, c.shape.header, after, u) =~= lane_values(
            m,
            f,
            c.shape.header,
            before,
            u,
        ));
    }
}

/// Adding the pattern of a signed offset is adding the offset.
proof fn lemma_offset_pattern(start: int, offset: i64)
    ensures
        (start + (offset as u64) as int) % word() == (start + offset) % word(),
{
    assert(offset >= 0 ==> offset as u64 == offset) by (bit_vector);
    assert(offset < 0 ==> offset as u64 == offset + 0x1_0000_0000_0000_0000) by (bit_vector);
}

proof fn lemma_address_agrees(
    m: Machine,
    f: Function,
    c: CandidateView,
    start: int,
    entry: Execution,
    b: EmitterView,
    s: Lanes,
    v: ValueId,
)
    requires
        agrees(m, f, c, start, b, run_steps(m, s.lanes.len(), start, entry, b.steps), s),
        b.steps.len() + 1 < 1000,
        f.in_block(v, c.shape.header),
        f.is_op(v, Opcode::GetElementPtr),
        loop_address(f, v, c.shape.induction, c.shape.header) is Ok,
        0 <= start < word(),
    ensures
        ({
            let after = lowered_address(
                b,
                f,
                v,
                loop_address(f, v, c.shape.induction, c.shape.header)->Ok_0,
            );
            agrees(
                m,
                f,
                c,
                start,
                after,
                run_steps(m, s.lanes.len(), start, entry, after.steps),
                s,
            )
        }),
{
    let vf = s.lanes.len();
    let address = loop_address(f, v, c.shape.induction, c.shape.header)->Ok_0;
    if address.index.offset == 0 {
        let step = Step::Address {
            base: address.base,
            index: Operand::Result(INDEX_PHI),
            element_type: address.element_type,
            inbounds: f.inst(v).inbounds,
        };
        lemma_agrees_with_value(m, f, c, start, entry, b, s, s, v, step);
    } else {
        let sum = Step::AddIndex {
            left: Operand::Result(INDEX_PHI),
            right: Operand::Constant(address.index.offset as u64),
            label: Label::AddressIndex,
        };
        let step = Step::Address {
            base: address.base,
            index: Operand::Result(b.next()),
            element_type: address.element_type,
            inbounds: f.inst(v).inbounds,
        };
        lemma_run_push(m, vf, start, entry, b.steps, sum);
        lemma_offset_pattern(start, address.index.offset);
        let middle = b.with_step(sum);
        lemma_agrees_with_value(m, f, c, start, entry, middle, s, s, v, step);
    }
}

/// The elements behind the address of the first lane are those that the lanes
/// access.
proof fn lemma_elements_are_accessed(
    m: Machine,
    f: Function,
    c: CandidateView,
    start: int,
    v: ValueId,
    pointer: ValueId,
    l: int,
)
    requires
        f.is_op(c.shape.induction, Opcode::Phi),
        pointer == pointer_of(f, v),
        loop_address(f, pointer, c.shape.induction, c.shape.header) is Ok,
        0 <= start,
        0 <= l,
        start + l < word(),
    ensures
        element_cell(m, first_address(f, c, start, pointer), l) == access_cell(
            m,
            f,
            c.shape.induction,
            v,
            start + l,
        ),
{
    law_affine_index_value(f, f.operand(pointer, 1), c.shape.induction, start + l);
    let offset = affine_index(f, f.operand(pointer, 1), c.shape.induction)->Ok_0.offset as int;
    assert(((start + offset) % word() + l) % word() == (start + l + offset) % word());
}

proof fn lemma_load_agrees(
    m: Machine,
    f: Function,
    c: CandidateView,
    start: int,
    entry: Execution,
    b: EmitterView,
    s: Lanes,
    v: ValueId,
)
    requires
        agrees(m, f, c, start, b, run_steps(m, s.lanes.len(), start, entry, b.steps), s),
        b.steps.len() < 1000,
        f.is_op(c.shape.induction, Opcode::Phi),
        f.in_block(v, c.shape.header),
        f.is_op(v, Opcode::Load),
        !is_skipped(c.shape, c.address_only, v),
        contribution(f, c.shape, v) is Ok,
        b.values.contains_key(f.operand(v, 0)),
        0 <= start,
        start + s.lanes.len() <= word(),
    ensures
        ({
            let after = lowered_instruction(b, f, c.shape, v);
            agrees(
                m,
                f,
                c,
                start,
                after,
                run_steps(m, s.lanes.len(), start, entry, after.steps),
                lane_instruction(m, f, c, start, s, v),
            )
        }),
{
    let vf = s.lanes.len();
    let pointer = f.operand(v, 0);
    let after = lane_instruction(m, f, c, start, s, v);
    let e = run_steps(m, vf, start, entry, b.steps);
    let step = Step::Load {
        pointer: Operand::Result(b.values[pointer]),
        element_type: f.ty(v),
        alignment: f.inst(v).alignment,
    };
    assert(e.outcomes[b.values[pointer] as int] == first_address(f, c, start, pointer));
    assert forall|l: int| 0 <= l < vf implies element_cell(
        m,
        e.outcomes[b.values[pointer] as int],
        l,
    ) == #[trigger] access_cell(m, f, c.shape.induction, v, start + l) by {
        lemma_elements_are_accessed(m, f, c, start, v, pointer, l);
    }
    assert(step_outcome(m, vf, start, e, step)->Vector_1 =~= lane_values(
        m,
        f,
        c.shape.header,
        after,
        v,
    )) by {
        assert forall|l: int| 0 <= l < vf implies step_outcome(
            m,
            vf,
            start,
            e,
            step,
        )->Vector_1[l] == lane_values(m, f, c.shape.header, after, v)[l] by {
            let cell = access_cell(m, f, c.shape.induction, v, start + l);
        }
    }
    lemma_agrees_with_value(m, f, c, start, entry, b, s, after, v, step);
}

proof fn lemma_same_stores(
    memory: Memory,
    a: spec_fn(int) -> int,
    b: spec_fn(int) -> int,
    x: spec_fn(int) -> int,
    y: spec_fn(int) -> int,
    count: nat,
)
    requires
        forall|l: int| 0 <= l < count ==> #[trigger] a(l) == b(l),
        forall|l: int| 0 <= l < count ==> #[trigger] x(l) == y(l),
    ensures
        stored_lanes(memory, a, x, count) == stored_lanes(memory, b, y, count),
    decreases count,
{
    if count > 0 {
        lemma_same_stores(memory, a, b, x, y, (count - 1) as nat);
        assert(a(count - 1) == b(count - 1));
        assert(x(count - 1) == y(count - 1));
    }
}

proof fn lemma_store_agrees(
    m: Machine,
    f: Function,
    c: CandidateView,
    start: int,
    entry: Execution,
    b: EmitterView,
    s: Lanes,
    v: ValueId,
)
    requires
        f.wf(),
        f.has_value(v),
        agrees(m, f, c, start, b, run_steps(m, s.lanes.len(), start, entry, b.steps), s),
        b.steps.len() + 1 < 1000,
        f.is_op(c.shape.induction, Opcode::Phi),
        f.in_block(v, c.shape.header),
        f.is_op(v, Opcode::Store),
        !is_skipped(c.shape, c.address_only, v),
        contribution(f, c.shape, v) is Ok,
        b.values.contains_key(f.operand(v, 1)),
        b.values.contains_key(f.operand(v, 0)) || !f.in_block(f.operand(v, 0), c.shape.header),
        0 <= start,
        start + s.lanes.len() <= word(),
    ensures
        ({
            let after = lowered_instruction(b, f, c.shape, v);
            agrees(
                m,
                f,
                c,
                start,
                after,
                run_steps(m, s.lanes.len(), start, entry, after.steps),
                lane_instruction(m, f, c, start, s, v),
            )
        }),
{
    let vf = s.lanes.len();
    let value = f.operand(v, 0);
    let pointer = f.operand(v, 1);
    let after = lane_instruction(m, f, c, start, s, v);
    assert(f.value_is_valid(v));
    assert(f.has_value(f.inst(v).operands@[0]));
    assert(f.value_is_valid(value));
    lemma_agrees_with_operand(m, f, c, start, entry, b, s, value);
    let ready = b.with_operand(f, value);
    let e = run_steps(m, vf, start, entry, ready.steps);
    let step = Step::Store {
        value: ready.operand(value),
        pointer: Operand::Result(b.values[pointer]),
        alignment: f.inst(v).alignment,
    };
    assert(ready.values == b.values);
    assert(e.outcomes[b.values[pointer] as int] == first_address(f, c, start, pointer)) by {
        assert(ready.values.contains_key(pointer));
    }
    let address = operand_outcome(m, vf, e.outcomes, Operand::Result(b.values[pointer]));
    let cells = |l: int| element_cell(m, address, l);
    let values = |l: int| operand_outcome(m, vf, e.outcomes, ready.operand(value))->Vector_1[l];
    let wanted_cells = |l: int| access_cell(m, f, c.shape.induction, v, start + l);
    let wanted_values = |l: int| value_of(m, f, c.shape.header, s.lanes[l], value);
    assert forall|l: int| 0 <= l < vf implies #[trigger] cells(l) == wanted_cells(l) by {
        lemma_elements_are_accessed(m, f, c, start, v, pointer, l);
    }
    assert forall|l: int| 0 <= l < vf implies #[trigger] values(l) == wanted_values(l) by {}
    lemma_same_stores(s.memory, cells, wanted_cells, values, wanted_values, vf);
    lemma_run_push(m, vf, start, entry, ready.steps, step);
    assert forall|u: ValueId| #[trigger] vector_form(m, f, c, start, after, u) == vector_form(
        m,
        f,
        c,
        start,
        s,
        u,
    ) by {
        assert(lane_values(m, f, c.shape.header, after, u) =~= lane_values(
            m,
            f,
            c.shape.header,
            s,
            u,
        ));
    }
}

proof fn lemma_operation_agrees(
    m: Machine,
    f: Function,
    c: CandidateView,
    start: int,
    entry: Execution,
    b: EmitterView,
    s: Lanes,
    v: ValueId,
)
    requires
        f.wf(),
        f.has_value(v),
        agrees(m, f, c, start, b, run_steps(m, s.lanes.len(), start, entry, b.steps), s),
        b.steps.len() + 3 < 1000,
        f.in_block(v, c.shape.header),
        computes(f.inst(v).opcode),
        !is_skipped(c.shape, c.address_only, v),
        contribution(f, c.shape, v) is Ok,
        forall|j: int|
            0 <= j < f.inst(v).operands@.len() ==> b.values.contains_key(
                #[trigger] f.operand(v, j),
            ) || !f.in_block(f.operand(v, j), c.shape.header),
    ensures
        ({
            let after = lowered_instruction(b, f, c.shape, v);
            agrees(
                m,
                f,
                c,
                start,
                after,
                run_steps(m, s.lanes.len(), start, entry, after.steps),
                lane_instruction(m, f, c, start, s, v),
            )
        }),
{
    let vf = s.lanes.len();
    let n = arity(f.inst(v).opcode);
    let after = lane_instruction(m, f, c, start, s, v);
    lemma_operands_are_scalars(f, c, v);
    lemma_agrees_with_operands(m, f, c, start, entry, b, s, v, n);
    lemma_operands_keep_values(b, f, v, n);
    let ready = with_operands(b, f, v, n);
    let e = run_steps(m, vf, start, entry, ready.steps);
    lemma_operation_is_lane_wise(m, f, c, start, ready, e, s, v);
    let step = vector_operation(ready, f, v);
    assert(step_outcome(m, vf, start, e, step)->Vector_1 =~= lane_values(
        m,
        f,
        c.shape.header,
        after,
        v,
    ));
    lemma_agrees_with_value(m, f, c, start, entry, ready, s, after, v, step);
}

/// The beginning of the vector body yields the index of every lane.
proof fn lemma_prologue_agrees(
    m: Machine,
    f: Function,
    c: CandidateView,
    start: int,
    entry: Execution,
    vf: nat,
)
    requires
        entry.outcomes.len() == INDEX_PHI,
        f.in_block(c.shape.induction, c.shape.header),
        f.is_op(c.shape.induction, Opcode::Phi),
        f.ty(c.shape.induction) == ScalarType::Integer(64),
        0 <= start,
        start + vf <= word(),
    ensures
        agrees(
            m,
            f,
            c,
            start,
            lowered_body(f, c, 0),
            run_steps(m, vf, start, entry, lowered_body(f, c, 0).steps),
            lane_body(m, f, c, start, vf, entry.memory, 0),
        ),
{
    let s = lane_body(m, f, c, start, vf, entry.memory, 0);
    let none = Seq::<Step>::empty();
    assert(seq![Step::IndexPhi] =~= none.push(Step::IndexPhi));
    lemma_run_push(m, vf, start, entry, none, Step::IndexPhi);
    assert(run_steps(m, vf, start, entry, none) == entry);
    let b = EmitterView {
        steps: seq![Step::IndexPhi],
        values: Map::empty(),
        splats: Map::empty(),
    };
    if c.widen_induction {
        let splat = Step::Splat {
            scalar: Operand::Result(INDEX_PHI),
            element_type: ScalarType::Integer(64),
        };
        let sum = Step::AddLanes {
            left: Operand::Result(b.next()),
            right: Operand::LaneNumbers,
        };
        lemma_run_push(m, vf, start, entry, b.steps, splat);
        let middle = b.with_step(splat);
        let e = run_steps(m, vf, start, entry, middle.steps);
        assert(agrees(m, f, c, start, middle, e, s));
        assert(step_outcome(m, vf, start, e, sum)->Vector_1 =~= lane_values(
            m,
            f,
            c.shape.header,
            s,
            c.shape.induction,
        ));
        lemma_agrees_with_value(m, f, c, start, entry, middle, s, s, c.shape.induction, sum);
    }
}

/// After every instruction of the body, the instructions emitted so far have
/// computed what the lanes have.
proof fn lemma_body_agrees(
    m: Machine,
    f: Function,
    c: CandidateView,
    start: int,
    entry: Execution,
    vf: nat,
    count: nat,
)
    requires
        f.wf(),
        c.shape.header < f.blocks@.len(),
        entry.outcomes.len() == INDEX_PHI,
        f.in_block(c.shape.induction, c.shape.header),
        f.is_op(c.shape.induction, Opcode::Phi),
        f.ty(c.shape.induction) == ScalarType::Integer(64),
        f.body(c.shape.header).len() <= 96,
        forall|k: int|
            0 <= k < f.body(c.shape.header).len() ==> #[trigger] is_lowerable(f, c, k),
        forall|v: ValueId| #[trigger]
            is_skipped(c.shape, c.address_only, v) ==> f.inst(v).opcode != Opcode::Load && f.inst(
                v,
            ).opcode != Opcode::Store,
        0 <= start,
        start + vf <= word(),
        vf > 0,
        count <= f.body(c.shape.header).len(),
    ensures
        agrees(
            m,
            f,
            c,
            start,
            lowered_body(f, c, count),
            run_steps(m, vf, start, entry, lowered_body(f, c, count).steps),
            lane_body(m, f, c, start, vf, entry.memory, count),
        ),
        lane_body(m, f, c, start, vf, entry.memory, count).lanes.len() == vf,
    decreases count,
{
    if count == 0 {
        lemma_prologue_agrees(m, f, c, start, entry, vf);
    } else {
        let k = count - 1;
        let header = c.shape.header;
        let v = f.body(header)[k];
        let b = lowered_body(f, c, k as nat);
        let s = lane_body(m, f, c, start, vf, entry.memory, k as nat);
        lemma_body_agrees(m, f, c, start, entry, vf, k as nat);
        assert(f.block_is_valid(header));
        assert(f.has_value(f.blocks@[header as int].instructions@[k]));
        assert(f.in_block(f.blocks@[header as int].instructions@[k], header));
        assert(f.value_is_valid(v));
        lemma_widened_values(f, c, k as nat);
        assert(is_lowerable(f, c, k));
        if !is_skipped(c.shape, c.address_only, v) {
            let opcode = f.inst(v).opcode;
            if opcode == Opcode::GetElementPtr {
                lemma_address_agrees(m, f, c, start, entry, b, s, v);
            } else if opcode == Opcode::Load {
                assert(b.values.contains_key(f.operand(v, 0)));
                lemma_load_agrees(m, f, c, start, entry, b, s, v);
            } else if opcode == Opcode::Store {
                assert(b.values.contains_key(f.operand(v, 1)));
                assert(b.values.contains_key(f.operand(v, 0)) || !f.in_block(
                    f.operand(v, 0),
                    header,
                ));
                lemma_store_agrees(m, f, c, start, entry, b, s, v);
            } else {
                assert forall|j: int|
                    0 <= j < f.inst(v).operands@.len() implies b.values.contains_key(
                    #[trigger] f.operand(v, j),
                ) || !f.in_block(f.operand(v, j), header) by {
                    let operand = f.inst(v).operands@[j];
                    let available = b.values.contains_key(operand);
                }
                lemma_operation_agrees(m, f, c, start, entry, b, s, v);
            }
        } else {
            let after = lane_instruction(m, f, c, start, s, v);
            assert(after.memory == s.memory);
            assert forall|u: ValueId| b.values.contains_key(u) || b.splats.contains_key(u) implies
            #[trigger] vector_form(m, f, c, start, after, u) == vector_form(m, f, c, start, s, u) by {
                if u == v {
                    assert(b.values.contains_key(v));
                    if v != c.shape.induction {
                        let j = choose|j: int|
                            0 <= j < k && f.body(header)[j] == v && #[trigger] produces_vector(
                                f,
                                c.shape,
                                c.address_only,
                                j,
                            );
                        assert(f.blocks@[header as int].instructions@[j]
                            != f.blocks@[header as int].instructions@[k]);
                    }
                }
                assert(lane_values(m, f, header, after, u) =~= lane_values(m, f, header, s, u));
            }
        }
    }
}

/// The emitted vector body leaves the memory that the lanes leave when all of
/// them run each instruction before the next.
pub proof fn law_vector_body_runs_lanes(
    m: Machine,
    f: Function,
    c: CandidateView,
    plan: Plan,
    start: int,
    entry: Execution,
)
    requires
        f.wf(),
        c.shape.header < f.blocks@.len(),
        is_loop_header(f, c.shape.header),
        is_accepted(f, c, plan),
        entry.outcomes.len() == INDEX_PHI,
        0 <= start,
        start + plan.vf <= word(),
    ensures
        ({
            let n = f.body(c.shape.header).len();
            let e = run_steps(m, plan.vf as nat, start, entry, lowered_body(f, c, n).steps);
            &&& e.memory == lane_body(
                m,
                f,
                c,
                start,
                plan.vf as nat,
                entry.memory,
                n,
            ).memory
            &&& e.outcomes.len() == INDEX_PHI + lowered_body(f, c, n).steps.len()
            &&& e.outcomes[INDEX_PHI as int] == Outcome::Word(start)
        }),
{
    let header = c.shape.header;
    let n = f.body(header).len();
    let config = choose|config: PassConfig| #[trigger]
        analysis(f, header, config) == Ok::<(CandidateView, Plan), Rejection>((c, plan));
    lemma_induction_is_valid(f, header);
    assert forall|k: int| 0 <= k < n implies #[trigger] is_lowerable(f, c, k) by {
        law_accepted_loops_are_lowerable(f, header, config, k);
    }
    assert forall|v: ValueId| #[trigger] is_skipped(c.shape, c.address_only, v) implies f.inst(
        v,
    ).opcode != Opcode::Load && f.inst(v).opcode != Opcode::Store by {
        lemma_skipped_opcode(f, c, plan, v);
    }
    lemma_body_agrees(m, f, c, start, entry, plan.vf as nat, n);
}

/// Every splat among some instructions repeats a scalar.
pub open spec fn splats_are_scalar(steps: Seq<Step>) -> bool {
    forall|k: int|
        0 <= k < steps.len() ==> ((#[trigger] steps[k]) matches Step::Splat {
            element_type,
            ..
        } ==> is_scalar(element_type))
}

proof fn lemma_splats_with_operands(b: EmitterView, f: Function, v: ValueId, count: nat)
    requires
        splats_are_scalar(b.steps),
        forall|j: int| 0 <= j < count ==> is_scalar(f.ty(#[trigger] f.operand(v, j))),
    ensures
        splats_are_scalar(with_operands(b, f, v, count).steps),
    decreases count,
{
    if count > 0 {
        lemma_splats_with_operands(b, f, v, (count - 1) as nat);
        assert(is_scalar(f.ty(f.operand(v, count - 1))));
    }
}

proof fn lemma_splats_of_body(f: Function, c: CandidateView, count: nat)
    requires
        f.wf(),
        c.shape.header < f.blocks@.len(),
        count <= f.body(c.shape.header).len(),
        forall|k: int|
            0 <= k < f.body(c.shape.header).len() ==> #[trigger] is_lowerable(f, c, k),
    ensures
        splats_are_scalar(lowered_body(f, c, count).steps),
    decreases count,
{
    if count > 0 {
        let k = count - 1;
        let header = c.shape.header;
        let v = f.body(header)[k];
        let b = lowered_body(f, c, k as nat);
        lemma_splats_of_body(f, c, k as nat);
        assert(f.block_is_valid(header));
        assert(f.has_value(f.blocks@[header as int].instructions@[k]));
        assert(f.in_block(f.blocks@[header as int].instructions@[k], header));
        assert(is_lowerable(f, c, k));
        if !is_skipped(c.shape, c.address_only, v) && computes(f.inst(v).opcode) {
            lemma_operands_are_scalars(f, c, v);
            lemma_splats_with_operands(b, f, v, arity(f.inst(v).opcode));
        }
    }
}

/// Whatever an accepted loop repeats in all lanes is a scalar that vectors can
/// have as an element.
pub proof fn law_splats_are_scalar(f: Function, header: BlockId, config: PassConfig)
    requires
        f.wf(),
        header < f.blocks@.len(),
        is_loop_header(f, header),
        analysis(f, header, config) is Ok,
    ensures
        analysis(f, header, config) matches Ok((c, plan)) && splats_are_scalar(
            lowered_body(f, c, f.body(header).len()).steps,
        ),
{
    let (c, plan) = analysis(f, header, config)->Ok_0;
    assert(c.shape.header == header);
    assert forall|k: int| 0 <= k < f.body(header).len() implies #[trigger] is_lowerable(
        f,
        c,
        k,
    ) by {
        law_accepted_loops_are_lowerable(f, header, config, k);
    }
    lemma_splats_of_body(f, c, f.body(header).len());
}

} // verus!
