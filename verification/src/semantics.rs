//! What a candidate loop does when it runs, iteration by iteration and lane by
//! lane.

use crate::analysis::{analysis, CandidateView};
use crate::body::{index_helpers, is_index_helper, is_skipped, totals};
use crate::config::PassConfig;
use crate::cost::Plan;
use crate::ir::{
    BlockId, Flags, Function, Instruction, IntPredicate, Opcode, Parameter, ScalarType, ValueId,
};
use crate::lowering::is_accepted;
use crate::memory::{
    affine_index, dependences, law_accepted_pairs_share_no_iteration, memory_access,
    statically_disjoint,
};
use crate::recognize::is_loop_header;
use crate::rejection::Rejection;
use crate::shape::lemma_induction_is_valid;
use vstd::prelude::*;

verus! {

/// The number of values that an index can take.
pub open spec fn word() -> int {
    0x1_0000_0000_0000_0000
}

/// What a scalar operation computes, apart from its inputs.
pub ghost enum OperationKind {
    Negate,
    CompareIntegers(IntPredicate),
    CompareFloats(u32),
    Select,
    Convert(Opcode, ScalarType),
    Binary(Opcode),
}

/// A scalar operation on inputs of a given type, with its semantic flags.
pub ghost struct Operation {
    pub kind: OperationKind,
    pub input: ScalarType,
    pub flags: Flags,
}

/// The machine that runs a loop: what is outside of the loop, what scalar
/// operations compute, and where objects lie. Values stand for bit patterns.
pub ghost struct Machine {
    /// The value of something that does not change during the loop.
    pub invariant: spec_fn(ValueId) -> int,
    /// The result of a scalar operation.
    pub apply: spec_fn(Operation, Seq<int>) -> int,
    /// The cell of element `index` of an object.
    pub locate: spec_fn(ValueId, ScalarType, int) -> int,
}

/// The function marks argument `v` as `noalias`.
pub open spec fn is_marked_noalias(f: Function, v: ValueId) -> bool {
    f.values@[v as int].kind is Argument && f.parameters@.contains(
        Parameter { value: v, noalias: true },
    )
}

/// What a program promises about two objects: distinct global variables do not
/// overlap, and neither do distinct arguments that are both marked `noalias`. An
/// argument without that mark can point anywhere, into a global variable or into
/// what another argument points to.
pub open spec fn are_promised_apart(f: Function, a: ValueId, b: ValueId) -> bool {
    a != b && {
        ||| f.values@[a as int].kind is GlobalVariable && f.values@[b as int].kind
            is GlobalVariable
        ||| is_marked_noalias(f, a) && is_marked_noalias(f, b)
    }
}

/// Objects lie as the program promises: the elements of one object are distinct,
/// and objects that are promised apart share nothing. Any others may overlap.
pub open spec fn objects_are_laid_out(m: Machine, f: Function) -> bool {
    &&& forall|base: ValueId, ty: ScalarType, i: int, j: int|
        0 <= i < word() && 0 <= j < word() && i != j ==> #[trigger] (m.locate)(base, ty, i)
            != #[trigger] (m.locate)(base, ty, j)
    &&& forall|a: ValueId, b: ValueId, s: ScalarType, t: ScalarType, i: int, j: int|
        are_promised_apart(f, a, b) ==> #[trigger] (m.locate)(a, s, i) != #[trigger] (m.locate)(
            b,
            t,
            j,
        )
}

/// Memory contents.
pub type Memory = Map<int, int>;

/// The value of an index leaf in iteration `i`.
pub open spec fn index_leaf(f: Function, v: ValueId, induction: ValueId, i: int) -> int {
    if v == induction {
        i
    } else {
        f.signed_constant(v)->0 as int
    }
}

/// The value that index expression `v` has in iteration `i`, in 64-bit
/// arithmetic.
pub open spec fn index_value(f: Function, v: ValueId, induction: ValueId, i: int) -> int {
    if v == induction {
        i
    } else if f.is_op(v, Opcode::Sub) {
        (index_leaf(f, f.operand(v, 0), induction, i) - index_leaf(
            f,
            f.operand(v, 1),
            induction,
            i,
        )) % word()
    } else {
        (index_leaf(f, f.operand(v, 0), induction, i) + index_leaf(
            f,
            f.operand(v, 1),
            induction,
            i,
        )) % word()
    }
}

/// An index that is recognized as affine is the iteration plus its offset.
pub proof fn law_affine_index_value(f: Function, v: ValueId, induction: ValueId, i: int)
    requires
        f.is_op(induction, Opcode::Phi),
        affine_index(f, v, induction) is Ok,
        0 <= i < word(),
    ensures
        index_value(f, v, induction, i) == (i + affine_index(f, v, induction)->Ok_0.offset)
            % word(),
{
}

/// The cell that address computation `v` names in iteration `i`.
pub open spec fn address_cell(
    m: Machine,
    f: Function,
    induction: ValueId,
    v: ValueId,
    i: int,
) -> int {
    (m.locate)(
        f.operand(v, 0),
        f.inst(v).element_type,
        index_value(f, f.operand(v, 1), induction, i),
    )
}

/// The pointer of load or store `v`.
pub open spec fn pointer_of(f: Function, v: ValueId) -> ValueId {
    if f.inst(v).opcode == Opcode::Store {
        f.operand(v, 1)
    } else {
        f.operand(v, 0)
    }
}

/// The cell that load or store `v` touches in iteration `i`.
pub open spec fn access_cell(
    m: Machine,
    f: Function,
    induction: ValueId,
    v: ValueId,
    i: int,
) -> int {
    address_cell(m, f, induction, pointer_of(f, v), i)
}

/// The flags that matter for what an instruction computes: whether it may wrap,
/// for sums, differences, products and shifts to the left; whether it must be
/// exact, for quotients and shifts to the right; and the fast-math bits.
pub open spec fn operation_flags(inst: Instruction) -> Flags {
    match inst.opcode {
        Opcode::Add | Opcode::Sub | Opcode::Mul | Opcode::Shl => Flags {
            exact: false,
            ..inst.flags
        },
        Opcode::UDiv | Opcode::SDiv | Opcode::LShr | Opcode::AShr => Flags {
            nuw: false,
            nsw: false,
            ..inst.flags
        },
        _ => Flags { nuw: false, nsw: false, exact: false, ..inst.flags },
    }
}

/// How many inputs an operation has.
pub open spec fn input_count(opcode: Opcode) -> nat {
    match opcode {
        Opcode::FNeg | Opcode::Trunc | Opcode::ZExt | Opcode::SExt | Opcode::FPToUI
        | Opcode::FPToSI | Opcode::UIToFP | Opcode::SIToFP | Opcode::FPTrunc
        | Opcode::FPExt => 1,
        Opcode::Select => 3,
        _ => 2,
    }
}

/// The operation that instruction `v` performs.
pub open spec fn operation_of(f: Function, v: ValueId) -> Operation {
    let inst = f.inst(v);
    Operation {
        kind: match inst.opcode {
            Opcode::FNeg => OperationKind::Negate,
            Opcode::ICmp => OperationKind::CompareIntegers(inst.int_predicate),
            Opcode::FCmp => OperationKind::CompareFloats(inst.float_predicate),
            Opcode::Select => OperationKind::Select,
            Opcode::Trunc | Opcode::ZExt | Opcode::SExt | Opcode::FPToUI | Opcode::FPToSI
            | Opcode::UIToFP | Opcode::SIToFP | Opcode::FPTrunc | Opcode::FPExt => {
                OperationKind::Convert(inst.opcode, f.ty(v))
            },
            _ => OperationKind::Binary(inst.opcode),
        },
        input: f.ty(f.operand(v, 0)),
        flags: operation_flags(inst),
    }
}

/// The value of `u` in one iteration whose own values are `values`.
pub open spec fn value_of(
    m: Machine,
    f: Function,
    header: BlockId,
    values: Map<ValueId, int>,
    u: ValueId,
) -> int {
    if f.in_block(u, header) {
        values[u]
    } else {
        (m.invariant)(u)
    }
}

/// The inputs of operation `v` in one iteration.
pub open spec fn inputs_of(
    m: Machine,
    f: Function,
    header: BlockId,
    values: Map<ValueId, int>,
    v: ValueId,
) -> Seq<int> {
    Seq::new(
        input_count(f.inst(v).opcode),
        |j: int| value_of(m, f, header, values, f.operand(v, j)),
    )
}

/// One iteration in progress.
pub ghost struct Scalar {
    pub memory: Memory,
    pub values: Map<ValueId, int>,
}

/// Instructions that leave nothing behind: the PHI has its value from the
/// beginning, the branch comes last, and addresses are computed where they are
/// used.
pub open spec fn is_silent(opcode: Opcode) -> bool {
    opcode == Opcode::Phi || opcode == Opcode::Br || opcode == Opcode::GetElementPtr
}

/// The iteration after instruction `v`.
pub open spec fn scalar_instruction(
    m: Machine,
    f: Function,
    c: CandidateView,
    i: int,
    s: Scalar,
    v: ValueId,
) -> Scalar {
    let opcode = f.inst(v).opcode;
    let cell = access_cell(m, f, c.shape.induction, v, i);
    if is_silent(opcode) {
        s
    } else if opcode == Opcode::Load {
        Scalar { values: s.values.insert(v, s.memory[cell]), ..s }
    } else if opcode == Opcode::Store {
        Scalar {
            memory: s.memory.insert(
                cell,
                value_of(m, f, c.shape.header, s.values, f.operand(v, 0)),
            ),
            ..s
        }
    } else {
        Scalar {
            values: s.values.insert(
                v,
                (m.apply)(operation_of(f, v), inputs_of(m, f, c.shape.header, s.values, v)),
            ),
            ..s
        }
    }
}

/// Iteration `i` after the first `count` instructions.
pub open spec fn scalar_body(
    m: Machine,
    f: Function,
    c: CandidateView,
    i: int,
    memory: Memory,
    count: nat,
) -> Scalar
    decreases count,
{
    if count == 0 {
        Scalar { memory, values: Map::empty().insert(c.shape.induction, i) }
    } else {
        scalar_instruction(
            m,
            f,
            c,
            i,
            scalar_body(m, f, c, i, memory, (count - 1) as nat),
            f.body(c.shape.header)[count - 1],
        )
    }
}

/// Memory after iteration `i` of the scalar loop.
pub open spec fn scalar_iteration(
    m: Machine,
    f: Function,
    c: CandidateView,
    memory: Memory,
    i: int,
) -> Memory {
    scalar_body(m, f, c, i, memory, f.body(c.shape.header).len()).memory
}

/// Memory after `count` iterations of the scalar loop from iteration `start`.
pub open spec fn scalar_iterations(
    m: Machine,
    f: Function,
    c: CandidateView,
    memory: Memory,
    start: int,
    count: nat,
) -> Memory
    decreases count,
{
    if count == 0 {
        memory
    } else {
        scalar_iteration(
            m,
            f,
            c,
            scalar_iterations(m, f, c, memory, start, (count - 1) as nat),
            start + count - 1,
        )
    }
}

/// A vector of iterations in progress: lane `l` runs iteration `start + l`.
pub ghost struct Lanes {
    pub memory: Memory,
    pub lanes: Seq<Map<ValueId, int>>,
}

/// Memory after the first `count` lanes have stored.
pub open spec fn stored_lanes(
    memory: Memory,
    cells: spec_fn(int) -> int,
    values: spec_fn(int) -> int,
    count: nat,
) -> Memory
    decreases count,
{
    if count == 0 {
        memory
    } else {
        stored_lanes(memory, cells, values, (count - 1) as nat).insert(
            cells(count - 1),
            values(count - 1),
        )
    }
}

/// The vector of iterations after all its lanes have run instruction `v`.
pub open spec fn lane_instruction(
    m: Machine,
    f: Function,
    c: CandidateView,
    start: int,
    s: Lanes,
    v: ValueId,
) -> Lanes {
    let opcode = f.inst(v).opcode;
    let cell = |l: int| access_cell(m, f, c.shape.induction, v, start + l);
    if is_silent(opcode) {
        s
    } else if opcode == Opcode::Load {
        Lanes {
            lanes: Seq::new(s.lanes.len(), |l: int| s.lanes[l].insert(v, s.memory[cell(l)])),
            ..s
        }
    } else if opcode == Opcode::Store {
        Lanes {
            memory: stored_lanes(
                s.memory,
                cell,
                |l: int| value_of(m, f, c.shape.header, s.lanes[l], f.operand(v, 0)),
                s.lanes.len(),
            ),
            ..s
        }
    } else {
        Lanes {
            lanes: Seq::new(
                s.lanes.len(),
                |l: int|
                    s.lanes[l].insert(
                        v,
                        (m.apply)(
                            operation_of(f, v),
                            inputs_of(m, f, c.shape.header, s.lanes[l], v),
                        ),
                    ),
            ),
            ..s
        }
    }
}

/// The vector of `vf` iterations from `start` after the first `count`
/// instructions, each run by all lanes before the next.
pub open spec fn lane_body(
    m: Machine,
    f: Function,
    c: CandidateView,
    start: int,
    vf: nat,
    memory: Memory,
    count: nat,
) -> Lanes
    decreases count,
{
    if count == 0 {
        Lanes {
            memory,
            lanes: Seq::new(vf, |l: int| Map::empty().insert(c.shape.induction, start + l)),
        }
    } else {
        lane_instruction(
            m,
            f,
            c,
            start,
            lane_body(m, f, c, start, vf, memory, (count - 1) as nat),
            f.body(c.shape.header)[count - 1],
        )
    }
}

/// Two memories hold the same at one cell.
pub open spec fn agree_at(a: Memory, b: Memory, cell: int) -> bool {
    a.contains_key(cell) == b.contains_key(cell) && a[cell] == b[cell]
}

/// Instruction `k` of the body is a load or store.
spec fn is_access(f: Function, c: CandidateView, k: int) -> bool {
    let v = f.body(c.shape.header)[k];
    f.inst(v).opcode == Opcode::Load || f.inst(v).opcode == Opcode::Store
}

/// Instruction `k` of the body is a store.
spec fn is_write(f: Function, c: CandidateView, k: int) -> bool {
    is_access(f, c, k) && f.inst(f.body(c.shape.header)[k]).opcode == Opcode::Store
}

/// The cell that access `k` of the body touches in iteration `i`.
spec fn cell_of(m: Machine, f: Function, c: CandidateView, k: int, i: int) -> int {
    access_cell(m, f, c.shape.induction, f.body(c.shape.header)[k], i)
}

/// Iteration `i` writes a cell within its first `count` instructions.
spec fn writes(m: Machine, f: Function, c: CandidateView, i: int, count: nat, cell: int) -> bool {
    exists|k: int|
        0 <= k < count && #[trigger] is_write(f, c, k) && cell_of(m, f, c, k, i) == cell
}

/// No iteration touches a cell that another iteration writes.
spec fn iterations_are_separate(m: Machine, f: Function, c: CandidateView) -> bool {
    forall|j: int, k: int, i: int, l: int|
        0 <= j < f.body(c.shape.header).len() && 0 <= k < f.body(c.shape.header).len()
            && is_write(f, c, j) && is_access(f, c, k) && 0 <= i < word() && 0 <= l < word() && i
            != l ==> #[trigger] cell_of(m, f, c, j, i) != #[trigger] cell_of(m, f, c, k, l)
}

/// Where access `k` of the body stands among the collected accesses.
proof fn lemma_collected_access(
    f: Function,
    c: CandidateView,
    count: nat,
    k: int,
) -> (position: int)
    requires
        totals(f, c.shape, c.address_only, count) is Ok,
        0 <= k < count,
        is_access(f, c, k),
        !is_skipped(c.shape, c.address_only, f.body(c.shape.header)[k]),
    ensures
        memory_access(
            f,
            f.body(c.shape.header)[k],
            c.shape.induction,
            c.shape.header,
        ) is Ok,
        position == totals(f, c.shape, c.address_only, k as nat)->Ok_0.memory.len(),
        0 <= position < totals(f, c.shape, c.address_only, count)->Ok_0.memory.len(),
        totals(f, c.shape, c.address_only, count)->Ok_0.memory[position] == memory_access(
            f,
            f.body(c.shape.header)[k],
            c.shape.induction,
            c.shape.header,
        )->Ok_0,
    decreases count,
{
    if k < count - 1 {
        lemma_collected_access(f, c, (count - 1) as nat, k)
    } else {
        totals(f, c.shape, c.address_only, k as nat)->Ok_0.memory.len() as int
    }
}

proof fn lemma_collected_order(f: Function, c: CandidateView, j: int, k: int)
    requires
        totals(f, c.shape, c.address_only, k as nat) is Ok,
        0 <= j < k,
        is_access(f, c, j),
        !is_skipped(c.shape, c.address_only, f.body(c.shape.header)[j]),
    ensures
        totals(f, c.shape, c.address_only, j as nat)->Ok_0.memory.len() < totals(
            f,
            c.shape,
            c.address_only,
            k as nat,
        )->Ok_0.memory.len(),
    decreases k,
{
    if j < k - 1 {
        lemma_collected_order(f, c, j, k - 1);
    }
}

proof fn lemma_totals_prefix(f: Function, c: CandidateView, count: nat, k: nat)
    requires
        totals(f, c.shape, c.address_only, count) is Ok,
        k <= count,
    ensures
        totals(f, c.shape, c.address_only, k) is Ok,
    decreases count,
{
    if k < count {
        lemma_totals_prefix(f, c, (count - 1) as nat, k);
    }
}

/// The cell of an accepted access is a function of its base and offset.
proof fn lemma_access_cell(m: Machine, f: Function, c: CandidateView, v: ValueId, i: int)
    requires
        f.is_op(v, Opcode::Load) || f.is_op(v, Opcode::Store),
        f.is_op(c.shape.induction, Opcode::Phi),
        memory_access(f, v, c.shape.induction, c.shape.header) is Ok,
        0 <= i < word(),
    ensures
        ({
            let access = memory_access(f, v, c.shape.induction, c.shape.header)->Ok_0;
            access_cell(m, f, c.shape.induction, v, i) == (m.locate)(
                access.base,
                access.element_type,
                (i + access.offset) % word(),
            )
        }),
{
    let pointer = pointer_of(f, v);
    law_affine_index_value(f, f.operand(pointer, 1), c.shape.induction, i);
}

proof fn lemma_distinct_residues(i: int, l: int, offset: int)
    requires
        0 <= i < word(),
        0 <= l < word(),
        i != l,
    ensures
        (i + offset) % word() != (l + offset) % word(),
        0 <= (i + offset) % word() < word(),
{
}

/// What the alias test relies on is promised by the program.
proof fn lemma_disjoint_is_promised(f: Function, a: ValueId, b: ValueId)
    requires
        a != b,
        statically_disjoint(f, a, b),
    ensures
        are_promised_apart(f, a, b),
        are_promised_apart(f, b, a),
{
    if !(f.values@[a as int].kind is GlobalVariable) {
        let j = choose|j: int|
            0 <= j < f.parameters@.len() && (#[trigger] f.parameters@[j]).value == a
                && f.parameters@[j].noalias;
        let k = choose|k: int|
            0 <= k < f.parameters@.len() && (#[trigger] f.parameters@[k]).value == b
                && f.parameters@[k].noalias;
        assert(f.parameters@[j] == (Parameter { value: a, noalias: true }));
        assert(f.parameters@[k] == (Parameter { value: b, noalias: true }));
    }
}

/// The instructions of an accepted loop that have no vector form of their own
/// are control and index arithmetic.
pub proof fn lemma_skipped_opcode(f: Function, c: CandidateView, plan: Plan, v: ValueId)
    requires
        f.wf(),
        c.shape.header < f.blocks@.len(),
        is_loop_header(f, c.shape.header),
        is_accepted(f, c, plan),
        is_skipped(c.shape, c.address_only, v),
    ensures
        ({
            let opcode = f.inst(v).opcode;
            ||| opcode == Opcode::Phi
            ||| opcode == Opcode::Br
            ||| opcode == Opcode::Add
            ||| opcode == Opcode::Sub
            ||| opcode == Opcode::ICmp
        }),
{
    let header = c.shape.header;
    let config = choose|config: PassConfig| #[trigger]
        analysis(f, header, config) == Ok::<(CandidateView, Plan), Rejection>((c, plan));
    assert(analysis(f, header, config) is Ok);
    lemma_induction_is_valid(f, header);
    if c.address_only.contains(v) {
        let n = f.body(header).len();
        assert(index_helpers(f, c.shape, n).contains(v));
        let k = choose|k: int| 0 <= k < n && #[trigger] is_index_helper(f, c.shape, k, v);
        assert(is_index_helper(f, c.shape, k, v));
    }
}

/// Where objects are laid out as promised, an accepted loop touches no cell in
/// one iteration that it writes in another.
proof fn lemma_iterations_are_separate(m: Machine, f: Function, c: CandidateView)
    requires
        objects_are_laid_out(m, f),
        f.block_is_valid(c.shape.header),
        f.is_op(c.shape.induction, Opcode::Phi),
        totals(f, c.shape, c.address_only, f.body(c.shape.header).len()) is Ok,
        dependences(
            f,
            totals(f, c.shape, c.address_only, f.body(c.shape.header).len())->Ok_0.memory,
        ) is Ok,
        forall|k: int|
            0 <= k < f.body(c.shape.header).len() && #[trigger] is_access(f, c, k) ==> !is_skipped(
                c.shape,
                c.address_only,
                f.body(c.shape.header)[k],
            ),
    ensures
        iterations_are_separate(m, f, c),
{
    let body = f.body(c.shape.header);
    let n = body.len();
    let memory = totals(f, c.shape, c.address_only, n)->Ok_0.memory;
    assert forall|j: int, k: int, i: int, l: int|
        0 <= j < n && 0 <= k < n && is_write(f, c, j) && is_access(f, c, k) && 0 <= i < word()
            && 0 <= l < word() && i != l implies #[trigger] cell_of(m, f, c, j, i)
        != #[trigger] cell_of(m, f, c, k, l) by {
        assert(f.is_instruction(f.blocks@[c.shape.header as int].instructions@[j]));
        assert(f.is_instruction(f.blocks@[c.shape.header as int].instructions@[k]));
        let a = lemma_collected_access(f, c, n, j);
        let b = lemma_collected_access(f, c, n, k);
        lemma_access_cell(m, f, c, body[j], i);
        lemma_access_cell(m, f, c, body[k], l);
        lemma_distinct_residues(i, l, memory[a].offset as int);
        lemma_distinct_residues(l, i, memory[a].offset as int);
        if j < k {
            lemma_totals_prefix(f, c, n, k as nat);
            lemma_collected_order(f, c, j, k);
            law_accepted_pairs_share_no_iteration(f, memory, a, b);
            if memory[a].base != memory[b].base {
                lemma_disjoint_is_promised(f, memory[a].base, memory[b].base);
            }
        } else if k < j {
            lemma_totals_prefix(f, c, n, j as nat);
            lemma_collected_order(f, c, k, j);
            law_accepted_pairs_share_no_iteration(f, memory, b, a);
            if memory[a].base != memory[b].base {
                lemma_disjoint_is_promised(f, memory[b].base, memory[a].base);
            }
        }
    }
}

proof fn lemma_writes_grow(
    m: Machine,
    f: Function,
    c: CandidateView,
    i: int,
    count: nat,
    cell: int,
)
    requires
        count > 0,
    ensures
        writes(m, f, c, i, count, cell) <==> writes(m, f, c, i, (count - 1) as nat, cell) || (
        is_write(f, c, count - 1) && cell_of(m, f, c, count - 1, i) == cell),
{
    if writes(m, f, c, i, (count - 1) as nat, cell) {
        let k = choose|k: int|
            0 <= k < count - 1 && #[trigger] is_write(f, c, k) && cell_of(m, f, c, k, i) == cell;
        assert(0 <= k < count && is_write(f, c, k) && cell_of(m, f, c, k, i) == cell);
    }
    if writes(m, f, c, i, count, cell) {
        let k = choose|k: int|
            0 <= k < count && #[trigger] is_write(f, c, k) && cell_of(m, f, c, k, i) == cell;
        if k < count - 1 {
            assert(0 <= k < count - 1 && is_write(f, c, k) && cell_of(m, f, c, k, i) == cell);
        }
    }
}

/// One iteration in two memories that agree on what it touches: it computes the
/// same values, and it leaves alone what it does not write.
proof fn lemma_same_iteration(
    m: Machine,
    f: Function,
    c: CandidateView,
    i: int,
    a: Memory,
    b: Memory,
    count: nat,
)
    requires
        count <= f.body(c.shape.header).len(),
        forall|k: int|
            0 <= k < f.body(c.shape.header).len() && #[trigger] is_access(f, c, k) ==> agree_at(
                a,
                b,
                cell_of(m, f, c, k, i),
            ),
    ensures
        scalar_body(m, f, c, i, a, count).values == scalar_body(m, f, c, i, b, count).values,
        forall|cell: int| #[trigger]
            writes(m, f, c, i, count, cell) ==> agree_at(
                scalar_body(m, f, c, i, a, count).memory,
                scalar_body(m, f, c, i, b, count).memory,
                cell,
            ),
        forall|cell: int|
            !#[trigger] writes(m, f, c, i, count, cell) ==> agree_at(
                scalar_body(m, f, c, i, a, count).memory,
                a,
                cell,
            ),
        forall|cell: int|
            !#[trigger] writes(m, f, c, i, count, cell) ==> agree_at(
                scalar_body(m, f, c, i, b, count).memory,
                b,
                cell,
            ),
    decreases count,
{
    if count > 0 {
        let k = count - 1;
        lemma_same_iteration(m, f, c, i, a, b, k as nat);
        let x = scalar_body(m, f, c, i, a, k as nat);
        let y = scalar_body(m, f, c, i, b, k as nat);
        let cell = cell_of(m, f, c, k, i);
        assert(is_access(f, c, k) ==> agree_at(x.memory, y.memory, cell)) by {
            let written = writes(m, f, c, i, k as nat, cell);
        }
        assert forall|cell: int|
            writes(m, f, c, i, count, cell) <==> #[trigger] writes(m, f, c, i, k as nat, cell) || (
            is_write(f, c, k) && cell_of(m, f, c, k, i) == cell) by {
            lemma_writes_grow(m, f, c, i, count, cell);
        }
        assert forall|cell: int| #[trigger] writes(m, f, c, i, count, cell) implies agree_at(
            scalar_body(m, f, c, i, a, count).memory,
            scalar_body(m, f, c, i, b, count).memory,
            cell,
        ) by {
            let before = writes(m, f, c, i, k as nat, cell);
        }
        assert forall|cell: int| !#[trigger] writes(m, f, c, i, count, cell) implies agree_at(
            scalar_body(m, f, c, i, a, count).memory,
            a,
            cell,
        ) && agree_at(scalar_body(m, f, c, i, b, count).memory, b, cell) by {
            let before = writes(m, f, c, i, k as nat, cell);
        }
    }
}

/// One of the first `lanes` iterations from `start` writes a cell within its
/// first `count` instructions.
spec fn some_lane_writes(
    m: Machine,
    f: Function,
    c: CandidateView,
    start: int,
    lanes: nat,
    count: nat,
    cell: int,
) -> bool {
    exists|l: int| 0 <= l < lanes && #[trigger] writes(m, f, c, start + l, count, cell)
}

proof fn lemma_foreign_cell(
    m: Machine,
    f: Function,
    c: CandidateView,
    i: int,
    l: int,
    count: nat,
    k: int,
)
    requires
        iterations_are_separate(m, f, c),
        0 <= k < f.body(c.shape.header).len(),
        count <= f.body(c.shape.header).len(),
        is_access(f, c, k),
        0 <= i < word(),
        0 <= l < word(),
        i != l,
    ensures
        !writes(m, f, c, l, count, cell_of(m, f, c, k, i)),
{
}

proof fn lemma_stored_lanes(
    memory: Memory,
    cells: spec_fn(int) -> int,
    values: spec_fn(int) -> int,
    count: nat,
)
    requires
        forall|a: int, b: int|
            0 <= a < b < count ==> #[trigger] cells(a) != #[trigger] cells(b),
    ensures
        forall|l: int|
            0 <= l < count ==> stored_lanes(memory, cells, values, count).contains_key(
                #[trigger] cells(l),
            ) && stored_lanes(memory, cells, values, count)[cells(l)] == values(l),
        forall|cell: int|
            (forall|l: int| 0 <= l < count ==> #[trigger] cells(l) != cell)
                ==> #[trigger] agree_at(stored_lanes(memory, cells, values, count), memory, cell),
    decreases count,
{
    if count > 0 {
        lemma_stored_lanes(memory, cells, values, (count - 1) as nat);
        assert forall|cell: int|
            (forall|l: int| 0 <= l < count ==> #[trigger] cells(l) != cell)
            implies #[trigger] agree_at(
            stored_lanes(memory, cells, values, count),
            memory,
            cell,
        ) by {
            assert(agree_at(
                stored_lanes(memory, cells, values, (count - 1) as nat),
                memory,
                cell,
            ));
            assert(cells(count - 1) != cell);
        }
    }
}

/// Running each instruction in all lanes before the next computes what the
/// lanes compute on their own.
proof fn lemma_lanes_run_alone(
    m: Machine,
    f: Function,
    c: CandidateView,
    start: int,
    vf: nat,
    memory: Memory,
    count: nat,
)
    requires
        iterations_are_separate(m, f, c),
        0 <= start,
        start + vf <= word(),
        count <= f.body(c.shape.header).len(),
    ensures
        lane_body(m, f, c, start, vf, memory, count).lanes.len() == vf,
        forall|l: int|
            0 <= l < vf ==> #[trigger] lane_body(m, f, c, start, vf, memory, count).lanes[l]
                == scalar_body(m, f, c, start + l, memory, count).values,
        forall|l: int, cell: int|
            0 <= l < vf && #[trigger] writes(m, f, c, start + l, count, cell) ==> agree_at(
                lane_body(m, f, c, start, vf, memory, count).memory,
                scalar_body(m, f, c, start + l, memory, count).memory,
                cell,
            ),
        forall|cell: int|
            !#[trigger] some_lane_writes(m, f, c, start, vf, count, cell) ==> agree_at(
                lane_body(m, f, c, start, vf, memory, count).memory,
                memory,
                cell,
            ),
    decreases count,
{
    if count > 0 {
        let k = count - 1;
        let v = f.body(c.shape.header)[k];
        lemma_lanes_run_alone(m, f, c, start, vf, memory, k as nat);
        let before = lane_body(m, f, c, start, vf, memory, k as nat);
        let after = lane_body(m, f, c, start, vf, memory, count);
        let alone = |l: int| scalar_body(m, f, c, start + l, memory, k as nat);
        let cells = |l: int| access_cell(m, f, c.shape.induction, v, start + l);
        let values = |l: int| value_of(m, f, c.shape.header, before.lanes[l], f.operand(v, 0));
        assert forall|l: int| 0 <= l < vf && is_access(f, c, k) implies agree_at(
            before.memory,
            alone(l).memory,
            #[trigger] cells(l),
        ) by {
            lemma_same_iteration(m, f, c, start + l, memory, memory, k as nat);
            let cell = cell_of(m, f, c, k, start + l);
            if !writes(m, f, c, start + l, k as nat, cell) {
                assert forall|j: int| 0 <= j < vf implies !#[trigger] writes(
                    m,
                    f,
                    c,
                    start + j,
                    k as nat,
                    cell,
                ) by {
                    if j != l {
                        lemma_foreign_cell(m, f, c, start + l, start + j, k as nat, k);
                    }
                }
                assert(!some_lane_writes(m, f, c, start, vf, k as nat, cell));
            }
        }
        assert forall|l: int| 0 <= l < vf implies #[trigger] after.lanes[l] == scalar_body(
            m,
            f,
            c,
            start + l,
            memory,
            count,
        ).values by {
            assert(before.lanes[l] == alone(l).values);
            let cell = cells(l);
        }
        if is_write(f, c, k) {
            assert forall|a: int, b: int| 0 <= a < b < vf implies #[trigger] cells(a)
                != #[trigger] cells(b) by {
                assert(cells(a) == cell_of(m, f, c, k, start + a));
                assert(cells(b) == cell_of(m, f, c, k, start + b));
            }
            lemma_stored_lanes(before.memory, cells, values, vf);
        }
        assert forall|l: int, cell: int|
            0 <= l < vf && #[trigger] writes(m, f, c, start + l, count, cell) implies agree_at(
            after.memory,
            scalar_body(m, f, c, start + l, memory, count).memory,
            cell,
        ) by {
            lemma_writes_grow(m, f, c, start + l, count, cell);
            assert(before.lanes[l] == alone(l).values);
            if is_write(f, c, k) {
                assert(cells(l) == cell_of(m, f, c, k, start + l));
                if cells(l) != cell {
                    assert(writes(m, f, c, start + l, k as nat, cell));
                    let j = choose|j: int|
                        0 <= j < k && #[trigger] is_write(f, c, j) && cell_of(
                            m,
                            f,
                            c,
                            j,
                            start + l,
                        ) == cell;
                    assert forall|o: int| 0 <= o < vf implies #[trigger] cells(o) != cell by {
                        if o != l {
                            assert(cells(o) == cell_of(m, f, c, k, start + o));
                            assert(cell_of(m, f, c, j, start + l) != cell_of(
                                m,
                                f,
                                c,
                                k,
                                start + o,
                            ));
                        }
                    }
                    assert(agree_at(after.memory, before.memory, cell));
                }
            }
        }
        assert forall|cell: int|
            !#[trigger] some_lane_writes(m, f, c, start, vf, count, cell) implies agree_at(
            after.memory,
            memory,
            cell,
        ) by {
            assert forall|l: int| 0 <= l < vf implies !#[trigger] writes(
                m,
                f,
                c,
                start + l,
                k as nat,
                cell,
            ) by {
                lemma_writes_grow(m, f, c, start + l, count, cell);
                assert(!writes(m, f, c, start + l, count, cell));
            }
            assert(!some_lane_writes(m, f, c, start, vf, k as nat, cell));
            if is_write(f, c, k) {
                assert forall|l: int| 0 <= l < vf implies #[trigger] cells(l) != cell by {
                    assert(!writes(m, f, c, start + l, count, cell));
                    lemma_writes_grow(m, f, c, start + l, count, cell);
                    assert(cells(l) == cell_of(m, f, c, k, start + l));
                }
                assert(agree_at(after.memory, before.memory, cell));
            }
        }
    }
}

/// Running iterations one after the other leaves what they leave on their own.
proof fn lemma_iterations_run_alone(
    m: Machine,
    f: Function,
    c: CandidateView,
    start: int,
    lanes: nat,
    memory: Memory,
)
    requires
        iterations_are_separate(m, f, c),
        0 <= start,
        start + lanes <= word(),
    ensures
        forall|l: int, cell: int|
            0 <= l < lanes && #[trigger] writes(
                m,
                f,
                c,
                start + l,
                f.body(c.shape.header).len(),
                cell,
            ) ==> agree_at(
                scalar_iterations(m, f, c, memory, start, lanes),
                scalar_iteration(m, f, c, memory, start + l),
                cell,
            ),
        forall|cell: int|
            !#[trigger] some_lane_writes(
                m,
                f,
                c,
                start,
                lanes,
                f.body(c.shape.header).len(),
                cell,
            ) ==> agree_at(scalar_iterations(m, f, c, memory, start, lanes), memory, cell),
    decreases lanes,
{
    let n = f.body(c.shape.header).len();
    if lanes > 0 {
        let last = lanes - 1;
        let i = start + last;
        lemma_iterations_run_alone(m, f, c, start, last as nat, memory);
        let before = scalar_iterations(m, f, c, memory, start, last as nat);
        assert forall|k: int| 0 <= k < n && #[trigger] is_access(f, c, k) implies agree_at(
            before,
            memory,
            cell_of(m, f, c, k, i),
        ) by {
            let cell = cell_of(m, f, c, k, i);
            assert forall|l: int| 0 <= l < last implies !#[trigger] writes(
                m,
                f,
                c,
                start + l,
                n,
                cell,
            ) by {
                lemma_foreign_cell(m, f, c, i, start + l, n, k);
            }
            assert(!some_lane_writes(m, f, c, start, last as nat, n, cell));
        }
        lemma_same_iteration(m, f, c, i, before, memory, n);
        assert forall|l: int, cell: int|
            0 <= l < lanes && #[trigger] writes(m, f, c, start + l, n, cell) implies agree_at(
            scalar_iterations(m, f, c, memory, start, lanes),
            scalar_iteration(m, f, c, memory, start + l),
            cell,
        ) by {
            if l < last {
                let k = choose|k: int|
                    0 <= k < n && #[trigger] is_write(f, c, k) && cell_of(m, f, c, k, start + l)
                        == cell;
                lemma_foreign_cell(m, f, c, start + l, i, n, k);
                assert(!writes(m, f, c, i, n, cell));
            }
        }
        assert forall|cell: int|
            !#[trigger] some_lane_writes(m, f, c, start, lanes, n, cell) implies agree_at(
            scalar_iterations(m, f, c, memory, start, lanes),
            memory,
            cell,
        ) by {
            assert(!writes(m, f, c, start + last, n, cell));
            assert forall|l: int| 0 <= l < last implies !#[trigger] writes(
                m,
                f,
                c,
                start + l,
                n,
                cell,
            ) by {
                assert(0 <= l < lanes);
            }
            assert(!some_lane_writes(m, f, c, start, last as nat, n, cell));
        }
    }
}

/// No memory hazard is reordered: running each instruction of an accepted loop
/// in `vf` lanes at once leaves the memory that `vf` scalar iterations leave.
pub proof fn law_lanes_are_iterations(
    m: Machine,
    f: Function,
    c: CandidateView,
    plan: Plan,
    start: int,
    vf: nat,
    memory: Memory,
)
    requires
        f.wf(),
        c.shape.header < f.blocks@.len(),
        is_loop_header(f, c.shape.header),
        is_accepted(f, c, plan),
        objects_are_laid_out(m, f),
        0 <= start,
        start + vf <= word(),
    ensures
        lane_body(m, f, c, start, vf, memory, f.body(c.shape.header).len()).memory
            == scalar_iterations(m, f, c, memory, start, vf),
{
    let n = f.body(c.shape.header).len();
    assert(f.block_is_valid(c.shape.header));
    lemma_induction_is_valid(f, c.shape.header);
    assert forall|k: int| 0 <= k < n && #[trigger] is_access(f, c, k) implies !is_skipped(
        c.shape,
        c.address_only,
        f.body(c.shape.header)[k],
    ) by {
        if is_skipped(c.shape, c.address_only, f.body(c.shape.header)[k]) {
            lemma_skipped_opcode(f, c, plan, f.body(c.shape.header)[k]);
        }
    }
    lemma_iterations_are_separate(m, f, c);
    lemma_lanes_run_alone(m, f, c, start, vf, memory, n);
    lemma_iterations_run_alone(m, f, c, start, vf, memory);
    let a = lane_body(m, f, c, start, vf, memory, n).memory;
    let b = scalar_iterations(m, f, c, memory, start, vf);
    assert forall|cell: int| #[trigger] agree_at(a, b, cell) by {
        if some_lane_writes(m, f, c, start, vf, n, cell) {
            let l = choose|l: int| 0 <= l < vf && #[trigger] writes(m, f, c, start + l, n, cell);
            assert(agree_at(a, scalar_iteration(m, f, c, memory, start + l), cell));
        }
    }
    assert forall|cell: int| a.contains_key(cell) == b.contains_key(cell) by {
        assert(agree_at(a, b, cell));
    }
    assert forall|cell: int| a.contains_key(cell) implies a[cell] == b[cell] by {
        assert(agree_at(a, b, cell));
    }
    assert(a =~= b);
}

} // verus!
