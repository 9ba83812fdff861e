//! A rewritten loop leaves the memory that the scalar loop leaves.

use crate::analysis::{analysis, CandidateView};
use crate::config::PassConfig;
use crate::cost::{supported_vf, Plan};
use crate::execution::{
    holds, law_vector_body_runs_lanes, operand_outcome, run_step, run_steps, Execution, Outcome,
};
use crate::ir::{BlockId, Function, ValueId};
use crate::lowering::{
    dispatch_steps, exit_steps, is_accepted, is_rewrite, latch_steps, lemma_widened_values,
    lowered_body, trip_mask, INDEX_PHI, VECTOR_TRIP,
};
use crate::recipe::{NewBlock, Rewrite, Step, Target};
use crate::recognize::is_loop_header;
use crate::rejection::Rejection;
use crate::semantics::{
    law_lanes_are_iterations, objects_are_laid_out, scalar_iteration, scalar_iterations, word,
    Machine, Memory,
};
use crate::shape::lemma_induction_is_valid;
use vstd::prelude::*;

verus! {

/// Whether the scalar loop goes on when its induction has become `next`.
pub open spec fn continues(m: Machine, f: Function, c: CandidateView, next: int) -> bool {
    let compare = c.shape.latch_compare;
    let value = |v: ValueId|
        if v == c.shape.induction_next {
            next
        } else {
            (m.invariant)(v)
        };
    let taken = holds(
        f.inst(compare).int_predicate,
        value(f.operand(compare, 0)),
        value(f.operand(compare, 1)),
    );
    f.inst(c.shape.terminator).successors@[if taken {
        0int
    } else {
        1int
    }] == c.shape.header
}

/// Memory after the scalar loop, entered at iteration `start`. The loop tests
/// its condition behind each iteration; `limit` bounds how often it goes on.
pub open spec fn scalar_loop(
    m: Machine,
    f: Function,
    c: CandidateView,
    memory: Memory,
    start: int,
    limit: nat,
) -> Memory
    decreases limit,
{
    let after = scalar_iteration(m, f, c, memory, start);
    let next = (start + 1) % word();
    if limit == 0 || !continues(m, f, c, next) {
        after
    } else {
        scalar_loop(m, f, c, after, next, (limit - 1) as nat)
    }
}

/// Where the branch at the end of a block leads.
pub open spec fn destination(m: Machine, vf: nat, e: Execution, steps: Seq<Step>) -> Target {
    match steps.last() {
        Step::Branch { condition, on_true, on_false } => if operand_outcome(
            m,
            vf,
            e.outcomes,
            condition,
        ) == Outcome::Flag(true) {
            on_true
        } else {
            on_false
        },
        _ => Target::New(NewBlock::Dispatch),
    }
}

/// The vector loop, entered at index `start`. `limit` bounds how often it goes
/// on.
pub open spec fn vector_loop(
    m: Machine,
    r: Rewrite,
    entry: Execution,
    start: int,
    limit: nat,
) -> Execution
    decreases limit,
{
    let vf = r.vf as nat;
    let e = run_steps(m, vf, start, entry, r.vector_body@);
    if limit == 0 || destination(m, vf, e, r.vector_body@) != Target::New(NewBlock::VectorBody) {
        e
    } else {
        vector_loop(
            m,
            r,
            Execution { memory: e.memory, outcomes: entry.outcomes },
            operand_outcome(m, vf, e.outcomes, r.index_back_edge.value)->Word_0,
            (limit - 1) as nat,
        )
    }
}

/// Memory after the rewritten loop: the dispatch block, then the scalar loop
/// from the beginning, or the vector loop with the scalar loop for a remainder.
/// No loop goes on more often than there are indices.
pub open spec fn rewritten_loop(
    m: Machine,
    f: Function,
    c: CandidateView,
    r: Rewrite,
    memory: Memory,
) -> Memory {
    let vf = r.vf as nat;
    let limit = word() as nat;
    let dispatch = run_steps(
        m,
        vf,
        0,
        Execution { memory, outcomes: Seq::empty() },
        r.dispatch@,
    );
    if destination(m, vf, dispatch, r.dispatch@) == Target::New(NewBlock::VectorBody) {
        let first = operand_outcome(m, vf, dispatch.outcomes, r.index_entry.value)->Word_0;
        let body = vector_loop(m, r, dispatch, first, limit);
        let exit = run_steps(m, vf, 0, body, r.vector_exit@);
        if destination(m, vf, exit, r.vector_exit@) == Target::Existing(r.header) {
            let rest = operand_outcome(m, vf, exit.outcomes, r.remainder_entry.value)->Word_0;
            scalar_loop(m, f, c, exit.memory, rest, limit)
        } else {
            exit.memory
        }
    } else {
        scalar_loop(m, f, c, dispatch.memory, 0, limit)
    }
}

/// The vector trip count is the number of iterations in whole vectors: it is a
/// multiple of the factor, and fewer than one vector of iterations are left.
pub proof fn law_trip_mask(count: u64, vf: u32)
    requires
        supported_vf(vf as nat),
    ensures
        count & trip_mask(vf) == count - count % (vf as u64),
        (count & trip_mask(vf)) % (vf as u64) == 0,
        count & trip_mask(vf) <= count,
        count - (count & trip_mask(vf)) < vf,
{
    assert(count & !1u64 == count - count % 2 && (count & !1u64) % 2 == 0) by (bit_vector);
    assert(count & !3u64 == count - count % 4 && (count & !3u64) % 4 == 0) by (bit_vector);
    assert(count & !7u64 == count - count % 8 && (count & !7u64) % 8 == 0) by (bit_vector);
    assert(count & !15u64 == count - count % 16 && (count & !15u64) % 16 == 0) by (bit_vector);
    assert(count & !31u64 == count - count % 32 && (count & !31u64) % 32 == 0) by (bit_vector);
    assert(count & !63u64 == count - count % 64 && (count & !63u64) % 64 == 0) by (bit_vector);
}

proof fn lemma_iterations_join(
    m: Machine,
    f: Function,
    c: CandidateView,
    memory: Memory,
    start: int,
    first: nat,
    second: nat,
)
    ensures
        scalar_iterations(
            m,
            f,
            c,
            scalar_iterations(m, f, c, memory, start, first),
            start + first,
            second,
        ) == scalar_iterations(m, f, c, memory, start, first + second),
    decreases second,
{
    if second > 0 {
        lemma_iterations_join(m, f, c, memory, start, first, (second - 1) as nat);
    }
}

/// The latch of an accepted loop lets it go on until the trip count is reached.
proof fn lemma_latch(m: Machine, f: Function, c: CandidateView, plan: Plan, next: int)
    requires
        f.wf(),
        c.shape.header < f.blocks@.len(),
        is_loop_header(f, c.shape.header),
        is_accepted(f, c, plan),
        0 < next <= (m.invariant)(c.shape.trip_count),
    ensures
        continues(m, f, c, next) <==> next < (m.invariant)(c.shape.trip_count),
{
    let header = c.shape.header;
    lemma_induction_is_valid(f, header);
    let phi = c.shape.induction;
    let induction_next = c.shape.induction_next;
    assert(f.value_is_valid(phi));
    assert(f.has_value(f.inst(phi).operands@[0]) && f.has_value(f.inst(phi).operands@[1]));
    assert(f.has_value(induction_next));
    assert(f.uses_are_listed(induction_next));
    assert(f.value_is_valid(induction_next));
    let operands = f.inst(induction_next).operands@;
    assert(operands[0] == phi || operands[1] == phi);
    let users = f.values@[phi as int].users@;
    assert(users.contains(induction_next));
    let j = users.index_of(induction_next);
    let k = f.body(header).index_of(phi);
    assert(f.in_block(f.values@[f.body(header)[k] as int].users@[j], header));
    assert(c.shape.trip_count != induction_next);
}

proof fn lemma_scalar_loop_counts(
    m: Machine,
    f: Function,
    c: CandidateView,
    memory: Memory,
    start: int,
    limit: nat,
)
    requires
        0 <= start < (m.invariant)(c.shape.trip_count) < word(),
        (m.invariant)(c.shape.trip_count) - start <= limit,
        forall|next: int|
            0 < next <= (m.invariant)(c.shape.trip_count) ==> (#[trigger] continues(
                m,
                f,
                c,
                next,
            ) <==> next < (m.invariant)(c.shape.trip_count)),
    ensures
        scalar_loop(m, f, c, memory, start, limit) == scalar_iterations(
            m,
            f,
            c,
            memory,
            start,
            ((m.invariant)(c.shape.trip_count) - start) as nat,
        ),
    decreases limit,
{
    let n = (m.invariant)(c.shape.trip_count);
    let after = scalar_iteration(m, f, c, memory, start);
    assert(scalar_iterations(m, f, c, memory, start, 1) == after) by {
        reveal_with_fuel(scalar_iterations, 2);
    }
    if start + 1 < n {
        lemma_scalar_loop_counts(m, f, c, after, start + 1, (limit - 1) as nat);
        lemma_iterations_join(m, f, c, memory, start, 1, (n - start - 1) as nat);
    }
}

/// The scalar loop, entered below the trip count, runs exactly the iterations
/// from there up to the trip count.
pub proof fn law_scalar_loop_counts(
    m: Machine,
    f: Function,
    c: CandidateView,
    plan: Plan,
    memory: Memory,
    start: int,
    limit: nat,
)
    requires
        f.wf(),
        c.shape.header < f.blocks@.len(),
        is_loop_header(f, c.shape.header),
        is_accepted(f, c, plan),
        0 <= start < (m.invariant)(c.shape.trip_count) < word(),
        (m.invariant)(c.shape.trip_count) - start <= limit,
    ensures
        scalar_loop(m, f, c, memory, start, limit) == scalar_iterations(
            m,
            f,
            c,
            memory,
            start,
            ((m.invariant)(c.shape.trip_count) - start) as nat,
        ),
{
    assert forall|next: int| 0 < next <= (m.invariant)(c.shape.trip_count) implies (
    #[trigger] continues(m, f, c, next) <==> next < (m.invariant)(c.shape.trip_count)) by {
        lemma_latch(m, f, c, plan, next);
    }
    lemma_scalar_loop_counts(m, f, c, memory, start, limit);
}

proof fn lemma_run_keeps_outcomes(
    m: Machine,
    vf: nat,
    start: int,
    e: Execution,
    steps: Seq<Step>,
)
    ensures
        run_steps(m, vf, start, e, steps).outcomes.len() == e.outcomes.len() + steps.len(),
        forall|i: int|
            0 <= i < e.outcomes.len() ==> #[trigger] run_steps(
                m,
                vf,
                start,
                e,
                steps,
            ).outcomes[i] == e.outcomes[i],
    decreases steps.len(),
{
    if steps.len() > 0 {
        lemma_run_keeps_outcomes(m, vf, start, e, steps.drop_last());
    }
}

proof fn lemma_run_join(
    m: Machine,
    vf: nat,
    start: int,
    e: Execution,
    first: Seq<Step>,
    second: Seq<Step>,
)
    ensures
        run_steps(m, vf, start, e, first + second) == run_steps(
            m,
            vf,
            start,
            run_steps(m, vf, start, e, first),
            second,
        ),
    decreases second.len(),
{
    if second.len() == 0 {
        assert(first + second =~= first);
    } else {
        lemma_run_join(m, vf, start, e, first, second.drop_last());
        assert((first + second).drop_last() =~= first + second.drop_last());
    }
}

proof fn lemma_run_three(
    m: Machine,
    vf: nat,
    start: int,
    e: Execution,
    a: Step,
    b: Step,
    c: Step,
)
    ensures
        run_steps(m, vf, start, e, seq![a, b, c]) == run_step(
            m,
            vf,
            start,
            run_step(m, vf, start, run_step(m, vf, start, e, a), b),
            c,
        ),
{
    reveal_with_fuel(run_steps, 4);
    assert(seq![a, b, c].drop_last() =~= seq![a, b]);
    assert(seq![a, b].drop_last() =~= seq![a]);
    assert(seq![a].drop_last() =~= Seq::<Step>::empty());
}

proof fn lemma_run_two(m: Machine, vf: nat, start: int, e: Execution, a: Step, b: Step)
    ensures
        run_steps(m, vf, start, e, seq![a, b]) == run_step(
            m,
            vf,
            start,
            run_step(m, vf, start, e, a),
            b,
        ),
{
    reveal_with_fuel(run_steps, 3);
    assert(seq![a, b].drop_last() =~= seq![a]);
    assert(seq![a].drop_last() =~= Seq::<Step>::empty());
}

/// The end of the vector body steps the index by the factor, and leaves the
/// loop when the vector trip count is reached.
proof fn lemma_latch_steps(m: Machine, vf: u32, start: int, e: Execution, first: usize, trip: int)
    requires
        first == e.outcomes.len(),
        first > INDEX_PHI,
        first < 1000,
        e.outcomes[INDEX_PHI as int] == Outcome::Word(start),
        e.outcomes[VECTOR_TRIP as int] == Outcome::Word(trip),
        0 <= start,
        start + vf < word(),
    ensures
        ({
            let after = run_steps(m, vf as nat, start, e, latch_steps(first, vf));
            &&& after.memory == e.memory
            &&& after.outcomes.len() == first + 3
            &&& after.outcomes[VECTOR_TRIP as int] == Outcome::Word(trip)
            &&& after.outcomes[first as int] == Outcome::Word(start + vf)
            &&& after.outcomes[first + 1] == Outcome::Flag(start + vf == trip)
        }),
{
    let s = latch_steps(first, vf);
    assert(s =~= seq![s[0], s[1], s[2]]);
    lemma_run_three(m, vf as nat, start, e, s[0], s[1], s[2]);
    let a = run_step(m, vf as nat, start, e, s[0]);
    assert(a.outcomes[first as int] == Outcome::Word(start + vf));
    let b = run_step(m, vf as nat, start, a, s[1]);
    assert(b.outcomes[first + 1] == Outcome::Flag(start + vf == trip));
}

/// One pass through the vector body runs one vector of iterations and steps the
/// index by the factor; it ends the loop when the vector trip count is reached.
proof fn lemma_vector_pass(
    m: Machine,
    f: Function,
    c: CandidateView,
    plan: Plan,
    r: Rewrite,
    entry: Execution,
    start: int,
    trip: int,
)
    requires
        f.wf(),
        c.shape.header < f.blocks@.len(),
        is_loop_header(f, c.shape.header),
        is_accepted(f, c, plan),
        is_rewrite(f, c, plan, r),
        objects_are_laid_out(m, f),
        entry.outcomes.len() == INDEX_PHI,
        entry.outcomes[VECTOR_TRIP as int] == Outcome::Word(trip),
        0 <= start,
        start + plan.vf <= trip < word(),
    ensures
        ({
            let vf = plan.vf as nat;
            let e = run_steps(m, vf, start, entry, r.vector_body@);
            &&& e.memory == scalar_iterations(m, f, c, entry.memory, start, vf)
            &&& e.outcomes.len() == INDEX_PHI + r.vector_body@.len()
            &&& e.outcomes[VECTOR_TRIP as int] == Outcome::Word(trip)
            &&& operand_outcome(m, vf, e.outcomes, r.index_back_edge.value) == Outcome::Word(
                start + vf,
            )
            &&& destination(m, vf, e, r.vector_body@) == (if start + vf == trip {
                Target::New(NewBlock::VectorExit)
            } else {
                Target::New(NewBlock::VectorBody)
            })
        }),
{
    let vf = plan.vf as nat;
    let header = c.shape.header;
    let n = f.body(header).len();
    let body = lowered_body(f, c, n);
    let latch = latch_steps(body.next(), plan.vf);
    assert(f.block_is_valid(header));
    lemma_widened_values(f, c, n);
    law_vector_body_runs_lanes(m, f, c, plan, start, entry);
    law_lanes_are_iterations(m, f, c, plan, start, vf, entry.memory);
    let e = run_steps(m, vf, start, entry, body.steps);
    lemma_run_keeps_outcomes(m, vf, start, entry, body.steps);
    assert(e.outcomes[VECTOR_TRIP as int] == Outcome::Word(trip));
    lemma_run_join(m, vf, start, entry, body.steps, latch);
    lemma_latch_steps(m, plan.vf, start, e, body.next(), trip);
    assert(r.vector_body@.last() == latch[2]);
}

/// The vector loop runs the iterations of whole vectors, each exactly once.
proof fn lemma_vector_loop(
    m: Machine,
    f: Function,
    c: CandidateView,
    plan: Plan,
    r: Rewrite,
    entry: Execution,
    start: int,
    trip: int,
    limit: nat,
)
    requires
        f.wf(),
        c.shape.header < f.blocks@.len(),
        is_loop_header(f, c.shape.header),
        is_accepted(f, c, plan),
        is_rewrite(f, c, plan, r),
        objects_are_laid_out(m, f),
        entry.outcomes.len() == INDEX_PHI,
        entry.outcomes[VECTOR_TRIP as int] == Outcome::Word(trip),
        plan.vf > 0,
        0 <= start < trip < word(),
        (trip - start) % (plan.vf as int) == 0,
        trip - start <= limit,
    ensures
        ({
            let e = vector_loop(m, r, entry, start, limit);
            &&& e.memory == scalar_iterations(
                m,
                f,
                c,
                entry.memory,
                start,
                (trip - start) as nat,
            )
            &&& e.outcomes.len() == INDEX_PHI + r.vector_body@.len()
            &&& e.outcomes[VECTOR_TRIP as int] == Outcome::Word(trip)
        }),
    decreases limit,
{
    let vf = plan.vf as nat;
    assert(trip - start >= vf) by {
        if trip - start < vf {
            vstd::arithmetic::div_mod::lemma_small_mod((trip - start) as nat, vf);
        }
    }
    lemma_vector_pass(m, f, c, plan, r, entry, start, trip);
    let e = run_steps(m, vf, start, entry, r.vector_body@);
    if start + vf != trip {
        assert((trip - (start + vf)) % (vf as int) == 0) by {
            vstd::arithmetic::div_mod::lemma_mod_sub_multiples_vanish(trip - start, vf as int);
            assert((trip - start - vf) == trip - (start + vf));
        }
        let again = Execution { memory: e.memory, outcomes: entry.outcomes };
        lemma_vector_loop(m, f, c, plan, r, again, start + vf, trip, (limit - 1) as nat);
        lemma_iterations_join(
            m,
            f,
            c,
            entry.memory,
            start,
            vf,
            (trip - (start + vf)) as nat,
        );
    }
}

/// What the analysis settles about the factor of an accepted loop, and the trip
/// count below which it stays scalar.
proof fn lemma_accepted_factor(f: Function, c: CandidateView, plan: Plan)
    requires
        is_accepted(f, c, plan),
    ensures
        supported_vf(plan.vf as nat),
        plan.vf <= c.minimum_trip_count <= 256,
{
    let config = choose|config: PassConfig| #[trigger]
        analysis(f, c.shape.header, config) == Ok::<(CandidateView, Plan), Rejection>((c, plan));
    assert(c.minimum_trip_count == config.spec_minimum_trip_count(plan.vf as nat));
}

/// A loop that is long enough for the dispatch block fills at least one vector:
/// the vector loop is never entered for nothing.
pub proof fn law_vector_loop_has_work(f: Function, c: CandidateView, plan: Plan, count: u64)
    requires
        is_accepted(f, c, plan),
        count >= c.minimum_trip_count,
    ensures
        count & trip_mask(plan.vf) >= plan.vf > 0,
{
    lemma_accepted_factor(f, c, plan);
    law_trip_mask(count, plan.vf);
    let trip = count & trip_mask(plan.vf);
    if trip < plan.vf {
        vstd::arithmetic::div_mod::lemma_small_mod(trip as nat, plan.vf as nat);
    }
}

/// The dispatch block computes the vector trip count and enters the vector loop
/// if the trip count is not too short.
proof fn lemma_dispatch(m: Machine, c: CandidateView, vf: u32, memory: Memory)
    requires
        supported_vf(vf as nat),
        c.minimum_trip_count <= 256,
        0 <= (m.invariant)(c.shape.trip_count) < word(),
    ensures
        ({
            let n = (m.invariant)(c.shape.trip_count);
            let steps = dispatch_steps(c, vf);
            let e = run_steps(
                m,
                vf as nat,
                0,
                Execution { memory, outcomes: Seq::empty() },
                steps,
            );
            &&& e.memory == memory
            &&& e.outcomes.len() == INDEX_PHI
            &&& e.outcomes[VECTOR_TRIP as int] == Outcome::Word(
                ((n as u64) & trip_mask(vf)) as int,
            )
            &&& destination(m, vf as nat, e, steps) == (if n >= c.minimum_trip_count {
                Target::New(NewBlock::VectorBody)
            } else {
                Target::Existing(c.shape.header)
            })
        }),
{
    let n = (m.invariant)(c.shape.trip_count);
    let none = Execution { memory, outcomes: Seq::empty() };
    let s = dispatch_steps(c, vf);
    assert(s =~= seq![s[0], s[1], s[2]]);
    lemma_run_three(m, vf as nat, 0, none, s[0], s[1], s[2]);
    let a = run_step(m, vf as nat, 0, none, s[0]);
    assert(a.outcomes[0] == Outcome::Flag(n >= c.minimum_trip_count));
    let b = run_step(m, vf as nat, 0, a, s[1]);
    assert(b.outcomes[1] == Outcome::Word(((n as u64) & trip_mask(vf)) as int));
}

/// The vector exit leads to the scalar loop if a remainder is left.
proof fn lemma_exit(m: Machine, c: CandidateView, vf: nat, body: Execution, first: usize, trip: int)
    requires
        first == body.outcomes.len(),
        first > INDEX_PHI,
        first < 2000,
        body.outcomes[VECTOR_TRIP as int] == Outcome::Word(trip),
        c.shape.header != c.shape.exit,
    ensures
        ({
            let steps = exit_steps(c, first);
            let e = run_steps(m, vf, 0, body, steps);
            &&& e.memory == body.memory
            &&& e.outcomes[VECTOR_TRIP as int] == Outcome::Word(trip)
            &&& destination(m, vf, e, steps) == Target::Existing(c.shape.header) <==> trip
                != (m.invariant)(c.shape.trip_count)
        }),
{
    let s = exit_steps(c, first);
    assert(s =~= seq![s[0], s[1]]);
    lemma_run_two(m, vf, 0, body, s[0], s[1]);
    let a = run_step(m, vf, 0, body, s[0]);
    assert(a.outcomes[first as int] == Outcome::Flag(
        trip != (m.invariant)(c.shape.trip_count),
    ));
}

/// The instructions of a rewrite are numbered without gaps.
proof fn lemma_lengths(f: Function, c: CandidateView, plan: Plan, r: Rewrite)
    requires
        f.wf(),
        c.shape.header < f.blocks@.len(),
        is_loop_header(f, c.shape.header),
        is_accepted(f, c, plan),
        is_rewrite(f, c, plan, r),
    ensures
        r.vector_exit@ == exit_steps(c, (INDEX_PHI + r.vector_body@.len()) as usize),
        0 < r.vector_body@.len() < 1000,
        c.shape.header != c.shape.exit,
{
    let n = f.body(c.shape.header).len();
    assert(f.block_is_valid(c.shape.header));
    lemma_widened_values(f, c, n);
}

/// The rewritten loop leaves the memory that the scalar loop leaves, whatever
/// the trip count is at run time, provided that objects lie as the function
/// promises. Every iteration runs exactly once, in whole vectors or in the
/// remainder; loops that are too short run in the scalar loop.
pub proof fn law_rewrite_preserves_memory(
    m: Machine,
    f: Function,
    c: CandidateView,
    plan: Plan,
    r: Rewrite,
    memory: Memory,
)
    requires
        f.wf(),
        c.shape.header < f.blocks@.len(),
        is_loop_header(f, c.shape.header),
        is_accepted(f, c, plan),
        is_rewrite(f, c, plan, r),
        objects_are_laid_out(m, f),
        0 <= (m.invariant)(c.shape.trip_count) < word(),
    ensures
        rewritten_loop(m, f, c, r, memory) == scalar_loop(
            m,
            f,
            c,
            memory,
            0,
            word() as nat,
        ),
{
    let vf = plan.vf as nat;
    let n = (m.invariant)(c.shape.trip_count);
    let limit = word() as nat;
    let trip = ((n as u64) & trip_mask(plan.vf)) as int;
    lemma_accepted_factor(f, c, plan);
    lemma_dispatch(m, c, plan.vf, memory);
    law_trip_mask(n as u64, plan.vf);
    if n >= c.minimum_trip_count {
        let none = Execution { memory, outcomes: Seq::empty() };
        let dispatch = run_steps(m, vf, 0, none, r.dispatch@);
        law_vector_loop_has_work(f, c, plan, n as u64);
        lemma_vector_loop(m, f, c, plan, r, dispatch, 0, trip, limit);
        let body = vector_loop(m, r, dispatch, 0, limit);
        lemma_lengths(f, c, plan, r);
        lemma_exit(m, c, vf, body, (INDEX_PHI + r.vector_body@.len()) as usize, trip);
        law_scalar_loop_counts(m, f, c, plan, memory, 0, limit);
        if trip != n {
            law_scalar_loop_counts(m, f, c, plan, body.memory, trip, limit);
            lemma_iterations_join(m, f, c, memory, 0, trip as nat, (n - trip) as nat);
        }
    }
}

/// Whatever the analysis accepts and the lowering makes of it, the rewritten
/// loop leaves the memory that the scalar loop leaves.
pub proof fn law_vectorized_loops_are_equivalent(
    m: Machine,
    f: Function,
    header: BlockId,
    config: PassConfig,
    r: Rewrite,
    memory: Memory,
)
    requires
        f.wf(),
        header < f.blocks@.len(),
        is_loop_header(f, header),
        analysis(f, header, config) matches Ok((c, plan)) && is_rewrite(f, c, plan, r) && 0 <= (
        m.invariant)(c.shape.trip_count) < word(),
        objects_are_laid_out(m, f),
    ensures
        analysis(f, header, config) matches Ok((c, plan)) && rewritten_loop(m, f, c, r, memory)
            == scalar_loop(m, f, c, memory, 0, word() as nat),
{
    let (c, plan) = analysis(f, header, config)->Ok_0;
    assert(c.shape.header == header);
    assert(is_accepted(f, c, plan));
    law_rewrite_preserves_memory(m, f, c, plan, r, memory);
}

} // verus!
