//! The complete legality and profitability analysis of one loop.

use crate::body::{
    address_rejection, collect_index_helpers, index_helpers, survey_body, totals, Totals,
};
use crate::config::PassConfig;
use crate::cost::{choose_plan, planned, supported_vf, LoopCosts, Plan};
use crate::ir::{BlockId, Function, PackedLayout, ValueId};
use crate::memory::{dependences, validate_dependences, MemoryAccess};
use crate::recognize::{
    discover_single_block_loop_headers, ends_in_branch, is_loop_header, unique_entry,
};
use crate::rejection::{first_rejection, Rejection};
use crate::shape::{loop_shape, recognize_loop, LoopShape, MAX_BODY_INSTRUCTIONS};
use crate::widening::{
    induction_is_data, needs_lane_indices, validate_widening_order, widening_order,
};
use std::collections::HashSet;
use vstd::prelude::*;

verus! {

/// The trip count that stands for one that is not a constant.
pub const ESTIMATED_DYNAMIC_TRIP_COUNT: u64 = 64;

/// The most loads and stores that a candidate body has.
pub const MAX_MEMORY_ACCESSES: usize = 24;

/// The cost of entering the vector loop.
pub const SETUP_COST: u64 = 6;

/// A loop that can be vectorized.
pub struct Candidate {
    pub shape: LoopShape,
    /// The index helpers, which serve addresses only.
    pub address_only: HashSet<ValueId>,
    /// Whether the induction is used as data.
    pub widen_induction: bool,
    /// The trip count below which the scalar loop runs.
    pub minimum_trip_count: u64,
}

/// A loop that can be vectorized, as mathematical values.
pub ghost struct CandidateView {
    pub shape: LoopShape,
    pub address_only: Set<ValueId>,
    pub widen_induction: bool,
    pub minimum_trip_count: nat,
}

impl View for Candidate {
    type V = CandidateView;

    open spec fn view(&self) -> CandidateView {
        CandidateView {
            shape: self.shape,
            address_only: self.address_only@,
            widen_induction: self.widen_induction,
            minimum_trip_count: self.minimum_trip_count as nat,
        }
    }
}

/// The trip count that planning assumes.
pub open spec fn estimated_trip_count(f: Function, trip_count: ValueId) -> nat {
    match f.unsigned_constant(trip_count) {
        Some(count) => count as nat,
        None => ESTIMATED_DYNAMIC_TRIP_COUNT as nat,
    }
}

/// `vf` elements of an access are known to have the layout of one vector.
pub open spec fn is_packed(f: Function, access: MemoryAccess, vf: u32) -> bool {
    f.packed_layouts@.contains(
        PackedLayout { base: access.base, element_type: access.element_type, vf },
    )
}

/// The memory part of the analysis: bounds and dependences.
pub open spec fn memory_legality(f: Function, memory: Seq<MemoryAccess>) -> Result<(), Rejection> {
    if memory.len() == 0 {
        Err(Rejection::NoMemoryAccess)
    } else if memory.len() > MAX_MEMORY_ACCESSES {
        Err(Rejection::MemoryAccessBudgetExceeded)
    } else {
        dependences(f, memory)
    }
}

/// The planning part of the analysis: profitability and target layout.
pub open spec fn plan_for(
    f: Function,
    trip_count: ValueId,
    bits: u32,
    cost: nat,
    memory: Seq<MemoryAccess>,
    config: PassConfig,
) -> Result<Plan, Rejection> {
    match planned(
        config,
        bits as nat,
        estimated_trip_count(f, trip_count),
        LoopCosts {
            scalar_iteration: cost as u64,
            vector_iteration: cost as u64,
            setup: SETUP_COST,
        },
    ) {
        None => Err(Rejection::NotProfitable),
        Some(plan) => if forall|k: int|
            0 <= k < memory.len() ==> is_packed(f, #[trigger] memory[k], plan.vf) {
            Ok(plan)
        } else {
            Err(Rejection::IncompatibleTargetMemoryLayout)
        },
    }
}

/// The outcome of analyzing the loop at `header`: a candidate with its plan, or
/// the first reason, in order, for leaving it scalar.
pub open spec fn analysis(f: Function, header: BlockId, config: PassConfig) -> Result<
    (CandidateView, Plan),
    Rejection,
> {
    let count = f.body(header).len();
    match loop_shape(f, header) {
        Err(rejection) => Err(rejection),
        Ok(shape) => {
            let helpers = index_helpers(f, shape, count);
            let widen_induction = needs_lane_indices(f, shape, helpers);
            match first_rejection(|k: int| address_rejection(f, shape, k), count) {
                Err(rejection) => Err(rejection),
                Ok(()) => match totals(f, shape, helpers, count) {
                    Err(rejection) => Err(rejection),
                    Ok(t) => match memory_legality(f, t.memory) {
                        Err(rejection) => Err(rejection),
                        Ok(()) => match widening_order(f, shape, helpers, widen_induction) {
                            Err(rejection) => Err(rejection),
                            Ok(()) => match plan_for(
                                f,
                                shape.trip_count,
                                t.bits,
                                t.cost,
                                t.memory,
                                config,
                            ) {
                                Err(rejection) => Err(rejection),
                                Ok(plan) => Ok(
                                    (
                                        CandidateView {
                                            shape,
                                            address_only: helpers,
                                            widen_induction,
                                            minimum_trip_count: config.spec_minimum_trip_count(
                                                plan.vf as nat,
                                            ),
                                        },
                                        plan,
                                    ),
                                ),
                            },
                        },
                    },
                },
            }
        },
    }
}

fn check_memory(f: &Function, memory: &Vec<MemoryAccess>) -> (result: Result<(), Rejection>)
    requires
        forall|k: int| 0 <= k < memory@.len() ==> f.has_value((#[trigger] memory@[k]).base),
    ensures
        result == memory_legality(*f, memory@),
{
    if memory.len() == 0 {
        return Err(Rejection::NoMemoryAccess);
    }
    if memory.len() > MAX_MEMORY_ACCESSES {
        return Err(Rejection::MemoryAccessBudgetExceeded);
    }
    validate_dependences(f, memory)
}

fn check_packed(f: &Function, access: MemoryAccess, vf: u32) -> (result: bool)
    ensures
        result == is_packed(*f, access, vf),
{
    let wanted = PackedLayout { base: access.base, element_type: access.element_type, vf };
    let mut k: usize = 0;
    while k < f.packed_layouts.len()
        invariant
            k <= f.packed_layouts@.len(),
            wanted == (PackedLayout {
                base: access.base,
                element_type: access.element_type,
                vf,
            }),
            forall|j: int| 0 <= j < k ==> #[trigger] f.packed_layouts@[j] != wanted,
        decreases f.packed_layouts@.len() - k,
    {
        if f.packed_layouts[k] == wanted {
            assert(f.packed_layouts@[k as int] == wanted);
            return true;
        }
        k += 1;
    }
    false
}

fn make_plan(
    f: &Function,
    trip_count: ValueId,
    t: &Totals,
    config: PassConfig,
) -> (result: Result<Plan, Rejection>)
    requires
        f.has_value(trip_count),
    ensures
        result == plan_for(*f, trip_count, t.bits, t.cost as nat, t.memory@, config),
{
    let estimated: u64 = match f.constant_unsigned(trip_count) {
        Some(count) => count,
        None => ESTIMATED_DYNAMIC_TRIP_COUNT,
    };
    let costs = LoopCosts {
        scalar_iteration: t.cost,
        vector_iteration: t.cost,
        setup: SETUP_COST,
    };
    let plan: Plan = match choose_plan(config, t.bits, estimated, costs) {
        Some(plan) => plan,
        None => return Err(Rejection::NotProfitable),
    };
    let mut k: usize = 0;
    while k < t.memory.len()
        invariant
            k <= t.memory@.len(),
            forall|j: int| 0 <= j < k ==> is_packed(*f, #[trigger] t.memory@[j], plan.vf),
            planned(
                config,
                t.bits as nat,
                estimated_trip_count(*f, trip_count),
                costs,
            ) == Some(plan),
            costs == (LoopCosts {
                scalar_iteration: t.cost,
                vector_iteration: t.cost,
                setup: SETUP_COST,
            }),
        decreases t.memory@.len() - k,
    {
        if !check_packed(f, t.memory[k], plan.vf) {
            assert(!is_packed(*f, t.memory@[k as int], plan.vf));
            return Err(Rejection::IncompatibleTargetMemoryLayout);
        }
        k += 1;
    }
    Ok(plan)
}

/// Analyzes the loop at `header`. Whatever it decides, nothing has been changed
/// yet.
pub fn analyze_candidate(f: &Function, header: BlockId, config: PassConfig) -> (result: Result<
    (Candidate, Plan),
    Rejection,
>)
    requires
        f.wf(),
        header < f.blocks@.len(),
        is_loop_header(*f, header),
    ensures
        match result {
            Ok((candidate, plan)) => analysis(*f, header, config) == Ok::<
                (CandidateView, Plan),
                Rejection,
            >((candidate@, plan)),
            Err(rejection) => analysis(*f, header, config) == Err::<
                (CandidateView, Plan),
                Rejection,
            >(rejection),
        },
{
    let shape: LoopShape = match recognize_loop(f, header) {
        Ok(shape) => shape,
        Err(rejection) => return Err(rejection),
    };
    let address_only: HashSet<ValueId> = match collect_index_helpers(f, shape) {
        Ok(helpers) => helpers,
        Err(rejection) => return Err(rejection),
    };
    let t: Totals = match survey_body(f, shape, &address_only) {
        Ok(t) => t,
        Err(rejection) => return Err(rejection),
    };
    match check_memory(f, &t.memory) {
        Ok(()) => {},
        Err(rejection) => return Err(rejection),
    }
    let widen_induction: bool = induction_is_data(f, shape, &address_only);
    match validate_widening_order(f, shape, &address_only, widen_induction) {
        Ok(()) => {},
        Err(rejection) => return Err(rejection),
    }
    let plan: Plan = match make_plan(f, shape.trip_count, &t, config) {
        Ok(plan) => plan,
        Err(rejection) => return Err(rejection),
    };
    let candidate = Candidate {
        shape,
        address_only,
        widen_induction,
        minimum_trip_count: config.minimum_trip_count(plan.vf),
    };
    Ok((candidate, plan))
}

/// The loops of a function that are analyzed: none if it asks not to be
/// optimized, else its one-block loops in order.
pub fn loops_to_visit(f: &Function) -> (headers: Vec<BlockId>)
    requires
        f.wf(),
    ensures
        forall|b: BlockId| #[trigger]
            headers@.contains(b) <==> !f.optnone && b < f.blocks@.len() && is_loop_header(*f, b),
        forall|j: int, k: int|
            0 <= j < k < headers@.len() ==> #[trigger] headers@[j] < #[trigger] headers@[k],
{
    if f.optnone {
        Vec::new()
    } else {
        discover_single_block_loop_headers(f)
    }
}

proof fn lemma_memory_is_counted(f: Function, shape: LoopShape, helpers: Set<ValueId>, count: nat)
    ensures
        totals(f, shape, helpers, count) matches Ok(t) ==> t.memory.len() > 0 ==> t.cost > 0
            && t.bits >= 8,
    decreases count,
{
    if count > 0 {
        lemma_memory_is_counted(f, shape, helpers, (count - 1) as nat);
    }
}

/// What the analysis promises about every loop that it accepts: the body, the
/// number of accesses and that of their pairs are within bounds, there is work to do, the planned
/// factor is supported and no larger than the trip count below which the loop
/// stays scalar, and every access is packed at that factor.
pub proof fn law_accepted_loops_are_bounded(f: Function, header: BlockId, config: PassConfig)
    requires
        analysis(f, header, config) is Ok,
    ensures
        ({
            let (c, plan) = analysis(f, header, config)->Ok_0;
            let t = totals(f, c.shape, c.address_only, f.body(header).len())->Ok_0;
            &&& c.shape.header == header
            &&& f.body(header).len() <= MAX_BODY_INSTRUCTIONS
            &&& 0 < t.memory.len() <= MAX_MEMORY_ACCESSES
            &&& t.memory.len() * (t.memory.len() - 1) / 2 <= 276
            &&& t.cost > 0
            &&& t.bits >= 8
            &&& supported_vf(plan.vf as nat)
            &&& plan.vf <= c.minimum_trip_count
            &&& forall|k: int|
                0 <= k < t.memory.len() ==> is_packed(f, #[trigger] t.memory[k], plan.vf)
        }),
{
    let (c, plan) = analysis(f, header, config)->Ok_0;
    lemma_memory_is_counted(f, c.shape, c.address_only, f.body(header).len());
    let count = totals(f, c.shape, c.address_only, f.body(header).len())->Ok_0.memory.len() as int;
    assert(count * (count - 1) <= 24 * 23) by (nonlinear_arith)
        requires
            1 <= count <= 24,
    ;
}

/// Exactly one edge leads into an accepted loop from outside, and it belongs to
/// an ordinary branch, so that it can be led elsewhere.
pub proof fn law_accepted_loops_have_one_entry(f: Function, header: BlockId, config: PassConfig)
    requires
        analysis(f, header, config) is Ok,
    ensures
        ({
            let (c, plan) = analysis(f, header, config)->Ok_0;
            &&& unique_entry(f, header, c.shape.preheader, c.shape.preheader_successor_index)
            &&& ends_in_branch(f, c.shape.preheader)
        }),
{
}

/// Nothing that an accepted loop computes is used outside of it.
pub proof fn law_accepted_values_stay_inside(
    f: Function,
    header: BlockId,
    config: PassConfig,
    user: ValueId,
    k: int,
)
    requires
        f.wf(),
        analysis(f, header, config) is Ok,
        f.has_value(user),
        f.is_instruction(user),
        0 <= k < f.inst(user).operands@.len(),
        f.body(header).contains(f.operand(user, k)),
    ensures
        f.in_block(user, header),
{
    let v = f.inst(user).operands@[k];
    assert(f.uses_are_listed(user));
    let i = f.body(header).index_of(v);
    let j = f.values@[v as int].users@.index_of(user);
    assert(f.in_block(f.values@[f.body(header)[i] as int].users@[j], header));
}

} // verus!
