//! Vector-factor selection and the scalar/vector cost comparison.

use crate::config::{Heuristic, PassConfig};
use vstd::prelude::*;

verus! {

/// Cost units of one scalar iteration, one vector iteration and the setup.
#[derive(Clone, Copy, Debug, PartialEq, Eq, Structural)]
pub struct LoopCosts {
    pub scalar_iteration: u64,
    pub vector_iteration: u64,
    pub setup: u64,
}

/// A vector factor together with the estimate that justified it.
#[derive(Clone, Copy, Debug, PartialEq, Eq, Structural)]
pub struct Plan {
    pub vf: u32,
    pub scalar_cost: u64,
    pub vector_cost: u64,
    /// The percentage of scalar iterations that full vectors cover.
    pub utilization_x100: u64,
}

/// The largest power of two that does not exceed `limit` (one, below two).
pub open spec fn largest_power_of_two(limit: nat) -> nat
    decreases limit,
{
    if limit < 2 {
        1
    } else {
        2 * largest_power_of_two(limit / 2)
    }
}

/// The vector factors that the pass can lower.
pub open spec fn supported_vf(vf: nat) -> bool {
    vf == 2 || vf == 4 || vf == 8 || vf == 16 || vf == 32 || vf == 64
}

/// The factor that a configuration proposes for elements of `element_bits`.
pub open spec fn candidate_vf(config: PassConfig, element_bits: nat) -> nat {
    match config.forced_vf {
        Some(vf) => vf as nat,
        None => largest_power_of_two(128nat / element_bits),
    }
}

/// The estimated cost of running every iteration in the scalar loop.
pub open spec fn scalar_loop_cost(trip_count: nat, costs: LoopCosts) -> nat {
    trip_count * costs.scalar_iteration as nat
}

/// The estimated cost of full vectors plus a scalar remainder.
pub open spec fn vector_loop_cost(trip_count: nat, vf: nat, costs: LoopCosts) -> nat {
    costs.setup as nat + (trip_count / vf) * costs.vector_iteration as nat + (trip_count % vf)
        * costs.scalar_iteration as nat
}

/// Whether the estimated gain meets the policy; a forced width skips this test.
pub open spec fn profitable(
    config: PassConfig,
    trip_count: nat,
    vf: nat,
    costs: LoopCosts,
) -> bool {
    config.forced_vf is Some || 100 * scalar_loop_cost(trip_count, costs)
        >= config.heuristic.required_percent() * vector_loop_cost(trip_count, vf, costs)
}

/// A cost as a plan records it, capped at the largest word.
pub open spec fn recorded_cost(cost: nat) -> u64 {
    if cost > u64::MAX {
        u64::MAX
    } else {
        cost as u64
    }
}

/// The plan for a loop, or none if it should stay scalar.
pub open spec fn planned(
    config: PassConfig,
    element_bits: nat,
    trip_count: nat,
    costs: LoopCosts,
) -> Option<Plan> {
    let vf = candidate_vf(config, element_bits);
    if element_bits == 0 || trip_count == 0 || costs.scalar_iteration == 0 {
        None
    } else if !supported_vf(vf) || trip_count < config.spec_minimum_trip_count(vf) {
        None
    } else if !profitable(config, trip_count, vf, costs) {
        None
    } else {
        Some(
            Plan {
                vf: vf as u32,
                scalar_cost: recorded_cost(scalar_loop_cost(trip_count, costs)),
                vector_cost: recorded_cost(vector_loop_cost(trip_count, vf, costs)),
                utilization_x100: (100 * (trip_count / vf * vf) / trip_count) as u64,
            },
        )
    }
}

/// The largest power of two is one, and doubling it overshoots the limit.
pub proof fn law_largest_power_of_two(limit: nat)
    requires
        limit >= 1,
    ensures
        exists|k: nat| largest_power_of_two(limit) == #[trigger] vstd::arithmetic::power2::pow2(k),
        largest_power_of_two(limit) <= limit < 2 * largest_power_of_two(limit),
    decreases limit,
{
    if limit < 2 {
        vstd::arithmetic::power2::lemma2_to64();
        assert(largest_power_of_two(limit) == vstd::arithmetic::power2::pow2(0));
    } else {
        law_largest_power_of_two(limit / 2);
        let k = choose|k: nat|
            largest_power_of_two(limit / 2) == #[trigger] vstd::arithmetic::power2::pow2(k);
        vstd::arithmetic::power2::lemma_pow2_unfold(k + 1);
        assert(largest_power_of_two(limit) == vstd::arithmetic::power2::pow2(k + 1));
    }
}

fn round_down_to_power_of_two(limit: u32) -> (result: u32)
    ensures
        result == largest_power_of_two(limit as nat),
    decreases limit,
{
    if limit < 2 {
        1
    } else {
        proof {
            law_largest_power_of_two((limit / 2) as nat);
        }
        2 * round_down_to_power_of_two(limit / 2)
    }
}

fn cap(cost: u128) -> (result: u64)
    ensures
        result == recorded_cost(cost as nat),
{
    if cost > u64::MAX as u128 {
        u64::MAX
    } else {
        cost as u64
    }
}

/// A product that a double word may not hold, as a high part and a low word.
fn scaled(value: u128, factor: u64) -> (parts: (u128, u128))
    requires
        factor <= 1000,
    ensures
        parts.1 < 0x1_0000_0000_0000_0000,
        parts.0 * 0x1_0000_0000_0000_0000 + parts.1 == value * factor,
{
    let base: u128 = 0x1_0000_0000_0000_0000;
    let high: u128 = value / base;
    let low: u128 = value % base;
    assert(high < base);
    assert(value == high * base + low);
    assert(low * factor < 0x1_0000_0000_0000_0000 * 1000 && high * factor
        < 0x1_0000_0000_0000_0000 * 1000) by (nonlinear_arith)
        requires
            low < 0x1_0000_0000_0000_0000,
            high < 0x1_0000_0000_0000_0000,
            factor <= 1000,
    ;
    let product: u128 = low * factor as u128;
    let carry: u128 = product / base;
    assert(high * factor + carry <= u128::MAX);
    let top: u128 = high * factor as u128 + carry;
    assert(top * base + product % base == value * factor) by (nonlinear_arith)
        requires
            value == high * base + low,
            product == low * factor,
            top == high * factor + carry,
            product == carry * base + product % base,
    ;
    (top, product % base)
}

/// Whether `left * left_factor` is at least `right * right_factor`.
fn at_least(left: u128, left_factor: u64, right: u128, right_factor: u64) -> (result: bool)
    requires
        left_factor <= 1000,
        right_factor <= 1000,
    ensures
        result == (left * left_factor >= right * right_factor),
{
    let (left_high, left_low) = scaled(left, left_factor);
    let (right_high, right_low) = scaled(right, right_factor);
    left_high > right_high || (left_high == right_high && left_low >= right_low)
}

/// Chooses a vector factor and estimates its gain.
///
/// The comparison is exact: a cost that a word cannot hold never turns into a
/// profitable result.
pub fn choose_plan(
    config: PassConfig,
    element_bits: u32,
    estimated_trip_count: u64,
    costs: LoopCosts,
) -> (plan: Option<Plan>)
    ensures
        plan == planned(config, element_bits as nat, estimated_trip_count as nat, costs),
{
    if element_bits == 0 || estimated_trip_count == 0 || costs.scalar_iteration == 0 {
        return None;
    }
    let candidate_vf: u32 = match config.forced_vf {
        Some(vf) => vf,
        None => round_down_to_power_of_two(config.vector_bits() / element_bits),
    };
    if !(candidate_vf == 2 || candidate_vf == 4 || candidate_vf == 8 || candidate_vf == 16
        || candidate_vf == 32 || candidate_vf == 64) {
        return None;
    }
    if estimated_trip_count < config.minimum_trip_count(candidate_vf) {
        return None;
    }
    let vector_iterations: u64 = estimated_trip_count / candidate_vf as u64;
    let remainder: u64 = estimated_trip_count % candidate_vf as u64;
    let ghost t = estimated_trip_count as int;
    let ghost vf = candidate_vf as int;
    proof {
        let word = 0x1_0000_0000_0000_0000int;
        assert(vector_iterations * 2 <= estimated_trip_count) by (nonlinear_arith)
            requires
                vector_iterations == estimated_trip_count / candidate_vf as u64,
                candidate_vf >= 2,
        ;
        assert(t * costs.scalar_iteration <= (word - 1) * (word - 1)) by (nonlinear_arith)
            requires
                0 <= t < word,
                costs.scalar_iteration < word,
                word == 0x1_0000_0000_0000_0000int,
        ;
        assert(2 * (vector_iterations * costs.vector_iteration) <= (word - 1) * (word - 1))
            by (nonlinear_arith)
            requires
                2 * vector_iterations <= word - 1,
                costs.vector_iteration < word,
                word == 0x1_0000_0000_0000_0000int,
        ;
        assert(remainder * costs.scalar_iteration <= 64 * word) by (nonlinear_arith)
            requires
                remainder < 64,
                costs.scalar_iteration < word,
                word == 0x1_0000_0000_0000_0000int,
        ;
    }
    let scalar_cost: u128 = estimated_trip_count as u128 * costs.scalar_iteration as u128;
    let vector_cost: u128 = costs.setup as u128 + vector_iterations as u128
        * costs.vector_iteration as u128 + remainder as u128 * costs.scalar_iteration as u128;
    let profitable: bool = config.forced_vf.is_some() || at_least(
        scalar_cost,
        100,
        vector_cost,
        config.required_speedup_x100(),
    );
    if !profitable {
        return None;
    }
    proof {
        assert(vector_iterations * vf <= t && 100 * (vector_iterations * vf) / t <= 100)
            by (nonlinear_arith)
            requires
                vector_iterations == t / vf,
                vf >= 2,
                t > 0,
        ;
    }
    let covered: u128 = vector_iterations as u128 * candidate_vf as u128;
    Some(
        Plan {
            vf: candidate_vf,
            scalar_cost: cap(scalar_cost),
            vector_cost: cap(vector_cost),
            utilization_x100: (100 * covered / estimated_trip_count as u128) as u64,
        },
    )
}

/// What every plan promises: a supported factor that the loop fills at least
/// once, the forced factor if there is one and else the widest power of two
/// that fits the vector, at least half of the iterations in whole vectors, all
/// of them if the trip count is a multiple of the factor, and without a forced
/// factor no estimated loss.
pub proof fn law_plans_are_sound(
    config: PassConfig,
    element_bits: nat,
    trip_count: nat,
    costs: LoopCosts,
)
    requires
        planned(config, element_bits, trip_count, costs) is Some,
    ensures
        ({
            let plan = planned(config, element_bits, trip_count, costs)->0;
            &&& supported_vf(plan.vf as nat)
            &&& plan.vf <= config.spec_minimum_trip_count(plan.vf as nat) <= trip_count
            &&& config.forced_vf matches Some(vf) ==> plan.vf == vf
            &&& config.forced_vf is None ==> plan.vf <= 128nat / element_bits < 2 * plan.vf
            &&& 50 <= plan.utilization_x100 <= 100
            &&& trip_count % (plan.vf as nat) == 0 ==> plan.utilization_x100 == 100
            &&& config.forced_vf is None ==> plan.vector_cost <= plan.scalar_cost
        }),
{
    let plan = planned(config, element_bits, trip_count, costs)->0;
    let vf = candidate_vf(config, element_bits);
    let covered = trip_count / vf * vf;
    vstd::arithmetic::div_mod::lemma_fundamental_div_mod(trip_count as int, vf as int);
    assert(trip_count / vf * vf == vf * (trip_count / vf)) by (nonlinear_arith);
    assert(covered == trip_count - trip_count % vf);
    assert(trip_count % vf < vf) by (nonlinear_arith)
        requires
            vf > 0,
    ;
    assert(trip_count / vf >= 1) by (nonlinear_arith)
        requires
            trip_count >= vf,
            vf > 0,
    ;
    assert(covered >= vf) by (nonlinear_arith)
        requires
            covered == trip_count / vf * vf,
            trip_count / vf >= 1,
            vf > 0,
    ;
    let share = 100 * covered / trip_count;
    assert(50 <= share <= 100) by (nonlinear_arith)
        requires
            share == 100 * covered / trip_count,
            trip_count > 0,
            covered <= trip_count,
            trip_count <= 2 * covered,
    ;
    if trip_count % vf == 0 {
        assert(share == 100) by (nonlinear_arith)
            requires
                share == 100 * covered / trip_count,
                trip_count > 0,
                covered == trip_count,
        ;
    }
    if config.forced_vf is None {
        if 128nat / element_bits >= 1 {
            law_largest_power_of_two(128nat / element_bits);
        }
        let scalar = scalar_loop_cost(trip_count, costs);
        let vector = vector_loop_cost(trip_count, vf, costs);
        let percent = config.heuristic.required_percent();
        assert(vector <= scalar) by (nonlinear_arith)
            requires
                100 * scalar >= percent * vector,
                percent >= 100,
        ;
    }
}

/// A forced width replaces the test for profitability and nothing else: a
/// supported width is planned exactly if the loop fills one vector of it.
pub proof fn law_forced_width_keeps_legality(
    config: PassConfig,
    element_bits: nat,
    trip_count: nat,
    costs: LoopCosts,
)
    requires
        config.forced_vf is Some,
        element_bits > 0,
        costs.scalar_iteration > 0,
    ensures
        planned(config, element_bits, trip_count, costs) is Some <==> supported_vf(
            config.forced_vf->0 as nat,
        ) && trip_count >= config.forced_vf->0,
{
}

/// Whether one profile is at most as cautious as another.
pub open spec fn is_bolder(bold: Heuristic, cautious: Heuristic) -> bool {
    bold == cautious || bold == Heuristic::Aggressive || cautious == Heuristic::Conservative
}

/// A bolder profile plans every loop that a more cautious one plans, in the
/// same way.
pub proof fn law_profiles_are_ordered(
    bold: PassConfig,
    cautious: PassConfig,
    element_bits: nat,
    trip_count: nat,
    costs: LoopCosts,
)
    requires
        is_bolder(bold.heuristic, cautious.heuristic),
        bold.forced_vf == cautious.forced_vf,
        planned(cautious, element_bits, trip_count, costs) is Some,
    ensures
        planned(bold, element_bits, trip_count, costs) == planned(
            cautious,
            element_bits,
            trip_count,
            costs,
        ),
{
    let vf = candidate_vf(cautious, element_bits);
    let scalar = scalar_loop_cost(trip_count, costs);
    let vector = vector_loop_cost(trip_count, vf, costs);
    let low = bold.heuristic.required_percent();
    let high = cautious.heuristic.required_percent();
    assert(low * vector <= high * vector) by (nonlinear_arith)
        requires
            low <= high,
    ;
    let few = bold.heuristic.minimum_vectors();
    let many = cautious.heuristic.minimum_vectors();
    assert(few * vf <= many * vf) by (nonlinear_arith)
        requires
            few <= many,
    ;
}

/// How many vectors of iterations a policy wants at least.
pub proof fn law_policies_want_vectors(config: PassConfig, vf: nat)
    ensures
        config.forced_vf is Some ==> config.spec_minimum_trip_count(vf) == vf,
        config.forced_vf is None && config.heuristic == Heuristic::Conservative
            ==> config.spec_minimum_trip_count(vf) == 4 * vf,
        config.forced_vf is None && config.heuristic == Heuristic::Balanced
            ==> config.spec_minimum_trip_count(vf) == 2 * vf,
        config.forced_vf is None && config.heuristic == Heuristic::Aggressive
            ==> config.spec_minimum_trip_count(vf) == vf,
{
}

/// How much faster than the scalar loop a policy wants the vector loop to be, in
/// percent.
pub open spec fn wanted_speed(heuristic: Heuristic) -> nat {
    if heuristic == Heuristic::Conservative {
        125
    } else if heuristic == Heuristic::Balanced {
        108
    } else {
        100
    }
}

/// `plan` is what a configuration is to plan for a loop of `trips` iterations
/// whose widest scalar has `bits` bits. The factor is the forced one, or the
/// power of two that fills a vector of 128 bits best; the loop has as many
/// iterations as the policy wants; and the estimated cost of the scalar loop is
/// that of the vector loop, times the wanted speed, or more.
pub open spec fn is_right_plan(
    config: PassConfig,
    bits: nat,
    trips: nat,
    costs: LoopCosts,
    plan: Plan,
) -> bool {
    let vf = plan.vf as nat;
    let scalar = trips * costs.scalar_iteration as nat;
    let vector = costs.setup as nat + (trips / vf) * costs.vector_iteration as nat + (trips % vf)
        * costs.scalar_iteration as nat;
    let largest = 0xFFFF_FFFF_FFFF_FFFFnat;
    &&& vf == 2 || vf == 4 || vf == 8 || vf == 16 || vf == 32 || vf == 64
    &&& bits > 0 && costs.scalar_iteration > 0
    &&& match config.forced_vf {
        Some(forced) => vf == forced && trips >= vf,
        None => {
            &&& vf * bits <= 128 < 2 * vf * bits
            &&& config.heuristic == Heuristic::Conservative ==> trips >= 4 * vf
            &&& config.heuristic == Heuristic::Balanced ==> trips >= 2 * vf
            &&& config.heuristic == Heuristic::Aggressive ==> trips >= vf
            &&& 100 * scalar >= wanted_speed(config.heuristic) * vector
        },
    }
    &&& plan.scalar_cost == (if scalar > largest {
        largest
    } else {
        scalar
    })
    &&& plan.vector_cost == (if vector > largest {
        largest
    } else {
        vector
    })
    &&& plan.utilization_x100 * trips <= 100 * (trips - trips % vf) < (plan.utilization_x100 + 1)
        * trips
}

proof fn lemma_fills(bits: nat, vf: nat)
    requires
        bits > 0,
        vf == 2 || vf == 4 || vf == 8 || vf == 16 || vf == 32 || vf == 64,
    ensures
        vf <= 128nat / bits < 2 * vf <==> vf * bits <= 128 < 2 * vf * bits,
{
    let q = 128nat / bits;
    vstd::arithmetic::div_mod::lemma_fundamental_div_mod(128, bits as int);
    assert(q * bits <= 128 < (q + 1) * bits) by (nonlinear_arith)
        requires
            128 == bits * q + 128nat % bits,
            0 <= 128nat % bits < bits,
    ;
    assert(vf <= q ==> vf * bits <= q * bits) by (nonlinear_arith);
    assert(vf > q ==> vf * bits >= (q + 1) * bits) by (nonlinear_arith);
    assert(q < 2 * vf ==> (q + 1) * bits <= 2 * vf * bits) by (nonlinear_arith);
    assert(q >= 2 * vf ==> 2 * vf * bits <= q * bits) by (nonlinear_arith);
}

proof fn lemma_powers(limit: nat, vf: nat)
    requires
        vf == 2 || vf == 4 || vf == 8 || vf == 16 || vf == 32 || vf == 64,
    ensures
        largest_power_of_two(limit) == vf <==> vf <= limit < 2 * vf,
{
    reveal_with_fuel(largest_power_of_two, 8);
    if limit >= 1 {
        law_largest_power_of_two(limit);
    }
}

proof fn lemma_coverage(trips: nat, vf: nat)
    requires
        vf == 2 || vf == 4 || vf == 8 || vf == 16 || vf == 32 || vf == 64,
        trips > 0,
    ensures
        ({
            let share = 100 * (trips / vf * vf) / trips;
            &&& share <= 100
            &&& share * trips <= 100 * (trips - trips % vf) < (share + 1) * trips
        }),
{
    let covered = trips / vf * vf;
    vstd::arithmetic::div_mod::lemma_fundamental_div_mod(trips as int, vf as int);
    assert(trips / vf * vf == vf * (trips / vf)) by (nonlinear_arith);
    assert(covered == trips - trips % vf);
    let share = 100 * covered / trips;
    vstd::arithmetic::div_mod::lemma_fundamental_div_mod(100 * covered as int, trips as int);
    assert(share * trips <= 100 * covered < (share + 1) * trips) by (nonlinear_arith)
        requires
            100 * covered == trips * share + (100 * covered) % trips,
            0 <= (100 * covered) % trips < trips,
    ;
    assert(share <= 100) by (nonlinear_arith)
        requires
            share * trips <= 100 * covered,
            covered <= trips,
            trips > 0,
    ;
}

/// A loop is planned if there is a right plan for it, and then that is the plan.
pub proof fn law_plans_are_right(
    config: PassConfig,
    bits: nat,
    trips: nat,
    costs: LoopCosts,
    plan: Plan,
)
    ensures
        planned(config, bits, trips, costs) == Some(plan) <==> is_right_plan(
            config,
            bits,
            trips,
            costs,
            plan,
        ),
{
    let vf = plan.vf as nat;
    if vf == 2 || vf == 4 || vf == 8 || vf == 16 || vf == 32 || vf == 64 {
        if bits > 0 {
            lemma_powers(128nat / bits, vf);
            lemma_fills(bits, vf);
        }
        if trips > 0 {
            lemma_coverage(trips, vf);
            let share = 100 * (trips / vf * vf) / trips;
            let other = plan.utilization_x100 as nat;
            assert(other * trips <= 100 * (trips - trips % vf) < (other + 1) * trips && share * trips
                <= 100 * (trips - trips % vf) < (share + 1) * trips ==> other == share)
                by (nonlinear_arith)
                requires
                    trips > 0,
            ;
        }
    }
}

} // verus!
