use rust_loop_vectorizer::config::{Heuristic, PassConfig, RVPassConfig};
use rust_loop_vectorizer::cost::{choose_plan, LoopCosts, Plan};

fn config(heuristic: Heuristic) -> PassConfig {
    PassConfig::new(heuristic, 0, false)
}

fn costs(scalar_iteration: u64, vector_iteration: u64, setup: u64) -> LoopCosts {
    LoopCosts {
        scalar_iteration,
        vector_iteration,
        setup,
    }
}

#[test]
fn selects_four_lanes_for_f32_on_128_bit_vectors() {
    let plan = choose_plan(
        config(Heuristic::Balanced),
        32,
        64,
        LoopCosts {
            scalar_iteration: 8,
            vector_iteration: 8,
            setup: 6,
        },
    )
    .expect("the representative loop should be profitable");
    assert_eq!(plan.vf, 4);
    assert_eq!(plan.utilization_x100, 100);
    assert!(plan.vector_cost < plan.scalar_cost);
}

#[test]
fn conservative_policy_rejects_short_loops() {
    let plan = choose_plan(
        config(Heuristic::Conservative),
        32,
        8,
        LoopCosts {
            scalar_iteration: 8,
            vector_iteration: 8,
            setup: 6,
        },
    );
    assert_eq!(plan, None);
}

#[test]
fn force_width_still_rejects_invalid_widths() {
    let invalid = PassConfig::new(Heuristic::Aggressive, 3, false);
    assert_eq!(
        choose_plan(
            invalid,
            32,
            64,
            LoopCosts {
                scalar_iteration: 2,
                vector_iteration: 2,
                setup: 0,
            }
        ),
        None
    );
}

#[test]
fn force_width_overrides_profitability_but_not_legality_shape() {
    let forced = PassConfig::new(Heuristic::Balanced, 4, false);
    let plan = choose_plan(
        forced,
        32,
        4,
        LoopCosts {
            scalar_iteration: 1,
            vector_iteration: 100,
            setup: 100,
        },
    )
    .expect("a valid forced width should bypass the profitability filter");
    assert_eq!(plan.vf, 4);
}

#[test]
fn ffi_configuration_is_total() {
    for raw in [0, 1, 2, u32::MAX] {
        let config = PassConfig::new(Heuristic::from_ffi(raw), 0, false);
        assert!(config.vector_bits() >= 128);
    }
}

#[test]
fn plan_records_exact_costs() {
    assert_eq!(
        choose_plan(config(Heuristic::Balanced), 32, 64, costs(8, 8, 6)),
        Some(Plan {
            vf: 4,
            scalar_cost: 512,
            vector_cost: 134,
            utilization_x100: 100,
        })
    );
}

#[test]
fn remainder_iterations_lower_the_coverage() {
    let plan = choose_plan(config(Heuristic::Aggressive), 32, 7, costs(8, 8, 0)).unwrap();
    assert_eq!(plan.vf, 4);
    assert_eq!(plan.utilization_x100, 57);
    assert_eq!(plan.vector_cost, 8 + 3 * 8);
}

#[test]
fn natural_factor_is_the_widest_power_of_two() {
    for (bits, vf) in [(8, 16), (16, 8), (24, 4), (32, 4), (33, 2), (64, 2)] {
        let plan = choose_plan(config(Heuristic::Aggressive), bits, 64, costs(8, 8, 0)).unwrap();
        assert_eq!(plan.vf, vf);
    }
    for bits in [0, 65, 128, 129] {
        let plan = choose_plan(config(Heuristic::Aggressive), bits, 64, costs(8, 8, 0));
        assert_eq!(plan, None);
    }
}

#[test]
fn huge_costs_are_compared_exactly() {
    let big = u64::MAX / 2;
    assert_eq!(
        choose_plan(config(Heuristic::Aggressive), 32, 8, costs(big, u64::MAX, u64::MAX)),
        Some(Plan {
            vf: 4,
            scalar_cost: u64::MAX,
            vector_cost: u64::MAX,
            utilization_x100: 100,
        })
    );
    assert_eq!(
        choose_plan(config(Heuristic::Conservative), 32, 16, costs(1, u64::MAX, u64::MAX)),
        None
    );
}

#[test]
fn bolder_profiles_plan_what_cautious_ones_plan() {
    for trip in [1, 4, 8, 16, 17, 64, 1000] {
        for cost in [1, 2, 8] {
            let conservative = choose_plan(config(Heuristic::Conservative), 32, trip, costs(cost, cost, 6));
            let balanced = choose_plan(config(Heuristic::Balanced), 32, trip, costs(cost, cost, 6));
            let aggressive = choose_plan(config(Heuristic::Aggressive), 32, trip, costs(cost, cost, 6));
            if conservative.is_some() {
                assert_eq!(conservative, balanced);
            }
            if balanced.is_some() {
                assert_eq!(balanced, aggressive);
            }
        }
    }
}

#[test]
fn degenerate_loops_are_not_planned() {
    let forced = PassConfig::new(Heuristic::Balanced, 4, false);
    assert_eq!(choose_plan(forced, 32, 0, costs(1, 1, 0)), None);
    assert_eq!(choose_plan(forced, 32, 3, costs(1, 1, 0)), None);
    assert_eq!(choose_plan(forced, 32, 64, costs(0, 1, 0)), None);
    assert_eq!(choose_plan(forced, 0, 64, costs(1, 1, 0)), None);
    assert_eq!(
        choose_plan(PassConfig::new(Heuristic::Balanced, 128, false), 8, 256, costs(1, 1, 0)),
        None
    );
}

#[test]
fn thresholds_follow_the_profile() {
    let profiles = [
        (Heuristic::Conservative, 16, 125),
        (Heuristic::Balanced, 8, 108),
        (Heuristic::Aggressive, 4, 100),
    ];
    for (heuristic, minimum, percent) in profiles {
        assert_eq!(config(heuristic).minimum_trip_count(4), minimum);
        assert_eq!(config(heuristic).required_speedup_x100(), percent);
        assert_eq!(PassConfig::new(heuristic, 8, false).minimum_trip_count(8), 8);
    }
}

#[test]
fn configuration_words_are_decoded() {
    let decoded = PassConfig::from_words(RVPassConfig {
        heuristic: 2,
        forced_vf: 8,
        emit_remarks: 7,
    });
    assert_eq!(decoded.heuristic, Heuristic::Aggressive);
    assert_eq!(decoded.forced_vf, Some(8));
    assert!(decoded.emit_remarks);
    let automatic = PassConfig::from_words(RVPassConfig {
        heuristic: 9,
        forced_vf: 0,
        emit_remarks: 0,
    });
    assert_eq!(automatic.heuristic, Heuristic::Balanced);
    assert_eq!(automatic.forced_vf, None);
    assert!(!automatic.emit_remarks);
}
