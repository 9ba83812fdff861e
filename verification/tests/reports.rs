use rust_loop_vectorizer::config::{Heuristic, PassConfig};
use rust_loop_vectorizer::cost::Plan;
use rust_loop_vectorizer::rejection::Rejection;
use rust_loop_vectorizer::report::{report, report_atom, Decision};

#[test]
fn diagnostic_names_are_single_percent_encoded_atoms() {
    assert_eq!(
        report_atom("loop with%newline\n"),
        "loop%20with%25newline%0A"
    );
}

#[test]
fn plain_names_stand_for_themselves() {
    assert_eq!(report_atom("for.body_2-x$Z"), "for.body_2-x$Z");
    assert_eq!(report_atom(""), "");
}

#[test]
fn other_names_are_encoded_byte_by_byte() {
    assert_eq!(report_atom("λ=1"), "%CE%BB%3D1");
    assert_eq!(report_atom("€/"), "%E2%82%AC%2F");
}

#[test]
fn vectorized_loops_are_reported() {
    let config = PassConfig::new(Heuristic::Balanced, 0, true);
    let plan = Plan {
        vf: 4,
        scalar_cost: 512,
        vector_cost: 134,
        utilization_x100: 57,
    };
    assert_eq!(
        report(config, "saxpy", "for body", &Decision::Vectorized(plan), "12.500", "3.250"),
        Some(
            "rv-vectorize: function=saxpy loop=for%20body decision=vectorized \
             reason=legal-and-profitable vf=4 estimated_vector_coverage=57% \
             issued_lane_utilization=100% analysis_us=12.500 transform_us=3.250"
                .to_owned()
        )
    );
}

#[test]
fn rejected_loops_are_reported() {
    let config = PassConfig::new(Heuristic::Balanced, 0, true);
    let decision = Decision::Rejected(Rejection::PossiblePointerAlias);
    assert_eq!(
        report(config, "copy", "loop", &decision, "1.000", "0.000"),
        Some(
            "rv-vectorize: function=copy loop=loop decision=rejected \
             reason=possible-pointer-alias vf=0 estimated_vector_coverage=0% \
             issued_lane_utilization=0% analysis_us=1.000 transform_us=0.000"
                .to_owned()
        )
    );
}

#[test]
fn nothing_is_reported_unless_wanted() {
    let config = PassConfig::new(Heuristic::Balanced, 0, false);
    let decision = Decision::Rejected(Rejection::NotProfitable);
    assert_eq!(report(config, "f", "l", &decision, "1.000", "0.000"), None);
}
