use rust_loop_vectorizer::dependence::{classify, gcd, AccessKind, AffineAccess, Dependence};

fn access(coefficient: i64, offset: i64, kind: AccessKind) -> AffineAccess {
    AffineAccess {
        base: 1,
        coefficient,
        offset,
        kind,
    }
}

#[test]
fn read_read_pairs_never_block_vectorization() {
    let left = access(1, 0, AccessKind::Read);
    let right = access(1, -1, AccessKind::Read);
    assert_eq!(classify(left, right), Dependence::Independent);
}

#[test]
fn equal_subscripts_are_same_iteration() {
    let read = access(1, 0, AccessKind::Read);
    let write = access(1, 0, AccessKind::Write);
    assert_eq!(classify(read, write), Dependence::SameIteration);
}

#[test]
fn recurrence_has_exact_distance() {
    let write = access(1, 0, AccessKind::Write);
    let later_read = access(1, -1, AccessKind::Read);
    assert_eq!(
        classify(write, later_read),
        Dependence::LoopCarried { distance: 1 }
    );
}

#[test]
fn gcd_can_prove_independence() {
    let even = access(2, 0, AccessKind::Write);
    let odd = access(2, 1, AccessKind::Read);
    assert_eq!(classify(even, odd), Dependence::Independent);
}

#[test]
fn different_slopes_remain_conservative_when_the_gcd_test_passes() {
    let left = access(2, 0, AccessKind::Write);
    let right = access(3, 0, AccessKind::Read);
    assert_eq!(classify(left, right), Dependence::Potential);
}

#[test]
fn different_bases_are_independent() {
    let left = access(1, 0, AccessKind::Write);
    let right = AffineAccess {
        base: 2,
        ..access(1, 0, AccessKind::Write)
    };
    assert_eq!(classify(left, right), Dependence::Independent);
}

#[test]
fn fixed_cells_are_told_apart() {
    let left = access(0, 4, AccessKind::Write);
    assert_eq!(
        classify(left, access(0, 5, AccessKind::Read)),
        Dependence::Independent
    );
    assert_eq!(
        classify(left, access(0, 4, AccessKind::Read)),
        Dependence::SameIteration
    );
}

#[test]
fn distances_are_exact_on_negative_slopes() {
    let write = access(-2, 6, AccessKind::Write);
    let read = access(-2, 0, AccessKind::Read);
    assert_eq!(classify(write, read), Dependence::LoopCarried { distance: -3 });
    assert_eq!(classify(read, write), Dependence::LoopCarried { distance: 3 });
}

#[test]
fn far_offsets_stay_potential() {
    let low = access(1, i64::MIN, AccessKind::Write);
    let high = access(1, i64::MAX, AccessKind::Read);
    assert_eq!(classify(low, high), Dependence::Potential);
    assert_eq!(classify(high, low), Dependence::Potential);
}

#[test]
fn greatest_common_divisors() {
    assert_eq!(gcd(12, 18), 6);
    assert_eq!(gcd(0, 7), 7);
    assert_eq!(gcd(7, 0), 7);
    assert_eq!(gcd(0, 0), 0);
    assert_eq!(gcd(u64::MAX, 1), 1);
}
