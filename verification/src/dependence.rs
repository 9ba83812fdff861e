//! Small, conservative affine dependence tests used before widening memory
//! accesses.

use vstd::arithmetic::div_mod::{lemma_fundamental_div_mod, lemma_fundamental_div_mod_converse};
use vstd::prelude::*;

verus! {

/// Whether a memory access reads or writes its cell.
#[derive(Clone, Copy, Debug, PartialEq, Eq, Structural)]
pub enum AccessKind {
    Read,
    Write,
}

/// A memory access whose cell is an affine function of the iteration.
#[derive(Clone, Copy, Debug, PartialEq, Eq, Structural)]
pub struct AffineAccess {
    /// Stable identity of the underlying pointer object.
    pub base: usize,
    /// Coefficient in `coefficient * iteration + offset`.
    pub coefficient: i64,
    pub offset: i64,
    pub kind: AccessKind,
}

impl AffineAccess {
    /// The cell of the base object that iteration `iteration` touches.
    pub open spec fn cell(self, iteration: int) -> int {
        self.coefficient * iteration + self.offset
    }
}

/// What is known about two accesses of one loop.
#[derive(Clone, Copy, Debug, PartialEq, Eq, Structural)]
pub enum Dependence {
    Independent,
    SameIteration,
    LoopCarried { distance: i64 },
    Potential,
}

/// Whether the order of two accesses can matter at all: they are on one base
/// and at least one of them writes.
pub open spec fn conflicting(left: AffineAccess, right: AffineAccess) -> bool {
    &&& left.base == right.base
    &&& left.kind == AccessKind::Write || right.kind == AccessKind::Write
}

/// No iteration of `left` touches a cell that some iteration of `right` touches.
pub open spec fn never_meet(left: AffineAccess, right: AffineAccess) -> bool {
    forall|i: int, j: int| #[trigger] left.cell(i) != #[trigger] right.cell(j)
}

/// Whether a value can be held by a signed word.
pub open spec fn fits_i64(value: int) -> bool {
    i64::MIN <= value <= i64::MAX
}

/// The class of a pair of accesses.
///
/// Accesses on one line of cells (equal, nonzero coefficients) have an exact
/// iteration distance. Every other pair that can meet stays `Potential`, and so
/// does a pair whose offsets are too far apart for word arithmetic.
pub open spec fn classification(left: AffineAccess, right: AffineAccess) -> Dependence {
    if !conflicting(left, right) {
        Dependence::Independent
    } else if !fits_i64(right.offset - left.offset) {
        Dependence::Potential
    } else if never_meet(left, right) {
        Dependence::Independent
    } else if left.coefficient != right.coefficient {
        Dependence::Potential
    } else if left.offset == right.offset {
        Dependence::SameIteration
    } else {
        let distance = (left.offset - right.offset) / (left.coefficient as int);
        if fits_i64(left.offset - right.offset) && fits_i64(distance) {
            Dependence::LoopCarried { distance: distance as i64 }
        } else {
            Dependence::Potential
        }
    }
}

/// `divisor` divides `value`; zero divides only itself.
pub open spec fn divides(divisor: nat, value: int) -> bool {
    if divisor == 0 {
        value == 0
    } else {
        value % (divisor as int) == 0
    }
}

/// `g` is the greatest common divisor of `a` and `b`, taken by divisibility, so
/// that it is zero when both are.
pub open spec fn is_gcd(a: nat, b: nat, g: nat) -> bool {
    &&& divides(g, a as int)
    &&& divides(g, b as int)
    &&& forall|d: nat|
        divides(d, a as int) && divides(d, b as int) ==> #[trigger] divides(d, g as int)
}

proof fn lemma_divides_multiple(d: nat, q: int)
    ensures
        divides(d, d * q),
{
    if d != 0 {
        assert(d * q == q * d) by (nonlinear_arith);
        lemma_fundamental_div_mod_converse(d * q, d as int, q, 0int);
    } else {
        assert(d * q == 0) by (nonlinear_arith)
            requires
                d == 0,
        ;
    }
}

proof fn lemma_divides_quotient(d: nat, n: int) -> (q: int)
    requires
        divides(d, n),
    ensures
        n == d * q,
{
    if d == 0 {
        assert(d * 0 == 0);
        0
    } else {
        lemma_fundamental_div_mod(n, d as int);
        n / (d as int)
    }
}

/// A divisor of two numbers divides every combination of them.
proof fn lemma_divides_combination(d: nat, a: int, b: int, x: int, y: int)
    requires
        divides(d, a),
        divides(d, b),
    ensures
        divides(d, a * x + b * y),
{
    let qa = lemma_divides_quotient(d, a);
    let qb = lemma_divides_quotient(d, b);
    assert((d * qa) * x + (d * qb) * y == d * (qa * x + qb * y)) by (nonlinear_arith);
    lemma_divides_multiple(d, qa * x + qb * y);
}

spec fn divides_both(d: nat, a: int, b: int) -> bool {
    divides(d, a) && divides(d, b)
}

/// One step of the Euclidean algorithm keeps the common divisors.
proof fn lemma_remainder_step(left: nat, right: nat, d: nat)
    requires
        right != 0,
    ensures
        divides_both(d, left as int, right as int) == divides_both(
            d,
            right as int,
            (left % right) as int,
        ),
{
    let q = left as int / right as int;
    let r = left as int % right as int;
    lemma_fundamental_div_mod(left as int, right as int);
    if divides(d, left as int) && divides(d, right as int) {
        lemma_divides_combination(d, left as int, right as int, 1, -q);
        assert(left * 1 + right * (-q) == r) by (nonlinear_arith)
            requires
                left == right * q + r,
        ;
    }
    if divides(d, right as int) && divides(d, r) {
        lemma_divides_combination(d, right as int, r, q, 1);
    }
}

/// The greatest common divisor of two numbers is a combination of them.
proof fn lemma_bezout(a: nat, b: nat) -> (w: (int, int))
    ensures
        is_gcd(a, b, (a * w.0 + b * w.1) as nat),
        a * w.0 + b * w.1 >= 0,
    decreases b,
{
    if b == 0 {
        assert(a * 1 + b * 0 == a);
        if a != 0 {
            lemma_divides_multiple(a, 1);
        }
        lemma_divides_multiple(a, 0);
        (1, 0)
    } else {
        let q = a as int / b as int;
        let r = a % b;
        lemma_fundamental_div_mod(a as int, b as int);
        let (x, y) = lemma_bezout(b, r);
        let g = (b * x + r * y) as nat;
        assert(a * y + b * (x - q * y) == b * x + r * y) by (nonlinear_arith)
            requires
                a == b * q + r,
        ;
        lemma_remainder_step(a, b, g);
        assert forall|d: nat|
            divides(d, a as int) && divides(d, b as int) implies #[trigger] divides(
            d,
            g as int,
        ) by {
            lemma_remainder_step(a, b, d);
        }
        (y, x - q * y)
    }
}

proof fn lemma_mutual_divisors(a: nat, b: nat)
    requires
        divides(a, b as int),
        divides(b, a as int),
    ensures
        a == b,
{
    if a != 0 && b != 0 {
        vstd::arithmetic::div_mod::lemma_mod_is_zero(b, a);
        vstd::arithmetic::div_mod::lemma_mod_is_zero(a, b);
    }
}

/// Two numbers have one greatest common divisor.
proof fn lemma_gcd_unique(a: nat, b: nat, g: nat, h: nat)
    requires
        is_gcd(a, b, g),
        is_gcd(a, b, h),
    ensures
        g == h,
{
    assert(divides(g, h as int));
    assert(divides(h, g as int));
    lemma_mutual_divisors(g, h);
}

spec fn magnitude(value: int) -> nat {
    if value >= 0 {
        value as nat
    } else {
        (-value) as nat
    }
}

proof fn lemma_divides_magnitude(d: nat, value: int)
    ensures
        divides(d, value) == divides(d, magnitude(value) as int),
{
    let s = sign(value);
    lemma_divides_multiple(d, 0);
    if divides(d, value) {
        lemma_divides_combination(d, value, 0, s, 0);
        assert(value * s + 0 * 0 == magnitude(value));
    }
    if divides(d, magnitude(value) as int) {
        lemma_divides_combination(d, magnitude(value) as int, 0, s, 0);
        assert(magnitude(value) * s + 0 * 0 == value);
    }
}

spec fn sign(value: int) -> int {
    if value >= 0 {
        1
    } else {
        -1
    }
}

proof fn lemma_signed_product(a: int, t: int)
    ensures
        a * (sign(a) * t) == magnitude(a) * t,
        sign(a) * (sign(a) * t) == t,
{
    assert(a * (-t) == (-a) * t) by (nonlinear_arith);
}

/// The divisibility test decides whether two accesses can meet.
proof fn lemma_gcd_test(left: AffineAccess, right: AffineAccess, g: nat)
    requires
        is_gcd(magnitude(left.coefficient as int), magnitude(right.coefficient as int), g),
    ensures
        never_meet(left, right) <==> !divides(g, right.offset - left.offset),
{
    let a = left.coefficient as int;
    let c = right.coefficient as int;
    let delta = right.offset - left.offset;
    let sa = sign(a);
    let sc = sign(c);
    if divides(g, delta) {
        let (x, y) = lemma_bezout(magnitude(a), magnitude(c));
        lemma_gcd_unique(
            magnitude(a),
            magnitude(c),
            g,
            (magnitude(a) * x + magnitude(c) * y) as nat,
        );
        let q = lemma_divides_quotient(g, delta);
        let i = sa * (x * q);
        let j = sc * (-(y * q));
        lemma_signed_product(a, x * q);
        lemma_signed_product(c, -(y * q));
        assert(magnitude(a) * (x * q) - magnitude(c) * (-(y * q)) == (magnitude(a) * x + magnitude(
            c,
        ) * y) * q) by (nonlinear_arith);
        assert(left.cell(i) == right.cell(j));
    } else {
        assert forall|i: int, j: int| #[trigger] left.cell(i) != #[trigger] right.cell(j) by {
            if left.cell(i) == right.cell(j) {
                lemma_signed_product(a, sa * i);
                lemma_signed_product(c, sc * -j);
                lemma_divides_combination(
                    g,
                    magnitude(a) as int,
                    magnitude(c) as int,
                    sa * i,
                    sc * -j,
                );
                assert(c * (-j) == -(c * j)) by (nonlinear_arith);
            }
        }
    }
}

fn unsigned_abs(value: i64) -> (result: u64)
    ensures
        result == magnitude(value as int),
{
    if value >= 0 {
        value as u64
    } else {
        (-(value + 1)) as u64 + 1
    }
}

/// The greatest common divisor by the Euclidean algorithm.
pub fn gcd(left: u64, right: u64) -> (divisor: u64)
    ensures
        is_gcd(left as nat, right as nat, divisor as nat),
{
    let mut a: u64 = left;
    let mut b: u64 = right;
    while b != 0
        invariant
            forall|d: nat|
                divides_both(d, left as int, right as int) == #[trigger] divides_both(
                    d,
                    a as int,
                    b as int,
                ),
        decreases b,
    {
        let remainder: u64 = a % b;
        assert forall|d: nat|
            divides_both(d, left as int, right as int) == #[trigger] divides_both(
                d,
                b as int,
                remainder as int,
            ) by {
            lemma_remainder_step(a as nat, b as nat, d);
            assert(divides_both(d, left as int, right as int) == divides_both(
                d,
                a as int,
                b as int,
            ));
        }
        a = b;
        b = remainder;
    }
    proof {
        lemma_divides_multiple(a as nat, 1);
        lemma_divides_multiple(a as nat, 0);
        assert(divides_both(a as nat, a as int, b as int));
        assert forall|d: nat|
            divides(d, left as int) && divides(d, right as int) implies #[trigger] divides(
            d,
            a as int,
        ) by {
            assert(divides_both(d, left as int, right as int) == divides_both(
                d,
                a as int,
                b as int,
            ));
        }
    }
    a
}

/// The quotient of an exact division, where a word can hold it.
fn exact_quotient(numerator: i64, divisor: i64) -> (quotient: Option<i64>)
    requires
        divisor != 0,
        divides(magnitude(divisor as int), numerator as int),
    ensures
        match quotient {
            Some(q) => q == numerator as int / divisor as int && q * divisor == numerator,
            None => !fits_i64(numerator as int / divisor as int),
        },
{
    proof {
        let n = numerator as int;
        let d = divisor as int;
        let m = magnitude(d) as int;
        let q = lemma_divides_quotient(magnitude(d), n);
        let e = if d > 0 { q } else { -q };
        assert(n == e * d) by (nonlinear_arith)
            requires
                n == m * q,
                (d > 0 && m == d && e == q) || (d < 0 && m == -d && e == -q),
        ;
        assert(n / d == e) by (nonlinear_arith)
            requires
                n == e * d,
                d != 0,
        ;
        let x = if n >= 0 { n } else { -n };
        let f = if e >= 0 { e } else { -e };
        assert(x == f * m) by (nonlinear_arith)
            requires
                n == e * d,
                m == d || m == -d,
                m > 0,
                x == n || x == -n,
                x >= 0,
                f == e || f == -e,
                f >= 0,
        ;
        lemma_fundamental_div_mod_converse(x, m, f, 0);
        assert(n > 0 && d > 0 ==> e >= 0) by (nonlinear_arith)
            requires
                n == e * d,
        ;
        assert(n < 0 && d < 0 ==> e >= 0) by (nonlinear_arith)
            requires
                n == e * d,
        ;
        assert((n < 0 && d > 0) || (n > 0 && d < 0) ==> e <= 0) by (nonlinear_arith)
            requires
                n == e * d,
        ;
        assert(n == 0 ==> e == 0) by (nonlinear_arith)
            requires
                n == e * d,
                d != 0,
        ;
    }
    numerator.checked_div(divisor)
}

/// Tests whether two one-dimensional affine accesses can name the same cell.
///
/// The divisibility test proves independence when no pair of iterations meets.
/// Equal coefficients additionally expose an exact iteration distance.
/// Different coefficients remain conservative because loop bounds are not
/// represented here, and so does arithmetic that does not fit a word.
pub fn classify(left: AffineAccess, right: AffineAccess) -> (dependence: Dependence)
    ensures
        dependence == classification(left, right),
{
    if left.kind == AccessKind::Read && right.kind == AccessKind::Read {
        return Dependence::Independent;
    }
    if left.base != right.base {
        return Dependence::Independent;
    }
    let divisor: u64 = gcd(unsigned_abs(left.coefficient), unsigned_abs(right.coefficient));
    proof {
        lemma_gcd_test(left, right, divisor as nat);
    }
    let constant_delta: i64 = match right.offset.checked_sub(left.offset) {
        Some(delta) => delta,
        None => return Dependence::Potential,
    };
    if divisor == 0 {
        proof {
            let a = magnitude(left.coefficient as int);
            let c = magnitude(right.coefficient as int);
            assert(divides(0, a as int) && divides(0, c as int));
        }
        return if constant_delta == 0 {
            Dependence::SameIteration
        } else {
            Dependence::Independent
        };
    }
    proof {
        lemma_divides_magnitude(divisor as nat, constant_delta as int);
    }
    if unsigned_abs(constant_delta) % divisor != 0 {
        return Dependence::Independent;
    }
    if left.coefficient == right.coefficient && left.coefficient != 0 {
        proof {
            // Both accesses walk one line of cells, so the divisor is its stride.
            let m = magnitude(left.coefficient as int);
            lemma_divides_multiple(m, 1);
            assert(is_gcd(m, m, m));
            lemma_gcd_unique(m, m, m, divisor as nat);
            lemma_divides_combination(m, constant_delta as int, 0, -1, 0);
            assert(constant_delta * -1 + 0 * 0 == left.offset - right.offset);
        }
        let numerator: i64 = match left.offset.checked_sub(right.offset) {
            Some(numerator) => numerator,
            None => return Dependence::Potential,
        };
        let distance: i64 = match exact_quotient(numerator, left.coefficient) {
            Some(distance) => distance,
            None => {
                assert(numerator != 0) by (nonlinear_arith)
                    requires
                        !fits_i64(numerator as int / left.coefficient as int),
                        left.coefficient != 0,
                ;
                return Dependence::Potential;
            },
        };
        assert(distance == 0 <==> numerator == 0) by (nonlinear_arith)
            requires
                distance * left.coefficient == numerator,
                left.coefficient != 0,
        ;
        return if distance == 0 {
            Dependence::SameIteration
        } else {
            Dependence::LoopCarried { distance }
        };
    }
    proof {
        if left.coefficient == 0 && right.coefficient == 0 {
            assert(divides(0, divisor as int));
        }
    }
    Dependence::Potential
}

/// What a classification promises. Reads never stand in each other's way.
/// Independent accesses, one of them a write, never meet on their base.
/// Accesses at a distance meet in exactly those iterations that are the
/// distance apart; accesses of the same iteration meet there and nowhere else,
/// unless their cell does not move at all.
pub proof fn law_classification_is_sound(left: AffineAccess, right: AffineAccess)
    ensures
        left.kind == AccessKind::Read && right.kind == AccessKind::Read ==> classification(
            left,
            right,
        ) == Dependence::Independent,
        classification(left, right) == Dependence::Independent && conflicting(left, right)
            ==> never_meet(left, right),
        classification(left, right) == Dependence::SameIteration && left.coefficient != 0
            ==> forall|i: int, j: int|
            #[trigger] left.cell(i) == #[trigger] right.cell(j) <==> i == j,
        classification(left, right) matches Dependence::LoopCarried { distance } ==> distance != 0
            && forall|i: int, j: int|
            #[trigger] left.cell(i) == #[trigger] right.cell(j) <==> j == i + distance,
{
    let c = left.coefficient as int;
    match classification(left, right) {
        Dependence::SameIteration => {
            assert forall|i: int, j: int| c != 0 implies (#[trigger] left.cell(i)
                == #[trigger] right.cell(j) <==> i == j) by {
                assert(c != 0 && c * i == c * j ==> i == j) by (nonlinear_arith);
            }
        },
        Dependence::LoopCarried { distance } => {
            let (a, b) = choose|a: int, b: int|
                #[trigger] left.cell(a) == #[trigger] right.cell(b);
            let gap = left.offset - right.offset;
            assert(c * (b - a) == c * b - c * a) by (nonlinear_arith);
            assert(c != 0) by (nonlinear_arith)
                requires
                    c * (b - a) == gap,
                    gap != 0,
            ;
            assert(gap / c == b - a) by (nonlinear_arith)
                requires
                    c * (b - a) == gap,
                    c != 0,
            ;
            assert forall|i: int, j: int|
                #[trigger] left.cell(i) == #[trigger] right.cell(j) <==> j == i + distance by {
                assert(c * (j - i) == c * j - c * i) by (nonlinear_arith);
                assert(c != 0 && c * (j - i) == c * (b - a) ==> j - i == b - a)
                    by (nonlinear_arith);
            }
            assert(distance != 0) by (nonlinear_arith)
                requires
                    distance == b - a,
                    c * (b - a) == gap,
                    gap != 0,
            ;
        },
        _ => {},
    }
}

/// Where a classification is owed. Accesses to different bases and reads are
/// independent. Accesses with one coefficient whose offsets are not too far apart
/// are told apart for certain: of the same iteration where the offsets are equal,
/// else at a distance where some iterations meet, else independent.
pub proof fn law_classification_is_decisive(left: AffineAccess, right: AffineAccess)
    ensures
        left.base != right.base ==> classification(left, right) == Dependence::Independent,
        left.kind == AccessKind::Read && right.kind == AccessKind::Read ==> classification(
            left,
            right,
        ) == Dependence::Independent,
        left.base == right.base && (left.kind == AccessKind::Write || right.kind
            == AccessKind::Write) && left.coefficient == right.coefficient
            && -0x7FFF_FFFF_FFFF_FFFF <= left.offset - right.offset <= 0x7FFF_FFFF_FFFF_FFFF ==> {
            &&& !(classification(left, right) is Potential)
            &&& classification(left, right) is SameIteration <==> left.offset == right.offset
            &&& classification(left, right) is Independent <==> forall|i: int, j: int|
                #[trigger] left.cell(i) != #[trigger] right.cell(j)
        },
        left.base == right.base && (left.kind == AccessKind::Write || right.kind
            == AccessKind::Write) && left.coefficient != right.coefficient && -0x8000_0000_0000_0000
            <= right.offset - left.offset <= 0x7FFF_FFFF_FFFF_FFFF ==> {
            &&& classification(left, right) is Independent || classification(left, right)
                is Potential
            &&& classification(left, right) is Independent <==> forall|i: int, j: int|
                #[trigger] left.cell(i) != #[trigger] right.cell(j)
        },
{
    if left.base == right.base && left.coefficient == right.coefficient {
        if left.offset == right.offset {
            assert(left.cell(0) == right.cell(0));
            assert(!never_meet(left, right));
        } else if !never_meet(left, right) {
            let c = left.coefficient as int;
            let gap = left.offset - right.offset;
            let (a, b) = choose|a: int, b: int| #[trigger] left.cell(a) == #[trigger] right.cell(b);
            assert(c * (b - a) == c * b - c * a) by (nonlinear_arith);
            let d = b - a;
            assert(c * d == gap);
            assert(c != 0 && d == gap / c) by (nonlinear_arith)
                requires
                    c * d == gap,
                    gap != 0,
            ;
            if -0x7FFF_FFFF_FFFF_FFFF <= gap <= 0x7FFF_FFFF_FFFF_FFFF {
                assert(-0x7FFF_FFFF_FFFF_FFFF <= d <= 0x7FFF_FFFF_FFFF_FFFF) by (nonlinear_arith)
                    requires
                        c * d == gap,
                        c != 0,
                        -0x7FFF_FFFF_FFFF_FFFF <= gap <= 0x7FFF_FFFF_FFFF_FFFF,
                ;
            }
        }
    }
}

} // verus!
