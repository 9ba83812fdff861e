//! Why a loop stays scalar.

use vstd::prelude::*;

verus! {

/// The reason for leaving a loop scalar.
#[derive(Clone, Copy, Debug, PartialEq, Eq, Structural)]
pub enum Rejection {
    InstructionBudgetExceeded,
    LoopValueLiveOut,
    DisabledByLoopMetadata,
    LiveOutPhi,
    InductionTypeMustBeI64,
    NonCanonicalPhi,
    InductionMustStartAtZero,
    InductionStepMustBeOne,
    MultipleHeaderPhis,
    MissingCanonicalInduction,
    PreheaderTerminatorMustBeBranch,
    LoopNeedsUniquePreheader,
    AlreadyVectorized,
    LatchConditionMustBeIcmp,
    LatchMustCompareNextInduction,
    TripCountNotLoopInvariant,
    UnsupportedLatchPredicate,
    InductionNextHasDataUse,
    LatchCompareHasDataUse,
    GepMustHaveOneIndex,
    PointerBaseNotLoopInvariant,
    UnsupportedPointerBase,
    NonAffineIndex,
    NonConstantAffineOffset,
    AffineOffsetOverflow,
    UnsupportedMemoryElementType,
    AffineIndexHasDataUse,
    UnsupportedScalarType,
    UnusedGep,
    GepHasNonMemoryUse,
    VolatileOrAtomicMemory,
    MemoryPointerMustBeLoopGep,
    MixedSizeMemoryAccess,
    UnsupportedComputeDependency,
    UnsupportedInstruction,
    NoMemoryAccess,
    MemoryAccessBudgetExceeded,
    PossiblePointerAlias,
    MixedTypeMemoryDependence,
    LoopCarriedMemoryDependence,
    LoadPointerNotWidened,
    StoreInputNotWidened,
    ComputeInputNotWidened,
    NotProfitable,
    IncompatibleTargetMemoryLayout,
}

impl Rejection {
    /// The reason as diagnostics spell it.
    pub open spec fn text(self) -> Seq<char> {
        match self {
            Rejection::InstructionBudgetExceeded => "instruction-budget-exceeded"@,
            Rejection::LoopValueLiveOut => "loop-value-live-out"@,
            Rejection::DisabledByLoopMetadata => "disabled-by-loop-metadata"@,
            Rejection::LiveOutPhi => "live-out-phi"@,
            Rejection::InductionTypeMustBeI64 => "induction-type-must-be-i64"@,
            Rejection::NonCanonicalPhi => "non-canonical-phi"@,
            Rejection::InductionMustStartAtZero => "induction-must-start-at-zero"@,
            Rejection::InductionStepMustBeOne => "induction-step-must-be-one"@,
            Rejection::MultipleHeaderPhis => "multiple-header-phis"@,
            Rejection::MissingCanonicalInduction => "missing-canonical-induction"@,
            Rejection::PreheaderTerminatorMustBeBranch => "preheader-terminator-must-be-branch"@,
            Rejection::LoopNeedsUniquePreheader => "loop-needs-unique-preheader"@,
            Rejection::AlreadyVectorized => "already-vectorized"@,
            Rejection::LatchConditionMustBeIcmp => "latch-condition-must-be-icmp"@,
            Rejection::LatchMustCompareNextInduction => "latch-must-compare-next-induction"@,
            Rejection::TripCountNotLoopInvariant => "trip-count-not-loop-invariant"@,
            Rejection::UnsupportedLatchPredicate => "unsupported-latch-predicate"@,
            Rejection::InductionNextHasDataUse => "induction-next-has-data-use"@,
            Rejection::LatchCompareHasDataUse => "latch-compare-has-data-use"@,
            Rejection::GepMustHaveOneIndex => "gep-must-have-one-index"@,
            Rejection::PointerBaseNotLoopInvariant => "pointer-base-not-loop-invariant"@,
            Rejection::UnsupportedPointerBase => "unsupported-pointer-base"@,
            Rejection::NonAffineIndex => "non-affine-index"@,
            Rejection::NonConstantAffineOffset => "non-constant-affine-offset"@,
            Rejection::AffineOffsetOverflow => "affine-offset-overflow"@,
            Rejection::UnsupportedMemoryElementType => "unsupported-memory-element-type"@,
            Rejection::AffineIndexHasDataUse => "affine-index-has-data-use"@,
            Rejection::UnsupportedScalarType => "unsupported-scalar-type"@,
            Rejection::UnusedGep => "unused-gep"@,
            Rejection::GepHasNonMemoryUse => "gep-has-non-memory-use"@,
            Rejection::VolatileOrAtomicMemory => "volatile-or-atomic-memory"@,
            Rejection::MemoryPointerMustBeLoopGep => "memory-pointer-must-be-loop-gep"@,
            Rejection::MixedSizeMemoryAccess => "mixed-size-memory-access"@,
            Rejection::UnsupportedComputeDependency => "unsupported-compute-dependency"@,
            Rejection::UnsupportedInstruction => "unsupported-instruction"@,
            Rejection::NoMemoryAccess => "no-memory-access"@,
            Rejection::MemoryAccessBudgetExceeded => "memory-access-budget-exceeded"@,
            Rejection::PossiblePointerAlias => "possible-pointer-alias"@,
            Rejection::MixedTypeMemoryDependence => "mixed-type-memory-dependence"@,
            Rejection::LoopCarriedMemoryDependence => "loop-carried-memory-dependence"@,
            Rejection::LoadPointerNotWidened => "load-pointer-not-widened"@,
            Rejection::StoreInputNotWidened => "store-input-not-widened"@,
            Rejection::ComputeInputNotWidened => "compute-input-not-widened"@,
            Rejection::NotProfitable => "not-profitable"@,
            Rejection::IncompatibleTargetMemoryLayout => "incompatible-target-memory-layout"@,
        }
    }

    /// The reason as diagnostics spell it.
    pub fn reason(self) -> (text: &'static str)
        ensures
            text@ == self.text(),
    {
        match self {
            Rejection::InstructionBudgetExceeded => "instruction-budget-exceeded",
            Rejection::LoopValueLiveOut => "loop-value-live-out",
            Rejection::DisabledByLoopMetadata => "disabled-by-loop-metadata",
            Rejection::LiveOutPhi => "live-out-phi",
            Rejection::InductionTypeMustBeI64 => "induction-type-must-be-i64",
            Rejection::NonCanonicalPhi => "non-canonical-phi",
            Rejection::InductionMustStartAtZero => "induction-must-start-at-zero",
            Rejection::InductionStepMustBeOne => "induction-step-must-be-one",
            Rejection::MultipleHeaderPhis => "multiple-header-phis",
            Rejection::MissingCanonicalInduction => "missing-canonical-induction",
            Rejection::PreheaderTerminatorMustBeBranch => "preheader-terminator-must-be-branch",
            Rejection::LoopNeedsUniquePreheader => "loop-needs-unique-preheader",
            Rejection::AlreadyVectorized => "already-vectorized",
            Rejection::LatchConditionMustBeIcmp => "latch-condition-must-be-icmp",
            Rejection::LatchMustCompareNextInduction => "latch-must-compare-next-induction",
            Rejection::TripCountNotLoopInvariant => "trip-count-not-loop-invariant",
            Rejection::UnsupportedLatchPredicate => "unsupported-latch-predicate",
            Rejection::InductionNextHasDataUse => "induction-next-has-data-use",
            Rejection::LatchCompareHasDataUse => "latch-compare-has-data-use",
            Rejection::GepMustHaveOneIndex => "gep-must-have-one-index",
            Rejection::PointerBaseNotLoopInvariant => "pointer-base-not-loop-invariant",
            Rejection::UnsupportedPointerBase => "unsupported-pointer-base",
            Rejection::NonAffineIndex => "non-affine-index",
            Rejection::NonConstantAffineOffset => "non-constant-affine-offset",
            Rejection::AffineOffsetOverflow => "affine-offset-overflow",
            Rejection::UnsupportedMemoryElementType => "unsupported-memory-element-type",
            Rejection::AffineIndexHasDataUse => "affine-index-has-data-use",
            Rejection::UnsupportedScalarType => "unsupported-scalar-type",
            Rejection::UnusedGep => "unused-gep",
            Rejection::GepHasNonMemoryUse => "gep-has-non-memory-use",
            Rejection::VolatileOrAtomicMemory => "volatile-or-atomic-memory",
            Rejection::MemoryPointerMustBeLoopGep => "memory-pointer-must-be-loop-gep",
            Rejection::MixedSizeMemoryAccess => "mixed-size-memory-access",
            Rejection::UnsupportedComputeDependency => "unsupported-compute-dependency",
            Rejection::UnsupportedInstruction => "unsupported-instruction",
            Rejection::NoMemoryAccess => "no-memory-access",
            Rejection::MemoryAccessBudgetExceeded => "memory-access-budget-exceeded",
            Rejection::PossiblePointerAlias => "possible-pointer-alias",
            Rejection::MixedTypeMemoryDependence => "mixed-type-memory-dependence",
            Rejection::LoopCarriedMemoryDependence => "loop-carried-memory-dependence",
            Rejection::LoadPointerNotWidened => "load-pointer-not-widened",
            Rejection::StoreInputNotWidened => "store-input-not-widened",
            Rejection::ComputeInputNotWidened => "compute-input-not-widened",
            Rejection::NotProfitable => "not-profitable",
            Rejection::IncompatibleTargetMemoryLayout => "incompatible-target-memory-layout",
        }
    }
}

/// The outcome of `count` checks made in order: the first rejection, if any.
pub open spec fn first_rejection(
    check: spec_fn(int) -> Option<Rejection>,
    count: nat,
) -> Result<(), Rejection>
    decreases count,
{
    if count == 0 {
        Ok(())
    } else {
        match first_rejection(check, (count - 1) as nat) {
            Err(rejection) => Err(rejection),
            Ok(()) => match check(count - 1) {
                Some(rejection) => Err(rejection),
                None => Ok(()),
            },
        }
    }
}

/// Checks made in order pass exactly when each of them passes.
pub proof fn lemma_first_rejection_ok(check: spec_fn(int) -> Option<Rejection>, count: nat)
    ensures
        first_rejection(check, count) is Ok <==> forall|k: int|
            0 <= k < count ==> (#[trigger] check(k)) is None,
    decreases count,
{
    if count > 0 {
        lemma_first_rejection_ok(check, (count - 1) as nat);
        if first_rejection(check, count) is Ok {
            assert forall|k: int| 0 <= k < count implies (#[trigger] check(k)) is None by {
                if k < count - 1 {
                }
            }
        } else if first_rejection(check, (count - 1) as nat) is Ok {
            assert(check(count - 1) is Some);
        }
    }
}

/// A rejection that no earlier check pre-empts is the outcome.
pub proof fn lemma_first_rejection_err(
    check: spec_fn(int) -> Option<Rejection>,
    position: nat,
    count: nat,
)
    requires
        position < count,
        first_rejection(check, position) is Ok,
        check(position as int) is Some,
    ensures
        first_rejection(check, count) == Err::<(), Rejection>(check(position as int)->0),
    decreases count,
{
    if count > position + 1 {
        lemma_first_rejection_err(check, position, (count - 1) as nat);
    }
}

/// A rejection by an ordered check is the rejection of one of its positions, and
/// every earlier position passes.
pub proof fn lemma_first_rejection_cause(check: spec_fn(int) -> Option<Rejection>, count: nat) -> (k:
    int)
    requires
        first_rejection(check, count) is Err,
    ensures
        0 <= k < count,
        check(k) == Some(first_rejection(check, count)->Err_0),
        forall|j: int| 0 <= j < k ==> (#[trigger] check(j)) is None,
    decreases count,
{
    if first_rejection(check, (count - 1) as nat) is Err {
        lemma_first_rejection_cause(check, (count - 1) as nat)
    } else {
        lemma_first_rejection_ok(check, (count - 1) as nat);
        count - 1
    }
}

} // verus!
