//! Pass configuration: policy profiles, forced widths and their thresholds.

use vstd::prelude::*;

verus! {

/// How cautious the automatic vectorization policy is.
#[derive(Clone, Copy, Debug, PartialEq, Eq, Structural)]
pub enum Heuristic {
    Conservative,
    Balanced,
    Aggressive,
}

impl Heuristic {
    /// The profile that a plugin configuration word selects.
    pub open spec fn spec_from_ffi(value: u32) -> Heuristic {
        if value == 0 {
            Heuristic::Conservative
        } else if value == 2 {
            Heuristic::Aggressive
        } else {
            Heuristic::Balanced
        }
    }

    /// Decodes a configuration word. Every word selects some profile; unknown
    /// ones select the balanced profile.
    pub fn from_ffi(value: u32) -> (heuristic: Heuristic)
        ensures
            heuristic == Heuristic::spec_from_ffi(value),
    {
        match value {
            0 => Heuristic::Conservative,
            2 => Heuristic::Aggressive,
            _ => Heuristic::Balanced,
        }
    }

    /// The minimum estimated trip count, in vectors, of the automatic policy.
    pub open spec fn minimum_vectors(self) -> nat {
        match self {
            Heuristic::Conservative => 4,
            Heuristic::Balanced => 2,
            Heuristic::Aggressive => 1,
        }
    }

    /// The required ratio of scalar cost to vector cost, in percent.
    pub open spec fn required_percent(self) -> nat {
        match self {
            Heuristic::Conservative => 125,
            Heuristic::Balanced => 108,
            Heuristic::Aggressive => 100,
        }
    }
}

/// The configuration words that the pass adapter hands over.
#[derive(Clone, Copy, Debug, PartialEq, Eq, Structural)]
pub struct RVPassConfig {
    pub heuristic: u32,
    pub forced_vf: u32,
    pub emit_remarks: u32,
}

/// A decoded pass configuration.
#[derive(Clone, Copy, Debug)]
pub struct PassConfig {
    pub heuristic: Heuristic,
    pub forced_vf: Option<u32>,
    pub emit_remarks: bool,
}

impl PassConfig {
    /// The configuration in force when `forced_vf` is the raw width word, in
    /// which zero stands for an automatic width.
    pub fn new(heuristic: Heuristic, forced_vf: u32, emit_remarks: bool) -> (config: PassConfig)
        ensures
            config.heuristic == heuristic,
            config.forced_vf == (if forced_vf == 0 {
                None
            } else {
                Some(forced_vf)
            }),
            config.emit_remarks == emit_remarks,
    {
        PassConfig {
            heuristic,
            forced_vf: if forced_vf == 0 {
                None
            } else {
                Some(forced_vf)
            },
            emit_remarks,
        }
    }

    /// Decodes the adapter's configuration words.
    pub fn from_words(words: RVPassConfig) -> (config: PassConfig)
        ensures
            config.heuristic == Heuristic::spec_from_ffi(words.heuristic),
            config.forced_vf == (if words.forced_vf == 0 {
                None
            } else {
                Some(words.forced_vf)
            }),
            config.emit_remarks == (words.emit_remarks != 0),
    {
        PassConfig::new(
            Heuristic::from_ffi(words.heuristic),
            words.forced_vf,
            words.emit_remarks != 0,
        )
    }

    /// The width of the vectors that the automatic policy plans for. Fixed
    /// 128-bit vectors are the portable baseline of AArch64 and SSE targets.
    pub fn vector_bits(self) -> (bits: u32)
        ensures
            bits == 128,
    {
        128
    }

    /// The trip count below which a loop stays scalar at `vf` lanes.
    pub open spec fn spec_minimum_trip_count(self, vf: nat) -> nat {
        if self.forced_vf is Some {
            vf
        } else {
            self.heuristic.minimum_vectors() * vf
        }
    }

    /// The trip count below which a loop stays scalar at `vf` lanes.
    pub fn minimum_trip_count(self, vf: u32) -> (count: u64)
        ensures
            count == self.spec_minimum_trip_count(vf as nat),
    {
        if self.forced_vf.is_some() {
            return vf as u64;
        }
        match self.heuristic {
            Heuristic::Conservative => 4 * vf as u64,
            Heuristic::Balanced => 2 * vf as u64,
            Heuristic::Aggressive => vf as u64,
        }
    }

    /// The required ratio of scalar cost to vector cost, in percent.
    pub fn required_speedup_x100(self) -> (percent: u64)
        ensures
            percent == self.heuristic.required_percent(),
    {
        match self.heuristic {
            Heuristic::Conservative => 125,
            Heuristic::Balanced => 108,
            Heuristic::Aggressive => 100,
        }
    }
}

/// The numbers by which an adapter names policies: zero is conservative, two
/// aggressive, and one, like any number that names none, balanced.
pub proof fn law_policies_have_numbers(value: u32)
    ensures
        Heuristic::spec_from_ffi(value) == Heuristic::Conservative <==> value == 0,
        Heuristic::spec_from_ffi(value) == Heuristic::Aggressive <==> value == 2,
        Heuristic::spec_from_ffi(value) == Heuristic::Balanced <==> value == 1 || value > 2,
{
}

} // verus!
