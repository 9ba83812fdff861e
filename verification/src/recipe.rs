//! The instructions that a rewrite adds around a vectorized loop.

use crate::ir::{BlockId, Flags, IntPredicate, Opcode, ScalarType, ValueId};
use vstd::prelude::*;

verus! {

/// An operand of an added instruction.
#[derive(Clone, Copy, Debug, PartialEq, Eq, Structural)]
pub enum Operand {
    /// A value of the function as it was.
    Original(ValueId),
    /// A 64-bit integer constant.
    Constant(u64),
    /// The constant vector of lane numbers.
    LaneNumbers,
    /// The result of the added instruction with this number.
    Result(usize),
}

/// The blocks that a rewrite adds, in front of the scalar header.
#[derive(Clone, Copy, Debug, PartialEq, Eq, Structural)]
pub enum NewBlock {
    Dispatch,
    VectorBody,
    VectorExit,
}

impl NewBlock {
    /// The name of the block.
    pub open spec fn text(self) -> Seq<char> {
        match self {
            NewBlock::Dispatch => "rv.vector.dispatch"@,
            NewBlock::VectorBody => "rv.vector.body"@,
            NewBlock::VectorExit => "rv.vector.exit"@,
        }
    }

    /// The name of the block.
    pub fn name(self) -> (text: &'static str)
        ensures
            text@ == self.text(),
    {
        match self {
            NewBlock::Dispatch => "rv.vector.dispatch",
            NewBlock::VectorBody => "rv.vector.body",
            NewBlock::VectorExit => "rv.vector.exit",
        }
    }
}

/// A branch destination.
#[derive(Clone, Copy, Debug, PartialEq, Eq, Structural)]
pub enum Target {
    New(NewBlock),
    Existing(BlockId),
}

/// What an added value is called.
#[derive(Clone, Copy, Debug, PartialEq, Eq, Structural)]
pub enum Label {
    EnoughIterations,
    VectorTripCount,
    Index,
    LaneIndices,
    IndexNext,
    VectorDone,
    HasRemainder,
    AddressIndex,
    WidePointer,
    WideLoad,
    Splat,
    Negation,
    IntegerComparison,
    FloatComparison,
    Selection,
    Conversion,
    Arithmetic,
    Unnamed,
}

impl Label {
    /// The name of the value.
    pub open spec fn text(self) -> Seq<char> {
        match self {
            Label::EnoughIterations => "rv.enough.iterations"@,
            Label::VectorTripCount => "rv.vector.trip.count"@,
            Label::Index => "rv.index"@,
            Label::LaneIndices => "rv.lane.indices"@,
            Label::IndexNext => "rv.index.next"@,
            Label::VectorDone => "rv.vector.done"@,
            Label::HasRemainder => "rv.has.remainder"@,
            Label::AddressIndex => "rv.address.index"@,
            Label::WidePointer => "rv.wide.ptr"@,
            Label::WideLoad => "rv.wide.load"@,
            Label::Splat => "rv.splat"@,
            Label::Negation => "rv.fneg"@,
            Label::IntegerComparison => "rv.icmp"@,
            Label::FloatComparison => "rv.fcmp"@,
            Label::Selection => "rv.select"@,
            Label::Conversion => "rv.cast"@,
            Label::Arithmetic => "rv.binop"@,
            Label::Unnamed => ""@,
        }
    }

    /// The name of the value.
    pub fn name(self) -> (text: &'static str)
        ensures
            text@ == self.text(),
    {
        match self {
            Label::EnoughIterations => "rv.enough.iterations",
            Label::VectorTripCount => "rv.vector.trip.count",
            Label::Index => "rv.index",
            Label::LaneIndices => "rv.lane.indices",
            Label::IndexNext => "rv.index.next",
            Label::VectorDone => "rv.vector.done",
            Label::HasRemainder => "rv.has.remainder",
            Label::AddressIndex => "rv.address.index",
            Label::WidePointer => "rv.wide.ptr",
            Label::WideLoad => "rv.wide.load",
            Label::Splat => "rv.splat",
            Label::Negation => "rv.fneg",
            Label::IntegerComparison => "rv.icmp",
            Label::FloatComparison => "rv.fcmp",
            Label::Selection => "rv.select",
            Label::Conversion => "rv.cast",
            Label::Arithmetic => "rv.binop",
            Label::Unnamed => "",
        }
    }
}

/// One added instruction.
#[derive(Clone, Copy, Debug, PartialEq, Eq, Structural)]
pub enum Step {
    /// The index of the first lane of the current vector.
    IndexPhi,
    /// A comparison of two indices.
    CompareIndex { predicate: IntPredicate, left: Operand, right: Operand, label: Label },
    /// A bitwise conjunction of two indices.
    MaskIndex { left: Operand, right: Operand },
    /// A sum of two indices.
    AddIndex { left: Operand, right: Operand, label: Label },
    /// A lane-wise sum of two vectors of indices.
    AddLanes { left: Operand, right: Operand },
    Branch { condition: Operand, on_true: Target, on_false: Target },
    /// A vector with one scalar in every lane.
    Splat { scalar: Operand, element_type: ScalarType },
    /// The address of the first element of a vector access.
    Address { base: ValueId, index: Operand, element_type: ScalarType, inbounds: bool },
    Load { pointer: Operand, element_type: ScalarType, alignment: u32 },
    Store { value: Operand, pointer: Operand, alignment: u32 },
    Negate { operand: Operand, flags: Flags },
    CompareIntegers { predicate: IntPredicate, left: Operand, right: Operand, flags: Flags },
    CompareFloats { float_predicate: u32, left: Operand, right: Operand, flags: Flags },
    Select { condition: Operand, if_true: Operand, if_false: Operand, flags: Flags },
    Convert { opcode: Opcode, operand: Operand, element_type: ScalarType, flags: Flags },
    Binary { opcode: Opcode, left: Operand, right: Operand, flags: Flags },
}

impl Step {
    /// What the result of the instruction is called.
    pub open spec fn spec_label(self) -> Label {
        match self {
            Step::IndexPhi => Label::Index,
            Step::CompareIndex { label, .. } => label,
            Step::MaskIndex { .. } => Label::VectorTripCount,
            Step::AddIndex { label, .. } => label,
            Step::AddLanes { .. } => Label::LaneIndices,
            Step::Branch { .. } => Label::Unnamed,
            Step::Splat { .. } => Label::Splat,
            Step::Address { .. } => Label::WidePointer,
            Step::Load { .. } => Label::WideLoad,
            Step::Store { .. } => Label::Unnamed,
            Step::Negate { .. } => Label::Negation,
            Step::CompareIntegers { .. } => Label::IntegerComparison,
            Step::CompareFloats { .. } => Label::FloatComparison,
            Step::Select { .. } => Label::Selection,
            Step::Convert { .. } => Label::Conversion,
            Step::Binary { .. } => Label::Arithmetic,
        }
    }

    /// What the result of the instruction is called.
    pub fn label(self) -> (label: Label)
        ensures
            label == self.spec_label(),
    {
        match self {
            Step::IndexPhi => Label::Index,
            Step::CompareIndex { label, .. } => label,
            Step::MaskIndex { .. } => Label::VectorTripCount,
            Step::AddIndex { label, .. } => label,
            Step::AddLanes { .. } => Label::LaneIndices,
            Step::Branch { .. } => Label::Unnamed,
            Step::Splat { .. } => Label::Splat,
            Step::Address { .. } => Label::WidePointer,
            Step::Load { .. } => Label::WideLoad,
            Step::Store { .. } => Label::Unnamed,
            Step::Negate { .. } => Label::Negation,
            Step::CompareIntegers { .. } => Label::IntegerComparison,
            Step::CompareFloats { .. } => Label::FloatComparison,
            Step::Select { .. } => Label::Selection,
            Step::Convert { .. } => Label::Conversion,
            Step::Binary { .. } => Label::Arithmetic,
        }
    }
}

/// An incoming entry that is given to a PHI.
#[derive(Clone, Copy, Debug, PartialEq, Eq, Structural)]
pub struct Incoming {
    pub value: Operand,
    pub block: NewBlock,
}

/// A complete rewrite of one loop. Added instructions are numbered through:
/// those of the dispatch block first, then the vector body, then its exit.
pub struct Rewrite {
    pub vf: u32,
    /// The scalar header, in front of which the blocks are inserted.
    pub header: BlockId,
    /// The block whose edge now leads to the dispatch block.
    pub preheader: BlockId,
    pub preheader_successor_index: usize,
    /// The scalar induction, whose outside entry now comes from the dispatch
    /// block.
    pub induction: ValueId,
    pub outside_phi_index: usize,
    pub dispatch: Vec<Step>,
    pub vector_body: Vec<Step>,
    pub vector_exit: Vec<Step>,
    /// The entries of the index PHI.
    pub index_entry: Incoming,
    pub index_back_edge: Incoming,
    /// The entry that the scalar induction gains, for the remainder.
    pub remainder_entry: Incoming,
}

} // verus!
