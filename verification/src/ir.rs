//! A snapshot of one function's intermediate representation: what the analysis
//! reads of it, as plain values that refer to each other by position.

use vstd::prelude::*;

verus! {

/// The position of a value in [`Function::values`].
pub type ValueId = usize;

/// The position of a block in [`Function::blocks`].
pub type BlockId = usize;

/// The type of a value. Types outside the supported scalars are told apart by
/// number only.
#[derive(Clone, Copy, Debug, PartialEq, Eq, Structural)]
pub enum ScalarType {
    Integer(u32),
    Half,
    Float,
    Double,
    Other(usize),
}

/// Instruction opcodes that the pass tells apart.
#[derive(Clone, Copy, Debug, PartialEq, Eq, Structural)]
pub enum Opcode {
    Br,
    Phi,
    GetElementPtr,
    Load,
    Store,
    Add,
    FAdd,
    Sub,
    FSub,
    Mul,
    FMul,
    UDiv,
    SDiv,
    FDiv,
    URem,
    SRem,
    FRem,
    Shl,
    LShr,
    AShr,
    And,
    Or,
    Xor,
    FNeg,
    Trunc,
    ZExt,
    SExt,
    FPToUI,
    FPToSI,
    UIToFP,
    SIToFP,
    FPTrunc,
    FPExt,
    PtrToInt,
    IntToPtr,
    BitCast,
    AddrSpaceCast,
    ICmp,
    FCmp,
    Select,
    Other,
}

/// Predicates of integer comparisons.
#[derive(Clone, Copy, Debug, PartialEq, Eq, Structural)]
pub enum IntPredicate {
    Eq,
    Ne,
    Ugt,
    Uge,
    Ult,
    Ule,
    Sgt,
    Sge,
    Slt,
    Sle,
}

/// Semantic flags that widened operations inherit.
#[derive(Clone, Copy, Debug, PartialEq, Eq, Structural)]
pub struct Flags {
    pub nuw: bool,
    pub nsw: bool,
    pub exact: bool,
    /// The fast-math bits, on operations that can carry them.
    pub fast_math: Option<u32>,
}

/// What distinguishes one instruction. Fields that an opcode has no use for are
/// left at any value.
#[derive(Debug)]
pub struct Instruction {
    pub opcode: Opcode,
    /// The block that holds the instruction.
    pub parent: BlockId,
    /// Value operands in order: a branch has its condition, a load its pointer,
    /// a store its value and pointer, an address its base and indices, a PHI
    /// its incoming values.
    pub operands: Vec<ValueId>,
    /// Destinations of a terminator.
    pub successors: Vec<BlockId>,
    /// Incoming blocks of a PHI, parallel to its operands.
    pub incoming_blocks: Vec<BlockId>,
    pub int_predicate: IntPredicate,
    pub float_predicate: u32,
    /// Source element type of an address computation.
    pub element_type: ScalarType,
    pub volatile: bool,
    pub atomic: bool,
    pub alignment: u32,
    pub inbounds: bool,
    pub flags: Flags,
    /// Whether a terminator carries metadata that disables vectorization.
    pub vectorize_disabled: bool,
}

/// The kinds of values that the analysis tells apart.
#[derive(Debug)]
pub enum ValueKind {
    Argument,
    GlobalVariable,
    ConstantInt { signed: i64, unsigned: u64 },
    Instruction(Instruction),
    Other,
}

/// A value with its type and the values that use it.
#[derive(Debug)]
pub struct Value {
    pub ty: ScalarType,
    pub kind: ValueKind,
    pub users: Vec<ValueId>,
}

/// A basic block: its instructions in order, and its terminator if it has one.
#[derive(Debug)]
pub struct Block {
    pub name: String,
    pub instructions: Vec<ValueId>,
    pub terminator: Option<ValueId>,
}

/// A function parameter and whether it is marked `noalias`.
#[derive(Clone, Copy, Debug, PartialEq, Eq, Structural)]
pub struct Parameter {
    pub value: ValueId,
    pub noalias: bool,
}

/// A fact about the target: `vf` elements behind `base` have the layout of one
/// fixed vector.
#[derive(Clone, Copy, Debug, PartialEq, Eq, Structural)]
pub struct PackedLayout {
    pub base: ValueId,
    pub element_type: ScalarType,
    pub vf: u32,
}

/// One function of a module.
#[derive(Debug)]
pub struct Function {
    pub name: String,
    /// Whether the function asks not to be optimized.
    pub optnone: bool,
    pub parameters: Vec<Parameter>,
    pub blocks: Vec<Block>,
    pub values: Vec<Value>,
    /// Every layout that is known to be packed.
    pub packed_layouts: Vec<PackedLayout>,
}

/// The least number of value operands that an opcode has.
pub open spec fn operand_minimum(opcode: Opcode) -> nat {
    match opcode {
        Opcode::Br | Opcode::Phi | Opcode::Other => 0,
        Opcode::GetElementPtr | Opcode::Load | Opcode::FNeg | Opcode::Trunc | Opcode::ZExt
        | Opcode::SExt | Opcode::FPToUI | Opcode::FPToSI | Opcode::UIToFP | Opcode::SIToFP
        | Opcode::FPTrunc | Opcode::FPExt | Opcode::PtrToInt | Opcode::IntToPtr | Opcode::BitCast
        | Opcode::AddrSpaceCast => 1,
        Opcode::Select => 3,
        _ => 2,
    }
}

fn is_other(ty: ScalarType) -> (result: bool)
    ensures
        result == (ty is Other),
{
    match ty {
        ScalarType::Other(_) => true,
        _ => false,
    }
}

fn operand_count_minimum(opcode: Opcode) -> (count: usize)
    ensures
        count == operand_minimum(opcode),
{
    match opcode {
        Opcode::Br | Opcode::Phi | Opcode::Other => 0,
        Opcode::GetElementPtr | Opcode::Load | Opcode::FNeg | Opcode::Trunc | Opcode::ZExt
        | Opcode::SExt | Opcode::FPToUI | Opcode::FPToSI | Opcode::UIToFP | Opcode::SIToFP
        | Opcode::FPTrunc | Opcode::FPExt | Opcode::PtrToInt | Opcode::IntToPtr | Opcode::BitCast
        | Opcode::AddrSpaceCast => 1,
        Opcode::Select => 3,
        _ => 2,
    }
}

/// Whether every number of a list is below `limit`.
fn all_below(list: &Vec<usize>, limit: usize) -> (result: bool)
    ensures
        result == forall|k: int| 0 <= k < list@.len() ==> #[trigger] list@[k] < limit,
{
    let mut k: usize = 0;
    while k < list.len()
        invariant
            k <= list@.len(),
            forall|j: int| 0 <= j < k ==> #[trigger] list@[j] < limit,
        decreases list@.len() - k,
    {
        if list[k] >= limit {
            assert(!(list@[k as int] < limit));
            return false;
        }
        k += 1;
    }
    true
}

/// Whether a list holds a number.
pub fn contains_id(list: &Vec<usize>, id: usize) -> (result: bool)
    ensures
        result == list@.contains(id),
{
    let mut k: usize = 0;
    while k < list.len()
        invariant
            k <= list@.len(),
            forall|j: int| 0 <= j < k ==> #[trigger] list@[j] != id,
        decreases list@.len() - k,
    {
        if list[k] == id {
            assert(list@[k as int] == id);
            return true;
        }
        k += 1;
    }
    false
}

impl Instruction {
    /// Operand counts fit the opcode, and a two-way branch has a condition.
    pub open spec fn has_valid_shape(&self) -> bool {
        &&& self.operands@.len() >= operand_minimum(self.opcode)
        &&& self.opcode == Opcode::Br && self.successors@.len() == 2 ==> self.operands@.len() >= 1
        &&& self.opcode == Opcode::Phi ==> self.incoming_blocks@.len() == self.operands@.len()
    }
}

impl Function {
    /// The instruction that `v` is; meaningful for instructions only.
    pub open spec fn inst(&self, v: ValueId) -> Instruction {
        self.values@[v as int].kind->Instruction_0
    }

    /// `v` names a value of the function.
    pub open spec fn has_value(&self, v: ValueId) -> bool {
        v < self.values@.len()
    }

    /// `v` names an instruction.
    pub open spec fn is_instruction(&self, v: ValueId) -> bool {
        self.values@[v as int].kind is Instruction
    }

    /// `v` names an instruction with the given opcode.
    pub open spec fn is_op(&self, v: ValueId, opcode: Opcode) -> bool {
        self.is_instruction(v) && self.inst(v).opcode == opcode
    }

    /// `v` is an instruction of block `b`.
    pub open spec fn in_block(&self, v: ValueId, b: BlockId) -> bool {
        self.is_instruction(v) && self.inst(v).parent == b
    }

    /// Operand `k` of instruction `v`.
    pub open spec fn operand(&self, v: ValueId, k: int) -> ValueId {
        self.inst(v).operands@[k]
    }

    /// The instructions of block `b`, in order.
    pub open spec fn body(&self, b: BlockId) -> Seq<ValueId> {
        self.blocks@[b as int].instructions@
    }

    /// The value of an integer constant, read as signed.
    pub open spec fn signed_constant(&self, v: ValueId) -> Option<i64> {
        match self.values@[v as int].kind {
            ValueKind::ConstantInt { signed, .. } => Some(signed),
            _ => None,
        }
    }

    /// The value of an integer constant, read as unsigned.
    pub open spec fn unsigned_constant(&self, v: ValueId) -> Option<u64> {
        match self.values@[v as int].kind {
            ValueKind::ConstantInt { unsigned, .. } => Some(unsigned),
            _ => None,
        }
    }

    /// Every reference out of value `v` leads somewhere.
    pub open spec fn value_is_valid(&self, v: ValueId) -> bool {
        let value = self.values@[v as int];
        &&& forall|k: int|
            0 <= k < value.users@.len() ==> self.has_value(#[trigger] value.users@[k])
        &&& value.kind is Instruction ==> {
            let inst = value.kind->Instruction_0;
            &&& inst.parent < self.blocks@.len()
            &&& inst.has_valid_shape()
            &&& forall|k: int|
                0 <= k < inst.operands@.len() ==> self.has_value(#[trigger] inst.operands@[k])
            &&& self.types_agree(v)
            &&& forall|k: int|
                0 <= k < inst.successors@.len() ==> #[trigger] inst.successors@[k]
                    < self.blocks@.len()
            &&& forall|k: int|
                0 <= k < inst.incoming_blocks@.len() ==> #[trigger] inst.incoming_blocks@[k]
                    < self.blocks@.len()
        }
    }

    /// Block `b` lists instructions of its own, once each, and ends in one of
    /// them if it has a terminator.
    pub open spec fn block_is_valid(&self, b: BlockId) -> bool {
        let block = self.blocks@[b as int];
        &&& forall|k: int|
            0 <= k < block.instructions@.len() ==> self.has_value(
                #[trigger] block.instructions@[k],
            ) && self.in_block(block.instructions@[k], b)
        &&& forall|j: int, k: int|
            0 <= j < k < block.instructions@.len() ==> #[trigger] block.instructions@[j]
                != #[trigger] block.instructions@[k]
        &&& block.terminator matches Some(t) ==> self.has_value(t) && self.in_block(t, b)
    }

    /// The type of value `v`.
    pub open spec fn ty(&self, v: ValueId) -> ScalarType {
        self.values@[v as int].ty
    }

    /// The operands of instruction `v` have the types that its opcode demands:
    /// arithmetic keeps its type, comparisons compare alike and yield a bit, a
    /// scalar selection has a scalar condition, and an address is a pointer.
    pub open spec fn types_agree(&self, v: ValueId) -> bool {
        match self.inst(v).opcode {
            Opcode::Add | Opcode::FAdd | Opcode::Sub | Opcode::FSub | Opcode::Mul | Opcode::FMul
            | Opcode::UDiv | Opcode::SDiv | Opcode::FDiv | Opcode::URem | Opcode::SRem
            | Opcode::FRem | Opcode::Shl | Opcode::LShr | Opcode::AShr | Opcode::And | Opcode::Or
            | Opcode::Xor => self.ty(self.operand(v, 0)) == self.ty(v) && self.ty(
                self.operand(v, 1),
            ) == self.ty(v),
            Opcode::FNeg => self.ty(self.operand(v, 0)) == self.ty(v),
            Opcode::ICmp | Opcode::FCmp => {
                &&& self.ty(self.operand(v, 0)) == self.ty(self.operand(v, 1))
                &&& self.ty(self.operand(v, 0)) is Other || self.ty(v) == ScalarType::Integer(1)
            },
            Opcode::GetElementPtr => self.ty(v) is Other,
            Opcode::Select => {
                &&& self.ty(self.operand(v, 1)) == self.ty(v)
                &&& self.ty(self.operand(v, 2)) == self.ty(v)
                &&& self.ty(v) is Other || !(self.ty(self.operand(v, 0)) is Other)
            },
            _ => true,
        }
    }

    /// Whatever instruction `v` has as an operand lists `v` among its users.
    pub open spec fn uses_are_listed(&self, v: ValueId) -> bool {
        self.is_instruction(v) ==> forall|k: int|
            0 <= k < self.inst(v).operands@.len() ==> self.values@[(
            #[trigger] self.inst(v).operands@[k]) as int].users@.contains(v)
    }

    /// Every reference in the snapshot leads somewhere, so that the analysis
    /// can follow it, and use lists are complete.
    pub open spec fn wf(&self) -> bool {
        &&& forall|v: ValueId| #[trigger] self.has_value(v) ==> self.uses_are_listed(v)
        &&& forall|v: ValueId| #[trigger] self.has_value(v) ==> self.value_is_valid(v)
        &&& forall|b: BlockId| b < self.blocks@.len() ==> #[trigger] self.block_is_valid(b)
        &&& forall|k: int|
            0 <= k < self.parameters@.len() ==> self.has_value(
                (#[trigger] self.parameters@[k]).value,
            )
    }

    /// Whether the snapshot is well formed.
    pub fn is_valid(&self) -> (result: bool)
        ensures
            result == self.wf(),
    {
        let mut v: usize = 0;
        while v < self.values.len()
            invariant
                v <= self.values@.len(),
                forall|u: ValueId| u < v ==> #[trigger] self.value_is_valid(u),
            decreases self.values@.len() - v,
        {
            if !self.check_value(v) {
                assert(self.has_value(v));
                return false;
            }
            v += 1;
        }
        assert forall|u: ValueId| #[trigger] self.has_value(u) implies self.value_is_valid(u) by {}
        let mut u: usize = 0;
        while u < self.values.len()
            invariant
                u <= self.values@.len(),
                forall|v: ValueId| #[trigger] self.has_value(v) ==> self.value_is_valid(v),
                forall|v: ValueId| v < u ==> #[trigger] self.uses_are_listed(v),
            decreases self.values@.len() - u,
        {
            assert(self.has_value(u));
            if !self.check_uses(u) {
                return false;
            }
            u += 1;
        }
        let mut b: usize = 0;
        while b < self.blocks.len()
            invariant
                b <= self.blocks@.len(),
                forall|c: BlockId| c < b ==> #[trigger] self.block_is_valid(c),
            decreases self.blocks@.len() - b,
        {
            if !self.check_block(b) {
                return false;
            }
            b += 1;
        }
        let mut p: usize = 0;
        while p < self.parameters.len()
            invariant
                p <= self.parameters@.len(),
                forall|k: int|
                    0 <= k < p ==> self.has_value((#[trigger] self.parameters@[k]).value),
            decreases self.parameters@.len() - p,
        {
            if self.parameters[p].value >= self.values.len() {
                assert(!self.has_value(self.parameters@[p as int].value));
                return false;
            }
            p += 1;
        }
        true
    }

    fn check_uses(&self, v: ValueId) -> (result: bool)
        requires
            self.has_value(v),
            self.value_is_valid(v),
        ensures
            result == self.uses_are_listed(v),
    {
        let inst: &Instruction = match self.instruction(v) {
            Some(inst) => inst,
            None => return true,
        };
        let mut k: usize = 0;
        while k < inst.operands.len()
            invariant
                k <= inst.operands@.len(),
                self.has_value(v),
                self.value_is_valid(v),
                self.is_instruction(v),
                *inst == self.inst(v),
                forall|j: int|
                    0 <= j < k ==> self.values@[(
                    #[trigger] self.inst(v).operands@[j]) as int].users@.contains(v),
            decreases inst.operands@.len() - k,
        {
            assert(self.has_value(self.inst(v).operands@[k as int]));
            if !contains_id(&self.values[inst.operands[k]].users, v) {
                assert(!self.values@[self.inst(v).operands@[k as int] as int].users@.contains(v));
                return false;
            }
            k += 1;
        }
        true
    }

    fn check_value(&self, v: ValueId) -> (result: bool)
        requires
            self.has_value(v),
        ensures
            result == self.value_is_valid(v),
    {
        let count: usize = self.values.len();
        if !all_below(&self.values[v].users, count) {
            proof {
                let users = self.values@[v as int].users@;
                let k = choose|k: int| 0 <= k < users.len() && users[k] >= count;
                assert(!self.has_value(users[k]));
            }
            return false;
        }
        let inst: &Instruction = match self.instruction(v) {
            Some(inst) => inst,
            None => return true,
        };
        let blocks: usize = self.blocks.len();
        if inst.parent >= blocks || inst.operands.len() < operand_count_minimum(inst.opcode) {
            return false;
        }
        if inst.opcode == Opcode::Br && inst.successors.len() == 2 && inst.operands.len() < 1 {
            return false;
        }
        if inst.opcode == Opcode::Phi && inst.incoming_blocks.len() != inst.operands.len() {
            return false;
        }
        if !all_below(&inst.operands, count) {
            proof {
                let k = choose|k: int|
                    0 <= k < inst.operands@.len() && inst.operands@[k] >= count;
                assert(!self.has_value(inst.operands@[k]));
            }
            return false;
        }
        assert forall|k: int| 0 <= k < inst.operands@.len() implies self.has_value(
            #[trigger] inst.operands@[k],
        ) by {}
        self.check_types(v, inst) && all_below(&inst.successors, blocks) && all_below(
            &inst.incoming_blocks,
            blocks,
        )
    }

    fn check_types(&self, v: ValueId, inst: &Instruction) -> (result: bool)
        requires
            self.has_value(v),
            self.is_instruction(v),
            *inst == self.inst(v),
            inst.has_valid_shape(),
            forall|k: int|
                0 <= k < inst.operands@.len() ==> self.has_value(#[trigger] inst.operands@[k]),
        ensures
            result == self.types_agree(v),
    {
        let ty: ScalarType = self.values[v].ty;
        match inst.opcode {
            Opcode::Add | Opcode::FAdd | Opcode::Sub | Opcode::FSub | Opcode::Mul | Opcode::FMul
            | Opcode::UDiv | Opcode::SDiv | Opcode::FDiv | Opcode::URem | Opcode::SRem
            | Opcode::FRem | Opcode::Shl | Opcode::LShr | Opcode::AShr | Opcode::And | Opcode::Or
            | Opcode::Xor => self.values[inst.operands[0]].ty == ty
                && self.values[inst.operands[1]].ty == ty,
            Opcode::FNeg => self.values[inst.operands[0]].ty == ty,
            Opcode::ICmp | Opcode::FCmp => self.values[inst.operands[0]].ty
                == self.values[inst.operands[1]].ty && (is_other(
                self.values[inst.operands[0]].ty,
            ) || ty == ScalarType::Integer(1)),
            Opcode::GetElementPtr => is_other(ty),
            Opcode::Select => self.values[inst.operands[1]].ty == ty
                && self.values[inst.operands[2]].ty == ty && (is_other(ty) || !is_other(
                self.values[inst.operands[0]].ty,
            )),
            _ => true,
        }
    }

    fn check_block(&self, b: BlockId) -> (result: bool)
        requires
            b < self.blocks@.len(),
        ensures
            result == self.block_is_valid(b),
    {
        let block: &Block = &self.blocks[b];
        let mut k: usize = 0;
        while k < block.instructions.len()
            invariant
                b < self.blocks@.len(),
                *block == self.blocks@[b as int],
                k <= block.instructions@.len(),
                forall|j: int|
                    0 <= j < k ==> self.has_value(#[trigger] block.instructions@[j])
                        && self.in_block(block.instructions@[j], b),
                forall|i: int, j: int|
                    0 <= i < j < k ==> #[trigger] block.instructions@[i]
                        != #[trigger] block.instructions@[j],
            decreases block.instructions@.len() - k,
        {
            let v: ValueId = block.instructions[k];
            if v >= self.values.len() || !self.is_in_block(v, b) {
                assert(!(self.has_value(block.instructions@[k as int]) && self.in_block(v, b)));
                return false;
            }
            let mut j: usize = 0;
            while j < k
                invariant
                    *block == self.blocks@[b as int],
                    j <= k < block.instructions@.len(),
                    v == block.instructions@[k as int],
                    forall|i: int| 0 <= i < j ==> #[trigger] block.instructions@[i] != v,
                decreases k - j,
            {
                if block.instructions[j] == v {
                    assert(block.instructions@[j as int] == block.instructions@[k as int]);
                    return false;
                }
                j += 1;
            }
            k += 1;
        }
        match block.terminator {
            Some(t) => t < self.values.len() && self.is_in_block(t, b),
            None => true,
        }
    }

    /// The instruction that `v` is, if it is one.
    pub fn instruction(&self, v: ValueId) -> (result: Option<&Instruction>)
        requires
            self.has_value(v),
        ensures
            result is Some <==> self.is_instruction(v),
            result matches Some(inst) ==> *inst == self.inst(v),
    {
        match &self.values[v].kind {
            ValueKind::Instruction(inst) => Some(inst),
            _ => None,
        }
    }

    /// Whether `v` is an instruction with the given opcode.
    pub fn has_opcode(&self, v: ValueId, opcode: Opcode) -> (result: bool)
        requires
            self.has_value(v),
        ensures
            result == self.is_op(v, opcode),
    {
        match self.instruction(v) {
            Some(inst) => inst.opcode == opcode,
            None => false,
        }
    }

    /// Whether `v` is an instruction of block `b`.
    pub fn is_in_block(&self, v: ValueId, b: BlockId) -> (result: bool)
        requires
            self.has_value(v),
        ensures
            result == self.in_block(v, b),
    {
        match self.instruction(v) {
            Some(inst) => inst.parent == b,
            None => false,
        }
    }

    /// Whether `v` is the same in every iteration of the single-block loop at
    /// `header`.
    pub fn is_loop_invariant(&self, v: ValueId, header: BlockId) -> (result: bool)
        requires
            self.has_value(v),
        ensures
            result == !self.in_block(v, header),
    {
        !self.is_in_block(v, header)
    }

    /// The value of an integer constant, read as signed.
    pub fn constant_signed(&self, v: ValueId) -> (result: Option<i64>)
        requires
            self.has_value(v),
        ensures
            result == self.signed_constant(v),
    {
        match &self.values[v].kind {
            ValueKind::ConstantInt { signed, .. } => Some(*signed),
            _ => None,
        }
    }

    /// The value of an integer constant, read as unsigned.
    pub fn constant_unsigned(&self, v: ValueId) -> (result: Option<u64>)
        requires
            self.has_value(v),
        ensures
            result == self.unsigned_constant(v),
    {
        match &self.values[v].kind {
            ValueKind::ConstantInt { unsigned, .. } => Some(*unsigned),
            _ => None,
        }
    }
}

/// What is said of a value is read off its kind: a constant has its own number,
/// an instruction its own opcode and block, and nothing else has any.
pub proof fn law_values_are_what_they_are(f: Function, v: ValueId, opcode: Opcode, b: BlockId)
    ensures
        match f.values@[v as int].kind {
            ValueKind::ConstantInt { signed, unsigned } => {
                &&& f.signed_constant(v) == Some(signed)
                &&& f.unsigned_constant(v) == Some(unsigned)
                &&& !f.is_instruction(v) && !f.is_op(v, opcode) && !f.in_block(v, b)
            },
            ValueKind::Instruction(inst) => {
                &&& f.signed_constant(v) is None && f.unsigned_constant(v) is None
                &&& f.is_op(v, opcode) <==> inst.opcode == opcode
                &&& f.in_block(v, b) <==> inst.parent == b
                &&& f.inst(v) == inst
            },
            _ => {
                &&& f.signed_constant(v) is None && f.unsigned_constant(v) is None
                &&& !f.is_instruction(v) && !f.is_op(v, opcode) && !f.in_block(v, b)
            },
        },
{
}

} // verus!
