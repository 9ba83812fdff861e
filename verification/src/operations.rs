//! Which operations and types the pass can widen, and what they cost.

use crate::ir::{Function, Opcode, ScalarType, ValueId};
use crate::rejection::Rejection;
use vstd::prelude::*;

verus! {

/// Division and remainder, the expensive operations.
pub open spec fn is_division(opcode: Opcode) -> bool {
    match opcode {
        Opcode::UDiv | Opcode::SDiv | Opcode::URem | Opcode::SRem | Opcode::FDiv
        | Opcode::FRem => true,
        _ => false,
    }
}

/// Conversions between scalar types.
pub open spec fn is_conversion(opcode: Opcode) -> bool {
    match opcode {
        Opcode::Trunc | Opcode::ZExt | Opcode::SExt | Opcode::FPToUI | Opcode::FPToSI
        | Opcode::UIToFP | Opcode::SIToFP | Opcode::FPTrunc | Opcode::FPExt => true,
        _ => false,
    }
}

/// Conversions, together with the casts that involve pointers or bits.
pub open spec fn casts(opcode: Opcode) -> bool {
    match opcode {
        Opcode::PtrToInt | Opcode::IntToPtr | Opcode::BitCast | Opcode::AddrSpaceCast => true,
        _ => is_conversion(opcode),
    }
}

/// The side-effect-free operations that have a lane-wise vector form.
pub open spec fn computes(opcode: Opcode) -> bool {
    match opcode {
        Opcode::Add | Opcode::FAdd | Opcode::Sub | Opcode::FSub | Opcode::Mul | Opcode::FMul
        | Opcode::Shl | Opcode::LShr | Opcode::AShr | Opcode::And | Opcode::Or | Opcode::Xor
        | Opcode::FNeg | Opcode::ICmp | Opcode::FCmp | Opcode::Select => true,
        _ => is_division(opcode) || is_conversion(opcode),
    }
}

/// The cost of one supported operation.
pub open spec fn operation_cost(opcode: Opcode) -> nat {
    if is_division(opcode) {
        4
    } else {
        1
    }
}

/// The width of a supported scalar type.
pub open spec fn scalar_bits(ty: ScalarType) -> Option<u32> {
    match ty {
        ScalarType::Integer(bits) => Some(bits),
        ScalarType::Half => Some(16),
        ScalarType::Float => Some(32),
        ScalarType::Double => Some(64),
        ScalarType::Other(_) => None,
    }
}

/// Scalar types that vectors of the pass can have as elements.
pub open spec fn is_scalar(ty: ScalarType) -> bool {
    !(ty is Other)
}

/// Element types whose packed vectors match consecutive scalars. Integers of
/// odd widths are left out because their allocation and store sizes differ.
pub open spec fn is_memory_element(ty: ScalarType) -> bool {
    match ty {
        ScalarType::Integer(bits) => bits == 8 || bits == 16 || bits == 32 || bits == 64,
        ScalarType::Half | ScalarType::Float | ScalarType::Double => true,
        ScalarType::Other(_) => false,
    }
}

/// The widest scalar that operation `v` handles: the compared values of a
/// comparison, both ends of a cast, the result otherwise.
pub open spec fn operation_bits(f: Function, v: ValueId) -> Result<u32, Rejection> {
    let opcode = f.inst(v).opcode;
    let result_type = f.values@[v as int].ty;
    let input_type = f.values@[f.operand(v, 0) as int].ty;
    let own_type = if opcode == Opcode::ICmp || opcode == Opcode::FCmp {
        input_type
    } else {
        result_type
    };
    match (scalar_bits(own_type), scalar_bits(input_type)) {
        (Some(own), Some(input)) => Ok(
            if casts(opcode) && input > own {
                input
            } else {
                own
            },
        ),
        (Some(own), None) => if casts(opcode) {
            Err(Rejection::UnsupportedScalarType)
        } else {
            Ok(own)
        },
        (None, _) => Err(Rejection::UnsupportedScalarType),
    }
}

/// Whether an operation has a lane-wise vector form.
pub fn is_supported_compute(opcode: Opcode) -> (result: bool)
    ensures
        result == computes(opcode),
{
    match opcode {
        Opcode::Add | Opcode::FAdd | Opcode::Sub | Opcode::FSub | Opcode::Mul | Opcode::FMul
        | Opcode::UDiv | Opcode::SDiv | Opcode::FDiv | Opcode::URem | Opcode::SRem
        | Opcode::FRem | Opcode::Shl | Opcode::LShr | Opcode::AShr | Opcode::And | Opcode::Or
        | Opcode::Xor | Opcode::FNeg | Opcode::Trunc | Opcode::ZExt | Opcode::SExt
        | Opcode::FPToUI | Opcode::FPToSI | Opcode::UIToFP | Opcode::SIToFP | Opcode::FPTrunc
        | Opcode::FPExt | Opcode::ICmp | Opcode::FCmp | Opcode::Select => true,
        _ => false,
    }
}

/// Whether an operation is a cast.
pub fn is_cast(opcode: Opcode) -> (result: bool)
    ensures
        result == casts(opcode),
{
    match opcode {
        Opcode::Trunc | Opcode::ZExt | Opcode::SExt | Opcode::FPToUI | Opcode::FPToSI
        | Opcode::UIToFP | Opcode::SIToFP | Opcode::FPTrunc | Opcode::FPExt | Opcode::PtrToInt
        | Opcode::IntToPtr | Opcode::BitCast | Opcode::AddrSpaceCast => true,
        _ => false,
    }
}

/// The cost of one supported operation.
pub fn instruction_cost(opcode: Opcode) -> (cost: u64)
    ensures
        cost == operation_cost(opcode),
{
    match opcode {
        Opcode::UDiv | Opcode::SDiv | Opcode::URem | Opcode::SRem | Opcode::FDiv
        | Opcode::FRem => 4,
        _ => 1,
    }
}

/// The width of a scalar type.
pub fn type_bits(ty: ScalarType) -> (result: Result<u32, Rejection>)
    ensures
        result == (match scalar_bits(ty) {
            Some(bits) => Ok::<u32, Rejection>(bits),
            None => Err::<u32, Rejection>(Rejection::UnsupportedScalarType),
        }),
{
    match ty {
        ScalarType::Integer(bits) => Ok(bits),
        ScalarType::Half => Ok(16),
        ScalarType::Float => Ok(32),
        ScalarType::Double => Ok(64),
        ScalarType::Other(_) => Err(Rejection::UnsupportedScalarType),
    }
}

/// Whether vectors can have elements of this type.
pub fn is_supported_scalar_type(ty: ScalarType) -> (result: bool)
    ensures
        result == is_scalar(ty),
{
    match ty {
        ScalarType::Other(_) => false,
        _ => true,
    }
}

/// Whether packed vectors of this type match consecutive scalars in memory.
pub fn is_supported_memory_type(ty: ScalarType) -> (result: bool)
    ensures
        result == is_memory_element(ty),
{
    match ty {
        ScalarType::Integer(bits) => bits == 8 || bits == 16 || bits == 32 || bits == 64,
        ScalarType::Half | ScalarType::Float | ScalarType::Double => true,
        ScalarType::Other(_) => false,
    }
}

/// The widest scalar that supported operation `v` handles.
pub fn instruction_width(f: &Function, v: ValueId) -> (result: Result<u32, Rejection>)
    requires
        f.wf(),
        f.has_value(v),
        f.is_instruction(v),
        computes(f.inst(v).opcode),
    ensures
        result == operation_bits(*f, v),
{
    assert(f.value_is_valid(v));
    let inst = match f.instruction(v) {
        Some(inst) => inst,
        None => return Err(Rejection::UnsupportedScalarType),
    };
    let input: ValueId = inst.operands[0];
    assert(f.has_value(f.inst(v).operands@[0]));
    let input_type: ScalarType = f.values[input].ty;
    let own_type: ScalarType = if inst.opcode == Opcode::ICmp || inst.opcode == Opcode::FCmp {
        input_type
    } else {
        f.values[v].ty
    };
    let width: u32 = match type_bits(own_type) {
        Ok(bits) => bits,
        Err(rejection) => return Err(rejection),
    };
    if is_cast(inst.opcode) {
        return match type_bits(input_type) {
            Ok(bits) => Ok(
                if bits > width {
                    bits
                } else {
                    width
                },
            ),
            Err(rejection) => Err(rejection),
        };
    }
    Ok(width)
}

/// Which operations have a lane-wise vector form: integer and floating-point
/// arithmetic, shifts and bit operations, negation, conversions between numbers,
/// comparisons and selection. Control, memory and pointer operations have none.
pub proof fn law_lane_forms()
    ensures
        computes(Opcode::Add) && computes(Opcode::Sub) && computes(Opcode::Mul),
        computes(Opcode::FAdd) && computes(Opcode::FSub) && computes(Opcode::FMul),
        computes(Opcode::UDiv) && computes(Opcode::SDiv) && computes(Opcode::FDiv),
        computes(Opcode::URem) && computes(Opcode::SRem) && computes(Opcode::FRem),
        computes(Opcode::Shl) && computes(Opcode::LShr) && computes(Opcode::AShr),
        computes(Opcode::And) && computes(Opcode::Or) && computes(Opcode::Xor),
        computes(Opcode::FNeg),
        computes(Opcode::Trunc) && computes(Opcode::ZExt) && computes(Opcode::SExt),
        computes(Opcode::FPToUI) && computes(Opcode::FPToSI),
        computes(Opcode::UIToFP) && computes(Opcode::SIToFP),
        computes(Opcode::FPTrunc) && computes(Opcode::FPExt),
        computes(Opcode::ICmp) && computes(Opcode::FCmp) && computes(Opcode::Select),
        !computes(Opcode::Br) && !computes(Opcode::Phi) && !computes(Opcode::Other),
        !computes(Opcode::GetElementPtr) && !computes(Opcode::Load) && !computes(Opcode::Store),
        !computes(Opcode::PtrToInt) && !computes(Opcode::IntToPtr),
        !computes(Opcode::BitCast) && !computes(Opcode::AddrSpaceCast),
{
}

/// Which operations convert their only operand to another type.
pub proof fn law_conversions_are_listed(opcode: Opcode)
    ensures
        casts(opcode) <==> {
            ||| opcode == Opcode::Trunc || opcode == Opcode::ZExt || opcode == Opcode::SExt
            ||| opcode == Opcode::FPToUI || opcode == Opcode::FPToSI
            ||| opcode == Opcode::UIToFP || opcode == Opcode::SIToFP
            ||| opcode == Opcode::FPTrunc || opcode == Opcode::FPExt
            ||| opcode == Opcode::PtrToInt || opcode == Opcode::IntToPtr
            ||| opcode == Opcode::BitCast || opcode == Opcode::AddrSpaceCast
        },
{
}

/// Divisions and remainders cost four times what any other operation costs, and
/// no operation is free.
pub proof fn law_divisions_are_expensive(opcode: Opcode)
    ensures
        operation_cost(Opcode::UDiv) == 4 && operation_cost(Opcode::SDiv) == 4,
        operation_cost(Opcode::URem) == 4 && operation_cost(Opcode::SRem) == 4,
        operation_cost(Opcode::FDiv) == 4 && operation_cost(Opcode::FRem) == 4,
        operation_cost(opcode) == 1 <==> opcode != Opcode::UDiv && opcode != Opcode::SDiv && opcode
            != Opcode::URem && opcode != Opcode::SRem && opcode != Opcode::FDiv && opcode
            != Opcode::FRem,
{
}

/// Types are as wide as they are: an integer has its own width, and the floats
/// have 16, 32 and 64 bits. Only byte-sized powers of two are laid out in memory
/// without gaps.
pub proof fn law_types_have_their_widths(bits: u32, number: usize)
    ensures
        scalar_bits(ScalarType::Integer(bits)) == Some(bits),
        scalar_bits(ScalarType::Half) == Some(16u32),
        scalar_bits(ScalarType::Float) == Some(32u32),
        scalar_bits(ScalarType::Double) == Some(64u32),
        scalar_bits(ScalarType::Other(number)) == None::<u32>,
        is_scalar(ScalarType::Integer(bits)) && is_scalar(ScalarType::Half),
        is_scalar(ScalarType::Float) && is_scalar(ScalarType::Double),
        !is_scalar(ScalarType::Other(number)),
        is_memory_element(ScalarType::Integer(bits)) <==> bits == 8 || bits == 16 || bits == 32
            || bits == 64,
        is_memory_element(ScalarType::Half) && is_memory_element(ScalarType::Float),
        is_memory_element(ScalarType::Double),
        !is_memory_element(ScalarType::Other(number)),
{
}

} // verus!
