use rust_loop_vectorizer::analysis::{analyze_candidate, loops_to_visit};
use rust_loop_vectorizer::config::{Heuristic, PassConfig};
use rust_loop_vectorizer::ir::{
    Block, Flags, Function, Instruction, IntPredicate, Opcode, PackedLayout, Parameter, ScalarType,
    Value, ValueId, ValueKind,
};
use rust_loop_vectorizer::lowering::{vectorize_loop, visit_loop};
use rust_loop_vectorizer::operations::{is_supported_memory_type, is_supported_scalar_type};
use rust_loop_vectorizer::recipe::{Incoming, Label, NewBlock, Operand, Rewrite, Step, Target};
use rust_loop_vectorizer::rejection::Rejection;
use rust_loop_vectorizer::report::Decision;

const POINTER: ScalarType = ScalarType::Other(0);
const VOID: ScalarType = ScalarType::Other(1);
const I64: ScalarType = ScalarType::Integer(64);
const I1: ScalarType = ScalarType::Integer(1);

const ENTRY: usize = 0;
const LOOP: usize = 1;
const EXIT: usize = 2;

// The values of `for (i = 0; i != n; ++i) c[i] = a[i] + b[i];` on floats.
const A: usize = 0;
const B: usize = 1;
const C: usize = 2;
const N: usize = 3;
const ZERO: usize = 4;
const ONE: usize = 5;
const ENTRY_BRANCH: usize = 6;
const PHI: usize = 7;
const ADDRESS_A: usize = 8;
const LOAD_A: usize = 9;
const ADDRESS_B: usize = 10;
const LOAD_B: usize = 11;
const SUM: usize = 12;
const ADDRESS_C: usize = 13;
const STORE: usize = 14;
const NEXT: usize = 15;
const COMPARE: usize = 16;
const LATCH: usize = 17;
const RETURN: usize = 18;

const NO_FLAGS: Flags = Flags {
    nuw: false,
    nsw: false,
    exact: false,
    fast_math: None,
};

fn plain(ty: ScalarType, kind: ValueKind) -> Value {
    Value {
        ty,
        kind,
        users: Vec::new(),
    }
}

fn constant(value: i64) -> Value {
    plain(
        I64,
        ValueKind::ConstantInt {
            signed: value,
            unsigned: value as u64,
        },
    )
}

fn instruction(ty: ScalarType, opcode: Opcode, parent: usize, operands: &[ValueId]) -> Value {
    plain(
        ty,
        ValueKind::Instruction(Instruction {
            opcode,
            parent,
            operands: operands.to_vec(),
            successors: Vec::new(),
            incoming_blocks: Vec::new(),
            int_predicate: IntPredicate::Eq,
            float_predicate: 0,
            element_type: ScalarType::Float,
            volatile: false,
            atomic: false,
            alignment: 4,
            inbounds: true,
            flags: NO_FLAGS,
            vectorize_disabled: false,
        }),
    )
}

fn inst(f: &mut Function, v: ValueId) -> &mut Instruction {
    match &mut f.values[v].kind {
        ValueKind::Instruction(inst) => inst,
        _ => panic!("not an instruction"),
    }
}

/// Fills in the use lists.
fn finish(mut f: Function) -> Function {
    for value in &mut f.values {
        value.users.clear();
    }
    for user in 0..f.values.len() {
        let operands = match &f.values[user].kind {
            ValueKind::Instruction(inst) => inst.operands.clone(),
            _ => continue,
        };
        for operand in operands {
            f.values[operand].users.push(user);
        }
    }
    assert!(f.is_valid());
    f
}

fn packed(base: ValueId, element_type: ScalarType) -> Vec<PackedLayout> {
    [2, 4, 8, 16, 32, 64]
        .map(|vf| PackedLayout {
            base,
            element_type,
            vf,
        })
        .to_vec()
}

fn block(name: &str, instructions: &[ValueId]) -> Block {
    Block {
        name: name.to_owned(),
        instructions: instructions.to_vec(),
        terminator: instructions.last().copied(),
    }
}

/// The addition of two arrays, before its use lists are filled in.
fn draft() -> Function {
    let mut f = Function {
        name: "add".to_owned(),
        optnone: false,
        parameters: [A, B, C, N]
            .map(|value| Parameter {
                value,
                noalias: value != N,
            })
            .to_vec(),
        blocks: vec![
            block("entry", &[ENTRY_BRANCH]),
            block(
                "loop",
                &[
                    PHI, ADDRESS_A, LOAD_A, ADDRESS_B, LOAD_B, SUM, ADDRESS_C, STORE, NEXT, COMPARE,
                    LATCH,
                ],
            ),
            block("exit", &[RETURN]),
        ],
        values: vec![
            plain(POINTER, ValueKind::Argument),
            plain(POINTER, ValueKind::Argument),
            plain(POINTER, ValueKind::Argument),
            plain(I64, ValueKind::Argument),
            constant(0),
            constant(1),
            instruction(VOID, Opcode::Br, ENTRY, &[]),
            instruction(I64, Opcode::Phi, LOOP, &[ZERO, NEXT]),
            instruction(POINTER, Opcode::GetElementPtr, LOOP, &[A, PHI]),
            instruction(ScalarType::Float, Opcode::Load, LOOP, &[ADDRESS_A]),
            instruction(POINTER, Opcode::GetElementPtr, LOOP, &[B, PHI]),
            instruction(ScalarType::Float, Opcode::Load, LOOP, &[ADDRESS_B]),
            instruction(ScalarType::Float, Opcode::FAdd, LOOP, &[LOAD_A, LOAD_B]),
            instruction(POINTER, Opcode::GetElementPtr, LOOP, &[C, PHI]),
            instruction(VOID, Opcode::Store, LOOP, &[SUM, ADDRESS_C]),
            instruction(I64, Opcode::Add, LOOP, &[PHI, ONE]),
            instruction(I1, Opcode::ICmp, LOOP, &[NEXT, N]),
            instruction(VOID, Opcode::Br, LOOP, &[COMPARE]),
            instruction(VOID, Opcode::Other, EXIT, &[]),
        ],
        packed_layouts: [A, B, C]
            .iter()
            .flat_map(|base| packed(*base, ScalarType::Float))
            .collect(),
    };
    inst(&mut f, ENTRY_BRANCH).successors = vec![LOOP];
    inst(&mut f, PHI).incoming_blocks = vec![ENTRY, LOOP];
    inst(&mut f, LATCH).successors = vec![EXIT, LOOP];
    inst(&mut f, SUM).flags.fast_math = Some(5);
    f
}

fn changed(change: impl FnOnce(&mut Function)) -> Function {
    let mut f = draft();
    change(&mut f);
    finish(f)
}

/// Adds a value in front of an instruction of the loop, and returns it.
fn insert(f: &mut Function, before: ValueId, value: Value) -> ValueId {
    let id = f.values.len();
    f.values.push(value);
    let body = &mut f.blocks[LOOP].instructions;
    let position = body.iter().position(|v| *v == before).unwrap();
    body.insert(position, id);
    id
}

fn append(f: &mut Function, value: Value) -> ValueId {
    f.values.push(value);
    f.values.len() - 1
}

fn balanced() -> PassConfig {
    PassConfig::new(Heuristic::Balanced, 0, false)
}

fn reason(change: impl FnOnce(&mut Function)) -> Rejection {
    let f = changed(change);
    assert_eq!(loops_to_visit(&f), [LOOP]);
    match vectorize_loop(&f, LOOP, balanced()) {
        Err(rejection) => rejection,
        Ok((plan, _)) => panic!("unexpected plan {plan:?}"),
    }
}

fn rewrite(change: impl FnOnce(&mut Function)) -> Rewrite {
    let f = changed(change);
    match vectorize_loop(&f, LOOP, balanced()) {
        Ok((_, rewrite)) => rewrite,
        Err(rejection) => panic!("unexpected rejection {}", rejection.reason()),
    }
}

fn result(number: usize) -> Operand {
    Operand::Result(number)
}

#[test]
fn array_addition_is_vectorized() {
    let f = changed(|_| {});
    assert_eq!(loops_to_visit(&f), [LOOP]);
    let Ok((plan, r)) = vectorize_loop(&f, LOOP, balanced()) else {
        panic!("expected a rewrite");
    };
    assert_eq!(plan.vf, 4);
    assert_eq!(plan.utilization_x100, 100);
    assert_eq!(plan.scalar_cost, 64 * 7);
    assert_eq!(plan.vector_cost, 16 * 7 + 6);
    assert_eq!((r.vf, r.header, r.preheader), (4, LOOP, ENTRY));
    assert_eq!((r.preheader_successor_index, r.induction, r.outside_phi_index), (0, PHI, 0));
    assert_eq!(
        r.dispatch,
        [
            Step::CompareIndex {
                predicate: IntPredicate::Uge,
                left: Operand::Original(N),
                right: Operand::Constant(8),
                label: Label::EnoughIterations,
            },
            Step::MaskIndex {
                left: Operand::Original(N),
                right: Operand::Constant(!3),
            },
            Step::Branch {
                condition: result(0),
                on_true: Target::New(NewBlock::VectorBody),
                on_false: Target::Existing(LOOP),
            },
        ]
    );
    let address = |base| Step::Address {
        base,
        index: result(3),
        element_type: ScalarType::Float,
        inbounds: true,
    };
    let load = |pointer| Step::Load {
        pointer: result(pointer),
        element_type: ScalarType::Float,
        alignment: 4,
    };
    assert_eq!(
        r.vector_body,
        [
            Step::IndexPhi,
            address(A),
            load(4),
            address(B),
            load(6),
            Step::Binary {
                opcode: Opcode::FAdd,
                left: result(5),
                right: result(7),
                flags: Flags {
                    fast_math: Some(5),
                    ..NO_FLAGS
                },
            },
            address(C),
            Step::Store {
                value: result(8),
                pointer: result(9),
                alignment: 4,
            },
            Step::AddIndex {
                left: result(3),
                right: Operand::Constant(4),
                label: Label::IndexNext,
            },
            Step::CompareIndex {
                predicate: IntPredicate::Eq,
                left: result(11),
                right: result(1),
                label: Label::VectorDone,
            },
            Step::Branch {
                condition: result(12),
                on_true: Target::New(NewBlock::VectorExit),
                on_false: Target::New(NewBlock::VectorBody),
            },
        ]
    );
    assert_eq!(
        r.vector_exit,
        [
            Step::CompareIndex {
                predicate: IntPredicate::Ne,
                left: result(1),
                right: Operand::Original(N),
                label: Label::HasRemainder,
            },
            Step::Branch {
                condition: result(14),
                on_true: Target::Existing(LOOP),
                on_false: Target::Existing(EXIT),
            },
        ]
    );
    assert_eq!(
        r.index_entry,
        Incoming {
            value: Operand::Constant(0),
            block: NewBlock::Dispatch
        }
    );
    assert_eq!(
        r.index_back_edge,
        Incoming {
            value: result(11),
            block: NewBlock::VectorBody
        }
    );
    assert_eq!(
        r.remainder_entry,
        Incoming {
            value: result(1),
            block: NewBlock::VectorExit
        }
    );
}

#[test]
fn added_values_have_names() {
    let r = rewrite(|_| {});
    let labels: Vec<_> = r.vector_body.iter().map(|step| step.label().name()).collect();
    assert_eq!(
        labels,
        [
            "rv.index",
            "rv.wide.ptr",
            "rv.wide.load",
            "rv.wide.ptr",
            "rv.wide.load",
            "rv.binop",
            "rv.wide.ptr",
            "",
            "rv.index.next",
            "rv.vector.done",
            "",
        ]
    );
    assert_eq!(NewBlock::Dispatch.name(), "rv.vector.dispatch");
    assert_eq!(NewBlock::VectorBody.name(), "rv.vector.body");
    assert_eq!(NewBlock::VectorExit.name(), "rv.vector.exit");
}

#[test]
fn offsets_are_added_to_the_index() {
    let r = rewrite(|f| {
        let two = append(f, constant(2));
        let shifted = insert(f, ADDRESS_A, instruction(I64, Opcode::Sub, LOOP, &[PHI, two]));
        inst(f, ADDRESS_A).operands[1] = shifted;
    });
    assert_eq!(
        r.vector_body[1],
        Step::AddIndex {
            left: result(3),
            right: Operand::Constant(2u64.wrapping_neg()),
            label: Label::AddressIndex,
        }
    );
    assert_eq!(
        r.vector_body[2],
        Step::Address {
            base: A,
            index: result(4),
            element_type: ScalarType::Float,
            inbounds: true,
        }
    );
}

#[test]
fn invariants_are_splatted_once() {
    let r = rewrite(|f| {
        let factor = append(f, plain(ScalarType::Float, ValueKind::Argument));
        inst(f, SUM).operands = vec![LOAD_A, factor];
        let again = insert(
            f,
            ADDRESS_C,
            instruction(ScalarType::Float, Opcode::FMul, LOOP, &[SUM, factor]),
        );
        inst(f, STORE).operands[0] = again;
    });
    let splats = r
        .vector_body
        .iter()
        .filter(|step| matches!(step, Step::Splat { .. }))
        .count();
    assert_eq!(splats, 1);
}

#[test]
fn induction_data_uses_are_widened() {
    let r = rewrite(|f| {
        for layout in packed(C, I64) {
            f.packed_layouts.push(layout);
        }
        inst(f, ADDRESS_C).element_type = I64;
        inst(f, STORE).operands[0] = PHI;
    });
    assert_eq!(r.vf, 2);
    assert_eq!(
        r.vector_body[1],
        Step::Splat {
            scalar: result(3),
            element_type: I64,
        }
    );
    assert_eq!(
        r.vector_body[2],
        Step::AddLanes {
            left: result(4),
            right: Operand::LaneNumbers,
        }
    );
    let stored = r.vector_body.iter().find_map(|step| match step {
        Step::Store { value, .. } => Some(*value),
        _ => None,
    });
    assert_eq!(stored, Some(result(5)));
}

#[test]
fn every_kind_of_operation_is_lowered() {
    let r = rewrite(|f| {
        let float = ScalarType::Float;
        let negated = insert(f, SUM, instruction(float, Opcode::FNeg, LOOP, &[LOAD_A]));
        let less = insert(f, SUM, instruction(I1, Opcode::FCmp, LOOP, &[negated, LOAD_B]));
        inst(f, less).float_predicate = 4;
        let chosen = insert(f, SUM, instruction(float, Opcode::Select, LOOP, &[less, negated, LOAD_A]));
        let whole = insert(
            f,
            SUM,
            instruction(ScalarType::Integer(32), Opcode::FPToSI, LOOP, &[chosen]),
        );
        let same = insert(f, SUM, instruction(I1, Opcode::ICmp, LOOP, &[whole, whole]));
        inst(f, same).int_predicate = IntPredicate::Sle;
        let shifted = insert(
            f,
            SUM,
            instruction(ScalarType::Integer(32), Opcode::Shl, LOOP, &[whole, whole]),
        );
        inst(f, shifted).flags = Flags {
            nuw: true,
            nsw: true,
            exact: true,
            fast_math: None,
        };
        let back = insert(f, SUM, instruction(float, Opcode::SIToFP, LOOP, &[shifted]));
        let last = insert(f, SUM, instruction(float, Opcode::Select, LOOP, &[same, back, chosen]));
        inst(f, SUM).operands[0] = last;
    });
    let labels: Vec<_> = r.vector_body.iter().map(|step| step.label().name()).collect();
    assert_eq!(
        labels[5..13],
        [
            "rv.fneg",
            "rv.fcmp",
            "rv.select",
            "rv.cast",
            "rv.icmp",
            "rv.binop",
            "rv.cast",
            "rv.select",
        ]
    );
    assert_eq!(
        r.vector_body[10],
        Step::Binary {
            opcode: Opcode::Shl,
            left: result(11),
            right: result(11),
            flags: Flags {
                nuw: true,
                nsw: true,
                exact: false,
                fast_math: None,
            },
        }
    );
}

#[test]
fn latches_may_test_in_three_ways() {
    let r = rewrite(|f| {
        inst(f, COMPARE).int_predicate = IntPredicate::Ne;
        inst(f, COMPARE).operands = vec![N, NEXT];
        inst(f, LATCH).successors = vec![LOOP, EXIT];
    });
    assert_eq!(r.vf, 4);
    let r = rewrite(|f| {
        inst(f, COMPARE).int_predicate = IntPredicate::Ult;
        inst(f, LATCH).successors = vec![LOOP, EXIT];
    });
    assert_eq!(r.vf, 4);
}

#[test]
fn constant_trip_counts_are_planned_exactly() {
    let f = changed(|f| {
        let ten = append(f, constant(10));
        inst(f, COMPARE).operands[1] = ten;
    });
    let Ok((_, plan)) = analyze_candidate(&f, LOOP, balanced()) else {
        panic!("expected a candidate");
    };
    assert_eq!(plan.utilization_x100, 80);
    let short = changed(|f| {
        let seven = append(f, constant(7));
        inst(f, COMPARE).operands[1] = seven;
    });
    assert!(matches!(
        analyze_candidate(&short, LOOP, balanced()),
        Err(Rejection::NotProfitable)
    ));
    let bold = PassConfig::new(Heuristic::Aggressive, 0, false);
    assert!(analyze_candidate(&short, LOOP, bold).is_ok());
}

#[test]
fn forced_widths_are_used() {
    let f = changed(|_| {});
    let forced = PassConfig::new(Heuristic::Conservative, 16, false);
    let Ok((plan, r)) = vectorize_loop(&f, LOOP, forced) else {
        panic!("expected a rewrite");
    };
    assert_eq!((plan.vf, r.vf), (16, 16));
    assert_eq!(
        r.dispatch[1],
        Step::MaskIndex {
            left: Operand::Original(N),
            right: Operand::Constant(!15),
        }
    );
    let invalid = PassConfig::new(Heuristic::Conservative, 3, false);
    assert!(matches!(
        vectorize_loop(&f, LOOP, invalid),
        Err(Rejection::NotProfitable)
    ));
}

#[test]
fn visits_decide_and_rewrite() {
    let f = changed(|_| {});
    let (Decision::Vectorized(plan), Some(r)) = visit_loop(&f, LOOP, balanced()) else {
        panic!("expected a rewrite");
    };
    assert_eq!((plan.vf, r.vf, r.header), (4, 4, LOOP));
    let invalid = PassConfig {
        forced_vf: Some(3),
        ..balanced()
    };
    let (Decision::Rejected(rejection), None) = visit_loop(&f, LOOP, invalid) else {
        panic!("expected a rejection");
    };
    assert_eq!(vectorize_loop(&f, LOOP, invalid).err(), Some(rejection));
}

#[test]
fn functions_can_opt_out() {
    let f = changed(|f| f.optnone = true);
    assert!(loops_to_visit(&f).is_empty());
}

#[test]
fn in_place_updates_are_accepted() {
    let r = rewrite(|f| {
        inst(f, ADDRESS_C).operands[0] = A;
    });
    assert_eq!(r.vf, 4);
}

#[test]
fn distinct_globals_do_not_alias() {
    let r = rewrite(|f| {
        f.parameters.clear();
        for v in [A, B, C] {
            f.values[v].kind = ValueKind::GlobalVariable;
        }
    });
    assert_eq!(r.vf, 4);
}

#[test]
fn snapshots_are_checked() {
    let mut dangling = draft();
    inst(&mut dangling, SUM).operands[0] = 1000;
    assert!(!dangling.is_valid());
    let unlisted = draft();
    assert!(!unlisted.is_valid());
    let mut mistyped = finish(draft());
    mistyped.values[SUM].ty = ScalarType::Double;
    assert!(!mistyped.is_valid());
    let mut foreign = finish(draft());
    foreign.blocks[EXIT].instructions.push(SUM);
    assert!(!foreign.is_valid());
}

#[test]
fn shapes_are_rejected_with_their_reasons() {
    assert_eq!(
        reason(|f| {
            for _ in 0..90 {
                insert(f, NEXT, instruction(ScalarType::Float, Opcode::FNeg, LOOP, &[LOAD_A]));
            }
        }),
        Rejection::InstructionBudgetExceeded
    );
    assert_eq!(
        reason(|f| {
            inst(f, RETURN).operands.push(SUM);
        }),
        Rejection::LoopValueLiveOut
    );
    assert_eq!(
        reason(|f| inst(f, LATCH).vectorize_disabled = true),
        Rejection::DisabledByLoopMetadata
    );
    assert_eq!(
        reason(|f| {
            let phi = append(f, instruction(I64, Opcode::Phi, EXIT, &[ZERO]));
            inst(f, phi).incoming_blocks = vec![LOOP];
            f.blocks[EXIT].instructions.insert(0, phi);
        }),
        Rejection::LiveOutPhi
    );
    assert_eq!(
        reason(|f| {
            let one = append(f, plain(ScalarType::Integer(32), ValueKind::ConstantInt {
                signed: 1,
                unsigned: 1,
            }));
            f.values[PHI].ty = ScalarType::Integer(32);
            f.values[NEXT].ty = ScalarType::Integer(32);
            f.values[N].ty = ScalarType::Integer(32);
            inst(f, NEXT).operands[1] = one;
        }),
        Rejection::InductionTypeMustBeI64
    );
    assert_eq!(
        reason(|f| inst(f, PHI).incoming_blocks = vec![ENTRY, EXIT]),
        Rejection::NonCanonicalPhi
    );
    assert_eq!(
        reason(|f| inst(f, PHI).operands[0] = ONE),
        Rejection::InductionMustStartAtZero
    );
    assert_eq!(
        reason(|f| {
            let two = append(f, constant(2));
            inst(f, NEXT).operands[1] = two;
        }),
        Rejection::InductionStepMustBeOne
    );
    assert_eq!(
        reason(|f| {
            let phi = insert(f, ADDRESS_A, instruction(I64, Opcode::Phi, LOOP, &[ZERO, ZERO]));
            let next = insert(f, NEXT, instruction(I64, Opcode::Add, LOOP, &[phi, ONE]));
            inst(f, phi).operands[1] = next;
            inst(f, phi).incoming_blocks = vec![ENTRY, LOOP];
        }),
        Rejection::MultipleHeaderPhis
    );
    assert_eq!(
        reason(|f| {
            let start = append(f, instruction(I64, Opcode::Other, ENTRY, &[]));
            f.blocks[ENTRY].instructions.insert(0, start);
            f.blocks[LOOP].instructions.remove(0);
            for v in [ADDRESS_A, ADDRESS_B, ADDRESS_C] {
                inst(f, v).operands[1] = start;
            }
            inst(f, NEXT).operands[0] = start;
        }),
        Rejection::MissingCanonicalInduction
    );
    assert_eq!(
        reason(|f| inst(f, ENTRY_BRANCH).opcode = Opcode::Other),
        Rejection::PreheaderTerminatorMustBeBranch
    );
    assert_eq!(
        reason(|f| {
            inst(f, ENTRY_BRANCH).operands.push(COMPARE);
            inst(f, ENTRY_BRANCH).operands[0] = N;
            inst(f, ENTRY_BRANCH).successors = vec![LOOP, LOOP];
        }),
        Rejection::LoopNeedsUniquePreheader
    );
    assert_eq!(
        reason(|f| f.blocks[ENTRY].name = "rv.vector.exit".to_owned()),
        Rejection::AlreadyVectorized
    );
}

#[test]
fn latches_are_rejected_with_their_reasons() {
    assert_eq!(
        reason(|f| inst(f, COMPARE).opcode = Opcode::Trunc),
        Rejection::LatchConditionMustBeIcmp
    );
    assert_eq!(
        reason(|f| inst(f, COMPARE).operands[0] = PHI),
        Rejection::LatchMustCompareNextInduction
    );
    assert_eq!(
        reason(|f| {
            let moving = insert(f, NEXT, instruction(I64, Opcode::Mul, LOOP, &[PHI, PHI]));
            inst(f, COMPARE).operands[1] = moving;
        }),
        Rejection::TripCountNotLoopInvariant
    );
    assert_eq!(
        reason(|f| inst(f, COMPARE).int_predicate = IntPredicate::Slt),
        Rejection::UnsupportedLatchPredicate
    );
    assert_eq!(
        reason(|f| inst(f, LATCH).successors = vec![LOOP, EXIT]),
        Rejection::UnsupportedLatchPredicate
    );
    assert_eq!(
        reason(|f| {
            insert(f, COMPARE, instruction(I64, Opcode::Mul, LOOP, &[NEXT, ONE]));
        }),
        Rejection::InductionNextHasDataUse
    );
    assert_eq!(
        reason(|f| {
            insert(
                f,
                LATCH,
                instruction(I64, Opcode::Select, LOOP, &[COMPARE, ZERO, ONE]),
            );
        }),
        Rejection::LatchCompareHasDataUse
    );
}

#[test]
fn addresses_are_rejected_with_their_reasons() {
    assert_eq!(
        reason(|f| inst(f, ADDRESS_A).operands = vec![A, ZERO, PHI]),
        Rejection::GepMustHaveOneIndex
    );
    assert_eq!(
        reason(|f| {
            let pointer = insert(f, ADDRESS_A, instruction(POINTER, Opcode::IntToPtr, LOOP, &[PHI]));
            inst(f, ADDRESS_A).operands[0] = pointer;
        }),
        Rejection::PointerBaseNotLoopInvariant
    );
    assert_eq!(
        reason(|f| f.values[A].kind = ValueKind::Other),
        Rejection::UnsupportedPointerBase
    );
    assert_eq!(
        reason(|f| {
            let square = insert(f, ADDRESS_A, instruction(I64, Opcode::Mul, LOOP, &[PHI, PHI]));
            inst(f, ADDRESS_A).operands[1] = square;
        }),
        Rejection::NonAffineIndex
    );
    assert_eq!(
        reason(|f| {
            let shifted = insert(f, ADDRESS_A, instruction(I64, Opcode::Add, LOOP, &[PHI, N]));
            inst(f, ADDRESS_A).operands[1] = shifted;
        }),
        Rejection::NonConstantAffineOffset
    );
    assert_eq!(
        reason(|f| {
            let least = append(f, constant(i64::MIN));
            let shifted = insert(f, ADDRESS_A, instruction(I64, Opcode::Sub, LOOP, &[PHI, least]));
            inst(f, ADDRESS_A).operands[1] = shifted;
        }),
        Rejection::AffineOffsetOverflow
    );
    assert_eq!(
        reason(|f| inst(f, ADDRESS_A).element_type = ScalarType::Integer(24)),
        Rejection::UnsupportedMemoryElementType
    );
    assert_eq!(
        reason(|f| {
            let shifted = insert(f, ADDRESS_A, instruction(I64, Opcode::Add, LOOP, &[PHI, ONE]));
            insert(f, ADDRESS_A, instruction(I64, Opcode::Mul, LOOP, &[shifted, shifted]));
            inst(f, ADDRESS_A).operands[1] = shifted;
        }),
        Rejection::AffineIndexHasDataUse
    );
    assert_eq!(
        reason(|f| {
            insert(f, SUM, instruction(POINTER, Opcode::GetElementPtr, LOOP, &[A, PHI]));
        }),
        Rejection::UnusedGep
    );
    assert_eq!(
        reason(|f| {
            for layout in packed(C, I64) {
                f.packed_layouts.push(layout);
            }
            inst(f, STORE).operands[0] = ADDRESS_A;
        }),
        Rejection::GepHasNonMemoryUse
    );
}

#[test]
fn bodies_are_rejected_with_their_reasons() {
    assert_eq!(
        reason(|f| inst(f, LOAD_A).volatile = true),
        Rejection::VolatileOrAtomicMemory
    );
    assert_eq!(
        reason(|f| inst(f, STORE).atomic = true),
        Rejection::VolatileOrAtomicMemory
    );
    assert_eq!(
        reason(|f| {
            inst(f, LOAD_A).operands[0] = A;
            f.blocks[LOOP].instructions.retain(|v| *v != ADDRESS_A);
        }),
        Rejection::MemoryPointerMustBeLoopGep
    );
    assert_eq!(
        reason(|f| inst(f, ADDRESS_A).element_type = ScalarType::Double),
        Rejection::MixedSizeMemoryAccess
    );
    assert_eq!(
        reason(|f| {
            let odd = insert(f, SUM, instruction(ScalarType::Float, Opcode::Other, LOOP, &[]));
            let body = &mut f.blocks[LOOP].instructions;
            body.retain(|v| *v != odd);
            let end = body.len() - 1;
            body.insert(end, odd);
            inst(f, SUM).operands[1] = odd;
        }),
        Rejection::UnsupportedComputeDependency
    );
    assert_eq!(
        reason(|f| {
            insert(f, SUM, instruction(VOID, Opcode::Other, LOOP, &[]));
        }),
        Rejection::UnsupportedInstruction
    );
    assert_eq!(
        reason(|f| {
            let vector = append(f, plain(ScalarType::Other(7), ValueKind::Argument));
            insert(
                f,
                SUM,
                instruction(ScalarType::Other(7), Opcode::FAdd, LOOP, &[vector, vector]),
            );
        }),
        Rejection::UnsupportedScalarType
    );
    assert_eq!(
        reason(|f| {
            f.blocks[LOOP].instructions = vec![PHI, NEXT, COMPARE, LATCH];
            for v in [ADDRESS_A, LOAD_A, ADDRESS_B, LOAD_B, SUM, ADDRESS_C, STORE] {
                f.values[v].kind = ValueKind::Other;
            }
        }),
        Rejection::NoMemoryAccess
    );
    assert_eq!(
        reason(|f| {
            for _ in 0..25 {
                insert(
                    f,
                    SUM,
                    instruction(ScalarType::Float, Opcode::Load, LOOP, &[ADDRESS_A]),
                );
            }
        }),
        Rejection::MemoryAccessBudgetExceeded
    );
}

#[test]
fn dependences_are_rejected_with_their_reasons() {
    assert_eq!(
        reason(|f| {
            for parameter in &mut f.parameters {
                parameter.noalias = false;
            }
        }),
        Rejection::PossiblePointerAlias
    );
    assert_eq!(
        reason(|f| {
            let two = append(f, constant(2));
            let shifted = insert(f, ADDRESS_A, instruction(I64, Opcode::Sub, LOOP, &[PHI, two]));
            inst(f, ADDRESS_A).operands[1] = shifted;
            inst(f, ADDRESS_C).operands[0] = A;
        }),
        Rejection::LoopCarriedMemoryDependence
    );
    assert_eq!(
        reason(|f| {
            inst(f, ADDRESS_C).operands[0] = A;
            inst(f, ADDRESS_C).element_type = ScalarType::Integer(32);
            let whole = insert(
                f,
                ADDRESS_C,
                instruction(ScalarType::Integer(32), Opcode::FPToSI, LOOP, &[SUM]),
            );
            inst(f, STORE).operands[0] = whole;
        }),
        Rejection::MixedTypeMemoryDependence
    );
}

#[test]
fn orders_are_rejected_with_their_reasons() {
    assert_eq!(
        reason(|f| f.blocks[LOOP].instructions.swap(1, 2)),
        Rejection::LoadPointerNotWidened
    );
    assert_eq!(
        reason(|f| f.blocks[LOOP].instructions.swap(6, 7)),
        Rejection::StoreInputNotWidened
    );
    assert_eq!(
        reason(|f| f.blocks[LOOP].instructions.swap(4, 5)),
        Rejection::ComputeInputNotWidened
    );
}

#[test]
fn plans_are_rejected_with_their_reasons() {
    assert_eq!(
        reason(|f| {
            let few = append(f, constant(3));
            inst(f, COMPARE).operands[1] = few;
        }),
        Rejection::NotProfitable
    );
    assert_eq!(
        reason(|f| f.packed_layouts.retain(|layout| layout.base != B)),
        Rejection::IncompatibleTargetMemoryLayout
    );
}

#[test]
fn scalar_types_are_told_apart() {
    for ty in [I1, I64, ScalarType::Half, ScalarType::Float, ScalarType::Double] {
        assert!(is_supported_scalar_type(ty));
    }
    assert!(!is_supported_scalar_type(POINTER));
    assert!(is_supported_memory_type(I64));
    assert!(is_supported_memory_type(ScalarType::Half));
    assert!(!is_supported_memory_type(I1));
    assert!(!is_supported_memory_type(POINTER));
}
