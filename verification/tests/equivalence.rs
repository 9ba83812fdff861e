//! Runs scalar loops and their rewrites on concrete memories.

use std::collections::HashMap;

use rust_loop_vectorizer::config::{Heuristic, PassConfig};
use rust_loop_vectorizer::ir::{
    Block, Flags, Function, Instruction, IntPredicate, Opcode, PackedLayout, Parameter, ScalarType,
    Value, ValueId, ValueKind,
};
use rust_loop_vectorizer::lowering::vectorize_loop;
use rust_loop_vectorizer::recipe::{Operand, Rewrite, Step, Target};

const I64: ScalarType = ScalarType::Integer(64);

const A: ValueId = 0;
const C: ValueId = 1;
const N: ValueId = 2;
const FACTOR: ValueId = 3;
const ZERO: ValueId = 4;
const ONE: ValueId = 5;
const BRANCH: ValueId = 6;
const PHI: ValueId = 7;
const SHIFTED: ValueId = 8;
const ADDRESS_A: ValueId = 9;
const LOAD: ValueId = 10;
const PRODUCT: ValueId = 11;
const SUM: ValueId = 12;
const ADDRESS_C: ValueId = 13;
const OLD: ValueId = 14;
const TOTAL: ValueId = 15;
const STORE: ValueId = 16;
const NEXT: ValueId = 17;
const COMPARE: ValueId = 18;
const LATCH: ValueId = 19;
const END: ValueId = 20;

const BODY: [ValueId; 13] = [
    PHI, SHIFTED, ADDRESS_A, LOAD, PRODUCT, SUM, ADDRESS_C, OLD, TOTAL, STORE, NEXT, COMPARE, LATCH,
];

fn value(ty: ScalarType, kind: ValueKind) -> Value {
    Value {
        ty,
        kind,
        users: Vec::new(),
    }
}

fn constant(number: i64) -> Value {
    value(
        I64,
        ValueKind::ConstantInt {
            signed: number,
            unsigned: number as u64,
        },
    )
}

fn step(ty: ScalarType, opcode: Opcode, parent: usize, operands: &[ValueId]) -> Value {
    value(
        ty,
        ValueKind::Instruction(Instruction {
            opcode,
            parent,
            operands: operands.to_vec(),
            successors: Vec::new(),
            incoming_blocks: Vec::new(),
            int_predicate: IntPredicate::Ult,
            float_predicate: 0,
            element_type: I64,
            volatile: false,
            atomic: false,
            alignment: 8,
            inbounds: false,
            flags: Flags {
                nuw: false,
                nsw: false,
                exact: false,
                fast_math: None,
            },
            vectorize_disabled: false,
        }),
    )
}

fn inst(f: &mut Function, v: ValueId) -> &mut Instruction {
    match &mut f.values[v].kind {
        ValueKind::Instruction(inst) => inst,
        _ => panic!("not an instruction"),
    }
}

/// `for (i = 0; i < n; ++i) c[i] += a[i + 1] * factor + i;`
fn function() -> Function {
    let pointer = ScalarType::Other(0);
    let none = ScalarType::Other(1);
    let mut f = Function {
        name: "accumulate".to_owned(),
        optnone: false,
        parameters: vec![
            Parameter {
                value: A,
                noalias: true,
            },
            Parameter {
                value: C,
                noalias: true,
            },
        ],
        blocks: vec![
            Block {
                name: "entry".to_owned(),
                instructions: vec![BRANCH],
                terminator: Some(BRANCH),
            },
            Block {
                name: "loop".to_owned(),
                instructions: BODY.to_vec(),
                terminator: Some(LATCH),
            },
            Block {
                name: "exit".to_owned(),
                instructions: vec![END],
                terminator: Some(END),
            },
        ],
        values: vec![
            value(pointer, ValueKind::Argument),
            value(pointer, ValueKind::Argument),
            value(I64, ValueKind::Argument),
            value(I64, ValueKind::Argument),
            constant(0),
            constant(1),
            step(none, Opcode::Br, 0, &[]),
            step(I64, Opcode::Phi, 1, &[NEXT, ZERO]),
            step(I64, Opcode::Add, 1, &[ONE, PHI]),
            step(pointer, Opcode::GetElementPtr, 1, &[A, SHIFTED]),
            step(I64, Opcode::Load, 1, &[ADDRESS_A]),
            step(I64, Opcode::Mul, 1, &[LOAD, FACTOR]),
            step(I64, Opcode::Add, 1, &[PRODUCT, PHI]),
            step(pointer, Opcode::GetElementPtr, 1, &[C, PHI]),
            step(I64, Opcode::Load, 1, &[ADDRESS_C]),
            step(I64, Opcode::Add, 1, &[OLD, SUM]),
            step(none, Opcode::Store, 1, &[TOTAL, ADDRESS_C]),
            step(I64, Opcode::Add, 1, &[PHI, ONE]),
            step(ScalarType::Integer(1), Opcode::ICmp, 1, &[NEXT, N]),
            step(none, Opcode::Br, 1, &[COMPARE]),
            step(none, Opcode::Other, 2, &[]),
        ],
        packed_layouts: Vec::new(),
    };
    inst(&mut f, BRANCH).successors = vec![1];
    inst(&mut f, PHI).incoming_blocks = vec![1, 0];
    inst(&mut f, LATCH).successors = vec![1, 2];
    for base in [A, C] {
        for vf in [2, 4, 8, 16, 32, 64] {
            f.packed_layouts.push(PackedLayout {
                base,
                element_type: I64,
                vf,
            });
        }
    }
    for user in 0..f.values.len() {
        if let ValueKind::Instruction(inst) = &f.values[user].kind {
            for operand in inst.operands.clone() {
                f.values[operand].users.push(user);
            }
        }
    }
    assert!(f.is_valid());
    f
}

type Memory = HashMap<(ValueId, u64), u64>;

fn memory() -> Memory {
    let mut cells = HashMap::new();
    for index in 0..200 {
        cells.insert((A, index), index * index + 7);
        cells.insert((C, index), 1000 - index);
    }
    cells
}

fn fixed_value(v: ValueId, n: u64) -> u64 {
    match v {
        N => n,
        FACTOR => 3,
        ZERO => 0,
        ONE => 1,
        other => panic!("{other} is no scalar"),
    }
}

/// The scalar loop, entered at iteration `i`.
fn scalar_loop(cells: &mut Memory, mut i: u64, n: u64) {
    loop {
        let sum = cells[&(A, i + 1)] * 3 + i;
        *cells.get_mut(&(C, i)).unwrap() += sum;
        i += 1;
        if i >= n {
            return;
        }
    }
}

#[derive(Clone, Debug)]
enum Outcome {
    Nothing,
    Flag(bool),
    Word(u64),
    Vector(Vec<u64>),
    Pointer(ValueId, u64),
}

struct Run<'a> {
    r: &'a Rewrite,
    n: u64,
    index: u64,
    outcomes: Vec<Outcome>,
}

impl Run<'_> {
    fn get(&self, operand: Operand) -> Outcome {
        match operand {
            Operand::Original(v) => Outcome::Word(fixed_value(v, self.n)),
            Operand::Constant(number) => Outcome::Word(number),
            Operand::LaneNumbers => Outcome::Vector((0..u64::from(self.r.vf)).collect()),
            Operand::Result(number) => self.outcomes[number].clone(),
        }
    }

    fn word(&self, operand: Operand) -> u64 {
        match self.get(operand) {
            Outcome::Word(word) => word,
            other => panic!("{other:?} is no word"),
        }
    }

    fn lanes(&self, operand: Operand) -> Vec<u64> {
        match self.get(operand) {
            Outcome::Vector(lanes) => lanes,
            other => panic!("{other:?} is no vector"),
        }
    }

    fn pointer(&self, operand: Operand) -> (ValueId, u64) {
        match self.get(operand) {
            Outcome::Pointer(base, index) => (base, index),
            other => panic!("{other:?} is no pointer"),
        }
    }

    fn pairs(&self, left: Operand, right: Operand) -> Vec<(u64, u64)> {
        self.lanes(left).into_iter().zip(self.lanes(right)).collect()
    }

    /// Runs a block and tells where it leads.
    fn block(&mut self, cells: &mut Memory, steps: &[Step]) -> Target {
        let mut target = None;
        for step in steps {
            let outcome = match *step {
                Step::IndexPhi => Outcome::Word(self.index),
                Step::CompareIndex {
                    predicate,
                    left,
                    right,
                    ..
                } => {
                    let (left, right) = (self.word(left), self.word(right));
                    Outcome::Flag(match predicate {
                        IntPredicate::Uge => left >= right,
                        IntPredicate::Eq => left == right,
                        IntPredicate::Ne => left != right,
                        other => panic!("unexpected {other:?}"),
                    })
                }
                Step::MaskIndex { left, right } => {
                    Outcome::Word(self.word(left) & self.word(right))
                }
                Step::AddIndex { left, right, .. } => {
                    Outcome::Word(self.word(left).wrapping_add(self.word(right)))
                }
                Step::AddLanes { left, right } => Outcome::Vector(
                    self.pairs(left, right)
                        .into_iter()
                        .map(|(left, right)| left.wrapping_add(right))
                        .collect(),
                ),
                Step::Branch {
                    condition,
                    on_true,
                    on_false,
                } => {
                    let Outcome::Flag(taken) = self.get(condition) else {
                        panic!("no condition");
                    };
                    target = Some(if taken { on_true } else { on_false });
                    Outcome::Nothing
                }
                Step::Splat { scalar, .. } => {
                    Outcome::Vector(vec![self.word(scalar); self.r.vf as usize])
                }
                Step::Address { base, index, .. } => Outcome::Pointer(base, self.word(index)),
                Step::Load { pointer, .. } => {
                    let (base, first) = self.pointer(pointer);
                    let lanes = 0..u64::from(self.r.vf);
                    Outcome::Vector(lanes.map(|lane| cells[&(base, first + lane)]).collect())
                }
                Step::Store { value, pointer, .. } => {
                    let (base, first) = self.pointer(pointer);
                    for (lane, word) in self.lanes(value).into_iter().enumerate() {
                        cells.insert((base, first + lane as u64), word);
                    }
                    Outcome::Nothing
                }
                Step::Binary {
                    opcode, left, right, ..
                } => Outcome::Vector(
                    self.pairs(left, right)
                        .into_iter()
                        .map(|(left, right)| match opcode {
                            Opcode::Add => left.wrapping_add(right),
                            Opcode::Mul => left.wrapping_mul(right),
                            other => panic!("unexpected {other:?}"),
                        })
                        .collect(),
                ),
                other => panic!("unexpected {other:?}"),
            };
            self.outcomes.push(outcome);
        }
        target.expect("blocks end in branches")
    }
}

/// The rewritten loop; tells how many iterations ran in vectors.
fn rewritten_loop(cells: &mut Memory, r: &Rewrite, n: u64) -> u64 {
    let mut run = Run {
        r,
        n,
        index: 0,
        outcomes: Vec::new(),
    };
    if run.block(cells, &r.dispatch) == Target::Existing(r.header) {
        scalar_loop(cells, 0, n);
        return 0;
    }
    let entry = run.outcomes.len();
    run.index = run.word(r.index_entry.value);
    loop {
        run.outcomes.truncate(entry);
        let target = run.block(cells, &r.vector_body);
        if target != Target::New(r.index_back_edge.block) {
            break;
        }
        run.index = run.word(r.index_back_edge.value);
    }
    let target = run.block(cells, &r.vector_exit);
    let done = run.word(r.remainder_entry.value);
    if target == Target::Existing(r.header) {
        scalar_loop(cells, done, n);
    }
    done
}

#[test]
fn rewritten_loops_leave_the_same_memory() {
    let f = function();
    for forced in [0, 2, 4, 8, 16, 32, 64] {
        let config = PassConfig::new(Heuristic::Balanced, forced, false);
        let Ok((plan, r)) = vectorize_loop(&f, 1, config) else {
            panic!("expected a rewrite");
        };
        for n in 1..150 {
            let mut expected = memory();
            scalar_loop(&mut expected, 0, n);
            let mut found = memory();
            let done = rewritten_loop(&mut found, &r, n);
            assert_eq!(found, expected);
            let minimum = config.minimum_trip_count(plan.vf);
            let vf = u64::from(plan.vf);
            assert_eq!(done, if n < minimum { 0 } else { n / vf * vf });
        }
    }
}

#[test]
fn vector_bodies_hold_every_kind_of_operand() {
    let config = PassConfig::new(Heuristic::Balanced, 0, false);
    let Ok((plan, r)) = vectorize_loop(&function(), 1, config) else {
        panic!("expected a rewrite");
    };
    assert_eq!(plan.vf, 2);
    let labels: Vec<_> = r.vector_body.iter().map(|step| step.label().name()).collect();
    assert_eq!(
        labels,
        [
            "rv.index",
            "rv.splat",
            "rv.lane.indices",
            "rv.address.index",
            "rv.wide.ptr",
            "rv.wide.load",
            "rv.splat",
            "rv.binop",
            "rv.binop",
            "rv.wide.ptr",
            "rv.wide.load",
            "rv.binop",
            "",
            "rv.index.next",
            "rv.vector.done",
            "",
        ]
    );
}
