use eidos::eir::{BinaryOp, BlockId, Function, FunctionId, Instruction, InstructionId, Literal, Operand, RegisterId, Terminator};
use eidos::licm::{identify_loop_invariants, move_invariants_to_preheader, run_loop_invariant_code_motion};
use eidos::loops::{compute_dominators, construct_loop_info, detect_loops, get_predecessors};
use eidos::types::TypeId;

fn set_terminator(f: &mut Function, block: BlockId, t: Terminator) {
    let mut b = f.get_block(block).unwrap().clone();
    b.set_terminator(t);
    f.blocks.replace(block, b);
}

fn branch(target: BlockId) -> Terminator {
    Terminator::Branch { target, args: vec![] }
}

fn cond(t: BlockId, e: BlockId) -> Terminator {
    Terminator::BranchCond {
        condition: Operand::Register(RegisterId(0)),
        true_target: t,
        true_args: vec![],
        false_target: e,
        false_args: vec![],
    }
}

fn ids(v: &[BlockId]) -> Vec<u32> {
    v.iter().map(|b| b.0).collect()
}

/// 0 -> 1, 0 -> 2, 1 -> 3, 2 -> 3.
fn diamond() -> Function {
    let mut f = Function::new(FunctionId(0), "f", TypeId(0), TypeId(1));
    let b1 = f.create_block();
    let b2 = f.create_block();
    let b3 = f.create_block();
    set_terminator(&mut f, BlockId(0), cond(b1, b2));
    set_terminator(&mut f, b1, branch(b3));
    set_terminator(&mut f, b2, branch(b3));
    set_terminator(&mut f, b3, Terminator::Return { value: None });
    f
}

/// 0 -> 1, 1 -> 2, 2 -> 1 or 3.
fn simple_loop() -> Function {
    let mut f = Function::new(FunctionId(0), "f", TypeId(0), TypeId(1));
    let b1 = f.create_block();
    let b2 = f.create_block();
    let b3 = f.create_block();
    set_terminator(&mut f, BlockId(0), branch(b1));
    set_terminator(&mut f, b1, branch(b2));
    set_terminator(&mut f, b2, cond(b1, b3));
    set_terminator(&mut f, b3, Terminator::Return { value: None });
    f
}

#[test]
fn predecessors_in_key_order() {
    let f = diamond();
    assert_eq!(ids(&get_predecessors(&f, BlockId(3))), vec![1, 2]);
    assert_eq!(ids(&get_predecessors(&f, BlockId(1))), vec![0]);
    assert!(get_predecessors(&f, BlockId(0)).is_empty());
}

#[test]
fn dominators_of_a_diamond() {
    let f = diamond();
    let d = compute_dominators(&f);
    let listed: Vec<(u32, Vec<u32>)> = d.iter().map(|(b, ds)| (b.0, ids(ds))).collect();
    assert_eq!(listed, vec![(0, vec![0]), (1, vec![0, 1]), (2, vec![0, 2]), (3, vec![0, 3])]);
}

#[test]
fn dominators_of_a_loop() {
    let f = simple_loop();
    let d = compute_dominators(&f);
    let listed: Vec<(u32, Vec<u32>)> = d.iter().map(|(b, ds)| (b.0, ids(ds))).collect();
    assert_eq!(listed, vec![(0, vec![0]), (1, vec![0, 1]), (2, vec![0, 1, 2]), (3, vec![0, 1, 2, 3])]);
}

#[test]
fn a_block_without_predecessors_keeps_every_dominator() {
    let mut f = diamond();
    let b4 = f.create_block();
    set_terminator(&mut f, b4, branch(BlockId(3)));
    let d = compute_dominators(&f);
    let listed: Vec<(u32, Vec<u32>)> = d.iter().map(|(b, ds)| (b.0, ids(ds))).collect();
    assert_eq!(listed[4], (4, vec![0, 1, 2, 3, 4]));
    assert_eq!(listed[3], (3, vec![0, 3]));
}

#[test]
fn loops_are_found_from_back_edges() {
    let f = simple_loop();
    let loops = detect_loops(&f);
    assert_eq!(loops.len(), 1);
    let l = &loops[0];
    assert_eq!(l.header, BlockId(1));
    let mut body = ids(&l.body);
    body.sort();
    assert_eq!(body, vec![1, 2]);
    assert_eq!(l.preheader, Some(BlockId(0)));
    assert_eq!(ids(&l.exits), vec![3]);
    assert!(detect_loops(&diamond()).is_empty());
}

#[test]
fn a_self_loop() {
    let mut f = Function::new(FunctionId(0), "f", TypeId(0), TypeId(1));
    let b1 = f.create_block();
    let b2 = f.create_block();
    set_terminator(&mut f, BlockId(0), branch(b1));
    set_terminator(&mut f, b1, cond(b1, b2));
    set_terminator(&mut f, b2, Terminator::Return { value: None });
    let l = construct_loop_info(&f, b1, b1);
    assert_eq!(ids(&l.body), vec![1]);
    assert_eq!(l.preheader, Some(BlockId(0)));
    assert_eq!(ids(&l.exits), vec![2]);
    let loops = detect_loops(&f);
    assert_eq!(loops.len(), 1);
    assert_eq!(loops[0].header, b1);
}

fn binop(op: BinaryOp, lhs: Operand, rhs: Operand, result: RegisterId) -> Instruction {
    Instruction::BinaryOp { op, lhs, rhs, result }
}

fn lit(v: i64) -> Operand {
    Operand::Literal(Literal::Int(v))
}

/// 0 -> 1; 1 -> 2 or 3; 2 -> 1, with two invariant instructions and a store in 2.
fn loop_with_invariants() -> (Function, Vec<InstructionId>) {
    let mut f = Function::new(FunctionId(0), "f", TypeId(0), TypeId(1));
    let b1 = f.create_block();
    let b2 = f.create_block();
    let b3 = f.create_block();
    let r1 = f.create_register(TypeId(0));
    let r2 = f.create_register(TypeId(0));
    let i1 = f.add_instruction(b2, binop(BinaryOp::Add, lit(3), lit(4), r1));
    let i2 = f.add_instruction(b2, binop(BinaryOp::Mul, Operand::Register(r1), lit(2), r2));
    let i3 = f.add_instruction(b2, Instruction::Store { address: lit(0), value: Operand::Register(r2) });
    set_terminator(&mut f, BlockId(0), branch(b1));
    set_terminator(&mut f, b1, cond(b2, b3));
    set_terminator(&mut f, b2, branch(b1));
    set_terminator(&mut f, b3, Terminator::Return { value: None });
    (f, vec![i1, i2, i3])
}

fn instruction_ids(f: &Function, b: BlockId) -> Vec<InstructionId> {
    f.get_block(b).unwrap().instructions.iter().map(|e| e.0).collect()
}

#[test]
fn invariant_instructions_are_found_in_dependency_order() {
    let (f, _) = loop_with_invariants();
    let loops = detect_loops(&f);
    assert_eq!(loops.len(), 1);
    assert_eq!(identify_loop_invariants(&f, &loops[0]), vec![0, 1]);
}

#[test]
fn invariant_instructions_move_to_the_preheader() {
    let (mut f, ids) = loop_with_invariants();
    let loops = detect_loops(&f);
    let found = identify_loop_invariants(&f, &loops[0]);
    move_invariants_to_preheader(&mut f, &loops[0], &found);
    assert_eq!(instruction_ids(&f, BlockId(0)), vec![ids[0], ids[1]]);
    assert_eq!(instruction_ids(&f, BlockId(2)), vec![ids[2]]);
}

#[test]
fn the_pass_moves_invariant_code_of_every_loop() {
    let (mut f, ids) = loop_with_invariants();
    run_loop_invariant_code_motion(&mut f);
    assert_eq!(instruction_ids(&f, BlockId(0)), vec![ids[0], ids[1]]);
    assert_eq!(instruction_ids(&f, BlockId(2)), vec![ids[2]]);
    // A second run finds nothing more to move.
    run_loop_invariant_code_motion(&mut f);
    assert_eq!(instruction_ids(&f, BlockId(0)), vec![ids[0], ids[1]]);
    assert_eq!(instruction_ids(&f, BlockId(2)), vec![ids[2]]);
}

#[test]
fn a_register_of_a_loop_block_parameter_is_not_invariant() {
    let mut f = Function::new(FunctionId(0), "f", TypeId(0), TypeId(1));
    let b1 = f.create_block();
    let b2 = f.create_block();
    let r0 = f.create_register(TypeId(0));
    let r1 = f.create_register(TypeId(0));
    let mut header = f.get_block(b1).unwrap().clone();
    header.parameters.push((r0, TypeId(0)));
    f.blocks.replace(b1, header);
    f.add_instruction(b1, binop(BinaryOp::Add, Operand::Register(r0), lit(1), r1));
    set_terminator(&mut f, BlockId(0), Terminator::Branch { target: b1, args: vec![lit(0)] });
    set_terminator(&mut f, b1, Terminator::BranchCond {
        condition: Operand::Register(RegisterId(9)),
        true_target: b1,
        true_args: vec![Operand::Register(r1)],
        false_target: b2,
        false_args: vec![],
    });
    set_terminator(&mut f, b2, Terminator::Return { value: None });
    let loops = detect_loops(&f);
    assert_eq!(loops.len(), 1);
    assert!(identify_loop_invariants(&f, &loops[0]).is_empty());
}
