use eidos::eir::{
    BinaryOp, BlockId, Function, FunctionId, Instruction, InstructionId, Literal, Module, Operand, RegisterId,
    Terminator, UnaryOp,
};
use eidos::optimizer::{
    find_reachable_blocks, fold_chain, fold_constants, fold_function_constants, run_common_subexpression_elimination, run_instruction_combining, run_memory_to_register, try_combine_instructions, has_side_effects, live_registers, merge_blocks, merge_empty_blocks,
    remove_unreachable_code, run_control_flow_optimization, run_dead_code_elimination, simplify_branches,
    OptimizationLevel, OptimizationOptions, OptimizationPass, Optimizer,
};
use eidos::types::TypeId;

fn lit_int(v: i64) -> Operand {
    Operand::Literal(Literal::Int(v))
}

fn binop(op: BinaryOp, lhs: Operand, rhs: Operand, result: RegisterId) -> Instruction {
    Instruction::BinaryOp { op, lhs, rhs, result }
}

fn set_terminator(f: &mut Function, block: BlockId, t: Terminator) {
    let mut b = f.get_block(block).unwrap().clone();
    b.set_terminator(t);
    f.blocks.replace(block, b);
}

fn instrs(f: &Function, block: BlockId) -> Vec<(InstructionId, Instruction)> {
    f.get_block(block).unwrap().instructions.clone()
}

#[test]
fn fold_integer_operations() {
    let r = RegisterId(0);
    assert_eq!(fold_constants(&binop(BinaryOp::Add, lit_int(2), lit_int(3), r)), Some(Literal::Int(5)));
    assert_eq!(fold_constants(&binop(BinaryOp::Sub, lit_int(2), lit_int(3), r)), Some(Literal::Int(-1)));
    assert_eq!(fold_constants(&binop(BinaryOp::Mul, lit_int(-4), lit_int(3), r)), Some(Literal::Int(-12)));
    assert_eq!(fold_constants(&binop(BinaryOp::Div, lit_int(-7), lit_int(2), r)), Some(Literal::Int(-3)));
    assert_eq!(fold_constants(&binop(BinaryOp::Rem, lit_int(-7), lit_int(2), r)), Some(Literal::Int(-1)));
    assert_eq!(fold_constants(&binop(BinaryOp::Shl, lit_int(1), lit_int(4), r)), Some(Literal::Int(16)));
    assert_eq!(fold_constants(&binop(BinaryOp::Shr, lit_int(-16), lit_int(2), r)), Some(Literal::Int(-4)));
    assert_eq!(fold_constants(&binop(BinaryOp::BitXor, lit_int(6), lit_int(3), r)), Some(Literal::Int(5)));
    assert_eq!(fold_constants(&binop(BinaryOp::Lt, lit_int(2), lit_int(3), r)), Some(Literal::Bool(true)));
    assert_eq!(fold_constants(&binop(BinaryOp::Ge, lit_int(2), lit_int(3), r)), Some(Literal::Bool(false)));
}

#[test]
fn fold_refuses_what_would_fail() {
    let r = RegisterId(0);
    assert_eq!(fold_constants(&binop(BinaryOp::Add, lit_int(i64::MAX), lit_int(1), r)), None);
    assert_eq!(fold_constants(&binop(BinaryOp::Div, lit_int(1), lit_int(0), r)), None);
    assert_eq!(fold_constants(&binop(BinaryOp::Div, lit_int(i64::MIN), lit_int(-1), r)), None);
    assert_eq!(fold_constants(&binop(BinaryOp::Rem, lit_int(1), lit_int(0), r)), None);
    assert_eq!(fold_constants(&binop(BinaryOp::Shl, lit_int(1), lit_int(64), r)), None);
    assert_eq!(fold_constants(&binop(BinaryOp::And, lit_int(1), lit_int(1), r)), None);
    assert_eq!(fold_constants(&binop(BinaryOp::Add, Operand::Register(RegisterId(1)), lit_int(1), r)), None);
    assert_eq!(fold_constants(&Instruction::Load { address: lit_int(0), result: r }), None);
}

#[test]
fn fold_unary_operations() {
    let r = RegisterId(0);
    let un = |op, v| Instruction::UnaryOp { op, operand: Operand::Literal(v), result: r };
    assert_eq!(fold_constants(&un(UnaryOp::Neg, Literal::Int(5))), Some(Literal::Int(-5)));
    assert_eq!(fold_constants(&un(UnaryOp::Neg, Literal::Int(i64::MIN))), None);
    assert_eq!(fold_constants(&un(UnaryOp::BitNot, Literal::Int(0))), Some(Literal::Int(-1)));
    assert_eq!(fold_constants(&un(UnaryOp::Not, Literal::Bool(true))), Some(Literal::Bool(false)));
    assert_eq!(fold_constants(&un(UnaryOp::Cast, Literal::Int(1))), None);
}

#[test]
fn folding_a_function() {
    let mut f = Function::new(FunctionId(0), "f", TypeId(0), TypeId(1));
    let r0 = f.create_register(TypeId(7));
    let r1 = f.create_register(TypeId(8));
    let i0 = f.add_instruction(BlockId(0), binop(BinaryOp::Add, lit_int(2), lit_int(3), r0));
    let i1 = f.add_instruction(BlockId(0), binop(BinaryOp::Add, Operand::Register(r0), lit_int(1), r1));
    fold_function_constants(&mut f);
    let v = instrs(&f, BlockId(0));
    assert_eq!(v[0], (i0, Instruction::Cast { value: lit_int(5), target_type: TypeId(7), result: r0 }));
    assert_eq!(v[1], (i1, binop(BinaryOp::Add, Operand::Register(r0), lit_int(1), r1)));
}

#[test]
fn folding_needs_a_register_type() {
    let mut f = Function::new(FunctionId(0), "f", TypeId(0), TypeId(1));
    let i0 = f.add_instruction(BlockId(0), binop(BinaryOp::Mul, lit_int(2), lit_int(3), RegisterId(9)));
    fold_function_constants(&mut f);
    assert_eq!(instrs(&f, BlockId(0)), vec![(i0, binop(BinaryOp::Mul, lit_int(2), lit_int(3), RegisterId(9)))]);
}

#[test]
fn side_effects() {
    assert!(has_side_effects(&Instruction::Store { address: lit_int(0), value: lit_int(1) }));
    assert!(has_side_effects(&Instruction::Call { function: "f".to_string(), arguments: vec![], result: None }));
    assert!(!has_side_effects(&Instruction::Load { address: lit_int(0), result: RegisterId(0) }));
    assert!(!has_side_effects(&Instruction::DebugInfo { info: "x".to_string() }));
}

#[test]
fn dead_code_is_removed() {
    let mut f = Function::new(FunctionId(0), "f", TypeId(0), TypeId(1));
    let r0 = f.create_register(TypeId(0));
    let r1 = f.create_register(TypeId(0));
    let r2 = f.create_register(TypeId(0));
    let r3 = f.create_register(TypeId(0));
    let _i0 = f.add_instruction(BlockId(0), binop(BinaryOp::Add, lit_int(1), lit_int(2), r0));
    let i1 = f.add_instruction(BlockId(0), binop(BinaryOp::Add, lit_int(3), lit_int(4), r1));
    let i2 = f.add_instruction(BlockId(0), binop(BinaryOp::Mul, Operand::Register(r1), lit_int(2), r2));
    let i3 = f.add_instruction(BlockId(0), Instruction::Store { address: lit_int(0), value: Operand::Register(r3) });
    let _i4 = f.add_instruction(BlockId(0), Instruction::DebugInfo { info: "dbg".to_string() });
    set_terminator(&mut f, BlockId(0), Terminator::Return { value: Some(Operand::Register(r2)) });
    let mut live = live_registers(&f);
    live.sort();
    assert_eq!(live, vec![1, 2, 3]);
    run_dead_code_elimination(&mut f);
    let kept: Vec<InstructionId> = instrs(&f, BlockId(0)).into_iter().map(|e| e.0).collect();
    assert_eq!(kept, vec![i1, i2, i3]);
}

#[test]
fn nothing_live_without_uses() {
    let mut f = Function::new(FunctionId(0), "f", TypeId(0), TypeId(1));
    let r0 = f.create_register(TypeId(0));
    f.add_instruction(BlockId(0), binop(BinaryOp::Add, lit_int(1), lit_int(2), r0));
    assert!(live_registers(&f).is_empty());
    run_dead_code_elimination(&mut f);
    assert!(instrs(&f, BlockId(0)).is_empty());
}

#[test]
fn reachability() {
    let mut f = Function::new(FunctionId(0), "f", TypeId(0), TypeId(1));
    let b1 = f.create_block();
    let b2 = f.create_block();
    let b3 = f.create_block();
    set_terminator(&mut f, BlockId(0), Terminator::Branch { target: b1, args: vec![] });
    set_terminator(
        &mut f,
        b1,
        Terminator::BranchCond {
            condition: Operand::Register(RegisterId(0)),
            true_target: b3,
            true_args: vec![],
            false_target: BlockId(0),
            false_args: vec![],
        },
    );
    set_terminator(&mut f, b2, Terminator::Branch { target: b3, args: vec![] });
    let mut r = find_reachable_blocks(&f);
    r.sort();
    assert_eq!(r, vec![0, 1, 3]);
    remove_unreachable_code(&mut f);
    assert!(f.get_block(b2).is_none());
    assert!(f.get_block(BlockId(0)).is_some() && f.get_block(b1).is_some() && f.get_block(b3).is_some());
}

#[test]
fn branches_on_literals_are_simplified() {
    let mut f = Function::new(FunctionId(0), "f", TypeId(0), TypeId(1));
    let b1 = f.create_block();
    let b2 = f.create_block();
    set_terminator(
        &mut f,
        BlockId(0),
        Terminator::BranchCond {
            condition: Operand::Literal(Literal::Bool(false)),
            true_target: b1,
            true_args: vec![],
            false_target: b2,
            false_args: vec![lit_int(4)],
        },
    );
    set_terminator(
        &mut f,
        b1,
        Terminator::BranchCond {
            condition: Operand::Register(RegisterId(0)),
            true_target: b2,
            true_args: vec![],
            false_target: b2,
            false_args: vec![],
        },
    );
    simplify_branches(&mut f);
    assert_eq!(f.get_block(BlockId(0)).unwrap().terminator, Some(Terminator::Branch { target: b2, args: vec![lit_int(4)] }));
    assert_eq!(f.get_block(b1).unwrap().terminator, Some(Terminator::Branch { target: b2, args: vec![] }));
}

#[test]
fn control_flow_optimization_drops_blocks_behind_a_constant_branch() {
    let mut f = Function::new(FunctionId(0), "f", TypeId(0), TypeId(1));
    let b1 = f.create_block();
    let b2 = f.create_block();
    set_terminator(
        &mut f,
        BlockId(0),
        Terminator::BranchCond {
            condition: Operand::Literal(Literal::Bool(true)),
            true_target: b1,
            true_args: vec![],
            false_target: b2,
            false_args: vec![],
        },
    );
    run_control_flow_optimization(&mut f);
    // The branch became unconditional, and its target was merged into the entry.
    assert_eq!(f.get_block(BlockId(0)).unwrap().terminator, None);
    assert!(f.get_block(b1).is_none());
    assert!(f.get_block(b2).is_some());
    run_control_flow_optimization(&mut f);
    assert!(f.get_block(b2).is_none());
}

#[test]
fn levels_and_plans() {
    assert_eq!(OptimizationLevel::from(0u8), OptimizationLevel::NoOptimization);
    assert_eq!(OptimizationLevel::from(1u8), OptimizationLevel::Speed1);
    assert_eq!(OptimizationLevel::from(3u8), OptimizationLevel::Speed3);
    assert_eq!(OptimizationLevel::from(9u8), OptimizationLevel::Speed2);
    assert_eq!(OptimizationPass::all().len(), 10);
    let o = Optimizer::default();
    assert_eq!(
        o.plan(),
        vec![
            OptimizationPass::ConstantFolding,
            OptimizationPass::DeadCodeElimination,
            OptimizationPass::CommonSubexpressionElimination,
            OptimizationPass::ControlFlowOptimization,
            OptimizationPass::MemoryToRegister,
            OptimizationPass::InstructionCombining,
            OptimizationPass::ConstantFolding,
            OptimizationPass::DeadCodeElimination,
            OptimizationPass::LoopInvariantCodeMotion,
        ]
    );
    assert_eq!(Optimizer::with_level(3).plan().len(), 10);
    assert!(Optimizer::with_level(0).plan().is_empty());
    let mut options = OptimizationOptions::default();
    options.level = OptimizationLevel::Speed1;
    options.disabled_passes = vec![OptimizationPass::DeadCodeElimination];
    assert_eq!(
        Optimizer::new(options).plan(),
        vec![
            OptimizationPass::ConstantFolding,
            OptimizationPass::CommonSubexpressionElimination,
            OptimizationPass::ControlFlowOptimization,
            OptimizationPass::MemoryToRegister,
        ]
    );
    let mut size = OptimizationOptions::default();
    size.level = OptimizationLevel::Size;
    size.disabled_passes = vec![OptimizationPass::ConstantFolding];
    assert_eq!(Optimizer::new(size).plan().len(), 3);
}

#[test]
fn optimizing_a_module() {
    let mut f = Function::new(FunctionId(3), "main", TypeId(0), TypeId(1));
    let r0 = f.create_register(TypeId(5));
    let r1 = f.create_register(TypeId(5));
    f.add_instruction(BlockId(0), binop(BinaryOp::Add, lit_int(20), lit_int(22), r0));
    f.add_instruction(BlockId(0), binop(BinaryOp::Mul, lit_int(2), lit_int(2), r1));
    set_terminator(&mut f, BlockId(0), Terminator::Return { value: Some(Operand::Register(r0)) });
    let dead = f.create_block();
    let mut m = Module::new("m");
    m.add_function(f);
    Optimizer::with_level(1).optimize_module(&mut m).unwrap();
    let g = m.get_function(FunctionId(3)).unwrap();
    assert!(g.get_block(dead).is_none());
    let v = instrs(g, BlockId(0));
    assert_eq!(v.len(), 1);
    assert_eq!(v[0].1, Instruction::Cast { value: lit_int(42), target_type: TypeId(5), result: r0 });
}

fn terminator(f: &Function, block: BlockId) -> Option<Terminator> {
    f.get_block(block).unwrap().terminator.clone()
}

#[test]
fn branches_skip_blocks_that_only_branch_on() {
    let mut f = Function::new(FunctionId(0), "f", TypeId(0), TypeId(1));
    let b1 = f.create_block();
    let b2 = f.create_block();
    let b3 = f.create_block();
    set_terminator(&mut f, BlockId(0), Terminator::BranchCond {
        condition: Operand::Register(RegisterId(0)),
        true_target: b1,
        true_args: vec![],
        false_target: b3,
        false_args: vec![],
    });
    set_terminator(&mut f, b1, Terminator::Branch { target: b2, args: vec![] });
    set_terminator(&mut f, b2, Terminator::Branch { target: b3, args: vec![] });
    set_terminator(&mut f, b3, Terminator::Return { value: None });
    merge_empty_blocks(&mut f);
    assert_eq!(terminator(&f, BlockId(0)), Some(Terminator::BranchCond {
        condition: Operand::Register(RegisterId(0)),
        true_target: b3,
        true_args: vec![],
        false_target: b3,
        false_args: vec![],
    }));
    assert_eq!(terminator(&f, b1), Some(Terminator::Branch { target: b3, args: vec![] }));
    assert_eq!(terminator(&f, b2), Some(Terminator::Branch { target: b3, args: vec![] }));
    assert_eq!(terminator(&f, b3), Some(Terminator::Return { value: None }));
}

#[test]
fn a_block_with_work_is_not_skipped() {
    let mut f = Function::new(FunctionId(0), "f", TypeId(0), TypeId(1));
    let b1 = f.create_block();
    let b2 = f.create_block();
    let r0 = f.create_register(TypeId(0));
    f.add_instruction(b1, Instruction::Store { address: lit_int(0), value: Operand::Register(r0) });
    set_terminator(&mut f, BlockId(0), Terminator::Branch { target: b1, args: vec![] });
    set_terminator(&mut f, b1, Terminator::Branch { target: b2, args: vec![] });
    set_terminator(&mut f, b2, Terminator::Return { value: None });
    merge_empty_blocks(&mut f);
    assert_eq!(terminator(&f, BlockId(0)), Some(Terminator::Branch { target: b1, args: vec![] }));
}

#[test]
fn a_cycle_of_forwarding_blocks_ends() {
    let mut f = Function::new(FunctionId(0), "f", TypeId(0), TypeId(1));
    let b1 = f.create_block();
    set_terminator(&mut f, BlockId(0), Terminator::Branch { target: b1, args: vec![] });
    set_terminator(&mut f, b1, Terminator::Branch { target: BlockId(0), args: vec![] });
    merge_empty_blocks(&mut f);
    assert!(f.get_block(BlockId(0)).is_some() && f.get_block(b1).is_some());
}

#[test]
fn dead_code_elimination_also_skips_forwarding_blocks() {
    let mut f = Function::new(FunctionId(0), "f", TypeId(0), TypeId(1));
    let b1 = f.create_block();
    let b2 = f.create_block();
    let r0 = f.create_register(TypeId(0));
    f.add_instruction(b1, binop(BinaryOp::Add, lit_int(1), lit_int(2), r0));
    set_terminator(&mut f, BlockId(0), Terminator::Branch { target: b1, args: vec![] });
    set_terminator(&mut f, b1, Terminator::Branch { target: b2, args: vec![] });
    set_terminator(&mut f, b2, Terminator::Return { value: None });
    run_dead_code_elimination(&mut f);
    assert!(instrs(&f, b1).is_empty());
    assert_eq!(terminator(&f, BlockId(0)), Some(Terminator::Branch { target: b2, args: vec![] }));
}

#[test]
fn a_block_is_merged_with_its_only_successor() {
    let mut f = Function::new(FunctionId(0), "f", TypeId(0), TypeId(1));
    let b1 = f.create_block();
    let b2 = f.create_block();
    let r0 = f.create_register(TypeId(0));
    let r1 = f.create_register(TypeId(0));
    let i0 = f.add_instruction(BlockId(0), binop(BinaryOp::Add, lit_int(1), lit_int(2), r0));
    let i1 = f.add_instruction(b1, binop(BinaryOp::Mul, lit_int(3), lit_int(4), r1));
    set_terminator(&mut f, BlockId(0), Terminator::Branch { target: b1, args: vec![] });
    set_terminator(&mut f, b1, Terminator::Branch { target: b2, args: vec![] });
    set_terminator(&mut f, b2, Terminator::Return { value: None });
    merge_blocks(&mut f);
    let ids: Vec<InstructionId> = instrs(&f, BlockId(0)).into_iter().map(|e| e.0).collect();
    assert_eq!(ids, vec![i0, i1]);
    assert_eq!(terminator(&f, BlockId(0)), Some(Terminator::Branch { target: b2, args: vec![] }));
    assert!(f.get_block(b1).is_none());
    // The pair (b1, b2) was chosen before b1 went away, so b2 stays.
    assert!(f.get_block(b2).is_some());
    merge_blocks(&mut f);
    assert!(f.get_block(b2).is_none());
    assert_eq!(terminator(&f, BlockId(0)), Some(Terminator::Return { value: None }));
}

#[test]
fn a_block_with_two_predecessors_is_not_merged() {
    let mut f = Function::new(FunctionId(0), "f", TypeId(0), TypeId(1));
    let b1 = f.create_block();
    let b2 = f.create_block();
    set_terminator(&mut f, BlockId(0), Terminator::BranchCond {
        condition: Operand::Register(RegisterId(0)),
        true_target: b1,
        true_args: vec![],
        false_target: b2,
        false_args: vec![],
    });
    set_terminator(&mut f, b1, Terminator::Branch { target: b2, args: vec![] });
    set_terminator(&mut f, b2, Terminator::Return { value: None });
    merge_blocks(&mut f);
    assert!(f.get_block(b1).is_some() && f.get_block(b2).is_some());
    assert_eq!(terminator(&f, b1), Some(Terminator::Branch { target: b2, args: vec![] }));
}

#[test]
fn the_entry_block_is_never_merged_away() {
    let mut f = Function::new(FunctionId(0), "f", TypeId(0), TypeId(1));
    let b1 = f.create_block();
    set_terminator(&mut f, b1, Terminator::Branch { target: BlockId(0), args: vec![] });
    set_terminator(&mut f, BlockId(0), Terminator::Return { value: None });
    merge_blocks(&mut f);
    assert!(f.get_block(BlockId(0)).is_some() && f.get_block(b1).is_some());
}

#[test]
fn chains_of_integer_operations() {
    let t1 = RegisterId(1);
    let t2 = RegisterId(2);
    let first = binop(BinaryOp::Sub, lit_int(10), lit_int(4), t1);
    assert_eq!(fold_chain(&first, &binop(BinaryOp::Mul, Operand::Register(t1), lit_int(3), t2)), Some(Literal::Int(18)));
    assert_eq!(fold_chain(&first, &binop(BinaryOp::Div, Operand::Register(t1), lit_int(4), t2)), Some(Literal::Int(1)));
    assert_eq!(fold_chain(&first, &binop(BinaryOp::Div, Operand::Register(t1), lit_int(0), t2)), None);
    assert_eq!(fold_chain(&first, &binop(BinaryOp::Add, Operand::Register(RegisterId(7)), lit_int(3), t2)), None);
    assert_eq!(fold_chain(&first, &binop(BinaryOp::Lt, Operand::Register(t1), lit_int(3), t2)), None);
    assert_eq!(fold_chain(&binop(BinaryOp::Add, lit_int(i64::MAX), lit_int(1), t1), &binop(BinaryOp::Add, Operand::Register(t1), lit_int(1), t2)), None);
}

#[test]
fn combining_a_function() {
    let mut f = Function::new(FunctionId(0), "f", TypeId(0), TypeId(1));
    let r0 = f.create_register(TypeId(7));
    let r1 = f.create_register(TypeId(8));
    let r2 = f.create_register(TypeId(9));
    let r3 = f.create_register(TypeId(9));
    let i0 = f.add_instruction(BlockId(0), binop(BinaryOp::Sub, lit_int(10), lit_int(4), r0));
    let i1 = f.add_instruction(BlockId(0), binop(BinaryOp::Mul, Operand::Register(r0), lit_int(3), r1));
    let i2 = f.add_instruction(BlockId(0), binop(BinaryOp::Sub, Operand::Register(r1), lit_int(1), r2));
    let i3 = f.add_instruction(BlockId(0), binop(BinaryOp::Add, Operand::Register(r2), lit_int(1), r3));
    run_instruction_combining(&mut f);
    let v = instrs(&f, BlockId(0));
    assert_eq!(
        v,
        vec![
            (i0, binop(BinaryOp::Sub, lit_int(10), lit_int(4), r0)),
            (i1, Instruction::Cast { value: lit_int(18), target_type: TypeId(8), result: r1 }),
            (i2, binop(BinaryOp::Sub, Operand::Register(r1), lit_int(1), r2)),
            (i3, binop(BinaryOp::Add, Operand::Register(r2), lit_int(1), r3)),
        ]
    );
    assert_eq!(f.next_register_id, 4);
    assert_eq!(f.next_instruction_id, 4);
    run_instruction_combining(&mut f);
    assert_eq!(instrs(&f, BlockId(0)), v);
}

#[test]
fn products_of_sums_are_distributed() {
    let mut f = Function::new(FunctionId(0), "f", TypeId(0), TypeId(1));
    let a = f.create_register(TypeId(7));
    let t1 = f.create_register(TypeId(7));
    let t2 = f.create_register(TypeId(7));
    let t3 = f.create_register(TypeId(7));
    let i0 = f.add_instruction(BlockId(0), binop(BinaryOp::Add, Operand::Register(a), lit_int(3), t1));
    let _i1 = f.add_instruction(BlockId(0), binop(BinaryOp::Mul, Operand::Register(t1), lit_int(4), t2));
    let i2 = f.add_instruction(BlockId(0), binop(BinaryOp::Sub, Operand::Register(t2), lit_int(1), t3));
    run_instruction_combining(&mut f);
    let x = RegisterId(4);
    let y = RegisterId(5);
    let v = instrs(&f, BlockId(0));
    assert_eq!(
        v,
        vec![
            (i0, binop(BinaryOp::Add, Operand::Register(a), lit_int(3), t1)),
            (InstructionId(3), binop(BinaryOp::Mul, Operand::Register(a), lit_int(4), x)),
            (InstructionId(4), binop(BinaryOp::Mul, lit_int(3), lit_int(4), y)),
            (InstructionId(5), binop(BinaryOp::Add, Operand::Register(x), Operand::Register(y), t2)),
            (i2, binop(BinaryOp::Sub, Operand::Register(t2), lit_int(1), t3)),
        ]
    );
    assert_eq!(f.next_register_id, 6);
    assert_eq!(f.next_instruction_id, 6);
    run_instruction_combining(&mut f);
    assert_eq!(instrs(&f, BlockId(0)), v);
}

#[test]
fn a_sum_that_reads_its_own_register_is_not_distributed() {
    let mut f = Function::new(FunctionId(0), "f", TypeId(0), TypeId(1));
    let t1 = f.create_register(TypeId(7));
    let t2 = f.create_register(TypeId(7));
    f.add_instruction(BlockId(0), binop(BinaryOp::Add, Operand::Register(t1), lit_int(3), t1));
    f.add_instruction(BlockId(0), binop(BinaryOp::Mul, Operand::Register(t1), lit_int(4), t2));
    let before = instrs(&f, BlockId(0));
    run_instruction_combining(&mut f);
    assert_eq!(instrs(&f, BlockId(0)), before);
    assert_eq!(f.next_register_id, 2);
}

#[test]
fn combining_one_pair() {
    let mut f = Function::new(FunctionId(0), "f", TypeId(0), TypeId(1));
    let r0 = f.create_register(TypeId(7));
    let r1 = f.create_register(TypeId(8));
    let first = binop(BinaryOp::Mul, lit_int(6), lit_int(7), r0);
    let second = (InstructionId(9), binop(BinaryOp::Div, Operand::Register(r0), lit_int(2), r1));
    let (v, nr, ni, changed) = try_combine_instructions(&first, second.clone(), &f.register_types, 20, 30);
    assert!(changed);
    assert_eq!(v, vec![(InstructionId(9), Instruction::Cast { value: lit_int(21), target_type: TypeId(8), result: r1 })]);
    assert_eq!((nr, ni), (20, 30));
    let other = binop(BinaryOp::Sub, lit_int(6), lit_int(7), RegisterId(5));
    let (v, _, _, changed) = try_combine_instructions(&other, second.clone(), &f.register_types, 20, 30);
    assert!(!changed);
    assert_eq!(v, vec![second.clone()]);
    let sum = binop(BinaryOp::Add, lit_int(1), lit_int(2), r0);
    let product = (InstructionId(9), binop(BinaryOp::Mul, Operand::Register(r0), lit_int(5), r1));
    let (v, nr, ni, changed) = try_combine_instructions(&sum, product.clone(), &f.register_types, 20, 30);
    assert!(changed);
    assert_eq!(v.len(), 3);
    assert_eq!(v[2], (InstructionId(32), binop(BinaryOp::Add, Operand::Register(RegisterId(20)), Operand::Register(RegisterId(21)), r1)));
    assert_eq!((nr, ni), (22, 33));
    let (v, nr, _, changed) = try_combine_instructions(&sum, product.clone(), &f.register_types, u32::MAX - 1, 30);
    assert!(changed);
    assert_eq!(v, vec![(InstructionId(9), Instruction::Cast { value: lit_int(15), target_type: TypeId(8), result: r1 })]);
    assert_eq!(nr, u32::MAX - 1);
}

#[test]
fn loads_read_the_value_stored_before_them() {
    let mut f = Function::new(FunctionId(0), "f", TypeId(0), TypeId(1));
    let p = f.create_register(TypeId(2));
    let x = f.create_register(TypeId(3));
    let y = f.create_register(TypeId(3));
    let z = f.create_register(TypeId(3));
    let i0 = f.add_instruction(BlockId(0), Instruction::Alloca { size: 8, result: p });
    let i1 = f.add_instruction(BlockId(0), Instruction::Store { address: Operand::Register(p), value: lit_int(7) });
    let i2 = f.add_instruction(BlockId(0), Instruction::Load { address: Operand::Register(p), result: x });
    let i3 = f.add_instruction(BlockId(0), Instruction::Call { function: "g".to_string(), arguments: vec![], result: None });
    let i4 = f.add_instruction(BlockId(0), Instruction::Load { address: Operand::Register(p), result: y });
    let i5 = f.add_instruction(BlockId(0), Instruction::Store { address: Operand::Register(p), value: Operand::Register(y) });
    let i6 = f.add_instruction(BlockId(0), Instruction::Load { address: Operand::Register(p), result: z });
    run_memory_to_register(&mut f);
    assert_eq!(
        instrs(&f, BlockId(0)),
        vec![
            (i0, Instruction::Alloca { size: 8, result: p }),
            (i1, Instruction::Store { address: Operand::Register(p), value: lit_int(7) }),
            (i2, Instruction::Cast { value: lit_int(7), target_type: TypeId(3), result: x }),
            (i3, Instruction::Call { function: "g".to_string(), arguments: vec![], result: None }),
            (i4, Instruction::Load { address: Operand::Register(p), result: y }),
            (i5, Instruction::Store { address: Operand::Register(p), value: Operand::Register(y) }),
            (i6, Instruction::Cast { value: Operand::Register(y), target_type: TypeId(3), result: z }),
        ]
    );
}

#[test]
fn a_redefined_register_is_not_forwarded() {
    let mut f = Function::new(FunctionId(0), "f", TypeId(0), TypeId(1));
    let p = f.create_register(TypeId(2));
    let v = f.create_register(TypeId(3));
    let x = f.create_register(TypeId(3));
    f.add_instruction(BlockId(0), Instruction::Store { address: Operand::Register(p), value: Operand::Register(v) });
    f.add_instruction(BlockId(0), binop(BinaryOp::Add, lit_int(1), lit_int(2), v));
    let i2 = f.add_instruction(BlockId(0), Instruction::Load { address: Operand::Register(p), result: x });
    run_memory_to_register(&mut f);
    assert_eq!(instrs(&f, BlockId(0))[2], (i2, Instruction::Load { address: Operand::Register(p), result: x }));
}

#[test]
fn repeated_operations_share_their_result() {
    let mut f = Function::new(FunctionId(0), "f", TypeId(0), TypeId(1));
    let a = f.create_register(TypeId(3));
    let x = f.create_register(TypeId(3));
    let y = f.create_register(TypeId(4));
    let z = f.create_register(TypeId(3));
    let w = f.create_register(TypeId(3));
    let i0 = f.add_instruction(BlockId(0), binop(BinaryOp::Add, Operand::Register(a), lit_int(1), x));
    let i1 = f.add_instruction(BlockId(0), binop(BinaryOp::Add, Operand::Register(a), lit_int(1), y));
    let i2 = f.add_instruction(BlockId(0), binop(BinaryOp::Sub, Operand::Register(a), lit_int(1), z));
    let i3 = f.add_instruction(BlockId(0), Instruction::Load { address: lit_int(0), result: a });
    let i4 = f.add_instruction(BlockId(0), binop(BinaryOp::Add, Operand::Register(a), lit_int(1), w));
    run_common_subexpression_elimination(&mut f);
    assert_eq!(
        instrs(&f, BlockId(0)),
        vec![
            (i0, binop(BinaryOp::Add, Operand::Register(a), lit_int(1), x)),
            (i1, Instruction::Cast { value: Operand::Register(x), target_type: TypeId(4), result: y }),
            (i2, binop(BinaryOp::Sub, Operand::Register(a), lit_int(1), z)),
            (i3, Instruction::Load { address: lit_int(0), result: a }),
            (i4, binop(BinaryOp::Add, Operand::Register(a), lit_int(1), w)),
        ]
    );
}

#[test]
fn chains_of_boolean_operations() {
    let t1 = RegisterId(1);
    let t2 = RegisterId(2);
    let b = |v: bool| Operand::Literal(Literal::Bool(v));
    let first = binop(BinaryOp::And, b(true), b(false), t1);
    assert_eq!(fold_chain(&first, &binop(BinaryOp::Or, Operand::Register(t1), b(true), t2)), Some(Literal::Bool(true)));
    assert_eq!(fold_chain(&first, &binop(BinaryOp::BitXor, Operand::Register(t1), b(true), t2)), Some(Literal::Bool(true)));
    assert_eq!(fold_chain(&first, &binop(BinaryOp::And, Operand::Register(t1), b(true), t2)), Some(Literal::Bool(false)));
    assert_eq!(fold_chain(&first, &binop(BinaryOp::Add, Operand::Register(t1), b(true), t2)), None);
    assert_eq!(fold_chain(&first, &binop(BinaryOp::Or, Operand::Register(t1), lit_int(1), t2)), None);
    assert_eq!(fold_chain(&binop(BinaryOp::And, lit_int(1), lit_int(2), t1), &binop(BinaryOp::Add, Operand::Register(t1), lit_int(1), t2)), None);
}

