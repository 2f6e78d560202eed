use eidos::eir::{
    BasicBlock, BinaryOp, BlockId, Function, FunctionId, Instruction, InstructionId, Literal, Module,
    Operand, RegisterId,
};
use eidos::types::{Type, TypeId, TypeIdSource};

fn add(lhs: RegisterId, rhs: RegisterId, result: RegisterId) -> Instruction {
    Instruction::BinaryOp { op: BinaryOp::Add, lhs: Operand::Register(lhs), rhs: Operand::Register(rhs), result }
}

#[test]
fn function_blocks_and_registers() {
    let mut f = Function::new(FunctionId(1), "main", TypeId(0), TypeId(1));
    assert_eq!(f.entry_block, BlockId(0));
    let b1 = f.create_block();
    assert_eq!(b1, BlockId(1));
    let r0 = f.add_parameter("a", TypeId(2));
    let r1 = f.create_register(TypeId(3));
    assert_eq!((r0, r1), (RegisterId(0), RegisterId(1)));
    assert_eq!(f.get_register_type(r1), Some(TypeId(3)));
    assert_eq!(f.parameters, vec![("a".to_string(), TypeId(2))]);
    let i0 = f.add_instruction(BlockId(0), add(r0, r0, r1));
    assert_eq!(i0, InstructionId(0));
    let i1 = f.add_instruction(BlockId(9), add(r0, r0, r1));
    assert_eq!(i1, InstructionId(1));
    assert_eq!(f.get_block(BlockId(0)).unwrap().instructions.len(), 1);
    assert!(f.get_block(BlockId(9)).is_none());
    assert!(f.replace_instruction(BlockId(0), i0, add(r1, r1, r0)));
    assert!(!f.replace_instruction(BlockId(0), InstructionId(42), add(r1, r1, r0)));
    assert_eq!(f.get_block(BlockId(0)).unwrap().instructions[0].1, add(r1, r1, r0));
}

#[test]
fn use_graph() {
    let mut f = Function::new(FunctionId(0), "g", TypeId(0), TypeId(0));
    let b1 = f.create_block();
    let r0 = f.create_register(TypeId(0));
    let r1 = f.create_register(TypeId(0));
    let r2 = f.create_register(TypeId(0));
    let i0 = f.add_instruction(BlockId(0), add(r0, r0, r1));
    let i1 = f.add_instruction(b1, add(r1, r0, r2));
    let g = f.compute_use_graph();
    assert_eq!(g.get_def_location(r1), Some((BlockId(0), i0)));
    assert_eq!(g.get_def_location(r2), Some((b1, i1)));
    assert_eq!(g.get_def_location(r0), None);
    assert_eq!(g.get_use_count(r0), 3);
    assert_eq!(g.get_use_locations(r0), vec![(BlockId(0), i0), (BlockId(0), i0), (b1, i1)]);
    assert_eq!(g.get_use_count(r2), 0);
    assert!(g.get_use_locations(r2).is_empty());
}

#[test]
fn used_and_defined_registers() {
    let phi = Instruction::Phi {
        incoming: vec![(Operand::Register(RegisterId(4)), BlockId(0)), (Operand::Literal(Literal::Int(1)), BlockId(1))],
        result: RegisterId(5),
    };
    assert_eq!(phi.defined_register(), Some(RegisterId(5)));
    assert_eq!(phi.used_registers(), vec![RegisterId(4)]);
    let store = Instruction::Store { address: Operand::Register(RegisterId(1)), value: Operand::Register(RegisterId(2)) };
    assert_eq!(store.defined_register(), None);
    assert_eq!(store.used_registers(), vec![RegisterId(1), RegisterId(2)]);
}

#[test]
fn basic_block_predecessors() {
    let mut b = BasicBlock::new(BlockId(3));
    b.add_predecessor(BlockId(1));
    b.add_predecessor(BlockId(2));
    b.add_predecessor(BlockId(1));
    assert_eq!(b.predecessors, vec![BlockId(1), BlockId(2)]);
}

#[test]
fn module_contents() {
    let mut m = Module::new("m");
    let f = Function::new(FunctionId(7), "main", TypeId(0), TypeId(0));
    assert_eq!(m.add_function(f), FunctionId(7));
    assert_eq!(m.get_function(FunctionId(7)).unwrap().name, "main");
    assert_eq!(m.get_function_by_name("main").unwrap().id, FunctionId(7));
    assert!(m.get_function_by_name("other").is_none());
    let mut ids = TypeIdSource::new();
    let t = Type::integer(&mut ids);
    assert_eq!(m.add_type(t), TypeId(0));
    assert!(m.get_type(TypeId(0)).is_some());
    m.set_entry_point(FunctionId(7));
    assert_eq!(m.entry_point, Some(FunctionId(7)));
    assert_eq!(FunctionId(7).to_string(), "func_7");
    assert_eq!(BlockId(2).to_string(), "block_2");
    assert_eq!(InstructionId(3).to_string(), "instr_3");
    assert_eq!(RegisterId(4).to_string(), "%4");
}
