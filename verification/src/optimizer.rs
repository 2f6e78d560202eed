use vstd::prelude::*;

use crate::assoc::{key_views, AssocMap};
use crate::eir::{
    defined_reg, extract_all, extract_registers, operand_regs, operands_regs, used_regs, BasicBlock, BinaryOp, BlockId, Function, Instruction, InstructionId, Literal, Module, Operand, RegisterId,
    Terminator, UnaryOp,
};
use crate::error::EidosError;
use crate::types::TypeId;

verus! {

/// An optimisation pass.
#[derive(Debug, Clone, Copy, PartialEq, Eq, Structural)]
pub enum OptimizationPass {
    ConstantFolding,
    DeadCodeElimination,
    CommonSubexpressionElimination,
    FunctionInlining,
    LoopInvariantCodeMotion,
    MemoryToRegister,
    InstructionCombining,
    ControlFlowOptimization,
    LoopUnrolling,
    SIMDOptimization,
}

impl OptimizationPass {
    /// Every pass, in the order above.
    pub fn all() -> (r: Vec<Self>)
        ensures
            r@ == seq![
                OptimizationPass::ConstantFolding,
                OptimizationPass::DeadCodeElimination,
                OptimizationPass::CommonSubexpressionElimination,
                OptimizationPass::FunctionInlining,
                OptimizationPass::LoopInvariantCodeMotion,
                OptimizationPass::MemoryToRegister,
                OptimizationPass::InstructionCombining,
                OptimizationPass::ControlFlowOptimization,
                OptimizationPass::LoopUnrolling,
                OptimizationPass::SIMDOptimization,
            ],
    {
        vec![
            OptimizationPass::ConstantFolding,
            OptimizationPass::DeadCodeElimination,
            OptimizationPass::CommonSubexpressionElimination,
            OptimizationPass::FunctionInlining,
            OptimizationPass::LoopInvariantCodeMotion,
            OptimizationPass::MemoryToRegister,
            OptimizationPass::InstructionCombining,
            OptimizationPass::ControlFlowOptimization,
            OptimizationPass::LoopUnrolling,
            OptimizationPass::SIMDOptimization,
        ]
    }
}

/// How hard to optimise.
#[derive(Debug, Clone, Copy, PartialEq, Eq, Structural)]
pub enum OptimizationLevel {
    NoOptimization,
    Size,
    Speed1,
    Speed2,
    Speed3,
}

/// The level a numeric level names: 0 to 3, and level 2 for any other number.
pub open spec fn level_of(level: u8) -> OptimizationLevel {
    if level == 0 {
        OptimizationLevel::NoOptimization
    } else if level == 1 {
        OptimizationLevel::Speed1
    } else if level == 3 {
        OptimizationLevel::Speed3
    } else {
        OptimizationLevel::Speed2
    }
}

impl From<u8> for OptimizationLevel {
    fn from(level: u8) -> (r: Self) {
        if level == 0 {
            OptimizationLevel::NoOptimization
        } else if level == 1 {
            OptimizationLevel::Speed1
        } else if level == 3 {
            OptimizationLevel::Speed3
        } else {
            OptimizationLevel::Speed2
        }
    }
}

impl vstd::std_specs::convert::FromSpecImpl<u8> for OptimizationLevel {
    open spec fn obeys_from_spec() -> bool {
        true
    }

    open spec fn from_spec(level: u8) -> Self {
        level_of(level)
    }
}

/// The settings of an optimiser.
#[derive(Debug)]
pub struct OptimizationOptions {
    pub level: OptimizationLevel,
    pub optimize_size: bool,
    pub inline_threshold: usize,
    pub unroll_factor: usize,
    pub enable_simd: bool,
    pub profile_guided: bool,
    /// Passes not to run, each at most once.
    pub disabled_passes: Vec<OptimizationPass>,
}

impl Default for OptimizationOptions {
    /// Level 2, inlining threshold 100, unroll factor 4, SIMD on, nothing disabled.
    fn default() -> (o: Self)
        ensures
            o.level == OptimizationLevel::Speed2,
            !o.optimize_size,
            o.inline_threshold == 100,
            o.unroll_factor == 4,
            o.enable_simd,
            !o.profile_guided,
            o.disabled_passes@ == Seq::<OptimizationPass>::empty(),
    {
        OptimizationOptions {
            level: OptimizationLevel::Speed2,
            optimize_size: false,
            inline_threshold: 100,
            unroll_factor: 4,
            enable_simd: true,
            profile_guided: false,
            disabled_passes: Vec::new(),
        }
    }
}

// ---------------------------------------------------------------------------
// Constant folding.

/// A checked integer result as an integer literal.
pub open spec fn int_literal(v: Option<i64>) -> Option<Literal> {
    match v {
        Some(x) => Some(Literal::Int(x)),
        None => None,
    }
}

/// What a binary operation on two integer literals folds to: arithmetic that
/// would overflow or divide by zero, a shift by a negative amount or by 64 or
/// more, and the logical operators are left alone.
pub open spec fn fold_int_binary(op: BinaryOp, l: i64, r: i64) -> Option<Literal> {
    match op {
        BinaryOp::Add => int_literal(l.checked_add(r)),
        BinaryOp::Sub => int_literal(l.checked_sub(r)),
        BinaryOp::Mul => int_literal(l.checked_mul(r)),
        BinaryOp::Div => int_literal(l.checked_div(r)),
        BinaryOp::Rem => int_literal(l.checked_rem(r)),
        BinaryOp::BitAnd => Some(Literal::Int(l & r)),
        BinaryOp::BitOr => Some(Literal::Int(l | r)),
        BinaryOp::BitXor => Some(Literal::Int(l ^ r)),
        BinaryOp::Shl => if 0 <= r < 64 { Some(Literal::Int(l.wrapping_shl(r as u32))) } else { None },
        BinaryOp::Shr => if 0 <= r < 64 { Some(Literal::Int(l.wrapping_shr(r as u32))) } else { None },
        BinaryOp::Eq => Some(Literal::Bool(l == r)),
        BinaryOp::Ne => Some(Literal::Bool(l != r)),
        BinaryOp::Lt => Some(Literal::Bool(l < r)),
        BinaryOp::Le => Some(Literal::Bool(l <= r)),
        BinaryOp::Gt => Some(Literal::Bool(l > r)),
        BinaryOp::Ge => Some(Literal::Bool(l >= r)),
        BinaryOp::And => None,
        BinaryOp::Or => None,
    }
}

/// What a unary operation on a literal folds to: negation of an integer other
/// than the smallest, bitwise negation of an integer, logical negation of a boolean.
pub open spec fn fold_unary(op: UnaryOp, v: Literal) -> Option<Literal> {
    match (op, v) {
        (UnaryOp::Neg, Literal::Int(x)) => if x == i64::MIN { None } else { Some(Literal::Int((-x) as i64)) },
        (UnaryOp::Not, Literal::Int(x)) => Some(Literal::Int(!x)),
        (UnaryOp::BitNot, Literal::Int(x)) => Some(Literal::Int(!x)),
        (UnaryOp::Not, Literal::Bool(b)) => Some(Literal::Bool(!b)),
        _ => None,
    }
}

/// The literal an instruction computes when its operands are literals.
pub open spec fn fold_spec(i: Instruction) -> Option<Literal> {
    match i {
        Instruction::BinaryOp { op, lhs, rhs, .. } => match (lhs, rhs) {
            (Operand::Literal(Literal::Int(l)), Operand::Literal(Literal::Int(r))) => fold_int_binary(op, l, r),
            _ => None,
        },
        Instruction::UnaryOp { op, operand, .. } => match operand {
            Operand::Literal(v) => fold_unary(op, v),
            _ => None,
        },
        _ => None,
    }
}

fn int_result(v: Option<i64>) -> (r: Option<Literal>)
    ensures
        r == int_literal(v),
{
    match v {
        Some(x) => Some(Literal::Int(x)),
        None => None,
    }
}

fn fold_binary_ints(op: BinaryOp, l: i64, r: i64) -> (res: Option<Literal>)
    ensures
        res == fold_int_binary(op, l, r),
{
    match op {
        BinaryOp::Add => int_result(l.checked_add(r)),
        BinaryOp::Sub => int_result(l.checked_sub(r)),
        BinaryOp::Mul => int_result(l.checked_mul(r)),
        BinaryOp::Div => int_result(l.checked_div(r)),
        BinaryOp::Rem => int_result(l.checked_rem(r)),
        BinaryOp::BitAnd => Some(Literal::Int(l & r)),
        BinaryOp::BitOr => Some(Literal::Int(l | r)),
        BinaryOp::BitXor => Some(Literal::Int(l ^ r)),
        BinaryOp::Shl => if 0 <= r && r < 64 { Some(Literal::Int(l.wrapping_shl(r as u32))) } else { None },
        BinaryOp::Shr => if 0 <= r && r < 64 { Some(Literal::Int(l.wrapping_shr(r as u32))) } else { None },
        BinaryOp::Eq => Some(Literal::Bool(l == r)),
        BinaryOp::Ne => Some(Literal::Bool(l != r)),
        BinaryOp::Lt => Some(Literal::Bool(l < r)),
        BinaryOp::Le => Some(Literal::Bool(l <= r)),
        BinaryOp::Gt => Some(Literal::Bool(l > r)),
        BinaryOp::Ge => Some(Literal::Bool(l >= r)),
        BinaryOp::And => None,
        BinaryOp::Or => None,
    }
}

/// The literal `instr` computes, where its operands are literals and the
/// operation can be carried out without overflow.
pub fn fold_constants(instr: &Instruction) -> (r: Option<Literal>)
    ensures
        r == fold_spec(*instr),
{
    match instr {
        Instruction::BinaryOp { op, lhs, rhs, .. } => match (lhs, rhs) {
            (Operand::Literal(Literal::Int(l)), Operand::Literal(Literal::Int(r))) => fold_binary_ints(*op, *l, *r),
            _ => None,
        },
        Instruction::UnaryOp { op, operand, .. } => match operand {
            Operand::Literal(Literal::Int(x)) => match op {
                UnaryOp::Neg => if *x == i64::MIN { None } else { Some(Literal::Int(-*x)) },
                UnaryOp::Not => Some(Literal::Int(!*x)),
                UnaryOp::BitNot => Some(Literal::Int(!*x)),
                UnaryOp::Cast => None,
            },
            Operand::Literal(Literal::Bool(b)) => match op {
                UnaryOp::Not => Some(Literal::Bool(!*b)),
                _ => None,
            },
            _ => None,
        },
        _ => None,
    }
}


/// `i`, where it folds to a literal and its register has a recorded type,
/// rewritten as that literal cast to the register's type; else `i` itself.
pub open spec fn folded_instruction(i: Instruction, rt: Map<u32, TypeId>) -> Instruction {
    match (fold_spec(i), defined_reg(i)) {
        (Some(v), Some(r)) => if rt.contains_key(r.0) {
            Instruction::Cast { value: Operand::Literal(v), target_type: rt[r.0], result: r }
        } else {
            i
        },
        _ => i,
    }
}

/// A block's instructions with each folded, ids and order kept.
pub open spec fn folded_entries(s: Seq<(InstructionId, Instruction)>, rt: Map<u32, TypeId>) -> Seq<(InstructionId, Instruction)> {
    Seq::new(s.len(), |k: int| (s[k].0, folded_instruction(s[k].1, rt)))
}

/// Two blocks that agree in everything but their instructions.
pub open spec fn same_but_instructions(a: BasicBlock, b: BasicBlock) -> bool {
    &&& a.id == b.id
    &&& a.terminator == b.terminator
    &&& a.parameters == b.parameters
    &&& a.predecessors == b.predecessors
}

/// Two functions that agree in everything but their blocks.
pub open spec fn same_header(a: Function, b: Function) -> bool {
    &&& a.id == b.id
    &&& a.name == b.name
    &&& a.function_type == b.function_type
    &&& a.parameters == b.parameters
    &&& a.return_type == b.return_type
    &&& a.entry_block == b.entry_block
    &&& a.next_block_id == b.next_block_id
    &&& a.next_register_id == b.next_register_id
    &&& a.next_instruction_id == b.next_instruction_id
    &&& a.register_types@ == b.register_types@
    &&& a.attributes == b.attributes
}

/// Folds the instructions of one block.
fn fold_block(b: &mut BasicBlock, rt: &AssocMap<RegisterId, TypeId>)
    ensures
        final(b).instructions@ == folded_entries(old(b).instructions@, rt@),
        same_but_instructions(*final(b), *old(b)),
{
    let ghost ob = *b;
    let mut j: usize = 0;
    while j < b.instructions.len()
        invariant
            b.instructions@.len() == ob.instructions@.len(),
            same_but_instructions(*b, ob),
            j <= b.instructions@.len(),
            forall|m: int| 0 <= m < j ==> b.instructions@[m] == (ob.instructions@[m].0, folded_instruction(ob.instructions@[m].1, rt@)),
            forall|m: int| j <= m < b.instructions@.len() ==> b.instructions@[m] == ob.instructions@[m],
        decreases b.instructions@.len() - j,
    {
        let folded = fold_constants(&b.instructions[j].1);
        let reg = b.instructions[j].1.defined_register();
        match (folded, reg) {
            (Some(v), Some(r)) => {
                match rt.get(&r) {
                    Some(t) => {
                        let id = b.instructions[j].0;
                        let target_type = *t;
                        b.instructions.set(j, (id, Instruction::Cast { value: Operand::Literal(v), target_type, result: r }));
                    },
                    None => {},
                }
            },
            _ => {},
        }
        j = j + 1;
    }
    proof {
        assert(b.instructions@ =~= folded_entries(ob.instructions@, rt@));
    }
}

/// Folds every instruction of `func` whose operands are literals: the
/// instruction becomes its literal value cast to the type of its register.
/// Blocks keep their order and everything but their instructions.
pub fn fold_function_constants(func: &mut Function)
    ensures
        final(func).blocks@.dom() == old(func).blocks@.dom(),
        final(func).blocks.key_order() == old(func).blocks.key_order(),
        forall|k: u32| #[trigger] old(func).blocks@.contains_key(k) ==> {
            let ob = old(func).blocks@[k];
            let nb = final(func).blocks@[k];
            &&& nb.instructions@ == folded_entries(ob.instructions@, old(func).register_types@)
            &&& same_but_instructions(nb, ob)
        },
        same_header(*final(func), *old(func)),
{
    rewrite_blocks(func, BlockRewrite::Fold);
}

/// Which rewriting of each block's instructions a pass carries out.
#[derive(Clone, Copy)]
enum BlockRewrite {
    Fold,
    Forward,
    Share,
}

/// A block's instructions after the rewriting `mode`.
spec fn rewritten_entries(mode: BlockRewrite, s: Seq<(InstructionId, Instruction)>, rt: Map<u32, TypeId>) -> Seq<(InstructionId, Instruction)> {
    match mode {
        BlockRewrite::Fold => folded_entries(s, rt),
        BlockRewrite::Forward => forwarded_entries(s, None, rt),
        BlockRewrite::Share => shared_entries(s, seq![], rt),
    }
}

/// Rewrites the instructions of one block.
fn rewrite_block(b: &mut BasicBlock, rt: &AssocMap<RegisterId, TypeId>, mode: BlockRewrite)
    ensures
        final(b).instructions@ == rewritten_entries(mode, old(b).instructions@, rt@),
        same_but_instructions(*final(b), *old(b)),
{
    match mode {
        BlockRewrite::Fold => fold_block(b, rt),
        BlockRewrite::Forward => forward_block(b, rt),
        BlockRewrite::Share => share_block(b, rt),
    }
}

/// Rewrites the instructions of every block of `func`, each on its own.
fn rewrite_blocks(func: &mut Function, mode: BlockRewrite)
    ensures
        final(func).blocks@.dom() == old(func).blocks@.dom(),
        final(func).blocks.key_order() == old(func).blocks.key_order(),
        forall|k: u32| #[trigger] old(func).blocks@.contains_key(k) ==> {
            let ob = old(func).blocks@[k];
            let nb = final(func).blocks@[k];
            &&& nb.instructions@ == rewritten_entries(mode, ob.instructions@, old(func).register_types@)
            &&& same_but_instructions(nb, ob)
        },
        same_header(*final(func), *old(func)),
{
    let keys = func.blocks.keys();
    let ghost order = old(func).blocks.key_order();
    let mut i: usize = 0;
    while i < keys.len()
        invariant
            key_views(keys@) == order,
            order == old(func).blocks.key_order(),
            order.to_set() == old(func).blocks@.dom(),
            order.no_duplicates(),
            func.blocks@.dom() == old(func).blocks@.dom(),
            func.blocks.key_order() == order,
            same_header(*func, *old(func)),
            i <= keys@.len(),
            forall|k: u32| #[trigger] old(func).blocks@.contains_key(k) ==> {
                let ob = old(func).blocks@[k];
                let nb = func.blocks@[k];
                if order.take(i as int).contains(k) {
                    nb.instructions@ == rewritten_entries(mode, ob.instructions@, old(func).register_types@)
                        && same_but_instructions(nb, ob)
                } else {
                    nb == ob
                }
            },
        decreases keys@.len() - i,
    {
        let k = keys[i];
        proof {
            assert(key_views(keys@)[i as int] == k.0);
            assert(order.to_set().contains(k.0));
        }
        let taken = func.blocks.replace(k, BasicBlock::new(k));
        match taken {
            Some(mut b) => {
                rewrite_block(&mut b, &func.register_types, mode);
                let ghost nb = b;
                func.blocks.replace(k, b);
                proof {
                    assert forall|k2: u32| #[trigger] old(func).blocks@.contains_key(k2) implies {
                        let ob = old(func).blocks@[k2];
                        let nb2 = func.blocks@[k2];
                        if order.take(i + 1).contains(k2) {
                            nb2.instructions@ == rewritten_entries(mode, ob.instructions@, old(func).register_types@)
                                && same_but_instructions(nb2, ob)
                        } else {
                            nb2 == ob
                        }
                    } by {
                        if k2 == k.0 {
                            assert(order.take(i + 1)[i as int] == k2);
                            assert(!order.take(i as int).contains(k2));
                        } else {
                            if order.take(i + 1).contains(k2) {
                                let m = choose|m: int| 0 <= m < order.take(i + 1).len() && #[trigger] order.take(i + 1)[m] == k2;
                                assert(m != i);
                                assert(order.take(i as int)[m] == k2);
                            }
                            if order.take(i as int).contains(k2) {
                                let m = choose|m: int| 0 <= m < order.take(i as int).len() && #[trigger] order.take(i as int)[m] == k2;
                                assert(order.take(i + 1)[m] == k2);
                            }
                        }
                    }
                    assert(func.blocks@.dom() =~= old(func).blocks@.dom());
                }
            },
            None => {
                proof {
                    assert(false);
                }
            },
        }
        i = i + 1;
    }
    proof {
        assert(order.take(keys@.len() as int) =~= order);
        assert forall|k: u32| #[trigger] old(func).blocks@.contains_key(k) implies order.contains(k) by {
            assert(order.to_set().contains(k));
        }
    }
}


// ---------------------------------------------------------------------------
// Instruction combining.

/// The integer operations whose chains are combined.
pub open spec fn combinable(op: BinaryOp) -> bool {
    op == BinaryOp::Add || op == BinaryOp::Sub || op == BinaryOp::Mul || op == BinaryOp::Div
}

/// What a binary operation on two boolean literals folds to, for `&&`, `||`
/// and exclusive or.
pub open spec fn fold_bool_binary(op: BinaryOp, l: bool, r: bool) -> Option<Literal> {
    match op {
        BinaryOp::And => Some(Literal::Bool(l && r)),
        BinaryOp::Or => Some(Literal::Bool(l || r)),
        BinaryOp::BitXor => Some(Literal::Bool(l != r)),
        _ => None,
    }
}

/// What one step of a combined chain folds to: `+ - * /` on two integers,
/// carried out without overflow or division by zero, or `&&`, `||` and
/// exclusive or on two booleans.
pub open spec fn fold_pair(op: BinaryOp, l: Literal, r: Literal) -> Option<Literal> {
    match (l, r) {
        (Literal::Int(x), Literal::Int(y)) => if combinable(op) { fold_int_binary(op, x, y) } else { None },
        (Literal::Bool(x), Literal::Bool(y)) => fold_bool_binary(op, x, y),
        _ => None,
    }
}

/// What the pair `first`, `second` computes in `second`'s register, where
/// `first` applies an operator to two literals, `second` applies one to
/// `first`'s register and a literal, and both steps fold as `fold_pair` says.
pub open spec fn chain_fold(first: Instruction, second: Instruction) -> Option<Literal> {
    match (first, second) {
        (
            Instruction::BinaryOp { op: op1, lhs: Operand::Literal(l1), rhs: Operand::Literal(r1), result: t1 },
            Instruction::BinaryOp { op: op2, lhs: Operand::Register(t), rhs: Operand::Literal(r2), .. },
        ) => if t == t1 {
            match fold_pair(op1, l1, r1) {
                Some(m) => fold_pair(op2, m, r2),
                None => None,
            }
        } else {
            None
        },
        _ => None,
    }
}

/// `i` combined with the instruction `prev` before it: where the pair folds
/// and `i`'s register has a recorded type, the folded value cast to that
/// type; else `i` itself. `prev` stays, as other instructions may read its register.
pub open spec fn combined_instruction(prev: Instruction, i: Instruction, rt: Map<u32, TypeId>) -> Instruction {
    match (chain_fold(prev, i), defined_reg(i)) {
        (Some(v), Some(r)) => if rt.contains_key(r.0) {
            Instruction::Cast { value: Operand::Literal(v), target_type: rt[r.0], result: r }
        } else {
            i
        },
        _ => i,
    }
}

fn is_combinable(op: BinaryOp) -> (r: bool)
    ensures
        r == combinable(op),
{
    match op {
        BinaryOp::Add | BinaryOp::Sub | BinaryOp::Mul | BinaryOp::Div => true,
        _ => false,
    }
}

/// One step of a combined chain, as `fold_pair` says.
fn fold_literals(op: BinaryOp, l: &Literal, r: &Literal) -> (res: Option<Literal>)
    ensures
        res == fold_pair(op, *l, *r),
{
    match (l, r) {
        (Literal::Int(x), Literal::Int(y)) => if is_combinable(op) { fold_binary_ints(op, *x, *y) } else { None },
        (Literal::Bool(x), Literal::Bool(y)) => match op {
            BinaryOp::And => Some(Literal::Bool(*x && *y)),
            BinaryOp::Or => Some(Literal::Bool(*x || *y)),
            BinaryOp::BitXor => Some(Literal::Bool(*x != *y)),
            _ => None,
        },
        _ => None,
    }
}

/// The value the pair `first`, `second` computes, as `chain_fold` says.
pub fn fold_chain(first: &Instruction, second: &Instruction) -> (r: Option<Literal>)
    ensures
        r == chain_fold(*first, *second),
{
    match (first, second) {
        (
            Instruction::BinaryOp { op: op1, lhs: Operand::Literal(l1), rhs: Operand::Literal(r1), result: t1 },
            Instruction::BinaryOp { op: op2, lhs: Operand::Register(t), rhs: Operand::Literal(r2), .. },
        ) => {
            if *t == *t1 {
                match fold_literals(*op1, l1, r1) {
                    Some(m) => fold_literals(*op2, &m, r2),
                    None => None,
                }
            } else {
                None
            }
        },
        _ => None,
    }
}

/// An instruction with its id.
pub type Entry = (InstructionId, Instruction);

/// Whether `second` multiplies the sum that `first` computes: `first` adds two
/// operands, neither of them its own register, and `second` multiplies
/// `first`'s register by an operand.
pub open spec fn distributes(first: Instruction, second: Instruction) -> bool {
    match (first, second) {
        (
            Instruction::BinaryOp { op: BinaryOp::Add, lhs: a, rhs: b, result: t1 },
            Instruction::BinaryOp { op: BinaryOp::Mul, lhs: Operand::Register(t), .. },
        ) => t == t1 && a != Operand::Register(t1) && b != Operand::Register(t1),
        _ => false,
    }
}

/// The instructions that replace `second` where it multiplies the sum `a + b`
/// of `first` by `c`: `a * c` and `b * c` into the registers `nr` and
/// `nr + 1`, then their sum into `second`'s register, with ids `ni`,
/// `ni + 1` and `ni + 2`.
pub open spec fn distributed(first: Instruction, second: Instruction, nr: u32, ni: u32) -> Seq<Entry> {
    match (first, second) {
        (Instruction::BinaryOp { lhs: a, rhs: b, .. }, Instruction::BinaryOp { rhs: c, result: t2, .. }) => seq![
            (InstructionId(ni), Instruction::BinaryOp { op: BinaryOp::Mul, lhs: a, rhs: c, result: RegisterId(nr) }),
            (
                InstructionId((ni + 1) as u32),
                Instruction::BinaryOp { op: BinaryOp::Mul, lhs: b, rhs: c, result: RegisterId((nr + 1) as u32) },
            ),
            (
                InstructionId((ni + 2) as u32),
                Instruction::BinaryOp {
                    op: BinaryOp::Add,
                    lhs: Operand::Register(RegisterId(nr)),
                    rhs: Operand::Register(RegisterId((nr + 1) as u32)),
                    result: t2,
                },
            ),
        ],
        _ => seq![],
    }
}

/// Whether `second` is distributed over `first`, with fresh registers from
/// `nr` and fresh ids from `ni`: it multiplies `first`'s sum, and two more
/// registers and three more ids are left.
pub open spec fn can_distribute(first: Instruction, second: Instruction, nr: u32, ni: u32) -> bool {
    distributes(first, second) && nr + 2 <= u32::MAX && ni + 3 <= u32::MAX
}

/// What the entry `e` becomes after the instruction `prev`, and the counters
/// after it: a product of a sum is distributed; else `e` is combined as
/// `combined_instruction` says.
pub open spec fn combine_step(prev: Instruction, e: Entry, nr: u32, ni: u32, rt: Map<u32, TypeId>) -> (Seq<Entry>, u32, u32) {
    if can_distribute(prev, e.1, nr, ni) {
        (distributed(prev, e.1, nr, ni), (nr + 2) as u32, (ni + 3) as u32)
    } else {
        (seq![(e.0, combined_instruction(prev, e.1, rt))], nr, ni)
    }
}

/// Whether `combine_step` changes the instruction `i` after `prev`.
pub open spec fn step_changes(prev: Instruction, i: Instruction, nr: u32, ni: u32, rt: Map<u32, TypeId>) -> bool {
    can_distribute(prev, i, nr, ni) || combined_instruction(prev, i, rt) != i
}

/// The last instruction of `s`, if any.
pub open spec fn last_instruction(s: Seq<Entry>) -> Option<Instruction> {
    if s.len() == 0 {
        None
    } else {
        Some(s.last().1)
    }
}

/// The entries `s`, after the instruction `prev` (if any), each combined in
/// turn with the instruction emitted just before it, and the counters after them.
pub open spec fn combine_scan(s: Seq<Entry>, prev: Option<Instruction>, nr: u32, ni: u32, rt: Map<u32, TypeId>) -> (Seq<Entry>, u32, u32)
    decreases s.len(),
{
    if s.len() == 0 {
        (seq![], nr, ni)
    } else {
        let st = match prev {
            Some(p) => combine_step(p, s[0], nr, ni, rt),
            None => (seq![s[0]], nr, ni),
        };
        let rest = combine_scan(s.drop_first(), last_instruction(st.0), st.1, st.2, rt);
        (st.0 + rest.0, rest.1, rest.2)
    }
}

/// The instructions of the blocks `order` of `blocks`, each combined as
/// `combine_scan` says, block after block with the counters passed on, and
/// the counters after the last.
pub open spec fn combine_blocks(order: Seq<u32>, blocks: Map<u32, BasicBlock>, nr: u32, ni: u32, rt: Map<u32, TypeId>) -> (Map<u32, Seq<Entry>>, u32, u32)
    decreases order.len(),
{
    if order.len() == 0 {
        (Map::empty(), nr, ni)
    } else {
        let p = combine_blocks(order.drop_last(), blocks, nr, ni, rt);
        let r = combine_scan(blocks[order.last()].instructions@, None, p.1, p.2, rt);
        (p.0.insert(order.last(), r.0), r.1, r.2)
    }
}

/// A copy of an operand.
fn copy_operand(o: &Operand) -> (r: Operand)
    ensures
        r == *o,
{
    match o {
        Operand::Register(x) => Operand::Register(*x),
        Operand::Literal(l) => Operand::Literal(
            match l {
                Literal::Int(x) => Literal::Int(*x),
                Literal::Float(x) => Literal::Float(*x),
                Literal::Bool(x) => Literal::Bool(*x),
                Literal::Char(x) => Literal::Char(*x),
                Literal::String(x) => Literal::String(x.clone()),
                Literal::Unit => Literal::Unit,
            },
        ),
        Operand::Global(x) => Operand::Global(x.clone()),
        Operand::Function(x) => Operand::Function(*x),
        Operand::ExternalFunction(x) => Operand::ExternalFunction(x.clone()),
        Operand::Symbol(x) => Operand::Symbol(*x),
        Operand::Block(x) => Operand::Block(*x),
    }
}

fn is_register(o: &Operand, r: RegisterId) -> (b: bool)
    ensures
        b == (*o == Operand::Register(r)),
{
    match o {
        Operand::Register(x) => *x == r,
        _ => false,
    }
}

/// Combines the entry `e` with the instruction `prev` before it, as
/// `combine_step` says, with fresh registers from `nr` and fresh ids from
/// `ni`: returns what replaces `e`, the counters after it, and whether `e` changed.
pub fn try_combine_instructions(prev: &Instruction, e: Entry, rt: &AssocMap<RegisterId, TypeId>, nr: u32, ni: u32) -> (r: (Vec<Entry>, u32, u32, bool))
    ensures
        (r.0@, r.1, r.2) == combine_step(*prev, e, nr, ni, rt@),
        r.3 == step_changes(*prev, e.1, nr, ni, rt@),
{
    let dist = match (prev, &e.1) {
        (
            Instruction::BinaryOp { op: BinaryOp::Add, lhs: a, rhs: b, result: t1 },
            Instruction::BinaryOp { op: BinaryOp::Mul, lhs: Operand::Register(t), .. },
        ) => *t == *t1 && !is_register(a, *t1) && !is_register(b, *t1),
        _ => false,
    };
    if dist && nr <= u32::MAX - 2 && ni <= u32::MAX - 3 {
        let (id, ins) = e;
        match (prev, ins) {
            (Instruction::BinaryOp { lhs: a, rhs: b, .. }, Instruction::BinaryOp { rhs: c, result: t2, .. }) => {
                let c2 = copy_operand(&c);
                let r1 = RegisterId(nr);
                let r2 = RegisterId(nr + 1);
                let mut v: Vec<Entry> = Vec::new();
                v.push((InstructionId(ni), Instruction::BinaryOp { op: BinaryOp::Mul, lhs: copy_operand(a), rhs: c, result: r1 }));
                v.push((InstructionId(ni + 1), Instruction::BinaryOp { op: BinaryOp::Mul, lhs: copy_operand(b), rhs: c2, result: r2 }));
                v.push((
                    InstructionId(ni + 2),
                    Instruction::BinaryOp { op: BinaryOp::Add, lhs: Operand::Register(r1), rhs: Operand::Register(r2), result: t2 },
                ));
                proof {
                    assert(v@ =~= distributed(*prev, e.1, nr, ni));
                }
                (v, nr + 2, ni + 3, true)
            },
            _ => {
                proof {
                    assert(false);
                }
                (Vec::new(), nr, ni, false)
            },
        }
    } else {
        let folded = fold_chain(prev, &e.1);
        let reg = e.1.defined_register();
        let cast_type: Option<TypeId> = match (&folded, reg) {
            (Some(_), Some(res)) => match rt.get(&res) {
                Some(t) => Some(*t),
                None => None,
            },
            _ => None,
        };
        let (id, ins) = e;
        let mut v: Vec<Entry> = Vec::new();
        match (folded, reg, cast_type) {
            (Some(val), Some(res), Some(t)) => {
                proof {
                    assert(ins is BinaryOp);
                }
                v.push((id, Instruction::Cast { value: Operand::Literal(val), target_type: t, result: res }));
                proof {
                    assert(v@ =~= seq![(e.0, combined_instruction(*prev, e.1, rt@))]);
                }
                (v, nr, ni, true)
            },
            _ => {
                v.push((id, ins));
                proof {
                    assert(v@ =~= seq![(e.0, combined_instruction(*prev, e.1, rt@))]);
                }
                (v, nr, ni, false)
            },
        }
    }
}

/// Combines the instructions of a block in turn, each with the one emitted
/// just before it, with fresh registers from `nr` and fresh ids from `ni`;
/// returns the counters after them.
fn combine_block(b: &mut BasicBlock, rt: &AssocMap<RegisterId, TypeId>, nr0: u32, ni0: u32) -> (r: (u32, u32))
    ensures
        (final(b).instructions@, r.0, r.1) == combine_scan(old(b).instructions@, None, nr0, ni0, rt@),
        same_but_instructions(*final(b), *old(b)),
{
    let ghost ob = *b;
    let ghost target = combine_scan(ob.instructions@, None, nr0, ni0, rt@);
    let mut src: Vec<Entry> = Vec::new();
    std::mem::swap(&mut src, &mut b.instructions);
    let mut out: Vec<Entry> = Vec::new();
    let mut nr = nr0;
    let mut ni = ni0;
    proof {
        assert(out@ + combine_scan(src@, last_instruction(out@), nr, ni, rt@).0 =~= target.0);
    }
    while src.len() > 0
        invariant
            same_but_instructions(*b, ob),
            target == combine_scan(ob.instructions@, None, nr0, ni0, rt@),
            target.0 == out@ + combine_scan(src@, last_instruction(out@), nr, ni, rt@).0,
            target.1 == combine_scan(src@, last_instruction(out@), nr, ni, rt@).1,
            target.2 == combine_scan(src@, last_instruction(out@), nr, ni, rt@).2,
        decreases src@.len(),
    {
        let ghost s0 = src@;
        let ghost o0 = out@;
        let ghost nr_0 = nr;
        let ghost ni_0 = ni;
        let e = src.remove(0);
        proof {
            assert(s0.drop_first() =~= src@);
            assert(e == s0[0]);
        }
        let mut v: Vec<Entry> = if out.len() == 0 {
            let mut w: Vec<Entry> = Vec::new();
            w.push(e);
            w
        } else {
            let last = out.len() - 1;
            let (w, nr2, ni2, _changed) = try_combine_instructions(&out[last].1, e, rt, nr, ni);
            nr = nr2;
            ni = ni2;
            w
        };
        let ghost st = v@;
        proof {
            assert(st.len() > 0);
        }
        out.append(&mut v);
        proof {
            assert(last_instruction(out@) == last_instruction(st));
            assert(out@ =~= o0 + st);
            assert(o0 + st + combine_scan(src@, last_instruction(st), nr, ni, rt@).0 =~= o0 + (st + combine_scan(src@, last_instruction(st), nr, ni, rt@).0));
        }
    }
    proof {
        assert(src@ =~= Seq::<Entry>::empty());
        assert(out@ =~= target.0);
    }
    b.instructions = out;
    (nr, ni)
}

/// The frame of a function that instruction combining keeps: everything but
/// its blocks and its register and instruction counters.
pub open spec fn same_frame(a: Function, b: Function) -> bool {
    &&& a.id == b.id
    &&& a.name == b.name
    &&& a.function_type == b.function_type
    &&& a.parameters == b.parameters
    &&& a.return_type == b.return_type
    &&& a.entry_block == b.entry_block
    &&& a.next_block_id == b.next_block_id
    &&& a.register_types@ == b.register_types@
    &&& a.attributes == b.attributes
}

/// Combines the instructions of `func`, block after block in the order of
/// its blocks, as `combine_blocks` says: where an instruction multiplies the
/// sum that the instruction before it computes, the product is distributed
/// over the sum into two fresh registers; else, where it applies `+ - * /`
/// (to integers) or `&& || ^` (to booleans) to the register of the
/// instruction before it, which applies one of them to two literals, and a
/// literal, it becomes the value the two compute, cast to its register's
/// type. Blocks keep their order and everything but their instructions.
pub fn run_instruction_combining(func: &mut Function)
    ensures
        combined_fn(*final(func), *old(func)),
        final(func).blocks.key_order() == old(func).blocks.key_order(),
{
    let keys = func.blocks.keys();
    let ghost order = old(func).blocks.key_order();
    let ghost rt = old(func).register_types@;
    let ghost ob = old(func).blocks@;
    let ghost nr0 = old(func).next_register_id;
    let ghost ni0 = old(func).next_instruction_id;
    let mut i: usize = 0;
    while i < keys.len()
        invariant
            key_views(keys@) == order,
            order == old(func).blocks.key_order(),
            order.to_set() == old(func).blocks@.dom(),
            order.no_duplicates(),
            ob == old(func).blocks@,
            rt == old(func).register_types@,
            nr0 == old(func).next_register_id,
            ni0 == old(func).next_instruction_id,
            func.blocks@.dom() == old(func).blocks@.dom(),
            func.blocks.key_order() == order,
            same_frame(*func, *old(func)),
            i <= keys@.len(),
            func.next_register_id == combine_blocks(order.take(i as int), ob, nr0, ni0, rt).1,
            func.next_instruction_id == combine_blocks(order.take(i as int), ob, nr0, ni0, rt).2,
            forall|k: u32| #[trigger] ob.contains_key(k) ==> {
                let nb = func.blocks@[k];
                if order.take(i as int).contains(k) {
                    nb.instructions@ == combine_blocks(order.take(i as int), ob, nr0, ni0, rt).0[k]
                        && same_but_instructions(nb, ob[k])
                } else {
                    nb == ob[k]
                }
            },
        decreases keys@.len() - i,
    {
        let k = keys[i];
        let ghost prev = combine_blocks(order.take(i as int), ob, nr0, ni0, rt);
        proof {
            assert(key_views(keys@)[i as int] == k.0);
            assert(order.to_set().contains(k.0));
            assert(order.take(i + 1).drop_last() =~= order.take(i as int));
            assert(order.take(i + 1).last() == k.0);
            assert(!order.take(i as int).contains(k.0)) by {
                if order.take(i as int).contains(k.0) {
                    let m = choose|m: int| 0 <= m < order.take(i as int).len() && #[trigger] order.take(i as int)[m] == k.0;
                    assert(order[m] == order[i as int]);
                }
            }
        }
        let taken = func.blocks.replace(k, BasicBlock::new(k));
        match taken {
            Some(mut b) => {
                let (nr, ni) = combine_block(&mut b, &func.register_types, func.next_register_id, func.next_instruction_id);
                func.blocks.replace(k, b);
                func.next_register_id = nr;
                func.next_instruction_id = ni;
                proof {
                    let cur = combine_blocks(order.take(i + 1), ob, nr0, ni0, rt);
                    assert forall|k2: u32| #[trigger] ob.contains_key(k2) implies {
                        let nb2 = func.blocks@[k2];
                        if order.take(i + 1).contains(k2) {
                            nb2.instructions@ == cur.0[k2] && same_but_instructions(nb2, ob[k2])
                        } else {
                            nb2 == ob[k2]
                        }
                    } by {
                        if k2 == k.0 {
                            assert(order.take(i + 1)[i as int] == k2);
                        } else {
                            if order.take(i + 1).contains(k2) {
                                let m = choose|m: int| 0 <= m < order.take(i + 1).len() && #[trigger] order.take(i + 1)[m] == k2;
                                assert(m != i);
                                assert(order.take(i as int)[m] == k2);
                            }
                            if order.take(i as int).contains(k2) {
                                let m = choose|m: int| 0 <= m < order.take(i as int).len() && #[trigger] order.take(i as int)[m] == k2;
                                assert(order.take(i + 1)[m] == k2);
                            }
                        }
                    }
                    assert(func.blocks@.dom() =~= old(func).blocks@.dom());
                }
            },
            None => {
                proof {
                    assert(false);
                }
            },
        }
        i = i + 1;
    }
    proof {
        assert(order.take(keys@.len() as int) =~= order);
        assert forall|k: u32| #[trigger] ob.contains_key(k) implies order.contains(k) by {
            assert(order.to_set().contains(k));
        }
    }
}

// ---------------------------------------------------------------------------
// Memory to register.

/// An operand that a load can be replaced by: a register, or a literal other than a string.
pub open spec fn simple_operand(o: Operand) -> bool {
    match o {
        Operand::Register(_) => true,
        Operand::Literal(l) => !(l is String),
        _ => false,
    }
}

/// Whether the remembered store `st` names register `r`, as its address or its value.
pub open spec fn mentions(st: Option<(RegisterId, Operand)>, r: RegisterId) -> bool {
    match st {
        Some((a, v)) => a == r || v == Operand::Register(r),
        None => false,
    }
}

/// The store remembered after instruction `i`: a store of a simple value to
/// a register's address is remembered; any other instruction with an effect
/// forgets it, and so does one that redefines a register it names.
pub open spec fn forward_state(st: Option<(RegisterId, Operand)>, i: Instruction) -> Option<(RegisterId, Operand)> {
    match i {
        Instruction::Store { address: Operand::Register(a), value } => if simple_operand(value) {
            Some((a, value))
        } else {
            None
        },
        _ => if has_effect(i) {
            None
        } else {
            match defined_reg(i) {
                Some(r) => if mentions(st, r) { None } else { st },
                None => st,
            }
        },
    }
}

/// `i` with the remembered store `st` in force: a load from the stored
/// address becomes the stored value cast to the type of the load's register,
/// where that type is recorded; else `i` itself.
pub open spec fn forwarded_instruction(st: Option<(RegisterId, Operand)>, i: Instruction, rt: Map<u32, TypeId>) -> Instruction {
    match (st, i) {
        (Some((a, v)), Instruction::Load { address: Operand::Register(p), result }) => if p == a && rt.contains_key(result.0) && simple_operand(v) {
            Instruction::Cast { value: v, target_type: rt[result.0], result }
        } else {
            i
        },
        _ => i,
    }
}

/// A block's instructions, from the remembered store `st` on, with each load
/// replaced as `forwarded_instruction` says; ids and order kept.
pub open spec fn forwarded_entries(s: Seq<(InstructionId, Instruction)>, st: Option<(RegisterId, Operand)>, rt: Map<u32, TypeId>) -> Seq<(InstructionId, Instruction)>
    decreases s.len(),
{
    if s.len() == 0 {
        seq![]
    } else {
        seq![(s[0].0, forwarded_instruction(st, s[0].1, rt))] + forwarded_entries(s.drop_first(), forward_state(st, s[0].1), rt)
    }
}

/// A copy of a simple operand.
fn copy_simple(o: &Operand) -> (r: Option<Operand>)
    ensures
        r matches Some(x) ==> x == *o,
        r is None <==> !simple_operand(*o),
{
    match o {
        Operand::Register(r) => Some(Operand::Register(*r)),
        Operand::Literal(l) => match l {
            Literal::Int(x) => Some(Operand::Literal(Literal::Int(*x))),
            Literal::Float(x) => Some(Operand::Literal(Literal::Float(*x))),
            Literal::Bool(x) => Some(Operand::Literal(Literal::Bool(*x))),
            Literal::Char(x) => Some(Operand::Literal(Literal::Char(*x))),
            Literal::Unit => Some(Operand::Literal(Literal::Unit)),
            Literal::String(_) => None,
        },
        _ => None,
    }
}

fn names_register(st: &Option<(RegisterId, Operand)>, r: RegisterId) -> (b: bool)
    ensures
        b == mentions(*st, r),
{
    match st {
        Some((a, v)) => {
            if *a == r {
                true
            } else {
                match v {
                    Operand::Register(x) => *x == r,
                    _ => false,
                }
            }
        },
        None => false,
    }
}

/// The store remembered after `i`, as `forward_state` says.
fn next_state(st: Option<(RegisterId, Operand)>, i: &Instruction) -> (r: Option<(RegisterId, Operand)>)
    ensures
        r == forward_state(st, *i),
{
    match i {
        Instruction::Store { address: Operand::Register(a), value } => match copy_simple(value) {
            Some(v) => Some((*a, v)),
            None => None,
        },
        _ => {
            if has_side_effects(i) {
                None
            } else {
                match i.defined_register() {
                    Some(r) => if names_register(&st, r) { None } else { st },
                    None => st,
                }
            }
        },
    }
}

/// The instruction a load becomes under the remembered store `st`, where it changes.
fn forward_load(st: &Option<(RegisterId, Operand)>, i: &Instruction, rt: &AssocMap<RegisterId, TypeId>) -> (r: Option<Instruction>)
    ensures
        r matches Some(x) ==> x == forwarded_instruction(*st, *i, rt@),
        r is None ==> forwarded_instruction(*st, *i, rt@) == *i,
{
    match st {
        Some((a, v)) => match i {
            Instruction::Load { address: Operand::Register(p), result } => {
                if *p == *a {
                    match rt.get(result) {
                        Some(t) => match copy_simple(v) {
                            Some(value) => Some(Instruction::Cast { value, target_type: *t, result: *result }),
                            None => None,
                        },
                        None => None,
                    }
                } else {
                    None
                }
            },
            _ => None,
        },
        None => None,
    }
}

proof fn lemma_forwarded_step(s: Seq<(InstructionId, Instruction)>, j: int, st: Option<(RegisterId, Operand)>, rt: Map<u32, TypeId>)
    requires
        0 <= j < s.len(),
    ensures
        forwarded_entries(s.skip(j), st, rt) == seq![(s[j].0, forwarded_instruction(st, s[j].1, rt))]
            + forwarded_entries(s.skip(j + 1), forward_state(st, s[j].1), rt),
{
    assert(s.skip(j).drop_first() =~= s.skip(j + 1));
    assert(s.skip(j)[0] == s[j]);
}

/// Replaces each load of a block from an address that a store earlier in the
/// block wrote, with nothing in between that could change it, by the stored value.
fn forward_block(b: &mut BasicBlock, rt: &AssocMap<RegisterId, TypeId>)
    ensures
        final(b).instructions@ == forwarded_entries(old(b).instructions@, None, rt@),
        same_but_instructions(*final(b), *old(b)),
{
    let ghost ob = *b;
    let ghost target = forwarded_entries(ob.instructions@, None, rt@);
    let mut st: Option<(RegisterId, Operand)> = None;
    let n = b.instructions.len();
    let mut j: usize = 0;
    proof {
        assert(ob.instructions@.skip(0) =~= ob.instructions@);
        assert(b.instructions@.take(0) =~= Seq::<(InstructionId, Instruction)>::empty());
        assert(target =~= b.instructions@.take(0) + forwarded_entries(ob.instructions@.skip(0), st, rt@));
    }
    while j < n
        invariant
            n == b.instructions@.len(),
            b.instructions@.len() == ob.instructions@.len(),
            same_but_instructions(*b, ob),
            j <= n,
            target == forwarded_entries(ob.instructions@, None, rt@),
            target == b.instructions@.take(j as int) + forwarded_entries(ob.instructions@.skip(j as int), st, rt@),
            forall|m: int| j <= m < n ==> b.instructions@[m] == ob.instructions@[m],
        decreases n - j,
    {
        proof {
            lemma_forwarded_step(ob.instructions@, j as int, st, rt@);
        }
        let ghost st0 = st;
        let ghost before = b.instructions@;
        let forwarded = forward_load(&st, &b.instructions[j].1, rt);
        st = next_state(st, &b.instructions[j].1);
        match forwarded {
            Some(x) => {
                let id = b.instructions[j].0;
                b.instructions.set(j, (id, x));
            },
            None => {},
        }
        proof {
            assert(b.instructions@[j as int] == (ob.instructions@[j as int].0, forwarded_instruction(st0, ob.instructions@[j as int].1, rt@)));
            assert(b.instructions@.take(j + 1) =~= before.take(j as int).push(b.instructions@[j as int]));
            assert(b.instructions@.take(j + 1) + forwarded_entries(ob.instructions@.skip(j + 1), st, rt@) =~= before.take(j as int)
                + (seq![(ob.instructions@[j as int].0, forwarded_instruction(st0, ob.instructions@[j as int].1, rt@))]
                + forwarded_entries(ob.instructions@.skip(j + 1), st, rt@)));
        }
        j = j + 1;
    }
    proof {
        assert(ob.instructions@.skip(n as int) =~= Seq::<(InstructionId, Instruction)>::empty());
        assert(forwarded_entries(ob.instructions@.skip(n as int), st, rt@) =~= Seq::<(InstructionId, Instruction)>::empty());
        assert(b.instructions@.take(n as int) =~= b.instructions@);
        assert(b.instructions@ =~= target);
    }
}

/// Replaces each load that reads what a store earlier in its block wrote to
/// a register's address, with no instruction in between that has an effect
/// or redefines a register the store names, by the stored value cast to the
/// type of the load's register. Blocks keep their order and everything but
/// their instructions.
pub fn run_memory_to_register(func: &mut Function)
    ensures
        final(func).blocks@.dom() == old(func).blocks@.dom(),
        final(func).blocks.key_order() == old(func).blocks.key_order(),
        forall|k: u32| #[trigger] old(func).blocks@.contains_key(k) ==> {
            let ob = old(func).blocks@[k];
            let nb = final(func).blocks@[k];
            &&& nb.instructions@ == forwarded_entries(ob.instructions@, None, old(func).register_types@)
            &&& same_but_instructions(nb, ob)
        },
        same_header(*final(func), *old(func)),
{
    rewrite_blocks(func, BlockRewrite::Forward);
}

// ---------------------------------------------------------------------------
// Common subexpression elimination.

/// A computed expression: operator, operands, and the register holding its value.
pub type Expr = (BinaryOp, Operand, Operand, RegisterId);

/// Whether expression `e` names register `d`.
pub open spec fn expr_mentions(e: Expr, d: RegisterId) -> bool {
    e.1 == Operand::Register(d) || e.2 == Operand::Register(d) || e.3 == d
}

/// The expressions of `av` that do not name register `d`, in order.
pub open spec fn kill(av: Seq<Expr>, d: RegisterId) -> Seq<Expr>
    decreases av.len(),
{
    if av.len() == 0 {
        seq![]
    } else if expr_mentions(av.last(), d) {
        kill(av.drop_last(), d)
    } else {
        kill(av.drop_last(), d).push(av.last())
    }
}

/// The register of the latest expression of `av` with operator `op` and operands `l`, `r`.
pub open spec fn lookup(av: Seq<Expr>, op: BinaryOp, l: Operand, r: Operand) -> Option<RegisterId>
    decreases av.len(),
{
    if av.len() == 0 {
        None
    } else if av.last().0 == op && av.last().1 == l && av.last().2 == r {
        Some(av.last().3)
    } else {
        lookup(av.drop_last(), op, l, r)
    }
}

/// `i` with the expressions `av` available: a binary operation on simple
/// operands that one of them already computed becomes that register cast to
/// the type of `i`'s register, where that type is recorded; else `i` itself.
pub open spec fn shared_instruction(av: Seq<Expr>, i: Instruction, rt: Map<u32, TypeId>) -> Instruction {
    match i {
        Instruction::BinaryOp { op, lhs, rhs, result } => if simple_operand(lhs) && simple_operand(rhs) {
            match lookup(av, op, lhs, rhs) {
                Some(r1) => if rt.contains_key(result.0) {
                    Instruction::Cast { value: Operand::Register(r1), target_type: rt[result.0], result }
                } else {
                    i
                },
                None => i,
            }
        } else {
            i
        },
        _ => i,
    }
}

/// The expressions available after `i`: those that name the register `i`
/// defines are dropped, and a binary operation on simple operands that none
/// computed, and that does not read its own register, is added.
pub open spec fn shared_state(av: Seq<Expr>, i: Instruction) -> Seq<Expr> {
    let base = match defined_reg(i) {
        Some(d) => kill(av, d),
        None => av,
    };
    match i {
        Instruction::BinaryOp { op, lhs, rhs, result } => if simple_operand(lhs) && simple_operand(rhs) && lookup(av, op, lhs, rhs) is None
            && lhs != Operand::Register(result) && rhs != Operand::Register(result) {
            base.push((op, lhs, rhs, result))
        } else {
            base
        },
        _ => base,
    }
}

/// A block's instructions, from the available expressions `av` on, each
/// rewritten as `shared_instruction` says; ids and order kept.
pub open spec fn shared_entries(s: Seq<(InstructionId, Instruction)>, av: Seq<Expr>, rt: Map<u32, TypeId>) -> Seq<(InstructionId, Instruction)>
    decreases s.len(),
{
    if s.len() == 0 {
        seq![]
    } else {
        seq![(s[0].0, shared_instruction(av, s[0].1, rt))] + shared_entries(s.drop_first(), shared_state(av, s[0].1), rt)
    }
}

/// Whether `a` equals the simple operand `b`.
fn same_simple(a: &Operand, b: &Operand) -> (r: bool)
    requires
        simple_operand(*b),
    ensures
        r == (*a == *b),
{
    match (a, b) {
        (Operand::Register(x), Operand::Register(y)) => *x == *y,
        (Operand::Literal(Literal::Int(x)), Operand::Literal(Literal::Int(y))) => *x == *y,
        (Operand::Literal(Literal::Float(x)), Operand::Literal(Literal::Float(y))) => *x == *y,
        (Operand::Literal(Literal::Bool(x)), Operand::Literal(Literal::Bool(y))) => *x == *y,
        (Operand::Literal(Literal::Char(x)), Operand::Literal(Literal::Char(y))) => *x == *y,
        (Operand::Literal(Literal::Unit), Operand::Literal(Literal::Unit)) => true,
        _ => false,
    }
}

fn expr_names(e: &Expr, d: RegisterId) -> (r: bool)
    ensures
        r == expr_mentions(*e, d),
{
    let a = match &e.1 {
        Operand::Register(x) => *x == d,
        _ => false,
    };
    let b = match &e.2 {
        Operand::Register(x) => *x == d,
        _ => false,
    };
    a || b || e.3 == d
}

/// Drops the expressions that name register `d`.
fn kill_exprs(av: &mut Vec<Expr>, d: RegisterId)
    ensures
        final(av)@ == kill(old(av)@, d),
{
    let ghost orig = av@;
    let n0 = av.len();
    let mut i: usize = 0;
    let mut k: usize = 0;
    proof {
        assert(orig.take(0) =~= Seq::<Expr>::empty());
        assert(orig.skip(0) =~= orig);
        assert(av@ =~= kill(orig.take(0), d) + orig.skip(0));
    }
    while i < av.len()
        invariant
            orig.len() == n0,
            k <= orig.len(),
            av@ == kill(orig.take(k as int), d) + orig.skip(k as int),
            i == kill(orig.take(k as int), d).len(),
        decreases orig.len() - k,
    {
        let ghost pre = kill(orig.take(k as int), d);
        proof {
            assert(k < orig.len());
            assert(av@[i as int] == orig[k as int]);
            assert(orig.take(k + 1).drop_last() =~= orig.take(k as int));
            assert(orig.take(k + 1).last() == orig[k as int]);
        }
        if expr_names(&av[i], d) {
            av.remove(i);
            proof {
                assert(av@ =~= pre + orig.skip(k + 1));
            }
        } else {
            proof {
                assert(av@ =~= pre.push(orig[k as int]) + orig.skip(k + 1));
            }
            i = i + 1;
        }
        k = k + 1;
    }
    proof {
        assert(orig.skip(k as int) =~= Seq::<Expr>::empty());
        assert(orig.take(k as int) =~= orig);
        assert(av@ =~= kill(orig, d));
    }
}

/// The register of the latest expression of `av` with operator `op` and operands `l`, `r`.
fn lookup_expr(av: &Vec<Expr>, op: BinaryOp, l: &Operand, r: &Operand) -> (res: Option<RegisterId>)
    requires
        simple_operand(*l),
        simple_operand(*r),
    ensures
        res == lookup(av@, op, *l, *r),
{
    let mut found: Option<RegisterId> = None;
    let mut i: usize = 0;
    proof {
        assert(av@.take(0) =~= Seq::<Expr>::empty());
    }
    while i < av.len()
        invariant
            i <= av@.len(),
            simple_operand(*l),
            simple_operand(*r),
            found == lookup(av@.take(i as int), op, *l, *r),
        decreases av@.len() - i,
    {
        proof {
            assert(av@.take(i + 1).drop_last() =~= av@.take(i as int));
            assert(av@.take(i + 1).last() == av@[i as int]);
        }
        if av[i].0 == op && same_simple(&av[i].1, l) && same_simple(&av[i].2, r) {
            found = Some(av[i].3);
        }
        i = i + 1;
    }
    proof {
        assert(av@.take(av@.len() as int) =~= av@);
    }
    found
}

/// Rewrites `i` under the available expressions `av`, where it changes, and
/// brings `av` to what is available after it.
fn share_step(av: &mut Vec<Expr>, i: &Instruction, rt: &AssocMap<RegisterId, TypeId>) -> (r: Option<Instruction>)
    ensures
        r matches Some(x) ==> x == shared_instruction(old(av)@, *i, rt@),
        r is None ==> shared_instruction(old(av)@, *i, rt@) == *i,
        final(av)@ == shared_state(old(av)@, *i),
{
    let mut out: Option<Instruction> = None;
    let mut entry: Option<Expr> = None;
    match i {
        Instruction::BinaryOp { op, lhs, rhs, result } => {
            match (copy_simple(lhs), copy_simple(rhs)) {
                (Some(l), Some(r)) => {
                    let found = lookup_expr(av, *op, &l, &r);
                    match found {
                        Some(r1) => match rt.get(result) {
                            Some(t) => {
                                out = Some(Instruction::Cast { value: Operand::Register(r1), target_type: *t, result: *result });
                            },
                            None => {},
                        },
                        None => {
                            let self_l = match &l {
                                Operand::Register(x) => *x == *result,
                                _ => false,
                            };
                            let self_r = match &r {
                                Operand::Register(x) => *x == *result,
                                _ => false,
                            };
                            if !self_l && !self_r {
                                entry = Some((*op, l, r, *result));
                            }
                        },
                    }
                },
                _ => {},
            }
        },
        _ => {},
    }
    match i.defined_register() {
        Some(d) => kill_exprs(av, d),
        None => {},
    }
    match entry {
        Some(e) => av.push(e),
        None => {},
    }
    out
}

proof fn lemma_shared_step(s: Seq<(InstructionId, Instruction)>, j: int, av: Seq<Expr>, rt: Map<u32, TypeId>)
    requires
        0 <= j < s.len(),
    ensures
        shared_entries(s.skip(j), av, rt) == seq![(s[j].0, shared_instruction(av, s[j].1, rt))]
            + shared_entries(s.skip(j + 1), shared_state(av, s[j].1), rt),
{
    assert(s.skip(j).drop_first() =~= s.skip(j + 1));
    assert(s.skip(j)[0] == s[j]);
}

/// Replaces each binary operation of a block that repeats one computed
/// earlier in the block, with no redefinition of the registers involved in
/// between, by the register that holds the earlier result.
fn share_block(b: &mut BasicBlock, rt: &AssocMap<RegisterId, TypeId>)
    ensures
        final(b).instructions@ == shared_entries(old(b).instructions@, seq![], rt@),
        same_but_instructions(*final(b), *old(b)),
{
    let ghost ob = *b;
    let ghost target = shared_entries(ob.instructions@, seq![], rt@);
    let mut av: Vec<Expr> = Vec::new();
    let n = b.instructions.len();
    let mut j: usize = 0;
    proof {
        assert(ob.instructions@.skip(0) =~= ob.instructions@);
        assert(b.instructions@.take(0) =~= Seq::<(InstructionId, Instruction)>::empty());
        assert(av@ =~= Seq::<Expr>::empty());
        assert(target =~= b.instructions@.take(0) + shared_entries(ob.instructions@.skip(0), av@, rt@));
    }
    while j < n
        invariant
            n == b.instructions@.len(),
            b.instructions@.len() == ob.instructions@.len(),
            same_but_instructions(*b, ob),
            j <= n,
            target == shared_entries(ob.instructions@, seq![], rt@),
            target == b.instructions@.take(j as int) + shared_entries(ob.instructions@.skip(j as int), av@, rt@),
            forall|m: int| j <= m < n ==> b.instructions@[m] == ob.instructions@[m],
        decreases n - j,
    {
        proof {
            lemma_shared_step(ob.instructions@, j as int, av@, rt@);
        }
        let ghost av0 = av@;
        let ghost before = b.instructions@;
        let rewritten = share_step(&mut av, &b.instructions[j].1, rt);
        match rewritten {
            Some(x) => {
                let id = b.instructions[j].0;
                b.instructions.set(j, (id, x));
            },
            None => {},
        }
        proof {
            assert(b.instructions@[j as int] == (ob.instructions@[j as int].0, shared_instruction(av0, ob.instructions@[j as int].1, rt@)));
            assert(b.instructions@.take(j + 1) =~= before.take(j as int).push(b.instructions@[j as int]));
            assert(b.instructions@.take(j + 1) + shared_entries(ob.instructions@.skip(j + 1), av@, rt@) =~= before.take(j as int)
                + (seq![(ob.instructions@[j as int].0, shared_instruction(av0, ob.instructions@[j as int].1, rt@))]
                + shared_entries(ob.instructions@.skip(j + 1), av@, rt@)));
        }
        j = j + 1;
    }
    proof {
        assert(ob.instructions@.skip(n as int) =~= Seq::<(InstructionId, Instruction)>::empty());
        assert(shared_entries(ob.instructions@.skip(n as int), av@, rt@) =~= Seq::<(InstructionId, Instruction)>::empty());
        assert(b.instructions@.take(n as int) =~= b.instructions@);
        assert(b.instructions@ =~= target);
    }
}

/// Replaces each binary operation on registers and literals that repeats
/// one computed earlier in its block, with no redefinition in between of the
/// registers either names, by the earlier result cast to the type of its own
/// register. Blocks keep their order and everything but their instructions.
pub fn run_common_subexpression_elimination(func: &mut Function)
    ensures
        final(func).blocks@.dom() == old(func).blocks@.dom(),
        final(func).blocks.key_order() == old(func).blocks.key_order(),
        forall|k: u32| #[trigger] old(func).blocks@.contains_key(k) ==> {
            let ob = old(func).blocks@[k];
            let nb = final(func).blocks@[k];
            &&& nb.instructions@ == shared_entries(ob.instructions@, seq![], old(func).register_types@)
            &&& same_but_instructions(nb, ob)
        },
        same_header(*final(func), *old(func)),
{
    rewrite_blocks(func, BlockRewrite::Share);
}

// ---------------------------------------------------------------------------
// Dead code elimination.

/// Whether an instruction has an effect beyond its result: it stores, calls,
/// returns, branches, or acts on memory or the outside world.
pub open spec fn has_effect(i: Instruction) -> bool {
    ||| i is Store
    ||| i is Call
    ||| i is Return
    ||| i is Branch
    ||| i is BranchCond
    ||| i is Atomic
    ||| i is ExternalCall
    ||| i is InlineAsm
}

/// Whether `instr` has an effect beyond its result.
pub fn has_side_effects(instr: &Instruction) -> (r: bool)
    ensures
        r == has_effect(*instr),
{
    match instr {
        Instruction::Store { .. } => true,
        Instruction::Call { .. } => true,
        Instruction::Return { .. } => true,
        Instruction::Branch { .. } => true,
        Instruction::BranchCond { .. } => true,
        Instruction::Atomic { .. } => true,
        Instruction::ExternalCall { .. } => true,
        Instruction::InlineAsm { .. } => true,
        _ => false,
    }
}

/// The registers the operands of a switch's cases read, case after case.
pub open spec fn case_regs(s: Seq<(Literal, BlockId, Vec<Operand>)>) -> Seq<RegisterId>
    decreases s.len(),
{
    if s.len() == 0 {
        seq![]
    } else {
        case_regs(s.drop_last()) + operands_regs(s.last().2@)
    }
}

/// The registers a terminator reads, in operand order.
pub open spec fn terminator_regs(t: Terminator) -> Seq<RegisterId> {
    match t {
        Terminator::Branch { args, .. } => operands_regs(args@),
        Terminator::BranchCond { condition, true_args, false_args, .. } =>
            operand_regs(condition) + operands_regs(true_args@) + operands_regs(false_args@),
        Terminator::Return { value } => match value {
            Some(v) => operand_regs(v),
            None => seq![],
        },
        Terminator::Switch { value, default_args, cases, .. } =>
            operand_regs(value) + operands_regs(default_args@) + case_regs(cases@),
        Terminator::IndirectCall { function_ptr, arguments, return_args, .. } =>
            operand_regs(function_ptr) + operands_regs(arguments@) + operands_regs(return_args@),
        Terminator::Unreachable => seq![],
    }
}

/// The registers the terminator of a block reads; none where it has none.
pub open spec fn block_terminator_regs(b: BasicBlock) -> Seq<RegisterId> {
    match b.terminator {
        Some(t) => terminator_regs(t),
        None => seq![],
    }
}

/// The registers `t` reads, in operand order.
pub fn terminator_registers(t: &Terminator) -> (r: Vec<RegisterId>)
    ensures
        r@ == terminator_regs(*t),
{
    let mut regs: Vec<RegisterId> = Vec::new();
    match t {
        Terminator::Branch { args, .. } => {
            extract_all(args, &mut regs);
        },
        Terminator::BranchCond { condition, true_args, false_args, .. } => {
            extract_registers(condition, &mut regs);
            extract_all(true_args, &mut regs);
            extract_all(false_args, &mut regs);
        },
        Terminator::Return { value } => match value {
            Some(v) => {
                extract_registers(v, &mut regs);
            },
            None => {},
        },
        Terminator::Switch { value, default_args, cases, .. } => {
            extract_registers(value, &mut regs);
            extract_all(default_args, &mut regs);
            let ghost head = regs@;
            let mut i: usize = 0;
            while i < cases.len()
                invariant
                    i <= cases@.len(),
                    regs@ == head + case_regs(cases@.take(i as int)),
                decreases cases@.len() - i,
            {
                extract_all(&cases[i].2, &mut regs);
                proof {
                    assert(cases@.take(i + 1).drop_last() =~= cases@.take(i as int));
                }
                i = i + 1;
            }
            proof {
                assert(cases@.take(i as int) =~= cases@);
            }
        },
        Terminator::IndirectCall { function_ptr, arguments, return_args, .. } => {
            extract_registers(function_ptr, &mut regs);
            extract_all(arguments, &mut regs);
            extract_all(return_args, &mut regs);
        },
        Terminator::Unreachable => {},
    }
    proof {
        assert(regs@ =~= terminator_regs(*t));
    }
    regs
}

/// The numbers of a list of registers.
pub open spec fn reg_ids(s: Seq<RegisterId>) -> Seq<u32> {
    s.map_values(|r: RegisterId| r.0)
}

/// Whether every register of `s` is in `live`.
pub open spec fn reads_within(s: Seq<RegisterId>, live: Set<u32>) -> bool {
    forall|x: u32| #[trigger] reg_ids(s).contains(x) ==> live.contains(x)
}

/// Whether an instruction must stay when the registers in `live` are used:
/// it has an effect, or it defines a used register.
pub open spec fn needed(i: Instruction, live: Set<u32>) -> bool {
    has_effect(i) || (defined_reg(i) matches Some(r) && live.contains(r.0))
}

/// Whether `live` holds every register that a terminator or a needed
/// instruction reads.
pub open spec fn live_closed(blocks: Map<u32, BasicBlock>, live: Set<u32>) -> bool {
    &&& forall|k: u32, j: int|
        blocks.contains_key(k) && 0 <= j < blocks[k].instructions@.len() && needed(#[trigger] blocks[k].instructions@[j].1, live)
            ==> reads_within(used_regs(blocks[k].instructions@[j].1), live)
    &&& forall|k: u32| blocks.contains_key(k) ==> reads_within(block_terminator_regs(#[trigger] blocks[k]), live)
}

/// Whether `live` is the set of live registers of `blocks`: the least set
/// closed under the rules of `live_closed`.
pub open spec fn least_live(blocks: Map<u32, BasicBlock>, live: Set<u32>) -> bool {
    &&& live_closed(blocks, live)
    &&& forall|s: Set<u32>| #[trigger] live_closed(blocks, s) ==> live.subset_of(s)
}

/// A sequence of distinct numbers below 2^32 has at most 2^32 elements.
proof fn lemma_u32_seq_bound(s: Seq<u32>)
    requires
        s.no_duplicates(),
    ensures
        s.len() <= 0x1_0000_0000,
{
    let t = s.map_values(|x: u32| x as int);
    assert forall|a: int, b: int| 0 <= a < t.len() && 0 <= b < t.len() && a != b implies t[a] != t[b] by {
        assert(s[a] != s[b]);
    }
    assert(t.no_duplicates());
    t.unique_seq_to_set();
    vstd::set_lib::lemma_int_range(0, 0x1_0000_0000);
    assert forall|x: int| t.to_set().contains(x) implies vstd::set_lib::set_int_range(0, 0x1_0000_0000).contains(x) by {
        let m = choose|m: int| 0 <= m < t.len() && t[m] == x;
        assert(t[m] == s[m] as int);
    }
    vstd::set_lib::lemma_len_subset(t.to_set(), vstd::set_lib::set_int_range(0, 0x1_0000_0000));
}

/// Whether `v` holds `x`.
fn vec_contains(v: &Vec<u32>, x: u32) -> (r: bool)
    ensures
        r == v@.contains(x),
{
    let mut i: usize = 0;
    while i < v.len()
        invariant
            i <= v@.len(),
            forall|j: int| 0 <= j < i ==> v@[j] != x,
        decreases v@.len() - i,
    {
        if v[i] == x {
            return true;
        }
        i = i + 1;
    }
    false
}

/// Adds to `live` the registers of `regs` that it lacks, in order.
fn add_live(regs: &Vec<RegisterId>, live: &mut Vec<u32>)
    requires
        old(live)@.no_duplicates(),
    ensures
        final(live)@.no_duplicates(),
        final(live)@.len() >= old(live)@.len(),
        final(live)@.len() == old(live)@.len() ==> final(live)@ == old(live)@,
        forall|x: u32| old(live)@.contains(x) ==> final(live)@.contains(x),
        forall|x: u32| #[trigger] reg_ids(regs@).contains(x) ==> final(live)@.contains(x),
        forall|x: u32| #[trigger] final(live)@.contains(x) ==> old(live)@.contains(x) || reg_ids(regs@).contains(x),
{
    let mut i: usize = 0;
    while i < regs.len()
        invariant
            i <= regs@.len(),
            live@.no_duplicates(),
            live@.len() >= old(live)@.len(),
            live@.len() == old(live)@.len() ==> live@ == old(live)@,
            forall|x: u32| old(live)@.contains(x) ==> live@.contains(x),
            forall|m: int| 0 <= m < i ==> live@.contains(#[trigger] regs@[m].0),
            forall|x: u32| #[trigger] live@.contains(x) ==> old(live)@.contains(x) || reg_ids(regs@).contains(x),
        decreases regs@.len() - i,
    {
        let x = regs[i].0;
        if !vec_contains(live, x) {
            let ghost before = live@;
            live.push(x);
            proof {
                assert(reg_ids(regs@)[i as int] == x);
                assert forall|y: u32| #[trigger] live@.contains(y) implies old(live)@.contains(y) || reg_ids(regs@).contains(y) by {
                    if y != x {
                        let m = choose|m: int| 0 <= m < live@.len() && live@[m] == y;
                        assert(m < before.len());
                        assert(before[m] == y);
                        assert(before.contains(y));
                    } else {
                        assert(reg_ids(regs@).len() == regs@.len());
                        assert(reg_ids(regs@)[i as int] == y);
                    }
                }
                assert forall|y: u32| old(live)@.contains(y) implies live@.contains(y) by {
                    let m = choose|m: int| 0 <= m < before.len() && before[m] == y;
                    assert(live@[m] == y);
                }
                assert forall|m: int| 0 <= m < i + 1 implies live@.contains(#[trigger] regs@[m].0) by {
                    if m < i {
                        let n = choose|n: int| 0 <= n < before.len() && before[n] == regs@[m].0;
                        assert(live@[n] == regs@[m].0);
                    } else {
                        assert(live@[before.len() as int] == x);
                    }
                }
            }
        }
        i = i + 1;
    }
    proof {
        assert forall|x: u32| #[trigger] reg_ids(regs@).contains(x) implies live@.contains(x) by {
            let m = choose|m: int| 0 <= m < reg_ids(regs@).len() && reg_ids(regs@)[m] == x;
            assert(live@.contains(regs@[m].0));
        }
    }
}


/// Whether the registers that block `b` makes live, with `start` live, are all in `live`.
spec fn block_done(b: BasicBlock, start: Set<u32>, live: Set<u32>) -> bool {
    &&& forall|j: int| 0 <= j < b.instructions@.len() && needed(#[trigger] b.instructions@[j].1, start)
        ==> reads_within(used_regs(b.instructions@[j].1), live)
    &&& reads_within(block_terminator_regs(b), live)
}

proof fn lemma_reads_within_grow(s: Seq<RegisterId>, a: Set<u32>, b: Set<u32>)
    requires
        reads_within(s, a),
        a.subset_of(b),
    ensures
        reads_within(s, b),
{
}

proof fn lemma_block_done_grow(b: BasicBlock, start: Set<u32>, a: Set<u32>, c: Set<u32>)
    requires
        block_done(b, start, a),
        a.subset_of(c),
    ensures
        block_done(b, start, c),
{
    assert forall|j: int| 0 <= j < b.instructions@.len() && needed(#[trigger] b.instructions@[j].1, start)
        implies reads_within(used_regs(b.instructions@[j].1), c) by {
        lemma_reads_within_grow(used_regs(b.instructions@[j].1), a, c);
    }
    lemma_reads_within_grow(block_terminator_regs(b), a, c);
}

/// The live registers of `func`, each once: the least set that holds every
/// register read by a terminator or by a needed instruction.
pub fn live_registers(func: &Function) -> (r: Vec<u32>)
    ensures
        r@.no_duplicates(),
        least_live(func.blocks@, r@.to_set()),
{
    let keys = func.blocks.keys();
    let ghost bl = func.blocks@;
    let ghost order = func.blocks.key_order();
    let mut live: Vec<u32> = Vec::new();
    loop
        invariant
            key_views(keys@) == order,
            order == func.blocks.key_order(),
            order.to_set() == bl.dom(),
            bl == func.blocks@,
            live@.no_duplicates(),
            forall|s: Set<u32>| #[trigger] live_closed(bl, s) ==> live@.to_set().subset_of(s),
        ensures
            live@.no_duplicates(),
            live_closed(bl, live@.to_set()),
            forall|s: Set<u32>| #[trigger] live_closed(bl, s) ==> live@.to_set().subset_of(s),
        decreases 0x1_0000_0000 - live@.len(),
    {
        proof {
            lemma_u32_seq_bound(live@);
        }
        let ghost start = live@;
        let start_len = live.len();
        let mut bi: usize = 0;
        while bi < keys.len()
            invariant
                key_views(keys@) == order,
                order == func.blocks.key_order(),
                order.to_set() == bl.dom(),
                bl == func.blocks@,
                live@.no_duplicates(),
                forall|s: Set<u32>| #[trigger] live_closed(bl, s) ==> live@.to_set().subset_of(s),
                live@.len() >= start.len(),
                live@.len() == start.len() ==> live@ == start,
                start_len == start.len(),
                start.to_set().subset_of(live@.to_set()),
                bi <= keys@.len(),
                forall|k: u32| #[trigger] bl.contains_key(k) && order.take(bi as int).contains(k)
                    ==> block_done(bl[k], start.to_set(), live@.to_set()),
            decreases keys@.len() - bi,
        {
            let k = keys[bi];
            proof {
                assert(key_views(keys@)[bi as int] == k.0);
                assert(order.to_set().contains(k.0));
            }
            match func.blocks.get(&k) {
                Some(b) => {
                    let ghost live_in = live@;
                    let mut j: usize = 0;
                    while j < b.instructions.len()
                        invariant
                            *b == bl[k.0],
                            bl.contains_key(k.0),
                            live@.no_duplicates(),
                            forall|s: Set<u32>| #[trigger] live_closed(bl, s) ==> live@.to_set().subset_of(s),
                            live@.len() >= live_in.len(),
                            live@.len() == live_in.len() ==> live@ == live_in,
                            live_in.to_set().subset_of(live@.to_set()),
                            start.to_set().subset_of(live_in.to_set()),
                            j <= b.instructions@.len(),
                            forall|jj: int| 0 <= jj < j && needed(#[trigger] b.instructions@[jj].1, start.to_set())
                                ==> reads_within(used_regs(b.instructions@[jj].1), live@.to_set()),
                        decreases b.instructions@.len() - j,
                    {
                        let ins = &b.instructions[j].1;
                        let defines_live = match ins.defined_register() {
                            Some(r) => vec_contains(&live, r.0),
                            None => false,
                        };
                        let need = has_side_effects(ins) || defines_live;
                        let ghost live_before = live@;
                        if need {
                            let regs = ins.used_registers();
                            add_live(&regs, &mut live);
                            proof {
                                assert forall|s: Set<u32>| #[trigger] live_closed(bl, s) implies live@.to_set().subset_of(s) by {
                                    assert(live_before.to_set().subset_of(s));
                                    assert(needed(bl[k.0].instructions@[j as int].1, s));
                                    assert(reads_within(used_regs(bl[k.0].instructions@[j as int].1), s));
                                    assert forall|x: u32| live@.to_set().contains(x) implies s.contains(x) by {
                                        assert(live@.contains(x));
                                        if !live_before.contains(x) {
                                            assert(reg_ids(regs@).contains(x));
                                        } else {
                                            assert(live_before.to_set().contains(x));
                                        }
                                    }
                                }
                            }
                        }
                        proof {
                            assert(live_before.to_set().subset_of(live@.to_set()));
                            assert forall|jj: int| 0 <= jj < j + 1 && needed(#[trigger] b.instructions@[jj].1, start.to_set())
                                implies reads_within(used_regs(b.instructions@[jj].1), live@.to_set()) by {
                                if jj < j {
                                    lemma_reads_within_grow(used_regs(b.instructions@[jj].1), live_before.to_set(), live@.to_set());
                                } else {
                                    if !has_effect(*ins) {
                                        let r = defined_reg(*ins)->0;
                                        assert(start.to_set().contains(r.0));
                                        assert(live_before.to_set().contains(r.0));
                                        assert(live_before.contains(r.0));
                                    }
                                    assert(need);
                                }
                            }
                        }
                        j = j + 1;
                    }
                    let ghost live_mid = live@;
                    match &b.terminator {
                        Some(t) => {
                            let regs = terminator_registers(t);
                            add_live(&regs, &mut live);
                            proof {
                                assert forall|s: Set<u32>| #[trigger] live_closed(bl, s) implies live@.to_set().subset_of(s) by {
                                    assert(live_mid.to_set().subset_of(s));
                                    assert(reads_within(block_terminator_regs(bl[k.0]), s));
                                    assert forall|x: u32| live@.to_set().contains(x) implies s.contains(x) by {
                                        assert(live@.contains(x));
                                        if !live_mid.contains(x) {
                                            assert(reg_ids(regs@).contains(x));
                                        } else {
                                            assert(live_mid.to_set().contains(x));
                                        }
                                    }
                                }
                            }
                        },
                        None => {},
                    }
                    proof {
                        assert(live_mid.to_set().subset_of(live@.to_set()));
                        assert forall|jj: int| 0 <= jj < b.instructions@.len() && needed(#[trigger] b.instructions@[jj].1, start.to_set())
                            implies reads_within(used_regs(b.instructions@[jj].1), live@.to_set()) by {
                            lemma_reads_within_grow(used_regs(b.instructions@[jj].1), live_mid.to_set(), live@.to_set());
                        }
                        assert(block_done(bl[k.0], start.to_set(), live@.to_set()));
                        assert(live_in.to_set().subset_of(live@.to_set()));
                        assert forall|k2: u32| #[trigger] bl.contains_key(k2) && order.take(bi + 1).contains(k2)
                            implies block_done(bl[k2], start.to_set(), live@.to_set()) by {
                            if k2 != k.0 {
                                let m = choose|m: int| 0 <= m < order.take(bi + 1).len() && #[trigger] order.take(bi + 1)[m] == k2;
                                assert(m != bi);
                                assert(order.take(bi as int)[m] == k2);
                                assert(order.take(bi as int).contains(k2));
                                lemma_block_done_grow(bl[k2], start.to_set(), live_in.to_set(), live@.to_set());
                            }
                        }
                    }
                },
                None => {
                    proof {
                        assert(false);
                    }
                },
            }
            bi = bi + 1;
        }
        proof {
            lemma_u32_seq_bound(live@);
        }
        if live.len() == start_len {
            proof {
                assert(order.take(keys@.len() as int) =~= order);
                assert forall|k: u32| #[trigger] bl.contains_key(k) implies block_done(bl[k], live@.to_set(), live@.to_set()) by {
                    assert(order.to_set().contains(k));
                    assert(order.take(keys@.len() as int).contains(k));
                }
                assert forall|k: u32, j: int|
                    bl.contains_key(k) && 0 <= j < bl[k].instructions@.len() && needed(#[trigger] bl[k].instructions@[j].1, live@.to_set())
                    implies reads_within(used_regs(bl[k].instructions@[j].1), live@.to_set()) by {
                    assert(block_done(bl[k], live@.to_set(), live@.to_set()));
                }
                assert(live_closed(bl, live@.to_set()));
            }
            break;
        }
    }
    live
}


/// Any two sets of live registers of the same blocks are equal.
pub proof fn lemma_least_live_unique(blocks: Map<u32, BasicBlock>, a: Set<u32>, b: Set<u32>)
    requires
        least_live(blocks, a),
        least_live(blocks, b),
    ensures
        a == b,
{
    assert(a.subset_of(b));
    assert(b.subset_of(a));
    assert(a =~= b);
}

/// The entries of `s` whose instructions are needed when `live` is used, in order.
pub open spec fn kept(s: Seq<(InstructionId, Instruction)>, live: Set<u32>) -> Seq<(InstructionId, Instruction)>
    decreases s.len(),
{
    if s.len() == 0 {
        seq![]
    } else {
        kept(s.drop_last(), live) + if needed(s.last().1, live) { seq![s.last()] } else { seq![] }
    }
}

fn is_needed(i: &Instruction, live: &Vec<u32>) -> (r: bool)
    ensures
        r == needed(*i, live@.to_set()),
{
    if has_side_effects(i) {
        return true;
    }
    match i.defined_register() {
        Some(r) => vec_contains(live, r.0),
        None => false,
    }
}

/// Drops from a block the instructions that are not needed.
fn keep_needed(b: &mut BasicBlock, live: &Vec<u32>)
    ensures
        final(b).instructions@ == kept(old(b).instructions@, live@.to_set()),
        same_but_instructions(*final(b), *old(b)),
{
    let mut rest: Vec<(InstructionId, Instruction)> = Vec::new();
    std::mem::swap(&mut rest, &mut b.instructions);
    let ghost orig = rest@;
    proof {
        assert(orig.len() == rest.len());
        assert(orig.take(0) =~= Seq::<(InstructionId, Instruction)>::empty());
        assert(orig.skip(0) =~= orig);
    }
    let mut n: usize = 0;
    while rest.len() > 0
        invariant
            orig == old(b).instructions@,
            orig.len() <= usize::MAX,
            n <= orig.len(),
            rest@ == orig.skip(n as int),
            b.instructions@ == kept(orig.take(n as int), live@.to_set()),
            same_but_instructions(*b, *old(b)),
        decreases rest@.len(),
    {
        let e = rest.remove(0);
        proof {
            assert(e == orig[n as int]);
            assert(orig.take(n + 1).drop_last() =~= orig.take(n as int));
            assert(orig.take(n + 1).last() == orig[n as int]);
            assert(rest@ =~= orig.skip(n + 1));
        }
        if is_needed(&e.1, live) {
            b.instructions.push(e);
        }
        n = n + 1;
    }
    proof {
        assert(orig.take(n as int) =~= orig);
    }
}

/// Removes the instructions of `func` that are not needed: those without an
/// effect whose result no terminator and no needed instruction reads.
pub fn remove_dead_instructions(func: &mut Function)
    ensures
        final(func).blocks@.dom() == old(func).blocks@.dom(),
        final(func).blocks.key_order() == old(func).blocks.key_order(),
        same_header(*final(func), *old(func)),
        exists|live: Set<u32>| {
            &&& #[trigger] least_live(old(func).blocks@, live)
            &&& forall|k: u32| #[trigger] old(func).blocks@.contains_key(k) ==> {
                let ob = old(func).blocks@[k];
                let nb = final(func).blocks@[k];
                &&& nb.instructions@ == kept(ob.instructions@, live)
                &&& same_but_instructions(nb, ob)
            }
        },
{
    let live = live_registers(func);
    let ghost lset = live@.to_set();
    let keys = func.blocks.keys();
    let ghost order = old(func).blocks.key_order();
    let mut i: usize = 0;
    while i < keys.len()
        invariant
            key_views(keys@) == order,
            order == old(func).blocks.key_order(),
            order.to_set() == old(func).blocks@.dom(),
            order.no_duplicates(),
            lset == live@.to_set(),
            func.blocks@.dom() == old(func).blocks@.dom(),
            func.blocks.key_order() == order,
            same_header(*func, *old(func)),
            i <= keys@.len(),
            forall|k: u32| #[trigger] old(func).blocks@.contains_key(k) ==> {
                let ob = old(func).blocks@[k];
                let nb = func.blocks@[k];
                if order.take(i as int).contains(k) {
                    nb.instructions@ == kept(ob.instructions@, lset) && same_but_instructions(nb, ob)
                } else {
                    nb == ob
                }
            },
        decreases keys@.len() - i,
    {
        let k = keys[i];
        proof {
            assert(key_views(keys@)[i as int] == k.0);
            assert(order.to_set().contains(k.0));
        }
        let taken = func.blocks.replace(k, BasicBlock::new(k));
        match taken {
            Some(mut b) => {
                keep_needed(&mut b, &live);
                func.blocks.replace(k, b);
                proof {
                    assert forall|k2: u32| #[trigger] old(func).blocks@.contains_key(k2) implies {
                        let ob = old(func).blocks@[k2];
                        let nb2 = func.blocks@[k2];
                        if order.take(i + 1).contains(k2) {
                            nb2.instructions@ == kept(ob.instructions@, lset) && same_but_instructions(nb2, ob)
                        } else {
                            nb2 == ob
                        }
                    } by {
                        if k2 == k.0 {
                            assert(order.take(i + 1)[i as int] == k2);
                        } else {
                            if order.take(i + 1).contains(k2) {
                                let m = choose|m: int| 0 <= m < order.take(i + 1).len() && #[trigger] order.take(i + 1)[m] == k2;
                                assert(m != i);
                                assert(order.take(i as int)[m] == k2);
                            }
                            if order.take(i as int).contains(k2) {
                                let m = choose|m: int| 0 <= m < order.take(i as int).len() && #[trigger] order.take(i as int)[m] == k2;
                                assert(order.take(i + 1)[m] == k2);
                            }
                        }
                    }
                    assert(func.blocks@.dom() =~= old(func).blocks@.dom());
                }
            },
            None => {
                proof {
                    assert(false);
                }
            },
        }
        i = i + 1;
    }
    proof {
        assert(order.take(keys@.len() as int) =~= order);
        assert forall|k: u32| #[trigger] old(func).blocks@.contains_key(k) implies order.contains(k) by {
            assert(order.to_set().contains(k));
        }
        assert(least_live(old(func).blocks@, lset));
    }
}


// ---------------------------------------------------------------------------
// Control flow.

/// The targets of a switch's cases, case after case.
pub open spec fn case_targets(s: Seq<(Literal, BlockId, Vec<Operand>)>) -> Seq<BlockId>
    decreases s.len(),
{
    if s.len() == 0 {
        seq![]
    } else {
        case_targets(s.drop_last()).push(s.last().1)
    }
}

/// The blocks a terminator can pass control to.
pub open spec fn terminator_targets(t: Terminator) -> Seq<BlockId> {
    match t {
        Terminator::Branch { target, .. } => seq![target],
        Terminator::BranchCond { true_target, false_target, .. } => seq![true_target, false_target],
        Terminator::Return { .. } => seq![],
        Terminator::Switch { default_target, cases, .. } => seq![default_target] + case_targets(cases@),
        Terminator::IndirectCall { return_block, .. } => seq![return_block],
        Terminator::Unreachable => seq![],
    }
}

/// The blocks a block can pass control to; none where it has no terminator.
pub open spec fn successors(b: BasicBlock) -> Seq<BlockId> {
    match b.terminator {
        Some(t) => terminator_targets(t),
        None => seq![],
    }
}

/// The numbers of a list of blocks.
pub open spec fn block_ids(s: Seq<BlockId>) -> Seq<u32> {
    s.map_values(|b: BlockId| b.0)
}

/// The blocks `t` can pass control to, in order.
pub fn terminator_successors(t: &Terminator) -> (r: Vec<BlockId>)
    ensures
        r@ == terminator_targets(*t),
{
    let mut v: Vec<BlockId> = Vec::new();
    match t {
        Terminator::Branch { target, .. } => {
            v.push(*target);
        },
        Terminator::BranchCond { true_target, false_target, .. } => {
            v.push(*true_target);
            v.push(*false_target);
        },
        Terminator::Return { .. } => {},
        Terminator::Switch { default_target, cases, .. } => {
            v.push(*default_target);
            let mut i: usize = 0;
            while i < cases.len()
                invariant
                    i <= cases@.len(),
                    v@ == seq![*default_target] + case_targets(cases@.take(i as int)),
                decreases cases@.len() - i,
            {
                v.push(cases[i].1);
                proof {
                    assert(cases@.take(i + 1).drop_last() =~= cases@.take(i as int));
                }
                i = i + 1;
            }
            proof {
                assert(cases@.take(i as int) =~= cases@);
            }
        },
        Terminator::IndirectCall { return_block, .. } => {
            v.push(*return_block);
        },
        Terminator::Unreachable => {},
    }
    proof {
        assert(v@ =~= terminator_targets(*t));
    }
    v
}

/// Whether `reach` holds the entry block and every block that a block in it
/// can pass control to.
pub open spec fn reach_closed(blocks: Map<u32, BasicBlock>, entry: BlockId, reach: Set<u32>) -> bool {
    &&& reach.contains(entry.0)
    &&& forall|k: u32| #[trigger] blocks.contains_key(k) && reach.contains(k)
        ==> forall|x: u32| #[trigger] block_ids(successors(blocks[k])).contains(x) ==> reach.contains(x)
}

/// Whether `reach` is the set of blocks reachable from the entry: the least
/// set closed under the rules of `reach_closed`.
pub open spec fn least_reach(blocks: Map<u32, BasicBlock>, entry: BlockId, reach: Set<u32>) -> bool {
    &&& reach_closed(blocks, entry, reach)
    &&& forall|s: Set<u32>| #[trigger] reach_closed(blocks, entry, s) ==> reach.subset_of(s)
}

/// Adds to `reach` the numbers of `ids` that it lacks, in order.
fn add_reached(ids: &Vec<BlockId>, reach: &mut Vec<u32>)
    requires
        old(reach)@.no_duplicates(),
    ensures
        final(reach)@.no_duplicates(),
        final(reach)@.len() >= old(reach)@.len(),
        final(reach)@.len() == old(reach)@.len() ==> final(reach)@ == old(reach)@,
        forall|x: u32| old(reach)@.contains(x) ==> final(reach)@.contains(x),
        forall|x: u32| #[trigger] block_ids(ids@).contains(x) ==> final(reach)@.contains(x),
        forall|x: u32| #[trigger] final(reach)@.contains(x) ==> old(reach)@.contains(x) || block_ids(ids@).contains(x),
{
    let mut i: usize = 0;
    while i < ids.len()
        invariant
            i <= ids@.len(),
            reach@.no_duplicates(),
            reach@.len() >= old(reach)@.len(),
            reach@.len() == old(reach)@.len() ==> reach@ == old(reach)@,
            forall|x: u32| old(reach)@.contains(x) ==> reach@.contains(x),
            forall|m: int| 0 <= m < i ==> reach@.contains(#[trigger] ids@[m].0),
            forall|x: u32| #[trigger] reach@.contains(x) ==> old(reach)@.contains(x) || block_ids(ids@).contains(x),
        decreases ids@.len() - i,
    {
        let x = ids[i].0;
        if !vec_contains(reach, x) {
            let ghost before = reach@;
            reach.push(x);
            proof {
                assert forall|y: u32| #[trigger] reach@.contains(y) implies old(reach)@.contains(y) || block_ids(ids@).contains(y) by {
                    if y != x {
                        let m = choose|m: int| 0 <= m < reach@.len() && reach@[m] == y;
                        assert(m < before.len());
                        assert(before[m] == y);
                        assert(before.contains(y));
                    } else {
                        assert(block_ids(ids@).len() == ids@.len());
                        assert(block_ids(ids@)[i as int] == y);
                    }
                }
                assert forall|y: u32| old(reach)@.contains(y) implies reach@.contains(y) by {
                    let m = choose|m: int| 0 <= m < before.len() && before[m] == y;
                    assert(reach@[m] == y);
                }
                assert forall|m: int| 0 <= m < i + 1 implies reach@.contains(#[trigger] ids@[m].0) by {
                    if m < i {
                        let n = choose|n: int| 0 <= n < before.len() && before[n] == ids@[m].0;
                        assert(reach@[n] == ids@[m].0);
                    } else {
                        assert(reach@[before.len() as int] == x);
                    }
                }
            }
        }
        i = i + 1;
    }
    proof {
        assert forall|x: u32| #[trigger] block_ids(ids@).contains(x) implies reach@.contains(x) by {
            let m = choose|m: int| 0 <= m < block_ids(ids@).len() && block_ids(ids@)[m] == x;
            assert(reach@.contains(ids@[m].0));
        }
    }
}

/// Whether the successors of block `b`, if `b` was reached at the start, are reached.
spec fn successors_done(b: BasicBlock, k: u32, start: Set<u32>, reach: Set<u32>) -> bool {
    start.contains(k) ==> forall|x: u32| #[trigger] block_ids(successors(b)).contains(x) ==> reach.contains(x)
}

/// The blocks reachable from the entry block, each once: the least set that
/// holds the entry and every successor of a reachable block.
pub fn find_reachable_blocks(func: &Function) -> (r: Vec<u32>)
    ensures
        r@.no_duplicates(),
        least_reach(func.blocks@, func.entry_block, r@.to_set()),
{
    let keys = func.blocks.keys();
    let ghost bl = func.blocks@;
    let ghost order = func.blocks.key_order();
    let ghost entry = func.entry_block;
    let mut reach: Vec<u32> = Vec::new();
    reach.push(func.entry_block.0);
    proof {
        assert(reach@[0] == entry.0);
        assert forall|s: Set<u32>| #[trigger] reach_closed(bl, entry, s) implies reach@.to_set().subset_of(s) by {
            assert forall|x: u32| reach@.to_set().contains(x) implies s.contains(x) by {
                assert(reach@.contains(x));
                let m = choose|m: int| 0 <= m < reach@.len() && reach@[m] == x;
            }
        }
    }
    loop
        invariant
            key_views(keys@) == order,
            order == func.blocks.key_order(),
            order.to_set() == bl.dom(),
            bl == func.blocks@,
            entry == func.entry_block,
            reach@.no_duplicates(),
            reach@.contains(entry.0),
            forall|s: Set<u32>| #[trigger] reach_closed(bl, entry, s) ==> reach@.to_set().subset_of(s),
        ensures
            reach@.no_duplicates(),
            reach_closed(bl, entry, reach@.to_set()),
            forall|s: Set<u32>| #[trigger] reach_closed(bl, entry, s) ==> reach@.to_set().subset_of(s),
        decreases 0x1_0000_0000 - reach@.len(),
    {
        proof {
            lemma_u32_seq_bound(reach@);
        }
        let ghost start = reach@;
        let start_len = reach.len();
        let mut bi: usize = 0;
        while bi < keys.len()
            invariant
                key_views(keys@) == order,
                order == func.blocks.key_order(),
                order.to_set() == bl.dom(),
                bl == func.blocks@,
                entry == func.entry_block,
                reach@.no_duplicates(),
                reach@.contains(entry.0),
                forall|s: Set<u32>| #[trigger] reach_closed(bl, entry, s) ==> reach@.to_set().subset_of(s),
                reach@.len() >= start.len(),
                reach@.len() == start.len() ==> reach@ == start,
                start_len == start.len(),
                start.to_set().subset_of(reach@.to_set()),
                bi <= keys@.len(),
                forall|k: u32| #[trigger] bl.contains_key(k) && order.take(bi as int).contains(k)
                    ==> successors_done(bl[k], k, start.to_set(), reach@.to_set()),
            decreases keys@.len() - bi,
        {
            let k = keys[bi];
            proof {
                assert(key_views(keys@)[bi as int] == k.0);
                assert(order.to_set().contains(k.0));
            }
            let ghost reach_in = reach@;
            if vec_contains(&reach, k.0) {
                match func.blocks.get(&k) {
                    Some(b) => {
                        match &b.terminator {
                            Some(t) => {
                                let succ = terminator_successors(t);
                                add_reached(&succ, &mut reach);
                                proof {
                                    assert forall|s: Set<u32>| #[trigger] reach_closed(bl, entry, s) implies reach@.to_set().subset_of(s) by {
                                        assert(reach_in.to_set().subset_of(s));
                                        assert(reach_in.to_set().contains(k.0));
                                        assert(bl.contains_key(k.0) && s.contains(k.0));
                                        assert forall|x: u32| reach@.to_set().contains(x) implies s.contains(x) by {
                                            assert(reach@.contains(x));
                                            if !reach_in.contains(x) {
                                                assert(block_ids(succ@).contains(x));
                                                assert(block_ids(successors(bl[k.0])).contains(x));
                                            } else {
                                                assert(reach_in.to_set().contains(x));
                                            }
                                        }
                                    }
                                }
                            },
                            None => {},
                        }
                    },
                    None => {
                        proof {
                            assert(false);
                        }
                    },
                }
            }
            proof {
                assert(reach_in.to_set().subset_of(reach@.to_set()));
                assert forall|k2: u32| #[trigger] bl.contains_key(k2) && order.take(bi + 1).contains(k2)
                    implies successors_done(bl[k2], k2, start.to_set(), reach@.to_set()) by {
                    if k2 != k.0 {
                        let m = choose|m: int| 0 <= m < order.take(bi + 1).len() && #[trigger] order.take(bi + 1)[m] == k2;
                        assert(m != bi);
                        assert(order.take(bi as int)[m] == k2);
                        assert(order.take(bi as int).contains(k2));
                        assert(successors_done(bl[k2], k2, start.to_set(), reach_in.to_set()));
                    } else {
                        if start.to_set().contains(k2) {
                            assert(reach_in.to_set().contains(k2));
                            assert(reach_in.contains(k2));
                        }
                    }
                }
                assert(reach@.contains(entry.0));
            }
            bi = bi + 1;
        }
        proof {
            lemma_u32_seq_bound(reach@);
        }
        if reach.len() == start_len {
            proof {
                assert(order.take(keys@.len() as int) =~= order);
                assert forall|k: u32| #[trigger] bl.contains_key(k) && reach@.to_set().contains(k)
                    implies forall|x: u32| #[trigger] block_ids(successors(bl[k])).contains(x) ==> reach@.to_set().contains(x) by {
                    assert(order.to_set().contains(k));
                    assert(order.take(keys@.len() as int).contains(k));
                    assert(successors_done(bl[k], k, start.to_set(), reach@.to_set()));
                }
                assert(reach@.to_set().contains(entry.0));
                assert(reach_closed(bl, entry, reach@.to_set()));
            }
            break;
        }
    }
    reach
}


/// Removes the blocks of `func` that cannot be reached from its entry block.
pub fn remove_unreachable_code(func: &mut Function)
    ensures
        same_header(*final(func), *old(func)),
        exists|reach: Set<u32>| {
            &&& #[trigger] least_reach(old(func).blocks@, old(func).entry_block, reach)
            &&& final(func).blocks@ == old(func).blocks@.restrict(reach)
        },
{
    let reach = find_reachable_blocks(func);
    let ghost rset = reach@.to_set();
    let keys = func.blocks.keys();
    let ghost order = old(func).blocks.key_order();
    let mut i: usize = 0;
    while i < keys.len()
        invariant
            key_views(keys@) == order,
            order == old(func).blocks.key_order(),
            order.to_set() == old(func).blocks@.dom(),
            order.no_duplicates(),
            rset == reach@.to_set(),
            same_header(*func, *old(func)),
            i <= keys@.len(),
            forall|k: u32| #[trigger] func.blocks@.contains_key(k) <==> (old(func).blocks@.contains_key(k)
                && (rset.contains(k) || !order.take(i as int).contains(k))),
            forall|k: u32| #[trigger] func.blocks@.contains_key(k) ==> func.blocks@[k] == old(func).blocks@[k],
        decreases keys@.len() - i,
    {
        let k = keys[i];
        proof {
            assert(key_views(keys@)[i as int] == k.0);
        }
        let ghost before = func.blocks@;
        if !vec_contains(&reach, k.0) {
            func.blocks.remove(&k);
        }
        proof {
            assert(order.take(i + 1)[i as int] == k.0);
            assert forall|k2: u32| #[trigger] func.blocks@.contains_key(k2) <==> (old(func).blocks@.contains_key(k2)
                && (rset.contains(k2) || !order.take(i + 1).contains(k2))) by {
                if k2 != k.0 {
                    if order.take(i + 1).contains(k2) {
                        let m = choose|m: int| 0 <= m < order.take(i + 1).len() && #[trigger] order.take(i + 1)[m] == k2;
                        assert(order.take(i as int)[m] == k2);
                    }
                    if order.take(i as int).contains(k2) {
                        let m = choose|m: int| 0 <= m < order.take(i as int).len() && #[trigger] order.take(i as int)[m] == k2;
                        assert(order.take(i + 1)[m] == k2);
                    }
                    assert(func.blocks@.contains_key(k2) == before.contains_key(k2));
                } else {
                    assert(reach@.to_set().contains(k2) == reach@.contains(k2));
                }
            }
        }
        i = i + 1;
    }
    proof {
        assert(order.take(keys@.len() as int) =~= order);
        assert forall|k: u32| old(func).blocks@.contains_key(k) implies order.contains(k) by {
            assert(order.to_set().contains(k));
        }
        assert(func.blocks@ =~= old(func).blocks@.restrict(rset));
    }
}

/// A conditional branch on a boolean literal as a branch to the target it
/// selects; one whose targets agree and that passes no arguments as a branch
/// to that target; any other terminator unchanged.
pub open spec fn simplified(t: Terminator) -> Terminator {
    match t {
        Terminator::BranchCond { condition, true_target, true_args, false_target, false_args } => match condition {
            Operand::Literal(Literal::Bool(c)) => if c {
                Terminator::Branch { target: true_target, args: true_args }
            } else {
                Terminator::Branch { target: false_target, args: false_args }
            },
            _ => if true_target == false_target && true_args@.len() == 0 && false_args@.len() == 0 {
                Terminator::Branch { target: true_target, args: true_args }
            } else {
                t
            },
        },
        _ => t,
    }
}

/// The terminator of a block after simplification.
pub open spec fn simplified_terminator(t: Option<Terminator>) -> Option<Terminator> {
    match t {
        Some(x) => Some(simplified(x)),
        None => None,
    }
}

/// Whether `nb` is `ob` with its terminator simplified.
pub open spec fn simplified_block(nb: BasicBlock, ob: BasicBlock) -> bool {
    &&& nb.terminator == simplified_terminator(ob.terminator)
    &&& nb.instructions == ob.instructions
    &&& nb.id == ob.id
    &&& nb.parameters == ob.parameters
    &&& nb.predecessors == ob.predecessors
}

fn simplify_block(b: &mut BasicBlock)
    ensures
        simplified_block(*final(b), *old(b)),
{
    let mut t: Option<Terminator> = None;
    std::mem::swap(&mut t, &mut b.terminator);
    let nt = match t {
        Some(Terminator::BranchCond { condition, true_target, true_args, false_target, false_args }) => match condition {
            Operand::Literal(Literal::Bool(c)) => if c {
                Some(Terminator::Branch { target: true_target, args: true_args })
            } else {
                Some(Terminator::Branch { target: false_target, args: false_args })
            },
            cond => if true_target == false_target && true_args.len() == 0 && false_args.len() == 0 {
                Some(Terminator::Branch { target: true_target, args: true_args })
            } else {
                Some(Terminator::BranchCond { condition: cond, true_target, true_args, false_target, false_args })
            },
        },
        other => other,
    };
    b.terminator = nt;
}

/// Simplifies the terminator of every block of `func`.
pub fn simplify_branches(func: &mut Function)
    ensures
        final(func).blocks@.dom() == old(func).blocks@.dom(),
        final(func).blocks.key_order() == old(func).blocks.key_order(),
        forall|k: u32| #[trigger] old(func).blocks@.contains_key(k) ==> simplified_block(final(func).blocks@[k], old(func).blocks@[k]),
        same_header(*final(func), *old(func)),
{
    let keys = func.blocks.keys();
    let ghost order = old(func).blocks.key_order();
    let mut i: usize = 0;
    while i < keys.len()
        invariant
            key_views(keys@) == order,
            order == old(func).blocks.key_order(),
            order.to_set() == old(func).blocks@.dom(),
            order.no_duplicates(),
            func.blocks@.dom() == old(func).blocks@.dom(),
            func.blocks.key_order() == order,
            same_header(*func, *old(func)),
            i <= keys@.len(),
            forall|k: u32| #[trigger] old(func).blocks@.contains_key(k) ==> {
                if order.take(i as int).contains(k) {
                    simplified_block(func.blocks@[k], old(func).blocks@[k])
                } else {
                    func.blocks@[k] == old(func).blocks@[k]
                }
            },
        decreases keys@.len() - i,
    {
        let k = keys[i];
        proof {
            assert(key_views(keys@)[i as int] == k.0);
            assert(order.to_set().contains(k.0));
        }
        let taken = func.blocks.replace(k, BasicBlock::new(k));
        match taken {
            Some(mut b) => {
                simplify_block(&mut b);
                func.blocks.replace(k, b);
                proof {
                    assert forall|k2: u32| #[trigger] old(func).blocks@.contains_key(k2) implies {
                        if order.take(i + 1).contains(k2) {
                            simplified_block(func.blocks@[k2], old(func).blocks@[k2])
                        } else {
                            func.blocks@[k2] == old(func).blocks@[k2]
                        }
                    } by {
                        if k2 == k.0 {
                            assert(order.take(i + 1)[i as int] == k2);
                        } else {
                            if order.take(i + 1).contains(k2) {
                                let m = choose|m: int| 0 <= m < order.take(i + 1).len() && #[trigger] order.take(i + 1)[m] == k2;
                                assert(m != i);
                                assert(order.take(i as int)[m] == k2);
                            }
                            if order.take(i as int).contains(k2) {
                                let m = choose|m: int| 0 <= m < order.take(i as int).len() && #[trigger] order.take(i as int)[m] == k2;
                                assert(order.take(i + 1)[m] == k2);
                            }
                        }
                    }
                    assert(func.blocks@.dom() =~= old(func).blocks@.dom());
                }
            },
            None => {
                proof {
                    assert(false);
                }
            },
        }
        i = i + 1;
    }
    proof {
        assert(order.take(keys@.len() as int) =~= order);
        assert forall|k: u32| #[trigger] old(func).blocks@.contains_key(k) implies order.contains(k) by {
            assert(order.to_set().contains(k));
        }
    }
}


// ---------------------------------------------------------------------------
// Passes over whole functions and modules.

/// `nf` is `of` with its constants folded.
pub open spec fn folded_fn(nf: Function, of: Function) -> bool {
    &&& nf.blocks@.dom() == of.blocks@.dom()
    &&& forall|k: u32| #[trigger] of.blocks@.contains_key(k) ==> {
        &&& nf.blocks@[k].instructions@ == folded_entries(of.blocks@[k].instructions@, of.register_types@)
        &&& same_but_instructions(nf.blocks@[k], of.blocks@[k])
    }
    &&& same_header(nf, of)
}

/// `nf` is `of` with its instructions combined, block after block in the
/// order of its blocks, as `combine_blocks` says.
pub open spec fn combined_fn(nf: Function, of: Function) -> bool {
    let c = combine_blocks(of.blocks.key_order(), of.blocks@, of.next_register_id, of.next_instruction_id, of.register_types@);
    &&& nf.blocks@.dom() == of.blocks@.dom()
    &&& forall|k: u32| #[trigger] of.blocks@.contains_key(k) ==> {
        &&& nf.blocks@[k].instructions@ == c.0[k]
        &&& same_but_instructions(nf.blocks@[k], of.blocks@[k])
    }
    &&& nf.next_register_id == c.1
    &&& nf.next_instruction_id == c.2
    &&& same_frame(nf, of)
}

/// `nf` is `of` with the loads that read a value stored earlier in their block replaced by it.
pub open spec fn forwarded_fn(nf: Function, of: Function) -> bool {
    &&& nf.blocks@.dom() == of.blocks@.dom()
    &&& forall|k: u32| #[trigger] of.blocks@.contains_key(k) ==> {
        &&& nf.blocks@[k].instructions@ == forwarded_entries(of.blocks@[k].instructions@, None, of.register_types@)
        &&& same_but_instructions(nf.blocks@[k], of.blocks@[k])
    }
    &&& same_header(nf, of)
}

/// `nf` is `of` with the binary operations that repeat an earlier one of their block replaced by its result.
pub open spec fn shared_fn(nf: Function, of: Function) -> bool {
    &&& nf.blocks@.dom() == of.blocks@.dom()
    &&& forall|k: u32| #[trigger] of.blocks@.contains_key(k) ==> {
        &&& nf.blocks@[k].instructions@ == shared_entries(of.blocks@[k].instructions@, seq![], of.register_types@)
        &&& same_but_instructions(nf.blocks@[k], of.blocks@[k])
    }
    &&& same_header(nf, of)
}

/// `nf` is `of` without the instructions that are not needed.
pub open spec fn instructions_pruned(nf: Function, of: Function) -> bool {
    &&& nf.blocks@.dom() == of.blocks@.dom()
    &&& exists|live: Set<u32>| {
        &&& #[trigger] least_live(of.blocks@, live)
        &&& forall|k: u32| #[trigger] of.blocks@.contains_key(k) ==> {
            &&& nf.blocks@[k].instructions@ == kept(of.blocks@[k].instructions@, live)
            &&& same_but_instructions(nf.blocks@[k], of.blocks@[k])
        }
    }
    &&& same_header(nf, of)
}

/// `nf` is `of` without the instructions that are not needed, and with
/// every branch sent past the blocks that only branch on.
pub open spec fn pruned_fn(nf: Function, of: Function) -> bool {
    exists|mid: Function| #[trigger] instructions_pruned(mid, of) && merged_fn(nf, mid)
}

/// `nf` is `of` with its unreachable blocks removed and the terminators of
/// the others simplified.
pub open spec fn cleaned_fn(nf: Function, of: Function) -> bool {
    &&& exists|reach: Set<u32>| {
        &&& #[trigger] least_reach(of.blocks@, of.entry_block, reach)
        &&& nf.blocks@.dom() == of.blocks@.dom().intersect(reach)
    }
    &&& forall|k: u32| #[trigger] nf.blocks@.contains_key(k) ==> simplified_block(nf.blocks@[k], of.blocks@[k])
    &&& same_header(nf, of)
}

/// `nf` is `of` with its unreachable blocks removed, the terminators of the
/// others simplified, and each block merged with its only successor where it
/// is that successor's only predecessor.
pub open spec fn cfg_fn(nf: Function, of: Function) -> bool {
    exists|mid: Function| #[trigger] cleaned_fn(mid, of) && blocks_merged(nf, mid)
}

/// Removes the unreachable blocks of `func`, simplifies the terminators of
/// the others, then merges blocks with their only successors.
pub fn run_control_flow_optimization(func: &mut Function)
    ensures
        cfg_fn(*final(func), *old(func)),
{
    remove_unreachable_code(func);
    let ghost mid = *func;
    simplify_branches(func);
    let ghost cleaned = *func;
    proof {
        let reach = choose|reach: Set<u32>| {
            &&& #[trigger] least_reach(old(func).blocks@, old(func).entry_block, reach)
            &&& mid.blocks@ == old(func).blocks@.restrict(reach)
        };
        assert(cleaned.blocks@.dom() =~= old(func).blocks@.dom().intersect(reach));
        assert forall|k: u32| #[trigger] cleaned.blocks@.contains_key(k) implies simplified_block(cleaned.blocks@[k], old(func).blocks@[k]) by {
            assert(mid.blocks@.contains_key(k));
        }
        assert(cleaned_fn(cleaned, *old(func)));
    }
    merge_blocks(func);
}

/// The passes that `plan` keeps: `p`, unless it is disabled.
pub open spec fn enabled(disabled: Seq<OptimizationPass>, p: OptimizationPass) -> Seq<OptimizationPass> {
    if disabled.contains(p) {
        seq![]
    } else {
        seq![p]
    }
}

/// The passes of a level, in the order they run: size optimisation runs
/// constant folding, dead code elimination and control flow optimisation;
/// level 1 runs those that are not disabled, with common subexpression
/// elimination before control flow optimisation and memory to register after
/// it, where enabled; levels 2 and 3 then run
/// instruction combining, constant folding, dead code elimination and
/// loop-invariant code motion, where enabled, and level 3 moves
/// loop-invariant code once more.
pub open spec fn pass_plan(level: OptimizationLevel, disabled: Seq<OptimizationPass>) -> Seq<OptimizationPass> {
    let speed1 = enabled(disabled, OptimizationPass::ConstantFolding) + enabled(disabled, OptimizationPass::DeadCodeElimination)
        + enabled(disabled, OptimizationPass::CommonSubexpressionElimination)
        + enabled(disabled, OptimizationPass::ControlFlowOptimization) + enabled(disabled, OptimizationPass::MemoryToRegister);
    match level {
        OptimizationLevel::NoOptimization => seq![],
        OptimizationLevel::Size => seq![
            OptimizationPass::ConstantFolding,
            OptimizationPass::DeadCodeElimination,
            OptimizationPass::ControlFlowOptimization,
        ],
        OptimizationLevel::Speed1 => speed1,
        OptimizationLevel::Speed2 => speed1 + enabled(disabled, OptimizationPass::InstructionCombining)
            + enabled(disabled, OptimizationPass::ConstantFolding)
            + enabled(disabled, OptimizationPass::DeadCodeElimination)
            + enabled(disabled, OptimizationPass::LoopInvariantCodeMotion),
        OptimizationLevel::Speed3 => speed1 + enabled(disabled, OptimizationPass::InstructionCombining)
            + enabled(disabled, OptimizationPass::ConstantFolding)
            + enabled(disabled, OptimizationPass::DeadCodeElimination)
            + enabled(disabled, OptimizationPass::LoopInvariantCodeMotion)
            + enabled(disabled, OptimizationPass::LoopInvariantCodeMotion),
    }
}

/// What one pass does to a function.
pub open spec fn step_rel(p: OptimizationPass, nf: Function, of: Function) -> bool {
    match p {
        OptimizationPass::ConstantFolding => folded_fn(nf, of),
        OptimizationPass::DeadCodeElimination => pruned_fn(nf, of),
        OptimizationPass::ControlFlowOptimization => cfg_fn(nf, of),
        OptimizationPass::LoopInvariantCodeMotion => crate::licm::licm_fn(nf, of),
        OptimizationPass::InstructionCombining => combined_fn(nf, of),
        OptimizationPass::MemoryToRegister => forwarded_fn(nf, of),
        OptimizationPass::CommonSubexpressionElimination => shared_fn(nf, of),
        _ => nf.blocks@ == of.blocks@ && same_header(nf, of),
    }
}

/// Whether `chain` lists the states of a function as the passes of `steps`
/// run in order, from `of` to `nf`.
pub open spec fn chain_of(steps: Seq<OptimizationPass>, chain: Seq<Function>, nf: Function, of: Function) -> bool {
    &&& chain.len() == steps.len() + 1
    &&& chain[0] == of
    &&& chain.last() == nf
    &&& forall|i: int| 0 <= i < steps.len() ==> step_rel(#[trigger] steps[i], chain[i + 1], chain[i])
}

/// What a sequence of passes, run in order, does to a function.
pub open spec fn steps_rel(steps: Seq<OptimizationPass>, nf: Function, of: Function) -> bool {
    exists|chain: Seq<Function>| #[trigger] chain_of(steps, chain, nf, of)
}

/// Runs one pass on `func`.
fn apply_pass(p: OptimizationPass, func: &mut Function)
    ensures
        step_rel(p, *final(func), *old(func)),
{
    match p {
        OptimizationPass::ConstantFolding => fold_function_constants(func),
        OptimizationPass::DeadCodeElimination => run_dead_code_elimination(func),
        OptimizationPass::ControlFlowOptimization => run_control_flow_optimization(func),
        OptimizationPass::LoopInvariantCodeMotion => crate::licm::run_loop_invariant_code_motion(func),
        OptimizationPass::InstructionCombining => run_instruction_combining(func),
        OptimizationPass::MemoryToRegister => run_memory_to_register(func),
        OptimizationPass::CommonSubexpressionElimination => run_common_subexpression_elimination(func),
        _ => {},
    }
}

/// Runs the passes of `plan` on `func`, in order.
fn optimize_function(plan: &Vec<OptimizationPass>, func: &mut Function)
    ensures
        steps_rel(plan@, *final(func), *old(func)),
{
    let ghost mut chain: Seq<Function> = seq![*func];
    proof {
        assert(plan@.take(0) =~= Seq::<OptimizationPass>::empty());
    }
    let mut n: usize = 0;
    while n < plan.len()
        invariant
            n <= plan@.len(),
            chain_of(plan@.take(n as int), chain, *func, *old(func)),
        decreases plan@.len() - n,
    {
        let ghost before = *func;
        let p = plan[n];
        apply_pass(p, func);
        proof {
            let prev = chain;
            chain = chain.push(*func);
            let steps = plan@.take(n + 1);
            assert forall|i: int| 0 <= i < steps.len() implies step_rel(#[trigger] steps[i], chain[i + 1], chain[i]) by {
                if i < n {
                    assert(steps[i] == plan@.take(n as int)[i]);
                    assert(chain[i + 1] == prev[i + 1] && chain[i] == prev[i]);
                } else {
                    assert(steps[i] == p);
                    assert(chain[i] == before);
                }
            }
            assert(chain_of(steps, chain, *func, *old(func)));
        }
        n = n + 1;
    }
    proof {
        assert(plan@.take(n as int) =~= plan@);
        assert(chain_of(plan@, chain, *func, *old(func)));
    }
}

/// `nm` is `om` with the passes of `plan` run on each of its functions.
pub open spec fn optimized_module(nm: Module, om: Module, plan: Seq<OptimizationPass>) -> bool {
    &&& nm.functions@.dom() == om.functions@.dom()
    &&& forall|k: u32| #[trigger] om.functions@.contains_key(k) ==> steps_rel(plan, nm.functions@[k], om.functions@[k])
    &&& nm.name == om.name
    &&& nm.globals@ == om.globals@
    &&& nm.external_functions@ == om.external_functions@
    &&& nm.types@ == om.types@
    &&& nm.entry_point == om.entry_point
}

/// An optimiser with its settings.
#[derive(Debug)]
pub struct Optimizer {
    pub options: OptimizationOptions,
}

fn is_disabled(disabled: &Vec<OptimizationPass>, p: OptimizationPass) -> (r: bool)
    ensures
        r == disabled@.contains(p),
{
    let mut i: usize = 0;
    while i < disabled.len()
        invariant
            i <= disabled@.len(),
            forall|j: int| 0 <= j < i ==> disabled@[j] != p,
        decreases disabled@.len() - i,
    {
        if disabled[i] == p {
            return true;
        }
        i = i + 1;
    }
    false
}

fn push_enabled(plan: &mut Vec<OptimizationPass>, disabled: &Vec<OptimizationPass>, p: OptimizationPass)
    ensures
        final(plan)@ == old(plan)@ + enabled(disabled@, p),
{
    if !is_disabled(disabled, p) {
        plan.push(p);
    }
    proof {
        assert(plan@ =~= old(plan)@ + enabled(disabled@, p));
    }
}

impl Optimizer {
    /// An optimiser with the given settings.
    pub fn new(options: OptimizationOptions) -> (o: Self)
        ensures
            o.options == options,
    {
        Optimizer { options }
    }

    /// An optimiser with the default settings.
    pub fn default() -> (o: Self)
        ensures
            o.options.level == OptimizationLevel::Speed2,
            !o.options.optimize_size,
            o.options.inline_threshold == 100,
            o.options.unroll_factor == 4,
            o.options.enable_simd,
            !o.options.profile_guided,
            o.options.disabled_passes@ == Seq::<OptimizationPass>::empty(),
    {
        Self::new(OptimizationOptions::default())
    }

    /// An optimiser with the default settings at the given numeric level.
    pub fn with_level(level: u8) -> (o: Self)
        ensures
            o.options.level == level_of(level),
            !o.options.optimize_size,
            o.options.inline_threshold == 100,
            o.options.unroll_factor == 4,
            o.options.enable_simd,
            !o.options.profile_guided,
            o.options.disabled_passes@ == Seq::<OptimizationPass>::empty(),
    {
        let mut options = OptimizationOptions::default();
        options.level = OptimizationLevel::from(level);
        Self::new(options)
    }

    /// The passes this optimiser runs, in order.
    pub fn plan(&self) -> (r: Vec<OptimizationPass>)
        ensures
            r@ == pass_plan(self.options.level, self.options.disabled_passes@),
    {
        let d = &self.options.disabled_passes;
        let mut plan: Vec<OptimizationPass> = Vec::new();
        match self.options.level {
            OptimizationLevel::NoOptimization => {},
            OptimizationLevel::Size => {
                plan.push(OptimizationPass::ConstantFolding);
                plan.push(OptimizationPass::DeadCodeElimination);
                plan.push(OptimizationPass::ControlFlowOptimization);
            },
            OptimizationLevel::Speed1 => {
                push_enabled(&mut plan, d, OptimizationPass::ConstantFolding);
                push_enabled(&mut plan, d, OptimizationPass::DeadCodeElimination);
                push_enabled(&mut plan, d, OptimizationPass::CommonSubexpressionElimination);
                push_enabled(&mut plan, d, OptimizationPass::ControlFlowOptimization);
                push_enabled(&mut plan, d, OptimizationPass::MemoryToRegister);
            },
            OptimizationLevel::Speed2 => {
                push_enabled(&mut plan, d, OptimizationPass::ConstantFolding);
                push_enabled(&mut plan, d, OptimizationPass::DeadCodeElimination);
                push_enabled(&mut plan, d, OptimizationPass::CommonSubexpressionElimination);
                push_enabled(&mut plan, d, OptimizationPass::ControlFlowOptimization);
                push_enabled(&mut plan, d, OptimizationPass::MemoryToRegister);
                push_enabled(&mut plan, d, OptimizationPass::InstructionCombining);
                push_enabled(&mut plan, d, OptimizationPass::ConstantFolding);
                push_enabled(&mut plan, d, OptimizationPass::DeadCodeElimination);
                push_enabled(&mut plan, d, OptimizationPass::LoopInvariantCodeMotion);
            },
            OptimizationLevel::Speed3 => {
                push_enabled(&mut plan, d, OptimizationPass::ConstantFolding);
                push_enabled(&mut plan, d, OptimizationPass::DeadCodeElimination);
                push_enabled(&mut plan, d, OptimizationPass::CommonSubexpressionElimination);
                push_enabled(&mut plan, d, OptimizationPass::ControlFlowOptimization);
                push_enabled(&mut plan, d, OptimizationPass::MemoryToRegister);
                push_enabled(&mut plan, d, OptimizationPass::InstructionCombining);
                push_enabled(&mut plan, d, OptimizationPass::ConstantFolding);
                push_enabled(&mut plan, d, OptimizationPass::DeadCodeElimination);
                push_enabled(&mut plan, d, OptimizationPass::LoopInvariantCodeMotion);
                push_enabled(&mut plan, d, OptimizationPass::LoopInvariantCodeMotion);
            },
        }
        proof {
            assert(plan@ =~= pass_plan(self.options.level, self.options.disabled_passes@));
        }
        plan
    }

    /// Runs the passes of this optimiser's level on every function of `module`.
    pub fn optimize_module(&self, module: &mut Module) -> (r: Result<(), EidosError>)
        ensures
            r is Ok,
            optimized_module(*final(module), *old(module), pass_plan(self.options.level, self.options.disabled_passes@)),
    {
        let plan = self.plan();
        let keys = module.functions.keys();
        let ghost order = old(module).functions.key_order();
        let mut i: usize = 0;
        while i < keys.len()
            invariant
                plan@ == pass_plan(self.options.level, self.options.disabled_passes@),
                key_views(keys@) == order,
                order == old(module).functions.key_order(),
                order.to_set() == old(module).functions@.dom(),
                order.no_duplicates(),
                module.functions@.dom() == old(module).functions@.dom(),
                module.name == old(module).name,
                module.globals@ == old(module).globals@,
                module.external_functions@ == old(module).external_functions@,
                module.types@ == old(module).types@,
                module.entry_point == old(module).entry_point,
                i <= keys@.len(),
                forall|k: u32| #[trigger] old(module).functions@.contains_key(k) ==> {
                    if order.take(i as int).contains(k) {
                        steps_rel(plan@, module.functions@[k], old(module).functions@[k])
                    } else {
                        module.functions@[k] == old(module).functions@[k]
                    }
                },
            decreases keys@.len() - i,
        {
            let k = keys[i];
            proof {
                assert(key_views(keys@)[i as int] == k.0);
                assert(order.to_set().contains(k.0));
            }
            let placeholder = Function::new(k, "", TypeId(0), TypeId(0));
            let taken = module.functions.replace(k, placeholder);
            match taken {
                Some(mut f) => {
                    optimize_function(&plan, &mut f);
                    module.functions.replace(k, f);
                    proof {
                        assert forall|k2: u32| #[trigger] old(module).functions@.contains_key(k2) implies {
                            if order.take(i + 1).contains(k2) {
                                steps_rel(plan@, module.functions@[k2], old(module).functions@[k2])
                            } else {
                                module.functions@[k2] == old(module).functions@[k2]
                            }
                        } by {
                            if k2 == k.0 {
                                assert(order.take(i + 1)[i as int] == k2);
                            } else {
                                if order.take(i + 1).contains(k2) {
                                    let m = choose|m: int| 0 <= m < order.take(i + 1).len() && #[trigger] order.take(i + 1)[m] == k2;
                                    assert(m != i);
                                    assert(order.take(i as int)[m] == k2);
                                }
                                if order.take(i as int).contains(k2) {
                                    let m = choose|m: int| 0 <= m < order.take(i as int).len() && #[trigger] order.take(i as int)[m] == k2;
                                    assert(order.take(i + 1)[m] == k2);
                                }
                            }
                        }
                        assert(module.functions@.dom() =~= old(module).functions@.dom());
                    }
                },
                None => {
                    proof {
                        assert(false);
                    }
                },
            }
            i = i + 1;
        }
        proof {
            assert(order.take(keys@.len() as int) =~= order);
            assert forall|k: u32| #[trigger] old(module).functions@.contains_key(k) implies order.contains(k) by {
                assert(order.to_set().contains(k));
            }
        }
        Ok(())
    }
}


// ---------------------------------------------------------------------------
// Laws.

/// The literal that folding an operation on the integers `l` and `r` gives.
pub open spec fn folded_ints(op: BinaryOp, l: i64, r: i64) -> Option<Literal> {
    fold_spec(Instruction::BinaryOp { op, lhs: Operand::Literal(Literal::Int(l)), rhs: Operand::Literal(Literal::Int(r)), result: RegisterId(0) })
}

/// Folding an operation on two integer literals gives its value: a sum,
/// difference or product where it fits in an `i64` and nothing where it does
/// not; a quotient or remainder of non-negative integers, nothing for a zero
/// divisor; each comparison its truth; `&&` and `||` on integers nothing. The
/// register an instruction writes plays no part.
pub proof fn lemma_fold_ints_meaning(op: BinaryOp, l: i64, r: i64, res: RegisterId)
    ensures
        fold_spec(Instruction::BinaryOp { op, lhs: Operand::Literal(Literal::Int(l)), rhs: Operand::Literal(Literal::Int(r)), result: res })
            == folded_ints(op, l, r),
        op == BinaryOp::Add ==> folded_ints(op, l, r) == (if i64::MIN <= l + r <= i64::MAX { Some(Literal::Int((l + r) as i64)) } else { None }),
        op == BinaryOp::Sub ==> folded_ints(op, l, r) == (if i64::MIN <= l - r <= i64::MAX { Some(Literal::Int((l - r) as i64)) } else { None }),
        op == BinaryOp::Mul ==> folded_ints(op, l, r) == (if i64::MIN <= l * r <= i64::MAX { Some(Literal::Int((l * r) as i64)) } else { None }),
        op == BinaryOp::Div && r == 0 ==> folded_ints(op, l, r) is None,
        op == BinaryOp::Rem && r == 0 ==> folded_ints(op, l, r) is None,
        op == BinaryOp::Div && 0 <= l && 0 < r ==> folded_ints(op, l, r) == Some(Literal::Int((l / r) as i64)),
        op == BinaryOp::Rem && 0 <= l && 0 < r ==> folded_ints(op, l, r) == Some(Literal::Int((l % r) as i64)),
        op == BinaryOp::Eq ==> folded_ints(op, l, r) == Some(Literal::Bool(l == r)),
        op == BinaryOp::Ne ==> folded_ints(op, l, r) == Some(Literal::Bool(l != r)),
        op == BinaryOp::Lt ==> folded_ints(op, l, r) == Some(Literal::Bool(l < r)),
        op == BinaryOp::Le ==> folded_ints(op, l, r) == Some(Literal::Bool(l <= r)),
        op == BinaryOp::Gt ==> folded_ints(op, l, r) == Some(Literal::Bool(l > r)),
        op == BinaryOp::Ge ==> folded_ints(op, l, r) == Some(Literal::Bool(l >= r)),
        op == BinaryOp::BitAnd ==> folded_ints(op, l, r) == Some(Literal::Int(l & r)),
        op == BinaryOp::BitOr ==> folded_ints(op, l, r) == Some(Literal::Int(l | r)),
        op == BinaryOp::BitXor ==> folded_ints(op, l, r) == Some(Literal::Int(l ^ r)),
        op == BinaryOp::And ==> folded_ints(op, l, r) is None,
        op == BinaryOp::Or ==> folded_ints(op, l, r) is None,
{
    if op == BinaryOp::Div && 0 <= l && 0 < r {
        assert(0 <= l / r <= l && (l == 0 ==> l / r == 0)) by (nonlinear_arith)
            requires
                0 <= l,
                0 < r,
        ;
    }
    if op == BinaryOp::Rem && 0 <= l && 0 < r {
        assert(0 <= l % r < r && (l == 0 ==> l % r == 0)) by (nonlinear_arith)
            requires
                0 <= l,
                0 < r,
        ;
    }
}

/// Folding a unary operation on a literal gives its value: the negation of
/// an integer other than the smallest (nothing for the smallest), the
/// bitwise complement of an integer under `!` and `~`, the opposite of a
/// boolean; nothing for a cast.
pub proof fn lemma_fold_unary_meaning(x: i64, b: bool, v: Literal, res: RegisterId)
    ensures
        fold_spec(Instruction::UnaryOp { op: UnaryOp::Neg, operand: Operand::Literal(Literal::Int(x)), result: res })
            == (if x == i64::MIN { None } else { Some(Literal::Int((0 - x) as i64)) }),
        fold_spec(Instruction::UnaryOp { op: UnaryOp::BitNot, operand: Operand::Literal(Literal::Int(x)), result: res })
            == Some(Literal::Int(!x)),
        fold_spec(Instruction::UnaryOp { op: UnaryOp::Not, operand: Operand::Literal(Literal::Int(x)), result: res })
            == Some(Literal::Int(!x)),
        fold_spec(Instruction::UnaryOp { op: UnaryOp::Not, operand: Operand::Literal(Literal::Bool(b)), result: res })
            == Some(Literal::Bool(!b)),
        fold_spec(Instruction::UnaryOp { op: UnaryOp::Cast, operand: Operand::Literal(v), result: res }) is None,
{
}

/// One step of a combined chain gives the value of the operation: `+ - *`
/// on integers where the result fits in an `i64`, `&&`, `||` and exclusive
/// or on booleans their truth; comparisons, and operators on mixed
/// literals, are not combined.
pub proof fn lemma_fold_pair_meaning(op: BinaryOp, l: i64, r: i64, p: bool, q: bool)
    ensures
        op == BinaryOp::Add ==> fold_pair(op, Literal::Int(l), Literal::Int(r))
            == (if i64::MIN <= l + r <= i64::MAX { Some(Literal::Int((l + r) as i64)) } else { None }),
        op == BinaryOp::Sub ==> fold_pair(op, Literal::Int(l), Literal::Int(r))
            == (if i64::MIN <= l - r <= i64::MAX { Some(Literal::Int((l - r) as i64)) } else { None }),
        op == BinaryOp::Mul ==> fold_pair(op, Literal::Int(l), Literal::Int(r))
            == (if i64::MIN <= l * r <= i64::MAX { Some(Literal::Int((l * r) as i64)) } else { None }),
        op == BinaryOp::Div && r == 0 ==> fold_pair(op, Literal::Int(l), Literal::Int(r)) is None,
        op == BinaryOp::And ==> fold_pair(op, Literal::Bool(p), Literal::Bool(q)) == Some(Literal::Bool(p && q)),
        op == BinaryOp::Or ==> fold_pair(op, Literal::Bool(p), Literal::Bool(q)) == Some(Literal::Bool(p || q)),
        op == BinaryOp::BitXor ==> fold_pair(op, Literal::Bool(p), Literal::Bool(q)) == Some(Literal::Bool(p != q)),
        op == BinaryOp::Lt || op == BinaryOp::Le || op == BinaryOp::Gt || op == BinaryOp::Ge || op == BinaryOp::Eq
            || op == BinaryOp::Ne ==> fold_pair(op, Literal::Int(l), Literal::Int(r)) is None,
        fold_pair(op, Literal::Int(l), Literal::Bool(q)) is None,
        fold_pair(op, Literal::Bool(p), Literal::Int(r)) is None,
{
}

/// Looking up an expression finds a register only where an available
/// expression has the same operator and the same operands in the same order,
/// and it finds one wherever such an expression is available.
pub proof fn lemma_lookup_meaning(av: Seq<Expr>, op: BinaryOp, l: Operand, r: Operand)
    ensures
        lookup(av, op, l, r) matches Some(d) ==> exists|k: int| 0 <= k < av.len() && av[k] == (op, l, r, d),
        (exists|k: int| 0 <= k < av.len() && av[k].0 == op && av[k].1 == l && av[k].2 == r) ==> lookup(av, op, l, r) is Some,
    decreases av.len(),
{
    if av.len() > 0 {
        let p = av.drop_last();
        lemma_lookup_meaning(p, op, l, r);
        if lookup(av, op, l, r) is Some && !(av.last().0 == op && av.last().1 == l && av.last().2 == r) {
            let d = lookup(av, op, l, r)->0;
            let k = choose|k: int| 0 <= k < p.len() && p[k] == (op, l, r, d);
            assert(av[k] == p[k]);
        }
        if lookup(av, op, l, r) is Some && av.last().0 == op && av.last().1 == l && av.last().2 == r {
            assert(av[av.len() - 1] == (op, l, r, av.last().3));
        }
        if exists|k: int| 0 <= k < av.len() && av[k].0 == op && av[k].1 == l && av[k].2 == r {
            let k = choose|k: int| 0 <= k < av.len() && av[k].0 == op && av[k].1 == l && av[k].2 == r;
            if k < av.len() - 1 {
                assert(p[k] == av[k]);
            }
        }
    }
}

/// Dropping the expressions that name register `d` keeps exactly those
/// whose operands are not `d` and whose result is not `d`.
pub proof fn lemma_kill_meaning(av: Seq<Expr>, d: RegisterId)
    ensures
        forall|e: Expr| #[trigger] kill(av, d).contains(e) <==> (av.contains(e) && e.1 != Operand::Register(d)
            && e.2 != Operand::Register(d) && e.3 != d),
    decreases av.len(),
{
    if av.len() > 0 {
        let p = av.drop_last();
        let x = av.last();
        lemma_kill_meaning(p, d);
        let kp = kill(p, d);
        assert forall|e: Expr| #[trigger] kill(av, d).contains(e) <==> (av.contains(e) && e.1 != Operand::Register(d)
            && e.2 != Operand::Register(d) && e.3 != d) by {
            assert(av.contains(e) <==> (p.contains(e) || e == x)) by {
                if av.contains(e) {
                    let k = choose|k: int| 0 <= k < av.len() && av[k] == e;
                    if k < av.len() - 1 {
                        assert(p[k] == e);
                    }
                }
                if p.contains(e) {
                    let k = choose|k: int| 0 <= k < p.len() && p[k] == e;
                    assert(av[k] == e);
                }
                if e == x {
                    assert(av[av.len() - 1] == e);
                }
            }
            if expr_mentions(x, d) {
                assert(kill(av, d) == kp);
            } else {
                let q = kp.push(x);
                assert(kill(av, d) == q);
                assert(q.contains(e) <==> (kp.contains(e) || e == x)) by {
                    if q.contains(e) {
                        let k = choose|k: int| 0 <= k < q.len() && q[k] == e;
                        if k < q.len() - 1 {
                            assert(kp[k] == e);
                        }
                    }
                    if kp.contains(e) {
                        let k = choose|k: int| 0 <= k < kp.len() && kp[k] == e;
                        assert(q[k] == e);
                    }
                    if e == x {
                        assert(q[q.len() - 1] == e);
                    }
                }
            }
        }
    }
}

/// An instruction is replaced only by the register of an available
/// expression with its own operator and operands in the same order, cast to
/// the type of its own register; and a binary operation on simple operands
/// whose expression is available, and whose register has a type, is replaced.
pub proof fn lemma_shared_instruction_meaning(av: Seq<Expr>, op: BinaryOp, l: Operand, r: Operand, res: RegisterId, rt: Map<u32, TypeId>)
    ensures
        ({
            let i = Instruction::BinaryOp { op, lhs: l, rhs: r, result: res };
            &&& shared_instruction(av, i, rt) != i ==> exists|k: int, d: RegisterId|
                0 <= k < av.len() && av[k] == (op, l, r, d)
                && shared_instruction(av, i, rt) == Instruction::Cast { value: Operand::Register(d), target_type: rt[res.0], result: res }
            &&& (simple_operand(l) && simple_operand(r) && rt.contains_key(res.0)
                && exists|k: int| 0 <= k < av.len() && av[k].0 == op && av[k].1 == l && av[k].2 == r)
                ==> shared_instruction(av, i, rt) is Cast
        }),
{
    lemma_lookup_meaning(av, op, l, r);
    let i = Instruction::BinaryOp { op, lhs: l, rhs: r, result: res };
    if shared_instruction(av, i, rt) != i {
        let d = lookup(av, op, l, r)->0;
        let k = choose|k: int| 0 <= k < av.len() && av[k] == (op, l, r, d);
        assert(0 <= k < av.len() && av[k] == (op, l, r, d));
    }
}

/// Every instruction other than a binary operation is kept as it is.
pub proof fn lemma_shared_keeps_others(av: Seq<Expr>, i: Instruction, rt: Map<u32, TypeId>)
    requires
        !(i is BinaryOp),
    ensures
        shared_instruction(av, i, rt) == i,
{
}

/// After an instruction that writes register `d`, no available expression
/// reads `d`, and the only one held in `d` is the instruction's own.
pub proof fn lemma_shared_state_meaning(av: Seq<Expr>, i: Instruction, d: RegisterId)
    requires
        defined_reg(i) == Some(d),
    ensures
        forall|e: Expr| #[trigger] shared_state(av, i).contains(e) ==> e.1 != Operand::Register(d) && e.2 != Operand::Register(d)
            && (e.3 == d ==> (i matches Instruction::BinaryOp { op, lhs, rhs, result } && e == (op, lhs, rhs, result))),
{
    lemma_kill_meaning(av, d);
    let base = kill(av, d);
    assert forall|e: Expr| #[trigger] shared_state(av, i).contains(e) implies e.1 != Operand::Register(d) && e.2 != Operand::Register(d)
        && (e.3 == d ==> (i matches Instruction::BinaryOp { op, lhs, rhs, result } && e == (op, lhs, rhs, result))) by {
        if shared_state(av, i) != base {
            let q = shared_state(av, i);
            assert(q == base.push(q.last()));
            let k = choose|k: int| 0 <= k < q.len() && q[k] == e;
            if k < q.len() - 1 {
                assert(base[k] == e);
                assert(base.contains(e));
            }
        } else {
            assert(base.contains(e));
        }
    }
}

/// Stores, calls, returns, branches, atomic operations, external calls and
/// inline assembly have effects beyond their result; arithmetic, loads,
/// allocations, address computations, casts, phis, selects and debug
/// information do not.
pub proof fn lemma_effects_meaning(i: Instruction)
    ensures
        (i is Store || i is Call || i is Return || i is Branch || i is BranchCond || i is Atomic || i is ExternalCall
            || i is InlineAsm) ==> has_effect(i),
        (i is BinaryOp || i is UnaryOp || i is Load || i is Alloca || i is GetElementPtr || i is Cast || i is Phi
            || i is Select || i is DebugInfo) ==> !has_effect(i),
{
}

/// A load from the address a store just wrote reads the stored value: it
/// becomes that value cast to the type of its register. A store of a simple
/// value to a register's address is remembered; an instruction with another
/// effect forgets what was remembered, and so does one that redefines the
/// address register or the value register.
pub proof fn lemma_forwarding_meaning(a: RegisterId, v: Operand, res: RegisterId, rt: Map<u32, TypeId>, st: Option<(RegisterId, Operand)>, i: Instruction)
    ensures
        (simple_operand(v) && rt.contains_key(res.0)) ==> forwarded_instruction(Some((a, v)), (Instruction::Load { address: Operand::Register(a), result: res }), rt)
            == (Instruction::Cast { value: v, target_type: rt[res.0], result: res }),
        simple_operand(v) ==> forward_state(st, (Instruction::Store { address: Operand::Register(a), value: v })) == Some((a, v)),
        (has_effect(i) && !(i is Store)) ==> forward_state(st, i) is None,
        (!has_effect(i) && st == Some((a, v)) && defined_reg(i) == Some(a)) ==> forward_state(st, i) is None,
        (!has_effect(i) && st == Some((a, v)) && defined_reg(i) == Some(res) && v == Operand::Register(res)) ==> forward_state(st, i) is None,
        forwarded_instruction(None, i, rt) == i,
{
}

/// A conditional branch on a constant becomes a branch to the target the
/// constant picks, with that target's arguments; one whose two targets are
/// the same block, without arguments, becomes a branch to it; any other
/// terminator stays.
pub proof fn lemma_simplified_meaning(t: Terminator, cond: Operand, tt: BlockId, ta: Vec<Operand>, ft: BlockId, fa: Vec<Operand>)
    ensures
        simplified((Terminator::BranchCond { condition: Operand::Literal(Literal::Bool(true)), true_target: tt, true_args: ta, false_target: ft, false_args: fa }))
            == (Terminator::Branch { target: tt, args: ta }),
        simplified((Terminator::BranchCond { condition: Operand::Literal(Literal::Bool(false)), true_target: tt, true_args: ta, false_target: ft, false_args: fa }))
            == (Terminator::Branch { target: ft, args: fa }),
        (!(cond is Literal) && tt != ft) ==> simplified((Terminator::BranchCond { condition: cond, true_target: tt, true_args: ta, false_target: ft, false_args: fa }))
            == (Terminator::BranchCond { condition: cond, true_target: tt, true_args: ta, false_target: ft, false_args: fa }),
        (!(cond is Literal) && ta@.len() == 0 && fa@.len() == 0) ==> simplified((Terminator::BranchCond { condition: cond, true_target: tt, true_args: ta, false_target: tt, false_args: fa }))
            == (Terminator::Branch { target: tt, args: ta }),
        !(t is BranchCond) ==> simplified(t) == t,
{
}

/// A branch passes control to its target, a conditional branch to its true
/// and then its false target, a return and an unreachable terminator to no block.
pub proof fn lemma_terminator_targets_meaning(t: Terminator)
    ensures
        t matches Terminator::Branch { target, .. } ==> terminator_targets(t) == seq![target],
        t matches Terminator::BranchCond { true_target, false_target, .. } ==> terminator_targets(t) == seq![true_target, false_target],
        t is Return ==> terminator_targets(t) == Seq::<BlockId>::empty(),
        t is Unreachable ==> terminator_targets(t) == Seq::<BlockId>::empty(),
{
}

/// An instruction must stay when it has an effect or writes a live
/// register; an instruction without effect whose register is not live, or
/// that writes no register, may go.
pub proof fn lemma_needed_meaning(i: Instruction, live: Set<u32>, r: RegisterId)
    ensures
        has_effect(i) ==> needed(i, live),
        (!has_effect(i) && defined_reg(i) == Some(r) && live.contains(r.0)) ==> needed(i, live),
        (!has_effect(i) && defined_reg(i) == Some(r) && !live.contains(r.0)) ==> !needed(i, live),
        (!has_effect(i) && defined_reg(i) is None) ==> !needed(i, live),
{
}

/// The numeric levels name the levels of the same number, and any number
/// above 3 the second; no level without optimisation runs any pass, and
/// every plan starts with constant folding where it is not disabled.
pub proof fn lemma_levels_meaning(n: u8, disabled: Seq<OptimizationPass>)
    ensures
        level_of(0) == OptimizationLevel::NoOptimization,
        level_of(1) == OptimizationLevel::Speed1,
        level_of(2) == OptimizationLevel::Speed2,
        level_of(3) == OptimizationLevel::Speed3,
        n > 3 ==> level_of(n) == OptimizationLevel::Speed2,
        pass_plan(OptimizationLevel::NoOptimization, disabled).len() == 0,
        pass_plan(OptimizationLevel::Size, disabled) == seq![
            OptimizationPass::ConstantFolding,
            OptimizationPass::DeadCodeElimination,
            OptimizationPass::ControlFlowOptimization,
        ],
        !disabled.contains(OptimizationPass::ConstantFolding) ==> pass_plan(OptimizationLevel::Speed1, disabled)[0]
            == OptimizationPass::ConstantFolding,
        disabled.len() == 0 ==> pass_plan(OptimizationLevel::Speed1, disabled) == seq![
            OptimizationPass::ConstantFolding,
            OptimizationPass::DeadCodeElimination,
            OptimizationPass::CommonSubexpressionElimination,
            OptimizationPass::ControlFlowOptimization,
            OptimizationPass::MemoryToRegister,
        ],
{
    if disabled.len() == 0 {
        assert(pass_plan(OptimizationLevel::Speed1, disabled) =~= seq![
            OptimizationPass::ConstantFolding,
            OptimizationPass::DeadCodeElimination,
            OptimizationPass::CommonSubexpressionElimination,
            OptimizationPass::ControlFlowOptimization,
            OptimizationPass::MemoryToRegister,
        ]);
    }
}

/// A product of a sum, `t1 = a + b; t2 = t1 * c`, is distributed as
/// `x = a * c; y = b * c; t2 = x + y` into the two fresh registers `x` and
/// `y`, with three fresh ids, where `a` and `b` are not `t1` and the counters
/// have room; the counters then move past what was used. A product of
/// anything else is not distributed.
pub proof fn lemma_distribution_meaning(a: Operand, b: Operand, c: Operand, t1: RegisterId, t2: RegisterId, id: InstructionId, nr: u32, ni: u32, rt: Map<u32, TypeId>, first: Instruction)
    requires
        a != Operand::Register(t1),
        b != Operand::Register(t1),
        nr + 2 <= u32::MAX,
        ni + 3 <= u32::MAX,
    ensures
        combine_step((Instruction::BinaryOp { op: BinaryOp::Add, lhs: a, rhs: b, result: t1 }), (id, Instruction::BinaryOp { op: BinaryOp::Mul, lhs: Operand::Register(t1), rhs: c, result: t2 }), nr, ni, rt) == (
            seq![
                (InstructionId(ni), Instruction::BinaryOp { op: BinaryOp::Mul, lhs: a, rhs: c, result: RegisterId(nr) }),
                (InstructionId((ni + 1) as u32), Instruction::BinaryOp { op: BinaryOp::Mul, lhs: b, rhs: c, result: RegisterId((nr + 1) as u32) }),
                (InstructionId((ni + 2) as u32), Instruction::BinaryOp {
                    op: BinaryOp::Add,
                    lhs: Operand::Register(RegisterId(nr)),
                    rhs: Operand::Register(RegisterId((nr + 1) as u32)),
                    result: t2,
                }),
            ],
            (nr + 2) as u32,
            (ni + 3) as u32,
        ),
        !(first matches Instruction::BinaryOp { op: BinaryOp::Add, .. }) ==> !distributes(first, (Instruction::BinaryOp { op: BinaryOp::Mul, lhs: Operand::Register(t1), rhs: c, result: t2 })),
{
}

/// Folding is idempotent: a folded instruction folds to itself.
pub proof fn lemma_fold_idempotent(i: Instruction, rt: Map<u32, TypeId>)
    ensures
        folded_instruction(folded_instruction(i, rt), rt) == folded_instruction(i, rt),
{
}

/// Memory to register keeps a block's length and ids, and changes only
/// loads, each into a cast of a stored value to the load's own register.
pub proof fn lemma_forward_changes_only_loads(s: Seq<(InstructionId, Instruction)>, st: Option<(RegisterId, Operand)>, rt: Map<u32, TypeId>)
    ensures
        forwarded_entries(s, st, rt).len() == s.len(),
        forall|j: int| 0 <= j < s.len() ==> (#[trigger] forwarded_entries(s, st, rt)[j]).0 == s[j].0,
        forall|j: int| 0 <= j < s.len() && (#[trigger] forwarded_entries(s, st, rt)[j]).1 != s[j].1 ==> {
            &&& s[j].1 is Load
            &&& forwarded_entries(s, st, rt)[j].1 is Cast
            &&& defined_reg(forwarded_entries(s, st, rt)[j].1) == defined_reg(s[j].1)
        },
    decreases s.len(),
{
    if s.len() > 0 {
        let rest = s.drop_first();
        let nst = forward_state(st, s[0].1);
        lemma_forward_changes_only_loads(rest, nst, rt);
        let f = forwarded_entries(s, st, rt);
        assert forall|j: int| 0 < j < s.len() implies #[trigger] f[j] == forwarded_entries(rest, nst, rt)[j - 1] by {}
    }
}

/// Common subexpression elimination keeps a block's length and ids, and
/// changes only binary operations, each into a cast of a register to the
/// operation's own register.
pub proof fn lemma_share_changes_only_binary_ops(s: Seq<(InstructionId, Instruction)>, av: Seq<Expr>, rt: Map<u32, TypeId>)
    ensures
        shared_entries(s, av, rt).len() == s.len(),
        forall|j: int| 0 <= j < s.len() ==> (#[trigger] shared_entries(s, av, rt)[j]).0 == s[j].0,
        forall|j: int| 0 <= j < s.len() && (#[trigger] shared_entries(s, av, rt)[j]).1 != s[j].1 ==> {
            &&& s[j].1 is BinaryOp
            &&& shared_entries(s, av, rt)[j].1 matches Instruction::Cast { value: Operand::Register(_), .. }
            &&& defined_reg(shared_entries(s, av, rt)[j].1) == defined_reg(s[j].1)
        },
    decreases s.len(),
{
    if s.len() > 0 {
        let rest = s.drop_first();
        let nav = shared_state(av, s[0].1);
        lemma_share_changes_only_binary_ops(rest, nav, rt);
        let f = shared_entries(s, av, rt);
        assert forall|j: int| 0 < j < s.len() implies #[trigger] f[j] == shared_entries(rest, nav, rt)[j - 1] by {}
    }
}

/// Dead code elimination keeps every instruction with an effect, and keeps
/// only entries of the block, in their order.
pub proof fn lemma_kept_keeps_effects(s: Seq<(InstructionId, Instruction)>, live: Set<u32>)
    ensures
        forall|j: int| 0 <= j < s.len() && has_effect(#[trigger] s[j].1) ==> kept(s, live).contains(s[j]),
        forall|e: (InstructionId, Instruction)| #[trigger] kept(s, live).contains(e) ==> s.contains(e) && needed(e.1, live),
    decreases s.len(),
{
    if s.len() > 0 {
        let init = s.drop_last();
        lemma_kept_keeps_effects(init, live);
        let k = kept(s, live);
        let ki = kept(init, live);
        assert forall|j: int| 0 <= j < s.len() && has_effect(#[trigger] s[j].1) implies k.contains(s[j]) by {
            if j < s.len() - 1 {
                assert(init[j] == s[j]);
                let m = choose|m: int| 0 <= m < ki.len() && ki[m] == init[j];
                assert(k[m] == ki[m]);
            } else {
                assert(k[k.len() - 1] == s.last());
            }
        }
        assert forall|e: (InstructionId, Instruction)| #[trigger] k.contains(e) implies s.contains(e) && needed(e.1, live) by {
            let m = choose|m: int| 0 <= m < k.len() && k[m] == e;
            if m < ki.len() {
                assert(ki[m] == e);
                assert(ki.contains(e));
                let n = choose|n: int| 0 <= n < init.len() && init[n] == e;
                assert(s[n] == e);
            } else {
                assert(e == s.last());
                assert(s[s.len() - 1] == e);
            }
        }
    }
}

/// Any two sets of reachable blocks of the same blocks and entry are equal.
pub proof fn lemma_least_reach_unique(blocks: Map<u32, BasicBlock>, entry: BlockId, a: Set<u32>, b: Set<u32>)
    requires
        least_reach(blocks, entry, a),
        least_reach(blocks, entry, b),
    ensures
        a == b,
{
    assert(a.subset_of(b));
    assert(b.subset_of(a));
    assert(a =~= b);
}

/// Control flow optimisation keeps the entry block, where it exists.
pub proof fn lemma_entry_survives(nf: Function, of: Function)
    requires
        cfg_fn(nf, of),
        of.blocks@.contains_key(of.entry_block.0),
    ensures
        nf.blocks@.contains_key(nf.entry_block.0),
{
    let mid = choose|mid: Function| #[trigger] cleaned_fn(mid, of) && blocks_merged(nf, mid);
    let reach = choose|reach: Set<u32>| {
        &&& #[trigger] least_reach(of.blocks@, of.entry_block, reach)
        &&& mid.blocks@.dom() == of.blocks@.dom().intersect(reach)
    };
    assert(reach.contains(of.entry_block.0));
    assert(mid.blocks@.contains_key(mid.entry_block.0));
    let pairs = merge_candidates(mid.blocks@, mid.blocks.key_order(), mid.blocks.key_order());
    let chain = choose|chain: Seq<Map<u32, BasicBlock>>| #[trigger] merge_chain(pairs, chain, nf.blocks@, mid.blocks@, mid.entry_block);
    lemma_merge_chain_keeps_entry(pairs, chain, nf.blocks@, mid.blocks@, mid.entry_block, pairs.len() as int);
}

/// Every map along a chain of merges still holds the entry block.
proof fn lemma_merge_chain_keeps_entry(pairs: Seq<(u32, u32)>, chain: Seq<Map<u32, BasicBlock>>, mf: Map<u32, BasicBlock>, m0: Map<u32, BasicBlock>, entry: BlockId, i: int)
    requires
        merge_chain(pairs, chain, mf, m0, entry),
        m0.contains_key(entry.0),
        0 <= i <= pairs.len(),
    ensures
        chain[i].contains_key(entry.0),
    decreases i,
{
    if i > 0 {
        lemma_merge_chain_keeps_entry(pairs, chain, mf, m0, entry, i - 1);
        assert(merge_step(chain[i], chain[i - 1], entry, pairs[i - 1]));
    }
}

/// Simplification is idempotent, and leaves no conditional branch on a
/// boolean literal.
pub proof fn lemma_simplified_stable(t: Terminator)
    ensures
        simplified(simplified(t)) == simplified(t),
        !(simplified(t) matches Terminator::BranchCond { condition: Operand::Literal(Literal::Bool(_)), .. }),
{
}


// ---------------------------------------------------------------------------
// Skipping blocks that only branch on.

/// Where block `b` passes control on, if it does nothing else: it has no
/// instructions and branches without arguments.
pub open spec fn forwarding_target(b: BasicBlock) -> Option<BlockId> {
    if b.instructions@.len() == 0 {
        match b.terminator {
            Some(Terminator::Branch { target, args }) => if args@.len() == 0 { Some(target) } else { None },
            _ => None,
        }
    } else {
        None
    }
}

/// The block reached from `t` by following blocks that only branch on, at
/// most `fuel` steps.
pub open spec fn chase(blocks: Map<u32, BasicBlock>, t: BlockId, fuel: nat) -> BlockId
    decreases fuel,
{
    if fuel == 0 {
        t
    } else if blocks.contains_key(t.0) && forwarding_target(blocks[t.0]) is Some {
        chase(blocks, forwarding_target(blocks[t.0])->0, (fuel - 1) as nat)
    } else {
        t
    }
}

/// Whether terminator `nt` is `ot` with the targets of its branches chased.
pub open spec fn redirected(nt: Option<Terminator>, ot: Option<Terminator>, blocks: Map<u32, BasicBlock>, fuel: nat) -> bool {
    match ot {
        Some(Terminator::Branch { target, args }) =>
            nt == Some(Terminator::Branch { target: chase(blocks, target, fuel), args }),
        Some(Terminator::BranchCond { condition, true_target, true_args, false_target, false_args }) =>
            nt == Some(Terminator::BranchCond {
                condition,
                true_target: chase(blocks, true_target, fuel),
                true_args,
                false_target: chase(blocks, false_target, fuel),
                false_args,
            }),
        _ => nt == ot,
    }
}

/// `nf` is `of` with every branch to a block that only branches on sent,
/// within as many steps as there are blocks, to where that chain ends.
pub open spec fn merged_fn(nf: Function, of: Function) -> bool {
    &&& nf.blocks@.dom() == of.blocks@.dom()
    &&& forall|k: u32| #[trigger] of.blocks@.contains_key(k) ==> {
        &&& redirected(nf.blocks@[k].terminator, of.blocks@[k].terminator, of.blocks@, of.blocks@.dom().len())
        &&& nf.blocks@[k].instructions == of.blocks@[k].instructions
        &&& nf.blocks@[k].id == of.blocks@[k].id
        &&& nf.blocks@[k].parameters == of.blocks@[k].parameters
        &&& nf.blocks@[k].predecessors == of.blocks@[k].predecessors
    }
    &&& same_header(nf, of)
}

/// The blocks of `func` that only branch on, with their targets.
fn forwarding_pairs(func: &Function) -> (r: Vec<(u32, BlockId)>)
    ensures
        forall|k: u32, t: BlockId| r@.contains((k, t)) <==> (func.blocks@.contains_key(k) && forwarding_target(func.blocks@[k]) == Some(t)),
{
    let keys = func.blocks.keys();
    let ghost order = func.blocks.key_order();
    let mut r: Vec<(u32, BlockId)> = Vec::new();
    let mut i: usize = 0;
    while i < keys.len()
        invariant
            key_views(keys@) == order,
            order == func.blocks.key_order(),
            order.to_set() == func.blocks@.dom(),
            i <= keys@.len(),
            forall|k: u32, t: BlockId| r@.contains((k, t)) <==> (order.take(i as int).contains(k)
                && func.blocks@.contains_key(k) && forwarding_target(func.blocks@[k]) == Some(t)),
        decreases keys@.len() - i,
    {
        let k = keys[i];
        proof {
            assert(key_views(keys@)[i as int] == k.0);
            assert(order.to_set().contains(k.0));
            assert(order.take(i + 1)[i as int] == k.0);
        }
        let ghost before = r@;
        let ghost fk = forwarding_target(func.blocks@[k.0]);
        match func.blocks.get(&k) {
            Some(b) => {
                if b.instructions.len() == 0 {
                    match &b.terminator {
                        Some(Terminator::Branch { target, args }) => {
                            if args.len() == 0 {
                                r.push((k.0, *target));
                            }
                        },
                        _ => {},
                    }
                }
            },
            None => {},
        }
        proof {
            assert(r@ == (if fk is Some { before.push((k.0, fk->0)) } else { before }));
            assert forall|k2: u32, t: BlockId| r@.contains((k2, t)) <==> (order.take(i + 1).contains(k2)
                && func.blocks@.contains_key(k2) && forwarding_target(func.blocks@[k2]) == Some(t)) by {
                if order.take(i + 1).contains(k2) && k2 != k.0 {
                    let m = choose|m: int| 0 <= m < order.take(i + 1).len() && #[trigger] order.take(i + 1)[m] == k2;
                    assert(order.take(i as int)[m] == k2);
                }
                if order.take(i as int).contains(k2) {
                    let m = choose|m: int| 0 <= m < order.take(i as int).len() && #[trigger] order.take(i as int)[m] == k2;
                    assert(order.take(i + 1)[m] == k2);
                }
                assert(order.take(i + 1)[i as int] == k.0);
                if fk is Some {
                    if r@.contains((k2, t)) {
                        let m = choose|m: int| 0 <= m < r@.len() && r@[m] == (k2, t);
                        if m < before.len() {
                            assert(before[m] == (k2, t));
                        }
                    }
                    if before.contains((k2, t)) {
                        let m = choose|m: int| 0 <= m < before.len() && before[m] == (k2, t);
                        assert(r@[m] == (k2, t));
                    }
                    if k2 == k.0 && fk == Some(t) {
                        assert(r@[before.len() as int] == (k2, t));
                    }
                }
            }
        }
        i = i + 1;
    }
    proof {
        assert(order.take(keys@.len() as int) =~= order);
        assert forall|k: u32| func.blocks@.contains_key(k) implies order.contains(k) by {
            assert(order.to_set().contains(k));
        }
    }
    r
}

/// Where the pairs send block `t`, if anywhere.
fn forward_of(pairs: &Vec<(u32, BlockId)>, t: BlockId) -> (r: Option<BlockId>)
    ensures
        r matches Some(n) ==> pairs@.contains((t.0, n)),
        r is None ==> forall|n: BlockId| !pairs@.contains((t.0, n)),
{
    let mut i: usize = 0;
    while i < pairs.len()
        invariant
            i <= pairs@.len(),
            forall|j: int| 0 <= j < i ==> (#[trigger] pairs@[j]).0 != t.0,
        decreases pairs@.len() - i,
    {
        if pairs[i].0 == t.0 {
            let n = pairs[i].1;
            proof {
                assert(pairs@[i as int] == (t.0, n));
            }
            return Some(n);
        }
        i = i + 1;
    }
    None
}

/// `t` chased through the forwarding blocks, as `chase` says.
fn chase_target(pairs: &Vec<(u32, BlockId)>, Ghost(ob): Ghost<Map<u32, BasicBlock>>, t: BlockId, fuel: usize) -> (r: BlockId)
    requires
        forall|k: u32, n: BlockId| pairs@.contains((k, n)) <==> (ob.contains_key(k) && forwarding_target(ob[k]) == Some(n)),
    ensures
        r == chase(ob, t, fuel as nat),
    decreases fuel,
{
    if fuel == 0 {
        return t;
    }
    match forward_of(pairs, t) {
        Some(n) => {
            chase_target(pairs, Ghost(ob), n, fuel - 1)
        },
        None => {
            proof {
                if ob.contains_key(t.0) && forwarding_target(ob[t.0]) is Some {
                    assert(pairs@.contains((t.0, forwarding_target(ob[t.0])->0)));
                }
            }
            t
        },
    }
}

/// `t` with the targets of its branches chased.
fn redirect(t: Option<Terminator>, pairs: &Vec<(u32, BlockId)>, Ghost(ob): Ghost<Map<u32, BasicBlock>>, fuel: usize) -> (r: Option<Terminator>)
    requires
        forall|k: u32, n: BlockId| pairs@.contains((k, n)) <==> (ob.contains_key(k) && forwarding_target(ob[k]) == Some(n)),
    ensures
        redirected(r, t, ob, fuel as nat),
{
    match t {
        Some(Terminator::Branch { target, args }) => {
            let nt = chase_target(pairs, Ghost(ob), target, fuel);
            Some(Terminator::Branch { target: nt, args })
        },
        Some(Terminator::BranchCond { condition, true_target, true_args, false_target, false_args }) => {
            let nt = chase_target(pairs, Ghost(ob), true_target, fuel);
            let nf = chase_target(pairs, Ghost(ob), false_target, fuel);
            Some(Terminator::BranchCond { condition, true_target: nt, true_args, false_target: nf, false_args })
        },
        other => other,
    }
}

/// Sends every branch of `func` to a block that only branches on to where
/// that chain ends, as `merged_fn` says.
pub fn merge_empty_blocks(func: &mut Function)
    ensures
        merged_fn(*final(func), *old(func)),
        final(func).blocks.key_order() == old(func).blocks.key_order(),
{
    let pairs = forwarding_pairs(func);
    let keys = func.blocks.keys();
    let fuel = keys.len();
    let ghost order = old(func).blocks.key_order();
    let ghost ob = old(func).blocks@;
    proof {
        order.unique_seq_to_set();
        assert(key_views(keys@).len() == keys@.len());
    }
    let mut i: usize = 0;
    while i < keys.len()
        invariant
            key_views(keys@) == order,
            order == old(func).blocks.key_order(),
            order.to_set() == ob.dom(),
            order.no_duplicates(),
            fuel as nat == ob.dom().len(),
            ob == old(func).blocks@,
            forall|k: u32, n: BlockId| pairs@.contains((k, n)) <==> (ob.contains_key(k) && forwarding_target(ob[k]) == Some(n)),
            func.blocks@.dom() == ob.dom(),
            func.blocks.key_order() == order,
            same_header(*func, *old(func)),
            i <= keys@.len(),
            forall|k: u32| #[trigger] ob.contains_key(k) ==> {
                if order.take(i as int).contains(k) {
                    &&& redirected(func.blocks@[k].terminator, ob[k].terminator, ob, fuel as nat)
                    &&& func.blocks@[k].instructions == ob[k].instructions
                    &&& func.blocks@[k].id == ob[k].id
                    &&& func.blocks@[k].parameters == ob[k].parameters
                    &&& func.blocks@[k].predecessors == ob[k].predecessors
                } else {
                    func.blocks@[k] == ob[k]
                }
            },
        decreases keys@.len() - i,
    {
        let k = keys[i];
        proof {
            assert(key_views(keys@)[i as int] == k.0);
            assert(order.to_set().contains(k.0));
        }
        let taken = func.blocks.replace(k, BasicBlock::new(k));
        match taken {
            Some(mut b) => {
                let ghost ob_k = b;
                let mut t: Option<Terminator> = None;
                std::mem::swap(&mut t, &mut b.terminator);
                b.terminator = redirect(t, &pairs, Ghost(ob), fuel);
                func.blocks.replace(k, b);
                proof {
                    assert(ob_k == ob[k.0]);
                    assert forall|k2: u32| #[trigger] ob.contains_key(k2) implies {
                        if order.take(i + 1).contains(k2) {
                            &&& redirected(func.blocks@[k2].terminator, ob[k2].terminator, ob, fuel as nat)
                            &&& func.blocks@[k2].instructions == ob[k2].instructions
                            &&& func.blocks@[k2].id == ob[k2].id
                            &&& func.blocks@[k2].parameters == ob[k2].parameters
                            &&& func.blocks@[k2].predecessors == ob[k2].predecessors
                        } else {
                            func.blocks@[k2] == ob[k2]
                        }
                    } by {
                        if k2 == k.0 {
                            assert(order.take(i + 1)[i as int] == k2);
                        } else {
                            if order.take(i + 1).contains(k2) {
                                let m = choose|m: int| 0 <= m < order.take(i + 1).len() && #[trigger] order.take(i + 1)[m] == k2;
                                assert(m != i);
                                assert(order.take(i as int)[m] == k2);
                            }
                            if order.take(i as int).contains(k2) {
                                let m = choose|m: int| 0 <= m < order.take(i as int).len() && #[trigger] order.take(i as int)[m] == k2;
                                assert(order.take(i + 1)[m] == k2);
                            }
                        }
                    }
                    assert(func.blocks@.dom() =~= ob.dom());
                }
            },
            None => {
                proof {
                    assert(false);
                }
            },
        }
        i = i + 1;
    }
    proof {
        assert(order.take(keys@.len() as int) =~= order);
        assert forall|k: u32| #[trigger] ob.contains_key(k) implies order.take(keys@.len() as int).contains(k) by {
            assert(order.to_set().contains(k));
        }
    }
}

/// Removes the instructions that are not needed, then sends every branch
/// past the blocks that only branch on, as `pruned_fn` says.
pub fn run_dead_code_elimination(func: &mut Function)
    ensures
        pruned_fn(*final(func), *old(func)),
{
    remove_dead_instructions(func);
    let ghost mid = *func;
    merge_empty_blocks(func);
    proof {
        assert(instructions_pruned(mid, *old(func)));
    }
}


// ---------------------------------------------------------------------------
// Merging a block with its only successor.

/// How many times `b` occurs in `s`.
pub open spec fn occurrences(s: Seq<u32>, b: u32) -> nat
    decreases s.len(),
{
    if s.len() == 0 {
        0
    } else {
        occurrences(s.drop_last(), b) + if s.last() == b { 1nat } else { 0nat }
    }
}

/// How many times the blocks that `order` lists name `b` as a successor.
pub open spec fn pred_count(blocks: Map<u32, BasicBlock>, order: Seq<u32>, b: u32) -> nat
    decreases order.len(),
{
    if order.len() == 0 {
        0
    } else {
        pred_count(blocks, order.drop_last(), b) + occurrences(block_ids(successors(blocks[order.last()])), b)
    }
}

/// The block that `a` can be merged with: its one successor, where no other
/// branch goes there.
pub open spec fn merge_partner(blocks: Map<u32, BasicBlock>, order: Seq<u32>, a: u32) -> Option<u32> {
    let s = successors(blocks[a]);
    if s.len() == 1 && pred_count(blocks, order, s[0].0) == 1 {
        Some(s[0].0)
    } else {
        None
    }
}

/// The pairs to merge, block by block in the order `upto` lists them.
pub open spec fn merge_candidates(blocks: Map<u32, BasicBlock>, order: Seq<u32>, upto: Seq<u32>) -> Seq<(u32, u32)>
    decreases upto.len(),
{
    if upto.len() == 0 {
        seq![]
    } else {
        let rest = merge_candidates(blocks, order, upto.drop_last());
        match merge_partner(blocks, order, upto.last()) {
            Some(b) => rest.push((upto.last(), b)),
            None => rest,
        }
    }
}

/// Whether `b` can be merged into `a` now: both are there, `a` branches to
/// `b` without arguments, `b` takes no parameters and is not the entry.
pub open spec fn can_merge(m: Map<u32, BasicBlock>, entry: BlockId, a: u32, b: u32) -> bool {
    &&& a != b
    &&& b != entry.0
    &&& m.contains_key(a)
    &&& m.contains_key(b)
    &&& m[a].terminator matches Some(Terminator::Branch { target, args }) && target.0 == b && args@.len() == 0
    &&& m[b].parameters@.len() == 0
}

/// `m2` is `m1` with `b` appended to `a`: `a` gets the instructions of `b`
/// after its own and the terminator of `b`, and `b` is gone.
pub open spec fn merge_rel(m2: Map<u32, BasicBlock>, m1: Map<u32, BasicBlock>, a: u32, b: u32) -> bool {
    &&& m2.dom() == m1.dom().remove(b)
    &&& m2[a].instructions@ == m1[a].instructions@ + m1[b].instructions@
    &&& m2[a].terminator == m1[b].terminator
    &&& m2[a].id == m1[a].id
    &&& m2[a].parameters == m1[a].parameters
    &&& m2[a].predecessors == m1[a].predecessors
    &&& forall|k: u32| #[trigger] m2.contains_key(k) && k != a ==> m2[k] == m1[k]
}

/// One merge: done where it can be, else nothing changes.
pub open spec fn merge_step(m2: Map<u32, BasicBlock>, m1: Map<u32, BasicBlock>, entry: BlockId, pair: (u32, u32)) -> bool {
    if can_merge(m1, entry, pair.0, pair.1) {
        merge_rel(m2, m1, pair.0, pair.1)
    } else {
        m2 == m1
    }
}

/// `chain` runs from `m0` to `mf`, one merge of `pairs` at a time.
pub open spec fn merge_chain(pairs: Seq<(u32, u32)>, chain: Seq<Map<u32, BasicBlock>>, mf: Map<u32, BasicBlock>, m0: Map<u32, BasicBlock>, entry: BlockId) -> bool {
    &&& chain.len() == pairs.len() + 1
    &&& chain[0] == m0
    &&& chain.last() == mf
    &&& forall|i: int| 0 <= i < pairs.len() ==> merge_step(chain[i + 1], #[trigger] chain[i], entry, pairs[i])
}

/// `nf` is `of` with each block merged with its only successor where that
/// successor has no other predecessor, the pairs taken from `of` in key order.
pub open spec fn blocks_merged(nf: Function, of: Function) -> bool {
    &&& exists|chain: Seq<Map<u32, BasicBlock>>| #[trigger] merge_chain(
        merge_candidates(of.blocks@, of.blocks.key_order(), of.blocks.key_order()), chain, nf.blocks@, of.blocks@, of.entry_block)
    &&& same_header(nf, of)
}

/// How many times `b` occurs among `ids`.
fn count_in(ids: &Vec<BlockId>, b: u32) -> (r: usize)
    ensures
        r == occurrences(block_ids(ids@), b),
{
    let mut c: usize = 0;
    let mut i: usize = 0;
    while i < ids.len()
        invariant
            i <= ids@.len(),
            c <= i,
            c == occurrences(block_ids(ids@.take(i as int)), b),
        decreases ids@.len() - i,
    {
        proof {
            assert(block_ids(ids@.take(i + 1)).drop_last() =~= block_ids(ids@.take(i as int)));
        }
        if ids[i].0 == b {
            c = c + 1;
        }
        i = i + 1;
    }
    proof {
        assert(ids@.take(ids@.len() as int) =~= ids@);
    }
    c
}

/// Whether exactly one branch of the blocks of `func` goes to `b`.
fn single_predecessor(func: &Function, keys: &Vec<BlockId>, b: u32) -> (r: bool)
    requires
        forall|j: int| 0 <= j < keys@.len() ==> func.blocks@.contains_key(#[trigger] keys@[j].0),
    ensures
        r == (pred_count(func.blocks@, key_views(keys@), b) == 1),
{
    let ghost order = key_views(keys@);
    let mut c: usize = 0;
    let mut i: usize = 0;
    while i < keys.len()
        invariant
            order == key_views(keys@),
            forall|j: int| 0 <= j < keys@.len() ==> func.blocks@.contains_key(#[trigger] keys@[j].0),
            i <= keys@.len(),
            c <= 2,
            c == (if pred_count(func.blocks@, order.take(i as int), b) >= 2 { 2 } else { pred_count(func.blocks@, order.take(i as int), b) }),
        decreases keys@.len() - i,
    {
        let k = keys[i];
        proof {
            assert(order.take(i + 1).drop_last() =~= order.take(i as int));
            assert(order.take(i + 1).last() == k.0);
            assert(func.blocks@.contains_key(keys@[i as int].0));
        }
        let n = match func.blocks.get(&k) {
            Some(blk) => match &blk.terminator {
                Some(t) => {
                    let succ = terminator_successors(t);
                    count_in(&succ, b)
                },
                None => {
                    proof {
                        assert(block_ids(successors(func.blocks@[k.0])) =~= Seq::<u32>::empty());
                    }
                    0
                },
            },
            None => 0,
        };
        if n >= 2 || c + n >= 2 {
            c = 2;
        } else {
            c = c + n;
        }
        i = i + 1;
    }
    proof {
        assert(order.take(keys@.len() as int) =~= order);
    }
    c == 1
}

/// The pairs to merge in `func`, as `merge_candidates` says.
fn merge_candidates_of(func: &Function) -> (r: Vec<(u32, u32)>)
    ensures
        r@ == merge_candidates(func.blocks@, func.blocks.key_order(), func.blocks.key_order()),
{
    let keys = func.blocks.keys();
    let ghost order = func.blocks.key_order();
    proof {
        assert forall|j: int| 0 <= j < keys@.len() implies func.blocks@.contains_key(#[trigger] keys@[j].0) by {
            assert(key_views(keys@)[j] == keys@[j].0);
            assert(order.to_set().contains(order[j]));
        }
    }
    let mut r: Vec<(u32, u32)> = Vec::new();
    let mut i: usize = 0;
    while i < keys.len()
        invariant
            key_views(keys@) == order,
            order == func.blocks.key_order(),
            forall|j: int| 0 <= j < keys@.len() ==> func.blocks@.contains_key(#[trigger] keys@[j].0),
            i <= keys@.len(),
            r@ == merge_candidates(func.blocks@, order, order.take(i as int)),
        decreases keys@.len() - i,
    {
        let k = keys[i];
        proof {
            assert(order.take(i + 1).drop_last() =~= order.take(i as int));
            assert(order.take(i + 1).last() == k.0);
            assert(func.blocks@.contains_key(keys@[i as int].0));
        }
        match func.blocks.get(&k) {
            Some(blk) => match &blk.terminator {
                Some(t) => {
                    let succ = terminator_successors(t);
                    if succ.len() == 1 {
                        let target = succ[0].0;
                        if single_predecessor(func, &keys, target) {
                            r.push((k.0, target));
                        }
                    }
                },
                None => {},
            },
            None => {},
        }
        i = i + 1;
    }
    proof {
        assert(order.take(keys@.len() as int) =~= order);
    }
    r
}

/// Merges `b` into `a` where it can, as `merge_step` says.
fn merge_pair(func: &mut Function, a: u32, b: u32)
    ensures
        merge_step(final(func).blocks@, old(func).blocks@, old(func).entry_block, (a, b)),
        same_header(*final(func), *old(func)),
{
    if a == b || b == func.entry_block.0 {
        return;
    }
    let ok = match func.blocks.get(&BlockId(a)) {
        Some(ba) => match &ba.terminator {
            Some(Terminator::Branch { target, args }) => target.0 == b && args.len() == 0,
            _ => false,
        },
        None => false,
    };
    if !ok {
        return;
    }
    let okb = match func.blocks.get(&BlockId(b)) {
        Some(bb) => bb.parameters.len() == 0,
        None => false,
    };
    if !okb {
        return;
    }
    let ghost m1 = func.blocks@;
    let taken_b = func.blocks.replace(BlockId(b), BasicBlock::new(BlockId(b)));
    func.blocks.remove(&BlockId(b));
    let taken_a = func.blocks.replace(BlockId(a), BasicBlock::new(BlockId(a)));
    match (taken_a, taken_b) {
        (Some(mut ba), Some(mut bb)) => {
            proof {
                assert(ba == m1[a] && bb == m1[b]);
            }
            ba.instructions.append(&mut bb.instructions);
            let mut t: Option<Terminator> = None;
            std::mem::swap(&mut t, &mut bb.terminator);
            ba.terminator = t;
            func.blocks.replace(BlockId(a), ba);
            proof {
                assert(func.blocks@.dom() =~= m1.dom().remove(b));
            }
        },
        _ => {
            proof {
                assert(false);
            }
        },
    }
}

/// Merges each block with its only successor where that successor has no
/// other predecessor, as `blocks_merged` says.
pub fn merge_blocks(func: &mut Function)
    ensures
        blocks_merged(*final(func), *old(func)),
{
    let pairs = merge_candidates_of(func);
    let ghost entry = func.entry_block;
    let ghost mut chain: Seq<Map<u32, BasicBlock>> = seq![func.blocks@];
    let mut i: usize = 0;
    while i < pairs.len()
        invariant
            entry == old(func).entry_block,
            same_header(*func, *old(func)),
            i <= pairs@.len(),
            merge_chain(pairs@.take(i as int), chain, func.blocks@, old(func).blocks@, entry),
        decreases pairs@.len() - i,
    {
        let (a, b) = pairs[i];
        let ghost before = func.blocks@;
        merge_pair(func, a, b);
        proof {
            let prev = chain;
            chain = chain.push(func.blocks@);
            assert forall|j: int| 0 <= j < pairs@.take(i + 1).len() implies
                merge_step(chain[j + 1], #[trigger] chain[j], entry, pairs@.take(i + 1)[j]) by {
                if j < i {
                    assert(chain[j] == prev[j] && chain[j + 1] == prev[j + 1]);
                    assert(pairs@.take(i + 1)[j] == pairs@.take(i as int)[j]);
                    assert(merge_step(prev[j + 1], prev[j], entry, pairs@.take(i as int)[j]));
                } else {
                    assert(chain[j] == before);
                }
            }
        }
        i = i + 1;
    }
    proof {
        assert(pairs@.take(pairs@.len() as int) =~= pairs@);
        assert(merge_chain(merge_candidates(old(func).blocks@, old(func).blocks.key_order(), old(func).blocks.key_order()),
            chain, func.blocks@, old(func).blocks@, old(func).entry_block));
    }
}

/// Every map along a chain of merges has only blocks that the first had.
proof fn lemma_merge_chain_shrinks(pairs: Seq<(u32, u32)>, chain: Seq<Map<u32, BasicBlock>>, mf: Map<u32, BasicBlock>, m0: Map<u32, BasicBlock>, entry: BlockId, i: int)
    requires
        merge_chain(pairs, chain, mf, m0, entry),
        0 <= i <= pairs.len(),
    ensures
        chain[i].dom().subset_of(m0.dom()),
    decreases i,
{
    if i > 0 {
        lemma_merge_chain_shrinks(pairs, chain, mf, m0, entry, i - 1);
        assert(merge_step(chain[i], chain[i - 1], entry, pairs[i - 1]));
    }
}

/// Merging blocks adds no block: every block of the result was a block before.
pub proof fn lemma_merge_adds_no_block(nf: Function, of: Function)
    requires
        blocks_merged(nf, of),
    ensures
        nf.blocks@.dom().subset_of(of.blocks@.dom()),
{
    let pairs = merge_candidates(of.blocks@, of.blocks.key_order(), of.blocks.key_order());
    let chain = choose|chain: Seq<Map<u32, BasicBlock>>| #[trigger] merge_chain(pairs, chain, nf.blocks@, of.blocks@, of.entry_block);
    lemma_merge_chain_shrinks(pairs, chain, nf.blocks@, of.blocks@, of.entry_block, pairs.len() as int);
}

} // verus!
