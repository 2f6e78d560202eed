use vstd::prelude::*;

use crate::assoc::{AssocMap, MapKey, entries_map, keys_unique, lemma_entries_map_at, lemma_entries_map_dom};
use crate::symbol::SymbolId;
use crate::types::{Type, TypeId};
use crate::util::{decimal, push_decimal, str_eq, string_of};

verus! {

/// Identifier of a function.
#[derive(Debug, Clone, Copy, PartialEq, Eq, Hash, Structural)]
pub struct FunctionId(pub u32);

/// Identifier of a basic block.
#[derive(Debug, Clone, Copy, PartialEq, Eq, Hash, Structural)]
pub struct BlockId(pub u32);

/// Identifier of an instruction.
#[derive(Debug, Clone, Copy, PartialEq, Eq, Hash, Structural)]
pub struct InstructionId(pub u32);

/// Identifier of a register.
#[derive(Debug, Clone, Copy, PartialEq, Eq, Hash, Structural)]
pub struct RegisterId(pub u32);

impl FunctionId {
    /// Display form, `func_n`.
    pub fn to_string(&self) -> (r: String)
        ensures
            r@ == "func_"@ + decimal(self.0 as nat),
    {
        let mut s = string_of("func_");
        push_decimal(&mut s, self.0 as usize);
        s
    }
}

impl BlockId {
    /// Display form, `block_n`.
    pub fn to_string(&self) -> (r: String)
        ensures
            r@ == "block_"@ + decimal(self.0 as nat),
    {
        let mut s = string_of("block_");
        push_decimal(&mut s, self.0 as usize);
        s
    }
}

impl InstructionId {
    /// Display form, `instr_n`.
    pub fn to_string(&self) -> (r: String)
        ensures
            r@ == "instr_"@ + decimal(self.0 as nat),
    {
        let mut s = string_of("instr_");
        push_decimal(&mut s, self.0 as usize);
        s
    }
}

impl RegisterId {
    /// Display form, `%n`.
    pub fn to_string(&self) -> (r: String)
        ensures
            r@ == "%"@ + decimal(self.0 as nat),
    {
        let mut s = string_of("%");
        push_decimal(&mut s, self.0 as usize);
        s
    }
}

impl MapKey for FunctionId {
    type KV = u32;

    open spec fn key_view(&self) -> u32 {
        self.0
    }

    fn key_eq(&self, other: &Self) -> (r: bool) {
        self.0 == other.0
    }

    fn key_clone(&self) -> (r: Self) {
        *self
    }
}

impl MapKey for BlockId {
    type KV = u32;

    open spec fn key_view(&self) -> u32 {
        self.0
    }

    fn key_eq(&self, other: &Self) -> (r: bool) {
        self.0 == other.0
    }

    fn key_clone(&self) -> (r: Self) {
        *self
    }
}

impl MapKey for RegisterId {
    type KV = u32;

    open spec fn key_view(&self) -> u32 {
        self.0
    }

    fn key_eq(&self, other: &Self) -> (r: bool) {
        self.0 == other.0
    }

    fn key_clone(&self) -> (r: Self) {
        *self
    }
}

/// A literal value. A float is held as the bits of its IEEE 754 double.
#[derive(Debug, Clone, PartialEq, Eq)]
pub enum Literal {
    Int(i64),
    Float(u64),
    Bool(bool),
    Char(u32),
    String(String),
    Unit,
}

/// An instruction operand.
#[derive(Debug, Clone, PartialEq, Eq)]
pub enum Operand {
    Register(RegisterId),
    Literal(Literal),
    Global(String),
    Function(FunctionId),
    ExternalFunction(String),
    Symbol(SymbolId),
    Block(BlockId),
}

/// Binary operator.
#[derive(Debug, Clone, Copy, PartialEq, Eq, Structural)]
pub enum BinaryOp {
    Add,
    Sub,
    Mul,
    Div,
    Rem,
    BitAnd,
    BitOr,
    BitXor,
    Shl,
    Shr,
    Eq,
    Ne,
    Lt,
    Le,
    Gt,
    Ge,
    And,
    Or,
}

/// Unary operator.
#[derive(Debug, Clone, Copy, PartialEq, Eq, Structural)]
pub enum UnaryOp {
    Neg,
    Not,
    BitNot,
    Cast,
}

/// Atomic operation.
#[derive(Debug, Clone, Copy, PartialEq, Eq, Structural)]
pub enum AtomicOp {
    Load,
    Store,
    CAS,
    Add,
    Sub,
    And,
    Or,
    Xor,
}

/// The last instruction of a block.
#[derive(Debug, Clone, PartialEq, Eq)]
pub enum Terminator {
    Branch { target: BlockId, args: Vec<Operand> },
    BranchCond {
        condition: Operand,
        true_target: BlockId,
        true_args: Vec<Operand>,
        false_target: BlockId,
        false_args: Vec<Operand>,
    },
    Return { value: Option<Operand> },
    Switch {
        value: Operand,
        default_target: BlockId,
        default_args: Vec<Operand>,
        cases: Vec<(Literal, BlockId, Vec<Operand>)>,
    },
    IndirectCall { function_ptr: Operand, arguments: Vec<Operand>, return_block: BlockId, return_args: Vec<Operand> },
    Unreachable,
}

/// An instruction.
#[derive(Debug, Clone, PartialEq, Eq)]
pub enum Instruction {
    BinaryOp { op: BinaryOp, lhs: Operand, rhs: Operand, result: RegisterId },
    UnaryOp { op: UnaryOp, operand: Operand, result: RegisterId },
    Load { address: Operand, result: RegisterId },
    Store { address: Operand, value: Operand },
    Call { function: String, arguments: Vec<Operand>, result: Option<RegisterId> },
    Return { value: Option<Operand> },
    Branch { target: BlockId },
    BranchCond { condition: Operand, true_target: BlockId, false_target: BlockId },
    Alloca { size: usize, result: RegisterId },
    GetElementPtr { base: Operand, indices: Vec<Operand>, result: RegisterId },
    Cast { value: Operand, target_type: TypeId, result: RegisterId },
    Phi { incoming: Vec<(Operand, BlockId)>, result: RegisterId },
    Select { condition: Operand, true_value: Operand, false_value: Operand, result: RegisterId },
    Atomic { op: AtomicOp, address: Operand, value: Option<Operand>, result: Option<RegisterId> },
    ExternalCall { function: String, arguments: Vec<Operand>, result: Option<RegisterId> },
    InlineAsm { template: String, constraints: String, args: Vec<Operand>, result: Option<RegisterId> },
    DebugInfo { info: String },
}

/// The register an instruction defines, if any.
pub open spec fn defined_reg(i: Instruction) -> Option<RegisterId> {
    match i {
        Instruction::BinaryOp { result, .. } => Some(result),
        Instruction::UnaryOp { result, .. } => Some(result),
        Instruction::Load { result, .. } => Some(result),
        Instruction::Call { result, .. } => result,
        Instruction::Alloca { result, .. } => Some(result),
        Instruction::GetElementPtr { result, .. } => Some(result),
        Instruction::Cast { result, .. } => Some(result),
        Instruction::Phi { result, .. } => Some(result),
        Instruction::Select { result, .. } => Some(result),
        Instruction::Atomic { result, .. } => result,
        Instruction::ExternalCall { result, .. } => result,
        Instruction::InlineAsm { result, .. } => result,
        _ => None,
    }
}

/// The register an operand reads, as a sequence of zero or one registers.
pub open spec fn operand_regs(o: Operand) -> Seq<RegisterId> {
    match o {
        Operand::Register(r) => seq![r],
        _ => seq![],
    }
}

/// The registers a list of operands reads, in order.
pub open spec fn operands_regs(s: Seq<Operand>) -> Seq<RegisterId>
    decreases s.len(),
{
    if s.len() == 0 { seq![] } else { operands_regs(s.drop_last()) + operand_regs(s.last()) }
}

/// The registers the incoming values of a phi read, in order.
pub open spec fn incoming_regs(s: Seq<(Operand, BlockId)>) -> Seq<RegisterId>
    decreases s.len(),
{
    if s.len() == 0 { seq![] } else { incoming_regs(s.drop_last()) + operand_regs(s.last().0) }
}

/// The registers an instruction reads, in operand order, one entry per operand.
pub open spec fn used_regs(i: Instruction) -> Seq<RegisterId> {
    match i {
        Instruction::BinaryOp { lhs, rhs, .. } => operand_regs(lhs) + operand_regs(rhs),
        Instruction::UnaryOp { operand, .. } => operand_regs(operand),
        Instruction::Load { address, .. } => operand_regs(address),
        Instruction::Store { address, value } => operand_regs(address) + operand_regs(value),
        Instruction::Call { arguments, .. } => operands_regs(arguments@),
        Instruction::Return { value } => match value { Some(v) => operand_regs(v), None => seq![] },
        Instruction::BranchCond { condition, .. } => operand_regs(condition),
        Instruction::GetElementPtr { base, indices, .. } => operand_regs(base) + operands_regs(indices@),
        Instruction::Cast { value, .. } => operand_regs(value),
        Instruction::Phi { incoming, .. } => incoming_regs(incoming@),
        Instruction::Select { condition, true_value, false_value, .. } =>
            operand_regs(condition) + operand_regs(true_value) + operand_regs(false_value),
        Instruction::Atomic { address, value, .. } => operand_regs(address) + match value {
            Some(v) => operand_regs(v),
            None => seq![],
        },
        Instruction::ExternalCall { arguments, .. } => operands_regs(arguments@),
        Instruction::InlineAsm { args, .. } => operands_regs(args@),
        _ => seq![],
    }
}

pub(crate) fn extract_registers(op: &Operand, regs: &mut Vec<RegisterId>)
    ensures
        final(regs)@ == old(regs)@ + operand_regs(*op),
{
    if let Operand::Register(reg) = op {
        regs.push(*reg);
    }
    proof {
        assert(regs@ =~= old(regs)@ + operand_regs(*op));
    }
}

pub(crate) fn extract_all(ops: &Vec<Operand>, regs: &mut Vec<RegisterId>)
    ensures
        final(regs)@ == old(regs)@ + operands_regs(ops@),
{
    let mut i: usize = 0;
    while i < ops.len()
        invariant
            i <= ops@.len(),
            regs@ == old(regs)@ + operands_regs(ops@.subrange(0, i as int)),
        decreases ops@.len() - i,
    {
        extract_registers(&ops[i], regs);
        proof {
            let s = ops@.subrange(0, i + 1);
            assert(s.drop_last() =~= ops@.subrange(0, i as int));
            assert(regs@ =~= old(regs)@ + operands_regs(s));
        }
        i = i + 1;
    }
    proof {
        assert(ops@.subrange(0, i as int) =~= ops@);
    }
}

impl Instruction {
    /// The register this instruction defines, if any.
    pub fn defined_register(&self) -> (r: Option<RegisterId>)
        ensures
            r == defined_reg(*self),
    {
        match self {
            Self::BinaryOp { result, .. } => Some(*result),
            Self::UnaryOp { result, .. } => Some(*result),
            Self::Load { result, .. } => Some(*result),
            Self::Call { result, .. } => *result,
            Self::Alloca { result, .. } => Some(*result),
            Self::GetElementPtr { result, .. } => Some(*result),
            Self::Cast { result, .. } => Some(*result),
            Self::Phi { result, .. } => Some(*result),
            Self::Select { result, .. } => Some(*result),
            Self::Atomic { result, .. } => *result,
            Self::ExternalCall { result, .. } => *result,
            Self::InlineAsm { result, .. } => *result,
            _ => None,
        }
    }

    /// The registers this instruction reads, in operand order.
    pub fn used_registers(&self) -> (r: Vec<RegisterId>)
        ensures
            r@ == used_regs(*self),
    {
        let mut registers: Vec<RegisterId> = Vec::new();
        match self {
            Self::BinaryOp { lhs, rhs, .. } => {
                extract_registers(lhs, &mut registers);
                extract_registers(rhs, &mut registers);
            },
            Self::UnaryOp { operand, .. } => {
                extract_registers(operand, &mut registers);
            },
            Self::Load { address, .. } => {
                extract_registers(address, &mut registers);
            },
            Self::Store { address, value } => {
                extract_registers(address, &mut registers);
                extract_registers(value, &mut registers);
            },
            Self::Call { arguments, .. } => {
                extract_all(arguments, &mut registers);
            },
            Self::Return { value } => {
                if let Some(val) = value {
                    extract_registers(val, &mut registers);
                }
            },
            Self::BranchCond { condition, .. } => {
                extract_registers(condition, &mut registers);
            },
            Self::GetElementPtr { base, indices, .. } => {
                extract_registers(base, &mut registers);
                extract_all(indices, &mut registers);
            },
            Self::Cast { value, .. } => {
                extract_registers(value, &mut registers);
            },
            Self::Phi { incoming, .. } => {
                let mut i: usize = 0;
                while i < incoming.len()
                    invariant
                        i <= incoming@.len(),
                        registers@ == incoming_regs(incoming@.subrange(0, i as int)),
                    decreases incoming@.len() - i,
                {
                    extract_registers(&incoming[i].0, &mut registers);
                    proof {
                        let s = incoming@.subrange(0, i + 1);
                        assert(s.drop_last() =~= incoming@.subrange(0, i as int));
                    }
                    i = i + 1;
                }
                proof {
                    assert(incoming@.subrange(0, i as int) =~= incoming@);
                }
            },
            Self::Select { condition, true_value, false_value, .. } => {
                extract_registers(condition, &mut registers);
                extract_registers(true_value, &mut registers);
                extract_registers(false_value, &mut registers);
            },
            Self::Atomic { address, value, .. } => {
                extract_registers(address, &mut registers);
                if let Some(val) = value {
                    extract_registers(val, &mut registers);
                }
            },
            Self::ExternalCall { arguments, .. } => {
                extract_all(arguments, &mut registers);
            },
            Self::InlineAsm { args, .. } => {
                extract_all(args, &mut registers);
            },
            _ => {},
        }
        proof {
            assert(registers@ =~= used_regs(*self));
        }
        registers
    }
}

/// A basic block.
#[derive(Debug, Clone, PartialEq, Eq)]
pub struct BasicBlock {
    pub id: BlockId,
    pub instructions: Vec<(InstructionId, Instruction)>,
    pub terminator: Option<Terminator>,
    pub parameters: Vec<(RegisterId, TypeId)>,
    pub predecessors: Vec<BlockId>,
}

impl BasicBlock {
    /// An empty block.
    pub fn new(id: BlockId) -> (b: Self)
        ensures
            b.id == id,
            b.instructions@.len() == 0,
            b.terminator is None,
            b.parameters@.len() == 0,
            b.predecessors@.len() == 0,
    {
        Self { id, instructions: Vec::new(), terminator: None, parameters: Vec::new(), predecessors: Vec::new() }
    }

    /// Sets the terminator.
    pub fn set_terminator(&mut self, terminator: Terminator)
        ensures
            final(self).terminator == Some(terminator),
            final(self).id == old(self).id,
            final(self).instructions == old(self).instructions,
            final(self).parameters == old(self).parameters,
            final(self).predecessors == old(self).predecessors,
    {
        self.terminator = Some(terminator);
    }

    /// Appends a block parameter.
    pub fn add_parameter(&mut self, register: RegisterId, type_id: TypeId)
        ensures
            final(self).parameters@ == old(self).parameters@.push((register, type_id)),
            final(self).id == old(self).id,
            final(self).instructions == old(self).instructions,
            final(self).terminator == old(self).terminator,
            final(self).predecessors == old(self).predecessors,
    {
        self.parameters.push((register, type_id));
    }

    /// Records a predecessor unless it is already recorded.
    pub fn add_predecessor(&mut self, block_id: BlockId)
        ensures
            old(self).predecessors@.contains(block_id) ==> final(self).predecessors@ == old(self).predecessors@,
            !old(self).predecessors@.contains(block_id) ==> final(self).predecessors@ == old(self).predecessors@.push(block_id),
            final(self).id == old(self).id,
            final(self).instructions == old(self).instructions,
            final(self).terminator == old(self).terminator,
            final(self).parameters == old(self).parameters,
    {
        let mut i: usize = 0;
        while i < self.predecessors.len()
            invariant
                i <= self.predecessors@.len(),
                forall|j: int| 0 <= j < i ==> self.predecessors@[j] != block_id,
            decreases self.predecessors@.len() - i,
        {
            if self.predecessors[i] == block_id {
                proof {
                    assert(self.predecessors@[i as int] == block_id);
                }
                return;
            }
            i = i + 1;
        }
        self.predecessors.push(block_id);
    }
}

/// Linkage of a global.
#[derive(Debug, Clone, Copy, PartialEq, Eq, Structural)]
pub enum Linkage {
    Default,
    External,
    Internal,
    Weak,
    Private,
}

/// Attributes of a global.
#[derive(Debug, Clone, Copy, PartialEq, Eq, Default, Structural)]
pub struct GlobalAttributes {
    pub is_constant: bool,
    pub is_thread_local: bool,
    pub is_addressable: bool,
    pub is_externally_visible: bool,
}

/// A global variable.
#[derive(Debug, Clone, PartialEq, Eq)]
pub struct Global {
    pub name: String,
    pub ty: TypeId,
    pub initializer: Option<Literal>,
    pub linkage: Linkage,
    pub alignment: Option<usize>,
    pub attributes: GlobalAttributes,
}

/// Inlining directive.
#[derive(Debug, Clone, Copy, PartialEq, Eq, Structural)]
pub enum InlineDirective {
    Default,
    Always,
    Never,
    Hint,
}

impl Default for InlineDirective {
    fn default() -> (r: Self)
        ensures
            r == InlineDirective::Default,
    {
        InlineDirective::Default
    }
}

/// Attributes of a function; `tags` holds each tag once.
#[derive(Debug)]
pub struct FunctionAttributes {
    pub inline: InlineDirective,
    pub noreturn: bool,
    pub pure: bool,
    pub no_side_effects: bool,
    pub tags: AssocMap<String, ()>,
}

impl FunctionAttributes {
    /// Default inlining, no flags, no tags.
    pub fn new() -> (a: Self)
        ensures
            a.inline == InlineDirective::Default,
            !a.noreturn,
            !a.pure,
            !a.no_side_effects,
            a.tags@ == Map::<Seq<char>, ()>::empty(),
    {
        FunctionAttributes { inline: InlineDirective::Default, noreturn: false, pure: false, no_side_effects: false, tags: AssocMap::new() }
    }
}

/// Calling convention of an external function.
#[derive(Debug, Clone, Copy, PartialEq, Eq, Structural)]
pub enum CallingConvention {
    Default,
    C,
    FastCall,
    SystemV,
    Win64,
}

impl Default for CallingConvention {
    fn default() -> (r: Self)
        ensures
            r == CallingConvention::Default,
    {
        CallingConvention::Default
    }
}

/// An external function declaration.
#[derive(Debug, Clone, PartialEq, Eq)]
pub struct ExternalFunction {
    pub name: String,
    pub function_type: TypeId,
    pub parameter_types: Vec<TypeId>,
    pub return_type: TypeId,
    pub calling_convention: CallingConvention,
    pub is_variadic: bool,
}

fn copy_locations(v: &Vec<(BlockId, InstructionId)>) -> (r: Vec<(BlockId, InstructionId)>)
    ensures
        r@ == v@,
{
    let mut r: Vec<(BlockId, InstructionId)> = Vec::new();
    let mut i: usize = 0;
    while i < v.len()
        invariant
            i <= v@.len(),
            r@ == v@.subrange(0, i as int),
        decreases v@.len() - i,
    {
        r.push(v[i]);
        proof {
            assert(r@ =~= v@.subrange(0, i + 1));
        }
        i = i + 1;
    }
    proof {
        assert(v@.subrange(0, i as int) =~= v@);
    }
    r
}

/// Where registers are defined and used in a function.
#[derive(Debug)]
pub struct FunctionUseGraph {
    pub register_defs: AssocMap<RegisterId, (BlockId, InstructionId)>,
    pub register_uses: AssocMap<RegisterId, Vec<(BlockId, InstructionId)>>,
}

impl FunctionUseGraph {
    /// An empty graph.
    pub fn new() -> (g: Self)
        ensures
            g.register_defs@ == Map::<u32, (BlockId, InstructionId)>::empty(),
            g.register_uses@ == Map::<u32, Vec<(BlockId, InstructionId)>>::empty(),
    {
        Self { register_defs: AssocMap::new(), register_uses: AssocMap::new() }
    }

    /// How many times `reg` is read.
    pub fn get_use_count(&self, reg: RegisterId) -> (r: usize)
        ensures
            self.register_uses@.contains_key(reg.0) ==> r == self.register_uses@[reg.0]@.len(),
            !self.register_uses@.contains_key(reg.0) ==> r == 0,
    {
        match self.register_uses.get(&reg) {
            Some(uses) => uses.len(),
            None => 0,
        }
    }

    /// Where `reg` is defined.
    pub fn get_def_location(&self, reg: RegisterId) -> (r: Option<(BlockId, InstructionId)>)
        ensures
            self.register_defs@.contains_key(reg.0) ==> r == Some(self.register_defs@[reg.0]),
            !self.register_defs@.contains_key(reg.0) ==> r is None,
    {
        match self.register_defs.get(&reg) {
            Some(loc) => Some(*loc),
            None => None,
        }
    }

    /// Where `reg` is read, in order.
    pub fn get_use_locations(&self, reg: RegisterId) -> (r: Vec<(BlockId, InstructionId)>)
        ensures
            self.register_uses@.contains_key(reg.0) ==> r@ == self.register_uses@[reg.0]@,
            !self.register_uses@.contains_key(reg.0) ==> r@.len() == 0,
    {
        match self.register_uses.get(&reg) {
            Some(uses) => copy_locations(uses),
            None => Vec::new(),
        }
    }
}


/// Whether `b` is an empty block with the given id.
pub open spec fn is_empty_block(b: BasicBlock, id: BlockId) -> bool {
    &&& b.id == id
    &&& b.instructions@.len() == 0
    &&& b.terminator is None
    &&& b.parameters@.len() == 0
    &&& b.predecessors@.len() == 0
}

/// A scanned instruction: its block, its id and the instruction.
pub type ScanItem = (BlockId, InstructionId, Instruction);

/// The instructions of one block as scan items, in order.
pub open spec fn block_items(bid: BlockId, instrs: Seq<(InstructionId, Instruction)>) -> Seq<ScanItem> {
    instrs.map_values(|p: (InstructionId, Instruction)| (bid, p.0, p.1))
}

/// The instructions of a list of blocks, block after block, each in order.
pub open spec fn scan_items(blocks: Seq<(BlockId, BasicBlock)>) -> Seq<ScanItem>
    decreases blocks.len(),
{
    if blocks.len() == 0 {
        seq![]
    } else {
        scan_items(blocks.drop_last()) + block_items(blocks.last().0, blocks.last().1.instructions@)
    }
}

/// Where each register is defined: the last definition in scan order wins.
pub open spec fn defs_of(items: Seq<ScanItem>) -> Map<u32, (BlockId, InstructionId)>
    decreases items.len(),
{
    if items.len() == 0 {
        Map::empty()
    } else {
        let m = defs_of(items.drop_last());
        let it = items.last();
        match defined_reg(it.2) {
            Some(r) => m.insert(r.0, (it.0, it.1)),
            None => m,
        }
    }
}

/// The location `loc`, once for each entry of `regs` that is register `reg`.
pub open spec fn reg_locs(regs: Seq<RegisterId>, reg: u32, loc: (BlockId, InstructionId)) -> Seq<(BlockId, InstructionId)>
    decreases regs.len(),
{
    if regs.len() == 0 {
        seq![]
    } else {
        reg_locs(regs.drop_last(), reg, loc) + if regs.last().0 == reg { seq![loc] } else { seq![] }
    }
}

/// Where register `reg` is read, once per reading operand, in scan order.
pub open spec fn uses_of(items: Seq<ScanItem>, reg: u32) -> Seq<(BlockId, InstructionId)>
    decreases items.len(),
{
    if items.len() == 0 {
        seq![]
    } else {
        let it = items.last();
        uses_of(items.drop_last(), reg) + reg_locs(used_regs(it.2), reg, (it.0, it.1))
    }
}

/// An EIR function.
#[derive(Debug)]
pub struct Function {
    pub id: FunctionId,
    pub name: String,
    pub function_type: TypeId,
    pub parameters: Vec<(String, TypeId)>,
    pub return_type: TypeId,
    pub blocks: AssocMap<BlockId, BasicBlock>,
    pub entry_block: BlockId,
    pub next_block_id: u32,
    pub next_register_id: u32,
    pub next_instruction_id: u32,
    pub register_types: AssocMap<RegisterId, TypeId>,
    pub attributes: FunctionAttributes,
}

impl Function {
    /// A function with an empty entry block `block_0`, no parameters and no registers.
    pub fn new(id: FunctionId, name: &str, function_type: TypeId, return_type: TypeId) -> (f: Self)
        ensures
            f.id == id,
            f.name@ == name@,
            f.function_type == function_type,
            f.return_type == return_type,
            f.parameters@.len() == 0,
            f.entry_block == BlockId(0),
            f.blocks@.dom() == set![0u32],
            is_empty_block(f.blocks@[0u32], BlockId(0)),
            f.blocks.key_order() == seq![0u32],
            f.next_block_id == 1,
            f.next_register_id == 0,
            f.next_instruction_id == 0,
            f.register_types@ == Map::<u32, TypeId>::empty(),
            f.attributes.inline == InlineDirective::Default,
            !f.attributes.noreturn && !f.attributes.pure && !f.attributes.no_side_effects,
            f.attributes.tags@ == Map::<Seq<char>, ()>::empty(),
    {
        let entry_block_id = BlockId(0);
        let mut blocks: AssocMap<BlockId, BasicBlock> = AssocMap::new();
        blocks.insert(entry_block_id, BasicBlock::new(entry_block_id));
        proof {
            assert(blocks@.dom() =~= set![0u32]);
            assert(blocks.key_order() =~= seq![0u32]);
        }
        Self {
            id,
            name: string_of(name),
            function_type,
            parameters: Vec::new(),
            return_type,
            blocks,
            entry_block: entry_block_id,
            next_block_id: 1,
            next_register_id: 0,
            next_instruction_id: 0,
            register_types: AssocMap::new(),
            attributes: FunctionAttributes::new(),
        }
    }

    /// Adds an empty block with the next block id and returns that id.
    pub fn create_block(&mut self) -> (id: BlockId)
        requires
            old(self).next_block_id < u32::MAX,
        ensures
            id == BlockId(old(self).next_block_id),
            final(self).next_block_id == old(self).next_block_id + 1,
            final(self).blocks@.dom() == old(self).blocks@.dom().insert(id.0),
            is_empty_block(final(self).blocks@[id.0], id),
            forall|k: u32| k != id.0 && old(self).blocks@.contains_key(k) ==> final(self).blocks@[k] == old(self).blocks@[k],
            final(self).id == old(self).id,
            final(self).name == old(self).name,
            final(self).parameters == old(self).parameters,
            final(self).next_register_id == old(self).next_register_id,
            final(self).next_instruction_id == old(self).next_instruction_id,
            final(self).register_types@ == old(self).register_types@,
    {
        let id = BlockId(self.next_block_id);
        self.next_block_id = self.next_block_id + 1;
        let b = BasicBlock::new(id);
        self.blocks.insert(id, b);
        id
    }

    /// Hands out the next register id and records its type.
    pub fn create_register(&mut self, type_id: TypeId) -> (id: RegisterId)
        requires
            old(self).next_register_id < u32::MAX,
        ensures
            id == RegisterId(old(self).next_register_id),
            final(self).next_register_id == old(self).next_register_id + 1,
            final(self).register_types@ == old(self).register_types@.insert(id.0, type_id),
            final(self).id == old(self).id,
            final(self).name == old(self).name,
            final(self).parameters == old(self).parameters,
            final(self).blocks@ == old(self).blocks@,
            final(self).blocks.key_order() == old(self).blocks.key_order(),
            final(self).next_block_id == old(self).next_block_id,
            final(self).next_instruction_id == old(self).next_instruction_id,
    {
        let id = RegisterId(self.next_register_id);
        self.next_register_id = self.next_register_id + 1;
        self.register_types.insert(id, type_id);
        id
    }

    /// Hands out the next instruction id.
    pub fn next_instruction_id(&mut self) -> (id: InstructionId)
        requires
            old(self).next_instruction_id < u32::MAX,
        ensures
            id == InstructionId(old(self).next_instruction_id),
            final(self).next_instruction_id == old(self).next_instruction_id + 1,
            final(self).id == old(self).id,
            final(self).name == old(self).name,
            final(self).parameters == old(self).parameters,
            final(self).blocks@ == old(self).blocks@,
            final(self).blocks.key_order() == old(self).blocks.key_order(),
            final(self).next_block_id == old(self).next_block_id,
            final(self).next_register_id == old(self).next_register_id,
            final(self).register_types@ == old(self).register_types@,
    {
        let id = InstructionId(self.next_instruction_id);
        self.next_instruction_id = self.next_instruction_id + 1;
        id
    }

    /// Takes out the block `block_id`, which must exist, leaving an empty one in its place.
    fn take_block(&mut self, block_id: BlockId) -> (b: BasicBlock)
        requires
            old(self).blocks@.contains_key(block_id.0),
        ensures
            b == old(self).blocks@[block_id.0],
            final(self).blocks@.dom() == old(self).blocks@.dom(),
            final(self).blocks.key_order() == old(self).blocks.key_order(),
            forall|k: u32| k != block_id.0 && old(self).blocks@.contains_key(k) ==> final(self).blocks@[k] == old(self).blocks@[k],
            final(self).id == old(self).id,
            final(self).name == old(self).name,
            final(self).parameters == old(self).parameters,
            final(self).next_block_id == old(self).next_block_id,
            final(self).next_register_id == old(self).next_register_id,
            final(self).next_instruction_id == old(self).next_instruction_id,
            final(self).register_types@ == old(self).register_types@,
    {
        let placeholder = BasicBlock::new(block_id);
        let taken = self.blocks.replace(block_id, placeholder);
        proof {
            assert(self.blocks@.dom() =~= old(self).blocks@.dom());
        }
        match taken {
            Some(b) => b,
            None => {
                proof {
                    assert(false);
                }
                BasicBlock::new(block_id)
            },
        }
    }

    /// Puts block `b` back under `block_id`, which must exist.
    fn put_block(&mut self, block_id: BlockId, b: BasicBlock)
        requires
            old(self).blocks@.contains_key(block_id.0),
        ensures
            final(self).blocks@ == old(self).blocks@.insert(block_id.0, b),
            final(self).blocks.key_order() == old(self).blocks.key_order(),
            final(self).id == old(self).id,
            final(self).name == old(self).name,
            final(self).parameters == old(self).parameters,
            final(self).next_block_id == old(self).next_block_id,
            final(self).next_register_id == old(self).next_register_id,
            final(self).next_instruction_id == old(self).next_instruction_id,
            final(self).register_types@ == old(self).register_types@,
    {
        let _ = self.blocks.replace(block_id, b);
    }

    /// Appends an instruction with the next instruction id to block `block_id`
    /// and returns that id; the id is handed out even where there is no such block.
    pub fn add_instruction(&mut self, block_id: BlockId, instruction: Instruction) -> (r: InstructionId)
        requires
            old(self).next_instruction_id < u32::MAX,
        ensures
            r == InstructionId(old(self).next_instruction_id),
            final(self).next_instruction_id == old(self).next_instruction_id + 1,
            old(self).blocks@.contains_key(block_id.0) ==> {
                let ob = old(self).blocks@[block_id.0];
                let nb = final(self).blocks@[block_id.0];
                &&& final(self).blocks@ == old(self).blocks@.insert(block_id.0, nb)
                &&& nb.instructions@ == ob.instructions@.push((r, instruction))
                &&& nb.id == ob.id && nb.terminator == ob.terminator
                &&& nb.parameters == ob.parameters && nb.predecessors == ob.predecessors
            },
            !old(self).blocks@.contains_key(block_id.0) ==> final(self).blocks@ == old(self).blocks@,
            final(self).blocks.key_order() == old(self).blocks.key_order(),
            final(self).id == old(self).id,
            final(self).name == old(self).name,
            final(self).parameters == old(self).parameters,
            final(self).next_block_id == old(self).next_block_id,
            final(self).next_register_id == old(self).next_register_id,
            final(self).register_types@ == old(self).register_types@,
    {
        let instr_id = self.next_instruction_id();
        if self.blocks.contains_key(&block_id) {
            let mut b = self.take_block(block_id);
            b.instructions.push((instr_id, instruction));
            self.put_block(block_id, b);
            proof {
                assert(self.blocks@ =~= old(self).blocks@.insert(block_id.0, b));
            }
        }
        instr_id
    }

    /// Replaces the first instruction with id `instr_id` in block `block_id`;
    /// tells whether there was one.
    pub fn replace_instruction(&mut self, block_id: BlockId, instr_id: InstructionId, new_instruction: Instruction) -> (r: bool)
        ensures
            r == (old(self).blocks@.contains_key(block_id.0) && exists|i: int|
                0 <= i < old(self).blocks@[block_id.0].instructions@.len()
                && (#[trigger] old(self).blocks@[block_id.0].instructions@[i]).0 == instr_id),
            r ==> exists|i: int|
                0 <= i < old(self).blocks@[block_id.0].instructions@.len()
                && (#[trigger] old(self).blocks@[block_id.0].instructions@[i]).0 == instr_id
                && (forall|j: int| 0 <= j < i ==> (#[trigger] old(self).blocks@[block_id.0].instructions@[j]).0 != instr_id)
                && final(self).blocks@[block_id.0].instructions@
                    == old(self).blocks@[block_id.0].instructions@.update(i, (instr_id, new_instruction)),
            r ==> {
                let ob = old(self).blocks@[block_id.0];
                let nb = final(self).blocks@[block_id.0];
                &&& final(self).blocks@ == old(self).blocks@.insert(block_id.0, nb)
                &&& nb.id == ob.id && nb.terminator == ob.terminator
                &&& nb.parameters == ob.parameters && nb.predecessors == ob.predecessors
            },
            !r ==> final(self).blocks@ == old(self).blocks@,
            final(self).blocks.key_order() == old(self).blocks.key_order(),
            final(self).id == old(self).id,
            final(self).name == old(self).name,
            final(self).parameters == old(self).parameters,
            final(self).next_block_id == old(self).next_block_id,
            final(self).next_register_id == old(self).next_register_id,
            final(self).next_instruction_id == old(self).next_instruction_id,
            final(self).register_types@ == old(self).register_types@,
    {
        if !self.blocks.contains_key(&block_id) {
            return false;
        }
        let mut b = self.take_block(block_id);
        let ghost ob = b;
        let ghost mid = *self;
        let mut i: usize = 0;
        while i < b.instructions.len()
            invariant
                b == ob,
                *self == mid,
                ob == old(self).blocks@[block_id.0],
                old(self).blocks@.contains_key(block_id.0),
                mid.blocks@.dom() == old(self).blocks@.dom(),
                mid.blocks.key_order() == old(self).blocks.key_order(),
                forall|k: u32| k != block_id.0 && old(self).blocks@.contains_key(k) ==> mid.blocks@[k] == old(self).blocks@[k],
                mid.id == old(self).id,
                mid.name == old(self).name,
                mid.parameters == old(self).parameters,
                mid.next_block_id == old(self).next_block_id,
                mid.next_register_id == old(self).next_register_id,
                mid.next_instruction_id == old(self).next_instruction_id,
                mid.register_types@ == old(self).register_types@,
                i <= ob.instructions@.len(),
                forall|j: int| 0 <= j < i ==> (#[trigger] ob.instructions@[j]).0 != instr_id,
            decreases ob.instructions@.len() - i,
        {
            if b.instructions[i].0 == instr_id {
                let ghost idx = i as int;
                b.instructions.set(i, (instr_id, new_instruction));
                self.put_block(block_id, b);
                proof {
                    assert(self.blocks@ =~= old(self).blocks@.insert(block_id.0, b));
                    assert(self.blocks@[block_id.0] == b);
                    assert(ob.instructions@[idx].0 == instr_id);
                }
                return true;
            }
            i = i + 1;
        }
        self.put_block(block_id, b);
        proof {
            assert(self.blocks@ =~= old(self).blocks@);
        }
        false
    }

    /// The block with id `id`.
    pub fn get_block(&self, id: BlockId) -> (r: Option<&BasicBlock>)
        ensures
            r matches Some(b) ==> self.blocks@.contains_key(id.0) && *b == self.blocks@[id.0],
            r is None ==> !self.blocks@.contains_key(id.0),
    {
        self.blocks.get(&id)
    }

    /// The type recorded for register `reg`.
    pub fn get_register_type(&self, reg: RegisterId) -> (r: Option<TypeId>)
        ensures
            r matches Some(t) ==> self.register_types@.contains_key(reg.0) && t == self.register_types@[reg.0],
            r is None ==> !self.register_types@.contains_key(reg.0),
    {
        match self.register_types.get(&reg) {
            Some(t) => Some(*t),
            None => None,
        }
    }

    /// Adds a parameter: a new register of its type, and the name and type at
    /// the end of the parameter list.
    pub fn add_parameter(&mut self, name: &str, type_id: TypeId) -> (r: RegisterId)
        requires
            old(self).next_register_id < u32::MAX,
        ensures
            r == RegisterId(old(self).next_register_id),
            final(self).next_register_id == old(self).next_register_id + 1,
            final(self).register_types@ == old(self).register_types@.insert(r.0, type_id),
            final(self).parameters@.len() == old(self).parameters@.len() + 1,
            final(self).parameters@.drop_last() == old(self).parameters@,
            final(self).parameters@.last().0@ == name@,
            final(self).parameters@.last().1 == type_id,
            final(self).blocks@ == old(self).blocks@,
            final(self).blocks.key_order() == old(self).blocks.key_order(),
            final(self).next_block_id == old(self).next_block_id,
            final(self).next_instruction_id == old(self).next_instruction_id,
    {
        let reg_id = self.create_register(type_id);
        self.parameters.push((string_of(name), type_id));
        proof {
            assert(self.parameters@.drop_last() =~= old(self).parameters@);
        }
        reg_id
    }
}


/// One block's instructions, taken one more at a time, as scan items.
proof fn lemma_block_items_step(bid: BlockId, instrs: Seq<(InstructionId, Instruction)>, j: int)
    requires
        0 <= j < instrs.len(),
    ensures
        block_items(bid, instrs.take(j + 1)) == block_items(bid, instrs.take(j)).push((bid, instrs[j].0, instrs[j].1)),
{
    assert(block_items(bid, instrs.take(j + 1)) =~= block_items(bid, instrs.take(j)).push((bid, instrs[j].0, instrs[j].1)));
}

proof fn lemma_scan_items_step(blocks: Seq<(BlockId, BasicBlock)>, i: int)
    requires
        0 <= i < blocks.len(),
    ensures
        scan_items(blocks.take(i + 1)) == scan_items(blocks.take(i)) + block_items(blocks[i].0, blocks[i].1.instructions@),
{
    assert(blocks.take(i + 1).drop_last() =~= blocks.take(i));
}

proof fn lemma_reg_locs_step(regs: Seq<RegisterId>, k: int, reg: u32, loc: (BlockId, InstructionId))
    requires
        0 <= k < regs.len(),
    ensures
        reg_locs(regs.take(k + 1), reg, loc) == reg_locs(regs.take(k), reg, loc) + if regs[k].0 == reg { seq![loc] } else { seq![] },
{
    assert(regs.take(k + 1).drop_last() =~= regs.take(k));
}

/// The map `m` holds, for each register, the nonempty list `f` gives for it.
pub open spec fn uses_agree(m: Map<u32, Vec<(BlockId, InstructionId)>>, f: spec_fn(u32) -> Seq<(BlockId, InstructionId)>) -> bool {
    forall|reg: u32| #![trigger m.contains_key(reg)] #![trigger f(reg)]
        (m.contains_key(reg) <==> f(reg).len() > 0) && (m.contains_key(reg) ==> m[reg]@ == f(reg))
}

fn add_use(m: &mut AssocMap<RegisterId, Vec<(BlockId, InstructionId)>>, reg: RegisterId, loc: (BlockId, InstructionId))
    ensures
        final(m)@.dom() == old(m)@.dom().insert(reg.0),
        forall|k: u32| k != reg.0 && old(m)@.contains_key(k) ==> final(m)@[k] == old(m)@[k],
        old(m)@.contains_key(reg.0) ==> final(m)@[reg.0]@ == old(m)@[reg.0]@.push(loc),
        !old(m)@.contains_key(reg.0) ==> final(m)@[reg.0]@ == seq![loc],
{
    match m.replace(reg, Vec::new()) {
        Some(mut v) => {
            v.push(loc);
            let _ = m.replace(reg, v);
        },
        None => {
            let mut v: Vec<(BlockId, InstructionId)> = Vec::new();
            v.push(loc);
            m.insert(reg, v);
            proof {
                assert(m@[reg.0]@ =~= seq![loc]);
            }
        },
    }
    proof {
        assert(m@.dom() =~= old(m)@.dom().insert(reg.0));
    }
}

impl Function {
    /// The scan order of the function: its blocks in insertion order, the
    /// instructions of each block in order.
    pub open spec fn scan(&self) -> Seq<ScanItem> {
        scan_items(self.blocks.entry_seq())
    }

    /// Where each register is defined (the last definition in scan order) and
    /// where it is read (every reading operand, in scan order).
    pub fn compute_use_graph(&self) -> (g: FunctionUseGraph)
        ensures
            g.register_defs@ == defs_of(self.scan()),
            forall|reg: u32| g.register_uses@.contains_key(reg) <==> uses_of(self.scan(), reg).len() > 0,
            forall|reg: u32| g.register_uses@.contains_key(reg) ==> g.register_uses@[reg]@ == uses_of(self.scan(), reg),
    {
        let mut graph = FunctionUseGraph::new();
        let entries = self.blocks.entries();
        let ghost es = entries@;
        proof {
            assert(es.take(0) =~= Seq::<(BlockId, BasicBlock)>::empty());
            assert(uses_agree(graph.register_uses@, |reg: u32| uses_of(scan_items(es.take(0)), reg)));
        }
        let mut i: usize = 0;
        while i < entries.len()
            invariant
                entries@ == es,
                i <= es.len(),
                graph.register_defs@ == defs_of(scan_items(es.take(i as int))),
                uses_agree(graph.register_uses@, |reg: u32| uses_of(scan_items(es.take(i as int)), reg)),
            decreases es.len() - i,
        {
            let block_id = entries[i].0;
            let instrs = &entries[i].1.instructions;
            let ghost base = scan_items(es.take(i as int));
            proof {
                assert(instrs@.take(0) =~= Seq::<(InstructionId, Instruction)>::empty());
                assert(base + block_items(block_id, instrs@.take(0)) =~= base);
            }
            let mut j: usize = 0;
            while j < instrs.len()
                invariant
                    entries@ == es,
                    i < es.len(),
                    block_id == es[i as int].0,
                    *instrs == es[i as int].1.instructions,
                    base == scan_items(es.take(i as int)),
                    j <= instrs@.len(),
                    graph.register_defs@ == defs_of(base + block_items(block_id, instrs@.take(j as int))),
                    uses_agree(graph.register_uses@, |reg: u32| uses_of(base + block_items(block_id, instrs@.take(j as int)), reg)),
                decreases instrs@.len() - j,
            {
                let instr_id = instrs[j].0;
                let instr = &instrs[j].1;
                let loc = (block_id, instr_id);
                let ghost prev = base + block_items(block_id, instrs@.take(j as int));
                let ghost it: ScanItem = (block_id, instr_id, *instr);
                let ghost next = prev.push(it);
                proof {
                    lemma_block_items_step(block_id, instrs@, j as int);
                    assert(base + block_items(block_id, instrs@.take(j + 1)) =~= next);
                    assert(next.drop_last() =~= prev);
                }
                match instr.defined_register() {
                    Some(reg) => {
                        graph.register_defs.insert(reg, loc);
                    },
                    None => {},
                }
                proof {
                    assert(next.last() == it);
                    assert(defs_of(next) =~= graph.register_defs@);
                }
                let used = instr.used_registers();
                proof {
                    assert(used@.take(0) =~= Seq::<RegisterId>::empty());
                    assert forall|reg: u32| #![trigger uses_of(prev, reg)]
                        uses_of(prev, reg) + reg_locs(used@.take(0), reg, loc) == uses_of(prev, reg) by {
                        assert(uses_of(prev, reg) + reg_locs(used@.take(0), reg, loc) =~= uses_of(prev, reg));
                    }
                }
                let mut k: usize = 0;
                while k < used.len()
                    invariant
                        k <= used@.len(),
                        graph.register_defs@ == defs_of(next),
                        uses_agree(graph.register_uses@, |reg: u32| uses_of(prev, reg) + reg_locs(used@.take(k as int), reg, loc)),
                    decreases used@.len() - k,
                {
                    let reg = used[k];
                    let ghost before = graph.register_uses@;
                    add_use(&mut graph.register_uses, reg, loc);
                    proof {
                        assert forall|r: u32| #![trigger reg_locs(used@.take(k + 1), r, loc)]
                            reg_locs(used@.take(k + 1), r, loc) == reg_locs(used@.take(k as int), r, loc)
                                + if used@[k as int].0 == r { seq![loc] } else { seq![] } by {
                            lemma_reg_locs_step(used@, k as int, r, loc);
                        }
                        let f = |r: u32| uses_of(prev, r) + reg_locs(used@.take(k + 1), r, loc);
                        let g = |r: u32| uses_of(prev, r) + reg_locs(used@.take(k as int), r, loc);
                        assert forall|r: u32| #![trigger graph.register_uses@.contains_key(r)] #![trigger f(r)]
                            (graph.register_uses@.contains_key(r) <==> f(r).len() > 0)
                            && (graph.register_uses@.contains_key(r) ==> graph.register_uses@[r]@ == f(r)) by {
                            assert(before.contains_key(r) <==> g(r).len() > 0);
                            if r == reg.0 {
                                assert(f(r) =~= g(r).push(loc));
                            } else {
                                assert(f(r) =~= g(r));
                            }
                        }
                    }
                    k = k + 1;
                }
                proof {
                    assert(used@.take(k as int) =~= used@);
                    assert(used@ == used_regs(it.2));
                    assert forall|r: u32| #![trigger uses_of(next, r)]
                        uses_of(next, r) == uses_of(prev, r) + reg_locs(used@.take(k as int), r, loc) by {
                        assert(next.last() == it);
                    }
                }
                j = j + 1;
            }
            proof {
                lemma_scan_items_step(es, i as int);
                assert(instrs@.take(j as int) =~= instrs@);
                assert(scan_items(es.take(i + 1)) == base + block_items(block_id, instrs@.take(j as int)));
            }
            i = i + 1;
        }
        proof {
            assert(es.take(i as int) =~= es);
            self.blocks.lemma_entry_seq();
        }
        graph
    }
}


/// An EIR module.
#[derive(Debug)]
pub struct Module {
    pub name: String,
    pub functions: AssocMap<FunctionId, Function>,
    pub globals: AssocMap<String, Global>,
    pub external_functions: AssocMap<String, ExternalFunction>,
    pub types: AssocMap<TypeId, Type>,
    pub entry_point: Option<FunctionId>,
}

impl Module {
    /// An empty module without entry point.
    pub fn new(name: &str) -> (m: Self)
        ensures
            m.name@ == name@,
            m.functions@ == Map::<u32, Function>::empty(),
            m.globals@ == Map::<Seq<char>, Global>::empty(),
            m.external_functions@ == Map::<Seq<char>, ExternalFunction>::empty(),
            m.types@ == Map::<usize, Type>::empty(),
            m.entry_point is None,
    {
        Self {
            name: string_of(name),
            functions: AssocMap::new(),
            globals: AssocMap::new(),
            external_functions: AssocMap::new(),
            types: AssocMap::new(),
            entry_point: None,
        }
    }

    /// Adds a function under its own id, replacing one with that id; returns the id.
    pub fn add_function(&mut self, function: Function) -> (id: FunctionId)
        ensures
            id == function.id,
            final(self).functions@ == old(self).functions@.insert(id.0, function),
            final(self).name == old(self).name,
            final(self).globals@ == old(self).globals@,
            final(self).external_functions@ == old(self).external_functions@,
            final(self).types@ == old(self).types@,
            final(self).entry_point == old(self).entry_point,
    {
        let id = function.id;
        self.functions.insert(id, function);
        id
    }

    /// Adds a global under `name`, replacing one of that name.
    pub fn add_global(&mut self, name: &str, global: Global)
        ensures
            final(self).globals@ == old(self).globals@.insert(name@, global),
            final(self).name == old(self).name,
            final(self).functions@ == old(self).functions@,
            final(self).external_functions@ == old(self).external_functions@,
            final(self).types@ == old(self).types@,
            final(self).entry_point == old(self).entry_point,
    {
        self.globals.insert(string_of(name), global);
    }

    /// Declares an external function under `name`, replacing one of that name.
    pub fn declare_external_function(&mut self, name: &str, external: ExternalFunction)
        ensures
            final(self).external_functions@ == old(self).external_functions@.insert(name@, external),
            final(self).name == old(self).name,
            final(self).functions@ == old(self).functions@,
            final(self).globals@ == old(self).globals@,
            final(self).types@ == old(self).types@,
            final(self).entry_point == old(self).entry_point,
    {
        self.external_functions.insert(string_of(name), external);
    }

    /// Adds a type under its own id, replacing one with that id; returns the id.
    pub fn add_type(&mut self, ty: Type) -> (id: TypeId)
        ensures
            id == ty.id,
            final(self).types@ == old(self).types@.insert(id.0, ty),
            final(self).name == old(self).name,
            final(self).functions@ == old(self).functions@,
            final(self).globals@ == old(self).globals@,
            final(self).external_functions@ == old(self).external_functions@,
            final(self).entry_point == old(self).entry_point,
    {
        let id = ty.id;
        self.types.insert(id, ty);
        id
    }

    /// Sets the entry point.
    pub fn set_entry_point(&mut self, function_id: FunctionId)
        ensures
            final(self).entry_point == Some(function_id),
            final(self).name == old(self).name,
            final(self).functions@ == old(self).functions@,
            final(self).globals@ == old(self).globals@,
            final(self).external_functions@ == old(self).external_functions@,
            final(self).types@ == old(self).types@,
    {
        self.entry_point = Some(function_id);
    }

    /// The function with id `id`.
    pub fn get_function(&self, id: FunctionId) -> (r: Option<&Function>)
        ensures
            r matches Some(f) ==> self.functions@.contains_key(id.0) && *f == self.functions@[id.0],
            r is None ==> !self.functions@.contains_key(id.0),
    {
        self.functions.get(&id)
    }

    /// A function named `name`: the first such in insertion order.
    pub fn get_function_by_name(&self, name: &str) -> (r: Option<&Function>)
        ensures
            r matches Some(f) ==> exists|k: u32| #[trigger] self.functions@.contains_key(k)
                && *f == self.functions@[k] && f.name@ == name@,
            r is None ==> forall|k: u32| #[trigger] self.functions@.contains_key(k) ==> self.functions@[k].name@ != name@,
    {
        let entries = self.functions.entries();
        proof {
            self.functions.lemma_entry_seq();
        }
        let mut i: usize = 0;
        while i < entries.len()
            invariant
                i <= entries@.len(),
                entries@ == self.functions.entry_seq(),
                entries_map(entries@) == self.functions@,
                keys_unique(entries@),
                forall|j: int| 0 <= j < i ==> (#[trigger] entries@[j]).1.name@ != name@,
            decreases entries@.len() - i,
        {
            if str_eq(entries[i].1.name.as_str(), name) {
                proof {
                    lemma_entries_map_at(entries@, i as int);
                    assert(self.functions@.contains_key(entries@[i as int].0.0));
                }
                return Some(&entries[i].1);
            }
            i = i + 1;
        }
        proof {
            assert forall|k: u32| #[trigger] self.functions@.contains_key(k) implies self.functions@[k].name@ != name@ by {
                lemma_entries_map_dom(entries@, k);
                let j = choose|j: int| 0 <= j < entries@.len() && (#[trigger] entries@[j]).0.key_view() == k;
                lemma_entries_map_at(entries@, j);
            }
        }
        None
    }

    /// The global named `name`.
    pub fn get_global(&self, name: &str) -> (r: Option<&Global>)
        ensures
            r matches Some(g) ==> self.globals@.contains_key(name@) && *g == self.globals@[name@],
            r is None ==> !self.globals@.contains_key(name@),
    {
        self.globals.get(&string_of(name))
    }

    /// The type with id `id`.
    pub fn get_type(&self, id: TypeId) -> (r: Option<&Type>)
        ensures
            r matches Some(t) ==> self.types@.contains_key(id.0) && *t == self.types@[id.0],
            r is None ==> !self.types@.contains_key(id.0),
    {
        self.types.get(&id)
    }
}

/// An instruction reads the registers among its operands, in operand order,
/// and writes its result register: a binary operation reads both register
/// operands and writes its result; a load reads its address and writes its
/// result; a store reads its address and value and writes nothing.
pub proof fn lemma_register_use(op: BinaryOp, a: RegisterId, b: RegisterId, r: RegisterId, x: Literal)
    ensures
        used_regs((Instruction::BinaryOp { op, lhs: Operand::Register(a), rhs: Operand::Register(b), result: r })) == seq![a, b],
        used_regs((Instruction::BinaryOp { op, lhs: Operand::Register(a), rhs: Operand::Literal(x), result: r })) == seq![a],
        used_regs((Instruction::BinaryOp { op, lhs: Operand::Literal(x), rhs: Operand::Register(b), result: r })) == seq![b],
        defined_reg((Instruction::BinaryOp { op, lhs: Operand::Register(a), rhs: Operand::Register(b), result: r })) == Some(r),
        used_regs((Instruction::Load { address: Operand::Register(a), result: r })) == seq![a],
        defined_reg((Instruction::Load { address: Operand::Register(a), result: r })) == Some(r),
        used_regs((Instruction::Store { address: Operand::Register(a), value: Operand::Register(b) })) == seq![a, b],
        defined_reg((Instruction::Store { address: Operand::Register(a), value: Operand::Register(b) })) is None,
{
    assert(seq![a] + seq![b] =~= seq![a, b]);
    assert(seq![a] + Seq::<RegisterId>::empty() =~= seq![a]);
    assert(Seq::<RegisterId>::empty() + seq![b] =~= seq![b]);
}

} // verus!
