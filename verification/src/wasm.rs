use vstd::prelude::*;

use crate::assoc::AssocMap;
use crate::eir::{BinaryOp, BlockId, FunctionId, Instruction, Literal, Operand, RegisterId, UnaryOp};
use crate::backend::{unsupported_type_message, wasm_type, wasm_val_type, WasmValType};
use crate::error::EidosError;
use crate::types::Type;
use crate::util::{append_str, decimal, push_decimal, string_of};

verus! {

/// A WebAssembly instruction, as the code generator selects it. A float
/// constant holds the bits of its IEEE 754 double.
#[derive(Debug, Clone, Copy, PartialEq, Eq, Structural)]
pub enum WasmInstr {
    I32Const(i32),
    I64Const(i64),
    F64Const(u64),
    LocalGet(u32),
    LocalSet(u32),
    GlobalGet(u32),
    Call(u32),
    Return,
    Br(u32),
    /// Branches to the first block when the condition is true, else to the second.
    IfElseBr(u32, u32),
    I32Add,
    I32Sub,
    I32Mul,
    I32DivS,
    I64Add,
    I64Sub,
    I64Mul,
    I64DivS,
    I64RemS,
    I64Eq,
    I64Ne,
    I64LtS,
    I64LeS,
    I64GtS,
    I64GeS,
    I64And,
    I64Or,
    I32WrapI64,
    I32Xor,
    F64Neg,
    I64Load,
    I64Store,
}

/// What the code generator knows: where registers, globals and functions
/// live, the function table, and the data segments (offset and bytes).
pub struct WasmModel {
    pub locals: Map<u32, u32>,
    pub globals: Map<Seq<char>, u32>,
    pub functions: Map<Seq<char>, u32>,
    pub function_refs: Map<u32, u32>,
    pub table: Seq<u32>,
    pub data: Seq<(u32, Seq<u8>)>,
    /// The declared globals, by index: their type and initial value.
    pub global_decls: Seq<(WasmValType, WasmConst)>,
    /// The imported functions, by index: module, name, parameter and result types.
    pub imports: Seq<(Seq<char>, Seq<char>, Seq<WasmValType>, Seq<WasmValType>)>,
    /// Whether the memory `env.memory` is imported.
    pub memory_imported: bool,
    /// The name given to the module, if any.
    pub module_name: Option<Seq<char>>,
}

/// A WebAssembly constant; a float holds its IEEE 754 bits.
#[derive(Debug, Clone, Copy, PartialEq, Eq, Structural)]
pub enum WasmConst {
    I32(i32),
    I64(i64),
    F32(u32),
    F64(u64),
}

/// Where the data segments end: the largest end, 0 when there are none.
pub open spec fn data_end(data: Seq<(u32, Seq<u8>)>) -> int
    decreases data.len(),
{
    if data.len() == 0 {
        0
    } else {
        let e = data.last().0 + data.last().1.len();
        let rest = data_end(data.drop_last());
        if e > rest { e } else { rest }
    }
}

/// `x` rounded up to a multiple of `a`.
pub open spec fn align_up(x: int, a: int) -> int {
    ((x + a - 1) / a) * a
}

/// The offset at which the next string goes: the end of the data, rounded
/// up to a multiple of 4.
pub open spec fn next_data_offset(m: WasmModel) -> int {
    align_up(data_end(m.data), 4)
}

/// The error text of a data section without room for `n` more bytes.
pub open spec fn data_full_message() -> Seq<char> {
    "データセクションに空きがありません"@
}

/// Adds `bytes` as a data segment at the next offset; the offset, or the
/// error where the segment would end past 2^32 - 1.
pub open spec fn add_data(m: WasmModel, bytes: Seq<u8>) -> (WasmModel, Result<u32, Seq<char>>) {
    let off = next_data_offset(m);
    if off + bytes.len() > u32::MAX {
        (m, Err(data_full_message()))
    } else {
        (WasmModel { data: m.data.push((off as u32, bytes)), ..m }, Ok(off as u32))
    }
}

/// The code of a literal: integers as `i64` constants, floats as `f64`
/// constants, booleans, characters and unit as `i32` constants, and strings
/// as the `i32` offset of their UTF-8 bytes, added to the data.
pub open spec fn literal_code(m: WasmModel, lit: Literal) -> (WasmModel, Result<Seq<WasmInstr>, Seq<char>>) {
    match lit {
        Literal::Int(v) => (m, Ok(seq![WasmInstr::I64Const(v)])),
        Literal::Float(bits) => (m, Ok(seq![WasmInstr::F64Const(bits)])),
        Literal::Bool(b) => (m, Ok(seq![WasmInstr::I32Const(if b { 1 } else { 0 })])),
        Literal::Char(c) => (m, Ok(seq![WasmInstr::I32Const(c as i32)])),
        Literal::Unit => (m, Ok(seq![WasmInstr::I32Const(0)])),
        Literal::String(s) => match add_data(m, vstd::utf8::encode_utf8(s@)) {
            (m1, Ok(off)) => (m1, Ok(seq![WasmInstr::I32Const(off as i32)])),
            (m1, Err(e)) => (m1, Err(e)),
        },
    }
}

/// The code that pushes an operand: a literal's code, a register's local, a
/// global, or the table index of a function, which is added to the table.
pub open spec fn operand_code(m: WasmModel, op: Operand) -> (WasmModel, Result<Seq<WasmInstr>, Seq<char>>) {
    match op {
        Operand::Literal(lit) => literal_code(m, lit),
        Operand::Register(r) => if m.locals.contains_key(r.0) {
            (m, Ok(seq![WasmInstr::LocalGet(m.locals[r.0])]))
        } else {
            (m, Err(missing_local_message(r)))
        },
        Operand::Global(name) => if m.globals.contains_key(name@) {
            (m, Ok(seq![WasmInstr::GlobalGet(m.globals[name@])]))
        } else {
            (m, Err("グローバル変数が見つかりません: "@ + name@))
        },
        Operand::Function(f) => if m.function_refs.contains_key(f.0) {
            table_ref(m, m.function_refs[f.0])
        } else {
            (m, Err("関数が見つかりません: FunctionId("@ + decimal(f.0 as nat) + ")"@))
        },
        Operand::ExternalFunction(name) => if m.functions.contains_key(name@) {
            table_ref(m, m.functions[name@])
        } else {
            (m, Err("関数が見つかりません: "@ + name@))
        },
        Operand::Symbol(_) => (m, Err("未対応のオペランド: Symbol"@)),
        Operand::Block(_) => (m, Err("未対応のオペランド: Block"@)),
    }
}

/// Adds function `f` to the table and pushes its index there.
pub open spec fn table_ref(m: WasmModel, f: u32) -> (WasmModel, Result<Seq<WasmInstr>, Seq<char>>) {
    if m.table.len() >= i32::MAX {
        (m, Err("関数テーブルがいっぱいです"@))
    } else {
        (WasmModel { table: m.table.push(f), ..m }, Ok(seq![WasmInstr::I32Const(m.table.len() as i32)]))
    }
}

/// The error text of a register without a local.
pub open spec fn missing_local_message(r: RegisterId) -> Seq<char> {
    "ローカル変数が見つかりません: RegisterId("@ + decimal(r.0 as nat) + ")"@
}

/// The name of a binary operator.
pub open spec fn binary_name(op: BinaryOp) -> Seq<char> {
    match op {
        BinaryOp::Add => "Add"@,
        BinaryOp::Sub => "Sub"@,
        BinaryOp::Mul => "Mul"@,
        BinaryOp::Div => "Div"@,
        BinaryOp::Rem => "Rem"@,
        BinaryOp::BitAnd => "BitAnd"@,
        BinaryOp::BitOr => "BitOr"@,
        BinaryOp::BitXor => "BitXor"@,
        BinaryOp::Shl => "Shl"@,
        BinaryOp::Shr => "Shr"@,
        BinaryOp::Eq => "Eq"@,
        BinaryOp::Ne => "Ne"@,
        BinaryOp::Lt => "Lt"@,
        BinaryOp::Le => "Le"@,
        BinaryOp::Gt => "Gt"@,
        BinaryOp::Ge => "Ge"@,
        BinaryOp::And => "And"@,
        BinaryOp::Or => "Or"@,
    }
}

/// The instructions of a binary operator on two `i64` values: arithmetic and
/// comparisons as is (a comparison already gives an `i32`), the logical
/// operators followed by a wrap of their `i64` result to `i32`.
pub open spec fn binary_code(op: BinaryOp) -> Option<Seq<WasmInstr>> {
    match op {
        BinaryOp::Add => Some(seq![WasmInstr::I64Add]),
        BinaryOp::Sub => Some(seq![WasmInstr::I64Sub]),
        BinaryOp::Mul => Some(seq![WasmInstr::I64Mul]),
        BinaryOp::Div => Some(seq![WasmInstr::I64DivS]),
        BinaryOp::Rem => Some(seq![WasmInstr::I64RemS]),
        BinaryOp::Eq => Some(seq![WasmInstr::I64Eq]),
        BinaryOp::Ne => Some(seq![WasmInstr::I64Ne]),
        BinaryOp::Lt => Some(seq![WasmInstr::I64LtS]),
        BinaryOp::Le => Some(seq![WasmInstr::I64LeS]),
        BinaryOp::Gt => Some(seq![WasmInstr::I64GtS]),
        BinaryOp::Ge => Some(seq![WasmInstr::I64GeS]),
        BinaryOp::And => Some(seq![WasmInstr::I64And, WasmInstr::I32WrapI64]),
        BinaryOp::Or => Some(seq![WasmInstr::I64Or, WasmInstr::I32WrapI64]),
        _ => None,
    }
}

/// The instructions of a unary operator on `operand`, already pushed:
/// negation inverts the sign of an integer literal (multiplying by -1, which
/// wraps as `0 - x` does) or negates a float literal,
/// logical negation flips a boolean literal; anything else is an error.
pub open spec fn unary_code(op: UnaryOp, operand: Operand) -> Result<Seq<WasmInstr>, Seq<char>> {
    match op {
        UnaryOp::Neg => match operand {
            Operand::Literal(Literal::Int(_)) => Ok(seq![WasmInstr::I64Const(-1i64), WasmInstr::I64Mul]),
            Operand::Literal(Literal::Float(_)) => Ok(seq![WasmInstr::F64Neg]),
            _ => Err("負数化は整数か浮動小数点数のみサポートされています"@),
        },
        UnaryOp::Not => match operand {
            Operand::Literal(Literal::Bool(_)) => Ok(seq![WasmInstr::I32Const(1), WasmInstr::I32Xor]),
            _ => Err("論理否定はブール値のみサポートされています"@),
        },
        UnaryOp::BitNot => Err("未対応の単項演算子: BitNot"@),
        UnaryOp::Cast => Err("未対応の単項演算子: Cast"@),
    }
}

/// The code that pushes a list of operands, in order.
pub open spec fn operands_code(m: WasmModel, ops: Seq<Operand>) -> (WasmModel, Result<Seq<WasmInstr>, Seq<char>>)
    decreases ops.len(),
{
    if ops.len() == 0 {
        (m, Ok(seq![]))
    } else {
        let (m1, r1) = operands_code(m, ops.drop_last());
        match r1 {
            Err(e) => (m1, Err(e)),
            Ok(c1) => {
                let (m2, r2) = operand_code(m1, ops.last());
                match r2 {
                    Err(e) => (m2, Err(e)),
                    Ok(c2) => (m2, Ok(c1 + c2)),
                }
            },
        }
    }
}

/// The code that pushes two operands, the first first.
pub open spec fn two_operands(m: WasmModel, a: Operand, b: Operand) -> (WasmModel, Result<Seq<WasmInstr>, Seq<char>>) {
    let (m1, r1) = operand_code(m, a);
    match r1 {
        Err(e) => (m1, Err(e)),
        Ok(c1) => {
            let (m2, r2) = operand_code(m1, b);
            match r2 {
                Err(e) => (m2, Err(e)),
                Ok(c2) => (m2, Ok(c1 + c2)),
            }
        },
    }
}

/// The code that stores the top of the stack in register `r`'s local.
pub open spec fn set_local(m: WasmModel, r: RegisterId) -> Result<Seq<WasmInstr>, Seq<char>> {
    if m.locals.contains_key(r.0) {
        Ok(seq![WasmInstr::LocalSet(m.locals[r.0])])
    } else {
        Err(missing_local_message(r))
    }
}

/// Appends `tail`, or its error, to the code `head`.
pub open spec fn followed_by(head: Seq<WasmInstr>, tail: Result<Seq<WasmInstr>, Seq<char>>) -> Result<Seq<WasmInstr>, Seq<char>> {
    match tail {
        Ok(t) => Ok(head + t),
        Err(e) => Err(e),
    }
}

/// The name of an instruction kind.
pub open spec fn instruction_name(i: Instruction) -> Seq<char> {
    match i {
        Instruction::BinaryOp { .. } => "BinaryOp"@,
        Instruction::UnaryOp { .. } => "UnaryOp"@,
        Instruction::Load { .. } => "Load"@,
        Instruction::Store { .. } => "Store"@,
        Instruction::Call { .. } => "Call"@,
        Instruction::Return { .. } => "Return"@,
        Instruction::Branch { .. } => "Branch"@,
        Instruction::BranchCond { .. } => "BranchCond"@,
        Instruction::Alloca { .. } => "Alloca"@,
        Instruction::GetElementPtr { .. } => "GetElementPtr"@,
        Instruction::Cast { .. } => "Cast"@,
        Instruction::Phi { .. } => "Phi"@,
        Instruction::Select { .. } => "Select"@,
        Instruction::Atomic { .. } => "Atomic"@,
        Instruction::ExternalCall { .. } => "ExternalCall"@,
        Instruction::InlineAsm { .. } => "InlineAsm"@,
        Instruction::DebugInfo { .. } => "DebugInfo"@,
    }
}

/// The code of an instruction: its operands pushed, the operation, and the
/// result stored in its register's local; a call by name; a return; a branch;
/// an allocation through `__alloc` or else `malloc`. Other instructions are errors.
pub open spec fn instruction_code(m: WasmModel, i: Instruction) -> (WasmModel, Result<Seq<WasmInstr>, Seq<char>>) {
    match i {
        Instruction::BinaryOp { op, lhs, rhs, result } => {
            let (m1, r) = two_operands(m, lhs, rhs);
            match r {
                Err(e) => (m1, Err(e)),
                Ok(c) => match binary_code(op) {
                    None => (m1, Err("未対応のバイナリ演算子: "@ + binary_name(op))),
                    Some(b) => (m1, followed_by(c + b, set_local(m1, result))),
                },
            }
        },
        Instruction::UnaryOp { op, operand, result } => {
            let (m1, r) = operand_code(m, operand);
            match r {
                Err(e) => (m1, Err(e)),
                Ok(c) => match unary_code(op, operand) {
                    Err(e) => (m1, Err(e)),
                    Ok(u) => (m1, followed_by(c + u, set_local(m1, result))),
                },
            }
        },
        Instruction::Load { address, result } => {
            let (m1, r) = operand_code(m, address);
            match r {
                Err(e) => (m1, Err(e)),
                Ok(c) => (m1, followed_by(c.push(WasmInstr::I64Load), set_local(m1, result))),
            }
        },
        Instruction::Store { address, value } => {
            let (m1, r) = two_operands(m, address, value);
            match r {
                Err(e) => (m1, Err(e)),
                Ok(c) => (m1, Ok(c.push(WasmInstr::I64Store))),
            }
        },
        Instruction::Call { function, arguments, result } => {
            let (m1, r) = operands_code(m, arguments@);
            match r {
                Err(e) => (m1, Err(e)),
                Ok(c) => if !m1.functions.contains_key(function@) {
                    (m1, Err("関数が見つかりません: "@ + function@))
                } else {
                    let call = c.push(WasmInstr::Call(m1.functions[function@]));
                    match result {
                        Some(reg) => if m1.locals.contains_key(reg.0) {
                            (m1, Ok(call.push(WasmInstr::LocalSet(m1.locals[reg.0]))))
                        } else {
                            (m1, Ok(call))
                        },
                        None => (m1, Ok(call)),
                    }
                },
            }
        },
        Instruction::Return { value } => match value {
            Some(v) => {
                let (m1, r) = operand_code(m, v);
                match r {
                    Err(e) => (m1, Err(e)),
                    Ok(c) => (m1, Ok(c.push(WasmInstr::Return))),
                }
            },
            None => (m, Ok(seq![WasmInstr::Return])),
        },
        Instruction::Branch { target } => (m, Ok(seq![WasmInstr::Br(target.0)])),
        Instruction::BranchCond { condition, true_target, false_target } => {
            let (m1, r) = operand_code(m, condition);
            match r {
                Err(e) => (m1, Err(e)),
                Ok(c) => (m1, Ok(c.push(WasmInstr::IfElseBr(true_target.0, false_target.0)))),
            }
        },
        Instruction::Alloca { size, result } => {
            let alloc = if m.functions.contains_key("__alloc"@) {
                Some(m.functions["__alloc"@])
            } else if m.functions.contains_key("malloc"@) {
                Some(m.functions["malloc"@])
            } else {
                None
            };
            match alloc {
                None => (m, Err("メモリ割り当て関数を宣言できません"@)),
                Some(f) => if size > i32::MAX {
                    (m, Err("割り当てサイズが大きすぎます"@))
                } else {
                    (m, followed_by(seq![WasmInstr::I32Const(size as i32), WasmInstr::Call(f)], set_local(m, result)))
                },
            }
        },
        _ => (m, Err("未対応の命令: "@ + instruction_name(i))),
    }
}


// ---------------------------------------------------------------------------
// The code generator.

/// The lookup tables and the data of WebAssembly code generation.
pub struct WasmCodegen {
    locals: AssocMap<RegisterId, u32>,
    globals: AssocMap<String, u32>,
    functions: AssocMap<String, u32>,
    function_refs: AssocMap<FunctionId, u32>,
    table: Vec<u32>,
    data: Vec<(u32, Vec<u8>)>,
    global_decls: Vec<(WasmValType, WasmConst)>,
    imports: Vec<FunctionImport>,
    memory_imported: bool,
    module_name: Option<String>,
}

/// An imported function: its module, its name, its parameter and result types.
#[derive(Debug, Clone, PartialEq, Eq)]
pub struct FunctionImport {
    pub module: String,
    pub name: String,
    pub params: Vec<WasmValType>,
    pub results: Vec<WasmValType>,
}

impl View for WasmCodegen {
    type V = WasmModel;

    closed spec fn view(&self) -> WasmModel {
        WasmModel {
            locals: self.locals@,
            globals: self.globals@,
            functions: self.functions@,
            function_refs: self.function_refs@,
            table: self.table@,
            data: self.data@.map_values(|e: (u32, Vec<u8>)| (e.0, e.1@)),
            global_decls: self.global_decls@,
            imports: self.imports@.map_values(|f: FunctionImport| (f.module@, f.name@, f.params@, f.results@)),
            memory_imported: self.memory_imported,
            module_name: match self.module_name {
                Some(n) => Some(n@),
                None => None,
            },
        }
    }
}

/// The data of a model fits below 2^32.
pub open spec fn data_fits(data: Seq<(u32, Seq<u8>)>) -> bool {
    forall|i: int| 0 <= i < data.len() ==> #[trigger] data[i].0 + data[i].1.len() <= u32::MAX
}

proof fn lemma_data_end_bound(data: Seq<(u32, Seq<u8>)>)
    requires
        data_fits(data),
    ensures
        0 <= data_end(data) <= u32::MAX,
    decreases data.len(),
{
    if data.len() > 0 {
        assert(data.drop_last().len() == data.len() - 1);
        assert forall|i: int| 0 <= i < data.drop_last().len() implies #[trigger] data.drop_last()[i].0 + data.drop_last()[i].1.len() <= u32::MAX by {
            assert(data.drop_last()[i] == data[i]);
        }
        lemma_data_end_bound(data.drop_last());
        assert(data[data.len() - 1] == data.last());
    }
}

fn backend_error(msg: String) -> (e: EidosError)
    ensures
        e == EidosError::BackendError(msg),
{
    EidosError::BackendError(msg)
}

fn missing_local(r: RegisterId) -> (e: EidosError)
    ensures
        e matches EidosError::BackendError(m) && m@ == missing_local_message(r),
{
    let mut m = string_of("ローカル変数が見つかりません: RegisterId(");
    push_decimal(&mut m, r.0 as usize);
    append_str(&mut m, ")");
    proof {
        assert(m@ =~= missing_local_message(r));
    }
    EidosError::BackendError(m)
}

impl WasmCodegen {
    /// Whether every data segment ends below 2^32.
    pub closed spec fn wf(&self) -> bool {
        data_fits(self@.data)
    }

    /// A code generator with no locals, globals or functions, an empty table and no data.
    pub fn new() -> (g: Self)
        ensures
            g.wf(),
            g@.locals == Map::<u32, u32>::empty(),
            g@.globals == Map::<Seq<char>, u32>::empty(),
            g@.functions == Map::<Seq<char>, u32>::empty(),
            g@.function_refs == Map::<u32, u32>::empty(),
            g@.table == Seq::<u32>::empty(),
            g@.data == Seq::<(u32, Seq<u8>)>::empty(),
            g@.global_decls == Seq::<(WasmValType, WasmConst)>::empty(),
            g@.imports.len() == 0,
            !g@.memory_imported,
            g@.module_name is None,
    {
        let g = WasmCodegen {
            locals: AssocMap::new(),
            globals: AssocMap::new(),
            functions: AssocMap::new(),
            function_refs: AssocMap::new(),
            table: Vec::new(),
            data: Vec::new(),
            global_decls: Vec::new(),
            imports: Vec::new(),
            memory_imported: false,
            module_name: None,
        };
        proof {
            assert(g@.data =~= Seq::<(u32, Seq<u8>)>::empty());
        }
        g
    }

    /// Puts register `r` in local `index`.
    pub fn add_local(&mut self, r: RegisterId, index: u32)
        requires
            old(self).wf(),
        ensures
            final(self).wf(),
            final(self)@ == (WasmModel { locals: old(self)@.locals.insert(r.0, index), ..old(self)@ }),
    {
        self.locals.insert(r, index);
    }

    /// Names global `index` by `name`.
    pub fn add_global(&mut self, name: String, index: u32)
        requires
            old(self).wf(),
        ensures
            final(self).wf(),
            final(self)@ == (WasmModel { globals: old(self)@.globals.insert(name@, index), ..old(self)@ }),
    {
        self.globals.insert(name, index);
    }

    /// Names function `index` by `name`.
    pub fn add_function(&mut self, name: String, index: u32)
        requires
            old(self).wf(),
        ensures
            final(self).wf(),
            final(self)@ == (WasmModel { functions: old(self)@.functions.insert(name@, index), ..old(self)@ }),
    {
        self.functions.insert(name, index);
    }

    /// Gives EIR function `f` the WebAssembly function `index`.
    pub fn add_function_ref(&mut self, f: FunctionId, index: u32)
        requires
            old(self).wf(),
        ensures
            final(self).wf(),
            final(self)@ == (WasmModel { function_refs: old(self)@.function_refs.insert(f.0, index), ..old(self)@ }),
    {
        self.function_refs.insert(f, index);
    }

    /// The data segments, in the order they were added.
    pub fn data_segments(&self) -> (r: &Vec<(u32, Vec<u8>)>)
        ensures
            r@.map_values(|e: (u32, Vec<u8>)| (e.0, e.1@)) == self@.data,
    {
        &self.data
    }

    /// The function table, in order.
    pub fn function_table(&self) -> (r: &Vec<u32>)
        ensures
            r@ == self@.table,
    {
        &self.table
    }

    /// Where the data ends.
    fn data_end(&self) -> (r: u64)
        requires
            self.wf(),
        ensures
            r == data_end(self@.data),
            r <= u32::MAX,
    {
        proof {
            lemma_data_end_bound(self@.data);
        }
        let ghost d = self@.data;
        let mut end: u64 = 0;
        let mut i: usize = 0;
        proof {
            assert(d.take(0) =~= Seq::<(u32, Seq<u8>)>::empty());
        }
        while i < self.data.len()
            invariant
                d == self@.data,
                data_fits(d),
                i <= d.len(),
                end == data_end(d.take(i as int)),
                end <= u32::MAX,
            decreases d.len() - i,
        {
            proof {
                assert(d[i as int] == (self.data@[i as int].0, self.data@[i as int].1@));
                assert(d[i as int].0 + d[i as int].1.len() <= u32::MAX);
                assert(d.take(i + 1).drop_last() =~= d.take(i as int));
                assert(d.take(i + 1).last() == d[i as int]);
            }
            let e: u64 = self.data[i].0 as u64 + self.data[i].1.len() as u64;
            if e > end {
                end = e;
            }
            i = i + 1;
        }
        proof {
            assert(d.take(i as int) =~= d);
        }
        end
    }

    /// Adds `bytes` as a data segment at the next offset, as `add_data` says.
    pub fn add_string_to_data_section(&mut self, bytes: Vec<u8>) -> (r: Result<u32, EidosError>)
        requires
            old(self).wf(),
        ensures
            final(self).wf(),
            final(self)@ == add_data(old(self)@, bytes@).0,
            match add_data(old(self)@, bytes@).1 {
                Ok(off) => r == Ok::<u32, EidosError>(off),
                Err(t) => r matches Err(EidosError::BackendError(m)) && m@ == t,
            },
    {
        let end = self.data_end();
        let off: u64 = (end + 3) / 4 * 4;
        if bytes.len() as u64 > u32::MAX as u64 || off + bytes.len() as u64 > u32::MAX as u64 {
            return Err(backend_error(string_of("データセクションに空きがありません")));
        }
        let off32 = off as u32;
        let ghost b = bytes@;
        self.data.push((off32, bytes));
        proof {
            let d = self@.data;
            assert(d =~= old(self)@.data.push((off32, b)));
            assert forall|i: int| 0 <= i < d.len() implies #[trigger] d[i].0 + d[i].1.len() <= u32::MAX by {
                if i < old(self)@.data.len() {
                    assert(d[i] == old(self)@.data[i]);
                }
            }
            assert(self@ =~= add_data(old(self)@, b).0);
        }
        Ok(off32)
    }

    /// Adds function `f` to the table, as `table_ref` says.
    fn push_table_ref(&mut self, f: u32) -> (r: Result<Vec<WasmInstr>, EidosError>)
        requires
            old(self).wf(),
        ensures
            final(self).wf(),
            final(self)@ == table_ref(old(self)@, f).0,
            match table_ref(old(self)@, f).1 {
                Ok(c) => r matches Ok(v) && v@ == c,
                Err(t) => r matches Err(EidosError::BackendError(m)) && m@ == t,
            },
    {
        if self.table.len() >= 0x7fff_ffff {
            return Err(backend_error(string_of("関数テーブルがいっぱいです")));
        }
        let idx = self.table.len() as i32;
        self.table.push(f);
        proof {
            assert(self@ =~= table_ref(old(self)@, f).0);
        }
        Ok(vec![WasmInstr::I32Const(idx)])
    }

    /// The code of a literal, as `literal_code` says.
    pub fn build_literal(&mut self, lit: &Literal) -> (r: Result<Vec<WasmInstr>, EidosError>)
        requires
            old(self).wf(),
        ensures
            final(self).wf(),
            final(self)@ == literal_code(old(self)@, *lit).0,
            match literal_code(old(self)@, *lit).1 {
                Ok(c) => r matches Ok(v) && v@ == c,
                Err(t) => r matches Err(EidosError::BackendError(m)) && m@ == t,
            },
    {
        match lit {
            Literal::Int(v) => Ok(vec![WasmInstr::I64Const(*v)]),
            Literal::Float(bits) => Ok(vec![WasmInstr::F64Const(*bits)]),
            Literal::Bool(b) => Ok(vec![WasmInstr::I32Const(if *b { 1 } else { 0 })]),
            Literal::Char(c) => Ok(vec![WasmInstr::I32Const(*c as i32)]),
            Literal::Unit => Ok(vec![WasmInstr::I32Const(0)]),
            Literal::String(s) => {
                let bytes = s.as_str().as_bytes_vec();
                match self.add_string_to_data_section(bytes) {
                    Ok(off) => Ok(vec![WasmInstr::I32Const(off as i32)]),
                    Err(e) => Err(e),
                }
            },
        }
    }
}


/// The result of a code step: the code, or the error text.
pub open spec fn code_result(r: Result<Vec<WasmInstr>, EidosError>, spec_r: Result<Seq<WasmInstr>, Seq<char>>) -> bool {
    match spec_r {
        Ok(c) => r matches Ok(v) && v@ =~= c,
        Err(t) => r matches Err(EidosError::BackendError(m)) && m@ == t,
    }
}

fn append_code(head: &mut Vec<WasmInstr>, tail: Vec<WasmInstr>)
    ensures
        final(head)@ == old(head)@ + tail@,
{
    let mut t = tail;
    head.append(&mut t);
}

impl WasmCodegen {
    /// The code that pushes an operand, as `operand_code` says.
    pub fn build_operand(&mut self, op: &Operand) -> (r: Result<Vec<WasmInstr>, EidosError>)
        requires
            old(self).wf(),
        ensures
            final(self).wf(),
            final(self)@ == operand_code(old(self)@, *op).0,
            code_result(r, operand_code(old(self)@, *op).1),
    {
        match op {
            Operand::Literal(lit) => self.build_literal(lit),
            Operand::Register(reg) => match self.locals.get(reg) {
                Some(l) => Ok(vec![WasmInstr::LocalGet(*l)]),
                None => Err(missing_local(*reg)),
            },
            Operand::Global(name) => match self.globals.get(name) {
                Some(g) => Ok(vec![WasmInstr::GlobalGet(*g)]),
                None => {
                    let mut m = string_of("グローバル変数が見つかりません: ");
                    append_str(&mut m, name.as_str());
                    Err(backend_error(m))
                },
            },
            Operand::Function(f) => match self.function_refs.get(f) {
                Some(idx) => {
                    let i = *idx;
                    self.push_table_ref(i)
                },
                None => {
                    let mut m = string_of("関数が見つかりません: FunctionId(");
                    push_decimal(&mut m, f.0 as usize);
                    append_str(&mut m, ")");
                    proof {
                        assert(m@ =~= "関数が見つかりません: FunctionId("@ + decimal(f.0 as nat) + ")"@);
                    }
                    Err(backend_error(m))
                },
            },
            Operand::ExternalFunction(name) => match self.functions.get(name) {
                Some(idx) => {
                    let i = *idx;
                    self.push_table_ref(i)
                },
                None => {
                    let mut m = string_of("関数が見つかりません: ");
                    append_str(&mut m, name.as_str());
                    Err(backend_error(m))
                },
            },
            Operand::Symbol(_) => Err(backend_error(string_of("未対応のオペランド: Symbol"))),
            Operand::Block(_) => Err(backend_error(string_of("未対応のオペランド: Block"))),
        }
    }

    /// The code that pushes two operands, as `two_operands` says.
    fn build_two(&mut self, a: &Operand, b: &Operand) -> (r: Result<Vec<WasmInstr>, EidosError>)
        requires
            old(self).wf(),
        ensures
            final(self).wf(),
            final(self)@ == two_operands(old(self)@, *a, *b).0,
            code_result(r, two_operands(old(self)@, *a, *b).1),
    {
        let mut c = match self.build_operand(a) {
            Ok(c) => c,
            Err(e) => {
                return Err(e);
            },
        };
        let c2 = match self.build_operand(b) {
            Ok(c2) => c2,
            Err(e) => {
                return Err(e);
            },
        };
        append_code(&mut c, c2);
        Ok(c)
    }

    /// The code that pushes a list of operands, as `operands_code` says.
    fn build_operands(&mut self, ops: &Vec<Operand>) -> (r: Result<Vec<WasmInstr>, EidosError>)
        requires
            old(self).wf(),
        ensures
            final(self).wf(),
            final(self)@ == operands_code(old(self)@, ops@).0,
            code_result(r, operands_code(old(self)@, ops@).1),
    {
        let mut code: Vec<WasmInstr> = Vec::new();
        let mut i: usize = 0;
        proof {
            assert(ops@.take(0) =~= Seq::<Operand>::empty());
        }
        while i < ops.len()
            invariant
                i <= ops@.len(),
                self.wf(),
                operands_code(old(self)@, ops@.take(i as int)) == (self@, Ok::<Seq<WasmInstr>, Seq<char>>(code@)),
            decreases ops@.len() - i,
        {
            proof {
                assert(ops@.take(i + 1).drop_last() =~= ops@.take(i as int));
                assert(ops@.take(i + 1).last() == ops@[i as int]);
            }
            let c = match self.build_operand(&ops[i]) {
                Ok(c) => c,
                Err(e) => {
                    proof {
                        lemma_operands_error_prefix(old(self)@, ops@, i as int + 1);
                    }
                    return Err(e);
                },
            };
            append_code(&mut code, c);
            i = i + 1;
        }
        proof {
            assert(ops@.take(i as int) =~= ops@);
        }
        Ok(code)
    }

    /// Stores the top of the stack in register `r`'s local.
    fn build_set_local(&self, reg: RegisterId) -> (r: Result<Vec<WasmInstr>, EidosError>)
        ensures
            code_result(r, set_local(self@, reg)),
    {
        match self.locals.get(&reg) {
            Some(l) => Ok(vec![WasmInstr::LocalSet(*l)]),
            None => Err(missing_local(reg)),
        }
    }

    /// The code of an instruction, as `instruction_code` says.
    pub fn build_instruction(&mut self, instr: &Instruction) -> (r: Result<Vec<WasmInstr>, EidosError>)
        requires
            old(self).wf(),
        ensures
            final(self).wf(),
            final(self)@ == instruction_code(old(self)@, *instr).0,
            code_result(r, instruction_code(old(self)@, *instr).1),
    {
        match instr {
            Instruction::BinaryOp { op, lhs, rhs, result } => {
                let mut c = match self.build_two(lhs, rhs) {
                    Ok(c) => c,
                    Err(e) => {
                        return Err(e);
                    },
                };
                let b: Vec<WasmInstr> = match op {
                    BinaryOp::Add => vec![WasmInstr::I64Add],
                    BinaryOp::Sub => vec![WasmInstr::I64Sub],
                    BinaryOp::Mul => vec![WasmInstr::I64Mul],
                    BinaryOp::Div => vec![WasmInstr::I64DivS],
                    BinaryOp::Rem => vec![WasmInstr::I64RemS],
                    BinaryOp::Eq => vec![WasmInstr::I64Eq],
                    BinaryOp::Ne => vec![WasmInstr::I64Ne],
                    BinaryOp::Lt => vec![WasmInstr::I64LtS],
                    BinaryOp::Le => vec![WasmInstr::I64LeS],
                    BinaryOp::Gt => vec![WasmInstr::I64GtS],
                    BinaryOp::Ge => vec![WasmInstr::I64GeS],
                    BinaryOp::And => vec![WasmInstr::I64And, WasmInstr::I32WrapI64],
                    BinaryOp::Or => vec![WasmInstr::I64Or, WasmInstr::I32WrapI64],
                    _ => {
                        let mut m = string_of("未対応のバイナリ演算子: ");
                        let name = match op {
                            BinaryOp::BitAnd => "BitAnd",
                            BinaryOp::BitOr => "BitOr",
                            BinaryOp::BitXor => "BitXor",
                            BinaryOp::Shl => "Shl",
                            _ => "Shr",
                        };
                        append_str(&mut m, name);
                        return Err(backend_error(m));
                    },
                };
                append_code(&mut c, b);
                let set = match self.build_set_local(*result) {
                    Ok(s) => s,
                    Err(e) => {
                        return Err(e);
                    },
                };
                append_code(&mut c, set);
                Ok(c)
            },
            Instruction::UnaryOp { op, operand, result } => {
                let mut c = match self.build_operand(operand) {
                    Ok(c) => c,
                    Err(e) => {
                        return Err(e);
                    },
                };
                let u: Vec<WasmInstr> = match op {
                    UnaryOp::Neg => match operand {
                        Operand::Literal(Literal::Int(_)) => vec![WasmInstr::I64Const(-1), WasmInstr::I64Mul],
                        Operand::Literal(Literal::Float(_)) => vec![WasmInstr::F64Neg],
                        _ => {
                            return Err(backend_error(string_of("負数化は整数か浮動小数点数のみサポートされています")));
                        },
                    },
                    UnaryOp::Not => match operand {
                        Operand::Literal(Literal::Bool(_)) => vec![WasmInstr::I32Const(1), WasmInstr::I32Xor],
                        _ => {
                            return Err(backend_error(string_of("論理否定はブール値のみサポートされています")));
                        },
                    },
                    UnaryOp::BitNot => {
                        return Err(backend_error(string_of("未対応の単項演算子: BitNot")));
                    },
                    UnaryOp::Cast => {
                        return Err(backend_error(string_of("未対応の単項演算子: Cast")));
                    },
                };
                append_code(&mut c, u);
                let set = match self.build_set_local(*result) {
                    Ok(s) => s,
                    Err(e) => {
                        return Err(e);
                    },
                };
                append_code(&mut c, set);
                Ok(c)
            },
            Instruction::Load { address, result } => {
                let mut c = match self.build_operand(address) {
                    Ok(c) => c,
                    Err(e) => {
                        return Err(e);
                    },
                };
                c.push(WasmInstr::I64Load);
                let set = match self.build_set_local(*result) {
                    Ok(s) => s,
                    Err(e) => {
                        return Err(e);
                    },
                };
                append_code(&mut c, set);
                Ok(c)
            },
            Instruction::Store { address, value } => {
                let mut c = match self.build_two(address, value) {
                    Ok(c) => c,
                    Err(e) => {
                        return Err(e);
                    },
                };
                c.push(WasmInstr::I64Store);
                Ok(c)
            },
            Instruction::Call { function, arguments, result } => {
                let mut c = match self.build_operands(arguments) {
                    Ok(c) => c,
                    Err(e) => {
                        return Err(e);
                    },
                };
                match self.functions.get(function) {
                    Some(f) => {
                        c.push(WasmInstr::Call(*f));
                    },
                    None => {
                        let mut m = string_of("関数が見つかりません: ");
                        append_str(&mut m, function.as_str());
                        return Err(backend_error(m));
                    },
                }
                match result {
                    Some(reg) => match self.locals.get(reg) {
                        Some(l) => {
                            c.push(WasmInstr::LocalSet(*l));
                        },
                        None => {},
                    },
                    None => {},
                }
                Ok(c)
            },
            Instruction::Return { value } => match value {
                Some(v) => {
                    let mut c = match self.build_operand(v) {
                        Ok(c) => c,
                        Err(e) => {
                            return Err(e);
                        },
                    };
                    c.push(WasmInstr::Return);
                    Ok(c)
                },
                None => Ok(vec![WasmInstr::Return]),
            },
            Instruction::Branch { target } => Ok(vec![WasmInstr::Br(target.0)]),
            Instruction::BranchCond { condition, true_target, false_target } => {
                let mut c = match self.build_operand(condition) {
                    Ok(c) => c,
                    Err(e) => {
                        return Err(e);
                    },
                };
                c.push(WasmInstr::IfElseBr(true_target.0, false_target.0));
                Ok(c)
            },
            Instruction::Alloca { size, result } => {
                let alloc_name = string_of("__alloc");
                let malloc_name = string_of("malloc");
                let alloc = match self.functions.get(&alloc_name) {
                    Some(f) => Some(*f),
                    None => match self.functions.get(&malloc_name) {
                        Some(f) => Some(*f),
                        None => None,
                    },
                };
                match alloc {
                    None => Err(backend_error(string_of("メモリ割り当て関数を宣言できません"))),
                    Some(f) => {
                        if *size > 0x7fff_ffff {
                            return Err(backend_error(string_of("割り当てサイズが大きすぎます")));
                        }
                        let mut c = vec![WasmInstr::I32Const(*size as i32), WasmInstr::Call(f)];
                        let set = match self.build_set_local(*result) {
                            Ok(s) => s,
                            Err(e) => {
                                return Err(e);
                            },
                        };
                        append_code(&mut c, set);
                        Ok(c)
                    },
                }
            },
            _ => {
                let mut m = string_of("未対応の命令: ");
                let name = match instr {
                    Instruction::GetElementPtr { .. } => "GetElementPtr",
                    Instruction::Cast { .. } => "Cast",
                    Instruction::Phi { .. } => "Phi",
                    Instruction::Select { .. } => "Select",
                    Instruction::Atomic { .. } => "Atomic",
                    Instruction::ExternalCall { .. } => "ExternalCall",
                    Instruction::InlineAsm { .. } => "InlineAsm",
                    _ => "DebugInfo",
                };
                append_str(&mut m, name);
                Err(backend_error(m))
            },
        }
    }
}

/// Once a prefix of the operands fails, the whole list fails the same way.
proof fn lemma_operands_error_prefix(m: WasmModel, ops: Seq<Operand>, j: int)
    requires
        0 <= j <= ops.len(),
        operands_code(m, ops.take(j)).1 is Err,
    ensures
        operands_code(m, ops) == operands_code(m, ops.take(j)),
    decreases ops.len(),
{
    if ops.len() == j {
        assert(ops.take(j) =~= ops);
    } else {
        assert(ops.drop_last().take(j) =~= ops.take(j));
        lemma_operands_error_prefix(m, ops.drop_last(), j);
    }
}


proof fn lemma_segment_within_end(data: Seq<(u32, Seq<u8>)>, i: int)
    requires
        0 <= i < data.len(),
    ensures
        data[i].0 + data[i].1.len() <= data_end(data),
    decreases data.len(),
{
    if i < data.len() - 1 {
        lemma_segment_within_end(data.drop_last(), i);
        assert(data.drop_last()[i] == data[i]);
    }
}

/// A string added to the data starts on a multiple of 4, after every
/// segment added before it, so segments never overlap.
pub proof fn lemma_add_data_disjoint(m: WasmModel, bytes: Seq<u8>)
    ensures
        add_data(m, bytes).1 matches Ok(off) ==> {
            &&& off % 4 == 0
            &&& forall|i: int| 0 <= i < m.data.len() ==> #[trigger] m.data[i].0 + m.data[i].1.len() <= off
        },
{
    let end = data_end(m.data);
    assert(end >= 0) by {
        if m.data.len() > 0 {
            lemma_segment_within_end(m.data, 0);
        }
    }
    let off = align_up(end, 4);
    assert(off >= end && off % 4 == 0) by (nonlinear_arith)
        requires
            off == ((end + 4 - 1) / 4) * 4,
            end >= 0,
    ;
    assert forall|i: int| 0 <= i < m.data.len() implies #[trigger] m.data[i].0 + m.data[i].1.len() <= off by {
        lemma_segment_within_end(m.data, i);
    }
}


// ---------------------------------------------------------------------------
// Globals.

/// The zero of a value type.
pub open spec fn zero_of(t: WasmValType) -> WasmConst {
    match t {
        WasmValType::I32 => WasmConst::I32(0),
        WasmValType::I64 => WasmConst::I64(0),
        WasmValType::F32 => WasmConst::F32(0),
        WasmValType::F64 => WasmConst::F64(0),
    }
}

/// The initial value of a global of type `t`: its initializer as a constant,
/// a string as the offset of its bytes, added to the data; zero without one.
pub open spec fn global_init(m: WasmModel, t: WasmValType, init: Option<Literal>) -> (WasmModel, Result<WasmConst, Seq<char>>) {
    match init {
        None => (m, Ok(zero_of(t))),
        Some(Literal::Int(v)) => (m, Ok(WasmConst::I64(v))),
        Some(Literal::Float(bits)) => (m, Ok(WasmConst::F64(bits))),
        Some(Literal::Bool(b)) => (m, Ok(WasmConst::I32(if b { 1 } else { 0 }))),
        Some(Literal::Char(c)) => (m, Ok(WasmConst::I32(c as i32))),
        Some(Literal::Unit) => (m, Ok(WasmConst::I32(0))),
        Some(Literal::String(s)) => match add_data(m, vstd::utf8::encode_utf8(s@)) {
            (m1, Ok(off)) => (m1, Ok(WasmConst::I32(off as i32))),
            (m1, Err(e)) => (m1, Err(e)),
        },
    }
}

/// Declares a mutable global named `name` of type `t`: its value type, its
/// initial value, the next global index, which the name then refers to.
pub open spec fn declare_global_spec(m: WasmModel, name: Seq<char>, t: Type, init: Option<Literal>) -> (WasmModel, Result<u32, Seq<char>>) {
    match wasm_val_type(t.kind) {
        None => (m, Err(unsupported_type_message(t))),
        Some(vt) => if m.global_decls.len() >= u32::MAX {
            (m, Err("グローバル変数が多すぎます"@))
        } else {
            let (m1, r) = global_init(m, vt, init);
            match r {
                Err(e) => (m1, Err(e)),
                Ok(c) => {
                    let index = m1.global_decls.len() as u32;
                    (WasmModel {
                        global_decls: m1.global_decls.push((vt, c)),
                        globals: m1.globals.insert(name, index),
                        ..m1
                    }, Ok(index))
                },
            }
        },
    }
}

impl WasmCodegen {
    /// The declared globals, by index.
    pub fn globals(&self) -> (r: &Vec<(WasmValType, WasmConst)>)
        ensures
            r@ == self@.global_decls,
    {
        &self.global_decls
    }

    fn build_global_init(&mut self, t: WasmValType, init: Option<&Literal>) -> (r: Result<WasmConst, EidosError>)
        requires
            old(self).wf(),
        ensures
            final(self).wf(),
            final(self)@ == global_init(old(self)@, t, match init { Some(l) => Some(*l), None => None }).0,
            match global_init(old(self)@, t, match init { Some(l) => Some(*l), None => None }).1 {
                Ok(c) => r == Ok::<WasmConst, EidosError>(c),
                Err(e) => r matches Err(EidosError::BackendError(m)) && m@ == e,
            },
    {
        match init {
            None => Ok(match t {
                WasmValType::I32 => WasmConst::I32(0),
                WasmValType::I64 => WasmConst::I64(0),
                WasmValType::F32 => WasmConst::F32(0),
                WasmValType::F64 => WasmConst::F64(0),
            }),
            Some(Literal::Int(v)) => Ok(WasmConst::I64(*v)),
            Some(Literal::Float(bits)) => Ok(WasmConst::F64(*bits)),
            Some(Literal::Bool(b)) => Ok(WasmConst::I32(if *b { 1 } else { 0 })),
            Some(Literal::Char(c)) => Ok(WasmConst::I32(*c as i32)),
            Some(Literal::Unit) => Ok(WasmConst::I32(0)),
            Some(Literal::String(s)) => {
                let bytes = s.as_str().as_bytes_vec();
                match self.add_string_to_data_section(bytes) {
                    Ok(off) => Ok(WasmConst::I32(off as i32)),
                    Err(e) => Err(e),
                }
            },
        }
    }

    /// Declares a mutable global, as `declare_global_spec` says; its index.
    pub fn declare_global(&mut self, name: String, ty: &Type, initializer: Option<&Literal>) -> (r: Result<u32, EidosError>)
        requires
            old(self).wf(),
        ensures
            final(self).wf(),
            final(self)@ == declare_global_spec(old(self)@, name@, *ty, match initializer { Some(l) => Some(*l), None => None }).0,
            match declare_global_spec(old(self)@, name@, *ty, match initializer { Some(l) => Some(*l), None => None }).1 {
                Ok(i) => r == Ok::<u32, EidosError>(i),
                Err(e) => r matches Err(EidosError::BackendError(m)) && m@ == e,
            },
    {
        let vt = match wasm_type(ty) {
            Ok(vt) => vt,
            Err(e) => {
                return Err(e);
            },
        };
        if self.global_decls.len() >= 0xffff_ffff {
            return Err(backend_error(string_of("グローバル変数が多すぎます")));
        }
        let c = match self.build_global_init(vt, initializer) {
            Ok(c) => c,
            Err(e) => {
                return Err(e);
            },
        };
        let index = self.global_decls.len() as u32;
        self.global_decls.push((vt, c));
        self.globals.insert(name, index);
        proof {
            assert(self@ =~= declare_global_spec(old(self)@, name@, *ty, match initializer { Some(l) => Some(*l), None => None }).0);
        }
        Ok(index)
    }
}


// ---------------------------------------------------------------------------
// Imported functions.

/// Where `::` first occurs in `s` at or after `i`.
pub open spec fn first_sep_from(s: Seq<char>, i: int) -> Option<int>
    decreases s.len() - i,
{
    if i < 0 || i + 1 >= s.len() {
        None
    } else if s[i] == ':' && s[i + 1] == ':' {
        Some(i)
    } else {
        first_sep_from(s, i + 1)
    }
}

/// The module an imported function comes from: the part of its name before
/// the first `::`; else `env` for a name that starts with `__`; else `ext`.
pub open spec fn import_module(name: Seq<char>) -> Seq<char> {
    match first_sep_from(name, 0) {
        Some(i) => name.take(i),
        None => if name.len() >= 2 && name[0] == '_' && name[1] == '_' { "env"@ } else { "ext"@ },
    }
}

/// The value types of a list of types, or the first type without one.
pub open spec fn param_types(ps: Seq<Type>) -> Result<Seq<WasmValType>, Type>
    decreases ps.len(),
{
    if ps.len() == 0 {
        Ok(seq![])
    } else {
        match param_types(ps.drop_last()) {
            Err(t) => Err(t),
            Ok(vs) => match wasm_val_type(ps.last().kind) {
                Some(v) => Ok(vs.push(v)),
                None => Err(ps.last()),
            },
        }
    }
}

/// Imports function `name` with the given parameter and return types: none
/// for a unit return type. The name then refers to the next function index.
/// Memory management functions import `env.memory` once; a `wasi_` function
/// names the module `wasi_module`.
pub open spec fn declare_function_spec(m: WasmModel, name: Seq<char>, params: Seq<Type>, ret: Type) -> (WasmModel, Result<u32, Seq<char>>) {
    match param_types(params) {
        Err(t) => (m, Err(unsupported_type_message(t))),
        Ok(ps) => {
            let results: Result<Seq<WasmValType>, Seq<char>> = if ret.kind is Unit {
                Ok(seq![])
            } else {
                match wasm_val_type(ret.kind) {
                    Some(v) => Ok(seq![v]),
                    None => Err(unsupported_type_message(ret)),
                }
            };
            match results {
                Err(e) => (m, Err(e)),
                Ok(rs) => if m.imports.len() >= u32::MAX {
                    (m, Err("関数が多すぎます"@))
                } else {
                    let index = m.imports.len() as u32;
                    let m1 = WasmModel {
                        imports: m.imports.push((import_module(name), name, ps, rs)),
                        functions: m.functions.insert(name, index),
                        ..m
                    };
                    let m2 = if name == "malloc"@ || name == "free"@ || name == "realloc"@ {
                        WasmModel { memory_imported: true, ..m1 }
                    } else if name.len() >= 5 && name.take(5) == "wasi_"@ {
                        WasmModel { module_name: Some("wasi_module"@), ..m1 }
                    } else {
                        m1
                    };
                    (m2, Ok(index))
                },
            }
        },
    }
}

fn import_module_of(name: &String) -> (r: String)
    ensures
        r@ == import_module(name@),
{
    let chars = crate::util::str_to_chars(name.as_str());
    let mut i: usize = 0;
    while i < chars.len()
        invariant
            chars@ == name@,
            i <= chars@.len(),
            first_sep_from(name@, 0) == first_sep_from(name@, i as int),
        decreases chars@.len() - i,
    {
        if i + 1 < chars.len() && chars[i] == ':' && chars[i + 1] == ':' {
            let mut r = String::new();
            let mut j: usize = 0;
            while j < i
                invariant
                    chars@ == name@,
                    j <= i,
                    i < chars@.len(),
                    r@ == name@.take(j as int),
                decreases i - j,
            {
                crate::util::push_char(&mut r, chars[j]);
                proof {
                    assert(name@.take(j + 1) =~= name@.take(j as int).push(name@[j as int]));
                }
                j = j + 1;
            }
            return r;
        }
        i = i + 1;
    }
    if chars.len() >= 2 && chars[0] == '_' && chars[1] == '_' {
        string_of("env")
    } else {
        string_of("ext")
    }
}

fn starts_with_wasi(name: &String) -> (r: bool)
    ensures
        r == (name@.len() >= 5 && name@.take(5) == "wasi_"@),
{
    let chars = crate::util::str_to_chars(name.as_str());
    proof {
        reveal_strlit("wasi_");
    }
    let r = chars.len() >= 5 && chars[0] == 'w' && chars[1] == 'a' && chars[2] == 's' && chars[3] == 'i' && chars[4] == '_';
    proof {
        if chars@.len() >= 5 {
            if r {
                assert(name@.take(5) =~= "wasi_"@);
            } else {
                if name@.take(5) == "wasi_"@ {
                    assert(name@.take(5)[0] == 'w');
                    assert(name@.take(5)[1] == 'a');
                    assert(name@.take(5)[2] == 's');
                    assert(name@.take(5)[3] == 'i');
                    assert(name@.take(5)[4] == '_');
                }
            }
        }
    }
    r
}

impl WasmCodegen {
    /// The imported functions, by index.
    pub fn function_imports(&self) -> (r: &Vec<FunctionImport>)
        ensures
            r@.map_values(|f: FunctionImport| (f.module@, f.name@, f.params@, f.results@)) == self@.imports,
    {
        &self.imports
    }

    /// Whether `env.memory` is imported.
    pub fn memory_imported(&self) -> (r: bool)
        ensures
            r == self@.memory_imported,
    {
        self.memory_imported
    }

    /// The name given to the module, if any.
    pub fn module_name(&self) -> (r: Option<&String>)
        ensures
            match r {
                Some(n) => self@.module_name == Some(n@),
                None => self@.module_name is None,
            },
    {
        self.module_name.as_ref()
    }

    /// Imports a function, as `declare_function_spec` says; its index.
    pub fn declare_function(&mut self, name: &String, params: &Vec<Type>, return_type: &Type) -> (r: Result<u32, EidosError>)
        requires
            old(self).wf(),
        ensures
            final(self).wf(),
            final(self)@ == declare_function_spec(old(self)@, name@, params@, *return_type).0,
            match declare_function_spec(old(self)@, name@, params@, *return_type).1 {
                Ok(i) => r == Ok::<u32, EidosError>(i),
                Err(e) => r matches Err(EidosError::BackendError(m)) && m@ == e,
            },
    {
        let mut ps: Vec<WasmValType> = Vec::new();
        let mut i: usize = 0;
        proof {
            assert(params@.take(0) =~= Seq::<Type>::empty());
        }
        while i < params.len()
            invariant
                i <= params@.len(),
                self.wf(),
                self@ == old(self)@,
                param_types(params@.take(i as int)) == Ok::<Seq<WasmValType>, Type>(ps@),
            decreases params@.len() - i,
        {
            proof {
                assert(params@.take(i + 1).drop_last() =~= params@.take(i as int));
                assert(params@.take(i + 1).last() == params@[i as int]);
            }
            match wasm_type(&params[i]) {
                Ok(v) => {
                    ps.push(v);
                },
                Err(e) => {
                    proof {
                        lemma_param_types_error_prefix(params@, i as int + 1);
                    }
                    return Err(e);
                },
            }
            i = i + 1;
        }
        proof {
            assert(params@.take(i as int) =~= params@);
        }
        let mut rs: Vec<WasmValType> = Vec::new();
        match &return_type.kind {
            crate::types::TypeKind::Unit => {},
            _ => match wasm_type(return_type) {
                Ok(v) => {
                    rs.push(v);
                },
                Err(e) => {
                    return Err(e);
                },
            },
        }
        if self.imports.len() >= 0xffff_ffff {
            return Err(backend_error(string_of("関数が多すぎます")));
        }
        let index = self.imports.len() as u32;
        let module = import_module_of(name);
        self.imports.push(FunctionImport { module, name: name.clone(), params: ps, results: rs });
        self.functions.insert(name.clone(), index);
        let ghost m1 = self@;
        if crate::util::str_eq(name.as_str(), "malloc") || crate::util::str_eq(name.as_str(), "free")
            || crate::util::str_eq(name.as_str(), "realloc") {
            self.memory_imported = true;
        } else if starts_with_wasi(name) {
            self.module_name = Some(string_of("wasi_module"));
        }
        proof {
            assert(m1.imports =~= old(self)@.imports.push((import_module(name@), name@, ps@, rs@)));
            assert(self@ =~= declare_function_spec(old(self)@, name@, params@, *return_type).0);
        }
        Ok(index)
    }
}

proof fn lemma_param_types_error_prefix(ps: Seq<Type>, j: int)
    requires
        0 <= j <= ps.len(),
        param_types(ps.take(j)) is Err,
    ensures
        param_types(ps) == param_types(ps.take(j)),
    decreases ps.len(),
{
    if ps.len() == j {
        assert(ps.take(j) =~= ps);
    } else {
        assert(ps.drop_last().take(j) =~= ps.take(j));
        lemma_param_types_error_prefix(ps.drop_last(), j);
    }
}


// ---------------------------------------------------------------------------
// Constant folding on generated code.

/// The constant an instruction pushes, if it only pushes a constant.
pub open spec fn const_of(i: WasmInstr) -> Option<WasmConst> {
    match i {
        WasmInstr::I32Const(v) => Some(WasmConst::I32(v)),
        WasmInstr::I64Const(v) => Some(WasmConst::I64(v)),
        WasmInstr::F64Const(v) => Some(WasmConst::F64(v)),
        _ => None,
    }
}

/// The instruction that pushes a constant; there is none for `f32`.
pub open spec fn const_instr(c: WasmConst) -> Option<WasmInstr> {
    match c {
        WasmConst::I32(v) => Some(WasmInstr::I32Const(v)),
        WasmConst::I64(v) => Some(WasmInstr::I64Const(v)),
        WasmConst::F64(v) => Some(WasmInstr::F64Const(v)),
        WasmConst::F32(_) => None,
    }
}

/// `a / b` rounded toward zero, wrapping: the one overflowing quotient,
/// `i32::MIN / -1`, is `i32::MIN`.
pub open spec fn wrapping_quot_i32(a: i32, b: i32) -> i32 {
    match a.checked_div(b) {
        Some(q) => q,
        None => a,
    }
}

/// `a / b` rounded toward zero, wrapping: the one overflowing quotient,
/// `i64::MIN / -1`, is `i64::MIN`.
pub open spec fn wrapping_quot_i64(a: i64, b: i64) -> i64 {
    match a.checked_div(b) {
        Some(q) => q,
        None => a,
    }
}

/// What a binary operator gives on two constants, where it can be computed
/// ahead: addition, subtraction and multiplication wrap, division rounds
/// toward zero and wraps, and division by zero is left to run time.
pub open spec fn const_binop(op: WasmInstr, lhs: WasmConst, rhs: WasmConst) -> Option<WasmConst> {
    match (lhs, rhs) {
        (WasmConst::I32(a), WasmConst::I32(b)) => match op {
            WasmInstr::I32Add => Some(WasmConst::I32(a.wrapping_add(b))),
            WasmInstr::I32Sub => Some(WasmConst::I32(a.wrapping_sub(b))),
            WasmInstr::I32Mul => Some(WasmConst::I32(a.wrapping_mul(b))),
            WasmInstr::I32DivS => if b == 0 { None } else { Some(WasmConst::I32(wrapping_quot_i32(a, b))) },
            _ => None,
        },
        (WasmConst::I64(a), WasmConst::I64(b)) => match op {
            WasmInstr::I64Add => Some(WasmConst::I64(a.wrapping_add(b))),
            WasmInstr::I64Sub => Some(WasmConst::I64(a.wrapping_sub(b))),
            WasmInstr::I64Mul => Some(WasmConst::I64(a.wrapping_mul(b))),
            WasmInstr::I64DivS => if b == 0 { None } else { Some(WasmConst::I64(wrapping_quot_i64(a, b))) },
            _ => None,
        },
        _ => None,
    }
}

/// The constant an instruction pushes, as `const_of` says.
pub fn get_constant_value(instr: &WasmInstr) -> (r: Option<WasmConst>)
    ensures
        r == const_of(*instr),
{
    match instr {
        WasmInstr::I32Const(v) => Some(WasmConst::I32(*v)),
        WasmInstr::I64Const(v) => Some(WasmConst::I64(*v)),
        WasmInstr::F64Const(v) => Some(WasmConst::F64(*v)),
        _ => None,
    }
}

fn quot_i32(a: i32, b: i32) -> (r: i32)
    requires
        b != 0,
    ensures
        r == wrapping_quot_i32(a, b),
{
    match a.checked_div(b) {
        Some(q) => q,
        None => a,
    }
}

fn quot_i64(a: i64, b: i64) -> (r: i64)
    requires
        b != 0,
    ensures
        r == wrapping_quot_i64(a, b),
{
    match a.checked_div(b) {
        Some(q) => q,
        None => a,
    }
}

/// What `op` gives on two constants, as `const_binop` says.
pub fn calculate_constant_binop(op: &WasmInstr, lhs: WasmConst, rhs: WasmConst) -> (r: Option<WasmConst>)
    ensures
        r == const_binop(*op, lhs, rhs),
{
    match (lhs, rhs) {
        (WasmConst::I32(a), WasmConst::I32(b)) => match op {
            WasmInstr::I32Add => Some(WasmConst::I32(a.wrapping_add(b))),
            WasmInstr::I32Sub => Some(WasmConst::I32(a.wrapping_sub(b))),
            WasmInstr::I32Mul => Some(WasmConst::I32(a.wrapping_mul(b))),
            WasmInstr::I32DivS => if b == 0 { None } else { Some(WasmConst::I32(quot_i32(a, b))) },
            _ => None,
        },
        (WasmConst::I64(a), WasmConst::I64(b)) => match op {
            WasmInstr::I64Add => Some(WasmConst::I64(a.wrapping_add(b))),
            WasmInstr::I64Sub => Some(WasmConst::I64(a.wrapping_sub(b))),
            WasmInstr::I64Mul => Some(WasmConst::I64(a.wrapping_mul(b))),
            WasmInstr::I64DivS => if b == 0 { None } else { Some(WasmConst::I64(quot_i64(a, b))) },
            _ => None,
        },
        _ => None,
    }
}

/// The instruction that replaces `a b op`, where `a` and `b` push constants
/// and `op` can be computed on them ahead.
pub open spec fn folds_to(a: WasmInstr, b: WasmInstr, op: WasmInstr) -> Option<WasmInstr> {
    match (const_of(a), const_of(b)) {
        (Some(x), Some(y)) => match const_binop(op, x, y) {
            Some(c) => const_instr(c),
            None => None,
        },
        _ => None,
    }
}

/// `x` appended to already folded code: where the two instructions before
/// it push constants that `x` combines, the three become one constant.
pub open spec fn fold_push(out: Seq<WasmInstr>, x: WasmInstr) -> Seq<WasmInstr> {
    if out.len() >= 2 && folds_to(out[out.len() - 2], out[out.len() - 1], x) is Some {
        out.take(out.len() - 2).push(folds_to(out[out.len() - 2], out[out.len() - 1], x)->0)
    } else {
        out.push(x)
    }
}

/// The code with its constant operations folded, from first to last.
pub open spec fn folded_code(s: Seq<WasmInstr>) -> Seq<WasmInstr>
    decreases s.len(),
{
    if s.len() == 0 {
        s
    } else {
        fold_push(folded_code(s.drop_last()), s.last())
    }
}

/// Whether no three consecutive instructions of `s` can be folded.
pub open spec fn fully_folded(s: Seq<WasmInstr>) -> bool {
    forall|i: int| 0 <= i && i + 2 < s.len() ==> #[trigger] folds_to(s[i], s[i + 1], s[i + 2]) is None
}

/// Folds the constant operations of `code`, as `folded_code` says.
pub fn fold_constants_in_block(code: &mut Vec<WasmInstr>)
    ensures
        final(code)@ == folded_code(old(code)@),
{
    let mut out: Vec<WasmInstr> = Vec::new();
    let mut i: usize = 0;
    while i < code.len()
        invariant
            code@ == old(code)@,
            i <= code@.len(),
            out@ == folded_code(code@.take(i as int)),
        decreases code@.len() - i,
    {
        let x = code[i];
        proof {
            assert(code@.take(i + 1).drop_last() =~= code@.take(i as int));
            assert(code@.take(i + 1).last() == x);
        }
        let n = out.len();
        let mut folded: Option<WasmInstr> = None;
        if n >= 2 {
            match (get_constant_value(&out[n - 2]), get_constant_value(&out[n - 1])) {
                (Some(a), Some(b)) => match calculate_constant_binop(&x, a, b) {
                    Some(WasmConst::I32(v)) => { folded = Some(WasmInstr::I32Const(v)); },
                    Some(WasmConst::I64(v)) => { folded = Some(WasmInstr::I64Const(v)); },
                    Some(WasmConst::F64(v)) => { folded = Some(WasmInstr::F64Const(v)); },
                    _ => {},
                },
                _ => {},
            }
        }
        match folded {
            Some(c) => {
                out.pop();
                out.pop();
                out.push(c);
                proof {
                    assert(out@ =~= fold_push(folded_code(code@.take(i as int)), x));
                }
            },
            None => {
                out.push(x);
            },
        }
        i = i + 1;
    }
    proof {
        assert(code@.take(code@.len() as int) =~= code@);
    }
    *code = out;
}

/// Folded code has nothing left to fold.
pub proof fn lemma_folded_code_fully_folded(s: Seq<WasmInstr>)
    ensures
        fully_folded(folded_code(s)),
    decreases s.len(),
{
    if s.len() > 0 {
        lemma_folded_code_fully_folded(s.drop_last());
        let out = folded_code(s.drop_last());
        let r = folded_code(s);
        assert forall|i: int| 0 <= i && i + 2 < r.len() implies #[trigger] folds_to(r[i], r[i + 1], r[i + 2]) is None by {
            if i + 2 < r.len() - 1 {
                assert(r[i] == out[i] && r[i + 1] == out[i + 1] && r[i + 2] == out[i + 2]);
            }
        }
    }
}

/// Code with nothing to fold is left as it is.
pub proof fn lemma_fully_folded_is_fixed(s: Seq<WasmInstr>)
    requires
        fully_folded(s),
    ensures
        folded_code(s) == s,
    decreases s.len(),
{
    if s.len() > 0 {
        let p = s.drop_last();
        assert forall|i: int| 0 <= i && i + 2 < p.len() implies #[trigger] folds_to(p[i], p[i + 1], p[i + 2]) is None by {
            assert(folds_to(s[i], s[i + 1], s[i + 2]) is None);
        }
        lemma_fully_folded_is_fixed(p);
        if s.len() >= 3 {
            let i = s.len() - 3;
            assert(folds_to(s[i], s[i + 1], s[i + 2]) is None);
            assert(p[p.len() - 2] == s[i] && p[p.len() - 1] == s[i + 1]);
        }
        assert(p.push(s.last()) =~= s);
    }
}

/// Folding twice folds no more than folding once.
pub proof fn lemma_fold_constants_idempotent(s: Seq<WasmInstr>)
    ensures
        folded_code(folded_code(s)) == folded_code(s),
{
    lemma_folded_code_fully_folded(s);
    lemma_fully_folded_is_fixed(folded_code(s));
}

/// A binary operation on two registers becomes: the two locals pushed, the
/// WebAssembly instruction with the operator's meaning on `i64` values
/// (signed where it matters; `&&` and `||` followed by a wrap to `i32`), and
/// the result stored in its register's local. Shifts and bitwise operators
/// have no instruction here and are errors.
pub proof fn lemma_binary_lowering(m: WasmModel, op: BinaryOp, a: RegisterId, b: RegisterId, res: RegisterId)
    requires
        m.locals.contains_key(a.0),
        m.locals.contains_key(b.0),
        m.locals.contains_key(res.0),
    ensures
        ({
            let got = instruction_code(m, Instruction::BinaryOp { op, lhs: Operand::Register(a), rhs: Operand::Register(b), result: res });
            let pre = seq![WasmInstr::LocalGet(m.locals[a.0]), WasmInstr::LocalGet(m.locals[b.0])];
            let post = seq![WasmInstr::LocalSet(m.locals[res.0])];
            &&& got.0 == m
            &&& op == BinaryOp::Add ==> got.1 == Ok::<Seq<WasmInstr>, Seq<char>>(pre + seq![WasmInstr::I64Add] + post)
            &&& op == BinaryOp::Sub ==> got.1 == Ok::<Seq<WasmInstr>, Seq<char>>(pre + seq![WasmInstr::I64Sub] + post)
            &&& op == BinaryOp::Mul ==> got.1 == Ok::<Seq<WasmInstr>, Seq<char>>(pre + seq![WasmInstr::I64Mul] + post)
            &&& op == BinaryOp::Div ==> got.1 == Ok::<Seq<WasmInstr>, Seq<char>>(pre + seq![WasmInstr::I64DivS] + post)
            &&& op == BinaryOp::Rem ==> got.1 == Ok::<Seq<WasmInstr>, Seq<char>>(pre + seq![WasmInstr::I64RemS] + post)
            &&& op == BinaryOp::Eq ==> got.1 == Ok::<Seq<WasmInstr>, Seq<char>>(pre + seq![WasmInstr::I64Eq] + post)
            &&& op == BinaryOp::Ne ==> got.1 == Ok::<Seq<WasmInstr>, Seq<char>>(pre + seq![WasmInstr::I64Ne] + post)
            &&& op == BinaryOp::Lt ==> got.1 == Ok::<Seq<WasmInstr>, Seq<char>>(pre + seq![WasmInstr::I64LtS] + post)
            &&& op == BinaryOp::Le ==> got.1 == Ok::<Seq<WasmInstr>, Seq<char>>(pre + seq![WasmInstr::I64LeS] + post)
            &&& op == BinaryOp::Gt ==> got.1 == Ok::<Seq<WasmInstr>, Seq<char>>(pre + seq![WasmInstr::I64GtS] + post)
            &&& op == BinaryOp::Ge ==> got.1 == Ok::<Seq<WasmInstr>, Seq<char>>(pre + seq![WasmInstr::I64GeS] + post)
            &&& op == BinaryOp::And ==> got.1 == Ok::<Seq<WasmInstr>, Seq<char>>(pre + seq![WasmInstr::I64And, WasmInstr::I32WrapI64] + post)
            &&& op == BinaryOp::Or ==> got.1 == Ok::<Seq<WasmInstr>, Seq<char>>(pre + seq![WasmInstr::I64Or, WasmInstr::I32WrapI64] + post)
            &&& (op == BinaryOp::BitAnd || op == BinaryOp::BitOr || op == BinaryOp::BitXor || op == BinaryOp::Shl
                || op == BinaryOp::Shr) ==> got.1 is Err
        }),
{
    let pre = seq![WasmInstr::LocalGet(m.locals[a.0]), WasmInstr::LocalGet(m.locals[b.0])];
    assert(seq![WasmInstr::LocalGet(m.locals[a.0])] + seq![WasmInstr::LocalGet(m.locals[b.0])] =~= pre);
}

/// A unary operation on a literal becomes: the literal pushed, the
/// operation, and the result stored in its register's local. Negation of an
/// integer multiplies it by -1; negation of a float is `f64.neg`; logical
/// negation of a boolean is an exclusive or with 1.
pub proof fn lemma_unary_lowering(m: WasmModel, x: i64, bits: u64, p: bool, res: RegisterId)
    requires
        m.locals.contains_key(res.0),
    ensures
        instruction_code(m, Instruction::UnaryOp { op: UnaryOp::Neg, operand: Operand::Literal(Literal::Int(x)), result: res }).1
            == Ok::<Seq<WasmInstr>, Seq<char>>(seq![WasmInstr::I64Const(x), WasmInstr::I64Const(-1i64), WasmInstr::I64Mul, WasmInstr::LocalSet(m.locals[res.0])]),
        instruction_code(m, Instruction::UnaryOp { op: UnaryOp::Neg, operand: Operand::Literal(Literal::Float(bits)), result: res }).1
            == Ok::<Seq<WasmInstr>, Seq<char>>(seq![WasmInstr::F64Const(bits), WasmInstr::F64Neg, WasmInstr::LocalSet(m.locals[res.0])]),
        instruction_code(m, Instruction::UnaryOp { op: UnaryOp::Not, operand: Operand::Literal(Literal::Bool(p)), result: res }).1
            == Ok::<Seq<WasmInstr>, Seq<char>>(seq![WasmInstr::I32Const(if p { 1i32 } else { 0i32 }), WasmInstr::I32Const(1), WasmInstr::I32Xor, WasmInstr::LocalSet(m.locals[res.0])]),
{
    assert(seq![WasmInstr::I64Const(x)] + seq![WasmInstr::I64Const(-1i64), WasmInstr::I64Mul] + seq![WasmInstr::LocalSet(m.locals[res.0])]
        =~= seq![WasmInstr::I64Const(x), WasmInstr::I64Const(-1i64), WasmInstr::I64Mul, WasmInstr::LocalSet(m.locals[res.0])]);
    assert(seq![WasmInstr::F64Const(bits)] + seq![WasmInstr::F64Neg] + seq![WasmInstr::LocalSet(m.locals[res.0])]
        =~= seq![WasmInstr::F64Const(bits), WasmInstr::F64Neg, WasmInstr::LocalSet(m.locals[res.0])]);
    assert(seq![WasmInstr::I32Const(if p { 1i32 } else { 0i32 })] + seq![WasmInstr::I32Const(1), WasmInstr::I32Xor]
        + seq![WasmInstr::LocalSet(m.locals[res.0])] =~= seq![
        WasmInstr::I32Const(if p { 1i32 } else { 0i32 }),
        WasmInstr::I32Const(1),
        WasmInstr::I32Xor,
        WasmInstr::LocalSet(m.locals[res.0]),
    ]);
}

/// Folding two `i64` constants gives the value of the operation: the sum,
/// difference and product where they fit, the quotient of non-negative values, and
/// nothing for a zero divisor or an instruction that is not arithmetic.
pub proof fn lemma_const_binop_i64_meaning(op: WasmInstr, a: i64, b: i64)
    ensures
        op == WasmInstr::I64Add && i64::MIN <= a + b <= i64::MAX ==> const_binop(op, WasmConst::I64(a), WasmConst::I64(b)) == Some(WasmConst::I64((a + b) as i64)),
        op == WasmInstr::I64Sub && i64::MIN <= a - b <= i64::MAX ==> const_binop(op, WasmConst::I64(a), WasmConst::I64(b)) == Some(WasmConst::I64((a - b) as i64)),
        op == WasmInstr::I64Mul && i64::MIN <= a * b <= i64::MAX ==> const_binop(op, WasmConst::I64(a), WasmConst::I64(b)) == Some(WasmConst::I64((a * b) as i64)),
        op == WasmInstr::I64DivS && 0 <= a && 0 < b ==> const_binop(op, WasmConst::I64(a), WasmConst::I64(b)) == Some(WasmConst::I64((a / b) as i64)),
        op == WasmInstr::I64DivS && b == 0 ==> const_binop(op, WasmConst::I64(a), WasmConst::I64(b)) is None,
        !(op == WasmInstr::I64Add || op == WasmInstr::I64Sub || op == WasmInstr::I64Mul || op == WasmInstr::I64DivS)
            ==> const_binop(op, WasmConst::I64(a), WasmConst::I64(b)) is None,
{
    if op == WasmInstr::I64Mul && i64::MIN <= a * b <= i64::MAX {
        let x: int = a * b;
        let r: int = 0x1_0000_0000_0000_0000;
        if x >= 0 {
            assert(x % r == x) by (nonlinear_arith)
                requires
                    0 <= x <= i64::MAX,
                    r == 0x1_0000_0000_0000_0000,
            ;
        } else {
            assert(x % r == x + r) by (nonlinear_arith)
                requires
                    i64::MIN <= x < 0,
                    r == 0x1_0000_0000_0000_0000,
            ;
        }
    }
    if op == WasmInstr::I64DivS && 0 <= a && 0 < b {
        assert(0 <= a / b <= a && (a == 0 ==> a / b == 0)) by (nonlinear_arith)
            requires
                0 <= a,
                0 < b,
        ;
    }
}

/// Folding two `i32` constants gives the value of the operation: the sum and
/// difference where they fit, the quotient of non-negative
/// values, and nothing for a zero divisor.
pub proof fn lemma_const_binop_i32_meaning(op: WasmInstr, a: i32, b: i32)
    ensures
        op == WasmInstr::I32Add && i32::MIN <= a + b <= i32::MAX ==> const_binop(op, WasmConst::I32(a), WasmConst::I32(b)) == Some(WasmConst::I32((a + b) as i32)),
        op == WasmInstr::I32Sub && i32::MIN <= a - b <= i32::MAX ==> const_binop(op, WasmConst::I32(a), WasmConst::I32(b)) == Some(WasmConst::I32((a - b) as i32)),
        op == WasmInstr::I32DivS && 0 <= a && 0 < b ==> const_binop(op, WasmConst::I32(a), WasmConst::I32(b)) == Some(WasmConst::I32((a / b) as i32)),
        op == WasmInstr::I32DivS && b == 0 ==> const_binop(op, WasmConst::I32(a), WasmConst::I32(b)) is None,
{
    if op == WasmInstr::I32DivS && 0 <= a && 0 < b {
        assert(0 <= a / b <= a && (a == 0 ==> a / b == 0)) by (nonlinear_arith)
            requires
                0 <= a,
                0 < b,
        ;
    }
}

/// A literal is pushed as the constant of its value: an integer as an `i64`,
/// a float by its bits as an `f64`, a boolean as 1 or 0, a character as its
/// code point and unit as 0, the last three as `i32`.
pub proof fn lemma_literal_lowering(m: WasmModel, x: i64, bits: u64, c: u32)
    ensures
        literal_code(m, Literal::Int(x)) == (m, Ok::<Seq<WasmInstr>, Seq<char>>(seq![WasmInstr::I64Const(x)])),
        literal_code(m, Literal::Float(bits)) == (m, Ok::<Seq<WasmInstr>, Seq<char>>(seq![WasmInstr::F64Const(bits)])),
        literal_code(m, Literal::Bool(true)) == (m, Ok::<Seq<WasmInstr>, Seq<char>>(seq![WasmInstr::I32Const(1)])),
        literal_code(m, Literal::Bool(false)) == (m, Ok::<Seq<WasmInstr>, Seq<char>>(seq![WasmInstr::I32Const(0)])),
        literal_code(m, Literal::Char(c)) == (m, Ok::<Seq<WasmInstr>, Seq<char>>(seq![WasmInstr::I32Const(c as i32)])),
        literal_code(m, Literal::Unit) == (m, Ok::<Seq<WasmInstr>, Seq<char>>(seq![WasmInstr::I32Const(0)])),
{
}

/// Rounding up to a positive multiple gives the least multiple of it that
/// is not below the value.
pub proof fn lemma_align_up_meaning(x: int, a: int)
    requires
        0 <= x,
        0 < a,
    ensures
        align_up(x, a) % a == 0,
        x <= align_up(x, a) < x + a,
{
    let q = (x + a - 1) / a;
    assert(q * a % a == 0 && x <= q * a < x + a) by (nonlinear_arith)
        requires
            q == (x + a - 1) / a,
            0 <= x,
            0 < a,
    ;
}

/// A global without an initializer starts at the zero of its value type.
pub proof fn lemma_zero_of_meaning()
    ensures
        zero_of(WasmValType::I32) == WasmConst::I32(0),
        zero_of(WasmValType::I64) == WasmConst::I64(0),
        zero_of(WasmValType::F32) == WasmConst::F32(0),
        zero_of(WasmValType::F64) == WasmConst::F64(0),
{
}

/// Memory and control instructions: a load pushes its address, loads an
/// `i64` and stores it in its register's local; a store pushes address and
/// value and stores the `i64`; a return pushes its value and returns; a
/// branch goes to its target block.
pub proof fn lemma_memory_and_control_lowering(m: WasmModel, a: RegisterId, v: RegisterId, res: RegisterId, target: BlockId)
    requires
        m.locals.contains_key(a.0),
        m.locals.contains_key(v.0),
        m.locals.contains_key(res.0),
    ensures
        instruction_code(m, (Instruction::Load { address: Operand::Register(a), result: res })).1 == Ok::<Seq<WasmInstr>, Seq<char>>(
            seq![WasmInstr::LocalGet(m.locals[a.0]), WasmInstr::I64Load, WasmInstr::LocalSet(m.locals[res.0])],
        ),
        instruction_code(m, (Instruction::Store { address: Operand::Register(a), value: Operand::Register(v) })).1 == Ok::<Seq<WasmInstr>, Seq<char>>(
            seq![WasmInstr::LocalGet(m.locals[a.0]), WasmInstr::LocalGet(m.locals[v.0]), WasmInstr::I64Store],
        ),
        instruction_code(m, (Instruction::Return { value: Some(Operand::Register(v)) })).1 == Ok::<Seq<WasmInstr>, Seq<char>>(
            seq![WasmInstr::LocalGet(m.locals[v.0]), WasmInstr::Return],
        ),
        instruction_code(m, (Instruction::Return { value: None })).1 == Ok::<Seq<WasmInstr>, Seq<char>>(seq![WasmInstr::Return]),
        instruction_code(m, (Instruction::Branch { target })).1 == Ok::<Seq<WasmInstr>, Seq<char>>(seq![WasmInstr::Br(target.0)]),
{
    assert(seq![WasmInstr::LocalGet(m.locals[a.0])].push(WasmInstr::I64Load) + seq![WasmInstr::LocalSet(m.locals[res.0])]
        =~= seq![WasmInstr::LocalGet(m.locals[a.0]), WasmInstr::I64Load, WasmInstr::LocalSet(m.locals[res.0])]);
    assert((seq![WasmInstr::LocalGet(m.locals[a.0])] + seq![WasmInstr::LocalGet(m.locals[v.0])]).push(WasmInstr::I64Store)
        =~= seq![WasmInstr::LocalGet(m.locals[a.0]), WasmInstr::LocalGet(m.locals[v.0]), WasmInstr::I64Store]);
    assert(seq![WasmInstr::LocalGet(m.locals[v.0])].push(WasmInstr::Return) =~= seq![WasmInstr::LocalGet(m.locals[v.0]), WasmInstr::Return]);
}

} // verus!
