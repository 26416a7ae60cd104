use vstd::prelude::*;

verus! {

/// Index of a value in a module's value table.
pub type ValueId = usize;

/// Index of a basic block in a module.
pub type BlockId = usize;

/// Index of a function in a module.
pub type FunctionId = usize;

/// An integer type of the given width in bits.
#[derive(Clone, Copy, Debug, PartialEq, Eq, Structural)]
pub struct Type {
    pub bit_width: u32,
}

/// How a function or global is linked.
#[derive(Clone, Copy, Debug, PartialEq, Eq, Structural)]
pub enum Linkage {
    External,
    DLLImport,
}

/// The calling conventions that functions may be given.
#[derive(Clone, Copy, Debug, PartialEq, Eq, Structural)]
pub enum CallingConvention {
    Win64,
}

/// The kinds of file that code generation can emit.
#[derive(Clone, Copy, Debug, PartialEq, Eq, Structural)]
pub enum CodegenFileType {
    Object,
}

/// Two-operand integer operations.
#[derive(Clone, Copy, Debug, PartialEq, Eq, Structural)]
pub enum BinaryOperation {
    Add,
    Subtract,
    Multiply,
    UnsignedDivide,
    UnsignedModulo,
    SignedDivide,
    SignedTruncatedModulo,
    BitwiseAnd,
    BitwiseOr,
    BitwiseXor,
}

/// A value of the module: a constant, a function's address or parameter, or the
/// result of an instruction.
#[derive(Clone, Debug, PartialEq, Eq)]
pub enum Instruction {
    ConstInt { ty: Type, value: u64 },
    Undefined { ty: Type },
    Parameter { function: FunctionId, index: usize },
    FunctionAddress { function: FunctionId },
    Binary { operation: BinaryOperation, left: ValueId, right: ValueId },
    Negate { operand: ValueId },
    Alloca { ty: Type, name: String },
    Load { ty: Type, pointer: ValueId },
    Store { pointer: ValueId, value: ValueId },
    IntToPtr { value: ValueId },
    PtrToInt { ty: Type, pointer: ValueId },
    ZeroExtend { value: ValueId, ty: Type },
    SignExtend { value: ValueId, ty: Type },
    Truncate { value: ValueId, ty: Type },
    Call { callee: ValueId, arguments: Vec<ValueId>, parameter_types: Vec<Type>, return_type: Type },
    Return { value: ValueId },
    ReturnVoid,
    Branch { destination: BlockId },
}

#[derive(Clone, Debug, PartialEq, Eq)]
pub struct Function {
    pub name: String,
    pub parameter_types: Vec<Type>,
    pub return_type: Type,
    pub linkage: Linkage,
    pub calling_convention: Option<CallingConvention>,
}

#[derive(Clone, Debug, PartialEq, Eq)]
pub struct BasicBlock {
    pub function: FunctionId,
    /// The instructions of the block, in order, as indices into the value table.
    pub instructions: Vec<ValueId>,
}

#[derive(Clone, Debug, PartialEq, Eq)]
pub struct Global {
    pub name: String,
    pub ty: Type,
    pub initializer: Option<ValueId>,
}

/// The code being built: every value, function, basic block and global.
#[derive(Clone, Debug, PartialEq, Eq)]
pub struct Module {
    pub values: Vec<Instruction>,
    pub functions: Vec<Function>,
    pub blocks: Vec<BasicBlock>,
    pub globals: Vec<Global>,
}

impl Module {
    /// `self` holds everything `earlier` held: values, functions and globals are
    /// only ever appended, and blocks only ever receive more instructions.
    pub open spec fn extends(self, earlier: Module) -> bool {
        &&& earlier.values@.len() <= self.values@.len()
        &&& forall|i: int| 0 <= i < earlier.values@.len() ==> self.values@[i] == #[trigger] earlier.values@[i]
        &&& earlier.functions@.len() <= self.functions@.len()
        &&& forall|i: int| 0 <= i < earlier.functions@.len() ==> self.functions@[i] == #[trigger] earlier.functions@[i]
        &&& earlier.blocks@.len() <= self.blocks@.len()
        &&& forall|b: int| 0 <= b < earlier.blocks@.len() ==> self.blocks@[b].function == (#[trigger] earlier.blocks@[b]).function
        &&& earlier.globals@.len() <= self.globals@.len()
    }
}

/// Emits instructions into a module at an insertion point.
pub struct Builder {
    pub module: Module,
    /// The block that new instructions are appended to, if any.
    pub cursor: Option<BlockId>,
}

impl Builder {
    pub fn new() -> (r: Builder)
        ensures
            r.module.values@.len() == 0,
            r.module.functions@.len() == 0,
            r.module.blocks@.len() == 0,
            r.module.globals@.len() == 0,
            r.cursor is None,
    {
        Builder {
            module: Module {
                values: Vec::new(),
                functions: Vec::new(),
                blocks: Vec::new(),
                globals: Vec::new(),
            },
            cursor: None,
        }
    }

    /// Appends `instruction` to the value table, and to the block at the insertion
    /// point if there is one, and returns its index.
    pub fn build(&mut self, instruction: Instruction) -> (r: ValueId)
        ensures
            final(self).module.extends(old(self).module),
            r == old(self).module.values@.len(),
            final(self).module.values@ == old(self).module.values@.push(instruction),
            final(self).module.functions == old(self).module.functions,
            final(self).module.globals == old(self).module.globals,
            final(self).module.blocks@.len() == old(self).module.blocks@.len(),
            final(self).cursor == old(self).cursor,
            forall|b: int|
                0 <= b < old(self).module.blocks@.len() && Some(b as usize) != old(self).cursor
                    ==> #[trigger] final(self).module.blocks@[b] == old(self).module.blocks@[b],
            old(self).cursor matches Some(b) ==> (b < old(self).module.blocks@.len() ==> {
                &&& final(self).module.blocks@[b as int].function == old(
                    self,
                ).module.blocks@[b as int].function
                &&& final(self).module.blocks@[b as int].instructions@ == old(
                    self,
                ).module.blocks@[b as int].instructions@.push(r)
            }),
    {
        let r = self.module.values.len();
        self.module.values.push(instruction);
        if let Some(b) = self.cursor {
            if b < self.module.blocks.len() {
                self.module.blocks[b].instructions.push(r);
            }
        }
        r
    }

    /// Adds a value that is no instruction (a constant, a parameter, a function's
    /// address) to the value table and returns its index.
    pub fn add_value(&mut self, value: Instruction) -> (r: ValueId)
        ensures
            final(self).module.extends(old(self).module),
            r == old(self).module.values@.len(),
            final(self).module.values@ == old(self).module.values@.push(value),
            final(self).module.functions == old(self).module.functions,
            final(self).module.globals == old(self).module.globals,
            final(self).module.blocks == old(self).module.blocks,
            final(self).cursor == old(self).cursor,
    {
        let r = self.module.values.len();
        self.module.values.push(value);
        r
    }

    /// Moves the insertion point to the end of `block`.
    pub fn position_at_end(&mut self, block: BlockId)
        ensures
            final(self).module == old(self).module,
            final(self).cursor == Some(block),
    {
        self.cursor = Some(block);
    }

    /// Emits a return without a value.
    pub fn build_return_void(&mut self) -> (r: ValueId)
        ensures
            final(self).module.extends(old(self).module),
            r == old(self).module.values@.len(),
            final(self).module.values@ == old(self).module.values@.push(Instruction::ReturnVoid),
            final(self).module.functions == old(self).module.functions,
            final(self).module.globals == old(self).module.globals,
            final(self).module.blocks@.len() == old(self).module.blocks@.len(),
            forall|b: int|
                0 <= b < old(self).module.blocks@.len() && Some(b as usize) != old(self).cursor
                    ==> #[trigger] final(self).module.blocks@[b] == old(self).module.blocks@[b],
            final(self).cursor == old(self).cursor,
    {
        self.build(Instruction::ReturnVoid)
    }

    /// Emits a branch to `destination`.
    pub fn build_branch(&mut self, destination: BlockId) -> (r: ValueId)
        ensures
            final(self).module.extends(old(self).module),
            r == old(self).module.values@.len(),
            final(self).module.values@ == old(self).module.values@.push(
                Instruction::Branch { destination },
            ),
            final(self).module.functions == old(self).module.functions,
            final(self).module.globals == old(self).module.globals,
            final(self).module.blocks@.len() == old(self).module.blocks@.len(),
            forall|b: int|
                0 <= b < old(self).module.blocks@.len() && Some(b as usize) != old(self).cursor
                    ==> #[trigger] final(self).module.blocks@[b] == old(self).module.blocks@[b],
            final(self).cursor == old(self).cursor,
    {
        self.build(Instruction::Branch { destination })
    }

    /// Declares a function and returns its index.
    pub fn add_function(&mut self, name: String, parameter_types: Vec<Type>, return_type: Type) -> (r: FunctionId)
        ensures
            final(self).module.extends(old(self).module),
            r == old(self).module.functions@.len(),
            final(self).module.functions@ == old(self).module.functions@.push(
                Function {
                    name,
                    parameter_types,
                    return_type,
                    linkage: Linkage::External,
                    calling_convention: None,
                },
            ),
            final(self).module.values == old(self).module.values,
            final(self).module.blocks == old(self).module.blocks,
            final(self).module.globals == old(self).module.globals,
            final(self).cursor == old(self).cursor,
    {
        let r = self.module.functions.len();
        self.module.functions.push(
            Function {
                name,
                parameter_types,
                return_type,
                linkage: Linkage::External,
                calling_convention: None,
            },
        );
        r
    }

    /// Sets the linkage of `function`.
    pub fn set_linkage(&mut self, function: FunctionId, linkage: Linkage)
        requires
            function < old(self).module.functions@.len(),
        ensures
            final(self).module.functions@ == old(self).module.functions@.update(
                function as int,
                Function { linkage, ..old(self).module.functions@[function as int] },
            ),
            final(self).module.values == old(self).module.values,
            final(self).module.blocks == old(self).module.blocks,
            final(self).module.globals == old(self).module.globals,
            final(self).cursor == old(self).cursor,
    {
        self.module.functions[function].linkage = linkage;
    }

    /// Sets the calling convention of `function`.
    pub fn set_calling_convention(&mut self, function: FunctionId, convention: CallingConvention)
        requires
            function < old(self).module.functions@.len(),
        ensures
            final(self).module.functions@ == old(self).module.functions@.update(
                function as int,
                Function {
                    calling_convention: Some(convention),
                    ..old(self).module.functions@[function as int]
                },
            ),
            final(self).module.values == old(self).module.values,
            final(self).module.blocks == old(self).module.blocks,
            final(self).module.globals == old(self).module.globals,
            final(self).cursor == old(self).cursor,
    {
        self.module.functions[function].calling_convention = Some(convention);
    }

    /// Appends an empty basic block to `function` and returns its index.
    pub fn append_basic_block(&mut self, function: FunctionId) -> (r: BlockId)
        ensures
            final(self).module.extends(old(self).module),
            r == old(self).module.blocks@.len(),
            final(self).module.blocks@ == old(self).module.blocks@.push(
                BasicBlock { function, instructions: final(self).module.blocks@[r as int].instructions },
            ),
            final(self).module.blocks@[r as int].instructions@.len() == 0,
            final(self).module.values == old(self).module.values,
            final(self).module.functions == old(self).module.functions,
            final(self).module.globals == old(self).module.globals,
            final(self).cursor == old(self).cursor,
    {
        let r = self.module.blocks.len();
        self.module.blocks.push(BasicBlock { function, instructions: Vec::new() });
        r
    }

    /// Declares a global of type `ty` without an initializer and returns its index.
    pub fn add_global(&mut self, ty: Type, name: String) -> (r: usize)
        ensures
            r == old(self).module.globals@.len(),
            final(self).module.globals@ == old(self).module.globals@.push(
                Global { name, ty, initializer: None },
            ),
            final(self).module.values == old(self).module.values,
            final(self).module.functions == old(self).module.functions,
            final(self).module.blocks == old(self).module.blocks,
            final(self).cursor == old(self).cursor,
    {
        let r = self.module.globals.len();
        self.module.globals.push(Global { name, ty, initializer: None });
        r
    }

    /// Sets the initial value of `global`.
    pub fn set_initializer(&mut self, global: usize, value: ValueId)
        requires
            global < old(self).module.globals@.len(),
        ensures
            final(self).module.globals@ == old(self).module.globals@.update(
                global as int,
                Global { initializer: Some(value), ..old(self).module.globals@[global as int] },
            ),
            final(self).module.values == old(self).module.values,
            final(self).module.functions == old(self).module.functions,
            final(self).module.blocks == old(self).module.blocks,
            final(self).cursor == old(self).cursor,
    {
        self.module.globals[global].initializer = Some(value);
    }
}

} // verus!
