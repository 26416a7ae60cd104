use vstd::prelude::*;

use crate::ast_node::{
    AstNode, AstNodeVariant, Metadata, Operation, Operator, is_child_list, parameter_names,
    spec_type_from_width,
};
use crate::error::{Error, Feature, Position};
use crate::ir::{
    BinaryOperation, BlockId, Builder, CallingConvention, FunctionId, Instruction, Linkage, Type,
    ValueId,
};
use crate::main_data::MainData;
use vstd::string::StringExecFns;
use crate::names::NameMap;

verus! {

/// A storage location that can be read, written and have its address taken.
#[derive(Clone, Copy, Debug, PartialEq, Eq, Structural)]
pub enum BuiltLValue {
    /// A stack slot, by the index of its `Alloca`.
    AllocaVariable(ValueId),
}

/// A scope's bindings: name to storage location.
pub type Scope = NameMap<BuiltLValue>;

/// The state of one compilation unit's code generation.
pub struct FileBuildData {
    /// The values of the globals built so far.
    pub built_globals: NameMap<ValueId>,
    /// The unit's entry point, once one has been built.
    pub entrypoint: Option<ValueId>,
}

impl FileBuildData {
    pub fn new() -> (r: FileBuildData)
        ensures
            r.built_globals@ == Map::<Seq<char>, ValueId>::empty(),
            r.entrypoint is None,
    {
        FileBuildData { built_globals: NameMap::new(), entrypoint: None }
    }
}

impl FileBuildData {
    /// Every built global's value is a value of `module`.
    pub open spec fn valid_in(self, module: crate::ir::Module) -> bool {
        forall|k: Seq<char>| #[trigger] self.built_globals@.contains_key(k) ==> self.built_globals@[k]
            < module.values@.len()
    }
}

proof fn lemma_scopes_extend_trans(a: Seq<Scope>, b: Seq<Scope>, c: Seq<Scope>)
    requires
        scopes_extend(b, a),
        scopes_extend(c, b),
    ensures
        scopes_extend(c, a),
{
    if a.len() > 0 {
        vstd::map_lib::lemma_submap_of_trans(a.last()@, b.last()@, c.last()@);
    }
}

/// The uniform integer type of the unit.
pub open spec fn int_type(main_data: MainData) -> Type {
    Type { bit_width: main_data.int_bit_width as u32 }
}

/// The binding of `name` in a scope stack, innermost scope first.
pub open spec fn scope_lookup(scopes: Seq<Scope>, name: Seq<char>) -> Option<BuiltLValue>
    decreases scopes.len(),
{
    if scopes.len() == 0 {
        None
    } else if scopes.last()@.contains_key(name) {
        Some(scopes.last()@[name])
    } else {
        scope_lookup(scopes.drop_last(), name)
    }
}

/// The scopes of `after` are those of `before`, but that the innermost one may have
/// gained bindings.
pub open spec fn scopes_extend(after: Seq<Scope>, before: Seq<Scope>) -> bool {
    &&& after.len() == before.len()
    &&& forall|j: int| 0 <= j < before.len() - 1 ==> after[j] == #[trigger] before[j]
    &&& before.len() > 0 ==> before.last()@.submap_of(after.last()@)
}

impl BuiltLValue {
    pub open spec fn slot(self) -> ValueId {
        match self {
            BuiltLValue::AllocaVariable(slot) => slot,
        }
    }

    /// Emits a load of the stored value.
    pub fn get_value(&self, main_data: &MainData, builder: &mut Builder) -> (r: ValueId)
        ensures
            r == old(builder).module.values@.len(),
            final(builder).module.values@ == old(builder).module.values@.push(
                Instruction::Load { ty: int_type(*main_data), pointer: self.slot() },
            ),
            final(builder).module.extends(old(builder).module),
            final(builder).module.globals == old(builder).module.globals,
            final(builder).cursor == old(builder).cursor,
    {
        match self {
            BuiltLValue::AllocaVariable(slot) => builder.build(
                Instruction::Load { ty: Type { bit_width: main_data.int_bit_width as u32 }, pointer: *slot },
            ),
        }
    }

    /// Emits a store of `value`.
    pub fn set_value(&self, builder: &mut Builder, value: ValueId) -> (r: ValueId)
        ensures
            r == old(builder).module.values@.len(),
            final(builder).module.values@ == old(builder).module.values@.push(
                Instruction::Store { pointer: self.slot(), value },
            ),
            final(builder).module.extends(old(builder).module),
            final(builder).module.globals == old(builder).module.globals,
            final(builder).cursor == old(builder).cursor,
    {
        match self {
            BuiltLValue::AllocaVariable(slot) => builder.build(
                Instruction::Store { pointer: *slot, value },
            ),
        }
    }

    /// The address of the location.
    pub fn get_pointer(&self) -> (r: ValueId)
        ensures
            r == self.slot(),
    {
        match self {
            BuiltLValue::AllocaVariable(slot) => *slot,
        }
    }
}

/// The binding of `name` in `scopes`, innermost scope first.
fn find_in_scopes(scopes: &Vec<Scope>, name: &String) -> (r: Option<BuiltLValue>)
    ensures
        r == scope_lookup(scopes@, name@),
{
    let mut i = scopes.len();
    assert(scopes@.take(i as int) =~= scopes@);
    while i > 0
        invariant
            i <= scopes@.len(),
            scope_lookup(scopes@, name@) == scope_lookup(scopes@.take(i as int), name@),
        decreases i,
    {
        assert(scopes@.take(i as int).drop_last() =~= scopes@.take(i - 1));
        assert(scopes@.take(i as int).last() == scopes@[i - 1]);
        match scopes[i - 1].get(name) {
            Some(variable) => return Some(*variable),
            None => {},
        }
        i = i - 1;
    }
    None
}

/// Gets a local or global variable's value: a load from the innermost local binding
/// of `name`, else the built global of that name.
pub fn get_variable_by_name(
    main_data: &MainData,
    file_build_data: &FileBuildData,
    builder: &mut Builder,
    local_variables: &Vec<Scope>,
    name: &String,
) -> (r: Result<ValueId, Error>)
    ensures
        final(builder).module.extends(old(builder).module),
        final(builder).module.globals == old(builder).module.globals,
        final(builder).cursor == old(builder).cursor,
        match scope_lookup(local_variables@, name@) {
            Some(variable) => r == Ok::<ValueId, Error>(old(builder).module.values.len())
                && final(builder).module.values@ == old(builder).module.values@.push(
                Instruction::Load { ty: int_type(*main_data), pointer: variable.slot() },
            ),
            None => {
                &&& *final(builder) == *old(builder)
                &&& file_build_data.built_globals@.contains_key(name@) ==> r == Ok::<ValueId, Error>(
                    file_build_data.built_globals@[name@],
                )
                &&& !file_build_data.built_globals@.contains_key(name@) ==> r == Err::<ValueId, Error>(
                    Error::InvalidDependency,
                )
            },
        },
{
    match find_in_scopes(local_variables, name) {
        Some(variable) => Ok(variable.get_value(main_data, builder)),
        None => match file_build_data.built_globals.get(name) {
            Some(value) => Ok(*value),
            None => Err(Error::InvalidDependency),
        },
    }
}

impl AstNode {
    /// Builds an l-value: only an identifier is one. Its innermost binding is returned;
    /// without one, a stack slot is allocated and bound in the innermost scope.
    pub fn build_l_value(
        &self,
        main_data: &MainData,
        builder: &mut Builder,
        local_variables: &mut Vec<Scope>,
    ) -> (r: Result<BuiltLValue, (Error, Position)>)
        requires
            scopes_valid(old(local_variables)@, old(builder).module.values@, *main_data),
        ensures
            scopes_valid(final(local_variables)@, final(builder).module.values@, *main_data),
            r matches Ok(variable) ==> (self.variant matches AstNodeVariant::Identifier(name) && slot_named(
                final(builder).module.values@,
                variable.slot(),
                name@,
                *main_data,
            )),
            final(builder).module.extends(old(builder).module),
            final(builder).module.globals == old(builder).module.globals,
            final(builder).cursor == old(builder).cursor,
            match l_value_outcome(*self, scope_names(old(local_variables)@)) {
                Ok(names) => (r is Ok) && scope_names(final(local_variables)@) == names,
                Err(e) => r == Err::<BuiltLValue, (Error, Position)>(e),
            },
            r is Ok ==> scopes_extend(final(local_variables)@, old(local_variables)@),
            r is Err ==> *final(local_variables) == *old(local_variables),
            match self.variant {
                AstNodeVariant::Identifier(name) => match scope_lookup(old(local_variables)@, name@) {
                    Some(variable) => r == Ok::<BuiltLValue, (Error, Position)>(variable)
                        && *final(local_variables) == *old(local_variables) && *final(builder)
                        == *old(builder),
                    None => if old(local_variables)@.len() == 0 {
                        r == Err::<BuiltLValue, (Error, Position)>((Error::InvalidLValue, self.start))
                    } else {
                        &&& r == Ok::<BuiltLValue, (Error, Position)>(
                            BuiltLValue::AllocaVariable(old(builder).module.values.len()),
                        )
                        &&& final(builder).module.values@ == old(builder).module.values@.push(
                            Instruction::Alloca { ty: int_type(*main_data), name },
                        )
                        &&& final(local_variables)@.len() == old(local_variables)@.len()
                        &&& final(local_variables)@.last()@ == old(local_variables)@.last()@.insert(
                            name@,
                            BuiltLValue::AllocaVariable(old(builder).module.values.len()),
                        )
                        &&& scope_lookup(final(local_variables)@, name@) == Some(
                            BuiltLValue::AllocaVariable(old(builder).module.values.len()),
                        )
                    },
                },
                AstNodeVariant::Block(..) => r == Err::<BuiltLValue, (Error, Position)>(
                    (Error::FeatureNotYetImplemented(Feature::LValueBlocks), self.start),
                ),
                AstNodeVariant::Operator(..) => r == Err::<BuiltLValue, (Error, Position)>(
                    (Error::FeatureNotYetImplemented(Feature::LValueOperators), self.start),
                ),
                _ => r == Err::<BuiltLValue, (Error, Position)>((Error::InvalidLValue, self.start)),
            },
    {
        match &self.variant {
            AstNodeVariant::Identifier(name) => {
                proof {
                    lemma_bound(local_variables@, name@);
                    if scope_lookup(local_variables@, name@) is Some {
                        let k = lemma_lookup_index(local_variables@, name@);
                    }
                }
                match find_in_scopes(local_variables, name) {
                    Some(variable) => return Ok(variable),
                    None => {},
                }
                let ghost values_before = builder.module.values@;
                if local_variables.len() == 0 {
                    return Err((Error::InvalidLValue, self.start));
                }
                let slot = builder.build(
                    Instruction::Alloca {
                        ty: Type { bit_width: main_data.int_bit_width as u32 },
                        name: name.clone(),
                    },
                );
                let variable = BuiltLValue::AllocaVariable(slot);
                let last = local_variables.len() - 1;
                let ghost before = local_variables@;
                NameMap::insert(&mut local_variables[last], name.clone(), variable);
                proof {
                    let after = local_variables@;
                    assert(after.last()@.contains_key(name@));
                    assert(forall|j: int| 0 <= j < before.len() - 1 ==> after[j] == before[j]);
                    let names = scope_names(before);
                    assert(scope_names(after) =~= names.update(names.len() - 1, names.last().insert(name@)));
                    let values = builder.module.values@;
                    assert(slot_named(values, slot, name@, *main_data));
                    assert forall|j: int, k: Seq<char>|
                        0 <= j < after.len() && #[trigger] after[j]@.contains_key(k) implies slot_named(
                            values,
                            after[j]@[k].slot(),
                            k,
                            *main_data,
                        ) by {
                        if !(j == after.len() - 1 && k == name@) {
                            assert(before[j]@.contains_key(k));
                            assert(after[j]@[k] == before[j]@[k]);
                            let old_slot = before[j]@[k].slot();
                            assert(values[old_slot as int] == values_before[old_slot as int]);
                        }
                    }
                }
                Ok(variable)
            },
            AstNodeVariant::Constant(..) => Err((Error::InvalidLValue, self.start)),
            AstNodeVariant::String(..) => Err((Error::InvalidLValue, self.start)),
            AstNodeVariant::FunctionCall(..) => Err((Error::InvalidLValue, self.start)),
            AstNodeVariant::FunctionDefinition(..) => Err((Error::InvalidLValue, self.start)),
            AstNodeVariant::Metadata(..) => Err((Error::InvalidLValue, self.start)),
            AstNodeVariant::Block(..) => Err(
                (Error::FeatureNotYetImplemented(Feature::LValueBlocks), self.start),
            ),
            AstNodeVariant::Operator(..) => Err(
                (Error::FeatureNotYetImplemented(Feature::LValueOperators), self.start),
            ),
        }
    }
}


/// The name prefix of the wrappers built around link functions, which keeps them
/// apart from the external symbol they call.
pub const LINK_WRAPPER_PREFIX: &'static str = "__bcz__link__";

/// The name given to functions defined inside expressions.
pub const UNNAMED_FUNCTION_NAME: &'static str = "__bcz__unnamedFunction";

/// The most parameters or arguments a function may have.
pub const MAX_FUNCTION_PARAMETERS: usize = 65535;

/// `first` followed by `second`.
fn concat_strs(first: &str, second: &str) -> (r: String)
    ensures
        r@ == first@ + second@,
{
    let mut joined = first.to_owned();
    joined.append(second);
    joined
}

/// How a value is converted between two integer widths.
#[derive(Clone, Copy, Debug, PartialEq, Eq, Structural)]
pub enum Conversion {
    Unchanged,
    ZeroExtend,
    SignExtend,
    Truncate,
}

/// Converting an argument of the uniform width to a parameter of the external
/// function: extended (by its signedness) when the parameter is wider, truncated
/// when it is narrower.
pub open spec fn spec_argument_conversion(uniform_bits: u32, parameter_bits: u32, is_signed: bool) -> Conversion {
    if uniform_bits < parameter_bits {
        if is_signed {
            Conversion::SignExtend
        } else {
            Conversion::ZeroExtend
        }
    } else if uniform_bits == parameter_bits {
        Conversion::Unchanged
    } else {
        Conversion::Truncate
    }
}

/// Converting the external function's result back to the uniform width: truncated
/// when the result is wider, extended (by its signedness) when it is narrower.
pub open spec fn spec_return_conversion(uniform_bits: u32, return_bits: u32, is_signed: bool) -> Conversion {
    if uniform_bits < return_bits {
        Conversion::Truncate
    } else if uniform_bits == return_bits {
        Conversion::Unchanged
    } else if is_signed {
        Conversion::SignExtend
    } else {
        Conversion::ZeroExtend
    }
}

pub fn argument_conversion(uniform_bits: u32, parameter_bits: u32, is_signed: bool) -> (r: Conversion)
    ensures
        r == spec_argument_conversion(uniform_bits, parameter_bits, is_signed),
{
    if uniform_bits < parameter_bits {
        if is_signed {
            Conversion::SignExtend
        } else {
            Conversion::ZeroExtend
        }
    } else if uniform_bits == parameter_bits {
        Conversion::Unchanged
    } else {
        Conversion::Truncate
    }
}

pub fn return_conversion(uniform_bits: u32, return_bits: u32, is_signed: bool) -> (r: Conversion)
    ensures
        r == spec_return_conversion(uniform_bits, return_bits, is_signed),
{
    if uniform_bits < return_bits {
        Conversion::Truncate
    } else if uniform_bits == return_bits {
        Conversion::Unchanged
    } else if is_signed {
        Conversion::SignExtend
    } else {
        Conversion::ZeroExtend
    }
}

/// The instruction that applies `conversion` to `value`, giving type `ty`.
pub open spec fn conversion_instruction(conversion: Conversion, value: ValueId, ty: Type) -> Option<Instruction> {
    match conversion {
        Conversion::Unchanged => None,
        Conversion::ZeroExtend => Some(Instruction::ZeroExtend { value, ty }),
        Conversion::SignExtend => Some(Instruction::SignExtend { value, ty }),
        Conversion::Truncate => Some(Instruction::Truncate { value, ty }),
    }
}

/// The conversion that `instruction` applies, to which value, giving which type.
pub open spec fn conversion_of(instruction: Instruction) -> Option<(Conversion, ValueId, Type)> {
    match instruction {
        Instruction::ZeroExtend { value, ty } => Some((Conversion::ZeroExtend, value, ty)),
        Instruction::SignExtend { value, ty } => Some((Conversion::SignExtend, value, ty)),
        Instruction::Truncate { value, ty } => Some((Conversion::Truncate, value, ty)),
        _ => None,
    }
}

/// The value that `result` was converted from by `conversion`.
pub open spec fn conversion_source(values: Seq<Instruction>, result: ValueId, conversion: Conversion) -> ValueId {
    if conversion == Conversion::Unchanged || result >= values.len() {
        result
    } else {
        match conversion_of(values[result as int]) {
            Some((_, source, _)) => source,
            None => result,
        }
    }
}

/// `result` is `source` under `conversion` to `ty`: the same value when unchanged,
/// else a later conversion instruction of that kind.
pub open spec fn converts(values: Seq<Instruction>, result: ValueId, source: ValueId, conversion: Conversion, ty: Type) -> bool {
    if conversion == Conversion::Unchanged {
        result == source
    } else {
        &&& source < result < values.len()
        &&& conversion_of(values[result as int]) == Some((conversion, source, ty))
    }
}

/// The wrapper of a link function, whose return instruction is `ret`: each parameter
/// of `wrapper` converted to its external type, a call of `external` with those
/// arguments, its result converted back to the uniform type, and returned.
pub open spec fn thunk_shape(
    values: Seq<Instruction>,
    ret: ValueId,
    wrapper: FunctionId,
    external: FunctionId,
    uniform_bits: u32,
    parameter_types: Seq<(Type, bool)>,
    return_type: (Type, bool),
) -> bool {
    let return_conversion = spec_return_conversion(uniform_bits, return_type.0.bit_width, return_type.1);
    &&& ret < values.len()
    &&& values[ret as int] matches Instruction::Return { value }
    &&& {
        let call = conversion_source(values, value, return_conversion);
        &&& converts(values, value, call, return_conversion, Type { bit_width: uniform_bits })
        &&& call < values.len()
        &&& values[call as int] matches Instruction::Call { callee, arguments, parameter_types: types, return_type: call_type }
        &&& call_type == return_type.0
        &&& callee < values.len()
        &&& values[callee as int] == Instruction::FunctionAddress { function: external }
        &&& arguments@.len() == parameter_types.len()
        &&& types@.len() == parameter_types.len()
        &&& forall|i: int|
            0 <= i < parameter_types.len() ==> {
                let conversion = spec_argument_conversion(
                    uniform_bits,
                    (#[trigger] parameter_types[i]).0.bit_width,
                    parameter_types[i].1,
                );
                let source = conversion_source(values, arguments@[i], conversion);
                &&& types@[i] == parameter_types[i].0
                &&& arguments@[i] < call
                &&& source < values.len()
                &&& values[source as int] == Instruction::Parameter { function: wrapper, index: i as usize }
                &&& converts(values, arguments@[i], source, conversion, parameter_types[i].0)
            }
    }
}

proof fn lemma_thunk_shape_extends(
    values: Seq<Instruction>,
    more: Seq<Instruction>,
    ret: ValueId,
    wrapper: FunctionId,
    external: FunctionId,
    uniform_bits: u32,
    parameter_types: Seq<(Type, bool)>,
    return_type: (Type, bool),
)
    requires
        values.len() <= more.len(),
        forall|i: int| 0 <= i < values.len() ==> more[i] == #[trigger] values[i],
        thunk_shape(values, ret, wrapper, external, uniform_bits, parameter_types, return_type),
    ensures
        thunk_shape(more, ret, wrapper, external, uniform_bits, parameter_types, return_type),
{
    let return_conversion = spec_return_conversion(uniform_bits, return_type.0.bit_width, return_type.1);
    assert(more[ret as int] == values[ret as int]);
    let value = values[ret as int]->Return_value;
    if return_conversion != Conversion::Unchanged {
        assert(more[value as int] == values[value as int]);
    }
    let call = conversion_source(values, value, return_conversion);
    assert(conversion_source(more, value, return_conversion) == call);
    assert(more[call as int] == values[call as int]);
    let arguments = values[call as int]->Call_arguments;
    let callee = values[call as int]->Call_callee;
    assert(more[callee as int] == values[callee as int]);
    assert forall|i: int|
        0 <= i < parameter_types.len() implies {
            let conversion = spec_argument_conversion(
                uniform_bits,
                (#[trigger] parameter_types[i]).0.bit_width,
                parameter_types[i].1,
            );
            let source = conversion_source(more, arguments@[i], conversion);
            &&& arguments@[i] < call
            &&& source < more.len()
            &&& more[source as int] == Instruction::Parameter { function: wrapper, index: i as usize }
            &&& converts(more, arguments@[i], source, conversion, parameter_types[i].0)
        } by {
        let conversion = spec_argument_conversion(uniform_bits, parameter_types[i].0.bit_width, parameter_types[i].1);
        if conversion != Conversion::Unchanged {
            assert(more[arguments@[i] as int] == values[arguments@[i] as int]);
        }
        let source = conversion_source(values, arguments@[i], conversion);
        assert(more[source as int] == values[source as int]);
    }
}

/// For a link function with an 8-bit unsigned parameter and a 32-bit signed result:
/// the result is sign-extended back when the uniform width exceeds 32 bits and left
/// as it is at exactly 32; the argument is zero-extended when the uniform width is
/// under 8 bits, left as it is at exactly 8, and truncated when wider.
pub proof fn lemma_link_width_conversions(uniform_bits: u32)
    ensures
        uniform_bits > 32 ==> spec_return_conversion(uniform_bits, 32, true) == Conversion::SignExtend,
        uniform_bits == 32 ==> spec_return_conversion(uniform_bits, 32, true) == Conversion::Unchanged,
        uniform_bits < 8 ==> spec_argument_conversion(uniform_bits, 8, false) == Conversion::ZeroExtend,
        uniform_bits == 8 ==> spec_argument_conversion(uniform_bits, 8, false) == Conversion::Unchanged,
        uniform_bits > 8 ==> spec_argument_conversion(uniform_bits, 8, false) == Conversion::Truncate,
{
}

/// At a uniform width of 64 bits, a link function whose parameter is declared with
/// width 1 (unsigned 8-bit) and whose result with width -4 (signed 32-bit) gets
/// those types, its argument is truncated to 8 bits before the call, and the 32-bit
/// result is sign-extended back after it.
pub proof fn lemma_link_byte_parameter_int_result(main_data: MainData, definition: AstNode)
    requires
        main_data.wf(),
        main_data.int_bit_width == 64,
        definition.variant matches AstNodeVariant::FunctionDefinition(parameters, body) && parameters@.len() == 1
            && parameters@[0].variant == AstNodeVariant::Constant(1) && body.variant == AstNodeVariant::Constant(
            (u64::MAX - 3) as u64,
        ),
    ensures
        link_parameter_types(definition, main_data) == seq![(Type { bit_width: 8 }, false)],
        link_return_type(definition, main_data) == (Type { bit_width: 32 }, true),
        spec_argument_conversion(64, 8, false) == Conversion::Truncate,
        spec_return_conversion(64, 32, true) == Conversion::SignExtend,
{
    vstd::arithmetic::power2::lemma2_to64();
    vstd::arithmetic::power2::lemma2_to64_rest();
    assert(main_data.sign_bit_mask == 0x8000_0000_0000_0000u64);
    assert(main_data.int_max_value == 0xFFFF_FFFF_FFFF_FFFFu64);
    assert(0x8000_0000_0000_0000u64 & 1u64 == 0) by (bit_vector);
    assert(0x8000_0000_0000_0000u64 & 0xFFFF_FFFF_FFFF_FFFCu64 != 0) by (bit_vector);
    assert(0xFFFF_FFFF_FFFF_FFFCu64 ^ 0xFFFF_FFFF_FFFF_FFFFu64 == 3) by (bit_vector);
    assert(link_parameter_types(definition, main_data) =~= seq![(Type { bit_width: 8 }, false)]);
}

/// At a uniform width of 64 bits, a link function whose parameters and result are
/// all declared with width 8 (unsigned 64-bit) passes its arguments and returns the
/// result with no conversion.
pub proof fn lemma_link_matching_widths(main_data: MainData, definition: AstNode)
    requires
        main_data.wf(),
        main_data.int_bit_width == 64,
        definition.variant matches AstNodeVariant::FunctionDefinition(parameters, body) && (forall|i: int|
            0 <= i < parameters@.len() ==> (#[trigger] parameters@[i]).variant == AstNodeVariant::Constant(8))
            && body.variant == AstNodeVariant::Constant(8),
    ensures
        forall|i: int|
            0 <= i < link_parameter_types(definition, main_data).len() ==> #[trigger] link_parameter_types(
                definition,
                main_data,
            )[i] == (Type { bit_width: 64 }, false),
        link_return_type(definition, main_data) == (Type { bit_width: 64 }, false),
        spec_argument_conversion(64, 64, false) == Conversion::Unchanged,
        spec_return_conversion(64, 64, false) == Conversion::Unchanged,
{
    vstd::arithmetic::power2::lemma2_to64();
    vstd::arithmetic::power2::lemma2_to64_rest();
    assert(main_data.sign_bit_mask == 0x8000_0000_0000_0000u64);
    assert(0x8000_0000_0000_0000u64 & 8u64 == 0) by (bit_vector);
}

/// Once a unit has recorded an entry point, building a second definition tagged as an
/// entry point fails with the multiple-entry-points error at that definition, when the
/// definition would otherwise build and leave the entry point recorded.
pub proof fn lemma_second_entry_point(
    tagged: AstNode,
    definition: AstNode,
    globals: Set<Seq<char>>,
    main_data: MainData,
)
    requires
        tagged.variant matches AstNodeVariant::Metadata(Metadata::EntryPoint, child) && *child == definition,
        definition.variant is FunctionDefinition,
        function_outcome(definition, false, false, globals, main_data, true) == Ok::<bool, (Error, Position)>(true),
    ensures
        function_outcome(tagged, false, false, globals, main_data, true) == Err::<bool, (Error, Position)>(
            (Error::MultipleEntryPoints, definition.start),
        ),
{
    assert(function_outcome(tagged, false, false, globals, main_data, true) == function_outcome(
        definition,
        false,
        true,
        globals,
        main_data,
        true,
    ));
    match definition.variant {
        AstNodeVariant::FunctionDefinition(parameters, body) => {
            let names = parameter_names(parameters@, 0, Set::empty())->Ok_0;
            let outcome = r_value_outcome(*body, seq![names], globals, main_data, true);
            assert(outcome is Ok);
            assert(outcome->Ok_0.1 == true);
        },
        _ => {},
    }
}

impl AstNode {
    /// The function definition under any metadata wrappers.
    pub open spec fn definition(self) -> AstNode
        decreases self,
    {
        match self.variant {
            AstNodeVariant::Metadata(_, child) => child.definition(),
            _ => self,
        }
    }
}

/// The integer types that a link function's parameters give.
pub open spec fn link_parameter_types(definition: AstNode, main_data: MainData) -> Seq<(Type, bool)> {
    match definition.variant {
        AstNodeVariant::FunctionDefinition(parameters, _) => Seq::new(
            parameters@.len(),
            |i: int| spec_type_from_width(parameters@[i], main_data)->Ok_0,
        ),
        _ => Seq::empty(),
    }
}

/// The integer type that a link function's body gives as its result type.
pub open spec fn link_return_type(definition: AstNode, main_data: MainData) -> (Type, bool) {
    match definition.variant {
        AstNodeVariant::FunctionDefinition(_, body) => spec_type_from_width(*body, main_data)->Ok_0,
        _ => (Type { bit_width: 0 }, false),
    }
}

/// Emits the instruction for `conversion` of `value` to `ty`, if one is needed, and
/// returns the converted value.
fn build_conversion(builder: &mut Builder, conversion: Conversion, value: ValueId, ty: Type) -> (r: ValueId)
    ensures
        final(builder).module.extends(old(builder).module),
        final(builder).module.globals == old(builder).module.globals,
        final(builder).cursor == old(builder).cursor,
        match conversion_instruction(conversion, value, ty) {
            None => r == value && *final(builder) == *old(builder),
            Some(instruction) => r == old(builder).module.values@.len()
                && final(builder).module.values@ == old(builder).module.values@.push(instruction),
        },
        value < old(builder).module.values@.len() ==> conversion_source(final(builder).module.values@, r, conversion) == value
            && converts(final(builder).module.values@, r, value, conversion, ty),
{
    match conversion {
        Conversion::Unchanged => value,
        Conversion::ZeroExtend => builder.build(Instruction::ZeroExtend { value, ty }),
        Conversion::SignExtend => builder.build(Instruction::SignExtend { value, ty }),
        Conversion::Truncate => builder.build(Instruction::Truncate { value, ty }),
    }
}

impl AstNode {
    /// A function definition under metadata marks an entry point if some wrapper is
    /// `EntryPoint`.
    pub open spec fn marks_entry_point(self) -> bool
        decreases self,
    {
        match self.variant {
            AstNodeVariant::Metadata(Metadata::EntryPoint, _) => true,
            AstNodeVariant::Metadata(Metadata::Link, child) => child.marks_entry_point(),
            _ => false,
        }
    }

    /// A function definition under metadata is a link function if some wrapper is
    /// `Link`.
    pub open spec fn marks_link(self) -> bool
        decreases self,
    {
        match self.variant {
            AstNodeVariant::Metadata(Metadata::Link, _) => true,
            AstNodeVariant::Metadata(Metadata::EntryPoint, child) => child.marks_link(),
            _ => false,
        }
    }
}

/// The names each scope of a stack binds, innermost last.
pub open spec fn scope_names(scopes: Seq<Scope>) -> Seq<Set<Seq<char>>> {
    Seq::new(scopes.len(), |i: int| scopes[i]@.dom())
}

/// Some scope of the stack binds `name`.
pub open spec fn bound(names: Seq<Set<Seq<char>>>, name: Seq<char>) -> bool
    decreases names.len(),
{
    names.len() > 0 && (names.last().contains(name) || bound(names.drop_last(), name))
}

proof fn lemma_bound(scopes: Seq<Scope>, name: Seq<char>)
    ensures
        (scope_lookup(scopes, name) is Some) == bound(scope_names(scopes), name),
    decreases scopes.len(),
{
    if scopes.len() > 0 {
        assert(scope_names(scopes).drop_last() =~= scope_names(scopes.drop_last()));
        lemma_bound(scopes.drop_last(), name);
    }
}

proof fn lemma_lookup_index(scopes: Seq<Scope>, name: Seq<char>) -> (i: int)
    requires
        scope_lookup(scopes, name) is Some,
    ensures
        0 <= i < scopes.len(),
        scopes[i]@.contains_key(name),
        scopes[i]@[name] == scope_lookup(scopes, name)->0,
    decreases scopes.len(),
{
    if scopes.last()@.contains_key(name) {
        scopes.len() - 1
    } else {
        let i = lemma_lookup_index(scopes.drop_last(), name);
        assert(scopes.drop_last()[i] == scopes[i]);
        i
    }
}

proof fn lemma_scopes_valid_extends(scopes: Seq<Scope>, values: Seq<Instruction>, more: Seq<Instruction>, main_data: MainData)
    requires
        scopes_valid(scopes, values, main_data),
        values.len() <= more.len(),
        forall|i: int| 0 <= i < values.len() ==> more[i] == #[trigger] values[i],
    ensures
        scopes_valid(scopes, more, main_data),
{
    assert forall|i: int, k: Seq<char>|
        0 <= i < scopes.len() && #[trigger] scopes[i]@.contains_key(k) implies slot_named(
            more,
            scopes[i]@[k].slot(),
            k,
            main_data,
        ) by {
        let slot = scopes[i]@[k].slot();
        assert(more[slot as int] == values[slot as int]);
    }
}

/// The outcome of building `node` as an l-value, over the names the scopes bind: the
/// names afterwards, or the error.
pub open spec fn l_value_outcome(node: AstNode, names: Seq<Set<Seq<char>>>) -> Result<Seq<Set<Seq<char>>>, (Error, Position)> {
    match node.variant {
        AstNodeVariant::Identifier(name) => if bound(names, name@) {
            Ok(names)
        } else if names.len() == 0 {
            Err((Error::InvalidLValue, node.start))
        } else {
            Ok(names.update(names.len() - 1, names.last().insert(name@)))
        },
        AstNodeVariant::Block(..) => Err((Error::FeatureNotYetImplemented(Feature::LValueBlocks), node.start)),
        AstNodeVariant::Operator(..) => Err(
            (Error::FeatureNotYetImplemented(Feature::LValueOperators), node.start),
        ),
        _ => Err((Error::InvalidLValue, node.start)),
    }
}

/// The first parameter of a link function whose width is invalid, from the `i`th on.
pub open spec fn link_width_error(parameters: Seq<AstNode>, i: int, main_data: MainData) -> Option<(Error, Position)>
    decreases parameters.len() - i,
{
    if i < 0 || i >= parameters.len() {
        None
    } else {
        match spec_type_from_width(parameters[i], main_data) {
            Err(e) => Some(e),
            Ok(_) => link_width_error(parameters, i + 1, main_data),
        }
    }
}

/// Recording an entry point: a second one is an error.
pub open spec fn entry_step(has_entry: bool, is_entry_point: bool, start: Position) -> Result<bool, (Error, Position)> {
    if is_entry_point {
        if has_entry {
            Err((Error::MultipleEntryPoints, start))
        } else {
            Ok(true)
        }
    } else {
        Ok(has_entry)
    }
}

/// The outcome of building `node` as an r-value: from the names the scopes bind, the
/// names of the built globals and whether an entry point was recorded, the names the
/// scopes bind afterwards and whether an entry point is recorded then, or the error.
pub open spec fn r_value_outcome(
    node: AstNode,
    names: Seq<Set<Seq<char>>>,
    globals: Set<Seq<char>>,
    main_data: MainData,
    has_entry: bool,
) -> Result<(Seq<Set<Seq<char>>>, bool), (Error, Position)>
    decreases node, 2int, 0int,
{
    let start = node.start;
    if node.spec_is_function() {
        match function_outcome(node, false, false, globals, main_data, has_entry) {
            Ok(entry) => Ok((names, entry)),
            Err(e) => Err(e),
        }
    } else {
        match node.variant {
            AstNodeVariant::Constant(_) => Ok((names, has_entry)),
            AstNodeVariant::Identifier(name) => if bound(names, name@) || globals.contains(name@) {
                Ok((names, has_entry))
            } else {
                Err((Error::InvalidDependency, start))
            },
            AstNodeVariant::Operator(operator, operands) => match operator {
                Operator::Assignment => if operands@.len() != 2 {
                    Ok((names, has_entry))
                } else {
                    match r_value_outcome(operands@[1], names, globals, main_data, has_entry) {
                        Err(e) => Err(e),
                        Ok((names2, entry2)) => match l_value_outcome(operands@[0], names2) {
                            Err(e) => Err(e),
                            Ok(names3) => Ok((names3, entry2)),
                        },
                    }
                },
                Operator::Normal(operation) => if !is_lowered(operation) {
                    Err((Error::FeatureNotYetImplemented(Feature::FloatAndLogicalOperators), start))
                } else if operands@.len() == 0 {
                    Ok((names, has_entry))
                } else if operation == Operation::TakeReference || operation == Operation::Read {
                    match l_value_outcome(operands@[0], names) {
                        Err(e) => Err(e),
                        Ok(names2) => Ok((names2, has_entry)),
                    }
                } else if binary_operation_of(operation) is Some && operands@.len() == 2 {
                    match r_value_outcome(operands@[0], names, globals, main_data, has_entry) {
                        Err(e) => Err(e),
                        Ok((names2, entry2)) => r_value_outcome(operands@[1], names2, globals, main_data, entry2),
                    }
                } else {
                    r_value_outcome(operands@[0], names, globals, main_data, has_entry)
                },
                Operator::Augmented(_) => Err(
                    (Error::FeatureNotYetImplemented(Feature::AugmentedAssignments), start),
                ),
                Operator::LValueAssignment => Err(
                    (Error::FeatureNotYetImplemented(Feature::LValueAssignments), start),
                ),
            },
            AstNodeVariant::Block(statements, result_is_undefined) => if result_is_undefined
                && statements@.len() == 0 {
                Ok((names, has_entry))
            } else if names.len() == 0 {
                Err((Error::FeatureNotYetImplemented(Feature::BlocksInGlobalScope), start))
            } else {
                match r_value_outcome_in(
                    node,
                    statements@,
                    0,
                    names.push(Set::empty()),
                    globals,
                    main_data,
                    has_entry,
                ) {
                    Err(e) => Err(e),
                    Ok((names2, entry2)) => Ok((names2.drop_last(), entry2)),
                }
            },
            AstNodeVariant::FunctionCall(function, arguments) => if names.len() == 0 {
                Err((Error::FeatureNotYetImplemented(Feature::GlobalFunctionCalls), start))
            } else if arguments@.len() > MAX_FUNCTION_PARAMETERS {
                Err((Error::TooManyFunctionArguments, start))
            } else {
                match r_value_outcome(*function, names, globals, main_data, has_entry) {
                    Err(e) => Err(e),
                    Ok((names2, entry2)) => r_value_outcome_in(
                        node,
                        arguments@,
                        0,
                        names2,
                        globals,
                        main_data,
                        entry2,
                    ),
                }
            },
            AstNodeVariant::String(_) => Err(
                (Error::FeatureNotYetImplemented(Feature::StringLiterals), start),
            ),
            AstNodeVariant::Metadata(..) => Err(
                (Error::FeatureNotYetImplemented(Feature::NonFunctionMetadata), start),
            ),
            AstNodeVariant::FunctionDefinition(..) => Ok((names, has_entry)),
        }
    }
}

/// The outcome of building `children[i..]`, children of `parent`, as r-values in order.
pub open spec fn r_value_outcome_in(
    parent: AstNode,
    children: Seq<AstNode>,
    i: int,
    names: Seq<Set<Seq<char>>>,
    globals: Set<Seq<char>>,
    main_data: MainData,
    has_entry: bool,
) -> Result<(Seq<Set<Seq<char>>>, bool), (Error, Position)>
    decreases parent, 0int, children.len() - i,
    when 0 <= i && is_child_list(parent, children)
{
    if i >= children.len() {
        Ok((names, has_entry))
    } else {
        match r_value_outcome(children[i], names, globals, main_data, has_entry) {
            Err(e) => Err(e),
            Ok((names2, entry2)) => r_value_outcome_in(
                parent,
                children,
                i + 1,
                names2,
                globals,
                main_data,
                entry2,
            ),
        }
    }
}

/// The outcome of building the function definition `node`, under any metadata:
/// whether an entry point is recorded afterwards, or the error.
pub open spec fn function_outcome(
    node: AstNode,
    is_link_function: bool,
    is_entry_point: bool,
    globals: Set<Seq<char>>,
    main_data: MainData,
    has_entry: bool,
) -> Result<bool, (Error, Position)>
    decreases node, 1int, 0int,
{
    let start = node.start;
    match node.variant {
        AstNodeVariant::Metadata(metadata, child) => match metadata {
            Metadata::EntryPoint => function_outcome(*child, is_link_function, true, globals, main_data, has_entry),
            Metadata::Link => function_outcome(*child, true, is_entry_point, globals, main_data, has_entry),
        },
        AstNodeVariant::FunctionDefinition(parameters, body) => if parameters@.len()
            > MAX_FUNCTION_PARAMETERS {
            Err((Error::TooManyFunctionParameters, start))
        } else if !is_link_function {
            match parameter_names(parameters@, 0, Set::empty()) {
                Err(e) => Err(e),
                Ok(parameter_set) => match r_value_outcome(
                    *body,
                    seq![parameter_set],
                    globals,
                    main_data,
                    has_entry,
                ) {
                    Err(e) => Err(e),
                    Ok((_, entry2)) => entry_step(entry2, is_entry_point, start),
                },
            }
        } else {
            match link_width_error(parameters@, 0, main_data) {
                Some(e) => Err(e),
                None => match spec_type_from_width(*body, main_data) {
                    Err(e) => Err(e),
                    Ok(_) => entry_step(has_entry, is_entry_point, start),
                },
            }
        },
        _ => Err((Error::InvalidType, start)),
    }
}

/// Parameter `index` of `function` is the value at `p`, followed by a stack slot
/// named `name` and a store of the parameter into that slot.
pub open spec fn parameter_stored(values: Seq<Instruction>, p: int, function: FunctionId, index: int, name: Seq<char>) -> bool {
    &&& 0 <= p
    &&& p + 2 < values.len()
    &&& values[p] == (Instruction::Parameter { function, index: index as usize })
    &&& match values[p + 1] {
        Instruction::Alloca { name: slot_name, .. } => slot_name@ == name,
        _ => false,
    }
    &&& values[p + 2] == (Instruction::Store { pointer: (p + 1) as usize, value: p as usize })
}

/// What building a node keeps of the state: values are only appended, globals are
/// untouched, and an entry point once recorded stays.
pub open spec fn build_frame(
    old_data: FileBuildData,
    new_data: FileBuildData,
    old_builder: Builder,
    new_builder: Builder,
) -> bool {
    &&& new_builder.module.extends(old_builder.module)
    &&& new_builder.module.globals == old_builder.module.globals
    &&& new_data.built_globals == old_data.built_globals
    &&& old_data.entrypoint is Some ==> new_data.entrypoint == old_data.entrypoint
}

impl AstNode {
    /// Builds the wrapper body of a link function into the current block: the
    /// arguments converted to `parameter_types`, a call of `external`,
    /// the result converted back to the uniform width, and a return.
    fn build_link_thunk(
        main_data: &MainData,
        builder: &mut Builder,
        parameter_types: &Vec<(Type, bool)>,
        return_type: (Type, bool),
        wrapper: FunctionId,
        external: FunctionId,
    ) -> (r: ValueId)
        ensures
            final(builder).module.extends(old(builder).module),
            final(builder).module.globals == old(builder).module.globals,
            final(builder).cursor == old(builder).cursor,
            old(builder).cursor matches Some(b) ==> (b < old(builder).module.blocks@.len() ==> (final(builder).module.blocks@[b as int].instructions@.len() > 0
                && final(builder).module.blocks@[b as int].instructions@.last() == r)),
            thunk_shape(
                final(builder).module.values@,
                r,
                wrapper,
                external,
                main_data.int_bit_width as u32,
                parameter_types@,
                return_type,
            ),
    {
        let int_type = Type { bit_width: main_data.int_bit_width as u32 };
        let mut arguments: Vec<ValueId> = Vec::new();
        let mut types: Vec<Type> = Vec::new();
        let mut i: usize = 0;
        while i < parameter_types.len()
            invariant
                i <= parameter_types@.len(),
                builder.module.extends(old(builder).module),
                builder.module.globals == old(builder).module.globals,
                builder.cursor == old(builder).cursor,
                int_type.bit_width == main_data.int_bit_width as u32,
                arguments@.len() == i,
                types@.len() == i,
                forall|j: int| 0 <= j < i ==> #[trigger] arguments@[j] < builder.module.values@.len(),
                forall|j: int|
                    0 <= j < i ==> {
                        let conversion = spec_argument_conversion(
                            int_type.bit_width,
                            (#[trigger] parameter_types@[j]).0.bit_width,
                            parameter_types@[j].1,
                        );
                        let source = conversion_source(builder.module.values@, arguments@[j], conversion);
                        &&& types@[j] == parameter_types@[j].0
                        &&& source < builder.module.values@.len()
                        &&& builder.module.values@[source as int] == Instruction::Parameter { function: wrapper, index: j as usize }
                        &&& converts(builder.module.values@, arguments@[j], source, conversion, parameter_types@[j].0)
                    },
            decreases parameter_types@.len() - i,
        {
            let (parameter_type, is_signed) = parameter_types[i];
            let ghost before = builder.module.values@;
            let argument = builder.add_value(Instruction::Parameter { function: wrapper, index: i });
            let conversion = argument_conversion(int_type.bit_width, parameter_type.bit_width, is_signed);
            let converted = build_conversion(builder, conversion, argument, parameter_type);
            arguments.push(converted);
            types.push(parameter_type);
            proof {
                let values = builder.module.values@;
                assert forall|j: int| 0 <= j < i + 1 implies #[trigger] arguments@[j] < values.len() by {}
                assert forall|j: int|
                    0 <= j < i + 1 implies {
                        let conversion = spec_argument_conversion(
                            int_type.bit_width,
                            (#[trigger] parameter_types@[j]).0.bit_width,
                            parameter_types@[j].1,
                        );
                        let source = conversion_source(values, arguments@[j], conversion);
                        &&& types@[j] == parameter_types@[j].0
                        &&& source < values.len()
                        &&& values[source as int] == Instruction::Parameter { function: wrapper, index: j as usize }
                        &&& converts(values, arguments@[j], source, conversion, parameter_types@[j].0)
                    } by {
                    if j < i {
                        let c = spec_argument_conversion(int_type.bit_width, parameter_types@[j].0.bit_width, parameter_types@[j].1);
                        assert(arguments@[j] < before.len());
                        if c != Conversion::Unchanged {
                            assert(values[arguments@[j] as int] == before[arguments@[j] as int]);
                        }
                    }
                }
            }
            i = i + 1;
        }
        let ghost before_call = builder.module.values@;
        let callee = builder.add_value(Instruction::FunctionAddress { function: external });
        let ghost call_arguments = arguments@;
        let call_result = builder.build(
            Instruction::Call {
                callee,
                arguments,
                parameter_types: types,
                return_type: return_type.0,
            },
        );
        let conversion = return_conversion(int_type.bit_width, return_type.0.bit_width, return_type.1);
        let converted = build_conversion(builder, conversion, call_result, int_type);
        let ghost before_return = builder.module.values@;
        let r = builder.build(Instruction::Return { value: converted });
        proof {
            let values = builder.module.values@;
            assert(values[call_result as int] == before_return[call_result as int]);
            assert(values[callee as int] == before_return[callee as int]);
            if conversion != Conversion::Unchanged {
                assert(values[converted as int] == before_return[converted as int]);
            }
            assert(conversion_source(values, converted, conversion) == call_result);
            assert forall|j: int|
                0 <= j < parameter_types@.len() implies {
                    let conversion = spec_argument_conversion(
                        int_type.bit_width,
                        (#[trigger] parameter_types@[j]).0.bit_width,
                        parameter_types@[j].1,
                    );
                    let source = conversion_source(values, call_arguments[j], conversion);
                    &&& call_arguments[j] < call_result
                    &&& source < values.len()
                    &&& values[source as int] == Instruction::Parameter { function: wrapper, index: j as usize }
                    &&& converts(values, call_arguments[j], source, conversion, parameter_types@[j].0)
                } by {
                let c = spec_argument_conversion(int_type.bit_width, parameter_types@[j].0.bit_width, parameter_types@[j].1);
                let source = conversion_source(before_call, call_arguments[j], c);
                assert(call_arguments[j] < before_call.len());
                assert(values[source as int] == before_call[source as int]);
                if c != Conversion::Unchanged {
                    assert(values[call_arguments[j] as int] == before_call[call_arguments[j] as int]);
                }
            }
        }
        r
    }

    /// Builds a function definition, under any metadata, and returns the function's
    /// address as a value of the uniform integer type.
    pub fn build_function_definition(
        &self,
        main_data: &MainData,
        file_build_data: &mut FileBuildData,
        builder: &mut Builder,
        name: &str,
        is_link_function: bool,
        is_entry_point: bool,
    ) -> (r: Result<ValueId, (Error, Position)>)
        requires
            self.wf(),
            self.spec_is_function(),
            old(file_build_data).valid_in(old(builder).module),
        ensures
            final(file_build_data).valid_in(final(builder).module),
            build_frame(*old(file_build_data), *final(file_build_data), *old(builder), *final(builder)),
            r matches Ok(v) ==> (v < final(builder).module.values@.len()
                && (final(builder).module.values@[v as int] matches Instruction::FunctionAddress { function }
                && old(builder).module.functions@.len() <= function < final(builder).module.functions@.len())),
            match function_outcome(
                *self,
                is_link_function,
                is_entry_point,
                old(file_build_data).built_globals@.dom(),
                *main_data,
                (old(file_build_data).entrypoint is Some),
            ) {
                Ok(entry) => (r is Ok) && (final(file_build_data).entrypoint is Some) == entry,
                Err(e) => r == Err::<ValueId, (Error, Position)>(e),
            },
            r matches Ok(v) ==> final(builder).module.values@[v as int] == (Instruction::FunctionAddress {
                function: old(builder).module.functions.len(),
            }),
            r is Ok && (is_entry_point || self.marks_entry_point()) ==> final(file_build_data).entrypoint
                == Some(r->Ok_0),
            (is_entry_point || self.marks_entry_point()) && old(file_build_data).entrypoint is Some
                ==> r is Err,
            r is Ok ==> final(builder).module.functions@.len() > old(builder).module.functions@.len(),
            r is Ok ==> {
                let entry_block = final(builder).module.blocks@[old(builder).module.blocks@.len() as int];
                &&& final(builder).module.blocks@.len() > old(builder).module.blocks@.len()
                &&& entry_block.function == old(builder).module.functions.len()
                &&& entry_block.instructions@.len() > 0
                &&& final(builder).module.values@[entry_block.instructions@.last() as int] is Return
            },
            r is Ok && !(is_link_function || self.marks_link()) ==> (self.definition().variant matches AstNodeVariant::FunctionDefinition(
                _,
                body,
            ) && match final(builder).module.values@[final(builder).module.blocks@[old(builder).module.blocks@.len() as int].instructions@.last() as int] {
                Instruction::Return { value } => yields(*body, final(builder).module.values@, old(file_build_data).built_globals@, *main_data, value),
                _ => false,
            }),
            r is Ok && !(is_link_function || self.marks_link()) ==> (self.definition().variant matches AstNodeVariant::FunctionDefinition(
                parameters,
                _,
            ) ==> forall|i: int|
                0 <= i < parameters@.len() ==> ((#[trigger] parameters@[i]).variant matches AstNodeVariant::Identifier(n)
                    ==> exists|p: int|
                    parameter_stored(
                        final(builder).module.values@,
                        p,
                        old(builder).module.functions.len(),
                        i,
                        n@,
                    ))),
            r is Ok ==> {
                let function = final(builder).module.functions@[old(builder).module.functions@.len() as int];
                &&& function.return_type == int_type(*main_data)
                &&& self.definition().variant matches AstNodeVariant::FunctionDefinition(parameters, _)
                    && function.parameter_types@ == Seq::new(
                    parameters@.len(),
                    |i: int| int_type(*main_data),
                )
            },
            r is Ok && !(is_link_function || self.marks_link()) ==> {
                let function = final(builder).module.functions@[old(builder).module.functions@.len() as int];
                &&& function.name@ == name@
                &&& function.linkage == Linkage::External
                &&& self.definition().variant matches AstNodeVariant::FunctionDefinition(parameters, _)
                    && function.parameter_types@.len() == parameters@.len()
            },
            r is Ok && (is_link_function || self.marks_link()) ==> {
                let wrapper = final(builder).module.functions@[old(builder).module.functions@.len() as int];
                let external = final(builder).module.functions@[old(builder).module.functions@.len() + 1int];
                &&& final(builder).module.functions@.len() > old(builder).module.functions@.len() + 1
                &&& wrapper.name@ == LINK_WRAPPER_PREFIX@ + name@
                &&& external.name@ == name@
                &&& external.linkage == Linkage::DLLImport
                &&& external.calling_convention == Some(CallingConvention::Win64)
                &&& external.parameter_types@ == link_parameter_types(self.definition(), *main_data).map_values(|p: (Type, bool)| p.0)
                &&& external.return_type == link_return_type(self.definition(), *main_data).0
            },
            r is Ok && (is_link_function || self.marks_link()) ==> exists|ret: ValueId|
                #[trigger] thunk_shape(
                    final(builder).module.values@,
                    ret,
                    old(builder).module.functions.len(),
                    (old(builder).module.functions.len() + 1) as usize,
                    main_data.int_bit_width as u32,
                    link_parameter_types(self.definition(), *main_data),
                    link_return_type(self.definition(), *main_data),
                ),
        decreases self, 0int,
    {
        let (parameters, function_body) = match &self.variant {
            AstNodeVariant::FunctionDefinition(parameters, body) => (parameters, body),
            AstNodeVariant::Metadata(metadata, child) => {
                return match metadata {
                    Metadata::EntryPoint => child.build_function_definition(
                        main_data,
                        file_build_data,
                        builder,
                        name,
                        is_link_function,
                        true,
                    ),
                    Metadata::Link => child.build_function_definition(
                        main_data,
                        file_build_data,
                        builder,
                        name,
                        true,
                        is_entry_point,
                    ),
                };
            },
            _ => {
                proof {
                    assert(false);
                }
                return Err((Error::InvalidType, self.start));
            },
        };
        if parameters.len() > MAX_FUNCTION_PARAMETERS {
            return Err((Error::TooManyFunctionParameters, self.start));
        }
        let int_type = Type { bit_width: main_data.int_bit_width as u32 };
        let mut parameter_types: Vec<Type> = Vec::new();
        let mut i: usize = 0;
        while i < parameters.len()
            invariant
                i <= parameters@.len(),
                parameter_types@.len() == i,
                int_type.bit_width == main_data.int_bit_width as u32,
                forall|j: int| 0 <= j < i ==> #[trigger] parameter_types@[j] == int_type,
            decreases parameters@.len() - i,
        {
            parameter_types.push(int_type);
            i = i + 1;
        }
        let mangled_name = if is_link_function {
            concat_strs(LINK_WRAPPER_PREFIX, name)
        } else {
            name.to_owned()
        };
        assert(parameter_types@ =~= Seq::new(parameters@.len() as nat, |i: int| int_type));
        let function = builder.add_function(mangled_name, parameter_types, int_type);
        let ghost declared = builder.module.functions@[function as int];
        assert(self.definition() == *self);
        let block = builder.append_basic_block(function);
        builder.position_at_end(block);
        let ghost mut body_result: ValueId = 0;
        if !is_link_function {
            let mut scope: Scope = NameMap::new();
            let mut i: usize = 0;
            assert(scope@.dom() =~= Set::<Seq<char>>::empty());
            while i < parameters.len()
                invariant
                    i <= parameters@.len(),
                    builder.module.extends(old(builder).module),
                    builder.module.globals == old(builder).module.globals,
                    builder.module.functions@.len() == old(builder).module.functions@.len() + 1,
                    function == old(builder).module.functions@.len(),
                    builder.module.functions@[function as int] == declared,
                    *file_build_data == *old(file_build_data),
                    file_build_data.valid_in(builder.module),
                    !is_link_function,
                    parameters@.len() <= MAX_FUNCTION_PARAMETERS,
                    self.variant matches AstNodeVariant::FunctionDefinition(v, _) && v@ == parameters@,
                    parameter_names(parameters@, 0, Set::empty()) == parameter_names(parameters@, i as int, scope@.dom()),
                    builder.cursor == Some(block),
                    block == old(builder).module.blocks@.len(),
                    block < builder.module.blocks@.len(),
                    builder.module.blocks@[block as int].function == function,
                    forall|k: Seq<char>| #[trigger] scope@.contains_key(k) ==> slot_named(builder.module.values@, scope@[k].slot(), k, *main_data),
                    int_type == crate::codegen::int_type(*main_data),
                    forall|j: int|
                        0 <= j < i ==> ((#[trigger] parameters@[j]).variant matches AstNodeVariant::Identifier(n)
                            ==> exists|p: int| parameter_stored(builder.module.values@, p, function, j, n@)),
                decreases parameters@.len() - i,
            {
                let parameter_name = match &parameters[i].variant {
                    AstNodeVariant::Identifier(parameter_name) => parameter_name,
                    _ => return Err((Error::ExpectedIdentifier, parameters[i].start)),
                };
                let ghost before = builder.module.values@;
                let value = builder.add_value(Instruction::Parameter { function, index: i });
                let slot = builder.build(Instruction::Alloca { ty: int_type, name: parameter_name.clone() });
                builder.build(Instruction::Store { pointer: slot, value });
                scope.insert(parameter_name.clone(), BuiltLValue::AllocaVariable(slot));
                proof {
                    let values = builder.module.values@;
                    assert(parameter_stored(values, value as int, function, i as int, parameter_name@));
                    assert forall|k: Seq<char>| #[trigger] scope@.contains_key(k) implies slot_named(values, scope@[k].slot(), k, *main_data) by {
                        if k != parameter_name@ {
                            let old_slot = scope@[k].slot();
                            assert(values[old_slot as int] == before[old_slot as int]);
                        }
                    }
                    assert forall|j: int|
                        0 <= j < i + 1 implies ((#[trigger] parameters@[j]).variant matches AstNodeVariant::Identifier(n)
                            ==> exists|p: int| parameter_stored(values, p, function, j, n@)) by {
                        if j < i {
                            match parameters@[j].variant {
                            AstNodeVariant::Identifier(n) => {
                                let p = choose|p: int| parameter_stored(before, p, function, j, n@);
                                assert(values[p] == before[p]);
                                assert(values[p + 1] == before[p + 1]);
                                assert(values[p + 2] == before[p + 2]);
                                assert(parameter_stored(values, p, function, j, n@));
                            },
                            _ => {},
                            }
                        }
                    }
                }
                i = i + 1;
            }
            let ghost parameter_set = scope@.dom();
            let ghost before_body = builder.module.values@;
            let mut inner_local_variables: Vec<Scope> = vec![scope];
            assert(scope_names(inner_local_variables@) =~= seq![parameter_set]);
            assert(inner_local_variables@[0] == scope);
            assert(scopes_valid(inner_local_variables@, builder.module.values@, *main_data));
            let body_value = match function_body.build_r_value(
                main_data,
                file_build_data,
                builder,
                &mut inner_local_variables,
                Some(block),
            ) {
                Ok(value) => value,
                Err(e) => return Err(e),
            };
            let ghost before_return = builder.module.values@;
            builder.build(Instruction::Return { value: body_value });
            proof {
                lemma_yields_extends(**function_body, before_return, builder.module.values@, old(file_build_data).built_globals@, *main_data, body_value);
                body_result = body_value;
            }
            assert(builder.module.functions@[function as int] == declared);
            proof {
                let values = builder.module.values@;
                assert forall|j: int|
                    0 <= j < parameters@.len() implies ((#[trigger] parameters@[j]).variant matches AstNodeVariant::Identifier(n)
                        ==> exists|p: int| parameter_stored(values, p, function, j, n@)) by {
                    match parameters@[j].variant {
                    AstNodeVariant::Identifier(n) => {
                        let p = choose|p: int| parameter_stored(before_body, p, function, j, n@);
                        assert(values[p] == before_body[p]);
                        assert(values[p + 1] == before_body[p + 1]);
                        assert(values[p + 2] == before_body[p + 2]);
                        assert(parameter_stored(values, p, function, j, n@));
                    },
                    _ => {},
                    }
                }
            }
        } else {
            let mut wrapped_parameter_types: Vec<(Type, bool)> = Vec::new();
            let mut external_parameter_types: Vec<Type> = Vec::new();
            let mut i: usize = 0;
            while i < parameters.len()
                invariant
                    i <= parameters@.len(),
                    wrapped_parameter_types@.len() == i,
                    external_parameter_types@.len() == i,
                    forall|j: int| 0 <= j < i ==> #[trigger] external_parameter_types@[j] == wrapped_parameter_types@[j].0,
                    self.variant matches AstNodeVariant::FunctionDefinition(v, _) && v@ == parameters@,
                    forall|j: int| 0 <= j < i ==> #[trigger] wrapped_parameter_types@[j] == spec_type_from_width(parameters@[j], *main_data)->Ok_0,
                    link_width_error(parameters@, 0, *main_data) == link_width_error(parameters@, i as int, *main_data),
                    *file_build_data == *old(file_build_data),
                    is_link_function,
                    parameters@.len() <= MAX_FUNCTION_PARAMETERS,
                    builder.module.functions@.len() == old(builder).module.functions@.len() + 1,
                    function == old(builder).module.functions@.len(),
                    build_frame(*old(file_build_data), *file_build_data, *old(builder), *builder),
                    file_build_data.valid_in(builder.module),
                decreases parameters@.len() - i,
            {
                let parameter_type = match parameters[i].type_from_width(main_data) {
                    Ok(t) => t,
                    Err(e) => return Err(e),
                };
                wrapped_parameter_types.push(parameter_type);
                external_parameter_types.push(parameter_type.0);
                i = i + 1;
            }
            let return_type = match function_body.type_from_width(main_data) {
                Ok(t) => t,
                Err(e) => return Err(e),
            };
            let external = builder.add_function(name.to_owned(), external_parameter_types, return_type.0);
            builder.set_linkage(external, Linkage::DLLImport);
            builder.set_calling_convention(external, CallingConvention::Win64);
            assert(builder.module.extends(old(builder).module));
            assert(builder.module.functions@[external as int].parameter_types@ =~= link_parameter_types(self.definition(), *main_data).map_values(|p: (Type, bool)| p.0));
            assert(wrapped_parameter_types@ =~= link_parameter_types(self.definition(), *main_data));
            let ret = AstNode::build_link_thunk(
                main_data,
                builder,
                &wrapped_parameter_types,
                return_type,
                function,
                external,
            );
            let ghost thunk_values = builder.module.values@;
            let result = builder.add_value(Instruction::FunctionAddress { function });
            proof {
                lemma_thunk_shape_extends(
                    thunk_values,
                    builder.module.values@,
                    ret,
                    function,
                    external,
                    main_data.int_bit_width as u32,
                    wrapped_parameter_types@,
                    return_type,
                );
            }
            if is_entry_point {
                if file_build_data.entrypoint.is_some() {
                    return Err((Error::MultipleEntryPoints, self.start));
                }
                file_build_data.entrypoint = Some(result);
            }
            assert(self.definition() == *self);
            assert(return_type == link_return_type(self.definition(), *main_data));
            assert(thunk_shape(
                builder.module.values@,
                ret,
                old(builder).module.functions.len(),
                (old(builder).module.functions.len() + 1) as usize,
                main_data.int_bit_width as u32,
                link_parameter_types(self.definition(), *main_data),
                link_return_type(self.definition(), *main_data),
            ));
            return Ok(result);
        }
        let ghost before_result = builder.module.values@;
        let result = builder.add_value(Instruction::FunctionAddress { function });
        proof {
            lemma_yields_extends(**function_body, before_result, builder.module.values@, old(file_build_data).built_globals@, *main_data, body_result);
            let values = builder.module.values@;
            assert forall|j: int|
                0 <= j < parameters@.len() implies ((#[trigger] parameters@[j]).variant matches AstNodeVariant::Identifier(n)
                    ==> exists|p: int| parameter_stored(values, p, function, j, n@)) by {
                match parameters@[j].variant {
                    AstNodeVariant::Identifier(n) => {
                        let p = choose|p: int| parameter_stored(before_result, p, function, j, n@);
                        assert(values[p] == before_result[p]);
                        assert(values[p + 1] == before_result[p + 1]);
                        assert(values[p + 2] == before_result[p + 2]);
                        assert(parameter_stored(values, p, function, j, n@));
                    },
                    _ => {},
                }
            }
        }
        if is_entry_point {
            if file_build_data.entrypoint.is_some() {
                return Err((Error::MultipleEntryPoints, self.start));
            }
            file_build_data.entrypoint = Some(result);
        }
        Ok(result)
    }
}


/// The instruction that a two-operand operation is built into.
pub open spec fn binary_operation_of(operation: Operation) -> Option<BinaryOperation> {
    match operation {
        Operation::IntegerAdd => Some(BinaryOperation::Add),
        Operation::IntegerSubtract => Some(BinaryOperation::Subtract),
        Operation::IntegerMultiply => Some(BinaryOperation::Multiply),
        Operation::UnsignedDivide => Some(BinaryOperation::UnsignedDivide),
        Operation::UnsignedModulo => Some(BinaryOperation::UnsignedModulo),
        Operation::SignedDivide => Some(BinaryOperation::SignedDivide),
        Operation::SignedTruncatedModulo => Some(BinaryOperation::SignedTruncatedModulo),
        Operation::BitwiseAnd => Some(BinaryOperation::BitwiseAnd),
        Operation::BitwiseOr => Some(BinaryOperation::BitwiseOr),
        Operation::BitwiseXor => Some(BinaryOperation::BitwiseXor),
        _ => None,
    }
}

/// The operations that are lowered: integer arithmetic and bitwise operations,
/// negation, dereference, taking a reference and reading.
pub open spec fn is_lowered(operation: Operation) -> bool {
    binary_operation_of(operation) is Some || operation == Operation::IntegerNegate || operation
        == Operation::Dereference || operation == Operation::TakeReference || operation
        == Operation::Read
}

/// The instruction that built a normal operator's result is the one for its operation.
pub open spec fn built_as(instruction: Instruction, operation: Operation) -> bool {
    match binary_operation_of(operation) {
        Some(binary) => instruction matches Instruction::Binary { operation: o, .. } && o == binary,
        None => if operation == Operation::IntegerNegate {
            instruction is Negate
        } else if operation == Operation::TakeReference {
            instruction is PtrToInt
        } else {
            instruction is Load
        },
    }
}

/// `slot` is a stack slot of the uniform type allocated for a variable named `name`.
pub open spec fn slot_named(values: Seq<Instruction>, slot: ValueId, name: Seq<char>, main_data: MainData) -> bool {
    &&& slot < values.len()
    &&& match values[slot as int] {
        Instruction::Alloca { ty, name: slot_name } => ty == int_type(main_data) && slot_name@ == name,
        _ => false,
    }
}

/// `v` loads the uniform type from a stack slot allocated for a variable named `name`.
pub open spec fn loads_variable(values: Seq<Instruction>, v: ValueId, name: Seq<char>, main_data: MainData) -> bool {
    match values[v as int] {
        Instruction::Load { ty, pointer } => ty == int_type(main_data) && slot_named(values, pointer, name, main_data),
        _ => false,
    }
}

/// Every binding of the scopes is a stack slot allocated for a variable of its name.
pub open spec fn scopes_valid(scopes: Seq<Scope>, values: Seq<Instruction>, main_data: MainData) -> bool {
    forall|i: int, k: Seq<char>|
        0 <= i < scopes.len() && #[trigger] scopes[i]@.contains_key(k) ==> slot_named(
            values,
            scopes[i]@[k].slot(),
            k,
            main_data,
        )
}

/// The value `v` is what building `node` as an r-value yields, built from the values
/// its parts yield: a literal for a constant; a load from a slot of that name, or the
/// built global, for an identifier; the right side's value for an assignment; the
/// operation applied to the operands' values for a normal operator; the cast callee
/// called with the arguments' values for a call; the last statement's value for a
/// block (undefined if there is none or it is marked so); a function's address for a
/// function.
pub open spec fn yields(node: AstNode, values: Seq<Instruction>, globals: Map<Seq<char>, ValueId>, main_data: MainData, v: ValueId) -> bool
    decreases node,
{
    &&& v < values.len()
    &&& if node.spec_is_function() {
        values[v as int] is FunctionAddress
    } else {
        match node.variant {
            AstNodeVariant::Constant(value) => values[v as int] == (Instruction::ConstInt { ty: int_type(main_data), value }),
            AstNodeVariant::Identifier(name) => loads_variable(values, v, name@, main_data) || (globals.contains_key(name@)
                && globals[name@] == v),
            AstNodeVariant::Operator(operator, operands) => match operator {
                Operator::Assignment => operands@.len() == 2 && yields(operands@[1], values, globals, main_data, v),
                Operator::Normal(operation) => operands@.len() >= 1 && match binary_operation_of(operation) {
                    Some(binary) => operands@.len() == 2 && match values[v as int] {
                        Instruction::Binary { operation: built, left, right } => built == binary && yields(
                            operands@[0],
                            values,
                            globals,
                            main_data,
                            left,
                        ) && yields(operands@[1], values, globals, main_data, right),
                        _ => false,
                    },
                    None => if operation == Operation::IntegerNegate {
                        match values[v as int] {
                            Instruction::Negate { operand } => yields(operands@[0], values, globals, main_data, operand),
                            _ => false,
                        }
                    } else if operation == Operation::Dereference {
                        match values[v as int] {
                            Instruction::Load { ty, pointer } => ty == int_type(main_data) && pointer < values.len()
                                && match values[pointer as int] {
                                Instruction::IntToPtr { value } => yields(operands@[0], values, globals, main_data, value),
                                _ => false,
                            },
                            _ => false,
                        }
                    } else if operation == Operation::TakeReference {
                        match (values[v as int], operands@[0].variant) {
                            (Instruction::PtrToInt { ty, pointer }, AstNodeVariant::Identifier(name)) => ty == int_type(main_data)
                                && slot_named(values, pointer, name@, main_data),
                            _ => false,
                        }
                    } else if operation == Operation::Read {
                        match operands@[0].variant {
                            AstNodeVariant::Identifier(name) => loads_variable(values, v, name@, main_data),
                            _ => false,
                        }
                    } else {
                        false
                    },
                },
                _ => false,
            },
            AstNodeVariant::Block(statements, result_is_undefined) => if result_is_undefined
                || statements@.len() == 0 {
                values[v as int] == (Instruction::Undefined { ty: int_type(main_data) })
            } else {
                yields(statements@.last(), values, globals, main_data, v)
            },
            AstNodeVariant::FunctionCall(function, arguments) => match values[v as int] {
                Instruction::Call { callee, arguments: built_arguments, .. } => {
                    &&& callee < values.len()
                    &&& match values[callee as int] {
                        Instruction::IntToPtr { value } => yields(*function, values, globals, main_data, value),
                        _ => false,
                    }
                    &&& built_arguments@.len() == arguments@.len()
                    &&& forall|i: int|
                        0 <= i < arguments@.len() ==> yields(
                            #[trigger] arguments@[i],
                            values,
                            globals,
                            main_data,
                            built_arguments@[i],
                        )
                },
                _ => false,
            },
            _ => true,
        }
    }
}

proof fn lemma_yields_extends(
    node: AstNode,
    values: Seq<Instruction>,
    more: Seq<Instruction>,
    globals: Map<Seq<char>, ValueId>,
    main_data: MainData,
    v: ValueId,
)
    requires
        yields(node, values, globals, main_data, v),
        values.len() <= more.len(),
        forall|i: int| 0 <= i < values.len() ==> more[i] == #[trigger] values[i],
    ensures
        yields(node, more, globals, main_data, v),
    decreases node,
{
    assert(more[v as int] == values[v as int]);
    if !node.spec_is_function() {
        match node.variant {
            AstNodeVariant::Identifier(name) => {
                if loads_variable(values, v, name@, main_data) {
                    let pointer = values[v as int]->Load_pointer;
                    assert(more[pointer as int] == values[pointer as int]);
                }
            },
            AstNodeVariant::Operator(operator, operands) => match operator {
                Operator::Assignment => lemma_yields_extends(operands@[1], values, more, globals, main_data, v),
                Operator::Normal(operation) => {
                    match values[v as int] {
                        Instruction::Binary { left, right, .. } => {
                            if binary_operation_of(operation) is Some {
                                lemma_yields_extends(operands@[0], values, more, globals, main_data, left);
                                lemma_yields_extends(operands@[1], values, more, globals, main_data, right);
                            }
                        },
                        Instruction::Negate { operand } => {
                            if operation == Operation::IntegerNegate {
                                lemma_yields_extends(operands@[0], values, more, globals, main_data, operand);
                            }
                        },
                        Instruction::Load { pointer, .. } => {
                            if pointer < values.len() {
                                assert(more[pointer as int] == values[pointer as int]);
                                if operation == Operation::Dereference {
                                    let value = values[pointer as int]->IntToPtr_value;
                                    lemma_yields_extends(operands@[0], values, more, globals, main_data, value);
                                }
                            }
                        },
                        Instruction::PtrToInt { pointer, .. } => {
                            if pointer < values.len() {
                                assert(more[pointer as int] == values[pointer as int]);
                            }
                        },
                        _ => {},
                    }
                },
                _ => {},
            },
            AstNodeVariant::Block(statements, result_is_undefined) => {
                if !(result_is_undefined || statements@.len() == 0) {
                    assert(decreases_to!(node => statements@[statements@.len() - 1]));
                    lemma_yields_extends(statements@.last(), values, more, globals, main_data, v);
                }
            },
            AstNodeVariant::FunctionCall(function, arguments) => {
                let callee = values[v as int]->Call_callee;
                let built_arguments = values[v as int]->Call_arguments;
                assert(more[callee as int] == values[callee as int]);
                lemma_yields_extends(*function, values, more, globals, main_data, values[callee as int]->IntToPtr_value);
                assert forall|i: int| 0 <= i < arguments@.len() implies yields(
                    #[trigger] arguments@[i],
                    more,
                    globals,
                    main_data,
                    built_arguments@[i],
                ) by {
                    lemma_yields_extends(arguments@[i], values, more, globals, main_data, built_arguments@[i]);
                }
            },
            _ => {},
        }
    }
}

impl AstNode {
    /// Builds an r-value and returns the built value.
    pub fn build_r_value(
        &self,
        main_data: &MainData,
        file_build_data: &mut FileBuildData,
        builder: &mut Builder,
        local_variables: &mut Vec<Scope>,
        basic_block: Option<BlockId>,
    ) -> (r: Result<ValueId, (Error, Position)>)
        requires
            self.wf(),
            old(file_build_data).valid_in(old(builder).module),
            scopes_valid(old(local_variables)@, old(builder).module.values@, *main_data),
        ensures
            final(file_build_data).valid_in(final(builder).module),
            r is Ok ==> scopes_valid(final(local_variables)@, final(builder).module.values@, *main_data),
            build_frame(*old(file_build_data), *final(file_build_data), *old(builder), *final(builder)),
            r matches Ok(v) ==> v < final(builder).module.values@.len(),
            r matches Ok(v) ==> yields(
                *self,
                final(builder).module.values@,
                old(file_build_data).built_globals@,
                *main_data,
                v,
            ),
            match r_value_outcome(
                *self,
                scope_names(old(local_variables)@),
                old(file_build_data).built_globals@.dom(),
                *main_data,
                (old(file_build_data).entrypoint is Some),
            ) {
                Ok((names, entry)) => (r is Ok) && scope_names(final(local_variables)@) == names && (final(file_build_data).entrypoint is Some)
                    == entry,
                Err(e) => r == Err::<ValueId, (Error, Position)>(e),
            },
            self.spec_is_function() ==> *final(local_variables) == *old(local_variables),
            self.spec_is_function() ==> (r matches Ok(v) ==> final(builder).module.values@[v as int] == (
            Instruction::FunctionAddress { function: old(builder).module.functions.len() })),
            r is Ok ==> scopes_extend(final(local_variables)@, old(local_variables)@),
            r is Ok && basic_block is Some && (old(builder).cursor == basic_block || self.spec_is_function())
                ==> final(builder).cursor == basic_block,
            !self.spec_is_function() ==> match self.variant {
                AstNodeVariant::Constant(value) => {
                    &&& r == Ok::<ValueId, (Error, Position)>(old(builder).module.values.len())
                    &&& final(builder).module.values@ == old(builder).module.values@.push(
                        Instruction::ConstInt { ty: int_type(*main_data), value },
                    )
                },
                AstNodeVariant::Identifier(name) => match scope_lookup(old(local_variables)@, name@) {
                    Some(variable) => r == Ok::<ValueId, (Error, Position)>(
                        old(builder).module.values.len(),
                    ) && final(builder).module.values@ == old(builder).module.values@.push(
                        Instruction::Load { ty: int_type(*main_data), pointer: variable.slot() },
                    ),
                    None => if old(file_build_data).built_globals@.contains_key(name@) {
                        r == Ok::<ValueId, (Error, Position)>(old(file_build_data).built_globals@[name@])
                    } else {
                        r == Err::<ValueId, (Error, Position)>((Error::InvalidDependency, self.start))
                    },
                },
                AstNodeVariant::String(_) => r == Err::<ValueId, (Error, Position)>(
                    (Error::FeatureNotYetImplemented(Feature::StringLiterals), self.start),
                ),
                AstNodeVariant::Block(children, result_is_undefined) => {
                    &&& result_is_undefined && children@.len() == 0 ==> r == Ok::<ValueId, (Error, Position)>(
                        old(builder).module.values.len(),
                    ) && final(builder).module.values@ == old(builder).module.values@.push(
                        Instruction::Undefined { ty: int_type(*main_data) },
                    )
                    &&& !(result_is_undefined && children@.len() == 0) && old(local_variables)@.len()
                        == 0 ==> r == Err::<ValueId, (Error, Position)>(
                        (Error::FeatureNotYetImplemented(Feature::BlocksInGlobalScope), self.start),
                    )
                    &&& r is Ok ==> final(local_variables)@ == old(local_variables)@
                    &&& old(local_variables)@.len() == 0 ==> *final(local_variables) == *old(local_variables)
                    &&& result_is_undefined ==> (r matches Ok(v) ==> final(builder).module.values@[v as int]
                        == (Instruction::Undefined { ty: int_type(*main_data) }))
                },
                AstNodeVariant::FunctionCall(_, arguments) => {
                    &&& old(local_variables)@.len() == 0 ==> r == Err::<ValueId, (Error, Position)>(
                        (Error::FeatureNotYetImplemented(Feature::GlobalFunctionCalls), self.start),
                    )
                    &&& old(local_variables)@.len() > 0 && arguments@.len() > MAX_FUNCTION_PARAMETERS
                        ==> r == Err::<ValueId, (Error, Position)>(
                        (Error::TooManyFunctionArguments, self.start),
                    )
                    &&& r matches Ok(v) ==> (final(builder).module.values@[v as int] matches Instruction::Call {
                        callee,
                        arguments: built_arguments,
                        parameter_types,
                        return_type,
                    } && callee < v && final(builder).module.values@[callee as int] is IntToPtr
                        && built_arguments@.len() == arguments@.len() && parameter_types@ == Seq::new(
                        arguments@.len(),
                        |i: int| int_type(*main_data),
                    ) && return_type == int_type(*main_data))
                },
                AstNodeVariant::Operator(Operator::Assignment, operands) => r matches Ok(v) ==> (
                operands@[0].variant matches AstNodeVariant::Identifier(name) && scope_lookup(
                    final(local_variables)@,
                    name@,
                ) matches Some(variable) && final(builder).module.values@.last() == (Instruction::Store {
                    pointer: variable.slot(),
                    value: v,
                })),
                AstNodeVariant::Operator(Operator::Normal(operation), _) => {
                    &&& !is_lowered(operation) ==> r == Err::<ValueId, (Error, Position)>(
                        (Error::FeatureNotYetImplemented(Feature::FloatAndLogicalOperators), self.start),
                    )
                    &&& r matches Ok(v) ==> built_as(final(builder).module.values@[v as int], operation)
                },
                AstNodeVariant::Operator(Operator::Augmented(_), _) => r == Err::<ValueId, (Error, Position)>(
                    (Error::FeatureNotYetImplemented(Feature::AugmentedAssignments), self.start),
                ),
                AstNodeVariant::Operator(Operator::LValueAssignment, _) => r == Err::<ValueId, (Error, Position)>(
                    (Error::FeatureNotYetImplemented(Feature::LValueAssignments), self.start),
                ),
                AstNodeVariant::Metadata(..) => r == Err::<ValueId, (Error, Position)>(
                    (Error::FeatureNotYetImplemented(Feature::NonFunctionMetadata), self.start),
                ),
                _ => true,
            },
        decreases self, 1int,
    {
        let start = self.start;
        let ghost initial_values = builder.module.values@;
        if self.is_function() {
            let out = match self.build_function_definition(
                main_data,
                file_build_data,
                builder,
                UNNAMED_FUNCTION_NAME,
                false,
                false,
            ) {
                Ok(out) => out,
                Err(e) => return Err(e),
            };
            if let Some(block) = basic_block {
                builder.position_at_end(block);
            }
            proof {
                lemma_scopes_valid_extends(local_variables@, initial_values, builder.module.values@, *main_data);
            }
            return Ok(out);
        }
        let int_type = Type { bit_width: main_data.int_bit_width as u32 };
        match &self.variant {
            AstNodeVariant::Constant(value) => {
                let v = builder.add_value(Instruction::ConstInt { ty: int_type, value: *value });
                proof {
                    lemma_scopes_valid_extends(local_variables@, initial_values, builder.module.values@, *main_data);
                }
                Ok(v)
            },
            AstNodeVariant::Identifier(name) => {
                proof {
                    lemma_bound(local_variables@, name@);
                }
                let found = get_variable_by_name(main_data, file_build_data, builder, local_variables, name);
                proof {
                    lemma_scopes_valid_extends(local_variables@, initial_values, builder.module.values@, *main_data);
                    if scope_lookup(local_variables@, name@) is Some {
                        let k = lemma_lookup_index(local_variables@, name@);
                        let slot = scope_lookup(local_variables@, name@)->0.slot();
                        assert(slot_named(initial_values, slot, name@, *main_data));
                        assert(builder.module.values@[slot as int] == initial_values[slot as int]);
                    }
                }
                match found {
                    Ok(value) => Ok(value),
                    Err(e) => Err((e, start)),
                }
            },
            AstNodeVariant::Operator(operator, operands) => match operator {
                Operator::Assignment => {
                    let ghost s0 = local_variables@;
                    let r_value = match operands[1].build_r_value(
                        main_data,
                        file_build_data,
                        builder,
                        local_variables,
                        basic_block,
                    ) {
                        Ok(value) => value,
                        Err(e) => return Err(e),
                    };
                    let ghost s1 = local_variables@;
                    let ghost values_after_right = builder.module.values@;
                    let l_value = match operands[0].build_l_value(main_data, builder, local_variables) {
                        Ok(l_value) => l_value,
                        Err(e) => return Err(e),
                    };
                    proof {
                        lemma_scopes_extend_trans(s0, s1, local_variables@);
                    }
                    let ghost values_after_left = builder.module.values@;
                    l_value.set_value(builder, r_value);
                    proof {
                        lemma_scopes_valid_extends(local_variables@, values_after_left, builder.module.values@, *main_data);
                        lemma_yields_extends(
                            operands@[1],
                            values_after_right,
                            builder.module.values@,
                            old(file_build_data).built_globals@,
                            *main_data,
                            r_value,
                        );
                    }
                    Ok(r_value)
                },
                Operator::Normal(operation) => match operation {
                    Operation::IntegerAdd | Operation::IntegerSubtract | Operation::IntegerMultiply
                    | Operation::UnsignedDivide | Operation::UnsignedModulo | Operation::SignedDivide
                    | Operation::SignedTruncatedModulo | Operation::BitwiseAnd | Operation::BitwiseOr
                    | Operation::BitwiseXor => {
                        let ghost s0 = local_variables@;
                        let left_value = match operands[0].build_r_value(
                            main_data,
                            file_build_data,
                            builder,
                            local_variables,
                            basic_block,
                        ) {
                            Ok(value) => value,
                            Err(e) => return Err(e),
                        };
                        let ghost s1 = local_variables@;
                        let ghost values_after_left = builder.module.values@;
                        let right_value = match operands[1].build_r_value(
                            main_data,
                            file_build_data,
                            builder,
                            local_variables,
                            basic_block,
                        ) {
                            Ok(value) => value,
                            Err(e) => return Err(e),
                        };
                        proof {
                            lemma_scopes_extend_trans(s0, s1, local_variables@);
                        }
                        let binary = match operation {
                            Operation::IntegerAdd => BinaryOperation::Add,
                            Operation::IntegerSubtract => BinaryOperation::Subtract,
                            Operation::IntegerMultiply => BinaryOperation::Multiply,
                            Operation::UnsignedDivide => BinaryOperation::UnsignedDivide,
                            Operation::UnsignedModulo => BinaryOperation::UnsignedModulo,
                            Operation::SignedDivide => BinaryOperation::SignedDivide,
                            Operation::SignedTruncatedModulo => BinaryOperation::SignedTruncatedModulo,
                            Operation::BitwiseAnd => BinaryOperation::BitwiseAnd,
                            Operation::BitwiseOr => BinaryOperation::BitwiseOr,
                            _ => BinaryOperation::BitwiseXor,
                        };
                        assert(binary_operation_of(*operation) == Some(binary));
                        let ghost values_after_right = builder.module.values@;
                        let v = builder.build(
                            Instruction::Binary { operation: binary, left: left_value, right: right_value },
                        );
                        proof {
                            lemma_scopes_valid_extends(local_variables@, values_after_right, builder.module.values@, *main_data);
                            lemma_yields_extends(operands@[0], values_after_left, builder.module.values@, old(file_build_data).built_globals@, *main_data, left_value);
                            lemma_yields_extends(operands@[1], values_after_right, builder.module.values@, old(file_build_data).built_globals@, *main_data, right_value);
                        }
                        Ok(v)
                    },
                    Operation::IntegerNegate => {
                        let operand = match operands[0].build_r_value(
                            main_data,
                            file_build_data,
                            builder,
                            local_variables,
                            basic_block,
                        ) {
                            Ok(value) => value,
                            Err(e) => return Err(e),
                        };
                        let ghost values_after_operand = builder.module.values@;
                        let v = builder.build(Instruction::Negate { operand });
                        proof {
                            lemma_scopes_valid_extends(local_variables@, values_after_operand, builder.module.values@, *main_data);
                            lemma_yields_extends(operands@[0], values_after_operand, builder.module.values@, old(file_build_data).built_globals@, *main_data, operand);
                        }
                        Ok(v)
                    },
                    Operation::Dereference => {
                        let operand = match operands[0].build_r_value(
                            main_data,
                            file_build_data,
                            builder,
                            local_variables,
                            basic_block,
                        ) {
                            Ok(value) => value,
                            Err(e) => return Err(e),
                        };
                        let ghost values_after_operand = builder.module.values@;
                        let pointer = builder.build(Instruction::IntToPtr { value: operand });
                        let v = builder.build(Instruction::Load { ty: int_type, pointer });
                        proof {
                            lemma_scopes_valid_extends(local_variables@, values_after_operand, builder.module.values@, *main_data);
                            lemma_yields_extends(operands@[0], values_after_operand, builder.module.values@, old(file_build_data).built_globals@, *main_data, operand);
                        }
                        Ok(v)
                    },
                    Operation::TakeReference => {
                        let l_value = match operands[0].build_l_value(main_data, builder, local_variables) {
                            Ok(l_value) => l_value,
                            Err(e) => return Err(e),
                        };
                        let pointer = l_value.get_pointer();
                        let ghost values_after_operand = builder.module.values@;
                        let v = builder.build(Instruction::PtrToInt { ty: int_type, pointer });
                        proof {
                            lemma_scopes_valid_extends(local_variables@, values_after_operand, builder.module.values@, *main_data);
                            assert(builder.module.values@[pointer as int] == values_after_operand[pointer as int]);
                        }
                        Ok(v)
                    },
                    Operation::Read => {
                        let l_value = match operands[0].build_l_value(main_data, builder, local_variables) {
                            Ok(l_value) => l_value,
                            Err(e) => return Err(e),
                        };
                        let ghost values_after_operand = builder.module.values@;
                        let v = l_value.get_value(main_data, builder);
                        proof {
                            lemma_scopes_valid_extends(local_variables@, values_after_operand, builder.module.values@, *main_data);
                            assert(builder.module.values@[l_value.slot() as int] == values_after_operand[l_value.slot() as int]);
                        }
                        Ok(v)
                    },
                    _ => Err((Error::FeatureNotYetImplemented(Feature::FloatAndLogicalOperators), start)),
                },
                Operator::Augmented(..) => Err(
                    (Error::FeatureNotYetImplemented(Feature::AugmentedAssignments), start),
                ),
                Operator::LValueAssignment => Err(
                    (Error::FeatureNotYetImplemented(Feature::LValueAssignments), start),
                ),
            },
            AstNodeVariant::FunctionDefinition(..) => {
                proof {
                    assert(false);
                }
                Err((Error::InvalidType, start))
            },
            AstNodeVariant::Block(block_expressions, is_result_undefined) => {
                if *is_result_undefined && block_expressions.len() == 0 {
                    let v = builder.add_value(Instruction::Undefined { ty: int_type });
                    proof {
                        lemma_scopes_valid_extends(local_variables@, initial_values, builder.module.values@, *main_data);
                    }
                    return Ok(v);
                }
                if local_variables.len() == 0 {
                    return Err((Error::FeatureNotYetImplemented(Feature::BlocksInGlobalScope), start));
                }
                let ghost outer = local_variables@;
                local_variables.push(NameMap::new());
                assert(scope_names(local_variables@) =~= scope_names(outer).push(Set::empty()));
                assert(scopes_valid(local_variables@, builder.module.values@, *main_data)) by {
                    assert forall|j: int, k: Seq<char>|
                        0 <= j < local_variables@.len() && #[trigger] local_variables@[j]@.contains_key(k) implies slot_named(
                            builder.module.values@,
                            local_variables@[j]@[k].slot(),
                            k,
                            *main_data,
                        ) by {
                        if j < outer.len() {
                            assert(local_variables@[j] == outer[j]);
                        }
                    }
                }
                let mut last_built_expression: Option<ValueId> = None;
                let mut i: usize = 0;
                while i < block_expressions.len()
                    invariant
                        i <= block_expressions@.len(),
                        self.wf(),
                        self.variant matches AstNodeVariant::Block(v, u) && v@ == block_expressions@ && !(u && v@.len() == 0),
                        outer.len() > 0,
                        outer == old(local_variables)@,
                        !self.spec_is_function(),
                        r_value_outcome(*self, scope_names(outer), old(file_build_data).built_globals@.dom(), *main_data, (old(file_build_data).entrypoint is Some))
                            == match r_value_outcome_in(*self, block_expressions@, i as int, scope_names(local_variables@), old(file_build_data).built_globals@.dom(), *main_data, (file_build_data.entrypoint is Some)) {
                                Err(e) => Err(e),
                                Ok((names, entry)) => Ok((names.drop_last(), entry)),
                            },
                        file_build_data.valid_in(builder.module),
                        local_variables@.len() == outer.len() + 1,
                        forall|j: int| 0 <= j < outer.len() ==> local_variables@[j] == #[trigger] outer[j],
                        build_frame(*old(file_build_data), *file_build_data, *old(builder), *builder),
                        basic_block is Some && old(builder).cursor == basic_block ==> builder.cursor == basic_block,
                        last_built_expression matches Some(v) ==> v < builder.module.values@.len(),
                        last_built_expression is Some ==> i > 0,
                        scopes_valid(local_variables@, builder.module.values@, *main_data),
                        last_built_expression is None ==> i == 0,
                        last_built_expression matches Some(v) ==> (i > 0 && yields(
                            block_expressions@[i - 1],
                            builder.module.values@,
                            old(file_build_data).built_globals@,
                            *main_data,
                            v,
                        )),
                    decreases block_expressions@.len() - i,
                {
                    proof {
                        assert(decreases_to!(*self => block_expressions@[i as int]));
                    }
                    let ghost before = local_variables@;
                    let value = match block_expressions[i].build_r_value(
                        main_data,
                        file_build_data,
                        builder,
                        local_variables,
                        basic_block,
                    ) {
                        Ok(value) => value,
                        Err(e) => return Err(e),
                    };
                    assert forall|j: int| 0 <= j < outer.len() implies local_variables@[j] == #[trigger] outer[j] by {
                        assert(local_variables@[j] == before[j]);
                    }
                    last_built_expression = Some(value);
                    i = i + 1;
                }
                let ghost inner_names = scope_names(local_variables@);
                let ghost inner_scopes = local_variables@;
                local_variables.pop();
                assert(local_variables@ =~= outer);
                assert(scope_names(local_variables@) =~= inner_names.drop_last());
                assert(scopes_valid(local_variables@, builder.module.values@, *main_data)) by {
                    assert forall|j: int, k: Seq<char>|
                        0 <= j < local_variables@.len() && #[trigger] local_variables@[j]@.contains_key(k) implies slot_named(
                            builder.module.values@,
                            local_variables@[j]@[k].slot(),
                            k,
                            *main_data,
                        ) by {
                        assert(local_variables@[j] == inner_scopes[j]);
                    }
                }
                let ghost values_after_statements = builder.module.values@;
                let result = match last_built_expression {
                    Some(value) => if *is_result_undefined {
                        builder.add_value(Instruction::Undefined { ty: int_type })
                    } else {
                        value
                    },
                    None => builder.add_value(Instruction::Undefined { ty: int_type }),
                };
                proof {
                    lemma_scopes_valid_extends(local_variables@, values_after_statements, builder.module.values@, *main_data);
                }
                Ok(result)
            },
            AstNodeVariant::FunctionCall(function, arguments) => {
                if local_variables.len() == 0 {
                    return Err((Error::FeatureNotYetImplemented(Feature::GlobalFunctionCalls), start));
                }
                if arguments.len() > MAX_FUNCTION_PARAMETERS {
                    return Err((Error::TooManyFunctionArguments, start));
                }
                let function_pointer = match function.build_r_value(
                    main_data,
                    file_build_data,
                    builder,
                    local_variables,
                    basic_block,
                ) {
                    Ok(value) => value,
                    Err(e) => return Err(e),
                };
                let mut arguments_built: Vec<ValueId> = Vec::new();
                let mut argument_types: Vec<Type> = Vec::new();
                let mut i: usize = 0;
                let ghost function_node = **function;
                while i < arguments.len()
                    invariant
                        i <= arguments@.len(),
                        self.wf(),
                        self.variant matches AstNodeVariant::FunctionCall(_, v) && v@ == arguments@,
                        old(local_variables)@.len() > 0,
                        arguments@.len() <= MAX_FUNCTION_PARAMETERS,
                        !self.spec_is_function(),
                        r_value_outcome(*self, scope_names(old(local_variables)@), old(file_build_data).built_globals@.dom(), *main_data, (old(file_build_data).entrypoint is Some))
                            == r_value_outcome_in(*self, arguments@, i as int, scope_names(local_variables@), old(file_build_data).built_globals@.dom(), *main_data, (file_build_data.entrypoint is Some)),
                        file_build_data.valid_in(builder.module),
                        scopes_extend(local_variables@, old(local_variables)@),
                        build_frame(*old(file_build_data), *file_build_data, *old(builder), *builder),
                        basic_block is Some && old(builder).cursor == basic_block ==> builder.cursor == basic_block,
                        function_pointer < builder.module.values@.len(),
                        arguments_built@.len() == i,
                        argument_types@.len() == i,
                        int_type == crate::codegen::int_type(*main_data),
                        forall|j: int| 0 <= j < i ==> #[trigger] argument_types@[j] == int_type,
                        scopes_valid(local_variables@, builder.module.values@, *main_data),
                        self.variant matches AstNodeVariant::FunctionCall(f, _) && *f == function_node,
                        yields(function_node, builder.module.values@, old(file_build_data).built_globals@, *main_data, function_pointer),
                        forall|j: int| 0 <= j < i ==> yields(#[trigger] arguments@[j], builder.module.values@, old(file_build_data).built_globals@, *main_data, arguments_built@[j]),
                    decreases arguments@.len() - i,
                {
                    proof {
                        assert(decreases_to!(*self => arguments@[i as int]));
                    }
                    let ghost before = local_variables@;
                    let ghost values_before = builder.module.values@;
                    let value = match arguments[i].build_r_value(
                        main_data,
                        file_build_data,
                        builder,
                        local_variables,
                        basic_block,
                    ) {
                        Ok(value) => value,
                        Err(e) => return Err(e),
                    };
                    proof {
                        lemma_scopes_extend_trans(old(local_variables)@, before, local_variables@);
                    }
                    proof {
                        lemma_yields_extends(function_node, values_before, builder.module.values@, old(file_build_data).built_globals@, *main_data, function_pointer);
                        assert forall|j: int| 0 <= j < i implies yields(#[trigger] arguments@[j], builder.module.values@, old(file_build_data).built_globals@, *main_data, arguments_built@[j]) by {
                            lemma_yields_extends(arguments@[j], values_before, builder.module.values@, old(file_build_data).built_globals@, *main_data, arguments_built@[j]);
                        }
                    }
                    arguments_built.push(value);
                    argument_types.push(int_type);
                    i = i + 1;
                }
                assert(argument_types@ =~= Seq::new(arguments@.len() as nat, |i: int| int_type));
                let ghost values_after_arguments = builder.module.values@;
                let ghost built = arguments_built@;
                let callee = builder.build(Instruction::IntToPtr { value: function_pointer });
                let v = builder.build(
                    Instruction::Call {
                        callee,
                        arguments: arguments_built,
                        parameter_types: argument_types,
                        return_type: int_type,
                    },
                );
                proof {
                    lemma_scopes_valid_extends(local_variables@, values_after_arguments, builder.module.values@, *main_data);
                    lemma_yields_extends(function_node, values_after_arguments, builder.module.values@, old(file_build_data).built_globals@, *main_data, function_pointer);
                    assert forall|j: int| 0 <= j < arguments@.len() implies yields(#[trigger] arguments@[j], builder.module.values@, old(file_build_data).built_globals@, *main_data, built[j]) by {
                        lemma_yields_extends(arguments@[j], values_after_arguments, builder.module.values@, old(file_build_data).built_globals@, *main_data, built[j]);
                    }
                }
                Ok(v)
            },
            AstNodeVariant::String(..) => Err(
                (Error::FeatureNotYetImplemented(Feature::StringLiterals), start),
            ),
            AstNodeVariant::Metadata(..) => Err(
                (Error::FeatureNotYetImplemented(Feature::NonFunctionMetadata), start),
            ),
        }
    }

    /// Builds a global: a function is built under the global's name; any other value
    /// is built in global scope and becomes the initializer of a new global.
    pub fn build_global_assignment(
        &self,
        main_data: &MainData,
        builder: &mut Builder,
        file_build_data: &mut FileBuildData,
        name: &str,
    ) -> (r: Result<ValueId, (Error, Position)>)
        requires
            self.wf(),
            old(file_build_data).valid_in(old(builder).module),
        ensures
            final(file_build_data).valid_in(final(builder).module),
            final(builder).module.extends(old(builder).module),
            final(file_build_data).built_globals == old(file_build_data).built_globals,
            old(file_build_data).entrypoint is Some ==> final(file_build_data).entrypoint == old(
                file_build_data,
            ).entrypoint,
            r matches Ok(v) ==> v < final(builder).module.values@.len(),
            self.spec_is_function() ==> {
                &&& final(builder).module.globals == old(builder).module.globals
                &&& match function_outcome(
                    *self,
                    false,
                    false,
                    old(file_build_data).built_globals@.dom(),
                    *main_data,
                    (old(file_build_data).entrypoint is Some),
                ) {
                    Ok(entry) => (r is Ok) && (final(file_build_data).entrypoint is Some) == entry,
                    Err(e) => r == Err::<ValueId, (Error, Position)>(e),
                }
            },
            r is Ok && self.spec_is_function() && !self.marks_link() ==> final(builder).module.functions@[old(
                builder,
            ).module.functions@.len() as int].name@ == name@,
            !self.spec_is_function() ==> match r_value_outcome(
                *self,
                Seq::empty(),
                old(file_build_data).built_globals@.dom(),
                *main_data,
                (old(file_build_data).entrypoint is Some),
            ) {
                Ok((_, entry)) => (r is Ok) && (final(file_build_data).entrypoint is Some) == entry,
                Err(e) => r == Err::<ValueId, (Error, Position)>(e) && final(builder).module.globals
                    == old(builder).module.globals,
            },
            r matches Ok(v) ==> (self.spec_is_function() ==> final(builder).module.values@[v as int] == (
            Instruction::FunctionAddress { function: old(builder).module.functions.len() })),
            r matches Ok(v) ==> (!self.spec_is_function() ==> yields(
                *self,
                final(builder).module.values@,
                old(file_build_data).built_globals@,
                *main_data,
                v,
            )),
            r matches Ok(v) ==> (!self.spec_is_function() ==> {
                &&& final(builder).module.globals@.len() == old(builder).module.globals@.len() + 1
                &&& forall|i: int|
                    0 <= i < old(builder).module.globals@.len() ==> final(builder).module.globals@[i]
                        == #[trigger] old(builder).module.globals@[i]
                &&& final(builder).module.globals@.last().name@ == name@
                &&& final(builder).module.globals@.last().ty == int_type(*main_data)
                &&& final(builder).module.globals@.last().initializer == Some(v)
            }),
    {
        if self.is_function() {
            return self.build_function_definition(main_data, file_build_data, builder, name, false, false);
        }
        let mut scopes: Vec<Scope> = Vec::new();
        assert(scope_names(scopes@) =~= Seq::<Set<Seq<char>>>::empty());
        let r_value = match self.build_r_value(main_data, file_build_data, builder, &mut scopes, None) {
            Ok(value) => value,
            Err(e) => return Err(e),
        };
        let global = builder.add_global(Type { bit_width: main_data.int_bit_width as u32 }, name.to_owned());
        builder.set_initializer(global, r_value);
        Ok(r_value)
    }
}

} // verus!
