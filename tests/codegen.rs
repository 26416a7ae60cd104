use bcz::ast_node::{AstNode, AstNodeVariant, Metadata, Operation, Operator};
use bcz::codegen::{
    argument_conversion, get_variable_by_name, return_conversion, BuiltLValue, Conversion, FileBuildData, Scope,
};
use bcz::error::{Error, Feature};
use bcz::ir::{BinaryOperation, Builder, CallingConvention, Instruction, Linkage, Type};
use bcz::main_data::MainData;
use bcz::names::NameMap;

fn at(variant: AstNodeVariant, line: usize, column: usize) -> AstNode {
    AstNode { variant, start: (line, column), end: (line, column + 1) }
}

fn node(variant: AstNodeVariant) -> AstNode {
    at(variant, 1, 1)
}

fn constant(value: u64) -> AstNode {
    node(AstNodeVariant::Constant(value))
}

fn ident(name: &str) -> AstNode {
    node(AstNodeVariant::Identifier(name.to_string()))
}

fn op(operator: Operator, operands: Vec<AstNode>) -> AstNode {
    node(AstNodeVariant::Operator(operator, operands))
}

fn assign(name: &str, value: AstNode) -> AstNode {
    op(Operator::Assignment, vec![ident(name), value])
}

fn block(statements: Vec<AstNode>) -> AstNode {
    node(AstNodeVariant::Block(statements, false))
}

fn function(parameters: Vec<AstNode>, body: AstNode) -> AstNode {
    node(AstNodeVariant::FunctionDefinition(parameters, Box::new(body)))
}

fn scope_names(scope: &Scope) -> Vec<String> {
    scope.entries.iter().map(|(name, _)| name.clone()).collect()
}

/// The instructions of the last block of the module.
fn last_block(builder: &Builder) -> Vec<Instruction> {
    let block = builder.module.blocks.last().unwrap();
    block.instructions.iter().map(|id| builder.module.values[*id].clone()).collect()
}

#[test]
fn constant_becomes_an_integer_constant() {
    let main_data = MainData::new(64).unwrap();
    let mut data = FileBuildData::new();
    let mut builder = Builder::new();
    let mut scopes: Vec<Scope> = Vec::new();
    let value = constant(9).build_r_value(&main_data, &mut data, &mut builder, &mut scopes, None).unwrap();
    assert_eq!(builder.module.values[value], Instruction::ConstInt { ty: Type { bit_width: 64 }, value: 9 });
}

#[test]
fn block_bindings_end_with_the_block() {
    let main_data = MainData::new(64).unwrap();
    let mut data = FileBuildData::new();
    let mut builder = Builder::new();
    let mut scopes: Vec<Scope> = vec![NameMap::new()];
    let inner = block(vec![assign("x", constant(1)), ident("x")]);
    inner.build_r_value(&main_data, &mut data, &mut builder, &mut scopes, None).unwrap();
    assert_eq!(scopes.len(), 1);
    assert_eq!(scopes[0].entries.len(), 0);
    let read = ident("x").build_r_value(&main_data, &mut data, &mut builder, &mut scopes, None);
    assert_eq!(read, Err((Error::InvalidDependency, (1, 1))));
}

#[test]
fn outer_binding_is_seen_after_the_block() {
    let main_data = MainData::new(64).unwrap();
    let mut data = FileBuildData::new();
    let mut builder = Builder::new();
    let mut scopes: Vec<Scope> = vec![NameMap::new()];
    assign("x", constant(1)).build_r_value(&main_data, &mut data, &mut builder, &mut scopes, None).unwrap();
    let outer_slot = match scopes[0].get(&"x".to_string()) {
        Some(BuiltLValue::AllocaVariable(slot)) => *slot,
        None => panic!("x is not bound"),
    };
    let inner = block(vec![assign("y", constant(2)), assign("x", constant(3))]);
    inner.build_r_value(&main_data, &mut data, &mut builder, &mut scopes, None).unwrap();
    assert_eq!(scope_names(&scopes[0]), vec!["x".to_string()]);
    let read = ident("x").build_r_value(&main_data, &mut data, &mut builder, &mut scopes, None).unwrap();
    assert_eq!(builder.module.values[read], Instruction::Load { ty: Type { bit_width: 64 }, pointer: outer_slot });
}

#[test]
fn global_is_read_when_no_local_binds_the_name() {
    let main_data = MainData::new(32).unwrap();
    let mut data = FileBuildData::new();
    let mut builder = Builder::new();
    let global = builder.add_value(Instruction::ConstInt { ty: Type { bit_width: 32 }, value: 4 });
    data.built_globals.insert("g".to_string(), global);
    let scopes: Vec<Scope> = vec![NameMap::new()];
    assert_eq!(get_variable_by_name(&main_data, &data, &mut builder, &scopes, &"g".to_string()), Ok(global));
    assert_eq!(
        get_variable_by_name(&main_data, &data, &mut builder, &scopes, &"h".to_string()),
        Err(Error::InvalidDependency)
    );
}

#[test]
fn arithmetic_in_a_function() {
    let main_data = MainData::new(64).unwrap();
    let mut data = FileBuildData::new();
    let mut builder = Builder::new();
    let body = op(Operator::Normal(Operation::IntegerSubtract), vec![ident("a"), constant(1)]);
    let definition = function(vec![ident("a")], body);
    let value = definition.build_global_assignment(&main_data, &mut builder, &mut data, "dec").unwrap();
    assert_eq!(builder.module.functions.len(), 1);
    assert_eq!(builder.module.functions[0].name, "dec");
    assert_eq!(builder.module.values[value], Instruction::FunctionAddress { function: 0 });
    let instructions = last_block(&builder);
    assert!(matches!(instructions[0], Instruction::Alloca { .. }));
    assert!(matches!(instructions[1], Instruction::Store { .. }));
    assert!(matches!(instructions[2], Instruction::Load { .. }));
    assert!(matches!(instructions[3], Instruction::Binary { operation: BinaryOperation::Subtract, .. }));
    assert!(matches!(instructions[4], Instruction::Return { .. }));
}

#[test]
fn global_value_gets_an_initializer() {
    let main_data = MainData::new(64).unwrap();
    let mut data = FileBuildData::new();
    let mut builder = Builder::new();
    let value = constant(3).build_global_assignment(&main_data, &mut builder, &mut data, "three").unwrap();
    assert_eq!(builder.module.globals.len(), 1);
    assert_eq!(builder.module.globals[0].name, "three");
    assert_eq!(builder.module.globals[0].initializer, Some(value));
}

fn link_function(parameter_width: u64, return_width: u64) -> AstNode {
    node(AstNodeVariant::Metadata(
        Metadata::Link,
        Box::new(function(vec![constant(parameter_width)], constant(return_width))),
    ))
}

#[test]
fn link_function_widens_and_narrows() {
    let main_data = MainData::new(64).unwrap();
    let mut data = FileBuildData::new();
    let mut builder = Builder::new();
    let minus_four = u64::MAX - 3;
    link_function(1, minus_four).build_global_assignment(&main_data, &mut builder, &mut data, "Beep").unwrap();
    assert_eq!(builder.module.functions.len(), 2);
    assert_eq!(builder.module.functions[0].name, "__bcz__link__Beep");
    let external = &builder.module.functions[1];
    assert_eq!(external.name, "Beep");
    assert_eq!(external.parameter_types, vec![Type { bit_width: 8 }]);
    assert_eq!(external.return_type, Type { bit_width: 32 });
    assert_eq!(external.linkage, Linkage::DLLImport);
    assert_eq!(external.calling_convention, Some(CallingConvention::Win64));
    let instructions = last_block(&builder);
    assert_eq!(instructions.len(), 4);
    assert!(matches!(instructions[0], Instruction::Truncate { ty: Type { bit_width: 8 }, .. }));
    assert!(matches!(instructions[1], Instruction::Call { .. }));
    assert!(matches!(instructions[2], Instruction::SignExtend { ty: Type { bit_width: 64 }, .. }));
    assert!(matches!(instructions[3], Instruction::Return { .. }));
}

#[test]
fn link_function_on_a_narrow_target_zero_extends() {
    let main_data = MainData::new(4).unwrap();
    let mut data = FileBuildData::new();
    let mut builder = Builder::new();
    link_function(1, 1).build_global_assignment(&main_data, &mut builder, &mut data, "f").unwrap();
    let instructions = last_block(&builder);
    assert!(matches!(instructions[0], Instruction::ZeroExtend { ty: Type { bit_width: 8 }, .. }));
    assert!(matches!(instructions[1], Instruction::Call { .. }));
    assert!(matches!(instructions[2], Instruction::Truncate { ty: Type { bit_width: 4 }, .. }));
}

#[test]
fn link_function_with_matching_widths_converts_nothing() {
    let main_data = MainData::new(32).unwrap();
    let mut data = FileBuildData::new();
    let mut builder = Builder::new();
    link_function(4, 4).build_global_assignment(&main_data, &mut builder, &mut data, "same").unwrap();
    let instructions = last_block(&builder);
    assert_eq!(instructions.len(), 2);
    assert!(matches!(instructions[0], Instruction::Call { .. }));
    assert!(matches!(instructions[1], Instruction::Return { .. }));
}

#[test]
fn link_function_width_errors() {
    let main_data = MainData::new(64).unwrap();
    let mut data = FileBuildData::new();
    let mut builder = Builder::new();
    let result = link_function(3, 4).build_global_assignment(&main_data, &mut builder, &mut data, "bad");
    assert_eq!(result, Err((Error::InvalidTypeWidth, (1, 1))));
    let wrapped = node(AstNodeVariant::Metadata(Metadata::Link, Box::new(function(vec![ident("a")], constant(4)))));
    let result = wrapped.build_global_assignment(&main_data, &mut builder, &mut data, "bad2");
    assert_eq!(result, Err((Error::InvalidType, (1, 1))));
}

#[test]
fn conversions() {
    assert_eq!(argument_conversion(64, 8, false), Conversion::Truncate);
    assert_eq!(argument_conversion(4, 8, false), Conversion::ZeroExtend);
    assert_eq!(argument_conversion(4, 8, true), Conversion::SignExtend);
    assert_eq!(argument_conversion(8, 8, true), Conversion::Unchanged);
    assert_eq!(return_conversion(64, 32, true), Conversion::SignExtend);
    assert_eq!(return_conversion(64, 32, false), Conversion::ZeroExtend);
    assert_eq!(return_conversion(32, 32, true), Conversion::Unchanged);
    assert_eq!(return_conversion(16, 32, true), Conversion::Truncate);
}

fn entry_point(body: u64) -> AstNode {
    node(AstNodeVariant::Metadata(Metadata::EntryPoint, Box::new(function(vec![], constant(body)))))
}

#[test]
fn single_entry_point_is_recorded() {
    let main_data = MainData::new(64).unwrap();
    let mut data = FileBuildData::new();
    let mut builder = Builder::new();
    let value = entry_point(0).build_global_assignment(&main_data, &mut builder, &mut data, "main").unwrap();
    assert_eq!(data.entrypoint, Some(value));
}

#[test]
fn second_entry_point_is_rejected() {
    let main_data = MainData::new(64).unwrap();
    let mut data = FileBuildData::new();
    let mut builder = Builder::new();
    let first = entry_point(0).build_global_assignment(&main_data, &mut builder, &mut data, "main").unwrap();
    let second = entry_point(1).build_global_assignment(&main_data, &mut builder, &mut data, "other");
    assert_eq!(second, Err((Error::MultipleEntryPoints, (1, 1))));
    assert_eq!(data.entrypoint, Some(first));
}

#[test]
fn nested_function_restores_the_insertion_point() {
    let main_data = MainData::new(64).unwrap();
    let mut data = FileBuildData::new();
    let mut builder = Builder::new();
    let body = block(vec![assign("g", function(vec![], constant(1))), constant(2)]);
    function(vec![], body).build_global_assignment(&main_data, &mut builder, &mut data, "outer").unwrap();
    assert_eq!(builder.module.functions.len(), 2);
    assert_eq!(builder.module.functions[1].name, "__bcz__unnamedFunction");
    let outer_block = &builder.module.blocks[0];
    let last = *outer_block.instructions.last().unwrap();
    assert!(matches!(builder.module.values[last], Instruction::Return { .. }));
    assert_eq!(builder.cursor, Some(0));
}

#[test]
fn function_call_is_built_through_a_pointer() {
    let main_data = MainData::new(64).unwrap();
    let mut data = FileBuildData::new();
    let mut builder = Builder::new();
    let call = node(AstNodeVariant::FunctionCall(Box::new(ident("f")), vec![constant(1), constant(2)]));
    let mut scopes: Vec<Scope> = vec![NameMap::new()];
    assign("f", constant(0)).build_r_value(&main_data, &mut data, &mut builder, &mut scopes, None).unwrap();
    let value = call.build_r_value(&main_data, &mut data, &mut builder, &mut scopes, None).unwrap();
    match &builder.module.values[value] {
        Instruction::Call { arguments, parameter_types, return_type, .. } => {
            assert_eq!(arguments.len(), 2);
            assert_eq!(parameter_types.len(), 2);
            assert_eq!(*return_type, Type { bit_width: 64 });
        },
        other => panic!("expected a call, got {:?}", other),
    }
}

#[test]
fn code_generation_errors() {
    let main_data = MainData::new(64).unwrap();
    let mut data = FileBuildData::new();
    let mut builder = Builder::new();
    let mut global_scope: Vec<Scope> = Vec::new();
    let call = node(AstNodeVariant::FunctionCall(Box::new(ident("f")), vec![]));
    assert_eq!(
        call.build_r_value(&main_data, &mut data, &mut builder, &mut global_scope, None),
        Err((Error::FeatureNotYetImplemented(Feature::GlobalFunctionCalls), (1, 1)))
    );
    assert_eq!(
        block(vec![constant(1)]).build_r_value(&main_data, &mut data, &mut builder, &mut global_scope, None),
        Err((Error::FeatureNotYetImplemented(Feature::BlocksInGlobalScope), (1, 1)))
    );
    let empty = node(AstNodeVariant::Block(vec![], true));
    let undefined = empty.build_r_value(&main_data, &mut data, &mut builder, &mut global_scope, None).unwrap();
    assert_eq!(builder.module.values[undefined], Instruction::Undefined { ty: Type { bit_width: 64 } });
    let text = node(AstNodeVariant::String("hi".to_string()));
    assert_eq!(
        text.build_r_value(&main_data, &mut data, &mut builder, &mut global_scope, None),
        Err((Error::FeatureNotYetImplemented(Feature::StringLiterals), (1, 1)))
    );
    let mut scopes: Vec<Scope> = vec![NameMap::new()];
    let logical = op(Operator::Normal(Operation::LogicalShortCircuitAnd), vec![constant(1), constant(2)]);
    assert_eq!(
        logical.build_r_value(&main_data, &mut data, &mut builder, &mut scopes, None),
        Err((Error::FeatureNotYetImplemented(Feature::FloatAndLogicalOperators), (1, 1)))
    );
    let augmented = op(Operator::Augmented(Operation::IntegerAdd), vec![ident("x"), constant(2)]);
    assert_eq!(
        augmented.build_r_value(&main_data, &mut data, &mut builder, &mut scopes, None),
        Err((Error::FeatureNotYetImplemented(Feature::AugmentedAssignments), (1, 1)))
    );
    let assign_to_constant = op(Operator::Assignment, vec![constant(1), constant(2)]);
    assert_eq!(
        assign_to_constant.build_r_value(&main_data, &mut data, &mut builder, &mut scopes, None),
        Err((Error::InvalidLValue, (1, 1)))
    );
    let bad_parameter = function(vec![at(AstNodeVariant::Constant(3), 2, 9)], constant(0));
    assert_eq!(
        bad_parameter.build_global_assignment(&main_data, &mut builder, &mut data, "f"),
        Err((Error::ExpectedIdentifier, (2, 9)))
    );
    let tagged_value = node(AstNodeVariant::Metadata(Metadata::EntryPoint, Box::new(constant(1))));
    assert_eq!(
        tagged_value.build_r_value(&main_data, &mut data, &mut builder, &mut scopes, None),
        Err((Error::FeatureNotYetImplemented(Feature::NonFunctionMetadata), (1, 1)))
    );
}

#[test]
fn l_values() {
    let main_data = MainData::new(64).unwrap();
    let mut builder = Builder::new();
    let mut scopes: Vec<Scope> = vec![NameMap::new(), NameMap::new()];
    let first = ident("v").build_l_value(&main_data, &mut builder, &mut scopes).unwrap();
    assert_eq!(scope_names(&scopes[1]), vec!["v".to_string()]);
    let again = ident("v").build_l_value(&main_data, &mut builder, &mut scopes).unwrap();
    assert_eq!(first, again);
    assert_eq!(
        op(Operator::Normal(Operation::IntegerAdd), vec![constant(1), constant(2)])
            .build_l_value(&main_data, &mut builder, &mut scopes),
        Err((Error::FeatureNotYetImplemented(Feature::LValueOperators), (1, 1)))
    );
    assert_eq!(
        block(vec![]).build_l_value(&main_data, &mut builder, &mut scopes),
        Err((Error::FeatureNotYetImplemented(Feature::LValueBlocks), (1, 1)))
    );
    let mut no_scopes: Vec<Scope> = Vec::new();
    assert_eq!(
        ident("w").build_l_value(&main_data, &mut builder, &mut no_scopes),
        Err((Error::InvalidLValue, (1, 1)))
    );
}

#[test]
fn take_reference_and_dereference() {
    let main_data = MainData::new(64).unwrap();
    let mut data = FileBuildData::new();
    let mut builder = Builder::new();
    let mut scopes: Vec<Scope> = vec![NameMap::new()];
    assign("x", constant(1)).build_r_value(&main_data, &mut data, &mut builder, &mut scopes, None).unwrap();
    let reference = op(Operator::Normal(Operation::TakeReference), vec![ident("x")]);
    let address = reference.build_r_value(&main_data, &mut data, &mut builder, &mut scopes, None).unwrap();
    assert!(matches!(builder.module.values[address], Instruction::PtrToInt { .. }));
    let dereference = op(Operator::Normal(Operation::Dereference), vec![ident("x")]);
    let loaded = dereference.build_r_value(&main_data, &mut data, &mut builder, &mut scopes, None).unwrap();
    assert!(matches!(builder.module.values[loaded], Instruction::Load { .. }));
    let read = op(Operator::Normal(Operation::Read), vec![ident("x")]);
    let value = read.build_r_value(&main_data, &mut data, &mut builder, &mut scopes, None).unwrap();
    assert!(matches!(builder.module.values[value], Instruction::Load { .. }));
}

#[test]
fn block_value_loads_the_slot_bound_in_the_block() {
    let main_data = MainData::new(64).unwrap();
    let mut data = FileBuildData::new();
    let mut builder = Builder::new();
    let mut scopes: Vec<Scope> = vec![NameMap::new()];
    let inner = block(vec![assign("x", constant(7)), ident("x")]);
    let value = inner.build_r_value(&main_data, &mut data, &mut builder, &mut scopes, None).unwrap();
    let slot = match builder.module.values[value] {
        Instruction::Load { pointer, .. } => pointer,
        ref other => panic!("expected a load, got {:?}", other),
    };
    assert!(matches!(builder.module.values[slot], Instruction::Alloca { .. }));
    let stored = builder.module.values.iter().find_map(|instruction| match instruction {
        Instruction::Store { pointer, value } if *pointer == slot => Some(*value),
        _ => None,
    });
    assert_eq!(builder.module.values[stored.unwrap()], Instruction::ConstInt { ty: Type { bit_width: 64 }, value: 7 });
}
