use bcz::ast_node::{AstNode, AstNodeVariant, Metadata, Operation, Operator};
use bcz::error::{Error, Feature};
use bcz::main_data::MainData;
use bcz::names::{NameMap, NameSet};

fn at(variant: AstNodeVariant, line: usize, column: usize) -> AstNode {
    AstNode { variant, start: (line, column), end: (line, column + 1) }
}

fn node(variant: AstNodeVariant) -> AstNode {
    at(variant, 1, 1)
}

fn constant(value: u64) -> AstNode {
    node(AstNodeVariant::Constant(value))
}

fn ident(name: &str) -> AstNode {
    node(AstNodeVariant::Identifier(name.to_string()))
}

fn op(operator: Operator, operands: Vec<AstNode>) -> AstNode {
    node(AstNodeVariant::Operator(operator, operands))
}

fn assign(name: &str, value: AstNode) -> AstNode {
    op(Operator::Assignment, vec![ident(name), value])
}

fn function(parameters: Vec<AstNode>, body: AstNode) -> AstNode {
    node(AstNodeVariant::FunctionDefinition(parameters, Box::new(body)))
}

fn names(set: &NameSet) -> Vec<String> {
    let mut names = set.names.clone();
    names.sort();
    names
}

#[test]
fn separating_an_assignment_moves_it_into_the_table() {
    let mut root = assign("x", constant(5));
    let mut table: NameMap<AstNode> = NameMap::new();
    assert_eq!(root.separate_globals(&mut table, true), Ok(()));
    assert_eq!(root, ident("x"));
    assert_eq!(table.entries.len(), 1);
    assert_eq!(table.get(&"x".to_string()), Some(&constant(5)));
}

#[test]
fn separating_twice_changes_nothing() {
    let mut root = assign("x", constant(5));
    let mut table: NameMap<AstNode> = NameMap::new();
    root.separate_globals(&mut table, true).unwrap();
    assert_eq!(root.separate_globals(&mut table, true), Ok(()));
    assert_eq!(root, ident("x"));
    assert_eq!(table.entries.len(), 1);
    assert_eq!(table.get(&"x".to_string()), Some(&constant(5)));
}

#[test]
fn single_statement_block_is_unwrapped() {
    let mut root = node(AstNodeVariant::Block(vec![assign("y", constant(2))], false));
    let mut table: NameMap<AstNode> = NameMap::new();
    assert_eq!(root.separate_globals(&mut table, true), Ok(()));
    assert_eq!(root, ident("y"));
    assert_eq!(table.get(&"y".to_string()), Some(&constant(2)));
}

#[test]
fn nested_assignment_in_value_is_separated_too() {
    let mut root = assign("a", assign("b", constant(1)));
    let mut table: NameMap<AstNode> = NameMap::new();
    assert_eq!(root.separate_globals(&mut table, true), Ok(()));
    assert_eq!(table.get(&"b".to_string()), Some(&constant(1)));
    assert_eq!(table.get(&"a".to_string()), Some(&ident("b")));
}

#[test]
fn duplicate_global_is_rejected_and_first_value_kept() {
    let mut table: NameMap<AstNode> = NameMap::new();
    let mut first = assign("x", constant(1));
    assert_eq!(first.separate_globals(&mut table, true), Ok(()));
    let mut second = at(AstNodeVariant::Operator(Operator::Assignment, vec![ident("x"), constant(2)]), 2, 1);
    assert_eq!(
        second.separate_globals(&mut table, true),
        Err((Error::GlobalVariableConflict("x".to_string()), (2, 1)))
    );
    assert_eq!(table.entries.len(), 1);
    assert_eq!(table.get(&"x".to_string()), Some(&constant(1)));
}

#[test]
fn duplicate_global_inside_one_expression() {
    let mut table: NameMap<AstNode> = NameMap::new();
    let mut root = op(
        Operator::Normal(Operation::IntegerAdd),
        vec![assign("x", constant(1)), assign("x", constant(2))],
    );
    assert_eq!(
        root.separate_globals(&mut table, true),
        Err((Error::GlobalVariableConflict("x".to_string()), (1, 1)))
    );
    assert_eq!(table.get(&"x".to_string()), Some(&constant(1)));
}

#[test]
fn separation_errors() {
    let mut table: NameMap<AstNode> = NameMap::new();
    let mut root = op(Operator::Assignment, vec![constant(1), constant(2)]);
    assert_eq!(root.separate_globals(&mut table, true), Err((Error::GlobalAssignmentToNonIdentifier, (1, 1))));
    let mut root = op(Operator::Augmented(Operation::IntegerAdd), vec![ident("x"), constant(2)]);
    assert_eq!(root.separate_globals(&mut table, true), Err((Error::GlobalAugmentedOperator, (1, 1))));
    let mut root = op(Operator::LValueAssignment, vec![ident("x"), constant(2)]);
    assert_eq!(root.separate_globals(&mut table, true), Err((Error::GlobalLValueAssignment, (1, 1))));
    let mut root = node(AstNodeVariant::FunctionCall(Box::new(ident("f")), vec![]));
    assert_eq!(root.separate_globals(&mut table, true), Err((Error::DiscardedGlobalFunctionCall, (1, 1))));
    assert_eq!(root.separate_globals(&mut table, false), Ok(()));
    let mut root = node(AstNodeVariant::Block(vec![constant(1), constant(2)], false));
    assert_eq!(
        root.separate_globals(&mut table, true),
        Err((Error::FeatureNotYetImplemented(Feature::GlobalBlocks), (1, 1)))
    );
    let mut root = node(AstNodeVariant::Block(vec![], true));
    assert_eq!(root.separate_globals(&mut table, true), Ok(()));
    assert_eq!(table.entries.len(), 0);
}

#[test]
fn ordinary_function_parameters_are_local() {
    let body = op(Operator::Normal(Operation::IntegerAdd), vec![ident("a"), ident("g")]);
    let definition = function(vec![ident("a")], body);
    let mut deps = NameSet::new();
    let mut imports = NameSet::new();
    let mut locals = NameSet::new();
    assert_eq!(definition.get_variable_dependencies(&mut deps, &mut imports, &mut locals, false, false), Ok(()));
    assert_eq!(names(&deps), vec!["g".to_string()]);
    assert_eq!(locals.names.len(), 0);
    assert_eq!(imports.names.len(), 0);
}

#[test]
fn link_function_parameters_are_scanned() {
    let definition = node(AstNodeVariant::Metadata(
        Metadata::Link,
        Box::new(function(vec![ident("width_a"), constant(4)], ident("width_r"))),
    ));
    let mut deps = NameSet::new();
    let mut imports = NameSet::new();
    let mut locals = NameSet::new();
    assert_eq!(definition.get_variable_dependencies(&mut deps, &mut imports, &mut locals, false, false), Ok(()));
    assert_eq!(names(&deps), vec!["width_a".to_string(), "width_r".to_string()]);
}

#[test]
fn assignment_makes_a_name_local() {
    let block = node(AstNodeVariant::Block(
        vec![assign("t", constant(1)), op(Operator::Normal(Operation::IntegerAdd), vec![ident("t"), ident("u")])],
        false,
    ));
    let mut deps = NameSet::new();
    let mut imports = NameSet::new();
    let mut locals = NameSet::new();
    assert_eq!(block.get_variable_dependencies(&mut deps, &mut imports, &mut locals, false, false), Ok(()));
    assert_eq!(names(&deps), vec!["u".to_string()]);
    assert_eq!(names(&locals), vec!["t".to_string()]);
}

#[test]
fn call_arguments_do_not_share_locals() {
    let call = node(AstNodeVariant::FunctionCall(
        Box::new(ident("f")),
        vec![assign("k", constant(1)), ident("k")],
    ));
    let mut deps = NameSet::new();
    let mut imports = NameSet::new();
    let mut locals = NameSet::new();
    assert_eq!(call.get_variable_dependencies(&mut deps, &mut imports, &mut locals, false, false), Ok(()));
    assert_eq!(names(&deps), vec!["f".to_string(), "k".to_string()]);
    assert_eq!(locals.names.len(), 0);
}

#[test]
fn dependency_errors() {
    let mut deps = NameSet::new();
    let mut imports = NameSet::new();
    let mut locals = NameSet::new();
    let link_on_value = node(AstNodeVariant::Metadata(Metadata::Link, Box::new(constant(1))));
    assert_eq!(
        link_on_value.get_variable_dependencies(&mut deps, &mut imports, &mut locals, false, false),
        Err((Error::LinkNotUsedOnFunction, (1, 1)))
    );
    let call = node(AstNodeVariant::FunctionCall(Box::new(ident("f")), vec![]));
    assert_eq!(
        call.get_variable_dependencies(&mut deps, &mut imports, &mut locals, true, false),
        Err((Error::LValueFunctionCall, (1, 1)))
    );
    let definition = function(vec![], constant(1));
    assert_eq!(
        definition.get_variable_dependencies(&mut deps, &mut imports, &mut locals, true, false),
        Err((Error::LValueFunctionDefinition, (1, 1)))
    );
    let bad_parameter = function(vec![at(AstNodeVariant::Constant(1), 4, 5)], constant(1));
    assert_eq!(
        bad_parameter.get_variable_dependencies(&mut deps, &mut imports, &mut locals, false, false),
        Err((Error::ExpectedIdentifier, (4, 5)))
    );
    let augmented = op(Operator::Augmented(Operation::IntegerNegate), vec![ident("x"), constant(1)]);
    assert_eq!(
        augmented.get_variable_dependencies(&mut deps, &mut imports, &mut locals, false, false),
        Err((Error::FeatureNotYetImplemented(Feature::AugmentedUnaryOperators), (1, 1)))
    );
    let block = node(AstNodeVariant::Block(vec![constant(1)], false));
    assert_eq!(
        block.get_variable_dependencies(&mut deps, &mut imports, &mut locals, true, false),
        Err((Error::FeatureNotYetImplemented(Feature::LValueBlocks), (1, 1)))
    );
}

#[test]
fn negating_a_literal_folds() {
    let main_data = MainData::new(64).unwrap();
    let mut root = AstNode {
        variant: AstNodeVariant::Operator(Operator::Normal(Operation::IntegerNegate), vec![constant(5)]),
        start: (2, 3),
        end: (2, 5),
    };
    let globals = NameMap::new();
    let mut deps = NameSet::new();
    assert_eq!(root.const_evaluate(&main_data, &globals, &mut deps, false), Ok(()));
    assert_eq!(root, AstNode { variant: AstNodeVariant::Constant(u64::MAX - 4), start: (2, 3), end: (2, 5) });
}

#[test]
fn negation_is_masked_to_the_width() {
    let main_data = MainData::new(8).unwrap();
    let mut root = op(Operator::Normal(Operation::IntegerNegate), vec![constant(5)]);
    let globals = NameMap::new();
    let mut deps = NameSet::new();
    assert_eq!(root.const_evaluate(&main_data, &globals, &mut deps, false), Ok(()));
    assert_eq!(root.variant, AstNodeVariant::Constant(251));
}

#[test]
fn double_negation_folds_back() {
    let main_data = MainData::new(16).unwrap();
    let inner = op(Operator::Normal(Operation::IntegerNegate), vec![constant(7)]);
    let mut root = op(Operator::Normal(Operation::IntegerNegate), vec![inner]);
    let globals = NameMap::new();
    let mut deps = NameSet::new();
    root.const_evaluate(&main_data, &globals, &mut deps, false).unwrap();
    assert_eq!(root.variant, AstNodeVariant::Constant(7));
}

#[test]
fn folding_reaches_into_functions_and_calls() {
    let main_data = MainData::new(8).unwrap();
    let negate_one = || op(Operator::Normal(Operation::IntegerNegate), vec![constant(1)]);
    let mut root = function(
        vec![ident("p")],
        node(AstNodeVariant::FunctionCall(Box::new(ident("f")), vec![negate_one()])),
    );
    let globals = NameMap::new();
    let mut deps = NameSet::new();
    root.const_evaluate(&main_data, &globals, &mut deps, false).unwrap();
    assert_eq!(
        root,
        function(vec![ident("p")], node(AstNodeVariant::FunctionCall(Box::new(ident("f")), vec![constant(255)])))
    );
    let mut other = op(Operator::Normal(Operation::IntegerAdd), vec![constant(1), negate_one()]);
    other.const_evaluate(&main_data, &globals, &mut deps, false).unwrap();
    assert_eq!(other, op(Operator::Normal(Operation::IntegerAdd), vec![constant(1), constant(255)]));
}

#[test]
fn type_widths() {
    let main_data = MainData::new(64).unwrap();
    let width = |value: u64| constant(value).type_from_width(&main_data).map(|(t, signed)| (t.bit_width, signed));
    assert_eq!(width(1), Ok((8, false)));
    assert_eq!(width(4), Ok((32, false)));
    assert_eq!(width(16), Ok((128, false)));
    assert_eq!(width(u64::MAX - 3), Ok((32, true)));
    assert_eq!(width(u64::MAX), Ok((8, true)));
    assert_eq!(width(3), Err((Error::InvalidTypeWidth, (1, 1))));
    assert_eq!(ident("x").type_from_width(&main_data).map(|_| ()), Err((Error::InvalidType, (1, 1))));
}

#[test]
fn functions_under_metadata() {
    let wrapped = node(AstNodeVariant::Metadata(Metadata::EntryPoint, Box::new(function(vec![], constant(0)))));
    assert!(wrapped.is_function());
    assert!(!constant(1).is_function());
    assert!(!node(AstNodeVariant::Metadata(Metadata::Link, Box::new(constant(1)))).is_function());
}
