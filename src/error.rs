use vstd::prelude::*;

use crate::token::{Operator, Separator};

verus! {

/// A line and a column, both counted from 1.
pub type Position = (usize, usize);

/// Parts of the language that are recognised but deliberately not lowered yet.
#[derive(Clone, Copy, Debug, PartialEq, Eq, Structural)]
pub enum Feature {
    Comments,
    CharLiterals,
    StringLiterals,
    FloatLiterals,
    GlobalBlocks,
    LValueBlocks,
    AugmentedUnaryOperators,
    FloatAndLogicalOperators,
    NonFunctionMetadata,
    AugmentedAssignments,
    LValueAssignments,
    BlocksInGlobalScope,
    GlobalFunctionCalls,
    LValueOperators,
}

/// Every failure the compiler core can report.
#[derive(Clone, Debug, PartialEq, Eq)]
pub enum Error {
    InvalidShortArgument(String),
    InvalidLongArgument(String),
    NoOptionContinuation,
    CouldNotOpenFile(String),
    CouldNotReadLine,
    FeatureNotYetImplemented(Feature),
    InvalidTokenStartChar(char),
    InvalidNumericalLiteralBase(char),
    InvalidDigitForBase(char, u8),
    NumericalLiteralTooLarge,
    InvalidKeyword(String),
    InvalidOperator(String),
    TooManyOpenParentheses,
    TooManyCloseParentheses,
    BlankExpression,
    ParenthesisMismatch(Separator, Separator),
    NoOperatorBase,
    BinaryOperatorNotUsedOnExpressions,
    OperatorUsedOnNothing,
    InvalidPrefixOperatorSymbol(Operator),
    InvalidInfixOperatorSymbol(Operator),
    FunctionParametersWithoutBody,
    UnterminatedCharLiteral,
    EmptyCharLiteral,
    NothingEscaped,
    InvalidEscapeSequence(String),
    MultipleCharsInCharLiteral,
    UnterminatedStringLiteral,
    MetadataItemWithoutChildNode,
    GlobalAugmentedOperator,
    DiscardedGlobalFunctionCall,
    GlobalAssignmentToNonIdentifier,
    GlobalVariableConflict(String),
    ExpectedIdentifier,
    InvalidDependency,
    TooManyFunctionParameters,
    GlobalLValueAssignment,
    LValueFunctionCall,
    LValueFunctionDefinition,
    MultipleEntryPoints,
    TooManyFunctionArguments,
    LinkNotUsedOnFunction,
    InvalidType,
    InvalidTypeWidth,
    UnableToWriteObject,
    CouldNotGetTarget(String),
    InvalidArchitectureBitWidth(u128),
    UnableToEmitObjectFile(String),
    InvalidLValue,
}

} // verus!
