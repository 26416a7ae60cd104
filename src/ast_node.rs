use vstd::prelude::*;

use crate::error::{Error, Feature, Position};
use crate::ir::Type;
use crate::main_data::MainData;
use crate::names::{NameMap, NameSet};

verus! {

/// The operations that operators perform.
#[derive(Clone, Copy, Debug, PartialEq, Eq, Structural)]
pub enum Operation {
    IntegerAdd,
    FloatAdd,
    IntegerSubtract,
    FloatSubtract,
    IntegerMultiply,
    FloatMultiply,
    SignedDivide,
    UnsignedDivide,
    FloatDivide,
    SignedTruncatedModulo,
    UnsignedModulo,
    FloatTruncatedModulo,
    Read,
    IntegerNegate,
    FloatNegate,
    Dereference,
    TakeReference,
    BitwiseAnd,
    BitwiseOr,
    BitwiseXor,
    LogicalNotShortCircuitAnd,
    LogicalNotShortCircuitOr,
    LogicalNotShortCircuitXor,
    LogicalShortCircuitAnd,
    LogicalShortCircuitOr,
    LogicalShortCircuitXor,
}

impl Operation {
    /// The operations that take one operand.
    pub open spec fn spec_is_unary(self) -> bool {
        self == Operation::Read || self == Operation::IntegerNegate || self
            == Operation::FloatNegate || self == Operation::Dereference || self
            == Operation::TakeReference
    }

    pub fn is_unary(self) -> (r: bool)
        ensures
            r == self.spec_is_unary(),
    {
        match self {
            Operation::Read | Operation::IntegerNegate | Operation::FloatNegate
            | Operation::Dereference | Operation::TakeReference => true,
            _ => false,
        }
    }
}

/// How an operator node uses its operation.
#[derive(Clone, Copy, Debug, PartialEq, Eq, Structural)]
pub enum Operator {
    Assignment,
    Normal(Operation),
    Augmented(Operation),
    LValueAssignment,
}

/// A modifier on the node it wraps.
#[derive(Clone, Copy, Debug, PartialEq, Eq, Structural)]
pub enum Metadata {
    EntryPoint,
    Link,
}

#[derive(Debug, PartialEq, Eq)]
pub enum AstNodeVariant {
    /// A constant.
    Constant(u64),
    /// An operator with its operands.
    Operator(Operator, Vec<AstNode>),
    /// An identifier such as `my_var` or `myFunc`.
    Identifier(String),
    /// The expressions of a block, and whether its result is undefined.
    Block(Vec<AstNode>, bool),
    /// The expression giving the function pointer, and the arguments.
    FunctionCall(Box<AstNode>, Vec<AstNode>),
    /// The parameters of a function definition and its body.
    FunctionDefinition(Vec<AstNode>, Box<AstNode>),
    /// A string literal.
    String(String),
    /// Metadata about a child node.
    Metadata(Metadata, Box<AstNode>),
}

#[derive(Debug, PartialEq, Eq)]
pub struct AstNode {
    pub variant: AstNodeVariant,
    /// The line and column that this node starts at.
    pub start: Position,
    /// The line and column of the character after the last character of this node.
    pub end: Position,
}

/// The number of operands an operator takes.
pub open spec fn arity_ok(operator: Operator, count: int) -> bool {
    match operator {
        Operator::Normal(operation) => if operation.spec_is_unary() {
            count == 1
        } else {
            count == 2
        },
        _ => count == 2,
    }
}

/// The result of integer negation of `value`, masked to the integer type's width.
pub open spec fn negated(value: u64, max: u64) -> u64 {
    let flipped = value ^ max;
    (if flipped == u64::MAX {
        0
    } else {
        (flipped + 1) as u64
    }) & max
}

/// The constant a node folds to, if it folds to one: a literal, or integer
/// negation of a node that folds to a constant.
pub open spec fn folded_constant(node: AstNode, max: u64) -> Option<u64>
    decreases node,
{
    match node.variant {
        AstNodeVariant::Constant(value) => Some(value),
        AstNodeVariant::Operator(operator, operands) => if operator == Operator::Normal(
            Operation::IntegerNegate,
        ) && operands@.len() >= 1 {
            match folded_constant(operands@[0], max) {
                Some(value) => Some(negated(value, max)),
                None => None,
            }
        } else {
            None
        },
        _ => None,
    }
}

impl AstNode {
    /// Operators have as many operands as their operation takes, throughout the tree.
    pub open spec fn wf(self) -> bool
        decreases self,
    {
        match self.variant {
            AstNodeVariant::Operator(operator, operands) => arity_ok(operator, operands@.len() as int)
                && forall|i: int| 0 <= i < operands@.len() ==> (#[trigger] operands@[i]).wf(),
            AstNodeVariant::Block(children, _) => forall|i: int|
                0 <= i < children@.len() ==> (#[trigger] children@[i]).wf(),
            AstNodeVariant::FunctionCall(function, arguments) => function.wf() && forall|i: int|
                0 <= i < arguments@.len() ==> (#[trigger] arguments@[i]).wf(),
            AstNodeVariant::FunctionDefinition(parameters, body) => body.wf() && forall|i: int|
                0 <= i < parameters@.len() ==> (#[trigger] parameters@[i]).wf(),
            AstNodeVariant::Metadata(_, child) => child.wf(),
            _ => true,
        }
    }

    /// The node is a function definition, possibly under metadata.
    pub open spec fn spec_is_function(self) -> bool
        decreases self,
    {
        match self.variant {
            AstNodeVariant::FunctionDefinition(..) => true,
            AstNodeVariant::Metadata(_, child) => child.spec_is_function(),
            _ => false,
        }
    }

    /// Returns if the expression can be built into a function.
    pub fn is_function(&self) -> (r: bool)
        ensures
            r == self.spec_is_function(),
        decreases self,
    {
        match &self.variant {
            AstNodeVariant::FunctionDefinition(..) => true,
            AstNodeVariant::Metadata(_, child) => child.is_function(),
            _ => false,
        }
    }

    /// `folded` is what constant folding makes of `self`: every subtree folded first,
    /// then integer negation of a literal replaced by the negated literal, with the
    /// operator's span.
    pub open spec fn folds_to(self, folded: AstNode, max: u64, is_link_function: bool) -> bool
        decreases self,
    {
        match self.variant {
            AstNodeVariant::Operator(operator, operands) => if operator == Operator::Normal(
                Operation::IntegerNegate,
            ) && operands@.len() >= 1 && folded_constant(operands@[0], max) is Some {
                folded == AstNode {
                    variant: AstNodeVariant::Constant(
                        negated(folded_constant(operands@[0], max)->0, max),
                    ),
                    start: self.start,
                    end: self.end,
                }
            } else {
                &&& folded.start == self.start
                &&& folded.end == self.end
                &&& folded.variant matches AstNodeVariant::Operator(operator2, operands2)
                &&& operator2 == operator
                &&& operands2@.len() == operands@.len()
                &&& forall|i: int|
                    0 <= i < operands@.len() ==> (#[trigger] operands@[i]).folds_to(
                        operands2@[i],
                        max,
                        is_link_function,
                    )
            },
            AstNodeVariant::FunctionDefinition(parameters, body) => {
                &&& folded.start == self.start
                &&& folded.end == self.end
                &&& folded.variant matches AstNodeVariant::FunctionDefinition(parameters2, body2)
                &&& body.folds_to(*body2, max, false)
                &&& parameters2@.len() == parameters@.len()
                &&& forall|i: int|
                    0 <= i < parameters@.len() ==> if is_link_function {
                        (#[trigger] parameters@[i]).folds_to(parameters2@[i], max, false)
                    } else {
                        parameters2@[i] == parameters@[i]
                    }
            },
            AstNodeVariant::Metadata(metadata, child) => {
                &&& folded.start == self.start
                &&& folded.end == self.end
                &&& folded.variant matches AstNodeVariant::Metadata(metadata2, child2)
                &&& metadata2 == metadata
                &&& child.folds_to(*child2, max, is_link_function || metadata == Metadata::Link)
            },
            AstNodeVariant::Block(children, result_is_undefined) => {
                &&& folded.start == self.start
                &&& folded.end == self.end
                &&& folded.variant matches AstNodeVariant::Block(children2, undefined2)
                &&& undefined2 == result_is_undefined
                &&& children2@.len() == children@.len()
                &&& forall|i: int|
                    0 <= i < children@.len() ==> (#[trigger] children@[i]).folds_to(
                        children2@[i],
                        max,
                        is_link_function,
                    )
            },
            AstNodeVariant::FunctionCall(function, arguments) => {
                &&& folded.start == self.start
                &&& folded.end == self.end
                &&& folded.variant matches AstNodeVariant::FunctionCall(function2, arguments2)
                &&& function.folds_to(*function2, max, is_link_function)
                &&& arguments2@.len() == arguments@.len()
                &&& forall|i: int|
                    0 <= i < arguments@.len() ==> (#[trigger] arguments@[i]).folds_to(
                        arguments2@[i],
                        max,
                        is_link_function,
                    )
            },
            _ => folded == self,
        }
    }
}


/// Constant folding is idempotent: folding a folded tree leaves it as it is.
pub proof fn lemma_fold_idempotent(node: AstNode, folded: AstNode, max: u64, is_link_function: bool)
    requires
        node.folds_to(folded, max, is_link_function),
    ensures
        folded.folds_to(folded, max, is_link_function),
        folded_constant(folded, max) == folded_constant(node, max),
    decreases node,
{
    match node.variant {
        AstNodeVariant::Operator(operator, operands) => {
            if operator == Operator::Normal(Operation::IntegerNegate) && operands@.len() >= 1
                && folded_constant(operands@[0], max) is Some {
            } else {
                let operands2 = folded.variant->Operator_1;
                assert forall|i: int| 0 <= i < operands2@.len() implies (#[trigger] operands2@[i]).folds_to(
                    operands2@[i],
                    max,
                    is_link_function,
                ) by {
                    lemma_fold_idempotent(operands@[i], operands2@[i], max, is_link_function);
                }
                if operands@.len() >= 1 {
                    lemma_fold_idempotent(operands@[0], operands2@[0], max, is_link_function);
                }
            }
        },
        AstNodeVariant::FunctionDefinition(parameters, body) => {
            let parameters2 = folded.variant->FunctionDefinition_0;
            let body2 = folded.variant->FunctionDefinition_1;
            lemma_fold_idempotent(*body, *body2, max, false);
            if is_link_function {
                assert forall|i: int| 0 <= i < parameters2@.len() implies (#[trigger] parameters2@[i]).folds_to(
                    parameters2@[i],
                    max,
                    false,
                ) by {
                    lemma_fold_idempotent(parameters@[i], parameters2@[i], max, false);
                }
            }
        },
        AstNodeVariant::Metadata(metadata, child) => {
            let child2 = folded.variant->Metadata_1;
            lemma_fold_idempotent(*child, *child2, max, is_link_function || metadata == Metadata::Link);
        },
        AstNodeVariant::Block(children, _) => {
            let children2 = folded.variant->Block_0;
            assert forall|i: int| 0 <= i < children2@.len() implies (#[trigger] children2@[i]).folds_to(
                children2@[i],
                max,
                is_link_function,
            ) by {
                lemma_fold_idempotent(children@[i], children2@[i], max, is_link_function);
            }
        },
        AstNodeVariant::FunctionCall(function, arguments) => {
            let function2 = folded.variant->FunctionCall_0;
            let arguments2 = folded.variant->FunctionCall_1;
            lemma_fold_idempotent(*function, *function2, max, is_link_function);
            assert forall|i: int| 0 <= i < arguments2@.len() implies (#[trigger] arguments2@[i]).folds_to(
                arguments2@[i],
                max,
                is_link_function,
            ) by {
                lemma_fold_idempotent(arguments@[i], arguments2@[i], max, is_link_function);
            }
        },
        _ => {},
    }
}

/// Integer negation masked to the integer type's width.
fn negate_masked(value: u64, max: u64) -> (r: u64)
    ensures
        r == negated(value, max),
{
    let flipped = value ^ max;
    let incremented: u64 = if flipped == u64::MAX {
        0
    } else {
        flipped + 1
    };
    incremented & max
}

impl AstNode {
    /// Const evaluates the expressions that can be const evaluated, in place.
    pub fn const_evaluate(
        &mut self,
        main_data: &MainData,
        const_evaluated_globals: &NameMap<(AstNode, NameSet)>,
        variable_dependencies: &mut NameSet,
        is_link_function: bool,
    ) -> (r: Result<(), (Error, Position)>)
        ensures
            r is Ok,
            old(self).folds_to(*final(self), main_data.int_max_value, is_link_function),
            folded_constant(*old(self), main_data.int_max_value) is Some ==> final(self).variant
                == AstNodeVariant::Constant(
                folded_constant(*old(self), main_data.int_max_value)->0,
            ),
            folded_constant(*old(self), main_data.int_max_value) is None ==> !(
            final(self).variant is Constant),
            *final(variable_dependencies) == *old(variable_dependencies),
        decreases *old(self),
    {
        let max = main_data.int_max_value;
        let start = self.start;
        let end = self.end;
        let mut replacement: Option<u64> = None;
        match &mut self.variant {
            AstNodeVariant::Operator(operator, operands) => {
                let ghost old_operands = operands@;
                let mut i: usize = 0;
                while i < operands.len()
                    invariant
                        i <= operands@.len(),
                        max == main_data.int_max_value,
                        *variable_dependencies == *old(variable_dependencies),
                        operands@.len() == old_operands.len(),
                        old(self).variant matches AstNodeVariant::Operator(_, v) && v@ == old_operands,
                        forall|j: int| 0 <= j < i ==> (#[trigger] old_operands[j]).folds_to(operands@[j], max, is_link_function),
                        forall|j: int| 0 <= j < i ==> (folded_constant(#[trigger] old_operands[j], max) is Some ==> operands@[j].variant == AstNodeVariant::Constant(folded_constant(old_operands[j], max)->0)),
                        forall|j: int| 0 <= j < i ==> (folded_constant(#[trigger] old_operands[j], max) is None ==> !(operands@[j].variant is Constant)),
                        forall|j: int| i <= j < operands@.len() ==> operands@[j] == #[trigger] old_operands[j],
                    decreases operands@.len() - i,
                {
                    proof {
                        assert(decreases_to!(*old(self) => old_operands[i as int]));
                    }
                    let ghost before = operands@;
                    let _ = AstNode::const_evaluate(&mut operands[i], main_data, const_evaluated_globals, variable_dependencies, is_link_function);
                    assert(forall|j: int| 0 <= j < operands@.len() && j != i ==> operands@[j] == before[j]);
                    assert(old_operands[i as int].folds_to(operands@[i as int], max, is_link_function));
                    i = i + 1;
                }
                if let Operator::Normal(Operation::IntegerNegate) = operator {
                    if operands.len() >= 1 {
                        if let AstNodeVariant::Constant(value) = operands[0].variant {
                            replacement = Some(negate_masked(value, max));
                        }
                    }
                }
            },
            AstNodeVariant::FunctionDefinition(parameters, body) => {
                let _ = body.const_evaluate(main_data, const_evaluated_globals, variable_dependencies, false);
                if is_link_function {
                    let ghost old_parameters = parameters@;
                    let mut i: usize = 0;
                    while i < parameters.len()
                        invariant
                            i <= parameters@.len(),
                            max == main_data.int_max_value,
                            *variable_dependencies == *old(variable_dependencies),
                            parameters@.len() == old_parameters.len(),
                        old(self).variant matches AstNodeVariant::FunctionDefinition(v, _) && v@ == old_parameters,
                            forall|j: int| 0 <= j < i ==> (#[trigger] old_parameters[j]).folds_to(parameters@[j], max, false),
                            forall|j: int| i <= j < parameters@.len() ==> parameters@[j] == #[trigger] old_parameters[j],
                        decreases parameters@.len() - i,
                    {
                        proof {
                            assert(decreases_to!(*old(self) => old_parameters[i as int]));
                        }
                        let ghost before = parameters@;
                        let _ = AstNode::const_evaluate(&mut parameters[i], main_data, const_evaluated_globals, variable_dependencies, false);
                        assert(forall|j: int| 0 <= j < parameters@.len() && j != i ==> parameters@[j] == before[j]);
                        assert(old_parameters[i as int].folds_to(parameters@[i as int], max, false));
                        i = i + 1;
                    }
                }
            },
            AstNodeVariant::Metadata(metadata, child) => {
                let child_is_link = match metadata {
                    Metadata::EntryPoint => is_link_function,
                    Metadata::Link => true,
                };
                let _ = child.const_evaluate(main_data, const_evaluated_globals, variable_dependencies, child_is_link);
            },
            AstNodeVariant::Block(children, _) => {
                let ghost old_children = children@;
                let mut i: usize = 0;
                while i < children.len()
                    invariant
                        i <= children@.len(),
                        max == main_data.int_max_value,
                        *variable_dependencies == *old(variable_dependencies),
                        children@.len() == old_children.len(),
                        old(self).variant matches AstNodeVariant::Block(v, _) && v@ == old_children,
                        forall|j: int| 0 <= j < i ==> (#[trigger] old_children[j]).folds_to(children@[j], max, is_link_function),
                        forall|j: int| i <= j < children@.len() ==> children@[j] == #[trigger] old_children[j],
                    decreases children@.len() - i,
                {
                    proof {
                        assert(decreases_to!(*old(self) => old_children[i as int]));
                    }
                    let ghost before = children@;
                    let _ = AstNode::const_evaluate(&mut children[i], main_data, const_evaluated_globals, variable_dependencies, is_link_function);
                    assert(forall|j: int| 0 <= j < children@.len() && j != i ==> children@[j] == before[j]);
                    assert(old_children[i as int].folds_to(children@[i as int], max, is_link_function));
                    i = i + 1;
                }
            },
            AstNodeVariant::FunctionCall(function, arguments) => {
                let _ = function.const_evaluate(main_data, const_evaluated_globals, variable_dependencies, is_link_function);
                let ghost old_arguments = arguments@;
                let mut i: usize = 0;
                while i < arguments.len()
                    invariant
                        i <= arguments@.len(),
                        max == main_data.int_max_value,
                        *variable_dependencies == *old(variable_dependencies),
                        arguments@.len() == old_arguments.len(),
                        old(self).variant matches AstNodeVariant::FunctionCall(_, v) && v@ == old_arguments,
                        forall|j: int| 0 <= j < i ==> (#[trigger] old_arguments[j]).folds_to(arguments@[j], max, is_link_function),
                        forall|j: int| i <= j < arguments@.len() ==> arguments@[j] == #[trigger] old_arguments[j],
                    decreases arguments@.len() - i,
                {
                    proof {
                        assert(decreases_to!(*old(self) => old_arguments[i as int]));
                    }
                    let ghost before = arguments@;
                    let _ = AstNode::const_evaluate(&mut arguments[i], main_data, const_evaluated_globals, variable_dependencies, is_link_function);
                    assert(forall|j: int| 0 <= j < arguments@.len() && j != i ==> arguments@[j] == before[j]);
                    assert(old_arguments[i as int].folds_to(arguments@[i as int], max, is_link_function));
                    i = i + 1;
                }
            },
            AstNodeVariant::Constant(..) => {},
            AstNodeVariant::String(..) => {},
            AstNodeVariant::Identifier(..) => {},
        }
        if let Some(value) = replacement {
            *self = AstNode { variant: AstNodeVariant::Constant(value), start, end };
        }
        Ok(())
    }
}


/// `x + 1`, wrapping to zero past the largest `u64`.
pub open spec fn wrapping_increment(x: u64) -> u64 {
    if x == u64::MAX {
        0
    } else {
        (x + 1) as u64
    }
}

/// The integer width in bits for a byte width of 1, 2, 4, 8 or 16.
pub open spec fn bits_for_byte_width(byte_width: u64) -> Option<u32> {
    if byte_width == 1 {
        Some(8)
    } else if byte_width == 2 {
        Some(16)
    } else if byte_width == 4 {
        Some(32)
    } else if byte_width == 8 {
        Some(64)
    } else if byte_width == 16 {
        Some(128)
    } else {
        None
    }
}

/// A constant in type position is negative when its sign bit is set.
pub open spec fn width_is_negative(value: u64, main_data: MainData) -> bool {
    main_data.sign_bit_mask & value != 0
}

/// The magnitude of a constant in type position: its two's complement negation
/// when it is negative.
pub open spec fn width_magnitude(value: u64, main_data: MainData) -> u64 {
    if width_is_negative(value, main_data) {
        wrapping_increment(value ^ main_data.int_max_value)
    } else {
        value
    }
}

/// The integer type, and whether it is signed, that a node in type position stands for.
pub open spec fn spec_type_from_width(node: AstNode, main_data: MainData) -> Result<(Type, bool), (Error, Position)> {
    match node.variant {
        AstNodeVariant::Constant(value) => match bits_for_byte_width(width_magnitude(value, main_data)) {
            Some(bits) => Ok((Type { bit_width: bits }, width_is_negative(value, main_data))),
            None => Err((Error::InvalidTypeWidth, node.start)),
        },
        _ => Err((Error::InvalidType, node.start)),
    }
}

impl AstNode {
    /// Gets an integer type from a byte width: a constant whose magnitude is 1, 2, 4,
    /// 8 or 16 gives the integer type of that many bytes, signed when the constant is
    /// negative.
    pub fn type_from_width(&self, main_data: &MainData) -> (r: Result<(Type, bool), (Error, Position)>)
        ensures
            r == spec_type_from_width(*self, *main_data),
    {
        match &self.variant {
            AstNodeVariant::Constant(value) => {
                let value = *value;
                let is_negative = (main_data.sign_bit_mask & value) != 0;
                let byte_width = if is_negative {
                    let flipped = value ^ main_data.int_max_value;
                    if flipped == u64::MAX {
                        0
                    } else {
                        flipped + 1
                    }
                } else {
                    value
                };
                let bits: u32 = if byte_width == 1 {
                    8
                } else if byte_width == 2 {
                    16
                } else if byte_width == 4 {
                    32
                } else if byte_width == 8 {
                    64
                } else if byte_width == 16 {
                    128
                } else {
                    return Err((Error::InvalidTypeWidth, self.start));
                };
                Ok((Type { bit_width: bits }, is_negative))
            },
            _ => Err((Error::InvalidType, self.start)),
        }
    }

    /// Nothing in the node is left for global separation to act on: no assignment,
    /// augmented or l-value operator at the top level, no discarded function call and
    /// no block but the empty one.
    pub open spec fn is_separated(self, discarded: bool) -> bool
        decreases self,
    {
        match self.variant {
            AstNodeVariant::Operator(operator, operands) => match operator {
                Operator::Normal(_) => forall|i: int|
                    0 <= i < operands@.len() ==> (#[trigger] operands@[i]).is_separated(discarded),
                _ => false,
            },
            AstNodeVariant::FunctionCall(..) => !discarded,
            AstNodeVariant::Block(children, result_is_undefined) => result_is_undefined
                && children@.len() == 0,
            AstNodeVariant::Metadata(_, child) => child.is_separated(discarded),
            _ => true,
        }
    }
}

impl AstNode {
    /// Whether global separation would leave the node as it is.
    pub fn check_separated(&self, discarded: bool) -> (r: bool)
        ensures
            r == self.is_separated(discarded),
        decreases self,
    {
        match &self.variant {
            AstNodeVariant::Operator(operator, operands) => match operator {
                Operator::Normal(_) => {
                    let mut i: usize = 0;
                    while i < operands.len()
                        invariant
                            i <= operands@.len(),
                            self.variant matches AstNodeVariant::Operator(_, v) && v@ == operands@,
                            forall|j: int| 0 <= j < i ==> (#[trigger] operands@[j]).is_separated(discarded),
                        decreases operands@.len() - i,
                    {
                        proof {
                            assert(decreases_to!(*self => operands@[i as int]));
                        }
                        if !operands[i].check_separated(discarded) {
                            return false;
                        }
                        i = i + 1;
                    }
                    true
                },
                _ => false,
            },
            AstNodeVariant::FunctionCall(..) => !discarded,
            AstNodeVariant::Block(children, result_is_undefined) => *result_is_undefined && children.len() == 0,
            AstNodeVariant::Metadata(_, child) => child.check_separated(discarded),
            _ => true,
        }
    }
}

impl AstNode {
    /// What global separation leaves in place of `self` when it succeeds: an
    /// assignment becomes its identifier, a single-statement block its statement
    /// separated, and operands and metadata children are separated in place.
    pub open spec fn becomes(self, new: AstNode) -> bool
        decreases self,
    {
        match self.variant {
            AstNodeVariant::Operator(operator, operands) => match operator {
                Operator::Assignment => operands@.len() == 2 && new == operands@[0],
                Operator::Normal(_) => {
                    &&& new.start == self.start
                    &&& new.end == self.end
                    &&& new.variant matches AstNodeVariant::Operator(operator2, operands2)
                    &&& operator2 == operator
                    &&& operands2@.len() == operands@.len()
                    &&& forall|j: int|
                        0 <= j < operands@.len() ==> (#[trigger] operands@[j]).becomes(operands2@[j])
                },
                _ => new == self,
            },
            AstNodeVariant::Block(children, result_is_undefined) => if !result_is_undefined
                && children@.len() == 1 {
                children@[0].becomes(new)
            } else {
                new == self
            },
            AstNodeVariant::Metadata(metadata, child) => {
                &&& new.start == self.start
                &&& new.end == self.end
                &&& new.variant matches AstNodeVariant::Metadata(metadata2, child2)
                &&& metadata2 == metadata
                &&& child.becomes(*child2)
            },
            _ => new == self,
        }
    }

    /// The names that global separation of `self` assigns to.
    pub open spec fn assigned_names(self) -> Set<Seq<char>>
        decreases self, 1int, 0int,
    {
        match self.variant {
            AstNodeVariant::Operator(operator, operands) => match operator {
                Operator::Assignment => if operands@.len() == 2 {
                    match operands@[0].variant {
                        AstNodeVariant::Identifier(name) => operands@[1].assigned_names().insert(name@),
                        _ => operands@[1].assigned_names(),
                    }
                } else {
                    Set::empty()
                },
                Operator::Normal(_) => assigned_names_in(self, operands@, 0),
                _ => Set::empty(),
            },
            AstNodeVariant::Block(children, result_is_undefined) => if !result_is_undefined
                && children@.len() == 1 {
                children@[0].assigned_names()
            } else {
                Set::empty()
            },
            AstNodeVariant::Metadata(_, child) => child.assigned_names(),
            _ => Set::empty(),
        }
    }
}

/// The names that global separation of `children[i..]`, children of `parent`, assigns to.
pub open spec fn assigned_names_in(parent: AstNode, children: Seq<AstNode>, i: int) -> Set<Seq<char>>
    decreases parent, 0int, children.len() - i,
    when 0 <= i && is_child_list(parent, children)
{
    if i >= children.len() {
        Set::empty()
    } else {
        children[i].assigned_names().union(assigned_names_in(parent, children, i + 1))
    }
}

/// The error that global separation of `node` stops with, if any, when the table
/// holds the names `keys` before it.
pub open spec fn separation_error(node: AstNode, keys: Set<Seq<char>>, discarded: bool) -> Option<(Error, Position)>
    decreases node, 1int, 0int,
{
    let start = node.start;
    match node.variant {
        AstNodeVariant::Operator(operator, operands) => match operator {
            Operator::Assignment => if operands@.len() != 2 {
                None
            } else {
                match separation_error(operands@[1], keys, false) {
                    Some(e) => Some(e),
                    None => match operands@[0].variant {
                        AstNodeVariant::Identifier(name) => if keys.union(
                            operands@[1].assigned_names(),
                        ).contains(name@) {
                            Some((Error::GlobalVariableConflict(name), start))
                        } else {
                            None
                        },
                        _ => Some((Error::GlobalAssignmentToNonIdentifier, start)),
                    },
                }
            },
            Operator::Normal(_) => separation_error_in(node, operands@, 0, keys, discarded),
            Operator::Augmented(_) => Some((Error::GlobalAugmentedOperator, start)),
            Operator::LValueAssignment => Some((Error::GlobalLValueAssignment, start)),
        },
        AstNodeVariant::FunctionCall(..) => if discarded {
            Some((Error::DiscardedGlobalFunctionCall, start))
        } else {
            None
        },
        AstNodeVariant::Block(children, result_is_undefined) => if result_is_undefined
            && children@.len() == 0 {
            None
        } else if children@.len() != 1 || result_is_undefined {
            Some((Error::FeatureNotYetImplemented(Feature::GlobalBlocks), start))
        } else {
            separation_error(children@[0], keys, discarded)
        },
        AstNodeVariant::Metadata(_, child) => separation_error(*child, keys, discarded),
        _ => None,
    }
}

/// The error that global separation of `children[i..]`, children of `parent`, stops
/// with, if any, when the table holds the names `keys` before them.
pub open spec fn separation_error_in(
    parent: AstNode,
    children: Seq<AstNode>,
    i: int,
    keys: Set<Seq<char>>,
    discarded: bool,
) -> Option<(Error, Position)>
    decreases parent, 0int, children.len() - i,
    when 0 <= i && is_child_list(parent, children)
{
    if i >= children.len() {
        None
    } else {
        match separation_error(children[i], keys, discarded) {
            Some(e) => Some(e),
            None => separation_error_in(
                parent,
                children,
                i + 1,
                keys.union(children[i].assigned_names()),
                discarded,
            ),
        }
    }
}

impl AstNode {
    /// The right operand that global separation of `self` assigns to `name`, if any.
    pub open spec fn assigned_value(self, name: Seq<char>) -> Option<AstNode>
        decreases self, 1int, 0int,
    {
        match self.variant {
            AstNodeVariant::Operator(operator, operands) => match operator {
                Operator::Assignment => if operands@.len() != 2 {
                    None
                } else if (operands@[0].variant matches AstNodeVariant::Identifier(n) && n@ == name) {
                    Some(operands@[1])
                } else {
                    operands@[1].assigned_value(name)
                },
                Operator::Normal(_) => assigned_value_in(self, operands@, 0, name),
                _ => None,
            },
            AstNodeVariant::Block(children, result_is_undefined) => if !result_is_undefined
                && children@.len() == 1 {
                children@[0].assigned_value(name)
            } else {
                None
            },
            AstNodeVariant::Metadata(_, child) => child.assigned_value(name),
            _ => None,
        }
    }
}

/// The right operand that global separation of `children[i..]`, children of `parent`,
/// assigns to `name`, if any: that of the first child that assigns it.
pub open spec fn assigned_value_in(parent: AstNode, children: Seq<AstNode>, i: int, name: Seq<char>) -> Option<AstNode>
    decreases parent, 0int, children.len() - i,
    when 0 <= i && is_child_list(parent, children)
{
    if i >= children.len() {
        None
    } else if children[i].assigned_names().contains(name) {
        children[i].assigned_value(name)
    } else {
        assigned_value_in(parent, children, i + 1, name)
    }
}

proof fn lemma_assigned_value_skip(parent: AstNode, children: Seq<AstNode>, i: int, m: int, name: Seq<char>)
    requires
        0 <= i <= m <= children.len(),
        is_child_list(parent, children),
        forall|j: int| i <= j < m ==> !(#[trigger] children[j]).assigned_names().contains(name),
    ensures
        assigned_value_in(parent, children, i, name) == assigned_value_in(parent, children, m, name),
    decreases m - i,
{
    if i < m {
        lemma_assigned_value_skip(parent, children, i + 1, m, name);
    }
}

proof fn lemma_assigned_disjoint(parent: AstNode, children: Seq<AstNode>, i: int, keys: Set<Seq<char>>)
    requires
        0 <= i <= children.len(),
        is_child_list(parent, children),
        forall|j: int| i <= j < children.len() ==> keys.disjoint((#[trigger] children[j]).assigned_names()),
    ensures
        keys.disjoint(assigned_names_in(parent, children, i)),
    decreases children.len() - i,
{
    if i < children.len() {
        lemma_assigned_disjoint(parent, children, i + 1, keys);
        assert(keys.disjoint(children[i].assigned_names()));
    }
}

proof fn lemma_separated_unchanged(node: AstNode, discarded: bool, keys: Set<Seq<char>>)
    requires
        node.wf(),
        node.is_separated(discarded),
    ensures
        node.becomes(node),
        node.assigned_names() == Set::<Seq<char>>::empty(),
        separation_error(node, keys, discarded) is None,
    decreases node, 1int,
{
    match node.variant {
        AstNodeVariant::Operator(_, operands) => {
            assert forall|j: int| 0 <= j < operands@.len() implies (#[trigger] operands@[j]).becomes(operands@[j]) by {
                assert(decreases_to!(node => operands@[j]));
                lemma_separated_unchanged(operands@[j], discarded, keys);
            }
            lemma_separated_none_assigned(node, operands@, 0, discarded, keys);
        },
        AstNodeVariant::Metadata(_, child) => lemma_separated_unchanged(*child, discarded, keys),
        _ => {},
    }
}

proof fn lemma_separated_none_assigned(parent: AstNode, operands: Seq<AstNode>, i: int, discarded: bool, keys: Set<Seq<char>>)
    requires
        parent.wf(),
        parent.is_separated(discarded),
        parent.variant matches AstNodeVariant::Operator(operator, v) && v@ == operands && operator is Normal,
        0 <= i <= operands.len(),
    ensures
        assigned_names_in(parent, operands, i) == Set::<Seq<char>>::empty(),
        separation_error_in(parent, operands, i, keys, discarded) is None,
    decreases parent, 0int, operands.len() - i,
{
    if i < operands.len() {
        assert(decreases_to!(parent => operands[i]));
        lemma_separated_unchanged(operands[i], discarded, keys);
        assert(keys.union(operands[i].assigned_names()) =~= keys);
        lemma_separated_none_assigned(parent, operands, i + 1, discarded, keys);
        assert(assigned_names_in(parent, operands, i) =~= Set::<Seq<char>>::empty());
    }
}

/// A node left in place of one that was moved out.
fn placeholder() -> (r: AstNode)
    ensures
        r.wf(),
{
    AstNode { variant: AstNodeVariant::Constant(0), start: (1, 1), end: (1, 1) }
}

impl AstNode {
    /// Removes global assignment nodes and puts them into a `(name, node)` table,
    /// replacing them with their identifier node.
    pub fn separate_globals(&mut self, global_list: &mut NameMap<AstNode>, will_be_discarded: bool) -> (r: Result<(), (Error, Position)>)
        requires
            old(self).wf(),
        ensures
            old(global_list)@.submap_of(final(global_list)@),
            r is Err <==> separation_error(*old(self), old(global_list)@.dom(), will_be_discarded) is Some,
            r is Err ==> final(global_list)@.dom().subset_of(old(global_list)@.dom().union(old(self).assigned_names())),
            r matches Err(e) ==> separation_error(*old(self), old(global_list)@.dom(), will_be_discarded)
                == Some(e),
            (old(self).variant matches AstNodeVariant::Operator(operator, _) && (operator is Augmented
                || operator is LValueAssignment)) || (old(self).variant is FunctionCall) || (old(
                self,
            ).variant matches AstNodeVariant::Block(children, result_is_undefined) && (children@.len()
                != 1 || result_is_undefined)) ==> *final(self) == *old(self) && final(global_list)@
                == old(global_list)@,
            r is Ok ==> old(self).becomes(*final(self)),
            r is Ok ==> old(global_list)@.dom().disjoint(old(self).assigned_names()),
            r is Ok ==> forall|k: Seq<char>|
                #[trigger] old(self).assigned_names().contains(k) ==> (old(self).assigned_value(k) matches Some(
                    value,
                ) && value.becomes(final(global_list)@[k])),
            r is Ok ==> final(global_list)@.dom() == old(global_list)@.dom().union(old(self).assigned_names()),
            r is Ok ==> final(self).wf() && final(self).is_separated(will_be_discarded),
            old(self).is_separated(will_be_discarded) ==> r is Ok && *final(self) == *old(self)
                && final(global_list)@ == old(global_list)@,
            old(self).variant matches AstNodeVariant::Operator(Operator::Augmented(_), _) ==> r
                == Err::<(), (Error, Position)>((Error::GlobalAugmentedOperator, old(self).start)),
            old(self).variant matches AstNodeVariant::Operator(Operator::LValueAssignment, _) ==> r
                == Err::<(), (Error, Position)>((Error::GlobalLValueAssignment, old(self).start)),
            old(self).variant is FunctionCall && will_be_discarded ==> r == Err::<(), (Error, Position)>(
                (Error::DiscardedGlobalFunctionCall, old(self).start),
            ),
            old(self).variant matches AstNodeVariant::Block(children, result_is_undefined) ==> (
            (children@.len() != 1 || result_is_undefined) && !(result_is_undefined
                && children@.len() == 0) ==> r == Err::<(), (Error, Position)>(
                (Error::FeatureNotYetImplemented(Feature::GlobalBlocks), old(self).start),
            )),
            old(self).variant matches AstNodeVariant::Operator(Operator::Assignment, operands) ==> (
            r is Ok ==> {
                &&& operands@[0].variant matches AstNodeVariant::Identifier(name)
                &&& *final(self) == operands@[0]
                &&& !old(global_list)@.contains_key(name@)
                &&& final(global_list)@.contains_key(name@)
                &&& operands@[1].is_separated(false) ==> final(global_list)@[name@] == operands@[1]
            }),
            old(self).variant matches AstNodeVariant::Operator(Operator::Assignment, operands) ==> (
            operands@[0].variant matches AstNodeVariant::Identifier(name) ==> (old(
                global_list,
            )@.contains_key(name@) ==> r is Err)),
            old(self).variant matches AstNodeVariant::Operator(Operator::Assignment, operands) ==> (
            !(operands@[0].variant is Identifier) ==> r is Err),
        decreases *old(self),
    {
        if self.check_separated(will_be_discarded) {
            proof {
                lemma_separated_unchanged(*self, will_be_discarded, global_list@.dom());
                assert(global_list@.dom().union(Set::<Seq<char>>::empty()) =~= global_list@.dom());
            }
            return Ok(());
        }
        let start = self.start;
        let mut replacement: Option<AstNode> = None;
        match &mut self.variant {
            AstNodeVariant::Operator(operator, operands) => match operator {
                Operator::Assignment => {
                    let mut identifier_node = placeholder();
                    let mut operand_node = placeholder();
                    std::mem::swap(&mut operands[0], &mut identifier_node);
                    std::mem::swap(&mut operands[1], &mut operand_node);
                    proof {
                        assert(decreases_to!(*old(self) => operand_node));
                    }
                    match operand_node.separate_globals(global_list, false) {
                        Ok(()) => {},
                        Err(e) => return Err(e),
                    }
                    let name = match &identifier_node.variant {
                        AstNodeVariant::Identifier(name) => name.clone(),
                        _ => return Err((Error::GlobalAssignmentToNonIdentifier, start)),
                    };
                    let conflict_name = name.clone();
                    let ghost after_right = global_list@;
                    if !global_list.insert_new(name, operand_node) {
                        return Err((Error::GlobalVariableConflict(conflict_name), start));
                    }
                    proof {
                        assert(after_right.submap_of(global_list@));
                        vstd::map_lib::lemma_submap_of_trans(old(global_list)@, after_right, global_list@);
                        assert(global_list@.dom() =~= after_right.dom().insert(conflict_name@));
                        assert(global_list@.dom() =~= old(global_list)@.dom().union(old(self).assigned_names()));
                        assert(old(global_list)@.dom().disjoint(old(self).assigned_names()));
                        assert forall|k: Seq<char>|
                            #[trigger] old(self).assigned_names().contains(k) implies (old(self).assigned_value(k) matches Some(
                                value,
                            ) && value.becomes(global_list@[k])) by {
                            if k != conflict_name@ {
                                assert(after_right[k] == global_list@[k]);
                            }
                        }
                    }
                    replacement = Some(identifier_node);
                },
                Operator::Normal(..) => {
                    let ghost old_operands = operands@;
                    let ghost old_table = global_list@;
                    let mut i: usize = 0;
                    while i < operands.len()
                        invariant
                            i <= operands@.len(),
                            operands@.len() == old_operands.len(),
                            old(self).variant matches AstNodeVariant::Operator(o, v) && v@ == old_operands && o is Normal,
                            forall|j: int| 0 <= j < i ==> (#[trigger] old_operands[j]).becomes(operands@[j]),
                            old(global_list)@.dom().union(assigned_names_in(*old(self), old_operands, 0))
                                == global_list@.dom().union(assigned_names_in(*old(self), old_operands, i as int)),
                            separation_error(*old(self), old(global_list)@.dom(), will_be_discarded)
                                == separation_error_in(*old(self), old_operands, i as int, global_list@.dom(), will_be_discarded),
                            old(self).wf(),
                            old(global_list)@.submap_of(global_list@),
                            old_table == old(global_list)@,
                            forall|j: int| 0 <= j < i ==> (#[trigger] operands@[j]).wf() && operands@[j].is_separated(will_be_discarded),
                            forall|j: int| i <= j < operands@.len() ==> operands@[j] == #[trigger] old_operands[j],
                            !old(self).is_separated(will_be_discarded),
                            forall|k: Seq<char>|
                                #[trigger] global_list@.dom().contains(k) && !old(global_list)@.dom().contains(k) ==> (
                                assigned_value_in(*old(self), old_operands, 0, k) matches Some(value) && value.becomes(
                                    global_list@[k],
                                )),
                            forall|j: int| 0 <= j < i ==> (#[trigger] old_operands[j]).assigned_names().subset_of(global_list@.dom()),
                            forall|j: int| 0 <= j < i ==> old(global_list)@.dom().disjoint((#[trigger] old_operands[j]).assigned_names()),
                        decreases operands@.len() - i,
                    {
                        proof {
                            assert(decreases_to!(*old(self) => old_operands[i as int]));
                        }
                        let ghost before = operands@;
                        let ghost before_table = global_list@;
                        match AstNode::separate_globals(&mut operands[i], global_list, will_be_discarded) {
                            Ok(()) => {},
                            Err(e) => {
                                proof {
                                    vstd::map_lib::lemma_submap_of_trans(old(global_list)@, before_table, global_list@);
                                }
                                return Err(e);
                            },
                        }
                        assert(forall|j: int| 0 <= j < operands@.len() && j != i ==> operands@[j] == before[j]);
                        proof {
                            vstd::map_lib::lemma_submap_of_trans(old(global_list)@, before_table, global_list@);
                            assert(old_operands[i as int].becomes(operands@[i as int]));
                            assert(global_list@.dom().union(assigned_names_in(*old(self), old_operands, i + 1))
                                =~= before_table.dom().union(assigned_names_in(*old(self), old_operands, i as int)));
                            let assigned_here = old_operands[i as int].assigned_names();
                            assert(global_list@.dom() =~= before_table.dom().union(assigned_here));
                            assert forall|k: Seq<char>|
                                #[trigger] global_list@.dom().contains(k) && !old(global_list)@.dom().contains(k) implies (
                                assigned_value_in(*old(self), old_operands, 0, k) matches Some(value) && value.becomes(
                                    global_list@[k],
                                )) by {
                                if !before_table.dom().contains(k) {
                                    assert(assigned_here.contains(k));
                                    assert forall|j: int| 0 <= j < i implies !(#[trigger] old_operands[j]).assigned_names().contains(k) by {
                                        assert(old_operands[j].assigned_names().subset_of(before_table.dom()));
                                    }
                                    lemma_assigned_value_skip(*old(self), old_operands, 0, i as int, k);
                                } else {
                                    assert(before_table[k] == global_list@[k]);
                                }
                            }
                            assert forall|j: int| 0 <= j < i + 1 implies (#[trigger] old_operands[j]).assigned_names().subset_of(global_list@.dom()) by {
                                if j < i {
                                    assert(old_operands[j].assigned_names().subset_of(before_table.dom()));
                                }
                            }
                            assert forall|j: int| 0 <= j < i + 1 implies old(global_list)@.dom().disjoint((#[trigger] old_operands[j]).assigned_names()) by {
                                if j == i {
                                    assert(before_table.dom().disjoint(assigned_here));
                                }
                            }
                        }
                        i = i + 1;
                    }
                    proof {
                        lemma_assigned_disjoint(*old(self), old_operands, 0, old(global_list)@.dom());
                        assert forall|k: Seq<char>|
                            #[trigger] old(self).assigned_names().contains(k) implies (old(self).assigned_value(k) matches Some(
                                value,
                            ) && value.becomes(global_list@[k])) by {
                            assert(global_list@.dom().union(assigned_names_in(*old(self), old_operands, i as int)).contains(k));
                            assert(global_list@.dom().contains(k));
                        }
                    }
                },
                Operator::Augmented(..) => return Err((Error::GlobalAugmentedOperator, start)),
                Operator::LValueAssignment => return Err((Error::GlobalLValueAssignment, start)),
            },
            AstNodeVariant::Constant(..) => {},
            AstNodeVariant::FunctionCall(..) => {
                if will_be_discarded {
                    return Err((Error::DiscardedGlobalFunctionCall, start));
                }
            },
            AstNodeVariant::Block(children, is_result_undefined) => {
                if *is_result_undefined && children.len() == 0 {
                    return Ok(());
                }
                if children.len() != 1 || *is_result_undefined {
                    return Err((Error::FeatureNotYetImplemented(Feature::GlobalBlocks), start));
                }
                let mut child = placeholder();
                std::mem::swap(&mut children[0], &mut child);
                proof {
                    assert(decreases_to!(*old(self) => child));
                }
                match child.separate_globals(global_list, will_be_discarded) {
                    Ok(()) => {},
                    Err(e) => return Err(e),
                }
                replacement = Some(child);
            },
            AstNodeVariant::FunctionDefinition(..) => {},
            AstNodeVariant::Identifier(..) => {},
            AstNodeVariant::Metadata(_, child) => {
                match child.separate_globals(global_list, will_be_discarded) {
                    Ok(()) => {},
                    Err(e) => return Err(e),
                }
            },
            AstNodeVariant::String(..) => {},
        }
        if let Some(node) = replacement {
            *self = node;
        }
        Ok(())
    }
}


/// How the children of a node are searched for dependencies.
#[derive(Clone, Copy, Debug, PartialEq, Eq, Structural)]
pub enum SearchMode {
    /// Each child is read, and sees the local names that earlier children bound.
    RValues,
    /// Each child is read with its own copy of the local names, which it cannot change.
    Isolated,
    /// Each child is assigned to.
    LValues,
    /// The first child is assigned to and the others are read.
    FirstLValue,
}

/// The way an operator's operands are searched.
pub open spec fn operator_search_mode(operator: Operator) -> SearchMode {
    match operator {
        Operator::Assignment => SearchMode::FirstLValue,
        Operator::Augmented(_) => SearchMode::FirstLValue,
        Operator::Normal(Operation::Read) => SearchMode::LValues,
        Operator::Normal(_) => SearchMode::RValues,
        Operator::LValueAssignment => SearchMode::LValues,
    }
}

/// `children` is one of the lists of children of `parent`.
pub open spec fn is_child_list(parent: AstNode, children: Seq<AstNode>) -> bool {
    ||| parent.variant matches AstNodeVariant::Block(c, _) && c@ == children
    ||| parent.variant matches AstNodeVariant::Operator(_, c) && c@ == children
    ||| parent.variant matches AstNodeVariant::FunctionCall(_, c) && c@ == children
    ||| parent.variant matches AstNodeVariant::FunctionDefinition(c, _) && c@ == children
}

/// The names of an ordinary function's parameters from the `i`th on, added to
/// `names`; the first parameter that is no identifier is an error.
pub open spec fn parameter_names(parameters: Seq<AstNode>, i: int, names: Set<Seq<char>>) -> Result<Set<Seq<char>>, (Error, Position)>
    decreases parameters.len() - i,
{
    if i < 0 || i >= parameters.len() {
        Ok(names)
    } else {
        match parameters[i].variant {
            AstNodeVariant::Identifier(name) => parameter_names(parameters, i + 1, names.insert(name@)),
            _ => Err((Error::ExpectedIdentifier, parameters[i].start)),
        }
    }
}

/// The dependency search of `node`: from the global names found so far and the local
/// names bound so far, the two sets after the search, or the error it stops with.
pub open spec fn dependencies(
    node: AstNode,
    found: Set<Seq<char>>,
    locals: Set<Seq<char>>,
    is_l_value: bool,
    is_link_function: bool,
) -> Result<(Set<Seq<char>>, Set<Seq<char>>), (Error, Position)>
    decreases node, 1int, 0int,
{
    if is_link_function && !node.spec_is_function() {
        Err((Error::LinkNotUsedOnFunction, node.start))
    } else {
        match node.variant {
            AstNodeVariant::Block(children, _) => if is_l_value && children@.len() > 0 {
                Err((Error::FeatureNotYetImplemented(Feature::LValueBlocks), node.start))
            } else {
                dependencies_of_children(node, children@, 0, found, locals, SearchMode::RValues)
            },
            AstNodeVariant::FunctionCall(function, arguments) => if is_l_value {
                Err((Error::LValueFunctionCall, node.start))
            } else {
                match dependencies(*function, found, locals, false, false) {
                    Err(e) => Err(e),
                    Ok((found2, _)) => match dependencies_of_children(
                        node,
                        arguments@,
                        0,
                        found2,
                        locals,
                        SearchMode::Isolated,
                    ) {
                        Err(e) => Err(e),
                        Ok((found3, _)) => Ok((found3, locals)),
                    },
                }
            },
            AstNodeVariant::FunctionDefinition(parameters, body) => if is_l_value {
                Err((Error::LValueFunctionDefinition, node.start))
            } else if !is_link_function {
                match parameter_names(parameters@, 0, Set::empty()) {
                    Err(e) => Err(e),
                    Ok(names) => match dependencies(*body, found, names, false, false) {
                        Err(e) => Err(e),
                        Ok((found2, _)) => Ok((found2, locals)),
                    },
                }
            } else {
                match dependencies_of_children(node, parameters@, 0, found, locals, SearchMode::RValues) {
                    Err(e) => Err(e),
                    Ok((found2, locals2)) => dependencies(*body, found2, locals2, false, false),
                }
            },
            AstNodeVariant::Identifier(name) => if is_l_value {
                Ok((found, locals.insert(name@)))
            } else if locals.contains(name@) {
                Ok((found, locals))
            } else {
                Ok((found.insert(name@), locals))
            },
            AstNodeVariant::Metadata(metadata, child) => dependencies(
                *child,
                found,
                locals,
                is_l_value,
                is_link_function || metadata == Metadata::Link,
            ),
            AstNodeVariant::Operator(operator, operands) => match operator {
                Operator::Augmented(operation) if operation.spec_is_unary() => Err(
                    (Error::FeatureNotYetImplemented(Feature::AugmentedUnaryOperators), node.start),
                ),
                _ => dependencies_of_children(
                    node,
                    operands@,
                    0,
                    found,
                    locals,
                    operator_search_mode(operator),
                ),
            },
            _ => Ok((found, locals)),
        }
    }
}

/// The dependency search of `children[i..]`, children of `parent`, in order.
pub open spec fn dependencies_of_children(
    parent: AstNode,
    children: Seq<AstNode>,
    i: int,
    found: Set<Seq<char>>,
    locals: Set<Seq<char>>,
    mode: SearchMode,
) -> Result<(Set<Seq<char>>, Set<Seq<char>>), (Error, Position)>
    decreases parent, 0int, children.len() - i,
    when 0 <= i && is_child_list(parent, children)
{
    if i >= children.len() {
        Ok((found, locals))
    } else {
        let child_is_l_value = mode == SearchMode::LValues || (mode == SearchMode::FirstLValue && i
            == 0);
        match dependencies(children[i], found, locals, child_is_l_value, false) {
            Err(e) => Err(e),
            Ok((found2, locals2)) => dependencies_of_children(
                parent,
                children,
                i + 1,
                found2,
                if mode == SearchMode::Isolated {
                    locals
                } else {
                    locals2
                },
                mode,
            ),
        }
    }
}

impl AstNode {
    /// The node contains an identifier named `name`.
    pub open spec fn mentions(self, name: Seq<char>) -> bool
        decreases self,
    {
        match self.variant {
            AstNodeVariant::Identifier(identifier) => identifier@ == name,
            AstNodeVariant::Operator(_, operands) => exists|i: int|
                0 <= i < operands@.len() && (#[trigger] operands@[i]).mentions(name),
            AstNodeVariant::Block(children, _) => exists|i: int|
                0 <= i < children@.len() && (#[trigger] children@[i]).mentions(name),
            AstNodeVariant::FunctionCall(function, arguments) => function.mentions(name) || exists|i: int|
                0 <= i < arguments@.len() && (#[trigger] arguments@[i]).mentions(name),
            AstNodeVariant::FunctionDefinition(parameters, body) => body.mentions(name) || exists|i: int|
                0 <= i < parameters@.len() && (#[trigger] parameters@[i]).mentions(name),
            AstNodeVariant::Metadata(_, child) => child.mentions(name),
            _ => false,
        }
    }

    /// Searches a global's node and its children for the global variables that must be
    /// compiled before it, adding their names to `variable_dependencies`.
    /// `local_variables` holds the names bound locally so far; `is_l_value` tells whether
    /// the node is assigned to rather than read.
    pub fn get_variable_dependencies(
        &self,
        variable_dependencies: &mut NameSet,
        import_dependencies: &mut NameSet,
        local_variables: &mut NameSet,
        is_l_value: bool,
        is_link_function: bool,
    ) -> (r: Result<(), (Error, Position)>)
        requires
            self.wf(),
        ensures
            match dependencies(*self, old(variable_dependencies)@, old(local_variables)@, is_l_value, is_link_function) {
                Ok((found, locals)) => r is Ok && final(variable_dependencies)@ == found && final(local_variables)@ == locals,
                Err(e) => r == Err::<(), (Error, Position)>(e),
            },
            (is_link_function && !self.spec_is_function()) || (is_l_value && (self.variant is FunctionCall
                || self.variant is FunctionDefinition)) ==> {
                &&& *final(variable_dependencies) == *old(variable_dependencies)
                &&& *final(local_variables) == *old(local_variables)
            },
            old(variable_dependencies)@.subset_of(final(variable_dependencies)@),
            forall|k: Seq<char>| #[trigger] final(variable_dependencies)@.contains(k) ==> old(
                variable_dependencies,
            )@.contains(k) || self.mentions(k),
            *final(import_dependencies) == *old(import_dependencies),
            old(local_variables)@.subset_of(final(local_variables)@),
            is_link_function && !is_l_value && r is Ok ==> (self.variant matches AstNodeVariant::FunctionDefinition(parameters, _) ==> forall|i: int|
                0 <= i < parameters@.len() ==> ((#[trigger] parameters@[i]).variant matches AstNodeVariant::Identifier(name) ==> final(local_variables)@.contains(name@) || final(variable_dependencies)@.contains(name@))),
        decreases self,
    {
        let start = self.start;
        if is_link_function && !self.is_function() {
            return Err((Error::LinkNotUsedOnFunction, start));
        }
        match &self.variant {
            AstNodeVariant::Block(sub_expressions, _) => {
                if is_l_value && sub_expressions.len() > 0 {
                    return Err((Error::FeatureNotYetImplemented(Feature::LValueBlocks), start));
                }
                let mut i: usize = 0;
                while i < sub_expressions.len()
                    invariant
                        i <= sub_expressions@.len(),
                        self.wf(),
                        !(is_link_function && !self.spec_is_function()),
                        !(is_l_value && sub_expressions@.len() > 0),
                        self.variant matches AstNodeVariant::Block(v, _) && v@ == sub_expressions@,
                        dependencies(*self, old(variable_dependencies)@, old(local_variables)@, is_l_value, is_link_function)
                            == dependencies_of_children(*self, sub_expressions@, i as int, variable_dependencies@, local_variables@, SearchMode::RValues),
                        old(variable_dependencies)@.subset_of(variable_dependencies@),
                        old(local_variables)@.subset_of(local_variables@),
                        *import_dependencies == *old(import_dependencies),
                        forall|k: Seq<char>| #[trigger] variable_dependencies@.contains(k) ==> old(variable_dependencies)@.contains(k) || exists|j: int| 0 <= j < i && (#[trigger] sub_expressions@[j]).mentions(k),
                    decreases sub_expressions@.len() - i,
                {
                    proof {
                        assert(decreases_to!(*self => sub_expressions@[i as int]));
                    }
                    let ghost before = variable_dependencies@;
                    match AstNode::get_variable_dependencies(&sub_expressions[i], variable_dependencies, import_dependencies, local_variables, false, false) {
                        Ok(()) => {},
                        Err(e) => return Err(e),
                    }
                    assert forall|k: Seq<char>| #[trigger] variable_dependencies@.contains(k) implies old(variable_dependencies)@.contains(k) || exists|j: int| 0 <= j < i + 1 && (#[trigger] sub_expressions@[j]).mentions(k) by {
                        if !before.contains(k) {
                            assert(sub_expressions@[i as int].mentions(k));
                        }
                    }
                    i = i + 1;
                }
            },
            AstNodeVariant::Constant(..) => {},
            AstNodeVariant::FunctionCall(function, arguments) => {
                if is_l_value {
                    return Err((Error::LValueFunctionCall, start));
                }
                let mut copy = local_variables.clone_set();
                match function.get_variable_dependencies(variable_dependencies, import_dependencies, &mut copy, false, false) {
                    Ok(()) => {},
                    Err(e) => return Err(e),
                }
                let ghost after_function = variable_dependencies@;
                let mut i: usize = 0;
                while i < arguments.len()
                    invariant
                        i <= arguments@.len(),
                        self.wf(),
                        !(is_link_function && !self.spec_is_function()),
                        !is_l_value,
                        self.variant matches AstNodeVariant::FunctionCall(_, v) && v@ == arguments@,
                        dependencies(*self, old(variable_dependencies)@, old(local_variables)@, is_l_value, is_link_function)
                            == match dependencies_of_children(*self, arguments@, 0, after_function, old(local_variables)@, SearchMode::Isolated) {
                                Err(e) => Err(e),
                                Ok((found, _)) => Ok((found, old(local_variables)@)),
                            },
                        dependencies_of_children(*self, arguments@, 0, after_function, old(local_variables)@, SearchMode::Isolated)
                            == dependencies_of_children(*self, arguments@, i as int, variable_dependencies@, old(local_variables)@, SearchMode::Isolated),
                        old(variable_dependencies)@.subset_of(variable_dependencies@),
                        *local_variables == *old(local_variables),
                        *import_dependencies == *old(import_dependencies),
                        forall|k: Seq<char>| #[trigger] variable_dependencies@.contains(k) ==> after_function.contains(k) || exists|j: int| 0 <= j < i && (#[trigger] arguments@[j]).mentions(k),
                        old(variable_dependencies)@.subset_of(after_function),
                        after_function.subset_of(variable_dependencies@),
                        forall|k: Seq<char>| #[trigger] after_function.contains(k) ==> old(variable_dependencies)@.contains(k) || self.mentions(k),
                    decreases arguments@.len() - i,
                {
                    proof {
                        assert(decreases_to!(*self => arguments@[i as int]));
                    }
                    let ghost before = variable_dependencies@;
                    let mut copy = local_variables.clone_set();
                    match AstNode::get_variable_dependencies(&arguments[i], variable_dependencies, import_dependencies, &mut copy, false, false) {
                        Ok(()) => {},
                        Err(e) => return Err(e),
                    }
                    assert forall|k: Seq<char>| #[trigger] variable_dependencies@.contains(k) implies after_function.contains(k) || exists|j: int| 0 <= j < i + 1 && (#[trigger] arguments@[j]).mentions(k) by {
                        if !before.contains(k) {
                            assert(arguments@[i as int].mentions(k));
                        }
                    }
                    i = i + 1;
                }
            },
            AstNodeVariant::FunctionDefinition(parameters, body) => {
                if is_l_value {
                    return Err((Error::LValueFunctionDefinition, start));
                }
                if !is_link_function {
                    let mut function_locals = NameSet::new();
                    let mut i: usize = 0;
                    assert(function_locals@ == Set::<Seq<char>>::empty());
                    while i < parameters.len()
                        invariant
                            i <= parameters@.len(),
                            !is_link_function,
                            !is_l_value,
                            self.variant matches AstNodeVariant::FunctionDefinition(v, _) && v@ == parameters@,
                            *variable_dependencies == *old(variable_dependencies),
                            *local_variables == *old(local_variables),
                            *import_dependencies == *old(import_dependencies),
                            parameter_names(parameters@, 0, Set::empty()) == parameter_names(parameters@, i as int, function_locals@),
                            forall|j: int| 0 <= j < i ==> (#[trigger] parameters@[j]).variant is Identifier,
                        decreases parameters@.len() - i,
                    {
                        match &parameters[i].variant {
                            AstNodeVariant::Identifier(name) => function_locals.insert(name.clone()),
                            _ => return Err((Error::ExpectedIdentifier, parameters[i].start)),
                        }
                        i = i + 1;
                    }
                    match body.get_variable_dependencies(variable_dependencies, import_dependencies, &mut function_locals, false, false) {
                        Ok(()) => {},
                        Err(e) => return Err(e),
                    }
                } else {
                    let mut i: usize = 0;
                    while i < parameters.len()
                        invariant
                            i <= parameters@.len(),
                            self.wf(),
                            is_link_function,
                            !is_l_value,
                            self.variant matches AstNodeVariant::FunctionDefinition(v, _) && v@ == parameters@,
                            dependencies_of_children(*self, parameters@, 0, old(variable_dependencies)@, old(local_variables)@, SearchMode::RValues)
                                == dependencies_of_children(*self, parameters@, i as int, variable_dependencies@, local_variables@, SearchMode::RValues),
                            old(variable_dependencies)@.subset_of(variable_dependencies@),
                            old(local_variables)@.subset_of(local_variables@),
                            *import_dependencies == *old(import_dependencies),
                            forall|k: Seq<char>| #[trigger] variable_dependencies@.contains(k) ==> old(variable_dependencies)@.contains(k) || exists|j: int| 0 <= j < i && (#[trigger] parameters@[j]).mentions(k),
                            forall|j: int| 0 <= j < i ==> ((#[trigger] parameters@[j]).variant matches AstNodeVariant::Identifier(name) ==> local_variables@.contains(name@) || variable_dependencies@.contains(name@)),
                        decreases parameters@.len() - i,
                    {
                        proof {
                            assert(decreases_to!(*self => parameters@[i as int]));
                        }
                        let ghost before = variable_dependencies@;
                        match AstNode::get_variable_dependencies(&parameters[i], variable_dependencies, import_dependencies, local_variables, false, false) {
                            Ok(()) => {},
                            Err(e) => return Err(e),
                        }
                        assert forall|k: Seq<char>| #[trigger] variable_dependencies@.contains(k) implies old(variable_dependencies)@.contains(k) || exists|j: int| 0 <= j < i + 1 && (#[trigger] parameters@[j]).mentions(k) by {
                            if !before.contains(k) {
                                assert(parameters@[i as int].mentions(k));
                            }
                        }
                        assert forall|j: int| 0 <= j < i + 1 implies ((#[trigger] parameters@[j]).variant matches AstNodeVariant::Identifier(name) ==> local_variables@.contains(name@) || variable_dependencies@.contains(name@)) by {
                        }
                        i = i + 1;
                    }
                    let ghost before_locals = local_variables@;
                    match body.get_variable_dependencies(variable_dependencies, import_dependencies, local_variables, false, false) {
                        Ok(()) => {},
                        Err(e) => return Err(e),
                    }
                    assert(before_locals.subset_of(local_variables@));
                }
            },
            AstNodeVariant::Identifier(name) => {
                if is_l_value {
                    local_variables.insert(name.clone());
                } else if !local_variables.contains(name) {
                    variable_dependencies.insert(name.clone());
                }
            },
            AstNodeVariant::Metadata(metadata, child) => {
                let child_is_link = match metadata {
                    Metadata::EntryPoint => is_link_function,
                    Metadata::Link => true,
                };
                match child.get_variable_dependencies(variable_dependencies, import_dependencies, local_variables, is_l_value, child_is_link) {
                    Ok(()) => {},
                    Err(e) => return Err(e),
                }
            },
            AstNodeVariant::Operator(operator, operands) => {
                let (first_is_l_value, rest_is_l_value) = match operator {
                    Operator::Assignment => (true, false),
                    Operator::Augmented(operation) => {
                        if operation.is_unary() {
                            return Err((Error::FeatureNotYetImplemented(Feature::AugmentedUnaryOperators), start));
                        }
                        (true, false)
                    },
                    Operator::Normal(Operation::Read) => (true, true),
                    Operator::Normal(_) => (false, false),
                    Operator::LValueAssignment => (true, true),
                };
                let mut i: usize = 0;
                while i < operands.len()
                    invariant
                        i <= operands@.len(),
                        self.wf(),
                        !(is_link_function && !self.spec_is_function()),
                        self.variant matches AstNodeVariant::Operator(o, v) && v@ == operands@ && o == *operator,
                        *operator matches Operator::Augmented(operation) ==> !operation.spec_is_unary(),
                        first_is_l_value == (operator_search_mode(*operator) == SearchMode::LValues || operator_search_mode(*operator) == SearchMode::FirstLValue),
                        rest_is_l_value == (operator_search_mode(*operator) == SearchMode::LValues),
                        dependencies(*self, old(variable_dependencies)@, old(local_variables)@, is_l_value, is_link_function)
                            == dependencies_of_children(*self, operands@, i as int, variable_dependencies@, local_variables@, operator_search_mode(*operator)),
                        old(variable_dependencies)@.subset_of(variable_dependencies@),
                        old(local_variables)@.subset_of(local_variables@),
                        *import_dependencies == *old(import_dependencies),
                        forall|k: Seq<char>| #[trigger] variable_dependencies@.contains(k) ==> old(variable_dependencies)@.contains(k) || exists|j: int| 0 <= j < i && (#[trigger] operands@[j]).mentions(k),
                    decreases operands@.len() - i,
                {
                    proof {
                        assert(decreases_to!(*self => operands@[i as int]));
                    }
                    let ghost before = variable_dependencies@;
                    match AstNode::get_variable_dependencies(&operands[i], variable_dependencies, import_dependencies, local_variables, if i == 0 { first_is_l_value } else { rest_is_l_value }, false) {
                        Ok(()) => {},
                        Err(e) => return Err(e),
                    }
                    assert forall|k: Seq<char>| #[trigger] variable_dependencies@.contains(k) implies old(variable_dependencies)@.contains(k) || exists|j: int| 0 <= j < i + 1 && (#[trigger] operands@[j]).mentions(k) by {
                        if !before.contains(k) {
                            assert(operands@[i as int].mentions(k));
                        }
                    }
                    i = i + 1;
                }
            },
            AstNodeVariant::String(..) => {},
        }
        Ok(())
    }
}

} // verus!
