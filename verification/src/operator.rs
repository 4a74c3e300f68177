//! Static classification of operator-like tokens: precedence, associativity,
//! section behavior, and compile-time status.

use vstd::prelude::*;
use crate::token::{Token, TokM, Variant};

verus! {

/// LHS operator-section/template-function behavior of a syntactic operator.
#[derive(Clone, Copy, Debug, PartialEq, Eq, Structural)]
pub enum SectionTermination {
    /// Preserve the section wrapper.
    Reify,
    /// Elide the wrapper, attaching the error to the inner tree.
    Unwrap,
}

/// Value that can be compared to determine which operator will bind more
/// tightly within an expression.
#[derive(Clone, Copy, Debug, PartialEq, Eq, PartialOrd, Ord, Structural)]
pub enum Precedence {
    Assignment,
    TypeAnnotation,
    Arrow,
    Not,
    Logical,
    Equality,
    Functional,
    BitwiseOr,
    BitwiseAnd,
    Inequality,
    Addition,
    Multiplication,
    Exponentiation,
    OtherUserOperator,
    Negation,
    Application,
    Annotation,
}

/// The numeric value of a precedence level.  The scale starts at 1: the
/// value 0 is the unrepresentable minimum, so every unary prefix precedence
/// is strictly above it.  The highest value must not exceed 0x7e: bit 7 is
/// reserved.
pub open spec fn prec_u8(p: Precedence) -> u8 {
    match p {
        Precedence::Assignment => 1,
        Precedence::TypeAnnotation => 2,
        Precedence::Arrow => 3,
        Precedence::Not => 4,
        Precedence::Logical => 5,
        Precedence::Equality => 6,
        Precedence::Functional => 7,
        Precedence::BitwiseOr => 8,
        Precedence::BitwiseAnd => 9,
        Precedence::Inequality => 10,
        Precedence::Addition => 11,
        Precedence::Multiplication => 12,
        Precedence::Exponentiation => 13,
        Precedence::OtherUserOperator => 14,
        Precedence::Negation => 15,
        Precedence::Application => 16,
        Precedence::Annotation => 17,
    }
}

impl Precedence {
    /// Return the value as a number.
    pub fn into_u8(self) -> (r: u8)
        ensures
            r == prec_u8(self),
    {
        match self {
            Precedence::Assignment => 1,
            Precedence::TypeAnnotation => 2,
            Precedence::Arrow => 3,
            Precedence::Not => 4,
            Precedence::Logical => 5,
            Precedence::Equality => 6,
            Precedence::Functional => 7,
            Precedence::BitwiseOr => 8,
            Precedence::BitwiseAnd => 9,
            Precedence::Inequality => 10,
            Precedence::Addition => 11,
            Precedence::Multiplication => 12,
            Precedence::Exponentiation => 13,
            Precedence::OtherUserOperator => 14,
            Precedence::Negation => 15,
            Precedence::Application => 16,
            Precedence::Annotation => 17,
        }
    }
}

/// Every precedence value fits in 7 bits: bit 7 is reserved.
pub proof fn lemma_precedence_fits_in_seven_bits(p: Precedence)
    ensures
        1 <= prec_u8(p) <= 0x7e,
{
}

/// Associativity (left or right).
#[derive(Clone, Copy, Debug, PartialEq, Eq, Structural)]
pub enum Associativity {
    /// Left-associative.
    Left,
    /// Right-associative.
    Right,
}

/// Properties of an operator that are identified when lexing.
#[derive(Clone, Copy, Debug, PartialEq, Eq, Structural)]
pub struct OperatorProperties {
    pub binary_infix_precedence: Option<Precedence>,
    pub unary_prefix_precedence: Option<Precedence>,
    pub is_value_operation: bool,
    pub is_right_associative: bool,
    pub lhs_section_termination: Option<SectionTermination>,
    pub is_modifier: bool,
    pub is_compile_time: bool,
    pub rhs_is_non_expression: bool,
}

/// Whether a token of this classification structures a statement: the
/// syntactic binary operators are assignment, type annotation, arrow, and
/// comma.
pub open spec fn spec_is_syntactic_binary_operator(v: Variant) -> bool {
    v == Variant::AssignmentOperator || v == Variant::TypeAnnotationOperator || v
        == Variant::ArrowOperator || v == Variant::CommaOperator
}

/// Whether the token variant is a syntactic binary operator, used by the
/// top-level-operator finder to identify statement-structuring operators.
pub fn is_syntactic_binary_operator(variant: &Variant) -> (r: bool)
    ensures
        r == spec_is_syntactic_binary_operator(*variant),
{
    match variant {
        Variant::AssignmentOperator => true,
        Variant::TypeAnnotationOperator => true,
        Variant::ArrowOperator => true,
        Variant::CommaOperator => true,
        _ => false,
    }
}

impl OperatorProperties {
    /// Construct an operator with default properties.
    pub fn new() -> (r: Self)
        ensures
            r == spec_properties_default(),
    {
        OperatorProperties {
            binary_infix_precedence: None,
            unary_prefix_precedence: None,
            is_value_operation: false,
            is_right_associative: false,
            lhs_section_termination: None,
            is_modifier: false,
            is_compile_time: false,
            rhs_is_non_expression: false,
        }
    }

    /// Construct a value-level operator.
    pub fn value() -> (r: Self)
        ensures
            r == (OperatorProperties { is_value_operation: true, ..spec_properties_default() }),
    {
        let mut r = Self::new();
        r.is_value_operation = true;
        r
    }

    /// Construct a functional operator.
    pub fn functional() -> (r: Self)
        ensures
            r == (OperatorProperties { is_value_operation: false, ..spec_properties_default() }),
    {
        Self::new()
    }

    /// Return a copy of this operator, with the given binary infix precedence.
    pub fn with_binary_infix_precedence(self, precedence: Precedence) -> (r: Self)
        ensures
            r == (OperatorProperties { binary_infix_precedence: Some(precedence), ..self }),
    {
        OperatorProperties { binary_infix_precedence: Some(precedence), ..self }
    }

    /// Return a copy of this operator, with unary prefix parsing allowed.
    pub fn with_unary_prefix_mode(self, precedence: Precedence) -> (r: Self)
        ensures
            r == (OperatorProperties { unary_prefix_precedence: Some(precedence), ..self }),
    {
        OperatorProperties { unary_prefix_precedence: Some(precedence), ..self }
    }

    /// Mark the operator as a value-level operation, as opposed to functional.
    pub fn as_value_operation(self) -> (r: Self)
        ensures
            r == (OperatorProperties { is_value_operation: true, ..self }),
    {
        OperatorProperties { is_value_operation: true, ..self }
    }

    /// Return whether the operator is a value-level operation, as opposed to
    /// functional.
    pub fn is_value_operation(&self) -> (r: bool)
        ensures
            r == self.is_value_operation,
    {
        self.is_value_operation
    }

    /// Return a copy of this operator, modified to be flagged as right
    /// associative.
    pub fn as_right_associative(self) -> (r: Self)
        ensures
            r == (OperatorProperties { is_right_associative: true, ..self }),
    {
        OperatorProperties { is_right_associative: true, ..self }
    }

    /// Return a copy of this operator, modified to be flagged as a
    /// modified-assignment operator.
    pub fn as_modifier(self) -> (r: Self)
        ensures
            r == (OperatorProperties { is_modifier: true, ..self }),
    {
        OperatorProperties { is_modifier: true, ..self }
    }

    /// Return this operator's binary infix precedence, if it has one.
    pub fn binary_infix_precedence(&self) -> (r: Option<Precedence>)
        ensures
            r == self.binary_infix_precedence,
    {
        self.binary_infix_precedence
    }

    /// Return this operator's unary prefix precedence, if it has one.
    pub fn unary_prefix_precedence(&self) -> (r: Option<Precedence>)
        ensures
            r == self.unary_prefix_precedence,
    {
        self.unary_prefix_precedence
    }

    /// Return whether this operator can form operator sections: compile-time
    /// operators cannot.
    pub fn can_form_section(&self) -> (r: bool)
        ensures
            r == !self.is_compile_time,
    {
        !self.is_compile_time
    }

    /// Return the LHS operator-section/template-function behavior of this
    /// operator.
    pub fn lhs_section_termination(&self) -> (r: Option<SectionTermination>)
        ensures
            r == self.lhs_section_termination,
    {
        self.lhs_section_termination
    }

    /// Return whether this operator is a modified-assignment operator.
    pub fn is_modifier(&self) -> (r: bool)
        ensures
            r == self.is_modifier,
    {
        self.is_modifier
    }

    /// Return this operator's associativity.
    pub fn associativity(&self) -> (r: Associativity)
        ensures
            r == (if self.is_right_associative {
                Associativity::Right
            } else {
                Associativity::Left
            }),
    {
        match self.is_right_associative {
            false => Associativity::Left,
            true => Associativity::Right,
        }
    }

    /// Return a copy of this operator, with the given LHS section behavior.
    fn with_lhs_section_termination(self, termination: SectionTermination) -> (r: Self)
        ensures
            r == (OperatorProperties {
                lhs_section_termination: Some(termination),
                ..self
            }),
    {
        OperatorProperties { lhs_section_termination: Some(termination), ..self }
    }

    /// Return a copy of this operator, marked as processed by the parser
    /// itself.
    fn as_compile_time(self) -> (r: Self)
        ensures
            r == (OperatorProperties { is_compile_time: true, ..self }),
    {
        OperatorProperties { is_compile_time: true, ..self }
    }

    /// Return a copy of this operator whose RHS is not an expression.
    fn with_rhs_non_expression(self) -> (r: Self)
        ensures
            r == (OperatorProperties { rhs_is_non_expression: true, ..self }),
    {
        OperatorProperties { rhs_is_non_expression: true, ..self }
    }

    /// Whether the RHS is an expression; if true, the operator may introduce
    /// a body block.
    pub fn rhs_is_expression(&self) -> (r: bool)
        ensures
            r == !self.rhs_is_non_expression,
    {
        !self.rhs_is_non_expression
    }
}

/// A lexeme is a modifier when it combines a binary operation with
/// assignment: it ends in `=` without being an (in)equality comparison or a
/// repeated-`=` symbol.
pub open spec fn is_modifier_lexeme(s: Seq<char>) -> bool {
    s.len() >= 2 && s.last() == '=' && s[0] != '=' && s[0] != '<' && s[0] != '>' && s[0] != '!'
        && s[s.len() - 2] != '='
}

/// The precedence of a non-syntactic operator, classified by symbol
/// structure: a leading `.` gives dot-like (application) precedence, and
/// otherwise the first character selects the arithmetic, comparison, or
/// bitwise level; unrecognized symbols bind at the user-operator level.
pub open spec fn spec_operator_lexeme_precedence(s: Seq<char>) -> Precedence {
    if s.len() == 0 {
        Precedence::OtherUserOperator
    } else if s[0] == '.' {
        Precedence::Application
    } else if s.len() == 2 && ((s[0] == '&' && s[1] == '&') || (s[0] == '|' && s[1] == '|')) {
        Precedence::Logical
    } else if s[0] == '=' || s[0] == '!' {
        Precedence::Equality
    } else if s[0] == '<' || s[0] == '>' {
        Precedence::Inequality
    } else if s[0] == '|' {
        Precedence::BitwiseOr
    } else if s[0] == '&' {
        Precedence::BitwiseAnd
    } else if s[0] == '+' || s[0] == '-' {
        Precedence::Addition
    } else if s[0] == '*' || s[0] == '/' || s[0] == '%' {
        Precedence::Multiplication
    } else if s[0] == '^' {
        Precedence::Exponentiation
    } else {
        Precedence::OtherUserOperator
    }
}

/// The properties of a non-syntactic operator lexeme: a modifier binds like
/// assignment and marks the node; anything else is a left-associative binary
/// value operation at the precedence its symbol structure selects, except
/// that dot-like operators (leading `.`) are functional.
pub open spec fn spec_analyze_non_syntactic(s: Seq<char>) -> OperatorProperties {
    if is_modifier_lexeme(s) {
        OperatorProperties {
            binary_infix_precedence: Some(Precedence::Assignment),
            is_value_operation: true,
            is_right_associative: true,
            is_modifier: true,
            ..spec_properties_default()
        }
    } else {
        OperatorProperties {
            binary_infix_precedence: Some(spec_operator_lexeme_precedence(s)),
            is_value_operation: s.len() == 0 || s[0] != '.',
            ..spec_properties_default()
        }
    }
}

/// Classify a non-syntactic operator (a symbol sequence such as `+` or `<|`)
/// from its lexeme; shared with the lexer.
pub fn analyze_non_syntactic_operator(code: &str) -> (r: OperatorProperties)
    ensures
        r == spec_analyze_non_syntactic(code@),
{
    let n = code.unicode_len();
    let first = if n > 0 {
        Some(code.get_char(0))
    } else {
        None
    };
    let second = if n > 1 {
        Some(code.get_char(1))
    } else {
        None
    };
    let last = if n > 0 {
        Some(code.get_char(n - 1))
    } else {
        None
    };
    let before_last = if n > 1 {
        Some(code.get_char(n - 2))
    } else {
        None
    };
    let is_modifier = n >= 2 && last == Some('=') && first != Some('=') && first != Some('<')
        && first != Some('>') && first != Some('!') && before_last != Some('=');
    if is_modifier {
        OperatorProperties::value().with_binary_infix_precedence(
            Precedence::Assignment,
        ).as_right_associative().as_modifier()
    } else {
        let precedence = if n == 0 {
            Precedence::OtherUserOperator
        } else {
            let f = code.get_char(0);
            if f == '.' {
                Precedence::Application
            } else if n == 2 && ((f == '&' && second == Some('&')) || (f == '|' && second == Some(
                '|',
            ))) {
                Precedence::Logical
            } else if f == '=' || f == '!' {
                Precedence::Equality
            } else if f == '<' || f == '>' {
                Precedence::Inequality
            } else if f == '|' {
                Precedence::BitwiseOr
            } else if f == '&' {
                Precedence::BitwiseAnd
            } else if f == '+' || f == '-' {
                Precedence::Addition
            } else if f == '*' || f == '/' || f == '%' {
                Precedence::Multiplication
            } else if f == '^' {
                Precedence::Exponentiation
            } else {
                Precedence::OtherUserOperator
            }
        };
        let functional = n > 0 && first == Some('.');
        if functional {
            OperatorProperties::functional().with_binary_infix_precedence(precedence)
        } else {
            OperatorProperties::value().with_binary_infix_precedence(precedence)
        }
    }
}

/// The operator properties of a token, or `None` iff it is not
/// operator-like.  Non-syntactic operators are classified from their
/// lexeme; syntactic operators carry fixed properties.
pub open spec fn spec_token_operator_properties(t: TokM) -> Option<OperatorProperties> {
    match t.variant {
        Variant::Operator => Some(spec_analyze_non_syntactic(t.code)),
        Variant::AssignmentOperator => Some(
            OperatorProperties {
                binary_infix_precedence: Some(Precedence::Assignment),
                lhs_section_termination: Some(SectionTermination::Unwrap),
                is_right_associative: true,
                is_compile_time: true,
                ..spec_properties_default()
            },
        ),
        Variant::TypeAnnotationOperator => Some(
            OperatorProperties {
                binary_infix_precedence: Some(Precedence::TypeAnnotation),
                lhs_section_termination: Some(SectionTermination::Reify),
                is_compile_time: true,
                rhs_is_non_expression: true,
                ..spec_properties_default()
            },
        ),
        Variant::ArrowOperator => Some(
            OperatorProperties {
                binary_infix_precedence: Some(Precedence::Arrow),
                lhs_section_termination: Some(SectionTermination::Unwrap),
                is_right_associative: true,
                is_compile_time: true,
                ..spec_properties_default()
            },
        ),
        Variant::AnnotationOperator => Some(
            OperatorProperties {
                unary_prefix_precedence: Some(Precedence::Annotation),
                is_right_associative: true,
                is_compile_time: true,
                rhs_is_non_expression: true,
                ..spec_properties_default()
            },
        ),
        Variant::AutoscopeOperator => Some(
            OperatorProperties {
                unary_prefix_precedence: Some(Precedence::Assignment),
                is_compile_time: true,
                rhs_is_non_expression: true,
                ..spec_properties_default()
            },
        ),
        Variant::NegationOperator => Some(
            OperatorProperties {
                is_value_operation: true,
                unary_prefix_precedence: Some(Precedence::Negation),
                ..spec_properties_default()
            },
        ),
        Variant::LambdaOperator => Some(
            OperatorProperties {
                unary_prefix_precedence: Some(Precedence::Assignment),
                is_compile_time: true,
                ..spec_properties_default()
            },
        ),
        Variant::DotOperator => Some(
            OperatorProperties {
                binary_infix_precedence: Some(Precedence::Application),
                ..spec_properties_default()
            },
        ),
        Variant::SuspensionOperator => Some(
            OperatorProperties {
                unary_prefix_precedence: Some(Precedence::Annotation),
                is_compile_time: true,
                rhs_is_non_expression: true,
                ..spec_properties_default()
            },
        ),
        Variant::CommaOperator => Some(
            OperatorProperties {
                binary_infix_precedence: Some(Precedence::Assignment),
                is_compile_time: true,
                rhs_is_non_expression: true,
                ..spec_properties_default()
            },
        ),
        _ => None,
    }
}

/// If a token is operator-like, it has associated properties.
pub trait TokenOperatorProperties {
    /// Return a value if this token is operator-like.
    fn operator_properties(&self) -> Option<OperatorProperties>;
}

impl TokenOperatorProperties for Token {
    fn operator_properties(&self) -> (r: Option<OperatorProperties>)
        ensures
            r == spec_token_operator_properties(self@),
    {
        Some(
            match self.variant {
                Variant::Operator => analyze_non_syntactic_operator(self.code.as_str()),
                Variant::AssignmentOperator => assignment_operator_properties(),
                Variant::TypeAnnotationOperator => type_annotation_operator_properties(),
                Variant::ArrowOperator => arrow_operator_properties(),
                Variant::AnnotationOperator => annotation_operator_properties(),
                Variant::AutoscopeOperator => autoscope_operator_properties(),
                Variant::NegationOperator => negation_operator_properties(),
                Variant::LambdaOperator => lambda_operator_properties(),
                Variant::DotOperator => dot_operator_properties(),
                Variant::SuspensionOperator => suspension_operator_properties(),
                Variant::CommaOperator => comma_operator_properties(),
                _ => {
                    return None;
                },
            },
        )
    }
}

fn assignment_operator_properties() -> (r: OperatorProperties)
    ensures
        Some(r) == spec_token_operator_properties(
            TokM { variant: Variant::AssignmentOperator, offset: Seq::empty(), code: Seq::empty() },
        ),
{
    OperatorProperties::new().with_binary_infix_precedence(
        Precedence::Assignment,
    ).as_right_associative().with_lhs_section_termination(SectionTermination::Unwrap).as_compile_time()
}

fn type_annotation_operator_properties() -> (r: OperatorProperties)
    ensures
        Some(r) == spec_token_operator_properties(
            TokM {
                variant: Variant::TypeAnnotationOperator,
                offset: Seq::empty(),
                code: Seq::empty(),
            },
        ),
{
    OperatorProperties::new().with_binary_infix_precedence(
        Precedence::TypeAnnotation,
    ).with_lhs_section_termination(SectionTermination::Reify).as_compile_time().with_rhs_non_expression()
}

fn arrow_operator_properties() -> (r: OperatorProperties)
    ensures
        Some(r) == spec_token_operator_properties(
            TokM { variant: Variant::ArrowOperator, offset: Seq::empty(), code: Seq::empty() },
        ),
{
    OperatorProperties::new().with_binary_infix_precedence(
        Precedence::Arrow,
    ).as_right_associative().with_lhs_section_termination(SectionTermination::Unwrap).as_compile_time()
}

fn annotation_operator_properties() -> (r: OperatorProperties)
    ensures
        Some(r) == spec_token_operator_properties(
            TokM { variant: Variant::AnnotationOperator, offset: Seq::empty(), code: Seq::empty() },
        ),
{
    OperatorProperties::new().with_unary_prefix_mode(
        Precedence::Annotation,
    ).as_right_associative().as_compile_time().with_rhs_non_expression()
}

fn autoscope_operator_properties() -> (r: OperatorProperties)
    ensures
        Some(r) == spec_token_operator_properties(
            TokM { variant: Variant::AutoscopeOperator, offset: Seq::empty(), code: Seq::empty() },
        ),
{
    OperatorProperties::new().with_unary_prefix_mode(
        Precedence::Assignment,
    ).as_compile_time().with_rhs_non_expression()
}

fn negation_operator_properties() -> (r: OperatorProperties)
    ensures
        Some(r) == spec_token_operator_properties(
            TokM { variant: Variant::NegationOperator, offset: Seq::empty(), code: Seq::empty() },
        ),
{
    OperatorProperties::value().with_unary_prefix_mode(Precedence::Negation)
}

fn lambda_operator_properties() -> (r: OperatorProperties)
    ensures
        Some(r) == spec_token_operator_properties(
            TokM { variant: Variant::LambdaOperator, offset: Seq::empty(), code: Seq::empty() },
        ),
{
    OperatorProperties::new().with_unary_prefix_mode(Precedence::Assignment).as_compile_time()
}

fn dot_operator_properties() -> (r: OperatorProperties)
    ensures
        Some(r) == spec_token_operator_properties(
            TokM { variant: Variant::DotOperator, offset: Seq::empty(), code: Seq::empty() },
        ),
{
    OperatorProperties::new().with_binary_infix_precedence(Precedence::Application)
}

fn suspension_operator_properties() -> (r: OperatorProperties)
    ensures
        Some(r) == spec_token_operator_properties(
            TokM { variant: Variant::SuspensionOperator, offset: Seq::empty(), code: Seq::empty() },
        ),
{
    OperatorProperties::new().with_unary_prefix_mode(
        Precedence::Annotation,
    ).as_compile_time().with_rhs_non_expression()
}

fn comma_operator_properties() -> (r: OperatorProperties)
    ensures
        Some(r) == spec_token_operator_properties(
            TokM { variant: Variant::CommaOperator, offset: Seq::empty(), code: Seq::empty() },
        ),
{
    OperatorProperties::new().with_binary_infix_precedence(
        Precedence::Assignment,
    ).as_compile_time().with_rhs_non_expression()
}

/// The all-absent property record.
pub open spec fn spec_properties_default() -> OperatorProperties {
    OperatorProperties {
        binary_infix_precedence: None,
        unary_prefix_precedence: None,
        is_value_operation: false,
        is_right_associative: false,
        lhs_section_termination: None,
        is_modifier: false,
        is_compile_time: false,
        rhs_is_non_expression: false,
    }
}

} // verus!
