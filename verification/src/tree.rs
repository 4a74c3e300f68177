//! The output AST.  Errors are attached as `Invalid` wrappers carrying an
//! inner subtree, never thrown, and no token of the input is ever dropped.

use vstd::prelude::*;
use crate::token::{Token, TokM, opt_tok_toks};

verus! {

/// The error taxonomy.  Every failure is represented by wrapping a partial
/// tree in `Invalid` with one of these tags.
#[derive(Clone, Copy, Debug, PartialEq, Eq, Structural)]
pub enum SyntaxError {
    ExpectedExpression,
    ExpectedType,
    ArgDefExpectedPattern,
    ArgDefUnexpectedOpInParenClause,
    ArgDefSpuriousParens,
    ForeignFnExpectedLanguage,
    ForeignFnExpectedName,
    ForeignFnExpectedStringBody,
    MultipleOperators,
    UnexpectedToken,
    MismatchedParen,
}

/// An expression tree.
#[derive(Debug, PartialEq)]
pub enum Tree {
    /// An empty tree, standing where a required subtree was missing; it
    /// covers no source text.
    Empty,
    /// An identifier.
    Ident { token: Token },
    /// A numeric literal.
    Number { token: Token },
    /// A text literal.
    TextLiteral { token: Token },
    /// A bare operator-like token standing where an expression was expected.
    Opr { token: Token },
    /// Function application by juxtaposition.
    App { func: Box<Tree>, arg: Box<Tree> },
    /// A binary operator application; an absent side is a section hole.
    OprApp { lhs: Option<Box<Tree>>, opr: Token, rhs: Option<Box<Tree>> },
    /// A unary prefix operator application; an absent operand is a hole.
    UnaryOprApp { opr: Token, rhs: Option<Box<Tree>> },
    /// The outermost scope of an operator section: the subtree below it
    /// contains the section's holes.
    OprSectionBoundary { ast: Box<Tree> },
    /// A bracketed group; `close` is absent when the bracket was never
    /// closed.
    Group { open: Token, body: Option<Box<Tree>>, close: Option<Token> },
    /// An indented block applied to the (optional) expression before it.
    ArgumentBlockApplication { lhs: Option<Box<Tree>>, block: Vec<BlockLine> },
    /// A function definition: qualified name, argument definitions, optional
    /// return specification, the assignment operator, and the body.
    FunctionDef {
        name: Box<Tree>,
        args: Vec<ArgumentDefinition>,
        return_spec: Option<Box<ReturnSpecification>>,
        equals: Token,
        body: Option<Box<Tree>>,
    },
    /// A constructor definition within a type body.
    ConstructorDef {
        name: Token,
        args: Vec<ArgumentDefinition>,
        block: Vec<ArgumentDefinitionLine>,
    },
    /// A foreign function definition.
    ForeignFunctionDef {
        keyword: Token,
        language: Token,
        name: Token,
        args: Vec<ArgumentDefinition>,
        equals: Token,
        body: Box<Tree>,
    },
    /// A type definition: keyword, name, parameters, and body lines.
    TypeDef { keyword: Token, name: Token, params: Vec<ArgumentDefinition>, body: Vec<BlockLine> },
    /// A sequence of statements, e.g. a module root.
    BodyBlock { statements: Vec<BlockLine> },
    /// A subtree with an attached error.
    Invalid { error: SyntaxError, ast: Box<Tree> },
}

/// One line of a body block.
#[derive(Debug, PartialEq)]
pub struct BlockLine {
    pub newline: Token,
    pub expression: Option<Tree>,
}

/// An argument definition: a pattern nested within at most two levels of
/// parentheses (the inner pair attributable to a type ascription, the outer
/// to a default), with optional suspension marker, type, and default.
#[derive(Debug, PartialEq)]
pub struct ArgumentDefinition {
    pub open: Option<Token>,
    pub open2: Option<Token>,
    pub suspension: Option<Token>,
    pub pattern: Tree,
    pub type_: Option<ArgumentType>,
    pub close2: Option<Token>,
    pub default: Option<ArgumentDefault>,
    pub close: Option<Token>,
}

/// A type ascription within an argument definition.
#[derive(Debug, PartialEq)]
pub struct ArgumentType {
    pub operator: Token,
    pub type_: Tree,
}

/// A default value within an argument definition.
#[derive(Debug, PartialEq)]
pub struct ArgumentDefault {
    pub equals: Token,
    pub expression: Tree,
}

/// One line of a constructor definition's argument block.
#[derive(Debug, PartialEq)]
pub struct ArgumentDefinitionLine {
    pub newline: Token,
    pub argument: Option<ArgumentDefinition>,
}

/// A return-type specification: the arrow and the type after it.
#[derive(Debug, PartialEq)]
pub struct ReturnSpecification {
    pub arrow: Token,
    pub type_: Tree,
}

/// The tokens of a tree, in source order: the leaves of the tree read off
/// left to right.
pub open spec fn tree_toks(t: Tree) -> Seq<TokM>
    decreases t,
{
    match t {
        Tree::Empty => Seq::empty(),
        Tree::Ident { token } => seq![token@],
        Tree::Number { token } => seq![token@],
        Tree::TextLiteral { token } => seq![token@],
        Tree::Opr { token } => seq![token@],
        Tree::App { func, arg } => tree_toks(*func) + tree_toks(*arg),
        Tree::OprApp { lhs, opr, rhs } => opt_tree_toks(lhs) + seq![opr@] + opt_tree_toks(rhs),
        Tree::UnaryOprApp { opr, rhs } => seq![opr@] + opt_tree_toks(rhs),
        Tree::OprSectionBoundary { ast } => tree_toks(*ast),
        Tree::Group { open, body, close } => seq![open@] + opt_tree_toks(body) + opt_tok_toks(
            close,
        ),
        Tree::ArgumentBlockApplication { lhs, block } => opt_tree_toks(lhs) + block_lines_toks(
            block@,
        ),
        Tree::FunctionDef { name, args, return_spec, equals, body } => tree_toks(*name) + args_toks(
            args@,
        ) + opt_ret_box_toks(return_spec) + seq![equals@] + opt_tree_toks(body),
        Tree::ConstructorDef { name, args, block } => seq![name@] + args_toks(args@)
            + arg_lines_toks(block@),
        Tree::ForeignFunctionDef { keyword, language, name, args, equals, body } => seq![
            keyword@,
            language@,
            name@,
        ] + args_toks(args@) + seq![equals@] + tree_toks(*body),
        Tree::TypeDef { keyword, name, params, body } => seq![keyword@, name@] + args_toks(params@)
            + block_lines_toks(body@),
        Tree::BodyBlock { statements } => block_lines_toks(statements@),
        Tree::Invalid { error, ast } => tree_toks(*ast),
    }
}

/// The tokens of an optional subtree.
pub open spec fn opt_tree_toks(t: Option<Box<Tree>>) -> Seq<TokM>
    decreases t,
{
    match t {
        Some(b) => tree_toks(*b),
        None => Seq::empty(),
    }
}

/// The tokens of an argument definition, in source order.
pub open spec fn arg_toks(a: ArgumentDefinition) -> Seq<TokM>
    decreases a,
{
    opt_tok_toks(a.open) + opt_tok_toks(a.open2) + opt_tok_toks(a.suspension) + tree_toks(a.pattern)
        + (match a.type_ {
        Some(ty) => seq![ty.operator@] + tree_toks(ty.type_),
        None => Seq::empty(),
    }) + opt_tok_toks(a.close2) + (match a.default {
        Some(d) => seq![d.equals@] + tree_toks(d.expression),
        None => Seq::empty(),
    }) + opt_tok_toks(a.close)
}

/// The tokens of a sequence of argument definitions.
pub open spec fn args_toks(s: Seq<ArgumentDefinition>) -> Seq<TokM>
    decreases s,
{
    if s.len() == 0 {
        Seq::empty()
    } else {
        arg_toks(s[0]) + args_toks(s.drop_first())
    }
}

/// The tokens of an optional boxed return specification.
pub open spec fn opt_ret_box_toks(r: Option<Box<ReturnSpecification>>) -> Seq<TokM>
    decreases r,
{
    match r {
        Some(spec) => seq![spec.arrow@] + tree_toks(spec.type_),
        None => Seq::empty(),
    }
}

/// The tokens of an optional return specification.
pub open spec fn opt_ret_toks(r: Option<ReturnSpecification>) -> Seq<TokM>
    decreases r,
{
    match r {
        Some(spec) => seq![spec.arrow@] + tree_toks(spec.type_),
        None => Seq::empty(),
    }
}

/// The tokens of a sequence of block lines.
pub open spec fn block_lines_toks(s: Seq<BlockLine>) -> Seq<TokM>
    decreases s,
{
    if s.len() == 0 {
        Seq::empty()
    } else {
        seq![s[0].newline@] + (match s[0].expression {
            Some(e) => tree_toks(e),
            None => Seq::empty(),
        }) + block_lines_toks(s.drop_first())
    }
}

/// The tokens of a sequence of argument-definition lines.
pub open spec fn arg_lines_toks(s: Seq<ArgumentDefinitionLine>) -> Seq<TokM>
    decreases s,
{
    if s.len() == 0 {
        Seq::empty()
    } else {
        seq![s[0].newline@] + (match s[0].argument {
            Some(a) => arg_toks(a),
            None => Seq::empty(),
        }) + arg_lines_toks(s.drop_first())
    }
}

/// The number of section holes (missing operand positions) of a tree, not
/// counting holes already captured by a nested section boundary.  Only
/// operator applications, plain applications, groups, and error wrappers
/// propagate holes: a hole cannot escape a block or a declaration.
pub open spec fn holes(t: Tree) -> nat
    decreases t,
{
    match t {
        Tree::App { func, arg } => holes(*func) + holes(*arg),
        Tree::OprApp { lhs, opr, rhs } => opt_holes(lhs) + opt_holes(rhs),
        Tree::UnaryOprApp { opr, rhs } => opt_holes(rhs),
        Tree::OprSectionBoundary { ast } => 0,
        Tree::Group { open, body, close } => match body {
            Some(b) => holes(*b),
            None => 0,
        },
        Tree::Invalid { error, ast } => holes(*ast),
        _ => 0,
    }
}

/// The number of holes of an optional operand: an absent operand is itself
/// one hole.
pub open spec fn opt_holes(t: Option<Box<Tree>>) -> nat
    decreases t,
{
    match t {
        Some(b) => holes(*b),
        None => 1,
    }
}

/// Section well-formedness: every section boundary in the tree wraps a
/// subtree that contains exactly one hole (missing operand position).  The
/// resolver closes a holed subtree with its own boundary before using it
/// as an operand, so a second hole can never accumulate under one
/// boundary.
pub open spec fn section_wf(t: Tree) -> bool
    decreases t,
{
    match t {
        Tree::Empty => true,
        Tree::Ident { token } => true,
        Tree::Number { token } => true,
        Tree::TextLiteral { token } => true,
        Tree::Opr { token } => true,
        Tree::App { func, arg } => section_wf(*func) && section_wf(*arg),
        Tree::OprApp { lhs, opr, rhs } => opt_section_wf(lhs) && opt_section_wf(rhs),
        Tree::UnaryOprApp { opr, rhs } => opt_section_wf(rhs),
        Tree::OprSectionBoundary { ast } => holes(*ast) == 1 && section_wf(*ast),
        Tree::Group { open, body, close } => opt_section_wf(body),
        Tree::ArgumentBlockApplication { lhs, block } => opt_section_wf(lhs) && block_lines_wf(
            block@,
        ),
        Tree::FunctionDef { name, args, return_spec, equals, body } => section_wf(*name) && args_wf(
            args@,
        ) && (match return_spec {
            Some(r) => section_wf(r.type_),
            None => true,
        }) && opt_section_wf(body),
        Tree::ConstructorDef { name, args, block } => args_wf(args@) && arg_lines_wf(block@),
        Tree::ForeignFunctionDef { keyword, language, name, args, equals, body } => args_wf(args@)
            && section_wf(*body),
        Tree::TypeDef { keyword, name, params, body } => args_wf(params@) && block_lines_wf(body@),
        Tree::BodyBlock { statements } => block_lines_wf(statements@),
        Tree::Invalid { error, ast } => section_wf(*ast),
    }
}

/// Section well-formedness of an optional operand.
pub open spec fn opt_section_wf(t: Option<Box<Tree>>) -> bool
    decreases t,
{
    match t {
        Some(b) => section_wf(*b),
        None => true,
    }
}

/// Section well-formedness of an argument definition.
pub open spec fn arg_wf(a: ArgumentDefinition) -> bool
    decreases a,
{
    section_wf(a.pattern) && (match a.type_ {
        Some(ty) => section_wf(ty.type_),
        None => true,
    }) && (match a.default {
        Some(d) => section_wf(d.expression),
        None => true,
    })
}

/// Section well-formedness of a sequence of argument definitions.
pub open spec fn args_wf(s: Seq<ArgumentDefinition>) -> bool
    decreases s,
{
    forall|i: int| 0 <= i < s.len() ==> arg_wf(#[trigger] s[i])
}

/// Section well-formedness of a sequence of block lines.
pub open spec fn block_lines_wf(s: Seq<BlockLine>) -> bool
    decreases s,
{
    forall|i: int|
        0 <= i < s.len() ==> (match #[trigger] s[i].expression {
            Some(e) => section_wf(e),
            None => true,
        })
}

/// Section well-formedness of a sequence of argument-definition lines.
pub open spec fn arg_lines_wf(s: Seq<ArgumentDefinitionLine>) -> bool
    decreases s,
{
    forall|i: int|
        0 <= i < s.len() ==> (match #[trigger] s[i].argument {
            Some(a) => arg_wf(a),
            None => true,
        })
}

impl Tree {
    /// Attach an error to this tree: the result is an `Invalid` node whose
    /// inner subtree is the tree itself, covering exactly the same tokens.
    pub fn with_error(self, error: SyntaxError) -> (r: Tree)
        ensures
            (r matches Tree::Invalid { error: e, ast } && e == error && *ast == self),
            tree_toks(r) == tree_toks(self),
            holes(r) == holes(self),
            section_wf(r) == section_wf(self),
    {
        Tree::Invalid { error, ast: Box::new(self) }
    }
}

/// Attach an error to a tree if one is given.
pub fn maybe_with_error(tree: Tree, error: Option<SyntaxError>) -> (r: Tree)
    ensures
        (match error {
            None => r == tree,
            Some(e) => (r matches Tree::Invalid { error: e2, ast } && e2 == e && *ast == tree),
        }),
        tree_toks(r) == tree_toks(tree),
{
    match error {
        None => tree,
        Some(e) => tree.with_error(e),
    }
}

/// Construct an empty tree, standing for a missing subtree; it covers no
/// source text.
pub fn empty_tree() -> (r: Tree)
    ensures
        r == Tree::Empty,
        tree_toks(r) == Seq::<TokM>::empty(),
{
    Tree::Empty
}

/// Setting an argument's outer parentheses wraps its tokens.
pub proof fn lemma_arg_toks_set_parens(
    a: ArgumentDefinition,
    open: Token,
    close: Option<Token>,
    b: ArgumentDefinition,
)
    requires
        a.open is None,
        a.close is None,
        b.open == Some(open),
        b.close == close,
        b.open2 == a.open2,
        b.suspension == a.suspension,
        b.pattern == a.pattern,
        b.type_ == a.type_,
        b.close2 == a.close2,
        b.default == a.default,
    ensures
        arg_toks(b) == seq![open@] + arg_toks(a) + opt_tok_toks(close),
        arg_wf(b) == arg_wf(a),
{
    assert(arg_toks(b) =~= seq![open@] + arg_toks(a) + opt_tok_toks(close));
}

/// Appending an argument definition appends its tokens.
pub proof fn lemma_args_toks_push(s: Seq<ArgumentDefinition>, x: ArgumentDefinition)
    ensures
        args_toks(s.push(x)) == args_toks(s) + arg_toks(x),
    decreases s,
{
    let extended = s.push(x);
    if s.len() == 0 {
        assert(extended[0] == x);
        assert(extended.drop_first() =~= Seq::<ArgumentDefinition>::empty());
        assert(args_toks(Seq::<ArgumentDefinition>::empty()) == Seq::<TokM>::empty());
        assert(args_toks(extended) == arg_toks(x) + args_toks(extended.drop_first()));
        assert(args_toks(extended) =~= args_toks(s) + arg_toks(x));
    } else {
        lemma_args_toks_push(s.drop_first(), x);
        assert(extended[0] == s[0]);
        assert(extended.drop_first() =~= s.drop_first().push(x));
        assert(args_toks(extended) == arg_toks(s[0]) + args_toks(s.drop_first().push(x)));
        assert(args_toks(extended) =~= args_toks(s) + arg_toks(x));
    }
}

/// Appending an argument-definition line appends its tokens.
pub proof fn lemma_arg_lines_toks_push(s: Seq<ArgumentDefinitionLine>, x: ArgumentDefinitionLine)
    ensures
        arg_lines_toks(s.push(x)) == arg_lines_toks(s) + seq![x.newline@] + (match x.argument {
            Some(a) => arg_toks(a),
            None => Seq::empty(),
        }),
    decreases s,
{
    let extended = s.push(x);
    if s.len() == 0 {
        assert(extended[0] == x);
        assert(extended.drop_first() =~= Seq::<ArgumentDefinitionLine>::empty());
        assert(arg_lines_toks(Seq::<ArgumentDefinitionLine>::empty()) == Seq::<TokM>::empty());
        assert(arg_lines_toks(extended) == seq![x.newline@] + (match x.argument {
            Some(a) => arg_toks(a),
            None => Seq::empty(),
        }) + arg_lines_toks(extended.drop_first()));
        assert(arg_lines_toks(extended) =~= arg_lines_toks(s) + seq![x.newline@] + (
        match x.argument {
            Some(a) => arg_toks(a),
            None => Seq::empty(),
        }));
    } else {
        lemma_arg_lines_toks_push(s.drop_first(), x);
        assert(extended[0] == s[0]);
        assert(extended.drop_first() =~= s.drop_first().push(x));
        assert(arg_lines_toks(extended) == seq![s[0].newline@] + (match s[0].argument {
            Some(a) => arg_toks(a),
            None => Seq::empty(),
        }) + arg_lines_toks(s.drop_first().push(x)));
        assert(arg_lines_toks(extended) =~= arg_lines_toks(s) + seq![x.newline@] + (
        match x.argument {
            Some(a) => arg_toks(a),
            None => Seq::empty(),
        }));
    }
}

/// Appending a block line appends its tokens.
pub proof fn lemma_block_lines_toks_push(s: Seq<BlockLine>, x: BlockLine)
    ensures
        block_lines_toks(s.push(x)) == block_lines_toks(s) + seq![x.newline@] + (match x.expression {
            Some(e) => tree_toks(e),
            None => Seq::empty(),
        }),
    decreases s,
{
    let extended = s.push(x);
    if s.len() == 0 {
        assert(extended[0] == x);
        assert(extended.drop_first() =~= Seq::<BlockLine>::empty());
        assert(block_lines_toks(Seq::<BlockLine>::empty()) == Seq::<TokM>::empty());
        assert(block_lines_toks(extended) == seq![x.newline@] + (match x.expression {
            Some(e) => tree_toks(e),
            None => Seq::empty(),
        }) + block_lines_toks(extended.drop_first()));
        assert(block_lines_toks(extended) =~= block_lines_toks(s) + seq![x.newline@] + (
        match x.expression {
            Some(e) => tree_toks(e),
            None => Seq::empty(),
        }));
    } else {
        lemma_block_lines_toks_push(s.drop_first(), x);
        assert(extended[0] == s[0]);
        assert(extended.drop_first() =~= s.drop_first().push(x));
        assert(block_lines_toks(extended) =~= block_lines_toks(s) + seq![x.newline@] + (
        match x.expression {
            Some(e) => tree_toks(e),
            None => Seq::empty(),
        }));
    }
}

/// No token loss on error: an `Invalid` wrapper covers exactly the tokens
/// of the subtree it carries.
pub proof fn lemma_no_token_loss_on_error(t: Tree)
    ensures
        (t matches Tree::Invalid { error, ast } ==> tree_toks(t) == tree_toks(*ast)),
{
}

/// Section well-formedness names exactly one hole: in a well-formed tree,
/// every section boundary wraps a subtree with exactly one missing operand
/// position.
pub proof fn lemma_section_boundary_single_hole(t: Tree)
    requires
        section_wf(t),
    ensures
        (t matches Tree::OprSectionBoundary { ast } ==> holes(*ast) == 1),
{
}

} // verus!
