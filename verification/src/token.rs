//! The primitive lexical unit consumed by the parser.

use vstd::prelude::*;

verus! {

/// Classification of a token, as determined by the lexer.
#[derive(Clone, Copy, Debug, PartialEq, Eq, Structural)]
pub enum Variant {
    /// An identifier; `is_type` marks type constructors.
    Ident { is_type: bool },
    /// A non-syntactic operator (a symbol sequence such as `+` or `<|`),
    /// classified from its lexeme.
    Operator,
    /// `=`
    AssignmentOperator,
    /// `:`
    TypeAnnotationOperator,
    /// `->`
    ArrowOperator,
    /// `@`
    AnnotationOperator,
    /// `..`
    AutoscopeOperator,
    /// `-` in prefix position
    NegationOperator,
    /// `\`
    LambdaOperator,
    /// `.`
    DotOperator,
    /// `~`
    SuspensionOperator,
    /// `,`
    CommaOperator,
    /// The `foreign` keyword.
    ForeignKeyword,
    /// A text literal.
    TextLiteral,
    /// A numeric literal.
    Number,
    /// A line break.
    Newline,
    /// An opening bracket.
    OpenSymbol,
    /// A closing bracket.
    CloseSymbol,
}

/// An indivisible lexical unit: its classification, its source text, and the
/// whitespace immediately before it.  `left_offset` is the sole source of
/// the spaced/unspaced distinction.
#[derive(Debug, PartialEq)]
pub struct Token {
    pub variant: Variant,
    pub left_offset: String,
    pub code: String,
}

/// Mathematical model of a token: the classification together with the two
/// source slices as character sequences.
pub ghost struct TokM {
    pub variant: Variant,
    pub offset: Seq<char>,
    pub code: Seq<char>,
}

impl TokM {
    /// The source text this token covers: its leading whitespace followed by
    /// its code.
    pub open spec fn source(self) -> Seq<char> {
        self.offset + self.code
    }
}

impl View for Token {
    type V = TokM;

    open spec fn view(&self) -> TokM {
        TokM { variant: self.variant, offset: self.left_offset@, code: self.code@ }
    }
}

impl Clone for Token {
    fn clone(&self) -> (r: Self)
        ensures
            r == *self,
    {
        Token {
            variant: self.variant,
            left_offset: self.left_offset.clone(),
            code: self.code.clone(),
        }
    }
}

impl Token {
    /// Construct a token from its classification, leading whitespace, and code.
    pub fn new(variant: Variant, left_offset: String, code: String) -> (r: Token)
        ensures
            r@ == (TokM { variant, offset: left_offset@, code: code@ }),
    {
        Token { variant, left_offset, code }
    }
}

/// The adjacency classification of an item, derived from leading whitespace.
#[derive(Clone, Copy, Debug, PartialEq, Eq, Structural)]
pub enum Spacing {
    Spaced,
    Unspaced,
}

/// The spacing of a token: spaced iff some whitespace precedes it.
pub open spec fn spec_spacing_of_token(t: TokM) -> Spacing {
    if t.offset.len() > 0 {
        Spacing::Spaced
    } else {
        Spacing::Unspaced
    }
}

impl Spacing {
    /// Classify a token by its leading whitespace.
    pub fn of_token(token: &Token) -> (r: Spacing)
        ensures
            r == spec_spacing_of_token(token@),
    {
        if token.left_offset.as_str().is_empty() {
            Spacing::Unspaced
        } else {
            Spacing::Spaced
        }
    }
}

/// Character-by-character string equality; the keywords compared against
/// are short, so the quadratic cost of per-index access does not matter.
pub fn str_eq(a: &str, b: &str) -> (r: bool)
    ensures
        r == (a@ == b@),
{
    let n = a.unicode_len();
    let m = b.unicode_len();
    if n != m {
        return false;
    }
    let mut i: usize = 0;
    while i < n
        invariant
            i <= n,
            n == a@.len(),
            n == b@.len(),
            forall|k: int| 0 <= k < i ==> a@[k] == b@[k],
        decreases n - i,
    {
        if a.get_char(i) != b.get_char(i) {
            return false;
        }
        i = i + 1;
    }
    proof {
        assert(a@ =~= b@);
    }
    true
}

/// The token sequence of an optional token.
pub open spec fn opt_tok_toks(t: Option<Token>) -> Seq<TokM> {
    match t {
        Some(tok) => seq![tok@],
        None => Seq::empty(),
    }
}

} // verus!
