//! The operator-precedence resolver: converts a flat sequence of lexed
//! items into a tree of expressions, respecting precedence, associativity,
//! unary/binary modes, sections, and modifier operators.
//!
//! The resolver is a precedence climber: a primary parser recognizes
//! operands (leaves, unary-operator applications, groups, and blocks), and
//! an infix layer folds binary operators whose precedence reaches the
//! current floor, synthesizing an implicit application between adjacent
//! operands.  A missing operand is a section hole.  A sectionable operator
//! keeps the hole as an absent side; an operand subtree that carries a
//! hole of its own is closed off by its own section boundary first, so
//! every boundary wraps exactly one hole.  A compile-time operator cannot
//! form sections: a missing right operand becomes an error-wrapped empty
//! tree, and a missing left operand follows the operator's LHS policy
//! (Reify emits the marked section node, Unwrap attaches the error to the
//! inner tree).  At an entry point, a tree that still carries its hole is
//! wrapped in a section boundary.  No token of the input is ever dropped.

use vstd::prelude::*;
use crate::token::{Token, TokM, Variant, opt_tok_toks};
use crate::item::{
    Item, Line, item_toks, items_toks, lines_toks, lemma_items_toks_split,
    lemma_items_toks_subrange_concat, lemma_items_toks_single, lemma_items_toks_empty,
    lemma_lines_toks_take_step,
};
use crate::operator::{
    OperatorProperties, Precedence as PrecedenceLevel, SectionTermination, prec_u8,
    spec_token_operator_properties, TokenOperatorProperties,
};
use crate::tree::{
    Tree, BlockLine, SyntaxError, tree_toks, opt_tree_toks, holes, opt_holes, section_wf,
    opt_section_wf, block_lines_toks, block_lines_wf, empty_tree, lemma_block_lines_toks_push,
};

verus! {

/// The tokens of an operand that may be a section hole: a hole covers no
/// source text.
pub open spec fn operand_toks(t: Option<Tree>) -> Seq<TokM> {
    match t {
        Some(x) => tree_toks(x),
        None => Seq::empty(),
    }
}

/// The holes of an operand: an absent operand is itself one hole.
pub open spec fn operand_holes(t: Option<Tree>) -> nat {
    match t {
        Some(x) => holes(x),
        None => 1,
    }
}

/// Section well-formedness of an operand.
pub open spec fn operand_wf(t: Option<Tree>) -> bool {
    match t {
        Some(x) => section_wf(x),
        None => true,
    }
}

/// The binary-operator properties of an item: present iff the item is a
/// token whose operator properties include a binary infix precedence.
pub open spec fn item_binary_props(it: Item) -> Option<OperatorProperties> {
    match it {
        Item::Token(t) => match spec_token_operator_properties(t@) {
            Some(p) => if p.binary_infix_precedence is Some {
                Some(p)
            } else {
                None
            },
            None => None,
        },
        _ => None,
    }
}

/// Whether position `i` of the item sequence holds a binary-capable
/// operator token.
pub open spec fn at_binary(s: Seq<Item>, i: int) -> bool {
    0 <= i < s.len() && item_binary_props(s[i]) is Some
}

/// If the item is a binary-capable operator token, return a copy of the
/// token and its properties.
fn item_binary_op(it: &Item) -> (r: Option<(Token, OperatorProperties)>)
    ensures
        (r is Some) == (item_binary_props(*it) is Some),
        (r matches Some((t, p)) ==> Some(p) == item_binary_props(*it) && item_toks(*it) == seq![
            t@,
        ] && (*it matches Item::Token(tok0) && t == tok0)),
{
    match it {
        Item::Token(tok) => match tok.operator_properties() {
            Some(props) => match props.binary_infix_precedence {
                Some(_) => Some((tok.clone(), props)),
                None => None,
            },
            None => None,
        },
        _ => None,
    }
}

/// Build the leaf tree for a non-operator token: identifiers (and the
/// `foreign` keyword, identifier-like in expressions), numbers, and text
/// literals become leaves; any other token is an error leaf.
fn leaf_for(token: &Token) -> (r: Tree)
    ensures
        tree_toks(r) == seq![token@],
        holes(r) == 0,
        section_wf(r),
        (leaf_variant(token@.variant) ==> leaf_tree_matches(r, *token)),
{
    match token.variant {
        Variant::Ident { is_type: _ } => Tree::Ident { token: token.clone() },
        Variant::ForeignKeyword => Tree::Ident { token: token.clone() },
        Variant::Number => Tree::Number { token: token.clone() },
        Variant::TextLiteral => Tree::TextLiteral { token: token.clone() },
        _ => (Tree::Opr { token: token.clone() }).with_error(SyntaxError::UnexpectedToken),
    }
}

/// Close off a subtree that will become an operand of a larger node: one
/// that still carries its section hole receives its own section boundary,
/// so that every boundary wraps exactly one hole and a second hole can
/// never accumulate under one boundary.
fn close_section(t: Tree, has: bool) -> (r: Tree)
    requires
        section_wf(t),
        has == (holes(t) > 0),
        holes(t) <= 1,
    ensures
        tree_toks(r) == tree_toks(t),
        holes(r) == 0,
        section_wf(r),
        (has == false ==> r == t),
{
    if has {
        Tree::OprSectionBoundary { ast: Box::new(t) }
    } else {
        t
    }
}

/// Fold a binary operator with its two operands.  An operand that carries
/// a hole of its own is first closed off by its own boundary.  A
/// sectionable operator keeps a missing operand as a section hole (at most
/// one: with both operands missing, the right one becomes an error-wrapped
/// empty tree).  A compile-time operator cannot form sections: a missing
/// right operand becomes an error-wrapped empty tree, and a missing left
/// operand follows the operator's LHS section-termination policy — Reify
/// emits the section node (marked as an error), Unwrap elides it and
/// attaches the error to the inner tree.  The returned flag reports
/// whether the result carries a hole.
fn mk_opr_app(lhs: Option<Tree>, lhs_has: bool, opr: Token, props: OperatorProperties, rhs: Option<
    Tree,
>, rhs_has: bool) -> (r: (Tree, bool))
    requires
        operand_wf(lhs),
        operand_wf(rhs),
        lhs_has == (operand_holes(lhs) > 0),
        rhs_has == (operand_holes(rhs) > 0),
        operand_holes(lhs) <= 1,
        operand_holes(rhs) <= 1,
    ensures
        tree_toks(r.0) == operand_toks(lhs) + seq![opr@] + operand_toks(rhs),
        r.1 == (holes(r.0) > 0),
        holes(r.0) <= 1,
        section_wf(r.0),
        (!props.is_compile_time && operand_holes(lhs) == 0 && operand_holes(rhs) == 0 ==> (
        lhs matches Some(l0) ==> (rhs matches Some(r0) ==> (r.0 matches Tree::OprApp {
            lhs: lb2,
            opr: o2,
            rhs: rb2,
        } && (lb2 matches Some(lb) && *lb == l0) && o2 == opr && (rb2 matches Some(rb) && *rb
            == r0))))),
        (!props.is_compile_time && lhs is None && operand_holes(rhs) == 0 ==> (
        rhs matches Some(r0) ==> (r.0 matches Tree::OprApp { lhs: lb2, opr: o2, rhs: rb2 }
            && lb2 is None && o2 == opr && (rb2 matches Some(rb) && *rb == r0)))),
{
    let ghost lhs0 = lhs;
    let ghost rhs0 = rhs;
    let mut l: Option<Box<Tree>> = None;
    let mut l_hole: bool = true;
    match lhs {
        Some(t) => {
            let closed = close_section(t, lhs_has);
            l = Some(Box::new(closed));
            l_hole = false;
            proof {
                assert(opt_tree_toks(l) == operand_toks(lhs0));
                assert(opt_holes(l) == 0);
                assert(opt_section_wf(l));
            }
        },
        None => {
            proof {
                assert(opt_tree_toks(l) == operand_toks(lhs0));
                assert(opt_holes(l) == 1);
                assert(opt_section_wf(l));
            }
        },
    }
    let mut rr: Option<Box<Tree>> = None;
    let mut r_hole: bool = true;
    match rhs {
        Some(t) => {
            let closed = close_section(t, rhs_has);
            rr = Some(Box::new(closed));
            r_hole = false;
            proof {
                assert(opt_tree_toks(rr) == operand_toks(rhs0));
                assert(opt_holes(rr) == 0);
                assert(opt_section_wf(rr));
            }
        },
        None => {
            proof {
                assert(opt_tree_toks(rr) == operand_toks(rhs0));
                assert(opt_holes(rr) == 1);
                assert(opt_section_wf(rr));
            }
        },
    }
    if props.is_compile_time {
        if r_hole {
            rr = Some(Box::new(empty_tree().with_error(SyntaxError::ExpectedExpression)));
            r_hole = false;
            proof {
                assert(opt_tree_toks(rr) == operand_toks(rhs0));
                assert(opt_holes(rr) == 0);
                assert(opt_section_wf(rr));
            }
        }
        if l_hole {
            let reify = match props.lhs_section_termination {
                Some(SectionTermination::Reify) => true,
                _ => false,
            };
            if reify {
                let inner = Tree::OprApp { lhs: None, opr, rhs: rr };
                proof {
                    assert(opt_section_wf(Option::<Box<Tree>>::None));
                    assert(opt_holes(Option::<Box<Tree>>::None) == 1);
                    assert(holes(inner) == 1);
                    assert(section_wf(inner));
                    assert(tree_toks(inner) == operand_toks(lhs0) + seq![opr@] + operand_toks(
                        rhs0,
                    ));
                }
                let out = (Tree::OprSectionBoundary { ast: Box::new(inner) }).with_error(
                    SyntaxError::ExpectedExpression,
                );
                proof {
                    assert(holes(out) == 0);
                }
                return (out, false);
            }
            l = Some(Box::new(empty_tree().with_error(SyntaxError::ExpectedExpression)));
            l_hole = false;
            proof {
                assert(opt_tree_toks(l) == operand_toks(lhs0));
                assert(opt_holes(l) == 0);
                assert(opt_section_wf(l));
            }
        }
    } else {
        if l_hole && r_hole {
            rr = Some(Box::new(empty_tree().with_error(SyntaxError::ExpectedExpression)));
            r_hole = false;
            proof {
                assert(opt_tree_toks(rr) == operand_toks(rhs0));
                assert(opt_holes(rr) == 0);
                assert(opt_section_wf(rr));
            }
        }
    }
    let out = Tree::OprApp { lhs: l, opr, rhs: rr };
    proof {
        assert(tree_toks(out) == opt_tree_toks(l) + seq![opr@] + opt_tree_toks(rr));
        assert(holes(out) == opt_holes(l) + opt_holes(rr));
        assert(opt_holes(l) == (if l_hole {
            1nat
        } else {
            0nat
        }));
        assert(opt_holes(rr) == (if r_hole {
            1nat
        } else {
            0nat
        }));
    }
    (out, l_hole || r_hole)
}

/// Whether position `i` of the item sequence holds a token with a unary
/// prefix mode.
pub open spec fn at_unary(s: Seq<Item>, i: int) -> bool {
    0 <= i < s.len() && (match s[i] {
        Item::Token(t) => match spec_token_operator_properties(t@) {
            Some(p) => p.unary_prefix_precedence is Some,
            None => false,
        },
        _ => false,
    })
}

/// The numeric binary precedence of the operator at position `i`, or 0
/// where there is none.
pub open spec fn binary_prec_at(s: Seq<Item>, i: int) -> u8 {
    match item_binary_props(s[i]) {
        Some(p) => match p.binary_infix_precedence {
            Some(l) => prec_u8(l),
            None => 0,
        },
        None => 0,
    }
}

/// Whether the classification makes a plain expression leaf.
pub open spec fn leaf_variant(v: Variant) -> bool {
    ||| v matches Variant::Ident { .. }
    ||| v == Variant::Number
    ||| v == Variant::TextLiteral
}

/// Whether the range `start..end` is exactly one bare leaf token.
pub open spec fn single_ident_range(s: Seq<Item>, start: int, end: int) -> bool {
    end == start + 1 && 0 <= start < s.len() && (match s[start] {
        Item::Token(t) => leaf_variant(t@.variant),
        _ => false,
    })
}

/// The leaf tree built for a leaf token: an identifier, number, or text
/// literal holding exactly that token.
pub open spec fn leaf_tree_matches(tree: Tree, tk: Token) -> bool {
    match tree {
        Tree::Ident { token } => token == tk && tk@.variant matches Variant::Ident { .. },
        Tree::Number { token } => token == tk && tk@.variant == Variant::Number,
        Tree::TextLiteral { token } => token == tk && tk@.variant == Variant::TextLiteral,
        _ => false,
    }
}

/// Whether position `i` holds a bare leaf token.
pub open spec fn leaf_at(s: Seq<Item>, i: int) -> bool {
    0 <= i < s.len() && (match s[i] {
        Item::Token(t) => leaf_variant(t@.variant),
        _ => false,
    })
}

/// Whether position `i` holds a plain left-associative binary value
/// operator: binary-only, sectionable, not right-associative.
pub open spec fn plain_binary_op_at(s: Seq<Item>, i: int) -> bool {
    &&& 0 <= i < s.len()
    &&& (match s[i] {
        Item::Token(t) => match spec_token_operator_properties(t@) {
            Some(p) => p.binary_infix_precedence is Some && p.unary_prefix_precedence is None
                && !p.is_compile_time && !p.is_right_associative,
            None => false,
        },
        _ => false,
    })
}

/// The five-item pattern `x a y b z` of the precedence-monotonicity
/// property: leaves around two plain binary operators, the first binding
/// tighter than the second.
pub open spec fn prec_pattern(s: Seq<Item>, start: int) -> bool {
    &&& s.len() == start + 5
    &&& leaf_at(s, start) && plain_binary_op_at(s, start + 1) && leaf_at(s, start + 2)
        && plain_binary_op_at(s, start + 3) && leaf_at(s, start + 4)
    &&& binary_prec_at(s, start + 1) > binary_prec_at(s, start + 3)
}

/// The two-item pattern `op x` of a right operator section: a plain
/// binary operator followed by one leaf.
pub open spec fn right_section_pattern(s: Seq<Item>, start: int) -> bool {
    &&& s.len() == start + 2
    &&& plain_binary_op_at(s, start)
    &&& leaf_at(s, start + 1)
}

/// The operator application under a right section of the pattern: no left
/// operand, the pattern's operator, and its leaf as the right operand.
pub open spec fn right_section_inner(s: Seq<Item>, start: int, tree: Tree) -> bool {
    tree matches Tree::OprApp { lhs, opr, rhs } && lhs is None && (
    s[start] matches Item::Token(to) && opr == to) && (rhs matches Some(bz) && (
    s[start + 1] matches Item::Token(tb) && leaf_tree_matches(*bz, tb)))
}

/// The operand at position `i` is the leaf tree of the token there.
pub open spec fn leaf_operand_at(s: Seq<Item>, i: int, t: Tree) -> bool {
    match s[i] {
        Item::Token(tk) => leaf_tree_matches(t, tk),
        _ => false,
    }
}

/// The application of the pattern's tighter operator: `x a y`.
pub open spec fn pattern_inner(s: Seq<Item>, start: int, tree: Tree) -> bool {
    tree matches Tree::OprApp { lhs: Some(lx), opr: oa, rhs: Some(ly) } && (
    s[start + 1] matches Item::Token(ta) && oa == ta) && leaf_operand_at(s, start, *lx)
        && leaf_operand_at(s, start + 2, *ly)
}

/// The parse of the whole pattern: the tighter application sits strictly
/// deeper, as the left operand of the looser operator.
pub open spec fn pattern_full(s: Seq<Item>, start: int, tree: Tree) -> bool {
    tree matches Tree::OprApp { lhs: Some(li), opr: ob, rhs: Some(rz) } && (
    s[start + 3] matches Item::Token(tb) && ob == tb) && pattern_inner(s, start, *li)
        && leaf_operand_at(s, start + 4, *rz)
}

/// A leaf tree has no holes and is well formed.
pub proof fn lemma_leaf_shape(t: Tree, tk: Token)
    requires
        leaf_tree_matches(t, tk),
    ensures
        holes(t) == 0,
        section_wf(t),
{
}

/// The pattern's inner application has no holes.
pub proof fn lemma_pattern_inner_shape(s: Seq<Item>, start: int, t: Tree)
    requires
        pattern_inner(s, start, t),
    ensures
        holes(t) == 0,
{
    match t {
        Tree::OprApp { lhs, opr, rhs } => {
            match lhs {
                Some(lx) => {
                    match s[start] {
                        Item::Token(tk) => {
                            lemma_leaf_shape(*lx, tk);
                        },
                        _ => {},
                    }
                },
                None => {},
            }
            match rhs {
                Some(ly) => {
                    match s[start + 2] {
                        Item::Token(tk) => {
                            lemma_leaf_shape(*ly, tk);
                        },
                        _ => {},
                    }
                },
                None => {},
            }
            assert(opt_holes(lhs) == 0);
            assert(opt_holes(rhs) == 0);
            assert(holes(t) == opt_holes(lhs) + opt_holes(rhs));
        },
        _ => {},
    }
}

/// The whole pattern parse has no holes.
pub proof fn lemma_pattern_full_shape(s: Seq<Item>, start: int, t: Tree)
    requires
        pattern_full(s, start, t),
    ensures
        holes(t) == 0,
{
    match t {
        Tree::OprApp { lhs, opr, rhs } => {
            match lhs {
                Some(li) => {
                    lemma_pattern_inner_shape(s, start, *li);
                },
                None => {},
            }
            match rhs {
                Some(rz) => {
                    match s[start + 4] {
                        Item::Token(tk) => {
                            lemma_leaf_shape(*rz, tk);
                        },
                        _ => {},
                    }
                },
                None => {},
            }
            assert(opt_holes(lhs) == 0);
            assert(opt_holes(rhs) == 0);
            assert(holes(t) == opt_holes(lhs) + opt_holes(rhs));
        },
        _ => {},
    }
}

/// What every parsing step guarantees: the consumed range `start..j`, token
/// preservation over it, the hole flag, section well-formedness, and
/// progress.
pub open spec fn parse_post(s: Seq<Item>, start: int, t: Option<Tree>, j: int, has: bool) -> bool {
    &&& start <= j <= s.len()
    &&& operand_toks(t) == items_toks(s.subrange(start, j))
    &&& has == (operand_holes(t) > 0)
    &&& operand_holes(t) <= 1
    &&& operand_wf(t)
    &&& (t is None ==> j == start)
    &&& (t is Some ==> j > start)
}

/// Resolve the lines of a block: each line's items become an optional
/// expression, with sections wrapped per line.
fn parse_block_lines(lines: &Vec<Line>) -> (r: Vec<BlockLine>)
    ensures
        block_lines_toks(r@) == lines_toks(lines@),
        block_lines_wf(r@),
    decreases lines, 0int, 2int,
{
    let mut out: Vec<BlockLine> = Vec::new();
    let mut k: usize = 0;
    proof {
        assert(lines@.take(0) =~= Seq::<Line>::empty());
    }
    while k < lines.len()
        invariant
            0 <= k <= lines@.len(),
            block_lines_toks(out@) == lines_toks(lines@.take(k as int)),
            block_lines_wf(out@),
        decreases lines@.len() - k,
    {
        let line = &lines[k];
        let expression = resolve_vec(&line.items);
        let bl = BlockLine { newline: line.newline.clone(), expression };
        proof {
            let ghost prev = out@;
            lemma_block_lines_toks_push(prev, bl);
            lemma_lines_toks_take_step(lines@, k as int);
            assert(match bl.expression {
                Some(e) => tree_toks(e) == items_toks(line.items@),
                None => items_toks(line.items@) == Seq::<TokM>::empty(),
            });
        }
        out.push(bl);
        k = k + 1;
    }
    proof {
        assert(lines@.take(lines@.len() as int) =~= lines@);
    }
    out
}

/// Resolve a whole item sequence in place: the entry for group bodies and
/// block lines.  Returns `None` only when the input is empty; a result that
/// carries section holes is wrapped in a section boundary.
fn resolve_vec(items: &Vec<Item>) -> (r: Option<Tree>)
    ensures
        (match r {
            None => items@.len() == 0,
            Some(t) => items@.len() > 0 && tree_toks(t) == items_toks(items@) && holes(t) == 0
                && section_wf(t),
        }),
    decreases items, items@.len() + 1, 2int,
{
    let (t, j, has) = parse_expr(items, 0, 0);
    match t {
        None => None,
        Some(tree) => {
            proof {
                assert(items@.subrange(0, j as int) =~= items@);
            }
            if has {
                Some(Tree::OprSectionBoundary { ast: Box::new(tree) })
            } else {
                Some(tree)
            }
        },
    }
}

/// Parse one operand: a leaf token, a unary prefix application, a group, or
/// a block.  Returns no tree exactly when the input is exhausted or the next
/// token is an operator with only a binary mode, whose missing left operand
/// the infix layer will handle.
fn parse_primary(items: &Vec<Item>, start: usize) -> (r: (Option<Tree>, usize, bool))
    requires
        start <= items@.len(),
    ensures
        ({
            let (t, j, has) = r;
            &&& parse_post(items@, start as int, t, j as int, has)
            &&& (t is None) == (start == items@.len() || (at_binary(items@, start as int)
                && !at_unary(items@, start as int)))
            &&& (single_ident_range(items@, start as int, j as int) ==> (t matches Some(tree)
                && (items@[start as int] matches Item::Token(tk) && leaf_tree_matches(tree, tk))))
            &&& (leaf_at(items@, start as int) ==> j == start + 1 && (t matches Some(tree) && (
            items@[start as int] matches Item::Token(tk) && leaf_tree_matches(tree, tk))))
        }),
    decreases items, items@.len() - start, 0int,
{
    if start >= items.len() {
        proof {
            lemma_items_toks_empty(items@, start as int);
        }
        proof {
            assert(parse_post(items@, start as int, Option::<Tree>::None, start as int, true));
        }
        return (None, start, true);
    }
    proof {
        lemma_items_toks_single(items@, start as int);
    }
    let it = &items[start];
    match it {
        Item::Token(tok) => {
            match tok.operator_properties() {
                Some(props) => {
                    match props.unary_prefix_precedence {
                        Some(u) => {
                            proof {
                                crate::operator::lemma_precedence_fits_in_seven_bits(u);
                            }
                            let opr = tok.clone();
                            let u8v = u.into_u8();
                            let (rhs, j2, rhs_has) = parse_expr(items, start + 1, u8v + 1);
                            let ghost rhs0 = rhs;
                            let mut boxed: Option<Box<Tree>> = None;
                            let mut has: bool = rhs_has;
                            match rhs {
                                Some(t) => {
                                    let closed = close_section(t, rhs_has);
                                    boxed = Some(Box::new(closed));
                                    has = false;
                                    proof {
                                        assert(opt_holes(boxed) == 0);
                                        assert(has == (opt_holes(boxed) > 0));
                                        assert(opt_section_wf(boxed));
                                    }
                                },
                                None => {
                                    if props.is_compile_time {
                                        boxed = Some(
                                            Box::new(
                                                empty_tree().with_error(
                                                    SyntaxError::ExpectedExpression,
                                                ),
                                            ),
                                        );
                                        has = false;
                                    }
                                    proof {
                                        assert(has == (opt_holes(boxed) > 0));
                                        assert(opt_section_wf(boxed));
                                    }
                                },
                            }
                            proof {
                                assert(has == (opt_holes(boxed) > 0));
                                assert(opt_section_wf(boxed));
                            }
                            let node = Tree::UnaryOprApp { opr, rhs: boxed };
                            proof {
                                lemma_items_toks_subrange_concat(
                                    items@,
                                    start as int,
                                    start as int + 1,
                                    j2 as int,
                                );
                                assert(*it == items@[start as int]);
                                assert(item_toks(items@[start as int]) == seq![tok@]);
                                assert(items_toks(
                                    items@.subrange(start as int, start as int + 1),
                                ) == seq![tok@]);
                                assert(tree_toks(node) == seq![tok@] + opt_tree_toks(boxed));
                                assert(opt_tree_toks(boxed) == items_toks(
                                    items@.subrange(start as int + 1, j2 as int),
                                ));
                                assert(tree_toks(node) == items_toks(
                                    items@.subrange(start as int, j2 as int),
                                ));
                                assert(has == (holes(node) > 0));
                                assert(section_wf(node));
                                assert(at_unary(items@, start as int));
                                assert(parse_post(items@, start as int, Some(node), j2 as int, has));
                            }
                            (Some(node), j2, has)
                        },
                        None => {
                            match props.binary_infix_precedence {
                                Some(_) => {
                                    proof {
                                        lemma_items_toks_empty(items@, start as int);
                                        assert(at_binary(items@, start as int));
                                        assert(!at_unary(items@, start as int));
                                    }
                                    proof {
                                        assert(parse_post(items@, start as int, Option::<Tree>::None, start as int, true));
                                    }
                                    (None, start, true)
                                },
                                None => {
                                    let leaf = leaf_for(tok);
                                    proof {
                                        assert(!at_binary(items@, start as int));
                                        assert(tree_toks(leaf) == items_toks(
                                            items@.subrange(start as int, start as int + 1),
                                        ));
                                    }
                                    proof {
                                        assert(parse_post(items@, start as int, Some(leaf), start as int + 1, false));
                                    }
                                    (Some(leaf), start + 1, false)
                                },
                            }
                        },
                    }
                },
                None => {
                    let leaf = leaf_for(tok);
                    proof {
                        assert(!at_binary(items@, start as int));
                        assert(tree_toks(leaf) == items_toks(
                            items@.subrange(start as int, start as int + 1),
                        ));
                    }
                    proof {
                        assert(parse_post(items@, start as int, Some(leaf), start as int + 1, false));
                    }
                    (Some(leaf), start + 1, false)
                },
            }
        },
        Item::Group { open, body, close } => {
            let open2 = open.clone();
            let inner = resolve_vec(body);
            let mut inner_box: Option<Box<Tree>> = None;
            match inner {
                Some(t) => {
                    inner_box = Some(Box::new(t));
                    proof {
                        assert(opt_tree_toks(inner_box) == items_toks(body@));
                        assert(opt_section_wf(inner_box));
                        assert(opt_holes(inner_box) == 0);
                    }
                },
                None => {
                    proof {
                        assert(opt_tree_toks(inner_box) == items_toks(body@));
                        assert(opt_section_wf(inner_box));
                    }
                },
            }
            let mut close2: Option<Token> = None;
            match close {
                Some(c) => {
                    close2 = Some(c.clone());
                    proof {
                        assert(opt_tok_toks(close2) == opt_tok_toks(*close));
                    }
                },
                None => {},
            }
            let had_close = close2.is_some();
            let g = Tree::Group { open: open2, body: inner_box, close: close2 };
            proof {
                assert(*it == items@[start as int]);
                assert(tree_toks(g) == item_toks(items@[start as int]));
                assert(holes(g) == 0);
                assert(section_wf(g));
            }
            let g = if had_close {
                g
            } else {
                g.with_error(SyntaxError::MismatchedParen)
            };
            proof {
                assert(parse_post(items@, start as int, Some(g), start as int + 1, false));
            }
            (Some(g), start + 1, false)
        },
        Item::Block(lines) => {
            let block = parse_block_lines(lines);
            let t = Tree::ArgumentBlockApplication { lhs: None, block };
            proof {
                assert(*it == items@[start as int]);
                assert(item_toks(items@[start as int]) == lines_toks(lines@));
                assert(block_lines_toks(block@) == lines_toks(lines@));
                assert(tree_toks(t) == opt_tree_toks(Option::<Box<Tree>>::None)
                    + block_lines_toks(block@));
                assert(tree_toks(t) =~= lines_toks(lines@));
                assert(holes(t) == 0);
                assert(opt_section_wf(Option::<Box<Tree>>::None));
                assert(block_lines_wf(block@));
                assert(section_wf(t));
                assert(operand_toks(Some(t)) == items_toks(
                    items@.subrange(start as int, start as int + 1),
                ));
                assert(parse_post(items@, start as int, Some(t), start as int + 1, false));
            }
            (Some(t), start + 1, false)
        },
    }
}

/// The infix layer: parse an operand, then fold binary operators whose
/// precedence reaches `min_prec`, synthesizing an implicit application
/// between adjacent operands.  With a floor of 0 the whole input is
/// consumed.
fn parse_expr(items: &Vec<Item>, start: usize, min_prec: u8) -> (r: (Option<Tree>, usize, bool))
    requires
        start <= items@.len(),
    ensures
        ({
            let (t, j, has) = r;
            &&& parse_post(items@, start as int, t, j as int, has)
            &&& (start < items@.len() && !at_binary(items@, start as int) ==> t is Some)
            &&& (min_prec == 0 && start < items@.len() ==> j == items@.len() && t is Some)
            &&& (single_ident_range(items@, start as int, j as int) ==> (t matches Some(tree)
                && (items@[start as int] matches Item::Token(tk) && leaf_tree_matches(tree, tk))))
            &&& (leaf_at(items@, start as int) && at_binary(items@, start as int + 1)
                && binary_prec_at(items@, start as int + 1) < min_prec ==> j == start + 1 && (
            t matches Some(tree) && (items@[start as int] matches Item::Token(tk)
                && leaf_tree_matches(tree, tk))))
            &&& (prec_pattern(items@, start as int) && min_prec == 0 ==> (t matches Some(tree)
                && pattern_full(items@, start as int, tree)))
            &&& (right_section_pattern(items@, start as int) && min_prec == 0 ==> (
            t matches Some(tree) && right_section_inner(items@, start as int, tree)))
        }),
    decreases items, items@.len() - start, 1int,
{
    let (mut t, mut j, mut has) = parse_primary(items, start);
    let mut done = false;
    while !done
        invariant
            start <= j <= items@.len(),
            parse_post(items@, start as int, t, j as int, has),
            (t is None ==> j == start && (start == items@.len() || at_binary(
                items@,
                start as int,
            ))),
            (start < items@.len() && !at_binary(items@, start as int) ==> t is Some),
            (single_ident_range(items@, start as int, j as int) ==> (t matches Some(tree) && (
            items@[start as int] matches Item::Token(tk) && leaf_tree_matches(tree, tk)))),
            (leaf_at(items@, start as int) && at_binary(items@, start as int + 1)
                && binary_prec_at(items@, start as int + 1) < min_prec ==> j == start + 1 && (
            t matches Some(tree) && (items@[start as int] matches Item::Token(tk)
                && leaf_tree_matches(tree, tk)))),
            (prec_pattern(items@, start as int) && min_prec == 0 ==> ((j == start + 1 && (
            t matches Some(tree) && leaf_operand_at(items@, start as int, tree))) || (j == start
                + 3 && (t matches Some(tree) && pattern_inner(items@, start as int, tree))) || (
            j == start + 5 && (t matches Some(tree) && pattern_full(
                items@,
                start as int,
                tree,
            ))))),
            (right_section_pattern(items@, start as int) && min_prec == 0 ==> ((j == start && t
                is None) || (j == start + 2 && (t matches Some(tree) && right_section_inner(
                items@,
                start as int,
                tree,
            ))))),
            (done ==> j == items@.len() || (at_binary(items@, j as int) && binary_prec_at(
                items@,
                j as int,
            ) < min_prec) || (j < items@.len() && !at_binary(items@, j as int) && prec_u8(
                crate::operator::Precedence::Application,
            ) < min_prec)),
        decreases items@.len() - j + (if done {
            0int
        } else {
            1int
        }),
    {
        if j >= items.len() {
            done = true;
        } else {
            let ghost j0 = j as int;
            match item_binary_op(&items[j]) {
                Some((opr, props)) => {
                    proof {
                        lemma_items_toks_single(items@, j0);
                    }
                    let level = props.binary_infix_precedence.unwrap();
                    proof {
                        crate::operator::lemma_precedence_fits_in_seven_bits(level);
                    }
                    let p = level.into_u8();
                    if p < min_prec {
                        done = true;
                    } else {
                        let rhs_min = if props.is_right_associative {
                            p
                        } else {
                            p + 1
                        };
                        let (rhs, j2, rhs_has) = parse_expr(items, j + 1, rhs_min);
                        proof {
                            lemma_items_toks_subrange_concat(items@, start as int, j0, j0 + 1);
                            lemma_items_toks_subrange_concat(
                                items@,
                                start as int,
                                j0 + 1,
                                j2 as int,
                            );
                        }
                        let ghost t_snap = t;
                        let ghost rhs_snap = rhs;
                        let (nt, nhas) = mk_opr_app(t, has, opr, props, rhs, rhs_has);
                        proof {
                            if prec_pattern(items@, start as int) && min_prec == 0 {
                                if j0 == start + 1 {
                                    assert(j2 == start + 3);
                                    assert(pattern_inner(items@, start as int, nt));
                                }
                                if j0 == start + 3 {
                                    assert(j2 == start + 5);
                                    match t_snap {
                                        Some(tr0) => {
                                            lemma_pattern_inner_shape(
                                                items@,
                                                start as int,
                                                tr0,
                                            );
                                        },
                                        None => {},
                                    }
                                    match rhs_snap {
                                        Some(rz) => {
                                            match items@[start as int + 4] {
                                                Item::Token(tk4) => {
                                                    lemma_leaf_shape(rz, tk4);
                                                },
                                                _ => {},
                                            }
                                        },
                                        None => {},
                                    }
                                    assert(pattern_full(items@, start as int, nt));
                                }
                            }
                        }
                        t = Some(nt);
                        has = nhas;
                        j = j2;
                    }
                },
                None => {
                    let app_prec = PrecedenceLevel::Application.into_u8();
                    if app_prec < min_prec {
                        done = true;
                    } else {
                        let (rhs, j2, rhs_has) = parse_expr(items, j, app_prec + 1);
                        let func = match t {
                            Some(x) => x,
                            None => vstd::pervasive::unreached(),
                        };
                        let arg = match rhs {
                            Some(x) => x,
                            None => vstd::pervasive::unreached(),
                        };
                        let func = close_section(func, has);
                        let arg = close_section(arg, rhs_has);
                        let ghost funcg = func;
                        let ghost argg = arg;
                        // A block following an operand is applied to it: the
                        // operand becomes the block application's left side.
                        let node = match arg {
                            Tree::ArgumentBlockApplication { lhs: None, block } => {
                                let ghost blockg = block@;
                                proof {
                                    assert(tree_toks(argg) == opt_tree_toks(
                                        Option::<Box<Tree>>::None,
                                    ) + block_lines_toks(blockg));
                                    assert(block_lines_wf(blockg));
                                }
                                let lhs_box = Some(Box::new(func));
                                proof {
                                    assert(opt_tree_toks(lhs_box) == tree_toks(funcg));
                                    assert(opt_section_wf(lhs_box));
                                }
                                let n = Tree::ArgumentBlockApplication { lhs: lhs_box, block };
                                proof {
                                    assert(tree_toks(n) == opt_tree_toks(lhs_box)
                                        + block_lines_toks(blockg));
                                    assert(tree_toks(n) =~= tree_toks(funcg) + tree_toks(argg));
                                    assert(holes(n) == 0);
                                    assert(section_wf(n));
                                }
                                n
                            },
                            other => {
                                let n = Tree::App {
                                    func: Box::new(func),
                                    arg: Box::new(other),
                                };
                                proof {
                                    assert(tree_toks(n) == tree_toks(funcg) + tree_toks(argg));
                                    assert(holes(n) == 0);
                                    assert(section_wf(n));
                                }
                                n
                            },
                        };
                        proof {
                            lemma_items_toks_subrange_concat(items@, start as int, j0, j2 as int);
                        }
                        t = Some(node);
                        has = false;
                        j = j2;
                    }
                },
            }
        }
    }
    (t, j, has)
}

/// The precedence resolver.  A value of this type is borrowed mutably for
/// the duration of a parse; its entry points drain the given range of the
/// input and return ownership of the built tree.
pub struct Precedence {}

impl Precedence {
    /// Construct a resolver.
    pub fn new() -> (r: Precedence) {
        Precedence {  }
    }

    /// Resolve `items[start..]`, draining it.  Returns `None` only when that
    /// range is empty.  The result may be a left- or right-operator section:
    /// a tree that carries section holes is wrapped in a section boundary.
    /// Every token of the drained range appears in the result, in order.
    pub fn resolve(&mut self, items: &mut Vec<Item>, start: usize) -> (r: Option<Tree>)
        requires
            start <= old(items)@.len(),
        ensures
            final(items)@ == old(items)@.subrange(0, start as int),
            (match r {
                None => old(items)@.len() == start,
                Some(t) => old(items)@.len() > start && tree_toks(t) == items_toks(
                    old(items)@.subrange(start as int, old(items)@.len() as int),
                ) && holes(t) == 0 && section_wf(t),
            }),
            (single_ident_range(old(items)@, start as int, old(items)@.len() as int) ==> (
            r matches Some(tree) && (old(items)@[start as int] matches Item::Token(tk)
                && leaf_tree_matches(tree, tk)))),
            (prec_pattern(old(items)@, start as int) ==> (r matches Some(tree) && pattern_full(
                old(items)@,
                start as int,
                tree,
            ))),
            (right_section_pattern(old(items)@, start as int) ==> (r matches Some(t2) && (
            t2 matches Tree::OprSectionBoundary { ast } && right_section_inner(
                old(items)@,
                start as int,
                *ast,
            )))),
    {
        let ghost orig0 = items@;
        let (t, j, has) = parse_expr(items, start, 0);
        let ghost t0 = t;
        proof {
            if prec_pattern(orig0, start as int) {
                match t0 {
                    Some(tree) => {
                        lemma_pattern_full_shape(orig0, start as int, tree);
                    },
                    None => {},
                }
            }
        }
        proof {
            if right_section_pattern(orig0, start as int) {
                match t0 {
                    Some(tree) => {
                        match tree {
                            Tree::OprApp { lhs, opr, rhs } => {
                                assert(lhs is None);
                                assert(opt_holes(lhs) == 1);
                                match rhs {
                                    Some(bz) => {
                                        match orig0[start as int + 1] {
                                            Item::Token(tb) => {
                                                lemma_leaf_shape(*bz, tb);
                                            },
                                            _ => {},
                                        }
                                    },
                                    None => {},
                                }
                                assert(holes(tree) == opt_holes(lhs) + opt_holes(rhs));
                            },
                            _ => {},
                        }
                        assert(holes(tree) > 0);
                    },
                    None => {},
                }
            }
        }

        items.truncate(start);
        match t {
            None => None,
            Some(tree) => {
                if has {
                    Some(Tree::OprSectionBoundary { ast: Box::new(tree) })
                } else {
                    Some(tree)
                }
            },
        }
    }

    /// Resolve `items[start..]`, draining it; section formation is
    /// suppressed at this level: a tree that still carries section holes is
    /// wrapped in a boundary marked as an expected-expression error.  Every
    /// token of the drained range appears in the result, in order.
    pub fn resolve_non_section(&mut self, items: &mut Vec<Item>, start: usize) -> (r: Option<Tree>)
        requires
            start <= old(items)@.len(),
        ensures
            final(items)@ == old(items)@.subrange(0, start as int),
            (match r {
                None => old(items)@.len() == start,
                Some(t) => old(items)@.len() > start && tree_toks(t) == items_toks(
                    old(items)@.subrange(start as int, old(items)@.len() as int),
                ) && holes(t) == 0 && section_wf(t),
            }),
            (single_ident_range(old(items)@, start as int, old(items)@.len() as int) ==> (
            r matches Some(tree) && (old(items)@[start as int] matches Item::Token(tk)
                && leaf_tree_matches(tree, tk)))),
            (prec_pattern(old(items)@, start as int) ==> (r matches Some(tree) && pattern_full(
                old(items)@,
                start as int,
                tree,
            ))),
            (right_section_pattern(old(items)@, start as int) ==> (r matches Some(t2) && (
            t2 matches Tree::Invalid { error, ast } && error == SyntaxError::ExpectedExpression
                && (*ast matches Tree::OprSectionBoundary { ast: ast2 } && right_section_inner(
                old(items)@,
                start as int,
                *ast2,
            ))))),
    {
        let ghost orig0 = items@;
        let (t, j, has) = parse_expr(items, start, 0);
        let ghost t0 = t;
        proof {
            if prec_pattern(orig0, start as int) {
                match t0 {
                    Some(tree) => {
                        lemma_pattern_full_shape(orig0, start as int, tree);
                    },
                    None => {},
                }
            }
        }
        proof {
            if right_section_pattern(orig0, start as int) {
                match t0 {
                    Some(tree) => {
                        match tree {
                            Tree::OprApp { lhs, opr, rhs } => {
                                assert(lhs is None);
                                assert(opt_holes(lhs) == 1);
                                match rhs {
                                    Some(bz) => {
                                        match orig0[start as int + 1] {
                                            Item::Token(tb) => {
                                                lemma_leaf_shape(*bz, tb);
                                            },
                                            _ => {},
                                        }
                                    },
                                    None => {},
                                }
                                assert(holes(tree) == opt_holes(lhs) + opt_holes(rhs));
                            },
                            _ => {},
                        }
                        assert(holes(tree) > 0);
                    },
                    None => {},
                }
            }
        }

        items.truncate(start);
        match t {
            None => None,
            Some(tree) => {
                if has {
                    Some(
                        (Tree::OprSectionBoundary { ast: Box::new(tree) }).with_error(
                            SyntaxError::ExpectedExpression,
                        ),
                    )
                } else {
                    Some(tree)
                }
            },
        }
    }
}

} // verus!
