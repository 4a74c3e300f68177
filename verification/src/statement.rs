//! Statement-level analysis: the top-level-operator finder, the pattern
//! parser, and the statement dispatcher that turns lines into declarations
//! or expressions.

use vstd::prelude::*;
use crate::token::{Token, TokM, Variant, opt_tok_toks};
use crate::item::{
    Item, Line, item_toks, items_toks, lines_toks, is_token_of, lemma_items_toks_subrange_concat,
    lemma_items_toks_single, lemma_items_toks_empty, lemma_lines_toks_take_step,
};
use crate::tree::{
    Tree, BlockLine, SyntaxError, tree_toks, holes, section_wf, block_lines_toks, block_lines_wf,
    empty_tree, lemma_block_lines_toks_push,
};
use crate::resolver::{Precedence, single_ident_range, leaf_tree_matches, leaf_variant};
use crate::function_def::try_parse_foreign_function;

verus! {

/// How many bare tokens of classification `v` the sequence holds.
pub open spec fn count_tokens_of(s: Seq<Item>, v: Variant) -> nat
    decreases s,
{
    if s.len() == 0 {
        0
    } else {
        (if is_token_of(s[0], v) {
            1nat
        } else {
            0nat
        }) + count_tokens_of(s.drop_first(), v)
    }
}

/// Appending an item extends the count by at most one.
pub proof fn lemma_count_tokens_push(s: Seq<Item>, x: Item, v: Variant)
    ensures
        count_tokens_of(s.push(x), v) == count_tokens_of(s, v) + (if is_token_of(x, v) {
            1nat
        } else {
            0nat
        }),
    decreases s,
{
    let extended = s.push(x);
    assert(extended.len() == s.len() + 1);
    if s.len() == 0 {
        assert(extended[0] == x);
        assert(extended.drop_first() =~= Seq::<Item>::empty());
        assert(count_tokens_of(Seq::<Item>::empty(), v) == 0);
        assert(count_tokens_of(extended, v) == (if is_token_of(x, v) {
            1nat
        } else {
            0nat
        }) + count_tokens_of(extended.drop_first(), v));
        assert(count_tokens_of(s, v) == 0);
    } else {
        lemma_count_tokens_push(s.drop_first(), x, v);
        assert(extended[0] == s[0]);
        assert(extended.drop_first() =~= s.drop_first().push(x));
        assert(count_tokens_of(extended, v) == (if is_token_of(s[0], v) {
            1nat
        } else {
            0nat
        }) + count_tokens_of(s.drop_first().push(x), v));
        assert(count_tokens_of(s, v) == (if is_token_of(s[0], v) {
            1nat
        } else {
            0nat
        }) + count_tokens_of(s.drop_first(), v));
    }
}

/// Splitting an item sequence splits its token count.
pub proof fn lemma_count_tokens_split(s: Seq<Item>, k: int, v: Variant)
    requires
        0 <= k <= s.len(),
    ensures
        count_tokens_of(s, v) == count_tokens_of(s.subrange(0, k), v) + count_tokens_of(
            s.subrange(k, s.len() as int),
            v,
        ),
    decreases k,
{
    if k == 0 {
        assert(s.subrange(0, 0) =~= Seq::<Item>::empty());
        assert(s.subrange(0, s.len() as int) =~= s);
    } else {
        let head = s.subrange(0, k);
        let rest = s.drop_first();
        lemma_count_tokens_split(rest, k - 1, v);
        assert(rest.subrange(0, k - 1) =~= head.drop_first());
        assert(rest.subrange(k - 1, rest.len() as int) =~= s.subrange(k, s.len() as int));
        assert(head[0] == s[0]);
        assert(count_tokens_of(s, v) == (if is_token_of(s[0], v) {
            1nat
        } else {
            0nat
        }) + count_tokens_of(rest, v));
        assert(count_tokens_of(head, v) == (if is_token_of(s[0], v) {
            1nat
        } else {
            0nat
        }) + count_tokens_of(head.drop_first(), v));
    }
}

/// The position of the first bare token of classification `v`, counted
/// from the front; meaningful when the sequence holds at least one.
pub open spec fn first_token_pos(s: Seq<Item>, v: Variant) -> int
    decreases s,
{
    if s.len() == 0 {
        0
    } else if is_token_of(s[0], v) {
        0
    } else {
        1 + first_token_pos(s.drop_first(), v)
    }
}

/// Where at least one token of kind `v` occurs, the first position is in
/// range and holds one.
pub proof fn lemma_first_token_pos_in_range(s: Seq<Item>, v: Variant)
    requires
        count_tokens_of(s, v) >= 1,
    ensures
        0 <= first_token_pos(s, v) < s.len(),
        is_token_of(s[first_token_pos(s, v)], v),
    decreases s,
{
    if s.len() == 0 {
    } else if is_token_of(s[0], v) {
    } else {
        lemma_first_token_pos_in_range(s.drop_first(), v);
        assert(s[1 + first_token_pos(s.drop_first(), v)] == s.drop_first()[first_token_pos(
            s.drop_first(),
            v,
        )]);
    }
}

/// A position that holds a token of kind `v`, with none before it, is the
/// first.
pub proof fn lemma_first_token_pos_here(s: Seq<Item>, i: int, v: Variant)
    requires
        0 <= i < s.len(),
        is_token_of(s[i], v),
        count_tokens_of(s.subrange(0, i), v) == 0,
    ensures
        first_token_pos(s, v) == i,
    decreases i,
{
    if i == 0 {
    } else {
        lemma_count_tokens_split(s.subrange(0, i), 1, v);
        assert(s.subrange(0, i).subrange(0, 1) =~= s.subrange(0, 1));
        assert(s.subrange(0, 1)[0] == s[0]);
        assert(count_tokens_of(s.subrange(0, 1), v) == (if is_token_of(s[0], v) {
            1nat
        } else {
            0nat
        }) + count_tokens_of(s.subrange(0, 1).drop_first(), v));
        assert(s.subrange(0, 1).drop_first() =~= Seq::<Item>::empty());
        assert(!is_token_of(s[0], v));
        let rest = s.drop_first();
        assert(rest[i - 1] == s[i]);
        assert(rest.subrange(0, i - 1) =~= s.subrange(0, i).subrange(1, i));
        assert(s.subrange(0, i).subrange(1, i) =~= s.subrange(1, i));
        assert(count_tokens_of(s.subrange(0, i), v) == count_tokens_of(
            s.subrange(0, 1),
            v,
        ) + count_tokens_of(s.subrange(1, i), v));
        assert(rest.subrange(0, i - 1) =~= s.subrange(1, i));
        lemma_first_token_pos_here(rest, i - 1, v);
    }
}

/// The kind of the top-level operator of a statement: the assignment
/// operator dominates (it splits a statement into sides, and a type
/// annotation on its left belongs to the left side); otherwise the type
/// annotation, the arrow, and the comma, in that order.
pub open spec fn top_operator_kind(s: Seq<Item>) -> Option<Variant> {
    if count_tokens_of(s, Variant::AssignmentOperator) > 0 {
        Some(Variant::AssignmentOperator)
    } else if count_tokens_of(s, Variant::TypeAnnotationOperator) > 0 {
        Some(Variant::TypeAnnotationOperator)
    } else if count_tokens_of(s, Variant::ArrowOperator) > 0 {
        Some(Variant::ArrowOperator)
    } else if count_tokens_of(s, Variant::CommaOperator) > 0 {
        Some(Variant::CommaOperator)
    } else {
        None
    }
}

/// Find the top-level syntactic binary operator of `items[start..end]`: the
/// occurrence of the dominating kind (see `top_operator_kind`), not nested
/// in a group or block.  Two occurrences that would both qualify are the
/// `MultipleOperators` error.
///
/// Returns `Ok(None)` iff the range holds no syntactic binary operator at
/// the top level; `Err(MultipleOperators)` iff the dominating kind occurs
/// more than once; otherwise the position of its only occurrence, with a
/// copy of the token there.
pub fn find_top_level_operator(items: &Vec<Item>, start: usize, end: usize) -> (r: Result<
    Option<(usize, Token)>,
    SyntaxError,
>)
    requires
        start <= end <= items@.len(),
    ensures
        ({
            let sub = items@.subrange(start as int, end as int);
            match r {
                Err(e) => e == SyntaxError::MultipleOperators && (top_operator_kind(sub)
                    matches Some(v) && count_tokens_of(sub, v) >= 2),
                Ok(None) => top_operator_kind(sub) is None,
                Ok(Some((pos, tok))) => top_operator_kind(sub) matches Some(v)
                    && count_tokens_of(sub, v) == 1 && start <= pos < end && (
                items@[pos as int] matches Item::Token(t) && tok == t && t@.variant == v) && pos
                    == start + first_token_pos(sub, v),
            }
        }),
{
    let ghost sub = items@.subrange(start as int, end as int);
    let mut n_assign: usize = 0;
    let mut n_type: usize = 0;
    let mut n_arrow: usize = 0;
    let mut n_comma: usize = 0;
    let mut first_assign: usize = 0;
    let mut first_type: usize = 0;
    let mut first_arrow: usize = 0;
    let mut first_comma: usize = 0;
    let mut i: usize = start;
    proof {
        assert(items@.subrange(start as int, start as int) =~= Seq::<Item>::empty());
    }
    while i < end
        invariant
            start <= i <= end <= items@.len(),
            n_assign == count_tokens_of(
                items@.subrange(start as int, i as int),
                Variant::AssignmentOperator,
            ),
            n_type == count_tokens_of(
                items@.subrange(start as int, i as int),
                Variant::TypeAnnotationOperator,
            ),
            n_arrow == count_tokens_of(
                items@.subrange(start as int, i as int),
                Variant::ArrowOperator,
            ),
            n_comma == count_tokens_of(
                items@.subrange(start as int, i as int),
                Variant::CommaOperator,
            ),
            n_assign > 0 ==> start <= first_assign < i && is_token_of(
                items@[first_assign as int],
                Variant::AssignmentOperator,
            ) && count_tokens_of(
                items@.subrange(start as int, first_assign as int),
                Variant::AssignmentOperator,
            ) == 0,
            n_type > 0 ==> start <= first_type < i && is_token_of(
                items@[first_type as int],
                Variant::TypeAnnotationOperator,
            ) && count_tokens_of(
                items@.subrange(start as int, first_type as int),
                Variant::TypeAnnotationOperator,
            ) == 0,
            n_arrow > 0 ==> start <= first_arrow < i && is_token_of(
                items@[first_arrow as int],
                Variant::ArrowOperator,
            ) && count_tokens_of(
                items@.subrange(start as int, first_arrow as int),
                Variant::ArrowOperator,
            ) == 0,
            n_comma > 0 ==> start <= first_comma < i && is_token_of(
                items@[first_comma as int],
                Variant::CommaOperator,
            ) && count_tokens_of(
                items@.subrange(start as int, first_comma as int),
                Variant::CommaOperator,
            ) == 0,
            n_assign <= i - start,
            n_type <= i - start,
            n_arrow <= i - start,
            n_comma <= i - start,
        decreases end - i,
    {
        proof {
            assert(items@.subrange(start as int, i as int + 1) =~= items@.subrange(
                start as int,
                i as int,
            ).push(items@[i as int]));
            lemma_count_tokens_push(
                items@.subrange(start as int, i as int),
                items@[i as int],
                Variant::AssignmentOperator,
            );
            lemma_count_tokens_push(
                items@.subrange(start as int, i as int),
                items@[i as int],
                Variant::TypeAnnotationOperator,
            );
            lemma_count_tokens_push(
                items@.subrange(start as int, i as int),
                items@[i as int],
                Variant::ArrowOperator,
            );
            lemma_count_tokens_push(
                items@.subrange(start as int, i as int),
                items@[i as int],
                Variant::CommaOperator,
            );
        }
        match &items[i] {
            Item::Token(t) => {
                match t.variant {
                    Variant::AssignmentOperator => {
                        if n_assign == 0 {
                            first_assign = i;
                        }
                        n_assign = n_assign + 1;
                    },
                    Variant::TypeAnnotationOperator => {
                        if n_type == 0 {
                            first_type = i;
                        }
                        n_type = n_type + 1;
                    },
                    Variant::ArrowOperator => {
                        if n_arrow == 0 {
                            first_arrow = i;
                        }
                        n_arrow = n_arrow + 1;
                    },
                    Variant::CommaOperator => {
                        if n_comma == 0 {
                            first_comma = i;
                        }
                        n_comma = n_comma + 1;
                    },
                    _ => {},
                }
            },
            _ => {},
        }
        i = i + 1;
    }
    proof {
        assert(items@.subrange(start as int, end as int) == sub);
    }
    let (winner_count, winner_pos) = if n_assign > 0 {
        (n_assign, first_assign)
    } else if n_type > 0 {
        (n_type, first_type)
    } else if n_arrow > 0 {
        (n_arrow, first_arrow)
    } else if n_comma > 0 {
        (n_comma, first_comma)
    } else {
        return Ok(None);
    };
    if winner_count >= 2 {
        return Err(SyntaxError::MultipleOperators);
    }
    proof {
        let i0 = winner_pos as int - start as int;
        assert(sub[i0] == items@[winner_pos as int]);
        assert(sub.subrange(0, i0) =~= items@.subrange(start as int, winner_pos as int));
        if n_assign > 0 {
            lemma_first_token_pos_here(sub, i0, Variant::AssignmentOperator);
        } else if n_type > 0 {
            lemma_first_token_pos_here(sub, i0, Variant::TypeAnnotationOperator);
        } else if n_arrow > 0 {
            lemma_first_token_pos_here(sub, i0, Variant::ArrowOperator);
        } else {
            lemma_first_token_pos_here(sub, i0, Variant::CommaOperator);
        }
    }
    match &items[winner_pos] {
        Item::Token(t) => Ok(Some((winner_pos, t.clone()))),
        _ => vstd::pervasive::unreached(),
    }
}

/// Extract an optional leading `~` suspension marker, then resolve the rest
/// of `items[start..]` as a pattern, draining it.  The pattern is absent
/// exactly when nothing (after the marker) remains.
pub fn parse_pattern(items: &mut Vec<Item>, start: usize, precedence: &mut Precedence) -> (r: (
    Option<Token>,
    Option<Tree>,
))
    requires
        start <= old(items)@.len(),
    ensures
        final(items)@ == old(items)@.subrange(0, start as int),
        opt_tok_toks(r.0) + (match r.1 {
            Some(t) => tree_toks(t),
            None => Seq::empty(),
        }) == items_toks(old(items)@.subrange(start as int, old(items)@.len() as int)),
        (match r.1 {
            Some(t) => holes(t) == 0 && section_wf(t),
            None => true,
        }),
        (single_ident_range(old(items)@, start as int, old(items)@.len() as int) ==> r.0 is None
            && (r.1 matches Some(t) && (old(items)@[start as int] matches Item::Token(tk)
            && leaf_tree_matches(t, tk)))),
        (start < old(items)@.len() ==> ((is_token_of(
            old(items)@[start as int],
            Variant::SuspensionOperator,
        ) ==> (r.0 matches Some(st) && (old(items)@[start as int] matches Item::Token(st0) && st
            == st0))) && (!is_token_of(old(items)@[start as int], Variant::SuspensionOperator)
            ==> r.0 is None))),
        (start == old(items)@.len() ==> r.0 is None && r.1 is None),
{
    let ghost orig = items@;
    let mut suspension: Option<Token> = None;
    if start < items.len() {
        let is_susp = match &items[start] {
            Item::Token(t) => match t.variant {
                Variant::SuspensionOperator => true,
                _ => false,
            },
            _ => false,
        };
        if is_susp {
            let it = items.remove(start);
            match it {
                Item::Token(t) => {
                    suspension = Some(t);
                },
                _ => {
                    proof {
                        assert(false);
                    }
                },
            }
            proof {
                lemma_items_toks_subrange_concat(
                    orig,
                    start as int,
                    start as int + 1,
                    orig.len() as int,
                );
                lemma_items_toks_single(orig, start as int);
                assert(items@ =~= orig.subrange(0, start as int) + orig.subrange(
                    start as int + 1,
                    orig.len() as int,
                ));
            }
        }
    }
    let ghost before_resolve = items@;
    let pattern = precedence.resolve_non_section(items, start);
    proof {
        if suspension is Some {
            assert(before_resolve.subrange(0, start as int) =~= orig.subrange(0, start as int));
            assert(before_resolve.subrange(start as int, before_resolve.len() as int)
                =~= orig.subrange(start as int + 1, orig.len() as int));
        } else {
            assert(before_resolve =~= orig);
            assert(before_resolve.subrange(0, start as int) =~= orig.subrange(0, start as int));
            assert(before_resolve.subrange(start as int, before_resolve.len() as int)
                =~= orig.subrange(start as int, orig.len() as int));
        }
        if pattern is None {
            lemma_items_toks_empty(before_resolve, start as int);
        }
    }
    (suspension, pattern)
}


/// Parse one statement from `items`, draining it: a type definition, a
/// foreign-function definition, a function definition, or an expression.
/// Every token of the line appears in the result, in source order.
#[verifier::rlimit(100)]
pub fn parse_statement(
    items: &mut Vec<Item>,
    precedence: &mut Precedence,
    args_buffer: &mut Vec<crate::tree::ArgumentDefinition>,
) -> (r: Tree)
    requires
        old(items)@.len() > 0,
        old(args_buffer)@.len() == 0,
    ensures
        final(items)@.len() == 0,
        final(args_buffer)@.len() == 0,
        tree_toks(r) == items_toks(old(items)@),
        section_wf(r),
        ({
            let s = old(items)@;
            let n = s.len() as int;
            let d = first_token_pos(s, Variant::AssignmentOperator);
            (top_operator_kind(s) == Some(Variant::AssignmentOperator) && count_tokens_of(
                s,
                Variant::AssignmentOperator,
            ) == 1 && !crate::function_def::is_foreign_keyword_at(s, 0) && !(n >= 2 && (
            s[0] matches Item::Token(t0) && t0@.code == "type"@) && (
            s[1] matches Item::Token(t1) && t1@.variant == (Variant::Ident { is_type: true })))
                && (s[0] matches Item::Token(h) && h@.variant matches Variant::Ident { .. }) && d
                > 0) ==> (r matches Tree::FunctionDef { name, args, return_spec, equals, body }
                && (s[d] matches Item::Token(et) && equals == et) && (d + 1 == n ==> body
                is None) && (d + 1 < n ==> body is Some) && (single_ident_range(s, d + 1, n)
                ==> (body matches Some(b) && (s[d + 1] matches Item::Token(btk)
                && leaf_tree_matches(*b, btk)))) && ((d == 1 || !is_token_of(
                s[1],
                Variant::DotOperator,
            )) ==> (s[0] matches Item::Token(tk0) ==> (leaf_variant(tk0@.variant)
                ==> leaf_tree_matches(*name, tk0)))))
        }),
{
    let ghost orig = items@;
    let len = items.len();
    proof {
        assert(orig.subrange(0, len as int) =~= orig);
        assert(orig.subrange(0, 0) =~= Seq::<Item>::empty());
    }
    let mut is_type_def = false;
    if items.len() >= 2 {
        let head_is_type = match &items[0] {
            Item::Token(t) => crate::token::str_eq(t.code.as_str(), "type"),
            _ => false,
        };
        let name_is_type = match &items[1] {
            Item::Token(t) => matches!(t.variant, Variant::Ident { is_type: true }),
            _ => false,
        };
        is_type_def = head_is_type && name_is_type;
    }
    if is_type_def {
        return parse_type_def(items, precedence, args_buffer);
    }
    let found = find_top_level_operator(items, 0, len);
    match found {
        Err(e) => {
            let t = match precedence.resolve_non_section(items, 0) {
                Some(t) => t,
                None => vstd::pervasive::unreached(),
            };
            t.with_error(e)
        },
        Ok(None) => {
            let starts_foreign = match &items[0] {
                Item::Token(t) => crate::token::str_eq(t.code.as_str(), "foreign"),
                _ => false,
            };
            if starts_foreign {
                let mut no_op: Option<Token> = None;
                let mut no_expr: Option<Tree> = None;
                let t = match try_parse_foreign_function(
                    items,
                    0,
                    &mut no_op,
                    &mut no_expr,
                    precedence,
                    args_buffer,
                ) {
                    Some(t) => t,
                    None => vstd::pervasive::unreached(),
                };
                proof {
                    assert(orig.subrange(0, orig.len() as int) =~= orig);
                    assert(tree_toks(t) =~= items_toks(orig));
                }
                t
            } else {
                match precedence.resolve(items, 0) {
                    Some(t) => t,
                    None => vstd::pervasive::unreached(),
                }
            }
        },
        Ok(Some((pos, tok))) => {
            let is_assignment = matches!(tok.variant, Variant::AssignmentOperator);
            if !is_assignment {
                return match precedence.resolve(items, 0) {
                    Some(t) => t,
                    None => vstd::pervasive::unreached(),
                };
            }
            let expression = precedence.resolve(items, pos + 1);
            proof {
                lemma_items_toks_subrange_concat(orig, pos as int, pos as int + 1, len as int);
                lemma_items_toks_single(orig, pos as int);
                assert(items@.last() == orig[pos as int]);
                assert(items@.drop_last() =~= orig.subrange(0, pos as int));
                if expression is None {
                    lemma_items_toks_empty(orig, pos as int + 1);
                }
            }
            let it = items.pop().unwrap();
            let equals = match it {
                Item::Token(t) => t,
                _ => vstd::pervasive::unreached(),
            };
            let ghost equalsg = equals;
            let mut op_opt: Option<Token> = Some(equals);
            let mut expr_opt: Option<Tree> = expression;
            let ghost before_foreign = items@;
            proof {
                if pos > 0 {
                    assert(before_foreign[0] == orig[0]);
                }
            }
            let foreign = try_parse_foreign_function(
                items,
                0,
                &mut op_opt,
                &mut expr_opt,
                precedence,
                args_buffer,
            );
            match foreign {
                Some(t) => {
                    proof {
                        assert(items@.len() == 0);
                        lemma_items_toks_subrange_concat(orig, 0, pos as int, len as int);
                        assert(orig.subrange(0, len as int) =~= orig);
                        assert(before_foreign.subrange(0, before_foreign.len() as int)
                            =~= orig.subrange(0, pos as int));
                        assert(tree_toks(t) =~= items_toks(orig));
                    }
                    t
                },
                None => {
                    let mut is_qn_head = false;
                    if pos > 0 {
                        proof {
                            assert(items@[0] == orig[0]);
                        }
                        is_qn_head = match &items[0] {
                            Item::Token(t) => matches!(t.variant, Variant::Ident { .. }),
                            _ => false,
                        };
                    }
                    let equals = match op_opt {
                        Some(t) => t,
                        None => vstd::pervasive::unreached(),
                    };
                    let body: Option<Box<Tree>> = match expr_opt {
                        Some(e) => Some(Box::new(e)),
                        None => None,
                    };
                    proof {
                        assert((match body {
                            Some(b) => tree_toks(*b),
                            None => Seq::<TokM>::empty(),
                        }) == items_toks(orig.subrange(pos as int + 1, len as int)));
                        assert(crate::tree::opt_section_wf(body));
                    }
                    if is_qn_head {
                        let mut q: usize = 1;
                        let mut scanning = true;
                        while scanning && q + 1 < pos
                            invariant
                                1 <= q <= pos,
                                (q > 1 ==> is_token_of(orig[1], Variant::DotOperator)),
                                pos < len,
                                len == orig.len(),
                                items@ == orig.subrange(0, pos as int),
                            decreases pos - q + (if scanning {
                                1int
                            } else {
                                0int
                            }),
                        {
                            let is_dot = match &items[q] {
                                Item::Token(t) => matches!(t.variant, Variant::DotOperator),
                                _ => false,
                            };
                            let next_is_ident = match &items[q + 1] {
                                Item::Token(t) => matches!(t.variant, Variant::Ident { .. }),
                                _ => false,
                            };
                            if is_dot && next_is_ident {
                                q = q + 2;
                            } else {
                                scanning = false;
                            }
                        }
                        let (qn, args, ret) = crate::function_def::parse_function_decl(
                            items,
                            0,
                            q,
                            precedence,
                            args_buffer,
                        );
                        let ghost qng = qn;
                        let ghost argsg = args@;
                        let ghost retg = ret;
                        let ret_boxed: Option<Box<crate::tree::ReturnSpecification>> = match ret {
                            Some(spec) => Some(Box::new(spec)),
                            None => None,
                        };
                        proof {
                            assert((match ret_boxed {
                                Some(b) => seq![b.arrow@] + tree_toks(b.type_),
                                None => Seq::<TokM>::empty(),
                            }) == (match retg {
                                Some(spec) => seq![spec.arrow@] + tree_toks(spec.type_),
                                None => Seq::<TokM>::empty(),
                            }));
                        }
                        let ghost eqg = equals;
                        let ghost bodyg = body;
                        let ghost retbg = ret_boxed;
                        let name_box = Box::new(qn);
                        proof {
                            assert(tree_toks(*name_box) == tree_toks(qng));
                        }
                        let t = Tree::FunctionDef {
                            name: name_box,
                            args,
                            return_spec: ret_boxed,
                            equals,
                            body,
                        };
                        proof {
                            assert(t matches Tree::FunctionDef {
                                name: n2,
                                args: a2,
                                return_spec: r2,
                                equals: e2,
                                body: b2,
                            } && *n2 == qng && a2@ == argsg && r2 == retbg && e2 == eqg && b2
                                == bodyg);
                            assert((orig.subrange(0, pos as int)).subrange(0, pos as int)
                                =~= orig.subrange(0, pos as int));
                            assert(tree_toks(qng) + crate::tree::args_toks(argsg) + (
                            match retg {
                                Some(spec) => seq![spec.arrow@] + tree_toks(spec.type_),
                                None => Seq::<TokM>::empty(),
                            }) == items_toks(orig.subrange(0, pos as int)));
                            lemma_items_toks_subrange_concat(orig, 0, pos as int, len as int);
                            assert(orig.subrange(0, len as int) =~= orig);
                            assert(items_toks(orig) == items_toks(
                                orig.subrange(0, pos as int),
                            ) + items_toks(orig.subrange(pos as int, len as int)));
                            assert(items_toks(orig.subrange(pos as int, len as int))
                                == seq![eqg@] + items_toks(
                                orig.subrange(pos as int + 1, len as int),
                            ));
                            assert(tree_toks(t) == tree_toks(qng) + crate::tree::args_toks(
                                argsg,
                            ) + crate::tree::opt_ret_box_toks(retbg) + seq![eqg@]
                                + crate::tree::opt_tree_toks(bodyg));
                            assert(crate::tree::opt_ret_box_toks(retbg) == (match retg {
                                Some(spec) => seq![spec.arrow@] + tree_toks(spec.type_),
                                None => Seq::<TokM>::empty(),
                            }));
                            assert(crate::tree::opt_tree_toks(bodyg) == (match bodyg {
                                Some(b) => tree_toks(*b),
                                None => Seq::<TokM>::empty(),
                            }));
                            assert(tree_toks(t) =~= items_toks(orig));
                            assert(crate::tree::args_wf(argsg));
                            assert(section_wf(t));
                        }
                        t
                    } else {
                        let ghost before_lhs = items@;
                        let lhs_tree = precedence.resolve_non_section(items, 0);
                        proof {
                            assert(before_lhs.subrange(0, before_lhs.len() as int)
                                =~= orig.subrange(0, pos as int));
                            if lhs_tree is None {
                                assert(before_lhs.len() == 0);
                                assert(items_toks(orig.subrange(0, pos as int))
                                    == Seq::<TokM>::empty());
                            }
                        }
                        let lhs: Option<Box<Tree>> = match lhs_tree {
                            Some(t) => Some(Box::new(t)),
                            None => Some(
                                Box::new(
                                    empty_tree().with_error(SyntaxError::ExpectedExpression),
                                ),
                            ),
                        };
                        proof {
                            assert((match lhs {
                                Some(b) => tree_toks(*b),
                                None => Seq::<TokM>::empty(),
                            }) == items_toks(orig.subrange(0, pos as int)));
                            assert(crate::tree::opt_section_wf(lhs));
                            if lhs_tree is None {
                                lemma_items_toks_empty(orig, 0);
                            }
                        }
                        let ghost bodyg = body;
                        let mut rhs: Option<Box<Tree>> = None;
                        match body {
                            Some(b) => {
                                rhs = Some(b);
                                proof {
                                    assert(crate::tree::opt_tree_toks(rhs) == (match bodyg {
                                        Some(b2) => tree_toks(*b2),
                                        None => Seq::<TokM>::empty(),
                                    }));
                                    assert(crate::tree::opt_section_wf(rhs));
                                }
                            },
                            None => {
                                rhs = Some(
                                    Box::new(
                                        empty_tree().with_error(SyntaxError::ExpectedExpression),
                                    ),
                                );
                                proof {
                                    assert(crate::tree::opt_tree_toks(rhs)
                                        == Seq::<TokM>::empty());
                                    assert(crate::tree::opt_section_wf(rhs));
                                }
                            },
                        }
                        let ghost eqg = equals;
                        let ghost lhsg = lhs;
                        let ghost rhsg = rhs;
                        let t = Tree::OprApp { lhs, opr: equals, rhs };
                        proof {
                            lemma_items_toks_subrange_concat(orig, 0, pos as int, len as int);
                            assert(orig.subrange(0, len as int) =~= orig);
                            assert(tree_toks(t) == crate::tree::opt_tree_toks(lhsg) + seq![eqg@]
                                + crate::tree::opt_tree_toks(rhsg));
                            assert(items_toks(orig) == items_toks(
                                orig.subrange(0, pos as int),
                            ) + items_toks(orig.subrange(pos as int, len as int)));
                            assert(items_toks(orig.subrange(pos as int, len as int))
                                == seq![eqg@] + items_toks(
                                orig.subrange(pos as int + 1, len as int),
                            ));
                            assert(tree_toks(t) =~= items_toks(orig));
                            assert(section_wf(t));
                        }
                        t
                    }
                },
            }
        },
    }
}

/// Parse a type definition from `items`, draining it: the `type` keyword,
/// the type's name, its type-style parameters, and an optional body block
/// whose lines hold constructor definitions or expressions.
#[verifier::rlimit(100)]
fn parse_type_def(
    items: &mut Vec<Item>,
    precedence: &mut Precedence,
    args_buffer: &mut Vec<crate::tree::ArgumentDefinition>,
) -> (r: Tree)
    requires
        old(items)@.len() >= 2,
        old(items)@[0] matches Item::Token(_),
        old(items)@[1] matches Item::Token(_),
        old(args_buffer)@.len() == 0,
    ensures
        final(items)@.len() == 0,
        final(args_buffer)@.len() == 0,
        tree_toks(r) == items_toks(old(items)@),
        section_wf(r),
{
    let ghost orig = items@;
    let len = items.len();
    let mut body: Vec<BlockLine> = Vec::new();
    let last_is_block = match &items[len - 1] {
        Item::Block(_) => true,
        _ => false,
    };
    let ghost head_end: int = if last_is_block {
        len - 1
    } else {
        len as int
    };
    if last_is_block {
        proof {
            lemma_items_toks_subrange_concat(orig, 0, head_end, orig.len() as int);
            lemma_items_toks_single(orig, head_end);
            assert(items@.last() == orig[head_end]);
            assert(items@.drop_last() =~= orig.subrange(0, head_end));
        }
        let it = items.pop().unwrap();
        match it {
            Item::Block(lines) => {
                let ghost lines0 = lines@;
                let mut lines = lines;
                let mut k: usize = 0;
                let n = lines.len();
                proof {
                    assert(lines0.take(0) =~= Seq::<Line>::empty());
                }
                while k < n
                    invariant
                        k <= n,
                        n == lines0.len(),
                        lines@ == lines0.skip(k as int),
                        block_lines_toks(body@) == lines_toks(lines0.take(k as int)),
                        block_lines_wf(body@),
                        old(args_buffer)@.len() == 0,
                        args_buffer@.len() == 0,
                    decreases n - k,
                {
                    proof {
                        assert(lines@[0] == lines0[k as int]);
                    }
                    let line = lines.remove(0);
                    let mut litems = line.items;
                    let ghost litems0 = litems@;
                    let expression: Option<Tree> = if litems.len() > 0 {
                        let head_ident = match &litems[0] {
                            Item::Token(t) => matches!(t.variant, Variant::Ident { .. }),
                            _ => false,
                        };
                        let e = if head_ident {
                            crate::function_def::parse_constructor_definition(
                                &mut litems,
                                0,
                                precedence,
                                args_buffer,
                            )
                        } else {
                            match precedence.resolve(&mut litems, 0) {
                                Some(t) => t,
                                None => vstd::pervasive::unreached(),
                            }
                        };
                        proof {
                            assert(litems0.subrange(0, litems0.len() as int) =~= litems0);
                            assert(tree_toks(e) == items_toks(litems0));
                        }
                        Some(e)
                    } else {
                        None
                    };
                    let bl = BlockLine { newline: line.newline, expression };
                    proof {
                        lemma_block_lines_toks_push(body@, bl);
                        lemma_lines_toks_take_step(lines0, k as int);
                        if litems0.len() == 0 {
                            assert(items_toks(litems0) == Seq::<TokM>::empty());
                        }
                    }
                    body.push(bl);
                    proof {
                        assert(lines@ =~= lines0.skip(k as int + 1));
                    }
                    k = k + 1;
                }
                proof {
                    assert(lines0.take(n as int) =~= lines0);
                    assert(block_lines_toks(body@) == lines_toks(lines0));
                    assert(item_toks(orig[head_end]) == lines_toks(lines0));
                }
            },
            _ => vstd::pervasive::unreached(),
        }
    }
    proof {
        assert(items@ =~= orig.subrange(0, head_end));
        assert(items@.subrange(0, 2) =~= orig.subrange(0, 2));
        assert(items@.subrange(2, head_end) =~= orig.subrange(2, head_end));
    }
    let params = crate::function_def::parse_type_args(items, 2, precedence, args_buffer);
    proof {
        assert(items@.last() == orig[1]);
        assert(items@.drop_last() =~= orig.subrange(0, 1));
        lemma_items_toks_single(orig, 1);
    }
    let it = items.pop().unwrap();
    let name = match it {
        Item::Token(t) => t,
        _ => vstd::pervasive::unreached(),
    };
    proof {
        assert(items@.last() == orig[0]);
        assert(items@.drop_last() =~= orig.subrange(0, 0));
        lemma_items_toks_single(orig, 0);
    }
    let it = items.pop().unwrap();
    let keyword = match it {
        Item::Token(t) => t,
        _ => vstd::pervasive::unreached(),
    };
    let ghost keywordg = keyword;
    let ghost nameg = name;
    let ghost paramsg = params@;
    let ghost bodyg = body@;
    let t = Tree::TypeDef { keyword, name, params, body };
    proof {
        lemma_items_toks_subrange_concat(orig, 0, 1, 2);
        lemma_items_toks_subrange_concat(orig, 0, 2, head_end);
        lemma_items_toks_subrange_concat(orig, 0, head_end, orig.len() as int);
        assert(seq![keywordg@] + seq![nameg@] =~= seq![keywordg@, nameg@]);
        assert(items_toks(orig.subrange(0, 2)) == seq![keywordg@] + seq![nameg@]);
        if !last_is_block {
            assert(block_lines_toks(Seq::<BlockLine>::empty()) == Seq::<TokM>::empty());
            assert(orig.subrange(0, head_end) =~= orig);
        }
        assert(orig.subrange(0, orig.len() as int) =~= orig);
        assert(tree_toks(t) =~= items_toks(orig));
        assert(crate::tree::args_wf(paramsg));
        assert(block_lines_wf(bodyg));
        assert(section_wf(t));
    }
    t
}

pub fn parse_module(
    input: Vec<Line>,
) -> (module: Tree)
    ensures
        section_wf(module),
        tree_toks(module) == lines_toks(input@),
{
    let lines = input;
    let mut precedence = Precedence::new();
    let mut args_buffer: Vec<crate::tree::ArgumentDefinition> = Vec::new();
    let ghost lines0 = lines@;
    let mut lines = lines;
    let mut statements: Vec<BlockLine> = Vec::new();
    let mut k: usize = 0;
    let n = lines.len();
    proof {
        assert(lines0.take(0) =~= Seq::<Line>::empty());
    }
    while k < n
        invariant
            k <= n,
            n == lines0.len(),
            lines@ == lines0.skip(k as int),
            statements@.len() == k,
            block_lines_toks(statements@) == lines_toks(lines0.take(k as int)),
            block_lines_wf(statements@),
            forall|j: int|
                0 <= j < statements@.len() ==> (#[trigger] statements@[j]).newline
                    == lines0[j].newline && ((statements@[j].expression is Some) == (
                lines0[j].items@.len() > 0)),
            args_buffer@.len() == 0,
        decreases n - k,
    {
        proof {
            assert(lines@[0] == lines0[k as int]);
        }
        let line = lines.remove(0);
        let mut litems = line.items;
        let ghost litems0 = litems@;
        let expression: Option<Tree> = if litems.len() > 0 {
            let e = parse_statement(&mut litems, &mut precedence, &mut args_buffer);
            Some(e)
        } else {
            None
        };
        let bl = BlockLine { newline: line.newline, expression };
        proof {
            lemma_block_lines_toks_push(statements@, bl);
            lemma_lines_toks_take_step(lines0, k as int);
            if litems0.len() == 0 {
                assert(items_toks(litems0) == Seq::<TokM>::empty());
            }
        }
        statements.push(bl);
        proof {
            assert(lines@ =~= lines0.skip(k as int + 1));
        }
        k = k + 1;
    }
    proof {
        assert(lines0.take(n as int) =~= lines0);
    }
    Tree::BodyBlock { statements }
}

} // verus!
