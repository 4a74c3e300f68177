//! Declaration parsers: function definitions, constructor definitions,
//! foreign-function definitions, and the per-argument mini-grammar over
//! items.  Arguments are located left-to-right but parsed right-to-left,
//! because each argument parse drains the items to the end of the slice;
//! the collected arguments are then reversed to restore source order.

use vstd::prelude::*;
use crate::token::{Token, TokM, Variant, Spacing, opt_tok_toks};
use crate::item::{
    Item, Line, item_toks, items_toks, is_token_of, spec_spacing_of_item,
    lemma_items_toks_subrange_concat, lemma_items_toks_single, lemma_items_toks_empty,
};
use crate::tree::{
    Tree, SyntaxError, ArgumentDefinition, ArgumentType, ArgumentDefault, ArgumentDefinitionLine,
    ReturnSpecification, tree_toks, holes, section_wf, arg_toks, args_toks, arg_wf, args_wf,
    arg_lines_toks, arg_lines_wf, empty_tree, lemma_args_toks_push, lemma_arg_lines_toks_push,
};
use crate::resolver::{Precedence, single_ident_range, leaf_tree_matches, leaf_variant};
use crate::statement::{
    find_top_level_operator, parse_pattern, count_tokens_of, first_token_pos, top_operator_kind,
    lemma_count_tokens_push, lemma_count_tokens_split,
};

verus! {

/// The tokens of the arguments held in a scratch buffer, which stores them
/// in reverse source order: read off from the end.
pub open spec fn rev_args_toks(s: Seq<ArgumentDefinition>) -> Seq<TokM>
    decreases s,
{
    if s.len() == 0 {
        Seq::empty()
    } else {
        arg_toks(s.last()) + rev_args_toks(s.drop_last())
    }
}

/// Pop the last item, known to be a bare token.
fn pop_token(items: &mut Vec<Item>) -> (r: Token)
    requires
        old(items)@.len() > 0,
        old(items)@.last() matches Item::Token(_),
    ensures
        final(items)@ == old(items)@.drop_last(),
        (old(items)@.last() matches Item::Token(t) && r == t),
{
    let it = items.pop().unwrap();
    match it {
        Item::Token(t) => t,
        _ => vstd::pervasive::unreached(),
    }
}

/// Whether an argument slot is parenthesized: whether a found type
/// annotation lies inside a bracketed group.
#[derive(Clone, Copy, Debug, PartialEq, Eq, Structural)]
pub enum IsParenthesized {
    Parenthesized,
    Unparenthesized,
}

/// Where an argument slot keeps its type annotation and its default.
pub struct ArgDefInfo {
    pub type_: Option<(IsParenthesized, usize)>,
    pub default: Option<usize>,
}


/// The slot analysis as a mathematical function: what `analyze_arg_def`
/// returns, decided by the dominating top-level operator kind of the slot,
/// the number of its occurrences, and the position of its first occurrence.
pub open spec fn spec_analyze_arg_def(items: Seq<Item>, start: int, end: int) -> Result<
    ArgDefInfo,
    SyntaxError,
> {
    let sub = items.subrange(start, end);
    match top_operator_kind(sub) {
        None => spec_analyze_parens(items, start, end, None),
        Some(v) => if count_tokens_of(sub, v) >= 2 {
            Err(SyntaxError::MultipleOperators)
        } else if v == Variant::TypeAnnotationOperator {
            Ok(
                ArgDefInfo {
                    type_: Some(
                        (
                            IsParenthesized::Unparenthesized,
                            (start + first_token_pos(sub, v)) as usize,
                        ),
                    ),
                    default: None,
                },
            )
        } else if v == Variant::AssignmentOperator {
            let d = start + first_token_pos(sub, v);
            let left = items.subrange(start, d);
            match top_operator_kind(left) {
                None => spec_analyze_parens(items, start, end, Some(d as usize)),
                Some(lv) => if count_tokens_of(left, lv) >= 2 {
                    Err(SyntaxError::MultipleOperators)
                } else if lv == Variant::TypeAnnotationOperator {
                    Ok(
                        ArgDefInfo {
                            type_: Some(
                                (
                                    IsParenthesized::Unparenthesized,
                                    (start + first_token_pos(left, lv)) as usize,
                                ),
                            ),
                            default: Some(d as usize),
                        },
                    )
                } else {
                    Err(SyntaxError::ArgDefUnexpectedOpInParenClause)
                },
            }
        } else {
            Err(SyntaxError::ArgDefUnexpectedOpInParenClause)
        },
    }
}

/// The bracket examination of the slot analysis: a slot headed by a group,
/// with no top-level operator of its own, is looked into; only a unique
/// type annotation is accepted there, and its absence makes the
/// parentheses spurious.
pub open spec fn spec_analyze_parens(
    items: Seq<Item>,
    start: int,
    end: int,
    default: Option<usize>,
) -> Result<ArgDefInfo, SyntaxError> {
    if start < end {
        match items[start] {
            Item::Group { open, body, close } => {
                match top_operator_kind(body@) {
                    None => Err(SyntaxError::ArgDefSpuriousParens),
                    Some(v) => if count_tokens_of(body@, v) >= 2 {
                        Err(SyntaxError::MultipleOperators)
                    } else if v == Variant::TypeAnnotationOperator {
                        Ok(
                            ArgDefInfo {
                                type_: Some(
                                    (
                                        IsParenthesized::Parenthesized,
                                        first_token_pos(body@, v) as usize,
                                    ),
                                ),
                                default,
                            },
                        )
                    } else {
                        Err(SyntaxError::ArgDefUnexpectedOpInParenClause)
                    },
                }
            },
            _ => Ok(ArgDefInfo { type_: None, default }),
        }
    } else {
        Ok(ArgDefInfo { type_: None, default })
    }
}

/// Analyze `items[start..end]` as one argument slot: locate the top-level
/// type-annotation and default-value operators that the argument parser
/// will split at.  A default (`=`) may carry a nested type annotation on
/// its left; a parenthesized slot without a top-level operator is examined
/// inside its brackets, where only a type annotation is accepted.
pub fn analyze_arg_def(items: &Vec<Item>, start: usize, end: usize) -> (r: Result<
    ArgDefInfo,
    SyntaxError,
>)
    requires
        start <= end <= items@.len(),
    ensures
        r == spec_analyze_arg_def(items@, start as int, end as int),
        (match r {
            Ok(info) => {
                &&& (info.default matches Some(d) ==> start <= d < end && is_token_of(
                    items@[d as int],
                    Variant::AssignmentOperator,
                ))
                &&& (info.type_ matches Some((p, t)) ==> ((p == IsParenthesized::Unparenthesized
                    ==> start <= t < end && is_token_of(
                    items@[t as int],
                    Variant::TypeAnnotationOperator,
                ) && (info.default matches Some(d) ==> t < d)) && (p
                    == IsParenthesized::Parenthesized ==> (
                items@[start as int] matches Item::Group { open, body, close } && t < body@.len()
                    && is_token_of(body@[t as int], Variant::TypeAnnotationOperator)) && start
                    < end)))
            },
            Err(e) => e == SyntaxError::MultipleOperators
                || e == SyntaxError::ArgDefUnexpectedOpInParenClause || e
                == SyntaxError::ArgDefSpuriousParens,
        }),
{
    let ghost model = spec_analyze_arg_def(items@, start as int, end as int);
    let ghost sub = items@.subrange(start as int, end as int);
    let mut default: Option<usize> = None;
    let mut type_: Option<(IsParenthesized, usize)> = None;
    match find_top_level_operator(items, start, end) {
        Err(e) => {
            proof {
                assert(model == Err::<ArgDefInfo, SyntaxError>(SyntaxError::MultipleOperators));
            }
            return Err(e);
        },
        Ok(None) => {
            proof {
                assert(model == spec_analyze_parens(items@, start as int, end as int, None));
            }
        },
        Ok(Some((pos, tok))) => {
            match tok.variant {
                Variant::TypeAnnotationOperator => {
                    type_ = Some((IsParenthesized::Unparenthesized, pos));
                    proof {
                        assert(top_operator_kind(sub) == Some(Variant::TypeAnnotationOperator));
                        assert(model == Ok::<ArgDefInfo, SyntaxError>(
                            ArgDefInfo { type_, default },
                        ));
                    }
                },
                Variant::AssignmentOperator => {
                    default = Some(pos);
                    proof {
                        assert(top_operator_kind(sub) == Some(Variant::AssignmentOperator));
                        assert(pos == start + first_token_pos(sub, Variant::AssignmentOperator));
                    }
                    let ghost left = items@.subrange(start as int, pos as int);
                    match find_top_level_operator(items, start, pos) {
                        Err(e) => {
                            proof {
                                assert(model == Err::<ArgDefInfo, SyntaxError>(
                                    SyntaxError::MultipleOperators,
                                ));
                            }
                            return Err(e);
                        },
                        Ok(None) => {
                            proof {
                                assert(top_operator_kind(left) is None);
                                assert(model == spec_analyze_parens(
                                    items@,
                                    start as int,
                                    end as int,
                                    Some(pos),
                                ));
                            }
                        },
                        Ok(Some((nested_pos, nested_tok))) => {
                            match nested_tok.variant {
                                Variant::TypeAnnotationOperator => {
                                    type_ = Some((IsParenthesized::Unparenthesized, nested_pos));
                                    proof {
                                        assert(top_operator_kind(left) == Some(
                                            Variant::TypeAnnotationOperator,
                                        ));
                                        assert(model == Ok::<ArgDefInfo, SyntaxError>(
                                            ArgDefInfo { type_, default },
                                        ));
                                    }
                                },
                                _ => {
                                    proof {
                                        assert(model == Err::<ArgDefInfo, SyntaxError>(
                                            SyntaxError::ArgDefUnexpectedOpInParenClause,
                                        ));
                                    }
                                    return Err(SyntaxError::ArgDefUnexpectedOpInParenClause);
                                },
                            }
                        },
                    }
                },
                _ => {
                    proof {
                        assert(model == Err::<ArgDefInfo, SyntaxError>(
                            SyntaxError::ArgDefUnexpectedOpInParenClause,
                        ));
                    }
                    return Err(SyntaxError::ArgDefUnexpectedOpInParenClause);
                },
            }
        },
    }
    if type_.is_none() && start < end {
        proof {
            assert(model == spec_analyze_parens(items@, start as int, end as int, default));
        }
        match &items[start] {
            Item::Group { open, body, close } => {
                proof {
                    assert(items@[start as int] matches Item::Group { .. });
                    assert(body@.subrange(0, body@.len() as int) =~= body@);
                }
                match find_top_level_operator(body, 0, body.len()) {
                    Err(e) => {
                        proof {
                            assert(model == Err::<ArgDefInfo, SyntaxError>(
                                SyntaxError::MultipleOperators,
                            ));
                        }
                        return Err(e);
                    },
                    Ok(None) => {
                        proof {
                            assert(model == Err::<ArgDefInfo, SyntaxError>(
                                SyntaxError::ArgDefSpuriousParens,
                            ));
                        }
                        return Err(SyntaxError::ArgDefSpuriousParens);
                    },
                    Ok(Some((inner_pos, inner_tok))) => {
                        match inner_tok.variant {
                            Variant::TypeAnnotationOperator => {
                                type_ = Some((IsParenthesized::Parenthesized, inner_pos));
                                proof {
                                    assert(top_operator_kind(body@) == Some(
                                        Variant::TypeAnnotationOperator,
                                    ));
                                    assert(inner_pos == first_token_pos(
                                        body@,
                                        Variant::TypeAnnotationOperator,
                                    ));
                                    assert(model == Ok::<ArgDefInfo, SyntaxError>(
                                        ArgDefInfo { type_, default },
                                    ));
                                }
                            },
                            _ => {
                                proof {
                                    assert(model == Err::<ArgDefInfo, SyntaxError>(
                                        SyntaxError::ArgDefUnexpectedOpInParenClause,
                                    ));
                                }
                                return Err(SyntaxError::ArgDefUnexpectedOpInParenClause);
                            },
                        }
                    },
                }
            },
            _ => {
                proof {
                    assert(model == Ok::<ArgDefInfo, SyntaxError>(
                        ArgDefInfo { type_, default },
                    ));
                }
            },
        }
    } else {
        proof {
            if type_ is None {
                assert(start == end);
                assert(model == Ok::<ArgDefInfo, SyntaxError>(ArgDefInfo { type_, default }));
            }
        }
    }
    Ok(ArgDefInfo { type_, default })
}

/// Parse the return-type specification: drain the arrow at `items[arrow]`
/// and everything after it; a missing type becomes an error-wrapped empty
/// tree.
pub fn parse_return_spec(items: &mut Vec<Item>, arrow: usize, precedence: &mut Precedence) -> (r:
    ReturnSpecification)
    requires
        arrow < old(items)@.len(),
        is_token_of(old(items)@[arrow as int], Variant::ArrowOperator),
    ensures
        final(items)@ == old(items)@.subrange(0, arrow as int),
        seq![r.arrow@] + tree_toks(r.type_) == items_toks(
            old(items)@.subrange(arrow as int, old(items)@.len() as int),
        ),
        r.arrow@.variant == Variant::ArrowOperator,
        (old(items)@[arrow as int] matches Item::Token(t) && r.arrow == t),
        (old(items)@.len() == arrow + 1 ==> (r.type_ matches Tree::Invalid { error, ast } && error
            == SyntaxError::ExpectedExpression && *ast == Tree::Empty)),
        (single_ident_range(old(items)@, arrow as int + 1, old(items)@.len() as int) ==> (
        old(items)@[arrow as int + 1] matches Item::Token(tk) && leaf_tree_matches(
            r.type_,
            tk,
        ))),
        holes(r.type_) == 0,
        section_wf(r.type_),
{
    let ghost orig = items@;
    let end = items.len();
    let tree = precedence.resolve_non_section(items, arrow + 1);
    proof {
        lemma_items_toks_subrange_concat(orig, arrow as int, arrow as int + 1, orig.len() as int);
        lemma_items_toks_single(orig, arrow as int);
        assert(items@.last() == orig[arrow as int]);
        assert(items@.drop_last() =~= orig.subrange(0, arrow as int));
    }
    let arrow_token = pop_token(items);
    let type_ = match tree {
        Some(t) => t,
        None => empty_tree().with_error(SyntaxError::ExpectedExpression),
    };
    proof {
        if orig.len() == arrow + 1 {
            lemma_items_toks_empty(orig, arrow as int + 1);
        }
    }
    ReturnSpecification { arrow: arrow_token, type_ }
}


/// The structure of the pattern part of a slot, parsed from
/// `items[start..m]`: an empty region leaves an error-wrapped empty tree;
/// the suspension marker is taken exactly when the region starts with one;
/// a region that is one leaf token is that leaf.
pub open spec fn pattern_region_post(items: Seq<Item>, start: int, m: int, r: ArgumentDefinition) -> bool {
    &&& (m == start ==> (r.pattern matches Tree::Invalid { error, ast } && error
        == SyntaxError::ArgDefExpectedPattern && *ast == Tree::Empty) && r.suspension is None)
    &&& (m > start ==> ((is_token_of(items[start], Variant::SuspensionOperator) ==> (
    r.suspension matches Some(st) && (items[start] matches Item::Token(st0) && st == st0))) && (
    !is_token_of(items[start], Variant::SuspensionOperator) ==> r.suspension is None)))
    &&& (m == start + 1 ==> (items[start] matches Item::Token(tk) ==> (leaf_variant(tk@.variant)
        ==> leaf_tree_matches(r.pattern, tk))))
}

/// The structure of a parsed argument slot, as decided by the slot
/// analysis: an analysis error is attached to the resolved pattern with
/// every other part absent; otherwise the default and the (unparenthesized)
/// type annotation exist exactly as the analysis located them, carrying the
/// operator tokens from those positions.
pub open spec fn arg_slot_post(items: Seq<Item>, start: int, end: int, r: ArgumentDefinition) -> bool {
    let model = spec_analyze_arg_def(items, start, end);
    &&& (model matches Err(e) ==> (r.pattern matches Tree::Invalid { error, ast } && error == e)
        && r.suspension is None && r.type_ is None && r.default is None && r.open2 is None
        && r.close2 is None)
    &&& (model matches Ok(info) ==> {
        &&& (r.default is Some) == (info.default is Some)
        &&& (info.default matches Some(d) ==> (r.default matches Some(ad) && (
        items[d as int] matches Item::Token(t) && ad.equals == t)))
        &&& (info.type_ is None ==> r.type_ is None && r.open2 is None && r.close2 is None)
        &&& (info.default matches Some(d) ==> (d + 1 == end ==> (r.default matches Some(ad2)
            && (ad2.expression matches Tree::Invalid { error, ast } && error
            == SyntaxError::ExpectedExpression && *ast == Tree::Empty))))
        &&& (info.default matches Some(d) ==> (single_ident_range(items, d + 1, end) ==> (
        r.default matches Some(ad3) && (items[d as int + 1] matches Item::Token(tk)
            && leaf_tree_matches(ad3.expression, tk)))))
        &&& (info.type_ matches Some((p, tp)) ==> (p == IsParenthesized::Unparenthesized ==> (
        r.type_ matches Some(at) && (items[tp as int] matches Item::Token(t) && at.operator
            == t) && ({
            let m = (match info.default {
                Some(d) => d as int,
                None => end,
            });
            &&& (tp + 1 == m ==> (at.type_ matches Tree::Invalid { error, ast } && error
                == SyntaxError::ExpectedType && *ast == Tree::Empty))
            &&& (single_ident_range(items, tp + 1, m) ==> (
            items[tp as int + 1] matches Item::Token(tk3) && leaf_tree_matches(
                at.type_,
                tk3,
            )))
        })) && r.open2 is None && r.close2 is None))
        &&& (info.type_ matches Some((p, tp)) ==> (p == IsParenthesized::Parenthesized ==> ((
        match info.default {
            Some(d) => d as int,
            None => end,
        }) == start + 1 ==> (items[start as int] matches Item::Group { open, body, close } ==> (
        tp < body@.len() && is_token_of(body@[tp as int], Variant::TypeAnnotationOperator)
            ==> r.open2 == Some(open) && r.close2 == close && (r.type_ matches Some(at4) && (
        body@[tp as int] matches Item::Token(bt) && at4.operator == bt)))))))
        &&& (info.type_ is None && info.default is None ==> pattern_region_post(
            items,
            start,
            end,
            r,
        ))
        &&& (info.type_ is None ==> (info.default matches Some(d) ==> pattern_region_post(
            items,
            start,
            d as int,
            r,
        )))
        &&& (info.type_ matches Some((p, tp)) ==> (p == IsParenthesized::Unparenthesized
            ==> pattern_region_post(items, start, tp as int, r)))
    })
}

/// Everything `parse_arg_def` guarantees about one argument slot over
/// `items[start..end]`: token coverage, well-formedness, the bracket
/// unwrapping of a single-group slot, and the per-field structure of
/// `arg_slot_post`.
pub open spec fn arg_def_post(items: Seq<Item>, start: int, end: int, r: ArgumentDefinition) -> bool {
    &&& arg_toks(r) == items_toks(items.subrange(start, end))
    &&& arg_wf(r)
    &&& (end - start == 1 ==> (items[start] matches Item::Group { open, body, close } ==> r.open
        == Some(open) && r.close == close && arg_slot_post(body@, 0, body@.len() as int, r)))
    &&& (!(end - start == 1 && items[start] matches Item::Group { .. }) ==> r.open is None
        && r.close is None && arg_slot_post(items, start, end, r))
}

/// The slot analysis, the slot structure, and the whole-slot contract read
/// nothing outside `items[start..end]`: two sequences that agree there are
/// analyzed alike.
#[verifier::rlimit(100)]
pub proof fn lemma_arg_def_post_agree(
    a: Seq<Item>,
    b: Seq<Item>,
    start: int,
    end: int,
    r: ArgumentDefinition,
)
    requires
        0 <= start <= end <= a.len(),
        end <= b.len(),
        end <= usize::MAX,
        a.subrange(start, end) == b.subrange(start, end),
    ensures
        spec_analyze_arg_def(a, start, end) == spec_analyze_arg_def(b, start, end),
        arg_slot_post(a, start, end, r) == arg_slot_post(b, start, end, r),
        arg_def_post(a, start, end, r) == arg_def_post(b, start, end, r),
{
    let sub = a.subrange(start, end);
    assert forall|i: int| start <= i < end implies a[i] == b[i] by {
        assert(a[i] == sub[i - start]);
        assert(b[i] == b.subrange(start, end)[i - start]);
    }
    assert forall|d: int| start <= d <= end implies a.subrange(start, d) == b.subrange(
        start,
        d,
    ) by {
        assert(a.subrange(start, d) =~= b.subrange(start, d));
    }
    if start < end {
        assert(a[start] == b[start]);
    }
    match top_operator_kind(sub) {
        None => {
        },
        Some(v) => {
            if count_tokens_of(sub, v) >= 2 {
            } else if v == Variant::TypeAnnotationOperator {
                crate::statement::lemma_first_token_pos_in_range(sub, v);
            } else if v == Variant::AssignmentOperator {
                crate::statement::lemma_first_token_pos_in_range(sub, v);
                let d = start + first_token_pos(sub, v);
                assert(a[d] == b[d]);
                let left = a.subrange(start, d);
                assert(left == b.subrange(start, d));
                match top_operator_kind(left) {
                    None => {
                    },
                    Some(lv) => {
                        if count_tokens_of(left, lv) < 2 && lv
                            == Variant::TypeAnnotationOperator {
                            crate::statement::lemma_first_token_pos_in_range(left, lv);
                        }
                    },
                }
            } else {
            }
        },
    }
    assert(spec_analyze_arg_def(a, start, end) == spec_analyze_arg_def(b, start, end));
    match spec_analyze_arg_def(a, start, end) {
        Ok(info) => {
            match info.default {
                Some(d) => {
                    assert(a[d as int] == b[d as int]);
                },
                None => {
                },
            }
            match info.type_ {
                Some((p, tp)) => {
                    if p == IsParenthesized::Unparenthesized {
                        assert(a[tp as int] == b[tp as int]);
                    }
                },
                None => {
                },
            }
            assert(arg_slot_post(a, start, end, r) == arg_slot_post(b, start, end, r));
        },
        Err(e) => {
            assert(arg_slot_post(a, start, end, r) == arg_slot_post(b, start, end, r));
        },
    }
    assert(items_toks(a.subrange(start, end)) == items_toks(b.subrange(start, end)));
    assert(arg_def_post(a, start, end, r) == arg_def_post(b, start, end, r));
}

/// Parse one argument definition from `items[start..]`, draining it.  A
/// slot that is exactly one bracketed group is unwrapped, the brackets
/// becoming the argument's outer parentheses.  Every token of the slot
/// appears in the result, in source order.
#[verifier::rlimit(100)]
pub fn parse_arg_def(items: &mut Vec<Item>, start: usize, precedence: &mut Precedence) -> (r:
    ArgumentDefinition)
    requires
        start < old(items)@.len(),
    ensures
        final(items)@ == old(items)@.subrange(0, start as int),
        arg_toks(r) == items_toks(old(items)@.subrange(start as int, old(items)@.len() as int)),
        arg_wf(r),
        (old(items)@.len() - start == 1 ==> (old(items)@[start as int] matches Item::Group {
            open,
            body,
            close,
        } ==> r.open == Some(open) && r.close == close && arg_slot_post(
            body@,
            0,
            body@.len() as int,
            r,
        ))),
        (!(old(items)@.len() - start == 1 && old(items)@[start as int] matches Item::Group { .. })
            ==> r.open is None && r.close is None && arg_slot_post(
            old(items)@,
            start as int,
            old(items)@.len() as int,
            r,
        )),
        arg_def_post(old(items)@, start as int, old(items)@.len() as int, r),
{
    let ghost orig = items@;
    let mut is_single_group = false;
    if items.len() - start == 1 {
        match &items[start] {
            Item::Group { .. } => {
                is_single_group = true;
            },
            _ => {},
        }
    }
    if is_single_group {
        proof {
            lemma_items_toks_single(orig, start as int);
            assert(items@.last() == orig[start as int]);
            assert(items@.drop_last() =~= orig.subrange(0, start as int));
            assert(orig.subrange(start as int, orig.len() as int) =~= orig.subrange(
                start as int,
                start as int + 1,
            ));
        }
        let it = items.pop().unwrap();
        match it {
            Item::Group { open, body, close } => {
                let ghost openg = open;
                let ghost closeg = close;
                let ghost body0 = body@;
                let arg = parse_group_arg_def(open, body, close, precedence);
                proof {
                    assert(item_toks(orig[start as int]) == seq![openg@] + items_toks(body0)
                        + opt_tok_toks(closeg));
                    assert(arg_toks(arg) =~= items_toks(
                        orig.subrange(start as int, orig.len() as int),
                    ));
                }
                arg
            },
            _ => vstd::pervasive::unreached(),
        }
    } else {
        parse_arg_def_body(items, start, precedence)
    }
}

/// Parse an argument slot that was exactly one bracketed group: the
/// brackets become the argument's outer parentheses.  A group whose body
/// holds no top-level operator at all is a spurious pair of parentheses
/// around a plain pattern.
#[verifier::rlimit(100)]
#[verifier::spinoff_prover]
fn parse_group_arg_def(
    open: Token,
    body: Vec<Item>,
    close: Option<Token>,
    precedence: &mut Precedence,
) -> (r: ArgumentDefinition)
    ensures
        arg_toks(r) == seq![open@] + items_toks(body@) + opt_tok_toks(close),
        arg_wf(r),
        r.open == Some(open),
        r.close == close,
        arg_slot_post(body@, 0, body@.len() as int, r),
{
    let ghost openg = open;
    let ghost closeg = close;
    let ghost body0 = body@;
    let mut body = body;
    let mut arg = parse_arg_def_body(&mut body, 0, precedence);
    let ghost argb = arg;
    proof {
        assert(body0.subrange(0, body0.len() as int) =~= body0);
        assert(arg_toks(argb) == items_toks(body0));
    }
    arg.open = Some(open);
    arg.close = close;
    proof {
        crate::tree::lemma_arg_toks_set_parens(argb, openg, closeg, arg);
    }
    arg
}

/// Parse the body of an argument slot (without outer parentheses): its
/// optional default, optional type annotation (possibly bracketed), and
/// pattern, draining `items[start..]`.
#[verifier::rlimit(100)]
fn parse_arg_def_body(items: &mut Vec<Item>, start: usize, precedence: &mut Precedence) -> (r:
    ArgumentDefinition)
    requires
        start <= old(items)@.len(),
    ensures
        final(items)@ == old(items)@.subrange(0, start as int),
        arg_toks(r) == items_toks(old(items)@.subrange(start as int, old(items)@.len() as int)),
        arg_wf(r),
        arg_slot_post(old(items)@, start as int, old(items)@.len() as int, r),
        r.open is None,
        r.close is None,
{
    let ghost orig = items@;
    let end = items.len();
    let analysis = analyze_arg_def(items, start, end);
    let info = match analysis {
        Err(e) => {
            let pattern0 = precedence.resolve_non_section(items, start);
            let pattern = match pattern0 {
                Some(t) => t.with_error(e),
                None => {
                    proof {
                        lemma_items_toks_empty(orig, start as int);
                    }
                    empty_tree().with_error(e)
                },
            };
            return ArgumentDefinition {
                open: None,
                open2: None,
                suspension: None,
                pattern,
                type_: None,
                close2: None,
                default: None,
                close: None,
            };
        },
        Ok(info) => info,
    };
    let default = match info.default {
        Some(dpos) => Some(parse_arg_default(items, dpos, precedence)),
        None => None,
    };
    let ghost mid = items@.len() as int;
    proof {
        assert(items@ =~= orig.subrange(0, mid));
        assert((match default {
            Some(d) => seq![d.equals@] + tree_toks(d.expression),
            None => Seq::<TokM>::empty(),
        }) == items_toks(orig.subrange(mid, end as int)));
        lemma_items_toks_subrange_concat(orig, start as int, mid, end as int);
    }
    let (open2, close2, suspension, pattern_opt, type_) = parse_arg_slot_left(
        items,
        start,
        info.type_,
        precedence,
    );
    let pattern = match pattern_opt {
        Some(t) => t,
        None => empty_tree().with_error(SyntaxError::ArgDefExpectedPattern),
    };
    proof {
        assert(orig.subrange(0, mid).subrange(0, start as int) =~= orig.subrange(
            0,
            start as int,
        ));
        assert(orig.subrange(0, mid).subrange(start as int, mid) =~= orig.subrange(
            start as int,
            mid,
        ));
    }
    ArgumentDefinition {
        open: None,
        open2,
        suspension,
        pattern,
        type_,
        close2,
        default,
        close: None,
    }
}

/// Parse the default value of an argument slot: drain the assignment
/// operator at `items[dpos]` and the expression after it; a missing
/// expression becomes an error-wrapped empty tree.
fn parse_arg_default(items: &mut Vec<Item>, dpos: usize, precedence: &mut Precedence) -> (r:
    ArgumentDefault)
    requires
        dpos < old(items)@.len(),
        is_token_of(old(items)@[dpos as int], Variant::AssignmentOperator),
    ensures
        final(items)@ == old(items)@.subrange(0, dpos as int),
        seq![r.equals@] + tree_toks(r.expression) == items_toks(
            old(items)@.subrange(dpos as int, old(items)@.len() as int),
        ),
        r.equals@.variant == Variant::AssignmentOperator,
        (old(items)@[dpos as int] matches Item::Token(t) && r.equals == t),
        (old(items)@.len() == dpos + 1 ==> (r.expression matches Tree::Invalid { error, ast }
            && error == SyntaxError::ExpectedExpression && *ast == Tree::Empty)),
        (single_ident_range(old(items)@, dpos as int + 1, old(items)@.len() as int) ==> (
        old(items)@[dpos as int + 1] matches Item::Token(tk) && leaf_tree_matches(
            r.expression,
            tk,
        ))),
        holes(r.expression) == 0,
        section_wf(r.expression),
{
    let ghost orig = items@;
    let end = items.len();
    let tree = precedence.resolve(items, dpos + 1);
    proof {
        lemma_items_toks_subrange_concat(orig, dpos as int, dpos as int + 1, orig.len() as int);
        lemma_items_toks_single(orig, dpos as int);
        assert(items@.last() == orig[dpos as int]);
        assert(items@.drop_last() =~= orig.subrange(0, dpos as int));
    }
    let equals = pop_token(items);
    let expression = match tree {
        Some(t) => t,
        None => {
            proof {
                lemma_items_toks_empty(orig, dpos as int + 1);
            }
            empty_tree().with_error(SyntaxError::ExpectedExpression)
        },
    };
    ArgumentDefault { equals, expression }
}

/// Parse the pattern-and-type part of an argument slot, draining
/// `items[start..]`: either a bracketed pattern-with-type (the inner pair
/// of parentheses), an unbracketed type annotation, or a bare pattern.
#[verifier::rlimit(100)]
fn parse_arg_slot_left(
    items: &mut Vec<Item>,
    start: usize,
    info_type: Option<(IsParenthesized, usize)>,
    precedence: &mut Precedence,
) -> (r: (Option<Token>, Option<Token>, Option<Token>, Option<Tree>, Option<ArgumentType>))
    requires
        start <= old(items)@.len(),
        (info_type matches Some((p, t)) ==> (p == IsParenthesized::Unparenthesized ==> t
            < old(items)@.len() && is_token_of(
            old(items)@[t as int],
            Variant::TypeAnnotationOperator,
        ) && start <= t)),
    ensures
        ({
            let (open2, close2, susp, pat, type_) = r;
            &&& final(items)@ == old(items)@.subrange(0, start as int)
            &&& opt_tok_toks(open2) + opt_tok_toks(susp) + (match pat {
                Some(t) => tree_toks(t),
                None => Seq::<TokM>::empty(),
            }) + (match type_ {
                Some(ty) => seq![ty.operator@] + tree_toks(ty.type_),
                None => Seq::<TokM>::empty(),
            }) + opt_tok_toks(close2) == items_toks(
                old(items)@.subrange(start as int, old(items)@.len() as int),
            )
            &&& (match pat {
                Some(t) => holes(t) == 0 && section_wf(t),
                None => true,
            })
            &&& (match type_ {
                Some(ty) => holes(ty.type_) == 0 && section_wf(ty.type_),
                None => true,
            })
            &&& (info_type is None ==> type_ is None && open2 is None && close2 is None)
            &&& (info_type matches Some((p, tp)) ==> (p == IsParenthesized::Parenthesized ==> ((
            old(items)@.len() - start == 1 ==> (old(items)@[start as int] matches Item::Group {
                open,
                body,
                close,
            } ==> (tp < body@.len() && is_token_of(
                body@[tp as int],
                Variant::TypeAnnotationOperator,
            ) ==> open2 == Some(open) && close2 == close && (type_ matches Some(ty) && (
            body@[tp as int] matches Item::Token(bt) && ty.operator == bt))))))))
            &&& (info_type is None && single_ident_range(
                old(items)@,
                start as int,
                old(items)@.len() as int,
            ) ==> susp is None && (pat matches Some(t) && (
            old(items)@[start as int] matches Item::Token(tk) && leaf_tree_matches(t, tk))))
            &&& (info_type is None ==> ((start == old(items)@.len() ==> susp is None && pat
                is None) && (start < old(items)@.len() ==> ((is_token_of(
                old(items)@[start as int],
                Variant::SuspensionOperator,
            ) ==> (susp matches Some(st) && (old(items)@[start as int] matches Item::Token(st0)
                && st == st0))) && (!is_token_of(
                old(items)@[start as int],
                Variant::SuspensionOperator,
            ) ==> susp is None)))))
            &&& (info_type matches Some((p, tp)) ==> (p == IsParenthesized::Unparenthesized
                ==> ((tp == start ==> susp is None && pat is None) && (tp > start ==> ((
            is_token_of(old(items)@[start as int], Variant::SuspensionOperator) ==> (
            susp matches Some(st) && (old(items)@[start as int] matches Item::Token(st0) && st
                == st0))) && (!is_token_of(
                old(items)@[start as int],
                Variant::SuspensionOperator,
            ) ==> susp is None))) && (tp == start + 1 ==> (
            old(items)@[start as int] matches Item::Token(tk0) ==> (leaf_variant(tk0@.variant)
                ==> susp is None && (pat matches Some(t0) && leaf_tree_matches(t0, tk0))))))))
            &&& (info_type matches Some((p, tp)) ==> (p == IsParenthesized::Unparenthesized
                ==> (type_ matches Some(ty) && (
                old(items)@[tp as int] matches Item::Token(t) && ty.operator == t) && (tp + 1
                    == old(items)@.len() ==> (ty.type_ matches Tree::Invalid { error, ast }
                    && error == SyntaxError::ExpectedType && *ast == Tree::Empty)) && (
                single_ident_range(old(items)@, tp as int + 1, old(items)@.len() as int) ==> (
                old(items)@[tp as int + 1] matches Item::Token(tk2) && leaf_tree_matches(
                    ty.type_,
                    tk2,
                )))) && open2 is None && close2 is None))
        }),
{
    let ghost orig = items@;
    let mut open2: Option<Token> = None;
    let mut close2: Option<Token> = None;
    let mut suspension: Option<Token> = None;
    let mut pattern_opt: Option<Tree> = None;
    let mut type_: Option<ArgumentType> = None;
    match info_type {
        Some((paren, tpos)) => {
            let mut use_group = false;
            if matches!(paren, IsParenthesized::Parenthesized) {
                if items.len() - start == 1 {
                    match &items[start] {
                        Item::Group { .. } => {
                            use_group = true;
                        },
                        _ => {},
                    }
                }
            }
            if use_group {
                proof {
                    lemma_items_toks_single(orig, start as int);
                    assert(items@.last() == orig[start as int]);
                    assert(items@.drop_last() =~= orig.subrange(0, start as int));
                    assert(orig.subrange(start as int, orig.len() as int) =~= orig.subrange(
                        start as int,
                        start as int + 1,
                    ));
                }
                let it = items.pop().unwrap();
                match it {
                    Item::Group { open, body, close } => {
                        let ghost openg = open;
                        let ghost closeg = close;
                        let ghost inner0 = body@;
                        let mut inner = body;
                        let mut inner_type: Option<ArgumentType> = None;
                        if tpos < inner.len() {
                            let is_type_op = match &inner[tpos] {
                                Item::Token(t) => matches!(
                                    t.variant,
                                    Variant::TypeAnnotationOperator
                                ),
                                _ => false,
                            };
                            if is_type_op {
                                let (ty, op, susp, pat) = parse_type_and_pattern(
                                    &mut inner,
                                    0,
                                    tpos,
                                    precedence,
                                );
                                suspension = susp;
                                pattern_opt = pat;
                                inner_type = Some(ArgumentType { operator: op, type_: ty });
                            } else {
                                let (susp, pat) = parse_pattern(&mut inner, 0, precedence);
                                suspension = susp;
                                pattern_opt = pat;
                            }
                        } else {
                            let (susp, pat) = parse_pattern(&mut inner, 0, precedence);
                            suspension = susp;
                            pattern_opt = pat;
                        }
                        type_ = inner_type;
                        proof {
                            assert(inner@ =~= Seq::<Item>::empty());
                            assert(inner0.subrange(0, inner0.len() as int) =~= inner0);
                            assert(opt_tok_toks(suspension) + (match pattern_opt {
                                Some(t) => tree_toks(t),
                                None => Seq::<TokM>::empty(),
                            }) + (match type_ {
                                Some(ty) => seq![ty.operator@] + tree_toks(ty.type_),
                                None => Seq::<TokM>::empty(),
                            }) == items_toks(inner0));
                        }
                        open2 = Some(open);
                        close2 = close;
                        proof {
                            assert(item_toks(orig[start as int]) == seq![openg@] + items_toks(
                                inner0,
                            ) + opt_tok_toks(closeg));
                            assert(opt_tok_toks(open2) + opt_tok_toks(suspension) + (
                            match pattern_opt {
                                Some(t) => tree_toks(t),
                                None => Seq::<TokM>::empty(),
                            }) + (match type_ {
                                Some(ty) => seq![ty.operator@] + tree_toks(ty.type_),
                                None => Seq::<TokM>::empty(),
                            }) + opt_tok_toks(close2) =~= items_toks(
                                orig.subrange(start as int, orig.len() as int),
                            ));
                        }
                    },
                    _ => vstd::pervasive::unreached(),
                }
            } else {
                if matches!(paren, IsParenthesized::Unparenthesized) {
                    let (ty, op, susp, pat) = parse_type_and_pattern(
                        items,
                        start,
                        tpos,
                        precedence,
                    );
                    suspension = susp;
                    pattern_opt = pat;
                    type_ = Some(ArgumentType { operator: op, type_: ty });
                } else {
                    let (susp, pat) = parse_pattern(items, start, precedence);
                    suspension = susp;
                    pattern_opt = pat;
                }
            }
        },
        None => {
            let (susp, pat) = parse_pattern(items, start, precedence);
            suspension = susp;
            pattern_opt = pat;
        },
    }
    (open2, close2, suspension, pattern_opt, type_)
}

/// Parse a type annotation at `items[tpos]` and the pattern before it,
/// draining `items[start..]`: the type is everything after the annotation
/// operator (an error-wrapped empty tree when missing), the pattern
/// everything before it.
fn parse_type_and_pattern(
    items: &mut Vec<Item>,
    start: usize,
    tpos: usize,
    precedence: &mut Precedence,
) -> (r: (Tree, Token, Option<Token>, Option<Tree>))
    requires
        start <= tpos < old(items)@.len(),
        is_token_of(old(items)@[tpos as int], Variant::TypeAnnotationOperator),
    ensures
        final(items)@ == old(items)@.subrange(0, start as int),
        ({
            let (ty, op, susp, pat) = r;
            &&& opt_tok_toks(susp) + (match pat {
                Some(t) => tree_toks(t),
                None => Seq::empty(),
            }) + seq![op@] + tree_toks(ty) == items_toks(
                old(items)@.subrange(start as int, old(items)@.len() as int),
            )
            &&& op@.variant == Variant::TypeAnnotationOperator
            &&& (old(items)@[tpos as int] matches Item::Token(t) && op == t)
            &&& (old(items)@.len() == tpos + 1 ==> (ty matches Tree::Invalid { error, ast }
                && error == SyntaxError::ExpectedType && *ast == Tree::Empty))
            &&& (single_ident_range(old(items)@, tpos as int + 1, old(items)@.len() as int)
                ==> (old(items)@[tpos as int + 1] matches Item::Token(tk) && leaf_tree_matches(
                ty,
                tk,
            )))
            &&& (tpos == start ==> susp is None && pat is None)
            &&& (tpos > start ==> ((is_token_of(
                old(items)@[start as int],
                Variant::SuspensionOperator,
            ) ==> (susp matches Some(st) && (old(items)@[start as int] matches Item::Token(st0)
                && st == st0))) && (!is_token_of(
                old(items)@[start as int],
                Variant::SuspensionOperator,
            ) ==> susp is None)))
            &&& (tpos == start + 1 ==> (old(items)@[start as int] matches Item::Token(tk0) ==> (
            leaf_variant(tk0@.variant) ==> susp is None && (pat matches Some(t0)
                && leaf_tree_matches(t0, tk0)))))
            &&& section_wf(ty) && holes(ty) == 0
            &&& (match pat {
                Some(t) => section_wf(t) && holes(t) == 0,
                None => true,
            })
        }),
{
    let ghost orig = items@;
    let end = items.len();
    let tree = precedence.resolve_non_section(items, tpos + 1);
    proof {
        lemma_items_toks_subrange_concat(orig, tpos as int, tpos as int + 1, end as int);
        lemma_items_toks_single(orig, tpos as int);
        assert(items@.last() == orig[tpos as int]);
        assert(items@.drop_last() =~= orig.subrange(0, tpos as int));
    }
    let operator = pop_token(items);
    let ty = match tree {
        Some(t) => t,
        None => {
            proof {
                lemma_items_toks_empty(orig, tpos as int + 1);
            }
            empty_tree().with_error(SyntaxError::ExpectedType)
        },
    };
    let ghost mid = items@;
    let (susp, pat) = parse_pattern(items, start, precedence);
    proof {
        assert(mid =~= orig.subrange(0, tpos as int));
        assert(mid.subrange(0, start as int) =~= orig.subrange(0, start as int));
        assert(mid.subrange(start as int, mid.len() as int) =~= orig.subrange(
            start as int,
            tpos as int,
        ));
        lemma_items_toks_subrange_concat(orig, start as int, tpos as int, end as int);
    }
    (ty, operator, susp, pat)
}


/// How many argument slots begin in `s[low..end]`: the first scanned
/// position always starts one, and after it every spaced item boundary
/// does.
pub open spec fn count_arg_starts(s: Seq<Item>, low: int, end: int) -> nat
    decreases end - low,
{
    if end <= low {
        0
    } else {
        count_arg_starts(s, low, end - 1) + (if end - 1 == low || spec_spacing_of_item(
            s[end - 1],
        ) == Spacing::Spaced {
            1nat
        } else {
            0nat
        })
    }
}

/// How many type-style argument slots begin in `s[p..end]`, scanning with
/// the expecting-right-hand-side rule: the item after an assignment
/// operator continues the same slot, so a default value does not open a
/// new one.
pub open spec fn count_type_arg_starts(s: Seq<Item>, p: int, end: int, expecting_rhs: bool) -> nat
    decreases end - p,
{
    if p >= end {
        0
    } else if expecting_rhs {
        count_type_arg_starts(s, p + 1, end, false)
    } else if is_token_of(s[p], Variant::AssignmentOperator) {
        count_type_arg_starts(s, p + 1, end, true)
    } else if spec_spacing_of_item(s[p]) == Spacing::Spaced {
        1 + count_type_arg_starts(s, p + 1, end, false)
    } else {
        count_type_arg_starts(s, p + 1, end, false)
    }
}

/// The positions where argument slots begin in `s[low..end]`: the first
/// scanned position, and after it every spaced item boundary, in order.
pub open spec fn arg_starts_seq(s: Seq<Item>, low: int, end: int) -> Seq<int>
    decreases end - low,
{
    if end <= low {
        Seq::empty()
    } else {
        arg_starts_seq(s, low, end - 1) + (if end - 1 == low || spec_spacing_of_item(s[end - 1])
            == Spacing::Spaced {
            seq![end - 1]
        } else {
            Seq::empty()
        })
    }
}

/// The slot positions and the slot count agree.
pub proof fn lemma_arg_starts_seq_len(s: Seq<Item>, low: int, end: int)
    ensures
        arg_starts_seq(s, low, end).len() == count_arg_starts(s, low, end),
    decreases end - low,
{
    if end <= low {
    } else {
        lemma_arg_starts_seq_len(s, low, end - 1);
    }
}

/// The positions where type-style argument slots begin in `s[p..end]`,
/// scanning with the expecting-right-hand-side rule.
pub open spec fn type_arg_starts_seq(s: Seq<Item>, p: int, end: int, expecting_rhs: bool) -> Seq<
    int,
>
    decreases end - p,
{
    if p >= end {
        Seq::empty()
    } else if expecting_rhs {
        type_arg_starts_seq(s, p + 1, end, false)
    } else if is_token_of(s[p], Variant::AssignmentOperator) {
        type_arg_starts_seq(s, p + 1, end, true)
    } else if spec_spacing_of_item(s[p]) == Spacing::Spaced {
        seq![p] + type_arg_starts_seq(s, p + 1, end, false)
    } else {
        type_arg_starts_seq(s, p + 1, end, false)
    }
}

/// The type-style scan reads nothing outside `s[p..end]`: two sequences
/// that agree there scan alike.
pub proof fn lemma_type_scan_agree(a: Seq<Item>, b: Seq<Item>, p: int, end: int, e: bool)
    requires
        end <= a.len(),
        end <= b.len(),
        forall|i: int| p <= i < end ==> a[i] == b[i],
    ensures
        type_arg_starts_seq(a, p, end, e) == type_arg_starts_seq(b, p, end, e),
        count_type_arg_starts(a, p, end, e) == count_type_arg_starts(b, p, end, e),
    decreases end - p,
{
    if p >= end {
    } else {
        assert(a[p] == b[p]);
        lemma_type_scan_agree(a, b, p + 1, end, false);
        lemma_type_scan_agree(a, b, p + 1, end, true);
    }
}

/// The type-style scan's start positions lie in the scanned range, in
/// strictly increasing order.
pub proof fn lemma_type_starts_seq_props(s: Seq<Item>, p: int, end: int, e: bool)
    ensures
        forall|j: int|
            0 <= j < type_arg_starts_seq(s, p, end, e).len() ==> p <= #[trigger] type_arg_starts_seq(
                s,
                p,
                end,
                e,
            )[j] < end,
        forall|j1: int, j2: int|
            0 <= j1 < j2 < type_arg_starts_seq(s, p, end, e).len() ==> type_arg_starts_seq(
                s,
                p,
                end,
                e,
            )[j1] < type_arg_starts_seq(s, p, end, e)[j2],
    decreases end - p,
{
    if p >= end {
    } else {
        lemma_type_starts_seq_props(s, p + 1, end, false);
        lemma_type_starts_seq_props(s, p + 1, end, true);
        let whole = type_arg_starts_seq(s, p, end, e);
        if e {
            assert(whole == type_arg_starts_seq(s, p + 1, end, false));
        } else if is_token_of(s[p], Variant::AssignmentOperator) {
            assert(whole == type_arg_starts_seq(s, p + 1, end, true));
        } else if spec_spacing_of_item(s[p]) != Spacing::Spaced {
            assert(whole == type_arg_starts_seq(s, p + 1, end, false));
        }
        if !e && !is_token_of(s[p], Variant::AssignmentOperator) && spec_spacing_of_item(s[p])
            == Spacing::Spaced {
            let rest = type_arg_starts_seq(s, p + 1, end, false);
            assert(whole == seq![p] + rest);
            assert forall|j: int| 0 <= j < whole.len() implies p <= #[trigger] whole[j] < end by {
                if j == 0 {
                    assert(whole[0] == p);
                } else {
                    assert(whole[j] == rest[j - 1]);
                }
            }
            assert forall|j1: int, j2: int| 0 <= j1 < j2 < whole.len() implies whole[j1]
                < whole[j2] by {
                if j1 == 0 {
                    assert(whole[j2] == rest[j2 - 1]);
                } else {
                    assert(whole[j1] == rest[j1 - 1]);
                    assert(whole[j2] == rest[j2 - 1]);
                }
            }
        }
    }
}

/// The type-style scan's positions and its count agree.
pub proof fn lemma_type_starts_seq_len(s: Seq<Item>, p: int, end: int, e: bool)
    ensures
        type_arg_starts_seq(s, p, end, e).len() == count_type_arg_starts(s, p, end, e),
    decreases end - p,
{
    if p >= end {
    } else {
        lemma_type_starts_seq_len(s, p + 1, end, false);
        lemma_type_starts_seq_len(s, p + 1, end, true);
    }
}

/// Candidate argument starts are strictly increasing positions within the
/// range being scanned.
pub open spec fn starts_ok(starts: Seq<usize>, end: int) -> bool {
    &&& forall|k: int| 0 <= k < starts.len() ==> #[trigger] starts[k] < end
    &&& forall|k1: int, k2: int| 0 <= k1 < k2 < starts.len() ==> starts[k1] < starts[k2]
}

/// Parse the argument slots that begin at the given positions, right to
/// left (each parse drains the items to the end), then restore source
/// order.  The scratch buffer amortizes allocations and is left drained.
fn parse_args_right_to_left(
    items: &mut Vec<Item>,
    arg_starts: &Vec<usize>,
    precedence: &mut Precedence,
    args_buffer: &mut Vec<ArgumentDefinition>,
) -> (args: Vec<ArgumentDefinition>)
    requires
        old(args_buffer)@.len() == 0,
        starts_ok(arg_starts@, old(items)@.len() as int),
    ensures
        final(args_buffer)@.len() == 0,
        args_wf(args@),
        args@.len() == arg_starts@.len(),
        forall|k: int|
            0 <= k < args@.len() ==> arg_def_post(
                old(items)@,
                arg_starts@[k] as int,
                (if k + 1 < arg_starts@.len() {
                    arg_starts@[k + 1] as int
                } else {
                    old(items)@.len() as int
                }),
                #[trigger] args@[k],
            ),
        arg_starts@.len() == 0 ==> final(items)@ == old(items)@ && args@.len() == 0,
        arg_starts@.len() > 0 ==> final(items)@ == old(items)@.subrange(
            0,
            arg_starts@[0] as int,
        ) && args_toks(args@) == items_toks(
            old(items)@.subrange(arg_starts@[0] as int, old(items)@.len() as int),
        ),
{
    let ghost orig = items@;
    let ghost end = orig.len() as int;
    let total = items.len();
    proof {
        assert(end <= usize::MAX);
    }
    let mut k = arg_starts.len();
    proof {
        assert(orig.subrange(end, end) =~= Seq::<Item>::empty());
    }
    while k > 0
        invariant
            k <= arg_starts@.len(),
            starts_ok(arg_starts@, end),
            orig.len() == end,
            end <= usize::MAX,
            items@ == (if k == arg_starts@.len() {
                orig
            } else {
                orig.subrange(0, arg_starts@[k as int] as int)
            }),
            rev_args_toks(args_buffer@) == items_toks(
                orig.subrange(
                    (if k == arg_starts@.len() {
                        end
                    } else {
                        arg_starts@[k as int] as int
                    }),
                    end,
                ),
            ),
            args_buffer@.len() + k == arg_starts@.len(),
            forall|i: int|
                0 <= i < args_buffer@.len() ==> arg_wf(#[trigger] args_buffer@[i]),
            forall|i: int|
                0 <= i < args_buffer@.len() ==> arg_def_post(
                    orig,
                    arg_starts@[arg_starts@.len() - 1 - i] as int,
                    (if arg_starts@.len() - i < arg_starts@.len() {
                        arg_starts@[arg_starts@.len() - i] as int
                    } else {
                        end
                    }),
                    #[trigger] args_buffer@[i],
                ),
        decreases k,
    {
        k = k - 1;
        let s = arg_starts[k];
        let ghost upper: int = if k + 1 == arg_starts@.len() {
            end
        } else {
            arg_starts@[k as int + 1] as int
        };
        proof {
            assert(s < upper);
            assert(items@.len() == upper);
            assert(items@.subrange(0, s as int) =~= orig.subrange(0, s as int));
            assert(items@.subrange(s as int, upper) =~= orig.subrange(s as int, upper));
        }
        let ghost pre_items = items@;
        let arg = parse_arg_def(items, s, precedence);
        proof {
            lemma_items_toks_subrange_concat(orig, s as int, upper, end);
        }
        let ghost prevbuf = args_buffer@;
        proof {
            assert(pre_items.len() == upper);
            assert(pre_items.subrange(s as int, upper) =~= orig.subrange(s as int, upper));
            assert(arg_def_post(pre_items, s as int, upper, arg));
            lemma_arg_def_post_agree(pre_items, orig, s as int, upper, arg);
            assert(arg_def_post(orig, s as int, upper, arg));
        }
        args_buffer.push(arg);
        proof {
            assert(items@ =~= orig.subrange(0, s as int));
            assert(args_buffer@.last() == arg);
            assert(args_buffer@.drop_last() =~= prevbuf);
            assert(rev_args_toks(args_buffer@) == arg_toks(arg) + rev_args_toks(prevbuf));
            assert(rev_args_toks(args_buffer@) == items_toks(orig.subrange(s as int, end)));
        }
    }
    let mut args: Vec<ArgumentDefinition> = Vec::new();
    let ghost lower: int = if arg_starts@.len() == 0 {
        end
    } else {
        arg_starts@[0] as int
    };
    while args_buffer.len() > 0
        invariant
            args@.len() + args_buffer@.len() == arg_starts@.len(),
            args_toks(args@) + rev_args_toks(args_buffer@) == items_toks(
                orig.subrange(lower, end),
            ),
            forall|i: int| 0 <= i < args@.len() ==> arg_wf(#[trigger] args@[i]),
            forall|i: int|
                0 <= i < args_buffer@.len() ==> arg_wf(#[trigger] args_buffer@[i]),
            forall|i: int|
                0 <= i < args_buffer@.len() ==> arg_def_post(
                    orig,
                    arg_starts@[arg_starts@.len() - 1 - i] as int,
                    (if arg_starts@.len() - i < arg_starts@.len() {
                        arg_starts@[arg_starts@.len() - i] as int
                    } else {
                        end
                    }),
                    #[trigger] args_buffer@[i],
                ),
            forall|i: int|
                0 <= i < args@.len() ==> arg_def_post(
                    orig,
                    arg_starts@[i] as int,
                    (if i + 1 < arg_starts@.len() {
                        arg_starts@[i + 1] as int
                    } else {
                        end
                    }),
                    #[trigger] args@[i],
                ),
        decreases args_buffer@.len(),
    {
        let ghost before = args_buffer@;
        let a = args_buffer.pop().unwrap();
        proof {
            assert(before.last() == a);
            assert(before.drop_last() =~= args_buffer@);
            lemma_args_toks_push(args@, a);
        }
        args.push(a);
    }
    proof {
        assert(rev_args_toks(Seq::<ArgumentDefinition>::empty()) == Seq::<TokM>::empty());
        assert(args_toks(args@) + Seq::<TokM>::empty() =~= args_toks(args@));
        if arg_starts@.len() == 0 {
            assert(args@.len() == 0);
            assert(items@ == orig);
        }
    }
    args
}


/// Parse a function declaration from `items[start..]`, draining it: the
/// first `qn_len` items are the qualified-name segments; after them, every
/// spaced item boundary starts an argument, and a trailing `->` marks the
/// return type.  The name tree, the arguments in source order, and the
/// return specification cover, in that order, exactly the drained tokens.
#[verifier::rlimit(100)]
#[verifier::spinoff_prover]
pub fn parse_function_decl(
    items: &mut Vec<Item>,
    start: usize,
    qn_len: usize,
    precedence: &mut Precedence,
    args_buffer: &mut Vec<ArgumentDefinition>,
) -> (r: (Tree, Vec<ArgumentDefinition>, Option<ReturnSpecification>))
    requires
        1 <= qn_len,
        start + qn_len <= old(items)@.len(),
        old(args_buffer)@.len() == 0,
    ensures
        final(items)@ == old(items)@.subrange(0, start as int),
        final(args_buffer)@.len() == 0,
        ({
            let (qn, args, ret) = r;
            &&& tree_toks(qn) + args_toks(args@) + crate::tree::opt_ret_toks(ret) == items_toks(
                old(items)@.subrange(start as int, old(items)@.len() as int),
            )
            &&& holes(qn) == 0 && section_wf(qn)
            &&& args_wf(args@)
            &&& (ret is Some) == (count_tokens_of(
                old(items)@.subrange((start + qn_len) as int, old(items)@.len() as int),
                Variant::ArrowOperator,
            ) > 0)
            &&& ({
                let lowb0 = (start + qn_len) as int;
                let total = old(items)@.len() as int;
                let tail = old(items)@.subrange(lowb0, total);
                let scan_stop = if count_tokens_of(tail, Variant::ArrowOperator) > 0 {
                    lowb0 + first_token_pos(tail, Variant::ArrowOperator)
                } else {
                    total
                };
                let starts = arg_starts_seq(old(items)@, lowb0, scan_stop);
                args@.len() == count_arg_starts(old(items)@, lowb0, scan_stop) && forall|k: int|
                    0 <= k < args@.len() ==> arg_def_post(
                        old(items)@,
                        starts[k],
                        (if k + 1 < starts.len() {
                            starts[k + 1]
                        } else {
                            scan_stop
                        }),
                        #[trigger] args@[k],
                    )
            })
            &&& (qn_len == 1 ==> (old(items)@[start as int] matches Item::Token(tk) ==> (
            leaf_variant(tk@.variant) ==> leaf_tree_matches(qn, tk))))
            &&& (match ret {
                Some(spec) => spec.arrow@.variant == Variant::ArrowOperator && holes(spec.type_)
                    == 0 && section_wf(spec.type_),
                None => true,
            })
        }),
{
    let ghost orig = items@;
    let len = items.len();
    let lowb = start + qn_len;
    let mut arg_starts: Vec<usize> = Vec::new();
    let mut arrow: Option<usize> = None;
    let mut i = lowb;
    let mut done = false;
    proof {
        assert(orig.subrange(lowb as int, lowb as int) =~= Seq::<Item>::empty());
    }
    while i < len && !done
        invariant
            lowb <= i <= len,
            len == orig.len(),
            items@ == orig,
            (arrow is None ==> count_tokens_of(
                orig.subrange(lowb as int, i as int),
                Variant::ArrowOperator,
            ) == 0),
            (match arrow {
                Some(a) => lowb <= a < len && is_token_of(orig[a as int], Variant::ArrowOperator)
                    && a == i && done && count_tokens_of(
                    orig.subrange(lowb as int, a as int),
                    Variant::ArrowOperator,
                ) == 0,
                None => true,
            }),
            (!done ==> arrow is None),
            (done ==> arrow is Some),
            (i > lowb ==> arg_starts@.len() > 0 && arg_starts@[0] == lowb),
            arg_starts@.len() == count_arg_starts(orig, lowb as int, i as int),
            arg_starts@.map_values(|x: usize| x as int) == arg_starts_seq(
                orig,
                lowb as int,
                i as int,
            ),
            forall|k: int| 0 <= k < arg_starts@.len() ==> lowb <= #[trigger] arg_starts@[k] < i,
            forall|k1: int, k2: int|
                0 <= k1 < k2 < arg_starts@.len() ==> arg_starts@[k1] < arg_starts@[k2],
        decreases len - i + (if done {
            0int
        } else {
            1int
        }),
    {
        proof {
            assert(orig.subrange(lowb as int, i as int + 1) =~= orig.subrange(
                lowb as int,
                i as int,
            ).push(orig[i as int]));
            lemma_count_tokens_push(
                orig.subrange(lowb as int, i as int),
                orig[i as int],
                Variant::ArrowOperator,
            );
        }
        let is_arrow = match &items[i] {
            Item::Token(t) => matches!(t.variant, Variant::ArrowOperator),
            _ => false,
        };
        if is_arrow {
            arrow = Some(i);
            done = true;
        } else {
            let ghost prev_map = arg_starts@.map_values(|x: usize| x as int);
            let spaced = matches!(Spacing::of_item(&items[i]), Spacing::Spaced);
            if i == lowb || spaced {
                arg_starts.push(i);
                proof {
                    assert(arg_starts@.map_values(|x: usize| x as int) =~= prev_map.push(
                        i as int,
                    ));
                }
            }
            i = i + 1;
        }
    }
    proof {
        let whole = orig.subrange(lowb as int, len as int);
        match arrow {
            Some(a) => {
                lemma_count_tokens_split(whole, a - lowb, Variant::ArrowOperator);
                assert(whole.subrange(a - lowb, whole.len() as int) =~= orig.subrange(
                    a as int,
                    len as int,
                ));
                let tail = orig.subrange(a as int, len as int);
                assert(tail[0] == orig[a as int]);
                assert(count_tokens_of(tail, Variant::ArrowOperator) >= 1);
                assert(whole.subrange(0, a - lowb) =~= orig.subrange(lowb as int, a as int));
                assert(whole[a - lowb] == orig[a as int]);
                crate::statement::lemma_first_token_pos_here(
                    whole,
                    a - lowb,
                    Variant::ArrowOperator,
                );
                assert(i == a);
            },
            None => {
                assert(orig.subrange(lowb as int, i as int) =~= whole);
            },
        }
    }
    let ret = match arrow {
        Some(a) => Some(parse_return_spec(items, a, precedence)),
        None => None,
    };
    let ghost scan_end = items@.len() as int;
    proof {
        assert(items@ =~= orig.subrange(0, scan_end));
        assert((match ret {
            Some(spec) => seq![spec.arrow@] + tree_toks(spec.type_),
            None => Seq::<TokM>::empty(),
        }) == items_toks(orig.subrange(scan_end, orig.len() as int)));
        assert(starts_ok(arg_starts@, scan_end));
    }
    let ghost before_args = items@;
    let args = parse_args_right_to_left(items, &arg_starts, precedence, args_buffer);
    let ghost args_low: int = if arg_starts@.len() == 0 {
        scan_end
    } else {
        arg_starts@[0] as int
    };
    proof {
        assert(items@ =~= orig.subrange(0, args_low));
        assert(before_args.subrange(args_low, scan_end) =~= orig.subrange(args_low, scan_end));
        assert(args_toks(args@) == items_toks(orig.subrange(args_low, scan_end)));
        assert(items@.subrange(start as int, args_low) =~= orig.subrange(start as int, args_low));
        assert(items@.subrange(0, start as int) =~= orig.subrange(0, start as int));
        let ghost starts = arg_starts_seq(orig, lowb as int, scan_end);
        assert(arg_starts@.map_values(|x: usize| x as int) == starts);
        assert forall|k: int| 0 <= k < args@.len() implies arg_def_post(
            orig,
            starts[k],
            (if k + 1 < starts.len() {
                starts[k + 1]
            } else {
                scan_end
            }),
            #[trigger] args@[k],
        ) by {
            assert(starts[k] == arg_starts@[k] as int);
            let hi: int = if k + 1 < starts.len() {
                starts[k + 1]
            } else {
                scan_end
            };
            assert(arg_def_post(before_args, starts[k], hi, args@[k]));
            assert(before_args.subrange(starts[k], hi) =~= orig.subrange(starts[k], hi));
            lemma_arg_def_post_agree(before_args, orig, starts[k], hi, args@[k]);
        }
    }
    proof {
        assert(args_low == lowb as int);
        assert(items@[start as int] == orig[start as int]);
    }
    let qn_tree = precedence.resolve_non_section(items, start);
    let qn = match qn_tree {
        Some(t) => t,
        None => vstd::pervasive::unreached(),
    };
    proof {
        lemma_items_toks_subrange_concat(orig, start as int, args_low, scan_end);
        lemma_items_toks_subrange_concat(orig, start as int, scan_end, orig.len() as int);
    }
    (qn, args, ret)
}

/// Parse type-style arguments from `items[start..]`, draining it: every
/// spaced boundary starts an argument, except that the item after an
/// assignment operator continues the same slot, so that a default value
/// occupies one argument rather than two.
pub fn parse_type_args(
    items: &mut Vec<Item>,
    start: usize,
    precedence: &mut Precedence,
    args_buffer: &mut Vec<ArgumentDefinition>,
) -> (args: Vec<ArgumentDefinition>)
    requires
        start <= old(items)@.len(),
        old(args_buffer)@.len() == 0,
    ensures
        final(items)@ == old(items)@.subrange(0, start as int),
        final(args_buffer)@.len() == 0,
        args_toks(args@) == items_toks(
            old(items)@.subrange(start as int, old(items)@.len() as int),
        ),
        args_wf(args@),
        args@.len() == (if start == old(items)@.len() {
            0nat
        } else {
            1 + count_type_arg_starts(
                old(items)@,
                start as int + 1,
                old(items)@.len() as int,
                false,
            )
        }),
        (start < old(items)@.len() ==> ({
            let starts = seq![start as int] + type_arg_starts_seq(
                old(items)@,
                start as int + 1,
                old(items)@.len() as int,
                false,
            );
            args@.len() == starts.len() && forall|k: int|
                0 <= k < args@.len() ==> arg_def_post(
                    old(items)@,
                    starts[k],
                    (if k + 1 < starts.len() {
                        starts[k + 1]
                    } else {
                        old(items)@.len() as int
                    }),
                    #[trigger] args@[k],
                )
        })),
{
    let ghost orig = items@;
    let len = items.len();
    if start == len {
        proof {
            assert(orig.subrange(0, start as int) =~= orig);
            lemma_items_toks_empty(orig, start as int);
            assert(args_toks(Seq::<ArgumentDefinition>::empty()) == Seq::<TokM>::empty());
        }
        return Vec::new();
    }
    let mut arg_starts: Vec<usize> = Vec::new();
    arg_starts.push(start);
    proof {
        assert(arg_starts@.map_values(|x: usize| x as int) =~= seq![start as int]);
    }
    let mut expecting_rhs = false;
    let mut i = start + 1;
    while i < len
        invariant
            start + 1 <= i <= len,
            len == orig.len(),
            items@ == orig,
            arg_starts@.len() + count_type_arg_starts(orig, i as int, len as int, expecting_rhs)
                == 1 + count_type_arg_starts(orig, start as int + 1, len as int, false),
            arg_starts@.map_values(|x: usize| x as int) + type_arg_starts_seq(
                orig,
                i as int,
                len as int,
                expecting_rhs,
            ) == seq![start as int] + type_arg_starts_seq(
                orig,
                start as int + 1,
                len as int,
                false,
            ),
            arg_starts@.len() > 0 && arg_starts@[0] == start,
            forall|k: int| 0 <= k < arg_starts@.len() ==> start <= #[trigger] arg_starts@[k] < i,
            forall|k1: int, k2: int|
                0 <= k1 < k2 < arg_starts@.len() ==> arg_starts@[k1] < arg_starts@[k2],
        decreases len - i,
    {
        if expecting_rhs {
            expecting_rhs = false;
        } else {
            let is_assign = match &items[i] {
                Item::Token(t) => matches!(t.variant, Variant::AssignmentOperator),
                _ => false,
            };
            if is_assign {
                expecting_rhs = true;
            } else {
                let ghost prev_map = arg_starts@.map_values(|x: usize| x as int);
                let spaced = matches!(Spacing::of_item(&items[i]), Spacing::Spaced);
                if spaced {
                    arg_starts.push(i);
                    proof {
                        assert(arg_starts@.map_values(|x: usize| x as int) =~= prev_map.push(
                            i as int,
                        ));
                        assert(prev_map.push(i as int) + type_arg_starts_seq(
                            orig,
                            i as int + 1,
                            len as int,
                            false,
                        ) =~= prev_map + type_arg_starts_seq(orig, i as int, len as int, false));
                    }
                }
            }
        }
        i = i + 1;
    }
    proof {
        assert(type_arg_starts_seq(orig, len as int, len as int, expecting_rhs)
            =~= Seq::<int>::empty());
        assert(arg_starts@.map_values(|x: usize| x as int) + Seq::<int>::empty()
            =~= arg_starts@.map_values(|x: usize| x as int));
        assert(arg_starts@.map_values(|x: usize| x as int) =~= seq![start as int]
            + type_arg_starts_seq(orig, start as int + 1, len as int, false));
    }
    let args = parse_args_right_to_left(items, &arg_starts, precedence, args_buffer);
    proof {
        assert(items@ =~= orig.subrange(0, start as int));
        let ghost starts = seq![start as int] + type_arg_starts_seq(
            orig,
            start as int + 1,
            len as int,
            false,
        );
        assert(arg_starts@.map_values(|x: usize| x as int) == starts);
        assert forall|k: int| 0 <= k < args@.len() implies arg_def_post(
            orig,
            starts[k],
            (if k + 1 < starts.len() {
                starts[k + 1]
            } else {
                len as int
            }),
            #[trigger] args@[k],
        ) by {
            assert(starts[k] == arg_starts@[k] as int);
            if k + 1 < starts.len() {
                assert(starts[k + 1] == arg_starts@[k + 1] as int);
            }
        }
    }
    args
}

/// Whether the item is a bare identifier token.
pub open spec fn is_ident_token(it: Item) -> bool {
    match it {
        Item::Token(t) => t@.variant matches Variant::Ident { .. },
        _ => false,
    }
}

/// Parse a constructor declaration head from `items[start..]`, draining it:
/// the identifier at `start` is the constructor's name, and what follows
/// are its type-style arguments.
pub fn parse_constructor_decl(
    items: &mut Vec<Item>,
    start: usize,
    precedence: &mut Precedence,
    args_buffer: &mut Vec<ArgumentDefinition>,
) -> (r: (Token, Vec<ArgumentDefinition>))
    requires
        start < old(items)@.len(),
        is_ident_token(old(items)@[start as int]),
        old(args_buffer)@.len() == 0,
    ensures
        final(items)@ == old(items)@.subrange(0, start as int),
        final(args_buffer)@.len() == 0,
        ({
            let (name, args) = r;
            &&& seq![name@] + args_toks(args@) == items_toks(
                old(items)@.subrange(start as int, old(items)@.len() as int),
            )
            &&& (old(items)@[start as int] matches Item::Token(t) && name == t)
            &&& name@.variant matches Variant::Ident { .. }
            &&& args_wf(args@)
            &&& args@.len() == (if start + 1 == old(items)@.len() {
                0nat
            } else {
                1 + count_type_arg_starts(
                    old(items)@,
                    start as int + 2,
                    old(items)@.len() as int,
                    false,
                )
            })
            &&& (start + 1 < old(items)@.len() ==> ({
                let starts = seq![start as int + 1] + type_arg_starts_seq(
                    old(items)@,
                    start as int + 2,
                    old(items)@.len() as int,
                    false,
                );
                forall|k: int|
                    0 <= k < args@.len() ==> arg_def_post(
                        old(items)@,
                        starts[k],
                        (if k + 1 < starts.len() {
                            starts[k + 1]
                        } else {
                            old(items)@.len() as int
                        }),
                        #[trigger] args@[k],
                    )
            }))
        }),
{
    let ghost orig = items@;
    let len = items.len();
    let args = parse_type_args(items, start + 1, precedence, args_buffer);
    proof {
        lemma_items_toks_subrange_concat(orig, start as int, start as int + 1, orig.len() as int);
        lemma_items_toks_single(orig, start as int);
        assert(items@.last() == orig[start as int]);
        assert(items@.drop_last() =~= orig.subrange(0, start as int));
    }
    let name = pop_token(items);
    (name, args)
}

/// Parse a constructor definition from `items[start..]`, draining it: an
/// optional trailing block provides newline-separated additional argument
/// lines; the head is the constructor's name followed by type-style
/// arguments.
pub fn parse_constructor_definition(
    items: &mut Vec<Item>,
    start: usize,
    precedence: &mut Precedence,
    args_buffer: &mut Vec<ArgumentDefinition>,
) -> (r: Tree)
    requires
        start < old(items)@.len(),
        is_ident_token(old(items)@[start as int]),
        old(args_buffer)@.len() == 0,
    ensures
        final(items)@ == old(items)@.subrange(0, start as int),
        final(args_buffer)@.len() == 0,
        tree_toks(r) == items_toks(old(items)@.subrange(start as int, old(items)@.len() as int)),
        (r matches Tree::ConstructorDef { name, args, block } && (
        old(items)@[start as int] matches Item::Token(t) && name == t) && (!(old(
            items,
        )@.last() matches Item::Block(_)) ==> block@.len() == 0) && (old(
            items,
        )@.last() matches Item::Block(lines) ==> block@.len() == lines@.len() && forall|k: int|
            0 <= k < block@.len() ==> (#[trigger] block@[k]).newline == lines@[k].newline && ((
            block@[k].argument is Some) == (lines@[k].items@.len() > 0)) && (lines@[k].items@.len()
                > 0 ==> (block@[k].argument matches Some(a) && arg_def_post(
                lines@[k].items@,
                0,
                lines@[k].items@.len() as int,
                a,
            )))) && ({
            let he: int = if old(items)@.last() matches Item::Block(_) {
                old(items)@.len() - 1
            } else {
                old(items)@.len() as int
            };
            args@.len() == (if start + 1 == he {
                0nat
            } else {
                1 + count_type_arg_starts(old(items)@, start as int + 2, he, false)
            }) && (start + 1 < he ==> ({
                let starts = seq![start as int + 1] + type_arg_starts_seq(
                    old(items)@,
                    start as int + 2,
                    he,
                    false,
                );
                forall|k: int|
                    0 <= k < args@.len() ==> arg_def_post(
                        old(items)@,
                        starts[k],
                        (if k + 1 < starts.len() {
                            starts[k + 1]
                        } else {
                            he
                        }),
                        #[trigger] args@[k],
                    )
            }))
        })),
        section_wf(r),
{
    let ghost orig = items@;
    let len = items.len();
    let mut block_args: Vec<ArgumentDefinitionLine> = Vec::new();
    let last_is_block = match &items[len - 1] {
        Item::Block(_) => true,
        _ => false,
    };
    let ghost head_end: int = if last_is_block {
        len - 1
    } else {
        len as int
    };
    if last_is_block {
        proof {
            lemma_items_toks_subrange_concat(orig, start as int, head_end, orig.len() as int);
            lemma_items_toks_single(orig, head_end);
            assert(items@.last() == orig[head_end]);
            assert(items@.drop_last() =~= orig.subrange(0, head_end));
        }
        let it = items.pop().unwrap();
        match it {
            Item::Block(lines) => {
                let ghost lines0 = lines@;
                let mut lines = lines;
                let mut k: usize = 0;
                let n = lines.len();
                proof {
                    assert(lines0.take(0) =~= Seq::<crate::item::Line>::empty());
                }
                while k < n
                    invariant
                        k <= n,
                        n == lines0.len(),
                        lines@ == lines0.skip(k as int),
                        block_args@.len() == k,
                        arg_lines_toks(block_args@) == crate::item::lines_toks(
                            lines0.take(k as int),
                        ),
                        arg_lines_wf(block_args@),
                        forall|j: int|
                            0 <= j < block_args@.len() ==> (#[trigger] block_args@[j]).newline
                                == lines0[j].newline && ((block_args@[j].argument is Some) == (
                            lines0[j].items@.len() > 0)) && (lines0[j].items@.len() > 0 ==> (
                            block_args@[j].argument matches Some(a) && arg_def_post(
                                lines0[j].items@,
                                0,
                                lines0[j].items@.len() as int,
                                a,
                            ))),
                    decreases n - k,
                {
                    proof {
                        assert(lines@[0] == lines0[k as int]);
                    }
                    let line = lines.remove(0);
                    let mut litems = line.items;
                    let ghost litems0 = litems@;
                    let argument: Option<ArgumentDefinition> = if litems.len() > 0 {
                        let a = parse_arg_def(&mut litems, 0, precedence);
                        proof {
                            assert(litems0.subrange(0, litems0.len() as int) =~= litems0);
                            assert(arg_def_post(litems0, 0, litems0.len() as int, a));
                        }
                        Some(a)
                    } else {
                        None
                    };
                    let adl = ArgumentDefinitionLine { newline: line.newline, argument };
                    proof {
                        lemma_arg_lines_toks_push(block_args@, adl);
                        crate::item::lemma_lines_toks_take_step(lines0, k as int);
                        if litems0.len() == 0 {
                            assert(items_toks(litems0) == Seq::<TokM>::empty());
                        }
                    }
                    block_args.push(adl);
                    proof {
                        assert(lines@ =~= lines0.skip(k as int + 1));
                    }
                    k = k + 1;
                }
                proof {
                    assert(lines0.take(n as int) =~= lines0);
                    assert(arg_lines_toks(block_args@) == crate::item::lines_toks(lines0));
                    assert(item_toks(orig[head_end]) == crate::item::lines_toks(lines0));
                }
            },
            _ => vstd::pervasive::unreached(),
        }
    }
    proof {
        assert(items@ =~= orig.subrange(0, head_end));
        assert(items@.subrange(0, start as int) =~= orig.subrange(0, start as int));
        assert(items@.subrange(start as int, head_end) =~= orig.subrange(start as int, head_end));
    }
    let ghost before_decl = items@;
    let (name, inline_args) = parse_constructor_decl(items, start, precedence, args_buffer);
    proof {
        assert(args_wf(inline_args@));
        assert(arg_lines_wf(block_args@));
        assert(before_decl.len() == head_end);
        assert forall|i: int| start as int + 1 <= i < head_end implies before_decl[i] == orig[i]
        by {
            assert(before_decl[i] == orig.subrange(0, head_end)[i]);
        }
        lemma_type_scan_agree(before_decl, orig, start as int + 2, head_end, false);
        if start + 1 < head_end {
            let ghost starts = seq![start as int + 1] + type_arg_starts_seq(
                orig,
                start as int + 2,
                head_end,
                false,
            );
            assert(starts == seq![start as int + 1] + type_arg_starts_seq(
                before_decl,
                start as int + 2,
                head_end,
                false,
            ));
            lemma_type_starts_seq_props(orig, start as int + 2, head_end, false);
            lemma_type_starts_seq_len(orig, start as int + 2, head_end, false);
            assert(starts.len() == 1 + count_type_arg_starts(
                orig,
                start as int + 2,
                head_end,
                false,
            ));
            assert(inline_args@.len() == starts.len());
            assert forall|k: int| 0 <= k < inline_args@.len() implies arg_def_post(
                orig,
                starts[k],
                (if k + 1 < starts.len() {
                    starts[k + 1]
                } else {
                    head_end
                }),
                #[trigger] inline_args@[k],
            ) by {
                let hi: int = if k + 1 < starts.len() {
                    starts[k + 1]
                } else {
                    head_end
                };
                if k == 0 {
                    assert(starts[0] == start as int + 1);
                } else {
                    assert(starts[k] == type_arg_starts_seq(
                        orig,
                        start as int + 2,
                        head_end,
                        false,
                    )[k - 1]);
                }
                if k + 1 < starts.len() {
                    assert(starts[k + 1] == type_arg_starts_seq(
                        orig,
                        start as int + 2,
                        head_end,
                        false,
                    )[k]);
                }
                assert(start as int + 1 <= starts[k] < head_end);
                assert(starts[k] < hi <= head_end);
                assert(arg_def_post(before_decl, starts[k], hi, inline_args@[k]));
                assert(before_decl.subrange(starts[k], hi) =~= orig.subrange(starts[k], hi));
                lemma_arg_def_post_agree(before_decl, orig, starts[k], hi, inline_args@[k]);
            }
        }
    }
    let tree = Tree::ConstructorDef { name, args: inline_args, block: block_args };
    proof {
        assert(section_wf(tree));
    }
    proof {
        if !last_is_block {
            assert(orig.subrange(start as int, head_end) =~= orig.subrange(
                start as int,
                orig.len() as int,
            ));
            assert(arg_lines_toks(block_args@) == Seq::<TokM>::empty());
        }
        assert(tree_toks(tree) =~= items_toks(orig.subrange(start as int, orig.len() as int)));
    }
    tree
}


/// Whether position `i` holds a bare non-type identifier token.
pub open spec fn is_plain_ident_at(s: Seq<Item>, i: int) -> bool {
    0 <= i < s.len() && (match s[i] {
        Item::Token(t) => t@.variant == (Variant::Ident { is_type: false }),
        _ => false,
    })
}

/// Whether the item is a bare token whose code is the `foreign` keyword.
pub open spec fn is_foreign_keyword_at(s: Seq<Item>, i: int) -> bool {
    0 <= i < s.len() && (match s[i] {
        Item::Token(t) => t@.code == "foreign"@,
        _ => false,
    })
}

/// Try to parse a foreign-function definition from `items[start..]`, given
/// the assignment operator and right-hand expression of the enclosing
/// statement.  Returns `None`, touching nothing, exactly when `items[start]`
/// is not the `foreign` keyword.  Otherwise the items, the operator, and
/// the expression are consumed: into a foreign-function definition when a
/// language and a name follow and the body is present, and otherwise into a
/// re-stitched expression carrying the error, so that no token is lost.
#[verifier::rlimit(100)]
#[verifier::spinoff_prover]
pub fn try_parse_foreign_function(
    items: &mut Vec<Item>,
    start: usize,
    operator: &mut Option<Token>,
    expression: &mut Option<Tree>,
    precedence: &mut Precedence,
    args_buffer: &mut Vec<ArgumentDefinition>,
) -> (r: Option<Tree>)
    requires
        start <= old(items)@.len(),
        old(args_buffer)@.len() == 0,
        (match *old(expression) {
            Some(e) => holes(e) == 0 && section_wf(e),
            None => true,
        }),
        (*old(operator) is None ==> *old(expression) is None),
    ensures
        final(args_buffer)@.len() == 0,
        (r is None) == !is_foreign_keyword_at(old(items)@, start as int),
        (match r {
            None => final(items)@ == old(items)@ && *final(operator) == *old(operator)
                && *final(expression) == *old(expression),
            Some(t) => {
                &&& final(items)@ == old(items)@.subrange(0, start as int)
                &&& *final(operator) is None
                &&& *final(expression) is None
                &&& tree_toks(t) == items_toks(
                    old(items)@.subrange(start as int, old(items)@.len() as int),
                ) + (match *old(operator) {
                    Some(o) => seq![o@],
                    None => Seq::<TokM>::empty(),
                }) + (match *old(expression) {
                    Some(e) => tree_toks(e),
                    None => Seq::<TokM>::empty(),
                })
                &&& (!is_plain_ident_at(old(items)@, start as int + 1) ==> (t
                    matches Tree::Invalid { error, ast } && error
                    == SyntaxError::ForeignFnExpectedLanguage))
                &&& (is_plain_ident_at(old(items)@, start as int + 1) && !is_plain_ident_at(
                    old(items)@,
                    start as int + 2,
                ) ==> (t matches Tree::Invalid { error, ast } && error
                    == SyntaxError::ForeignFnExpectedName))
                &&& (is_plain_ident_at(old(items)@, start as int + 1) && is_plain_ident_at(
                    old(items)@,
                    start as int + 2,
                ) && *old(operator) is None ==> (t matches Tree::Invalid { error, ast } && error
                    == SyntaxError::ForeignFnExpectedStringBody))
                &&& (is_plain_ident_at(old(items)@, start as int + 1) && is_plain_ident_at(
                    old(items)@,
                    start as int + 2,
                ) ==> (*old(operator) matches Some(eq) ==> (t matches Tree::ForeignFunctionDef {
                    keyword,
                    language,
                    name,
                    args,
                    equals,
                    body,
                } && (old(items)@[start as int] matches Item::Token(kt) && keyword == kt) && (
                old(items)@[start as int + 1] matches Item::Token(lt) && language == lt) && (
                old(items)@[start as int + 2] matches Item::Token(nt) && name == nt) && args@.len()
                    == count_arg_starts(
                    old(items)@,
                    start as int + 3,
                    old(items)@.len() as int,
                ) && ({
                    let starts = arg_starts_seq(
                        old(items)@,
                        start as int + 3,
                        old(items)@.len() as int,
                    );
                    forall|k: int|
                        0 <= k < args@.len() ==> arg_def_post(
                            old(items)@,
                            starts[k],
                            (if k + 1 < starts.len() {
                                starts[k + 1]
                            } else {
                                old(items)@.len() as int
                            }),
                            #[trigger] args@[k],
                        )
                }) && equals == eq && (match *old(expression) {
                    Some(e) => ((e matches Tree::TextLiteral { .. }) ==> *body == e) && (!(
                    e matches Tree::TextLiteral { .. }) ==> (*body matches Tree::Invalid {
                        error,
                        ast,
                    } && error == SyntaxError::ForeignFnExpectedStringBody && *ast == e)),
                    None => (*body matches Tree::Invalid { error, ast } && error
                        == SyntaxError::ForeignFnExpectedStringBody && *ast == Tree::Empty),
                }))))
                &&& section_wf(t)
            },
        }),
{
    let ghost orig = items@;
    let len = items.len();
    if start >= len {
        return None;
    }
    let is_foreign = match &items[start] {
        Item::Token(t) => crate::token::str_eq(t.code.as_str(), "foreign"),
        _ => false,
    };
    if !is_foreign {
        return None;
    }
    let mut op_taken: Option<Token> = None;
    core::mem::swap(&mut op_taken, operator);
    let mut expr_taken: Option<Tree> = None;
    core::mem::swap(&mut expr_taken, expression);
    let language_ok = if start + 1 < len {
        match &items[start + 1] {
            Item::Token(t) => matches!(t.variant, Variant::Ident { is_type: false }),
            _ => false,
        }
    } else {
        false
    };
    if !language_ok {
        return Some(
            restitch_error(
                items,
                start,
                op_taken,
                expr_taken,
                SyntaxError::ForeignFnExpectedLanguage,
                precedence,
            ),
        );
    }
    let name_ok = if start + 2 < len {
        match &items[start + 2] {
            Item::Token(t) => matches!(t.variant, Variant::Ident { is_type: false }),
            _ => false,
        }
    } else {
        false
    };
    if !name_ok {
        return Some(
            restitch_error(
                items,
                start,
                op_taken,
                expr_taken,
                SyntaxError::ForeignFnExpectedName,
                precedence,
            ),
        );
    }
    let equals = match op_taken {
        Some(op) => op,
        None => {
            return Some(
                restitch_error(
                    items,
                    start,
                    None,
                    expr_taken,
                    SyntaxError::ForeignFnExpectedStringBody,
                    precedence,
                ),
            );
        },
    };
    let body = match expr_taken {
        Some(b) => {
            let is_text = matches!(b, Tree::TextLiteral { .. });
            if is_text {
                b
            } else {
                b.with_error(SyntaxError::ForeignFnExpectedStringBody)
            }
        },
        None => empty_tree().with_error(SyntaxError::ForeignFnExpectedStringBody),
    };
    let mut arg_starts: Vec<usize> = Vec::new();
    let mut i = start + 3;
    while i < len
        invariant
            start + 3 <= i <= len,
            len == orig.len(),
            items@ == orig,
            arg_starts@.len() == count_arg_starts(orig, start as int + 3, i as int),
            arg_starts@.map_values(|x: usize| x as int) == arg_starts_seq(
                orig,
                start as int + 3,
                i as int,
            ),
            forall|k: int|
                0 <= k < arg_starts@.len() ==> start + 3 <= #[trigger] arg_starts@[k] < i,
            forall|k1: int, k2: int|
                0 <= k1 < k2 < arg_starts@.len() ==> arg_starts@[k1] < arg_starts@[k2],
            i > start + 3 ==> arg_starts@.len() > 0 && arg_starts@[0] == start + 3,
        decreases len - i,
    {
        let ghost prev_map = arg_starts@.map_values(|x: usize| x as int);
        let spaced = matches!(Spacing::of_item(&items[i]), Spacing::Spaced);
        if i == start + 3 || spaced {
            arg_starts.push(i);
            proof {
                assert(arg_starts@.map_values(|x: usize| x as int) =~= prev_map.push(i as int));
            }
        }
        i = i + 1;
    }
    let ghost before_args = items@;
    let args = parse_args_right_to_left(items, &arg_starts, precedence, args_buffer);
    let ghost args_low: int = if arg_starts@.len() == 0 {
        len as int
    } else {
        arg_starts@[0] as int
    };
    proof {
        assert(args_low == start + 3);
        assert(items@ =~= orig.subrange(0, args_low));
        assert(args_toks(args@) == items_toks(orig.subrange(args_low, len as int)));
        assert(items@.last() == orig[args_low - 1]);
        assert(items@.drop_last() =~= orig.subrange(0, args_low - 1));
        lemma_items_toks_single(orig, args_low - 1);
    }
    let name = pop_token(items);
    proof {
        assert(items@.last() == orig[args_low - 2]);
        assert(items@.drop_last() =~= orig.subrange(0, args_low - 2));
        lemma_items_toks_single(orig, args_low - 2);
    }
    let language = pop_token(items);
    proof {
        assert(items@.last() == orig[args_low - 3]);
        assert(items@.drop_last() =~= orig.subrange(0, args_low - 3));
        lemma_items_toks_single(orig, args_low - 3);
        assert(args_low - 3 == start);
    }
    let keyword = pop_token(items);
    let tree = Tree::ForeignFunctionDef { keyword, language, name, args, equals, body: Box::new(body) };
    proof {
        lemma_items_toks_subrange_concat(orig, start as int, start as int + 1, start as int + 2);
        lemma_items_toks_subrange_concat(orig, start as int, start as int + 2, start as int + 3);
        lemma_items_toks_subrange_concat(orig, start as int, start as int + 3, len as int);
        assert(tree_toks(tree) =~= items_toks(orig.subrange(start as int, len as int)) + (
        match *old(operator) {
            Some(o) => seq![o@],
            None => Seq::<TokM>::empty(),
        }) + (match *old(expression) {
            Some(e) => tree_toks(e),
            None => Seq::<TokM>::empty(),
        }));
        assert(section_wf(tree));
    }
    Some(tree)
}

/// Re-stitch an unrecognized foreign-function statement into a plain
/// expression carrying the given error: the items are resolved, and the
/// statement's operator and expression are re-attached, so that every token
/// survives under the error wrapper.
fn restitch_error(
    items: &mut Vec<Item>,
    start: usize,
    op_taken: Option<Token>,
    expr_taken: Option<Tree>,
    error: SyntaxError,
    precedence: &mut Precedence,
) -> (r: Tree)
    requires
        start < old(items)@.len(),
        (match expr_taken {
            Some(e) => holes(e) == 0 && section_wf(e),
            None => true,
        }),
        (op_taken is None ==> expr_taken is None),
    ensures
        final(items)@ == old(items)@.subrange(0, start as int),
        tree_toks(r) == items_toks(old(items)@.subrange(start as int, old(items)@.len() as int))
            + (match op_taken {
            Some(o) => seq![o@],
            None => Seq::<TokM>::empty(),
        }) + (match expr_taken {
            Some(e) => tree_toks(e),
            None => Seq::<TokM>::empty(),
        }),
        (r matches Tree::Invalid { error: e2, ast } && e2 == error),
        section_wf(r),
{
    let base = match precedence.resolve_non_section(items, start) {
        Some(t) => t,
        None => vstd::pervasive::unreached(),
    };
    let ghost baseg = base;
    let mut combined: Tree = base;
    match op_taken {
        Some(op) => {
            let ghost opg = op;
            let lhs_box: Option<Box<Tree>> = Some(Box::new(combined));
            let mut rhs: Option<Box<Tree>> = None;
            match expr_taken {
                Some(e) => {
                    rhs = Some(Box::new(e));
                    proof {
                        assert(crate::tree::opt_tree_toks(rhs) == (match expr_taken {
                            Some(e2) => tree_toks(e2),
                            None => Seq::<TokM>::empty(),
                        }));
                        assert(crate::tree::opt_section_wf(rhs));
                    }
                },
                None => {
                    rhs = Some(
                        Box::new(empty_tree().with_error(SyntaxError::ExpectedExpression)),
                    );
                    proof {
                        assert(crate::tree::opt_tree_toks(rhs) == Seq::<TokM>::empty());
                        assert(crate::tree::opt_section_wf(rhs));
                    }
                },
            }
            proof {
                assert(crate::tree::opt_tree_toks(lhs_box) == tree_toks(baseg));
                assert(crate::tree::opt_section_wf(lhs_box));
            }
            combined = Tree::OprApp { lhs: lhs_box, opr: op, rhs };
            proof {
                assert(tree_toks(combined) =~= tree_toks(baseg) + seq![opg@] + (
                match expr_taken {
                    Some(e) => tree_toks(e),
                    None => Seq::<TokM>::empty(),
                }));
                assert(section_wf(combined));
            }
        },
        None => {
            proof {
                assert(tree_toks(combined) =~= tree_toks(baseg) + Seq::<TokM>::empty()
                    + Seq::<TokM>::empty());
            }
        },
    }
    combined.with_error(error)
}

} // verus!
