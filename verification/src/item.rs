//! Lexed items: tokens, bracketed groups, and indented blocks.

use vstd::prelude::*;
use crate::token::{Token, TokM, Spacing, Variant, spec_spacing_of_token, opt_tok_toks};

verus! {

/// One element of the lexer's output: a bare token, a bracketed group whose
/// body was grouped by the lexer (`close` is absent when the bracket was
/// never closed), or an indented block of lines.
pub enum Item {
    Token(Token),
    Group { open: Token, body: Vec<Item>, close: Option<Token> },
    Block(Vec<Line>),
}

/// One line of a block: the line break that started it and the items on it.
pub struct Line {
    pub newline: Token,
    pub items: Vec<Item>,
}

/// The tokens of one item, in source order.
pub open spec fn item_toks(it: Item) -> Seq<TokM>
    decreases it,
{
    match it {
        Item::Token(t) => seq![t@],
        Item::Group { open, body, close } => seq![open@] + items_toks(body@) + opt_tok_toks(close),
        Item::Block(lines) => lines_toks(lines@),
    }
}

/// The tokens of an item sequence, in source order.
pub open spec fn items_toks(s: Seq<Item>) -> Seq<TokM>
    decreases s,
{
    if s.len() == 0 {
        Seq::empty()
    } else {
        item_toks(s[0]) + items_toks(s.drop_first())
    }
}

/// The tokens of a sequence of lines, in source order.
pub open spec fn lines_toks(s: Seq<Line>) -> Seq<TokM>
    decreases s,
{
    if s.len() == 0 {
        Seq::empty()
    } else {
        seq![s[0].newline@] + items_toks(s[0].items@) + lines_toks(s.drop_first())
    }
}

impl Spacing {
    /// Classify an item by the whitespace before its first token; a block is
    /// always treated as spaced, since a line break precedes it.
    pub fn of_item(item: &Item) -> (r: Spacing)
        ensures
            r == spec_spacing_of_item(*item),
    {
        match item {
            Item::Token(t) => Spacing::of_token(t),
            Item::Group { open, .. } => Spacing::of_token(open),
            Item::Block(_) => Spacing::Spaced,
        }
    }
}

/// The spacing of an item: that of its first token; blocks are spaced.
pub open spec fn spec_spacing_of_item(it: Item) -> Spacing {
    match it {
        Item::Token(t) => spec_spacing_of_token(t@),
        Item::Group { open, .. } => spec_spacing_of_token(open@),
        Item::Block(_) => Spacing::Spaced,
    }
}

/// Whether the item is a bare token of the given classification.
pub open spec fn is_token_of(it: Item, v: Variant) -> bool {
    match it {
        Item::Token(t) => t@.variant == v,
        _ => false,
    }
}

/// Splitting an item sequence splits its token sequence.
pub proof fn lemma_items_toks_split(s: Seq<Item>, k: int)
    requires
        0 <= k <= s.len(),
    ensures
        items_toks(s) == items_toks(s.subrange(0, k)) + items_toks(
            s.subrange(k, s.len() as int),
        ),
    decreases k,
{
    if k == 0 {
        assert(s.subrange(0, 0) =~= Seq::<Item>::empty());
        assert(s.subrange(0, s.len() as int) =~= s);
        assert(items_toks(s.subrange(0, 0)) + items_toks(s) =~= items_toks(s));
    } else {
        let head = s.subrange(0, k);
        let rest = s.drop_first();
        lemma_items_toks_split(rest, k - 1);
        assert(rest.subrange(0, k - 1) =~= head.drop_first());
        assert(rest.subrange(k - 1, rest.len() as int) =~= s.subrange(k, s.len() as int));
        assert(head[0] == s[0]);
        assert(items_toks(s) == item_toks(s[0]) + items_toks(rest));
        assert(items_toks(head) == item_toks(s[0]) + items_toks(head.drop_first()));
        assert(items_toks(s) =~= items_toks(head) + items_toks(s.subrange(k, s.len() as int)));
    }
}

/// Adjacent subranges of an item sequence concatenate their tokens.
pub proof fn lemma_items_toks_subrange_concat(s: Seq<Item>, a: int, b: int, c: int)
    requires
        0 <= a <= b <= c <= s.len(),
    ensures
        items_toks(s.subrange(a, c)) == items_toks(s.subrange(a, b)) + items_toks(
            s.subrange(b, c),
        ),
{
    let whole = s.subrange(a, c);
    lemma_items_toks_split(whole, b - a);
    assert(whole.subrange(0, b - a) =~= s.subrange(a, b));
    assert(whole.subrange(b - a, whole.len() as int) =~= s.subrange(b, c));
}

/// The token sequence of a one-item subrange is that item's tokens.
pub proof fn lemma_items_toks_single(s: Seq<Item>, i: int)
    requires
        0 <= i < s.len(),
    ensures
        items_toks(s.subrange(i, i + 1)) == item_toks(s[i]),
{
    let sub = s.subrange(i, i + 1);
    assert(sub[0] == s[i]);
    assert(sub.drop_first() =~= Seq::<Item>::empty());
    assert(items_toks(sub) == item_toks(s[i]) + items_toks(Seq::<Item>::empty()));
    assert(item_toks(s[i]) + Seq::<TokM>::empty() =~= item_toks(s[i]));
}

/// Extending a prefix of a line sequence by one line appends that line's
/// tokens.
pub proof fn lemma_lines_toks_take_step(s: Seq<Line>, k: int)
    requires
        0 <= k < s.len(),
    ensures
        lines_toks(s.take(k + 1)) == lines_toks(s.take(k)) + seq![s[k].newline@] + items_toks(
            s[k].items@,
        ),
    decreases k,
{
    if k == 0 {
        let one = s.take(1);
        assert(one[0] == s[0]);
        assert(one.drop_first() =~= Seq::<Line>::empty());
        assert(s.take(0) =~= Seq::<Line>::empty());
        assert(lines_toks(one) == seq![s[0].newline@] + items_toks(s[0].items@) + lines_toks(
            Seq::<Line>::empty(),
        ));
        assert(lines_toks(one) =~= lines_toks(s.take(0)) + seq![s[0].newline@] + items_toks(
            s[0].items@,
        ));
    } else {
        let rest = s.drop_first();
        lemma_lines_toks_take_step(rest, k - 1);
        assert(rest[k - 1] == s[k]);
        assert(rest.take(k) =~= s.take(k + 1).drop_first());
        assert(rest.take(k - 1) =~= s.take(k).drop_first());
        assert(s.take(k + 1)[0] == s[0]);
        assert(s.take(k)[0] == s[0]);
        assert(lines_toks(s.take(k + 1)) == seq![s[0].newline@] + items_toks(s[0].items@)
            + lines_toks(rest.take(k)));
        assert(lines_toks(s.take(k)) == seq![s[0].newline@] + items_toks(s[0].items@)
            + lines_toks(rest.take(k - 1)));
        assert(lines_toks(s.take(k + 1)) =~= lines_toks(s.take(k)) + seq![s[k].newline@]
            + items_toks(s[k].items@));
    }
}

/// An empty subrange holds no tokens.
pub proof fn lemma_items_toks_empty(s: Seq<Item>, i: int)
    requires
        0 <= i <= s.len(),
    ensures
        items_toks(s.subrange(i, i)) == Seq::<TokM>::empty(),
{
    assert(s.subrange(i, i) =~= Seq::<Item>::empty());
}

} // verus!
