//! Laws of the filter language.
use vstd::prelude::*;

use crate::subscriptions::filter;
use crate::subscriptions::filter::{ErrorView, ExprView, TokenView};

verus! {

/// The tokens of an expression where an `OR` may stand without parentheses.
pub open spec fn write_or(e: ExprView) -> Seq<TokenView>
    decreases e, 2int,
{
    match e {
        ExprView::Or(l, r) => write_or(*l) + seq![TokenView::Or] + write_and(*r),
        _ => write_and(e),
    }
}

/// The tokens of an expression where an `AND` may stand without parentheses, and an `OR` may not.
pub open spec fn write_and(e: ExprView) -> Seq<TokenView>
    decreases e, 1int,
{
    match e {
        ExprView::And(l, r) => write_and(*l) + seq![TokenView::And] + write_not(*r),
        _ => write_not(e),
    }
}

/// The tokens of an expression where neither may stand without parentheses.
pub open spec fn write_not(e: ExprView) -> Seq<TokenView>
    decreases e, 0int,
{
    match e {
        ExprView::Not(inner) => seq![TokenView::Not] + write_not(*inner),
        ExprView::Or(l, r) => seq![TokenView::LParen] + (write_or(*l) + seq![TokenView::Or]
            + write_and(*r)) + seq![TokenView::RParen],
        ExprView::And(l, r) => seq![TokenView::LParen] + (write_and(*l) + seq![TokenView::And]
            + write_not(*r)) + seq![TokenView::RParen],
        ExprView::Eq { key, value, negated } => seq![
            TokenView::Attribute(key),
            if negated {
                TokenView::NotEq
            } else {
                TokenView::Eq
            },
            TokenView::Str(value),
        ],
        ExprView::HasPrefix { key, value } => seq![
            TokenView::Ident("hasPrefix"@),
            TokenView::LParen,
            TokenView::Attribute(key),
            TokenView::Comma,
            TokenView::Str(value),
            TokenView::RParen,
        ],
        ExprView::HasAttr { key } => seq![TokenView::AttributeHas(key)],
    }
}

/// Whether the tokens `w` stand at `at`.
pub open spec fn stands_at(t: Seq<(TokenView, int)>, at: int, w: Seq<TokenView>) -> bool {
    &&& 0 <= at
    &&& at + w.len() <= t.len()
    &&& forall|i: int| 0 <= i < w.len() ==> (#[trigger] t[at + i]).0 == w[i]
}

/// Where the tokens of two parts stand, the first part's stand at the same place and the second
/// part's behind them.
proof fn lemma_parts(t: Seq<(TokenView, int)>, at: int, w: Seq<TokenView>, a: Seq<TokenView>, b: Seq<TokenView>)
    requires
        stands_at(t, at, w),
        w == a + b,
    ensures
        stands_at(t, at, a),
        stands_at(t, at + a.len(), b),
{
    assert forall|i: int| 0 <= i < a.len() implies (#[trigger] t[at + i]).0 == a[i] by {
        assert(w[i] == a[i]);
    }
    assert forall|i: int| 0 <= i < b.len() implies (#[trigger] t[at + a.len() + i]).0 == b[i] by {
        assert(w[a.len() + i] == b[i]);
        assert(t[at + (a.len() + i)].0 == w[a.len() + i]);
    }
}

proof fn lemma_or(t: Seq<(TokenView, int)>, at: int, e: ExprView)
    requires
        stands_at(t, at, write_or(e)),
        !filter::is_at(t, at + write_or(e).len(), TokenView::And),
    ensures
        write_or(e).len() > 0,
        filter::or_at(t, at) == filter::or_rest(t, e, at + write_or(e).len()),
    decreases e, 3int,
{
    match e {
        ExprView::Or(l, r) => {
            let a = write_or(*l);
            let b = write_and(*r);
            lemma_parts(t, at, write_or(e), a + seq![TokenView::Or], b);
            lemma_parts(t, at, a + seq![TokenView::Or], a, seq![TokenView::Or]);
            let m = at + a.len();
            assert(t[m + 0].0 == TokenView::Or);
            lemma_or(t, at, *l);
            lemma_and(t, m + 1, *r);
            assert(filter::and_at(t, m + 1) == filter::Parsed::Ok((*r, m + 1 + b.len())));
        },
        _ => {
            lemma_and(t, at, e);
        },
    }
}

proof fn lemma_and(t: Seq<(TokenView, int)>, at: int, e: ExprView)
    requires
        stands_at(t, at, write_and(e)),
    ensures
        write_and(e).len() > 0,
        filter::and_at(t, at) == filter::and_rest(t, e, at + write_and(e).len()),
        !filter::is_at(t, at + write_and(e).len(), TokenView::And) ==> filter::and_at(t, at)
            == filter::Parsed::Ok((e, at + write_and(e).len())),
    decreases e, 2int,
{
    match e {
        ExprView::And(l, r) => {
            let a = write_and(*l);
            let b = write_not(*r);
            lemma_parts(t, at, write_and(e), a + seq![TokenView::And], b);
            lemma_parts(t, at, a + seq![TokenView::And], a, seq![TokenView::And]);
            let m = at + a.len();
            assert(t[m + 0].0 == TokenView::And);
            lemma_and(t, at, *l);
            lemma_not(t, m + 1, *r);
        },
        _ => {
            lemma_not(t, at, e);
        },
    }
}

proof fn lemma_not(t: Seq<(TokenView, int)>, at: int, e: ExprView)
    requires
        stands_at(t, at, write_not(e)),
    ensures
        write_not(e).len() > 0,
        filter::not_at(t, at) == filter::Parsed::Ok((e, at + write_not(e).len())),
    decreases e, 1int,
{
    let w = write_not(e);
    assert(t[at + 0].0 == w[0]);
    match e {
        ExprView::Not(inner) => {
            lemma_parts(t, at, w, seq![TokenView::Not], write_not(*inner));
            lemma_not(t, at + 1, *inner);
            assert(filter::is_at(t, at, TokenView::Not));
            let n = write_not(*inner).len();
            assert(w.len() == 1 + n);
            assert(filter::not_at(t, at + 1) == filter::Parsed::Ok((*inner, at + 1 + n)));
            assert(filter::not_at(t, at) == filter::Parsed::Ok((e, at + 1 + n)));
        },
        ExprView::Or(l, r) => {
            lemma_or_in_parens(t, at, e);
        },
        ExprView::And(l, r) => {
            lemma_and_in_parens(t, at, e);
        },
        ExprView::Eq { key, value, negated } => {
            assert(t[at + 1].0 == w[1]);
            assert(t[at + 2].0 == w[2]);
            assert(filter::comparison_at(t, at, key) == filter::Parsed::Ok((e, at + 3)));
            assert(filter::primary_at(t, at) == filter::Parsed::Ok((e, at + 3)));
        },
        ExprView::HasPrefix { key, value } => {
            assert(t[at + 1].0 == w[1]);
            assert(t[at + 2].0 == w[2]);
            assert(t[at + 3].0 == w[3]);
            assert(t[at + 4].0 == w[4]);
            assert(t[at + 5].0 == w[5]);
            assert(filter::prefix_at(t, at) == filter::Parsed::Ok((e, at + 6)));
            assert(filter::primary_at(t, at) == filter::Parsed::Ok((e, at + 6)));
        },
        ExprView::HasAttr { key } => {
            assert(filter::primary_at(t, at) == filter::Parsed::Ok((e, at + 1)));
        },
    }
}

proof fn lemma_or_in_parens(t: Seq<(TokenView, int)>, at: int, e: ExprView)
    requires
        stands_at(t, at, write_not(e)),
        e is Or,
    ensures
        filter::not_at(t, at) == filter::Parsed::Ok((e, at + write_not(e).len())),
    decreases e, 0int,
{
    if let ExprView::Or(l, r) = e {
        let a = write_or(*l);
        let b = write_and(*r);
        let inside = a + seq![TokenView::Or] + b;
        let w = seq![TokenView::LParen] + inside + seq![TokenView::RParen];
        lemma_parts(t, at, w, seq![TokenView::LParen] + inside, seq![TokenView::RParen]);
        lemma_parts(t, at, seq![TokenView::LParen] + inside, seq![TokenView::LParen], inside);
        lemma_parts(t, at + 1, inside, a + seq![TokenView::Or], b);
        lemma_parts(t, at + 1, a + seq![TokenView::Or], a, seq![TokenView::Or]);
        let m = at + 1 + a.len();
        let end = m + 1 + b.len();
        assert(t[at + 0].0 == TokenView::LParen);
        assert(t[m + 0].0 == TokenView::Or);
        assert(t[end + 0].0 == TokenView::RParen);
        lemma_or(t, at + 1, *l);
        lemma_and(t, m + 1, *r);
        assert(filter::or_rest(t, *l, m) == filter::or_rest(t, e, end));
        assert(filter::or_at(t, at + 1) == filter::Parsed::Ok((e, end)));
        assert(filter::primary_at(t, at) == filter::Parsed::Ok((e, end + 1)));
        assert(filter::not_at(t, at) == filter::primary_at(t, at));
    }
}

proof fn lemma_and_in_parens(t: Seq<(TokenView, int)>, at: int, e: ExprView)
    requires
        stands_at(t, at, write_not(e)),
        e is And,
    ensures
        filter::not_at(t, at) == filter::Parsed::Ok((e, at + write_not(e).len())),
    decreases e, 0int,
{
    if let ExprView::And(l, r) = e {
        let a = write_and(*l);
        let b = write_not(*r);
        let inside = a + seq![TokenView::And] + b;
        let w = seq![TokenView::LParen] + inside + seq![TokenView::RParen];
        lemma_parts(t, at, w, seq![TokenView::LParen] + inside, seq![TokenView::RParen]);
        lemma_parts(t, at, seq![TokenView::LParen] + inside, seq![TokenView::LParen], inside);
        lemma_parts(t, at + 1, inside, a + seq![TokenView::And], b);
        lemma_parts(t, at + 1, a + seq![TokenView::And], a, seq![TokenView::And]);
        let m = at + 1 + a.len();
        let end = m + 1 + b.len();
        assert(t[at + 0].0 == TokenView::LParen);
        assert(t[m + 0].0 == TokenView::And);
        assert(t[end + 0].0 == TokenView::RParen);
        lemma_and(t, at + 1, *l);
        lemma_not(t, m + 1, *r);
        assert(filter::and_rest(t, *l, m) == filter::and_rest(t, e, end));
        assert(filter::and_at(t, at + 1) == filter::Parsed::Ok((e, end)));
        assert(filter::or_at(t, at + 1) == filter::Parsed::Ok((e, end)));
        assert(filter::primary_at(t, at) == filter::Parsed::Ok((e, end + 1)));
        assert(filter::not_at(t, at) == filter::primary_at(t, at));
    }
}

/// Every expression can be written as tokens that parse to it, with parentheses only around an
/// `OR` inside an `AND` or a `NOT`, an `AND` inside a `NOT`, and a right operand of the operator's
/// own kind: `NOT` binds tighter than `AND`, `AND` tighter than `OR`, and both group to the left.
pub proof fn law_written_filter_parses(e: ExprView, t: Seq<(TokenView, int)>)
    requires
        stands_at(t, 0, write_or(e)),
        t.len() == write_or(e).len(),
    ensures
        filter::filter_of_tokens(t) == Ok::<ExprView, ErrorView>(e),
{
    lemma_or(t, 0, e);
}

/// The text of a string literal with its escapes: a backslash in front of a quote and of a
/// backslash.
pub open spec fn escaped(s: Seq<char>) -> Seq<char>
    decreases s.len(),
{
    if s.len() == 0 {
        Seq::empty()
    } else if s[0] == '"' || s[0] == '\\' {
        seq!['\\', s[0]] + escaped(s.drop_first())
    } else {
        seq![s[0]] + escaped(s.drop_first())
    }
}

/// Every text can be written as a string literal that reads back as it: escaped, and with a quote
/// behind it, whatever follows.
pub proof fn law_string_literal_reads_back(front: Seq<char>, s: Seq<char>, rest: Seq<char>)
    ensures
        filter::string_at(front + escaped(s) + seq!['"'] + rest, front.len() as int) == Ok::<
            (Seq<char>, int),
            ErrorView,
        >((s, (front.len() + escaped(s).len() + 1) as int)),
    decreases s.len(),
{
    let b = front + escaped(s) + seq!['"'] + rest;
    if s.len() == 0 {
        assert(b[front.len() as int] == '"');
        assert(s =~= Seq::<char>::empty());
    } else if s[0] == '"' || s[0] == '\\' {
        let front2 = front + seq!['\\', s[0]];
        law_string_literal_reads_back(front2, s.drop_first(), rest);
        assert(front2 + escaped(s.drop_first()) + seq!['"'] + rest =~= b);
        assert(b[front.len() as int] == '\\');
        assert(b[front.len() as int + 1] == s[0]);
        assert(seq![s[0]] + s.drop_first() =~= s);
    } else {
        let front2 = front + seq![s[0]];
        law_string_literal_reads_back(front2, s.drop_first(), rest);
        assert(front2 + escaped(s.drop_first()) + seq!['"'] + rest =~= b);
        assert(b[front.len() as int] == s[0]);
        assert(seq![s[0]] + s.drop_first() =~= s);
    }
}

/// A text of nothing but spaces is no filter.
pub proof fn law_blank_filter_is_rejected(text: Seq<char>)
    requires
        forall|i: int|
            0 <= i < text.len() ==> (#[trigger] text[i] == ' ' || text[i] == '\t' || text[i] == '\n'
                || text[i] == '\r'),
    ensures
        filter::filter_of(text) == Err::<ExprView, ErrorView>(ErrorView::UnexpectedEnd),
{
    lemma_blank(text, 0);
    let none = Seq::<(TokenView, int)>::empty();
    assert(filter::primary_at(none, 0) == filter::Parsed::Err(ErrorView::UnexpectedEnd));
    assert(filter::not_at(none, 0) == filter::Parsed::Err(ErrorView::UnexpectedEnd));
    assert(filter::and_at(none, 0) == filter::Parsed::Err(ErrorView::UnexpectedEnd));
    assert(filter::or_at(none, 0) == filter::Parsed::Err(ErrorView::UnexpectedEnd));
}

/// A text of nothing but spaces has no tokens.
pub proof fn lemma_blank(b: Seq<char>, i: int)
    requires
        0 <= i,
        forall|j: int| 0 <= j < b.len() ==> filter::is_space(#[trigger] b[j]),
    ensures
        filter::tokens_from(b, i) == Ok::<Seq<(TokenView, int)>, ErrorView>(Seq::empty()),
    decreases b.len() - i,
{
    if i < b.len() {
        assert(filter::is_space(b[i]));
        lemma_blank(b, i + 1);
    }
}

/// `attributes.k != "v"` holds of a message exactly where `attributes.k = "v"` does not, so also of
/// one without the attribute.
pub proof fn law_inequality_negates_equality(
    key: Seq<char>,
    value: Seq<char>,
    attributes: Option<Map<Seq<char>, Seq<char>>>,
)
    ensures
        filter::satisfies(ExprView::Eq { key, value, negated: true }, attributes)
            == !filter::satisfies(ExprView::Eq { key, value, negated: false }, attributes),
        (attributes matches Some(a) ==> !a.contains_key(key)) ==> filter::satisfies(
            ExprView::Eq { key, value, negated: true },
            attributes,
        ),
{
}

} // verus!
