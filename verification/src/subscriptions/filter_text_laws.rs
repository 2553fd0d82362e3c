//! Laws of filters as they are written: what texts mean that are put together from others.
use vstd::prelude::*;

use crate::subscriptions::filter;
use crate::subscriptions::filter::{ErrorView, ExprView, Parsed, TokenView};
use crate::subscriptions::filter_laws;

verus! {

/// The tokens without their positions.
pub open spec fn kinds(t: Seq<(TokenView, int)>) -> Seq<TokenView> {
    Seq::new(t.len(), |i: int| t[i].0)
}

/// The tokens without their positions are as many and the same.
proof fn lemma_kinds(t: Seq<(TokenView, int)>)
    ensures
        kinds(t).len() == t.len(),
        forall|i: int| 0 <= i < t.len() ==> #[trigger] kinds(t)[i] == t[i].0,
{
}

/// Whether no identifier runs on from one text into the other.
spec fn apart(x: Seq<char>, y: Seq<char>) -> bool {
    ||| x.len() == 0
    ||| y.len() == 0
    ||| !filter::is_word_char(x.last())
    ||| !filter::is_word_char(y[0])
}

/// Whether the text has these tokens.
spec fn has_tokens(text: Seq<char>, w: Seq<TokenView>) -> bool {
    filter::tokens_from(text, 0) matches Ok(t) && kinds(t) == w
}

/// An identifier of a text ends where it did once another text follows.
proof fn lemma_word_before(x: Seq<char>, y: Seq<char>, i: int)
    requires
        apart(x, y),
        0 <= i < x.len(),
    ensures
        filter::word_end(x + y, i) == filter::word_end(x, i),
    decreases x.len() - i,
{
    let w = x + y;
    assert(w[i] == x[i]);
    if filter::is_word_char(x[i]) {
        if i + 1 < x.len() {
            lemma_word_before(x, y, i + 1);
        } else {
            assert(filter::word_end(x, i + 1) == i + 1);
            if y.len() > 0 {
                assert(w[i + 1] == y[0]);
            }
            assert(filter::word_end(w, i + 1) == i + 1);
        }
    }
}

/// An identifier of a text ends as much later as another text in front is long.
proof fn lemma_word_behind(x: Seq<char>, y: Seq<char>, i: int)
    requires
        0 <= i <= y.len(),
    ensures
        filter::word_end(x + y, x.len() + i) == x.len() + filter::word_end(y, i),
    decreases y.len() - i,
{
    if i < y.len() {
        assert((x + y)[x.len() + i] == y[i]);
        if filter::is_word_char(y[i]) {
            lemma_word_behind(x, y, i + 1);
        }
    }
}

/// A string literal of a text is the same once another text follows.
proof fn lemma_string_before(x: Seq<char>, y: Seq<char>, i: int)
    requires
        0 <= i,
        filter::string_at(x, i) is Ok,
    ensures
        filter::string_at(x + y, i) == filter::string_at(x, i),
    decreases x.len() - i,
{
    if i < x.len() {
        assert((x + y)[i] == x[i]);
        if x[i] == '\\' {
            assert((x + y)[i + 1] == x[i + 1]);
            lemma_string_before(x, y, i + 2);
        } else if x[i] != '"' {
            lemma_string_before(x, y, i + 1);
        }
    }
}

/// A string literal of a text is the same once another text stands in front.
proof fn lemma_string_behind(x: Seq<char>, y: Seq<char>, i: int)
    requires
        0 <= i,
        filter::string_at(y, i) is Ok,
    ensures
        filter::string_at(x + y, x.len() + i) == Ok::<(Seq<char>, int), ErrorView>(
            (filter::string_at(y, i)->Ok_0.0, x.len() + filter::string_at(y, i)->Ok_0.1),
        ),
    decreases y.len() - i,
{
    if i < y.len() {
        assert((x + y)[x.len() + i] == y[i]);
        if y[i] == '\\' {
            assert((x + y)[x.len() + i + 1] == y[i + 1]);
            lemma_string_behind(x, y, i + 2);
        } else if y[i] != '"' {
            lemma_string_behind(x, y, i + 1);
        }
    }
}

/// A token of a text is the same once another text follows.
proof fn lemma_token_before(x: Seq<char>, y: Seq<char>, i: int)
    requires
        apart(x, y),
        0 <= i < x.len(),
        filter::token_at(x, i) is Ok,
    ensures
        filter::token_at(x + y, i) == filter::token_at(x, i),
{
    let w = x + y;
    let c = x[i];
    assert(w[i] == c);
    if c == '!' {
        assert(w[i + 1] == x[i + 1]);
    } else if c == '"' {
        lemma_string_before(x, y, i + 1);
    } else if filter::is_word_start(c) {
        lemma_word_before(x, y, i);
        filter::lemma_word_end(x, i);
        let end = filter::word_end(x, i);
        assert(w.subrange(i, end) =~= x.subrange(i, end));
        if filter::keyword(x.subrange(i, end)) is None && x.subrange(i, end) == "attributes"@ {
            assert(w[end] == x[end]);
            filter::lemma_word_end(x, end + 1);
            let last = filter::word_end(x, end + 1);
            assert(end + 1 < last);
            lemma_word_before(x, y, end + 1);
            assert(w[end + 1] == x[end + 1]);
            assert(w.subrange(end + 1, last) =~= x.subrange(end + 1, last));
        }
    }
}

/// A token of a text is the same once another text stands in front.
proof fn lemma_token_behind(x: Seq<char>, y: Seq<char>, i: int)
    requires
        0 <= i < y.len(),
        filter::token_at(y, i) is Ok,
    ensures
        filter::token_at(x + y, x.len() + i) == Ok::<(TokenView, int), ErrorView>(
            (filter::token_at(y, i)->Ok_0.0, x.len() + filter::token_at(y, i)->Ok_0.1),
        ),
{
    let w = x + y;
    let n = x.len() as int;
    let c = y[i];
    assert(w[n + i] == c);
    if c == '!' {
        assert(w[n + i + 1] == y[i + 1]);
    } else if c == '"' {
        lemma_string_behind(x, y, i + 1);
        assert(n + i + 1 == n + (i + 1));
    } else if filter::is_word_start(c) {
        lemma_word_behind(x, y, i);
        filter::lemma_word_end(y, i);
        let end = filter::word_end(y, i);
        assert(w.subrange(n + i, n + end) =~= y.subrange(i, end));
        if filter::keyword(y.subrange(i, end)) is None && y.subrange(i, end) == "attributes"@ {
            assert(w[n + end] == y[end]);
            filter::lemma_word_end(y, end + 1);
            let last = filter::word_end(y, end + 1);
            assert(end + 1 < last);
            lemma_word_behind(x, y, end + 1);
            assert(n + end + 1 == n + (end + 1));
            assert(w[n + (end + 1)] == y[end + 1]);
            assert(w.subrange(n + end + 1, n + last) =~= y.subrange(end + 1, last));
        }
    }
}

/// The tokens of a text come first once another text follows.
proof fn lemma_tokens_before(x: Seq<char>, y: Seq<char>, i: int)
    requires
        apart(x, y),
        0 <= i <= x.len(),
        filter::tokens_from(x, i) is Ok,
        filter::tokens_from(x + y, x.len() as int) is Ok,
    ensures
        filter::tokens_from(x + y, i) is Ok,
        kinds(filter::tokens_from(x + y, i)->Ok_0) == kinds(filter::tokens_from(x, i)->Ok_0)
            + kinds(filter::tokens_from(x + y, x.len() as int)->Ok_0),
    decreases x.len() - i,
{
    let w = x + y;
    let rest = kinds(filter::tokens_from(w, x.len() as int)->Ok_0);
    if i == x.len() {
        assert(kinds(filter::tokens_from(x, i)->Ok_0) + rest =~= rest);
    } else {
        assert(w[i] == x[i]);
        if filter::is_space(x[i]) {
            lemma_tokens_before(x, y, i + 1);
        } else {
            lemma_token_before(x, y, i);
            filter::lemma_token_at(x, i);
            let (t, end) = filter::token_at(x, i)->Ok_0;
            lemma_tokens_before(x, y, end);
            let tail = filter::tokens_from(x, end)->Ok_0;
            let wide = filter::tokens_from(w, end)->Ok_0;
            assert(filter::tokens_from(x, i)->Ok_0 == seq![(t, filter::position_of(x, i))] + tail);
            assert(filter::tokens_from(w, i)->Ok_0 == seq![(t, filter::position_of(w, i))] + wide);
            assert(kinds(seq![(t, filter::position_of(x, i))] + tail) =~= seq![t] + kinds(tail));
            assert(kinds(seq![(t, filter::position_of(w, i))] + wide) =~= seq![t] + kinds(wide));
            assert(seq![t] + (kinds(tail) + rest) =~= seq![t] + kinds(tail) + rest);
        }
    }
}

/// The tokens of a text are the same from its start on once another text stands in front.
proof fn lemma_tokens_behind(x: Seq<char>, y: Seq<char>, i: int)
    requires
        0 <= i <= y.len(),
        filter::tokens_from(y, i) is Ok,
    ensures
        filter::tokens_from(x + y, x.len() + i) is Ok,
        kinds(filter::tokens_from(x + y, x.len() + i)->Ok_0) == kinds(
            filter::tokens_from(y, i)->Ok_0,
        ),
    decreases y.len() - i,
{
    let w = x + y;
    let n = x.len() as int;
    if i < y.len() {
        assert(w[n + i] == y[i]);
        if filter::is_space(y[i]) {
            lemma_tokens_behind(x, y, i + 1);
            assert(n + i + 1 == n + (i + 1));
        } else {
            lemma_token_behind(x, y, i);
            filter::lemma_token_at(y, i);
            let (t, end) = filter::token_at(y, i)->Ok_0;
            lemma_tokens_behind(x, y, end);
            let tail = filter::tokens_from(y, end)->Ok_0;
            let wide = filter::tokens_from(w, n + end)->Ok_0;
            assert(filter::tokens_from(y, i)->Ok_0 == seq![(t, filter::position_of(y, i))] + tail);
            assert(filter::tokens_from(w, n + i)->Ok_0 == seq![
                (t, filter::position_of(w, n + i)),
            ] + wide);
            assert(kinds(seq![(t, filter::position_of(y, i))] + tail) =~= seq![t] + kinds(tail));
            assert(kinds(seq![(t, filter::position_of(w, n + i))] + wide) =~= seq![t] + kinds(
                wide,
            ));
        }
    }
}

/// Two texts behind each other have the tokens of both.
proof fn lemma_joined(x: Seq<char>, y: Seq<char>, wx: Seq<TokenView>, wy: Seq<TokenView>)
    requires
        apart(x, y),
        has_tokens(x, wx),
        has_tokens(y, wy),
    ensures
        has_tokens(x + y, wx + wy),
{
    lemma_tokens_behind(x, y, 0);
    lemma_tokens_before(x, y, 0);
}

/// A list of tokens with its counterpart in a longer one, behind which a closing parenthesis or
/// nothing stands.
spec fn inside(t: Seq<(TokenView, int)>, w: Seq<(TokenView, int)>, m: int) -> bool {
    &&& 0 <= m
    &&& m + t.len() <= w.len()
    &&& forall|i: int| 0 <= i < t.len() ==> (#[trigger] w[m + i]).0 == t[i].0
    &&& m + t.len() < w.len() ==> w[m + t.len()].0 == TokenView::RParen
}

/// An operator stands at a place of the list where it stands at its counterpart.
proof fn lemma_inside(t: Seq<(TokenView, int)>, w: Seq<(TokenView, int)>, m: int, i: int, k: TokenView)
    requires
        inside(t, w, m),
        0 <= i <= t.len(),
        k != TokenView::RParen || i < t.len(),
    ensures
        filter::is_at(t, i, k) == filter::is_at(w, m + i, k),
{
    if i < t.len() {
        assert(w[m + i].0 == t[i].0);
    }
}

proof fn lemma_or_inside(t: Seq<(TokenView, int)>, w: Seq<(TokenView, int)>, m: int, at: int)
    requires
        inside(t, w, m),
        0 <= at <= t.len(),
        filter::or_at(t, at) is Ok,
    ensures
        filter::or_at(w, m + at) == Parsed::Ok(
            (filter::or_at(t, at)->Ok_0.0, m + filter::or_at(t, at)->Ok_0.1),
        ),
        at < filter::or_at(t, at)->Ok_0.1 <= t.len(),
    decreases t.len() - at, 5int,
{
    lemma_and_inside(t, w, m, at);
    let (left, next) = filter::and_at(t, at)->Ok_0;
    lemma_or_rest_inside(t, w, m, left, next);
}

proof fn lemma_or_rest_inside(
    t: Seq<(TokenView, int)>,
    w: Seq<(TokenView, int)>,
    m: int,
    left: ExprView,
    at: int,
)
    requires
        inside(t, w, m),
        0 <= at <= t.len(),
        filter::or_rest(t, left, at) is Ok,
    ensures
        filter::or_rest(w, left, m + at) == Parsed::Ok(
            (filter::or_rest(t, left, at)->Ok_0.0, m + filter::or_rest(t, left, at)->Ok_0.1),
        ),
        at <= filter::or_rest(t, left, at)->Ok_0.1 <= t.len(),
    decreases t.len() - at, 0int,
{
    lemma_inside(t, w, m, at, TokenView::Or);
    if filter::is_at(t, at, TokenView::Or) {
        assert(m + at + 1 == m + (at + 1));
        lemma_and_inside(t, w, m, at + 1);
        let (right, next) = filter::and_at(t, at + 1)->Ok_0;
        lemma_or_rest_inside(t, w, m, ExprView::Or(Box::new(left), Box::new(right)), next);
    }
}

proof fn lemma_and_inside(t: Seq<(TokenView, int)>, w: Seq<(TokenView, int)>, m: int, at: int)
    requires
        inside(t, w, m),
        0 <= at <= t.len(),
        filter::and_at(t, at) is Ok,
    ensures
        filter::and_at(w, m + at) == Parsed::Ok(
            (filter::and_at(t, at)->Ok_0.0, m + filter::and_at(t, at)->Ok_0.1),
        ),
        at < filter::and_at(t, at)->Ok_0.1 <= t.len(),
    decreases t.len() - at, 4int,
{
    lemma_not_inside(t, w, m, at);
    let (left, next) = filter::not_at(t, at)->Ok_0;
    lemma_and_rest_inside(t, w, m, left, next);
}

proof fn lemma_and_rest_inside(
    t: Seq<(TokenView, int)>,
    w: Seq<(TokenView, int)>,
    m: int,
    left: ExprView,
    at: int,
)
    requires
        inside(t, w, m),
        0 <= at <= t.len(),
        filter::and_rest(t, left, at) is Ok,
    ensures
        filter::and_rest(w, left, m + at) == Parsed::Ok(
            (filter::and_rest(t, left, at)->Ok_0.0, m + filter::and_rest(t, left, at)->Ok_0.1),
        ),
        at <= filter::and_rest(t, left, at)->Ok_0.1 <= t.len(),
    decreases t.len() - at, 0int,
{
    lemma_inside(t, w, m, at, TokenView::And);
    if filter::is_at(t, at, TokenView::And) {
        assert(m + at + 1 == m + (at + 1));
        lemma_not_inside(t, w, m, at + 1);
        let (right, next) = filter::not_at(t, at + 1)->Ok_0;
        lemma_and_rest_inside(t, w, m, ExprView::And(Box::new(left), Box::new(right)), next);
    }
}

proof fn lemma_not_inside(t: Seq<(TokenView, int)>, w: Seq<(TokenView, int)>, m: int, at: int)
    requires
        inside(t, w, m),
        0 <= at <= t.len(),
        filter::not_at(t, at) is Ok,
    ensures
        filter::not_at(w, m + at) == Parsed::Ok(
            (filter::not_at(t, at)->Ok_0.0, m + filter::not_at(t, at)->Ok_0.1),
        ),
        at < filter::not_at(t, at)->Ok_0.1 <= t.len(),
    decreases t.len() - at, 3int,
{
    lemma_inside(t, w, m, at, TokenView::Not);
    if filter::is_at(t, at, TokenView::Not) {
        assert(m + at + 1 == m + (at + 1));
        lemma_not_inside(t, w, m, at + 1);
    } else {
        lemma_primary_inside(t, w, m, at);
    }
}

proof fn lemma_primary_inside(t: Seq<(TokenView, int)>, w: Seq<(TokenView, int)>, m: int, at: int)
    requires
        inside(t, w, m),
        0 <= at <= t.len(),
        filter::primary_at(t, at) is Ok,
    ensures
        filter::primary_at(w, m + at) == Parsed::Ok(
            (filter::primary_at(t, at)->Ok_0.0, m + filter::primary_at(t, at)->Ok_0.1),
        ),
        at < filter::primary_at(t, at)->Ok_0.1 <= t.len(),
    decreases t.len() - at, 2int,
{
    assert(w[m + at].0 == t[at].0);
    match t[at].0 {
        TokenView::LParen => {
            assert(m + at + 1 == m + (at + 1));
            lemma_or_inside(t, w, m, at + 1);
            let next = filter::or_at(t, at + 1)->Ok_0.1;
            assert(w[m + next].0 == t[next].0);
        },
        TokenView::Attribute(key) => {
            assert(w[m + (at + 1)].0 == t[at + 1].0);
            assert(w[m + (at + 2)].0 == t[at + 2].0);
            assert(m + at + 1 == m + (at + 1) && m + at + 2 == m + (at + 2));
        },
        TokenView::Ident(name) => {
            assert(filter::is_at(t, at + 1, TokenView::LParen));
            assert(w[m + (at + 1)].0 == t[at + 1].0);
            assert(w[m + (at + 2)].0 == t[at + 2].0);
            assert(w[m + (at + 3)].0 == t[at + 3].0);
            assert(w[m + (at + 4)].0 == t[at + 4].0);
            assert(w[m + (at + 5)].0 == t[at + 5].0);
            assert(m + at + 1 == m + (at + 1) && m + at + 2 == m + (at + 2) && m + at + 3 == m + (at
                + 3) && m + at + 4 == m + (at + 4) && m + at + 5 == m + (at + 5));
        },
        _ => {},
    }
}

/// A filter in parentheses is an operand like any other.
proof fn lemma_operand(t: Seq<(TokenView, int)>, w: Seq<(TokenView, int)>, m: int, e: ExprView)
    requires
        filter::filter_of_tokens(t) == Ok::<ExprView, ErrorView>(e),
        inside(t, w, m + 1),
        0 <= m,
        w[m].0 == TokenView::LParen,
        m + 1 + t.len() < w.len(),
    ensures
        filter::not_at(w, m) == Parsed::Ok((e, m + t.len() + 2)),
{
    lemma_or_inside(t, w, m + 1, 0);
    assert(filter::or_at(t, 0)->Ok_0.1 == t.len());
    assert(filter::or_at(w, m + 1) == Parsed::Ok((e, m + 1 + t.len())));
    assert(filter::is_at(w, m + 1 + t.len(), TokenView::RParen));
    assert(filter::primary_at(w, m) == Parsed::Ok((e, m + 1 + t.len() + 1)));
    assert(!filter::is_at(w, m, TokenView::Not));
}

/// The tokens of the glue that filters are put together with.
proof fn lemma_glue()
    ensures
        has_tokens("("@, seq![TokenView::LParen]),
        has_tokens(")"@, seq![TokenView::RParen]),
        "("@.last() == '(' && "("@.len() == 1,
        ")"@[0] == ')' && ")"@.len() == 1,
{
    reveal_strlit("(");
    reveal_strlit(")");
    reveal_with_fuel(filter::tokens_from, 3);
    assert(filter::tokens_from("("@, 1) == Ok::<Seq<(TokenView, int)>, ErrorView>(Seq::empty()));
    assert(filter::tokens_from(")"@, 1) == Ok::<Seq<(TokenView, int)>, ErrorView>(Seq::empty()));
    assert(kinds(filter::tokens_from("("@, 0)->Ok_0) =~= seq![TokenView::LParen]);
    assert(kinds(filter::tokens_from(")"@, 0)->Ok_0) =~= seq![TokenView::RParen]);
}

/// A text between parentheses.
pub open spec fn in_parens(a: Seq<char>) -> Seq<char> {
    "("@ + a + ")"@
}

/// A text between parentheses has the tokens of the text between those of the parentheses.
proof fn lemma_in_parens(a: Seq<char>, wa: Seq<TokenView>)
    requires
        has_tokens(a, wa),
    ensures
        has_tokens(in_parens(a), seq![TokenView::LParen] + wa + seq![TokenView::RParen]),
        in_parens(a)[0] == '(',
        in_parens(a).last() == ')',
{
    lemma_glue();
    lemma_joined("("@, a, seq![TokenView::LParen], wa);
    lemma_joined("("@ + a, ")"@, seq![TokenView::LParen] + wa, seq![TokenView::RParen]);
}

/// The tokens of the words that operators are written as, with a space on each side that another
/// token may follow on.
proof fn lemma_operators()
    ensures
        has_tokens(" AND "@, seq![TokenView::And]),
        has_tokens(" OR "@, seq![TokenView::Or]),
        has_tokens("NOT "@, seq![TokenView::Not]),
        " AND "@.len() > 0 && " OR "@.len() > 0,
        " AND "@[0] == ' ' && " AND "@.last() == ' ',
        " OR "@[0] == ' ' && " OR "@.last() == ' ',
        "NOT "@.last() == ' ',
{
    reveal_strlit(" AND ");
    reveal_strlit(" OR ");
    reveal_strlit("NOT ");
    lemma_keyword(" AND "@, 1, 4, TokenView::And);
    lemma_keyword(" OR "@, 1, 3, TokenView::Or);
    lemma_keyword("NOT "@, 0, 3, TokenView::Not);
}

/// A keyword with at most one space in front and one behind is its token.
proof fn lemma_keyword(b: Seq<char>, start: int, end: int, t: TokenView)
    requires
        0 <= start <= 1,
        start < end,
        b.len() == end + 1,
        start == 1 ==> b[0] == ' ',
        b[end] == ' ',
        end - start <= 3,
        filter::is_word_start(b[start]),
        forall|i: int| start <= i < end ==> filter::is_word_char(#[trigger] b[i]),
        filter::keyword(b.subrange(start, end)) == Some(t),
    ensures
        has_tokens(b, seq![t]),
{
    reveal_with_fuel(filter::word_end, 5);
    reveal_with_fuel(filter::tokens_from, 3);
    assert(filter::word_end(b, end) == end);
    assert(filter::word_end(b, end - 1) == end);
    if end - start >= 2 {
        assert(filter::word_end(b, end - 2) == end);
    }
    if end - start >= 3 {
        assert(filter::word_end(b, end - 3) == end);
    }
    assert(filter::word_end(b, start) == end);
    assert(filter::token_at(b, start) == Ok::<(TokenView, int), ErrorView>((t, end)));
    assert(filter::tokens_from(b, end) == Ok::<Seq<(TokenView, int)>, ErrorView>(Seq::empty()));
    assert(filter::tokens_from(b, start)->Ok_0 =~= seq![(t, filter::position_of(b, start))]);
    assert(kinds(filter::tokens_from(b, 0)->Ok_0) =~= seq![t]);
}

/// Parentheses around a filter change nothing.
pub proof fn law_parentheses_change_nothing(a: Seq<char>, e: ExprView)
    requires
        filter::filter_of(a) == Ok::<ExprView, ErrorView>(e),
    ensures
        filter::filter_of(in_parens(a)) == Ok::<ExprView, ErrorView>(e),
{
    let ta = filter::tokens_from(a, 0)->Ok_0;
    lemma_in_parens(a, kinds(ta));
    let w = filter::tokens_from(in_parens(a), 0)->Ok_0;
    let k = seq![TokenView::LParen] + kinds(ta) + seq![TokenView::RParen];
    assert(kinds(w) == k);
    lemma_placed(ta, w, 1);
    assert(kinds(w)[0] == TokenView::LParen);
    lemma_operand(ta, w, 0, e);
    let end = ta.len() + 2;
    assert(w.len() == end);
    assert(filter::and_rest(w, e, end as int) == Parsed::Ok((e, end as int)));
    assert(filter::or_rest(w, e, end as int) == Parsed::Ok((e, end as int)));
}

/// Where the tokens stand in a list with a closing parenthesis behind them, they stand inside it.
proof fn lemma_placed(t: Seq<(TokenView, int)>, w: Seq<(TokenView, int)>, m: int)
    requires
        0 <= m,
        m + t.len() < kinds(w).len(),
        kinds(w).subrange(m, m + t.len()) =~= kinds(t),
        kinds(w)[m + t.len()] == TokenView::RParen,
    ensures
        inside(t, w, m),
{
    assert forall|i: int| 0 <= i < t.len() implies (#[trigger] w[m + i]).0 == t[i].0 by {
        assert(kinds(w).subrange(m, m + t.len())[i] == kinds(t)[i]);
        assert(kinds(w)[m + i] == w[m + i].0);
    }
    assert(kinds(w)[m + t.len()] == w[m + t.len()].0);
}

/// Whether the text is nothing but spaces.
pub open spec fn is_blank(s: Seq<char>) -> bool {
    forall|i: int|
        0 <= i < s.len() ==> (#[trigger] s[i] == ' ' || s[i] == '\t' || s[i] == '\n' || s[i] == '\r')
}

/// The parsed filter goes by the tokens, and not by their positions.
proof fn lemma_positions_do_not_matter(t: Seq<(TokenView, int)>, w: Seq<(TokenView, int)>, e: ExprView)
    requires
        filter::filter_of_tokens(t) == Ok::<ExprView, ErrorView>(e),
        kinds(t) == kinds(w),
    ensures
        filter::filter_of_tokens(w) == Ok::<ExprView, ErrorView>(e),
{
    lemma_kinds(t);
    lemma_kinds(w);
    assert forall|i: int| 0 <= i < t.len() implies (#[trigger] w[0 + i]).0 == t[i].0 by {
        assert(kinds(t)[i] == t[i].0);
        assert(kinds(w)[i] == w[i].0);
        assert(w[0 + i] == w[i]);
    }
    assert(inside(t, w, 0));
    lemma_or_inside(t, w, 0, 0);
}

/// Spaces around a filter change nothing.
pub proof fn law_spaces_change_nothing(front: Seq<char>, a: Seq<char>, back: Seq<char>, e: ExprView)
    requires
        filter::filter_of(a) == Ok::<ExprView, ErrorView>(e),
        is_blank(front),
        is_blank(back),
    ensures
        filter::filter_of(front + a + back) == Ok::<ExprView, ErrorView>(e),
{
    let ta = filter::tokens_from(a, 0)->Ok_0;
    let none = Seq::<TokenView>::empty();
    filter_laws::lemma_blank(front, 0);
    filter_laws::lemma_blank(back, 0);
    assert(kinds(Seq::<(TokenView, int)>::empty()) =~= none);
    if front.len() > 0 {
        assert(filter::is_space(front[front.len() - 1]));
    }
    if back.len() > 0 {
        assert(filter::is_space(back[0]));
    }
    lemma_joined(front, a, none, kinds(ta));
    lemma_joined(front + a, back, none + kinds(ta), none);
    assert(none + kinds(ta) + none =~= kinds(ta));
    lemma_positions_do_not_matter(ta, filter::tokens_from(front + a + back, 0)->Ok_0, e);
}

/// The tokens of two filters in parentheses with an operator between them.
proof fn lemma_between(a: Seq<char>, op: Seq<char>, b: Seq<char>, k: TokenView)
    requires
        filter::tokens_from(a, 0) is Ok,
        filter::tokens_from(b, 0) is Ok,
        has_tokens(op, seq![k]),
        op.len() > 0,
        op[0] == ' ',
        op.last() == ' ',
    ensures
        ({
            let ta = filter::tokens_from(a, 0)->Ok_0;
            let tb = filter::tokens_from(b, 0)->Ok_0;
            let text = in_parens(a) + op + in_parens(b);
            let w = filter::tokens_from(text, 0)->Ok_0;
            let n = ta.len() as int;
            &&& filter::tokens_from(text, 0) is Ok
            &&& w.len() == n + tb.len() + 5
            &&& w[0].0 == TokenView::LParen
            &&& inside(ta, w, 1)
            &&& w[n + 2].0 == k
            &&& w[n + 3].0 == TokenView::LParen
            &&& inside(tb, w, n + 4)
        }),
{
    let ta = filter::tokens_from(a, 0)->Ok_0;
    let tb = filter::tokens_from(b, 0)->Ok_0;
    let n = ta.len() as int;
    let ka = seq![TokenView::LParen] + kinds(ta) + seq![TokenView::RParen];
    let kb = seq![TokenView::LParen] + kinds(tb) + seq![TokenView::RParen];
    lemma_in_parens(a, kinds(ta));
    lemma_in_parens(b, kinds(tb));
    lemma_joined(in_parens(a), op, ka, seq![k]);
    lemma_joined(in_parens(a) + op, in_parens(b), ka + seq![k], kb);
    let w = filter::tokens_from(in_parens(a) + op + in_parens(b), 0)->Ok_0;
    let all = ka + seq![k] + kb;
    assert(kinds(w) == all);
    assert(all[0] == TokenView::LParen);
    assert(all[n + 2] == k);
    assert(all[n + 3] == TokenView::LParen);
    assert(kinds(w)[0] == w[0].0);
    assert(kinds(w)[n + 2] == w[n + 2].0);
    assert(kinds(w)[n + 3] == w[n + 3].0);
    assert(all.subrange(1, 1 + n) =~= kinds(ta));
    assert(all.subrange(n + 4, n + 4 + tb.len()) =~= kinds(tb));
    lemma_placed(ta, w, 1);
    lemma_placed(tb, w, n + 4);
}

/// Two filters in parentheses with the operator `AND` between them are read as that.
proof fn lemma_and_between(
    a: Seq<char>,
    op: Seq<char>,
    b: Seq<char>,
    ea: ExprView,
    eb: ExprView,
)
    requires
        filter::filter_of(a) == Ok::<ExprView, ErrorView>(ea),
        filter::filter_of(b) == Ok::<ExprView, ErrorView>(eb),
        has_tokens(op, seq![TokenView::And]),
        op.len() > 0,
        op[0] == ' ',
        op.last() == ' ',
    ensures
        filter::filter_of(in_parens(a) + op + in_parens(b)) == Ok::<ExprView, ErrorView>(
            ExprView::And(Box::new(ea), Box::new(eb)),
        ),
{
    lemma_between(a, op, b, TokenView::And);
    let ta = filter::tokens_from(a, 0)->Ok_0;
    let tb = filter::tokens_from(b, 0)->Ok_0;
    let w = filter::tokens_from(in_parens(a) + op + in_parens(b), 0)->Ok_0;
    let n = ta.len() as int;
    let end = w.len() as int;
    let e = ExprView::And(Box::new(ea), Box::new(eb));
    lemma_operand(ta, w, 0, ea);
    lemma_operand(tb, w, n + 3, eb);
    assert(filter::is_at(w, n + 2, TokenView::And));
    assert(filter::and_rest(w, e, end) == Parsed::Ok((e, end)));
    assert(filter::and_rest(w, ea, n + 2) == Parsed::Ok((e, end)));
    assert(filter::and_at(w, 0) == Parsed::Ok((e, end)));
    assert(filter::or_rest(w, e, end) == Parsed::Ok((e, end)));
    assert(filter::or_at(w, 0) == Parsed::Ok((e, end)));
}

/// Two filters in parentheses with the operator `OR` between them are read as that.
proof fn lemma_or_between(
    a: Seq<char>,
    op: Seq<char>,
    b: Seq<char>,
    ea: ExprView,
    eb: ExprView,
)
    requires
        filter::filter_of(a) == Ok::<ExprView, ErrorView>(ea),
        filter::filter_of(b) == Ok::<ExprView, ErrorView>(eb),
        has_tokens(op, seq![TokenView::Or]),
        op.len() > 0,
        op[0] == ' ',
        op.last() == ' ',
    ensures
        filter::filter_of(in_parens(a) + op + in_parens(b)) == Ok::<ExprView, ErrorView>(
            ExprView::Or(Box::new(ea), Box::new(eb)),
        ),
{
    lemma_between(a, op, b, TokenView::Or);
    let ta = filter::tokens_from(a, 0)->Ok_0;
    let tb = filter::tokens_from(b, 0)->Ok_0;
    let w = filter::tokens_from(in_parens(a) + op + in_parens(b), 0)->Ok_0;
    let n = ta.len() as int;
    let end = w.len() as int;
    let e = ExprView::Or(Box::new(ea), Box::new(eb));
    lemma_operand(ta, w, 0, ea);
    lemma_operand(tb, w, n + 3, eb);
    assert(filter::is_at(w, n + 2, TokenView::Or));
    assert(filter::and_rest(w, ea, n + 2) == Parsed::Ok((ea, n + 2)));
    assert(filter::and_at(w, 0) == Parsed::Ok((ea, n + 2)));
    assert(filter::and_rest(w, eb, end) == Parsed::Ok((eb, end)));
    assert(filter::and_at(w, n + 3) == Parsed::Ok((eb, end)));
    assert(filter::or_rest(w, e, end) == Parsed::Ok((e, end)));
    assert(filter::or_rest(w, ea, n + 2) == Parsed::Ok((e, end)));
    assert(filter::or_at(w, 0) == Parsed::Ok((e, end)));
}

/// A filter in parentheses with the operator `NOT` in front is read as that.
proof fn lemma_not_before(op: Seq<char>, a: Seq<char>, ea: ExprView)
    requires
        filter::filter_of(a) == Ok::<ExprView, ErrorView>(ea),
        has_tokens(op, seq![TokenView::Not]),
        op.len() > 0,
        op.last() == ' ',
    ensures
        filter::filter_of(op + in_parens(a)) == Ok::<ExprView, ErrorView>(
            ExprView::Not(Box::new(ea)),
        ),
{
    let ta = filter::tokens_from(a, 0)->Ok_0;
    let ka = seq![TokenView::LParen] + kinds(ta) + seq![TokenView::RParen];
    lemma_in_parens(a, kinds(ta));
    lemma_joined(op, in_parens(a), seq![TokenView::Not], ka);
    let w = filter::tokens_from(op + in_parens(a), 0)->Ok_0;
    let all = seq![TokenView::Not] + ka;
    assert(kinds(w) == all);
    assert(kinds(w)[0] == w[0].0 && all[0] == TokenView::Not);
    assert(kinds(w)[1] == w[1].0 && all[1] == TokenView::LParen);
    assert(all.subrange(2, (2 + ta.len()) as int) =~= kinds(ta));
    lemma_placed(ta, w, 2);
    lemma_operand(ta, w, 1, ea);
    let end = w.len() as int;
    let e = ExprView::Not(Box::new(ea));
    assert(filter::is_at(w, 0, TokenView::Not));
    assert(filter::not_at(w, 0) == Parsed::Ok((e, end)));
    assert(filter::and_rest(w, e, end) == Parsed::Ok((e, end)));
    assert(filter::and_at(w, 0) == Parsed::Ok((e, end)));
    assert(filter::or_rest(w, e, end) == Parsed::Ok((e, end)));
    assert(filter::or_at(w, 0) == Parsed::Ok((e, end)));
}

/// Two filters in parentheses with `AND` between them match what both match.
pub proof fn law_and_joins_filters(
    a: Seq<char>,
    b: Seq<char>,
    ea: ExprView,
    eb: ExprView,
    attributes: Option<Map<Seq<char>, Seq<char>>>,
)
    requires
        filter::filter_of(a) == Ok::<ExprView, ErrorView>(ea),
        filter::filter_of(b) == Ok::<ExprView, ErrorView>(eb),
    ensures
        filter::filter_of(in_parens(a) + " AND "@ + in_parens(b)) matches Ok(e)
            && filter::satisfies(e, attributes) == (filter::satisfies(ea, attributes)
            && filter::satisfies(eb, attributes)),
{
    lemma_operators();
    lemma_and_between(a, " AND "@, b, ea, eb);
}

/// Two filters in parentheses with `OR` between them match what either matches.
pub proof fn law_or_joins_filters(
    a: Seq<char>,
    b: Seq<char>,
    ea: ExprView,
    eb: ExprView,
    attributes: Option<Map<Seq<char>, Seq<char>>>,
)
    requires
        filter::filter_of(a) == Ok::<ExprView, ErrorView>(ea),
        filter::filter_of(b) == Ok::<ExprView, ErrorView>(eb),
    ensures
        filter::filter_of(in_parens(a) + " OR "@ + in_parens(b)) matches Ok(e)
            && filter::satisfies(e, attributes) == (filter::satisfies(ea, attributes)
            || filter::satisfies(eb, attributes)),
{
    lemma_operators();
    lemma_or_between(a, " OR "@, b, ea, eb);
}

/// A filter in parentheses with `NOT` in front matches what the filter does not match.
pub proof fn law_not_negates_filter(
    a: Seq<char>,
    ea: ExprView,
    attributes: Option<Map<Seq<char>, Seq<char>>>,
)
    requires
        filter::filter_of(a) == Ok::<ExprView, ErrorView>(ea),
    ensures
        filter::filter_of("NOT "@ + in_parens(a)) matches Ok(e) && filter::satisfies(e, attributes)
            == !filter::satisfies(ea, attributes),
{
    lemma_operators();
    reveal_strlit("NOT ");
    lemma_not_before("NOT "@, a, ea);
}

/// Two filters behind each other with no operator between them are no filter.
pub proof fn law_filters_need_an_operator(
    a: Seq<char>,
    b: Seq<char>,
    ea: ExprView,
    eb: ExprView,
)
    requires
        filter::filter_of(a) == Ok::<ExprView, ErrorView>(ea),
        filter::filter_of(b) == Ok::<ExprView, ErrorView>(eb),
    ensures
        filter::filter_of(in_parens(a) + in_parens(b)) matches Err(e) && e is UnexpectedToken,
{
    let ta = filter::tokens_from(a, 0)->Ok_0;
    let tb = filter::tokens_from(b, 0)->Ok_0;
    let ka = seq![TokenView::LParen] + kinds(ta) + seq![TokenView::RParen];
    let kb = seq![TokenView::LParen] + kinds(tb) + seq![TokenView::RParen];
    lemma_in_parens(a, kinds(ta));
    lemma_in_parens(b, kinds(tb));
    lemma_joined(in_parens(a), in_parens(b), ka, kb);
    let w = filter::tokens_from(in_parens(a) + in_parens(b), 0)->Ok_0;
    let all = ka + kb;
    let n = ta.len() as int;
    assert(kinds(w) == all);
    assert(kinds(w)[0] == w[0].0 && all[0] == TokenView::LParen);
    assert(kinds(w)[n + 2] == w[n + 2].0 && all[n + 2] == TokenView::LParen);
    assert(all.subrange(1, 1 + n) =~= kinds(ta));
    assert(all[n + 1] == TokenView::RParen);
    lemma_placed(ta, w, 1);
    lemma_operand(ta, w, 0, ea);
    assert(!filter::is_at(w, n + 2, TokenView::And));
    assert(!filter::is_at(w, n + 2, TokenView::Or));
    assert(filter::and_rest(w, ea, n + 2) == Parsed::Ok((ea, n + 2)));
    assert(filter::and_at(w, 0) == Parsed::Ok((ea, n + 2)));
    assert(filter::or_rest(w, ea, n + 2) == Parsed::Ok((ea, n + 2)));
    assert(filter::or_at(w, 0) == Parsed::Ok((ea, n + 2)));
}

/// Whether the character is an ASCII letter or an underscore.
pub open spec fn is_letter(c: char) -> bool {
    'a' <= c <= 'z' || 'A' <= c <= 'Z' || c == '_'
}

/// Whether the character is an ASCII letter or digit, an underscore or a hyphen.
pub open spec fn is_letter_or_digit(c: char) -> bool {
    is_letter(c) || '0' <= c <= '9' || c == '-'
}

/// Whether the text can be an attribute key.
pub open spec fn is_key(key: Seq<char>) -> bool {
    &&& key.len() > 0
    &&& is_letter(key[0])
    &&& forall|i: int| 0 <= i < key.len() ==> is_letter_or_digit(#[trigger] key[i])
}

/// A run of identifier characters up to the end of the text ends there.
proof fn lemma_word_to_end(b: Seq<char>, i: int)
    requires
        0 <= i <= b.len(),
        forall|j: int| i <= j < b.len() ==> filter::is_word_char(#[trigger] b[j]),
    ensures
        filter::word_end(b, i) == b.len(),
    decreases b.len() - i,
{
    if i < b.len() {
        lemma_word_to_end(b, i + 1);
    }
}

/// The token of an attribute.
proof fn lemma_attribute(key: Seq<char>)
    requires
        is_key(key),
    ensures
        has_tokens("attributes."@ + key, seq![TokenView::Attribute(key)]),
{
    reveal_strlit("attributes.");
    reveal_strlit("attributes");
    let b = "attributes."@ + key;
    let word = "attributes"@;
    assert(b.subrange(0, 10) =~= word);
    lemma_word_to_end(word, 0);
    assert(b =~= word + b.subrange(10, b.len() as int));
    assert(b[10] == '.');
    lemma_word_before(word, b.subrange(10, b.len() as int), 0);
    assert(filter::word_end(b, 0) == 10);
    assert forall|j: int| 11 <= j < b.len() implies filter::is_word_char(#[trigger] b[j]) by {
        assert(b[j] == key[j - 11]);
    }
    lemma_word_to_end(b, 11);
    assert(b.subrange(11, b.len() as int) =~= key);
    assert(b[11] == key[0]);
    let end = b.len() as int;
    assert(filter::token_at(b, 0) == Ok::<(TokenView, int), ErrorView>(
        (TokenView::Attribute(key), end),
    ));
    assert(filter::tokens_from(b, end) == Ok::<Seq<(TokenView, int)>, ErrorView>(Seq::empty()));
    assert(kinds(filter::tokens_from(b, 0)->Ok_0) =~= seq![TokenView::Attribute(key)]);
}

/// A text as a string literal.
pub open spec fn quoted(s: Seq<char>) -> Seq<char> {
    "\""@ + filter_laws::escaped(s) + "\""@
}

/// The token of a string literal.
proof fn lemma_quoted(s: Seq<char>)
    ensures
        has_tokens(quoted(s), seq![TokenView::Str(s)]),
{
    reveal_strlit("\"");
    let b = quoted(s);
    filter_laws::law_string_literal_reads_back("\""@, s, Seq::empty());
    assert("\""@ + filter_laws::escaped(s) + seq!['"'] + Seq::<char>::empty() =~= b);
    let end = b.len() as int;
    assert(b[0] == '"');
    assert(filter::token_at(b, 0) == Ok::<(TokenView, int), ErrorView>((TokenView::Str(s), end)));
    assert(filter::tokens_from(b, end) == Ok::<Seq<(TokenView, int)>, ErrorView>(Seq::empty()));
    assert(kinds(filter::tokens_from(b, 0)->Ok_0) =~= seq![TokenView::Str(s)]);
}

/// How a comparison is written between its operands.
pub open spec fn comparison_sign(negated: bool) -> Seq<char> {
    if negated {
        " != "@
    } else {
        " = "@
    }
}

/// The token of a comparison.
spec fn comparison_token(negated: bool) -> TokenView {
    if negated {
        TokenView::NotEq
    } else {
        TokenView::Eq
    }
}

/// The token of a comparison between spaces.
proof fn lemma_comparison_sign(negated: bool)
    ensures
        has_tokens(comparison_sign(negated), seq![comparison_token(negated)]),
        comparison_sign(negated).len() > 0,
        comparison_sign(negated)[0] == ' ',
        comparison_sign(negated).last() == ' ',
{
    reveal_strlit(" = ");
    reveal_strlit(" != ");
    let b = comparison_sign(negated);
    let k = comparison_token(negated);
    let n: int = b.len() as int;
    assert(filter::tokens_from(b, n) == Ok::<Seq<(TokenView, int)>, ErrorView>(Seq::empty()));
    assert(filter::tokens_from(b, n - 1) == Ok::<Seq<(TokenView, int)>, ErrorView>(Seq::empty()));
    assert(filter::token_at(b, 1) == Ok::<(TokenView, int), ErrorView>((k, n - 1)));
    assert(filter::tokens_from(b, 1)->Ok_0 =~= seq![(k, filter::position_of(b, 1))]);
    assert(kinds(filter::tokens_from(b, 0)->Ok_0) =~= seq![k]);
}

/// The filter that compares an attribute with a text, or negates that.
pub open spec fn comparison(key: Seq<char>, s: Seq<char>, negated: bool) -> Seq<char> {
    "attributes."@ + key + comparison_sign(negated) + quoted(s)
}

/// A comparison that is written out is read as that comparison.
proof fn lemma_comparison(key: Seq<char>, s: Seq<char>, negated: bool)
    requires
        is_key(key),
    ensures
        filter::filter_of(comparison(key, s, negated)) == Ok::<ExprView, ErrorView>(
            ExprView::Eq { key, value: s, negated },
        ),
{
    let sign = comparison_sign(negated);
    let k = comparison_token(negated);
    lemma_attribute(key);
    lemma_quoted(s);
    lemma_comparison_sign(negated);
    let front = "attributes."@ + key;
    lemma_joined(front, sign, seq![TokenView::Attribute(key)], seq![k]);
    let two = seq![TokenView::Attribute(key)] + seq![k];
    lemma_joined(front + sign, quoted(s), two, seq![TokenView::Str(s)]);
    let t = filter::tokens_from(comparison(key, s, negated), 0)->Ok_0;
    let e = ExprView::Eq { key, value: s, negated };
    let all = two + seq![TokenView::Str(s)];
    assert(kinds(t) == all);
    assert(kinds(t).len() == all.len());
    let written = filter_laws::write_or(e);
    assert(written == filter_laws::write_and(e));
    assert(written == filter_laws::write_not(e));
    assert(written =~= seq![TokenView::Attribute(key), k, TokenView::Str(s)]);
    assert(written =~= all);
    assert forall|i: int| 0 <= i < written.len() implies (#[trigger] t[0 + i]).0
        == written[i] by {
        assert(kinds(t)[i] == all[i]);
    }
    filter_laws::law_written_filter_parses(e, t);
}

/// A filter can compare an attribute with every text. `attributes.k = "v"` matches a message exactly
/// where the attribute is that text, and `attributes.k != "v"` exactly where the other does not.
pub proof fn law_literal_stands_for_its_text(
    key: Seq<char>,
    s: Seq<char>,
    attributes: Option<Map<Seq<char>, Seq<char>>>,
)
    requires
        is_key(key),
    ensures
        filter::filter_of(comparison(key, s, false)) matches Ok(e) && filter::satisfies(
            e,
            attributes,
        ) == (attributes matches Some(a) && a.contains_key(key) && a[key] == s),
        filter::filter_of(comparison(key, s, true)) matches Ok(e) && filter::satisfies(
            e,
            attributes,
        ) == !(attributes matches Some(a) && a.contains_key(key) && a[key] == s),
{
    lemma_comparison(key, s, false);
    lemma_comparison(key, s, true);
}

/// A word that is neither a keyword nor `attributes` is an identifier.
proof fn lemma_identifier(w: Seq<char>)
    requires
        is_key(w),
        filter::keyword(w) is None,
        w != "attributes"@,
    ensures
        has_tokens(w, seq![TokenView::Ident(w)]),
{
    let end = w.len() as int;
    lemma_word_to_end(w, 0);
    assert(w.subrange(0, end) =~= w);
    assert(filter::token_at(w, 0) == Ok::<(TokenView, int), ErrorView>((TokenView::Ident(w), end)));
    assert(filter::tokens_from(w, end) == Ok::<Seq<(TokenView, int)>, ErrorView>(Seq::empty()));
    assert(kinds(filter::tokens_from(w, 0)->Ok_0) =~= seq![TokenView::Ident(w)]);
}

/// The token of a comma with a space behind it.
proof fn lemma_comma()
    ensures
        has_tokens(", "@, seq![TokenView::Comma]),
        ", "@.len() == 2 && ", "@[0] == ',' && ", "@.last() == ' ',
{
    reveal_strlit(", ");
    let b = ", "@;
    assert(filter::tokens_from(b, 2) == Ok::<Seq<(TokenView, int)>, ErrorView>(Seq::empty()));
    assert(filter::tokens_from(b, 1) == Ok::<Seq<(TokenView, int)>, ErrorView>(Seq::empty()));
    assert(filter::token_at(b, 0) == Ok::<(TokenView, int), ErrorView>((TokenView::Comma, 1)));
    assert(kinds(filter::tokens_from(b, 0)->Ok_0) =~= seq![TokenView::Comma]);
}

/// The filter that tests whether an attribute starts with a text.
pub open spec fn prefix_test(key: Seq<char>, p: Seq<char>) -> Seq<char> {
    "hasPrefix"@ + "("@ + ("attributes."@ + key) + ", "@ + quoted(p) + ")"@
}

/// A test for a prefix that is written out is read as that test.
proof fn lemma_prefix_test(key: Seq<char>, p: Seq<char>)
    requires
        is_key(key),
    ensures
        filter::filter_of(prefix_test(key, p)) == Ok::<ExprView, ErrorView>(
            ExprView::HasPrefix { key, value: p },
        ),
{
    reveal_strlit("hasPrefix");
    reveal_strlit("attributes");
    reveal_strlit("attributes.");
    reveal_strlit("\"");
    let name = "hasPrefix"@;
    assert("attributes"@.len() != name.len());
    lemma_identifier(name);
    lemma_glue();
    lemma_attribute(key);
    lemma_comma();
    lemma_quoted(p);
    let w1 = seq![TokenView::Ident(name)];
    let w2 = w1 + seq![TokenView::LParen];
    let w3 = w2 + seq![TokenView::Attribute(key)];
    let w4 = w3 + seq![TokenView::Comma];
    let w5 = w4 + seq![TokenView::Str(p)];
    let all = w5 + seq![TokenView::RParen];
    let t2 = name + "("@;
    let t3 = t2 + ("attributes."@ + key);
    let t4 = t3 + ", "@;
    let t5 = t4 + quoted(p);
    assert(!filter::is_word_char('(') && !filter::is_word_char(',') && !filter::is_word_char(' '));
    assert(!filter::is_word_char('"') && !filter::is_word_char(')'));
    lemma_joined(name, "("@, w1, seq![TokenView::LParen]);
    lemma_joined(t2, "attributes."@ + key, w2, seq![TokenView::Attribute(key)]);
    lemma_joined(t3, ", "@, w3, seq![TokenView::Comma]);
    lemma_joined(t4, quoted(p), w4, seq![TokenView::Str(p)]);
    lemma_joined(t5, ")"@, w5, seq![TokenView::RParen]);
    let t = filter::tokens_from(prefix_test(key, p), 0)->Ok_0;
    assert(kinds(t) == all);
    assert(kinds(t).len() == all.len());
    let e = ExprView::HasPrefix { key, value: p };
    let written = filter_laws::write_or(e);
    assert(written == filter_laws::write_and(e));
    assert(written == filter_laws::write_not(e));
    assert(written =~= all);
    assert forall|i: int| 0 <= i < written.len() implies (#[trigger] t[0 + i]).0
        == written[i] by {
        assert(kinds(t)[i] == all[i]);
    }
    filter_laws::law_written_filter_parses(e, t);
}

/// A filter can test an attribute for every prefix: `hasPrefix(attributes.k, "p")` matches a message
/// exactly where it has the attribute, and the attribute is that text with some other text behind it.
pub proof fn law_prefix_test_tells_the_start(
    key: Seq<char>,
    p: Seq<char>,
    attributes: Option<Map<Seq<char>, Seq<char>>>,
)
    requires
        is_key(key),
    ensures
        filter::filter_of(prefix_test(key, p)) matches Ok(e) && filter::satisfies(e, attributes) == (
        attributes matches Some(a) && a.contains_key(key) && exists|rest: Seq<char>|
            a[key] == #[trigger] (p + rest)),
{
    lemma_prefix_test(key, p);
    if let Some(a) = attributes {
        if a.contains_key(key) {
            if p.is_prefix_of(a[key]) {
                let rest = a[key].subrange(p.len() as int, a[key].len() as int);
                assert(a[key] =~= p + rest);
            }
            if exists|rest: Seq<char>| a[key] == #[trigger] (p + rest) {
                let rest = choose|rest: Seq<char>| a[key] == #[trigger] (p + rest);
                assert((p + rest).subrange(0, p.len() as int) =~= p);
            }
        }
    }
}

/// A text whose start is the only token there is, followed by identifier characters up to the end.
proof fn lemma_key_behind(separator: char, key: Seq<char>)
    requires
        separator == '.' || separator == ':',
        key.len() > 0,
        forall|i: int| 0 <= i < key.len() ==> is_letter_or_digit(#[trigger] key[i]),
    ensures
        ({
            let b = "attributes"@ + seq![separator] + key;
            filter::token_at(b, 0) == if !is_letter(key[0]) {
                Err::<(TokenView, int), ErrorView>(ErrorView::InvalidIdentifier(key))
            } else if separator == '.' {
                Ok((TokenView::Attribute(key), b.len() as int))
            } else {
                Ok((TokenView::AttributeHas(key), b.len() as int))
            }
        }),
{
    reveal_strlit("attributes");
    let word = "attributes"@;
    let b = word + seq![separator] + key;
    assert(b.subrange(0, 10) =~= word);
    lemma_word_to_end(word, 0);
    assert(b =~= word + b.subrange(10, b.len() as int));
    assert(b[10] == separator);
    lemma_word_before(word, b.subrange(10, b.len() as int), 0);
    assert(filter::word_end(b, 0) == 10);
    assert forall|j: int| 11 <= j < b.len() implies filter::is_word_char(#[trigger] b[j]) by {
        assert(b[j] == key[j - 11]);
    }
    lemma_word_to_end(b, 11);
    assert(b.subrange(11, b.len() as int) =~= key);
    assert(b[11] == key[0]);
}

/// `attributes:k` matches a message exactly where it has the attribute, whatever its value.
pub proof fn law_presence_test_tells_the_key(
    key: Seq<char>,
    attributes: Option<Map<Seq<char>, Seq<char>>>,
)
    requires
        is_key(key),
    ensures
        filter::filter_of("attributes"@ + seq![':'] + key) matches Ok(e) && filter::satisfies(
            e,
            attributes,
        ) == (attributes matches Some(a) && a.contains_key(key)),
{
    let b = "attributes"@ + seq![':'] + key;
    let end = b.len() as int;
    reveal_strlit("attributes");
    lemma_key_behind(':', key);
    assert(filter::tokens_from(b, end) == Ok::<Seq<(TokenView, int)>, ErrorView>(Seq::empty()));
    let t = filter::tokens_from(b, 0)->Ok_0;
    assert(t =~= seq![(TokenView::AttributeHas(key), filter::position_of(b, 0))]);
    let e = ExprView::HasAttr { key };
    let written = filter_laws::write_or(e);
    assert(written == filter_laws::write_and(e));
    assert(written == filter_laws::write_not(e));
    assert(written =~= seq![TokenView::AttributeHas(key)]);
    assert forall|i: int| 0 <= i < written.len() implies (#[trigger] t[0 + i]).0
        == written[i] by {}
    filter_laws::law_written_filter_parses(e, t);
}

/// An attribute key that starts with a digit or a hyphen is refused, and named.
pub proof fn law_key_starts_with_a_letter(separator: char, key: Seq<char>)
    requires
        separator == '.' || separator == ':',
        key.len() > 0,
        '0' <= key[0] <= '9' || key[0] == '-',
        forall|i: int| 0 <= i < key.len() ==> is_letter_or_digit(#[trigger] key[i]),
    ensures
        filter::filter_of("attributes"@ + seq![separator] + key) == Err::<ExprView, ErrorView>(
            ErrorView::InvalidIdentifier(key),
        ),
{
    reveal_strlit("attributes");
    lemma_key_behind(separator, key);
}

/// Whether a word is the other one, each letter of which is in upper case, in any mix of cases.
pub open spec fn is_in_any_case(w: Seq<char>, upper: Seq<char>) -> bool {
    &&& w.len() == upper.len()
    &&& forall|i: int|
        0 <= i < w.len() ==> (#[trigger] w[i] == upper[i] || w[i] as int == upper[i] as int + 32)
}

/// The tokens of operators in any case, between spaces.
proof fn lemma_operators_in_any_case(w: Seq<char>)
    ensures
        is_in_any_case(w, "AND"@) ==> has_tokens(" "@ + w + " "@, seq![TokenView::And]),
        is_in_any_case(w, "OR"@) ==> has_tokens(" "@ + w + " "@, seq![TokenView::Or]),
        is_in_any_case(w, "NOT"@) ==> has_tokens(w + " "@, seq![TokenView::Not]),
        " "@.len() == 1 && " "@[0] == ' ',
        "AND"@.len() == 3 && "OR"@.len() == 2 && "NOT"@.len() == 3,
{
    reveal_strlit(" ");
    reveal_strlit("AND");
    reveal_strlit("OR");
    reveal_strlit("NOT");
    let b = " "@ + w + " "@;
    if is_in_any_case(w, "AND"@) {
        assert(b.subrange(1, 4) =~= w);
        assert(b[1] == w[0] && b[2] == w[1] && b[3] == w[2]);
        assert(filter::either(w[0], 'a', 'A'));
        assert(filter::either(w[1], 'n', 'N'));
        assert(filter::either(w[2], 'd', 'D'));
        assert(filter::keyword(w) == Some(TokenView::And));
        lemma_keyword(b, 1, 4, TokenView::And);
    }
    if is_in_any_case(w, "OR"@) {
        assert(b.subrange(1, 3) =~= w);
        assert(b[1] == w[0] && b[2] == w[1]);
        assert(filter::either(w[0], 'o', 'O'));
        assert(filter::either(w[1], 'r', 'R'));
        assert(filter::keyword(w) == Some(TokenView::Or));
        lemma_keyword(b, 1, 3, TokenView::Or);
    }
    if is_in_any_case(w, "NOT"@) {
        let c = w + " "@;
        assert(c.subrange(0, 3) =~= w);
        assert(c[0] == w[0] && c[1] == w[1] && c[2] == w[2]);
        assert(filter::either(w[0], 'n', 'N'));
        assert(filter::either(w[1], 'o', 'O'));
        assert(filter::either(w[2], 't', 'T'));
        assert(filter::keyword(w) == Some(TokenView::Not));
        lemma_keyword(c, 0, 3, TokenView::Not);
    }
}

/// The operators can be written in upper and in lower case, with the same meaning.
pub proof fn law_operators_go_by_any_case(
    a: Seq<char>,
    w: Seq<char>,
    b: Seq<char>,
    ea: ExprView,
    eb: ExprView,
    attributes: Option<Map<Seq<char>, Seq<char>>>,
)
    requires
        filter::filter_of(a) == Ok::<ExprView, ErrorView>(ea),
        filter::filter_of(b) == Ok::<ExprView, ErrorView>(eb),
    ensures
        is_in_any_case(w, "AND"@) ==> (filter::filter_of(
            in_parens(a) + (" "@ + w + " "@) + in_parens(b),
        ) matches Ok(e) && filter::satisfies(e, attributes) == (filter::satisfies(ea, attributes)
            && filter::satisfies(eb, attributes))),
        is_in_any_case(w, "OR"@) ==> (filter::filter_of(
            in_parens(a) + (" "@ + w + " "@) + in_parens(b),
        ) matches Ok(e) && filter::satisfies(e, attributes) == (filter::satisfies(ea, attributes)
            || filter::satisfies(eb, attributes))),
        is_in_any_case(w, "NOT"@) ==> (filter::filter_of(w + " "@ + in_parens(a)) matches Ok(e)
            && filter::satisfies(e, attributes) == !filter::satisfies(ea, attributes)),
{
    lemma_operators_in_any_case(w);
    let op = " "@ + w + " "@;
    if is_in_any_case(w, "AND"@) {
        lemma_and_between(a, op, b, ea, eb);
    }
    if is_in_any_case(w, "OR"@) {
        lemma_or_between(a, op, b, ea, eb);
    }
    if is_in_any_case(w, "NOT"@) {
        lemma_not_before(w + " "@, a, ea);
    }
}

/// Whether the expression tests the attribute.
pub open spec fn mentions(e: ExprView, key: Seq<char>) -> bool
    decreases e,
{
    match e {
        ExprView::Eq { key: k, .. } => k == key,
        ExprView::HasPrefix { key: k, .. } => k == key,
        ExprView::HasAttr { key: k } => k == key,
        ExprView::And(l, r) => mentions(*l, key) || mentions(*r, key),
        ExprView::Or(l, r) => mentions(*l, key) || mentions(*r, key),
        ExprView::Not(inner) => mentions(*inner, key),
    }
}

/// The value of an attribute, where a message has it.
pub open spec fn value_of(attributes: Option<Map<Seq<char>, Seq<char>>>, key: Seq<char>) -> Option<
    Seq<char>,
> {
    match attributes {
        Some(a) => if a.contains_key(key) {
            Some(a[key])
        } else {
            None
        },
        None => None,
    }
}

/// A filter goes by the attributes that it mentions alone. So a message without attributes is
/// matched like one whose attributes are empty.
pub proof fn law_filter_goes_by_what_it_mentions(
    e: ExprView,
    one: Option<Map<Seq<char>, Seq<char>>>,
    other: Option<Map<Seq<char>, Seq<char>>>,
)
    requires
        forall|key: Seq<char>| #[trigger]
            mentions(e, key) ==> value_of(one, key) == value_of(other, key),
    ensures
        filter::satisfies(e, one) == filter::satisfies(e, other),
        filter::satisfies(e, None) == filter::satisfies(e, Some(Map::empty())),
    decreases e,
{
    match e {
        ExprView::Eq { key, .. } => {
            assert(mentions(e, key));
        },
        ExprView::HasPrefix { key, .. } => {
            assert(mentions(e, key));
        },
        ExprView::HasAttr { key } => {
            assert(mentions(e, key));
        },
        ExprView::And(l, r) => {
            assert(forall|key: Seq<char>| #[trigger] mentions(*l, key) ==> mentions(e, key));
            assert(forall|key: Seq<char>| #[trigger] mentions(*r, key) ==> mentions(e, key));
            law_filter_goes_by_what_it_mentions(*l, one, other);
            law_filter_goes_by_what_it_mentions(*r, one, other);
        },
        ExprView::Or(l, r) => {
            assert(forall|key: Seq<char>| #[trigger] mentions(*l, key) ==> mentions(e, key));
            assert(forall|key: Seq<char>| #[trigger] mentions(*r, key) ==> mentions(e, key));
            law_filter_goes_by_what_it_mentions(*l, one, other);
            law_filter_goes_by_what_it_mentions(*r, one, other);
        },
        ExprView::Not(inner) => {
            assert(forall|key: Seq<char>| #[trigger] mentions(*inner, key) ==> mentions(e, key));
            law_filter_goes_by_what_it_mentions(*inner, one, other);
        },
    }
}

} // verus!
