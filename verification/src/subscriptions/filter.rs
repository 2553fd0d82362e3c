//! The filter language of subscriptions.
//!
//! A filter tests the attributes of a message: equality (`attributes.k = "v"`,
//! `attributes.k != "v"`), presence (`attributes:k`), `hasPrefix(attributes.k, "v")`, and the
//! operators `AND`, `OR`, `NOT` with parentheses. `NOT` binds tighter than `AND`, and `AND` tighter
//! than `OR`.
//!
//! Strings are double-quoted, with the escapes `\\` and `\"`. Identifiers (attribute keys) match
//! `[A-Za-z_][A-Za-z0-9_-]*`.
use vstd::prelude::*;

use crate::collections::StringMap;
use crate::text;

verus! {

/// A parsed filter expression that can be evaluated against the attributes of a message.
#[derive(Debug, PartialEq, Eq)]
pub struct Filter {
    expr: Expr,
}

/// Why a text is not a filter.
#[derive(Debug, Clone, PartialEq, Eq)]
pub enum FilterParseError {
    UnexpectedToken { found: String, position: usize },
    UnexpectedEnd,
    UnterminatedString,
    InvalidEscape(char),
    InvalidIdentifier(String),
}

/// What a [`FilterParseError`] says.
pub enum ErrorView {
    UnexpectedToken { found: Seq<char>, position: int },
    UnexpectedEnd,
    UnterminatedString,
    InvalidEscape(char),
    InvalidIdentifier(Seq<char>),
}

impl View for FilterParseError {
    type V = ErrorView;

    open spec fn view(&self) -> ErrorView {
        match *self {
            FilterParseError::UnexpectedToken { found, position } => ErrorView::UnexpectedToken {
                found: found@,
                position: position as int,
            },
            FilterParseError::UnexpectedEnd => ErrorView::UnexpectedEnd,
            FilterParseError::UnterminatedString => ErrorView::UnterminatedString,
            FilterParseError::InvalidEscape(c) => ErrorView::InvalidEscape(c),
            FilterParseError::InvalidIdentifier(s) => ErrorView::InvalidIdentifier(s@),
        }
    }
}

/// The sentence that tells a caller of the error.
pub open spec fn error_text(e: ErrorView) -> Seq<char> {
    match e {
        ErrorView::UnexpectedToken { found, position } => "unexpected token '"@ + found
            + "' at position "@ + text::decimal(position as nat),
        ErrorView::UnexpectedEnd => "unexpected end of filter"@,
        ErrorView::UnterminatedString => "unterminated string literal"@,
        ErrorView::InvalidEscape(c) => "invalid escape sequence '\\"@ + seq![c] + "'"@,
        ErrorView::InvalidIdentifier(s) => "invalid identifier '"@ + s + "'"@,
    }
}

impl FilterParseError {
    /// The sentence that tells a caller of the error.
    pub fn to_string(&self) -> (text: String)
        ensures
            text@ == error_text(self@),
    {
        let mut text = String::new();
        match self {
            FilterParseError::UnexpectedToken { found, position } => {
                text.push_str("unexpected token '");
                text.push_str(found.as_str());
                text.push_str("' at position ");
                text.push_str(text::decimal_string(*position as u64).as_str());
            },
            FilterParseError::UnexpectedEnd => {
                text.push_str("unexpected end of filter");
            },
            FilterParseError::UnterminatedString => {
                text.push_str("unterminated string literal");
            },
            FilterParseError::InvalidEscape(c) => {
                text.push_str("invalid escape sequence '\\");
                text.push(*c);
                text.push_str("'");
            },
            FilterParseError::InvalidIdentifier(s) => {
                text.push_str("invalid identifier '");
                text.push_str(s.as_str());
                text.push_str("'");
            },
        }
        assert(text@ =~= error_text(self@));
        text
    }
}

#[derive(Debug, PartialEq, Eq)]
enum Expr {
    Eq { key: String, value: String, negated: bool },
    HasPrefix { key: String, value: String },
    HasAttr { key: String },
    And(Box<Expr>, Box<Expr>),
    Or(Box<Expr>, Box<Expr>),
    Not(Box<Expr>),
}

/// A filter expression.
pub enum ExprView {
    Eq { key: Seq<char>, value: Seq<char>, negated: bool },
    HasPrefix { key: Seq<char>, value: Seq<char> },
    HasAttr { key: Seq<char> },
    And(Box<ExprView>, Box<ExprView>),
    Or(Box<ExprView>, Box<ExprView>),
    Not(Box<ExprView>),
}

impl Expr {
    spec fn view(&self) -> ExprView
        decreases self,
    {
        match *self {
            Expr::Eq { key, value, negated } => ExprView::Eq { key: key@, value: value@, negated },
            Expr::HasPrefix { key, value } => ExprView::HasPrefix { key: key@, value: value@ },
            Expr::HasAttr { key } => ExprView::HasAttr { key: key@ },
            Expr::And(l, r) => ExprView::And(Box::new(l.view()), Box::new(r.view())),
            Expr::Or(l, r) => ExprView::Or(Box::new(l.view()), Box::new(r.view())),
            Expr::Not(inner) => ExprView::Not(Box::new(inner.view())),
        }
    }
}

impl Expr {
    fn copy(&self) -> (copy: Expr)
        ensures
            copy.view() == self.view(),
        decreases self,
    {
        match self {
            Expr::Eq { key, value, negated } => Expr::Eq {
                key: key.clone(),
                value: value.clone(),
                negated: *negated,
            },
            Expr::HasPrefix { key, value } => Expr::HasPrefix {
                key: key.clone(),
                value: value.clone(),
            },
            Expr::HasAttr { key } => Expr::HasAttr { key: key.clone() },
            Expr::And(l, r) => Expr::And(Box::new(l.copy()), Box::new(r.copy())),
            Expr::Or(l, r) => Expr::Or(Box::new(l.copy()), Box::new(r.copy())),
            Expr::Not(inner) => Expr::Not(Box::new(inner.copy())),
        }
    }
}

/// Whether a message with the given attributes satisfies the expression.
pub open spec fn satisfies(expr: ExprView, attributes: Option<Map<Seq<char>, Seq<char>>>) -> bool
    decreases expr,
{
    match expr {
        ExprView::Eq { key, value, negated } => {
            let equal = attributes matches Some(a) && a.contains_key(key) && a[key] == value;
            equal != negated
        },
        ExprView::HasPrefix { key, value } => attributes matches Some(a) && a.contains_key(key)
            && value.is_prefix_of(a[key]),
        ExprView::HasAttr { key } => attributes matches Some(a) && a.contains_key(key),
        ExprView::And(l, r) => satisfies(*l, attributes) && satisfies(*r, attributes),
        ExprView::Or(l, r) => satisfies(*l, attributes) || satisfies(*r, attributes),
        ExprView::Not(inner) => !satisfies(*inner, attributes),
    }
}

/// The keys and values of a message's attributes, where it has any.
pub open spec fn attributes_view(attributes: Option<&StringMap>) -> Option<
    Map<Seq<char>, Seq<char>>,
> {
    match attributes {
        Some(a) => Some(a@),
        None => None,
    }
}

impl Clone for Filter {
    fn clone(&self) -> (copy: Filter)
        ensures
            copy@ == self@,
    {
        Filter { expr: self.expr.copy() }
    }
}

impl Filter {
    /// The expression of the filter.
    pub closed spec fn view(&self) -> ExprView {
        self.expr.view()
    }

    /// Parses a filter. A text without tokens is none.
    pub fn parse(input: &str) -> (r: Result<Filter, FilterParseError>)
        ensures
            match r {
                Ok(f) => filter_of(input@) == Ok::<ExprView, ErrorView>(f@),
                Err(e) => filter_of(input@) == Err::<ExprView, ErrorView>(e@),
            },
    {
        let tokens = match tokenize(input) {
            Ok(tokens) => tokens,
            Err(e) => return Err(e),
        };
        let mut parser = Parser { tokens, pos: 0 };
        let expr = match parser.parse_or() {
            Ok(e) => e,
            Err(e) => return Err(e),
        };
        match parser.expect_end() {
            Ok(_) => Ok(Filter { expr }),
            Err(e) => Err(e),
        }
    }

    /// Whether a message with the given attributes is delivered.
    pub fn matches(&self, attributes: Option<&StringMap>) -> (b: bool)
        ensures
            b == satisfies(self@, attributes_view(attributes)),
    {
        eval(&self.expr, attributes)
    }
}

fn eval(expr: &Expr, attrs: Option<&StringMap>) -> (b: bool)
    ensures
        b == satisfies(expr.view(), attributes_view(attrs)),
    decreases expr,
{
    match expr {
        Expr::Eq { key, value, negated } => {
            let eq = match attrs {
                Some(a) => match a.get(key.as_str()) {
                    Some(v) => *v == *value,
                    None => false,
                },
                None => false,
            };
            if *negated {
                !eq
            } else {
                eq
            }
        },
        Expr::HasPrefix { key, value } => match attrs {
            Some(a) => match a.get(key.as_str()) {
                Some(v) => text::starts_with(v.as_str(), value.as_str()),
                None => false,
            },
            None => false,
        },
        Expr::HasAttr { key } => match attrs {
            Some(a) => a.contains_key(key.as_str()),
            None => false,
        },
        Expr::And(l, r) => eval(l, attrs) && eval(r, attrs),
        Expr::Or(l, r) => eval(l, attrs) || eval(r, attrs),
        Expr::Not(inner) => !eval(inner, attrs),
    }
}

/// The text that `format!("{:?}", s)` gives for a string: quoted, with escapes.
pub uninterp spec fn debug_text(s: Seq<char>) -> Seq<char>;

/// Calls `format!` with `{:?}` on a `str`. The contract names the result and claims only that it is
/// a function of the text.
#[verifier::external_body]
fn debug_string(s: &str) -> (text: String)
    ensures
        text@ == debug_text(s@),
{
    format!("{:?}", s)
}

#[derive(Debug)]
enum Token {
    LParen,
    RParen,
    Comma,
    Eq,
    NotEq,
    And,
    Or,
    Not,
    /// `attributes.key`
    Attribute(String),
    /// `attributes:key`
    AttributeHas(String),
    Ident(String),
    Str(String),
}

/// A token of the filter language.
pub enum TokenView {
    LParen,
    RParen,
    Comma,
    Eq,
    NotEq,
    And,
    Or,
    Not,
    Attribute(Seq<char>),
    AttributeHas(Seq<char>),
    Ident(Seq<char>),
    Str(Seq<char>),
}

/// How an error names a token.
pub open spec fn token_text(t: TokenView) -> Seq<char> {
    match t {
        TokenView::LParen => "LParen"@,
        TokenView::RParen => "RParen"@,
        TokenView::Comma => "Comma"@,
        TokenView::Eq => "Eq"@,
        TokenView::NotEq => "NotEq"@,
        TokenView::And => "And"@,
        TokenView::Or => "Or"@,
        TokenView::Not => "Not"@,
        TokenView::Attribute(s) => "Attribute("@ + debug_text(s) + ")"@,
        TokenView::AttributeHas(s) => "AttributeHas("@ + debug_text(s) + ")"@,
        TokenView::Ident(s) => "Ident("@ + debug_text(s) + ")"@,
        TokenView::Str(s) => "Str("@ + debug_text(s) + ")"@,
    }
}

/// A name with a quoted text in parentheses behind it.
fn tagged(name: &str, s: &String) -> (text: String)
    ensures
        text@ == name@ + debug_text(s@) + ")"@,
{
    let mut text = name.to_owned();
    text.push_str(debug_string(s.as_str()).as_str());
    text.push_str(")");
    text
}

impl Token {
    spec fn view(&self) -> TokenView {
        match *self {
            Token::LParen => TokenView::LParen,
            Token::RParen => TokenView::RParen,
            Token::Comma => TokenView::Comma,
            Token::Eq => TokenView::Eq,
            Token::NotEq => TokenView::NotEq,
            Token::And => TokenView::And,
            Token::Or => TokenView::Or,
            Token::Not => TokenView::Not,
            Token::Attribute(s) => TokenView::Attribute(s@),
            Token::AttributeHas(s) => TokenView::AttributeHas(s@),
            Token::Ident(s) => TokenView::Ident(s@),
            Token::Str(s) => TokenView::Str(s@),
        }
    }

    fn copy(&self) -> (t: Token)
        ensures
            t.view() == self.view(),
    {
        match self {
            Token::LParen => Token::LParen,
            Token::RParen => Token::RParen,
            Token::Comma => Token::Comma,
            Token::Eq => Token::Eq,
            Token::NotEq => Token::NotEq,
            Token::And => Token::And,
            Token::Or => Token::Or,
            Token::Not => Token::Not,
            Token::Attribute(s) => Token::Attribute(s.clone()),
            Token::AttributeHas(s) => Token::AttributeHas(s.clone()),
            Token::Ident(s) => Token::Ident(s.clone()),
            Token::Str(s) => Token::Str(s.clone()),
        }
    }

    fn text(&self) -> (text: String)
        ensures
            text@ == token_text(self.view()),
    {
        match self {
            Token::LParen => "LParen".to_owned(),
            Token::RParen => "RParen".to_owned(),
            Token::Comma => "Comma".to_owned(),
            Token::Eq => "Eq".to_owned(),
            Token::NotEq => "NotEq".to_owned(),
            Token::And => "And".to_owned(),
            Token::Or => "Or".to_owned(),
            Token::Not => "Not".to_owned(),
            Token::Attribute(s) => tagged("Attribute(", s),
            Token::AttributeHas(s) => tagged("AttributeHas(", s),
            Token::Ident(s) => tagged("Ident(", s),
            Token::Str(s) => tagged("Str(", s),
        }
    }
}

/// Whether the character separates tokens.
pub open spec fn is_space(c: char) -> bool {
    c == ' ' || c == '\t' || c == '\n' || c == '\r'
}

/// Whether the character may start an identifier: `[A-Za-z_]`.
pub open spec fn is_word_start(c: char) -> bool {
    'a' <= c <= 'z' || 'A' <= c <= 'Z' || c == '_'
}

/// Whether the character may stand in an identifier: `[A-Za-z0-9_-]`.
pub open spec fn is_word_char(c: char) -> bool {
    is_word_start(c) || '0' <= c <= '9' || c == '-'
}

/// The position of the character at `i`: how many bytes the text before it takes up in UTF-8.
pub open spec fn position_of(b: Seq<char>, i: int) -> int {
    vstd::utf8::encode_utf8(b.take(i)).len() as int
}

/// The end of the run of identifier characters that starts at `i`.
pub open spec fn word_end(b: Seq<char>, i: int) -> int
    decreases b.len() - i,
{
    if i < b.len() && is_word_char(b[i]) {
        word_end(b, i + 1)
    } else {
        i
    }
}

/// Whether the character is one of the two.
pub open spec fn either(c: char, one: char, other: char) -> bool {
    c == one || c == other
}

/// The keyword that a word is, in upper or lower case.
pub open spec fn keyword(w: Seq<char>) -> Option<TokenView> {
    if w.len() == 3 && either(w[0], 'a', 'A') && either(w[1], 'n', 'N') && either(w[2], 'd', 'D') {
        Some(TokenView::And)
    } else if w.len() == 2 && either(w[0], 'o', 'O') && either(w[1], 'r', 'R') {
        Some(TokenView::Or)
    } else if w.len() == 3 && either(w[0], 'n', 'N') && either(w[1], 'o', 'O') && either(w[2], 't', 'T') {
        Some(TokenView::Not)
    } else {
        None
    }
}

/// The string literal whose text starts at `i`, after its opening quote: the text, and the end of
/// the literal behind its closing quote.
pub open spec fn string_at(b: Seq<char>, i: int) -> Result<(Seq<char>, int), ErrorView>
    decreases b.len() - i,
{
    if i >= b.len() {
        Err(ErrorView::UnterminatedString)
    } else if b[i] == '"' {
        Ok((Seq::empty(), i + 1))
    } else if b[i] == '\\' {
        if i + 1 >= b.len() {
            Err(ErrorView::UnterminatedString)
        } else if b[i + 1] == '"' || b[i + 1] == '\\' {
            with_front(seq![b[i + 1]], string_at(b, i + 2))
        } else {
            Err(ErrorView::InvalidEscape(b[i + 1]))
        }
    } else {
        with_front(seq![b[i]], string_at(b, i + 1))
    }
}

/// A literal with more text in front.
pub open spec fn with_front(
    front: Seq<char>,
    literal: Result<(Seq<char>, int), ErrorView>,
) -> Result<(Seq<char>, int), ErrorView> {
    match literal {
        Ok((text, end)) => Ok((front + text, end)),
        Err(e) => Err(e),
    }
}

/// What stands behind the word `attributes`, which ends at `i`: a separator and a key.
pub open spec fn attribute_at(b: Seq<char>, i: int) -> Result<(TokenView, int), ErrorView> {
    if i >= b.len() {
        Err(ErrorView::UnexpectedEnd)
    } else if b[i] != '.' && b[i] != ':' {
        Err(
            ErrorView::UnexpectedToken {
                found: "attributes"@ + seq![b[i]],
                position: position_of(b, i),
            },
        )
    } else {
        let end = word_end(b, i + 1);
        let key = b.subrange(i + 1, end);
        if end == i + 1 {
            Err(ErrorView::InvalidIdentifier("empty attribute key"@))
        } else if !is_word_start(b[i + 1]) {
            Err(ErrorView::InvalidIdentifier(key))
        } else if b[i] == '.' {
            Ok((TokenView::Attribute(key), end))
        } else {
            Ok((TokenView::AttributeHas(key), end))
        }
    }
}

/// The token of the word at `i`, and where what it takes up ends.
pub open spec fn word_at(b: Seq<char>, i: int) -> Result<(TokenView, int), ErrorView> {
    let end = word_end(b, i);
    let word = b.subrange(i, end);
    match keyword(word) {
        Some(t) => Ok((t, end)),
        None => if word == "attributes"@ {
            attribute_at(b, end)
        } else {
            Ok((TokenView::Ident(word), end))
        },
    }
}

/// The token at `i`, where no space stands, and its end.
pub open spec fn token_at(b: Seq<char>, i: int) -> Result<(TokenView, int), ErrorView> {
    let c = b[i];
    if c == '(' {
        Ok((TokenView::LParen, i + 1))
    } else if c == ')' {
        Ok((TokenView::RParen, i + 1))
    } else if c == ',' {
        Ok((TokenView::Comma, i + 1))
    } else if c == '=' {
        Ok((TokenView::Eq, i + 1))
    } else if c == '!' && i + 1 < b.len() && b[i + 1] == '=' {
        Ok((TokenView::NotEq, i + 2))
    } else if c == '"' {
        match string_at(b, i + 1) {
            Ok((text, end)) => Ok((TokenView::Str(text), end)),
            Err(e) => Err(e),
        }
    } else if is_word_start(c) {
        word_at(b, i)
    } else {
        Err(ErrorView::UnexpectedToken { found: seq![c], position: position_of(b, i) })
    }
}

/// The run of identifier characters at `i` ends no earlier than `i` and no later than the text.
pub proof fn lemma_word_end(b: Seq<char>, i: int)
    requires
        0 <= i <= b.len(),
    ensures
        i <= word_end(b, i) <= b.len(),
        forall|j: int| i <= j < word_end(b, i) ==> is_word_char(b[j]),
    decreases b.len() - i,
{
    if i < b.len() && is_word_char(b[i]) {
        lemma_word_end(b, i + 1);
    }
}

/// A literal takes up at least its closing quote.
proof fn lemma_string_at(b: Seq<char>, i: int)
    requires
        0 <= i,
    ensures
        string_at(b, i) matches Ok((_, end)) ==> i < end <= b.len(),
    decreases b.len() - i,
{
    if i < b.len() && b[i] != '"' {
        if b[i] == '\\' {
            if i + 1 < b.len() {
                lemma_string_at(b, i + 2);
            }
        } else {
            lemma_string_at(b, i + 1);
        }
    }
}

/// A token takes up at least one character.
pub proof fn lemma_token_at(b: Seq<char>, i: int)
    requires
        0 <= i < b.len(),
    ensures
        token_at(b, i) matches Ok((_, end)) ==> i < end <= b.len(),
{
    lemma_string_at(b, i + 1);
    lemma_word_end(b, i);
    if word_end(b, i) < b.len() {
        lemma_word_end(b, word_end(b, i) + 1);
    }
}

/// The tokens of the text from `i` on, each with the position where it starts.
pub open spec fn tokens_from(b: Seq<char>, i: int) -> Result<Seq<(TokenView, int)>, ErrorView>
    decreases b.len() - i,
{
    if i < 0 || i >= b.len() {
        Ok(Seq::empty())
    } else if is_space(b[i]) {
        tokens_from(b, i + 1)
    } else {
        match token_at(b, i) {
            Ok((t, end)) => {
                proof {
                    lemma_token_at(b, i);
                }
                with_tokens(seq![(t, position_of(b, i))], tokens_from(b, end))
            },
            Err(e) => Err(e),
        }
    }
}

/// A list of tokens with more tokens in front.
pub open spec fn with_tokens(
    front: Seq<(TokenView, int)>,
    rest: Result<Seq<(TokenView, int)>, ErrorView>,
) -> Result<Seq<(TokenView, int)>, ErrorView> {
    match rest {
        Ok(tokens) => Ok(front + tokens),
        Err(e) => Err(e),
    }
}

spec fn tokens_view(tokens: Seq<(Token, usize)>) -> Seq<(TokenView, int)> {
    tokens.map_values(|t: (Token, usize)| (t.0.view(), t.1 as int))
}

/// Whether a character may start an identifier.
fn word_start(c: char) -> (b: bool)
    ensures
        b == is_word_start(c),
{
    ('a' <= c && c <= 'z') || ('A' <= c && c <= 'Z') || c == '_'
}

/// Whether a character may stand in an identifier.
fn word_char(c: char) -> (b: bool)
    ensures
        b == is_word_char(c),
{
    word_start(c) || ('0' <= c && c <= '9') || c == '-'
}

/// The end of the run of identifier characters that starts at `start`.
fn scan_word(units: &Vec<char>, start: usize) -> (end: usize)
    requires
        start <= units@.len(),
    ensures
        end == word_end(units@, start as int),
        start <= end <= units@.len(),
{
    let mut i: usize = start;
    while i < units.len() && word_char(units[i])
        invariant
            start <= i <= units@.len(),
            word_end(units@, start as int) == word_end(units@, i as int),
        decreases units@.len() - i,
    {
        i += 1;
    }
    i
}

/// The characters from `start` to `end`.
fn copy_chars(units: &Vec<char>, start: usize, end: usize) -> (s: String)
    requires
        start <= end <= units@.len(),
    ensures
        s@ == units@.subrange(start as int, end as int),
{
    let mut s = String::new();
    let mut i: usize = start;
    while i < end
        invariant
            start <= i <= end <= units@.len(),
            s@ =~= units@.subrange(start as int, i as int),
        decreases end - i,
    {
        s.push(units[i]);
        i += 1;
    }
    s
}

/// Whether the character is one of the two.
fn one_of(c: char, one: char, other: char) -> (b: bool)
    ensures
        b == either(c, one, other),
{
    c == one || c == other
}

/// The keyword that the word from `start` to `end` is.
fn scan_keyword(units: &Vec<char>, start: usize, end: usize) -> (t: Option<Token>)
    requires
        start <= end <= units@.len(),
    ensures
        match t {
            Some(t) => keyword(units@.subrange(start as int, end as int)) == Some(t.view()),
            None => keyword(units@.subrange(start as int, end as int)) is None,
        },
{
    let len: usize = end - start;
    if len == 3 && one_of(units[start], 'a', 'A') && one_of(units[start + 1], 'n', 'N') && one_of(units[start + 2], 'd', 'D') {
        Some(Token::And)
    } else if len == 2 && one_of(units[start], 'o', 'O') && one_of(units[start + 1], 'r', 'R') {
        Some(Token::Or)
    } else if len == 3 && one_of(units[start], 'n', 'N') && one_of(units[start + 1], 'o', 'O')
        && one_of(units[start + 2], 't', 'T') {
        Some(Token::Not)
    } else {
        None
    }
}

/// The string literal whose text starts at `start`, and its end.
fn scan_string(units: &Vec<char>, start: usize) -> (r: Result<(String, usize), FilterParseError>)
    requires
        start <= units@.len(),
    ensures
        match r {
            Ok((s, end)) => string_at(units@, start as int) == Ok::<(Seq<char>, int), ErrorView>(
                (s@, end as int),
            ) && start < end <= units@.len(),
            Err(e) => string_at(units@, start as int) == Err::<(Seq<char>, int), ErrorView>(e@),
        },
{
    let mut s = String::new();
    let mut i: usize = start;
    assert(with_front(s@, string_at(units@, i as int)) == string_at(units@, start as int)) by {
        assert(forall|t: Seq<char>| #[trigger] (s@ + t) =~= t);
    }
    while i < units.len()
        invariant
            start <= i <= units@.len(),
            with_front(s@, string_at(units@, i as int)) == string_at(units@, start as int),
        decreases units@.len() - i,
    {
        let c: char = units[i];
        let ghost before = s@;
        if c == '"' {
            assert(before + Seq::<char>::empty() =~= before);
            return Ok((s, i + 1));
        }
        if c == '\\' {
            if i + 1 >= units.len() {
                return Err(FilterParseError::UnterminatedString);
            }
            let esc: char = units[i + 1];
            if esc != '"' && esc != '\\' {
                return Err(FilterParseError::InvalidEscape(esc));
            }
            s.push(esc);
            i += 2;
            proof {
                lemma_with_front(before, esc, string_at(units@, i as int));
            }
        } else {
            s.push(c);
            i += 1;
            proof {
                lemma_with_front(before, c, string_at(units@, i as int));
            }
        }
    }
    Err(FilterParseError::UnterminatedString)
}

proof fn lemma_with_front(
    front: Seq<char>,
    c: char,
    literal: Result<(Seq<char>, int), ErrorView>,
)
    ensures
        with_front(front, with_front(seq![c], literal)) == with_front(front.push(c), literal),
{
    if let Ok((text, end)) = literal {
        assert(front + (seq![c] + text) =~= front.push(c) + text);
    }
}

/// What stands behind the word `attributes`, which ends at `at`: a separator and a key.
fn scan_attribute(units: &Vec<char>, positions: &Vec<usize>, at: usize) -> (r: Result<
    (Token, usize),
    FilterParseError,
>)
    requires
        at <= units@.len(),
        are_positions(units@, positions@),
    ensures
        match r {
            Ok((t, end)) => attribute_at(units@, at as int) == Ok::<(TokenView, int), ErrorView>(
                (t.view(), end as int),
            ) && at < end <= units@.len(),
            Err(e) => attribute_at(units@, at as int) == Err::<(TokenView, int), ErrorView>(e@),
        },
{
    if at >= units.len() {
        return Err(FilterParseError::UnexpectedEnd);
    }
    let sep: char = units[at];
    if sep != '.' && sep != ':' {
        let mut found = "attributes".to_owned();
        found.push(sep);
        assert(found@ =~= "attributes"@ + seq![sep]);
        return Err(FilterParseError::UnexpectedToken { found, position: positions[at] });
    }
    let key_start: usize = at + 1;
    let end: usize = scan_word(units, key_start);
    if end == key_start {
        return Err(FilterParseError::InvalidIdentifier("empty attribute key".to_owned()));
    }
    let key = copy_chars(units, key_start, end);
    if !word_start(units[key_start]) {
        return Err(FilterParseError::InvalidIdentifier(key));
    }
    if sep == '.' {
        Ok((Token::Attribute(key), end))
    } else {
        Ok((Token::AttributeHas(key), end))
    }
}

/// The token at `i`, where no space stands, and its end.
fn scan_token(units: &Vec<char>, positions: &Vec<usize>, i: usize) -> (r: Result<
    (Token, usize),
    FilterParseError,
>)
    requires
        i < units@.len(),
        are_positions(units@, positions@),
    ensures
        match r {
            Ok((t, end)) => token_at(units@, i as int) == Ok::<(TokenView, int), ErrorView>(
                (t.view(), end as int),
            ) && i < end <= units@.len(),
            Err(e) => token_at(units@, i as int) == Err::<(TokenView, int), ErrorView>(e@),
        },
{
    let len: usize = units.len();
    let c: char = units[i];
    if c == '(' {
        Ok((Token::LParen, i + 1))
    } else if c == ')' {
        Ok((Token::RParen, i + 1))
    } else if c == ',' {
        Ok((Token::Comma, i + 1))
    } else if c == '=' {
        Ok((Token::Eq, i + 1))
    } else if c == '!' && i + 1 < len && units[i + 1] == '=' {
        Ok((Token::NotEq, i + 2))
    } else if c == '"' {
        match scan_string(units, i + 1) {
            Ok((s, end)) => Ok((Token::Str(s), end)),
            Err(e) => Err(e),
        }
    } else if word_start(c) {
        let end: usize = scan_word(units, i);
        proof {
            assert(word_end(units@, i as int) == word_end(units@, i + 1));
            lemma_word_end(units@, i + 1);
        }
        match scan_keyword(units, i, end) {
            Some(t) => Ok((t, end)),
            None => {
                let word = copy_chars(units, i, end);
                if text::same_text(word.as_str(), "attributes") {
                    scan_attribute(units, positions, end)
                } else {
                    Ok((Token::Ident(word), end))
                }
            },
        }
    } else {
        let mut found = String::new();
        found.push(c);
        assert(found@ =~= seq![c]);
        Err(FilterParseError::UnexpectedToken { found, position: positions[i] })
    }
}

/// How many bytes a character takes up in UTF-8.
fn utf8_width(c: char) -> (n: usize)
    ensures
        n == vstd::utf8::encode_scalar(c as u32).len(),
{
    let scalar: u32 = c as u32;
    if scalar <= 0x7f {
        1
    } else if scalar <= 0x7ff {
        2
    } else if scalar <= 0xffff {
        3
    } else {
        4
    }
}

/// One more character takes up the bytes of its own encoding.
proof fn lemma_encoded_push(s: Seq<char>, c: char)
    ensures
        vstd::utf8::encode_utf8(s.push(c)) == vstd::utf8::encode_utf8(s)
            + vstd::utf8::encode_scalar(c as u32),
    decreases s.len(),
{
    reveal_with_fuel(vstd::utf8::encode_utf8, 2);
    if s.len() == 0 {
        assert(s.push(c).drop_first() =~= s);
        assert(vstd::utf8::encode_utf8(s) =~= Seq::<u8>::empty());
    } else {
        assert(s.push(c).drop_first() =~= s.drop_first().push(c));
        lemma_encoded_push(s.drop_first(), c);
    }
}

/// The character at `i` is followed by the position behind its own bytes.
proof fn lemma_next_position(b: Seq<char>, i: int)
    requires
        0 <= i < b.len(),
    ensures
        position_of(b, i + 1) == position_of(b, i) + vstd::utf8::encode_scalar(b[i] as u32).len(),
{
    assert(b.take(i + 1) =~= b.take(i).push(b[i]));
    lemma_encoded_push(b.take(i), b[i]);
}

/// No position is behind the end of the text.
proof fn lemma_position_bounded(b: Seq<char>, i: int)
    requires
        0 <= i <= b.len(),
    ensures
        position_of(b, i) <= vstd::utf8::encode_utf8(b).len(),
    decreases b.len() - i,
{
    if i == b.len() {
        assert(b.take(i) =~= b);
    } else {
        lemma_next_position(b, i);
        lemma_position_bounded(b, i + 1);
    }
}

/// Whether `positions` are those of the characters and of the end of the text.
spec fn are_positions(b: Seq<char>, positions: Seq<usize>) -> bool {
    &&& positions.len() == b.len() + 1
    &&& forall|i: int| 0 <= i <= b.len() ==> #[trigger] positions[i] == position_of(b, i)
}

/// The positions of the characters of a text, and of its end.
fn positions_of(input: &str, units: &Vec<char>) -> (positions: Vec<usize>)
    requires
        units@ == input@,
    ensures
        are_positions(units@, positions@),
{
    let total: usize = input.as_bytes().len();
    assert(total == vstd::utf8::encode_utf8(units@).len());
    let mut positions: Vec<usize> = Vec::new();
    let mut next: usize = 0;
    assert(position_of(units@, 0) == 0) by {
        assert(units@.take(0).len() == 0);
    }
    positions.push(0);
    let mut i: usize = 0;
    while i < units.len()
        invariant
            i <= units@.len(),
            total == vstd::utf8::encode_utf8(units@).len(),
            next == position_of(units@, i as int),
            positions@.len() == i + 1,
            forall|j: int| 0 <= j <= i ==> #[trigger] positions@[j] == position_of(units@, j),
        decreases units@.len() - i,
    {
        proof {
            lemma_next_position(units@, i as int);
            lemma_position_bounded(units@, i + 1);
        }
        next = next + utf8_width(units[i]);
        positions.push(next);
        i += 1;
    }
    positions
}

/// Splits a filter into its tokens, each with the position where it starts.
fn tokenize(input: &str) -> (r: Result<Vec<(Token, usize)>, FilterParseError>)
    ensures
        match r {
            Ok(tokens) => tokens_from(input@, 0) == Ok::<
                Seq<(TokenView, int)>,
                ErrorView,
            >(tokens_view(tokens@)),
            Err(e) => tokens_from(input@, 0) == Err::<
                Seq<(TokenView, int)>,
                ErrorView,
            >(e@),
        },
{
    let units = &text::chars_of(input);
    let positions = &positions_of(input, units);
    let mut out: Vec<(Token, usize)> = Vec::new();
    let mut i: usize = 0;
    assert(with_tokens(tokens_view(out@), tokens_from(units@, 0)) == tokens_from(units@, 0)) by {
        assert(tokens_view(out@) =~= Seq::empty());
        assert(forall|t: Seq<(TokenView, int)>| #[trigger] (Seq::<(TokenView, int)>::empty() + t) =~= t);
    }
    while i < units.len()
        invariant
            i <= units@.len(),
            units@ == input@,
            are_positions(units@, positions@),
            with_tokens(tokens_view(out@), tokens_from(units@, i as int)) == tokens_from(units@, 0),
        decreases units@.len() - i,
    {
        let c: char = units[i];
        if c == ' ' || c == '\t' || c == '\n' || c == '\r' {
            i += 1;
        } else {
            match scan_token(units, positions, i) {
                Ok((t, end)) => {
                    let ghost front = tokens_view(out@);
                    out.push((t, positions[i]));
                    proof {
                        lemma_with_tokens(
                            front,
                            (t.view(), position_of(units@, i as int)),
                            tokens_from(units@, end as int),
                        );
                        assert(tokens_view(out@) =~= front.push(
                            (t.view(), position_of(units@, i as int)),
                        ));
                    }
                    i = end;
                },
                Err(e) => {
                    return Err(e);
                },
            }
        }
    }
    assert(tokens_view(out@) + Seq::empty() =~= tokens_view(out@));
    Ok(out)
}

proof fn lemma_with_tokens(
    front: Seq<(TokenView, int)>,
    t: (TokenView, int),
    rest: Result<Seq<(TokenView, int)>, ErrorView>,
)
    ensures
        with_tokens(front, with_tokens(seq![t], rest)) == with_tokens(front.push(t), rest),
{
    if let Ok(tokens) = rest {
        assert(front + (seq![t] + tokens) =~= front.push(t) + tokens);
    }
}

/// What an expression parsed from some position on is, and the position behind it.
pub type Parsed = Result<(ExprView, int), ErrorView>;

/// An error at the token at `at`, reported for the position `position`.
pub open spec fn unexpected(t: Seq<(TokenView, int)>, at: int, position: int) -> ErrorView {
    ErrorView::UnexpectedToken { found: token_text(t[at].0), position }
}

/// The error of a token that does not fit, at its own position, or of a missing token.
pub open spec fn misfit(t: Seq<(TokenView, int)>, at: int) -> ErrorView {
    if at < t.len() {
        unexpected(t, at, t[at].1)
    } else {
        ErrorView::UnexpectedEnd
    }
}

/// Whether the token at `at` is the given one.
pub open spec fn is_at(t: Seq<(TokenView, int)>, at: int, token: TokenView) -> bool {
    0 <= at < t.len() && t[at].0 == token
}

/// `or := and { OR and }`. An operand takes up at least one token; the test says so for the
/// recursion's sake.
pub open spec fn or_at(t: Seq<(TokenView, int)>, at: int) -> Parsed
    decreases t.len() - at, 5int,
{
    match and_at(t, at) {
        Ok((left, next)) => if at < next <= t.len() {
            or_rest(t, left, next)
        } else {
            Err(ErrorView::UnexpectedEnd)
        },
        Err(e) => Err(e),
    }
}

/// `{ OR and }` behind the operand `left`.
pub open spec fn or_rest(t: Seq<(TokenView, int)>, left: ExprView, at: int) -> Parsed
    decreases t.len() - at, 0int,
{
    if is_at(t, at, TokenView::Or) {
        match and_at(t, at + 1) {
            Ok((right, next)) => if at < next <= t.len() {
                or_rest(t, ExprView::Or(Box::new(left), Box::new(right)), next)
            } else {
                Err(ErrorView::UnexpectedEnd)
            },
            Err(e) => Err(e),
        }
    } else {
        Ok((left, at))
    }
}

/// `and := not { AND not }`. An operand takes up at least one token; the test says so for the
/// recursion's sake.
pub open spec fn and_at(t: Seq<(TokenView, int)>, at: int) -> Parsed
    decreases t.len() - at, 4int,
{
    match not_at(t, at) {
        Ok((left, next)) => if at < next <= t.len() {
            and_rest(t, left, next)
        } else {
            Err(ErrorView::UnexpectedEnd)
        },
        Err(e) => Err(e),
    }
}

/// `{ AND not }` behind the operand `left`.
pub open spec fn and_rest(t: Seq<(TokenView, int)>, left: ExprView, at: int) -> Parsed
    decreases t.len() - at, 0int,
{
    if is_at(t, at, TokenView::And) {
        match not_at(t, at + 1) {
            Ok((right, next)) => if at < next <= t.len() {
                and_rest(t, ExprView::And(Box::new(left), Box::new(right)), next)
            } else {
                Err(ErrorView::UnexpectedEnd)
            },
            Err(e) => Err(e),
        }
    } else {
        Ok((left, at))
    }
}

/// `not := NOT not | primary`
pub open spec fn not_at(t: Seq<(TokenView, int)>, at: int) -> Parsed
    decreases t.len() - at, 3int,
{
    if is_at(t, at, TokenView::Not) {
        match not_at(t, at + 1) {
            Ok((inner, next)) => Ok((ExprView::Not(Box::new(inner)), next)),
            Err(e) => Err(e),
        }
    } else {
        primary_at(t, at)
    }
}

/// `primary := '(' or ')' | attribute '=' string | attribute '!=' string | presence | prefix`
pub open spec fn primary_at(t: Seq<(TokenView, int)>, at: int) -> Parsed
    decreases t.len() - at, 2int,
{
    if at < 0 || at >= t.len() {
        Err(ErrorView::UnexpectedEnd)
    } else {
        match t[at].0 {
            TokenView::LParen => match or_at(t, at + 1) {
                Ok((inner, next)) => if is_at(t, next, TokenView::RParen) {
                    Ok((inner, next + 1))
                } else {
                    Err(misfit(t, next))
                },
                Err(e) => Err(e),
            },
            TokenView::Attribute(key) => comparison_at(t, at, key),
            TokenView::AttributeHas(key) => Ok((ExprView::HasAttr { key }, at + 1)),
            TokenView::Ident(name) => if name == "hasPrefix"@ {
                prefix_at(t, at)
            } else {
                Err(unexpected(t, at, t[at].1))
            },
            _ => Err(unexpected(t, at, t[at].1)),
        }
    }
}

/// `= string` or `!= string` behind the attribute at `at`.
pub open spec fn comparison_at(t: Seq<(TokenView, int)>, at: int, key: Seq<char>) -> Parsed {
    if at + 1 >= t.len() {
        Err(ErrorView::UnexpectedEnd)
    } else if t[at + 1].0 != TokenView::Eq && t[at + 1].0 != TokenView::NotEq {
        Err(unexpected(t, at + 1, t[at].1))
    } else if at + 2 < t.len() && t[at + 2].0 is Str {
        Ok(
            (
                ExprView::Eq {
                    key,
                    value: t[at + 2].0->Str_0,
                    negated: t[at + 1].0 == TokenView::NotEq,
                },
                at + 3,
            ),
        )
    } else {
        Err(misfit(t, at + 2))
    }
}

/// `(attribute, string)` behind the name `hasPrefix` at `at`.
pub open spec fn prefix_at(t: Seq<(TokenView, int)>, at: int) -> Parsed {
    if !is_at(t, at + 1, TokenView::LParen) {
        Err(misfit(t, at + 1))
    } else if !(at + 2 < t.len() && t[at + 2].0 is Attribute) {
        Err(misfit(t, at + 2))
    } else if !is_at(t, at + 3, TokenView::Comma) {
        Err(misfit(t, at + 3))
    } else if !(at + 4 < t.len() && t[at + 4].0 is Str) {
        Err(misfit(t, at + 4))
    } else if !is_at(t, at + 5, TokenView::RParen) {
        Err(misfit(t, at + 5))
    } else {
        Ok(
            (
                ExprView::HasPrefix { key: t[at + 2].0->Attribute_0, value: t[at + 4].0->Str_0 },
                at + 6,
            ),
        )
    }
}

/// The filter that a list of tokens is.
pub open spec fn filter_of_tokens(t: Seq<(TokenView, int)>) -> Result<ExprView, ErrorView> {
    match or_at(t, 0) {
        Ok((expr, next)) => if next < t.len() {
            Err(unexpected(t, next, t[next].1))
        } else {
            Ok(expr)
        },
        Err(e) => Err(e),
    }
}

/// The filter that a text is.
pub open spec fn filter_of(text: Seq<char>) -> Result<ExprView, ErrorView> {
    match tokens_from(text, 0) {
        Ok(tokens) => filter_of_tokens(tokens),
        Err(e) => Err(e),
    }
}

struct Parser {
    tokens: Vec<(Token, usize)>,
    pos: usize,
}

impl Parser {
    spec fn toks(&self) -> Seq<(TokenView, int)> {
        tokens_view(self.tokens@)
    }

    spec fn wf(&self) -> bool {
        self.pos <= self.tokens@.len()
    }

    /// Whether `r` and the position after it are what `parsed` says of this parser.
    spec fn agrees(&self, before: &Parser, r: Result<Expr, FilterParseError>, parsed: Parsed) -> bool {
        &&& self.wf()
        &&& self.tokens == before.tokens
        &&& match r {
            Ok(e) => parsed == Parsed::Ok((e.view(), self.pos as int)) && before.pos < self.pos,
            Err(e) => parsed == Parsed::Err(e@),
        }
    }

    fn peek(&self) -> (t: Option<&Token>)
        requires
            self.wf(),
        ensures
            match t {
                Some(t) => self.pos < self.tokens@.len() && t.view() == self.toks()[self.pos as int].0,
                None => self.pos == self.tokens@.len(),
            },
    {
        if self.pos < self.tokens.len() {
            Some(&self.tokens[self.pos].0)
        } else {
            None
        }
    }

    fn advance(&mut self) -> (item: Option<(Token, usize)>)
        requires
            old(self).wf(),
        ensures
            final(self).wf(),
            final(self).tokens == old(self).tokens,
            match item {
                Some((t, p)) => {
                    &&& old(self).pos < old(self).tokens@.len()
                    &&& final(self).pos == old(self).pos + 1
                    &&& (t.view(), p as int) == old(self).toks()[old(self).pos as int]
                },
                None => final(self).pos == old(self).pos && old(self).pos == old(self).tokens@.len(),
            },
    {
        if self.pos < self.tokens.len() {
            let item = (self.tokens[self.pos].0.copy(), self.tokens[self.pos].1);
            self.pos += 1;
            Some(item)
        } else {
            None
        }
    }

    fn expect_end(&self) -> (r: Result<(), FilterParseError>)
        requires
            self.wf(),
        ensures
            match r {
                Ok(_) => self.pos == self.tokens@.len(),
                Err(e) => self.pos < self.tokens@.len() && e@ == unexpected(
                    self.toks(),
                    self.pos as int,
                    self.toks()[self.pos as int].1,
                ),
            },
    {
        if self.pos < self.tokens.len() {
            let found = self.tokens[self.pos].0.text();
            let position: usize = self.tokens[self.pos].1;
            return Err(FilterParseError::UnexpectedToken { found, position });
        }
        Ok(())
    }

    fn parse_or(&mut self) -> (r: Result<Expr, FilterParseError>)
        requires
            old(self).wf(),
        ensures
            final(self).agrees(old(self), r, or_at(old(self).toks(), old(self).pos as int)),
        decreases old(self).tokens@.len() - old(self).pos, 5int,
    {
        let ghost t = self.toks();
        let mut left = match self.parse_and() {
            Ok(e) => e,
            Err(e) => return Err(e),
        };
        loop
            invariant
                self.wf(),
                self.tokens == old(self).tokens,
                self.toks() == t,
                t == old(self).toks(),
                old(self).pos < self.pos,
                or_at(t, old(self).pos as int) == or_rest(t, left.view(), self.pos as int),
            decreases self.tokens@.len() - self.pos,
        {
            match self.peek() {
                Some(Token::Or) => {},
                _ => return Ok(left),
            }
            let _ = self.advance();
            let right = match self.parse_and() {
                Ok(e) => e,
                Err(e) => return Err(e),
            };
            left = Expr::Or(Box::new(left), Box::new(right));
        }
    }

    fn parse_and(&mut self) -> (r: Result<Expr, FilterParseError>)
        requires
            old(self).wf(),
        ensures
            final(self).agrees(old(self), r, and_at(old(self).toks(), old(self).pos as int)),
        decreases old(self).tokens@.len() - old(self).pos, 4int,
    {
        let ghost t = self.toks();
        let mut left = match self.parse_not() {
            Ok(e) => e,
            Err(e) => return Err(e),
        };
        loop
            invariant
                self.wf(),
                self.tokens == old(self).tokens,
                self.toks() == t,
                t == old(self).toks(),
                old(self).pos < self.pos,
                and_at(t, old(self).pos as int) == and_rest(t, left.view(), self.pos as int),
            decreases self.tokens@.len() - self.pos,
        {
            match self.peek() {
                Some(Token::And) => {},
                _ => return Ok(left),
            }
            let _ = self.advance();
            let right = match self.parse_not() {
                Ok(e) => e,
                Err(e) => return Err(e),
            };
            left = Expr::And(Box::new(left), Box::new(right));
        }
    }

    fn parse_not(&mut self) -> (r: Result<Expr, FilterParseError>)
        requires
            old(self).wf(),
        ensures
            final(self).agrees(old(self), r, not_at(old(self).toks(), old(self).pos as int)),
        decreases old(self).tokens@.len() - old(self).pos, 3int,
    {
        if let Some(Token::Not) = self.peek() {
            let _ = self.advance();
            match self.parse_not() {
                Ok(inner) => Ok(Expr::Not(Box::new(inner))),
                Err(e) => Err(e),
            }
        } else {
            self.parse_primary()
        }
    }

    fn parse_primary(&mut self) -> (r: Result<Expr, FilterParseError>)
        requires
            old(self).wf(),
        ensures
            final(self).agrees(old(self), r, primary_at(old(self).toks(), old(self).pos as int)),
        decreases old(self).tokens@.len() - old(self).pos, 2int,
    {
        let (tok, pos) = match self.advance() {
            Some(item) => item,
            None => return Err(FilterParseError::UnexpectedEnd),
        };
        match tok {
            Token::LParen => {
                let inner = match self.parse_or() {
                    Ok(e) => e,
                    Err(e) => return Err(e),
                };
                match self.expect(Token::RParen) {
                    Ok(_) => Ok(inner),
                    Err(e) => Err(e),
                }
            },
            Token::Attribute(key) => {
                let op = match self.advance() {
                    Some((op, _)) => op,
                    None => return Err(FilterParseError::UnexpectedEnd),
                };
                let negated = match op {
                    Token::Eq => false,
                    Token::NotEq => true,
                    other => {
                        return Err(
                            FilterParseError::UnexpectedToken {
                                found: other.text(),
                                position: pos,
                            },
                        );
                    },
                };
                match self.expect_string() {
                    Ok(value) => Ok(Expr::Eq { key, value, negated }),
                    Err(e) => Err(e),
                }
            },
            Token::AttributeHas(key) => Ok(Expr::HasAttr { key }),
            Token::Ident(name) => {
                if !text::same_text(name.as_str(), "hasPrefix") {
                    return Err(
                        FilterParseError::UnexpectedToken {
                            found: Token::Ident(name).text(),
                            position: pos,
                        },
                    );
                }
                match self.expect(Token::LParen) {
                    Ok(_) => {},
                    Err(e) => return Err(e),
                }
                let key = match self.expect_attribute() {
                    Ok(key) => key,
                    Err(e) => return Err(e),
                };
                match self.expect(Token::Comma) {
                    Ok(_) => {},
                    Err(e) => return Err(e),
                }
                let value = match self.expect_string() {
                    Ok(value) => value,
                    Err(e) => return Err(e),
                };
                match self.expect(Token::RParen) {
                    Ok(_) => Ok(Expr::HasPrefix { key, value }),
                    Err(e) => Err(e),
                }
            },
            other => Err(
                FilterParseError::UnexpectedToken { found: other.text(), position: pos },
            ),
        }
    }

    fn expect(&mut self, expected: Token) -> (r: Result<(), FilterParseError>)
        requires
            old(self).wf(),
            expected is LParen || expected is RParen || expected is Comma,
        ensures
            final(self).wf(),
            final(self).tokens == old(self).tokens,
            match r {
                Ok(_) => is_at(old(self).toks(), old(self).pos as int, expected.view())
                    && final(self).pos == old(self).pos + 1,
                Err(e) => !is_at(old(self).toks(), old(self).pos as int, expected.view()) && e@
                    == misfit(old(self).toks(), old(self).pos as int),
            },
    {
        match self.advance() {
            Some((t, p)) => {
                let same = match (&t, &expected) {
                    (Token::LParen, Token::LParen) => true,
                    (Token::RParen, Token::RParen) => true,
                    (Token::Comma, Token::Comma) => true,
                    _ => false,
                };
                if same {
                    Ok(())
                } else {
                    Err(FilterParseError::UnexpectedToken { found: t.text(), position: p })
                }
            },
            None => Err(FilterParseError::UnexpectedEnd),
        }
    }

    fn expect_string(&mut self) -> (r: Result<String, FilterParseError>)
        requires
            old(self).wf(),
        ensures
            final(self).wf(),
            final(self).tokens == old(self).tokens,
            match r {
                Ok(s) => is_at(old(self).toks(), old(self).pos as int, TokenView::Str(s@))
                    && final(self).pos == old(self).pos + 1,
                Err(e) => !(old(self).pos < old(self).toks().len() && old(self).toks()[old(
                    self,
                ).pos as int].0 is Str) && e@ == misfit(old(self).toks(), old(self).pos as int),
            },
    {
        match self.advance() {
            Some((Token::Str(s), _)) => Ok(s),
            Some((other, p)) => Err(
                FilterParseError::UnexpectedToken { found: other.text(), position: p },
            ),
            None => Err(FilterParseError::UnexpectedEnd),
        }
    }

    fn expect_attribute(&mut self) -> (r: Result<String, FilterParseError>)
        requires
            old(self).wf(),
        ensures
            final(self).wf(),
            final(self).tokens == old(self).tokens,
            match r {
                Ok(s) => is_at(old(self).toks(), old(self).pos as int, TokenView::Attribute(s@))
                    && final(self).pos == old(self).pos + 1,
                Err(e) => !(old(self).pos < old(self).toks().len() && old(self).toks()[old(
                    self,
                ).pos as int].0 is Attribute) && e@ == misfit(
                    old(self).toks(),
                    old(self).pos as int,
                ),
            },
    {
        match self.advance() {
            Some((Token::Attribute(k), _)) => Ok(k),
            Some((other, p)) => Err(
                FilterParseError::UnexpectedToken { found: other.text(), position: p },
            ),
            None => Err(FilterParseError::UnexpectedEnd),
        }
    }
}

} // verus!
