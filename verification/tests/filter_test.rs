use deltio::collections::StringMap;
use deltio::subscriptions::filter::{Filter, FilterParseError};

fn attrs(pairs: &[(&str, &str)]) -> StringMap {
    let mut map = StringMap::new();
    for (k, v) in pairs {
        map.insert(k.to_string(), v.to_string());
    }
    map
}

fn parse(input: &str) -> Filter {
    Filter::parse(input).expect("parse")
}

#[test]
fn parses_simple_equality() {
    let f = parse("attributes.ce-type = \"foo\"");
    assert!(f.matches(Some(&attrs(&[("ce-type", "foo")]))));
    assert!(!f.matches(Some(&attrs(&[("ce-type", "bar")]))));
    assert!(!f.matches(None));
}

#[test]
fn inequality_treats_missing_as_not_equal() {
    let f = parse("attributes.ce-type != \"foo\"");
    assert!(f.matches(Some(&attrs(&[("ce-type", "bar")]))));
    assert!(!f.matches(Some(&attrs(&[("ce-type", "foo")]))));
    // Missing attribute satisfies `!=` per Pub/Sub semantics.
    assert!(f.matches(Some(&attrs(&[]))));
}

#[test]
fn or_combines_two_equalities() {
    let f = parse("attributes.x = \"a\" OR attributes.x = \"b\"");
    assert!(f.matches(Some(&attrs(&[("x", "a")]))));
    assert!(f.matches(Some(&attrs(&[("x", "b")]))));
    assert!(!f.matches(Some(&attrs(&[("x", "c")]))));
}

#[test]
fn and_requires_both() {
    let f = parse("attributes.a = \"1\" AND attributes.b = \"2\"");
    assert!(f.matches(Some(&attrs(&[("a", "1"), ("b", "2")]))));
    assert!(!f.matches(Some(&attrs(&[("a", "1")]))));
}

#[test]
fn not_negates() {
    let f = parse("NOT attributes.x = \"a\"");
    assert!(!f.matches(Some(&attrs(&[("x", "a")]))));
    assert!(f.matches(Some(&attrs(&[("x", "b")]))));
}

#[test]
fn precedence_not_then_and_then_or() {
    // NOT a = X AND b = Y  ==  (NOT (a=X)) AND (b=Y)
    let f = parse("NOT attributes.a = \"X\" AND attributes.b = \"Y\"");
    assert!(f.matches(Some(&attrs(&[("a", "Q"), ("b", "Y")]))));
    assert!(!f.matches(Some(&attrs(&[("a", "X"), ("b", "Y")]))));

    // a=X OR b=Y AND c=Z  ==  a=X OR (b=Y AND c=Z)
    let f = parse("attributes.a = \"X\" OR attributes.b = \"Y\" AND attributes.c = \"Z\"");
    assert!(f.matches(Some(&attrs(&[("a", "X")]))));
    assert!(f.matches(Some(&attrs(&[("b", "Y"), ("c", "Z")]))));
    assert!(!f.matches(Some(&attrs(&[("b", "Y"), ("c", "W")]))));
}

#[test]
fn parens_override_precedence() {
    let f = parse("(attributes.a = \"X\" OR attributes.b = \"Y\") AND attributes.c = \"Z\"");
    assert!(f.matches(Some(&attrs(&[("a", "X"), ("c", "Z")]))));
    assert!(!f.matches(Some(&attrs(&[("a", "X")]))));
}

#[test]
fn has_prefix_function() {
    let f = parse("hasPrefix(attributes.x, \"foo\")");
    assert!(f.matches(Some(&attrs(&[("x", "foobar")]))));
    assert!(!f.matches(Some(&attrs(&[("x", "barfoo")]))));
    assert!(!f.matches(None));
}

#[test]
fn has_attribute() {
    let f = parse("attributes:x");
    assert!(f.matches(Some(&attrs(&[("x", "")]))));
    assert!(f.matches(Some(&attrs(&[("x", "anything")]))));
    assert!(!f.matches(Some(&attrs(&[("y", "z")]))));
}

#[test]
fn handles_escapes_in_string() {
    let f = parse("attributes.x = \"he said \\\"hi\\\"\"");
    assert!(f.matches(Some(&attrs(&[("x", "he said \"hi\"")]))));
}

#[test]
fn rejects_empty_input() {
    assert!(matches!(
        Filter::parse(""),
        Err(FilterParseError::UnexpectedEnd)
    ));
}

#[test]
fn rejects_dangling_operator() {
    assert!(Filter::parse("attributes.x =").is_err());
}

#[test]
fn rejects_unknown_function() {
    assert!(Filter::parse("hasSuffix(attributes.x, \"y\")").is_err());
}

#[test]
fn ce_type_or_equality_matches_pipeline_filter_shape() {
    let f =
        parse("attributes.ce-type = \"com.cula.foo\" OR attributes.ce-type = \"com.cula.bar\"");
    assert!(f.matches(Some(&attrs(&[("ce-type", "com.cula.foo")]))));
    assert!(f.matches(Some(&attrs(&[("ce-type", "com.cula.bar")]))));
    assert!(!f.matches(Some(&attrs(&[("ce-type", "com.cula.baz")]))));
}

fn error(input: &str) -> String {
    Filter::parse(input).expect_err("no filter").to_string()
}

#[test]
fn tells_where_a_filter_goes_wrong() {
    assert_eq!(error("attributes.x"), "unexpected end of filter");
    assert_eq!(error("attributes.x = \"open"), "unterminated string literal");
    assert_eq!(error("attributes.x = \"\\q\""), "invalid escape sequence '\\q'");
    assert_eq!(error("attributes. = \"v\""), "invalid identifier 'empty attribute key'");
    assert_eq!(error("attributes.x = #"), "unexpected token '#' at position 15");
    assert_eq!(error("attributes/x"), "unexpected token 'attributes/' at position 10");
    // A token is shown with its text quoted and escaped.
    assert_eq!(
        error("attributes:x \"a\\\"b\""),
        "unexpected token 'Str(\"a\\\"b\")' at position 13"
    );
    assert_eq!(
        error("hasSuffix(attributes.x, \"y\")"),
        "unexpected token 'Ident(\"hasSuffix\")' at position 0"
    );
}

#[test]
fn inequality_is_the_opposite_of_equality() {
    let eq = parse("attributes.k = \"v\"");
    let ne = parse("attributes.k != \"v\"");
    for a in [attrs(&[]), attrs(&[("k", "v")]), attrs(&[("k", "w")]), attrs(&[("l", "v")])] {
        assert_eq!(eq.matches(Some(&a)), !ne.matches(Some(&a)));
    }
    assert!(ne.matches(None));
}

#[test]
fn blank_filter_is_no_filter() {
    assert!(matches!(Filter::parse(" \t\n"), Err(FilterParseError::UnexpectedEnd)));
}

#[test]
fn literal_stands_for_its_text_in_any_script() {
    let f = parse("attributes.x = \"\u{e9}\"");
    assert!(f.matches(Some(&attrs(&[("x", "\u{e9}")]))));
    assert!(!f.matches(Some(&attrs(&[("x", "e")]))));

    let f = parse("hasPrefix(attributes.x, \"\u{1f600}\\\"\")");
    assert!(f.matches(Some(&attrs(&[("x", "\u{1f600}\"!")]))));
    assert!(!f.matches(Some(&attrs(&[("x", "\u{1f600}")]))));
}

#[test]
fn positions_count_bytes() {
    assert_eq!(
        Filter::parse("attributes.x = \"\u{e9}\" ;"),
        Err(FilterParseError::UnexpectedToken { found: ";".to_string(), position: 20 })
    );
    assert_eq!(
        Filter::parse("\u{e9}"),
        Err(FilterParseError::UnexpectedToken { found: "\u{e9}".to_string(), position: 0 })
    );
    assert_eq!(
        Filter::parse("attributes.x = \"\\\u{e9}\""),
        Err(FilterParseError::InvalidEscape('\u{e9}'))
    );
}

#[test]
fn joined_filters_match_what_their_parts_match() {
    let a = "attributes.x = \"1\" OR attributes:y";
    let b = "hasPrefix(attributes.z, \"p\")";
    let fa = parse(a);
    let fb = parse(b);
    let both = parse(&format!("({a}) AND ({b})"));
    let either = parse(&format!("({a}) OR ({b})"));
    let not = parse(&format!("NOT ({a})"));
    for m in [
        attrs(&[]),
        attrs(&[("x", "1")]),
        attrs(&[("z", "pq")]),
        attrs(&[("x", "2"), ("y", ""), ("z", "p")]),
        attrs(&[("x", "2"), ("z", "q")]),
    ] {
        let m = Some(&m);
        assert_eq!(both.matches(m), fa.matches(m) && fb.matches(m));
        assert_eq!(either.matches(m), fa.matches(m) || fb.matches(m));
        assert_eq!(not.matches(m), !fa.matches(m));
    }
}

#[test]
fn parentheses_and_spaces_around_a_filter_change_nothing() {
    let s = "attributes.x = \"1\" AND NOT attributes:y";
    let f = parse(s);
    assert_eq!(parse(&format!("({s})")), f);
    assert_eq!(parse(&format!(" \t{s}\r\n")), f);
    assert_eq!(f.clone(), f);
}

#[test]
fn filter_goes_by_the_attributes_it_mentions() {
    let f = parse("attributes.x != \"1\" AND attributes:y");
    let one = attrs(&[("x", "2"), ("y", "a"), ("z", "b")]);
    let other = attrs(&[("x", "2"), ("y", "a"), ("w", "c")]);
    assert_eq!(f.matches(Some(&one)), f.matches(Some(&other)));
    assert_eq!(f.matches(None), f.matches(Some(&attrs(&[]))));
}

#[test]
fn inequality_is_the_negation_of_equality_in_any_script() {
    let eq = parse("attributes.x = \"\u{e9}\"");
    let ne = parse("attributes.x != \"\u{e9}\"");
    for m in [attrs(&[]), attrs(&[("x", "\u{e9}")]), attrs(&[("x", "e")])] {
        assert_eq!(ne.matches(Some(&m)), !eq.matches(Some(&m)));
    }
    assert!(ne.matches(None));
}
