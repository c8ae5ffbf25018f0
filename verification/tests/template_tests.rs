use vault_inject::errors::ParseError;
use vault_inject::template::{Matcher, Matches, Template};

fn matches_of(pairs: Vec<(&str, &str)>) -> Matches {
    Matches::new(pairs.into_iter().map(|(k, v)| (k.to_owned(), v.to_owned())).collect())
}

#[test]
fn stringify_template() {
    let cases = vec![
        ("foo_{bar}", vec![("bar", "hello")], "foo_hello"),
        ("foo_{bar}", vec![("bar", "wibble")], "foo_wibble"),
        ("foo_{ bar }", vec![("bar", "wibble")], "foo_wibble"),
        ("{a}", vec![("a", "b")], "b"),
        ("a", vec![("a", "b")], "a"),
        ("{a},{b},{c}", vec![("a", "A"), ("b", "B"), ("c", "C")], "A,B,C"),
        ("{a},{b},{c}", vec![("a", "A"), ("b", "B")], "A,B,"),
    ];

    for (tmpl_str, subs, expected) in cases {
        let tmpl = Template::new(tmpl_str).expect("Could not instantiate template");
        let actual = tmpl.stringify(&matches_of(subs));
        assert_eq!(actual, expected, "Stringified template does not match expected");
    }
}

#[test]
fn match_template() {
    let cases = vec![
        ("foo {bar} wibble", "foo 12345 wibble", true),
        ("foo {bar} wibble", "foo some words here wibble", true),
        // Nothing can exist before or after the tmpl string:
        ("foo {bar} wibble", "foo 12345 wibble no", false),
        ("foo {bar} wibble", "no foo 12345 wibble", false),
        // A capture matches whatever it can:
        ("{ anything }", "blah 123 -=12-090 :@~\u{a3}", true),
        ("{ anything }", "a", true),
        // A capture can't match nothing at all:
        ("{ anything }", "", false),
        // Multiple captures are non-greedily handled:
        ("{a}_{b}_c_{d}", "A_A_A_b_b_b_c_dDdDdD", true),
        ("{a}_{b}_c_{d}", "A_A_A_b_b_b_z_dDdDdD", false),
    ];

    for (tmpl_str, match_str, does_match) in cases {
        let tmpl = Template::new(tmpl_str).expect("Could not instantiate template");
        let actual_does_match = tmpl.matches(match_str).is_some();
        if does_match {
            assert!(actual_does_match, "'{}' should match the string '{}'", tmpl_str, match_str);
        } else {
            assert!(!actual_does_match, "'{}' should NOT match the string '{}'", tmpl_str, match_str);
        }
    }
}

#[test]
fn duplicate_parameter_rejected() {
    let err = Template::new("{a}_{a}").unwrap_err();
    assert!(matches!(err, ParseError::DuplicateParameter(ref p) if p == "a"));
    assert!(Template::new("{a}_{b}").is_ok());
}

#[test]
fn nongreedy_captures() {
    let tmpl = Template::new("{a}_{b}_c_{d}").unwrap();
    let m = tmpl.matches("A_A_A_b_b_b_c_dDdDdD").unwrap();
    assert_eq!(m.get_match("a"), Some("A"));
    assert_eq!(m.get_match("b"), Some("A_A_b_b_b"));
    assert_eq!(m.get_match("d"), Some("dDdDdD"));
    assert_eq!(m.get_match("nope"), None);
}

#[test]
fn round_trip_two_parameters() {
    // Rendering captures and matching the result returns exactly those
    // captures, as long as the first value avoids the delimiter.
    let tmpl = Template::new("{p1},{p2}").unwrap();
    let rendered = tmpl.stringify(&matches_of(vec![("p1", "alpha"), ("p2", "beta,gamma")]));
    assert_eq!(rendered, "alpha,beta,gamma");
    let m = tmpl.matches(&rendered).unwrap();
    assert_eq!(m.get_match("p1"), Some("alpha"));
    assert_eq!(m.get_match("p2"), Some("beta,gamma"));
}

#[test]
fn render_with_no_captures_blanks_placeholders() {
    let tmpl = Template::new("pre_{a}_mid_{b}_post").unwrap();
    let rendered = tmpl.stringify(&matches_of(vec![]));
    assert_eq!(rendered, "pre__mid__post");
}

#[test]
fn braces_without_placeholder_are_literal() {
    let tmpl = Template::new("{not a param}").unwrap();
    assert!(tmpl.matches("{not a param}").is_some());
    assert!(tmpl.matches("something").is_none());
    // a brace before a real placeholder stays literal
    let tmpl2 = Template::new("{{a}").unwrap();
    let m = tmpl2.matches("{xyz}").unwrap();
    assert_eq!(m.get_match("a"), Some("xyz}"));
}

#[test]
fn can_stringify_from_checks_parameter_subset() {
    let key = Template::new("{field}").unwrap();
    let env = Template::new("DB_{field}").unwrap();
    let other = Template::new("plain").unwrap();
    assert!(env.can_stringify_from(&key));
    assert!(!env.can_stringify_from(&other));
    assert!(other.can_stringify_from(&env));
}

#[test]
fn empty_template_matches_only_empty_input() {
    let tmpl = Template::new("").unwrap();
    assert!(tmpl.matches("").is_some());
    assert!(tmpl.matches("x").is_none());
    assert_eq!(tmpl.stringify(&matches_of(vec![("a", "b")])), "");
}
