use vault_inject::errors::ParseError;
use vault_inject::secret_mapping::{split_secret_path_and_key, SecretMapping};
use vault_inject::template::Template;

#[test]
fn secret_mapping_test_string_to_secretmapping() {
    let cases = vec![
        // ###############
        // ### Allowed ###
        // ###############

        // Basic paths (we strip leading but not trailing '/'):
        ("FOO = /hello/foo/bar", Some(("FOO", "hello/foo", "bar", vec![]))),
        // We ignore various whitespace:
        ("FOO= /hello/foo/bar ", Some(("FOO", "hello/foo", "bar", vec![]))),
        ("FOO=/hello/foo/bar ", Some(("FOO", "hello/foo", "bar", vec![]))),
        (" FOO=/hello/foo/bar ", Some(("FOO", "hello/foo", "bar", vec![]))),
        // We allow secrets to be piped through commands:
        ("FOO= /hello/foo/bar | base64", Some(("FOO", "hello/foo", "bar", vec!["base64"]))),
        ("FOO= /hello/foo/bar | base64 | rev", Some(("FOO", "hello/foo", "bar", vec!["base64", "rev"]))),
        ("FOO=/hello/foo/bar|base64|rev", Some(("FOO", "hello/foo", "bar", vec!["base64", "rev"]))),
        ("FOO=/hello/foo/bar|base64| rev ", Some(("FOO", "hello/foo", "bar", vec!["base64", "rev"]))),
        // You can use parameters:
        ("{bar} = /hello/foo/{bar} ", Some(("{bar}", "hello/foo", "{bar}", vec![]))),
        ("FOO_{bar} = /hello/foo/{bar} ", Some(("FOO_{bar}", "hello/foo", "{bar}", vec![]))),

        // ###################
        // ### NOT Allowed ###
        // ###################

        // You must have a path:
        ("FOO", None),
        // The path string must have at least one '/' in it (path/key):
        ("FOO = /hello", None),
        // You must use '='
        ("FOO /hello/lark", None),
        // You can't have empty commands:
        ("FOO = /hello/lark |", None),
        ("FOO = /hello/lark ||", None),
        ("FOO = /hello/lark ||rev", None),
    ];

    for (s, res) in cases {
        match res {
            Some((env, path, key, processors)) => {
                let processor_strings: Vec<String> = processors
                    .into_iter()
                    .map(|s: &str| s.to_owned())
                    .collect();
                let mapping = match SecretMapping::from_str(s) {
                    Ok(mapping) => mapping,
                    Err(err) => panic!("String '{}' is not a valid SecretMapping: {:?}", s, err),
                };

                assert_eq!(
                    Template::new(env).unwrap(),
                    *mapping.env_var(),
                    "Environment variable doesn't match expected"
                );
                assert_eq!(
                    Template::new(key).unwrap(),
                    *mapping.key(),
                    "Key doesn't match expected"
                );
                assert_eq!(path, mapping.path(), "Path doesn't match expected");
                assert_eq!(
                    &processor_strings,
                    mapping.processors(),
                    "Piped commands don't match expected"
                );
            },
            None => {
                if let Ok(mapping) = SecretMapping::from_str(s) {
                    panic!("Did not expect '{}' to be valid, but it was: {:?}", s, mapping);
                }
            },
        }
    }
}

#[test]
fn mapping_error_variants() {
    assert!(matches!(
        SecretMapping::from_str("FOO /hello/lark").unwrap_err(),
        ParseError::MissingEquals
    ));
    assert!(matches!(
        SecretMapping::from_str("FOO = /hello").unwrap_err(),
        ParseError::MissingSlash
    ));
    assert!(matches!(
        SecretMapping::from_str("FOO = /a/b |").unwrap_err(),
        ParseError::EmptyFilter(2)
    ));
    assert!(matches!(
        SecretMapping::from_str("FOO = /a/b ||").unwrap_err(),
        ParseError::EmptyFilter(2)
    ));
    assert!(matches!(
        SecretMapping::from_str("FOO = | base64").unwrap_err(),
        ParseError::EmptyFilter(1)
    ));
    assert!(matches!(
        SecretMapping::from_str("FOO = /a/{x}_{x}").unwrap_err(),
        ParseError::DuplicateParameter(_)
    ));
    assert!(matches!(
        SecretMapping::from_str("{a}_{a} = /x/b").unwrap_err(),
        ParseError::DuplicateParameter(_)
    ));
}

#[test]
fn env_var_parameters_must_come_from_key() {
    // `{a}` is not a valid env-var template when the key template is `b`.
    assert!(matches!(
        SecretMapping::from_str("{a} = /x/b").unwrap_err(),
        ParseError::UnboundParameter
    ));
    // the reverse direction is allowed: the key may bind more than the
    // env-var uses
    assert!(SecretMapping::from_str("FIXED = /x/{a}").is_ok());
}

#[test]
fn filters_parse_in_order() {
    let mapping = SecretMapping::from_str("FOO = /a/b | base64 | rev").unwrap();
    assert_eq!(mapping.processors(), &vec!["base64".to_owned(), "rev".to_owned()]);
}

#[test]
fn path_keeps_trailing_content() {
    // only leading slashes are stripped from the path
    let mapping = SecretMapping::from_str("FOO = ///hello/foo/bar").unwrap();
    assert_eq!(mapping.path(), "hello/foo");
}

#[test]
fn env_var_from_key_selects_and_renames() {
    let mapping = SecretMapping::from_str("DB_{field}=secret/app/creds/{field}").unwrap();
    assert_eq!(mapping.env_var_from_key("db_user"), Some("DB_db_user".to_owned()));
    assert_eq!(mapping.env_var_from_key(""), None);
    let fixed = SecretMapping::from_str("FOO = /a/bar").unwrap();
    assert_eq!(fixed.env_var_from_key("bar"), Some("FOO".to_owned()));
    assert_eq!(fixed.env_var_from_key("other"), None);
}

#[test]
fn split_rejects_leading_slash_only() {
    assert_eq!(split_secret_path_and_key("hello/foo/bar"), Some(("hello/foo", "bar")));
    assert_eq!(split_secret_path_and_key("/hello"), None);
    assert_eq!(split_secret_path_and_key("hello"), None);
}
