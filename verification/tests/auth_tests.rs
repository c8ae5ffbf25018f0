use vault_inject::auth::{
    fill_credentials, immediate_token, initial_token_step, login_request, required_prompts,
    should_write_cache, step_after_probe, to_auth_details, token_from_login_response,
    AuthDetails, AuthOptions, AuthType, CachePolicy,
};
use vault_inject::cache::Cache;
use vault_inject::errors::AuthError;
use vault_inject::json::Json;

fn obj(fields: Vec<(&str, Json)>) -> Json {
    Json::Object(fields.into_iter().map(|(k, v)| (k.to_owned(), v)).collect())
}

fn text(s: &str) -> Json {
    Json::Text(s.to_owned())
}

#[test]
fn auth_type_selectors() {
    assert_eq!(AuthType::from_str("ldap"), Some(AuthType::Ldap));
    assert_eq!(AuthType::from_str("LDAP"), Some(AuthType::Ldap));
    assert_eq!(AuthType::from_str("token"), Some(AuthType::Token));
    assert_eq!(AuthType::from_str("userpass"), Some(AuthType::UserPass));
    assert_eq!(AuthType::from_str("user-pass"), Some(AuthType::UserPass));
    assert_eq!(AuthType::from_str("username-password"), Some(AuthType::UserPass));
    assert_eq!(AuthType::from_str("Username"), Some(AuthType::UserPass));
    assert_eq!(AuthType::from_str("USER"), Some(AuthType::UserPass));
    assert_eq!(AuthType::from_str("github"), None);
    assert_eq!(AuthType::from_str(""), None);
}

fn options(
    auth_type: Option<AuthType>,
    token: Option<&str>,
    username: Option<&str>,
    password: Option<&str>,
) -> AuthOptions {
    AuthOptions {
        auth_type,
        auth_path: None,
        username: username.map(|s| s.to_owned()),
        password: password.map(|s| s.to_owned()),
        token: token.map(|s| s.to_owned()),
    }
}

#[test]
fn method_defaults_follow_supplied_credentials() {
    // a supplied token defaults the method to token auth
    let details = to_auth_details(&options(None, Some("tok"), None, None));
    assert_eq!(details, AuthDetails::Token { token: "tok".to_owned() });
    // otherwise username/password is the default
    let details = to_auth_details(&options(None, None, Some("amy"), Some("pw")));
    assert_eq!(
        details,
        AuthDetails::UserPass { path: None, username: "amy".to_owned(), password: "pw".to_owned() }
    );
    // an explicit selector wins
    let details = to_auth_details(&options(Some(AuthType::Ldap), Some("tok"), None, None));
    assert_eq!(
        details,
        AuthDetails::Ldap { path: None, username: String::new(), password: String::new() }
    );
}

#[test]
fn prompts_cover_exactly_the_missing_credentials() {
    let full = AuthDetails::UserPass {
        path: None,
        username: "amy".to_owned(),
        password: "pw".to_owned(),
    };
    assert_eq!(required_prompts(&full), (false, false));
    let missing_pw = AuthDetails::Ldap {
        path: None,
        username: "amy".to_owned(),
        password: String::new(),
    };
    assert_eq!(required_prompts(&missing_pw), (false, true));
    let empty_token = AuthDetails::Token { token: String::new() };
    assert_eq!(required_prompts(&empty_token), (false, true));

    let filled = fill_credentials(&missing_pw, None, Some("answered".to_owned()));
    assert_eq!(
        filled,
        AuthDetails::Ldap { path: None, username: "amy".to_owned(), password: "answered".to_owned() }
    );
    // non-empty credentials are never overwritten
    let kept = fill_credentials(&full, Some("other".to_owned()), Some("other".to_owned()));
    assert_eq!(kept, full);
}

#[test]
fn login_requests_use_method_specific_mounts() {
    let (path, body) = login_request(&AuthDetails::Ldap {
        path: None,
        username: "amy".to_owned(),
        password: "pw".to_owned(),
    })
    .unwrap();
    assert_eq!(path, "auth/ldap/login/amy");
    match body {
        Json::Object(entries) => {
            assert_eq!(entries.len(), 1);
            assert_eq!(entries[0].0, "password");
            assert!(matches!(entries[0].1, Json::Text(ref v) if v == "pw"));
        },
        _ => panic!("login body should be an object"),
    }

    let (path, _) = login_request(&AuthDetails::UserPass {
        path: Some("/custom/mount/".to_owned()),
        username: "bob".to_owned(),
        password: "pw".to_owned(),
    })
    .unwrap();
    assert_eq!(path, "auth/custom/mount/login/bob");

    assert!(login_request(&AuthDetails::Token { token: "tok".to_owned() }).is_none());
    assert_eq!(
        immediate_token(&AuthDetails::Token { token: "tok".to_owned() }),
        Some("tok".to_owned())
    );
}

#[test]
fn login_response_token_extraction() {
    let good = obj(vec![("auth", obj(vec![("client_token", text("s.abc"))]))]);
    assert_eq!(token_from_login_response(&good).unwrap(), "s.abc");

    let missing = obj(vec![("auth", obj(vec![]))]);
    assert!(matches!(
        token_from_login_response(&missing).unwrap_err(),
        AuthError::MalformedResponse
    ));
    let not_text = obj(vec![("auth", obj(vec![("client_token", Json::Null)]))]);
    assert!(matches!(
        token_from_login_response(&not_text).unwrap_err(),
        AuthError::MalformedResponse
    ));
}

#[test]
fn cache_policy_precedence() {
    let open = CachePolicy {
        no_cache: false,
        no_cache_read: false,
        no_cache_write: false,
        explicit_token: false,
    };
    // reads enabled: the cached token is probed
    assert_eq!(initial_token_step(&open, Some("cached".to_owned())), Some("cached".to_owned()));
    assert_eq!(initial_token_step(&open, None), None);
    // an explicit token bypasses the cache entirely
    let explicit = CachePolicy { explicit_token: true, ..open };
    assert_eq!(initial_token_step(&explicit, Some("cached".to_owned())), None);
    assert!(!should_write_cache(&explicit));
    // read and write switches
    let no_read = CachePolicy { no_cache_read: true, ..open };
    assert_eq!(initial_token_step(&no_read, Some("cached".to_owned())), None);
    assert!(should_write_cache(&no_read));
    let no_write = CachePolicy { no_cache_write: true, ..open };
    assert!(!should_write_cache(&no_write));
    let off = CachePolicy { no_cache: true, ..open };
    assert_eq!(initial_token_step(&off, Some("cached".to_owned())), None);
    assert!(!should_write_cache(&off));
}

#[test]
fn cache_fallback_scenario() {
    // a cached token that fails the validity probe triggers a fresh login
    // and overwrites the cache; the failed probe is not an error
    let policy = CachePolicy {
        no_cache: false,
        no_cache_read: false,
        no_cache_write: false,
        explicit_token: false,
    };
    let mut cache = Cache::new(Some("stale".to_owned()));
    let probe_target = initial_token_step(&policy, cache.get_token());
    assert_eq!(probe_target, Some("stale".to_owned()));
    // the probe fails: fall back to login
    assert_eq!(step_after_probe(false, probe_target.unwrap()), None);
    // the fresh token overwrites the single cached slot
    assert!(should_write_cache(&policy));
    cache.set_token("fresh".to_owned());
    assert_eq!(cache.get_token(), Some("fresh".to_owned()));
    // a valid probe would have reused the cached token
    assert_eq!(step_after_probe(true, "stale".to_owned()), Some("stale".to_owned()));
}
