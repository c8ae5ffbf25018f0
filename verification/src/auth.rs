//! The authentication token lifecycle: which method to use, what credentials
//! it still needs, the login request it issues, the token its response
//! carries, and when a cached token may stand in for a fresh login.
//!
//! Interactive prompting, the network call and the cache file are
//! collaborators outside the library: the functions here decide, and hand
//! back plain values for the surrounding program to act on.

use vstd::prelude::*;
use vstd::string::*;
use crate::errors::AuthError;
use crate::json::{spec_get2, Json};
use crate::strutil::{spec_trim_matches, trim_matches_char};

verus! {

/// The available authentication methods.
#[derive(Clone, Copy, Debug, PartialEq, Eq, Structural)]
pub enum AuthType {
    /// Directory-backed login with username and password.
    Ldap,
    /// The service's own username/password backend.
    UserPass,
    /// A pre-supplied bearer token.
    Token,
}

/// ASCII lowercasing of one character.
pub open spec fn spec_lower_char(c: char) -> char {
    if 'A' <= c && c <= 'Z' {
        ((c as u8) + 32) as char
    } else {
        c
    }
}

/// ASCII lowercasing of a string.
pub open spec fn spec_lower(s: Seq<char>) -> Seq<char> {
    s.map(|i: int, c: char| spec_lower_char(c))
}

/// The method a selector string names, compared case-insensitively; the
/// username/password method answers to several aliases.
pub open spec fn spec_auth_type(s: Seq<char>) -> Option<AuthType> {
    let l = spec_lower(s);
    if l == "ldap"@ {
        Some(AuthType::Ldap)
    } else if l == "token"@ {
        Some(AuthType::Token)
    } else if l == "userpass"@ || l == "user-pass"@ || l == "username-password"@ || l
        == "username"@ || l == "user"@ {
        Some(AuthType::UserPass)
    } else {
        None
    }
}

/// ASCII lowercasing, as `spec_lower` describes it.
fn to_lowercase_ascii(s: &str) -> (r: String)
    ensures
        r@ == spec_lower(s@),
{
    let n = s.unicode_len();
    let mut out = String::new();
    let mut i: usize = 0;
    while i < n
        invariant
            n == s@.len(),
            i <= n,
            out@ == spec_lower(s@.subrange(0, i as int)),
        decreases n - i,
    {
        let c = s.get_char(i);
        if 'A' <= c && c <= 'Z' {
            out.push(((c as u8) + 32) as char);
        } else {
            out.push(c);
        }
        i += 1;
        proof {
            assert(spec_lower(s@.subrange(0, i as int)) =~= spec_lower(
                s@.subrange(0, i - 1),
            ).push(spec_lower_char(s@[i - 1])));
        }
    }
    proof {
        assert(s@.subrange(0, n as int) =~= s@);
    }
    out
}

impl AuthType {
    /// Parse a method selector; `None` for unrecognized values, from which a
    /// caller reports the valid options.
    pub fn from_str(s: &str) -> (r: Option<AuthType>)
        ensures
            r == spec_auth_type(s@),
    {
        let l = to_lowercase_ascii(s);
        let ls = l.as_str();
        if crate::strutil::str_eq(ls, "ldap") {
            Some(AuthType::Ldap)
        } else if crate::strutil::str_eq(ls, "token") {
            Some(AuthType::Token)
        } else if crate::strutil::str_eq(ls, "userpass") || crate::strutil::str_eq(ls, "user-pass")
            || crate::strutil::str_eq(ls, "username-password") || crate::strutil::str_eq(
            ls,
            "username",
        ) || crate::strutil::str_eq(ls, "user") {
            Some(AuthType::UserPass)
        } else {
            None
        }
    }
}

/// The credentials each method needs to produce a token.
#[derive(Clone, Debug, PartialEq, Eq)]
pub enum AuthDetails {
    /// Directory-backed login, with an optional non-default mount path.
    Ldap { path: Option<String>, username: String, password: String },
    /// Username/password login, with an optional non-default mount path.
    UserPass { path: Option<String>, username: String, password: String },
    /// A pre-supplied bearer token.
    Token { token: String },
}

/// The view of an optional string, absence reading as empty.
pub open spec fn opt_str_view(o: Option<String>) -> Seq<char> {
    match o {
        Some(s) => s@,
        None => Seq::empty(),
    }
}

/// View equality of two optional strings.
pub open spec fn opt_str_eq(a: Option<String>, b: Option<String>) -> bool {
    match (a, b) {
        (Some(x), Some(y)) => x@ == y@,
        (None, None) => true,
        _ => false,
    }
}

/// The command-line facts the method selection depends on.
pub struct AuthOptions {
    /// The selector the user gave, if any.
    pub auth_type: Option<AuthType>,
    /// A non-default authentication mount path, if any.
    pub auth_path: Option<String>,
    /// Username for the credential methods.
    pub username: Option<String>,
    /// Password for the credential methods.
    pub password: Option<String>,
    /// A pre-supplied bearer token.
    pub token: Option<String>,
}

/// The method the options select: the explicit selector when given, else
/// the token method when a token was supplied, else username/password.
pub open spec fn spec_effective_auth_type(opts: AuthOptions) -> AuthType {
    match opts.auth_type {
        Some(t) => t,
        None => if opts.token is Some {
            AuthType::Token
        } else {
            AuthType::UserPass
        },
    }
}

/// Assemble the credentials for the selected method, absent fields reading
/// as empty so that prompting can fill them later.
pub fn to_auth_details(opts: &AuthOptions) -> (r: AuthDetails)
    ensures
        match spec_effective_auth_type(*opts) {
            AuthType::Ldap => r matches AuthDetails::Ldap { path, username, password }
                && opt_str_eq(path, opts.auth_path) && username@ == opt_str_view(opts.username)
                && password@ == opt_str_view(opts.password),
            AuthType::UserPass => r matches AuthDetails::UserPass { path, username, password }
                && opt_str_eq(path, opts.auth_path) && username@ == opt_str_view(opts.username)
                && password@ == opt_str_view(opts.password),
            AuthType::Token => r matches AuthDetails::Token { token } && token@ == opt_str_view(
                opts.token,
            ),
        },
{
    let auth_type = match &opts.auth_type {
        Some(t) => *t,
        None => if opts.token.is_some() {
            AuthType::Token
        } else {
            AuthType::UserPass
        },
    };
    match auth_type {
        AuthType::Ldap => AuthDetails::Ldap {
            path: opts.auth_path.clone(),
            username: clone_or_empty(&opts.username),
            password: clone_or_empty(&opts.password),
        },
        AuthType::UserPass => AuthDetails::UserPass {
            path: opts.auth_path.clone(),
            username: clone_or_empty(&opts.username),
            password: clone_or_empty(&opts.password),
        },
        AuthType::Token => AuthDetails::Token { token: clone_or_empty(&opts.token) },
    }
}

fn clone_or_empty(o: &Option<String>) -> (r: String)
    ensures
        r@ == opt_str_view(*o),
{
    match o {
        Some(s) => s.clone(),
        None => {
            let r = String::new();
            proof {
                assert(r@ =~= Seq::<char>::empty());
            }
            r
        },
    }
}

/// Which prompts a login still needs: a visible one for the username and a
/// hidden one for the password or token, each exactly when the
/// corresponding credential is empty.
pub fn required_prompts(details: &AuthDetails) -> (r: (bool, bool))
    ensures
        match details {
            AuthDetails::Ldap { username, password, .. } => r.0 == (username@.len() == 0) && r.1
                == (password@.len() == 0),
            AuthDetails::UserPass { username, password, .. } => r.0 == (username@.len() == 0)
                && r.1 == (password@.len() == 0),
            AuthDetails::Token { token } => r.0 == false && r.1 == (token@.len() == 0),
        },
{
    match details {
        AuthDetails::Ldap { username, password, .. } => (
            username.as_str().is_empty(),
            password.as_str().is_empty(),
        ),
        AuthDetails::UserPass { username, password, .. } => (
            username.as_str().is_empty(),
            password.as_str().is_empty(),
        ),
        AuthDetails::Token { token } => (false, token.as_str().is_empty()),
    }
}

/// Fill empty credentials from prompt answers: an empty username takes the
/// first answer, an empty password or token the second; non-empty
/// credentials and the mount path stay as they are.
pub fn fill_credentials(
    details: &AuthDetails,
    username: Option<String>,
    secret: Option<String>,
) -> (r: AuthDetails)
    ensures
        match details {
            AuthDetails::Ldap { path: p0, username: u0, password: w0 } => r matches
                AuthDetails::Ldap { path: p1, username: u1, password: w1 } && opt_str_eq(p1, *p0)
                && u1@ == (if u0@.len() == 0 {
                opt_str_view(username)
            } else {
                u0@
            }) && w1@ == (if w0@.len() == 0 {
                opt_str_view(secret)
            } else {
                w0@
            }),
            AuthDetails::UserPass { path: p0, username: u0, password: w0 } => r matches
                AuthDetails::UserPass { path: p1, username: u1, password: w1 } && opt_str_eq(
                p1,
                *p0,
            ) && u1@ == (if u0@.len() == 0 {
                opt_str_view(username)
            } else {
                u0@
            }) && w1@ == (if w0@.len() == 0 {
                opt_str_view(secret)
            } else {
                w0@
            }),
            AuthDetails::Token { token: t0 } => r matches AuthDetails::Token { token: t1 }
                && t1@ == (if t0@.len() == 0 {
                opt_str_view(secret)
            } else {
                t0@
            }),
        },
{
    match details {
        AuthDetails::Ldap { path, username: u0, password: w0 } => AuthDetails::Ldap {
            path: path.clone(),
            username: if u0.as_str().is_empty() {
                clone_or_empty(&username)
            } else {
                u0.clone()
            },
            password: if w0.as_str().is_empty() {
                clone_or_empty(&secret)
            } else {
                w0.clone()
            },
        },
        AuthDetails::UserPass { path, username: u0, password: w0 } => AuthDetails::UserPass {
            path: path.clone(),
            username: if u0.as_str().is_empty() {
                clone_or_empty(&username)
            } else {
                u0.clone()
            },
            password: if w0.as_str().is_empty() {
                clone_or_empty(&secret)
            } else {
                w0.clone()
            },
        },
        AuthDetails::Token { token: t0 } => AuthDetails::Token {
            token: if t0.as_str().is_empty() {
                clone_or_empty(&secret)
            } else {
                t0.clone()
            },
        },
    }
}

/// The request path a credential login posts to:
/// `auth/<mount>/login/<username>`, the mount stripped of surrounding
/// slashes.
pub open spec fn spec_login_path(mount: Seq<char>, username: Seq<char>) -> Seq<char> {
    "auth/"@ + spec_trim_matches(mount, '/') + "/login/"@ + username
}

/// Form the login request for a credential method: the request path and the
/// JSON body carrying the password.  `None` for the token method, whose
/// token needs no request.
pub fn login_request(details: &AuthDetails) -> (r: Option<(String, Json)>)
    ensures
        match details {
            AuthDetails::Ldap { path, username, password } => match r {
                Some(pb) => pb.0@ == spec_login_path(
                    match path {
                        Some(p) => p@,
                        None => "ldap"@,
                    },
                    username@,
                ) && spec_password_body(pb.1, password@),
                None => false,
            },
            AuthDetails::UserPass { path, username, password } => match r {
                Some(pb) => pb.0@ == spec_login_path(
                    match path {
                        Some(p) => p@,
                        None => "userpass"@,
                    },
                    username@,
                ) && spec_password_body(pb.1, password@),
                None => false,
            },
            AuthDetails::Token { .. } => r is None,
        },
{
    match details {
        AuthDetails::Ldap { path, username, password } => {
            let mount = match path {
                Some(p) => p.as_str(),
                None => "ldap",
            };
            Some((build_login_path(mount, username.as_str()), password_body(password)))
        },
        AuthDetails::UserPass { path, username, password } => {
            let mount = match path {
                Some(p) => p.as_str(),
                None => "userpass",
            };
            Some((build_login_path(mount, username.as_str()), password_body(password)))
        },
        AuthDetails::Token { .. } => None,
    }
}

/// Whether a JSON value is exactly the object `{"password": <pw>}`.
pub open spec fn spec_password_body(j: Json, pw: Seq<char>) -> bool {
    match j {
        Json::Object(entries) => entries@.len() == 1 && entries@[0].0@ == "password"@
            && (entries@[0].1 matches Json::Text(v) && v@ == pw),
        _ => false,
    }
}

fn password_body(password: &String) -> (r: Json)
    ensures
        spec_password_body(r, password@),
{
    let mut entries: Vec<(String, Json)> = Vec::new();
    entries.push(("password".to_owned(), Json::Text(password.clone())));
    Json::Object(entries)
}

fn build_login_path(mount: &str, username: &str) -> (r: String)
    ensures
        r@ == spec_login_path(mount@, username@),
{
    let mut out = "auth/".to_owned();
    out.append(trim_matches_char(mount, '/'));
    out.append("/login/");
    out.append(username);
    out
}

/// The immediately usable token of a pre-supplied token credential.
pub fn immediate_token(details: &AuthDetails) -> (r: Option<String>)
    ensures
        match details {
            AuthDetails::Token { token } => r matches Some(t) && t@ == token@,
            _ => r is None,
        },
{
    match details {
        AuthDetails::Token { token } => Some(token.clone()),
        _ => None,
    }
}

/// The bearer token a login response carries at `auth.client_token`; fails
/// with `MalformedResponse` when that field is absent or not a string.
pub fn token_from_login_response(response: &Json) -> (r: Result<String, AuthError>)
    ensures
        match (r, spec_get2(*response, "auth"@, "client_token"@)) {
            (Ok(t), Some(v)) => v matches Json::Text(s) && t@ == s@,
            (Err(e), f) => !(f matches Some(Json::Text(_))) && e is MalformedResponse,
            _ => false,
        },
{
    let auth = match response.get("auth") {
        Some(a) => a,
        None => {
            return Err(AuthError::MalformedResponse);
        },
    };
    let token = match auth.get("client_token") {
        Some(t) => t,
        None => {
            return Err(AuthError::MalformedResponse);
        },
    };
    match token.as_text() {
        Some(s) => Ok(s.clone()),
        None => Err(AuthError::MalformedResponse),
    }
}

// ---------------------------------------------------------------------------
// The cached-token policy.
// ---------------------------------------------------------------------------

/// The caching switches of one run, and whether an explicit token was
/// supplied (an explicit token always wins and is never persisted or read
/// back).
#[derive(Clone, Copy, Debug, PartialEq, Eq, Structural)]
pub struct CachePolicy {
    /// Disables the cache entirely.
    pub no_cache: bool,
    /// Disables reading a cached token.
    pub no_cache_read: bool,
    /// Disables persisting a fresh token.
    pub no_cache_write: bool,
    /// Whether the caller supplied a token credential directly.
    pub explicit_token: bool,
}

/// Whether a cached token may be consulted.
pub open spec fn spec_reads_enabled(p: CachePolicy) -> bool {
    !p.no_cache && !p.no_cache_read && !p.explicit_token
}

/// Whether a freshly obtained token is persisted.
pub open spec fn spec_writes_enabled(p: CachePolicy) -> bool {
    !p.no_cache && !p.no_cache_write && !p.explicit_token
}

/// The first step of token acquisition: the cached token to probe, when
/// reads are enabled and one is cached; `None` means a fresh login.
pub open spec fn spec_initial_token_step(p: CachePolicy, cached: Option<Seq<char>>) -> Option<
    Seq<char>,
> {
    if spec_reads_enabled(p) {
        cached
    } else {
        None
    }
}

/// After the validity probe: the token to use when it proved valid; `None`
/// means a fresh login.  A failed probe is a silent fallback, never an
/// error.
pub open spec fn spec_probe_outcome(valid: bool, token: Seq<char>) -> Option<Seq<char>> {
    if valid {
        Some(token)
    } else {
        None
    }
}

/// Decide whether and which cached token to probe before logging in.
pub fn initial_token_step(policy: &CachePolicy, cached: Option<String>) -> (r: Option<String>)
    ensures
        match r {
            Some(t) => spec_initial_token_step(*policy, opt_view(cached)) == Some(t@),
            None => spec_initial_token_step(*policy, opt_view(cached)) is None,
        },
{
    if policy.no_cache || policy.no_cache_read || policy.explicit_token {
        None
    } else {
        cached
    }
}

/// The view of an optional token.
pub open spec fn opt_view(o: Option<String>) -> Option<Seq<char>> {
    match o {
        Some(s) => Some(s@),
        None => None,
    }
}

/// Decide what a probe's verdict means for the probed token.
pub fn step_after_probe(valid: bool, token: String) -> (r: Option<String>)
    ensures
        match r {
            Some(t) => spec_probe_outcome(valid, token@) == Some(t@),
            None => spec_probe_outcome(valid, token@) is None,
        },
{
    if valid {
        Some(token)
    } else {
        None
    }
}

/// Decide whether a freshly obtained token is written back to the cache.
pub fn should_write_cache(policy: &CachePolicy) -> (r: bool)
    ensures
        r == spec_writes_enabled(*policy),
{
    !policy.no_cache && !policy.no_cache_write && !policy.explicit_token
}

/// Cache fallback: with caching fully enabled and no explicit token, a
/// cached token is probed first; when the probe fails, the run falls back
/// to a fresh login, whose token overwrites the cached one.  The failed
/// probe never surfaces as an error.
pub proof fn lemma_cache_fallback(policy: CachePolicy, cached: Seq<char>)
    requires
        !policy.no_cache,
        !policy.no_cache_read,
        !policy.no_cache_write,
        !policy.explicit_token,
    ensures
        spec_initial_token_step(policy, Some(cached)) == Some(cached),
        spec_probe_outcome(false, cached) is None,
        spec_writes_enabled(policy),
{
}

} // verus!
