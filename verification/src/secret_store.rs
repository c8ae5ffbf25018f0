//! The secret store resolver: which storage backends are mounted where, how
//! an abstract secret path routes to a backend-specific request path, and how
//! a backend response normalizes into key/value pairs.
//!
//! The mount table is built once per run from the service's mount-listing
//! response; routing takes the first mount in response order whose prefix
//! matches.  The network transport lives outside the library: callers form a
//! request here, perform it themselves, and hand the response back.

use vstd::prelude::*;
use vstd::string::*;
use crate::errors::ResolutionError;
use crate::json::{spec_get, spec_get2, Json};
use crate::strutil::{
    spec_starts_with, spec_trim_matches, spec_trim_start_matches, str_eq, str_starts_with,
    rfind_char, rfind_char_before, lemma_rfind_char_props, trim_matches_char,
    trim_start_matches_char,
};

verus! {

/// The supported secret storage backends.
#[derive(Clone, Copy, Debug, PartialEq, Eq, Hash, Structural)]
pub enum StorageType {
    /// A versioned key/value engine.
    KV,
    /// The per-token ephemeral store.
    Cubbyhole,
}

/// The backend a mount-type string names, if this library supports it.
pub open spec fn spec_storage_type(s: Seq<char>) -> Option<StorageType> {
    if s == "kv"@ {
        Some(StorageType::KV)
    } else if s == "cubbyhole"@ {
        Some(StorageType::Cubbyhole)
    } else {
        None
    }
}

impl StorageType {
    /// Parse a mount-type string; `None` for backends this library does not
    /// understand.
    pub fn from_str(s: &str) -> (r: Option<StorageType>)
        ensures
            r == spec_storage_type(s@),
    {
        if str_eq(s, "kv") {
            Some(StorageType::KV)
        } else if str_eq(s, "cubbyhole") {
            Some(StorageType::Cubbyhole)
        } else {
            None
        }
    }
}

/// One discovered mount entry: `Err` when the entry lacks the documented
/// shape, `Ok(None)` when its backend type is unrecognized (such mounts are
/// invisible, not errors), `Ok(Some(..))` otherwise, with the mount name
/// stripped of surrounding slashes.
pub open spec fn spec_mount_entry(name: Seq<char>, v: Json) -> Result<
    Option<(StorageType, Seq<char>)>,
    (),
> {
    match spec_get(v, "type"@) {
        Some(props) => match props {
            Json::Text(ty) => Ok(
                match spec_storage_type(ty@) {
                    Some(st) => Some((st, spec_trim_matches(name, '/'))),
                    None => None,
                },
            ),
            _ => Err(()),
        },
        None => Err(()),
    }
}

/// The mount table a listing of entries yields, in response order; `Err`
/// when any entry lacks the documented shape.
pub open spec fn spec_mounts_list(entries: Seq<(String, Json)>) -> Result<
    Seq<(StorageType, Seq<char>)>,
    (),
>
    decreases entries.len(),
{
    if entries.len() == 0 {
        Ok(Seq::empty())
    } else {
        match spec_mount_entry(entries[0].0@, entries[0].1) {
            Err(e) => Err(e),
            Ok(head) => match spec_mounts_list(entries.drop_first()) {
                Err(e) => Err(e),
                Ok(rest) => Ok(
                    match head {
                        Some(p) => seq![p] + rest,
                        None => rest,
                    },
                ),
            },
        }
    }
}

/// The mount table a whole mount-listing response yields: its `data.secret`
/// object must exist, and each entry must carry a string `type`.
pub open spec fn spec_store_of(response: Json) -> Result<Seq<(StorageType, Seq<char>)>, ()> {
    match spec_get2(response, "data"@, "secret"@) {
        Some(v) => match v {
            Json::Object(entries) => spec_mounts_list(entries@),
            _ => Err(()),
        },
        None => Err(()),
    }
}

/// First-match routing of an already slash-trimmed path over the mount
/// table: the backend, the mount, and the remaining path with its leading
/// slashes stripped.
pub open spec fn spec_route(mounts: Seq<(StorageType, Seq<char>)>, p: Seq<char>) -> Option<
    (StorageType, Seq<char>, Seq<char>),
>
    decreases mounts.len(),
{
    if mounts.len() == 0 {
        None
    } else if spec_starts_with(p, mounts[0].1) {
        Some(
            (
                mounts[0].0,
                mounts[0].1,
                spec_trim_start_matches(
                    p.subrange(mounts[0].1.len() as int, p.len() as int),
                    '/',
                ),
            ),
        )
    } else {
        spec_route(mounts.drop_first(), p)
    }
}

/// The backend-specific request path for a routed secret.
pub open spec fn spec_api_path(st: StorageType, mount: Seq<char>, rest: Seq<char>) -> Seq<char> {
    match st {
        StorageType::KV => mount + "/data/"@ + rest,
        StorageType::Cubbyhole => mount + "/"@ + rest,
    }
}

/// The nested object a backend's fetch response keeps its secrets in.
pub open spec fn spec_secret_object(st: StorageType, response: Json) -> Option<Json> {
    match st {
        StorageType::KV => spec_get2(response, "data"@, "data"@),
        StorageType::Cubbyhole => spec_get(response, "data"@),
    }
}

/// The key/value pairs of a secret object, in response order; `Err` carries
/// the first field whose value is not a string.
pub open spec fn spec_to_keyvalues(entries: Seq<(String, Json)>) -> Result<
    Seq<(Seq<char>, Seq<char>)>,
    Seq<char>,
>
    decreases entries.len(),
{
    if entries.len() == 0 {
        Ok(Seq::empty())
    } else {
        match entries[0].1 {
            Json::Text(v) => match spec_to_keyvalues(entries.drop_first()) {
                Ok(rest) => Ok(seq![(entries[0].0@, v@)] + rest),
                Err(k) => Err(k),
            },
            _ => Err(entries[0].0@),
        }
    }
}

/// The views of a mount-table vector.
pub open spec fn mounts_view(v: Seq<(StorageType, String)>) -> Seq<(StorageType, Seq<char>)> {
    v.map(|i: int, p: (StorageType, String)| (p.0, p.1@))
}

/// The views of a key/value vector.
pub open spec fn pairs_view(v: Seq<(String, String)>) -> Seq<(Seq<char>, Seq<char>)> {
    v.map(|i: int, p: (String, String)| (p.0@, p.1@))
}

/// A routed fetch, ready for the transport: which backend, where it is
/// mounted, the backend-relative path, and the full request path.
#[derive(Debug)]
pub struct FetchRequest {
    /// The backend the path routed to.
    pub storage_type: StorageType,
    /// The mount prefix that matched.
    pub mount: String,
    /// The remaining path under the mount.
    pub path: String,
    /// The backend-specific request path.
    pub api_path: String,
}

/// The discovered mount table: which storage backend is exposed under which
/// prefix, in response order.
#[derive(Debug)]
pub struct SecretStore {
    mount_points: Vec<(StorageType, String)>,
}

impl View for SecretStore {
    type V = Seq<(StorageType, Seq<char>)>;

    closed spec fn view(&self) -> Seq<(StorageType, Seq<char>)> {
        mounts_view(self.mount_points@)
    }
}

impl SecretStore {
    /// Build the mount table from the service's mount-listing response.
    pub fn new(response: &Json) -> (r: Result<SecretStore, ResolutionError>)
        ensures
            match (r, spec_store_of(*response)) {
                (Ok(store), Ok(mounts)) => store@ == mounts,
                (Err(e), Err(_)) => e is MalformedResponse,
                _ => false,
            },
    {
        let data = match response.get("data") {
            Some(d) => d,
            None => {
                return Err(ResolutionError::MalformedResponse);
            },
        };
        let secret = match data.get("secret") {
            Some(s) => s,
            None => {
                return Err(ResolutionError::MalformedResponse);
            },
        };
        let entries = match secret {
            Json::Object(entries) => entries,
            _ => {
                return Err(ResolutionError::MalformedResponse);
            },
        };
        let k = entries.len();
        let mut mount_points: Vec<(StorageType, String)> = Vec::new();
        let mut t: usize = 0;
        proof {
            assert(entries@.skip(0) =~= entries@);
            assert(mounts_view(mount_points@) =~= Seq::<(StorageType, Seq<char>)>::empty());
        }
        while t < k
            invariant
                k == entries@.len(),
                t <= k,
                spec_store_of(*response) == spec_mounts_list(entries@),
                match spec_mounts_list(entries@.skip(t as int)) {
                    Ok(rest) => spec_mounts_list(entries@) == Ok::<
                        Seq<(StorageType, Seq<char>)>,
                        (),
                    >(mounts_view(mount_points@) + rest),
                    Err(e) => spec_mounts_list(entries@) is Err,
                },
            decreases k - t,
        {
            let ghost suffix = entries@.skip(t as int);
            proof {
                assert(suffix[0] == entries@[t as int]);
                assert(suffix.drop_first() =~= entries@.skip(t as int + 1));
            }
            let name = &entries[t].0;
            let props = &entries[t].1;
            let ty_json = match props.get("type") {
                Some(v) => v,
                None => {
                    return Err(ResolutionError::MalformedResponse);
                },
            };
            let ty_str = match ty_json.as_text() {
                Some(s) => s,
                None => {
                    return Err(ResolutionError::MalformedResponse);
                },
            };
            let ghost old_mv = mounts_view(mount_points@);
            match StorageType::from_str(ty_str.as_str()) {
                Some(st) => {
                    let mount = trim_matches_char(name.as_str(), '/').to_owned();
                    mount_points.push((st, mount));
                    proof {
                        assert(mounts_view(mount_points@) =~= old_mv + seq![
                            (st, spec_trim_matches(name@, '/')),
                        ]);
                        match spec_mounts_list(entries@.skip(t as int + 1)) {
                            Ok(rest) => {
                                assert(spec_mounts_list(suffix) == Ok::<
                                    Seq<(StorageType, Seq<char>)>,
                                    (),
                                >(seq![(st, spec_trim_matches(name@, '/'))] + rest));
                                assert(old_mv + (seq![(st, spec_trim_matches(name@, '/'))]
                                    + rest) =~= mounts_view(mount_points@) + rest);
                            },
                            Err(_) => {
                                assert(spec_mounts_list(suffix) is Err);
                            },
                        }
                    }
                },
                None => {
                    proof {
                        match spec_mounts_list(entries@.skip(t as int + 1)) {
                            Ok(rest) => {
                                assert(spec_mounts_list(suffix) == Ok::<
                                    Seq<(StorageType, Seq<char>)>,
                                    (),
                                >(rest));
                            },
                            Err(_) => {
                                assert(spec_mounts_list(suffix) is Err);
                            },
                        }
                    }
                },
            }
            t += 1;
        }
        proof {
            assert(entries@.skip(k as int) =~= Seq::<(String, Json)>::empty());
            assert(spec_mounts_list(entries@.skip(k as int)) == Ok::<
                Seq<(StorageType, Seq<char>)>,
                (),
            >(Seq::<(StorageType, Seq<char>)>::empty()));
            assert(mounts_view(mount_points@) + Seq::<(StorageType, Seq<char>)>::empty()
                =~= mounts_view(mount_points@));
        }
        Ok(SecretStore { mount_points })
    }

    /// Resolve a path into the backend mounted at its prefix, the mount, and
    /// the remaining path (leading slashes stripped); `None` when no known
    /// mount prefixes the path.
    pub fn split_path<'s, 'a>(&'s self, path: &'a str) -> (r: Option<
        (StorageType, &'s str, &'a str),
    >)
        ensures
            match r {
                Some(x) => spec_route(self@, spec_trim_start_matches(path@, '/')) == Some(
                    (x.0, x.1@, x.2@),
                ),
                None => spec_route(self@, spec_trim_start_matches(path@, '/')) is None,
            },
    {
        let trimmed = trim_start_matches_char(path, '/');
        let tlen = trimmed.unicode_len();
        let k = self.mount_points.len();
        let mut t: usize = 0;
        proof {
            assert(self@.skip(0) =~= self@);
        }
        while t < k
            invariant
                k == self.mount_points@.len(),
                t <= k,
                tlen == trimmed@.len(),
                trimmed@ == spec_trim_start_matches(path@, '/'),
                spec_route(self@, trimmed@) == spec_route(self@.skip(t as int), trimmed@),
            decreases k - t,
        {
            let ghost suffix = self@.skip(t as int);
            proof {
                assert(suffix[0] == self@[t as int]);
                assert(suffix.drop_first() =~= self@.skip(t as int + 1));
                assert(self@[t as int] == (self.mount_points@[t as int].0,
                self.mount_points@[t as int].1@));
            }
            let mount = &self.mount_points[t].1;
            if str_starts_with(trimmed, mount.as_str()) {
                let mlen = mount.as_str().unicode_len();
                let rest = trim_start_matches_char(trimmed.substring_char(mlen, tlen), '/');
                return Some((self.mount_points[t].0, mount.as_str(), rest));
            }
            t += 1;
        }
        proof {
            assert(self@.skip(k as int) =~= Seq::<(StorageType, Seq<char>)>::empty());
        }
        None
    }

    /// Route a secret path and form the backend-specific request path; fails
    /// with `Unsupported` when no known secret storage is mounted there.
    pub fn get_request(&self, original_path: &str) -> (r: Result<FetchRequest, ResolutionError>)
        ensures
            match (r, spec_route(self@, spec_trim_start_matches(original_path@, '/'))) {
                (Ok(req), Some(m)) => req.storage_type == m.0 && req.mount@ == m.1 && req.path@
                    == m.2 && req.api_path@ == spec_api_path(m.0, m.1, m.2),
                (Err(e), None) => match e {
                    ResolutionError::Unsupported { path } => path@ == original_path@,
                    _ => false,
                },
                _ => false,
            },
    {
        match self.split_path(original_path) {
            Some((storage_type, mount, rest)) => {
                let mut api_path = mount.to_owned();
                match storage_type {
                    StorageType::KV => {
                        api_path.append("/data/");
                    },
                    StorageType::Cubbyhole => {
                        api_path.append("/");
                    },
                }
                api_path.append(rest);
                Ok(
                    FetchRequest {
                        storage_type,
                        mount: mount.to_owned(),
                        path: rest.to_owned(),
                        api_path,
                    },
                )
            },
            None => Err(ResolutionError::Unsupported { path: original_path.to_owned() }),
        }
    }

    /// Normalize a backend's fetch response into key/value pairs: fails with
    /// `NotFound` when the expected nested object is absent, and with
    /// `NonStringValue` when any field holds something other than a string.
    pub fn get_response(req: &FetchRequest, response: &Json) -> (r: Result<
        Vec<(String, String)>,
        ResolutionError,
    >)
        ensures
            match spec_secret_object(req.storage_type, *response) {
                Some(obj) => match obj {
                    Json::Object(entries) => match (r, spec_to_keyvalues(entries@)) {
                        (Ok(pairs), Ok(kvs)) => pairs_view(pairs@) == kvs,
                        (Err(e), Err(k)) => match e {
                            ResolutionError::NonStringValue { key } => key@ == k,
                            _ => false,
                        },
                        _ => false,
                    },
                    _ => match r {
                        Err(e) => match e {
                            ResolutionError::NotFound { path, mount } => path@ == req.path@
                                && mount@ == req.mount@,
                            _ => false,
                        },
                        _ => false,
                    },
                },
                None => match r {
                    Err(e) => match e {
                        ResolutionError::NotFound { path, mount } => path@ == req.path@
                            && mount@ == req.mount@,
                        _ => false,
                    },
                    _ => false,
                },
            },
    {
        let obj = match req.storage_type {
            StorageType::KV => {
                match response.get("data") {
                    Some(d) => d.get("data"),
                    None => None,
                }
            },
            StorageType::Cubbyhole => response.get("data"),
        };
        let entries = match obj {
            Some(Json::Object(entries)) => entries,
            _ => {
                return Err(
                    ResolutionError::NotFound {
                        path: req.path.clone(),
                        mount: req.mount.clone(),
                    },
                );
            },
        };
        let k = entries.len();
        let mut out: Vec<(String, String)> = Vec::new();
        let mut t: usize = 0;
        proof {
            assert(entries@.skip(0) =~= entries@);
            assert(pairs_view(out@) =~= Seq::<(Seq<char>, Seq<char>)>::empty());
        }
        while t < k
            invariant
                spec_secret_object(req.storage_type, *response) == Some(Json::Object(*entries)),
                k == entries@.len(),
                t <= k,
                match spec_to_keyvalues(entries@.skip(t as int)) {
                    Ok(rest) => spec_to_keyvalues(entries@) == Ok::<
                        Seq<(Seq<char>, Seq<char>)>,
                        Seq<char>,
                    >(pairs_view(out@) + rest),
                    Err(key) => spec_to_keyvalues(entries@) == Err::<
                        Seq<(Seq<char>, Seq<char>)>,
                        Seq<char>,
                    >(key),
                },
            decreases k - t,
        {
            let ghost suffix = entries@.skip(t as int);
            proof {
                assert(suffix[0] == entries@[t as int]);
                assert(suffix.drop_first() =~= entries@.skip(t as int + 1));
            }
            let ghost old_pv = pairs_view(out@);
            match &entries[t].1 {
                Json::Text(v) => {
                    out.push((entries[t].0.clone(), v.clone()));
                    proof {
                        assert(pairs_view(out@) =~= old_pv + seq![
                            (entries@[t as int].0@, entries@[t as int].1->Text_0@),
                        ]);
                        match spec_to_keyvalues(entries@.skip(t as int + 1)) {
                            Ok(rest) => {
                                assert(old_pv + (seq![
                                    (entries@[t as int].0@, entries@[t as int].1->Text_0@),
                                ] + rest) =~= pairs_view(out@) + rest);
                            },
                            Err(_) => {},
                        }
                    }
                },
                _ => {
                    return Err(ResolutionError::NonStringValue { key: entries[t].0.clone() });
                },
            }
            t += 1;
        }
        proof {
            assert(entries@.skip(k as int) =~= Seq::<(String, Json)>::empty());
            assert(pairs_view(out@) + Seq::<(Seq<char>, Seq<char>)>::empty() =~= pairs_view(
                out@,
            ));
        }
        Ok(out)
    }

    /// Extract one named field from a backend's fetch response; fails with
    /// `KeyNotFound` naming the field, path and mount when the field is
    /// absent or not a string.
    pub fn single_value(req: &FetchRequest, response: &Json, key: &str) -> (r: Result<
        String,
        ResolutionError,
    >)
        ensures
            match (
                r,
                match spec_secret_object(req.storage_type, *response) {
                    Some(obj) => spec_get(obj, key@),
                    None => None,
                },
            ) {
                (Ok(v), Some(field)) => field matches Json::Text(s) && v@ == s@,
                (Err(e), f) => !(f matches Some(Json::Text(_))) && (match e {
                    ResolutionError::KeyNotFound { key: k, path, mount } => k@ == key@ && path@
                        == req.path@ && mount@ == req.mount@,
                    _ => false,
                }),
                _ => false,
            },
    {
        let obj = match req.storage_type {
            StorageType::KV => {
                match response.get("data") {
                    Some(d) => d.get("data"),
                    None => None,
                }
            },
            StorageType::Cubbyhole => response.get("data"),
        };
        let field = match obj {
            Some(o) => o.get(key),
            None => None,
        };
        match field {
            Some(f) => match f.as_text() {
                Some(s) => Ok(s.clone()),
                None => Err(
                    ResolutionError::KeyNotFound {
                        key: key.to_owned(),
                        path: req.path.clone(),
                        mount: req.mount.clone(),
                    },
                ),
            },
            None => Err(
                ResolutionError::KeyNotFound {
                    key: key.to_owned(),
                    path: req.path.clone(),
                    mount: req.mount.clone(),
                },
            ),
        }
    }
}

/// Split a secret address at its last `/`: the path-and-mount part and the
/// final field name.  Unlike the mapping parser's split, a leading `/` at
/// the split point is allowed; `None` only when there is no `/` at all.
pub fn split_secret_path_and_key(s: &str) -> (r: Option<(&str, &str)>)
    ensures
        match rfind_char_before(s@, '/', s@.len() as int) {
            Some(idx) => match r {
                Some(pk) => pk.0@ == s@.subrange(0, idx) && pk.1@ == s@.subrange(
                    idx + 1,
                    s@.len() as int,
                ),
                None => false,
            },
            None => r is None,
        },
{
    let n = s.unicode_len();
    match rfind_char(s, '/') {
        None => None,
        Some(idx) => {
            proof {
                lemma_rfind_char_props(s@, '/', s@.len() as int);
            }
            Some((s.substring_char(0, idx), s.substring_char(idx + 1, n)))
        },
    }
}

} // verus!
