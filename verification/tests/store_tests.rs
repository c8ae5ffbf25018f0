use vault_inject::errors::ResolutionError;
use vault_inject::json::Json;
use vault_inject::secret_store::{
    split_secret_path_and_key, SecretStore, StorageType,
};

fn obj(fields: Vec<(&str, Json)>) -> Json {
    Json::Object(fields.into_iter().map(|(k, v)| (k.to_owned(), v)).collect())
}

fn text(s: &str) -> Json {
    Json::Text(s.to_owned())
}

fn mounts_response(mounts: Vec<(&str, &str)>) -> Json {
    let entries = mounts
        .into_iter()
        .map(|(name, ty)| (name, obj(vec![("type", text(ty))])))
        .collect();
    obj(vec![("data", obj(vec![("secret", obj(entries))]))])
}

#[test]
fn storage_type_from_str() {
    assert_eq!(StorageType::from_str("kv"), Some(StorageType::KV));
    assert_eq!(StorageType::from_str("cubbyhole"), Some(StorageType::Cubbyhole));
    assert_eq!(StorageType::from_str("generic"), None);
    assert_eq!(StorageType::from_str("KV"), None);
}

#[test]
fn discovery_filters_unknown_backends_silently() {
    let response = mounts_response(vec![
        ("secret/", "kv"),
        ("identity/", "identity"),
        ("cubbyhole/", "cubbyhole"),
    ]);
    let store = SecretStore::new(&response).unwrap();
    // the unknown backend is invisible: the kv mount still routes
    let req = store.get_request("secret/app/creds").unwrap();
    assert_eq!(req.storage_type, StorageType::KV);
    assert_eq!(req.mount.as_str(), "secret");
    // identity is not a recognized storage, so nothing is mounted there
    assert!(matches!(
        store.get_request("identity/whoami").unwrap_err(),
        ResolutionError::Unsupported { .. }
    ));
}

#[test]
fn discovery_rejects_malformed_listings() {
    // no data.secret object at all
    assert!(matches!(
        SecretStore::new(&obj(vec![("data", Json::Null)])).unwrap_err(),
        ResolutionError::MalformedResponse
    ));
    // an entry without a string type
    let bad = obj(vec![(
        "data",
        obj(vec![("secret", obj(vec![("secret/", obj(vec![("type", Json::Null)]))]))]),
    )]);
    assert!(matches!(
        SecretStore::new(&bad).unwrap_err(),
        ResolutionError::MalformedResponse
    ));
}

#[test]
fn routing_forms_backend_specific_paths() {
    let response = mounts_response(vec![("secret/", "kv"), ("cubbyhole/", "cubbyhole")]);
    let store = SecretStore::new(&response).unwrap();

    let kv = store.get_request("/secret/app/creds").unwrap();
    assert_eq!(kv.storage_type, StorageType::KV);
    assert_eq!(kv.mount.as_str(), "secret");
    assert_eq!(kv.path.as_str(), "app/creds");
    assert_eq!(kv.api_path.as_str(), "secret/data/app/creds");

    let cb = store.get_request("cubbyhole/notes").unwrap();
    assert_eq!(cb.storage_type, StorageType::Cubbyhole);
    assert_eq!(cb.api_path.as_str(), "cubbyhole/notes");

    let err = store.get_request("/elsewhere/thing").unwrap_err();
    assert!(matches!(err, ResolutionError::Unsupported { ref path } if path == "/elsewhere/thing"));
}

#[test]
fn first_matching_mount_wins() {
    let response = mounts_response(vec![("secret/", "kv"), ("secret/inner/", "cubbyhole")]);
    let store = SecretStore::new(&response).unwrap();
    // both mounts prefix the path; the first in response order is taken
    let req = store.get_request("secret/inner/thing").unwrap();
    assert_eq!(req.storage_type, StorageType::KV);
    assert_eq!(req.mount.as_str(), "secret");
    assert_eq!(req.path.as_str(), "inner/thing");
}

#[test]
fn split_path_strips_slashes() {
    let response = mounts_response(vec![("secret/", "kv")]);
    let store = SecretStore::new(&response).unwrap();
    let (ty, mount, rest) = store.split_path("///secret///app/creds").unwrap();
    assert_eq!(ty, StorageType::KV);
    assert_eq!(mount, "secret");
    assert_eq!(rest, "app/creds");
    assert!(store.split_path("other/x").is_none());
}

#[test]
fn responses_normalize_to_string_pairs() {
    let response = mounts_response(vec![("secret/", "kv"), ("cubbyhole/", "cubbyhole")]);
    let store = SecretStore::new(&response).unwrap();

    let kv_req = store.get_request("secret/app/creds").unwrap();
    let kv_resp = obj(vec![(
        "data",
        obj(vec![("data", obj(vec![("db_user", text("alice")), ("db_pass", text("s3cr3t"))]))]),
    )]);
    let pairs = SecretStore::get_response(&kv_req, &kv_resp).unwrap();
    assert_eq!(
        pairs,
        vec![
            ("db_user".to_owned(), "alice".to_owned()),
            ("db_pass".to_owned(), "s3cr3t".to_owned()),
        ]
    );

    let cb_req = store.get_request("cubbyhole/notes").unwrap();
    let cb_resp = obj(vec![("data", obj(vec![("note", text("hi"))]))]);
    let pairs = SecretStore::get_response(&cb_req, &cb_resp).unwrap();
    assert_eq!(pairs, vec![("note".to_owned(), "hi".to_owned())]);

    // a kv response without the nested data.data object is NotFound
    let missing = obj(vec![("data", obj(vec![]))]);
    assert!(matches!(
        SecretStore::get_response(&kv_req, &missing).unwrap_err(),
        ResolutionError::NotFound { .. }
    ));

    // a non-string field value is NonStringValue naming the field
    let bad = obj(vec![(
        "data",
        obj(vec![("data", obj(vec![("count", Json::Number("3".to_owned()))]))]),
    )]);
    let err = SecretStore::get_response(&kv_req, &bad).unwrap_err();
    assert!(matches!(err, ResolutionError::NonStringValue { ref key } if key == "count"));
}

#[test]
fn single_value_extracts_one_field() {
    let response = mounts_response(vec![("secret/", "kv")]);
    let store = SecretStore::new(&response).unwrap();
    let req = store.get_request("secret/app/creds").unwrap();
    let resp = obj(vec![(
        "data",
        obj(vec![("data", obj(vec![("db_user", text("alice"))]))]),
    )]);
    assert_eq!(SecretStore::single_value(&req, &resp, "db_user").unwrap(), "alice");
    let err = SecretStore::single_value(&req, &resp, "missing").unwrap_err();
    assert!(matches!(
        err,
        ResolutionError::KeyNotFound { ref key, ref path, ref mount }
            if key == "missing" && path == "app/creds" && mount == "secret"
    ));
}

#[test]
fn address_split_allows_leading_slash() {
    assert_eq!(split_secret_path_and_key("kv/app/user"), Some(("kv/app", "user")));
    assert_eq!(split_secret_path_and_key("/kv"), Some(("", "kv")));
    assert_eq!(split_secret_path_and_key("plain"), None);
    // a trailing slash leaves an empty field name, which no lookup can hold
    assert_eq!(split_secret_path_and_key("kv/app/"), Some(("kv/app", "")));
}

#[test]
fn duplicate_object_fields_first_entry_wins() {
    let duplicated = Json::Object(vec![
        ("a".to_owned(), text("first")),
        ("a".to_owned(), text("second")),
    ]);
    match duplicated.get("a") {
        Some(Json::Text(s)) => assert_eq!(s, "first"),
        other => panic!("expected the first entry, got {:?}", other),
    }
    assert!(duplicated.get("b").is_none());
}
