use vault_inject::client::{response_error_message, Errors};
use vault_inject::json::Json;
use vault_inject::pipeline::{
    combine_mapping_results, finish_filter_output, resolve_mapping_values,
};
use vault_inject::secret_mapping::SecretMapping;
use vault_inject::secret_store::SecretStore;
use vault_inject::utils::make_api_path;

fn obj(fields: Vec<(&str, Json)>) -> Json {
    Json::Object(fields.into_iter().map(|(k, v)| (k.to_owned(), v)).collect())
}

fn text(s: &str) -> Json {
    Json::Text(s.to_owned())
}

#[test]
fn end_to_end_kv_scenario() {
    // a KV2 mount at secret/, a lookup returning two fields, and the
    // mapping DB_{field}=secret/app/creds/{field} yield exactly the two
    // renamed environment pairs
    let mounts = obj(vec![(
        "data",
        obj(vec![("secret", obj(vec![("secret/", obj(vec![("type", text("kv"))]))]))]),
    )]);
    let store = SecretStore::new(&mounts).unwrap();
    let mapping = SecretMapping::from_str("DB_{field}=secret/app/creds/{field}").unwrap();

    let req = store.get_request(mapping.path()).unwrap();
    assert_eq!(req.api_path.as_str(), "secret/data/app/creds");

    let lookup = obj(vec![(
        "data",
        obj(vec![(
            "data",
            obj(vec![("db_user", text("alice")), ("db_pass", text("s3cr3t"))]),
        )]),
    )]);
    let values = SecretStore::get_response(&req, &lookup).unwrap();
    let envs = resolve_mapping_values(&mapping, &values);
    let combined = combine_mapping_results::<String>(vec![Ok(envs)]).unwrap();
    assert_eq!(
        combined,
        vec![
            ("DB_db_user".to_owned(), "alice".to_owned()),
            ("DB_db_pass".to_owned(), "s3cr3t".to_owned()),
        ]
    );
}

#[test]
fn irrelevant_keys_are_skipped_not_errors() {
    let mapping = SecretMapping::from_str("ONLY_{x}=app/things/prefix_{x}").unwrap();
    let values = vec![
        ("prefix_one".to_owned(), "1".to_owned()),
        ("unrelated".to_owned(), "2".to_owned()),
        ("prefix_two".to_owned(), "3".to_owned()),
    ];
    let envs = resolve_mapping_values(&mapping, &values);
    assert_eq!(
        envs,
        vec![
            ("ONLY_one".to_owned(), "1".to_owned()),
            ("ONLY_two".to_owned(), "3".to_owned()),
        ]
    );
}

#[test]
fn all_or_nothing_activation() {
    // if mapping 2 of 3 fails resolution, no environment is produced,
    // regardless of mappings 1 and 3 having succeeded
    let ok1 = vec![("A".to_owned(), "1".to_owned())];
    let ok3 = vec![("C".to_owned(), "3".to_owned())];
    let results: Vec<Result<Vec<(String, String)>, String>> = vec![
        Ok(ok1.clone()),
        Err("mapping 2 failed".to_owned()),
        Ok(ok3.clone()),
    ];
    assert_eq!(combine_mapping_results(results), Err("mapping 2 failed".to_owned()));

    let all_ok: Vec<Result<Vec<(String, String)>, String>> = vec![Ok(ok1), Ok(ok3)];
    assert_eq!(
        combine_mapping_results(all_ok).unwrap(),
        vec![("A".to_owned(), "1".to_owned()), ("C".to_owned(), "3".to_owned())]
    );
}

#[test]
fn filter_output_trimming() {
    assert_eq!(finish_filter_output(b"value\n".to_vec()), Some(b"value".to_vec()));
    assert_eq!(finish_filter_output(b"value\r\n".to_vec()), Some(b"value".to_vec()));
    // only one trailing line break is removed
    assert_eq!(finish_filter_output(b"value\n\n".to_vec()), Some(b"value\n".to_vec()));
    // an inner carriage return is kept
    assert_eq!(finish_filter_output(b"va\rlue".to_vec()), Some(b"va\rlue".to_vec()));
    // empty output, before or after trimming, means the filter failed
    assert_eq!(finish_filter_output(b"".to_vec()), None);
    assert_eq!(finish_filter_output(b"\n".to_vec()), None);
    assert_eq!(finish_filter_output(b"\r\n".to_vec()), None);
}

#[test]
fn api_paths_are_versioned_and_trimmed() {
    assert_eq!(make_api_path("", "secret/data/app"), "/v1/secret/data/app");
    assert_eq!(make_api_path("/vault/", "/sys/internal/ui/mounts/"), "vault/v1/sys/internal/ui/mounts");
}

#[test]
fn failed_response_messages() {
    let none = Errors::none();
    assert_eq!(
        response_error_message("403", Some("Forbidden"), &none),
        "403 Forbidden response from Vault"
    );
    assert_eq!(response_error_message("599", None, &none), "599 response from Vault");
    let errors = Errors { errors: vec!["permission denied".to_owned(), "try again".to_owned()] };
    assert_eq!(
        response_error_message("403", Some("Forbidden"), &errors),
        "permission denied\ntry again\n"
    );
    assert_eq!(errors.message(), "permission denied\ntry again\n");
}
