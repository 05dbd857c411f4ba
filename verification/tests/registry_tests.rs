use scan_scheduler::inventory::Instant;
use scan_scheduler::registry::{
    catalog_url, created_in, docker_keys_in, docker_repo_keys, manifest_created, manifest_url,
    names_in, record_in, repositories_url, repository_names, tag_names, tags_url, InventoryError,
};
use scan_scheduler::text::{same_text, split, without_quotes, Separator};

fn doc(text: &str) -> serde_json::Value {
    serde_json::from_str(text).unwrap()
}

#[test]
fn tag_list_gives_the_tags_in_order() {
    let body = r#"{"name": "team/app", "tags": ["1.0", "latest", "2.1-rc"]}"#;
    assert_eq!(tag_names(body), Ok(vec!["1.0".to_string(), "latest".to_string(), "2.1-rc".to_string()]));
}

#[test]
fn tag_that_is_a_number_is_named_by_its_json_text() {
    assert_eq!(tag_names(r#"{"tags": [7, "a"]}"#), Ok(vec!["7".to_string(), "a".to_string()]));
}

#[test]
fn catalog_gives_the_repositories() {
    let body = r#"{"repositories": ["team/app", "base/alpine"]}"#;
    assert_eq!(repository_names(body), Ok(vec!["team/app".to_string(), "base/alpine".to_string()]));
    assert_eq!(repository_names(r#"{"repositories": []}"#), Ok(vec![]));
}

#[test]
fn listing_of_another_shape_is_misshapen() {
    assert_eq!(tag_names(r#"{"tag": ["1.0"]}"#), Err(InventoryError::Misshapen));
    assert_eq!(tag_names(r#"{"tags": "1.0"}"#), Err(InventoryError::Misshapen));
    assert_eq!(tag_names(r#"["1.0"]"#), Err(InventoryError::Misshapen));
    assert_eq!(repository_names(r#"{"tags": ["1.0"]}"#), Err(InventoryError::Misshapen));
}

#[test]
fn answer_that_is_not_json_carries_the_parser_message() {
    match tag_names("<html>") {
        Err(InventoryError::NotJson { detail }) => {
            assert_eq!(detail, "expected value at line 1 column 1");
        }
        other => panic!("{:?}", other),
    }
    assert!(matches!(repository_names(""), Err(InventoryError::NotJson { .. })));
    assert!(matches!(docker_repo_keys("{"), Err(InventoryError::NotJson { .. })));
    assert!(matches!(manifest_created("nope"), Err(InventoryError::NotJson { .. })));
}

#[test]
fn names_in_reads_the_named_field() {
    let d = doc(r#"{"a": ["x", "y"], "b": [], "c": 1}"#);
    assert_eq!(names_in(&d, "a"), Some(vec!["x".to_string(), "y".to_string()]));
    assert_eq!(names_in(&d, "b"), Some(vec![]));
    assert_eq!(names_in(&d, "c"), None);
    assert_eq!(names_in(&d, "d"), None);
}

#[test]
fn only_docker_keys_are_kept() {
    let body = r#"[
        {"key": "docker-local", "packageType": "Docker", "type": "LOCAL"},
        {"key": "maven-remote", "packageType": "Maven"},
        {"key": "no-type"},
        {"packageType": "Docker", "key": "docker-virtual"}
    ]"#;
    assert_eq!(docker_repo_keys(body), Ok(vec!["docker-local".to_string(), "docker-virtual".to_string()]));
    assert_eq!(docker_repo_keys("[]"), Ok(vec![]));
}

#[test]
fn unusable_key_entries_make_the_list_misshapen() {
    assert_eq!(docker_repo_keys(r#"{"key": "a"}"#), Err(InventoryError::Misshapen));
    assert_eq!(docker_repo_keys(r#"["docker-local"]"#), Err(InventoryError::Misshapen));
    assert_eq!(docker_repo_keys(r#"[{"key": "a", "packageType": 3}]"#), Err(InventoryError::Misshapen));
    assert_eq!(docker_repo_keys(r#"[{"packageType": "Docker"}]"#), Err(InventoryError::Misshapen));
    assert_eq!(docker_keys_in(&doc(r#"[{"key": "a", "packageType": "Docker"}, 1]"#)), None);
    assert_eq!(docker_keys_in(&doc(r#"[{"key": "a", "packageType": "Docker"}]"#)), Some(vec!["a".to_string()]));
}

#[test]
fn manifest_states_the_creation_instant() {
    let body = r#"{"history": [
        {"v1Compatibility": "{\"id\": \"x\", \"created\": \"2021-03-04T05:06:07.5Z\"}"},
        {"v1Compatibility": "{\"created\": \"2001-01-01T00:00:00Z\"}"}
    ]}"#;
    assert_eq!(manifest_created(body), Ok(Instant { secs: 1614834367, nanos: 500_000_000 }));
}

#[test]
fn creation_instant_is_taken_in_universal_time() {
    let record = doc(r#"{"created": "1970-01-01T01:00:01+01:00"}"#);
    assert_eq!(created_in(&record), Some(Instant { secs: 1, nanos: 0 }));
    assert_eq!(created_in(&doc(r#"{"created": "1969-12-31T23:59:59Z"}"#)), Some(Instant { secs: -1, nanos: 0 }));
    assert_eq!(created_in(&doc(r#"{"created": "yesterday"}"#)), None);
    assert_eq!(created_in(&doc(r#"{"created": 5}"#)), None);
    assert_eq!(created_in(&doc(r#"{"made": "1970-01-01T00:00:00Z"}"#)), None);
}

#[test]
fn manifest_of_another_shape_is_misshapen() {
    assert_eq!(manifest_created(r#"{"history": []}"#), Err(InventoryError::Misshapen));
    assert_eq!(manifest_created(r#"{"history": [{"v1": "{}"}]}"#), Err(InventoryError::Misshapen));
    assert_eq!(manifest_created(r#"{"history": [{"v1Compatibility": {}}]}"#), Err(InventoryError::Misshapen));
    assert_eq!(manifest_created(r#"{"history": [{"v1Compatibility": "{}"}]}"#), Err(InventoryError::Misshapen));
    assert_eq!(manifest_created(r#"{"past": []}"#), Err(InventoryError::Misshapen));
    assert!(matches!(
        manifest_created(r#"{"history": [{"v1Compatibility": "{"}]}"#),
        Err(InventoryError::NotJson { .. })
    ));
}

#[test]
fn record_in_finds_the_embedded_record() {
    let d = doc(r#"{"history": [{"v1Compatibility": "abc"}]}"#);
    assert_eq!(record_in(&d), Some("abc"));
    assert_eq!(record_in(&doc(r#"{"history": 1}"#)), None);
}

#[test]
fn addresses_are_built_from_their_parts() {
    assert_eq!(repositories_url("r.example:443"), "https://r.example:443/artifactory/api/repositories");
    assert_eq!(catalog_url("r.example:443", "docker-local"), "https://r.example:443/artifactory/api/docker/docker-local/v2/_catalog");
    assert_eq!(tags_url("r.example:443", "\"docker-local\"", "\"team/app\""), "https://r.example:443/artifactory/api/docker/docker-local/v2/team/app/tags/list");
    assert_eq!(manifest_url("r:1", "k", "team/app", "\"1.0\""), "https://r:1/artifactory/api/docker/k/v2/team/app/manifests/1.0");
}

#[test]
fn quotes_are_left_out() {
    assert_eq!(without_quotes("\"a\"b\"\""), "ab");
    assert_eq!(without_quotes("plain"), "plain");
    assert_eq!(without_quotes(""), "");
    assert_eq!(without_quotes("\"é–x\""), "é–x");
}

#[test]
fn texts_are_compared_and_joined() {
    assert!(same_text("Docker", "Docker"));
    assert!(!same_text("Docker", "docker"));
}

#[test]
fn text_is_cut_at_its_separators() {
    assert_eq!(split("a,b,,c", Separator::Comma), vec!["a", "b", "", "c"]);
    assert_eq!(split("", Separator::Comma), vec![""]);
    assert_eq!(split("a:b", Separator::Comma), vec!["a:b"]);
    assert_eq!(split("h:1[u:p]", Separator::Field), vec!["h", "1", "u", "p", ""]);
    assert_eq!(split(",", Separator::Comma), vec!["", ""]);
}
