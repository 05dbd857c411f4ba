use scan_scheduler::config::{
    parse_endpoint, parse_endpoints, registry_hosts, DEFAULT_MAX_TAGS, DEFAULT_QUOTA, WINDOW_MILLIS,
};
use scan_scheduler::inventory::{Endpoint, Instant, RepoKey, Repository, Tag};

#[test]
fn defaults_are_one_tag_and_fifteen_hundred_jobs_an_hour() {
    assert_eq!(DEFAULT_MAX_TAGS, 1);
    assert_eq!(DEFAULT_QUOTA, 1500);
    assert_eq!(WINDOW_MILLIS, 60 * 60 * 1000);
}

#[test]
fn registry_is_read_from_host_port_and_credentials() {
    let endpoint = parse_endpoint("test.registry.io:443[admin:s3cret]", &vec![]).unwrap();
    assert_eq!(
        endpoint,
        Endpoint {
            name: "test.registry.io:443".to_string(),
            username: "admin".to_string(),
            password: "s3cret".to_string(),
            repo_keys: vec![],
        }
    );
}

#[test]
fn registry_with_too_few_pieces_is_refused() {
    assert_eq!(parse_endpoint("test.registry.io:443", &vec![]), None);
    assert_eq!(parse_endpoint("", &vec![]), None);
    assert_eq!(parse_endpoint("host:443[user", &vec![]), None);
    assert!(parse_endpoint("host:443[user:", &vec![]).is_some());
    assert_eq!(parse_endpoints("a:1[u:p],b:2", &vec![]), None);
    assert_eq!(parse_endpoints("", &vec![]), None);
}

#[test]
fn registries_come_in_reverse_with_the_keys_asked_for() {
    let keys = vec!["docker-local".to_string(), "docker-remote".to_string(), "docker-local".to_string()];
    let endpoints = parse_endpoints("a:1[u:p],b:2[v:q]", &keys).unwrap();
    let names: Vec<String> = endpoints.iter().map(|e| e.name.clone()).collect();
    assert_eq!(names, vec!["b:2", "a:1"]);
    for endpoint in &endpoints {
        assert_eq!(
            endpoint.repo_keys,
            vec![
                RepoKey { name: "docker-local".to_string(), repositories: vec![] },
                RepoKey { name: "docker-remote".to_string(), repositories: vec![] },
            ]
        );
        assert!(endpoint.is_well_formed());
    }
    assert_eq!(endpoints[0].username, "v");
    assert_eq!(endpoints[1].password, "p");
}

#[test]
fn hosts_are_listed_without_credentials() {
    assert_eq!(registry_hosts("a:1[u:p],b:2[v:q]"), vec!["a:1", "b:2"]);
    assert_eq!(registry_hosts("plain"), vec!["plain"]);
    assert_eq!(registry_hosts(""), vec![""]);
}

#[test]
fn inventory_out_of_order_is_told_apart() {
    let tag = |name: &str, secs: i64| Tag { name: name.to_string(), created: Instant { secs, nanos: 0 } };
    let sorted = Repository { name: "r".to_string(), tags: vec![tag("b", 2), tag("c", 2), tag("a", 1)] };
    let unsorted = Repository { name: "r".to_string(), tags: vec![tag("b", 2), tag("a", 1), tag("c", 3)] };
    assert!(sorted.is_well_formed());
    assert!(!unsorted.is_well_formed());
    assert!(Repository { name: "e".to_string(), tags: vec![] }.is_well_formed());
    let key = |name: &str, repositories: Vec<Repository>| RepoKey { name: name.to_string(), repositories };
    let endpoint = |repo_keys: Vec<RepoKey>| Endpoint {
        name: "h:1".to_string(),
        username: "u".to_string(),
        password: "p".to_string(),
        repo_keys,
    };
    assert!(endpoint(vec![key("k1", vec![sorted.clone()]), key("k2", vec![])]).is_well_formed());
    assert!(!endpoint(vec![key("k1", vec![]), key("k2", vec![]), key("k1", vec![])]).is_well_formed());
    assert!(!endpoint(vec![key("k1", vec![sorted, unsorted])]).is_well_formed());
}
