use scan_scheduler::inventory::{sort_newest_first, Endpoint, Instant, RepoKey, Repository, Tag};
use scan_scheduler::job::ScanJob;
use scan_scheduler::select::select;

fn tag(name: &str, secs: i64) -> Tag {
    Tag { name: name.to_string(), created: Instant { secs, nanos: 0 } }
}

fn names(tags: &[Tag]) -> Vec<String> {
    tags.iter().map(|t| t.name.clone()).collect()
}

fn endpoint_with(repositories: Vec<Repository>) -> Endpoint {
    let mut endpoint =
        Endpoint::new("reg.example:443".to_string(), "u".to_string(), "p".to_string());
    assert!(endpoint.record("docker-local".to_string(), repositories));
    endpoint
}

#[test]
fn five_tags_and_a_limit_of_two_select_the_two_newest() {
    let retrieved = vec![tag("t3", 3), tag("t1", 1), tag("t5", 5), tag("t2", 2), tag("t4", 4)];
    let repository = Repository::from_retrieved("team/app".to_string(), retrieved);
    assert_eq!(names(&repository.tags), vec!["t5", "t4", "t3", "t2", "t1"]);
    let jobs = select(&vec![endpoint_with(vec![repository])], 2);
    assert_eq!(
        jobs,
        vec![
            ScanJob {
                registry: "reg.example:443/artifactory/api/docker/docker-local".to_string(),
                image_name: "team/app".to_string(),
                tag: "t5".to_string(),
            },
            ScanJob {
                registry: "reg.example:443/artifactory/api/docker/docker-local".to_string(),
                image_name: "team/app".to_string(),
                tag: "t4".to_string(),
            },
        ]
    );
}

#[test]
fn selection_is_the_same_for_every_retrieval_order() {
    let one = vec![tag("a", 10), tag("b", 30), tag("c", 20), tag("d", 40)];
    let other = vec![tag("d", 40), tag("c", 20), tag("b", 30), tag("a", 10)];
    assert_eq!(sort_newest_first(one), sort_newest_first(other));
}

#[test]
fn tags_of_one_instant_keep_their_retrieval_order() {
    let sorted = sort_newest_first(vec![tag("x", 7), tag("late", 9), tag("y", 7), tag("z", 7)]);
    assert_eq!(names(&sorted), vec!["late", "x", "y", "z"]);
}

#[test]
fn nanoseconds_order_instants_within_a_second() {
    let early = Tag { name: "early".to_string(), created: Instant { secs: 5, nanos: 1 } };
    let late = Tag { name: "late".to_string(), created: Instant { secs: 5, nanos: 2 } };
    let before = Tag { name: "before".to_string(), created: Instant { secs: -1, nanos: 999 } };
    assert!(late.created.is_later_than(&early.created));
    assert!(!early.created.is_later_than(&late.created));
    assert!(!early.created.is_later_than(&early.created));
    assert_eq!(names(&sort_newest_first(vec![before, early, late])), vec!["late", "early", "before"]);
}

#[test]
fn repository_with_fewer_tags_than_the_limit_yields_all_of_them() {
    let repository = Repository::from_retrieved("a".to_string(), vec![tag("v1", 1), tag("v2", 2)]);
    let jobs = select(&vec![endpoint_with(vec![repository])], 5);
    let tags: Vec<String> = jobs.iter().map(|j| j.tag.clone()).collect();
    assert_eq!(tags, vec!["v2", "v1"]);
}

#[test]
fn repository_without_tags_yields_no_job() {
    let empty = Repository::from_retrieved("empty".to_string(), vec![]);
    let full = Repository::from_retrieved("full".to_string(), vec![tag("v1", 1)]);
    let jobs = select(&vec![endpoint_with(vec![empty, full])], 3);
    assert_eq!(jobs.len(), 1);
    assert_eq!(jobs[0].image_name, "full");
}

#[test]
fn no_repository_yields_more_jobs_than_the_limit() {
    let a = Repository::from_retrieved("a".to_string(), (0..7).map(|i| tag("t", i)).collect());
    let b = Repository::from_retrieved("b".to_string(), (0..2).map(|i| tag("t", i)).collect());
    let c = Repository::from_retrieved("c".to_string(), (0..3).map(|i| tag("t", i)).collect());
    let jobs = select(&vec![endpoint_with(vec![a, b, c])], 3);
    let count = |name: &str| jobs.iter().filter(|j| j.image_name == name).count();
    assert_eq!((count("a"), count("b"), count("c")), (3, 2, 3));
    assert_eq!(jobs.len(), 8);
}

#[test]
fn a_limit_of_zero_selects_nothing() {
    let a = Repository::from_retrieved("a".to_string(), vec![tag("v1", 1)]);
    assert_eq!(select(&vec![endpoint_with(vec![a])], 0), vec![]);
}

#[test]
fn jobs_follow_the_order_of_endpoints_and_keys() {
    let mut first = Endpoint::new("one:1".to_string(), "u".to_string(), "p".to_string());
    first.record("k1".to_string(), vec![Repository::from_retrieved("r1".to_string(), vec![tag("a", 1)])]);
    first.record("k2".to_string(), vec![Repository::from_retrieved("r2".to_string(), vec![tag("b", 1)])]);
    let mut second = Endpoint::new("two:2".to_string(), "u".to_string(), "p".to_string());
    second.record("k3".to_string(), vec![Repository::from_retrieved("r3".to_string(), vec![tag("c", 1)])]);
    let jobs = select(&vec![first, second], 1);
    let registries: Vec<String> = jobs.iter().map(|j| j.registry.clone()).collect();
    assert_eq!(
        registries,
        vec![
            "one:1/artifactory/api/docker/k1",
            "one:1/artifactory/api/docker/k2",
            "two:2/artifactory/api/docker/k3",
        ]
    );
}

#[test]
fn recording_under_a_known_key_replaces_its_repositories() {
    let mut endpoint = Endpoint::new("e:1".to_string(), "u".to_string(), "p".to_string());
    assert!(endpoint.record("k1".to_string(), vec![]));
    assert!(endpoint.record("k2".to_string(), vec![]));
    assert_eq!(endpoint.position_of("k2"), Some(1));
    assert_eq!(endpoint.position_of("k9"), None);
    let repository = Repository::from_retrieved("r".to_string(), vec![tag("a", 1)]);
    assert!(!endpoint.record("k1".to_string(), vec![repository.clone()]));
    assert_eq!(
        endpoint.repo_keys,
        vec![
            RepoKey { name: "k1".to_string(), repositories: vec![repository] },
            RepoKey { name: "k2".to_string(), repositories: vec![] },
        ]
    );
}
