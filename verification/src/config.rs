//! What a run is configured with: the registries to take inventory of, and
//! the defaults of its limits.

use vstd::prelude::*;
use vstd::string::*;
use crate::inventory::{Endpoint, Repository};
use crate::text::{pieces, split, texts, Separator};

verus! {

/// Tags selected per repository where nothing else is asked for.
pub const DEFAULT_MAX_TAGS: usize = 1;

/// Jobs per pacing window where nothing else is asked for.
pub const DEFAULT_QUOTA: usize = 1500;

/// The length of a pacing window, in milliseconds: one hour.
pub const WINDOW_MILLIS: u64 = 3_600_000;

/// A registry is written `host:port[username:password]`: cut at brackets and
/// colons it has at least four pieces.
pub open spec fn is_registry_text(text: Seq<char>) -> bool {
    pieces(text, Separator::Field).len() >= 4
}

/// `endpoint` is the registry that `text` describes.
pub open spec fn describes(text: Seq<char>, endpoint: Endpoint) -> bool {
    let fields = pieces(text, Separator::Field);
    &&& is_registry_text(text)
    &&& endpoint.name@ == fields[0] + ":"@ + fields[1]
    &&& endpoint.username@ == fields[2]
    &&& endpoint.password@ == fields[3]
}

/// The endpoint's repository keys are `keys`, none of them with repositories.
pub open spec fn has_bare_keys(endpoint: Endpoint, keys: Seq<Seq<char>>) -> bool {
    &&& forall|key: Seq<char>| endpoint.has_key(key) <==> keys.contains(key)
    &&& forall|i: int|
        0 <= i < endpoint.repo_keys@.len() ==> (#[trigger] endpoint.repo_keys@[i]).repositories@.len()
            == 0
}

/// The host and port of a registry text: what stands in front of its first
/// opening bracket.
pub open spec fn host_of(text: Seq<char>) -> Seq<char> {
    pieces(text, Separator::Bracket)[0]
}

/// The hosts of a comma-separated list of registries, credentials left out.
pub fn registry_hosts(registries: &str) -> (hosts: Vec<String>)
    ensures
        texts(hosts@) == pieces(registries@, Separator::Comma).map_values(
            |r: Seq<char>| host_of(r),
        ),
{
    let listed = split(registries, Separator::Comma);
    let mut hosts: Vec<String> = Vec::new();
    let ghost wanted = texts(listed@).map_values(|r: Seq<char>| host_of(r));
    let mut i: usize = 0;
    proof {
        assert(texts(hosts@) =~= wanted.take(0));
    }
    while i < listed.len()
        invariant
            i <= listed@.len(),
            wanted == texts(listed@).map_values(|r: Seq<char>| host_of(r)),
            texts(hosts@) == wanted.take(i as int),
        decreases listed@.len() - i,
    {
        let parts = split(listed[i].as_str(), Separator::Bracket);
        let host = parts[0].clone();
        let ghost before = hosts@;
        hosts.push(host);
        proof {
            assert(texts(parts@)[0] == parts@[0]@);
            assert(texts(listed@)[i as int] == listed@[i as int]@);
            assert(texts(hosts@) =~= texts(before).push(host@));
            assert(wanted.take(i + 1) =~= wanted.take(i as int).push(wanted[i as int]));
        }
        i = i + 1;
    }
    proof {
        assert(wanted.take(i as int) =~= wanted);
    }
    hosts
}

/// Reads one registry, written `host:port[username:password]`, and gives it
/// the repository keys asked for, each once, without repositories. `None`
/// where the text has fewer than four pieces.
pub fn parse_endpoint(text: &str, repo_keys: &Vec<String>) -> (endpoint: Option<Endpoint>)
    ensures
        match endpoint {
            Some(e) => describes(text@, e) && e.well_formed() && has_bare_keys(e, texts(repo_keys@)),
            None => !is_registry_text(text@),
        },
{
    let fields = split(text, Separator::Field);
    if fields.len() < 4 {
        return None;
    }
    proof {
        assert(texts(fields@)[0] == fields@[0]@);
        assert(texts(fields@)[1] == fields@[1]@);
        assert(texts(fields@)[2] == fields@[2]@);
        assert(texts(fields@)[3] == fields@[3]@);
    }
    let mut name = fields[0].clone();
    name.append(":");
    name.append(fields[1].as_str());
    let mut endpoint = Endpoint::new(name, fields[2].clone(), fields[3].clone());
    let ghost keys = texts(repo_keys@);
    let mut i: usize = 0;
    while i < repo_keys.len()
        invariant
            i <= repo_keys@.len(),
            keys == texts(repo_keys@),
            describes(text@, endpoint),
            endpoint.well_formed(),
            has_bare_keys(endpoint, keys.take(i as int)),
        decreases repo_keys@.len() - i,
    {
        let ghost before = endpoint;
        let key = repo_keys[i].clone();
        let none: Vec<Repository> = Vec::new();
        let added = endpoint.record(key, none);
        proof {
            let seen = keys.take(i as int);
            let grown = keys.take(i + 1);
            assert(grown =~= seen.push(key@));
            assert forall|k: Seq<char>| endpoint.has_key(k) <==> grown.contains(k) by {
                assert(before.has_key(k) <==> seen.contains(k));
                if grown.contains(k) {
                    let j = choose|j: int| 0 <= j < grown.len() && grown[j] == k;
                    if j < i {
                        assert(seen[j] == k);
                        assert(seen.contains(k));
                    }
                }
                if seen.contains(k) {
                    let j = choose|j: int| 0 <= j < seen.len() && seen[j] == k;
                    assert(grown[j] == k);
                }
                assert(grown[i as int] == key@);
                assert(endpoint.repositories_by_key().dom().contains(k) <==> (k == key@
                    || before.repositories_by_key().dom().contains(k)));
            }
        }
        i = i + 1;
    }
    proof {
        assert(keys.take(i as int) =~= keys);
    }
    Some(endpoint)
}

/// Reads a comma-separated list of registries. The endpoints come in the
/// reverse of the order in which they are written, each with the repository
/// keys asked for. `None` where one of the registries cannot be read.
pub fn parse_endpoints(registries: &str, repo_keys: &Vec<String>) -> (endpoints: Option<
    Vec<Endpoint>,
>)
    ensures
        match endpoints {
            Some(v) => {
                let listed = pieces(registries@, Separator::Comma);
                &&& v@.len() == listed.len()
                &&& forall|i: int|
                    0 <= i < v@.len() ==> describes(listed[listed.len() - 1 - i], #[trigger] v@[i])
                        && v@[i].well_formed() && has_bare_keys(v@[i], texts(repo_keys@))
            },
            None => exists|i: int|
                0 <= i < pieces(registries@, Separator::Comma).len() && !is_registry_text(
                    #[trigger] pieces(registries@, Separator::Comma)[i],
                ),
        },
{
    let listed = split(registries, Separator::Comma);
    let ghost written = pieces(registries@, Separator::Comma);
    let mut endpoints: Vec<Endpoint> = Vec::new();
    let mut left: usize = listed.len();
    while left > 0
        invariant
            left <= listed@.len(),
            written == texts(listed@),
            written == pieces(registries@, Separator::Comma),
            endpoints@.len() == listed@.len() - left,
            forall|i: int|
                0 <= i < endpoints@.len() ==> describes(
                    written[written.len() - 1 - i],
                    #[trigger] endpoints@[i],
                ) && endpoints@[i].well_formed() && has_bare_keys(endpoints@[i], texts(repo_keys@)),
        decreases left,
    {
        left = left - 1;
        proof {
            assert(written[left as int] == listed@[left as int]@);
        }
        match parse_endpoint(listed[left].as_str(), repo_keys) {
            Some(endpoint) => {
                endpoints.push(endpoint);
            },
            None => {
                proof {
                    assert(!is_registry_text(pieces(registries@, Separator::Comma)[left as int]));
                }
                return None;
            },
        }
    }
    Some(endpoints)
}

} // verus!
