//! What a registry answers, decoded: the repository keys that hold container
//! images, the repositories under a key, the tags of a repository, and the
//! instant at which a tag's image was created.

use vstd::prelude::*;
use vstd::string::*;
use crate::inventory::Instant;
use crate::json::{
    as_array, as_str, elements, error_message, get, is_object, member, message_of, parse, parsed,
    render, rendered, string_of, value_is_object,
};
use crate::text::{same_text, texts, unquoted, without_quotes};

verus! {

/// Why an answer of the registry could not be used.
#[derive(Clone, Debug, PartialEq, Eq)]
pub enum InventoryError {
    /// The answer is not JSON; `detail` is the parser's message.
    NotJson { detail: String },
    /// The answer is JSON of another shape than the one expected.
    Misshapen,
}

/// The instant that `chrono` reads from a text as a `DateTime<Utc>`, if it
/// reads one.
pub uninterp spec fn instant_read(text: Seq<char>) -> Option<Instant>;

/// Parses a text as `chrono::DateTime<Utc>` through its `FromStr` and hands
/// out the instant's seconds since the epoch (`timestamp`) and nanoseconds
/// (`timestamp_subsec_nanos`); `None` where the text is not a date and time.
#[verifier::external_body]
pub(crate) fn read_instant(text: &str) -> (instant: Option<Instant>)
    ensures
        instant == instant_read(text@),
{
    match text.parse::<chrono::DateTime<chrono::Utc>>() {
        Ok(t) => Some(Instant { secs: t.timestamp(), nanos: t.timestamp_subsec_nanos() }),
        Err(_) => None,
    }
}

/// Where a registry lists its repository keys.
pub open spec fn repositories_address(endpoint: Seq<char>) -> Seq<char> {
    "https://"@ + endpoint + "/artifactory/api/repositories"@
}

/// Where a registry serves the container repositories of a key. Quotes in
/// the key are left out.
pub open spec fn key_address(endpoint: Seq<char>, key: Seq<char>) -> Seq<char> {
    "https://"@ + endpoint + "/artifactory/api/docker/"@ + unquoted(key) + "/v2/"@
}

/// Where a registry lists the repositories under a key.
pub open spec fn catalog_address(endpoint: Seq<char>, key: Seq<char>) -> Seq<char> {
    key_address(endpoint, key) + "_catalog"@
}

/// Where a registry lists the tags of a repository.
pub open spec fn tags_address(endpoint: Seq<char>, key: Seq<char>, repository: Seq<char>) -> Seq<
    char,
> {
    key_address(endpoint, key) + unquoted(repository) + "/tags/list"@
}

/// Where a registry serves the manifest of a tag.
pub open spec fn manifest_address(
    endpoint: Seq<char>,
    key: Seq<char>,
    repository: Seq<char>,
    tag: Seq<char>,
) -> Seq<char> {
    key_address(endpoint, key) + unquoted(repository) + "/manifests/"@ + unquoted(tag)
}

/// The address at which a registry lists its repository keys.
pub fn repositories_url(endpoint: &str) -> (url: String)
    ensures
        url@ == repositories_address(endpoint@),
{
    let mut url = "https://".to_owned();
    url.append(endpoint);
    url.append("/artifactory/api/repositories");
    url
}

/// The address under which a registry serves a key's container repositories.
fn key_url(endpoint: &str, key: &str) -> (url: String)
    ensures
        url@ == key_address(endpoint@, key@),
{
    let mut url = "https://".to_owned();
    url.append(endpoint);
    url.append("/artifactory/api/docker/");
    let key = without_quotes(key);
    url.append(key.as_str());
    url.append("/v2/");
    url
}

/// The address at which a registry lists the repositories under a key.
pub fn catalog_url(endpoint: &str, key: &str) -> (url: String)
    ensures
        url@ == catalog_address(endpoint@, key@),
{
    let mut url = key_url(endpoint, key);
    url.append("_catalog");
    url
}

/// The address at which a registry lists the tags of a repository.
pub fn tags_url(endpoint: &str, key: &str, repository: &str) -> (url: String)
    ensures
        url@ == tags_address(endpoint@, key@, repository@),
{
    let mut url = key_url(endpoint, key);
    let repository = without_quotes(repository);
    url.append(repository.as_str());
    url.append("/tags/list");
    url
}

/// The address at which a registry serves the manifest of a tag.
pub fn manifest_url(endpoint: &str, key: &str, repository: &str, tag: &str) -> (url: String)
    ensures
        url@ == manifest_address(endpoint@, key@, repository@, tag@),
{
    let mut url = key_url(endpoint, key);
    let repository = without_quotes(repository);
    url.append(repository.as_str());
    url.append("/manifests/");
    let tag = without_quotes(tag);
    url.append(tag.as_str());
    url
}

/// The name that a JSON value stands for: its JSON text without the quotes.
pub open spec fn name_of(value: serde_json::Value) -> Seq<char> {
    unquoted(rendered(value))
}

/// The names listed under `field`: present where `doc` is an object whose
/// member `field` is an array.
pub open spec fn listed_names(doc: serde_json::Value, field: Seq<char>) -> Option<Seq<Seq<char>>> {
    match member(doc, field) {
        Some(list) => match elements(list) {
            Some(items) => Some(items.map_values(|v: serde_json::Value| name_of(v))),
            None => None,
        },
        None => None,
    }
}

/// The names listed under `field` of a document.
pub fn names_in(doc: &serde_json::Value, field: &str) -> (names: Option<Vec<String>>)
    ensures
        match names {
            Some(v) => listed_names(*doc, field@) == Some(texts(v@)),
            None => listed_names(*doc, field@) is None,
        },
{
    let list = match get(doc, field) {
        Some(list) => list,
        None => return None,
    };
    let items = match as_array(list) {
        Some(items) => items,
        None => return None,
    };
    let mut names: Vec<String> = Vec::new();
    let ghost wanted = items@.map_values(|v: serde_json::Value| name_of(v));
    let mut i: usize = 0;
    proof {
        assert(texts(names@) =~= wanted.take(0));
    }
    while i < items.len()
        invariant
            i <= items@.len(),
            wanted == items@.map_values(|v: serde_json::Value| name_of(v)),
            texts(names@) == wanted.take(i as int),
        decreases items@.len() - i,
    {
        let text = render(&items[i]);
        let name = without_quotes(text.as_str());
        let ghost before = names@;
        names.push(name);
        proof {
            assert(texts(names@) =~= texts(before).push(name@));
            assert(wanted.take(i + 1) =~= wanted.take(i as int).push(wanted[i as int]));
        }
        i = i + 1;
    }
    proof {
        assert(wanted.take(i as int) =~= wanted);
    }
    Some(names)
}

/// What a listing holds: the names under `field` of the JSON object that the
/// answer is.
pub open spec fn listing(body: Seq<char>, field: Seq<char>) -> Option<Seq<Seq<char>>> {
    match parsed(body) {
        Ok(doc) => listed_names(doc, field),
        Err(_) => None,
    }
}

/// Decodes a listing: an answer that is a JSON object with an array under
/// `field`.
fn names_listed(body: &str, field: &str) -> (names: Result<Vec<String>, InventoryError>)
    ensures
        match names {
            Ok(v) => listing(body@, field@) == Some(texts(v@)),
            Err(InventoryError::NotJson { detail }) => parsed(body@) matches Err(e) && detail@
                == message_of(e),
            Err(InventoryError::Misshapen) => parsed(body@) is Ok && listing(body@, field@) is None,
        },
{
    match parse(body) {
        Ok(doc) => match names_in(&doc, field) {
            Some(names) => Ok(names),
            None => Err(InventoryError::Misshapen),
        },
        Err(e) => Err(InventoryError::NotJson { detail: error_message(&e) }),
    }
}

/// The repositories of a catalog answer: the names under `repositories`.
pub fn repository_names(body: &str) -> (names: Result<Vec<String>, InventoryError>)
    ensures
        match names {
            Ok(v) => listing(body@, "repositories"@) == Some(texts(v@)),
            Err(InventoryError::NotJson { detail }) => parsed(body@) matches Err(e) && detail@
                == message_of(e),
            Err(InventoryError::Misshapen) => parsed(body@) is Ok && listing(
                body@,
                "repositories"@,
            ) is None,
        },
{
    names_listed(body, "repositories")
}

/// The tags of a tag-list answer: the names under `tags`, in the answer's
/// order.
pub fn tag_names(body: &str) -> (names: Result<Vec<String>, InventoryError>)
    ensures
        match names {
            Ok(v) => listing(body@, "tags"@) == Some(texts(v@)),
            Err(InventoryError::NotJson { detail }) => parsed(body@) matches Err(e) && detail@
                == message_of(e),
            Err(InventoryError::Misshapen) => parsed(body@) is Ok && listing(body@, "tags"@) is None,
        },
{
    names_listed(body, "tags")
}

/// An entry of the repository-key list is usable: it is an object, its
/// package type, where it has one, is a string, and where that is `Docker`
/// the entry has a key.
pub open spec fn entry_is_sound(entry: serde_json::Value) -> bool {
    &&& is_object(entry)
    &&& member(entry, "packageType"@) matches Some(kind) ==> {
        &&& string_of(kind) is Some
        &&& string_of(kind) == Some("Docker"@) ==> member(entry, "key"@) is Some
    }
}

/// The test "has the package type `Docker`".
pub open spec fn holds_images() -> spec_fn(serde_json::Value) -> bool {
    |entry: serde_json::Value|
        member(entry, "packageType"@) matches Some(kind) && string_of(kind) == Some("Docker"@)
}

/// The key of an entry.
pub open spec fn key_of() -> spec_fn(serde_json::Value) -> Seq<char> {
    |entry: serde_json::Value| name_of(member(entry, "key"@).unwrap())
}

/// The keys of the entries with package type `Docker`, in the list's order:
/// present where the document is an array of usable entries.
pub open spec fn docker_keys(doc: serde_json::Value) -> Option<Seq<Seq<char>>> {
    match elements(doc) {
        Some(entries) => if forall|i: int| 0 <= i < entries.len() ==> entry_is_sound(entries[i]) {
            Some(entries.filter(holds_images()).map_values(key_of()))
        } else {
            None
        },
        None => None,
    }
}

/// The repository keys that hold container images, from the document that
/// lists a registry's repository keys.
pub fn docker_keys_in(doc: &serde_json::Value) -> (keys: Option<Vec<String>>)
    ensures
        match keys {
            Some(v) => docker_keys(*doc) == Some(texts(v@)),
            None => docker_keys(*doc) is None,
        },
{
    let entries = match as_array(doc) {
        Some(entries) => entries,
        None => return None,
    };
    let mut keys: Vec<String> = Vec::new();
    let mut i: usize = 0;
    proof {
        assert(entries@.take(0) =~= Seq::<serde_json::Value>::empty());
        reveal_with_fuel(Seq::filter, 1);
        assert(texts(keys@) =~= entries@.take(0).filter(holds_images()).map_values(key_of()));
    }
    while i < entries.len()
        invariant
            i <= entries@.len(),
            elements(*doc) == Some(entries@),
            forall|j: int| 0 <= j < i ==> entry_is_sound(entries@[j]),
            texts(keys@) == entries@.take(i as int).filter(holds_images()).map_values(key_of()),
        decreases entries@.len() - i,
    {
        let entry = &entries[i];
        let ghost seen = entries@.take(i as int);
        proof {
            assert(entries@.take(i + 1) =~= seen.push(*entry));
            seen.lemma_filter_push(*entry, holds_images());
        }
        if !value_is_object(entry) {
            return None;
        }
        match get(entry, "packageType") {
            Some(kind) => {
                let kind_text = match as_str(kind) {
                    Some(t) => t,
                    None => return None,
                };
                if same_text(kind_text, "Docker") {
                    let key = match get(entry, "key") {
                        Some(key) => key,
                        None => return None,
                    };
                    let text = render(key);
                    let name = without_quotes(text.as_str());
                    let ghost before = keys@;
                    keys.push(name);
                    proof {
                        assert(texts(keys@) =~= texts(before).push(name@));
                        assert(seen.filter(holds_images()).push(*entry).map_values(key_of())
                            =~= seen.filter(holds_images()).map_values(key_of()).push(name@));
                    }
                }
            },
            None => {},
        }
        i = i + 1;
    }
    proof {
        assert(entries@.take(i as int) =~= entries@);
    }
    Some(keys)
}

/// What a repository-key answer lists.
pub open spec fn docker_key_listing(body: Seq<char>) -> Option<Seq<Seq<char>>> {
    match parsed(body) {
        Ok(doc) => docker_keys(doc),
        Err(_) => None,
    }
}

/// The repository keys that hold container images, from the registry's
/// answer to the question for its repository keys.
pub fn docker_repo_keys(body: &str) -> (keys: Result<Vec<String>, InventoryError>)
    ensures
        match keys {
            Ok(v) => docker_key_listing(body@) == Some(texts(v@)),
            Err(InventoryError::NotJson { detail }) => parsed(body@) matches Err(e) && detail@
                == message_of(e),
            Err(InventoryError::Misshapen) => parsed(body@) is Ok && docker_key_listing(body@) is None,
        },
{
    match parse(body) {
        Ok(doc) => match docker_keys_in(&doc) {
            Some(keys) => Ok(keys),
            None => Err(InventoryError::Misshapen),
        },
        Err(e) => Err(InventoryError::NotJson { detail: error_message(&e) }),
    }
}

/// The embedded record of a manifest's newest history entry: the string
/// under `v1Compatibility` of the first element of the array under `history`.
pub open spec fn history_record(doc: serde_json::Value) -> Option<Seq<char>> {
    match member(doc, "history"@) {
        Some(history) => match elements(history) {
            Some(entries) => if entries.len() > 0 {
                match member(entries[0], "v1Compatibility"@) {
                    Some(record) => string_of(record),
                    None => None,
                }
            } else {
                None
            },
            None => None,
        },
        None => None,
    }
}

/// The creation instant that a history record states: the string under
/// `created`, read as a date and time.
pub open spec fn creation_recorded(record: serde_json::Value) -> Option<Instant> {
    match member(record, "created"@) {
        Some(created) => match string_of(created) {
            Some(text) => instant_read(text),
            None => None,
        },
        None => None,
    }
}

/// The creation instant stated by a history record.
pub fn created_in(record: &serde_json::Value) -> (created: Option<Instant>)
    ensures
        created == creation_recorded(*record),
{
    match get(record, "created") {
        Some(created) => match as_str(created) {
            Some(text) => read_instant(text),
            None => None,
        },
        None => None,
    }
}

/// The embedded history record of a manifest document.
pub fn record_in<'a>(doc: &'a serde_json::Value) -> (record: Option<&'a str>)
    ensures
        match record {
            Some(text) => history_record(*doc) == Some(text@),
            None => history_record(*doc) is None,
        },
{
    let history = match get(doc, "history") {
        Some(history) => history,
        None => return None,
    };
    let entries = match as_array(history) {
        Some(entries) => entries,
        None => return None,
    };
    if entries.len() == 0 {
        return None;
    }
    match get(&entries[0], "v1Compatibility") {
        Some(record) => as_str(record),
        None => None,
    }
}

/// The creation instant that a manifest answer states.
pub open spec fn manifest_instant(body: Seq<char>) -> Option<Instant> {
    match parsed(body) {
        Ok(doc) => match history_record(doc) {
            Some(text) => match parsed(text) {
                Ok(record) => creation_recorded(record),
                Err(_) => None,
            },
            None => None,
        },
        Err(_) => None,
    }
}

/// The parse error of a manifest answer, or of the record embedded in it.
pub open spec fn manifest_parse_error(body: Seq<char>) -> Option<serde_json::Error> {
    match parsed(body) {
        Ok(doc) => match history_record(doc) {
            Some(text) => match parsed(text) {
                Ok(_) => None,
                Err(e) => Some(e),
            },
            None => None,
        },
        Err(e) => Some(e),
    }
}

/// The instant at which a tag's image was created, from the registry's
/// answer to the question for the tag's manifest.
pub fn manifest_created(body: &str) -> (created: Result<Instant, InventoryError>)
    ensures
        match created {
            Ok(t) => manifest_instant(body@) == Some(t),
            Err(InventoryError::NotJson { detail }) => manifest_parse_error(body@) matches Some(e)
                && detail@ == message_of(e),
            Err(InventoryError::Misshapen) => manifest_parse_error(body@) is None
                && manifest_instant(body@) is None,
        },
{
    let doc = match parse(body) {
        Ok(doc) => doc,
        Err(e) => return Err(InventoryError::NotJson { detail: error_message(&e) }),
    };
    let text = match record_in(&doc) {
        Some(text) => text,
        None => return Err(InventoryError::Misshapen),
    };
    let record = match parse(text) {
        Ok(record) => record,
        Err(e) => return Err(InventoryError::NotJson { detail: error_message(&e) }),
    };
    match created_in(&record) {
        Some(t) => Ok(t),
        None => Err(InventoryError::Misshapen),
    }
}

} // verus!
