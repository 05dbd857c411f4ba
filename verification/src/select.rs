//! The job selector: from every repository of the inventory, its first tags
//! (the most recent ones, the tags being newest first), one scan job each.

use vstd::prelude::*;
use vstd::string::*;
use crate::inventory::{Endpoint, RepoKey, Repository};
use crate::job::{job_views, ScanJob, ScanJobView};

verus! {

/// The registry reference of a repository key: the endpoint, the path under
/// which the registry serves its container repositories, and the key.
pub open spec fn registry_reference(endpoint: Seq<char>, key: Seq<char>) -> Seq<char> {
    endpoint + "/artifactory/api/docker/"@ + key
}

/// How many tags of a repository with `tags` tags are selected.
pub open spec fn selected_count(tags: nat, max_tags: nat) -> nat {
    if max_tags < tags {
        max_tags
    } else {
        tags
    }
}

/// The jobs of one repository: its first `selected_count` tags, in order.
pub open spec fn repository_jobs(
    endpoint: Seq<char>,
    key: Seq<char>,
    repository: Repository,
    max_tags: nat,
) -> Seq<ScanJobView> {
    Seq::new(
        selected_count(repository.tags@.len(), max_tags),
        |i: int|
            ScanJobView {
                registry: registry_reference(endpoint, key),
                image_name: repository.name@,
                tag: repository.tags@[i].name@,
            },
    )
}

/// The jobs of one repository key: those of its repositories, in order.
pub open spec fn key_jobs(endpoint: Seq<char>, key: RepoKey, max_tags: nat) -> Seq<ScanJobView> {
    key.repositories@.map_values(
        |r: Repository| repository_jobs(endpoint, key.name@, r, max_tags),
    ).flatten()
}

/// The jobs of one endpoint: those of its repository keys, in order.
pub open spec fn endpoint_jobs(endpoint: Endpoint, max_tags: nat) -> Seq<ScanJobView> {
    endpoint.repo_keys@.map_values(|k: RepoKey| key_jobs(endpoint.name@, k, max_tags)).flatten()
}

/// The jobs of an inventory: those of its endpoints, in order.
pub open spec fn selected_jobs(inventory: Seq<Endpoint>, max_tags: nat) -> Seq<ScanJobView> {
    inventory.map_values(|e: Endpoint| endpoint_jobs(e, max_tags)).flatten()
}

/// The sum of a sequence of counts.
pub open spec fn sum_of(counts: Seq<nat>) -> nat
    decreases counts.len(),
{
    if counts.len() == 0 {
        0
    } else {
        sum_of(counts.drop_last()) + counts.last()
    }
}

/// How many jobs one repository key yields: the selected counts of its
/// repositories, summed.
pub open spec fn key_job_count(key: RepoKey, max_tags: nat) -> nat {
    sum_of(key.repositories@.map_values(|r: Repository| selected_count(r.tags@.len(), max_tags)))
}

/// How many jobs one endpoint yields.
pub open spec fn endpoint_job_count(endpoint: Endpoint, max_tags: nat) -> nat {
    sum_of(endpoint.repo_keys@.map_values(|k: RepoKey| key_job_count(k, max_tags)))
}

/// How many jobs an inventory yields: over all its repositories, the sum of
/// the lesser of `max_tags` and the repository's number of tags.
pub open spec fn job_count(inventory: Seq<Endpoint>, max_tags: nat) -> nat {
    sum_of(inventory.map_values(|e: Endpoint| endpoint_job_count(e, max_tags)))
}

/// The length of a concatenation is the sum of the lengths of its parts.
pub proof fn lemma_flatten_len<A>(parts: Seq<Seq<A>>)
    ensures
        parts.flatten().len() == sum_of(parts.map_values(|p: Seq<A>| p.len())),
    decreases parts.len(),
{
    let lens = parts.map_values(|p: Seq<A>| p.len());
    if parts.len() == 0 {
        assert(parts.flatten() =~= Seq::<A>::empty());
    } else {
        let init = parts.drop_last();
        lemma_flatten_len(init);
        init.lemma_flatten_push(parts.last());
        assert(init.push(parts.last()) =~= parts);
        assert(lens.drop_last() =~= init.map_values(|p: Seq<A>| p.len()));
    }
}

/// A repository never yields more than `max_tags` jobs; one with no more
/// than `max_tags` tags yields exactly one job per tag; and the jobs are
/// those of its first tags, in the order of the tags.
pub proof fn lemma_jobs_per_repository(
    endpoint: Seq<char>,
    key: Seq<char>,
    repository: Repository,
    max_tags: nat,
)
    ensures
        repository_jobs(endpoint, key, repository, max_tags).len() <= max_tags,
        repository_jobs(endpoint, key, repository, max_tags).len() <= repository.tags@.len(),
        repository.tags@.len() <= max_tags ==> repository_jobs(
            endpoint,
            key,
            repository,
            max_tags,
        ).len() == repository.tags@.len(),
        repository.tags@.len() >= max_tags ==> repository_jobs(
            endpoint,
            key,
            repository,
            max_tags,
        ).len() == max_tags,
        forall|i: int|
            0 <= i < repository_jobs(endpoint, key, repository, max_tags).len() ==> (
            #[trigger] repository_jobs(endpoint, key, repository, max_tags)[i]).tag
                == repository.tags@[i].name@,
{
}

/// The selector yields, in all, one job for each selected tag of each
/// repository: `job_count` jobs.
pub proof fn lemma_selected_total(inventory: Seq<Endpoint>, max_tags: nat)
    ensures
        selected_jobs(inventory, max_tags).len() == job_count(inventory, max_tags),
{
    let per_endpoint = inventory.map_values(|e: Endpoint| endpoint_jobs(e, max_tags));
    lemma_flatten_len(per_endpoint);
    assert(per_endpoint.map_values(|p: Seq<ScanJobView>| p.len()) =~= inventory.map_values(
        |e: Endpoint| endpoint_job_count(e, max_tags),
    )) by {
        assert forall|i: int| 0 <= i < inventory.len() implies (#[trigger] per_endpoint[i]).len()
            == endpoint_job_count(inventory[i], max_tags) by {
            lemma_endpoint_total(inventory[i], max_tags);
        }
    }
}

/// One endpoint yields `endpoint_job_count` jobs.
pub proof fn lemma_endpoint_total(endpoint: Endpoint, max_tags: nat)
    ensures
        endpoint_jobs(endpoint, max_tags).len() == endpoint_job_count(endpoint, max_tags),
{
    let per_key = endpoint.repo_keys@.map_values(
        |k: RepoKey| key_jobs(endpoint.name@, k, max_tags),
    );
    lemma_flatten_len(per_key);
    assert(per_key.map_values(|p: Seq<ScanJobView>| p.len()) =~= endpoint.repo_keys@.map_values(
        |k: RepoKey| key_job_count(k, max_tags),
    )) by {
        assert forall|i: int| 0 <= i < endpoint.repo_keys@.len() implies (#[trigger] per_key[i]).len()
            == key_job_count(endpoint.repo_keys@[i], max_tags) by {
            lemma_key_total(endpoint.name@, endpoint.repo_keys@[i], max_tags);
        }
    }
}

/// One repository key yields `key_job_count` jobs.
pub proof fn lemma_key_total(endpoint: Seq<char>, key: RepoKey, max_tags: nat)
    ensures
        key_jobs(endpoint, key, max_tags).len() == key_job_count(key, max_tags),
{
    let per_repository = key.repositories@.map_values(
        |r: Repository| repository_jobs(endpoint, key.name@, r, max_tags),
    );
    lemma_flatten_len(per_repository);
    assert(per_repository.map_values(|p: Seq<ScanJobView>| p.len())
        =~= key.repositories@.map_values(
        |r: Repository| selected_count(r.tags@.len(), max_tags),
    ));
}

/// Appends the jobs of one repository to `jobs`.
fn select_from_repository(
    endpoint: &String,
    key: &String,
    repository: &Repository,
    max_tags: usize,
    jobs: &mut Vec<ScanJob>,
)
    ensures
        job_views(final(jobs)@) == job_views(old(jobs)@) + repository_jobs(
            endpoint@,
            key@,
            *repository,
            max_tags as nat,
        ),
{
    let count: usize = if max_tags < repository.tags.len() {
        max_tags
    } else {
        repository.tags.len()
    };
    let ghost wanted = repository_jobs(endpoint@, key@, *repository, max_tags as nat);
    let mut i: usize = 0;
    proof {
        assert(job_views(jobs@) =~= job_views(old(jobs)@) + wanted.take(0));
    }
    while i < count
        invariant
            i <= count,
            count == selected_count(repository.tags@.len(), max_tags as nat),
            wanted == repository_jobs(endpoint@, key@, *repository, max_tags as nat),
            job_views(jobs@) == job_views(old(jobs)@) + wanted.take(i as int),
        decreases count - i,
    {
        let mut registry = endpoint.clone();
        registry.append("/artifactory/api/docker/");
        registry.append(key.as_str());
        let job = ScanJob {
            registry,
            image_name: repository.name.clone(),
            tag: repository.tags[i].name.clone(),
        };
        let ghost before = jobs@;
        jobs.push(job);
        proof {
            assert(job@ == wanted[i as int]);
            assert(job_views(jobs@) =~= job_views(before).push(job@));
            assert(wanted.take(i + 1) =~= wanted.take(i as int).push(wanted[i as int]));
            assert(job_views(jobs@) =~= job_views(old(jobs)@) + wanted.take(i + 1));
        }
        i = i + 1;
    }
    proof {
        assert(wanted.take(count as int) =~= wanted);
    }
}

/// Appends the jobs of one repository key to `jobs`.
fn select_from_key(endpoint: &String, key: &RepoKey, max_tags: usize, jobs: &mut Vec<ScanJob>)
    ensures
        job_views(final(jobs)@) == job_views(old(jobs)@) + key_jobs(
            endpoint@,
            *key,
            max_tags as nat,
        ),
{
    let ghost per_repository = key.repositories@.map_values(
        |r: Repository| repository_jobs(endpoint@, key.name@, r, max_tags as nat),
    );
    let mut i: usize = 0;
    proof {
        assert(per_repository.take(0) =~= Seq::<Seq<ScanJobView>>::empty());
        assert(job_views(jobs@) =~= job_views(old(jobs)@) + per_repository.take(0).flatten());
    }
    while i < key.repositories.len()
        invariant
            i <= key.repositories@.len(),
            per_repository == key.repositories@.map_values(
                |r: Repository| repository_jobs(endpoint@, key.name@, r, max_tags as nat),
            ),
            job_views(jobs@) == job_views(old(jobs)@) + per_repository.take(i as int).flatten(),
        decreases key.repositories@.len() - i,
    {
        select_from_repository(endpoint, &key.name, &key.repositories[i], max_tags, jobs);
        proof {
            let done = per_repository.take(i as int);
            done.lemma_flatten_push(per_repository[i as int]);
            assert(per_repository.take(i + 1) =~= done.push(per_repository[i as int]));
            assert(job_views(jobs@) =~= job_views(old(jobs)@) + per_repository.take(
                i + 1,
            ).flatten());
        }
        i = i + 1;
    }
    proof {
        assert(per_repository.take(i as int) =~= per_repository);
    }
}

/// Appends the jobs of one endpoint to `jobs`.
fn select_from_endpoint(endpoint: &Endpoint, max_tags: usize, jobs: &mut Vec<ScanJob>)
    ensures
        job_views(final(jobs)@) == job_views(old(jobs)@) + endpoint_jobs(
            *endpoint,
            max_tags as nat,
        ),
{
    let ghost per_key = endpoint.repo_keys@.map_values(
        |k: RepoKey| key_jobs(endpoint.name@, k, max_tags as nat),
    );
    let mut i: usize = 0;
    proof {
        assert(per_key.take(0) =~= Seq::<Seq<ScanJobView>>::empty());
        assert(job_views(jobs@) =~= job_views(old(jobs)@) + per_key.take(0).flatten());
    }
    while i < endpoint.repo_keys.len()
        invariant
            i <= endpoint.repo_keys@.len(),
            per_key == endpoint.repo_keys@.map_values(
                |k: RepoKey| key_jobs(endpoint.name@, k, max_tags as nat),
            ),
            job_views(jobs@) == job_views(old(jobs)@) + per_key.take(i as int).flatten(),
        decreases endpoint.repo_keys@.len() - i,
    {
        select_from_key(&endpoint.name, &endpoint.repo_keys[i], max_tags, jobs);
        proof {
            let done = per_key.take(i as int);
            done.lemma_flatten_push(per_key[i as int]);
            assert(per_key.take(i + 1) =~= done.push(per_key[i as int]));
            assert(job_views(jobs@) =~= job_views(old(jobs)@) + per_key.take(i + 1).flatten());
        }
        i = i + 1;
    }
    proof {
        assert(per_key.take(i as int) =~= per_key);
    }
}

/// Selects the scan jobs of an inventory: for every endpoint, every
/// repository key and every repository under it, in the inventory's order,
/// one job for each of the repository's first `max_tags` tags, or for all of
/// them where it has fewer.
pub fn select(inventory: &Vec<Endpoint>, max_tags: usize) -> (jobs: Vec<ScanJob>)
    ensures
        job_views(jobs@) == selected_jobs(inventory@, max_tags as nat),
{
    let mut jobs: Vec<ScanJob> = Vec::new();
    let ghost per_endpoint = inventory@.map_values(|e: Endpoint| endpoint_jobs(e, max_tags as nat));
    let mut i: usize = 0;
    proof {
        assert(per_endpoint.take(0) =~= Seq::<Seq<ScanJobView>>::empty());
        assert(job_views(jobs@) =~= per_endpoint.take(0).flatten());
    }
    while i < inventory.len()
        invariant
            i <= inventory@.len(),
            per_endpoint == inventory@.map_values(|e: Endpoint| endpoint_jobs(e, max_tags as nat)),
            job_views(jobs@) == per_endpoint.take(i as int).flatten(),
        decreases inventory@.len() - i,
    {
        select_from_endpoint(&inventory[i], max_tags, &mut jobs);
        proof {
            let done = per_endpoint.take(i as int);
            done.lemma_flatten_push(per_endpoint[i as int]);
            assert(per_endpoint.take(i + 1) =~= done.push(per_endpoint[i as int]));
        }
        i = i + 1;
    }
    proof {
        assert(per_endpoint.take(i as int) =~= per_endpoint);
    }
    jobs
}

} // verus!
