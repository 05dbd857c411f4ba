//! The inventory: registry endpoints, the repository keys found under them,
//! the repositories under each key, and the tags of each repository.

use vstd::prelude::*;

verus! {

/// A point in time: whole seconds since the Unix epoch and the nanoseconds
/// within that second. Instants are ordered by seconds, then nanoseconds.
#[derive(Clone, Copy, Debug, PartialEq, Eq, Structural)]
pub struct Instant {
    pub secs: i64,
    pub nanos: u32,
}

impl Instant {
    /// `self` is strictly later than `other`.
    pub open spec fn later_than(self, other: Instant) -> bool {
        self.secs > other.secs || (self.secs == other.secs && self.nanos > other.nanos)
    }

    /// `self` is `other` or later.
    pub open spec fn not_before(self, other: Instant) -> bool {
        self == other || self.later_than(other)
    }

    /// Whether `self` is strictly later than `other`.
    pub fn is_later_than(&self, other: &Instant) -> (b: bool)
        ensures
            b == self.later_than(*other),
    {
        self.secs > other.secs || (self.secs == other.secs && self.nanos > other.nanos)
    }
}

/// A tag of a repository and the instant its image was created.
#[derive(Clone, Debug, PartialEq, Eq)]
pub struct Tag {
    pub name: String,
    pub created: Instant,
}

/// An image path under a repository key, with its tags newest first.
#[derive(Clone, Debug, PartialEq, Eq)]
pub struct Repository {
    pub name: String,
    pub tags: Vec<Tag>,
}

/// A repository key and the repositories found under it.
#[derive(Clone, Debug, PartialEq, Eq)]
pub struct RepoKey {
    pub name: String,
    pub repositories: Vec<Repository>,
}

/// A registry (`host:port`), its credentials, and its repository keys, each
/// key at most once.
#[derive(Clone, Debug, PartialEq, Eq)]
pub struct Endpoint {
    pub name: String,
    pub username: String,
    pub password: String,
    pub repo_keys: Vec<RepoKey>,
}

/// Tags in newest-first order: no tag is followed by a later one.
pub open spec fn newest_first(tags: Seq<Tag>) -> bool {
    forall|i: int, j: int| 0 <= i < j < tags.len() ==> tags[i].created.not_before(tags[j].created)
}

/// No two tags were created at the same instant.
pub open spec fn distinct_instants(tags: Seq<Tag>) -> bool {
    forall|i: int, j: int| 0 <= i < j < tags.len() ==> tags[i].created != tags[j].created
}

/// The test "was created at `at`".
pub open spec fn created_at(at: Instant) -> spec_fn(Tag) -> bool {
    |t: Tag| t.created == at
}

/// `sorted` holds the tags of `retrieved` newest first, tags of one instant in
/// the order in which they were retrieved.
pub open spec fn is_newest_first_of(sorted: Seq<Tag>, retrieved: Seq<Tag>) -> bool {
    &&& newest_first(sorted)
    &&& forall|at: Instant| #[trigger]
        sorted.filter(created_at(at)) == retrieved.filter(created_at(at))
}

/// Filtering a single tag by its instant.
proof fn lemma_filter_one(t: Tag, at: Instant)
    ensures
        seq![t].filter(created_at(at)) == (if t.created == at {
            seq![t]
        } else {
            Seq::<Tag>::empty()
        }),
{
    Seq::<Tag>::empty().lemma_filter_prepend(t, created_at(at));
    assert(seq![t] + Seq::<Tag>::empty() =~= seq![t]);
    reveal_with_fuel(Seq::filter, 1);
    assert(Seq::<Tag>::empty().filter(created_at(at)) =~= Seq::<Tag>::empty());
}

/// Putting `t` into a newest-first sequence behind the tags that are later
/// than it and in front of the others keeps the order, and changes only the
/// tags of `t`'s own instant, which `t` now leads.
proof fn lemma_insert_before_not_later(sorted: Seq<Tag>, p: int, t: Tag)
    requires
        newest_first(sorted),
        0 <= p <= sorted.len(),
        forall|i: int| 0 <= i < p ==> sorted[i].created.later_than(t.created),
        p < sorted.len() ==> !sorted[p].created.later_than(t.created),
    ensures
        newest_first(sorted.insert(p, t)),
        forall|at: Instant| #[trigger]
            sorted.insert(p, t).filter(created_at(at)) == seq![t].filter(created_at(at))
                + sorted.filter(created_at(at)),
{
    let grown = sorted.insert(p, t);
    let front = sorted.take(p);
    let back = sorted.skip(p);
    assert(grown =~= front + seq![t] + back);
    assert(sorted =~= front + back);
    assert forall|i: int, j: int| 0 <= i < j < grown.len() implies grown[i].created.not_before(
        grown[j].created,
    ) by {
        if j == p {
            assert(grown[i] == sorted[i]);
        } else if i == p {
            assert(grown[j] == sorted[j - 1]);
            assert(sorted[p].created.not_before(sorted[j - 1].created) || j - 1 == p);
        } else {
            let a = if i < p { i } else { i - 1 };
            let b = if j < p { j } else { j - 1 };
            assert(sorted[a].created.not_before(sorted[b].created));
        }
    }
    assert forall|at: Instant| #[trigger]
        grown.filter(created_at(at)) == seq![t].filter(created_at(at)) + sorted.filter(
            created_at(at),
        ) by {
        let pred = created_at(at);
        Seq::filter_distributes_over_add(front + seq![t], back, pred);
        Seq::filter_distributes_over_add(front, seq![t], pred);
        Seq::filter_distributes_over_add(front, back, pred);
        lemma_filter_one(t, at);
        if t.created == at {
            assert(front.all(|x: Tag| !pred(x)));
            front.lemma_all_neg_filter_empty(pred);
            assert(front.filter(pred) =~= Seq::<Tag>::empty());
            assert(grown.filter(pred) =~= seq![t] + sorted.filter(pred));
        } else {
            assert(grown.filter(pred) =~= sorted.filter(pred));
            assert(seq![t].filter(pred) + sorted.filter(pred) =~= sorted.filter(pred));
        }
    }
}

/// Orders retrieved tags newest first. Tags created at the same instant keep
/// the order in which they were retrieved.
pub fn sort_newest_first(tags: Vec<Tag>) -> (sorted: Vec<Tag>)
    ensures
        is_newest_first_of(sorted@, tags@),
        sorted@.len() == tags@.len(),
{
    let ghost retrieved = tags@;
    let mut rest = tags;
    let mut sorted: Vec<Tag> = Vec::new();
    proof {
        assert(retrieved.skip(retrieved.len() as int) =~= Seq::<Tag>::empty());
        assert(sorted@ =~= retrieved.skip(retrieved.len() as int));
    }
    while rest.len() > 0
        invariant
            rest@.len() <= retrieved.len(),
            rest@ == retrieved.take(rest@.len() as int),
            sorted@.len() + rest@.len() == retrieved.len(),
            newest_first(sorted@),
            forall|at: Instant| #[trigger]
                sorted@.filter(created_at(at)) == retrieved.skip(rest@.len() as int).filter(
                    created_at(at),
                ),
        decreases rest@.len(),
    {
        let ghost before = sorted@;
        let ghost n = rest@.len() as int;
        let t = rest.pop().unwrap();
        assert(t == retrieved[n - 1]);
        let mut p: usize = 0;
        while p < sorted.len() && sorted[p].created.is_later_than(&t.created)
            invariant
                p <= sorted@.len(),
                forall|i: int| 0 <= i < p ==> sorted@[i].created.later_than(t.created),
            decreases sorted@.len() - p,
        {
            p = p + 1;
        }
        sorted.insert(p, t);
        proof {
            lemma_insert_before_not_later(before, p as int, t);
            assert(rest@ =~= retrieved.take(n - 1));
            assert(retrieved.skip(n - 1) =~= seq![t] + retrieved.skip(n));
            assert forall|at: Instant| #[trigger]
                sorted@.filter(created_at(at)) == retrieved.skip(n - 1).filter(
                    created_at(at),
                ) by {
                assert(before.filter(created_at(at)) == retrieved.skip(n).filter(created_at(at)));
                assert(before.insert(p as int, t).filter(created_at(at)) == seq![t].filter(
                    created_at(at),
                ) + before.filter(created_at(at)));
                Seq::filter_distributes_over_add(seq![t], retrieved.skip(n), created_at(at));
            }
        }
    }
    proof {
        assert(retrieved.skip(0) =~= retrieved);
    }
    sorted
}

/// A newest-first sequence is fixed by the tags it holds at each instant: two
/// newest-first sequences that agree, instant by instant, on those tags and
/// on their order are the same sequence.
pub proof fn lemma_newest_first_is_unique(a: Seq<Tag>, b: Seq<Tag>)
    requires
        newest_first(a),
        newest_first(b),
        forall|at: Instant| #[trigger] a.filter(created_at(at)) == b.filter(created_at(at)),
    ensures
        a == b,
    decreases a.len(),
{
    if a.len() == 0 {
        if b.len() > 0 {
            let at = b[0].created;
            b.lemma_filter_contains(created_at(at), 0);
            a.lemma_filter_len(created_at(at));
            assert(a.filter(created_at(at)).len() == 0);
            assert(b.filter(created_at(at)).contains(b[0]));
        }
        assert(a =~= b);
    } else {
        let x = a[0];
        let at0 = x.created;
        a.lemma_filter_contains(created_at(at0), 0);
        if b.len() == 0 {
            b.lemma_filter_len(created_at(at0));
            assert(a.filter(created_at(at0)).contains(x));
            assert(false);
        }
        let y = b[0];
        let at1 = y.created;
        b.lemma_filter_contains(created_at(at1), 0);
        // The head of each sequence occurs in the other, so neither head is later.
        assert(b.filter(created_at(at0)).contains(x));
        b.lemma_filter_contains_rev(created_at(at0), x);
        let i = choose|i: int| 0 <= i < b.len() && b[i] == x;
        assert(at1.not_before(at0)) by {
            if i > 0 {
                assert(b[0].created.not_before(b[i].created));
            }
        }
        assert(a.filter(created_at(at1)).contains(y));
        a.lemma_filter_contains_rev(created_at(at1), y);
        let j = choose|j: int| 0 <= j < a.len() && a[j] == y;
        assert(at0.not_before(at1)) by {
            if j > 0 {
                assert(a[0].created.not_before(a[j].created));
            }
        }
        assert(at0 == at1);
        let ta = a.skip(1);
        let tb = b.skip(1);
        assert(a =~= seq![x] + ta);
        assert(b =~= seq![y] + tb);
        assert forall|at: Instant| #[trigger]
            ta.filter(created_at(at)) == tb.filter(created_at(at)) && (at == at0 ==> x == y) by {
            ta.lemma_filter_prepend(x, created_at(at));
            tb.lemma_filter_prepend(y, created_at(at));
            let fa = a.filter(created_at(at));
            let fb = b.filter(created_at(at));
            assert(fa == fb);
            if at == at0 {
                assert(fa == seq![x] + ta.filter(created_at(at)));
                assert(fb == seq![y] + tb.filter(created_at(at)));
                assert(fa[0] == x);
                assert(fb[0] == y);
                assert(ta.filter(created_at(at)) =~= fa.skip(1));
                assert(tb.filter(created_at(at)) =~= fb.skip(1));
            }
        }
        assert(ta.filter(created_at(at0)) == tb.filter(created_at(at0)) && x == y);
        assert(newest_first(ta)) by {
            assert forall|i: int, j: int| 0 <= i < j < ta.len() implies ta[i].created.not_before(
                ta[j].created,
            ) by {
                assert(a[i + 1].created.not_before(a[j + 1].created));
            }
        }
        assert(newest_first(tb)) by {
            assert forall|i: int, j: int| 0 <= i < j < tb.len() implies tb[i].created.not_before(
                tb[j].created,
            ) by {
                assert(b[i + 1].created.not_before(b[j + 1].created));
            }
        }
        lemma_newest_first_is_unique(ta, tb);
        assert(a =~= b);
    }
}

/// The order of retrieval does not matter: two retrievals that hold, instant
/// by instant, the same tags in the same order have one newest-first form, so
/// every prefix of it, the first `n` tags, is the same for both.
pub proof fn lemma_retrieval_order_is_irrelevant(
    first: Seq<Tag>,
    second: Seq<Tag>,
    a: Seq<Tag>,
    b: Seq<Tag>,
    n: int,
)
    requires
        is_newest_first_of(a, first),
        is_newest_first_of(b, second),
        forall|at: Instant| #[trigger]
            first.filter(created_at(at)) == second.filter(created_at(at)),
    ensures
        a == b,
        a.take(n) == b.take(n),
{
    assert forall|at: Instant| #[trigger] a.filter(created_at(at)) == b.filter(created_at(at)) by {
        assert(a.filter(created_at(at)) == first.filter(created_at(at)));
        assert(first.filter(created_at(at)) == second.filter(created_at(at)));
        assert(b.filter(created_at(at)) == second.filter(created_at(at)));
    }
    lemma_newest_first_is_unique(a, b);
}

/// Among tags of distinct instants, at most one was created at any instant.
pub proof fn lemma_distinct_instants_filter(tags: Seq<Tag>, at: Instant)
    requires
        distinct_instants(tags),
    ensures
        tags.filter(created_at(at)).len() <= 1,
    decreases tags.len(),
{
    reveal_with_fuel(Seq::filter, 1);
    if tags.len() > 0 {
        let init = tags.drop_last();
        let last = tags.last();
        assert(distinct_instants(init)) by {
            assert forall|i: int, j: int| 0 <= i < j < init.len() implies init[i].created
                != init[j].created by {
                assert(tags[i].created != tags[j].created);
            }
        }
        lemma_distinct_instants_filter(init, at);
        init.lemma_filter_push(last, created_at(at));
        assert(init.push(last) =~= tags);
        if last.created == at && init.filter(created_at(at)).len() == 1 {
            let e = init.filter(created_at(at))[0];
            init.lemma_filter_pred(created_at(at), 0);
            assert(init.filter(created_at(at)).contains(e));
            init.lemma_filter_contains_rev(created_at(at), e);
            let j = choose|j: int| 0 <= j < init.len() && init[j] == e;
            assert(tags[j].created != tags[tags.len() - 1].created);
        }
    }
}

/// Where no instant has more than one tag, the tags have distinct instants.
pub proof fn lemma_filter_distinct_instants(tags: Seq<Tag>)
    requires
        forall|at: Instant| #[trigger] tags.filter(created_at(at)).len() <= 1,
    ensures
        distinct_instants(tags),
{
    assert forall|i: int, j: int| 0 <= i < j < tags.len() implies tags[i].created
        != tags[j].created by {
        if tags[i].created == tags[j].created {
            let at = tags[i].created;
            let front = tags.take(j);
            let back = tags.skip(j);
            assert(tags =~= front + back);
            Seq::filter_distributes_over_add(front, back, created_at(at));
            front.lemma_filter_contains(created_at(at), i);
            back.lemma_filter_contains(created_at(at), 0);
            assert(front.filter(created_at(at)).len() >= 1);
            assert(back.filter(created_at(at)).len() >= 1);
            assert(tags.filter(created_at(at)).len() <= 1);
        }
    }
}

/// Two retrievals of the same tags, each tag with an instant of its own,
/// hold the same tags at every instant, in whatever order they came.
pub proof fn lemma_reordered_retrievals_agree(first: Seq<Tag>, second: Seq<Tag>, at: Instant)
    requires
        distinct_instants(first),
        distinct_instants(second),
        first.to_multiset() == second.to_multiset(),
    ensures
        first.filter(created_at(at)) == second.filter(created_at(at)),
{
    broadcast use vstd::seq_lib::group_to_multiset_ensures;

    let fa = first.filter(created_at(at));
    let fb = second.filter(created_at(at));
    lemma_distinct_instants_filter(first, at);
    lemma_distinct_instants_filter(second, at);
    if fa.len() == 1 {
        let e = fa[0];
        first.lemma_filter_pred(created_at(at), 0);
        assert(fa.contains(e));
        first.lemma_filter_contains_rev(created_at(at), e);
        assert(first.to_multiset().count(e) > 0);
        assert(second.contains(e));
        let j = choose|j: int| 0 <= j < second.len() && second[j] == e;
        second.lemma_filter_contains(created_at(at), j);
        let w = choose|w: int| 0 <= w < fb.len() && fb[w] == e;
        assert(fb[0] == e);
    }
    if fb.len() == 1 {
        let e = fb[0];
        second.lemma_filter_pred(created_at(at), 0);
        assert(fb.contains(e));
        second.lemma_filter_contains_rev(created_at(at), e);
        assert(second.to_multiset().count(e) > 0);
        assert(first.contains(e));
        let j = choose|j: int| 0 <= j < first.len() && first[j] == e;
        first.lemma_filter_contains(created_at(at), j);
        let w = choose|w: int| 0 <= w < fa.len() && fa[w] == e;
        assert(fa[0] == e);
    }
    assert(fa =~= fb);
}

/// Where every tag has an instant of its own, the newest-first form is
/// strictly descending and does not depend on the order of retrieval: two
/// retrievals of the same tags have the same newest-first form, and so the
/// same first `n` tags, for every `n`.
pub proof fn lemma_newest_first_of_distinct_instants(
    first: Seq<Tag>,
    second: Seq<Tag>,
    a: Seq<Tag>,
    b: Seq<Tag>,
    n: int,
)
    requires
        distinct_instants(first),
        distinct_instants(second),
        first.to_multiset() == second.to_multiset(),
        is_newest_first_of(a, first),
        is_newest_first_of(b, second),
    ensures
        a == b,
        a.take(n) == b.take(n),
        forall|i: int, j: int| 0 <= i < j < a.len() ==> a[i].created.later_than(a[j].created),
{
    assert forall|at: Instant| #[trigger]
        first.filter(created_at(at)) == second.filter(created_at(at)) by {
        lemma_reordered_retrievals_agree(first, second, at);
    }
    lemma_retrieval_order_is_irrelevant(first, second, a, b, n);
    assert forall|at: Instant| #[trigger] a.filter(created_at(at)).len() <= 1 by {
        lemma_distinct_instants_filter(first, at);
        assert(a.filter(created_at(at)) == first.filter(created_at(at)));
    }
    lemma_filter_distinct_instants(a);
    assert forall|i: int, j: int| 0 <= i < j < a.len() implies a[i].created.later_than(
        a[j].created,
    ) by {
        assert(a[i].created.not_before(a[j].created));
        assert(a[i].created != a[j].created);
    }
}

/// The first `n` tags of a newest-first sequence are its `n` most recent: no
/// tag behind them is later than any of them.
pub proof fn lemma_prefix_is_most_recent(sorted: Seq<Tag>, n: int)
    requires
        newest_first(sorted),
        0 <= n <= sorted.len(),
    ensures
        forall|i: int, j: int|
            0 <= i < n <= j < sorted.len() ==> sorted[i].created.not_before(sorted[j].created),
        forall|i: int, j: int|
            0 <= i < n <= j < sorted.len() && distinct_instants(sorted)
                ==> sorted[i].created.later_than(sorted[j].created),
{
    assert forall|i: int, j: int|
        0 <= i < n <= j < sorted.len() && distinct_instants(sorted) implies sorted[i].created.later_than(
        sorted[j].created,
    ) by {
        assert(sorted[i].created.not_before(sorted[j].created));
        assert(sorted[i].created != sorted[j].created);
    }
}

impl Repository {
    /// The tags are in newest-first order.
    pub open spec fn well_formed(&self) -> bool {
        newest_first(self.tags@)
    }

    /// Whether the tags are in newest-first order.
    pub fn is_well_formed(&self) -> (b: bool)
        ensures
            b == self.well_formed(),
    {
        let mut i: usize = 1;
        while i < self.tags.len()
            invariant
                1 <= i,
                forall|a: int, b: int|
                    0 <= a < b < i && b < self.tags@.len() ==> self.tags@[a].created.not_before(
                        self.tags@[b].created,
                    ),
            decreases self.tags@.len() - i,
        {
            if self.tags[i].created.is_later_than(&self.tags[i - 1].created) {
                proof {
                    assert(!self.tags@[i - 1].created.not_before(self.tags@[i as int].created));
                }
                return false;
            }
            proof {
                assert forall|a: int, b: int| 0 <= a < b < i + 1 && b < self.tags@.len() implies self.tags@[a].created.not_before(
                    self.tags@[b].created,
                ) by {
                    if b == i && a < i - 1 {
                        assert(self.tags@[a].created.not_before(self.tags@[i - 1].created));
                    }
                }
            }
            i = i + 1;
        }
        true
    }

    /// A repository from its name and its tags as they were retrieved, in
    /// whatever order: the tags are put newest first.
    pub fn from_retrieved(name: String, tags: Vec<Tag>) -> (repository: Repository)
        ensures
            repository.name == name,
            is_newest_first_of(repository.tags@, tags@),
            repository.well_formed(),
    {
        Repository { name, tags: sort_newest_first(tags) }
    }
}

/// Every repository of the sequence is well formed.
pub open spec fn all_well_formed(repositories: Seq<Repository>) -> bool {
    forall|j: int| 0 <= j < repositories.len() ==> (#[trigger] repositories[j]).well_formed()
}

impl Endpoint {
    /// No repository key occurs twice, and every repository is well formed.
    pub open spec fn well_formed(&self) -> bool {
        &&& forall|i: int, j: int|
            0 <= i < j < self.repo_keys@.len() ==> self.repo_keys@[i].name@ != self.repo_keys@[j].name@
        &&& forall|i: int|
            0 <= i < self.repo_keys@.len() ==> all_well_formed(
                (#[trigger] self.repo_keys@[i]).repositories@,
            )
    }

    /// Whether `key` is one of the endpoint's repository keys.
    pub open spec fn has_key(&self, key: Seq<char>) -> bool {
        exists|i: int| 0 <= i < self.repo_keys@.len() && self.repo_keys@[i].name@ == key
    }

    /// The repositories known under each repository key.
    pub open spec fn repositories_by_key(&self) -> Map<Seq<char>, Seq<Repository>> {
        Map::new(
            |key: Seq<char>| self.has_key(key),
            |key: Seq<char>|
                self.repo_keys@[choose|i: int|
                    0 <= i < self.repo_keys@.len() && self.repo_keys@[i].name@
                        == key].repositories@,
        )
    }

    /// Whether no repository key occurs twice and every repository is well
    /// formed.
    pub fn is_well_formed(&self) -> (b: bool)
        ensures
            b == self.well_formed(),
    {
        let mut i: usize = 0;
        while i < self.repo_keys.len()
            invariant
                i <= self.repo_keys@.len(),
                forall|a: int, b: int|
                    0 <= a < i && a < b < self.repo_keys@.len() ==> self.repo_keys@[a].name@
                        != self.repo_keys@[b].name@,
                forall|a: int|
                    0 <= a < i ==> all_well_formed((#[trigger] self.repo_keys@[a]).repositories@),
            decreases self.repo_keys@.len() - i,
        {
            let key = &self.repo_keys[i];
            let mut j: usize = i + 1;
            while j < self.repo_keys.len()
                invariant
                    i < j <= self.repo_keys@.len(),
                    *key == self.repo_keys@[i as int],
                    forall|b: int| i < b < j ==> key.name@ != self.repo_keys@[b].name@,
                decreases self.repo_keys@.len() - j,
            {
                if key.name == self.repo_keys[j].name {
                    return false;
                }
                j = j + 1;
            }
            let mut r: usize = 0;
            while r < key.repositories.len()
                invariant
                    r <= key.repositories@.len(),
                    i < self.repo_keys@.len(),
                    *key == self.repo_keys@[i as int],
                    forall|c: int| 0 <= c < r ==> (#[trigger] key.repositories@[c]).well_formed(),
                decreases key.repositories@.len() - r,
            {
                if !key.repositories[r].is_well_formed() {
                    proof {
                        assert(!key.repositories@[r as int].well_formed());
                        assert(!all_well_formed(self.repo_keys@[i as int].repositories@));
                    }
                    return false;
                }
                r = r + 1;
            }
            i = i + 1;
        }
        true
    }

    /// An endpoint without repository keys.
    pub fn new(name: String, username: String, password: String) -> (endpoint: Endpoint)
        ensures
            endpoint.name == name,
            endpoint.username == username,
            endpoint.password == password,
            endpoint.repo_keys@.len() == 0,
            endpoint.well_formed(),
    {
        Endpoint { name, username, password, repo_keys: Vec::new() }
    }

    /// Where `key` stands among the repository keys, if it does.
    pub fn position_of(&self, key: &str) -> (position: Option<usize>)
        ensures
            match position {
                Some(i) => i < self.repo_keys@.len() && self.repo_keys@[i as int].name@ == key@,
                None => !self.has_key(key@),
            },
    {
        let mut i: usize = 0;
        while i < self.repo_keys.len()
            invariant
                i <= self.repo_keys@.len(),
                forall|j: int| 0 <= j < i ==> self.repo_keys@[j].name@ != key@,
            decreases self.repo_keys@.len() - i,
        {
            if self.repo_keys[i].name.as_str().to_owned() == key.to_owned() {
                return Some(i);
            }
            i = i + 1;
        }
        None
    }

    /// Records `repositories` under `key`, in place of what was recorded
    /// under it before. A new key goes behind the others; a known key keeps
    /// its place. Returns whether the key was new.
    pub fn record(&mut self, key: String, repositories: Vec<Repository>) -> (added: bool)
        requires
            old(self).well_formed(),
            all_well_formed(repositories@),
        ensures
            final(self).well_formed(),
            final(self).name == old(self).name,
            final(self).username == old(self).username,
            final(self).password == old(self).password,
            added == !old(self).has_key(key@),
            final(self).repositories_by_key() == old(self).repositories_by_key().insert(
                key@,
                repositories@,
            ),
            added ==> final(self).repo_keys@ == old(self).repo_keys@.push(
                RepoKey { name: key, repositories },
            ),
            !added ==> final(self).repo_keys@.len() == old(self).repo_keys@.len() && forall|i: int|
                0 <= i < old(self).repo_keys@.len() ==> (#[trigger] final(self).repo_keys@[i]).name@
                    == old(self).repo_keys@[i].name@ && (old(self).repo_keys@[i].name@ != key@
                    ==> final(self).repo_keys@[i] == old(self).repo_keys@[i]) && (old(
                    self,
                ).repo_keys@[i].name@ == key@ ==> final(self).repo_keys@[i].repositories
                    == repositories),
    {
        let ghost before = *self;
        let added = match self.position_of(key.as_str()) {
            Some(i) => {
                self.repo_keys.set(i, RepoKey { name: key, repositories });
                false
            },
            None => {
                self.repo_keys.push(RepoKey { name: key, repositories });
                true
            },
        };
        proof {
            let after = *self;
            assert forall|k: Seq<char>| after.has_key(k) <==> (k == key@ || before.has_key(k)) by {
                if after.has_key(k) {
                    let i = choose|i: int|
                        0 <= i < after.repo_keys@.len() && after.repo_keys@[i].name@ == k;
                    if k != key@ {
                        assert(before.repo_keys@[i].name@ == k);
                    }
                }
                if before.has_key(k) {
                    let i = choose|i: int|
                        0 <= i < before.repo_keys@.len() && before.repo_keys@[i].name@ == k;
                    assert(after.repo_keys@[i].name@ == k);
                }
                if k == key@ {
                    if added {
                        assert(after.repo_keys@[before.repo_keys@.len() as int].name@ == k);
                    } else {
                        let i = choose|i: int|
                            0 <= i < before.repo_keys@.len() && before.repo_keys@[i].name@ == k;
                        assert(after.repo_keys@[i].name@ == k);
                    }
                }
            }
            assert forall|k: Seq<char>| after.has_key(k) implies #[trigger] after.repositories_by_key()[k]
                == before.repositories_by_key().insert(key@, repositories@)[k] by {
                let i = choose|i: int|
                    0 <= i < after.repo_keys@.len() && after.repo_keys@[i].name@ == k;
                if k != key@ {
                    let j = choose|j: int|
                        0 <= j < before.repo_keys@.len() && before.repo_keys@[j].name@ == k;
                    assert(before.repo_keys@[i].name@ == k);
                    assert(i == j);
                }
            }
            assert(after.repositories_by_key() =~= before.repositories_by_key().insert(
                key@,
                repositories@,
            ));
        }
        added
    }
}

} // verus!
