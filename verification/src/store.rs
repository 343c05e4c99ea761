use vstd::prelude::*;

use crate::post::{BlogPost, PostView, same_content};

verus! {

/// The failures a store operation can produce.  `NotFound` is the only
/// failure the volatile store can raise; `StorageUnavailable` covers
/// connection or query failures of the durable variant.
#[derive(Clone, Copy, Debug, PartialEq, Eq, Structural)]
pub enum StoreError {
    NotFound,
    StorageUnavailable,
}

/// The ids of a sequence of records, in order.
pub open spec fn ids_of(s: Seq<PostView>) -> Seq<int> {
    s.map_values(|p: PostView| p.id)
}

/// No two records share an id.
pub open spec fn distinct_ids(s: Seq<PostView>) -> bool {
    forall|i: int, j: int| 0 <= i < j < s.len() ==> s[i].id != s[j].id
}

/// Every id is at least 1.
pub open spec fn positive_ids(s: Seq<PostView>) -> bool {
    forall|i: int| 0 <= i < s.len() ==> s[i].id >= 1
}

/// Some record carries this id.
pub open spec fn contains_id(s: Seq<PostView>, id: int) -> bool {
    exists|i: int| 0 <= i < s.len() && s[i].id == id
}

/// The largest id present, or 0 for an empty sequence.
pub open spec fn max_id(s: Seq<PostView>) -> int
    decreases s.len(),
{
    if s.len() == 0 {
        0
    } else {
        let m = max_id(s.drop_last());
        if s.last().id > m {
            s.last().id
        } else {
            m
        }
    }
}

/// The id the next successful `create` hands out: one past the largest
/// id present, and 1 on an empty store.
pub open spec fn next_id(s: Seq<PostView>) -> int {
    max_id(s) + 1
}

/// What one `create` call does to the store's contents: the candidate
/// joins at the end, carrying the freshly assigned id.
pub open spec fn apply_create(s: Seq<PostView>, c: PostView) -> Seq<PostView> {
    s.push(c.with_id(next_id(s)))
}

/// The contents after a serial run of `create` calls with the given
/// candidates.
pub open spec fn run_creates(s: Seq<PostView>, cs: Seq<PostView>) -> Seq<PostView>
    decreases cs.len(),
{
    if cs.len() == 0 {
        s
    } else {
        run_creates(apply_create(s, cs[0]), cs.skip(1))
    }
}

/// The ids assigned over a serial run of `create` calls, in call order.
pub open spec fn assigned_ids(s: Seq<PostView>, cs: Seq<PostView>) -> Seq<int>
    decreases cs.len(),
{
    if cs.len() == 0 {
        Seq::empty()
    } else {
        seq![next_id(s)] + assigned_ids(apply_create(s, cs[0]), cs.skip(1))
    }
}

/// `max_id` dominates every id present.
pub proof fn lemma_max_id_ge_all(s: Seq<PostView>)
    ensures
        max_id(s) >= 0,
        forall|i: int| 0 <= i < s.len() ==> s[i].id <= max_id(s),
    decreases s.len(),
{
    if s.len() > 0 {
        lemma_max_id_ge_all(s.drop_last());
        assert forall|i: int| 0 <= i < s.len() implies s[i].id <= max_id(s) by {
            if i < s.len() - 1 {
                assert(s.drop_last()[i] == s[i]);
            }
        }
    }
}

/// The id `create` hands out is fresh: no record already carries it.
pub proof fn lemma_next_id_fresh(s: Seq<PostView>)
    ensures
        !contains_id(s, next_id(s)),
        next_id(s) >= 1,
{
    lemma_max_id_ge_all(s);
}

/// Bridge between the two membership formulations.
pub proof fn lemma_contains_id_iff(s: Seq<PostView>, id: int)
    ensures
        contains_id(s, id) <==> ids_of(s).contains(id),
{
    if contains_id(s, id) {
        let i = choose|i: int| 0 <= i < s.len() && s[i].id == id;
        assert(ids_of(s)[i] == id);
    }
    if ids_of(s).contains(id) {
        let i = choose|i: int| 0 <= i < ids_of(s).len() && ids_of(s)[i] == id;
        assert(s[i].id == id);
    }
}

/// One `create` keeps ids distinct and appends exactly one id.
pub proof fn lemma_apply_create(s: Seq<PostView>, c: PostView)
    requires
        distinct_ids(s),
    ensures
        distinct_ids(apply_create(s, c)),
        ids_of(apply_create(s, c)) == ids_of(s).push(next_id(s)),
        apply_create(s, c).len() == s.len() + 1,
{
    lemma_next_id_fresh(s);
    let t = apply_create(s, c);
    assert forall|i: int, j: int| 0 <= i < j < t.len() implies t[i].id != t[j].id by {
        if j == s.len() {
            lemma_max_id_ge_all(s);
        }
    }
    assert(ids_of(t) =~= ids_of(s).push(next_id(s)));
}

/// Every serial run of `create` calls assigns pairwise distinct ids,
/// none of them already present at the start; the run grows the store
/// by exactly one record per call, the store's ids stay pairwise
/// distinct throughout, and the final ids are the starting ids followed
/// by the assigned ones.
pub proof fn lemma_creates_assign_distinct_ids(s: Seq<PostView>, cs: Seq<PostView>)
    requires
        distinct_ids(s),
    ensures
        run_creates(s, cs).len() == s.len() + cs.len(),
        distinct_ids(run_creates(s, cs)),
        ids_of(run_creates(s, cs)) == ids_of(s) + assigned_ids(s, cs),
        assigned_ids(s, cs).len() == cs.len(),
        forall|i: int, j: int| 0 <= i < j < cs.len()
            ==> assigned_ids(s, cs)[i] != assigned_ids(s, cs)[j],
        forall|k: int| 0 <= k < cs.len() ==> !ids_of(s).contains(assigned_ids(s, cs)[k]),
    decreases cs.len(),
{
    if cs.len() == 0 {
        assert(ids_of(run_creates(s, cs)) =~= ids_of(s) + assigned_ids(s, cs));
    } else {
        let id0 = next_id(s);
        let s1 = apply_create(s, cs[0]);
        lemma_apply_create(s, cs[0]);
        lemma_next_id_fresh(s);
        lemma_contains_id_iff(s, id0);
        lemma_creates_assign_distinct_ids(s1, cs.skip(1));
        let rest = assigned_ids(s1, cs.skip(1));
        assert(assigned_ids(s, cs) == seq![id0] + rest);
        assert(ids_of(s1) == ids_of(s).push(id0));
        assert(ids_of(run_creates(s, cs)) == ids_of(s1) + rest);
        assert(ids_of(s1) + rest =~= ids_of(s) + (seq![id0] + rest));
        // the later ids avoid id0, which sits inside ids_of(s1)
        assert forall|k: int| 0 <= k < rest.len() implies rest[k] != id0 by {
            assert(!ids_of(s1).contains(rest[k]));
            assert(ids_of(s1)[s.len() as int] == id0);
        }
        // the later ids also avoid everything in ids_of(s)
        assert forall|k: int| 0 <= k < rest.len() implies !ids_of(s).contains(rest[k]) by {
            assert(!ids_of(s1).contains(rest[k]));
            if ids_of(s).contains(rest[k]) {
                let i = choose|i: int| 0 <= i < ids_of(s).len() && ids_of(s)[i] == rest[k];
                assert(ids_of(s1)[i] == rest[k]);
            }
        }
        assert forall|i: int, j: int| 0 <= i < j < cs.len()
            implies assigned_ids(s, cs)[i] != assigned_ids(s, cs)[j] by {
            if i > 0 {
                assert(assigned_ids(s, cs)[i] == rest[i - 1]);
                assert(assigned_ids(s, cs)[j] == rest[j - 1]);
            } else {
                assert(assigned_ids(s, cs)[j] == rest[j - 1]);
            }
        }
    }
}

/// Reading back a freshly created record returns the submitted
/// candidate's content: any record of the post-`create` store that
/// carries the assigned id is the candidate, id aside.
pub proof fn lemma_get_after_create(s: Seq<PostView>, c: PostView, p: PostView)
    requires
        distinct_ids(s),
        exists|i: int| 0 <= i < apply_create(s, c).len() && apply_create(s, c)[i] == p,
        p.id == next_id(s),
    ensures
        same_content(p, c),
        p == c.with_id(next_id(s)),
{
    let t = apply_create(s, c);
    let i = choose|i: int| 0 <= i < t.len() && t[i] == p;
    if i < s.len() {
        lemma_max_id_ge_all(s);
        assert(s[i].id <= max_id(s));
        assert(false);
    }
}

/// An id that was neither present at the start nor assigned by any
/// `create` of a run is absent afterwards, so `get` on it fails with
/// `NotFound`.
pub proof fn lemma_unknown_id_stays_absent(s: Seq<PostView>, cs: Seq<PostView>, id: int)
    requires
        distinct_ids(s),
        !ids_of(s).contains(id),
        !assigned_ids(s, cs).contains(id),
    ensures
        !contains_id(run_creates(s, cs), id),
{
    lemma_creates_assign_distinct_ids(s, cs);
    lemma_contains_id_iff(run_creates(s, cs), id);
    if ids_of(run_creates(s, cs)).contains(id) {
        let i = choose|i: int| 0 <= i < ids_of(run_creates(s, cs)).len()
            && ids_of(run_creates(s, cs))[i] == id;
        if i < s.len() {
            assert(ids_of(s)[i] == id);
        } else {
            assert(assigned_ids(s, cs)[i - s.len()] == id);
        }
    }
}

/// The record views held by a vector of posts, in order.
pub open spec fn views_of(s: Seq<BlogPost>) -> Seq<PostView> {
    s.map_values(|p: BlogPost| p@)
}

/// The in-memory store: an ordered collection of records.  Ids are
/// pairwise distinct and at least 1 at all times.  The caller is
/// expected to guard a shared instance with one exclusive lock, so each
/// operation here sees and leaves a consistent snapshot.
pub struct VolatileStore {
    posts: Vec<BlogPost>,
}

impl View for VolatileStore {
    type V = Seq<PostView>;

    closed spec fn view(&self) -> Seq<PostView> {
        views_of(self.posts@)
    }
}

/// Relies on `chrono::Utc::now` and `chrono::DateTime::to_rfc3339`: the
/// moment of the call rendered as text, never empty.
#[verifier::external_body]
fn now_text() -> (r: String)
    ensures
        r@.len() > 0,
{
    chrono::Utc::now().to_rfc3339()
}

impl VolatileStore {
    #[verifier::type_invariant]
    spec fn wf(self) -> bool {
        distinct_ids(self@) && positive_ids(self@)
    }

    /// Make the allocation invariant available to callers: ids are
    /// pairwise distinct and at least 1 in every reachable store.
    pub fn note_invariant(&self)
        ensures
            distinct_ids(self@),
            positive_ids(self@),
    {
        proof {
            use_type_invariant(&*self);
        }
    }

    /// An empty store.
    pub fn new() -> (s: Self)
        ensures
            s@ == Seq::<PostView>::empty(),
    {
        let s = VolatileStore { posts: Vec::new() };
        proof {
            assert(s@ =~= Seq::<PostView>::empty());
        }
        s
    }

    /// The store as a fresh process starts it: two fixture records with
    /// ids 1 and 2, dated at the moment of the call.
    pub fn new_seeded() -> (s: Self)
        ensures
            s@.len() == 2,
            s@[0].id == 1,
            s@[1].id == 2,
            s@[0].title == "A Tale of Two Cities"@,
            s@[0].body == "It was the best of times, it was the worst of times."@,
            s@[0].author == "Dickens"@,
            s@[1].title == "Moby Dick"@,
            s@[1].body == "Call me Ishmael."@,
            s@[1].author == "Melville"@,
            s@[0].date.len() > 0,
            s@[1].date.len() > 0,
    {
        let first = BlogPost {
            id: 1,
            date: now_text(),
            title: "A Tale of Two Cities".to_owned(),
            body: "It was the best of times, it was the worst of times.".to_owned(),
            author: "Dickens".to_owned(),
        };
        let second = BlogPost {
            id: 2,
            date: now_text(),
            title: "Moby Dick".to_owned(),
            body: "Call me Ishmael.".to_owned(),
            author: "Melville".to_owned(),
        };
        let mut posts: Vec<BlogPost> = Vec::new();
        posts.push(first);
        posts.push(second);
        let s = VolatileStore { posts };
        s
    }

    /// Every record currently held, in insertion order.
    pub fn list(&self) -> (r: &Vec<BlogPost>)
        ensures
            views_of(r@) == self@,
    {
        &self.posts
    }

    /// How many records are held.
    pub fn len(&self) -> (n: usize)
        ensures
            n == self@.len(),
    {
        self.posts.len()
    }

    /// The unique record with this id, or `NotFound`.  At most one
    /// record can match, by the id-distinctness invariant.
    pub fn get(&self, id: i32) -> (r: Result<&BlogPost, StoreError>)
        ensures
            r is Ok <==> contains_id(self@, id as int),
            r matches Ok(p) ==> (exists|i: int| 0 <= i < self@.len() && self@[i] == p@)
                && p@.id == id as int,
            r matches Err(e) ==> e == StoreError::NotFound,
    {
        let n = self.posts.len();
        let mut i: usize = 0;
        while i < n
            invariant
                n == self@.len(),
                i <= n,
                forall|k: int| 0 <= k < i ==> self@[k].id != id as int,
            decreases n - i,
        {
            if self.posts[i].id == id {
                proof {
                    assert(self@[i as int] == self.posts@[i as int]@);
                }
                return Ok(&self.posts[i]);
            }
            proof {
                assert(self@[i as int] == self.posts@[i as int]@);
            }
            i += 1;
        }
        Err(StoreError::NotFound)
    }

    /// Whether the next id still fits the id type: the one machine
    /// limit `create` imposes.  Callers test this before creating.
    pub fn can_allocate(&self) -> (b: bool)
        ensures
            b == (max_id(self@) < i32::MAX),
    {
        self.max_present_id() < i32::MAX
    }

    /// The largest id held, or 0 when empty.
    fn max_present_id(&self) -> (m: i32)
        ensures
            m as int == max_id(self@),
    {
        let n = self.posts.len();
        let mut m: i32 = 0;
        let mut i: usize = 0;
        proof {
            use_type_invariant(&*self);
            assert(self@.take(0) =~= Seq::<PostView>::empty());
        }
        while i < n
            invariant
                n == self@.len(),
                i <= n,
                m as int == max_id(self@.take(i as int)),
                positive_ids(self@),
            decreases n - i,
        {
            proof {
                assert(self@.take(i + 1).drop_last() =~= self@.take(i as int));
                assert(self@.take(i + 1).last() == self@[i as int]);
            }
            if self.posts[i].id > m {
                m = self.posts[i].id;
            }
            i += 1;
        }
        proof {
            assert(self@.take(n as int) =~= self@);
        }
        m
    }

    /// Insert the candidate under a freshly assigned id — one past the
    /// largest id present, 1 on an empty store — and return that id.
    /// The assigned id names no existing record, so ids stay pairwise
    /// distinct across any serial sequence of `create` calls.
    pub fn create(&mut self, candidate: BlogPost) -> (id: i32)
        requires
            max_id(old(self)@) < i32::MAX,
        ensures
            final(self)@ == apply_create(old(self)@, candidate@),
            id as int == next_id(old(self)@),
            !contains_id(old(self)@, id as int),
    {
        proof {
            use_type_invariant(&*self);
            lemma_next_id_fresh(self@);
            lemma_apply_create(self@, candidate@);
        }
        let new_id = self.max_present_id() + 1;
        let mut post = candidate;
        post.id = new_id;
        let ghost prev = self@;
        let mut posts: Vec<BlogPost> = Vec::new();
        std::mem::swap(&mut posts, &mut self.posts);
        posts.push(post);
        proof {
            assert(views_of(posts@) =~= apply_create(prev, candidate@));
        }
        self.posts = posts;
        new_id
    }
}

} // verus!
