use vstd::prelude::*;

use crate::codec::{dec_rep, encode_post, encode_posts, push_decimal, wire_list, wire_no_id,
    wire_with_id};
use crate::decode::decode_post;
use crate::post::{BlogPost, PostView};
use crate::store::{apply_create, contains_id, max_id, next_id, views_of, StoreError,
    VolatileStore};

verus! {

/// A finished HTTP response: status code and body text.  The runtime
/// shell sends it verbatim.
pub struct HttpReply {
    pub status: u16,
    pub body: String,
}

/// `GET /`: the static greeting.
pub fn reply_root() -> (r: HttpReply)
    ensures
        r.status == 200,
        r.body@ == "Hello, world!"@,
{
    HttpReply { status: 200, body: "Hello, world!".to_owned() }
}

/// `GET /blog/all` against the volatile store: every record, encoded,
/// in insertion order.
pub fn reply_all(store: &VolatileStore) -> (r: HttpReply)
    ensures
        r.status == 200,
        r.body@ == wire_list(store@),
{
    store.note_invariant();
    let posts = store.list();
    proof {
        assert forall|i: int| 0 <= i < posts@.len() implies posts@[i].id >= 0 by {
            assert(views_of(posts@)[i] == posts@[i]@);
        }
    }
    HttpReply { status: 200, body: encode_posts(posts) }
}

/// `GET /blog/{id}` against the volatile store: the unique record with
/// that id, or a not-found response.
pub fn reply_get(store: &VolatileStore, id: i32) -> (r: HttpReply)
    ensures
        contains_id(store@, id as int) ==> r.status == 200 && (exists|i: int|
            0 <= i < store@.len() && store@[i].id == id as int && r.body@ == wire_with_id(
                store@[i],
                id as int,
            )),
        !contains_id(store@, id as int) ==> r.status == 404,
{
    store.note_invariant();
    match store.get(id) {
        Ok(p) => {
            proof {
                let i = choose|i: int| 0 <= i < store@.len() && store@[i] == p@;
                assert(store@[i].id >= 1);
            }
            HttpReply { status: 200, body: encode_post(p) }
        },
        Err(_) => HttpReply { status: 404, body: "not found".to_owned() },
    }
}

/// `POST /blog/new` against the volatile store: decode the candidate,
/// insert it under a fresh id, and answer with that id; a body that
/// decodes to no record is refused without touching the store.
pub fn handle_new(store: &mut VolatileStore, body: &str) -> (r: HttpReply)
    requires
        max_id(old(store)@) < i32::MAX,
    ensures
        r.status == 200 || r.status == 400,
        r.status == 400 ==> final(store)@ == old(store)@,
        r.status == 200 ==> r.body@ == dec_rep(next_id(old(store)@)),
        forall|w: PostView, n1: int|
            0 <= n1 && body@ == wire_with_id(w, n1) ==> r.status == 200 && final(store)@
                == apply_create(old(store)@, w),
        forall|w: PostView|
            body@ == wire_no_id(w) ==> r.status == 200 && final(store)@ == apply_create(
                old(store)@,
                w,
            ),
        r.status == 400 ==> !(exists|w: PostView, n1: int|
            0 <= n1 && body@ == wire_with_id(w, n1)) && !(exists|w: PostView|
            body@ == wire_no_id(w)),
{
    let ghost pre = store@;
    match decode_post(body) {
        Ok(p) => {
            let ghost pv = p@;
            let id = store.create(p);
            proof {
                crate::store::lemma_max_id_ge_all(pre);
                assert forall|w: PostView, n1: int|
                    0 <= n1 && body@ == wire_with_id(w, n1) implies final(store)@
                    == apply_create(pre, w) by {
                    assert(pv.with_id(next_id(pre)) == w.with_id(next_id(pre)));
                }
                assert forall|w: PostView| body@ == wire_no_id(w) implies final(store)@
                    == apply_create(pre, w) by {
                    assert(pv.with_id(next_id(pre)) == w.with_id(next_id(pre)));
                }
            }
            let mut out = String::new();
            push_decimal(&mut out, id as u32);
            HttpReply { status: 200, body: out }
        },
        Err(_) => HttpReply { status: 400, body: "bad request".to_owned() },
    }
}

/// Translate a durable-store lookup into a response: the record when it
/// was found, not-found when the query matched no row, a server error
/// when storage was unreachable.
pub fn reply_stored_get(r: Result<BlogPost, StoreError>) -> (h: HttpReply)
    requires
        r matches Ok(p) ==> p.id >= 0,
    ensures
        r matches Ok(p) ==> h.status == 200 && h.body@ == wire_with_id(p@, p@.id),
        r == Err::<BlogPost, StoreError>(StoreError::NotFound) ==> h.status == 404,
        r == Err::<BlogPost, StoreError>(StoreError::StorageUnavailable) ==> h.status == 500,
{
    match r {
        Ok(p) => HttpReply { status: 200, body: encode_post(&p) },
        Err(StoreError::NotFound) => HttpReply { status: 404, body: "not found".to_owned() },
        Err(StoreError::StorageUnavailable) => HttpReply {
            status: 500,
            body: "storage unavailable".to_owned(),
        },
    }
}

/// Translate a durable-store listing into a response.
pub fn reply_stored_list(r: Result<Vec<BlogPost>, StoreError>) -> (h: HttpReply)
    requires
        r matches Ok(ps) ==> forall|i: int| 0 <= i < ps@.len() ==> ps@[i].id >= 0,
    ensures
        r matches Ok(ps) ==> h.status == 200 && h.body@ == wire_list(views_of(ps@)),
        r is Err ==> h.status == 500,
{
    match r {
        Ok(ps) => HttpReply { status: 200, body: encode_posts(&ps) },
        Err(_) => HttpReply { status: 500, body: "storage unavailable".to_owned() },
    }
}

/// Translate a durable-store insertion into a response carrying the
/// engine-assigned id.
pub fn reply_created(r: Result<i32, StoreError>) -> (h: HttpReply)
    requires
        r matches Ok(id) ==> id >= 0,
    ensures
        r matches Ok(id) ==> h.status == 200 && h.body@ == dec_rep(id as int),
        r is Err ==> h.status == 500,
{
    match r {
        Ok(id) => {
            let mut out = String::new();
            push_decimal(&mut out, id as u32);
            HttpReply { status: 200, body: out }
        },
        Err(_) => HttpReply { status: 500, body: "storage unavailable".to_owned() },
    }
}

} // verus!
