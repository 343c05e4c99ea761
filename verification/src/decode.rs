use vstd::prelude::*;

use crate::codec::{
    all_digits, dec_rep, dec_val, digit_val, esc, esc_char, is_digit, quoted, wire_digits, wire_fields,
    wire_no_id, wire_with_id, lemma_dec_rep_digits, lemma_dec_val_bounds, lemma_dec_val_of_rep,
    lemma_esc_push, lemma_esc_append,
};
use crate::post::{BlogPost, PostView, same_content};
use crate::strutil::{push_char, str_to_chars};

verus! {

/// An inbound body that does not hold a well-formed record.
#[derive(Clone, Copy, Debug, PartialEq, Eq, Structural)]
pub enum DecodeError {
    Malformed,
}

/// `p` occupies `v` from `pos` on.
pub open spec fn prefix_at(v: Seq<char>, pos: int, p: Seq<char>) -> bool {
    &&& 0 <= pos
    &&& pos + p.len() <= v.len()
    &&& v.subrange(pos, pos + p.len()) == p
}

/// A prefix of a prefix, further along, is still a prefix.
proof fn lemma_prefix_slice(v: Seq<char>, pos: int, whole: Seq<char>, off: int, part: Seq<char>)
    requires
        prefix_at(v, pos, whole),
        0 <= off,
        off + part.len() <= whole.len(),
        whole.subrange(off, off + part.len()) == part,
    ensures
        prefix_at(v, pos + off, part),
{
    assert forall|i: int| 0 <= i < part.len() implies v[pos + off + i] == part[i] by {
        assert(v.subrange(pos, pos + whole.len())[off + i] == v[pos + off + i]);
        assert(whole.subrange(off, off + part.len())[i] == whole[off + i]);
    }
    assert(v.subrange(pos + off, pos + off + part.len()) =~= part);
}

/// Does the literal sit at `pos`?
fn match_lit(v: &Vec<char>, pos: usize, lit: &str) -> (b: bool)
    requires
        pos <= v@.len(),
    ensures
        b == prefix_at(v@, pos as int, lit@),
{
    let lc = str_to_chars(lit);
    let n = lc.len();
    let total = v.len();
    if n > total - pos {
        return false;
    }
    let mut i: usize = 0;
    while i < n
        invariant
            lc@ == lit@,
            n == lit@.len(),
            total == v@.len(),
            pos + n <= total,
            i <= n,
            forall|k: int| 0 <= k < i ==> v@[pos + k] == lit@[k],
        decreases n - i,
    {
        if v[pos + i] != lc[i] {
            proof {
                if prefix_at(v@, pos as int, lit@) {
                    assert(v@.subrange(pos as int, pos + n)[i as int] == v@[pos + i]);
                }
            }
            return false;
        }
        i += 1;
    }
    proof {
        assert(v@.subrange(pos as int, pos + n) =~= lit@);
    }
    true
}

/// What the text of a quoted field looks like from position `pos` of
/// `v`, after `k` of its characters have been matched: where the next
/// escape group starts and what it holds, and where the closing quote
/// stands.
proof fn lemma_quoted_at(v: Seq<char>, pos: int, e: Seq<char>, k: int)
    requires
        prefix_at(v, pos, quoted(e)),
        0 <= k <= e.len(),
    ensures
        esc(e.take(k)).len() + esc(e.skip(k)).len() == esc(e).len(),
        pos + 1 + esc(e).len() < v.len(),
        v[pos] == '"',
        k == e.len() ==> v[pos + 1 + esc(e).len()] == '"',
        k < e.len() && (e[k] == '"' || e[k] == '\\') ==> {
            &&& v[pos + 1 + esc(e.take(k)).len()] == '\\'
            &&& pos + 2 + esc(e.take(k)).len() < v.len()
            &&& v[pos + 2 + esc(e.take(k)).len()] == e[k]
            &&& esc(e.take(k)).len() + 2 <= esc(e).len()
        },
        k < e.len() && !(e[k] == '"' || e[k] == '\\') ==> {
            &&& v[pos + 1 + esc(e.take(k)).len()] == e[k]
            &&& esc(e.take(k)).len() + 1 <= esc(e).len()
        },
{
    assert(e.take(k) + e.skip(k) =~= e);
    lemma_esc_append(e.take(k), e.skip(k));
    let q = quoted(e);
    assert(q.len() == esc(e).len() + 2);
    assert forall|j: int| 0 <= j < q.len() implies v[pos + j] == q[j] by {
        assert(v.subrange(pos, pos + q.len())[j] == v[pos + j]);
    }
    assert(q[0] == '"');
    assert(q[1 + esc(e).len() as int] == '"');
    if k < e.len() {
        let off = esc(e.take(k)).len() as int;
        assert(e.skip(k)[0] == e[k]);
        assert(esc(e.skip(k)) == esc_char(e[k]) + esc(e.skip(k).skip(1)));
        assert(esc(e)[off] == esc_char(e[k])[0]);
        assert(q[1 + off] == esc(e)[off]);
        if e[k] == '"' || e[k] == '\\' {
            assert(esc_char(e[k])[0] == '\\');
            assert(esc(e)[off + 1] == esc_char(e[k])[1]);
            assert(q[1 + off + 1] == esc(e)[off + 1]);
        }
    }
}

/// Parse a quoted field starting at `pos`.  When the caller knows a
/// quoted field sits there (the ghost expectation), the parse succeeds
/// and returns exactly that text.
fn parse_quoted(v: &Vec<char>, pos: usize, expect: Ghost<Option<Seq<char>>>) -> (r: Option<
    (String, usize),
>)
    requires
        pos <= v@.len(),
        expect@ matches Some(e) ==> prefix_at(v@, pos as int, quoted(e)),
    ensures
        r matches Some(p) ==> pos < p.1 <= v@.len() && v@.subrange(pos as int, p.1 as int)
            == quoted(p.0@),
        expect@ matches Some(e) ==> r matches Some(p) && p.0@ == e && p.1 == pos + quoted(
            e,
        ).len(),
{
    let n = v.len();
    if pos >= n || v[pos] != '"' {
        proof {
            if let Some(e) = expect@ {
                lemma_quoted_at(v@, pos as int, e, 0);
            }
        }
        return None;
    }
    let mut out = String::new();
    let mut i: usize = pos + 1;
    let ghost mut k: int = 0int;
    proof {
        assert(esc(out@) =~= Seq::<char>::empty());
        assert(v@.subrange(pos + 1, pos + 1) =~= esc(out@));
        if let Some(e) = expect@ {
            assert(e.take(0) =~= Seq::<char>::empty());
            assert(esc(e.take(0)) =~= Seq::<char>::empty());
        }
    }
    while i < n
        invariant
            n == v@.len(),
            pos + 1 <= i <= n,
            v@[pos as int] == '"',
            v@.subrange(pos + 1, i as int) == esc(out@),
            expect@ matches Some(e) ==> {
                &&& prefix_at(v@, pos as int, quoted(e))
                &&& 0 <= k <= e.len()
                &&& out@ == e.take(k)
                &&& i == pos + 1 + esc(e.take(k)).len()
            },
        decreases n - i,
    {
        let c = v[i];
        if c == '"' {
            proof {
                if let Some(e) = expect@ {
                    lemma_quoted_at(v@, pos as int, e, k);
                    if k < e.len() {
                        assert(false);
                    }
                    assert(e.take(k) =~= e);
                }
                assert(v@.subrange(pos as int, i + 1) =~= seq!['"'] + esc(out@) + seq!['"']);
            }
            return Some((out, i + 1));
        } else if c == '\\' {
            proof {
                if let Some(e) = expect@ {
                    lemma_quoted_at(v@, pos as int, e, k);
                    if k == e.len() {
                        assert(false);
                    }
                    if !(e[k] == '"' || e[k] == '\\') {
                        assert(false);
                    }
                }
            }
            if i + 1 >= n {
                return None;
            }
            let d = v[i + 1];
            if d == '"' || d == '\\' {
                let ghost mid = out@;
                push_char(&mut out, d);
                proof {
                    lemma_esc_push(mid, d);
                    assert(mid.push(d) == out@);
                    assert(v@.subrange(pos + 1, i + 2) =~= v@.subrange(pos + 1, i as int)
                        + seq![v@[i as int], v@[i + 1]]);
                    assert(esc(mid) + esc_char(d) =~= esc(mid) + seq!['\\', d]);
                    if let Some(e) = expect@ {
                        assert(d == e[k]);
                        assert(e.take(k).push(e[k]) =~= e.take(k + 1));
                        k = k + 1;
                    }
                }
                i += 2;
            } else {
                return None;
            }
        } else {
            let ghost mid = out@;
            push_char(&mut out, c);
            proof {
                lemma_esc_push(mid, c);
                assert(mid.push(c) == out@);
                assert(v@.subrange(pos + 1, i + 1) =~= v@.subrange(pos + 1, i as int)
                    + seq![v@[i as int]]);
                assert(esc(mid) + esc_char(c) =~= esc(mid) + seq![c]);
                if let Some(e) = expect@ {
                    lemma_quoted_at(v@, pos as int, e, k);
                    if k == e.len() {
                        assert(false);
                    }
                    if e[k] == '"' || e[k] == '\\' {
                        assert(false);
                    }
                    assert(c == e[k]);
                    assert(e.take(k).push(e[k]) =~= e.take(k + 1));
                    k = k + 1;
                }
            }
            i += 1;
        }
    }
    proof {
        if let Some(e) = expect@ {
            lemma_quoted_at(v@, pos as int, e, k);
            assert(false);
        }
    }
    None
}

/// A quoted field determines itself and what follows it: the escaped
/// text up to the first unescaped quote is unambiguous.
proof fn lemma_esc_terminated(a: Seq<char>, x: Seq<char>, b: Seq<char>, y: Seq<char>)
    requires
        esc(a) + seq!['"'] + x == esc(b) + seq!['"'] + y,
    ensures
        a == b,
        x == y,
    decreases a.len(),
{
    let l = esc(a) + seq!['"'] + x;
    let r = esc(b) + seq!['"'] + y;
    if a.len() == 0 {
        assert(esc(a).len() == 0);
        assert(l[0] == '"');
        if b.len() > 0 {
            assert(esc(b) == esc_char(b[0]) + esc(b.skip(1)));
            assert(r[0] == esc_char(b[0])[0]);
            assert(false);
        }
        assert(a =~= b);
        assert(x =~= y) by {
            assert(l.len() == r.len());
            assert forall|i: int| 0 <= i < x.len() implies x[i] == y[i] by {
                assert(l[1 + i] == x[i]);
                assert(r[1 + i] == y[i]);
            }
        }
    } else {
        assert(esc(a) == esc_char(a[0]) + esc(a.skip(1)));
        assert(l[0] == esc_char(a[0])[0]);
        if b.len() == 0 {
            assert(esc(b).len() == 0);
            assert(r[0] == '"');
            assert(false);
        }
        assert(esc(b) == esc_char(b[0]) + esc(b.skip(1)));
        assert(r[0] == esc_char(b[0])[0]);
        let ca = a[0];
        let cb = b[0];
        if ca == '"' || ca == '\\' {
            assert(l[0] == '\\');
            if !(cb == '"' || cb == '\\') {
                assert(r[0] == cb);
                assert(false);
            }
            assert(l[1] == esc_char(ca)[1]);
            assert(r[1] == esc_char(cb)[1]);
            assert(ca == cb);
            assert(l.skip(2) =~= esc(a.skip(1)) + seq!['"'] + x);
            assert(r.skip(2) =~= esc(b.skip(1)) + seq!['"'] + y);
            lemma_esc_terminated(a.skip(1), x, b.skip(1), y);
            assert(a.len() == b.len());
            assert forall|i: int| 0 <= i < a.len() implies a[i] == b[i] by {
                if i > 0 {
                    assert(a.skip(1)[i - 1] == a[i]);
                    assert(b.skip(1)[i - 1] == b[i]);
                }
            }
            assert(a =~= b);
        } else {
            if cb == '"' || cb == '\\' {
                assert(r[0] == '\\');
                assert(l[0] == ca);
                assert(false);
            }
            assert(l[0] == ca);
            assert(r[0] == cb);
            assert(ca == cb);
            assert(l.skip(1) =~= esc(a.skip(1)) + seq!['"'] + x);
            assert(r.skip(1) =~= esc(b.skip(1)) + seq!['"'] + y);
            lemma_esc_terminated(a.skip(1), x, b.skip(1), y);
            assert(a.len() == b.len());
            assert forall|i: int| 0 <= i < a.len() implies a[i] == b[i] by {
                if i > 0 {
                    assert(a.skip(1)[i - 1] == a[i]);
                    assert(b.skip(1)[i - 1] == b[i]);
                }
            }
            assert(a =~= b);
        }
    }
}

/// Where each piece of the field block sits, relative to its start.
proof fn lemma_fields_layout(v: Seq<char>, pos: int, e: PostView)
    requires
        prefix_at(v, pos, wire_fields(e)),
    ensures
        wire_fields(e).len() == 34 + quoted(e.date).len() + quoted(e.title).len() + quoted(
            e.body,
        ).len() + quoted(e.author).len(),
        prefix_at(v, pos, "\"date\":"@),
        prefix_at(v, pos + 7, quoted(e.date)),
        prefix_at(v, pos + 7 + quoted(e.date).len() as int, ",\"title\":"@),
        prefix_at(v, pos + 16 + quoted(e.date).len() as int, quoted(e.title)),
        prefix_at(
            v,
            pos + 16 + quoted(e.date).len() as int + quoted(e.title).len() as int,
            ",\"body\":"@,
        ),
        prefix_at(
            v,
            pos + 24 + quoted(e.date).len() as int + quoted(e.title).len() as int,
            quoted(e.body),
        ),
        prefix_at(
            v,
            pos + 24 + quoted(e.date).len() as int + quoted(e.title).len() as int + quoted(e.body).len() as int,
            ",\"author\":"@,
        ),
        prefix_at(
            v,
            pos + 34 + quoted(e.date).len() as int + quoted(e.title).len() as int + quoted(e.body).len() as int,
            quoted(e.author),
        ),
{
    reveal_strlit("\"date\":");
    reveal_strlit(",\"title\":");
    reveal_strlit(",\"body\":");
    reveal_strlit(",\"author\":");
    let w = wire_fields(e);
    let qd = quoted(e.date).len() as int;
    let qt = quoted(e.title).len() as int;
    let qb = quoted(e.body).len() as int;
    let qa = quoted(e.author).len() as int;
    assert(w.subrange(0, 7) =~= "\"date\":"@);
    lemma_prefix_slice(v, pos, w, 0, "\"date\":"@);
    assert(w.subrange(7, 7 + qd) =~= quoted(e.date));
    lemma_prefix_slice(v, pos, w, 7, quoted(e.date));
    assert(w.subrange(7 + qd, 16 + qd) =~= ",\"title\":"@);
    lemma_prefix_slice(v, pos, w, 7 + qd, ",\"title\":"@);
    assert(w.subrange(16 + qd, 16 + qd + qt) =~= quoted(e.title));
    lemma_prefix_slice(v, pos, w, 16 + qd, quoted(e.title));
    assert(w.subrange(16 + qd + qt, 24 + qd + qt) =~= ",\"body\":"@);
    lemma_prefix_slice(v, pos, w, 16 + qd + qt, ",\"body\":"@);
    assert(w.subrange(24 + qd + qt, 24 + qd + qt + qb) =~= quoted(e.body));
    lemma_prefix_slice(v, pos, w, 24 + qd + qt, quoted(e.body));
    assert(w.subrange(24 + qd + qt + qb, 34 + qd + qt + qb) =~= ",\"author\":"@);
    lemma_prefix_slice(v, pos, w, 24 + qd + qt + qb, ",\"author\":"@);
    assert(w.subrange(34 + qd + qt + qb, 34 + qd + qt + qb + qa) =~= quoted(e.author));
    lemma_prefix_slice(v, pos, w, 34 + qd + qt + qb, quoted(e.author));
}

/// The field block determines the four fields.
#[verifier::rlimit(100)]
proof fn lemma_wire_fields_injective(e1: PostView, e2: PostView)
    requires
        wire_fields(e1) == wire_fields(e2),
    ensures
        same_content(e1, e2),
{
    reveal_strlit("\"date\":");
    reveal_strlit(",\"title\":");
    reveal_strlit(",\"body\":");
    reveal_strlit(",\"author\":");
    let t1 = ",\"title\":"@ + quoted(e1.title) + ",\"body\":"@ + quoted(e1.body)
        + ",\"author\":"@ + quoted(e1.author);
    let t2 = ",\"title\":"@ + quoted(e2.title) + ",\"body\":"@ + quoted(e2.body)
        + ",\"author\":"@ + quoted(e2.author);
    assert(wire_fields(e1).skip(8) =~= esc(e1.date) + seq!['"'] + t1);
    assert(wire_fields(e2).skip(8) =~= esc(e2.date) + seq!['"'] + t2);
    lemma_esc_terminated(e1.date, t1, e2.date, t2);
    let u1 = ",\"body\":"@ + quoted(e1.body) + ",\"author\":"@ + quoted(e1.author);
    let u2 = ",\"body\":"@ + quoted(e2.body) + ",\"author\":"@ + quoted(e2.author);
    assert(t1.skip(10) =~= esc(e1.title) + seq!['"'] + u1);
    assert(t2.skip(10) =~= esc(e2.title) + seq!['"'] + u2);
    lemma_esc_terminated(e1.title, u1, e2.title, u2);
    let w1 = ",\"author\":"@ + quoted(e1.author);
    let w2 = ",\"author\":"@ + quoted(e2.author);
    assert(u1.skip(9) =~= esc(e1.body) + seq!['"'] + w1);
    assert(u2.skip(9) =~= esc(e2.body) + seq!['"'] + w2);
    lemma_esc_terminated(e1.body, w1, e2.body, w2);
    assert(w1.skip(11) =~= esc(e1.author) + seq!['"'] + Seq::<char>::empty());
    assert(w2.skip(11) =~= esc(e2.author) + seq!['"'] + Seq::<char>::empty());
    lemma_esc_terminated(e1.author, Seq::empty(), e2.author, Seq::empty());
}

/// Where each piece of an id-bearing object sits.
proof fn lemma_digits_layout(t: Seq<char>, e: PostView, ds: Seq<char>)
    requires
        t == wire_digits(e, ds),
    ensures
        t.len() == 8 + ds.len() + wire_fields(e).len(),
        prefix_at(t, 0, "{\"id\":"@),
        prefix_at(t, 6, ds),
        t[6 + ds.len() as int] == ',',
        prefix_at(t, 7 + ds.len() as int, wire_fields(e)),
        t[t.len() - 1] == '}',
        "{\"id\":"@.len() == 6,
{
    reveal_strlit("{\"id\":");
    reveal_strlit(",");
    reveal_strlit("}");
    let dl = ds.len() as int;
    let wl = wire_fields(e).len() as int;
    assert(t.subrange(0, t.len() as int) =~= t);
    assert(prefix_at(t, 0, t));
    assert(t.subrange(0, 6) =~= "{\"id\":"@);
    lemma_prefix_slice(t, 0, t, 0, "{\"id\":"@);
    assert(t.subrange(6, 6 + dl) =~= ds);
    lemma_prefix_slice(t, 0, t, 6, ds);
    assert(t[6 + dl] == ","@[0]);
    assert(t.subrange(7 + dl, 7 + dl + wl) =~= wire_fields(e));
    lemma_prefix_slice(t, 0, t, 7 + dl, wire_fields(e));
    assert(t[t.len() - 1] == "}"@[0]);
}

/// Where each piece of an id-less object sits.
proof fn lemma_no_id_layout(t: Seq<char>, e: PostView)
    requires
        t == wire_no_id(e),
    ensures
        t.len() == 2 + wire_fields(e).len(),
        t[0] == '{',
        prefix_at(t, 1, wire_fields(e)),
        t[t.len() - 1] == '}',
        t[2] == 'd',
{
    reveal_strlit("{");
    reveal_strlit("}");
    reveal_strlit("\"date\":");
    let wl = wire_fields(e).len() as int;
    assert(t.subrange(0, t.len() as int) =~= t);
    assert(prefix_at(t, 0, t));
    assert(t[0] == "{"@[0]);
    assert(t.subrange(1, 1 + wl) =~= wire_fields(e));
    lemma_prefix_slice(t, 0, t, 1, wire_fields(e));
    assert(t[t.len() - 1] == "}"@[0]);
    assert(wire_fields(e)[1] == "\"date\":"@[1]);
    assert(t[2] == wire_fields(e)[1]);
}

/// An id-bearing object determines its fields and its digit text.
#[verifier::rlimit(100)]
proof fn lemma_wire_digits_injective(e1: PostView, ds1: Seq<char>, e2: PostView, ds2: Seq<char>)
    requires
        ds1.len() > 0,
        all_digits(ds1),
        ds2.len() > 0,
        all_digits(ds2),
        wire_digits(e1, ds1) == wire_digits(e2, ds2),
    ensures
        same_content(e1, e2),
        ds1 == ds2,
{
    let t = wire_digits(e1, ds1);
    lemma_digits_layout(t, e1, ds1);
    lemma_digits_layout(t, e2, ds2);
    let l1 = ds1.len() as int;
    let l2 = ds2.len() as int;
    assert(',' as u32 == 44);
    if l1 < l2 {
        assert(t[6 + l1] == ',');
        assert(t.subrange(6, 6 + l2)[l1] == t[6 + l1]);
        assert(is_digit(ds2[l1]));
        assert(false);
    }
    if l2 < l1 {
        assert(t[6 + l2] == ',');
        assert(t.subrange(6, 6 + l1)[l2] == t[6 + l2]);
        assert(is_digit(ds1[l2]));
        assert(false);
    }
    assert(ds1 =~= ds2) by {
        assert forall|i: int| 0 <= i < l1 implies ds1[i] == ds2[i] by {
            assert(t.subrange(6, 6 + l1)[i] == t[6 + i]);
            assert(t.subrange(6, 6 + l2)[i] == t[6 + i]);
        }
    }
    assert(wire_fields(e1).len() == wire_fields(e2).len());
    assert(wire_fields(e1) =~= wire_fields(e2)) by {
        let wl = wire_fields(e1).len() as int;
        assert forall|i: int| 0 <= i < wl implies wire_fields(e1)[i] == wire_fields(e2)[i] by {
            assert(t.subrange(7 + l1, 7 + l1 + wl)[i] == t[7 + l1 + i]);
        }
    }
    lemma_wire_fields_injective(e1, e2);
}

/// An id-less object determines its fields.
proof fn lemma_wire_no_id_injective(e1: PostView, e2: PostView)
    requires
        wire_no_id(e1) == wire_no_id(e2),
    ensures
        same_content(e1, e2),
{
    let t = wire_no_id(e1);
    lemma_no_id_layout(t, e1);
    lemma_no_id_layout(t, e2);
    assert(wire_fields(e1).len() == wire_fields(e2).len());
    assert(wire_fields(e1) =~= wire_fields(e2)) by {
        let wl = wire_fields(e1).len() as int;
        assert forall|i: int| 0 <= i < wl implies wire_fields(e1)[i] == wire_fields(e2)[i] by {
            assert(t.subrange(1, 1 + wl)[i] == t[1 + i]);
        }
    }
    lemma_wire_fields_injective(e1, e2);
}

/// The two input shapes never collide.
proof fn lemma_shapes_disjoint(e1: PostView, ds: Seq<char>, e2: PostView)
    ensures
        wire_digits(e1, ds) != wire_no_id(e2),
{
    reveal_strlit("{\"id\":");
    if wire_digits(e1, ds) == wire_no_id(e2) {
        let t = wire_no_id(e2);
        lemma_no_id_layout(t, e2);
        lemma_digits_layout(t, e1, ds);
        assert(t.subrange(0, 6)[2] == t[2]);
        assert(t[2] == 'i');
        assert(false);
    }
}

/// Parse the four named fields starting at `pos`.  When the caller
/// knows the field block sits there (the ghost expectation), the parse
/// succeeds and returns exactly those fields.
fn parse_fields(v: &Vec<char>, pos: usize, expect: Ghost<Option<PostView>>) -> (r: Option<
    (String, String, String, String, usize),
>)
    requires
        pos <= v@.len(),
        expect@ matches Some(e) ==> prefix_at(v@, pos as int, wire_fields(e)),
    ensures
        r matches Some(t) ==> pos <= t.4 <= v@.len() && v@.subrange(pos as int, t.4 as int)
            == wire_fields(
            PostView { id: 0, date: t.0@, title: t.1@, body: t.2@, author: t.3@ },
        ),
        expect@ matches Some(e) ==> r matches Some(t) && t.0@ == e.date && t.1@ == e.title
            && t.2@ == e.body && t.3@ == e.author && t.4 == pos + wire_fields(e).len(),
{
    let total = v.len();
    proof {
        reveal_strlit("\"date\":");
        reveal_strlit(",\"title\":");
        reveal_strlit(",\"body\":");
        reveal_strlit(",\"author\":");
        if let Some(e) = expect@ {
            lemma_fields_layout(v@, pos as int, e);
        }
    }
    if !match_lit(v, pos, "\"date\":") {
        return None;
    }
    let p1 = pos + 7;
    let ghost gd: Option<Seq<char>> = match expect@ {
        Some(e) => Some(e.date),
        None => None,
    };
    let (date, p2) = match parse_quoted(v, p1, Ghost(gd)) {
        Some(t) => t,
        None => {
            return None;
        },
    };
    if !match_lit(v, p2, ",\"title\":") {
        return None;
    }
    let p3 = p2 + 9;
    let ghost gt: Option<Seq<char>> = match expect@ {
        Some(e) => Some(e.title),
        None => None,
    };
    let (title, p4) = match parse_quoted(v, p3, Ghost(gt)) {
        Some(t) => t,
        None => {
            return None;
        },
    };
    if !match_lit(v, p4, ",\"body\":") {
        return None;
    }
    let p5 = p4 + 8;
    let ghost gb: Option<Seq<char>> = match expect@ {
        Some(e) => Some(e.body),
        None => None,
    };
    let (body, p6) = match parse_quoted(v, p5, Ghost(gb)) {
        Some(t) => t,
        None => {
            return None;
        },
    };
    if !match_lit(v, p6, ",\"author\":") {
        return None;
    }
    let p7 = p6 + 10;
    let ghost ga: Option<Seq<char>> = match expect@ {
        Some(e) => Some(e.author),
        None => None,
    };
    let (author, p8) = match parse_quoted(v, p7, Ghost(ga)) {
        Some(t) => t,
        None => {
            return None;
        },
    };
    proof {
        let w = v@;
        assert(w.subrange(pos as int, p2 as int) =~= w.subrange(pos as int, p1 as int)
            + w.subrange(p1 as int, p2 as int));
        assert(w.subrange(pos as int, p3 as int) =~= w.subrange(pos as int, p2 as int)
            + w.subrange(p2 as int, p3 as int));
        assert(w.subrange(pos as int, p4 as int) =~= w.subrange(pos as int, p3 as int)
            + w.subrange(p3 as int, p4 as int));
        assert(w.subrange(pos as int, p5 as int) =~= w.subrange(pos as int, p4 as int)
            + w.subrange(p4 as int, p5 as int));
        assert(w.subrange(pos as int, p6 as int) =~= w.subrange(pos as int, p5 as int)
            + w.subrange(p5 as int, p6 as int));
        assert(w.subrange(pos as int, p7 as int) =~= w.subrange(pos as int, p6 as int)
            + w.subrange(p6 as int, p7 as int));
        assert(w.subrange(pos as int, p8 as int) =~= w.subrange(pos as int, p7 as int)
            + w.subrange(p7 as int, p8 as int));
        assert(w.subrange(p2 as int, p3 as int) =~= ",\"title\":"@) by {
            assert(prefix_at(w, p2 as int, ",\"title\":"@));
        }
        assert(w.subrange(p4 as int, p5 as int) =~= ",\"body\":"@) by {
            assert(prefix_at(w, p4 as int, ",\"body\":"@));
        }
        assert(w.subrange(p6 as int, p7 as int) =~= ",\"author\":"@) by {
            assert(prefix_at(w, p6 as int, ",\"author\":"@));
        }
        assert(w.subrange(pos as int, p8 as int) == wire_fields(
            PostView { id: 0, date: date@, title: title@, body: body@, author: author@ },
        ));
    }
    Some((date, title, body, author, p8))
}

/// Decode one record from an inbound body.  Exactly the two canonical
/// shapes are accepted: the field block alone, or preceded by an `id`
/// slot of digits; the digits are ignored, and the returned record
/// carries id 0 (a store assigns the real id on creation).
#[verifier::rlimit(100)]
pub fn decode_post(s: &str) -> (r: Result<BlogPost, DecodeError>)
    ensures
        r matches Ok(p) ==> p@.id == 0 && ((exists|ds: Seq<char>|
            ds.len() > 0 && all_digits(ds) && s@ == wire_digits(p@, ds)) || s@ == wire_no_id(
            p@,
        )),
        forall|w: PostView, n: int|
            0 <= n && s@ == wire_with_id(w, n) ==> (r matches Ok(p) && same_content(p@, w)),
        forall|w: PostView| s@ == wire_no_id(w) ==> (r matches Ok(p) && same_content(p@, w)),
        r matches Err(e) ==> e == DecodeError::Malformed,
{
    let v = str_to_chars(s);
    let n = v.len();
    proof {
        reveal_strlit("{\"id\":");
        reveal_strlit("{");
        reveal_strlit("}");
        reveal_strlit(",");
    }
    let ghost gid: Option<(PostView, Seq<char>)> = if exists|w: PostView, ds: Seq<char>|
        ds.len() > 0 && all_digits(ds) && s@ == wire_digits(w, ds) {
        Some(
            choose|w: PostView, ds: Seq<char>|
                ds.len() > 0 && all_digits(ds) && s@ == wire_digits(w, ds),
        )
    } else {
        None
    };
    let ghost gno: Option<PostView> = if exists|w: PostView| s@ == wire_no_id(w) {
        Some(choose|w: PostView| s@ == wire_no_id(w))
    } else {
        None
    };
    proof {
        if let Some((w0, ds0)) = gid {
            lemma_digits_layout(s@, w0, ds0);
        }
        if let Some(w0) = gno {
            lemma_no_id_layout(s@, w0);
        }
        assert forall|w: PostView, ds: Seq<char>|
            ds.len() > 0 && all_digits(ds) && s@ == wire_digits(w, ds) implies gid is Some by {}
        assert forall|w: PostView| s@ == wire_no_id(w) implies gno is Some by {}
        assert forall|w: PostView, n1: int|
            0 <= n1 && s@ == wire_with_id(w, n1) implies gid is Some by {
            lemma_dec_rep_digits(n1);
        }
    }
    if match_lit(&v, 0, "{\"id\":") {
        proof {
            if let Some(w0) = gno {
                assert(s@.subrange(0, 6)[2] == s@[2]);
                assert(false);
            }
        }
        // scan the digit run of the id slot
        let mut i: usize = 6;
        while i < n
            invariant
                n == v@.len(),
                v@ == s@,
                6 <= i <= n,
                forall|k: int| 6 <= k < i ==> is_digit(v@[k]),
                gid matches Some(g) ==> i <= 6 + g.1.len(),
                gid matches Some(g) ==> g.1.len() > 0 && all_digits(g.1) && s@ == wire_digits(
                    g.0,
                    g.1,
                ),
            ensures
                6 <= i <= n,
                forall|k: int| 6 <= k < i ==> is_digit(v@[k]),
                i == n || !is_digit(v@[i as int]),
                gid matches Some(g) ==> i <= 6 + g.1.len(),
                gid matches Some(g) ==> g.1.len() > 0 && all_digits(g.1) && s@ == wire_digits(
                    g.0,
                    g.1,
                ),
            decreases n - i,
        {
            let u = v[i] as u32;
            if !(48 <= u && u <= 57) {
                break;
            }
            proof {
                if let Some((w0, ds0)) = gid {
                    lemma_digits_layout(s@, w0, ds0);
                    if i == 6 + ds0.len() {
                        assert(v@[i as int] == ',');
                        assert(',' as u32 == 44);
                        assert(false);
                    }
                }
            }
            i += 1;
        }
        proof {
            if let Some((w0, ds0)) = gid {
                lemma_digits_layout(s@, w0, ds0);
                // the scan stops exactly at the end of the digit run
                if i < 6 + ds0.len() {
                    assert(s@.subrange(6, 6 + ds0.len() as int)[i - 6] == s@[i as int]);
                    assert(is_digit(v@[i as int]));
                    assert(i < n);
                    assert(false);
                }
            }
        }
        if i == 6 {
            proof {
                if let Some((w0, ds0)) = gid {
                    assert(false);
                }
            }
            return Err(DecodeError::Malformed);
        }
        if !match_lit(&v, i, ",") {
            proof {
                if let Some((w0, ds0)) = gid {
                    assert(s@.subrange(i as int, i + 1) =~= ","@);
                    assert(false);
                }
            }
            return Err(DecodeError::Malformed);
        }
        let p0 = i + 1;
        let ghost gf: Option<PostView> = match gid {
            Some((w0, ds0)) => Some(w0),
            None => None,
        };
        let (date, title, body, author, end) = match parse_fields(&v, p0, Ghost(gf)) {
            Some(t) => t,
            None => {
                return Err(DecodeError::Malformed);
            },
        };
        if !match_lit(&v, end, "}") {
            proof {
                if let Some((w0, ds0)) = gid {
                    assert(s@.subrange(end as int, end + 1) =~= "}"@);
                    assert(false);
                }
            }
            return Err(DecodeError::Malformed);
        }
        if end + 1 != n {
            proof {
                if let Some((w0, ds0)) = gid {
                    assert(false);
                }
            }
            return Err(DecodeError::Malformed);
        }
        let p = BlogPost { id: 0, date, title, body, author };
        proof {
            let w = v@;
            let ds = w.subrange(6, i as int);
            assert(ds.len() > 0);
            assert(all_digits(ds)) by {
                assert forall|k: int| 0 <= k < ds.len() implies is_digit(ds[k]) by {
                    assert(ds[k] == w[6 + k]);
                }
            }
            assert(w.subrange(0, 6) == "{\"id\":"@);
            assert(w.subrange(i as int, p0 as int) == ","@);
            assert(w.subrange(end as int, end + 1) == "}"@);
            assert(w.subrange(0, i as int) =~= w.subrange(0, 6) + w.subrange(6, i as int));
            assert(w.subrange(0, p0 as int) =~= w.subrange(0, i as int) + w.subrange(
                i as int,
                p0 as int,
            ));
            assert(w.subrange(0, end as int) =~= w.subrange(0, p0 as int) + w.subrange(
                p0 as int,
                end as int,
            ));
            assert(w.subrange(0, n as int) =~= w.subrange(0, end as int) + w.subrange(
                end as int,
                n as int,
            ));
            assert(w.subrange(0, n as int) =~= w);
            assert(w.subrange(end as int, n as int) == w.subrange(end as int, end + 1));
            assert(s@ == wire_digits(p@, ds));
            // completeness: any claimed decomposition carries the same fields
            if let Some((w0, ds0)) = gid {
                assert forall|w1: PostView, n1: int|
                    0 <= n1 && s@ == wire_with_id(w1, n1) implies same_content(p@, w1) by {
                    lemma_dec_rep_digits(n1);
                    lemma_wire_digits_injective(w0, ds0, w1, dec_rep(n1));
                }
                assert forall|w1: PostView| s@ == wire_no_id(w1) implies false by {
                    lemma_shapes_disjoint(w0, ds0, w1);
                }
            }
        }
        Ok(p)
    } else {
        proof {
            if let Some((w0, ds0)) = gid {
                assert(s@.subrange(0, 6) =~= "{\"id\":"@);
                assert(false);
            }
        }
        if !match_lit(&v, 0, "{") {
            proof {
                if let Some(w0) = gno {
                    assert(s@.subrange(0, 1) =~= "{"@);
                    assert(false);
                }
            }
            return Err(DecodeError::Malformed);
        }
        let ghost gf: Option<PostView> = gno;
        let (date, title, body, author, end) = match parse_fields(&v, 1, Ghost(gf)) {
            Some(t) => t,
            None => {
                return Err(DecodeError::Malformed);
            },
        };
        if !match_lit(&v, end, "}") {
            proof {
                if let Some(w0) = gno {
                    assert(s@.subrange(end as int, end + 1) =~= "}"@);
                    assert(false);
                }
            }
            return Err(DecodeError::Malformed);
        }
        if end + 1 != n {
            proof {
                if let Some(w0) = gno {
                    assert(false);
                }
            }
            return Err(DecodeError::Malformed);
        }
        let p = BlogPost { id: 0, date, title, body, author };
        proof {
            let w = v@;
            assert(w.subrange(0, 1) == "{"@);
            assert(w.subrange(end as int, end + 1) == "}"@);
            assert(w.subrange(0, end as int) =~= w.subrange(0, 1) + w.subrange(1, end as int));
            assert(w.subrange(0, n as int) =~= w.subrange(0, end as int) + w.subrange(
                end as int,
                n as int,
            ));
            assert(w.subrange(0, n as int) =~= w);
            assert(w.subrange(end as int, n as int) == w.subrange(end as int, end + 1));
            assert(s@ == wire_no_id(p@));
            if let Some(w0) = gno {
                assert forall|w1: PostView| s@ == wire_no_id(w1) implies same_content(
                    p@,
                    w1,
                ) by {
                    lemma_wire_no_id_injective(w0, w1);
                }
                assert forall|w1: PostView, n1: int|
                    0 <= n1 && s@ == wire_with_id(w1, n1) implies false by {
                    lemma_dec_rep_digits(n1);
                    lemma_shapes_disjoint(w1, dec_rep(n1), w0);
                }
            }
        }
        Ok(p)
    }
}

/// Parse the decimal text of an assigned id, as the create route
/// returns it.  Digit strings up to the id type's maximum are read;
/// anything else is rejected.
pub fn decode_id(s: &str) -> (r: Option<u32>)
    ensures
        r matches Some(m) ==> s@.len() > 0 && all_digits(s@) && m as int == dec_val(s@) && m
            <= i32::MAX as u32,
        forall|n1: int| 0 <= n1 <= i32::MAX && s@ == dec_rep(n1) ==> r == Some(n1 as u32),
{
    let v = str_to_chars(s);
    let n = v.len();
    if n == 0 {
        proof {
            assert forall|n1: int| 0 <= n1 <= i32::MAX && s@ == dec_rep(n1) implies false by {
                lemma_dec_rep_digits(n1);
            }
        }
        return None;
    }
    let mut val: u64 = 0;
    let mut i: usize = 0;
    proof {
        assert(s@.take(0) =~= Seq::<char>::empty());
    }
    while i < n
        invariant
            n == v@.len(),
            v@ == s@,
            i <= n,
            forall|k: int| 0 <= k < i ==> is_digit(v@[k]),
            val as int == dec_val(s@.take(i as int)),
            val <= 0x7FFF_FFFF,
        decreases n - i,
    {
        let c = v[i];
        let u = c as u32;
        if !(48 <= u && u <= 57) {
            proof {
                assert forall|n1: int| 0 <= n1 <= i32::MAX && s@ == dec_rep(n1) implies false by {
                    lemma_dec_rep_digits(n1);
                }
            }
            return None;
        }
        let d = (u - 48) as u64;
        let ghost prev = val;
        val = val * 10 + d;
        proof {
            assert(s@.take(i + 1).drop_last() =~= s@.take(i as int));
            assert(s@.take(i + 1).last() == s@[i as int]);
            assert(digit_val(s@[i as int]) == d as int);
            assert(val as int == dec_val(s@.take(i + 1)));
        }
        if val > 0x7FFF_FFFF {
            proof {
                assert forall|n1: int| 0 <= n1 <= i32::MAX && s@ == dec_rep(n1) implies false by {
                    lemma_dec_rep_digits(n1);
                    lemma_dec_val_of_rep(n1);
                    lemma_dec_val_bounds(s@, i + 1);
                }
            }
            return None;
        }
        i += 1;
    }
    proof {
        assert(s@.take(n as int) =~= s@);
        assert forall|n1: int| 0 <= n1 <= i32::MAX && s@ == dec_rep(n1) implies val as int
            == n1 by {
            lemma_dec_val_of_rep(n1);
        }
    }
    Some(val as u32)
}

} // verus!
