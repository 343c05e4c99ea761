use vstd::prelude::*;

use vstd::string::StringExecFns;
use crate::post::{BlogPost, PostView};
use crate::strutil::{push_char, str_to_chars};

verus! {

// ---------------------------------------------------------------------
// The wire format.
//
// A record travels as one object with the field names `id`, `date`,
// `title`, `body` and `author`, in that order; the four text fields are
// quoted, with `"` and `\` escaped by a backslash and every other
// character carried verbatim; `id` is unquoted decimal digits, and is
// optional on input (a store assigns the real id on creation).  A
// collection travels as a bracketed, comma-separated sequence of
// objects.
// ---------------------------------------------------------------------

/// The decimal digit character for d, 0 through 9.
pub open spec fn spec_digit(d: int) -> char {
    if d == 0 {
        '0'
    } else if d == 1 {
        '1'
    } else if d == 2 {
        '2'
    } else if d == 3 {
        '3'
    } else if d == 4 {
        '4'
    } else if d == 5 {
        '5'
    } else if d == 6 {
        '6'
    } else if d == 7 {
        '7'
    } else if d == 8 {
        '8'
    } else {
        '9'
    }
}

/// The shortest decimal rendering of a nonnegative integer.
pub open spec fn dec_rep(n: int) -> Seq<char>
    decreases n,
{
    if n < 10 {
        seq![spec_digit(n)]
    } else {
        dec_rep(n / 10) + seq![spec_digit(n % 10)]
    }
}

/// A decimal digit character.
pub open spec fn is_digit(c: char) -> bool {
    48 <= c as u32 <= 57
}

/// Every character of the sequence is a decimal digit.
pub open spec fn all_digits(s: Seq<char>) -> bool {
    forall|i: int| 0 <= i < s.len() ==> is_digit(s[i])
}

pub proof fn lemma_dec_rep_digits(n: int)
    ensures
        dec_rep(n).len() > 0,
        n >= 0 ==> all_digits(dec_rep(n)),
    decreases n,
{
    if n >= 10 {
        lemma_dec_rep_digits(n / 10);
        assert forall|i: int| 0 <= i < dec_rep(n).len() implies is_digit(dec_rep(n)[i]) by {
            if i < dec_rep(n / 10).len() {
                assert(dec_rep(n)[i] == dec_rep(n / 10)[i]);
            }
        }
    }
}

/// The numeric value of a digit character.
pub open spec fn digit_val(c: char) -> int {
    c as u32 - 48
}

/// The value of a digit string read as decimal.
pub open spec fn dec_val(s: Seq<char>) -> int
    decreases s.len(),
{
    if s.len() == 0 {
        0
    } else {
        dec_val(s.drop_last()) * 10 + digit_val(s.last())
    }
}

pub proof fn lemma_dec_val_of_rep(n: int)
    requires
        n >= 0,
    ensures
        dec_val(dec_rep(n)) == n,
    decreases n,
{
    if n < 10 {
        assert(dec_rep(n).len() == 1);
        assert(dec_rep(n).drop_last() =~= Seq::<char>::empty());
        assert(dec_val(Seq::<char>::empty()) == 0);
        assert(dec_rep(n).last() == spec_digit(n));
        assert(digit_val(spec_digit(n)) == n);
        assert(dec_val(dec_rep(n)) == dec_val(dec_rep(n).drop_last()) * 10 + digit_val(
            dec_rep(n).last(),
        ));
    } else {
        lemma_dec_val_of_rep(n / 10);
        assert(dec_rep(n).drop_last() =~= dec_rep(n / 10));
        assert(dec_rep(n).last() == spec_digit(n % 10));
        assert(digit_val(spec_digit(n % 10)) == n % 10);
        assert(n == n / 10 * 10 + n % 10);
    }
}

/// A digit string's value is nonnegative, and no prefix exceeds it.
pub proof fn lemma_dec_val_bounds(s: Seq<char>, i: int)
    requires
        all_digits(s),
        0 <= i <= s.len(),
    ensures
        0 <= dec_val(s.take(i)) <= dec_val(s),
    decreases s.len(),
{
    if s.len() == 0 {
        assert(s.take(i) =~= s);
    } else {
        let d = s.drop_last();
        assert(all_digits(d)) by {
            assert forall|k: int| 0 <= k < d.len() implies is_digit(d[k]) by {
                assert(d[k] == s[k]);
            }
        }
        lemma_dec_val_bounds(d, if i <= d.len() { i } else { d.len() as int });
        assert(digit_val(s.last()) >= 0);
        assert(dec_val(s) == dec_val(d) * 10 + digit_val(s.last()));
        assert(dec_val(d) * 10 >= dec_val(d));
        if i <= d.len() {
            assert(d.take(i) =~= s.take(i));
        } else {
            assert(s.take(i) =~= s);
            assert(d.take(d.len() as int) =~= d);
        }
    }
}

/// How one character is escaped inside a quoted field.
pub open spec fn esc_char(c: char) -> Seq<char> {
    if c == '"' || c == '\\' {
        seq!['\\', c]
    } else {
        seq![c]
    }
}

/// The escaped form of a whole field.
pub open spec fn esc(s: Seq<char>) -> Seq<char>
    decreases s.len(),
{
    if s.len() == 0 {
        Seq::empty()
    } else {
        esc_char(s[0]) + esc(s.skip(1))
    }
}

/// A quoted field: the escaped text between two quote characters.
pub open spec fn quoted(s: Seq<char>) -> Seq<char> {
    seq!['"'] + esc(s) + seq!['"']
}

pub proof fn lemma_esc_push(s: Seq<char>, c: char)
    ensures
        esc(s.push(c)) == esc(s) + esc_char(c),
    decreases s.len(),
{
    if s.len() == 0 {
        assert(s.push(c)[0] == c);
        assert(s.push(c).skip(1) =~= Seq::<char>::empty());
        assert(esc(s.push(c)) == esc_char(c) + esc(Seq::<char>::empty()));
        assert(esc_char(c) + esc(Seq::<char>::empty()) =~= esc(s) + esc_char(c));
    } else {
        assert(s.push(c).skip(1) =~= s.skip(1).push(c));
        lemma_esc_push(s.skip(1), c);
        assert(esc(s.push(c)) == esc_char(s[0]) + (esc(s.skip(1)) + esc_char(c)));
        assert(esc_char(s[0]) + (esc(s.skip(1)) + esc_char(c)) =~= (esc_char(s[0]) + esc(
            s.skip(1),
        )) + esc_char(c));
    }
}

pub proof fn lemma_esc_append(a: Seq<char>, b: Seq<char>)
    ensures
        esc(a + b) == esc(a) + esc(b),
    decreases a.len(),
{
    if a.len() == 0 {
        assert(a + b =~= b);
        assert(esc(a) + esc(b) =~= esc(b));
    } else {
        assert((a + b).skip(1) =~= a.skip(1) + b);
        lemma_esc_append(a.skip(1), b);
        assert(esc(a + b) == esc_char(a[0]) + (esc(a.skip(1)) + esc(b)));
        assert(esc_char(a[0]) + (esc(a.skip(1)) + esc(b)) =~= (esc_char(a[0]) + esc(a.skip(1)))
            + esc(b));
    }
}

/// The object body shared by both input shapes: the four named,
/// quoted text fields.
pub open spec fn wire_fields(v: PostView) -> Seq<char> {
    "\"date\":"@ + quoted(v.date) + ",\"title\":"@ + quoted(v.title) + ",\"body\":"@ + quoted(
        v.body,
    ) + ",\"author\":"@ + quoted(v.author)
}

/// An object whose id slot holds arbitrary digit text.
pub open spec fn wire_digits(v: PostView, ds: Seq<char>) -> Seq<char> {
    "{\"id\":"@ + ds + ","@ + wire_fields(v) + "}"@
}

/// The canonical encoding of a record with its id.
pub open spec fn wire_with_id(v: PostView, n: int) -> Seq<char> {
    wire_digits(v, dec_rep(n))
}

/// The encoding of a candidate record without an id.
pub open spec fn wire_no_id(v: PostView) -> Seq<char> {
    "{"@ + wire_fields(v) + "}"@
}

/// The digit character for d.
fn digit_char(d: u32) -> (c: char)
    requires
        d < 10,
    ensures
        c == spec_digit(d as int),
{
    if d == 0 {
        '0'
    } else if d == 1 {
        '1'
    } else if d == 2 {
        '2'
    } else if d == 3 {
        '3'
    } else if d == 4 {
        '4'
    } else if d == 5 {
        '5'
    } else if d == 6 {
        '6'
    } else if d == 7 {
        '7'
    } else if d == 8 {
        '8'
    } else {
        '9'
    }
}

/// Append the decimal rendering of n.
pub fn push_decimal(out: &mut String, n: u32)
    ensures
        final(out)@ == old(out)@ + dec_rep(n as int),
    decreases n,
{
    if n < 10 {
        push_char(out, digit_char(n));
        proof {
            assert(old(out)@.push(spec_digit(n as int)) =~= old(out)@ + dec_rep(n as int));
        }
    } else {
        push_decimal(out, n / 10);
        push_char(out, digit_char(n % 10));
        proof {
            assert((old(out)@ + dec_rep(n as int / 10)).push(spec_digit(n as int % 10)) =~= old(
                out,
            )@ + dec_rep(n as int));
        }
    }
}

/// Append the quoted, escaped form of a field.
fn append_quoted(out: &mut String, s: &str)
    ensures
        final(out)@ == old(out)@ + quoted(s@),
{
    let cs = str_to_chars(s);
    push_char(out, '"');
    let n = cs.len();
    let mut i: usize = 0;
    proof {
        assert(esc(s@.take(0)) =~= Seq::<char>::empty());
        assert(old(out)@.push('"') =~= old(out)@ + seq!['"'] + esc(s@.take(0)));
    }
    while i < n
        invariant
            cs@ == s@,
            n == s@.len(),
            i <= n,
            out@ == old(out)@ + seq!['"'] + esc(s@.take(i as int)),
        decreases n - i,
    {
        let c = cs[i];
        let ghost mid = out@;
        if c == '"' || c == '\\' {
            push_char(out, '\\');
            push_char(out, c);
            proof {
                assert(mid.push('\\').push(c) =~= mid + esc_char(c));
            }
        } else {
            push_char(out, c);
            proof {
                assert(mid.push(c) =~= mid + esc_char(c));
            }
        }
        proof {
            lemma_esc_push(s@.take(i as int), c);
            assert(s@.take(i as int).push(c) =~= s@.take(i + 1));
            assert((old(out)@ + seq!['"'] + esc(s@.take(i as int))) + esc_char(c) =~= old(out)@
                + seq!['"'] + esc(s@.take(i + 1)));
        }
        i += 1;
    }
    let ghost mid = out@;
    push_char(out, '"');
    proof {
        assert(s@.take(n as int) =~= s@);
        assert(mid.push('"') =~= old(out)@ + quoted(s@));
    }
}

/// Append the four named fields of the record.
fn append_fields(out: &mut String, p: &BlogPost)
    ensures
        final(out)@ == old(out)@ + wire_fields(p@),
{
    out.append("\"date\":");
    append_quoted(out, p.date.as_str());
    out.append(",\"title\":");
    append_quoted(out, p.title.as_str());
    out.append(",\"body\":");
    append_quoted(out, p.body.as_str());
    out.append(",\"author\":");
    append_quoted(out, p.author.as_str());
    proof {
        assert(final(out)@ =~= old(out)@ + wire_fields(p@));
    }
}

/// Encode one record, id included.
pub fn encode_post(p: &BlogPost) -> (r: String)
    requires
        p.id >= 0,
    ensures
        r@ == wire_with_id(p@, p@.id),
{
    let mut out = String::new();
    out.append("{\"id\":");
    push_decimal(&mut out, p.id as u32);
    out.append(",");
    append_fields(&mut out, p);
    out.append("}");
    proof {
        assert(out@ =~= wire_with_id(p@, p@.id));
    }
    out
}

/// Encode a candidate record without its id.
pub fn encode_post_no_id(p: &BlogPost) -> (r: String)
    ensures
        r@ == wire_no_id(p@),
{
    let mut out = String::new();
    out.append("{");
    append_fields(&mut out, p);
    out.append("}");
    proof {
        assert(out@ =~= wire_no_id(p@));
    }
    out
}

/// The bracketed, comma-separated encoding of a whole collection.
pub open spec fn wire_rest(s: Seq<PostView>) -> Seq<char>
    decreases s.len(),
{
    if s.len() == 0 {
        Seq::empty()
    } else {
        seq![','] + wire_with_id(s[0], s[0].id) + wire_rest(s.skip(1))
    }
}

pub open spec fn wire_items(s: Seq<PostView>) -> Seq<char> {
    if s.len() == 0 {
        Seq::empty()
    } else {
        wire_with_id(s[0], s[0].id) + wire_rest(s.skip(1))
    }
}

pub open spec fn wire_list(s: Seq<PostView>) -> Seq<char> {
    "["@ + wire_items(s) + "]"@
}

proof fn lemma_wire_rest_push(s: Seq<PostView>, p: PostView)
    ensures
        wire_rest(s.push(p)) == wire_rest(s) + (seq![','] + wire_with_id(p, p.id)),
    decreases s.len(),
{
    if s.len() == 0 {
        assert(s.push(p)[0] == p);
        assert(s.push(p).skip(1) =~= Seq::<PostView>::empty());
        assert(wire_rest(s.push(p)) == seq![','] + wire_with_id(p, p.id) + wire_rest(
            Seq::<PostView>::empty(),
        ));
        assert(seq![','] + wire_with_id(p, p.id) + wire_rest(Seq::<PostView>::empty())
            =~= wire_rest(s) + (seq![','] + wire_with_id(p, p.id)));
    } else {
        assert(s.push(p).skip(1) =~= s.skip(1).push(p));
        lemma_wire_rest_push(s.skip(1), p);
        assert(wire_rest(s.push(p)) == seq![','] + wire_with_id(s[0], s[0].id) + (wire_rest(
            s.skip(1),
        ) + (seq![','] + wire_with_id(p, p.id))));
        assert(seq![','] + wire_with_id(s[0], s[0].id) + (wire_rest(s.skip(1)) + (seq![',']
            + wire_with_id(p, p.id))) =~= wire_rest(s) + (seq![','] + wire_with_id(p, p.id)));
    }
}

proof fn lemma_wire_items_push(s: Seq<PostView>, p: PostView)
    ensures
        s.len() == 0 ==> wire_items(s.push(p)) == wire_with_id(p, p.id),
        s.len() > 0 ==> wire_items(s.push(p)) == wire_items(s) + (seq![','] + wire_with_id(
            p,
            p.id,
        )),
{
    if s.len() == 0 {
        assert(s.push(p)[0] == p);
        assert(s.push(p).skip(1) =~= Seq::<PostView>::empty());
        assert(wire_items(s.push(p)) =~= wire_with_id(p, p.id));
    } else {
        assert(s.push(p)[0] == s[0]);
        assert(s.push(p).skip(1) =~= s.skip(1).push(p));
        lemma_wire_rest_push(s.skip(1), p);
        assert(wire_items(s.push(p)) == wire_with_id(s[0], s[0].id) + (wire_rest(s.skip(1)) + (
        seq![','] + wire_with_id(p, p.id))));
        assert(wire_with_id(s[0], s[0].id) + (wire_rest(s.skip(1)) + (seq![','] + wire_with_id(
            p,
            p.id,
        ))) =~= wire_items(s) + (seq![','] + wire_with_id(p, p.id)));
    }
}

/// Encode every record of a collection, in order.
pub fn encode_posts(posts: &Vec<BlogPost>) -> (r: String)
    requires
        forall|i: int| 0 <= i < posts@.len() ==> posts@[i].id >= 0,
    ensures
        r@ == wire_list(crate::store::views_of(posts@)),
{
    let ghost vs = crate::store::views_of(posts@);
    let mut out = String::new();
    out.append("[");
    let n = posts.len();
    let mut i: usize = 0;
    proof {
        assert(vs.take(0) =~= Seq::<PostView>::empty());
        assert(out@ =~= "["@ + wire_items(vs.take(0)));
    }
    while i < n
        invariant
            n == posts@.len(),
            vs == crate::store::views_of(posts@),
            vs.len() == n,
            forall|k: int| 0 <= k < n ==> vs[k] == posts@[k]@,
            forall|k: int| 0 <= k < n ==> posts@[k].id >= 0,
            i <= n,
            out@ == "["@ + wire_items(vs.take(i as int)),
        decreases n - i,
    {
        let ghost mid = out@;
        if i > 0 {
            out.append(",");
        }
        let one = encode_post(&posts[i]);
        out.append(one.as_str());
        proof {
            reveal_strlit(",");
            lemma_wire_items_push(vs.take(i as int), vs[i as int]);
            assert(vs.take(i as int).push(vs[i as int]) =~= vs.take(i + 1));
            if i > 0 {
                assert(","@ =~= seq![',']);
                assert(mid + ","@ + wire_with_id(vs[i as int], vs[i as int].id) =~= "["@
                    + wire_items(vs.take(i + 1)));
            } else {
                assert(mid + wire_with_id(vs[i as int], vs[i as int].id) =~= "["@ + wire_items(
                    vs.take(i + 1),
                ));
            }
        }
        i += 1;
    }
    out.append("]");
    proof {
        assert(vs.take(n as int) =~= vs);
        assert(out@ =~= wire_list(vs));
    }
    out
}

} // verus!
