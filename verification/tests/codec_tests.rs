use blogstore::codec::{encode_post, encode_post_no_id, encode_posts};
use blogstore::decode::{decode_id, decode_post};
use blogstore::post::BlogPost;

fn post(id: i32, date: &str, title: &str, body: &str, author: &str) -> BlogPost {
    BlogPost {
        id,
        date: String::from(date),
        title: String::from(title),
        body: String::from(body),
        author: String::from(author),
    }
}

#[test]
fn encoding_is_the_exact_expected_text() {
    let p = post(3, "d", "X", "Y", "Z");
    assert_eq!(
        encode_post(&p),
        "{\"id\":3,\"date\":\"d\",\"title\":\"X\",\"body\":\"Y\",\"author\":\"Z\"}"
    );
    assert_eq!(
        encode_post_no_id(&p),
        "{\"date\":\"d\",\"title\":\"X\",\"body\":\"Y\",\"author\":\"Z\"}"
    );
}

#[test]
fn encoding_escapes_quotes_and_backslashes() {
    let p = post(0, "d", "a\"b\\c", "y", "z");
    assert_eq!(
        encode_post(&p),
        "{\"id\":0,\"date\":\"d\",\"title\":\"a\\\"b\\\\c\",\"body\":\"y\",\"author\":\"z\"}"
    );
}

#[test]
fn round_trip_reproduces_every_text_field() {
    let p = post(41, "2024-02-02T10:00:00Z", "A \"quoted\" title", "line\\slash", "O'Brien");
    let back = decode_post(&encode_post(&p)).unwrap();
    assert_eq!(back.date, p.date);
    assert_eq!(back.title, p.title);
    assert_eq!(back.body, p.body);
    assert_eq!(back.author, p.author);
    assert_eq!(back.id, 0);
}

#[test]
fn round_trip_handles_empty_fields() {
    let p = post(0, "", "", "", "");
    let back = decode_post(&encode_post(&p)).unwrap();
    assert_eq!(back.date, "");
    assert_eq!(back.title, "");
    assert_eq!(back.body, "");
    assert_eq!(back.author, "");
}

#[test]
fn round_trip_without_id_slot() {
    let p = post(7, "d", "t", "b", "a");
    let back = decode_post(&encode_post_no_id(&p)).unwrap();
    assert_eq!(back.title, "t");
    assert_eq!(back.body, "b");
    assert_eq!(back.author, "a");
    assert_eq!(back.date, "d");
}

#[test]
fn malformed_bodies_are_rejected() {
    assert!(decode_post("").is_err());
    assert!(decode_post("{}").is_err());
    assert!(decode_post("{\"id\":,\"date\":\"d\",\"title\":\"t\",\"body\":\"b\",\"author\":\"a\"}").is_err());
    assert!(decode_post("{\"date\":\"d\",\"title\":\"t\",\"body\":\"b\"}").is_err());
    assert!(decode_post("{\"title\":\"t\",\"date\":\"d\",\"body\":\"b\",\"author\":\"a\"}").is_err());
    assert!(decode_post("{\"date\":\"d\",\"title\":\"t\",\"body\":\"b\",\"author\":\"a\"}x").is_err());
    assert!(decode_post("{\"date\":\"d\",\"title\":\"t\",\"body\":\"b\",\"author\":\"a\"").is_err());
    assert!(decode_post("{\"date\":\"d\",\"title\":\"t\",\"body\":\"b\",\"author\":\"a\\x\"}").is_err());
}

#[test]
fn decode_id_reads_decimal_text() {
    assert_eq!(decode_id("3"), Some(3));
    assert_eq!(decode_id("0"), Some(0));
    assert_eq!(decode_id("007"), Some(7));
    assert_eq!(decode_id("2147483647"), Some(2147483647));
    assert_eq!(decode_id(""), None);
    assert_eq!(decode_id("12a"), None);
    assert_eq!(decode_id("-4"), None);
    assert_eq!(decode_id("2147483648"), None);
    assert_eq!(decode_id("99999999999"), None);
}

#[test]
fn collections_encode_bracketed_and_comma_separated() {
    let empty: Vec<BlogPost> = Vec::new();
    assert_eq!(encode_posts(&empty), "[]");
    let two = vec![post(1, "d1", "t1", "b1", "a1"), post(2, "d2", "t2", "b2", "a2")];
    assert_eq!(
        encode_posts(&two),
        "[{\"id\":1,\"date\":\"d1\",\"title\":\"t1\",\"body\":\"b1\",\"author\":\"a1\"},{\"id\":2,\"date\":\"d2\",\"title\":\"t2\",\"body\":\"b2\",\"author\":\"a2\"}]"
    );
}

#[test]
fn encoding_is_json_other_tools_can_read() {
    let p = post(5, "2024-01-01", "A \"quoted\" title", "b\\s", "a");
    let text = encode_post(&p);
    let value: serde_json::Value = serde_json::from_str(&text).unwrap();
    assert_eq!(value.get("id").unwrap().as_i64(), Some(5));
    assert_eq!(value.get("date").unwrap().as_str(), Some("2024-01-01"));
    assert_eq!(value.get("title").unwrap().as_str(), Some("A \"quoted\" title"));
    assert_eq!(value.get("body").unwrap().as_str(), Some("b\\s"));
    assert_eq!(value.get("author").unwrap().as_str(), Some("a"));
}
