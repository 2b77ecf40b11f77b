use vsm::codec::{decode, encode, Hashing};
use vsm::json::{are_equal, copy, extended, parse, read, Json, ReadError, DOCUMENT_BYTES};
use vsm::text::{ends_with, relate, starts_with, Relation, TextMap};

#[test]
fn documents_are_parsed() {
    let json = parse(r#"{"a":[1,-2,1.5],"b":{"c":"x"},"d":true,"e":null}"#).unwrap();
    let list = json.get("a").unwrap().items().unwrap();
    assert_eq!(list[0].unsigned(), Some(1));
    assert_eq!(list[0].signed(), Some(1));
    assert_eq!(list[1].unsigned(), None);
    assert_eq!(list[1].signed(), Some(-2));
    assert_eq!(list[2].signed(), None);
    assert_eq!(list[2].bits(), Some(1.5f64.to_bits()));
    assert_eq!(json.get("b").unwrap().text_at("c").unwrap(), "x");
    assert_eq!(json.flag_at("d"), Some(true));
    assert!(matches!(json.get("e"), Some(Json::Null)));
    assert!(json.get("f").is_none());
    assert!(parse("{").is_none());
}

#[test]
fn equal_documents_are_equal() {
    let a = parse(r#"{"x":[0.0,1,"t"],"y":null}"#).unwrap();
    let b = parse(r#"{"y":null,"x":[-0.0,1,"t"]}"#).unwrap();
    assert!(are_equal(&a, &b));
    assert!(are_equal(&a, &copy(&a)));
    for other in [r#"{"x":[0.0,1.0,"t"],"y":null}"#, r#"{"x":[0.0,1,"t"]}"#, "[]", r#"{"x":[0.0,1],"y":null}"#] {
        assert!(!are_equal(&a, &parse(other).unwrap()));
    }
}

#[test]
fn extending_prefers_the_new_members() {
    let base = parse(r#"{"a":1,"b":2}"#).unwrap();
    let more = parse(r#"{"b":3,"c":4}"#).unwrap();
    let both = extended(&base, &more).unwrap();
    assert_eq!(both.unsigned_at("a"), Some(1));
    assert_eq!(both.unsigned_at("b"), Some(3));
    assert_eq!(both.unsigned_at("c"), Some(4));
    assert!(extended(&base, &Json::Null).is_none());
    assert!(extended(&Json::Null, &more).is_none());
}

#[test]
fn base64_text_gives_the_bytes_back() {
    assert_eq!(encode(b"hello\xff"), "aGVsbG//");
    assert_eq!(decode("aGVsbG//").unwrap(), b"hello\xff");
    assert_eq!(encode(b""), "");
    assert!(decode("a").is_none());
    assert!(decode("a-b_").is_none());
}

#[test]
fn digests_do_not_depend_on_the_pieces() {
    let mut h = Hashing::new();
    h.update(b"a");
    h.update(b"bc");
    assert_eq!(h.hex(), "ba7816bf8f01cfea414140de5dae2223b00361a396177a9cb410ff61f20015ad");
    assert_eq!(
        Hashing::new().hex(),
        "e3b0c44298fc1c149afbf4c8996fb92427ae41e4649b934ca495991b7852b855"
    );
}

#[test]
fn texts_are_compared_by_their_characters() {
    assert_eq!(relate("a", "b"), Relation::Before);
    assert_eq!(relate("b", "a"), Relation::After);
    assert_eq!(relate("ab", "a"), Relation::After);
    assert_eq!(relate("口", "口"), Relation::Same);
    assert!(starts_with("abc", "ab") && !starts_with("a", "ab"));
    assert!(ends_with("abc", "bc") && !ends_with("c", "bc"));
}

#[test]
fn maps_keep_their_keys_in_order() {
    let mut map = TextMap::new();
    for (key, value) in [("b", 1), ("a", 2), ("c", 3), ("b", 4)] {
        map.insert(key.to_owned(), value);
    }
    map.remove("c");
    map.remove("d");
    assert_eq!(map.len(), 2);
    assert_eq!(map.entry(0), (&"a".to_owned(), &2));
    assert_eq!(map.entry(1), (&"b".to_owned(), &4));
    assert_eq!(map.get("c"), None);
}

#[test]
fn files_hold_documents_up_to_a_bound() {
    assert_eq!(read(b"{\"a\":1}").unwrap().unsigned_at("a"), Some(1));
    assert_eq!(read(b"{").unwrap_err(), ReadError::Malformed);
    assert_eq!(read(b"\"\xff\"").unwrap_err(), ReadError::Malformed);
    let mut large = vec![b' '; DOCUMENT_BYTES];
    large[0] = b'1';
    assert_eq!(read(&large).unwrap().unsigned(), Some(1));
    large.push(b' ');
    assert_eq!(read(&large).unwrap_err(), ReadError::Size);
}
