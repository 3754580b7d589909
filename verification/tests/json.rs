//! Documents.

use hipfire::json::{parse, Json};

#[test]
fn documents_are_read_as_written() {
    let doc = parse(r#"{"a": 7, "b": -1, "c": 2.5, "d": "x\ny", "e": [true, null], "f": {"g": 1e3}}"#)
        .unwrap();
    assert_eq!(doc.get_u64("a"), Some(7));
    assert_eq!(doc.get_f64("a"), Some(7.0f64.to_bits()));
    assert_eq!(doc.get_u64("b"), None);
    assert_eq!(doc.get_f64("b"), Some((-1.0f64).to_bits()));
    assert_eq!(doc.get_u64("c"), None);
    assert_eq!(doc.get_f64("c"), Some(2.5f64.to_bits()));
    assert_eq!(doc.get("d").unwrap().as_str().unwrap(), "x\ny");
    let list = doc.get("e").unwrap().as_array().unwrap();
    assert_eq!(list.len(), 2);
    assert_eq!(list[0].as_bool(), Some(true));
    assert!(list[1].is_null());
    assert_eq!(doc.get("f").unwrap().get_f64("g"), Some(1000.0f64.to_bits()));
    assert!(doc.get("missing").is_none());
    assert_eq!(doc.get_bool("a"), None);
}

#[test]
fn what_is_no_document_is_refused() {
    for bad in ["", "{", "[1,]", "{'a': 1}", "nul", "1 2"] {
        assert!(parse(bad).is_none(), "{}", bad);
    }
    assert!(matches!(parse("null"), Some(Json::Null)));
    assert!(matches!(parse(" [] "), Some(Json::Arr(_))));
}

#[test]
fn big_numbers_keep_their_value() {
    let doc = parse(r#"{"m": 18446744073709551615, "o": 18446744073709551616}"#).unwrap();
    assert_eq!(doc.get_u64("m"), Some(u64::MAX));
    assert_eq!(doc.get_u64("o"), None);
    assert_eq!(doc.get_f64("o"), Some(18446744073709551616.0f64.to_bits()));
}

#[test]
fn only_objects_have_members() {
    let doc = parse("[1, 2]").unwrap();
    assert!(doc.get("0").is_none());
    assert_eq!(doc.as_array().unwrap()[1].as_u64(), Some(2));
}
