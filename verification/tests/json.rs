use recall::json::Json;
use recall::json::Number;
use recall::json::StrMap;
use recall::text::decimal_text;
use recall::text::rank;
use recall::text::same;
use recall::text::trim_slashes;
use recall::text::Rank;

#[test]
fn texts_are_ranked_by_their_bytes() {
    assert_eq!(rank("a", "b"), Rank::Before);
    assert_eq!(rank("b", "a"), Rank::After);
    assert_eq!(rank("a", "a"), Rank::Same);
    assert_eq!(rank("", "a"), Rank::Before);
    assert_eq!(rank("ab", "a"), Rank::After);
    assert_eq!(rank("Z", "a"), Rank::Before);
    assert_eq!(rank("z", "\u{e9}"), Rank::Before);
    assert!(same("caf\u{e9}", "caf\u{e9}"));
    assert!(!same("cafe", "caf\u{e9}"));
}

#[test]
fn trailing_slashes_are_cut() {
    assert_eq!(trim_slashes("http://127.0.0.1:6333/"), "http://127.0.0.1:6333");
    assert_eq!(trim_slashes("http://x///"), "http://x");
    assert_eq!(trim_slashes("http://x"), "http://x");
    assert_eq!(trim_slashes("//"), "");
    assert_eq!(trim_slashes(""), "");
    assert_eq!(trim_slashes("caf\u{e9}/"), "caf\u{e9}");
}

#[test]
fn integers_are_written_in_decimal() {
    for n in [0, 7, 10, 99, 100, -1, -10, i64::MIN as i128, i64::MAX as i128, i128::MIN, i128::MAX] {
        assert_eq!(decimal_text(n), n.to_string());
        assert_eq!(decimal_text(n).parse::<i128>(), Ok(n));
    }
}

#[test]
fn a_map_keeps_its_keys_in_order_and_once() {
    let m = StrMap::new().with("b".into(), 2).with("a".into(), 1).with("c".into(), 3).with("b".into(), 4);
    assert_eq!(m.len(), 3);
    assert_eq!(m.entry(0), (&"a".to_string(), &1));
    assert_eq!(m.entry(1), (&"b".to_string(), &4));
    assert_eq!(m.entry(2), (&"c".to_string(), &3));
    assert_eq!(m.get("b"), Some(&4));
    assert_eq!(m.get("d"), None);
}

#[test]
fn the_order_of_insertion_does_not_show() {
    let a = StrMap::empty().set("x", Json::Null).set("y", Json::Bool(true));
    let b = StrMap::empty().set("y", Json::Bool(true)).set("x", Json::Null);
    assert_eq!(Json::Object(a), Json::Object(b));
}

#[test]
fn a_document_is_read_by_kind() {
    let d = Json::Object(StrMap::empty().set("n", Json::integer(5)).set("s", Json::text("t")));
    assert_eq!(d.get("n").and_then(Json::as_i64), Some(5));
    assert_eq!(d.get("n").and_then(Json::as_u64), Some(5));
    assert_eq!(d.get("s").and_then(Json::as_str), Some("t"));
    assert_eq!(d.get("s").and_then(Json::as_i64), None);
    assert!(d.get("missing").is_none());
    assert!(Json::text("n").get("n").is_none());
    assert_eq!(Json::Bool(true).as_bool(), Some(true));
    assert_eq!(Json::Null.as_bool(), None);
    assert_eq!(Json::integer(-1).as_u64(), None);
    assert_eq!(Json::integer(u64::MAX as i128).as_i64(), None);
    assert_eq!(Json::integer(u64::MAX as i128).as_u64(), Some(u64::MAX));
    assert_eq!(Json::integer(u64::MAX as i128 + 1).as_u64(), None);
    assert_eq!(Json::Number(Number::Float("1.0".into())).as_i64(), None);
    assert_eq!(Json::Array(vec![Json::Null]).as_array().map(Vec::len), Some(1));
    assert!(Json::Null.as_array().is_none());
    assert!(d.as_object().is_some());
    assert!(Json::Null.as_object().is_none());
}

#[test]
fn a_clone_is_the_same_document() {
    let d = Json::Object(
        StrMap::empty()
            .set("a", Json::Array(vec![Json::integer(1), Json::Number(Number::Float("2.5".into()))]))
            .set("o", Json::Object(StrMap::empty().set("k", Json::text("v"))))
            .set("n", Json::Null),
    );
    assert_eq!(d.clone(), d);
}
