use recall::item::item_of;
use recall::item::Item;
use recall::json::Json;
use recall::json::Number;
use recall::json::StrMap;
use recall::point_id::PointId;

fn item() -> Item {
    Item {
        namespace: "jade".into(),
        kind: "fact".into(),
        key: "k".into(),
        text: "x".into(),
        ts_unix_ms: 0,
        private: false,
        meta: StrMap::new(),
    }
}

fn fields() -> StrMap<Json> {
    StrMap::empty()
}

#[test]
fn a_point_id_is_a_function_of_namespace_kind_and_key() {
    let a = item();
    let mut b = a.clone();
    b.text = "a different text, same key".into();
    b.ts_unix_ms = 5;
    assert_eq!(a.id(), b.id(), "re-ingesting is idempotent");
    let mut c = a.clone();
    c.key = "other".into();
    assert_ne!(a.id(), c.id());
    assert_eq!(uuid::Uuid::from_bytes(a.id().bytes).get_version(), Some(uuid::Version::Sha1));
}

#[test]
fn a_point_id_can_be_derived_by_hand() {
    assert_eq!(item().id().text(), "3ecf4422-65dd-5146-ae10-42743b2d4e6a");
    let mut other = item();
    other.key = "other".into();
    assert_eq!(other.id().text(), "c22a0b89-5ba0-5e7f-84a1-d3020bafd2a8");
    let mut accented = item();
    accented.namespace = "t".into();
    accented.key = "caf\u{e9}".into();
    assert_eq!(accented.id().text(), "dd090429-4d2f-5683-b572-b3e22c8ec95d");
    assert_eq!(
        PointId::of_name("jade\u{1f}fact\u{1f}k"),
        item().id(),
        "the name is the three parts with a separator between two"
    );
}

#[test]
fn the_separator_keeps_names_apart() {
    let mut a = item();
    a.namespace = "ab".into();
    a.kind = "c".into();
    let mut b = item();
    b.namespace = "a".into();
    b.kind = "bc".into();
    assert_ne!(a.id(), b.id());
}

#[test]
fn an_id_is_written_in_five_groups() {
    let id = PointId { bytes: [0, 1, 2, 3, 4, 5, 6, 7, 8, 9, 10, 171, 205, 239, 254, 255] };
    assert_eq!(id.text(), "00010203-0405-0607-0809-0aabcdeffeff");
    let near = PointId { bytes: [0, 1, 2, 3, 4, 5, 6, 7, 8, 9, 10, 171, 205, 239, 254, 254] };
    assert_ne!(id.text(), near.text());
}

#[test]
fn the_payload_holds_the_fixed_fields_and_the_metadata() {
    let mut a = item();
    a.ts_unix_ms = -7;
    a.private = true;
    a.meta = a.meta.with("device_id".into(), "office".into());
    let want = fields()
        .set("namespace", Json::text("jade"))
        .set("kind", Json::text("fact"))
        .set("key", Json::text("k"))
        .set("text", Json::text("x"))
        .set("ts_unix_ms", Json::integer(-7))
        .set("private", Json::Bool(true))
        .set("device_id", Json::text("office"));
    assert_eq!(a.payload(), Json::Object(want));
}

#[test]
fn metadata_takes_the_place_of_a_fixed_field() {
    let mut a = item();
    a.meta = a.meta.with("text".into(), "shadow".into());
    assert_eq!(a.payload().get("text"), Some(&Json::text("shadow")));
    let back = item_of(&a.payload()).unwrap();
    assert_eq!(back.text, "shadow");
    assert_eq!(back.meta.len(), 0);
}

#[test]
fn what_was_written_is_read_back() {
    let mut a = item();
    a.ts_unix_ms = 1_700_000_000_000;
    a.private = true;
    a.meta = a.meta.with("room".into(), "kitchen".into()).with("device_id".into(), "office".into());
    assert_eq!(item_of(&a.payload()), Some(a));
}

#[test]
fn numbers_are_carried_as_text_and_the_rest_is_left_out() {
    let p = fields()
        .set("namespace", Json::text("jade"))
        .set("text", Json::text("x"))
        .set("recalled", Json::integer(3))
        .set("low", Json::integer(-12))
        .set("most", Json::integer(u64::MAX as i128))
        .set("zero", Json::integer(0))
        .set("weight", Json::Number(Number::Float("0.5".into())))
        .set("source", Json::text("voice"))
        .set("flag", Json::Bool(true))
        .set("nothing", Json::Null)
        .set("list", Json::Array(vec![Json::integer(1)]))
        .set("inner", Json::Object(fields()));
    let back = item_of(&Json::Object(p)).unwrap();
    assert_eq!(back.kind, "");
    assert_eq!(back.key, "");
    assert_eq!(back.ts_unix_ms, 0);
    assert!(!back.private);
    assert_eq!(back.meta.get("recalled").map(String::as_str), Some("3"));
    assert_eq!(back.meta.get("low").map(String::as_str), Some("-12"));
    assert_eq!(back.meta.get("most").map(String::as_str), Some("18446744073709551615"));
    assert_eq!(back.meta.get("zero").map(String::as_str), Some("0"));
    assert_eq!(back.meta.get("weight").map(String::as_str), Some("0.5"));
    assert_eq!(back.meta.get("source").map(String::as_str), Some("voice"));
    assert_eq!(back.meta.len(), 6);
    assert_eq!(back.meta.get("recalled").unwrap().parse::<i64>(), Ok(3));
}

#[test]
fn a_payload_without_namespace_or_text_carries_no_memory() {
    let p = fields().set("namespace", Json::text("jade"));
    assert_eq!(item_of(&Json::Object(p)), None);
    let p = fields().set("text", Json::text("x"));
    assert_eq!(item_of(&Json::Object(p)), None);
    let p = fields().set("text", Json::text("x")).set("namespace", Json::integer(1));
    assert_eq!(item_of(&Json::Object(p)), None);
    assert_eq!(item_of(&Json::Null), None);
    assert_eq!(item_of(&Json::Array(vec![])), None);
}

#[test]
fn a_time_that_is_no_signed_integer_is_zero() {
    let p = fields().set("namespace", Json::text("a")).set("text", Json::text("b"));
    let p = p.set("ts_unix_ms", Json::integer(i64::MAX as i128 + 1)).set("private", Json::text("true"));
    let back = item_of(&Json::Object(p)).unwrap();
    assert_eq!(back.ts_unix_ms, 0);
    assert!(!back.private);
}
