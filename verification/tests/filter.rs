use recall::filter::retention_filter;
use recall::filter::Query;
use recall::json::Json;
use recall::json::Number;
use recall::json::StrMap;

fn one(key: &str, value: Json) -> Json {
    Json::Object(StrMap::empty().set(key, value))
}

fn clause(field: &str, how: &str, what: Json) -> Json {
    Json::Object(StrMap::empty().set("key", Json::text(field)).set(how, what))
}

#[test]
fn the_default_query_leaves_only_the_private_out() {
    let q = Query::default();
    assert_eq!(q.top_k, 0);
    assert_eq!(q.text, "");
    assert_eq!(q.min_score, Some(Number::Float("0.0".into())));
    assert_eq!(q.must(), vec![clause("private", "match", one("value", Json::Bool(false)))]);
}

#[test]
fn a_query_for_everything_has_no_clause() {
    let q = Query { include_private: true, ..Default::default() };
    assert_eq!(q.must(), vec![]);
}

#[test]
fn each_part_of_a_query_is_a_clause() {
    let q = Query {
        namespace: Some("jade".into()),
        kinds: vec!["fact".into(), "exchange".into()],
        device_id: Some("office".into()),
        since_unix_ms: Some(5),
        until_unix_ms: Some(9),
        ..Default::default()
    };
    assert_eq!(
        q.must(),
        vec![
            clause("namespace", "match", one("value", Json::text("jade"))),
            clause("private", "match", one("value", Json::Bool(false))),
            clause(
                "kind",
                "match",
                one("any", Json::Array(vec![Json::text("fact"), Json::text("exchange")]))
            ),
            clause("device_id", "match", one("value", Json::text("office"))),
            clause(
                "ts_unix_ms",
                "range",
                Json::Object(StrMap::empty().set("gte", Json::integer(5)).set("lt", Json::integer(9)))
            ),
        ]
    );
}

#[test]
fn a_window_may_be_open_on_one_side() {
    let since = Query { include_private: true, since_unix_ms: Some(5), ..Default::default() };
    assert_eq!(since.must(), vec![clause("ts_unix_ms", "range", one("gte", Json::integer(5)))]);
    let until = Query { include_private: true, until_unix_ms: Some(-5), ..Default::default() };
    assert_eq!(until.must(), vec![clause("ts_unix_ms", "range", one("lt", Json::integer(-5)))]);
}

#[test]
fn a_prune_deletes_what_is_old_and_was_not_recalled() {
    let cutoff = 1_700_000_000_000i64;
    let (must, must_not) = retention_filter(cutoff);
    assert_eq!(must, vec![clause("ts_unix_ms", "range", one("lt", Json::integer(cutoff as i128)))]);
    assert_eq!(
        must_not,
        vec![clause("last_recalled_ms", "range", one("gte", Json::integer(cutoff as i128)))]
    );
    assert_eq!(retention_filter(cutoff), retention_filter(cutoff));
}
