use recall::embed::Role;
use recall::error::Error;
use recall::error::Status;
use recall::filter::Query;
use recall::filter::retention_filter;
use recall::item::Item;
use recall::json::Json;
use recall::json::Number;
use recall::json::StrMap;
use recall::reading::Hit;
use recall::request::after_send;
use recall::request::Answer;
use recall::request::Attempt;
use recall::request::Body;
use recall::request::Method;
use recall::request::Next;
use recall::request::Reads;
use recall::request::Reply;
use recall::request::Request;
use recall::request::Sent;
use recall::store::Config;
use recall::store::Counted;
use recall::store::Opening;
use recall::store::Removal;
use recall::store::Stats;
use recall::store::Store;
use recall::store::Upserting;

fn cfg() -> Config {
    Config { qdrant_url: "http://q:6333/".into(), collection: "memory".into(), timeout_ms: 5000 }
}

fn store() -> Store {
    Store { cfg: cfg() }
}

fn served() -> Reply {
    Reply::Answered(ok(), String::new())
}

fn ok() -> Status {
    Status { code: 200, text: "200 OK".into() }
}

fn refused() -> Status {
    Status { code: 400, text: "400 Bad Request".into() }
}

fn obj() -> StrMap<Json> {
    StrMap::empty()
}

fn one(key: &str, value: Json) -> Json {
    Json::Object(obj().set(key, value))
}

fn item(key: &str, text: &str) -> Item {
    Item {
        namespace: "jade".into(),
        kind: "fact".into(),
        key: key.into(),
        text: text.into(),
        ts_unix_ms: 1,
        private: false,
        meta: StrMap::new(),
    }
}

fn vector(x: &str) -> Json {
    Json::Array(vec![Json::Number(Number::Float(x.into()))])
}

#[test]
fn a_request_is_retried_once_and_only_unanswered() {
    let dropped = Sent::Failed { connecting: false, requesting: true };
    let no_connection = Sent::Failed { connecting: true, requesting: false };
    let other = Sent::Failed { connecting: false, requesting: false };
    assert_eq!(after_send(Attempt::First, true, Sent::Answered), Next::Deliver);
    assert_eq!(after_send(Attempt::Second, true, Sent::Answered), Next::Deliver);
    assert_eq!(after_send(Attempt::First, true, dropped), Next::Retry);
    assert_eq!(after_send(Attempt::First, true, no_connection), Next::Retry);
    assert_eq!(after_send(Attempt::First, false, dropped), Next::GiveUp);
    assert_eq!(after_send(Attempt::First, true, other), Next::GiveUp);
    assert_eq!(after_send(Attempt::Second, true, dropped), Next::GiveUp);
}

#[test]
fn a_status_serves_from_200_to_299() {
    for (code, serves) in [(199, false), (200, true), (204, true), (299, true), (300, false), (404, false)] {
        assert_eq!(Status { code, text: String::new() }.is_success(), serves);
    }
}

#[test]
fn what_is_read_depends_on_what_is_asked() {
    let unchanged = Status { code: 304, text: "304 Not Modified".into() };
    assert_eq!(Reads::Status.body(&ok()), Body::Nothing);
    assert_eq!(Reads::Status.body(&refused()), Body::Nothing);
    assert_eq!(Reads::RefusalText.body(&ok()), Body::Nothing);
    assert_eq!(Reads::RefusalText.body(&refused()), Body::Text);
    assert_eq!(Reads::RefusalText.body(&unchanged), Body::Text);
    assert_eq!(Reads::Document.body(&ok()), Body::Document);
    assert_eq!(Reads::Document.body(&refused()), Body::Nothing);
    assert_eq!(Reads::Document.body(&unchanged), Body::Nothing);
    assert_eq!(Reads::DocumentOrRefusalText.body(&ok()), Body::Document);
    assert_eq!(Reads::DocumentOrRefusalText.body(&refused()), Body::Text);
    assert_eq!(Reads::DocumentOrClientError.body(&ok()), Body::Document);
    assert_eq!(Reads::DocumentOrClientError.body(&unchanged), Body::Document);
    assert_eq!(Reads::DocumentOrClientError.body(&refused()), Body::ClientError);
}

#[test]
fn addresses_are_in_the_collection() {
    assert_eq!(store().url(""), "http://q:6333/collections/memory");
    assert_eq!(store().url("/points"), "http://q:6333/collections/memory/points");
}

fn indexed_after(first: Reply, second: Option<Reply>, dim: usize) -> Vec<Request> {
    let (store, mut at, request) = Store::open(cfg());
    assert_eq!(at, Opening::Probing);
    let mut sent = vec![request.unwrap()];
    let mut replies = vec![first];
    replies.extend(second);
    let mut i = 0;
    loop {
        let reply = replies.get(i).cloned().unwrap_or(Reply::Unreachable("down".into()));
        i += 1;
        let (next, request) = store.ensure_collection(at, reply, dim).unwrap();
        at = next;
        match request {
            Some(r) => sent.push(r),
            None => break,
        }
    }
    assert_eq!(at, Opening::Open);
    sent
}

#[test]
fn an_existing_collection_gets_its_indexes_whatever_comes_of_them() {
    let sent = indexed_after(served(), None, 0);
    assert_eq!(sent.len(), 11);
    assert_eq!(sent[0].method, Method::Get);
    assert_eq!(sent[0].url, "http://q:6333/collections/memory");
    assert_eq!(sent[0].body, None);
    let want = [
        ("namespace", "keyword"),
        ("kind", "keyword"),
        ("source", "keyword"),
        ("device_id", "keyword"),
        ("person", "keyword"),
        ("room", "keyword"),
        ("ts_unix_ms", "integer"),
        ("private", "bool"),
        ("last_recalled_ms", "integer"),
        ("recalled", "integer"),
    ];
    for (r, (field, schema)) in sent[1..].iter().zip(want) {
        assert_eq!(r.method, Method::Put);
        assert_eq!(r.url, "http://q:6333/collections/memory/index");
        let body = obj().set("field_name", Json::text(field)).set("field_schema", Json::text(schema));
        assert_eq!(r.body, Some(Json::Object(body)));
        assert_eq!(r.reads, Reads::Status);
    }
}

#[test]
fn an_absent_collection_is_created_with_the_dimension() {
    let sent = indexed_after(Reply::Answered(refused(), String::new()), Some(served()), 384);
    assert_eq!(sent.len(), 12);
    assert_eq!(sent[1].method, Method::Put);
    assert_eq!(sent[1].url, "http://q:6333/collections/memory");
    let size = obj().set("size", Json::integer(384)).set("distance", Json::text("Cosine"));
    assert_eq!(sent[1].body, Some(one("vectors", Json::Object(size))));
}

#[test]
fn opening_fails_where_the_collection_cannot_be_had() {
    let s = store();
    let e = s.ensure_collection(Opening::Probing, Reply::Answered(refused(), String::new()), 0).unwrap_err();
    assert_eq!(e, Error::NoDimension);
    assert_eq!(e.message(), "the embedder has no dimension yet");
    let e = s.ensure_collection(Opening::Creating, Reply::Answered(refused(), String::new()), 4).unwrap_err();
    assert_eq!(e.message(), "creating collection: 400 Bad Request");
    for at in [Opening::Probing, Opening::Creating] {
        let e = s.ensure_collection(at, Reply::Unreachable("refused".into()), 4).unwrap_err();
        assert_eq!(e, Error::Unreachable("refused".into()));
        assert_eq!(e.message(), "qdrant unreachable");
    }
}

#[test]
fn an_upsert_sends_points() {
    assert_eq!(Store::upsert_texts(&[]), Upserting::Settled(0));
    let items = [item("a", "one"), item("b", "two")];
    assert_eq!(
        Store::upsert_texts(&items),
        Upserting::Embed(vec!["one".to_string(), "two".to_string()], Role::Document)
    );
    let r = store().upsert(&items, &[vector("0.5"), vector("1.5")]);
    assert_eq!(r.method, Method::Put);
    assert_eq!(r.url, "http://q:6333/collections/memory/points?wait=true");
    assert_eq!(r.reads, Reads::RefusalText);
    let point = |i: &Item, v: &str| {
        Json::Object(
            obj()
                .set("id", Json::text(&i.id().text()))
                .set("vector", vector(v))
                .set("payload", i.payload()),
        )
    };
    let points = vec![point(&items[0], "0.5"), point(&items[1], "1.5")];
    assert_eq!(r.body, Some(one("points", Json::Array(points))));
}

#[test]
fn an_upsert_sends_no_item_without_a_vector() {
    let items = [item("a", "one"), item("b", "two")];
    let r = store().upsert(&items, &[vector("0.5")]);
    let body = r.body.unwrap();
    assert_eq!(body.get("points").unwrap().as_array().unwrap().len(), 1);
}

#[test]
fn an_upsert_reports_how_many_were_sent() {
    let items = [item("a", "one"), item("b", "two")];
    let both = [vector("0.5"), vector("1.5")];
    assert_eq!(Store::upserted(&items, &both, served()), Ok(2));
    assert_eq!(Store::upserted(&items, &both[..1], served()), Ok(1), "one was sent");
    assert_eq!(Store::upserted(&items[..1], &both, served()), Ok(1));
    assert_eq!(Store::upserted(&items, &[], served()), Ok(0));
    let e = Store::upserted(&items, &both, Reply::Answered(refused(), "why".into())).unwrap_err();
    assert_eq!(e, Error::UpsertRefused(refused(), "why".into()));
    assert_eq!(e.message(), "upsert: 400 Bad Request why");
    assert_eq!(
        Store::upserted(&items, &both, Reply::Unreachable("x".into())),
        Err(Error::Unreachable("x".into()))
    );
}

#[test]
fn a_search_asks_with_the_first_vector() {
    let q = Query { text: "kettle".into(), include_private: true, ..Default::default() };
    assert_eq!(Store::search_texts(&q), (vec!["kettle".to_string()], Role::Query));
    let r = store().search(&q, &[vector("0.25"), vector("9.0")]).unwrap();
    assert_eq!(r.method, Method::Post);
    assert_eq!(r.url, "http://q:6333/collections/memory/points/search");
    assert_eq!(r.reads, Reads::Document);
    let body = obj()
        .set("vector", vector("0.25"))
        .set("limit", Json::integer(1))
        .set("with_payload", Json::Bool(true))
        .set("score_threshold", Json::Number(Number::Float("0.0".into())))
        .set("filter", one("must", Json::Array(vec![])));
    assert_eq!(r.body, Some(Json::Object(body)));
    let q = Query { top_k: 8, ..q };
    let r = store().search(&q, &[vector("0.25")]).unwrap();
    assert_eq!(r.body.unwrap().get("limit"), Some(&Json::integer(8)));
    for (min_score, sent) in [
        (None, Json::Null),
        (Some(Number::Int(1)), Json::integer(1)),
        (Some(Number::Float("0.25".into())), Json::Number(Number::Float("0.25".into()))),
    ] {
        let r = store().search(&Query { min_score, ..q.clone() }, &[vector("0.25")]).unwrap();
        assert_eq!(r.body.unwrap().get("score_threshold"), Some(&sent));
    }
    assert_eq!(store().search(&q, &[]), Err(Error::NoQueryVector));
    assert_eq!(Error::NoQueryVector.message(), "no query vector");
}

#[test]
fn a_search_finds_what_has_a_score_and_a_memory() {
    let a = item("a", "one");
    let hit = |score: Json, payload: Json| Json::Object(obj().set("score", score).set("payload", payload));
    let answer = one(
        "result",
        Json::Array(vec![
            hit(Json::Number(Number::Float("0.9".into())), a.payload()),
            hit(Json::Null, a.payload()),
            hit(Json::integer(1), Json::Null),
            hit(Json::integer(1), a.payload()),
            one("score", Json::integer(1)),
        ]),
    );
    let hits = Store::found(Answer::Document(answer)).unwrap();
    assert_eq!(
        hits,
        vec![
            Hit { score: Number::Float("0.9".into()), item: a.clone() },
            Hit { score: Number::Int(1), item: a },
        ]
    );
    assert_eq!(Store::found(Answer::Document(Json::Null)), Ok(vec![]));
    assert_eq!(Store::found(Answer::Document(one("result", Json::text("x")))), Ok(vec![]));
    let e = Store::found(Answer::Refused(refused(), String::new())).unwrap_err();
    assert_eq!(e.message(), "search: 400 Bad Request");
    let e = Store::found(Answer::Unreadable("no json".into())).unwrap_err();
    assert_eq!(e.message(), "no json");
    assert_eq!(
        Store::found(Answer::Unreachable("x".into())),
        Err(Error::Unreachable("x".into()))
    );
}

#[test]
fn a_scroll_asks_for_the_newest() {
    let ns = one("key", Json::text("namespace"));
    let r = store().scroll(vec![ns.clone()], 0);
    assert_eq!(r.method, Method::Post);
    assert_eq!(r.url, "http://q:6333/collections/memory/points/scroll");
    assert_eq!(r.reads, Reads::DocumentOrRefusalText);
    let order = obj().set("key", Json::text("ts_unix_ms")).set("direction", Json::text("desc"));
    let body = obj()
        .set("limit", Json::integer(1))
        .set("with_payload", Json::Bool(true))
        .set("with_vector", Json::Bool(false))
        .set("filter", one("must", Json::Array(vec![ns])))
        .set("order_by", Json::Object(order));
    assert_eq!(r.body, Some(Json::Object(body)));
    assert_eq!(store().scroll(vec![], 10).body.unwrap().get("limit"), Some(&Json::integer(10)));
}

#[test]
fn a_scroll_reads_back_what_an_upsert_wrote() {
    let items = [item("later", "two"), item("filter", "one")];
    let sent = store().upsert(&items, &[vector("0.5"), vector("1.5")]).body.unwrap();
    let points = sent.get("points").unwrap().clone();
    let answer = one("result", one("points", points));
    assert_eq!(Store::scrolled(Answer::Document(answer)), Ok(items.to_vec()));
    assert_eq!(Store::scrolled(Answer::Document(Json::Null)), Ok(vec![]));
    let e = Store::scrolled(Answer::Refused(refused(), "too old".into())).unwrap_err();
    assert_eq!(e.message(), "scroll: 400 Bad Request too old");
    assert_eq!(
        Store::scrolled(Answer::Unreadable("no json".into())),
        Err(Error::Http("no json".into()))
    );
    assert_eq!(
        Store::scrolled(Answer::Unreachable("x".into())),
        Err(Error::Unreachable("x".into()))
    );
}

#[test]
fn a_replacement_deletes_the_stale_ids_alone() {
    let kept = [item("old-a", "").id(), item("new-c", "").id()];
    let before = [item("old-a", "").id(), item("old-b", "").id(), item("new-c", "").id()];
    let stale: Vec<_> = before.iter().filter(|id| !kept.contains(id)).cloned().collect();
    assert_eq!(stale, vec![item("old-b", "").id()]);
    let r = match store().delete_ids(&stale) {
        Removal::Delete(r) => r,
        Removal::Settled(_) => panic!("one point is to be deleted"),
    };
    assert_eq!(r.method, Method::Post);
    assert_eq!(r.url, "http://q:6333/collections/memory/points/delete?wait=true");
    assert_eq!(r.reads, Reads::Status);
    let ids = Json::Array(vec![Json::text(&stale[0].text())]);
    let filter = one("must", Json::Array(vec![one("has_id", ids)]));
    assert_eq!(r.body, Some(one("filter", filter)));
    assert_eq!(Store::ids_deleted(&stale, served()), Ok(1));
    assert_eq!(store().delete_ids(&[]), Removal::Settled(0));
    let e = Store::ids_deleted(&stale, Reply::Answered(refused(), String::new())).unwrap_err();
    assert_eq!(e.message(), "delete by id: 400 Bad Request");
    assert_eq!(
        Store::ids_deleted(&stale, Reply::Unreachable("x".into())),
        Err(Error::Unreachable("x".into()))
    );
}

fn counted(n: i128) -> Answer {
    Answer::Document(one("result", one("count", Json::integer(n))))
}

#[test]
fn a_deletion_counts_first_and_deletes_what_was_counted() {
    let must = vec![one("key", Json::text("a"))];
    let must_not = vec![one("key", Json::text("b"))];
    let filter = Json::Object(
        obj()
            .set("must", Json::Array(must.clone()))
            .set("must_not", Json::Array(must_not.clone())),
    );
    let s = store();
    let (d, r) = s.delete_where(must, must_not, false);
    assert_eq!(r.method, Method::Post);
    assert_eq!(r.url, "http://q:6333/collections/memory/points/count");
    assert_eq!(r.reads, Reads::DocumentOrClientError);
    let body = obj().set("filter", filter.clone()).set("exact", Json::Bool(true));
    assert_eq!(r.body, Some(Json::Object(body)));
    match s.counted(d.clone(), counted(3)).unwrap() {
        Counted::Delete(n, r) => {
            assert_eq!(n, 3);
            assert_eq!(r.url, "http://q:6333/collections/memory/points/delete?wait=true");
            assert_eq!(r.body, Some(one("filter", filter)));
            assert_eq!(Store::deleted(n, served()), Ok(3));
        }
        Counted::Settled(_) => panic!("three points are to be deleted"),
    }
    assert_eq!(s.counted(d.clone(), counted(0)), Ok(Counted::Settled(0)));
    assert_eq!(s.counted(d.clone(), Answer::Document(Json::Null)), Ok(Counted::Settled(0)));
    assert_eq!(
        s.counted(d.clone(), Answer::Refused(refused(), "HTTP 400".into())),
        Err(Error::Http("HTTP 400".into()))
    );
    assert_eq!(
        s.counted(d.clone(), Answer::Unreadable("no json".into())),
        Err(Error::Http("no json".into()))
    );
    assert_eq!(
        s.counted(d, Answer::Unreachable("x".into())),
        Err(Error::Unreachable("x".into()))
    );
    let e = Store::deleted(3, Reply::Answered(refused(), String::new())).unwrap_err();
    assert_eq!(e.message(), "delete: 400 Bad Request");
    assert_eq!(
        Store::deleted(3, Reply::Unreachable("x".into())),
        Err(Error::Unreachable("x".into()))
    );
}

#[test]
fn a_dry_run_only_counts() {
    let s = store();
    let (d, _) = s.delete_where(vec![], vec![], true);
    assert_eq!(s.counted(d, counted(7)), Ok(Counted::Settled(7)));
}

#[test]
fn a_prune_is_a_deletion_by_the_retention_filter() {
    let (must, must_not) = retention_filter(9);
    assert_eq!(store().prune_before(9, true), store().delete_where(must, must_not, true));
}

#[test]
fn a_payload_is_merged_into_one_point() {
    let id = item("later", "").id();
    let stamp = one("recalled", Json::integer(3));
    let r = store().set_payload(&id, stamp.clone());
    assert_eq!(r.method, Method::Post);
    assert_eq!(r.url, "http://q:6333/collections/memory/points/payload?wait=true");
    let body = obj().set("points", Json::Array(vec![Json::text(&id.text())])).set("payload", stamp);
    assert_eq!(r.body, Some(Json::Object(body)));
    assert_eq!(Store::payload_set(served()), Ok(()));
    let e = Store::payload_set(Reply::Answered(refused(), "why".into())).unwrap_err();
    assert_eq!(e.message(), "set payload: 400 Bad Request why");
    assert_eq!(
        Store::payload_set(Reply::Unreachable("x".into())),
        Err(Error::Unreachable("x".into()))
    );
}

#[test]
fn stats_are_read_off_the_collection() {
    let s = store();
    let r = s.stats();
    assert_eq!(r.method, Method::Get);
    assert_eq!(r.url, "http://q:6333/collections/memory");
    assert_eq!(r.body, None);
    let answer = Answer::Document(one("result", one("points_count", Json::integer(5))));
    assert_eq!(
        s.stats_read(answer, 384, "bge"),
        Ok(Stats { points: 5, dim: 384, collection: "memory".into(), embedder: "bge".into() })
    );
    let none = s.stats_read(Answer::Document(Json::Null), 0, "none").unwrap();
    assert_eq!(none.points, 0);
    assert_eq!(
        s.stats_read(Answer::Refused(refused(), "HTTP 400".into()), 0, "none"),
        Err(Error::Http("HTTP 400".into()))
    );
    assert_eq!(
        s.stats_read(Answer::Unreadable("no json".into()), 0, "none"),
        Err(Error::Http("no json".into()))
    );
    assert_eq!(
        s.stats_read(Answer::Unreachable("x".into()), 0, "none"),
        Err(Error::Unreachable("x".into()))
    );
}

#[test]
fn a_tokenizers_failure_is_said_with_its_reason() {
    assert_eq!(Error::Tokenizing("odd".into()).message(), "tokenizing: odd");
    assert_eq!(Error::Truncation("odd".into()).message(), "tokenizer truncation: odd");
}
