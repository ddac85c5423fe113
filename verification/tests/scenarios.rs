//! Whole operations against a collection in memory.
use std::collections::BTreeMap;

use recall::error::Status;
use recall::filter::Query;
use recall::item::Item;
use recall::json::Json;
use recall::json::Number;
use recall::json::StrMap;
use recall::point_id::PointId;
use recall::reading::Hit;
use recall::request::Answer;
use recall::request::Reply;
use recall::request::Request;
use recall::store::Config;
use recall::store::Counted;
use recall::store::Deletion;
use recall::store::Opening;
use recall::store::Removal;
use recall::store::Store;
use recall::store::Upserting;

/// A store, and the payloads of its points by their ids.
struct Memory {
    store: Store,
    points: BTreeMap<String, StrMap<Json>>,
}

fn obj() -> StrMap<Json> {
    StrMap::empty()
}

fn one(key: &str, value: Json) -> Json {
    Json::Object(obj().set(key, value))
}

fn is(field: &str, value: &str) -> Json {
    Json::Object(obj().set("key", Json::text(field)).set("match", one("value", Json::text(value))))
}

fn served() -> Reply {
    Reply::Answered(Status { code: 200, text: "200 OK".into() }, String::new())
}

fn copy(m: &StrMap<Json>) -> StrMap<Json> {
    (0..m.len()).fold(obj(), |c, i| c.set(m.entry(i).0, m.entry(i).1.clone()))
}

fn elements(d: Option<&Json>) -> Vec<Json> {
    d.and_then(Json::as_array).cloned().unwrap_or_default()
}

fn text_of(d: &Json, key: &str) -> String {
    d.get(key).and_then(Json::as_str).unwrap().to_string()
}

fn meets(clause: &Json, id: &str, p: &StrMap<Json>) -> bool {
    if clause.get("has_id").is_some() {
        return elements(clause.get("has_id")).contains(&Json::text(id));
    }
    let value = match p.get(&text_of(clause, "key")) {
        Some(v) => v,
        None => return false,
    };
    if let Some(range) = clause.get("range") {
        let bound = |k: &str| range.get(k).and_then(Json::as_i64);
        return match value.as_i64() {
            Some(n) => bound("gte").map_or(true, |b| b <= n) && bound("lt").map_or(true, |b| n < b),
            None => false,
        };
    }
    let how = clause.get("match").unwrap();
    match how.get("any") {
        Some(any) => elements(Some(any)).contains(value),
        None => how.get("value") == Some(value),
    }
}

impl Memory {
    fn open(collection: &str) -> Memory {
        let cfg = Config {
            qdrant_url: "http://127.0.0.1:6333".into(),
            collection: collection.into(),
            timeout_ms: 5000,
        };
        let (store, mut at, mut request) = Store::open(cfg);
        while request.is_some() {
            let (next, then) = store.ensure_collection(at, served(), 4).unwrap();
            at = next;
            request = then;
        }
        assert_eq!(at, Opening::Open);
        Memory { store, points: BTreeMap::new() }
    }

    fn chosen(&self, filter: &Json) -> Vec<String> {
        let must = elements(filter.get("must"));
        let must_not = elements(filter.get("must_not"));
        self.points
            .iter()
            .filter(|(id, p)| {
                must.iter().all(|c| meets(c, id, p)) && !must_not.iter().any(|c| meets(c, id, p))
            })
            .map(|(id, _)| id.clone())
            .collect()
    }

    fn point(&self, id: &str) -> Json {
        Json::Object(
            obj()
                .set("score", Json::Number(Number::Float("1.0".into())))
                .set("payload", Json::Object(copy(&self.points[id]))),
        )
    }

    fn serve(&mut self, r: &Request) -> Json {
        let base = "http://127.0.0.1:6333/collections/";
        let path = r.url.strip_prefix(base).unwrap().split_once('/').map_or("", |x| x.1);
        let body = r.body.clone().unwrap_or(Json::Null);
        let filter = body.get("filter").cloned().unwrap_or(Json::Null);
        match path {
            "points?wait=true" => {
                for p in elements(body.get("points")) {
                    let payload = p.get("payload").unwrap().as_object().unwrap();
                    self.points.insert(text_of(&p, "id"), copy(payload));
                }
                Json::Null
            }
            "points/payload?wait=true" => {
                let patch = copy(body.get("payload").unwrap().as_object().unwrap());
                for id in elements(body.get("points")) {
                    let id = id.as_str().unwrap();
                    let old = copy(&self.points[id]);
                    let new = (0..patch.len())
                        .fold(old, |m, i| m.set(patch.entry(i).0, patch.entry(i).1.clone()));
                    self.points.insert(id.to_string(), new);
                }
                Json::Null
            }
            "points/delete?wait=true" => {
                for id in self.chosen(&filter) {
                    self.points.remove(&id);
                }
                Json::Null
            }
            "points/count" => {
                let n = self.chosen(&filter).len();
                one("result", one("count", Json::integer(n as i128)))
            }
            "points/search" => {
                let least = match body.get("score_threshold") {
                    Some(Json::Number(Number::Float(s))) => s.parse::<f64>().unwrap(),
                    _ => panic!("a threshold is sent"),
                };
                let found = if least <= 1.0 { self.chosen(&filter) } else { Vec::new() };
                one("result", Json::Array(found.iter().map(|id| self.point(id)).collect()))
            }
            "points/scroll" => {
                let mut found = self.chosen(&filter);
                found.sort_by_key(|id| {
                    -self.points[id].get("ts_unix_ms").and_then(Json::as_i64).unwrap()
                });
                found.truncate(body.get("limit").and_then(Json::as_u64).unwrap() as usize);
                let points = found.iter().map(|id| self.point(id)).collect();
                one("result", one("points", Json::Array(points)))
            }
            "" => one("result", one("points_count", Json::integer(self.points.len() as i128))),
            _ => panic!("{path}"),
        }
    }

    fn upsert(&mut self, items: &[Item]) -> usize {
        let texts = match Store::upsert_texts(items) {
            Upserting::Embed(texts, _) => texts,
            Upserting::Settled(n) => return n,
        };
        let vectors: Vec<Json> =
            texts.iter().map(|t| Json::Array(vec![Json::integer(t.len() as i128)])).collect();
        let request = self.store.upsert(items, &vectors);
        self.serve(&request);
        Store::upserted(items, &vectors, served()).unwrap()
    }

    fn search(&mut self, q: Query) -> Vec<Hit> {
        let request = self.store.search(&q, &[Json::Array(vec![Json::integer(1)])]).unwrap();
        Store::found(Answer::Document(self.serve(&request))).unwrap()
    }

    fn scroll(&mut self, must: Vec<Json>, limit: usize) -> Vec<Item> {
        let request = self.store.scroll(must, limit);
        Store::scrolled(Answer::Document(self.serve(&request))).unwrap()
    }

    fn set_payload(&mut self, id: &PointId, payload: Json) {
        let request = self.store.set_payload(id, payload);
        self.serve(&request);
        Store::payload_set(served()).unwrap();
    }

    fn carry_out(&mut self, deletion: Deletion, count: Request) -> u64 {
        let answer = Answer::Document(self.serve(&count));
        match self.store.counted(deletion, answer).unwrap() {
            Counted::Settled(n) => n,
            Counted::Delete(n, request) => {
                let before = self.points.len() as u64;
                self.serve(&request);
                assert_eq!(before - self.points.len() as u64, n, "what was counted is what goes");
                Store::deleted(n, served()).unwrap()
            }
        }
    }

    fn prune_before(&mut self, ts_unix_ms: i64, dry_run: bool) -> u64 {
        let (deletion, count) = self.store.prune_before(ts_unix_ms, dry_run);
        self.carry_out(deletion, count)
    }

    fn delete_where(&mut self, must: Vec<Json>, must_not: Vec<Json>) -> u64 {
        let (deletion, count) = self.store.delete_where(must, must_not, false);
        self.carry_out(deletion, count)
    }

    fn delete_ids(&mut self, ids: &[PointId]) -> u64 {
        match self.store.delete_ids(ids) {
            Removal::Settled(n) => n,
            Removal::Delete(request) => {
                self.serve(&request);
                Store::ids_deleted(ids, served()).unwrap()
            }
        }
    }

    fn stats_points(&mut self) -> u64 {
        let request = self.store.stats();
        let answer = Answer::Document(self.serve(&request));
        self.store.stats_read(answer, 4, "fixed").unwrap().points
    }
}

fn keys(items: &[Item]) -> Vec<&str> {
    items.iter().map(|i| i.key.as_str()).collect()
}

#[test]
fn a_round_trip_through_a_collection() {
    let mut store = Memory::open("recall_test");
    let item = Item {
        namespace: "t".into(),
        kind: "fact".into(),
        key: "filter".into(),
        text: "the water filter was changed on the third of September".into(),
        ts_unix_ms: 1,
        private: false,
        meta: StrMap::new(),
    };
    store.upsert(&[item.clone(), item.clone()]);
    let query = |text: &str| Query {
        namespace: Some("t".into()),
        text: text.into(),
        top_k: 3,
        include_private: true,
        ..Default::default()
    };
    let threshold = Some(Number::Float((0.3f32 as f64).to_string()));
    let hits = store
        .search(Query { min_score: threshold, ..query("when was the water filter changed") });
    assert_eq!(hits.len(), 1, "idempotent upsert, one point");
    assert!(hits[0].item.text.contains("water filter"));
    let mut later = item.clone();
    later.key = "later".into();
    later.ts_unix_ms = 9;
    later.meta = later.meta.with("device_id".into(), "office".into());
    store.upsert(&[later.clone()]);
    let ns = is("namespace", "t");
    let scrolled = store.scroll(vec![ns.clone()], 10);
    assert_eq!(keys(&scrolled), ["later", "filter"]);
    assert_eq!(scrolled, vec![later.clone(), item]);
    let windowed = store.search(Query { since_unix_ms: Some(5), ..query("water filter") });
    assert_eq!(windowed.len(), 1);
    assert_eq!(windowed[0].item.key, "later");
    let on_office = store.search(Query { device_id: Some("office".into()), ..query("water filter") });
    assert_eq!(on_office.len(), 1);
    store.set_payload(&later.id(), one("recalled", Json::integer(3)));
    let back = store.scroll(vec![ns.clone(), is("key", "later")], 1);
    assert_eq!(back[0].meta.get("recalled").map(String::as_str), Some("3"));
    assert_eq!(store.prune_before(2, true), 1);
    assert_eq!(store.prune_before(2, false), 1);
    assert_eq!(store.delete_where(vec![ns], Vec::new()), 1);
    assert_eq!(store.stats_points(), 0);
}

#[test]
fn a_prune_spares_what_was_recalled() {
    let mut store = Memory::open("recall_retention");
    let old = 1_600_000_000_000i64;
    let cutoff = 1_700_000_000_000i64;
    let item = |key: &str, ts| Item {
        namespace: "jade".into(),
        kind: "exchange".into(),
        key: key.into(),
        text: format!("memory {key} about the kettle"),
        ts_unix_ms: ts,
        private: false,
        meta: StrMap::new(),
    };
    store.upsert(&[item("forgotten", old), item("reached-for", old), item("fresh", cutoff + 1_000)]);
    let reached = store.scroll(vec![is("key", "reached-for")], 1);
    assert_eq!(reached.len(), 1, "the recalled memory is in the store");
    let stamp = obj()
        .set("recalled", Json::integer(1))
        .set("last_recalled_ms", Json::integer((cutoff + 1_000) as i128));
    store.set_payload(&reached[0].id(), Json::Object(stamp));

    let counted = store.prune_before(cutoff, true);
    assert_eq!(counted, 1, "only the memory that was never recalled is old");
    assert_eq!(store.prune_before(cutoff, true), 1);
    let deleted = store.prune_before(cutoff, false);
    assert_eq!(deleted, 1);
    assert_eq!(store.prune_before(cutoff, false), 0, "nothing old is left");
    let left = store.scroll(vec![is("namespace", "jade")], 10);
    let keys = keys(&left);
    assert!(keys.contains(&"reached-for") && keys.contains(&"fresh"), "{keys:?}");
    assert!(!keys.contains(&"forgotten"), "{keys:?}");
}

#[test]
fn a_replacement_writes_before_it_deletes() {
    let mut store = Memory::open("recall_replace");
    let fact = |key: &str, turn: &str| Item {
        namespace: "jade".into(),
        kind: "fact".into(),
        key: key.into(),
        text: format!("fact {key}"),
        ts_unix_ms: 1_700_000_000_000,
        private: false,
        meta: StrMap::new().with("from_turn".to_string(), turn.to_string()),
    };
    let by_turn = |turn: &str| vec![is("kind", "fact"), is("from_turn", turn)];
    store.upsert(&[fact("old-a", "t1"), fact("old-b", "t1")]);
    assert_eq!(store.scroll(by_turn("t1"), 10).len(), 2);
    store.upsert(&[fact("old-a", "t1"), fact("new-c", "t1")]);
    let before = store.scroll(by_turn("t1"), 10);
    let kept: Vec<PointId> = vec![fact("old-a", "t1").id(), fact("new-c", "t1").id()];
    let stale: Vec<PointId> = before.iter().map(Item::id).filter(|id| !kept.contains(id)).collect();
    assert_eq!(store.delete_ids(&stale), 1, "only old-b goes");
    let left = store.scroll(by_turn("t1"), 10);
    let keys = keys(&left);
    assert!(keys.contains(&"old-a") && keys.contains(&"new-c"), "{keys:?}");
    assert_eq!(store.delete_ids(&left.iter().map(Item::id).collect::<Vec<_>>()), 2);
    assert!(store.scroll(by_turn("t1"), 10).is_empty());
}

#[test]
fn a_private_memory_is_found_only_where_it_is_asked_for() {
    let mut store = Memory::open("recall_private");
    let item = |key: &str, private| Item {
        namespace: "jade".into(),
        kind: "fact".into(),
        key: key.into(),
        text: key.into(),
        ts_unix_ms: 1,
        private,
        meta: StrMap::new(),
    };
    store.upsert(&[item("open", false), item("secret", true)]);
    let found = store.search(Query::default());
    assert_eq!(found.iter().map(|h| h.item.key.as_str()).collect::<Vec<_>>(), ["open"]);
    assert_eq!(store.search(Query { include_private: true, ..Default::default() }).len(), 2);
    let other = Query { kinds: vec!["exchange".into()], ..Default::default() };
    assert!(store.search(other).is_empty());
}

#[test]
fn a_scroll_reads_the_newest_first() {
    let mut store = Memory::open("recall_scroll");
    let item = |key: &str, ts| Item {
        namespace: "jade".into(),
        kind: "fact".into(),
        key: key.into(),
        text: key.into(),
        ts_unix_ms: ts,
        private: false,
        meta: StrMap::new(),
    };
    store.upsert(&[item("b", 2), item("d", 4), item("a", -1), item("c", 3)]);
    assert_eq!(keys(&store.scroll(vec![is("namespace", "jade")], 10)), ["d", "c", "b", "a"]);
    assert_eq!(keys(&store.scroll(vec![is("namespace", "jade")], 2)), ["d", "c"]);
    assert_eq!(keys(&store.scroll(vec![], 0)), ["d"], "one at least");
    assert!(store.scroll(vec![is("namespace", "other")], 10).is_empty());
}

#[test]
fn a_stamped_memory_is_found_as_before() {
    let mut store = Memory::open("recall_stamped");
    let item = |key: &str, device: &str| Item {
        namespace: "jade".into(),
        kind: "fact".into(),
        key: key.into(),
        text: key.into(),
        ts_unix_ms: 7,
        private: false,
        meta: StrMap::new().with("device_id".into(), device.into()),
    };
    store.upsert(&[item("a", "office"), item("b", "kitchen")]);
    store.set_payload(&item("a", "").id(), one("recalled", Json::integer(3)));
    let query = || Query {
        namespace: Some("jade".into()),
        kinds: vec!["fact".into()],
        since_unix_ms: Some(7),
        until_unix_ms: Some(8),
        device_id: Some("office".into()),
        top_k: 5,
        ..Default::default()
    };
    let found = store.search(query());
    assert_eq!(found.len(), 1);
    assert_eq!(found[0].item.key, "a");
    assert_eq!(found[0].item.meta.get("recalled").map(String::as_str), Some("3"));
    assert!(store.search(Query { until_unix_ms: Some(7), ..query() }).is_empty());
    store.set_payload(&item("a", "").id(), one("device_id", Json::integer(4)));
    assert!(store.search(Query { device_id: Some("4".into()), ..query() }).is_empty());
}

#[test]
fn metadata_named_like_an_unasked_field_hides_nothing() {
    let mut store = Memory::open("recall_shadow");
    let item = Item {
        namespace: "jade".into(),
        kind: "fact".into(),
        key: "k".into(),
        text: "x".into(),
        ts_unix_ms: 1,
        private: false,
        meta: StrMap::new().with("kind".into(), "other".into()).with("text".into(), "y".into()),
    };
    store.upsert(&[item]);
    let query = || Query { namespace: Some("jade".into()), ..Default::default() };
    assert_eq!(store.search(query()).len(), 1);
    assert!(store.search(Query { kinds: vec!["fact".into()], ..query() }).is_empty());
}
