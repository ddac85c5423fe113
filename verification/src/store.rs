//! The store: the requests that each operation makes, and what their answers mean.
//!
//! Nothing here talks to the network. Each operation is a function from what is asked to the
//! request that asks it, and one from the answer to the outcome; an operation that takes
//! several requests says after each answer what comes next.
use vstd::prelude::*;
use vstd::string::StringExecFns;

use crate::embed::Role;
use crate::error::Error;
use crate::error::Status;
use crate::filter::in_bounds;
use crate::filter::retention_filter;
use crate::filter::single;
use crate::filter::single_field;
use crate::filter::Query;
use crate::item::Item;
use crate::item::Memory;
use crate::json::docs;
use crate::json::lemma_docs_push;
use crate::json::Doc;
use crate::json::Json;
use crate::json::StrMap;
use crate::point_id::hyphenated;
use crate::point_id::text_tells_ids_apart;
use crate::point_id::PointId;
use crate::reading::elements;
use crate::reading::hit_views;
use crate::reading::hits_of;
use crate::reading::memories;
use crate::reading::memories_of;
use crate::reading::read_hits;
use crate::reading::read_items;
use crate::reading::read_number;
use crate::reading::result_number;
use crate::reading::Hit;
use crate::request::Answer;
use crate::request::Call;
use crate::request::Method;
use crate::request::Reads;
use crate::request::Reply;
use crate::request::Request;
use crate::text::trim_slashes;
use crate::text::without_trailing_slashes;

verus! {

broadcast use vstd::string::group_string_axioms;

/// Where the store is and how it is asked.
#[derive(Debug, Clone, PartialEq)]
pub struct Config {
    pub qdrant_url: String,
    pub collection: String,
    pub timeout_ms: u64,
}

/// What is in the store.
#[derive(Debug, Clone, PartialEq)]
pub struct Stats {
    pub points: u64,
    pub dim: usize,
    pub collection: String,
    pub embedder: String,
}

/// A collection of memories.
#[derive(Debug, Clone, PartialEq)]
pub struct Store {
    pub cfg: Config,
}

/// How far the opening of a store has come: which request is under way.
#[derive(Debug, Clone, Copy, PartialEq, Eq, Structural)]
pub enum Opening {
    /// Whether the collection exists is asked.
    Probing,
    /// The collection is created.
    Creating,
    /// The payload index at this place of the list is created.
    Indexing(usize),
    /// The store is open.
    Open,
}

/// How many payload indexes there are.
pub const INDEXES: usize = 10;

/// The payload indexes: the field, and what it holds.
pub open spec fn indexes() -> Seq<(Seq<char>, Seq<char>)> {
    seq![
        ("namespace"@, "keyword"@),
        ("kind"@, "keyword"@),
        ("source"@, "keyword"@),
        ("device_id"@, "keyword"@),
        ("person"@, "keyword"@),
        ("room"@, "keyword"@),
        ("ts_unix_ms"@, "integer"@),
        ("private"@, "bool"@),
        ("last_recalled_ms"@, "integer"@),
        ("recalled"@, "integer"@),
    ]
}

fn index(i: usize) -> (r: (&'static str, &'static str))
    requires
        i < INDEXES,
    ensures
        (r.0@, r.1@) == indexes()[i as int],
{
    if i == 0 {
        ("namespace", "keyword")
    } else if i == 1 {
        ("kind", "keyword")
    } else if i == 2 {
        ("source", "keyword")
    } else if i == 3 {
        ("device_id", "keyword")
    } else if i == 4 {
        ("person", "keyword")
    } else if i == 5 {
        ("room", "keyword")
    } else if i == 6 {
        ("ts_unix_ms", "integer")
    } else if i == 7 {
        ("private", "bool")
    } else if i == 8 {
        ("last_recalled_ms", "integer")
    } else {
        ("recalled", "integer")
    }
}

/// Where the opening of a store goes from `at` after `reply`. Of a collection that exists
/// nothing is created; one that is absent is created with the embedder's dimension, which
/// must be known; what comes of an index is not looked at, because one that exists already
/// is served like a new one.
pub open spec fn opening(at: Opening, reply: Reply, dim: usize) -> Result<Opening, Error> {
    match at {
        Opening::Probing => match reply {
            Reply::Unreachable(why) => Err(Error::Unreachable(why)),
            Reply::Answered(status, _) => if status.success() {
                Ok(Opening::Indexing(0))
            } else if dim == 0 {
                Err(Error::NoDimension)
            } else {
                Ok(Opening::Creating)
            },
        },
        Opening::Creating => match reply {
            Reply::Unreachable(why) => Err(Error::Unreachable(why)),
            Reply::Answered(status, _) => if status.success() {
                Ok(Opening::Indexing(0))
            } else {
                Err(Error::CreateRefused(status))
            },
        },
        Opening::Indexing(i) => if i + 1 < INDEXES {
            Ok(Opening::Indexing((i + 1) as usize))
        } else {
            Ok(Opening::Open)
        },
        Opening::Open => Ok(Opening::Open),
    }
}

/// An object with two fields.
pub open spec fn pair(k1: Seq<char>, v1: Doc, k2: Seq<char>, v2: Doc) -> Doc {
    Doc::Object(Map::<Seq<char>, Doc>::empty().insert(k1, v1).insert(k2, v2))
}

fn pair_of(k1: &str, v1: Json, k2: &str, v2: Json) -> (r: Json)
    ensures
        r@ == pair(k1@, v1@, k2@, v2@),
{
    Json::Object(StrMap::empty().set(k1, v1).set(k2, v2))
}

impl Store {
    /// The address of `path` in this store's collection.
    pub open spec fn address(self, path: Seq<char>) -> Seq<char> {
        without_trailing_slashes(self.cfg.qdrant_url@) + "/collections/"@ + self.cfg.collection@ + path
    }

    /// The address of `path` in this store's collection.
    pub fn url(&self, path: &str) -> (r: String)
        ensures
            r@ == self.address(path@),
    {
        let mut s = trim_slashes(self.cfg.qdrant_url.as_str());
        s.append("/collections/");
        s.append(self.cfg.collection.as_str());
        s.append(path);
        s
    }

    /// The request that is under way at a stage of the opening.
    pub open spec fn opening_call(self, at: Opening, dim: usize) -> Option<Call> {
        match at {
            Opening::Probing => Some(
                Call {
                    method: Method::Get,
                    url: self.address(""@),
                    body: None,
                    reads: Reads::Status,
                },
            ),
            Opening::Creating => Some(
                Call {
                    method: Method::Put,
                    url: self.address(""@),
                    body: Some(
                        single(
                            "vectors"@,
                            pair("size"@, Doc::Int(dim as int), "distance"@, Doc::Str("Cosine"@)),
                        ),
                    ),
                    reads: Reads::Status,
                },
            ),
            Opening::Indexing(i) => if i < INDEXES {
                Some(
                    Call {
                        method: Method::Put,
                        url: self.address("/index"@),
                        body: Some(
                            pair(
                                "field_name"@,
                                Doc::Str(indexes()[i as int].0),
                                "field_schema"@,
                                Doc::Str(indexes()[i as int].1),
                            ),
                        ),
                        reads: Reads::Status,
                    },
                )
            } else {
                None
            },
            Opening::Open => None,
        }
    }

    fn opening_request(&self, at: Opening, dim: usize) -> (r: Option<Request>)
        ensures
            match r {
                Some(q) => self.opening_call(at, dim) == Some(q@),
                None => self.opening_call(at, dim) is None,
            },
    {
        match at {
            Opening::Probing => Some(
                Request { method: Method::Get, url: self.url(""), body: None, reads: Reads::Status },
            ),
            Opening::Creating => {
                let body = single_field(
                    "vectors",
                    pair_of("size", Json::integer(dim as i128), "distance", Json::text("Cosine")),
                );
                Some(
                    Request {
                        method: Method::Put,
                        url: self.url(""),
                        body: Some(body),
                        reads: Reads::Status,
                    },
                )
            },
            Opening::Indexing(i) => if i < INDEXES {
                let (field, schema) = index(i);
                let body = pair_of(
                    "field_name",
                    Json::text(field),
                    "field_schema",
                    Json::text(schema),
                );
                Some(
                    Request {
                        method: Method::Put,
                        url: self.url("/index"),
                        body: Some(body),
                        reads: Reads::Status,
                    },
                )
            } else {
                None
            },
            Opening::Open => None,
        }
    }

    /// Starts to open the store: the first request asks whether the collection exists.
    pub fn open(cfg: Config) -> (r: (Store, Opening, Option<Request>))
        ensures
            r.0.cfg == cfg,
            r.1 == Opening::Probing,
            r.2 is Some,
            r.0.opening_call(Opening::Probing, 0) == Some(r.2->0@),
    {
        let store = Store { cfg };
        let request = store.opening_request(Opening::Probing, 0);
        (store, Opening::Probing, request)
    }

    /// Creates the collection (vector size from the embedder, cosine) and the payload indexes
    /// if absent: the next stage after `reply`, and the request that is then under way. The
    /// store is open once there is none.
    pub fn ensure_collection(&self, at: Opening, reply: Reply, dim: usize) -> (r: Result<
        (Opening, Option<Request>),
        Error,
    >)
        ensures
            match r {
                Ok((next, request)) => {
                    &&& opening(at, reply, dim) == Ok::<Opening, Error>(next)
                    &&& match request {
                        Some(q) => self.opening_call(next, dim) == Some(q@),
                        None => self.opening_call(next, dim) is None,
                    }
                },
                Err(e) => opening(at, reply, dim) == Err::<Opening, Error>(e),
            },
    {
        let next = match at {
            Opening::Probing => match reply {
                Reply::Unreachable(why) => return Err(Error::Unreachable(why)),
                Reply::Answered(status, _) => if status.is_success() {
                    Opening::Indexing(0)
                } else if dim == 0 {
                    return Err(Error::NoDimension);
                } else {
                    Opening::Creating
                },
            },
            Opening::Creating => match reply {
                Reply::Unreachable(why) => return Err(Error::Unreachable(why)),
                Reply::Answered(status, _) => if status.is_success() {
                    Opening::Indexing(0)
                } else {
                    return Err(Error::CreateRefused(status));
                },
            },
            Opening::Indexing(i) => if i < INDEXES - 1 {
                Opening::Indexing(i + 1)
            } else {
                Opening::Open
            },
            Opening::Open => Opening::Open,
        };
        let request = self.opening_request(next, dim);
        Ok((next, request))
    }
}

/// Where the opening of a store comes to from `at` after a row of replies.
pub open spec fn opening_after(at: Opening, replies: Seq<Reply>, dim: usize) -> Result<Opening, Error>
    decreases replies.len(),
{
    if replies.len() == 0 {
        Ok(at)
    } else {
        match opening(at, replies[0], dim) {
            Ok(next) => opening_after(next, replies.drop_first(), dim),
            Err(e) => Err(e),
        }
    }
}

proof fn lemma_indexing_ends(i: usize, replies: Seq<Reply>, dim: usize)
    requires
        i < INDEXES,
        replies.len() == INDEXES - i,
    ensures
        opening_after(Opening::Indexing(i), replies, dim) == Ok::<Opening, Error>(Opening::Open),
    decreases replies.len(),
{
    reveal_with_fuel(opening_after, 2);
    if i + 1 < INDEXES {
        lemma_indexing_ends((i + 1) as usize, replies.drop_first(), dim);
    } else {
        assert(replies.drop_first().len() == 0);
    }
}

/// A collection that exists is not created: once the probe is served, the store is open after
/// one request for each index, whatever comes of those.
pub proof fn an_existing_collection_is_kept(status: Status, text: String, replies: Seq<Reply>, dim: usize)
    requires
        status.success(),
        replies.len() == INDEXES,
    ensures
        opening_after(Opening::Probing, seq![Reply::Answered(status, text)] + replies, dim) == Ok::<
            Opening,
            Error,
        >(Opening::Open),
{
    let all = seq![Reply::Answered(status, text)] + replies;
    assert(all[0] == Reply::Answered(status, text));
    assert(all.drop_first() =~= replies);
    lemma_indexing_ends(0, replies, dim);
}

/// A collection that is absent is created once: the probe is refused, the creation is served,
/// and the store is open after one request for each index, whatever comes of those.
pub proof fn an_absent_collection_is_created_once(
    probed: Status,
    created: Status,
    text: String,
    replies: Seq<Reply>,
    dim: usize,
)
    requires
        !probed.success(),
        created.success(),
        dim > 0,
        replies.len() == INDEXES,
    ensures
        opening(Opening::Probing, Reply::Answered(probed, text), dim) == Ok::<Opening, Error>(
            Opening::Creating,
        ),
        opening_after(Opening::Creating, seq![Reply::Answered(created, text)] + replies, dim) == Ok::<
            Opening,
            Error,
        >(Opening::Open),
{
    let rest = seq![Reply::Answered(created, text)] + replies;
    assert(rest[0] == Reply::Answered(created, text));
    assert(rest.drop_first() =~= replies);
    lemma_indexing_ends(0, replies, dim);
}

/// An absent collection cannot be opened without an embedder that knows its dimension.
pub proof fn an_absent_collection_needs_a_dimension(status: Status, text: String)
    requires
        !status.success(),
    ensures
        opening(Opening::Probing, Reply::Answered(status, text), 0) == Err::<Opening, Error>(
            Error::NoDimension,
        ),
{
}

/// The texts of a row of memories.
pub open spec fn texts_of(items: Seq<Item>) -> Seq<Seq<char>> {
    items.map_values(|i: Item| i@.text)
}

/// The point that stores the memory `m` under `vector`.
pub open spec fn point(m: Memory, vector: Doc) -> Doc {
    Doc::Object(
        Map::<Seq<char>, Doc>::empty().insert("id"@, Doc::Str(hyphenated(m.id()))).insert(
            "vector"@,
            vector,
        ).insert("payload"@, Doc::Object(m.payload())),
    )
}

/// The points that store `items` under `vectors`, as many as there are of both.
pub open spec fn points(items: Seq<Item>, vectors: Seq<Json>) -> Seq<Doc> {
    Seq::new(
        if items.len() <= vectors.len() {
            items.len()
        } else {
            vectors.len()
        },
        |i: int| point(items[i]@, vectors[i]@),
    )
}

fn point_of(item: &Item, vector: Json) -> (r: Json)
    ensures
        r@ == point(item@, vector@),
{
    let id = item.id();
    Json::Object(
        StrMap::empty().set("id", Json::text(id.text().as_str())).set("vector", vector).set(
            "payload",
            item.payload(),
        ),
    )
}

fn points_of(items: &[Item], vectors: &[Json]) -> (r: Vec<Json>)
    ensures
        docs(r@) == points(items@, vectors@),
{
    let mut out: Vec<Json> = Vec::new();
    let mut i: usize = 0;
    let ghost all = points(items@, vectors@);
    assert(all.take(0) =~= Seq::<Doc>::empty());
    while i < items.len() && i < vectors.len()
        invariant
            i <= items@.len(),
            i <= vectors@.len(),
            all == points(items@, vectors@),
            docs(out@) == all.take(i as int),
        decreases items@.len() - i,
    {
        let ghost before = out@;
        let p = point_of(&items[i], vectors[i].clone());
        out.push(p);
        proof {
            lemma_docs_push(before, p);
            assert(all.take(i + 1) == all.take(i as int).push(all[i as int]));
        }
        i = i + 1;
    }
    assert(all.take(i as int) =~= all);
    out
}

/// `n`, or 1 where `n` is 0.
pub open spec fn at_least_one(n: usize) -> Doc {
    Doc::Int(
        if n == 0 {
            1
        } else {
            n as int
        },
    )
}

fn limit_of(n: usize) -> (r: Json)
    ensures
        r@ == at_least_one(n),
{
    if n == 0 {
        Json::integer(1)
    } else {
        Json::integer(n as i128)
    }
}

/// What an upsert starts with.
#[derive(Debug, Clone, PartialEq)]
pub enum Upserting {
    /// Nothing is left to do: so many memories were sent.
    Settled(usize),
    /// These texts are embedded, in this role.
    Embed(Vec<String>, Role),
}

/// What a deletion by id comes to.
#[derive(Debug, Clone, PartialEq)]
pub enum Removal {
    /// Nothing is left to do: so many points were deleted.
    Settled(u64),
    /// The points are deleted, by this request.
    Delete(Request),
}

/// A deletion whose points are being counted.
#[derive(Debug, Clone, PartialEq)]
pub struct Deletion {
    /// What selects the points.
    pub filter: Json,
    /// Whether they are only counted.
    pub dry_run: bool,
}

/// Whether a deletion goes on once `n` points were counted: not where they were only to be
/// counted, nor where there are none.
pub open spec fn deletes(dry_run: bool, n: u64) -> bool {
    !dry_run && n != 0
}

/// What comes after the points of a deletion were counted.
#[derive(Debug, Clone, PartialEq)]
pub enum Counted {
    /// Nothing is left to do: so many points were counted.
    Settled(u64),
    /// So many points are deleted, by this request.
    Delete(u64, Request),
}

/// The filter that selects the points that meet every clause of `must` and none of
/// `must_not`.
pub open spec fn filter(must: Seq<Doc>, must_not: Seq<Doc>) -> Doc {
    pair("must"@, Doc::Array(must), "must_not"@, Doc::Array(must_not))
}

/// The texts of a row of ids.
pub open spec fn id_texts(ids: Seq<PointId>) -> Seq<Doc> {
    ids.map_values(|i: PointId| Doc::Str(hyphenated(i.bytes@)))
}

/// The filter that selects the points with these ids.
pub open spec fn ids_filter(ids: Seq<PointId>) -> Doc {
    single("must"@, Doc::Array(seq![single("has_id"@, Doc::Array(id_texts(ids)))]))
}

/// The filter that selects what is old at `ts_unix_ms`: made before it, and not recalled
/// since.
pub open spec fn old_at(ts_unix_ms: i64) -> Doc {
    filter(
        seq![in_bounds("ts_unix_ms"@, None, Some(ts_unix_ms))],
        seq![in_bounds("last_recalled_ms"@, Some(ts_unix_ms), None)],
    )
}

fn id_array(ids: &[PointId]) -> (r: Json)
    ensures
        r@ == Doc::Array(id_texts(ids@)),
{
    let mut a: Vec<Json> = Vec::new();
    let mut i: usize = 0;
    let ghost all = id_texts(ids@);
    assert(all.take(0) =~= Seq::<Doc>::empty());
    while i < ids.len()
        invariant
            i <= ids@.len(),
            all == id_texts(ids@),
            docs(a@) == all.take(i as int),
        decreases ids@.len() - i,
    {
        let ghost before = a@;
        let j = Json::text(ids[i].text().as_str());
        a.push(j);
        proof {
            lemma_docs_push(before, j);
            assert(all.take(i + 1) == all.take(i as int).push(all[i as int]));
        }
        i = i + 1;
    }
    assert(all.take(i as int) == all);
    Json::Array(a)
}

fn one_element(j: Json) -> (r: Json)
    ensures
        r@ == Doc::Array(seq![j@]),
{
    let mut a: Vec<Json> = Vec::new();
    proof {
        lemma_docs_push(a@, j);
    }
    a.push(j);
    assert(docs(a@) =~= seq![j@]);
    Json::Array(a)
}

/// A request that writes and waits until it is written.
pub open spec fn writing(method: Method, address: Seq<char>, body: Doc, reads: Reads) -> Call {
    Call { method, url: address + "?wait=true"@, body: Some(body), reads }
}

fn write_request(method: Method, url: String, body: Json, reads: Reads) -> (r: Request)
    ensures
        r@ == writing(method, url@, body@, reads),
{
    let mut url = url;
    url.append("?wait=true");
    Request { method, url, body: Some(body), reads }
}

/// What an upsert of `items` under `vectors` writes.
pub open spec fn upsert_body(items: Seq<Item>, vectors: Seq<Json>) -> Doc {
    single("points"@, Doc::Array(points(items, vectors)))
}

/// What the merge of `payload` into the point `id` writes.
pub open spec fn merge_body(id: PointId, payload: Doc) -> Doc {
    pair("points"@, Doc::Array(seq![Doc::Str(hyphenated(id.bytes@))]), "payload"@, payload)
}

/// What a search asks.
pub open spec fn search_body(q: Query, vector: Doc) -> Doc {
    Doc::Object(
        Map::<Seq<char>, Doc>::empty().insert("vector"@, vector).insert(
            "limit"@,
            at_least_one(q.top_k),
        ).insert("with_payload"@, Doc::Bool(true)).insert("score_threshold"@, q.threshold()).insert(
            "filter"@,
            single("must"@, Doc::Array(q.clauses())),
        ),
    )
}

/// What a scroll asks.
pub open spec fn scroll_body(must: Seq<Doc>, limit: usize) -> Doc {
    Doc::Object(
        Map::<Seq<char>, Doc>::empty().insert("limit"@, at_least_one(limit)).insert(
            "with_payload"@,
            Doc::Bool(true),
        ).insert("with_vector"@, Doc::Bool(false)).insert(
            "filter"@,
            single("must"@, Doc::Array(must)),
        ).insert(
            "order_by"@,
            pair("key"@, Doc::Str("ts_unix_ms"@), "direction"@, Doc::Str("desc"@)),
        ),
    )
}

impl Store {
    /// Starts to upsert `items`: their texts are embedded as documents. Where there are none,
    /// none were sent and nothing is embedded.
    pub fn upsert_texts(items: &[Item]) -> (r: Upserting)
        ensures
            match r {
                Upserting::Embed(t, role) => {
                    &&& items@.len() > 0
                    &&& t@.map_values(|s: String| s@) == texts_of(items@)
                    &&& role == Role::Document
                },
                Upserting::Settled(n) => items@.len() == 0 && n == 0,
            },
    {
        if items.len() == 0 {
            return Upserting::Settled(0);
        }
        let mut t: Vec<String> = Vec::new();
        let mut i: usize = 0;
        while i < items.len()
            invariant
                i <= items@.len(),
                t@.len() == i,
                forall|j: int| 0 <= j < i ==> (#[trigger] t@[j])@ == items@[j]@.text,
            decreases items@.len() - i,
        {
            t.push(items[i].text.clone());
            i = i + 1;
        }
        assert(t@.map_values(|s: String| s@) =~= texts_of(items@));
        Upserting::Embed(t, Role::Document)
    }

    /// The request that upserts `items` under `vectors`, one vector to an item. An item without
    /// a vector is not sent.
    pub fn upsert(&self, items: &[Item], vectors: &[Json]) -> (r: Request)
        ensures
            r@ == writing(
                Method::Put,
                self.address("/points"@),
                upsert_body(items@, vectors@),
                Reads::RefusalText,
            ),
    {
        let body = single_field("points", Json::Array(points_of(items, vectors)));
        write_request(Method::Put, self.url("/points"), body, Reads::RefusalText)
    }

    /// What came of the upsert of `items` under `vectors`: how many were sent.
    pub fn upserted(items: &[Item], vectors: &[Json], reply: Reply) -> (r: Result<usize, Error>)
        ensures
            r == match reply {
                Reply::Unreachable(why) => Err::<usize, Error>(Error::Unreachable(why)),
                Reply::Answered(status, text) => if status.success() {
                    Ok(points(items@, vectors@).len() as usize)
                } else {
                    Err(Error::UpsertRefused(status, text))
                },
            },
    {
        match reply {
            Reply::Unreachable(why) => Err(Error::Unreachable(why)),
            Reply::Answered(status, text) => if status.is_success() {
                Ok(
                    if items.len() <= vectors.len() {
                        items.len()
                    } else {
                        vectors.len()
                    },
                )
            } else {
                Err(Error::UpsertRefused(status, text))
            },
        }
    }

    /// What a search for `q` embeds, and in which role: its text alone, as a query.
    pub fn search_texts(q: &Query) -> (r: (Vec<String>, Role))
        ensures
            r.0@.len() == 1,
            r.0@[0]@ == q.text@,
            r.1 == Role::Query,
    {
        let mut texts: Vec<String> = Vec::new();
        texts.push(q.text.clone());
        (texts, Role::Query)
    }

    /// The request that searches for `q`, whose text has the first of `vectors`.
    pub fn search(&self, q: &Query, vectors: &[Json]) -> (r: Result<Request, Error>)
        ensures
            match r {
                Ok(request) => vectors@.len() > 0 && request@ == (Call {
                    method: Method::Post,
                    url: self.address("/points/search"@),
                    body: Some(search_body(*q, vectors@[0]@)),
                    reads: Reads::Document,
                }),
                Err(e) => vectors@.len() == 0 && e == Error::NoQueryVector,
            },
    {
        if vectors.len() == 0 {
            return Err(Error::NoQueryVector);
        }
        let body = Json::Object(
            StrMap::empty().set("vector", vectors[0].clone()).set("limit", limit_of(q.top_k)).set(
                "with_payload",
                Json::Bool(true),
            ).set("score_threshold", q.score_threshold()).set(
                "filter",
                single_field("must", Json::Array(q.must())),
            ),
        );
        Ok(
            Request {
                method: Method::Post,
                url: self.url("/points/search"),
                body: Some(body),
                reads: Reads::Document,
            },
        )
    }

    /// What a search found.
    pub fn found(answer: Answer) -> (r: Result<Vec<Hit>, Error>)
        ensures
            match answer {
                Answer::Unreachable(why) => r == Err::<Vec<Hit>, Error>(Error::Unreachable(why)),
                Answer::Refused(status, _) => r == Err::<Vec<Hit>, Error>(Error::SearchRefused(status)),
                Answer::Unreadable(why) => r == Err::<Vec<Hit>, Error>(Error::Http(why)),
                Answer::Document(d) => r matches Ok(hits) && hit_views(hits@) == hits_of(
                    elements(d@.at("result"@)),
                ),
            },
    {
        match answer {
            Answer::Unreachable(why) => Err(Error::Unreachable(why)),
            Answer::Refused(status, _) => Err(Error::SearchRefused(status)),
            Answer::Unreadable(why) => Err(Error::Http(why)),
            Answer::Document(d) => Ok(read_hits(&d)),
        }
    }

    /// The request for the newest `limit` points matching `must`, newest first, with no
    /// vector involved: what "what do you remember from here" and "forget that" read.
    pub fn scroll(&self, must: Vec<Json>, limit: usize) -> (r: Request)
        ensures
            r@ == (Call {
                method: Method::Post,
                url: self.address("/points/scroll"@),
                body: Some(scroll_body(docs(must@), limit)),
                reads: Reads::DocumentOrRefusalText,
            }),
    {
        let body = Json::Object(
            StrMap::empty().set("limit", limit_of(limit)).set("with_payload", Json::Bool(true)).set(
                "with_vector",
                Json::Bool(false),
            ).set("filter", single_field("must", Json::Array(must))).set(
                "order_by",
                pair_of("key", Json::text("ts_unix_ms"), "direction", Json::text("desc")),
            ),
        );
        Request {
            method: Method::Post,
            url: self.url("/points/scroll"),
            body: Some(body),
            reads: Reads::DocumentOrRefusalText,
        }
    }

    /// The memories that a scroll read. A store too old to sort answers an error, which is
    /// reported rather than silently unsorted.
    pub fn scrolled(answer: Answer) -> (r: Result<Vec<Item>, Error>)
        ensures
            match answer {
                Answer::Unreachable(why) => r == Err::<Vec<Item>, Error>(Error::Unreachable(why)),
                Answer::Refused(status, text) => r == Err::<Vec<Item>, Error>(
                    Error::ScrollRefused(status, text),
                ),
                Answer::Unreadable(why) => r == Err::<Vec<Item>, Error>(Error::Http(why)),
                Answer::Document(d) => r matches Ok(items) && memories(items@) == memories_of(
                    elements(d@.at("result"@).at("points"@)),
                ),
            },
    {
        match answer {
            Answer::Unreachable(why) => Err(Error::Unreachable(why)),
            Answer::Refused(status, text) => Err(Error::ScrollRefused(status, text)),
            Answer::Unreadable(why) => Err(Error::Http(why)),
            Answer::Document(d) => Ok(read_items(&d)),
        }
    }

    /// Starts to delete these exact points; where there are none, none were deleted and nothing
    /// is sent. `has_id` is a filter like any other, with the one selector that cannot take a
    /// neighbour with it.
    pub fn delete_ids(&self, ids: &[PointId]) -> (r: Removal)
        ensures
            match r {
                Removal::Delete(request) => ids@.len() > 0 && request@ == self.delete_call(
                    ids_filter(ids@),
                ),
                Removal::Settled(n) => ids@.len() == 0 && n == 0,
            },
    {
        if ids.len() == 0 {
            return Removal::Settled(0);
        }
        let must = one_element(single_field("has_id", id_array(ids)));
        let body = single_field("filter", single_field("must", must));
        Removal::Delete(write_request(Method::Post, self.url("/points/delete"), body, Reads::Status))
    }

    /// What came of deleting `ids`: how many there were.
    pub fn ids_deleted(ids: &[PointId], reply: Reply) -> (r: Result<u64, Error>)
        ensures
            r == match reply {
                Reply::Unreachable(why) => Err::<u64, Error>(Error::Unreachable(why)),
                Reply::Answered(status, _) => if status.success() {
                    Ok(ids@.len() as u64)
                } else {
                    Err(Error::DeleteByIdRefused(status))
                },
            },
    {
        match reply {
            Reply::Unreachable(why) => Err(Error::Unreachable(why)),
            Reply::Answered(status, _) => if status.is_success() {
                Ok(ids.len() as u64)
            } else {
                Err(Error::DeleteByIdRefused(status))
            },
        }
    }

    /// The request that counts what `filter` selects, exactly.
    pub open spec fn count_call(self, filter: Doc) -> Call {
        Call {
            method: Method::Post,
            url: self.address("/points/count"@),
            body: Some(pair("filter"@, filter, "exact"@, Doc::Bool(true))),
            reads: Reads::DocumentOrClientError,
        }
    }

    /// The request that deletes what `filter` selects.
    pub open spec fn delete_call(self, filter: Doc) -> Call {
        writing(
            Method::Post,
            self.address("/points/delete"@),
            single("filter"@, filter),
            Reads::Status,
        )
    }

    /// Starts to delete every point matching `must` (and none of `must_not`); with `dry_run`
    /// they are only counted. The count is exact and taken first, so the number reported is
    /// the number deleted.
    pub fn delete_where(&self, must: Vec<Json>, must_not: Vec<Json>, dry_run: bool) -> (r: (
        Deletion,
        Request,
    ))
        ensures
            r.0.filter@ == filter(docs(must@), docs(must_not@)),
            r.0.dry_run == dry_run,
            r.1@ == self.count_call(filter(docs(must@), docs(must_not@))),
    {
        let filter = pair_of("must", Json::Array(must), "must_not", Json::Array(must_not));
        let body = pair_of("filter", filter.clone(), "exact", Json::Bool(true));
        let request = Request {
            method: Method::Post,
            url: self.url("/points/count"),
            body: Some(body),
            reads: Reads::DocumentOrClientError,
        };
        (Deletion { filter, dry_run }, request)
    }

    /// What comes after the points of a deletion were counted: they are deleted, unless there
    /// are none or they were only to be counted.
    pub fn counted(&self, deletion: Deletion, answer: Answer) -> (r: Result<Counted, Error>)
        ensures
            match answer {
                Answer::Unreachable(why) => r == Err::<Counted, Error>(Error::Unreachable(why)),
                Answer::Refused(_, why) => r == Err::<Counted, Error>(Error::Http(why)),
                Answer::Unreadable(why) => r == Err::<Counted, Error>(Error::Http(why)),
                Answer::Document(d) => {
                    let n = result_number(d@, "count"@);
                    if deletes(deletion.dry_run, n) {
                        &&& r matches Ok(Counted::Delete(m, request))
                        &&& m == n
                        &&& request@ == self.delete_call(deletion.filter@)
                    } else {
                        r == Ok::<Counted, Error>(Counted::Settled(n))
                    }
                },
            },
    {
        match answer {
            Answer::Unreachable(why) => Err(Error::Unreachable(why)),
            Answer::Refused(_, why) => Err(Error::Http(why)),
            Answer::Unreadable(why) => Err(Error::Http(why)),
            Answer::Document(d) => {
                let n = read_number(&d, "count");
                if deletion.dry_run || n == 0 {
                    Ok(Counted::Settled(n))
                } else {
                    let body = single_field("filter", deletion.filter);
                    let url = self.url("/points/delete");
                    Ok(Counted::Delete(n, write_request(Method::Post, url, body, Reads::Status)))
                }
            },
        }
    }

    /// What came of deleting the `n` points that were counted: their number.
    pub fn deleted(n: u64, reply: Reply) -> (r: Result<u64, Error>)
        ensures
            r == match reply {
                Reply::Unreachable(why) => Err::<u64, Error>(Error::Unreachable(why)),
                Reply::Answered(status, _) => if status.success() {
                    Ok(n)
                } else {
                    Err(Error::DeleteRefused(status))
                },
            },
    {
        match reply {
            Reply::Unreachable(why) => Err(Error::Unreachable(why)),
            Reply::Answered(status, _) => if status.is_success() {
                Ok(n)
            } else {
                Err(Error::DeleteRefused(status))
            },
        }
    }

    /// Starts to delete every memory made before `ts_unix_ms` that has **not** been recalled
    /// since. Reaching for a memory keeps it: one whose `last_recalled_ms` is inside the
    /// window is not old, however old it was made.
    pub fn prune_before(&self, ts_unix_ms: i64, dry_run: bool) -> (r: (Deletion, Request))
        ensures
            r.0.filter@ == old_at(ts_unix_ms),
            r.0.dry_run == dry_run,
            r.1@ == self.count_call(old_at(ts_unix_ms)),
    {
        let (must, must_not) = retention_filter(ts_unix_ms);
        self.delete_where(must, must_not, dry_run)
    }

    /// The request that merges `payload` into one point's payload: existing keys are
    /// overwritten, the rest kept, the vector and the id untouched. What a recall counter or a
    /// last-recalled stamp uses.
    pub fn set_payload(&self, id: &PointId, payload: Json) -> (r: Request)
        ensures
            r@ == writing(
                Method::Post,
                self.address("/points/payload"@),
                merge_body(*id, payload@),
                Reads::RefusalText,
            ),
    {
        let points = one_element(Json::text(id.text().as_str()));
        let body = pair_of("points", points, "payload", payload);
        write_request(Method::Post, self.url("/points/payload"), body, Reads::RefusalText)
    }

    /// What came of a payload merge.
    pub fn payload_set(reply: Reply) -> (r: Result<(), Error>)
        ensures
            r == match reply {
                Reply::Unreachable(why) => Err::<(), Error>(Error::Unreachable(why)),
                Reply::Answered(status, text) => if status.success() {
                    Ok(())
                } else {
                    Err(Error::SetPayloadRefused(status, text))
                },
            },
    {
        match reply {
            Reply::Unreachable(why) => Err(Error::Unreachable(why)),
            Reply::Answered(status, text) => if status.is_success() {
                Ok(())
            } else {
                Err(Error::SetPayloadRefused(status, text))
            },
        }
    }

    /// The request for what is known of the collection.
    pub fn stats(&self) -> (r: Request)
        ensures
            r@ == (Call {
                method: Method::Get,
                url: self.address(""@),
                body: None,
                reads: Reads::DocumentOrClientError,
            }),
    {
        Request {
            method: Method::Get,
            url: self.url(""),
            body: None,
            reads: Reads::DocumentOrClientError,
        }
    }

    /// What is in the store, and what embeds into it.
    pub fn stats_read(&self, answer: Answer, dim: usize, embedder: &str) -> (r: Result<Stats, Error>)
        ensures
            match answer {
                Answer::Unreachable(why) => r == Err::<Stats, Error>(Error::Unreachable(why)),
                Answer::Refused(_, why) => r == Err::<Stats, Error>(Error::Http(why)),
                Answer::Unreadable(why) => r == Err::<Stats, Error>(Error::Http(why)),
                Answer::Document(d) => {
                    &&& r matches Ok(stats)
                    &&& stats.points == result_number(d@, "points_count"@)
                    &&& stats.dim == dim
                    &&& stats.collection@ == self.cfg.collection@
                    &&& stats.embedder@ == embedder@
                },
            },
    {
        match answer {
            Answer::Unreachable(why) => Err(Error::Unreachable(why)),
            Answer::Refused(_, why) => Err(Error::Http(why)),
            Answer::Unreadable(why) => Err(Error::Http(why)),
            Answer::Document(d) => Ok(
                Stats {
                    points: read_number(&d, "points_count"),
                    dim,
                    collection: self.cfg.collection.clone(),
                    embedder: embedder.to_owned(),
                },
            ),
        }
    }
}

/// A point holds the id of its memory, the vector and the memory's payload.
pub proof fn lemma_point(m: Memory, vector: Doc)
    ensures
        point(m, vector).at("id"@) == Doc::Str(hyphenated(m.id())),
        point(m, vector).at("vector"@) == vector,
        point(m, vector).at("payload"@) == Doc::Object(m.payload()),
{
    reveal_strlit("id");
    reveal_strlit("vector");
    reveal_strlit("payload");
    assert("id"@.len() == 2);
    assert("vector"@.len() == 6);
    assert("payload"@.len() == 7);
}

/// An upsert sends each memory under its id, with the payload that carries it.
pub proof fn an_upsert_sends_each_memory_under_its_id(items: Seq<Item>, vectors: Seq<Json>, i: int)
    requires
        0 <= i < items.len(),
        items.len() <= vectors.len(),
    ensures
        points(items, vectors).len() == items.len(),
        points(items, vectors)[i].at("id"@) == Doc::Str(hyphenated(items[i]@.id())),
        points(items, vectors)[i].at("vector"@) == vectors[i]@,
        points(items, vectors)[i].at("payload"@) == Doc::Object(items[i]@.payload()),
{
    lemma_point(items[i]@, vectors[i]@);
}

/// Upserting a memory again writes the point that it wrote before, whatever else has changed:
/// re-ingesting is idempotent.
pub proof fn upserting_again_writes_the_same_point(a: Memory, b: Memory, v: Doc, w: Doc)
    requires
        a.namespace == b.namespace,
        a.kind == b.kind,
        a.key == b.key,
    ensures
        point(a, v).at("id"@) == point(b, w).at("id"@),
        point(a, v).at("id"@) == Doc::Str(hyphenated(a.id())),
{
    lemma_point(a, v);
    lemma_point(b, w);
}

/// Deleting by id names the points that were asked for and no other: `id` is named exactly
/// where it is one of `ids`.
pub proof fn deleting_ids_takes_no_neighbour(ids: Seq<PointId>, id: PointId)
    ensures
        id_texts(ids).contains(Doc::Str(hyphenated(id.bytes@))) <==> exists|i: int|
            0 <= i < ids.len() && (#[trigger] ids[i]).bytes@ == id.bytes@,
{
    let t = id_texts(ids);
    let d = Doc::Str(hyphenated(id.bytes@));
    if t.contains(d) {
        let i = choose|i: int| 0 <= i < t.len() && t[i] == d;
        text_tells_ids_apart(ids[i], id);
        assert(ids[i].bytes@ == id.bytes@);
    }
    if exists|i: int| 0 <= i < ids.len() && (#[trigger] ids[i]).bytes@ == id.bytes@ {
        let i = choose|i: int| 0 <= i < ids.len() && (#[trigger] ids[i]).bytes@ == id.bytes@;
        assert(t[i] == d);
    }
}

/// What a deletion counts, exactly, is what it deletes: both requests carry the one filter.
pub proof fn what_is_counted_is_what_is_deleted(store: Store, filter: Doc)
    ensures
        store.count_call(filter).body is Some,
        store.count_call(filter).body->0.at("filter"@) == filter,
        store.count_call(filter).body->0.at("exact"@) == Doc::Bool(true),
        store.delete_call(filter).body is Some,
        store.delete_call(filter).body->0.at("filter"@) == filter,
{
    reveal_strlit("filter");
    reveal_strlit("exact");
    assert("filter"@.len() == 6);
    assert("exact"@.len() == 5);
}

} // verus!
