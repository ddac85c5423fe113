//! What each request asks for, field by field, for every input.
use vstd::prelude::*;

use crate::embed::Role;
use crate::error::Error;
use crate::error::Status;
use crate::filter::in_bounds;
use crate::filter::Query;
use crate::item::Item;
use crate::json::Doc;
use crate::json::Json;
use crate::json::Number;
use crate::ollama::Ollama;
use crate::point_id::hyphenated;
use crate::point_id::PointId;
use crate::reading::elements;
use crate::request::Call;
use crate::request::Method;
use crate::request::Reads;
use crate::request::Reply;
use crate::store::filter;
use crate::store::ids_filter;
use crate::store::indexes;
use crate::store::merge_body;
use crate::store::old_at;
use crate::store::opening;
use crate::store::points;
use crate::store::scroll_body;
use crate::store::search_body;
use crate::store::texts_of;
use crate::store::upsert_body;
use crate::store::writing;
use crate::store::Opening;
use crate::store::Store;
use crate::text::without_trailing_slashes;

verus! {

/// Whether `d` is an object with the fields `keys` and no other.
pub open spec fn only(d: Doc, keys: Set<Seq<char>>) -> bool {
    d is Object && d->Object_0.dom() =~= keys
}

/// An address is that of the collection under the store's own address, with the path behind
/// it, where the store's address ends in no slash.
pub proof fn an_address_lies_in_the_collection(store: Store, path: Seq<char>)
    requires
        store.cfg.qdrant_url@.len() > 0 ==> store.cfg.qdrant_url@.last() != '/',
    ensures
        store.address(path) == store.cfg.qdrant_url@ + "/collections/"@ + store.cfg.collection@ + path,
{
}

/// A slash more at the end of the store's own address changes no address.
pub proof fn a_trailing_slash_changes_no_address(a: Store, b: Store, path: Seq<char>)
    requires
        b.cfg.qdrant_url@ == a.cfg.qdrant_url@.push('/'),
        b.cfg.collection@ == a.cfg.collection@,
    ensures
        b.address(path) == a.address(path),
{
    assert(b.cfg.qdrant_url@.drop_last() =~= a.cfg.qdrant_url@);
}

/// A request that writes goes to its address and waits until it is written.
pub proof fn a_write_waits(method: Method, address: Seq<char>, body: Doc, reads: Reads)
    ensures
        writing(method, address, body, reads).method == method,
        writing(method, address, body, reads).url == address + "?wait=true"@,
        writing(method, address, body, reads).body == Some(body),
        writing(method, address, body, reads).reads == reads,
{
}

/// Whether a collection that was created by a request with this body takes `vector`: it does
/// where the vector is as long as the request says.
pub open spec fn takes(body: Doc, vector: Doc) -> bool {
    vector is Array && body.at("vectors"@).at("size"@) == Doc::Int(vector->Array_0.len() as int)
}

/// The collection is created for the embedder: it takes exactly the vectors that are as long as
/// the embedder makes them, and compares them by their cosine. Nothing else is said of it.
pub proof fn a_collection_is_created_for_its_embedder(store: Store, dim: usize, vector: Doc)
    ensures
        ({
            let call = store.opening_call(Opening::Creating, dim);
            let body = call->0.body->0;
            &&& call is Some
            &&& call->0.method == Method::Put
            &&& call->0.url == store.address(""@)
            &&& call->0.reads == Reads::Status
            &&& call->0.body is Some
            &&& takes(body, vector) <==> vector is Array && vector->Array_0.len() == dim
            &&& body.at("vectors"@).at("distance"@) == Doc::Str("Cosine"@)
            &&& only(body, set!["vectors"@])
            &&& only(body.at("vectors"@), set!["size"@, "distance"@])
        }),
{
    reveal_strlit("size");
    reveal_strlit("distance");
    assert("size"@.len() == 4);
    assert("distance"@.len() == 8);
}

/// Whether the collection exists is asked of the collection itself, and with nothing sent.
pub proof fn a_probe_sends_nothing(store: Store, dim: usize)
    ensures
        store.opening_call(Opening::Probing, dim) == Some(
            Call { method: Method::Get, url: store.address(""@), body: None, reads: Reads::Status },
        ),
        store.opening_call(Opening::Open, dim) is None,
{
}

/// Whether some payload index is made of `field`, as one that holds `schema`.
pub open spec fn indexed(store: Store, field: Seq<char>, schema: Seq<char>) -> bool {
    exists|i: usize|
        {
            let call = #[trigger] store.opening_call(Opening::Indexing(i), 0);
            &&& call is Some
            &&& call->0.body is Some
            &&& call->0.body->0.at("field_name"@) == Doc::Str(field)
            &&& call->0.body->0.at("field_schema"@) == Doc::Str(schema)
        }
}

proof fn lemma_indexed(store: Store, i: usize)
    requires
        i < 10,
    ensures
        indexed(store, indexes()[i as int].0, indexes()[i as int].1),
{
    reveal_strlit("field_name");
    reveal_strlit("field_schema");
    assert("field_name"@.len() == 10);
    assert("field_schema"@.len() == 12);
    let call = store.opening_call(Opening::Indexing(i), 0);
    assert(call is Some && call->0.body->0.at("field_name"@) == Doc::Str(indexes()[i as int].0));
    assert(call->0.body->0.at("field_schema"@) == Doc::Str(indexes()[i as int].1));
}

/// Every field that memories are filtered, sorted or counted by has an index of its sort.
pub proof fn every_filtered_field_is_indexed(store: Store)
    ensures
        indexed(store, "namespace"@, "keyword"@),
        indexed(store, "kind"@, "keyword"@),
        indexed(store, "source"@, "keyword"@),
        indexed(store, "device_id"@, "keyword"@),
        indexed(store, "person"@, "keyword"@),
        indexed(store, "room"@, "keyword"@),
        indexed(store, "ts_unix_ms"@, "integer"@),
        indexed(store, "private"@, "bool"@),
        indexed(store, "last_recalled_ms"@, "integer"@),
        indexed(store, "recalled"@, "integer"@),
{
    lemma_indexed(store, 0);
    lemma_indexed(store, 1);
    lemma_indexed(store, 2);
    lemma_indexed(store, 3);
    lemma_indexed(store, 4);
    lemma_indexed(store, 5);
    lemma_indexed(store, 6);
    lemma_indexed(store, 7);
    lemma_indexed(store, 8);
    lemma_indexed(store, 9);
}

/// An index is asked for in the collection, by its field and its sort alone, one at each of ten
/// places, and the embedder has no part in it.
pub proof fn an_index_is_asked_for_by_field_and_sort(store: Store, i: usize, dim: usize)
    ensures
        store.opening_call(Opening::Indexing(i), dim) == store.opening_call(Opening::Indexing(i), 0),
        store.opening_call(Opening::Indexing(i), dim) is Some <==> i < 10,
        i < 10 ==> {
            let call = store.opening_call(Opening::Indexing(i), dim)->0;
            &&& call.method == Method::Put
            &&& call.url == store.address("/index"@)
            &&& call.reads == Reads::Status
            &&& call.body is Some
            &&& only(call.body->0, set!["field_name"@, "field_schema"@])
        },
{
}

/// A probe that is served leads to the first index, one that is refused to the creation where
/// the dimension is known, and a creation that is served to the first index.
pub proof fn opening_goes_from_probe_to_indexes(served: Status, refused: Status, text: String, dim: usize)
    requires
        served.success(),
        !refused.success(),
    ensures
        opening(Opening::Probing, Reply::Answered(served, text), dim) == Ok::<
            Opening,
            Error,
        >(Opening::Indexing(0)),
        dim > 0 ==> opening(Opening::Probing, Reply::Answered(refused, text), dim)
            == Ok::<Opening, Error>(Opening::Creating),
        opening(Opening::Creating, Reply::Answered(served, text), dim) == Ok::<
            Opening,
            Error,
        >(Opening::Indexing(0)),
        opening(Opening::Creating, Reply::Answered(refused, text), dim) == Err::<
            Opening,
            Error,
        >(Error::CreateRefused(refused)),
{
}

/// A store that cannot be reached is not opened: neither the probe nor the creation gets by
/// without an answer.
pub proof fn an_unreachable_store_is_not_opened(why: String, dim: usize)
    ensures
        opening(Opening::Probing, Reply::Unreachable(why), dim) == Err::<
            Opening,
            Error,
        >(Error::Unreachable(why)),
        opening(Opening::Creating, Reply::Unreachable(why), dim) == Err::<
            Opening,
            Error,
        >(Error::Unreachable(why)),
{
}

/// What comes of an index is not looked at: any two replies lead to the same next stage, and no
/// index is passed over.
pub proof fn what_comes_of_an_index_does_not_matter(
    i: usize,
    a: Reply,
    b: Reply,
    dim: usize,
)
    requires
        i < 10,
    ensures
        opening(Opening::Indexing(i), a, dim) == opening(Opening::Indexing(i), b, dim),
        opening(Opening::Indexing(i), a, dim) == Ok::<Opening, Error>(
            if i == 9 {
                Opening::Open
            } else {
                Opening::Indexing((i + 1) as usize)
            },
        ),
{
}

/// An upsert sends one point for each memory that has a vector, in the order of the memories,
/// with its id, its vector and its payload and nothing else. Each text is that of its memory.
pub proof fn an_upsert_sends_what_has_a_vector(items: Seq<Item>, vectors: Seq<Json>, i: int)
    requires
        0 <= i < items.len(),
    ensures
        ({
            let body = upsert_body(items, vectors);
            let sent = elements(body.at("points"@));
            &&& only(body, set!["points"@])
            &&& sent == points(items, vectors)
            &&& i < sent.len() <==> i < vectors.len()
            &&& sent.len() <= items.len()
            &&& i < vectors.len() ==> {
                &&& only(sent[i], set!["id"@, "vector"@, "payload"@])
                &&& sent[i].at("id"@) == Doc::Str(hyphenated(items[i]@.id()))
                &&& sent[i].at("vector"@) == vectors[i]@
                &&& sent[i].at("payload"@) == Doc::Object(items[i]@.payload())
            }
            &&& texts_of(items).len() == items.len()
            &&& texts_of(items)[i] == items[i].text@
        }),
{
    if i < vectors.len() {
        crate::store::lemma_point(items[i]@, vectors[i]@);
    }
}

/// A search asks with the query's own vector and the query's own least score, whatever its
/// other fields; for as many hits as were asked for and one at least; with payloads; and by
/// the clauses of the query and no other.
pub proof fn a_search_asks_for_its_query(q: Query, vector: Doc)
    ensures
        ({
            let body = search_body(q, vector);
            &&& only(
                body,
                set!["vector"@, "limit"@, "with_payload"@, "score_threshold"@, "filter"@],
            )
            &&& body.at("vector"@) == vector
            &&& body.at("limit"@) == Doc::Int(
                if q.top_k > 1 {
                    q.top_k as int
                } else {
                    1
                },
            )
            &&& body.at("with_payload"@) == Doc::Bool(true)
            &&& body.at("score_threshold"@) == match q.min_score {
                Some(Number::Int(n)) => Doc::Int(n as int),
                Some(Number::Float(s)) => Doc::Float(s@),
                None => Doc::Null,
            }
            &&& only(body.at("filter"@), set!["must"@])
            &&& body.at("filter"@).at("must"@) == Doc::Array(q.clauses())
        }),
{
    reveal_strlit("vector");
    reveal_strlit("limit");
    reveal_strlit("with_payload");
    reveal_strlit("score_threshold");
    reveal_strlit("filter");
    assert("vector"@.len() == 6);
    assert("limit"@.len() == 5);
    assert("with_payload"@.len() == 12);
    assert("score_threshold"@.len() == 15);
    assert("filter"@.len() == 6);
    assert("vector"@[0] != "filter"@[0]);
}

/// Queries with one least score ask with one threshold, and queries with one `top_k` for one
/// number of hits, however else they differ.
pub proof fn other_fields_change_neither_threshold_nor_limit(a: Query, b: Query, v: Doc, w: Doc)
    ensures
        a.min_score == b.min_score ==> search_body(a, v).at("score_threshold"@) == search_body(b, w).at(
            "score_threshold"@,
        ),
        a.top_k == b.top_k ==> search_body(a, v).at("limit"@) == search_body(b, w).at("limit"@),
{
    a_search_asks_for_its_query(a, v);
    a_search_asks_for_its_query(b, w);
}

/// A scroll asks for payloads and not for vectors, for as many points as were asked for and
/// one at least, by the caller's clauses and no other, and the newest first.
pub proof fn a_scroll_asks_for_the_newest_payloads(must: Seq<Doc>, limit: usize)
    ensures
        ({
            let body = scroll_body(must, limit);
            &&& only(
                body,
                set!["limit"@, "with_payload"@, "with_vector"@, "filter"@, "order_by"@],
            )
            &&& body.at("limit"@) == Doc::Int(
                if limit > 1 {
                    limit as int
                } else {
                    1
                },
            )
            &&& body.at("with_payload"@) == Doc::Bool(true)
            &&& body.at("with_vector"@) == Doc::Bool(false)
            &&& only(body.at("filter"@), set!["must"@])
            &&& body.at("filter"@).at("must"@) == Doc::Array(must)
            &&& only(body.at("order_by"@), set!["key"@, "direction"@])
            &&& body.at("order_by"@).at("key"@) == Doc::Str("ts_unix_ms"@)
            &&& body.at("order_by"@).at("direction"@) == Doc::Str("desc"@)
        }),
{
    reveal_strlit("limit");
    reveal_strlit("with_payload");
    reveal_strlit("with_vector");
    reveal_strlit("filter");
    reveal_strlit("order_by");
    reveal_strlit("key");
    reveal_strlit("direction");
    assert("limit"@.len() == 5);
    assert("with_payload"@.len() == 12);
    assert("with_vector"@.len() == 11);
    assert("filter"@.len() == 6);
    assert("order_by"@.len() == 8);
    assert("key"@.len() == 3);
    assert("direction"@.len() == 9);
}

/// A filter holds the caller's clauses, all of them and in their places, and nothing else.
pub proof fn a_filter_holds_every_clause(must: Seq<Doc>, must_not: Seq<Doc>)
    ensures
        only(filter(must, must_not), set!["must"@, "must_not"@]),
        filter(must, must_not).at("must"@) == Doc::Array(must),
        filter(must, must_not).at("must_not"@) == Doc::Array(must_not),
{
    reveal_strlit("must");
    reveal_strlit("must_not");
    assert("must"@.len() == 4);
    assert("must_not"@.len() == 8);
}

/// What a deletion counts and what it deletes is selected by the one filter that both requests
/// carry: the count is asked for exactly and changes nothing, the deletion is waited for.
pub proof fn a_deletion_counts_and_deletes_by_one_filter(store: Store, filter: Doc)
    ensures
        ({
            let count = store.count_call(filter);
            &&& count.method == Method::Post
            &&& count.url == store.address("/points/count"@)
            &&& count.reads == Reads::DocumentOrClientError
            &&& count.body is Some
            &&& only(count.body->0, set!["filter"@, "exact"@])
            &&& count.body->0.at("filter"@) == filter
            &&& count.body->0.at("exact"@) == Doc::Bool(true)
        }),
        ({
            let delete = store.delete_call(filter);
            &&& delete.method == Method::Post
            &&& delete.url == store.address("/points/delete"@) + "?wait=true"@
            &&& delete.reads == Reads::Status
            &&& delete.body is Some
            &&& only(delete.body->0, set!["filter"@])
            &&& delete.body->0.at("filter"@) == filter
        }),
{
    reveal_strlit("filter");
    reveal_strlit("exact");
    assert("filter"@.len() == 6);
    assert("exact"@.len() == 5);
}

/// A deletion by id has one clause, which lists the text of each of the ids in its place and
/// nothing else.
pub proof fn a_deletion_by_id_lists_each_id(ids: Seq<PointId>, i: int)
    requires
        0 <= i < ids.len(),
    ensures
        ({
            let f = ids_filter(ids);
            let must = elements(f.at("must"@));
            let listed = elements(must[0].at("has_id"@));
            &&& only(f, set!["must"@])
            &&& must.len() == 1
            &&& only(must[0], set!["has_id"@])
            &&& listed.len() == ids.len()
            &&& listed[i] == Doc::Str(hyphenated(ids[i].bytes@))
        }),
{
}

/// What is old is told by two clauses and no other: one bound above on when it was made, and
/// one bound below on when it was recalled, both at the time that was asked for.
pub proof fn what_is_old_is_told_by_two_bounds(ts_unix_ms: i64)
    ensures
        ({
            let f = old_at(ts_unix_ms);
            let must = elements(f.at("must"@));
            let must_not = elements(f.at("must_not"@));
            &&& only(f, set!["must"@, "must_not"@])
            &&& must.len() == 1
            &&& must_not.len() == 1
            &&& only(must[0], set!["key"@, "range"@])
            &&& must[0].at("key"@) == Doc::Str("ts_unix_ms"@)
            &&& only(must[0].at("range"@), set!["lt"@])
            &&& must[0].at("range"@).at("lt"@) == Doc::Int(ts_unix_ms as int)
            &&& only(must_not[0], set!["key"@, "range"@])
            &&& must_not[0].at("key"@) == Doc::Str("last_recalled_ms"@)
            &&& only(must_not[0].at("range"@), set!["gte"@])
            &&& must_not[0].at("range"@).at("gte"@) == Doc::Int(ts_unix_ms as int)
        }),
{
    a_filter_holds_every_clause(
        seq![in_bounds("ts_unix_ms"@, None, Some(ts_unix_ms))],
        seq![in_bounds("last_recalled_ms"@, Some(ts_unix_ms), None)],
    );
    reveal_strlit("key");
    reveal_strlit("range");
    assert("key"@.len() == 3);
    assert("range"@.len() == 5);
}

/// A merge names one point, by the text of its id, and carries the payload as it is.
pub proof fn a_merge_names_one_point(id: PointId, payload: Doc)
    ensures
        only(merge_body(id, payload), set!["points"@, "payload"@]),
        merge_body(id, payload).at("points"@) == Doc::Array(seq![Doc::Str(hyphenated(id.bytes@))]),
        merge_body(id, payload).at("payload"@) == payload,
{
    reveal_strlit("points");
    reveal_strlit("payload");
    assert("points"@.len() == 6);
    assert("payload"@.len() == 7);
}

/// Whether `c` is a clause on one field by one condition: a value, one of several values, or
/// bounds, and nothing besides.
pub open spec fn plain_clause(c: Doc) -> bool {
    ||| {
        &&& only(c, set!["key"@, "match"@])
        &&& only(c.at("match"@), set!["value"@]) || only(c.at("match"@), set!["any"@])
    }
    ||| {
        &&& only(c, set!["key"@, "range"@])
        &&& c.at("range"@) is Object
        &&& c.at("range"@)->Object_0.dom().subset_of(set!["gte"@, "lt"@])
    }
}

/// Each clause of a query puts one condition on one field.
pub proof fn a_query_has_plain_clauses(q: Query, i: int)
    requires
        0 <= i < q.clauses().len(),
    ensures
        plain_clause(q.clauses()[i]),
{
    reveal_strlit("key");
    reveal_strlit("match");
    reveal_strlit("range");
    assert("key"@.len() == 3);
    assert("match"@.len() == 5);
    assert("range"@.len() == 5);
}

/// Ollama is sent its model and one input for each text, in the order of the texts: a document
/// as it is, and a query with the retrieval instruction before it. No document is sent with the
/// instruction.
pub proof fn ollama_is_sent_documents_as_they_are(ollama: Ollama, texts: Seq<String>, role: Role, i: int)
    requires
        0 <= i < texts.len(),
    ensures
        ({
            let call = ollama.embed_call(texts, role);
            let body = call.body->0;
            let input = elements(body.at("input"@));
            &&& call.method == Method::Post
            &&& call.url == ollama.endpoint@ + "/api/embed"@
            &&& call.reads == Reads::DocumentOrClientError
            &&& call.body is Some
            &&& only(body, set!["model"@, "input"@])
            &&& body.at("model"@) == Doc::Str(ollama.model@)
            &&& body.at("input"@) is Array
            &&& input.len() == texts.len()
            &&& role is Document ==> input[i] == Doc::Str(texts[i]@)
            &&& role is Query ==> input[i] == Doc::Str(
                "Represent this sentence for searching relevant passages: "@ + texts[i]@,
            )
        }),
{
    reveal_strlit("model");
    reveal_strlit("input");
    assert("model"@.len() == 5);
    assert("input"@.len() == 5);
    assert("model"@[0] != "input"@[0]);
}

/// Cutting the slashes at the end takes those off and nothing else, and leaves none there.
pub proof fn slashes_at_an_end_are_cut(s: Seq<char>)
    ensures
        ({
            let r = without_trailing_slashes(s);
            &&& r.len() <= s.len()
            &&& r == s.take(r.len() as int)
            &&& forall|i: int| r.len() <= i < s.len() ==> s[i] == '/'
            &&& r.len() > 0 ==> r.last() != '/'
        }),
    decreases s.len(),
{
    if s.len() > 0 && s.last() == '/' {
        slashes_at_an_end_are_cut(s.drop_last());
        let r = without_trailing_slashes(s);
        assert(r =~= s.take(r.len() as int));
        assert forall|i: int| r.len() <= i < s.len() implies s[i] == '/' by {
            if i < s.len() - 1 {
                assert(s.drop_last()[i] == s[i]);
            }
        }
    } else {
        assert(s.take(s.len() as int) =~= s);
    }
}

} // verus!
