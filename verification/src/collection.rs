//! What the store's requests do to a collection, and what holds across several of them.
//!
//! The service that keeps the collection is not part of this library. The functions here say
//! how it reads the requests that [`crate::store::Store`] makes of it; the laws hold of a
//! service that reads them so.
use vstd::prelude::*;

use crate::asked::a_deletion_counts_and_deletes_by_one_filter;
use crate::asked::a_filter_holds_every_clause;
use crate::asked::a_search_asks_for_its_query;
use crate::filter::admits;
use crate::filter::holds;
use crate::filter::in_bounds;
use crate::filter::integer_if_number;
use crate::filter::lemma_clauses_name_no_ids;
use crate::filter::prune_spares_what_was_recalled;
use crate::filter::query_selects_the_memory_that_is_read;
use crate::filter::query_selects_what_it_admits;
use crate::filter::selects;
use crate::filter::shows_what_is_looked_at;
use crate::filter::single;
use crate::filter::typed_for;
use crate::filter::Query;
use crate::item::keeps_fixed_fields;
use crate::item::memory_of;
use crate::item::merged_numbers_read_back_as_text;
use crate::item::meta_of;
use crate::item::reading_gives_back_what_was_written;
use crate::item::Item;
use crate::item::Memory;
use crate::json::Doc;
use crate::json::Json;
use crate::json::Number;
use crate::point_id::hyphenated;
use crate::point_id::PointId;
use crate::reading::elements;
use crate::reading::hits_of;
use crate::reading::memories_of;
use crate::reading::result_number;
use crate::reading::unshadowed;
use crate::store::at_least_one;
use crate::store::deletes;
use crate::store::filter;
use crate::store::id_texts;
use crate::store::ids_filter;
use crate::store::lemma_point;
use crate::store::merge_body;
use crate::store::old_at;
use crate::store::point;
use crate::store::points;
use crate::store::scroll_body;
use crate::store::search_body;
use crate::store::upsert_body;
use crate::store::Store;

verus! {

/// What is kept under the id of a point.
#[verifier::ext_equal]
pub struct Kept {
    pub vector: Doc,
    pub payload: Map<Seq<char>, Doc>,
}

/// The id that the point `p` of an upsert is written under.
pub open spec fn id_of(p: Doc) -> Seq<char> {
    p.at("id"@)->Str_0
}

/// What the point `p` of an upsert writes under its id.
pub open spec fn kept_of(p: Doc) -> Kept {
    Kept { vector: p.at("vector"@), payload: p.at("payload"@)->Object_0 }
}

/// The collection `c` after the points `ps` were written, one after the other: each takes the
/// place of what was kept under its id.
pub open spec fn written(c: Map<Seq<char>, Kept>, ps: Seq<Doc>) -> Map<Seq<char>, Kept>
    decreases ps.len(),
{
    if ps.len() == 0 {
        c
    } else {
        written(c, ps.drop_last()).insert(id_of(ps.last()), kept_of(ps.last()))
    }
}

/// The collection `c` after an upsert with this body.
pub open spec fn after_upsert(c: Map<Seq<char>, Kept>, body: Doc) -> Map<Seq<char>, Kept> {
    written(c, elements(body.at("points"@)))
}

/// Whether the point `id` with the payload `p` meets the clause `c`: one that lists ids wants
/// one of them, any other looks at the payload.
pub open spec fn meets(c: Doc, id: Seq<char>, p: Map<Seq<char>, Doc>) -> bool {
    if c.at("has_id"@) is Array {
        c.at("has_id"@)->Array_0.contains(Doc::Str(id))
    } else {
        holds(c, p)
    }
}

/// Whether `filter` selects the point `id` with the payload `p`: every clause of its `must` is
/// met, and none of its `must_not`.
pub open spec fn selected(filter: Doc, id: Seq<char>, p: Map<Seq<char>, Doc>) -> bool {
    let must = elements(filter.at("must"@));
    let must_not = elements(filter.at("must_not"@));
    &&& forall|i: int| 0 <= i < must.len() ==> meets(#[trigger] must[i], id, p)
    &&& forall|i: int| 0 <= i < must_not.len() ==> !meets(#[trigger] must_not[i], id, p)
}

/// Whether the point `id` with the payload `p` meets each of `clauses`.
pub open spec fn meets_all(clauses: Seq<Doc>, id: Seq<char>, p: Map<Seq<char>, Doc>) -> bool {
    forall|i: int| 0 <= i < clauses.len() ==> meets(#[trigger] clauses[i], id, p)
}

/// Whether the point `id` with the payload `p` meets none of `clauses`.
pub open spec fn meets_none(clauses: Seq<Doc>, id: Seq<char>, p: Map<Seq<char>, Doc>) -> bool {
    forall|i: int| 0 <= i < clauses.len() ==> !meets(#[trigger] clauses[i], id, p)
}

/// The ids of the points of `c` that `filter` selects.
pub open spec fn selection(c: Map<Seq<char>, Kept>, filter: Doc) -> Set<Seq<char>> {
    c.dom().filter(|k: Seq<char>| selected(filter, k, c[k].payload))
}

/// How many points of `c` the filter selects.
pub open spec fn count(c: Map<Seq<char>, Kept>, filter: Doc) -> nat {
    selection(c, filter).len()
}

/// The collection `c` after what `filter` selects was deleted.
pub open spec fn after_delete(c: Map<Seq<char>, Kept>, filter: Doc) -> Map<Seq<char>, Kept> {
    c.remove_keys(selection(c, filter))
}

/// The collection `c` after a payload merge with this body: in the points that it names the
/// merged fields take the place of those of the same name, the rest is as it was.
pub open spec fn after_merge(c: Map<Seq<char>, Kept>, body: Doc) -> Map<Seq<char>, Kept> {
    Map::new(
        |k: Seq<char>| c.contains_key(k),
        |k: Seq<char>|
            if elements(body.at("points"@)).contains(Doc::Str(k)) {
                Kept {
                    vector: c[k].vector,
                    payload: c[k].payload.union_prefer_right(body.at("payload"@)->Object_0),
                }
            } else {
                c[k]
            },
    )
}

/// The number in the field `key` of the point `k`.
pub open spec fn number_at(c: Map<Seq<char>, Kept>, k: Seq<char>, key: Seq<char>) -> int {
    Doc::Object(c[k].payload).at(key)->Int_0
}

/// Whether `ks` are ids that a scroll of `c` with this body may answer with, where every point
/// that its filter selects holds an integer in the field to sort by: points that the filter
/// selects, none twice, no more than the limit, the greatest first where they are asked for in
/// descending order, and none left out that is greater than one of them or that there was
/// room for.
pub open spec fn may_scroll(c: Map<Seq<char>, Kept>, body: Doc, ks: Seq<Seq<char>>) -> bool {
    let chosen = selection(c, body.at("filter"@));
    let limit = body.at("limit"@)->Int_0;
    let key = body.at("order_by"@).at("key"@)->Str_0;
    &&& ks.no_duplicates()
    &&& ks.len() <= limit
    &&& forall|i: int| 0 <= i < ks.len() ==> chosen.contains(#[trigger] ks[i])
    &&& body.at("order_by"@).at("direction"@) == Doc::Str("desc"@) ==> {
        &&& forall|i: int, j: int|
            0 <= i < j < ks.len() ==> number_at(c, #[trigger] ks[i], key) >= number_at(
                c,
                #[trigger] ks[j],
                key,
            )
        &&& forall|k: Seq<char>, i: int|
            #[trigger] chosen.contains(k) && !ks.contains(k) && 0 <= i < ks.len() ==> number_at(
                c,
                #[trigger] ks[i],
                key,
            ) >= number_at(c, k, key)
    }
    &&& forall|k: Seq<char>| #[trigger] chosen.contains(k) && !ks.contains(k) ==> ks.len() == limit
}

/// What an answer to a request with this body says of the point `id`: its id, and its vector
/// and its payload only where the request asked for them.
pub open spec fn answered(body: Doc, id: Seq<char>, kept: Kept) -> Map<Seq<char>, Doc> {
    let named = Map::<Seq<char>, Doc>::empty().insert("id"@, Doc::Str(id));
    let placed = if body.at("with_vector"@) == Doc::Bool(true) {
        named.insert("vector"@, kept.vector)
    } else {
        named
    };
    if body.at("with_payload"@) == Doc::Bool(true) {
        placed.insert("payload"@, Doc::Object(kept.payload))
    } else {
        placed
    }
}

/// The points `ks` of `c` as a scroll with this body answers with them.
pub open spec fn scrolled_points(c: Map<Seq<char>, Kept>, body: Doc, ks: Seq<Seq<char>>) -> Seq<Doc> {
    ks.map_values(|k: Seq<char>| Doc::Object(answered(body, k, c[k])))
}

/// The document in which a scroll with this body answers with the points `ks` of `c`.
pub open spec fn scroll_document(c: Map<Seq<char>, Kept>, body: Doc, ks: Seq<Seq<char>>) -> Doc {
    single("result"@, single("points"@, Doc::Array(scrolled_points(c, body, ks))))
}

/// Whether `ks` are ids that a search of `c` with this body may answer with: points that its
/// filter selects, none twice, no more than the limit. Which of those, and in what order, rests
/// on their scores.
pub open spec fn may_search(c: Map<Seq<char>, Kept>, body: Doc, ks: Seq<Seq<char>>) -> bool {
    &&& ks.no_duplicates()
    &&& ks.len() <= body.at("limit"@)->Int_0
    &&& forall|i: int|
        0 <= i < ks.len() ==> selection(c, body.at("filter"@)).contains(#[trigger] ks[i])
}

/// The points `ks` of `c` as a search with this body answers with them, each with its score.
pub open spec fn found_points(
    c: Map<Seq<char>, Kept>,
    body: Doc,
    ks: Seq<Seq<char>>,
    scores: Seq<Doc>,
) -> Seq<Doc> {
    Seq::new(
        ks.len(),
        |i: int| Doc::Object(answered(body, ks[i], c[ks[i]]).insert("score"@, scores[i])),
    )
}

/// The document in which a search with this body answers with the points `ks` of `c`.
pub open spec fn search_document(
    c: Map<Seq<char>, Kept>,
    body: Doc,
    ks: Seq<Seq<char>>,
    scores: Seq<Doc>,
) -> Doc {
    single("result"@, Doc::Array(found_points(c, body, ks, scores)))
}

/// Whether `score` reaches the threshold that a request with this body sets, by the order
/// `at_least` of scores. A request that sets none is reached by every score.
pub open spec fn reaches(body: Doc, score: Doc, at_least: spec_fn(Doc, Doc) -> bool) -> bool {
    body.at("score_threshold"@) != Doc::Null ==> at_least(score, body.at("score_threshold"@))
}

/// Whether `score` is at least the least score of `q`, where it has one.
pub open spec fn scores_enough(q: Query, score: Doc, at_least: spec_fn(Doc, Doc) -> bool) -> bool {
    match q.min_score {
        Some(Number::Int(n)) => at_least(score, Doc::Int(n as int)),
        Some(Number::Float(s)) => at_least(score, Doc::Float(s@)),
        None => true,
    }
}

/// The memory that the point `k` carries.
pub open spec fn memory_at(c: Map<Seq<char>, Kept>, k: Seq<char>) -> Option<Memory> {
    memory_of(Doc::Object(c[k].payload))
}

/// The id under which the memory `m` is kept.
pub open spec fn place_of(m: Memory) -> Seq<char> {
    hyphenated(m.id())
}

proof fn lemma_point_fields(m: Memory, vector: Doc)
    ensures
        id_of(point(m, vector)) == place_of(m),
        kept_of(point(m, vector)) == (Kept { vector, payload: m.payload() }),
{
    lemma_point(m, vector);
}

proof fn lemma_untouched(c: Map<Seq<char>, Kept>, ps: Seq<Doc>, k: Seq<char>)
    requires
        forall|i: int| 0 <= i < ps.len() ==> id_of(#[trigger] ps[i]) != k,
    ensures
        written(c, ps).contains_key(k) <==> c.contains_key(k),
        written(c, ps)[k] == c[k],
    decreases ps.len(),
{
    if ps.len() > 0 {
        let n = ps.len() - 1;
        assert(id_of(ps[n]) != k);
        assert forall|i: int| 0 <= i < n implies id_of(#[trigger] ps.drop_last()[i]) != k by {
            assert(ps.drop_last()[i] == ps[i]);
        }
        lemma_untouched(c, ps.drop_last(), k);
    }
}

proof fn lemma_last_one_stays(c: Map<Seq<char>, Kept>, ps: Seq<Doc>, i: int)
    requires
        0 <= i < ps.len(),
        forall|j: int| i < j < ps.len() ==> id_of(#[trigger] ps[j]) != id_of(ps[i]),
    ensures
        written(c, ps).contains_key(id_of(ps[i])),
        written(c, ps)[id_of(ps[i])] == kept_of(ps[i]),
    decreases ps.len(),
{
    let n = ps.len() - 1;
    if i < n {
        assert(id_of(ps[n]) != id_of(ps[i]));
        let qs = ps.drop_last();
        assert forall|j: int| i < j < qs.len() implies id_of(#[trigger] qs[j]) != id_of(qs[i]) by {
            assert(qs[j] == ps[j]);
        }
        lemma_last_one_stays(c, qs, i);
    }
}

/// The last of the points with the id of `ps[i]`, at `i` or after it.
proof fn lemma_there_is_a_last_one(ps: Seq<Doc>, i: int) -> (r: int)
    requires
        0 <= i < ps.len(),
    ensures
        i <= r < ps.len(),
        id_of(ps[r]) == id_of(ps[i]),
        forall|j: int| r < j < ps.len() ==> id_of(#[trigger] ps[j]) != id_of(ps[r]),
    decreases ps.len() - i,
{
    if exists|j: int| i < j < ps.len() && id_of(#[trigger] ps[j]) == id_of(ps[i]) {
        let j = choose|j: int| i < j < ps.len() && id_of(#[trigger] ps[j]) == id_of(ps[i]);
        lemma_there_is_a_last_one(ps, j)
    } else {
        i
    }
}

proof fn lemma_upserted_points(items: Seq<Item>, vectors: Seq<Json>)
    ensures
        elements(upsert_body(items, vectors).at("points"@)) == points(items, vectors),
        forall|i: int|
            0 <= i < points(items, vectors).len() ==> id_of(#[trigger] points(items, vectors)[i])
                == place_of(items[i]@),
{
    assert forall|i: int| 0 <= i < points(items, vectors).len() implies id_of(
        #[trigger] points(items, vectors)[i],
    ) == place_of(items[i]@) by {
        lemma_point_fields(items[i]@, vectors[i]@);
    }
}

/// After an upsert each memory is kept under its id, with its vector and its payload, and is
/// read back from there as it was; of several with one id that is the last.
pub proof fn an_upserted_memory_is_kept(
    c: Map<Seq<char>, Kept>,
    items: Seq<Item>,
    vectors: Seq<Json>,
    i: int,
)
    requires
        0 <= i < items.len() <= vectors.len(),
        forall|j: int| i < j < items.len() ==> place_of((#[trigger] items[j])@) != place_of(items[i]@),
    ensures
        ({
            let d = after_upsert(c, upsert_body(items, vectors));
            let k = place_of(items[i]@);
            &&& d.contains_key(k)
            &&& d[k] == (Kept { vector: vectors[i]@, payload: items[i]@.payload() })
            &&& unshadowed(items[i]@) ==> memory_of(Doc::Object(d[k].payload)) == Some(items[i]@)
        }),
{
    let ps = points(items, vectors);
    lemma_upserted_points(items, vectors);
    assert(id_of(ps[i]) == place_of(items[i]@));
    assert forall|j: int| i < j < ps.len() implies id_of(#[trigger] ps[j]) != id_of(ps[i]) by {
        assert(place_of(items[j]@) != place_of(items[i]@));
    }
    lemma_last_one_stays(c, ps, i);
    lemma_point_fields(items[i]@, vectors[i]@);
    if unshadowed(items[i]@) {
        reading_gives_back_what_was_written(items[i]@);
    }
}

/// An upsert leaves alone what is kept under an id that none of its memories has.
pub proof fn an_upsert_leaves_the_rest_alone(
    c: Map<Seq<char>, Kept>,
    items: Seq<Item>,
    vectors: Seq<Json>,
    k: Seq<char>,
)
    requires
        forall|i: int| 0 <= i < items.len() ==> place_of((#[trigger] items[i])@) != k,
    ensures
        ({
            let d = after_upsert(c, upsert_body(items, vectors));
            &&& d.contains_key(k) <==> c.contains_key(k)
            &&& d[k] == c[k]
        }),
{
    let ps = points(items, vectors);
    lemma_upserted_points(items, vectors);
    assert forall|i: int| 0 <= i < ps.len() implies id_of(#[trigger] ps[i]) != k by {
        assert(place_of(items[i]@) != k);
    }
    lemma_untouched(c, ps, k);
}

/// Re-ingesting is idempotent: the same upsert a second time changes nothing.
pub proof fn upserting_twice_is_upserting_once(
    c: Map<Seq<char>, Kept>,
    items: Seq<Item>,
    vectors: Seq<Json>,
)
    ensures
        ({
            let body = upsert_body(items, vectors);
            after_upsert(after_upsert(c, body), body) == after_upsert(c, body)
        }),
{
    let ps = points(items, vectors);
    lemma_upserted_points(items, vectors);
    let once = written(c, ps);
    let twice = written(once, ps);
    assert forall|k: Seq<char>|
        (#[trigger] twice.contains_key(k) <==> once.contains_key(k)) && twice[k] == once[k] by {
        if exists|i: int| 0 <= i < ps.len() && id_of(#[trigger] ps[i]) == k {
            let i = choose|i: int| 0 <= i < ps.len() && id_of(#[trigger] ps[i]) == k;
            let r = lemma_there_is_a_last_one(ps, i);
            lemma_last_one_stays(c, ps, r);
            lemma_last_one_stays(once, ps, r);
        } else {
            lemma_untouched(once, ps, k);
        }
    }
    assert(twice.dom() =~= once.dom());
    assert(twice =~= once);
}

/// What is counted is what is deleted: the count of a filter, taken first, is by how many
/// points the deletion makes the collection smaller, and none that it selects is left.
pub proof fn the_count_is_the_number_deleted(c: Map<Seq<char>, Kept>, filter: Doc)
    requires
        c.dom().finite(),
    ensures
        after_delete(c, filter).len() + count(c, filter) == c.len(),
        count(after_delete(c, filter), filter) == 0,
{
    let gone = selection(c, filter);
    let left = after_delete(c, filter);
    assert(gone.subset_of(c.dom()));
    vstd::set_lib::lemma_len_subset(gone, c.dom());
    assert(left.dom() =~= c.dom().difference(gone));
    vstd::set_lib::lemma_set_disjoint_lens(left.dom(), gone);
    assert(left.dom() + gone =~= c.dom());
    assert(selection(left, filter) =~= Set::<Seq<char>>::empty());
}

/// A filter selects a point exactly where the point meets every clause of `must` and no clause
/// of `must_not`, however many there are of either.
pub proof fn a_filter_selects_by_every_clause(
    must: Seq<Doc>,
    must_not: Seq<Doc>,
    id: Seq<char>,
    p: Map<Seq<char>, Doc>,
)
    ensures
        selected(filter(must, must_not), id, p) <==> {
            &&& forall|i: int| 0 <= i < must.len() ==> meets(#[trigger] must[i], id, p)
            &&& forall|i: int| 0 <= i < must_not.len() ==> !meets(#[trigger] must_not[i], id, p)
        },
{
    a_filter_holds_every_clause(must, must_not);
    let f = filter(must, must_not);
    assert(elements(f.at("must"@)) == must);
    assert(elements(f.at("must_not"@)) == must_not);
    assert(selected(f, id, p) <==> meets_all(must, id, p) && meets_none(must_not, id, p));
}

/// What a deletion by the caller's clauses counts, and what it then deletes, is each point that
/// meets every clause of `must` and no clause of `must_not`, and no other point: both of its
/// requests select so.
pub proof fn a_deletion_takes_what_meets_every_clause(
    store: Store,
    must: Seq<Doc>,
    must_not: Seq<Doc>,
    id: Seq<char>,
    p: Map<Seq<char>, Doc>,
)
    ensures
        ({
            let counts = store.count_call(filter(must, must_not));
            let deletes = store.delete_call(filter(must, must_not));
            let meant = meets_all(must, id, p) && meets_none(must_not, id, p);
            &&& counts.body is Some
            &&& deletes.body is Some
            &&& selected(counts.body->0.at("filter"@), id, p) <==> meant
            &&& selected(deletes.body->0.at("filter"@), id, p) <==> meant
        }),
{
    a_deletion_counts_and_deletes_by_one_filter(store, filter(must, must_not));
    a_filter_selects_by_every_clause(must, must_not, id, p);
}

/// A clause more in `must`, or in `must_not`, never selects a point that was not selected
/// before.
pub proof fn a_clause_more_selects_no_more(
    must: Seq<Doc>,
    must_not: Seq<Doc>,
    clause: Doc,
    id: Seq<char>,
    p: Map<Seq<char>, Doc>,
)
    ensures
        selected(filter(must.push(clause), must_not), id, p) <==> selected(
            filter(must, must_not),
            id,
            p,
        ) && meets(clause, id, p),
        selected(filter(must, must_not.push(clause)), id, p) <==> selected(
            filter(must, must_not),
            id,
            p,
        ) && !meets(clause, id, p),
{
    a_filter_selects_by_every_clause(must, must_not, id, p);
    a_filter_selects_by_every_clause(must.push(clause), must_not, id, p);
    a_filter_selects_by_every_clause(must, must_not.push(clause), id, p);
    lemma_one_more(must, clause);
    lemma_one_more(must_not, clause);
}

proof fn lemma_one_more(s: Seq<Doc>, d: Doc)
    ensures
        forall|i: int| 0 <= i < s.len() ==> #[trigger] s[i] == s.push(d)[i],
        s.push(d)[s.len() as int] == d,
{
}

/// What the service answers where `n` points were counted.
pub open spec fn count_document(n: nat) -> Doc {
    single("result"@, single("count"@, Doc::Int(n as int)))
}

/// The number that a deletion reports of the collection `c`: what is read of the answer to its
/// count.
pub open spec fn reported(c: Map<Seq<char>, Kept>, filter: Doc) -> u64 {
    result_number(count_document(count(c, filter)), "count"@)
}

/// The collection `c` after a deletion, or after the dry run of one.
pub open spec fn after_deletion(c: Map<Seq<char>, Kept>, filter: Doc, dry_run: bool) -> Map<
    Seq<char>,
    Kept,
> {
    if deletes(dry_run, reported(c, filter)) {
        after_delete(c, filter)
    } else {
        c
    }
}

/// A dry run changes nothing, and the deletion after it reports the same number: that of the
/// points which it removes. Exactly the selected points are gone, the rest is as it was, and a
/// further deletion reports 0.
pub proof fn a_deletion_reports_what_it_removes(
    c: Map<Seq<char>, Kept>,
    must: Seq<Doc>,
    must_not: Seq<Doc>,
)
    requires
        c.dom().finite(),
        c.len() <= u64::MAX,
    ensures
        ({
            let f = filter(must, must_not);
            let tried = after_deletion(c, f, true);
            let done = after_deletion(tried, f, false);
            &&& tried == c
            &&& reported(tried, f) == reported(c, f)
            &&& reported(c, f) == count(c, f)
            &&& c.len() - done.len() == reported(c, f)
            &&& forall|k: Seq<char>| #[trigger]
                done.contains_key(k) <==> c.contains_key(k) && !selected(f, k, c[k].payload)
            &&& forall|k: Seq<char>| #[trigger]
                done.contains_key(k) <==> c.contains_key(k) && !(meets_all(must, k, c[k].payload)
                    && meets_none(must_not, k, c[k].payload))
            &&& forall|k: Seq<char>| #[trigger] done.contains_key(k) ==> done[k] == c[k]
            &&& reported(done, f) == 0
        }),
{
    let f = filter(must, must_not);
    let done = after_deletion(c, f, false);
    assert forall|k: Seq<char>| selected(f, k, c[k].payload) <==> meets_all(must, k, c[k].payload)
        && meets_none(must_not, k, c[k].payload) by {
        a_filter_selects_by_every_clause(must, must_not, k, c[k].payload);
    }
    the_count_is_the_number_deleted(c, f);
    assert(count(c, f) <= c.len());
    assert(reported(c, f) == count(c, f));
    if count(c, f) == 0 {
        assert(selection(c, f).finite()) by {
            assert(selection(c, f).subset_of(c.dom()));
            vstd::set_lib::lemma_len_subset(selection(c, f), c.dom());
        }
        assert forall|k: Seq<char>| !selection(c, f).contains(k) by {
            if selection(c, f).contains(k) {
                assert(selection(c, f).remove(k).len() < selection(c, f).len());
            }
        }
        assert forall|k: Seq<char>| #[trigger]
            done.contains_key(k) <==> c.contains_key(k) && !selected(f, k, c[k].payload) by {
            assert(!selection(c, f).contains(k));
        }
    }
}

/// A deletion changes nothing of what it leaves.
pub proof fn what_is_left_is_as_it_was(c: Map<Seq<char>, Kept>, filter: Doc, k: Seq<char>)
    requires
        after_delete(c, filter).contains_key(k),
    ensures
        c.contains_key(k),
        after_delete(c, filter)[k] == c[k],
        !selected(filter, k, c[k].payload),
{
}

proof fn lemma_old_selects(ts_unix_ms: i64, k: Seq<char>, p: Map<Seq<char>, Doc>)
    ensures
        selected(old_at(ts_unix_ms), k, p) <==> selects(
            seq![in_bounds("ts_unix_ms"@, None, Some(ts_unix_ms))],
            seq![in_bounds("last_recalled_ms"@, Some(ts_unix_ms), None)],
            p,
        ),
{
    reveal_strlit("must");
    reveal_strlit("must_not");
    assert("must"@.len() == 4);
    assert("must_not"@.len() == 8);
    let made = in_bounds("ts_unix_ms"@, None, Some(ts_unix_ms));
    let reached = in_bounds("last_recalled_ms"@, Some(ts_unix_ms), None);
    let must = seq![made];
    let must_not = seq![reached];
    let f = old_at(ts_unix_ms);
    assert(elements(f.at("must"@)) == must);
    assert(elements(f.at("must_not"@)) == must_not);
    reveal_strlit("has_id");
    reveal_strlit("key");
    reveal_strlit("range");
    assert("has_id"@.len() == 6);
    assert("key"@.len() == 3);
    assert("range"@.len() == 5);
    assert(made.at("has_id"@) == Doc::Null);
    assert(reached.at("has_id"@) == Doc::Null);
    assert(must[0] == made && must_not[0] == reached);
    assert(meets(made, k, p) == holds(made, p));
    assert(meets(reached, k, p) == holds(reached, p));
    assert(selected(f, k, p) ==> meets(must[0], k, p) && !meets(must_not[0], k, p));
    assert(selects(must, must_not, p) ==> holds(must[0], p) && !holds(must_not[0], p));
}

/// A prune at `ts_unix_ms` spares what was recalled: a memory stays unless it was made before
/// and has not been recalled since.
pub proof fn a_prune_leaves_what_is_new_or_was_recalled(
    c: Map<Seq<char>, Kept>,
    ts_unix_ms: i64,
    k: Seq<char>,
)
    requires
        c.contains_key(k),
        integer_if_number(Doc::Object(c[k].payload).at("ts_unix_ms"@)),
        integer_if_number(Doc::Object(c[k].payload).at("last_recalled_ms"@)),
    ensures
        ({
            let made = Doc::Object(c[k].payload).at("ts_unix_ms"@);
            let recalled = Doc::Object(c[k].payload).at("last_recalled_ms"@);
            after_delete(c, old_at(ts_unix_ms)).contains_key(k) <==> {
                ||| !(made is Int) || made->Int_0 >= ts_unix_ms
                ||| recalled is Int && recalled->Int_0 >= ts_unix_ms
            }
        }),
{
    lemma_old_selects(ts_unix_ms, k, c[k].payload);
    prune_spares_what_was_recalled(ts_unix_ms, c[k].payload);
}

/// Deleting by id takes the points with those ids and no neighbour of them.
pub proof fn deleting_ids_leaves_the_rest(c: Map<Seq<char>, Kept>, ids: Seq<PointId>, k: Seq<char>)
    ensures
        after_delete(c, ids_filter(ids)).contains_key(k) <==> c.contains_key(k) && !exists|i: int|
            0 <= i < ids.len() && hyphenated((#[trigger] ids[i]).bytes@) == k,
{
    reveal_strlit("must");
    reveal_strlit("must_not");
    assert("must"@.len() == 4);
    assert("must_not"@.len() == 8);
    let f = ids_filter(ids);
    let t = id_texts(ids);
    let named = single("has_id"@, Doc::Array(t));
    let must = seq![named];
    assert(elements(f.at("must"@)) == must);
    assert(elements(f.at("must_not"@)) == Seq::<Doc>::empty());
    assert(must[0] == named);
    if c.contains_key(k) {
        let p = c[k].payload;
        assert(meets(named, k, p) == t.contains(Doc::Str(k)));
        assert(selected(f, k, p) ==> meets(must[0], k, p));
        assert(selected(f, k, p) == t.contains(Doc::Str(k)));
        if t.contains(Doc::Str(k)) {
            let i = choose|i: int| 0 <= i < t.len() && t[i] == Doc::Str(k);
            assert(hyphenated(ids[i].bytes@) == k);
        }
        if exists|i: int| 0 <= i < ids.len() && hyphenated((#[trigger] ids[i]).bytes@) == k {
            let i = choose|i: int| 0 <= i < ids.len() && hyphenated((#[trigger] ids[i]).bytes@) == k;
            assert(t[i] == Doc::Str(k));
        }
    }
}

/// A replacement that writes the new memories and then deletes the stale ones by id, none of
/// them a new one, loses nothing wherever it is interrupted: once the new ones are written
/// every one of them is kept beside all that was kept before, and the deletion leaves every
/// one of them, with whatever else was not stale.
pub proof fn a_replacement_never_leaves_neither(
    c: Map<Seq<char>, Kept>,
    items: Seq<Item>,
    vectors: Seq<Json>,
    stale: Seq<PointId>,
)
    requires
        items.len() <= vectors.len(),
        forall|i: int, j: int|
            0 <= i < items.len() && 0 <= j < stale.len() ==> place_of((#[trigger] items[i])@)
                != hyphenated((#[trigger] stale[j]).bytes@),
    ensures
        ({
            let mid = after_upsert(c, upsert_body(items, vectors));
            let end = after_delete(mid, ids_filter(stale));
            &&& forall|k: Seq<char>| #[trigger] c.contains_key(k) ==> mid.contains_key(k)
            &&& forall|i: int|
                0 <= i < items.len() ==> mid.contains_key(place_of((#[trigger] items[i])@))
            &&& forall|i: int|
                0 <= i < items.len() ==> end.contains_key(place_of((#[trigger] items[i])@))
                    && end[place_of(items[i]@)] == mid[place_of(items[i]@)]
            &&& forall|k: Seq<char>|
                c.contains_key(k) && (forall|j: int|
                    0 <= j < stale.len() ==> hyphenated((#[trigger] stale[j]).bytes@) != k)
                    ==> #[trigger] end.contains_key(k)
        }),
{
    let ps = points(items, vectors);
    lemma_upserted_points(items, vectors);
    let mid = written(c, ps);
    let end = after_delete(mid, ids_filter(stale));
    assert forall|i: int| 0 <= i < items.len() implies mid.contains_key(place_of((#[trigger] items[i])@)) by {
        assert(id_of(ps[i]) == place_of(items[i]@));
        let r = lemma_there_is_a_last_one(ps, i);
        lemma_last_one_stays(c, ps, r);
    }
    assert forall|k: Seq<char>| #[trigger] c.contains_key(k) implies mid.contains_key(k) by {
        if exists|i: int| 0 <= i < ps.len() && id_of(#[trigger] ps[i]) == k {
            let i = choose|i: int| 0 <= i < ps.len() && id_of(#[trigger] ps[i]) == k;
            assert(place_of(items[i]@) == k);
        } else {
            lemma_untouched(c, ps, k);
        }
    }
    assert forall|i: int| 0 <= i < items.len() implies end.contains_key(place_of((#[trigger] items[i])@)) by {
        deleting_ids_leaves_the_rest(mid, stale, place_of(items[i]@));
    }
    assert forall|k: Seq<char>|
        c.contains_key(k) && (forall|j: int|
            0 <= j < stale.len() ==> hyphenated((#[trigger] stale[j]).bytes@) != k) implies #[trigger] end.contains_key(
    k) by {
        assert(mid.contains_key(k));
        deleting_ids_leaves_the_rest(mid, stale, k);
    }
}

proof fn lemma_scrolled_memories(c: Map<Seq<char>, Kept>, body: Doc, ks: Seq<Seq<char>>)
    requires
        body.at("with_payload"@) == Doc::Bool(true),
        forall|i: int|
            0 <= i < ks.len() ==> Doc::Object(c[#[trigger] ks[i]].payload).at("ts_unix_ms"@).as_i64() is Some,
        forall|i: int, j: int|
            0 <= i < j < ks.len() ==> number_at(c, #[trigger] ks[i], "ts_unix_ms"@) >= number_at(
                c,
                #[trigger] ks[j],
                "ts_unix_ms"@,
            ),
    ensures
        ({
            let ms = memories_of(scrolled_points(c, body, ks));
            &&& ms.len() <= ks.len()
            &&& forall|i: int|
                0 <= i < ms.len() ==> exists|j: int|
                    0 <= j < ks.len() && memory_at(c, #[trigger] ks[j]) == Some(#[trigger] ms[i])
            &&& forall|j: int|
                0 <= j < ks.len() && memory_at(c, #[trigger] ks[j]) is Some ==> ms.contains(
                    memory_at(c, ks[j])->0,
                )
            &&& forall|i: int, j: int|
                0 <= i < j < ms.len() ==> (#[trigger] ms[i]).ts_unix_ms >= (#[trigger] ms[j]).ts_unix_ms
        }),
    decreases ks.len(),
{
    let ps = scrolled_points(c, body, ks);
    let ms = memories_of(ps);
    if ks.len() > 0 {
        let n = ks.len() - 1;
        let front = ks.drop_last();
        assert forall|i: int| 0 <= i < front.len() implies Doc::Object(
            c[#[trigger] front[i]].payload,
        ).at("ts_unix_ms"@).as_i64() is Some by {
            assert(front[i] == ks[i]);
        }
        assert forall|i: int, j: int| 0 <= i < j < front.len() implies number_at(
            c,
            #[trigger] front[i],
            "ts_unix_ms"@,
        ) >= number_at(c, #[trigger] front[j], "ts_unix_ms"@) by {
            assert(number_at(c, ks[i], "ts_unix_ms"@) >= number_at(c, ks[j], "ts_unix_ms"@));
        }
        lemma_scrolled_memories(c, body, front);
        let before = memories_of(scrolled_points(c, body, front));
        assert(ps.drop_last() =~= scrolled_points(c, body, front));
        assert(ps.last().at("payload"@) == Doc::Object(c[ks[n]].payload));
        let last = memory_at(c, ks[n]);
        assert(ms == if last is Some {
            before.push(last->0)
        } else {
            before
        });
        assert forall|i: int| 0 <= i < ms.len() implies exists|j: int|
            0 <= j < ks.len() && memory_at(c, #[trigger] ks[j]) == Some(#[trigger] ms[i]) by {
            if i < before.len() {
                assert(ms[i] == before[i]);
                let j = choose|j: int|
                    0 <= j < front.len() && memory_at(c, #[trigger] front[j]) == Some(before[i]);
                assert(ks[j] == front[j]);
            } else {
                assert(memory_at(c, ks[n]) == Some(ms[i]));
            }
        }
        assert forall|j: int| 0 <= j < ks.len() && memory_at(c, #[trigger] ks[j]) is Some implies ms.contains(
            memory_at(c, ks[j])->0,
        ) by {
            let m = memory_at(c, ks[j])->0;
            if j < n {
                assert(front[j] == ks[j]);
                assert(before.contains(m));
                let i = choose|i: int| 0 <= i < before.len() && before[i] == m;
                assert(ms[i] == m);
            } else {
                assert(ms[before.len() as int] == m);
            }
        }
        assert forall|i: int, j: int| 0 <= i < j < ms.len() implies (#[trigger] ms[i]).ts_unix_ms
            >= (#[trigger] ms[j]).ts_unix_ms by {
            assert(ms[i] == before[i]);
            if j < before.len() {
                assert(ms[j] == before[j]);
            } else {
                let a = choose|a: int|
                    0 <= a < front.len() && memory_at(c, #[trigger] front[a]) == Some(before[i]);
                assert(ks[a] == front[a]);
                assert(number_at(c, ks[a], "ts_unix_ms"@) >= number_at(c, ks[n], "ts_unix_ms"@));
            }
        }
    }
}

/// A scroll reads the newest matching memories, newest first, from an answer that holds no more
/// of a point than the request asked for: at most as many as were asked for, each of them
/// carried by a point that meets every clause of the caller, none newer before one older, and
/// what is missing is older than or as old as all that was read, and missing only because there
/// was no room.
pub proof fn a_scroll_reads_the_newest_first(
    c: Map<Seq<char>, Kept>,
    must: Seq<Doc>,
    limit: usize,
    ks: Seq<Seq<char>>,
)
    requires
        may_scroll(c, scroll_body(must, limit), ks),
        forall|k: Seq<char>| #[trigger]
            selection(c, single("must"@, Doc::Array(must))).contains(k) ==> Doc::Object(c[k].payload).at(
                "ts_unix_ms"@,
            ).as_i64() is Some,
    ensures
        ({
            let chosen = selection(c, single("must"@, Doc::Array(must)));
            let document = scroll_document(c, scroll_body(must, limit), ks);
            let read = memories_of(elements(document.at("result"@).at("points"@)));
            let room = if limit == 0 {
                1
            } else {
                limit as int
            };
            &&& forall|k: Seq<char>| #[trigger]
                chosen.contains(k) <==> c.contains_key(k) && meets_all(must, k, c[k].payload)
            &&& read.len() <= ks.len() <= room
            &&& forall|i: int|
                0 <= i < read.len() ==> exists|k: Seq<char>| #[trigger]
                    chosen.contains(k) && memory_at(c, k) == Some(#[trigger] read[i])
            &&& forall|i: int, j: int|
                0 <= i < j < read.len() ==> (#[trigger] read[i]).ts_unix_ms >= (#[trigger] read[j]).ts_unix_ms
            &&& forall|k: Seq<char>|
                #[trigger] chosen.contains(k) && memory_at(c, k) is Some && !read.contains(
                    memory_at(c, k)->0,
                ) ==> {
                    &&& ks.len() == room
                    &&& forall|i: int|
                        0 <= i < read.len() ==> (#[trigger] read[i]).ts_unix_ms >= memory_at(
                            c,
                            k,
                        )->0.ts_unix_ms
                }
        }),
{
    let body = scroll_body(must, limit);
    let f = single("must"@, Doc::Array(must));
    let chosen = selection(c, f);
    lemma_scroll_body(must, limit);
    let read = memories_of(scrolled_points(c, body, ks));
    assert(elements(scroll_document(c, body, ks).at("result"@).at("points"@)) == scrolled_points(
        c,
        body,
        ks,
    ));
    assert forall|k: Seq<char>| #[trigger] chosen.contains(k) <==> c.contains_key(k) && meets_all(
        must,
        k,
        c[k].payload,
    ) by {
        lemma_must_alone(must, k, c[k].payload);
    }
    assert forall|i: int| 0 <= i < ks.len() implies Doc::Object(c[#[trigger] ks[i]].payload).at(
        "ts_unix_ms"@,
    ).as_i64() is Some by {
        assert(chosen.contains(ks[i]));
    }
    lemma_scrolled_memories(c, body, ks);
    assert forall|i: int| 0 <= i < read.len() implies exists|k: Seq<char>| #[trigger]
        chosen.contains(k) && memory_at(c, k) == Some(#[trigger] read[i]) by {
        let j = choose|j: int| 0 <= j < ks.len() && memory_at(c, #[trigger] ks[j]) == Some(read[i]);
        assert(chosen.contains(ks[j]));
    }
    assert forall|k: Seq<char>|
        #[trigger] chosen.contains(k) && memory_at(c, k) is Some && !read.contains(
            memory_at(c, k)->0,
        ) implies ks.len() == body.at("limit"@)->Int_0 && forall|i: int|
        0 <= i < read.len() ==> (#[trigger] read[i]).ts_unix_ms >= memory_at(c, k)->0.ts_unix_ms by {
        if ks.contains(k) {
            let j = choose|j: int| 0 <= j < ks.len() && ks[j] == k;
            assert(memory_at(c, ks[j]) is Some);
        }
        assert forall|i: int| 0 <= i < read.len() implies (#[trigger] read[i]).ts_unix_ms >= memory_at(
            c,
            k,
        )->0.ts_unix_ms by {
            let j = choose|j: int| 0 <= j < ks.len() && memory_at(c, #[trigger] ks[j]) == Some(read[i]);
            assert(chosen.contains(ks[j]));
            assert(number_at(c, ks[j], "ts_unix_ms"@) >= number_at(c, k, "ts_unix_ms"@));
        }
    }
}

proof fn lemma_must_alone(must: Seq<Doc>, k: Seq<char>, p: Map<Seq<char>, Doc>)
    ensures
        selected(single("must"@, Doc::Array(must)), k, p) <==> meets_all(must, k, p),
{
    reveal_strlit("must");
    reveal_strlit("must_not");
    assert("must"@.len() == 4);
    assert("must_not"@.len() == 8);
    let f = single("must"@, Doc::Array(must));
    assert(elements(f.at("must"@)) == must);
    assert(elements(f.at("must_not"@)) == Seq::<Doc>::empty());
}

proof fn lemma_found_hits(c: Map<Seq<char>, Kept>, body: Doc, ks: Seq<Seq<char>>, scores: Seq<Doc>)
    requires
        body.at("with_payload"@) == Doc::Bool(true),
        scores.len() == ks.len(),
        forall|i: int| 0 <= i < scores.len() ==> (#[trigger] scores[i]).is_number(),
    ensures
        ({
            let hits = hits_of(found_points(c, body, ks, scores));
            &&& hits.len() <= ks.len()
            &&& forall|i: int|
                0 <= i < hits.len() ==> exists|j: int|
                    0 <= j < ks.len() && memory_at(c, #[trigger] ks[j]) == Some((#[trigger] hits[i]).1)
                        && scores[j] == hits[i].0
            &&& forall|j: int|
                0 <= j < ks.len() && memory_at(c, #[trigger] ks[j]) is Some ==> hits.contains(
                    (scores[j], memory_at(c, ks[j])->0),
                )
        }),
    decreases ks.len(),
{
    let ps = found_points(c, body, ks, scores);
    let hits = hits_of(ps);
    if ks.len() > 0 {
        let n = ks.len() - 1;
        let front = ks.drop_last();
        let before_scores = scores.drop_last();
        assert forall|i: int| 0 <= i < before_scores.len() implies (#[trigger] before_scores[i]).is_number() by {
            assert(before_scores[i] == scores[i]);
        }
        lemma_found_hits(c, body, front, before_scores);
        let before = hits_of(found_points(c, body, front, before_scores));
        assert(ps.drop_last() =~= found_points(c, body, front, before_scores));
        reveal_strlit("score");
        reveal_strlit("payload");
        assert("score"@.len() == 5);
        assert("payload"@.len() == 7);
        assert(ps.last().at("payload"@) == Doc::Object(c[ks[n]].payload));
        assert(ps.last().at("score"@) == scores[n]);
        assert(scores[n].is_number());
        let last = memory_at(c, ks[n]);
        assert(hits == if last is Some {
            before.push((scores[n], last->0))
        } else {
            before
        });
        assert forall|i: int| 0 <= i < hits.len() implies exists|j: int|
            0 <= j < ks.len() && memory_at(c, #[trigger] ks[j]) == Some((#[trigger] hits[i]).1)
                && scores[j] == hits[i].0 by {
            if i < before.len() {
                assert(hits[i] == before[i]);
                let j = choose|j: int|
                    0 <= j < front.len() && memory_at(c, #[trigger] front[j]) == Some(before[i].1)
                        && before_scores[j] == before[i].0;
                assert(ks[j] == front[j]);
            } else {
                assert(memory_at(c, ks[n]) == Some(hits[i].1));
            }
        }
        assert forall|j: int| 0 <= j < ks.len() && memory_at(c, #[trigger] ks[j]) is Some implies hits.contains(
            (scores[j], memory_at(c, ks[j])->0),
        ) by {
            let h = (scores[j], memory_at(c, ks[j])->0);
            if j < n {
                assert(front[j] == ks[j]);
                assert(before.contains((before_scores[j], memory_at(c, front[j])->0)));
                let i = choose|i: int| 0 <= i < before.len() && before[i] == h;
                assert(hits[i] == h);
            } else {
                assert(hits[before.len() as int] == h);
            }
        }
    }
}

proof fn lemma_query_selects(q: Query, k: Seq<char>, p: Map<Seq<char>, Doc>)
    ensures
        selected(single("must"@, Doc::Array(q.clauses())), k, p) <==> selects(
            q.clauses(),
            Seq::empty(),
            p,
        ),
{
    reveal_strlit("must");
    reveal_strlit("must_not");
    assert("must"@.len() == 4);
    assert("must_not"@.len() == 8);
    let f = single("must"@, Doc::Array(q.clauses()));
    let must = q.clauses();
    assert(elements(f.at("must"@)) == must);
    assert(elements(f.at("must_not"@)) == Seq::<Doc>::empty());
    lemma_clauses_name_no_ids(q);
    assert forall|i: int| 0 <= i < must.len() implies meets(#[trigger] must[i], k, p) == holds(
        must[i],
        p,
    ) by {
        assert(must[i].at("has_id"@) == Doc::Null);
    }
    if selected(f, k, p) {
        assert forall|i: int| 0 <= i < must.len() implies holds(#[trigger] must[i], p) by {
            assert(meets(must[i], k, p));
        }
    }
    if selects(must, Seq::empty(), p) {
        assert forall|i: int| 0 <= i < must.len() implies meets(#[trigger] must[i], k, p) by {
            assert(holds(must[i], p));
        }
    }
}

/// A search finds only what its query admits: at most as many memories as were asked for, each
/// of them carried by a point of the answer and found with that point's score, and every point
/// of the answer that carries one is found. The memory that was written to such a point, and
/// the one that is read from it after whatever was merged into it, is one that the query
/// admits.
pub proof fn a_search_finds_what_the_query_admits(
    c: Map<Seq<char>, Kept>,
    q: Query,
    vector: Doc,
    ks: Seq<Seq<char>>,
    scores: Seq<Doc>,
)
    requires
        may_search(c, search_body(q, vector), ks),
        scores.len() == ks.len(),
        forall|i: int| 0 <= i < scores.len() ==> (#[trigger] scores[i]).is_number(),
    ensures
        ({
            let document = search_document(c, search_body(q, vector), ks, scores);
            let read = hits_of(elements(document.at("result"@)));
            let room = if q.top_k == 0 {
                1
            } else {
                q.top_k as int
            };
            &&& read.len() <= ks.len() <= room
            &&& forall|i: int|
                0 <= i < read.len() ==> exists|j: int|
                    0 <= j < ks.len() && memory_at(c, #[trigger] ks[j]) == Some((#[trigger] read[i]).1)
                        && scores[j] == read[i].0
            &&& forall|j: int|
                0 <= j < ks.len() && memory_at(c, #[trigger] ks[j]) is Some ==> read.contains(
                    (scores[j], memory_at(c, ks[j])->0),
                )
            &&& forall|j: int|
                0 <= j < ks.len() && memory_at(c, #[trigger] ks[j]) is Some && typed_for(
                    q,
                    c[ks[j]].payload,
                ) ==> admits(q, memory_at(c, ks[j])->0)
            &&& forall|j: int, m: Memory|
                0 <= j < ks.len() && c[#[trigger] ks[j]].payload == #[trigger] m.payload()
                    && shows_what_is_looked_at(q, m) ==> admits(q, m)
        }),
{
    let body = search_body(q, vector);
    let f = single("must"@, Doc::Array(q.clauses()));
    lemma_search_body(q, vector);
    assert(elements(search_document(c, body, ks, scores).at("result"@)) == found_points(
        c,
        body,
        ks,
        scores,
    ));
    lemma_found_hits(c, body, ks, scores);
    assert forall|j: int| 0 <= j < ks.len() implies selects(
        q.clauses(),
        Seq::empty(),
        c[#[trigger] ks[j]].payload,
    ) by {
        assert(selection(c, f).contains(ks[j]));
        lemma_query_selects(q, ks[j], c[ks[j]].payload);
    }
    assert forall|j: int|
        0 <= j < ks.len() && memory_at(c, #[trigger] ks[j]) is Some && typed_for(
            q,
            c[ks[j]].payload,
        ) implies admits(q, memory_at(c, ks[j])->0) by {
        query_selects_the_memory_that_is_read(q, c[ks[j]].payload, memory_at(c, ks[j])->0);
    }
    assert forall|j: int, m: Memory|
        0 <= j < ks.len() && c[#[trigger] ks[j]].payload == #[trigger] m.payload()
            && shows_what_is_looked_at(q, m) implies admits(q, m) by {
        query_selects_what_it_admits(q, m);
    }
}

proof fn lemma_hits_in_order(
    c: Map<Seq<char>, Kept>,
    body: Doc,
    ks: Seq<Seq<char>>,
    scores: Seq<Doc>,
    at_least: spec_fn(Doc, Doc) -> bool,
)
    requires
        body.at("with_payload"@) == Doc::Bool(true),
        scores.len() == ks.len(),
        forall|i: int| 0 <= i < scores.len() ==> (#[trigger] scores[i]).is_number(),
        forall|i: int, j: int|
            0 <= i < j < scores.len() ==> at_least(#[trigger] scores[i], #[trigger] scores[j]),
    ensures
        ({
            let hits = hits_of(found_points(c, body, ks, scores));
            forall|i: int, j: int|
                0 <= i < j < hits.len() ==> at_least((#[trigger] hits[i]).0, (#[trigger] hits[j]).0)
        }),
    decreases ks.len(),
{
    let ps = found_points(c, body, ks, scores);
    let hits = hits_of(ps);
    if ks.len() > 0 {
        let n = ks.len() - 1;
        let front = ks.drop_last();
        let before_scores = scores.drop_last();
        assert forall|i: int| 0 <= i < before_scores.len() implies (#[trigger] before_scores[i]).is_number() by {
            assert(before_scores[i] == scores[i]);
        }
        assert forall|i: int, j: int| 0 <= i < j < before_scores.len() implies at_least(
            #[trigger] before_scores[i],
            #[trigger] before_scores[j],
        ) by {
            assert(at_least(scores[i], scores[j]));
        }
        lemma_hits_in_order(c, body, front, before_scores, at_least);
        lemma_found_hits(c, body, front, before_scores);
        let before = hits_of(found_points(c, body, front, before_scores));
        assert(ps.drop_last() =~= found_points(c, body, front, before_scores));
        reveal_strlit("score");
        reveal_strlit("payload");
        assert("score"@.len() == 5);
        assert("payload"@.len() == 7);
        assert(ps.last().at("score"@) == scores[n]);
        assert forall|i: int, j: int| 0 <= i < j < hits.len() implies at_least(
            (#[trigger] hits[i]).0,
            (#[trigger] hits[j]).0,
        ) by {
            assert(hits[i] == before[i]);
            if j < before.len() {
                assert(hits[j] == before[j]);
            } else {
                let a = choose|a: int|
                    0 <= a < front.len() && memory_at(c, #[trigger] front[a]) == Some(before[i].1)
                        && before_scores[a] == before[i].0;
                assert(scores[a] == before_scores[a]);
                assert(at_least(scores[a], scores[n]));
            }
        }
    }
}

/// Nothing that scores below the query's least score is found, whatever the query's other
/// fields, where the service answers only with points whose score reaches the threshold that it
/// was sent. The scores may be ordered in any way.
pub proof fn a_search_finds_nothing_below_the_least_score(
    c: Map<Seq<char>, Kept>,
    q: Query,
    vector: Doc,
    ks: Seq<Seq<char>>,
    scores: Seq<Doc>,
    at_least: spec_fn(Doc, Doc) -> bool,
)
    requires
        scores.len() == ks.len(),
        forall|i: int| 0 <= i < scores.len() ==> (#[trigger] scores[i]).is_number(),
        forall|i: int|
            0 <= i < scores.len() ==> reaches(search_body(q, vector), #[trigger] scores[i], at_least),
    ensures
        ({
            let document = search_document(c, search_body(q, vector), ks, scores);
            let read = hits_of(elements(document.at("result"@)));
            forall|i: int|
                0 <= i < read.len() ==> scores_enough(q, (#[trigger] read[i]).0, at_least)
        }),
{
    let body = search_body(q, vector);
    lemma_search_body(q, vector);
    a_search_asks_for_its_query(q, vector);
    lemma_found_hits(c, body, ks, scores);
    let read = hits_of(found_points(c, body, ks, scores));
    assert forall|i: int| 0 <= i < read.len() implies scores_enough(
        q,
        (#[trigger] read[i]).0,
        at_least,
    ) by {
        let j = choose|j: int|
            0 <= j < ks.len() && memory_at(c, #[trigger] ks[j]) == Some(read[i].1) && scores[j]
                == read[i].0;
        assert(reaches(body, scores[j], at_least));
    }
}

/// A search finds the most similar first: where the service scores each point by the vector
/// that it was sent and answers with the best first, each memory is found with the similarity
/// of its point to the query's own vector, and none before a better one.
pub proof fn a_search_finds_the_most_similar_first(
    c: Map<Seq<char>, Kept>,
    q: Query,
    vector: Doc,
    ks: Seq<Seq<char>>,
    scores: Seq<Doc>,
    similarity: spec_fn(Doc, Doc) -> Doc,
    at_least: spec_fn(Doc, Doc) -> bool,
)
    requires
        scores.len() == ks.len(),
        forall|i: int| 0 <= i < scores.len() ==> (#[trigger] scores[i]).is_number(),
        forall|i: int|
            0 <= i < scores.len() ==> #[trigger] scores[i] == similarity(
                search_body(q, vector).at("vector"@),
                c[ks[i]].vector,
            ),
        forall|i: int, j: int|
            0 <= i < j < scores.len() ==> at_least(#[trigger] scores[i], #[trigger] scores[j]),
    ensures
        ({
            let document = search_document(c, search_body(q, vector), ks, scores);
            let read = hits_of(elements(document.at("result"@)));
            &&& forall|i: int|
                0 <= i < read.len() ==> exists|j: int|
                    0 <= j < ks.len() && memory_at(c, #[trigger] ks[j]) == Some((#[trigger] read[i]).1)
                        && read[i].0 == similarity(vector, c[ks[j]].vector)
            &&& forall|i: int, j: int|
                0 <= i < j < read.len() ==> at_least((#[trigger] read[i]).0, (#[trigger] read[j]).0)
        }),
{
    let body = search_body(q, vector);
    lemma_search_body(q, vector);
    a_search_asks_for_its_query(q, vector);
    lemma_found_hits(c, body, ks, scores);
    lemma_hits_in_order(c, body, ks, scores, at_least);
    let read = hits_of(found_points(c, body, ks, scores));
    assert forall|i: int| 0 <= i < read.len() implies exists|j: int|
        0 <= j < ks.len() && memory_at(c, #[trigger] ks[j]) == Some((#[trigger] read[i]).1) && read[i].0
            == similarity(vector, c[ks[j]].vector) by {
        let j = choose|j: int|
            0 <= j < ks.len() && memory_at(c, #[trigger] ks[j]) == Some(read[i].1) && scores[j]
                == read[i].0;
        assert(scores[j] == similarity(vector, c[ks[j]].vector));
    }
}

/// A memory that the query admits and that scores enough is missed only for want of room, where
/// the service leaves out, of the points that its filter selects and whose similarity to the
/// vector that it was sent reaches its threshold, only those beyond its limit.
pub proof fn a_search_misses_only_for_want_of_room(
    c: Map<Seq<char>, Kept>,
    q: Query,
    vector: Doc,
    ks: Seq<Seq<char>>,
    scores: Seq<Doc>,
    similarity: spec_fn(Doc, Doc) -> Doc,
    at_least: spec_fn(Doc, Doc) -> bool,
    k: Seq<char>,
)
    requires
        scores.len() == ks.len(),
        forall|i: int| 0 <= i < scores.len() ==> (#[trigger] scores[i]).is_number(),
        ({
            let body = search_body(q, vector);
            forall|x: Seq<char>| #[trigger]
                selection(c, body.at("filter"@)).contains(x) && !ks.contains(x) && reaches(
                    body,
                    similarity(body.at("vector"@), c[x].vector),
                    at_least,
                ) ==> ks.len() == body.at("limit"@)->Int_0
        }),
        c.contains_key(k),
        memory_at(c, k) is Some,
        typed_for(q, c[k].payload),
        admits(q, memory_at(c, k)->0),
        scores_enough(q, similarity(vector, c[k].vector), at_least),
    ensures
        ({
            let document = search_document(c, search_body(q, vector), ks, scores);
            let read = hits_of(elements(document.at("result"@)));
            ||| exists|i: int| 0 <= i < read.len() && (#[trigger] read[i]).1 == memory_at(c, k)->0
            ||| ks.len() == if q.top_k == 0 {
                1
            } else {
                q.top_k as int
            }
        }),
{
    let body = search_body(q, vector);
    lemma_search_body(q, vector);
    a_search_asks_for_its_query(q, vector);
    lemma_found_hits(c, body, ks, scores);
    lemma_query_selects(q, k, c[k].payload);
    query_selects_the_memory_that_is_read(q, c[k].payload, memory_at(c, k)->0);
    assert(selection(c, body.at("filter"@)).contains(k));
    let read = hits_of(found_points(c, body, ks, scores));
    assert(elements(search_document(c, body, ks, scores).at("result"@)) == found_points(
        c,
        body,
        ks,
        scores,
    ));
    if ks.contains(k) {
        let j = choose|j: int| 0 <= j < ks.len() && ks[j] == k;
        let h = (scores[j], memory_at(c, ks[j])->0);
        assert(read.contains(h));
        let i = choose|i: int| 0 <= i < read.len() && read[i] == h;
        assert(read[i].1 == memory_at(c, k)->0);
    } else {
        assert(body.at("vector"@) == vector);
        assert(reaches(body, similarity(vector, c[k].vector), at_least));
        assert(ks.len() == body.at("limit"@)->Int_0);
    }
}

/// A point that a query does not admit is in no answer to its search.
pub proof fn a_search_leaves_out_what_the_query_does_not_admit(
    c: Map<Seq<char>, Kept>,
    q: Query,
    vector: Doc,
    ks: Seq<Seq<char>>,
    k: Seq<char>,
)
    requires
        may_search(c, search_body(q, vector), ks),
        memory_at(c, k) is Some,
        typed_for(q, c[k].payload),
        !admits(q, memory_at(c, k)->0),
    ensures
        !ks.contains(k),
{
    lemma_search_body(q, vector);
    lemma_query_selects(q, k, c[k].payload);
    query_selects_the_memory_that_is_read(q, c[k].payload, memory_at(c, k)->0);
}

proof fn lemma_search_body(q: Query, vector: Doc)
    ensures
        search_body(q, vector).at("filter"@) == single("must"@, Doc::Array(q.clauses())),
        search_body(q, vector).at("limit"@) == at_least_one(q.top_k),
        search_body(q, vector).at("with_payload"@) == Doc::Bool(true),
{
    reveal_strlit("vector");
    reveal_strlit("limit");
    reveal_strlit("with_payload");
    reveal_strlit("score_threshold");
    reveal_strlit("filter");
    assert("vector"@.len() == 6);
    assert("limit"@.len() == 5);
    assert("with_payload"@.len() == 12);
    assert("score_threshold"@.len() == 15);
    assert("filter"@.len() == 6);
    assert("vector"@[0] != "filter"@[0]);
}

proof fn lemma_scroll_body(must: Seq<Doc>, limit: usize)
    ensures
        ({
            let body = scroll_body(must, limit);
            &&& body.at("filter"@) == single("must"@, Doc::Array(must))
            &&& body.at("limit"@) == at_least_one(limit)
            &&& body.at("with_payload"@) == Doc::Bool(true)
            &&& body.at("order_by"@).at("key"@) == Doc::Str("ts_unix_ms"@)
            &&& body.at("order_by"@).at("direction"@) == Doc::Str("desc"@)
        }),
{
    reveal_strlit("limit");
    reveal_strlit("with_payload");
    reveal_strlit("with_vector");
    reveal_strlit("filter");
    reveal_strlit("order_by");
    reveal_strlit("key");
    reveal_strlit("direction");
    assert("limit"@.len() == 5);
    assert("with_payload"@.len() == 12);
    assert("with_vector"@.len() == 11);
    assert("filter"@.len() == 6);
    assert("order_by"@.len() == 8);
    assert("key"@.len() == 3);
    assert("direction"@.len() == 9);
}

/// A payload merge into the point `id` keeps its vector and its other fields, and touches no
/// other point. Where no fixed field gets another value, the memory stays the one it was but
/// for its metadata.
pub proof fn a_merge_keeps_the_point(
    c: Map<Seq<char>, Kept>,
    id: PointId,
    patch: Map<Seq<char>, Doc>,
    k: Seq<char>,
)
    requires
        c.contains_key(k),
    ensures
        ({
            let d = after_merge(c, merge_body(id, Doc::Object(patch)));
            &&& d.dom() == c.dom()
            &&& d[k].vector == c[k].vector
            &&& d[k].payload == if k == hyphenated(id.bytes@) {
                c[k].payload.union_prefer_right(patch)
            } else {
                c[k].payload
            }
            &&& keeps_fixed_fields(c[k].payload, patch) ==> {
                let before = memory_of(Doc::Object(c[k].payload));
                let after = memory_of(Doc::Object(d[k].payload));
                before is Some ==> after == Some(
                    Memory { meta: meta_of(Doc::Object(d[k].payload)), ..before->0 },
                )
            }
        }),
{
    reveal_strlit("points");
    reveal_strlit("payload");
    assert("points"@.len() == 6);
    assert("payload"@.len() == 7);
    let body = merge_body(id, Doc::Object(patch));
    let d = after_merge(c, body);
    let named = seq![Doc::Str(hyphenated(id.bytes@))];
    assert(elements(body.at("points"@)) == named);
    assert(named.contains(Doc::Str(k)) <==> k == hyphenated(id.bytes@)) by {
        assert(named[0] == Doc::Str(hyphenated(id.bytes@)));
    }
    assert(d.dom() =~= c.dom());
    let p = c[k].payload;
    if memory_of(Doc::Object(p)) is Some && keeps_fixed_fields(p, patch) {
        let m = memory_of(Doc::Object(p))->0;
        if k == hyphenated(id.bytes@) {
            merged_numbers_read_back_as_text(p, patch, m);
        }
    }
}

} // verus!
