//! What the store's answers hold.
use vstd::prelude::*;

use crate::item::is_fixed;
use crate::item::item_of;
use crate::item::memory_of;
use crate::item::reading_gives_back_what_was_written;
use crate::item::Item;
use crate::item::Memory;
use crate::json::docs;
use crate::json::lemma_docs;
use crate::json::Doc;
use crate::json::Json;
use crate::json::Number;

verus! {

/// A memory that a search found.
#[derive(Debug, Clone, PartialEq)]
pub struct Hit {
    pub score: Number,
    pub item: Item,
}

/// What a search found: each hit that has a score and carries a memory, in the order of the
/// answer.
pub open spec fn hits_of(s: Seq<Doc>) -> Seq<(Doc, Memory)>
    decreases s.len(),
{
    if s.len() == 0 {
        Seq::empty()
    } else {
        let earlier = hits_of(s.drop_last());
        let score = s.last().at("score"@);
        let memory = memory_of(s.last().at("payload"@));
        if score.is_number() && memory is Some {
            earlier.push((score, memory->0))
        } else {
            earlier
        }
    }
}

/// The memories of a row of points: of each point that carries one, in the order of the row.
pub open spec fn memories_of(s: Seq<Doc>) -> Seq<Memory>
    decreases s.len(),
{
    if s.len() == 0 {
        Seq::empty()
    } else {
        let earlier = memories_of(s.drop_last());
        match memory_of(s.last().at("payload"@)) {
            Some(m) => earlier.push(m),
            None => earlier,
        }
    }
}

/// The elements of `d`, none where it is no array.
pub open spec fn elements(d: Doc) -> Seq<Doc> {
    match d {
        Doc::Array(s) => s,
        _ => Seq::empty(),
    }
}

/// Hits, as contracts speak of them.
pub open spec fn hit_views(s: Seq<Hit>) -> Seq<(Doc, Memory)> {
    s.map_values(|h: Hit| (h.score@, h.item@))
}

/// Memories, as contracts speak of them.
pub open spec fn memories(s: Seq<Item>) -> Seq<Memory> {
    s.map_values(|i: Item| i@)
}

fn payload_item(p: &Json) -> (r: Option<Item>)
    ensures
        match r {
            Some(item) => memory_of(p@.at("payload"@)) == Some(item@),
            None => memory_of(p@.at("payload"@)) is None,
        },
{
    match p.get("payload") {
        Some(j) => item_of(j),
        None => None,
    }
}

fn score_of(h: &Json) -> (r: Option<Number>)
    ensures
        match r {
            Some(n) => h@.at("score"@) == n@,
            None => !h@.at("score"@).is_number(),
        },
{
    match h.get("score") {
        Some(j) => j.as_number(),
        None => None,
    }
}

/// The hits in a search's answer.
pub fn read_hits(d: &Json) -> (r: Vec<Hit>)
    ensures
        hit_views(r@) == hits_of(elements(d@.at("result"@))),
{
    let mut out: Vec<Hit> = Vec::new();
    let result = match d.get("result") {
        Some(j) => j,
        None => {
            assert(hit_views(out@) =~= Seq::<(Doc, Memory)>::empty());
            return out;
        },
    };
    let a = match result.as_array() {
        Some(a) => a,
        None => {
            assert(hit_views(out@) =~= Seq::<(Doc, Memory)>::empty());
            return out;
        },
    };
    let ghost all = docs(a@);
    proof {
        lemma_docs(a@);
        assert(hit_views(out@) =~= hits_of(all.take(0)));
    }
    let mut i: usize = 0;
    while i < a.len()
        invariant
            i <= a@.len(),
            all == docs(a@),
            all.len() == a@.len(),
            forall|j: int| 0 <= j < a@.len() ==> #[trigger] all[j] == a@[j]@,
            hit_views(out@) == hits_of(all.take(i as int)),
        decreases a@.len() - i,
    {
        let ghost before = out@;
        assert(all.take(i + 1).drop_last() == all.take(i as int));
        assert(all.take(i + 1).last() == a@[i as int]@);
        let score = score_of(&a[i]);
        let item = payload_item(&a[i]);
        match (score, item) {
            (Some(score), Some(item)) => {
                let hit = Hit { score, item };
                out.push(hit);
                assert(hit_views(out@) =~= hit_views(before).push((hit.score@, hit.item@)));
            },
            _ => {},
        }
        i = i + 1;
    }
    assert(all.take(i as int) == all);
    out
}

/// The memories in a scroll's answer.
pub fn read_items(d: &Json) -> (r: Vec<Item>)
    ensures
        memories(r@) == memories_of(elements(d@.at("result"@).at("points"@))),
{
    let mut out: Vec<Item> = Vec::new();
    assert(memories(out@) =~= Seq::<Memory>::empty());
    let result = match d.get("result") {
        Some(j) => j,
        None => return out,
    };
    let points = match result.get("points") {
        Some(j) => j,
        None => return out,
    };
    let a = match points.as_array() {
        Some(a) => a,
        None => return out,
    };
    let ghost all = docs(a@);
    proof {
        lemma_docs(a@);
        assert(memories(out@) =~= memories_of(all.take(0)));
    }
    let mut i: usize = 0;
    while i < a.len()
        invariant
            i <= a@.len(),
            all == docs(a@),
            all.len() == a@.len(),
            forall|j: int| 0 <= j < a@.len() ==> #[trigger] all[j] == a@[j]@,
            memories(out@) == memories_of(all.take(i as int)),
        decreases a@.len() - i,
    {
        let ghost before = out@;
        assert(all.take(i + 1).drop_last() == all.take(i as int));
        assert(all.take(i + 1).last() == a@[i as int]@);
        match payload_item(&a[i]) {
            Some(item) => {
                out.push(item);
                assert(memories(out@) =~= memories(before).push(item@));
            },
            None => {},
        }
        i = i + 1;
    }
    assert(all.take(i as int) == all);
    out
}

/// The number at `key` in the result of an answer, 0 where there is none.
pub open spec fn result_number(d: Doc, key: Seq<char>) -> u64 {
    match d.at("result"@).at(key).as_u64() {
        Some(n) => n,
        None => 0,
    }
}

pub(crate) fn read_number(d: &Json, key: &str) -> (r: u64)
    ensures
        r == result_number(d@, key@),
{
    match d.get("result") {
        Some(j) => match j.get(key) {
            Some(n) => match n.as_u64() {
                Some(n) => n,
                None => 0,
            },
            None => 0,
        },
        None => 0,
    }
}

/// Whether no metadata entry of `m` has the name of a fixed field.
pub open spec fn unshadowed(m: Memory) -> bool {
    forall|k: Seq<char>| #[trigger] m.meta.contains_key(k) ==> !is_fixed(k)
}

/// A scroll gives back the memories that were written, in the order of its answer.
pub proof fn a_scroll_gives_back_what_was_written(points: Seq<Doc>, written: Seq<Memory>)
    requires
        points.len() == written.len(),
        forall|i: int| 0 <= i < written.len() ==> unshadowed(#[trigger] written[i]),
        forall|i: int|
            0 <= i < points.len() ==> (#[trigger] points[i]).at("payload"@) == Doc::Object(
                written[i].payload(),
            ),
    ensures
        memories_of(points) == written,
    decreases points.len(),
{
    if points.len() > 0 {
        let n = points.len() - 1;
        assert(points[n].at("payload"@) == Doc::Object(written[n].payload()));
        assert(unshadowed(written[n]));
        reading_gives_back_what_was_written(written[n]);
        assert forall|i: int| 0 <= i < n implies unshadowed(#[trigger] written.drop_last()[i]) by {
            assert(unshadowed(written[i]));
        }
        assert forall|i: int| 0 <= i < n implies (#[trigger] points.drop_last()[i]).at("payload"@)
            == Doc::Object(written.drop_last()[i].payload()) by {
            assert(points[i].at("payload"@) == Doc::Object(written[i].payload()));
        }
        a_scroll_gives_back_what_was_written(points.drop_last(), written.drop_last());
    }
    assert(memories_of(points) =~= written);
}

/// A search gives back the memories that were written, each with the score that it was found
/// with, in the order of its answer.
pub proof fn a_search_gives_back_what_was_written(hits: Seq<Doc>, written: Seq<Memory>)
    requires
        hits.len() == written.len(),
        forall|i: int| 0 <= i < written.len() ==> unshadowed(#[trigger] written[i]),
        forall|i: int|
            0 <= i < hits.len() ==> {
                &&& (#[trigger] hits[i]).at("payload"@) == Doc::Object(written[i].payload())
                &&& hits[i].at("score"@).is_number()
            },
    ensures
        hits_of(hits) == Seq::new(hits.len(), |i: int| (hits[i].at("score"@), written[i])),
    decreases hits.len(),
{
    let want = Seq::new(hits.len(), |i: int| (hits[i].at("score"@), written[i]));
    if hits.len() > 0 {
        let n = hits.len() - 1;
        assert(hits[n].at("payload"@) == Doc::Object(written[n].payload()));
        assert(unshadowed(written[n]));
        reading_gives_back_what_was_written(written[n]);
        assert forall|i: int| 0 <= i < n implies unshadowed(#[trigger] written.drop_last()[i]) by {
            assert(unshadowed(written[i]));
        }
        assert forall|i: int| 0 <= i < n implies {
            &&& (#[trigger] hits.drop_last()[i]).at("payload"@) == Doc::Object(
                written.drop_last()[i].payload(),
            )
            &&& hits.drop_last()[i].at("score"@).is_number()
        } by {
            assert(hits[i].at("payload"@) == Doc::Object(written[i].payload()));
        }
        a_search_gives_back_what_was_written(hits.drop_last(), written.drop_last());
        assert(want =~= hits_of(hits.drop_last()).push((hits[n].at("score"@), written[n])));
    } else {
        assert(want =~= hits_of(hits));
    }
}

/// The memories of two rows of points, one behind the other, are those of the one behind those of
/// the other; of one point there is the memory that its payload carries, or none.
pub proof fn memories_are_read_point_by_point(s: Seq<Doc>, t: Seq<Doc>, p: Doc)
    ensures
        memories_of(s + t) == memories_of(s) + memories_of(t),
        memories_of(seq![p]) == match memory_of(p.at("payload"@)) {
            Some(m) => seq![m],
            None => Seq::empty(),
        },
    decreases t.len(),
{
    reveal_with_fuel(memories_of, 2);
    assert(seq![p].drop_last() =~= Seq::<Doc>::empty());
    assert(seq![p].last() == p);
    assert(memories_of(seq![p]) =~= match memory_of(p.at("payload"@)) {
        Some(m) => seq![m],
        None => Seq::empty(),
    });
    if t.len() == 0 {
        assert(s + t =~= s);
        assert(memories_of(s + t) =~= memories_of(s) + memories_of(t));
    } else {
        memories_are_read_point_by_point(s, t.drop_last(), p);
        assert((s + t).drop_last() =~= s + t.drop_last());
        assert((s + t).last() == t.last());
        assert(memories_of(s + t) =~= memories_of(s) + memories_of(t));
    }
}

/// The hits of two rows, one behind the other, are those of the one behind those of the other;
/// of one point there is its score with the memory that its payload carries, or nothing where
/// either is missing.
pub proof fn hits_are_read_point_by_point(s: Seq<Doc>, t: Seq<Doc>, p: Doc)
    ensures
        hits_of(s + t) == hits_of(s) + hits_of(t),
        hits_of(seq![p]) == match memory_of(p.at("payload"@)) {
            Some(m) => if p.at("score"@) is Int || p.at("score"@) is Float {
                seq![(p.at("score"@), m)]
            } else {
                Seq::empty()
            },
            None => Seq::empty(),
        },
    decreases t.len(),
{
    reveal_with_fuel(hits_of, 2);
    assert(seq![p].drop_last() =~= Seq::<Doc>::empty());
    assert(seq![p].last() == p);
    assert(hits_of(seq![p]) =~= match memory_of(p.at("payload"@)) {
        Some(m) => if p.at("score"@) is Int || p.at("score"@) is Float {
            seq![(p.at("score"@), m)]
        } else {
            Seq::empty()
        },
        None => Seq::empty(),
    });
    if t.len() == 0 {
        assert(s + t =~= s);
        assert(hits_of(s + t) =~= hits_of(s) + hits_of(t));
    } else {
        hits_are_read_point_by_point(s, t.drop_last(), p);
        assert((s + t).drop_last() =~= s + t.drop_last());
        assert((s + t).last() == t.last());
        assert(hits_of(s + t) =~= hits_of(s) + hits_of(t));
    }
}

/// What was read is handed on memory by memory, each hit with its own score.
pub proof fn what_is_read_is_handed_on_in_order(items: Seq<Item>, hits: Seq<Hit>)
    ensures
        memories(items).len() == items.len(),
        forall|i: int| 0 <= i < items.len() ==> #[trigger] memories(items)[i] == items[i]@,
        hit_views(hits).len() == hits.len(),
        forall|i: int|
            0 <= i < hits.len() ==> #[trigger] hit_views(hits)[i] == (hits[i].score@, hits[i].item@),
{
}

/// A number in the result of an answer is read where it is an integer that fits, and is 0
/// otherwise; an answer that is no such document holds none.
pub proof fn a_result_number_is_read_as_it_is(d: Doc, key: Seq<char>)
    ensures
        ({
            let v = d.at("result"@).at(key);
            &&& v is Int && 0 <= v->Int_0 <= u64::MAX ==> result_number(d, key) == v->Int_0
            &&& !(v is Int && 0 <= v->Int_0 <= u64::MAX) ==> result_number(d, key) == 0
        }),
{
}

/// The elements of an array are all of it in order, and nothing else has any.
pub proof fn only_an_array_has_elements(d: Doc)
    ensures
        d is Array ==> d == Doc::Array(elements(d)),
        !(d is Array) ==> elements(d).len() == 0,
{
}

} // verus!
