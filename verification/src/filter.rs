//! What a search asks for, and what a prune may delete, as filter clauses.
use vstd::prelude::*;

use crate::item::is_fixed;
use crate::item::memory_of;
use crate::item::Memory;
use crate::json::docs;
use crate::json::lemma_docs_push;
use crate::json::Doc;
use crate::json::Json;
use crate::json::Number;
use crate::json::StrMap;

verus! {

broadcast use vstd::string::group_string_axioms;

/// A search.
#[derive(Debug, Clone)]
pub struct Query {
    pub namespace: Option<String>,
    pub text: String,
    pub top_k: usize,
    /// The least score of a hit; none for a threshold that JSON has no number for.
    pub min_score: Option<Number>,
    pub include_private: bool,
    pub kinds: Vec<String>,
    /// `ts_unix_ms` window, `[since, until)`. A question that names a time ("what did I tell
    /// you last weekend") is answered by the window, and similarity only ranks inside it.
    pub since_unix_ms: Option<i64>,
    pub until_unix_ms: Option<i64>,
    /// Only memories made on this device (`meta.device_id`).
    pub device_id: Option<String>,
}

impl Default for Query {
    /// The search for nothing in particular: no text, no clause but the one that leaves the
    /// private out, and the score threshold `0.0`.
    fn default() -> (r: Query)
        ensures
            r.namespace is None,
            r.text@ == Seq::<char>::empty(),
            r.top_k == 0,
            r.min_score matches Some(n) && n@ == Doc::Float("0.0"@),
            !r.include_private,
            r.kinds@.len() == 0,
            r.since_unix_ms is None,
            r.until_unix_ms is None,
            r.device_id is None,
    {
        Query {
            namespace: None,
            text: String::new(),
            top_k: 0,
            min_score: Some(Number::Float("0.0".to_owned())),
            include_private: false,
            kinds: Vec::new(),
            since_unix_ms: None,
            until_unix_ms: None,
            device_id: None,
        }
    }
}

/// The object whose one field is `key`.
pub open spec fn single(key: Seq<char>, value: Doc) -> Doc {
    Doc::Object(Map::<Seq<char>, Doc>::empty().insert(key, value))
}

/// The clause that puts the condition `what`, of the sort `how`, on the field `field`.
pub open spec fn clause(field: Seq<char>, how: Seq<char>, what: Doc) -> Doc {
    Doc::Object(
        Map::<Seq<char>, Doc>::empty().insert("key"@, Doc::Str(field)).insert(how, what),
    )
}

/// The clause that `field` is `value`.
pub open spec fn is_value(field: Seq<char>, value: Doc) -> Doc {
    clause(field, "match"@, single("value"@, value))
}

/// The clause that `field` is one of `values`.
pub open spec fn is_any(field: Seq<char>, values: Seq<Doc>) -> Doc {
    clause(field, "match"@, single("any"@, Doc::Array(values)))
}

/// The bounds of a range: at least `gte`, less than `lt`.
pub open spec fn bounds(gte: Option<i64>, lt: Option<i64>) -> Doc {
    let none = Map::<Seq<char>, Doc>::empty();
    let low = match gte {
        Some(n) => none.insert("gte"@, Doc::Int(n as int)),
        None => none,
    };
    let high = match lt {
        Some(n) => low.insert("lt"@, Doc::Int(n as int)),
        None => low,
    };
    Doc::Object(high)
}

/// The clause that `field` is in a range.
pub open spec fn in_bounds(field: Seq<char>, gte: Option<i64>, lt: Option<i64>) -> Doc {
    clause(field, "range"@, bounds(gte, lt))
}

/// The texts of a row of strings.
pub open spec fn texts(s: Seq<String>) -> Seq<Doc> {
    s.map_values(|t: String| Doc::Str(t@))
}

pub(crate) fn single_field(key: &str, value: Json) -> (r: Json)
    ensures
        r@ == single(key@, value@),
{
    Json::Object(StrMap::empty().set(key, value))
}

fn clause_on(field: &str, how: &str, what: Json) -> (r: Json)
    ensures
        r@ == clause(field@, how@, what@),
{
    Json::Object(StrMap::empty().set("key", Json::text(field)).set(how, what))
}

fn value_clause(field: &str, value: Json) -> (r: Json)
    ensures
        r@ == is_value(field@, value@),
{
    clause_on(field, "match", single_field("value", value))
}

fn range_clause(field: &str, gte: Option<i64>, lt: Option<i64>) -> (r: Json)
    ensures
        r@ == in_bounds(field@, gte, lt),
{
    let mut range = StrMap::empty();
    if let Some(n) = gte {
        range = range.set("gte", Json::integer(n as i128));
    }
    if let Some(n) = lt {
        range = range.set("lt", Json::integer(n as i128));
    }
    clause_on(field, "range", Json::Object(range))
}

/// The array of the texts `s`.
pub(crate) fn text_array(s: &Vec<String>) -> (r: Json)
    ensures
        r@ == Doc::Array(texts(s@)),
{
    let mut a: Vec<Json> = Vec::new();
    let mut i: usize = 0;
    assert(texts(s@.take(0)) =~= Seq::<Doc>::empty());
    while i < s.len()
        invariant
            i <= s@.len(),
            docs(a@) == texts(s@.take(i as int)),
        decreases s@.len() - i,
    {
        let ghost before = a@;
        let j = Json::text(s[i].as_str());
        a.push(j);
        proof {
            lemma_docs_push(before, j);
            assert(texts(s@.take(i + 1)) =~= texts(s@.take(i as int)).push(Doc::Str(s@[i as int]@)));
        }
        i = i + 1;
    }
    assert(s@.take(i as int) == s@);
    Json::Array(a)
}

impl Query {
    /// The score threshold that is sent.
    pub open spec fn threshold(self) -> Doc {
        match self.min_score {
            Some(n) => n@,
            None => Doc::Null,
        }
    }

    pub(crate) fn score_threshold(&self) -> (r: Json)
        ensures
            r@ == self.threshold(),
    {
        match &self.min_score {
            Some(Number::Int(n)) => Json::integer(*n),
            Some(Number::Float(s)) => Json::Number(Number::Float(s.clone())),
            None => Json::Null,
        }
    }

    /// The clauses that this query adds beyond its vector.
    pub open spec fn clauses(self) -> Seq<Doc> {
        let none = Seq::<Doc>::empty();
        let namespace = match self.namespace {
            Some(s) => none.push(is_value("namespace"@, Doc::Str(s@))),
            None => none,
        };
        let private = if self.include_private {
            namespace
        } else {
            namespace.push(is_value("private"@, Doc::Bool(false)))
        };
        let kinds = if self.kinds@.len() == 0 {
            private
        } else {
            private.push(is_any("kind"@, texts(self.kinds@)))
        };
        let device = match self.device_id {
            Some(s) => kinds.push(is_value("device_id"@, Doc::Str(s@))),
            None => kinds,
        };
        if self.since_unix_ms is None && self.until_unix_ms is None {
            device
        } else {
            device.push(in_bounds("ts_unix_ms"@, self.since_unix_ms, self.until_unix_ms))
        }
    }

    /// Whether a clause of this query looks at the fixed field `field`.
    pub open spec fn looks_at(self, field: Seq<char>) -> bool {
        ||| field == "namespace"@ && self.namespace is Some
        ||| field == "private"@ && !self.include_private
        ||| field == "kind"@ && self.kinds@.len() > 0
        ||| field == "ts_unix_ms"@ && (self.since_unix_ms is Some || self.until_unix_ms is Some)
    }

    /// The clauses that this query adds beyond its vector, in the shape of a `must`.
    pub fn must(&self) -> (r: Vec<Json>)
        ensures
            docs(r@) == self.clauses(),
    {
        let mut must: Vec<Json> = Vec::new();
        if let Some(ns) = &self.namespace {
            push(&mut must, value_clause("namespace", Json::text(ns.as_str())));
        }
        if !self.include_private {
            push(&mut must, value_clause("private", Json::Bool(false)));
        }
        if !self.kinds.is_empty() {
            push(&mut must, clause_on("kind", "match", single_field("any", text_array(&self.kinds))));
        }
        if let Some(d) = &self.device_id {
            push(&mut must, value_clause("device_id", Json::text(d.as_str())));
        }
        if self.since_unix_ms.is_some() || self.until_unix_ms.is_some() {
            push(&mut must, range_clause("ts_unix_ms", self.since_unix_ms, self.until_unix_ms));
        }
        must
    }
}

fn push(v: &mut Vec<Json>, j: Json)
    ensures
        docs(final(v)@) == docs(old(v)@).push(j@),
{
    proof {
        lemma_docs_push(v@, j);
    }
    v.push(j);
}

/// The two filters that decide what a retention prune may delete: made before the window,
/// and not recalled inside it. One function, so that every caller agrees about what "old"
/// means.
pub fn retention_filter(ts_unix_ms: i64) -> (r: (Vec<Json>, Vec<Json>))
    ensures
        docs(r.0@) == seq![in_bounds("ts_unix_ms"@, None, Some(ts_unix_ms))],
        docs(r.1@) == seq![in_bounds("last_recalled_ms"@, Some(ts_unix_ms), None)],
{
    let mut must: Vec<Json> = Vec::new();
    push(&mut must, range_clause("ts_unix_ms", None, Some(ts_unix_ms)));
    let mut must_not: Vec<Json> = Vec::new();
    push(&mut must_not, range_clause("last_recalled_ms", Some(ts_unix_ms), None));
    (must, must_not)
}

/// Whether a field that holds `v` is in `range`. Only integers are: the library writes no
/// other number into a field that it puts a range on.
pub open spec fn within(v: Doc, range: Doc) -> bool {
    &&& v is Int
    &&& range.at("gte"@) is Int ==> range.at("gte"@)->Int_0 <= v->Int_0
    &&& range.at("lt"@) is Int ==> v->Int_0 < range.at("lt"@)->Int_0
}

/// How the store reads the clause `c` of a point with the payload `p`, where the field that
/// `c` names holds a single value: a range wants an integer inside it, `any` wants one of its
/// values, `value` wants that value, and a missing field meets none of them.
pub open spec fn holds(c: Doc, p: Map<Seq<char>, Doc>) -> bool {
    let v = Doc::Object(p).at(c.at("key"@)->Str_0);
    let how = c.at("match"@);
    &&& v != Doc::Null
    &&& if c.at("range"@) is Object {
        within(v, c.at("range"@))
    } else if how.at("any"@) is Array {
        how.at("any"@)->Array_0.contains(v)
    } else {
        v == how.at("value"@)
    }
}

/// Whether a point with the payload `p` meets every clause of `must` and none of `must_not`.
pub open spec fn selects(must: Seq<Doc>, must_not: Seq<Doc>, p: Map<Seq<char>, Doc>) -> bool {
    &&& forall|i: int| 0 <= i < must.len() ==> holds(#[trigger] must[i], p)
    &&& forall|i: int| 0 <= i < must_not.len() ==> !holds(#[trigger] must_not[i], p)
}

proof fn lemma_clause_words_differ()
    ensures
        "key"@ != "match"@,
        "key"@ != "range"@,
        "match"@ != "range"@,
        "value"@ != "any"@,
        "gte"@ != "lt"@,
{
    reveal_strlit("key");
    reveal_strlit("match");
    reveal_strlit("range");
    reveal_strlit("value");
    reveal_strlit("any");
    reveal_strlit("gte");
    reveal_strlit("lt");
    assert("key"@.len() == 3);
    assert("match"@.len() == 5);
    assert("range"@.len() == 5);
    assert("match"@[0] != "range"@[0]);
    assert("value"@.len() == 5);
    assert("any"@.len() == 3);
    assert("gte"@.len() == 3);
    assert("lt"@.len() == 2);
}

proof fn lemma_is_value(field: Seq<char>, value: Doc, p: Map<Seq<char>, Doc>)
    ensures
        holds(is_value(field, value), p) <==> {
            &&& value != Doc::Null
            &&& Doc::Object(p).at(field) == value
        },
{
    lemma_clause_words_differ();
}

proof fn lemma_is_any(field: Seq<char>, values: Seq<Doc>, p: Map<Seq<char>, Doc>)
    ensures
        holds(is_any(field, values), p) <==> {
            &&& Doc::Object(p).at(field) != Doc::Null
            &&& values.contains(Doc::Object(p).at(field))
        },
{
    lemma_clause_words_differ();
}

proof fn lemma_in_bounds(field: Seq<char>, gte: Option<i64>, lt: Option<i64>, p: Map<Seq<char>, Doc>)
    ensures
        holds(in_bounds(field, gte, lt), p) <==> {
            let v = Doc::Object(p).at(field);
            &&& v is Int
            &&& gte is Some ==> gte->0 <= v->Int_0
            &&& lt is Some ==> v->Int_0 < lt->0
        },
{
    lemma_clause_words_differ();
}

/// Whether a range can only be met by `v` as an integer: it is neither a fraction nor a row of
/// values.
pub open spec fn integer_if_number(v: Doc) -> bool {
    !(v is Float) && !(v is Array)
}

/// What a retention prune at `ts_unix_ms` selects: a point made before it, unless the point
/// was recalled at it or later. A recall keeps a memory however old it was made, and a stamp
/// that is no number keeps none.
pub proof fn prune_spares_what_was_recalled(ts_unix_ms: i64, p: Map<Seq<char>, Doc>)
    requires
        integer_if_number(Doc::Object(p).at("ts_unix_ms"@)),
        integer_if_number(Doc::Object(p).at("last_recalled_ms"@)),
    ensures
        selects(
            seq![in_bounds("ts_unix_ms"@, None, Some(ts_unix_ms))],
            seq![in_bounds("last_recalled_ms"@, Some(ts_unix_ms), None)],
            p,
        ) <==> {
            let made = Doc::Object(p).at("ts_unix_ms"@);
            let recalled = Doc::Object(p).at("last_recalled_ms"@);
            &&& made is Int && made->Int_0 < ts_unix_ms
            &&& !(recalled is Int && recalled->Int_0 >= ts_unix_ms)
        },
{
    let old = in_bounds("ts_unix_ms"@, None, Some(ts_unix_ms));
    let reached = in_bounds("last_recalled_ms"@, Some(ts_unix_ms), None);
    lemma_in_bounds("ts_unix_ms"@, None, Some(ts_unix_ms), p);
    lemma_in_bounds("last_recalled_ms"@, Some(ts_unix_ms), None, p);
    let must = seq![old];
    let must_not = seq![reached];
    assert(must[0] == old && must_not[0] == reached);
}

/// Whether the memory `m` is one that the query `q` may find, whatever its text.
pub open spec fn admits(q: Query, m: Memory) -> bool {
    &&& q.namespace is Some ==> m.namespace == q.namespace->0@
    &&& m.private ==> q.include_private
    &&& q.kinds@.len() > 0 ==> exists|i: int| 0 <= i < q.kinds@.len() && (#[trigger] q.kinds@[i])@ == m.kind
    &&& q.device_id is Some ==> m.meta.contains_key("device_id"@) && m.meta["device_id"@]
        == q.device_id->0@
    &&& q.since_unix_ms is Some ==> q.since_unix_ms->0 <= m.ts_unix_ms
    &&& q.until_unix_ms is Some ==> m.ts_unix_ms < q.until_unix_ms->0
}

/// Whether no metadata entry of `m` replaces, with another value, a fixed field that a clause
/// of `q` looks at.
pub open spec fn shows_what_is_looked_at(q: Query, m: Memory) -> bool {
    forall|k: Seq<char>| #[trigger]
        m.meta.contains_key(k) && q.looks_at(k) ==> m.fixed_fields()[k] == Doc::Str(m.meta[k])
}

proof fn lemma_device_is_not_fixed()
    ensures
        !is_fixed("device_id"@),
{
    reveal_strlit("device_id");
    reveal_strlit("namespace");
    reveal_strlit("kind");
    reveal_strlit("key");
    reveal_strlit("text");
    reveal_strlit("ts_unix_ms");
    reveal_strlit("private");
    assert("device_id"@.len() == 9);
    assert("device_id"@[0] != "namespace"@[0]);
    assert("kind"@.len() == 4 && "key"@.len() == 3 && "text"@.len() == 4);
    assert("ts_unix_ms"@.len() == 10 && "private"@.len() == 7);
}

proof fn lemma_payload_fields(q: Query, m: Memory)
    requires
        shows_what_is_looked_at(q, m),
    ensures
        shows(q, m.payload(), m),
{
    crate::item::lemma_fixed_names_differ();
    lemma_device_is_not_fixed();
    assert(m.fixed_fields()["namespace"@] == Doc::Str(m.namespace));
    assert(m.fixed_fields()["private"@] == Doc::Bool(m.private));
    assert(m.fixed_fields()["kind"@] == Doc::Str(m.kind));
    assert(m.fixed_fields()["ts_unix_ms"@] == Doc::Int(m.ts_unix_ms as int));
}

/// Whether the payload `p` shows, in each field that a clause of `q` looks at, what it is in
/// the memory `m`.
spec fn shows(q: Query, p: Map<Seq<char>, Doc>, m: Memory) -> bool {
    let d = Doc::Object(p);
    &&& q.looks_at("namespace"@) ==> d.at("namespace"@) == Doc::Str(m.namespace)
    &&& q.looks_at("private"@) ==> d.at("private"@) == Doc::Bool(m.private)
    &&& q.looks_at("kind"@) ==> d.at("kind"@) == Doc::Str(m.kind)
    &&& q.looks_at("ts_unix_ms"@) ==> d.at("ts_unix_ms"@) == Doc::Int(m.ts_unix_ms as int)
    &&& q.device_id is Some ==> (d.at("device_id"@) == Doc::Str(q.device_id->0@) <==> {
        &&& m.meta.contains_key("device_id"@)
        &&& m.meta["device_id"@] == q.device_id->0@
    })
}

/// The clauses of a query select exactly the memories that it admits: in its namespace, of
/// its kinds, made on its device and inside its window `[since, until)`, and a private one
/// only where private ones are asked for.
pub proof fn query_selects_what_it_admits(q: Query, m: Memory)
    requires
        shows_what_is_looked_at(q, m),
    ensures
        selects(q.clauses(), Seq::empty(), m.payload()) <==> admits(q, m),
{
    lemma_payload_fields(q, m);
    lemma_selects_what_is_shown(q, m.payload(), m);
}

/// Whether the payload `p` holds a value of the right sort in each field that a clause of `q`
/// looks at: a truth value, a text, a time, and for the device no number, which metadata would
/// carry as a text that it is not.
pub open spec fn typed_for(q: Query, p: Map<Seq<char>, Doc>) -> bool {
    &&& q.looks_at("private"@) ==> Doc::Object(p).at("private"@) is Bool
    &&& q.looks_at("kind"@) ==> Doc::Object(p).at("kind"@) is Str
    &&& q.looks_at("ts_unix_ms"@) ==> Doc::Object(p).at("ts_unix_ms"@).as_i64() is Some
    &&& q.device_id is Some ==> !Doc::Object(p).at("device_id"@).is_number()
}

/// The clauses of a query select a point, whatever else was merged into its payload, exactly
/// where the query admits the memory that is read from it.
pub proof fn query_selects_the_memory_that_is_read(q: Query, p: Map<Seq<char>, Doc>, m: Memory)
    requires
        memory_of(Doc::Object(p)) == Some(m),
        typed_for(q, p),
    ensures
        selects(q.clauses(), Seq::empty(), p) <==> admits(q, m),
{
    lemma_device_is_not_fixed();
    assert(q.looks_at("private"@) ==> Doc::Object(p).at("private"@) == Doc::Bool(m.private));
    lemma_selects_what_is_shown(q, p, m);
}

proof fn lemma_selects_what_is_shown(q: Query, p: Map<Seq<char>, Doc>, m: Memory)
    requires
        shows(q, p, m),
    ensures
        selects(q.clauses(), Seq::empty(), p) <==> admits(q, m),
{
    let none = Seq::<Doc>::empty();
    let s1 = match q.namespace {
        Some(s) => none.push(is_value("namespace"@, Doc::Str(s@))),
        None => none,
    };
    let s2 = if q.include_private {
        s1
    } else {
        s1.push(is_value("private"@, Doc::Bool(false)))
    };
    let s3 = if q.kinds@.len() == 0 {
        s2
    } else {
        s2.push(is_any("kind"@, texts(q.kinds@)))
    };
    let s4 = match q.device_id {
        Some(s) => s3.push(is_value("device_id"@, Doc::Str(s@))),
        None => s3,
    };
    if q.namespace is Some {
        lemma_selects_push(none, is_value("namespace"@, Doc::Str(q.namespace->0@)), p);
        lemma_is_value("namespace"@, Doc::Str(q.namespace->0@), p);
    }
    if !q.include_private {
        lemma_selects_push(s1, is_value("private"@, Doc::Bool(false)), p);
        lemma_is_value("private"@, Doc::Bool(false), p);
    }
    if q.kinds@.len() > 0 {
        lemma_selects_push(s2, is_any("kind"@, texts(q.kinds@)), p);
        lemma_is_any("kind"@, texts(q.kinds@), p);
        let t = texts(q.kinds@);
        if t.contains(Doc::Str(m.kind)) {
            let i = choose|i: int| 0 <= i < t.len() && t[i] == Doc::Str(m.kind);
            assert(q.kinds@[i]@ == m.kind);
        }
        if exists|i: int| 0 <= i < q.kinds@.len() && (#[trigger] q.kinds@[i])@ == m.kind {
            let i = choose|i: int| 0 <= i < q.kinds@.len() && (#[trigger] q.kinds@[i])@ == m.kind;
            assert(t[i] == Doc::Str(m.kind));
        }
    }
    if q.device_id is Some {
        lemma_selects_push(s3, is_value("device_id"@, Doc::Str(q.device_id->0@)), p);
        lemma_is_value("device_id"@, Doc::Str(q.device_id->0@), p);
    }
    if q.since_unix_ms is Some || q.until_unix_ms is Some {
        let c = in_bounds("ts_unix_ms"@, q.since_unix_ms, q.until_unix_ms);
        lemma_selects_push(s4, c, p);
        lemma_in_bounds("ts_unix_ms"@, q.since_unix_ms, q.until_unix_ms, p);
    }
}

proof fn lemma_selects_push(must: Seq<Doc>, c: Doc, p: Map<Seq<char>, Doc>)
    ensures
        selects(must.push(c), Seq::empty(), p) <==> selects(must, Seq::empty(), p) && holds(c, p),
{
    let t = must.push(c);
    if selects(t, Seq::empty(), p) {
        assert forall|i: int| 0 <= i < must.len() implies holds(#[trigger] must[i], p) by {
            assert(holds(t[i], p));
        }
        assert(holds(t[must.len() as int], p));
    }
}

/// The clauses of a query look at payloads and name no ids.
pub proof fn lemma_clauses_name_no_ids(q: Query)
    ensures
        forall|i: int|
            0 <= i < q.clauses().len() ==> (#[trigger] q.clauses()[i]).at("has_id"@) == Doc::Null,
{
    reveal_strlit("has_id");
    reveal_strlit("key");
    reveal_strlit("match");
    reveal_strlit("range");
    assert("has_id"@.len() == 6);
    assert("key"@.len() == 3);
    assert("match"@.len() == 5);
    assert("range"@.len() == 5);
}

} // verus!
