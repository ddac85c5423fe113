//! A memory, the payload that carries it, and the reading back of it.
use vstd::prelude::*;
use vstd::string::StringExecFns;
use vstd::utf8::encode_utf8;

use crate::json::fields;
use crate::json::Doc;
use crate::json::Json;
use crate::json::Number;
use crate::json::StrMap;
use crate::point_id::oid_namespace;
use crate::point_id::uuid_v5;
use crate::point_id::PointId;
use crate::text::decimal;
use crate::text::decimal_text;
use crate::text::same;

verus! {

broadcast use vstd::string::group_string_axioms;

/// A memory: whose it is, what sort of thing, what makes it the same memory when written
/// again, the text, when it was made, whether it is private, and free-form metadata.
#[derive(Debug, Clone, PartialEq)]
pub struct Item {
    pub namespace: String,
    pub kind: String,
    pub key: String,
    pub text: String,
    pub ts_unix_ms: i64,
    pub private: bool,
    pub meta: StrMap<String>,
}

/// A memory, as contracts speak of it.
#[verifier::ext_equal]
pub struct Memory {
    pub namespace: Seq<char>,
    pub kind: Seq<char>,
    pub key: Seq<char>,
    pub text: Seq<char>,
    pub ts_unix_ms: i64,
    pub private: bool,
    pub meta: Map<Seq<char>, Seq<char>>,
}

impl View for Item {
    type V = Memory;

    open spec fn view(&self) -> Memory {
        Memory {
            namespace: self.namespace@,
            kind: self.kind@,
            key: self.key@,
            text: self.text@,
            ts_unix_ms: self.ts_unix_ms,
            private: self.private,
            meta: self.meta@.map_values(|s: String| s@),
        }
    }
}

/// What a memory is called: its namespace, kind and key, with a unit separator between two.
pub open spec fn name_of(namespace: Seq<char>, kind: Seq<char>, key: Seq<char>) -> Seq<char> {
    namespace + seq!['\u{1f}'] + kind + seq!['\u{1f}'] + key
}

impl Memory {
    /// The bytes of the id under which this memory is stored.
    pub open spec fn id(self) -> Seq<u8> {
        uuid_v5(oid_namespace(), encode_utf8(name_of(self.namespace, self.kind, self.key)))
    }

    /// The six fixed fields of this memory's payload.
    pub open spec fn fixed_fields(self) -> Map<Seq<char>, Doc> {
        Map::<Seq<char>, Doc>::empty().insert("namespace"@, Doc::Str(self.namespace)).insert(
            "kind"@,
            Doc::Str(self.kind),
        ).insert("key"@, Doc::Str(self.key)).insert("text"@, Doc::Str(self.text)).insert(
            "ts_unix_ms"@,
            Doc::Int(self.ts_unix_ms as int),
        ).insert("private"@, Doc::Bool(self.private))
    }

    /// This memory's payload: the six fixed fields, and each metadata entry as a field of its
    /// own, which takes the place of a fixed field of that name.
    pub open spec fn payload(self) -> Map<Seq<char>, Doc> {
        self.fixed_fields().union_prefer_right(self.meta.map_values(|s: Seq<char>| Doc::Str(s)))
    }
}

impl Item {
    /// The point id: UUIDv5 in the namespace of object identifiers over
    /// `namespace\u{1f}kind\u{1f}key`.
    pub fn id(&self) -> (r: PointId)
        ensures
            r.bytes@ == self@.id(),
            r.bytes@[6] / 16 == 5,
            r.bytes@[8] / 64 == 2,
    {
        let mut name = self.namespace.clone();
        proof {
            reveal_strlit("\u{1f}");
            assert("\u{1f}"@ =~= seq!['\u{1f}']);
        }
        name.append("\u{1f}");
        name.append(self.kind.as_str());
        name.append("\u{1f}");
        name.append(self.key.as_str());
        PointId::of_name(name.as_str())
    }

    /// The payload under which this memory is stored.
    pub fn payload(&self) -> (r: Json)
        ensures
            r@ == Doc::Object(self@.payload()),
    {
        let mut o = StrMap::empty().set("namespace", Json::text(self.namespace.as_str())).set(
            "kind",
            Json::text(self.kind.as_str()),
        ).set("key", Json::text(self.key.as_str())).set("text", Json::text(self.text.as_str())).set(
            "ts_unix_ms",
            Json::integer(self.ts_unix_ms as i128),
        ).set("private", Json::Bool(self.private));
        let ghost base = self@.fixed_fields();
        let n: usize = self.meta.len();
        let mut i: usize = 0;
        while i < n
            invariant
                n == self.meta@.len(),
                i <= n,
                forall|a: int, b: int|
                    0 <= a < b < n ==> crate::text::text_before(
                        #[trigger] self.meta.key_at(a),
                        #[trigger] self.meta.key_at(b),
                    ),
                forall|k: Seq<char>| #[trigger]
                    fields(o).contains_key(k) <==> base.contains_key(k) || exists|j: int|
                        0 <= j < i && self.meta.key_at(j) == k,
                forall|j: int|
                    0 <= j < i ==> fields(o)[#[trigger] self.meta.key_at(j)] == Doc::Str(
                        self.meta@[self.meta.key_at(j)]@,
                    ),
                forall|k: Seq<char>|
                    base.contains_key(k) && (forall|j: int|
                        0 <= j < i ==> #[trigger] self.meta.key_at(j) != k) ==> #[trigger] fields(o)[k] == base[k],
            decreases n - i,
        {
            let ghost old_fields = fields(o);
            let e = self.meta.entry(i);
            let ghost key = e.0@;
            o = o.set(e.0.as_str(), Json::text(e.1.as_str()));
            proof {
                assert forall|k: Seq<char>| #[trigger]
                    fields(o).contains_key(k) <==> base.contains_key(k) || exists|j: int|
                        0 <= j < i + 1 && self.meta.key_at(j) == k by {
                    if k == key {
                        assert(self.meta.key_at(i as int) == k);
                    }
                    if exists|j: int| 0 <= j < i + 1 && self.meta.key_at(j) == k {
                        let j = choose|j: int| 0 <= j < i + 1 && self.meta.key_at(j) == k;
                        if j < i {
                            assert(old_fields.contains_key(k));
                        }
                    }
                }
                assert forall|j: int| 0 <= j < i + 1 implies fields(o)[#[trigger] self.meta.key_at(j)]
                    == Doc::Str(self.meta@[self.meta.key_at(j)]@) by {
                    if j < i {
                        assert(crate::text::text_before(self.meta.key_at(j), self.meta.key_at(i as int)));
                        crate::text::lemma_before_irreflexive(encode_utf8(key));
                    }
                }
                assert forall|k: Seq<char>|
                    base.contains_key(k) && (forall|j: int|
                        0 <= j < i + 1 ==> #[trigger] self.meta.key_at(j) != k) implies #[trigger] fields(
                    o,
                )[k] == base[k] by {
                    assert(self.meta.key_at(i as int) != k);
                    assert(old_fields[k] == base[k]);
                }
            }
            i = i + 1;
        }
        proof {
            let want = self@.payload();
            assert forall|k: Seq<char>| fields(o).contains_key(k) <==> want.contains_key(k) by {
                assert(fields(o).contains_key(k) <==> base.contains_key(k) || exists|j: int|
                    0 <= j < n && self.meta.key_at(j) == k);
                if exists|j: int| 0 <= j < n && self.meta.key_at(j) == k {
                    let j = choose|j: int| 0 <= j < n && self.meta.key_at(j) == k;
                    assert(self.meta@.contains_key(self.meta.key_at(j)));
                }
            }
            assert forall|k: Seq<char>| want.contains_key(k) implies fields(o)[k] == want[k] by {
                if self.meta@.contains_key(k) {
                    let j = choose|j: int| 0 <= j < n && self.meta.key_at(j) == k;
                    assert(fields(o)[self.meta.key_at(j)] == Doc::Str(self.meta@[k]@));
                } else {
                    assert forall|j: int| 0 <= j < n implies #[trigger] self.meta.key_at(j) != k by {
                        assert(self.meta@.contains_key(self.meta.key_at(j)));
                    }
                }
            }
            assert(fields(o) =~= want);
        }
        Json::Object(o)
    }
}

/// Whether `k` names one of the six fixed fields of a payload.
pub open spec fn is_fixed(k: Seq<char>) -> bool {
    ||| k == "namespace"@
    ||| k == "kind"@
    ||| k == "key"@
    ||| k == "text"@
    ||| k == "ts_unix_ms"@
    ||| k == "private"@
}

fn names_fixed_field(k: &str) -> (r: bool)
    ensures
        r == is_fixed(k@),
{
    same(k, "namespace") || same(k, "kind") || same(k, "key") || same(k, "text") || same(
        k,
        "ts_unix_ms",
    ) || same(k, "private")
}

/// How metadata carries the value `d`: a text as it is, a number as its decimal text, and
/// nothing else.
pub open spec fn carried(d: Doc) -> Option<Seq<char>> {
    match d {
        Doc::Str(s) => Some(s),
        Doc::Int(n) => Some(decimal(n)),
        Doc::Float(s) => Some(s),
        _ => None,
    }
}

fn carry(j: &Json) -> (r: Option<String>)
    ensures
        match r {
            Some(s) => carried(j@) == Some(s@),
            None => carried(j@) is None,
        },
{
    match j {
        Json::Str(s) => Some(s.clone()),
        Json::Number(Number::Int(n)) => Some(decimal_text(*n)),
        Json::Number(Number::Float(s)) => Some(s.clone()),
        _ => None,
    }
}

/// The metadata of a payload: each field that is none of the six fixed ones and that
/// metadata can carry.
pub open spec fn meta_of(p: Doc) -> Map<Seq<char>, Seq<char>> {
    match p {
        Doc::Object(m) => Map::new(
            |k: Seq<char>| m.contains_key(k) && !is_fixed(k) && carried(m[k]) is Some,
            |k: Seq<char>| carried(m[k])->0,
        ),
        _ => Map::empty(),
    }
}

/// The text of `d`, or none where it is no text.
pub open spec fn text_or_empty(d: Doc) -> Seq<char> {
    match d {
        Doc::Str(s) => s,
        _ => Seq::empty(),
    }
}

/// The memory that a payload carries: none where the namespace or the text is missing.
/// A missing kind or key is empty, a missing time is 0, and what does not say that it is
/// private is not.
pub open spec fn memory_of(p: Doc) -> Option<Memory> {
    if p.at("namespace"@) is Str && p.at("text"@) is Str {
        Some(
            Memory {
                namespace: p.at("namespace"@)->Str_0,
                kind: text_or_empty(p.at("kind"@)),
                key: text_or_empty(p.at("key"@)),
                text: p.at("text"@)->Str_0,
                ts_unix_ms: match p.at("ts_unix_ms"@).as_i64() {
                    Some(n) => n,
                    None => 0,
                },
                private: p.at("private"@) == Doc::Bool(true),
                meta: meta_of(p),
            },
        )
    } else {
        None
    }
}

fn read_meta(p: &Json) -> (r: StrMap<String>)
    ensures
        r@.map_values(|s: String| s@) == meta_of(p@),
{
    let mut meta: StrMap<String> = StrMap::new();
    match p.as_object() {
        None => {
            assert(meta@.map_values(|s: String| s@) =~= meta_of(p@));
            meta
        },
        Some(o) => {
            let ghost d = fields(*o);
            let n: usize = o.len();
            let mut i: usize = 0;
            while i < n
                invariant
                    n == o@.len(),
                    i <= n,
                    crate::json::same_fields(o@, d),
                    p@ == Doc::Object(d),
                    forall|a: int| 0 <= a < n ==> o@.contains_key(#[trigger] o.key_at(a)),
                    forall|a: int, b: int|
                        0 <= a < b < n ==> crate::text::text_before(
                            #[trigger] o.key_at(a),
                            #[trigger] o.key_at(b),
                        ),
                    forall|k: Seq<char>| #[trigger]
                        meta@.contains_key(k) <==> meta_of(p@).contains_key(k) && exists|j: int|
                            0 <= j < i && o.key_at(j) == k,
                    forall|k: Seq<char>| #[trigger]
                        meta@.contains_key(k) ==> meta@[k]@ == meta_of(p@)[k],
                decreases n - i,
            {
                let ghost old_meta = meta@;
                let e = o.entry(i);
                let ghost key = e.0@;
                assert(o.key_at(i as int) == key);
                if !names_fixed_field(e.0.as_str()) {
                    match carry(e.1) {
                        Some(s) => {
                            meta = meta.with(e.0.clone(), s);
                        },
                        None => {},
                    }
                }
                proof {
                    assert(d.contains_key(key) && d[key] == e.1@);
                    assert forall|k: Seq<char>| #[trigger]
                        meta@.contains_key(k) <==> meta_of(p@).contains_key(k) && exists|j: int|
                            0 <= j < i + 1 && o.key_at(j) == k by {
                        if meta@.contains_key(k) {
                            if k == key {
                                assert(o.key_at(i as int) == k);
                            } else {
                                assert(old_meta.contains_key(k));
                            }
                        }
                        if exists|j: int| 0 <= j < i + 1 && o.key_at(j) == k {
                            let j = choose|j: int| 0 <= j < i + 1 && o.key_at(j) == k;
                            if j < i {
                                if meta_of(p@).contains_key(k) {
                                    assert(old_meta.contains_key(k));
                                }
                            }
                        }
                    }
                    assert forall|k: Seq<char>| #[trigger] meta@.contains_key(k) implies meta@[k]@
                        == meta_of(p@)[k] by {
                        if k != key {
                            assert(old_meta.contains_key(k));
                        } else if old_meta.contains_key(k) {
                            let j = choose|j: int| 0 <= j < i && o.key_at(j) == k;
                            assert(crate::text::text_before(o.key_at(j), o.key_at(i as int)));
                            crate::text::lemma_before_irreflexive(encode_utf8(key));
                        }
                    }
                }
                i = i + 1;
            }
            proof {
                let have = meta@.map_values(|s: String| s@);
                let want = meta_of(p@);
                assert forall|k: Seq<char>| have.contains_key(k) <==> want.contains_key(k) by {
                    if want.contains_key(k) {
                        assert(d.contains_key(k));
                        assert(o@.contains_key(k));
                    }
                    assert(have.contains_key(k) <==> meta@.contains_key(k));
                }
                assert forall|k: Seq<char>| have.contains_key(k) implies have[k] == want[k] by {
                    assert(meta@.contains_key(k));
                }
                assert(have =~= want);
            }
            meta
        },
    }
}

fn text_field(p: &Json, key: &str) -> (r: Option<String>)
    ensures
        match r {
            Some(s) => p@.at(key@) == Doc::Str(s@),
            None => !(p@.at(key@) is Str),
        },
{
    match p.get(key) {
        Some(j) => match j.as_str() {
            Some(s) => Some(s.to_owned()),
            None => None,
        },
        None => None,
    }
}

/// The memory that a payload carries: the six fixed fields, and every other field that is a
/// text or a number as metadata. Nothing is read where the namespace or the text is missing.
pub fn item_of(p: &Json) -> (r: Option<Item>)
    ensures
        match r {
            Some(item) => memory_of(p@) == Some(item@),
            None => memory_of(p@) is None,
        },
{
    let meta = read_meta(p);
    let namespace = match text_field(p, "namespace") {
        Some(s) => s,
        None => return None,
    };
    let text = match text_field(p, "text") {
        Some(s) => s,
        None => return None,
    };
    let kind = match text_field(p, "kind") {
        Some(s) => s,
        None => String::new(),
    };
    let key = match text_field(p, "key") {
        Some(s) => s,
        None => String::new(),
    };
    let ts_unix_ms: i64 = match p.get("ts_unix_ms") {
        Some(j) => match j.as_i64() {
            Some(n) => n,
            None => 0,
        },
        None => 0,
    };
    let private = match p.get("private") {
        Some(j) => match j.as_bool() {
            Some(b) => b,
            None => false,
        },
        None => false,
    };
    let item = Item { namespace, kind, key, text, ts_unix_ms, private, meta };
    assert(memory_of(p@)->0 =~= item@);
    Some(item)
}

/// A memory written again, with whatever else has changed, has the id it had: the id is a
/// function of the namespace, the kind and the key.
pub proof fn id_is_a_function_of_namespace_kind_and_key(a: Memory, b: Memory)
    requires
        a.namespace == b.namespace,
        a.kind == b.kind,
        a.key == b.key,
    ensures
        a.id() == b.id(),
{
}

proof fn lemma_cut_at_separator(a: Seq<char>, s: Seq<char>, b: Seq<char>, t: Seq<char>)
    requires
        !a.contains('\u{1f}'),
        !b.contains('\u{1f}'),
        a + seq!['\u{1f}'] + s == b + seq!['\u{1f}'] + t,
    ensures
        a == b,
        s == t,
{
    let x = a + seq!['\u{1f}'] + s;
    let y = b + seq!['\u{1f}'] + t;
    assert(x[a.len() as int] == '\u{1f}');
    assert(y[b.len() as int] == '\u{1f}');
    if a.len() < b.len() {
        assert(y[a.len() as int] == b[a.len() as int]);
    } else if b.len() < a.len() {
        assert(x[b.len() as int] == a[b.len() as int]);
    }
    assert forall|i: int| 0 <= i < a.len() implies a[i] == b[i] by {
        assert(x[i] == a[i]);
        assert(y[i] == b[i]);
    }
    assert(a =~= b);
    assert(x.skip(a.len() as int + 1) =~= s);
    assert(y.skip(b.len() as int + 1) =~= t);
}

/// Memories are called alike only where namespace, kind and key are alike, as long as no
/// namespace and no kind holds the separator.
pub proof fn name_tells_memories_apart(a: Memory, b: Memory)
    requires
        !a.namespace.contains('\u{1f}'),
        !b.namespace.contains('\u{1f}'),
        !a.kind.contains('\u{1f}'),
        !b.kind.contains('\u{1f}'),
    ensures
        name_of(a.namespace, a.kind, a.key) == name_of(b.namespace, b.kind, b.key) <==> {
            &&& a.namespace == b.namespace
            &&& a.kind == b.kind
            &&& a.key == b.key
        },
{
    if name_of(a.namespace, a.kind, a.key) == name_of(b.namespace, b.kind, b.key) {
        let s = a.kind + seq!['\u{1f}'] + a.key;
        let t = b.kind + seq!['\u{1f}'] + b.key;
        assert(name_of(a.namespace, a.kind, a.key) =~= a.namespace + seq!['\u{1f}'] + s);
        assert(name_of(b.namespace, b.kind, b.key) =~= b.namespace + seq!['\u{1f}'] + t);
        lemma_cut_at_separator(a.namespace, s, b.namespace, t);
        lemma_cut_at_separator(a.kind, a.key, b.kind, b.key);
    }
}

/// The names of the six fixed fields are six names.
pub proof fn lemma_fixed_names_differ()
    ensures
        "namespace"@ != "kind"@,
        "namespace"@ != "key"@,
        "namespace"@ != "text"@,
        "namespace"@ != "ts_unix_ms"@,
        "namespace"@ != "private"@,
        "kind"@ != "key"@,
        "kind"@ != "text"@,
        "kind"@ != "ts_unix_ms"@,
        "kind"@ != "private"@,
        "key"@ != "text"@,
        "key"@ != "ts_unix_ms"@,
        "key"@ != "private"@,
        "text"@ != "ts_unix_ms"@,
        "text"@ != "private"@,
        "ts_unix_ms"@ != "private"@,
{
    reveal_strlit("namespace");
    reveal_strlit("kind");
    reveal_strlit("key");
    reveal_strlit("text");
    reveal_strlit("ts_unix_ms");
    reveal_strlit("private");
    assert("namespace"@.len() == 9);
    assert("kind"@.len() == 4);
    assert("key"@.len() == 3);
    assert("text"@.len() == 4);
    assert("ts_unix_ms"@.len() == 10);
    assert("private"@.len() == 7);
    assert("kind"@[0] != "text"@[0]);
}

/// What is read from the payload of a memory is that memory, as long as no metadata entry
/// takes the place of a fixed field.
pub proof fn reading_gives_back_what_was_written(m: Memory)
    requires
        forall|k: Seq<char>| #[trigger] m.meta.contains_key(k) ==> !is_fixed(k),
    ensures
        memory_of(Doc::Object(m.payload())) == Some(m),
{
    lemma_fixed_names_differ();
    let p = m.payload();
    let base = m.fixed_fields();
    assert forall|k: Seq<char>| #[trigger] base.contains_key(k) <==> is_fixed(k) by {}
    assert forall|k: Seq<char>| is_fixed(k) implies p.contains_key(k) && p[k] == base[k] by {
        assert(!m.meta.contains_key(k));
    }
    let back = meta_of(Doc::Object(p));
    assert forall|k: Seq<char>| back.contains_key(k) <==> m.meta.contains_key(k) by {
        assert(base.contains_key(k) <==> is_fixed(k));
    }
    assert(back =~= m.meta);
    assert(is_fixed("namespace"@) && is_fixed("kind"@) && is_fixed("key"@) && is_fixed("text"@)
        && is_fixed("ts_unix_ms"@) && is_fixed("private"@));
    assert(memory_of(Doc::Object(p))->0 =~= m);
}

/// Whether merging `patch` into the payload `p` leaves every fixed field as it is.
pub open spec fn keeps_fixed_fields(p: Map<Seq<char>, Doc>, patch: Map<Seq<char>, Doc>) -> bool {
    forall|k: Seq<char>| #[trigger]
        patch.contains_key(k) && is_fixed(k) ==> Doc::Object(p).at(k) == patch[k]
}

/// Merging fields into a payload, none of them another value for a fixed one, keeps the memory
/// and only adds to its metadata: an integer is there afterwards as a decimal text that reads
/// back as that integer, and what was not merged over is as it was.
pub proof fn merged_numbers_read_back_as_text(
    p: Map<Seq<char>, Doc>,
    patch: Map<Seq<char>, Doc>,
    m: Memory,
)
    requires
        memory_of(Doc::Object(p)) == Some(m),
        keeps_fixed_fields(p, patch),
    ensures
        ({
            let merged = Doc::Object(p.union_prefer_right(patch));
            let meta = meta_of(merged);
            &&& memory_of(merged) == Some(Memory { meta, ..m })
            &&& forall|k: Seq<char>| #[trigger]
                patch.contains_key(k) && !is_fixed(k) && patch[k] is Int ==> {
                    &&& meta.contains_key(k)
                    &&& meta[k] == decimal(patch[k]->Int_0)
                    &&& crate::text::decimal_value(meta[k]) == patch[k]->Int_0
                }
            &&& forall|k: Seq<char>|
                !patch.contains_key(k) ==> (#[trigger] meta.contains_key(k) <==> m.meta.contains_key(k))
            &&& forall|k: Seq<char>|
                !patch.contains_key(k) && m.meta.contains_key(k) ==> #[trigger] meta[k] == m.meta[k]
        }),
{
    let q = p.union_prefer_right(patch);
    let merged = Doc::Object(q);
    let meta = meta_of(merged);
    assert forall|k: Seq<char>| is_fixed(k) implies #[trigger] merged.at(k) == Doc::Object(p).at(k) by {
        if patch.contains_key(k) {
            assert(Doc::Object(p).at(k) == patch[k]);
        }
    }
    assert(is_fixed("namespace"@) && is_fixed("kind"@) && is_fixed("key"@) && is_fixed("text"@)
        && is_fixed("ts_unix_ms"@) && is_fixed("private"@));
    assert(memory_of(merged)->0 =~= (Memory { meta, ..m }));
    assert forall|k: Seq<char>| #[trigger]
        patch.contains_key(k) && !is_fixed(k) && patch[k] is Int implies meta.contains_key(k)
        && meta[k] == decimal(patch[k]->Int_0) && crate::text::decimal_value(meta[k])
        == patch[k]->Int_0 by {
        crate::text::decimal_parses_back(patch[k]->Int_0);
    }
}

/// A name is the namespace, the kind and the key in this order, with one separator behind each
/// of the first two and nothing else.
pub proof fn a_name_is_its_three_parts(namespace: Seq<char>, kind: Seq<char>, key: Seq<char>)
    ensures
        ({
            let name = name_of(namespace, kind, key);
            let a = namespace.len() as int;
            let b = a + 1 + kind.len();
            &&& name.len() == b + 1 + key.len()
            &&& name.subrange(0, a) == namespace
            &&& name[a] == '\u{1f}'
            &&& name.subrange(a + 1, b) == kind
            &&& name[b] == '\u{1f}'
            &&& name.subrange(b + 1, name.len() as int) == key
        }),
{
    let name = name_of(namespace, kind, key);
    let a = namespace.len() as int;
    let b = a + 1 + kind.len();
    assert(name.subrange(0, a) =~= namespace);
    assert(name.subrange(a + 1, b) =~= kind);
    assert(name.subrange(b + 1, name.len() as int) =~= key);
}

/// An id can be re-derived by hand: it is the UUIDv5 of the name, in the namespace of object
/// identifiers.
pub proof fn an_id_is_that_of_its_name(m: Memory, name: Seq<char>)
    requires
        name == m.namespace + seq!['\u{1f}'] + m.kind + seq!['\u{1f}'] + m.key,
    ensures
        m.id() == uuid_v5(oid_namespace(), encode_utf8(name)),
{
}

/// The view of a memory shows each of its fields.
pub proof fn a_view_shows_each_field(i: Item)
    ensures
        i@.namespace == i.namespace@,
        i@.kind == i.kind@,
        i@.key == i.key@,
        i@.text == i.text@,
        i@.ts_unix_ms == i.ts_unix_ms,
        i@.private == i.private,
        i@.meta.dom() == i.meta@.dom(),
        forall|k: Seq<char>| #[trigger] i.meta@.contains_key(k) ==> i@.meta[k] == i.meta@[k]@,
{
    assert(i@.meta.dom() =~= i.meta@.dom());
}

/// A payload holds the six fixed fields, each as it is in the memory, and the metadata, each
/// entry as a text of its own, which goes before a fixed field of its name; and nothing else.
pub proof fn a_payload_holds_the_memory(m: Memory, k: Seq<char>)
    ensures
        ({
            let p = m.payload();
            let d = Doc::Object(p);
            let plain = |f: Seq<char>| !m.meta.contains_key(f);
            &&& p.contains_key(k) <==> m.meta.contains_key(k) || k == "namespace"@ || k == "kind"@
                || k == "key"@ || k == "text"@ || k == "ts_unix_ms"@ || k == "private"@
            &&& m.meta.contains_key(k) ==> p[k] == Doc::Str(m.meta[k])
            &&& plain("namespace"@) ==> d.at("namespace"@) == Doc::Str(m.namespace)
            &&& plain("kind"@) ==> d.at("kind"@) == Doc::Str(m.kind)
            &&& plain("key"@) ==> d.at("key"@) == Doc::Str(m.key)
            &&& plain("text"@) ==> d.at("text"@) == Doc::Str(m.text)
            &&& plain("ts_unix_ms"@) ==> d.at("ts_unix_ms"@) == Doc::Int(m.ts_unix_ms as int)
            &&& plain("private"@) ==> d.at("private"@) == Doc::Bool(m.private)
        }),
{
    lemma_fixed_names_differ();
}

/// What is read of a payload: a memory wherever it holds a namespace and a text, with the kind
/// and the key where they are texts, the time where it is an integer that fits, and private
/// where it says so; and as metadata every other text and number, a text as it is and an
/// integer as a decimal text that reads back as that integer.
pub proof fn what_is_read_of_a_payload(p: Map<Seq<char>, Doc>, k: Seq<char>)
    ensures
        ({
            let d = Doc::Object(p);
            let r = memory_of(d);
            let m = r->0;
            let fixed = k == "namespace"@ || k == "kind"@ || k == "key"@ || k == "text"@ || k
                == "ts_unix_ms"@ || k == "private"@;
            &&& r is Some <==> d.at("namespace"@) is Str && d.at("text"@) is Str
            &&& r is Some ==> {
                &&& d.at("namespace"@) == Doc::Str(m.namespace)
                &&& d.at("text"@) == Doc::Str(m.text)
                &&& d.at("kind"@) is Str ==> d.at("kind"@) == Doc::Str(m.kind)
                &&& !(d.at("kind"@) is Str) ==> m.kind.len() == 0
                &&& d.at("key"@) is Str ==> d.at("key"@) == Doc::Str(m.key)
                &&& !(d.at("key"@) is Str) ==> m.key.len() == 0
                &&& d.at("ts_unix_ms"@) is Int && i64::MIN <= d.at("ts_unix_ms"@)->Int_0 <= i64::MAX
                    ==> d.at("ts_unix_ms"@) == Doc::Int(m.ts_unix_ms as int)
                &&& !(d.at("ts_unix_ms"@) is Int && i64::MIN <= d.at("ts_unix_ms"@)->Int_0
                    <= i64::MAX) ==> m.ts_unix_ms == 0
                &&& m.private <==> d.at("private"@) == Doc::Bool(true)
                &&& m.meta.contains_key(k) <==> !fixed && (d.at(k) is Str || d.at(k) is Int || d.at(
                    k,
                ) is Float)
                &&& m.meta.contains_key(k) ==> match d.at(k) {
                    Doc::Str(s) => m.meta[k] == s,
                    Doc::Float(s) => m.meta[k] == s,
                    Doc::Int(n) => m.meta[k] == decimal(n) && crate::text::decimal_value(m.meta[k])
                        == n,
                    _ => false,
                }
            }
        }),
{
    if Doc::Object(p).at(k) is Int {
        crate::text::decimal_parses_back(Doc::Object(p).at(k)->Int_0);
    }
}

/// What is no object carries no memory.
pub proof fn only_an_object_carries_a_memory(d: Doc)
    requires
        !(d is Object),
    ensures
        memory_of(d) is None,
{
}

/// A field that metadata cannot carry changes nothing of what is read.
pub proof fn what_metadata_cannot_carry_changes_nothing(
    p: Map<Seq<char>, Doc>,
    k: Seq<char>,
    v: Doc,
)
    requires
        !p.contains_key(k),
        k != "namespace"@ && k != "kind"@ && k != "key"@ && k != "text"@ && k != "ts_unix_ms"@ && k
            != "private"@,
        v is Null || v is Bool || v is Array || v is Object,
    ensures
        memory_of(Doc::Object(p.insert(k, v))) == memory_of(Doc::Object(p)),
{
    assert(meta_of(Doc::Object(p.insert(k, v))) =~= meta_of(Doc::Object(p)));
}

} // verus!
