//! JSON documents as plain values.
//!
//! A [`Json`] is what the store is sent and what it answers. Its view is a [`Doc`]: the
//! same document with mathematical integers, sequences and maps.
use vstd::prelude::*;

use crate::text::lemma_before_irreflexive;
use crate::text::lemma_before_transitive;
use crate::text::rank;
use crate::text::text_before;
use crate::text::Rank;

verus! {

broadcast use vstd::string::group_string_axioms;

/// A map from texts to values, kept in the order of its keys, no key twice.
#[derive(Debug, PartialEq)]
pub struct StrMap<V> {
    entries: Vec<(String, V)>,
}

/// Whether the keys of `s` stand in strictly ascending order.
pub open spec fn ascending<V>(s: Seq<(String, V)>) -> bool {
    forall|i: int, j: int|
        0 <= i < j < s.len() ==> text_before((#[trigger] s[i]).0@, (#[trigger] s[j]).0@)
}

/// Whether `k` is a key of `s`.
pub open spec fn has_key<V>(s: Seq<(String, V)>, k: Seq<char>) -> bool {
    exists|i: int| 0 <= i < s.len() && (#[trigger] s[i]).0@ == k
}

/// Where `k` is a key of `s`, the place of it.
pub open spec fn place<V>(s: Seq<(String, V)>, k: Seq<char>) -> int {
    choose|i: int| 0 <= i < s.len() && (#[trigger] s[i]).0@ == k
}

/// The map that a row of keys and values writes down.
pub open spec fn map_of<V>(s: Seq<(String, V)>) -> Map<Seq<char>, V> {
    Map::new(|k: Seq<char>| has_key(s, k), |k: Seq<char>| s[place(s, k)].1)
}

/// In an ascending row each key stands at one place only.
proof fn lemma_one_place<V>(s: Seq<(String, V)>, i: int)
    requires
        ascending(s),
        0 <= i < s.len(),
    ensures
        map_of(s).contains_key(s[i].0@),
        map_of(s)[s[i].0@] == s[i].1,
        place(s, s[i].0@) == i,
{
    let k = s[i].0@;
    assert(has_key(s, k));
    let p = place(s, k);
    if p != i {
        lemma_before_irreflexive(vstd::utf8::encode_utf8(k));
        if p < i {
            assert(text_before(s[p].0@, s[i].0@));
        } else {
            assert(text_before(s[i].0@, s[p].0@));
        }
    }
}

impl<V> View for StrMap<V> {
    type V = Map<Seq<char>, V>;

    closed spec fn view(&self) -> Map<Seq<char>, V> {
        map_of(self.entries@)
    }
}

impl<V> StrMap<V> {
    #[verifier::type_invariant]
    spec fn well_formed(self) -> bool {
        ascending(self.entries@)
    }

    /// The map without entries.
    pub fn new() -> (r: Self)
        ensures
            r@ == Map::<Seq<char>, V>::empty(),
    {
        let r = StrMap { entries: Vec::new() };
        assert(r@ =~= Map::<Seq<char>, V>::empty());
        r
    }

    /// How many entries there are. Every key stands at one of that many places, and the
    /// places go up in the order of the keys.
    pub fn len(&self) -> (r: usize)
        ensures
            r == self@.len(),
            self@.dom().finite(),
            forall|i: int| 0 <= i < r ==> self@.contains_key(#[trigger] self.key_at(i)),
            forall|i: int, j: int|
                0 <= i < j < r ==> text_before(#[trigger] self.key_at(i), #[trigger] self.key_at(j)),
            forall|k: Seq<char>| #[trigger]
                self@.contains_key(k) ==> exists|i: int| 0 <= i < r && self.key_at(i) == k,
    {
        proof {
            use_type_invariant(self);
            self.lemma_len();
            let s = self.entries@;
            assert forall|i: int| 0 <= i < s.len() implies self@.contains_key(#[trigger] self.key_at(i)) by {
                lemma_one_place(s, i);
            }
            assert forall|k: Seq<char>| #[trigger] self@.contains_key(k) implies exists|i: int|
                0 <= i < s.len() && self.key_at(i) == k by {
                let p = place(s, k);
                assert(self.key_at(p) == k);
            }
        }
        self.entries.len()
    }

    /// The key at place `i` in the order of the keys.
    pub closed spec fn key_at(&self, i: int) -> Seq<char> {
        self.entries@[i].0@
    }

    proof fn lemma_len_upto(s: Seq<(String, V)>, n: int)
        requires
            ascending(s),
            0 <= n <= s.len(),
        ensures
            map_of(s.take(n)).dom().finite(),
            map_of(s.take(n)).len() == n,
        decreases n,
    {
        let t = s.take(n);
        if n == 0 {
            assert(map_of(t).dom() =~= Set::<Seq<char>>::empty());
        } else {
            Self::lemma_len_upto(s, n - 1);
            let u = s.take(n - 1);
            let last = t[n - 1].0@;
            assert forall|k: Seq<char>| has_key(t, k) == (has_key(u, k) || k == last) by {
                if has_key(t, k) {
                    let i = place(t, k);
                    if i < n - 1 {
                        assert(u[i].0@ == k);
                    }
                }
                if has_key(u, k) {
                    let i = place(u, k);
                    assert(t[i].0@ == k);
                }
                if k == last {
                    assert(t[n - 1].0@ == k);
                }
            }
            assert(!has_key(u, last)) by {
                if has_key(u, last) {
                    let i = place(u, last);
                    assert(text_before(s[i].0@, s[n - 1].0@));
                    lemma_before_irreflexive(vstd::utf8::encode_utf8(last));
                }
            }
            assert(map_of(t).dom() =~= map_of(u).dom().insert(last));
        }
    }

    proof fn lemma_len(&self)
        requires
            ascending(self.entries@),
        ensures
            self@.dom().finite(),
            self@.len() == self.entries@.len(),
    {
        Self::lemma_len_upto(self.entries@, self.entries@.len() as int);
        assert(self.entries@.take(self.entries@.len() as int) == self.entries@);
    }

    /// The entry at place `i` in the order of the keys.
    pub fn entry(&self, i: usize) -> (r: (&String, &V))
        requires
            i < self@.len(),
        ensures
            r.0@ == self.key_at(i as int),
            self@.contains_key(r.0@),
            self@[r.0@] == r.1,
    {
        proof {
            use_type_invariant(self);
            self.lemma_len();
            lemma_one_place(self.entries@, i as int);
        }
        let e = &self.entries[i];
        (&e.0, &e.1)
    }

    /// The value at `key`, if there is one.
    pub fn get(&self, key: &str) -> (r: Option<&V>)
        ensures
            match r {
                Some(v) => self@.contains_key(key@) && *v == self@[key@],
                None => !self@.contains_key(key@),
            },
    {
        proof {
            use_type_invariant(self);
        }
        let mut i: usize = 0;
        while i < self.entries.len()
            invariant
                ascending(self.entries@),
                i <= self.entries@.len(),
                forall|j: int| 0 <= j < i ==> (#[trigger] self.entries@[j]).0@ != key@,
            decreases self.entries@.len() - i,
        {
            if crate::text::same(self.entries[i].0.as_str(), key) {
                proof {
                    lemma_one_place(self.entries@, i as int);
                }
                return Some(&self.entries[i].1);
            }
            i = i + 1;
        }
        None
    }

    /// This map with `value` at `key`, in place of what stood there.
    pub fn with(self, key: String, value: V) -> (r: Self)
        ensures
            r@ == self@.insert(key@, value),
    {
        proof {
            use_type_invariant(&self);
        }
        let ghost old_entries = self.entries@;
        let ghost old_map = self@;
        let ghost k = key@;
        let mut entries = self.entries;
        let mut i: usize = 0;
        while i < entries.len()
            invariant
                entries@ == old_entries,
                self@ == old_map,
                old_map == map_of(old_entries),
                ascending(old_entries),
                i <= entries@.len(),
                key@ == k,
                forall|j: int| 0 <= j < i ==> text_before((#[trigger] old_entries[j]).0@, k),
            decreases entries@.len() - i,
        {
            match rank(entries[i].0.as_str(), key.as_str()) {
                Rank::Before => {},
                Rank::Same => {
                    entries.set(i, (key, value));
                    proof {
                        lemma_replaced(old_entries, i as int, entries@);
                    }
                    return StrMap { entries };
                },
                Rank::After => {
                    entries.insert(i, (key, value));
                    proof {
                        lemma_inserted(old_entries, i as int, entries@);
                    }
                    return StrMap { entries };
                },
            }
            i = i + 1;
        }
        entries.insert(i, (key, value));
        proof {
            lemma_inserted(old_entries, i as int, entries@);
        }
        StrMap { entries }
    }
}

/// A row in which the value at one key is replaced is still ascending.
proof fn lemma_replaced<V>(s: Seq<(String, V)>, i: int, t: Seq<(String, V)>)
    requires
        ascending(s),
        0 <= i < s.len(),
        t == s.update(i, t[i]),
        t[i].0@ == s[i].0@,
    ensures
        ascending(t),
        map_of(t) == map_of(s).insert(t[i].0@, t[i].1),
{
    assert forall|a: int, b: int| 0 <= a < b < t.len() implies text_before(
        (#[trigger] t[a]).0@,
        (#[trigger] t[b]).0@,
    ) by {
        assert(text_before(s[a].0@, s[b].0@));
    }
    let k = t[i].0@;
    let m = map_of(s).insert(k, t[i].1);
    assert forall|q: Seq<char>| has_key(t, q) == m.contains_key(q) by {
        if has_key(t, q) {
            let p = place(t, q);
            assert(s[p].0@ == q);
        }
        if has_key(s, q) {
            let p = place(s, q);
            assert(t[p].0@ == q);
        }
        if q == k {
            assert(t[i].0@ == q);
        }
    }
    assert forall|q: Seq<char>| has_key(t, q) implies map_of(t)[q] == m[q] by {
        let p = place(t, q);
        if p == i {
        } else {
            lemma_one_place(s, p);
            lemma_one_place(t, i);
            lemma_one_place(t, p);
        }
    }
    assert(map_of(t) =~= m);
}

/// A row into which a new key is put at its place is still ascending.
proof fn lemma_inserted<V>(s: Seq<(String, V)>, i: int, t: Seq<(String, V)>)
    requires
        ascending(s),
        0 <= i <= s.len(),
        t.len() == s.len() + 1,
        t == s.insert(i, t[i]),
        forall|j: int| 0 <= j < i ==> text_before((#[trigger] s[j]).0@, t[i].0@),
        i < s.len() ==> text_before(t[i].0@, s[i].0@),
    ensures
        ascending(t),
        map_of(t) == map_of(s).insert(t[i].0@, t[i].1),
{
    let k = t[i].0@;
    assert forall|j: int| i <= j < s.len() implies text_before(k, (#[trigger] s[j]).0@) by {
        if j > i {
            assert(text_before(s[i].0@, s[j].0@));
            lemma_before_transitive(
                vstd::utf8::encode_utf8(k),
                vstd::utf8::encode_utf8(s[i].0@),
                vstd::utf8::encode_utf8(s[j].0@),
            );
        }
    }
    assert forall|a: int, b: int| 0 <= a < b < t.len() implies text_before(
        (#[trigger] t[a]).0@,
        (#[trigger] t[b]).0@,
    ) by {
        let a0 = if a < i { a } else { a - 1 };
        let b0 = if b < i { b } else { b - 1 };
        if a != i {
            assert(t[a] == s[a0]);
        }
        if b != i {
            assert(t[b] == s[b0]);
        }
        if a != i && b != i {
            assert(text_before(s[a0].0@, s[b0].0@));
        }
    }
    let m = map_of(s).insert(k, t[i].1);
    assert forall|q: Seq<char>| has_key(t, q) == m.contains_key(q) by {
        if has_key(t, q) {
            let p = place(t, q);
            if p < i {
                assert(s[p].0@ == q);
            } else if p > i {
                assert(s[p - 1].0@ == q);
            }
        }
        if has_key(s, q) {
            let p = place(s, q);
            if p < i {
                assert(t[p].0@ == q);
            } else {
                assert(t[p + 1].0@ == q);
            }
        }
        if q == k {
            assert(t[i].0@ == q);
        }
    }
    assert forall|q: Seq<char>| has_key(t, q) implies map_of(t)[q] == m[q] by {
        let p = place(t, q);
        lemma_one_place(t, p);
        lemma_one_place(t, i);
        if p < i {
            lemma_one_place(s, p);
        } else if p > i {
            lemma_one_place(s, p - 1);
        }
    }
    assert(map_of(t) =~= m);
}

impl Clone for StrMap<String> {
    /// The same entries.
    fn clone(&self) -> (r: Self)
        ensures
            r@ == self@,
    {
        proof {
            use_type_invariant(self);
        }
        let mut entries: Vec<(String, String)> = Vec::new();
        let mut i: usize = 0;
        while i < self.entries.len()
            invariant
                i <= self.entries@.len(),
                ascending(self.entries@),
                entries@ == self.entries@.take(i as int),
            decreases self.entries@.len() - i,
        {
            let e = &self.entries[i];
            entries.push((e.0.clone(), e.1.clone()));
            assert(self.entries@.take(i + 1) == self.entries@.take(i as int).push(self.entries@[i as int]));
            i = i + 1;
        }
        assert(entries@ == self.entries@);
        StrMap { entries }
    }
}

/// A JSON number: an integer, or the decimal text of a number that is none.
#[derive(Debug, Clone, PartialEq)]
pub enum Number {
    Int(i128),
    Float(String),
}

/// A JSON document.
#[derive(Debug, PartialEq)]
pub enum Json {
    Null,
    Bool(bool),
    Number(Number),
    Str(String),
    Array(Vec<Json>),
    Object(StrMap<Json>),
}

/// A JSON document, as contracts speak of it.
#[verifier::ext_equal]
pub enum Doc {
    Null,
    Bool(bool),
    Int(int),
    Float(Seq<char>),
    Str(Seq<char>),
    Array(Seq<Doc>),
    Object(Map<Seq<char>, Doc>),
}

impl Doc {
    /// What stands at `key`: `Null` where nothing does.
    pub open spec fn at(self, key: Seq<char>) -> Doc {
        match self {
            Doc::Object(m) => if m.contains_key(key) {
                m[key]
            } else {
                Doc::Null
            },
            _ => Doc::Null,
        }
    }

    /// The text, if this is one.
    pub open spec fn as_str(self) -> Option<Seq<char>> {
        match self {
            Doc::Str(s) => Some(s),
            _ => None,
        }
    }

    /// The truth value, if this is one.
    pub open spec fn as_bool(self) -> Option<bool> {
        match self {
            Doc::Bool(b) => Some(b),
            _ => None,
        }
    }

    /// Whether this is a number.
    pub open spec fn is_number(self) -> bool {
        self is Int || self is Float
    }

    /// The integer, if this is one that 64 bits hold with a sign.
    pub open spec fn as_i64(self) -> Option<i64> {
        match self {
            Doc::Int(n) => if i64::MIN <= n <= i64::MAX {
                Some(n as i64)
            } else {
                None
            },
            _ => None,
        }
    }

    /// The integer, if this is one that 64 bits hold without a sign.
    pub open spec fn as_u64(self) -> Option<u64> {
        match self {
            Doc::Int(n) => if 0 <= n <= u64::MAX {
                Some(n as u64)
            } else {
                None
            },
            _ => None,
        }
    }

    /// The elements, if this is an array.
    pub open spec fn as_array(self) -> Option<Seq<Doc>> {
        match self {
            Doc::Array(s) => Some(s),
            _ => None,
        }
    }
}

impl View for Number {
    type V = Doc;

    open spec fn view(&self) -> Doc {
        match *self {
            Number::Int(n) => Doc::Int(n as int),
            Number::Float(s) => Doc::Float(s@),
        }
    }
}

/// The documents of a row of values.
pub open spec fn docs(s: Seq<Json>) -> Seq<Doc>
    decreases s,
{
    if s.len() == 0 {
        Seq::empty()
    } else {
        docs(s.drop_last()).push(doc(s.last()))
    }
}

spec fn fields_of(s: Seq<(String, Json)>) -> Map<Seq<char>, Doc>
    decreases s,
{
    if s.len() == 0 {
        Map::empty()
    } else {
        fields_of(s.drop_last()).insert(s.last().0@, doc(s.last().1))
    }
}

/// The fields of an object.
pub closed spec fn fields(m: StrMap<Json>) -> Map<Seq<char>, Doc>
    decreases m,
{
    fields_of(m.entries@)
}

/// The document of a value.
pub open spec fn doc(j: Json) -> Doc
    decreases j,
{
    match j {
        Json::Null => Doc::Null,
        Json::Bool(b) => Doc::Bool(b),
        Json::Number(n) => n@,
        Json::Str(s) => Doc::Str(s@),
        Json::Array(v) => Doc::Array(docs(v@)),
        Json::Object(m) => Doc::Object(fields(m)),
    }
}

impl View for Json {
    type V = Doc;

    open spec fn view(&self) -> Doc {
        doc(*self)
    }
}

/// The documents of a row stand at the places of its values.
pub proof fn lemma_docs(s: Seq<Json>)
    ensures
        docs(s).len() == s.len(),
        forall|i: int| 0 <= i < s.len() ==> #[trigger] docs(s)[i] == s[i]@,
    decreases s.len(),
{
    if s.len() > 0 {
        lemma_docs(s.drop_last());
        assert forall|i: int| 0 <= i < s.len() implies #[trigger] docs(s)[i] == s[i]@ by {
            if i < s.len() - 1 {
                assert(docs(s.drop_last())[i] == s.drop_last()[i]@);
            }
        }
    }
}

/// A value put at the end of a row puts its document at the end of the documents.
pub proof fn lemma_docs_push(s: Seq<Json>, j: Json)
    ensures
        docs(s.push(j)) == docs(s).push(j@),
{
    assert(s.push(j).drop_last() == s);
}

proof fn lemma_fields_of(s: Seq<(String, Json)>)
    requires
        ascending(s),
    ensures
        forall|k: Seq<char>| #[trigger] fields_of(s).contains_key(k) <==> has_key(s, k),
        forall|i: int| 0 <= i < s.len() ==> fields_of(s)[(#[trigger] s[i]).0@] == s[i].1@,
    decreases s.len(),
{
    if s.len() > 0 {
        let t = s.drop_last();
        assert(ascending(t)) by {
            assert forall|i: int, j: int| 0 <= i < j < t.len() implies text_before(
                (#[trigger] t[i]).0@,
                (#[trigger] t[j]).0@,
            ) by {
                assert(text_before(s[i].0@, s[j].0@));
            }
        }
        lemma_fields_of(t);
        let n = s.len() - 1;
        assert forall|k: Seq<char>| #[trigger] fields_of(s).contains_key(k) <==> has_key(s, k) by {
            if has_key(s, k) {
                let p = place(s, k);
                if p < n {
                    assert(t[p].0@ == k);
                    assert(fields_of(t).contains_key(k));
                }
            }
            if fields_of(s).contains_key(k) {
                if k == s[n].0@ {
                } else {
                    assert(fields_of(t).contains_key(k));
                    let p = place(t, k);
                    assert(s[p].0@ == k);
                }
            }
        }
        assert forall|i: int| 0 <= i < s.len() implies fields_of(s)[(#[trigger] s[i]).0@] == s[i].1@ by {
            if i < n {
                assert(t[i] == s[i]);
                assert(text_before(s[i].0@, s[n].0@));
                lemma_before_irreflexive(vstd::utf8::encode_utf8(s[i].0@));
            }
        }
    }
}

/// Whether `m` holds at each key the value whose document `d` holds there.
pub open spec fn same_fields(m: Map<Seq<char>, Json>, d: Map<Seq<char>, Doc>) -> bool {
    &&& forall|k: Seq<char>| #[trigger] d.contains_key(k) <==> m.contains_key(k)
    &&& forall|k: Seq<char>| #[trigger] m.contains_key(k) ==> d[k] == m[k]@
}

proof fn lemma_fields(m: StrMap<Json>)
    requires
        ascending(m.entries@),
    ensures
        same_fields(m@, fields(m)),
{
    let s = m.entries@;
    lemma_fields_of(s);
    assert forall|k: Seq<char>| #[trigger] fields(m).contains_key(k) <==> m@.contains_key(k) by {
        assert(fields_of(s).contains_key(k) <==> has_key(s, k));
    }
    assert forall|k: Seq<char>| #[trigger] m@.contains_key(k) implies fields(m)[k] == m@[k]@ by {
        let p = place(s, k);
        assert(fields_of(s)[s[p].0@] == s[p].1@);
    }
}

impl StrMap<Json> {
    /// The object without fields.
    pub fn empty() -> (r: Self)
        ensures
            fields(r) == Map::<Seq<char>, Doc>::empty(),
    {
        let r = StrMap::new();
        proof {
            use_type_invariant(&r);
            lemma_fields(r);
            assert(fields(r) =~= Map::<Seq<char>, Doc>::empty());
        }
        r
    }

    /// This object with `value` in the field `key`, in place of what stood there.
    pub fn set(self, key: &str, value: Json) -> (r: Self)
        ensures
            fields(r) == fields(self).insert(key@, value@),
    {
        proof {
            use_type_invariant(&self);
            lemma_fields(self);
        }
        let r = self.with(key.to_owned(), value);
        proof {
            use_type_invariant(&r);
            lemma_fields(r);
            assert(r@.contains_key(key@));
            assert forall|k: Seq<char>| fields(r).contains_key(k) implies fields(r)[k] == fields(
                self,
            ).insert(key@, value@)[k] by {
                assert(r@.contains_key(k));
                if k != key@ {
                    assert(self@.contains_key(k));
                }
            }
            assert(fields(r) =~= fields(self).insert(key@, value@));
        }
        r
    }
}

impl Json {
    /// The JSON text `s`.
    pub fn text(s: &str) -> (r: Json)
        ensures
            r@ == Doc::Str(s@),
    {
        Json::Str(s.to_owned())
    }

    /// The JSON integer `n`.
    pub fn integer(n: i128) -> (r: Json)
        ensures
            r@ == Doc::Int(n as int),
    {
        Json::Number(Number::Int(n))
    }

    /// What stands in the field `key`: nothing where this is no object.
    pub fn get(&self, key: &str) -> (r: Option<&Json>)
        ensures
            match r {
                Some(j) => self@.at(key@) == j@,
                None => self@.at(key@) == Doc::Null,
            },
    {
        match self {
            Json::Object(m) => {
                proof {
                    use_type_invariant(m);
                    lemma_fields(*m);
                }
                m.get(key)
            },
            _ => None,
        }
    }

    /// The fields, if this is an object.
    pub fn as_object(&self) -> (r: Option<&StrMap<Json>>)
        ensures
            match r {
                Some(m) => self@ == Doc::Object(fields(*m)) && same_fields(m@, fields(*m)),
                None => !(self@ is Object),
            },
    {
        match self {
            Json::Object(m) => {
                proof {
                    use_type_invariant(m);
                    lemma_fields(*m);
                }
                Some(m)
            },
            _ => None,
        }
    }

    /// The text, if this is one.
    pub fn as_str(&self) -> (r: Option<&str>)
        ensures
            match r {
                Some(s) => self@.as_str() == Some(s@),
                None => self@.as_str() is None,
            },
    {
        match self {
            Json::Str(s) => Some(s.as_str()),
            _ => None,
        }
    }

    /// The truth value, if this is one.
    pub fn as_bool(&self) -> (r: Option<bool>)
        ensures
            r == self@.as_bool(),
    {
        match self {
            Json::Bool(b) => Some(*b),
            _ => None,
        }
    }

    /// The number, if this is one.
    pub fn as_number(&self) -> (r: Option<Number>)
        ensures
            match r {
                Some(n) => self@ == n@,
                None => !self@.is_number(),
            },
    {
        match self {
            Json::Number(Number::Int(n)) => Some(Number::Int(*n)),
            Json::Number(Number::Float(s)) => Some(Number::Float(s.clone())),
            _ => None,
        }
    }

    /// The integer, if this is one that 64 bits hold with a sign.
    pub fn as_i64(&self) -> (r: Option<i64>)
        ensures
            r == self@.as_i64(),
    {
        match self {
            Json::Number(Number::Int(n)) => if i64::MIN as i128 <= *n && *n <= i64::MAX as i128 {
                Some(*n as i64)
            } else {
                None
            },
            _ => None,
        }
    }

    /// The integer, if this is one that 64 bits hold without a sign.
    pub fn as_u64(&self) -> (r: Option<u64>)
        ensures
            r == self@.as_u64(),
    {
        match self {
            Json::Number(Number::Int(n)) => if 0 <= *n && *n <= u64::MAX as i128 {
                Some(*n as u64)
            } else {
                None
            },
            _ => None,
        }
    }

    /// The elements, if this is an array.
    pub fn as_array(&self) -> (r: Option<&Vec<Json>>)
        ensures
            match r {
                Some(v) => self@ == Doc::Array(docs(v@)),
                None => self@.as_array() is None,
            },
    {
        match self {
            Json::Array(v) => Some(v),
            _ => None,
        }
    }
}

impl Clone for Json {
    /// The same document.
    fn clone(&self) -> (r: Json)
        ensures
            r@ == self@,
        decreases self,
    {
        match self {
            Json::Null => Json::Null,
            Json::Bool(b) => Json::Bool(*b),
            Json::Number(Number::Int(n)) => Json::Number(Number::Int(*n)),
            Json::Number(Number::Float(s)) => Json::Number(Number::Float(s.clone())),
            Json::Str(s) => Json::Str(s.clone()),
            Json::Array(v) => {
                let mut copy: Vec<Json> = Vec::new();
                let mut i: usize = 0;
                while i < v.len()
                    invariant
                        *self == Json::Array(*v),
                        i <= v@.len(),
                        docs(copy@) == docs(v@.take(i as int)),
                    decreases v@.len() - i,
                {
                    let ghost before = copy@;
                    assert(decreases_to!(*self => self->Array_0));
                    let j = v[i].clone();
                    copy.push(j);
                    proof {
                        lemma_docs_push(before, j);
                        lemma_docs_push(v@.take(i as int), v@[i as int]);
                        assert(v@.take(i + 1) == v@.take(i as int).push(v@[i as int]));
                    }
                    i = i + 1;
                }
                assert(v@.take(i as int) == v@);
                Json::Array(copy)
            },
            Json::Object(m) => {
                let mut copy = StrMap::empty();
                let mut i: usize = 0;
                assert(m.entries@.take(0) =~= Seq::<(String, Json)>::empty());
                while i < m.entries.len()
                    invariant
                        *self == Json::Object(*m),
                        i <= m.entries@.len(),
                        fields(copy) == fields_of(m.entries@.take(i as int)),
                    decreases m.entries@.len() - i,
                {
                    let e = &m.entries[i];
                    assert(decreases_to!(*self => self->Object_0));
                    assert(decreases_to!(m.entries@[i as int] => m.entries@[i as int].1));
                    let j = e.1.clone();
                    copy = copy.set(e.0.as_str(), j);
                    assert(m.entries@.take(i + 1).drop_last() == m.entries@.take(i as int));
                    i = i + 1;
                }
                assert(m.entries@.take(i as int) == m.entries@);
                Json::Object(copy)
            },
        }
    }
}

/// A document is read as what it is and as nothing else: a text, a truth value, and an integer
/// wherever it fits.
pub proof fn a_document_is_read_as_what_it_is(d: Doc, s: Seq<char>, b: bool, i: i64, u: u64)
    ensures
        d.as_str() == Some(s) <==> d == Doc::Str(s),
        d.as_bool() == Some(b) <==> d == Doc::Bool(b),
        d.as_i64() == Some(i) <==> d == Doc::Int(i as int),
        d.as_u64() == Some(u) <==> d == Doc::Int(u as int),
        d.is_number() <==> d is Int || d is Float,
        d.as_array() is Some <==> d is Array,
        d is Array ==> d.as_array() == Some(d->Array_0),
{
}

/// What stands at a key is what was put there last, and what was put elsewhere changes nothing
/// of it.
pub proof fn what_is_put_stands_at_its_key(m: Map<Seq<char>, Doc>, k: Seq<char>, j: Seq<char>, v: Doc)
    ensures
        Doc::Object(m.insert(k, v)).at(k) == v,
        j != k ==> Doc::Object(m.insert(k, v)).at(j) == Doc::Object(m).at(j),
        !m.contains_key(k) ==> Doc::Object(m).at(k) == Doc::Null,
{
}

/// The document of a value is that value: a truth value, an integer, the text of another number,
/// a text, or an array element by element.
pub proof fn a_value_stands_for_itself(b: bool, n: i128, s: String, v: Vec<Json>)
    ensures
        Json::Null@ == Doc::Null,
        Json::Bool(b)@ == Doc::Bool(b),
        Json::Number(Number::Int(n))@ == Doc::Int(n as int),
        Json::Number(Number::Float(s))@ == Doc::Float(s@),
        Number::Int(n)@ == Doc::Int(n as int),
        Number::Float(s)@ == Doc::Float(s@),
        Json::Str(s)@ == Doc::Str(s@),
        Json::Array(v)@ is Array,
        Json::Array(v)@->Array_0.len() == v@.len(),
        forall|i: int| 0 <= i < v@.len() ==> #[trigger] Json::Array(v)@->Array_0[i] == v@[i]@,
{
    lemma_docs(v@);
}

} // verus!
