//! A running Ollama's embedding endpoint.
use vstd::prelude::*;
use vstd::string::StringExecFns;

use crate::embed::first_len;
use crate::embed::prompt_of;
use crate::embed::prompts;
use crate::embed::Role;
use crate::error::Error;
use crate::filter::text_array;
use crate::json::docs;
use crate::json::lemma_docs;
use crate::json::Doc;
use crate::json::Json;
use crate::json::Number;
use crate::json::StrMap;
use crate::request::Answer;
use crate::request::Call;
use crate::request::Method;
use crate::request::Reads;
use crate::request::Request;
use crate::text::trim_slashes;
use crate::text::without_trailing_slashes;

verus! {

broadcast use vstd::string::group_string_axioms;

/// An Ollama that is asked for embeddings, and how long they are once some came.
#[derive(Debug, Clone, PartialEq)]
pub struct Ollama {
    pub endpoint: String,
    pub model: String,
    pub dim: usize,
}

/// What the model is given for each of a row of texts.
pub open spec fn prompt_docs(texts: Seq<String>, role: Role) -> Seq<Doc> {
    texts.map_values(|t: String| Doc::Str(prompt_of(t@, role)))
}

/// Whether `d` is an array of numbers.
pub open spec fn is_row(d: Doc) -> bool {
    &&& d is Array
    &&& forall|i: int| 0 <= i < d->Array_0.len() ==> (#[trigger] d->Array_0[i]).is_number()
}

/// Whether `d` is an array of arrays of numbers.
pub open spec fn is_rows(d: Doc) -> bool {
    &&& d is Array
    &&& forall|i: int| 0 <= i < d->Array_0.len() ==> is_row(#[trigger] d->Array_0[i])
}

/// A row of numbers, as contracts speak of it.
pub open spec fn row_view(row: Vec<Number>) -> Doc {
    Doc::Array(row@.map_values(|n: Number| n@))
}

/// Rows of numbers, as contracts speak of them.
pub open spec fn rows_view(rows: Seq<Vec<Number>>) -> Doc {
    Doc::Array(rows.map_values(|row: Vec<Number>| row_view(row)))
}

/// What an answer to a request for embeddings gives: the rows under `embeddings` in their
/// order, where they are rows of numbers, and a failure where they are not or where no
/// document came.
pub open spec fn gives(answer: Answer, r: Result<Vec<Vec<Number>>, Error>) -> bool {
    match answer {
        Answer::Unreachable(why) => r == Err::<Vec<Vec<Number>>, Error>(Error::Http(why)),
        Answer::Refused(_, why) => r == Err::<Vec<Vec<Number>>, Error>(Error::Http(why)),
        Answer::Unreadable(why) => r == Err::<Vec<Vec<Number>>, Error>(Error::Http(why)),
        Answer::Document(d) => match r {
            Ok(rows) => is_rows(d@.at("embeddings"@)) && rows_view(rows@) == d@.at("embeddings"@),
            Err(e) => !is_rows(d@.at("embeddings"@)) && e == Error::EmbedAnswer,
        },
    }
}

fn read_row(j: &Json) -> (r: Option<Vec<Number>>)
    ensures
        match r {
            Some(row) => is_row(j@) && row_view(row) == j@,
            None => !is_row(j@),
        },
{
    let a = match j.as_array() {
        Some(a) => a,
        None => return None,
    };
    let ghost all = docs(a@);
    proof {
        lemma_docs(a@);
    }
    let mut row: Vec<Number> = Vec::new();
    let mut i: usize = 0;
    while i < a.len()
        invariant
            i <= a@.len(),
            j@ == Doc::Array(all),
            all.len() == a@.len(),
            forall|k: int| 0 <= k < a@.len() ==> #[trigger] all[k] == a@[k]@,
            row@.len() == i,
            forall|k: int| 0 <= k < i ==> (#[trigger] row@[k])@ == all[k],
            forall|k: int| 0 <= k < i ==> (#[trigger] all[k]).is_number(),
        decreases a@.len() - i,
    {
        assert(all[i as int] == a@[i as int]@);
        match a[i].as_number() {
            Some(n) => {
                row.push(n);
            },
            None => {
                assert(!j@->Array_0[i as int].is_number());
                return None;
            },
        }
        i = i + 1;
    }
    assert(row@.map_values(|n: Number| n@) =~= all);
    Some(row)
}

fn read_rows(j: &Json) -> (r: Option<Vec<Vec<Number>>>)
    ensures
        match r {
            Some(rows) => is_rows(j@) && rows_view(rows@) == j@,
            None => !is_rows(j@),
        },
{
    let a = match j.as_array() {
        Some(a) => a,
        None => return None,
    };
    let ghost all = docs(a@);
    proof {
        lemma_docs(a@);
    }
    let mut rows: Vec<Vec<Number>> = Vec::new();
    let mut i: usize = 0;
    while i < a.len()
        invariant
            i <= a@.len(),
            j@ == Doc::Array(all),
            all.len() == a@.len(),
            forall|k: int| 0 <= k < a@.len() ==> #[trigger] all[k] == a@[k]@,
            rows@.len() == i,
            forall|k: int| 0 <= k < i ==> row_view(#[trigger] rows@[k]) == all[k],
            forall|k: int| 0 <= k < i ==> is_row(#[trigger] all[k]),
        decreases a@.len() - i,
    {
        assert(all[i as int] == a@[i as int]@);
        match read_row(&a[i]) {
            Some(row) => {
                rows.push(row);
            },
            None => {
                assert(!is_row(j@->Array_0[i as int]));
                return None;
            },
        }
        i = i + 1;
    }
    assert(rows@.map_values(|row: Vec<Number>| row_view(row)) =~= all);
    Some(rows)
}

/// The embeddings in an answer.
pub fn embeddings(answer: Answer) -> (r: Result<Vec<Vec<Number>>, Error>)
    ensures
        gives(answer, r),
{
    match answer {
        Answer::Unreachable(why) => Err(Error::Http(why)),
        Answer::Refused(_, why) => Err(Error::Http(why)),
        Answer::Unreadable(why) => Err(Error::Http(why)),
        Answer::Document(d) => match d.get("embeddings") {
            Some(j) => match read_rows(j) {
                Some(rows) => Ok(rows),
                None => Err(Error::EmbedAnswer),
            },
            None => Err(Error::EmbedAnswer),
        },
    }
}

impl Ollama {
    /// The model `model` of the Ollama at `endpoint`.
    pub fn new(endpoint: &str, model: &str) -> (r: Ollama)
        ensures
            r.endpoint@ == without_trailing_slashes(endpoint@),
            r.model@ == model@,
            r.dim == 0,
    {
        Ollama { endpoint: trim_slashes(endpoint), model: model.to_owned(), dim: 0 }
    }

    /// The request for the embeddings of `texts`.
    pub open spec fn embed_call(self, texts: Seq<String>, role: Role) -> Call {
        Call {
            method: Method::Post,
            url: self.endpoint@ + "/api/embed"@,
            body: Some(
                Doc::Object(
                    Map::<Seq<char>, Doc>::empty().insert("model"@, Doc::Str(self.model@)).insert(
                        "input"@,
                        Doc::Array(prompt_docs(texts, role)),
                    ),
                ),
            ),
            reads: Reads::DocumentOrClientError,
        }
    }

    /// The request for the embeddings of `texts`.
    pub fn embed(&self, texts: &[String], role: Role) -> (r: Request)
        ensures
            r@ == self.embed_call(texts@, role),
    {
        let mut url = self.endpoint.clone();
        url.append("/api/embed");
        let input = prompts(texts, role);
        let body = Json::Object(
            StrMap::empty().set("model", Json::text(self.model.as_str())).set("input", text_array(&input)),
        );
        proof {
            assert(crate::filter::texts(input@) =~= prompt_docs(texts@, role));
        }
        Request { method: Method::Post, url, body: Some(body), reads: Reads::DocumentOrClientError }
    }

    /// What came of a request for embeddings: the rows in its answer. The dimension is learned
    /// from them; after a failure, or where there are none, what was known stays.
    pub fn embedded(&mut self, answer: Answer) -> (r: Result<Vec<Vec<Number>>, Error>)
        ensures
            gives(answer, r),
            final(self).endpoint == old(self).endpoint,
            final(self).model == old(self).model,
            final(self).dim == match r {
                Ok(rows) => if rows@.len() > 0 {
                    rows@[0]@.len()
                } else {
                    old(self).dim as nat
                },
                Err(_) => old(self).dim as nat,
            },
    {
        let r = embeddings(answer);
        if let Ok(rows) = &r {
            self.learn(rows);
        }
        r
    }

    /// Learns the dimension from vectors that came; where none came, what was known stays.
    pub fn learn<T>(&mut self, vectors: &Vec<Vec<T>>)
        ensures
            final(self).endpoint == old(self).endpoint,
            final(self).model == old(self).model,
            final(self).dim == match first_len(vectors@) {
                Some(n) => n,
                None => old(self).dim as nat,
            },
    {
        if !vectors.is_empty() {
            self.dim = vectors[0].len();
        }
    }
}

/// Embeddings come of a document that holds them, and of no other answer: an answer that came
/// to nothing is a failure in the words that came with it.
pub proof fn only_a_document_gives_embeddings(
    status: crate::error::Status,
    why: String,
    r: Result<Vec<Vec<Number>>, Error>,
)
    requires
        gives(Answer::Unreachable(why), r) || gives(Answer::Refused(status, why), r) || gives(
            Answer::Unreadable(why),
            r,
        ),
    ensures
        r == Err::<Vec<Vec<Number>>, Error>(Error::Http(why)),
{
}

/// A document gives its embeddings number by number and in their order, wherever they are an
/// array of arrays of numbers, and where they are not it is a failure.
pub proof fn embeddings_are_given_in_their_order(
    d: Json,
    r: Result<Vec<Vec<Number>>, Error>,
    i: int,
    j: int,
)
    requires
        gives(Answer::Document(d), r),
    ensures
        ({
            let e = d@.at("embeddings"@);
            &&& r is Ok <==> e is Array && forall|a: int|
                0 <= a < e->Array_0.len() ==> (#[trigger] e->Array_0[a]) is Array && forall|b: int|
                    0 <= b < e->Array_0[a]->Array_0.len() ==> {
                        let n = #[trigger] e->Array_0[a]->Array_0[b];
                        n is Int || n is Float
                    }
            &&& r is Err ==> r == Err::<Vec<Vec<Number>>, Error>(Error::EmbedAnswer)
            &&& r is Ok ==> r->Ok_0@.len() == e->Array_0.len()
            &&& r is Ok && 0 <= i < e->Array_0.len() ==> r->Ok_0@[i]@.len()
                == e->Array_0[i]->Array_0.len()
            &&& r is Ok && 0 <= i < e->Array_0.len() && 0 <= j < e->Array_0[i]->Array_0.len()
                ==> r->Ok_0@[i]@[j]@ == e->Array_0[i]->Array_0[j]
        }),
{
    let e = d@.at("embeddings"@);
    if e is Array {
        assert forall|a: int| 0 <= a < e->Array_0.len() implies (is_row(#[trigger] e->Array_0[a]) <==> (
        e->Array_0[a] is Array && forall|b: int|
            0 <= b < e->Array_0[a]->Array_0.len() ==> {
                let n = #[trigger] e->Array_0[a]->Array_0[b];
                n is Int || n is Float
            })) by {}
    }
    if r is Ok && 0 <= i < e->Array_0.len() {
        let rows = r->Ok_0@;
        assert(rows_view(rows)->Array_0[i] == row_view(rows[i]));
    }
}

} // verus!
