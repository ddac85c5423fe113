//! Embedders: what is handed to one, and what is made of what it hands back.
use vstd::prelude::*;
use vstd::string::StringExecFns;

use crate::error::Error;

verus! {

broadcast use vstd::string::group_string_axioms;

/// Which side of retrieval a text is on. bge's documented retrieval instruction is prefixed
/// to a query and never to a document.
#[derive(Debug, Clone, Copy, PartialEq, Eq, Structural)]
pub enum Role {
    Document,
    Query,
}

/// The bge retrieval instruction, from the model card.
pub const QUERY_INSTRUCTION: &'static str = "Represent this sentence for searching relevant passages: ";

/// No embedder: for a store that is only counted or pruned. A search and an upsert fail; so
/// does opening an absent collection, because the dimension cannot be known.
#[derive(Debug, Clone, Copy)]
pub struct NoEmbed;

impl NoEmbed {
    /// How long the vectors are: not known.
    pub fn dim(&self) -> (r: usize)
        ensures
            r == 0,
    {
        0
    }

    pub fn name(&self) -> (r: &'static str)
        ensures
            r@ == "none"@,
    {
        "none"
    }

    /// Embeds nothing, whatever the texts.
    pub fn embed<T>(&self, texts: &[String], role: Role) -> (r: Result<Vec<Vec<T>>, Error>)
        ensures
            r == Err::<Vec<Vec<T>>, Error>(Error::NoEmbedder),
    {
        Err(Error::NoEmbedder)
    }
}

/// What the model is given for `text`.
pub open spec fn prompt_of(text: Seq<char>, role: Role) -> Seq<char> {
    match role {
        Role::Query => QUERY_INSTRUCTION@ + text,
        Role::Document => text,
    }
}

/// What the model is given for `text`: a query with the retrieval instruction before it, a
/// document as it is.
pub fn prompt(text: &str, role: Role) -> (r: String)
    ensures
        r@ == prompt_of(text@, role),
{
    match role {
        Role::Query => {
            let mut s = QUERY_INSTRUCTION.to_owned();
            s.append(text);
            s
        },
        Role::Document => text.to_owned(),
    }
}

/// What the model is given for each of `texts`.
pub fn prompts(texts: &[String], role: Role) -> (r: Vec<String>)
    ensures
        r@.len() == texts@.len(),
        forall|i: int| 0 <= i < r@.len() ==> (#[trigger] r@[i])@ == prompt_of(texts@[i]@, role),
{
    let mut out: Vec<String> = Vec::new();
    let mut i: usize = 0;
    while i < texts.len()
        invariant
            i <= texts@.len(),
            out@.len() == i,
            forall|j: int| 0 <= j < i ==> (#[trigger] out@[j])@ == prompt_of(texts@[j]@, role),
        decreases texts@.len() - i,
    {
        out.push(prompt(texts[i].as_str(), role));
        i = i + 1;
    }
    out
}

/// What a model that takes one text at a time is given next, once so many of `texts` have
/// their vectors: texts are taken in their order, one vector to each, and none is left once
/// there are as many vectors as texts.
pub open spec fn next_of(texts: Seq<String>, role: Role, vectors: nat) -> Option<Seq<char>> {
    if vectors < texts.len() {
        Some(prompt_of(texts[vectors as int]@, role))
    } else {
        None
    }
}

/// What a model that takes one text at a time is given next, once `vectors` came of the first
/// of `texts`.
pub fn next_prompt<T>(texts: &[String], role: Role, vectors: &Vec<Vec<T>>) -> (r: Option<String>)
    ensures
        match r {
            Some(p) => next_of(texts@, role, vectors@.len()) == Some(p@),
            None => next_of(texts@, role, vectors@.len()) is None,
        },
{
    if vectors.len() < texts.len() {
        Some(prompt(texts[vectors.len()].as_str(), role))
    } else {
        None
    }
}

/// How many vectors there are once no text is left, `vectors` having come so far.
pub open spec fn vectors_in_the_end(texts: Seq<String>, role: Role, vectors: nat) -> nat
    decreases texts.len() - vectors,
{
    match next_of(texts, role, vectors) {
        Some(_) => vectors_in_the_end(texts, role, vectors + 1),
        None => vectors,
    }
}

/// Taken one at a time from the first, the texts get one vector each.
pub proof fn each_text_gets_one_vector(texts: Seq<String>, role: Role)
    ensures
        vectors_in_the_end(texts, role, 0) == texts.len(),
{
    lemma_each_text_left_gets_one(texts, role, 0);
}

proof fn lemma_each_text_left_gets_one(texts: Seq<String>, role: Role, vectors: nat)
    requires
        vectors <= texts.len(),
    ensures
        vectors_in_the_end(texts, role, vectors) == texts.len(),
    decreases texts.len() - vectors,
{
    if vectors < texts.len() {
        lemma_each_text_left_gets_one(texts, role, vectors + 1);
    }
}

/// How long the vectors of a row are: as long as its first.
pub open spec fn first_len<T>(vectors: Seq<Vec<T>>) -> Option<nat> {
    if vectors.len() == 0 {
        None
    } else {
        Some(vectors[0]@.len())
    }
}

/// The instruction stands before a query and never before a document.
pub proof fn the_instruction_stands_before_queries_only(text: Seq<char>)
    ensures
        prompt_of(text, Role::Document) == text,
        prompt_of(text, Role::Query)
            == "Represent this sentence for searching relevant passages: "@ + text,
{
}

/// A model that takes one text at a time is given the texts in their order, each with its own
/// prompt, and nothing once every text has its vector.
pub proof fn texts_are_taken_in_their_order(texts: Seq<String>, role: Role, vectors: nat)
    ensures
        next_of(texts, role, vectors) is Some <==> vectors < texts.len(),
        vectors < texts.len() && role is Document ==> next_of(texts, role, vectors) == Some(
            texts[vectors as int]@,
        ),
        vectors < texts.len() && role is Query ==> next_of(texts, role, vectors) == Some(
            "Represent this sentence for searching relevant passages: "@ + texts[vectors as int]@,
        ),
{
}

/// The dimension of a row of vectors is told by its first, and by none where there is none.
pub proof fn the_first_vector_tells_the_dimension<T>(vectors: Seq<Vec<T>>)
    ensures
        first_len(vectors) is Some <==> vectors.len() > 0,
        vectors.len() > 0 ==> first_len(vectors) == Some(vectors[0]@.len()),
{
}

} // verus!
