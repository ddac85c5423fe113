//! What can go wrong, and how it is said.
use vstd::prelude::*;
use vstd::string::StringExecFns;

verus! {

broadcast use vstd::string::group_string_axioms;

/// The status line of an answer: its code, and the text that stands for it in a message.
#[derive(Debug, Clone, PartialEq)]
pub struct Status {
    pub code: u16,
    pub text: String,
}

impl Status {
    /// Whether the code says that the request was served.
    pub open spec fn success(self) -> bool {
        200 <= self.code < 300
    }

    /// Whether the code says that the request was served.
    pub fn is_success(&self) -> (r: bool)
        ensures
            r == self.success(),
    {
        200 <= self.code && self.code < 300
    }

    /// Whether the code lays an error to the client or to the server.
    pub open spec fn error(self) -> bool {
        400 <= self.code < 600
    }

    /// Whether the code lays an error to the client or to the server.
    pub fn is_error(&self) -> (r: bool)
        ensures
            r == self.error(),
    {
        400 <= self.code && self.code < 600
    }
}

/// A failure of an embedder or of the store.
#[derive(Debug, Clone, PartialEq)]
pub enum Error {
    /// The store was opened without an embedder.
    NoEmbedder,
    /// The file of the embedding model, at this path, is not there.
    ModelNotFound(String),
    /// The file of the tokenizer, at this path, is not there.
    TokenizerNotFound(String),
    /// The tokenizer refused to be limited to the model's window, for this reason.
    Truncation(String),
    /// The tokenizer refused a text, for this reason.
    Tokenizing(String),
    /// The model's output has no shape.
    NoShape,
    /// The model's output is smaller than one row of it.
    OutputTooSmall,
    /// The model's rows are empty.
    EmptyVector,
    /// Ollama's answer holds no rows of numbers.
    EmbedAnswer,
    /// No answer came, for this reason.
    Unreachable(String),
    /// The collection is absent and the embedder cannot say how long its vectors are.
    NoDimension,
    /// The embedder gave no vector for the query.
    NoQueryVector,
    /// The collection was not created.
    CreateRefused(Status),
    /// An upsert was refused, with this body.
    UpsertRefused(Status, String),
    /// A search was refused.
    SearchRefused(Status),
    /// A scroll was refused, with this body.
    ScrollRefused(Status, String),
    /// A delete by id was refused.
    DeleteByIdRefused(Status),
    /// A delete was refused.
    DeleteRefused(Status),
    /// A payload merge was refused, with this body.
    SetPayloadRefused(Status, String),
    /// An answer that could not be used, in the words of the HTTP client.
    Http(String),
}

/// What is said of a refusal: what was refused and the status.
pub open spec fn refusal(what: Seq<char>, status: Status) -> Seq<char> {
    what + ": "@ + status.text@
}

/// What is said of a refusal that came with a body.
pub open spec fn refusal_with(what: Seq<char>, status: Status, body: Seq<char>) -> Seq<char> {
    what + ": "@ + status.text@ + " "@ + body
}

fn say_refusal(what: &str, status: &Status) -> (r: String)
    ensures
        r@ == refusal(what@, *status),
{
    let mut s = what.to_owned();
    s.append(": ");
    s.append(status.text.as_str());
    s
}

fn say_refusal_with(what: &str, status: &Status, body: &str) -> (r: String)
    ensures
        r@ == refusal_with(what@, *status, body@),
{
    let mut s = say_refusal(what, status);
    s.append(" ");
    s.append(body);
    s
}

fn join(a: &str, b: &str, c: &str) -> (r: String)
    ensures
        r@ == a@ + b@ + c@,
{
    let mut s = a.to_owned();
    s.append(b);
    s.append(c);
    s
}

impl Error {
    /// What is said of this failure.
    pub open spec fn words(self) -> Seq<char> {
        match self {
            Error::NoEmbedder => "this store was opened without an embedder"@,
            Error::ModelNotFound(path) => "embedding model "@ + path@ + " not found"@,
            Error::TokenizerNotFound(path) => "tokenizer "@ + path@ + " not found"@,
            Error::Truncation(why) => "tokenizer truncation: "@ + why@,
            Error::Tokenizing(why) => "tokenizing: "@ + why@,
            Error::NoShape => "embedding output has no shape"@,
            Error::OutputTooSmall => "embedding output too small"@,
            Error::EmptyVector => "embedding model produced an empty vector"@,
            Error::EmbedAnswer => "ollama embed answer"@,
            Error::Unreachable(_) => "qdrant unreachable"@,
            Error::NoDimension => "the embedder has no dimension yet"@,
            Error::NoQueryVector => "no query vector"@,
            Error::CreateRefused(status) => refusal("creating collection"@, status),
            Error::UpsertRefused(status, body) => refusal_with("upsert"@, status, body@),
            Error::SearchRefused(status) => refusal("search"@, status),
            Error::ScrollRefused(status, body) => refusal_with("scroll"@, status, body@),
            Error::DeleteByIdRefused(status) => refusal("delete by id"@, status),
            Error::DeleteRefused(status) => refusal("delete"@, status),
            Error::SetPayloadRefused(status, body) => refusal_with("set payload"@, status, body@),
            Error::Http(why) => why@,
        }
    }

    /// What is said of this failure.
    pub fn message(&self) -> (r: String)
        ensures
            r@ == self.words(),
    {
        match self {
            Error::NoEmbedder => "this store was opened without an embedder".to_owned(),
            Error::ModelNotFound(path) => join("embedding model ", path.as_str(), " not found"),
            Error::TokenizerNotFound(path) => join("tokenizer ", path.as_str(), " not found"),
            Error::Truncation(why) => "tokenizer truncation: ".to_owned().concat(why.as_str()),
            Error::Tokenizing(why) => "tokenizing: ".to_owned().concat(why.as_str()),
            Error::NoShape => "embedding output has no shape".to_owned(),
            Error::OutputTooSmall => "embedding output too small".to_owned(),
            Error::EmptyVector => "embedding model produced an empty vector".to_owned(),
            Error::EmbedAnswer => "ollama embed answer".to_owned(),
            Error::Unreachable(_) => "qdrant unreachable".to_owned(),
            Error::NoDimension => "the embedder has no dimension yet".to_owned(),
            Error::NoQueryVector => "no query vector".to_owned(),
            Error::CreateRefused(status) => say_refusal("creating collection", status),
            Error::UpsertRefused(status, body) => say_refusal_with("upsert", status, body.as_str()),
            Error::SearchRefused(status) => say_refusal("search", status),
            Error::ScrollRefused(status, body) => say_refusal_with("scroll", status, body.as_str()),
            Error::DeleteByIdRefused(status) => say_refusal("delete by id", status),
            Error::DeleteRefused(status) => say_refusal("delete", status),
            Error::SetPayloadRefused(status, body) => say_refusal_with(
                "set payload",
                status,
                body.as_str(),
            ),
            Error::Http(why) => why.clone(),
        }
    }
}

/// A request is served by a code of two hundred and some, and one of four or five hundred and
/// some is an error.
pub proof fn a_code_tells_by_its_hundreds(status: Status)
    ensures
        status.success() <==> status.code / 100 == 2,
        status.error() <==> status.code / 100 == 4 || status.code / 100 == 5,
{
}

/// What is said of a refusal is what was refused, the status and, where the body of the refusal
/// was read, that body.
pub proof fn a_refusal_says_what_and_why(status: Status, body: String)
    ensures
        Error::CreateRefused(status).words() == "creating collection"@ + ": "@ + status.text@,
        Error::SearchRefused(status).words() == "search"@ + ": "@ + status.text@,
        Error::DeleteByIdRefused(status).words() == "delete by id"@ + ": "@ + status.text@,
        Error::DeleteRefused(status).words() == "delete"@ + ": "@ + status.text@,
        Error::UpsertRefused(status, body).words() == "upsert"@ + ": "@ + status.text@ + " "@ + body@,
        Error::ScrollRefused(status, body).words() == "scroll"@ + ": "@ + status.text@ + " "@ + body@,
        Error::SetPayloadRefused(status, body).words() == "set payload"@ + ": "@ + status.text@ + " "@
            + body@,
{
}

/// What is said of a failure that has a reason of its own holds that reason, except that a store
/// that cannot be reached is said to be just that.
pub proof fn a_failure_says_its_reason(why: String)
    ensures
        Error::ModelNotFound(why).words() == "embedding model "@ + why@ + " not found"@,
        Error::TokenizerNotFound(why).words() == "tokenizer "@ + why@ + " not found"@,
        Error::Truncation(why).words() == "tokenizer truncation: "@ + why@,
        Error::Tokenizing(why).words() == "tokenizing: "@ + why@,
        Error::Http(why).words() == why@,
        Error::Unreachable(why).words() == "qdrant unreachable"@,
{
}

/// What is said of the failures that need no reason.
pub proof fn a_plain_failure_says_what_it_is()
    ensures
        Error::NoEmbedder.words() == "this store was opened without an embedder"@,
        Error::NoShape.words() == "embedding output has no shape"@,
        Error::OutputTooSmall.words() == "embedding output too small"@,
        Error::EmptyVector.words() == "embedding model produced an empty vector"@,
        Error::EmbedAnswer.words() == "ollama embed answer"@,
        Error::NoDimension.words() == "the embedder has no dimension yet"@,
        Error::NoQueryVector.words() == "no query vector"@,
{
}

} // verus!
