//! Requests over HTTP, and what comes back.
use vstd::prelude::*;

use crate::error::Status;
use crate::json::Doc;
use crate::json::Json;

verus! {

#[derive(Debug, Clone, Copy, PartialEq, Eq, Structural)]
pub enum Method {
    Get,
    Put,
    Post,
}

/// How much of the answer to a request is read.
#[derive(Debug, Clone, Copy, PartialEq, Eq, Structural)]
pub enum Reads {
    /// The status alone.
    Status,
    /// The status, and the body of a refusal as text.
    RefusalText,
    /// The document of an answer that serves the request.
    Document,
    /// The document of an answer that serves the request, and the body of a refusal as text.
    DocumentOrRefusalText,
    /// The document, unless the status is that of an error, and then what the HTTP client says
    /// of it.
    DocumentOrClientError,
}

/// What is read of a body.
#[derive(Debug, Clone, Copy, PartialEq, Eq, Structural)]
pub enum Body {
    /// Nothing.
    Nothing,
    /// The body as text.
    Text,
    /// The body as a document.
    Document,
    /// Nothing, but what the HTTP client says of the status.
    ClientError,
}

impl Reads {
    /// What is read of the body of an answer with this status.
    pub fn body(&self, status: &Status) -> (r: Body)
        ensures
            r == match *self {
                Reads::Status => Body::Nothing,
                Reads::RefusalText => if status.success() {
                    Body::Nothing
                } else {
                    Body::Text
                },
                Reads::Document => if status.success() {
                    Body::Document
                } else {
                    Body::Nothing
                },
                Reads::DocumentOrRefusalText => if status.success() {
                    Body::Document
                } else {
                    Body::Text
                },
                Reads::DocumentOrClientError => if status.error() {
                    Body::ClientError
                } else {
                    Body::Document
                },
            },
    {
        match (self, status.is_success()) {
            (Reads::Status, _) | (Reads::RefusalText, true) | (Reads::Document, false) => Body::Nothing,
            (Reads::RefusalText, false) | (Reads::DocumentOrRefusalText, false) => Body::Text,
            (Reads::Document, true) | (Reads::DocumentOrRefusalText, true) => Body::Document,
            (Reads::DocumentOrClientError, _) => if status.is_error() {
                Body::ClientError
            } else {
                Body::Document
            },
        }
    }
}

/// A request.
#[derive(Debug, Clone, PartialEq)]
pub struct Request {
    pub method: Method,
    pub url: String,
    pub body: Option<Json>,
    pub reads: Reads,
}

/// A request, as contracts speak of it.
#[verifier::ext_equal]
pub struct Call {
    pub method: Method,
    pub url: Seq<char>,
    pub body: Option<Doc>,
    pub reads: Reads,
}

impl View for Request {
    type V = Call;

    open spec fn view(&self) -> Call {
        Call {
            method: self.method,
            url: self.url@,
            body: match self.body {
                Some(j) => Some(j@),
                None => None,
            },
            reads: self.reads,
        }
    }
}

/// What came of a request whose status decides.
#[derive(Debug, Clone, PartialEq)]
pub enum Reply {
    /// No answer came, for this reason.
    Unreachable(String),
    /// An answer with this status, and with this text where the text of a refusal is read.
    Answered(Status, String),
}

/// What came of a request whose document is wanted.
#[derive(Debug, Clone, PartialEq)]
pub enum Answer {
    /// No answer came, for this reason.
    Unreachable(String),
    /// A refusal: its status, and its text where one is read.
    Refused(Status, String),
    /// The answer is no document, in the words of the HTTP client.
    Unreadable(String),
    /// The document.
    Document(Json),
}

/// What came of sending a request once.
#[derive(Debug, Clone, Copy, PartialEq, Eq, Structural)]
pub enum Sent {
    /// An answer came.
    Answered,
    /// Sending failed: whether while connecting, and whether while the request was under way.
    Failed { connecting: bool, requesting: bool },
}

/// How often a request has been sent.
#[derive(Debug, Clone, Copy, PartialEq, Eq, Structural)]
pub enum Attempt {
    First,
    Second,
}

/// What is done after a request was sent.
#[derive(Debug, Clone, Copy, PartialEq, Eq, Structural)]
pub enum Next {
    /// Hand the answer on.
    Deliver,
    /// Send the request once more.
    Retry,
    /// Report that no answer came.
    GiveUp,
}

/// What is done after a request was sent.
pub open spec fn next(attempt: Attempt, repeatable: bool, sent: Sent) -> Next {
    match sent {
        Sent::Answered => Next::Deliver,
        Sent::Failed { connecting, requesting } => if attempt is First && repeatable && (connecting
            || requesting) {
            Next::Retry
        } else {
            Next::GiveUp
        },
    }
}

/// What is done after a request was sent: one send, retried once on a transport error. A
/// keep-alive connection that was closed between two calls fails the next request before any
/// byte is answered, and that is not the request's fault. `repeatable` is whether the request
/// can be sent a second time at all.
pub fn after_send(attempt: Attempt, repeatable: bool, sent: Sent) -> (r: Next)
    ensures
        r == next(attempt, repeatable, sent),
{
    match sent {
        Sent::Answered => Next::Deliver,
        Sent::Failed { connecting, requesting } => match attempt {
            Attempt::First => if repeatable && (connecting || requesting) {
                Next::Retry
            } else {
                Next::GiveUp
            },
            Attempt::Second => Next::GiveUp,
        },
    }
}

/// A request that was answered is never sent again.
pub proof fn an_answered_request_is_never_retried(attempt: Attempt, repeatable: bool)
    ensures
        next(attempt, repeatable, Sent::Answered) == Next::Deliver,
{
}

/// A request is sent at most twice, whatever comes of it.
pub proof fn a_request_is_sent_at_most_twice(repeatable: bool, sent: Sent)
    ensures
        next(Attempt::Second, repeatable, sent) != Next::Retry,
{
}

/// A request is sent again exactly where its first sending failed on the way, before any answer,
/// and it can be sent again; where it is not sent again and no answer came, that is reported.
pub proof fn a_request_is_repeated_once_on_a_transport_error(
    attempt: Attempt,
    repeatable: bool,
    sent: Sent,
)
    ensures
        next(attempt, repeatable, sent) == Next::Retry <==> {
            &&& attempt is First
            &&& repeatable
            &&& sent matches Sent::Failed { connecting, requesting } && (connecting || requesting)
        },
        next(attempt, repeatable, sent) == Next::Deliver <==> sent is Answered,
        next(attempt, repeatable, sent) == Next::GiveUp <==> sent is Failed && next(
            attempt,
            repeatable,
            sent,
        ) != Next::Retry,
{
}

/// The view of a request shows each of its parts.
pub proof fn a_view_shows_each_part(r: Request)
    ensures
        r@.method == r.method,
        r@.url == r.url@,
        r@.body is Some <==> r.body is Some,
        r.body is Some ==> r@.body->0 == r.body->0@,
        r@.reads == r.reads,
{
}

} // verus!
