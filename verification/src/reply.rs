//! What requests are answered with.

use vstd::prelude::*;
use vstd::string::*;

verus! {

/// An error as a client sees it.
#[derive(Debug)]
pub struct ErrorReply {
    pub code: String,
    pub message: String,
    pub status: u16,
}

/// What an error says, as plain values.
pub struct ErrorView {
    pub code: Seq<char>,
    pub message: Seq<char>,
    pub status: u16,
}

impl View for ErrorReply {
    type V = ErrorView;

    open spec fn view(&self) -> ErrorView {
        ErrorView { code: self.code@, message: self.message@, status: self.status }
    }
}

/// The error with the given code, message and status.
pub open spec fn error(code: Seq<char>, message: Seq<char>, status: u16) -> ErrorView {
    ErrorView { code, message, status }
}

/// The number of the HTTP status that a number stands for, if it stands for
/// one.
///
/// Calls `StatusCode::from_u16`. Claimed: exactly the numbers from 100 to 999
/// stand for a status, and each for the one with that number.
#[verifier::external_body]
fn http_status(status: u16) -> (r: Option<u16>)
    ensures
        r == (if 100 <= status <= 999 {
            Some(status)
        } else {
            None::<u16>
        }),
{
    match actix_web::http::StatusCode::from_u16(status) {
        Ok(code) => Some(code.as_u16()),
        Err(_) => None,
    }
}

/// Makes an error reply. A number that stands for no HTTP status becomes that
/// of an internal error.
pub fn json_error(code: &str, message: String, status: u16) -> (r: ErrorReply)
    ensures
        r@ == error(
            code@,
            message@,
            if 100 <= status <= 999 {
                status
            } else {
                500
            },
        ),
{
    let status = match http_status(status) {
        Some(number) => number,
        None => 500,
    };
    ErrorReply { code: code.to_owned(), message, status }
}

/// A header of a response.
#[derive(Debug)]
pub struct HeaderLine {
    pub name: String,
    pub value: String,
}

/// The status and the headers of a response whose body is not an error.
#[derive(Debug)]
pub struct ResponseHead {
    pub status: u16,
    pub headers: Vec<HeaderLine>,
}

/// The status and the headers of a response, as plain values.
pub struct HeadView {
    pub status: u16,
    pub headers: Seq<(Seq<char>, Seq<char>)>,
}

impl View for HeaderLine {
    type V = (Seq<char>, Seq<char>);

    open spec fn view(&self) -> (Seq<char>, Seq<char>) {
        (self.name@, self.value@)
    }
}

impl View for ResponseHead {
    type V = HeadView;

    open spec fn view(&self) -> HeadView {
        HeadView {
            status: self.status,
            headers: Seq::new(self.headers@.len(), |i: int| self.headers@[i]@),
        }
    }
}

impl ResponseHead {
    /// A response without headers.
    pub fn new(status: u16) -> (r: ResponseHead)
        ensures
            r@ == (HeadView { status, headers: Seq::empty() }),
    {
        let r = ResponseHead { status, headers: Vec::new() };
        assert(r@.headers == Seq::<(Seq<char>, Seq<char>)>::empty());
        r
    }

    /// Adds a header behind those that are there.
    pub fn add(&mut self, name: &str, value: String)
        ensures
            final(self)@ == (HeadView {
                status: old(self)@.status,
                headers: old(self)@.headers.push((name@, value@)),
            }),
    {
        self.headers.push(HeaderLine { name: name.to_owned(), value });
        assert(self@.headers == old(self)@.headers.push((name@, value@)));
    }
}

/// An error says the code, the message and the status that it was made with,
/// and a client sees just these.
pub proof fn law_errors_say_what_they_were_made_with(
    code: Seq<char>,
    message: Seq<char>,
    status: u16,
    reply: ErrorReply,
)
    ensures
        error(code, message, status).code == code,
        error(code, message, status).message == message,
        error(code, message, status).status == status,
        reply@ == error(code, message, status) <==> reply.code@ == code && reply.message@ == message
            && reply.status == status,
{
}

/// A response has the status and the header lines that it holds, in order.
pub proof fn law_responses_are_as_they_are_held(head: ResponseHead)
    ensures
        head@.status == head.status,
        head@.headers.len() == head.headers@.len(),
        forall|i: int|
            0 <= i < head.headers@.len() ==> #[trigger] head@.headers[i] == (
                head.headers@[i].name@,
                head.headers@[i].value@,
            ),
{
}

} // verus!
