//! The parts of HTTP that decisions rest on: which methods may be repeated, which
//! statuses are successes, and what a refused client is told.

use hyper::body::Bytes;
use vstd::prelude::*;

use crate::octets::{from_vec, octets};

verus! {

/// The methods that may be sent again after a failure, because doing so twice has
/// the effect of doing so once.
#[derive(Clone, Copy)]
pub enum RetriableMethod {
    Get,
    Head,
    Options,
    Put,
    Delete,
}

impl RetriableMethod {
    /// The method as it stands in a request line.
    pub open spec fn token(self) -> Seq<char> {
        match self {
            RetriableMethod::Get => "GET"@,
            RetriableMethod::Head => "HEAD"@,
            RetriableMethod::Options => "OPTIONS"@,
            RetriableMethod::Put => "PUT"@,
            RetriableMethod::Delete => "DELETE"@,
        }
    }
}

/// Whether `method`, as it stands in a request line, is one that may be repeated.
pub open spec fn retriable(method: Seq<char>) -> bool {
    exists|known: RetriableMethod| method == #[trigger] known.token()
}

/// `<hyper::Method as PartialEq<str>>::eq` on the constant of `hyper::Method` that
/// stands for `known`: whether `method` has exactly its characters.
#[verifier::external_body]
fn names_method(method: &str, known: RetriableMethod) -> (same: bool)
    ensures
        same == (method@ == known.token()),
{
    match known {
        RetriableMethod::Get => hyper::Method::GET == *method,
        RetriableMethod::Head => hyper::Method::HEAD == *method,
        RetriableMethod::Options => hyper::Method::OPTIONS == *method,
        RetriableMethod::Put => hyper::Method::PUT == *method,
        RetriableMethod::Delete => hyper::Method::DELETE == *method,
    }
}

/// Whether a request with this method may be sent again after a failure.
pub fn is_retriable(method: &str) -> (res: bool)
    ensures
        res == retriable(method@),
        res <==> method@ == "GET"@ || method@ == "HEAD"@ || method@ == "OPTIONS"@ || method@
            == "PUT"@ || method@ == "DELETE"@,
{
    names_method(method, RetriableMethod::Get)
        || names_method(method, RetriableMethod::Head)
        || names_method(method, RetriableMethod::Options)
        || names_method(method, RetriableMethod::Put)
        || names_method(method, RetriableMethod::Delete)
}

/// Whether `status` is a number that an HTTP status can be.
pub open spec fn valid_status(status: u16) -> bool {
    100 <= status < 1000
}

/// `hyper::StatusCode::is_success`, on the status that `hyper::StatusCode::from_u16`
/// makes of a number: `None` for a number that it refuses, and otherwise whether
/// the status is in the two hundreds.
#[verifier::external_body]
fn status_is_success(status: u16) -> (res: Option<bool>)
    ensures
        res == (if valid_status(status) {
            Some(200 <= status < 300)
        } else {
            None
        }),
{
    match hyper::StatusCode::from_u16(status) {
        Ok(code) => Some(code.is_success()),
        Err(_) => None,
    }
}

/// Whether a backend that answered a health check with this status passed it.
pub fn response_validator(status: u16) -> (passed: bool)
    ensures
        passed == (200 <= status < 300),
{
    match status_is_success(status) {
        Some(success) => success,
        None => false,
    }
}

/// A response that the balancer makes up itself, in place of a backend's.
pub struct ErrorResponse {
    pub status: u16,
    pub body: Bytes,
}

/// The status and the body of an [`ErrorResponse`].
#[verifier::ext_equal]
pub struct Reply {
    pub status: u16,
    pub body: Seq<u8>,
}

impl View for ErrorResponse {
    type V = Reply;

    open spec fn view(&self) -> Reply {
        Reply { status: self.status, body: octets(self.body) }
    }
}

/// A reply with `message` as its text.
pub open spec fn reply(status: u16, message: Seq<char>) -> Reply {
    Reply { status, body: vstd::utf8::encode_utf8(message) }
}

/// The methods that may be repeated are these five, written exactly so.
pub proof fn law_retriable_methods(method: Seq<char>)
    ensures
        retriable(method) <==> {
            ||| method == "GET"@
            ||| method == "HEAD"@
            ||| method == "OPTIONS"@
            ||| method == "PUT"@
            ||| method == "DELETE"@
        },
{
    assert(RetriableMethod::Get.token() == "GET"@);
    assert(RetriableMethod::Head.token() == "HEAD"@);
    assert(RetriableMethod::Options.token() == "OPTIONS"@);
    assert(RetriableMethod::Put.token() == "PUT"@);
    assert(RetriableMethod::Delete.token() == "DELETE"@);
}

/// A reply has the status that it was made with, and the text of its message, byte for
/// byte; and what is said of a reply is said of the response that is sent.
pub proof fn law_replies_say_what_they_are_given(
    status: u16,
    message: Seq<char>,
    response: ErrorResponse,
)
    ensures
        reply(status, message).status == status,
        reply(status, message).body == vstd::utf8::encode_utf8(message),
        response@.status == response.status,
        response@.body == octets(response.body),
{
}

/// A response with the given status and the message as its body.
pub fn error_response(status: u16, msg: &str) -> (res: ErrorResponse)
    requires
        valid_status(status),
    ensures
        res@ == reply(status, msg@),
        res.status == status,
        octets(res.body) == vstd::utf8::encode_utf8(msg@),
{
    let text: Vec<u8> = msg.as_bytes_vec();
    ErrorResponse { status, body: from_vec(text) }
}

} // verus!
