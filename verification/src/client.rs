//! The client: construction, preparation of the one HTTPS request a send
//! issues, and interpretation of what came back.
//!
//! The transport round trip itself (the only suspension point of a send) is
//! the calling program's: it takes a prepared `HttpRequest`, performs the
//! POST, and hands the outcome — a status and body, or a transport failure —
//! to `complete_send`.

use vstd::prelude::*;
use crate::error::Error;
use crate::json::{render, spec_render, JVal};
use crate::parse::spec_parse_id_object;
use crate::wire::OutboundEmail;
use crate::{Email, ResendClient};

verus! {

/// The fixed service endpoint.
pub open spec fn spec_api_url() -> Seq<char> {
    "https://api.resend.com/emails"@
}

/// The mathematical model of a prepared request.
pub struct HttpRequestView {
    pub url: Seq<char>,
    pub method: Seq<char>,
    pub bearer_token: Seq<char>,
    pub content_type: Seq<char>,
    pub body: Seq<char>,
}

/// One prepared HTTPS request: everything the transport needs to issue it.
#[derive(Debug)]
pub struct HttpRequest {
    pub url: String,
    pub method: String,
    pub bearer_token: String,
    pub content_type: String,
    pub body: String,
}

impl View for HttpRequest {
    type V = HttpRequestView;

    open spec fn view(&self) -> HttpRequestView {
        HttpRequestView {
            url: self.url@,
            method: self.method@,
            bearer_token: self.bearer_token@,
            content_type: self.content_type@,
            body: self.body@,
        }
    }
}

/// A response the transport received: its status code and its body text.
#[derive(Debug)]
pub struct HttpResponse {
    pub status: u16,
    pub body: String,
}

/// The request a client with `token` prepares for the payload document
/// `doc`: a POST of the rendered document to the fixed endpoint, with the
/// token as bearer credential and a JSON content type.
pub open spec fn spec_request(token: Seq<char>, doc: JVal) -> HttpRequestView {
    HttpRequestView {
        url: spec_api_url(),
        method: "POST"@,
        bearer_token: token,
        content_type: "application/json"@,
        body: spec_render(doc),
    }
}

/// The HTTP success class.
pub open spec fn is_success_status(status: u16) -> bool {
    200 <= status < 300
}

/// What a send returns for a response with `status` and `body`: the parsed
/// identifier on a success status with a well-formed success document; a
/// `Decode` error carrying the body verbatim on a success status otherwise;
/// a `Service` error carrying the body verbatim on any other status.
pub open spec fn send_result_matches(status: u16, body: Seq<char>, r: Result<Email, Error>) -> bool {
    &&& (is_success_status(status) && spec_parse_id_object(body) is Some ==> r is Ok && r->Ok_0@
        == spec_parse_id_object(body)->Some_0)
    &&& (is_success_status(status) && spec_parse_id_object(body) is None ==> (r matches Err(
        Error::Decode(d),
    ) && d@ == body))
    &&& (!is_success_status(status) ==> (r matches Err(Error::Service(d)) && d@ == body))
}

impl ResendClient {
    /// Creates a new client that authenticates with `auth_token`, stored
    /// verbatim. Pure value construction; cannot fail.
    pub fn new(auth_token: String) -> (c: Self)
        ensures
            c.token() == auth_token@,
    {
        ResendClient { auth_token }
    }

    /// Prepares the one request a send of `mail` issues. Never fails: no
    /// payload is rejected locally.
    pub fn prepare<M: OutboundEmail>(&self, mail: &M) -> (r: HttpRequest)
        ensures
            r@ == spec_request(self.token(), mail.wire_view()),
    {
        let doc = mail.to_wire();
        let body = render(&doc);
        HttpRequest {
            url: "https://api.resend.com/emails".to_owned(),
            method: "POST".to_owned(),
            bearer_token: self.auth_token.clone(),
            content_type: "application/json".to_owned(),
            body,
        }
    }
}

/// Interprets a received response. On the success class the body must be
/// the success document; its identifier is returned. On any other status
/// the body is carried back verbatim as a service error.
pub fn interpret_response(status: u16, body: String) -> (r: Result<Email, Error>)
    ensures
        send_result_matches(status, body@, r),
{
    if 200 <= status && status < 300 {
        match crate::parse::parse_id_object(body.as_str()) {
            Some(id) => Ok(Email { id }),
            None => Err(Error::Decode(body)),
        }
    } else {
        Err(Error::Service(body))
    }
}

/// Completes a send from the transport's outcome. A transport failure
/// becomes a `Transport` error carrying the transport's description; a
/// received response is interpreted by `interpret_response`. Exactly one of
/// success or error is produced; nothing panics, so a failed send never
/// takes the caller down and the client stays reusable.
pub fn complete_send(outcome: Result<HttpResponse, String>) -> (r: Result<Email, Error>)
    ensures
        (outcome matches Err(e) ==> (r matches Err(Error::Transport(d)) && d@ == e@)),
        (outcome matches Ok(resp) ==> send_result_matches(resp.status, resp.body@, r)),
{
    match outcome {
        Ok(resp) => interpret_response(resp.status, resp.body),
        Err(e) => Err(Error::Transport(e)),
    }
}

/// A response of the success class whose body is the rendered success
/// document yields exactly that document's identifier: what the service
/// serializes, a send reads back.
pub proof fn lemma_send_reads_back_rendered_id(status: u16, id: Seq<char>, r: Result<Email, Error>)
    requires
        is_success_status(status),
        send_result_matches(status, spec_render(crate::parse::spec_id_object(id)), r),
    ensures
        r is Ok && r->Ok_0@ == id,
{
    crate::parse::lemma_success_body_round_trip(id);
}

/// Construction is idempotent: two clients built from the same token are
/// observably identical — for every payload document they prepare the very
/// same request.
pub proof fn lemma_construction_idempotent(c1: ResendClient, c2: ResendClient, doc: JVal)
    requires
        c1.token() == c2.token(),
    ensures
        spec_request(c1.token(), doc) == spec_request(c2.token(), doc),
{
}

/// Concurrent sends on different clients cannot cross-contaminate: every
/// request a client prepares carries that client's own token as its bearer
/// credential, whatever the payloads are.
pub proof fn lemma_no_cross_contamination(c1: ResendClient, c2: ResendClient, d1: JVal, d2: JVal)
    ensures
        spec_request(c1.token(), d1).bearer_token == c1.token(),
        spec_request(c2.token(), d2).bearer_token == c2.token(),
{
}

} // verus!
