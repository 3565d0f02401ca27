//! The request executor: translates a request specification into an
//! outbound call, honors cancellation, and normalizes the outcome.
//!
//! The outbound HTTP call itself is I/O and runs in the surrounding
//! application, raced against the cancellation signal of the handle that
//! `begin_request` installs in the execution slot.  Whichever side of
//! the race resolves first is reported back here as a
//! `TransportOutcome`, and `finish_request` classifies it into the one
//! terminal `ExecutionResult` of the invocation and releases the slot.

use vstd::prelude::*;
use vstd::slice::slice_to_vec;
use vstd::string::StringSliceAdditionalSpecFns;
use crate::document::{Header, HeaderV, headers_view};
use crate::slot::ExecutionSlot;

verus! {

/// The request methods the executor recognizes.
#[derive(Clone, Copy, PartialEq, Eq, Structural, Debug)]
pub enum Method {
    Get,
    Post,
    Put,
    Patch,
    Delete,
}

#[verifier::external_type_specification]
#[verifier::external_body]
pub struct ExJsonValue(serde_json::Value);

/// What `serde_json::from_slice::<serde_json::Value>` returns on the
/// given bytes: `Some` with the parsed structured value where they are
/// well-formed JSON, `None` where they are not.  The result depends on
/// the bytes alone.
pub uninterp spec fn json_parse_of(s: Seq<u8>) -> Option<serde_json::Value>;

/// Relies on `serde_json::from_slice::<serde_json::Value>`: parses the
/// bytes as a JSON document; the result is a function of the bytes
/// alone, and the call does not panic.
#[verifier::external_body]
fn parse_json_body(body: &Vec<u8>) -> (r: Option<serde_json::Value>)
    ensures
        r == json_parse_of(body@),
{
    serde_json::from_slice::<serde_json::Value>(body.as_slice()).ok()
}

/// One terminal result per invocation of the executor.
pub enum ExecutionResult {
    Success { status: u16, parsed_body: serde_json::Value },
    HttpError { status: u16 },
    TransportError { message: Vec<u8> },
    Cancelled,
}

/// What the race between the outbound call and the cancellation signal
/// resolved to, as observed by the surrounding application.
pub enum TransportOutcome {
    /// The call completed with a response.
    Response { status: u16, body: Vec<u8> },
    /// The call failed at the transport level (DNS, connect, timeout).
    Failure { message: Vec<u8> },
    /// The cancellation signal fired first.
    Cancelled,
}

/// An outbound call, validated and ready to dispatch: recognized
/// method, and only the headers that are applied.
pub struct PreparedRequest {
    pub method: Method,
    pub url: Vec<u8>,
    pub headers: Vec<Header>,
    pub body: Option<Vec<u8>>,
}

/// How an invocation of the executor begins.
pub enum BeginOutcome {
    /// Rejected before touching the slot or the transport.
    Rejected { result: ExecutionResult },
    /// The slot is acquired: the application must signal the token of
    /// `cancel_first` (if any), then race the prepared call against the
    /// cancellation signal of `handle`.
    Started { handle: u64, cancel_first: Option<u64>, prepared: PreparedRequest },
}

/// The recognized method named by the given bytes, if any.
pub open spec fn method_of(s: Seq<u8>) -> Option<Method> {
    if s == "GET".spec_bytes() {
        Some(Method::Get)
    } else if s == "POST".spec_bytes() {
        Some(Method::Post)
    } else if s == "PUT".spec_bytes() {
        Some(Method::Put)
    } else if s == "PATCH".spec_bytes() {
        Some(Method::Patch)
    } else if s == "DELETE".spec_bytes() {
        Some(Method::Delete)
    } else {
        None
    }
}

/// Statuses classified as success: 2xx and 3xx.
pub open spec fn is_success_status(status: u16) -> bool {
    200 <= status < 400
}

/// A header is applied only when both its key and its value are
/// non-empty; all others are silently dropped.
pub open spec fn header_kept(h: HeaderV) -> bool {
    h.key.len() > 0 && h.value.len() > 0
}

/// The applied headers, in their original order.
pub open spec fn kept_headers(hs: Seq<HeaderV>) -> Seq<HeaderV> {
    hs.filter(|h: HeaderV| header_kept(h))
}

/// Message carried by the rejection of an unrecognized method.
pub open spec fn msg_unsupported_method() -> Seq<u8> {
    "unsupported method".spec_bytes()
}

/// Message carried when a success response does not parse as JSON.
pub open spec fn msg_parse_failure() -> Seq<u8> {
    "Failed to parse response".spec_bytes()
}

/// Compare two byte slices.
pub fn slice_eq(a: &[u8], b: &[u8]) -> (r: bool)
    ensures
        r <==> a@ == b@,
{
    if a.len() != b.len() {
        return false;
    }
    let mut i: usize = 0;
    while i < a.len()
        invariant
            a@.len() == b@.len(),
            i <= a@.len(),
            forall|k: int| 0 <= k < i ==> a@[k] == b@[k],
        decreases a@.len() - i,
    {
        if a[i] != b[i] {
            return false;
        }
        i = i + 1;
    }
    proof {
        assert(a@ =~= b@);
    }
    true
}

/// Recognize the method named by the given bytes.
pub fn parse_method(m: &Vec<u8>) -> (r: Option<Method>)
    ensures
        r == method_of(m@),
{
    if slice_eq(m.as_slice(), "GET".as_bytes()) {
        Some(Method::Get)
    } else if slice_eq(m.as_slice(), "POST".as_bytes()) {
        Some(Method::Post)
    } else if slice_eq(m.as_slice(), "PUT".as_bytes()) {
        Some(Method::Put)
    } else if slice_eq(m.as_slice(), "PATCH".as_bytes()) {
        Some(Method::Patch)
    } else if slice_eq(m.as_slice(), "DELETE".as_bytes()) {
        Some(Method::Delete)
    } else {
        None
    }
}

/// Keep only the headers that are applied, in order.
pub fn filter_headers(headers: &Vec<Header>) -> (r: Vec<Header>)
    ensures
        headers_view(r@) == kept_headers(headers_view(headers@)),
{
    let mut out: Vec<Header> = Vec::new();
    let mut i: usize = 0;
    while i < headers.len()
        invariant
            i <= headers@.len(),
            headers_view(out@) == kept_headers(headers_view(headers@.take(i as int))),
        decreases headers@.len() - i,
    {
        let ghost prev = headers_view(headers@.take(i as int));
        let ghost x = headers@[i as int]@;
        let h = &headers[i];
        if h.key.len() > 0 && h.value.len() > 0 {
            out.push(
                Header { key: slice_to_vec(h.key.as_slice()), value: slice_to_vec(h.value.as_slice()) },
            );
        }
        proof {
            let cur = headers_view(headers@.take(i + 1 as int));
            assert(cur =~= prev.push(x));
            assert(cur.last() == x);
            assert(cur.drop_last() =~= prev);
            reveal_with_fuel(Seq::filter, 2);
            assert(kept_headers(cur) == if header_kept(x) {
                kept_headers(prev).push(x)
            } else {
                kept_headers(prev)
            });
            if header_kept(x) {
                assert(headers_view(out@) =~= kept_headers(prev).push(x));
            }
        }
        i = i + 1;
    }
    proof {
        assert(headers@.take(headers@.len() as int) =~= headers@);
    }
    out
}

/// Begin one invocation: validate the method, and only then acquire the
/// slot, preempting any prior occupant.  An unrecognized method is
/// rejected immediately with a transport error, before any resource is
/// touched.  Otherwise the fresh handle is the sole occupant of the
/// slot, and the prepared call carries the url and body unchanged and
/// exactly the applied headers.
pub fn begin_request(
    slot: &mut ExecutionSlot,
    method: &Vec<u8>,
    url: Vec<u8>,
    headers: Vec<Header>,
    body: Option<Vec<u8>>,
) -> (r: BeginOutcome)
    requires
        old(slot).wf(),
        old(slot).issued() < u64::MAX,
    ensures
        final(slot).wf(),
        method_of(method@) is None ==> *final(slot) == *old(slot)
            && (r matches BeginOutcome::Rejected { result }
            && (result matches ExecutionResult::TransportError { message }
            && message@ == msg_unsupported_method())),
        method_of(method@) matches Some(m) ==> (r matches BeginOutcome::Started {
            handle,
            cancel_first,
            prepared,
        } && handle == old(slot).issued()
            && cancel_first == old(slot).occupant()
            && final(slot).occupant() == Some(handle)
            && final(slot).issued() == old(slot).issued() + 1
            && (old(slot).occupant() matches Some(p) ==> p != handle)
            && prepared.method == m
            && prepared.url == url
            && prepared.body == body
            && headers_view(prepared.headers@) == kept_headers(headers_view(headers@))),
{
    match parse_method(method) {
        None => BeginOutcome::Rejected {
            result: ExecutionResult::TransportError {
                message: slice_to_vec("unsupported method".as_bytes()),
            },
        },
        Some(m) => {
            let (handle, cancel_first) = slot.acquire();
            let kept = filter_headers(&headers);
            BeginOutcome::Started {
                handle,
                cancel_first,
                prepared: PreparedRequest { method: m, url, headers: kept, body },
            }
        },
    }
}

/// Finish one invocation: classify what the race resolved to, and
/// release the slot — only if `handle` still occupies it, so a
/// superseded execution never clears a newer occupant.  A completed
/// response is classified by status: 2xx–3xx parse as JSON into
/// `Success`, or fail as a transport error when they do not parse;
/// other statuses are `HttpError`.  A transport failure carries its
/// message verbatim, and a cancellation signal is authoritative:
/// the result is `Cancelled`.
pub fn finish_request(slot: &mut ExecutionSlot, handle: u64, outcome: TransportOutcome) -> (r:
    ExecutionResult)
    ensures
        final(slot).issued() == old(slot).issued(),
        old(slot).occupant() == Some(handle) ==> final(slot).occupant() is None,
        old(slot).occupant() != Some(handle) ==> final(slot).occupant() == old(slot).occupant(),
        old(slot).wf() ==> final(slot).wf(),
        outcome matches TransportOutcome::Cancelled ==> r == ExecutionResult::Cancelled,
        outcome matches TransportOutcome::Failure { message } ==> (r
            matches ExecutionResult::TransportError { message: m } && m@ == message@),
        outcome matches TransportOutcome::Response { status, body } ==> {
            &&& !is_success_status(status) ==> r == (ExecutionResult::HttpError { status })
            &&& is_success_status(status) ==> (json_parse_of(body@) matches Some(v) ==> r == (
            ExecutionResult::Success { status, parsed_body: v }))
            &&& is_success_status(status) && json_parse_of(body@) is None ==> (r
                matches ExecutionResult::TransportError { message: m } && m@
                == msg_parse_failure())
        },
{
    slot.release(handle);
    match outcome {
        TransportOutcome::Cancelled => ExecutionResult::Cancelled,
        TransportOutcome::Failure { message } => ExecutionResult::TransportError { message },
        TransportOutcome::Response { status, body } => {
            if 200 <= status && status < 400 {
                match parse_json_body(&body) {
                    Some(v) => ExecutionResult::Success { status, parsed_body: v },
                    None => ExecutionResult::TransportError {
                        message: slice_to_vec("Failed to parse response".as_bytes()),
                    },
                }
            } else {
                ExecutionResult::HttpError { status }
            }
        },
    }
}

} // verus!
