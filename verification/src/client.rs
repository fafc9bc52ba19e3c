//! The rate-limited fetcher's decision state.
//!
//! One `SlowClient` exists per host; it remembers when its last request
//! finished, and from that decides how long the next request must wait so
//! that two completed requests to one host are at least a second apart.
//! The HTTP transport itself lives outside the library: the caller asks
//! `time_remaining` how long to sleep, performs the request, and reports
//! the completion time back through `record_finished`.

use vstd::prelude::*;

verus! {

/// The minimum spacing between two requests to one host, in milliseconds.
pub const REQUEST_GAP_MILLIS: u64 = 1000;

/// A fetched page body, classified by the response.
pub enum Body {
    Html(String),
    Pdf(String),
    Plain(String),
}

/// The view of a body: its kind and text.
pub enum BodyView {
    Html(Seq<char>),
    Pdf(Seq<char>),
    Plain(Seq<char>),
}

impl View for Body {
    type V = BodyView;

    open spec fn view(&self) -> BodyView {
        match self {
            Body::Html(s) => BodyView::Html(s@),
            Body::Pdf(s) => BodyView::Pdf(s@),
            Body::Plain(s) => BodyView::Plain(s@),
        }
    }
}

impl Body {
    /// An owned copy of this body.
    pub fn duplicate(&self) -> (r: Body)
        ensures
            r == *self,
    {
        match self {
            Body::Html(s) => Body::Html(s.clone()),
            Body::Pdf(s) => Body::Pdf(s.clone()),
            Body::Plain(s) => Body::Plain(s.clone()),
        }
    }

    /// The raw text of the body, whatever its kind.
    pub open spec fn spec_text(&self) -> Seq<char> {
        match self {
            Body::Html(s) => s@,
            Body::Pdf(s) => s@,
            Body::Plain(s) => s@,
        }
    }
}

/// The outcome of a fetch: a body, or a terminal error message.
/// Terminal errors are cacheable; once recorded they are never retried.
pub type Response = Result<Body, String>;

/// An owned copy of a fetch outcome.
pub fn duplicate_response(r: &Response) -> (d: Response)
    ensures
        d == *r,
{
    match r {
        Ok(b) => Ok(b.duplicate()),
        Err(e) => Err(e.clone()),
    }
}

/// Per-host request pacing state. Time is carried as milliseconds on the
/// caller's monotonic clock.
pub struct SlowClient {
    pub last_request_finished: Option<u64>,
}

/// How long a fetch through `c` must still wait at instant `now`.
pub open spec fn spec_time_remaining(c: SlowClient, now: u64) -> u64 {
    match c.last_request_finished {
        Some(t) => {
            if now < t || now - t >= REQUEST_GAP_MILLIS {
                0
            } else {
                (t + REQUEST_GAP_MILLIS - now) as u64
            }
        },
        None => 0,
    }
}

impl SlowClient {
    /// A fresh client that has made no request yet.
    pub fn new() -> (c: Self)
        ensures
            c.last_request_finished is None,
    {
        Self { last_request_finished: None }
    }

    /// The remaining wait before the next request may be issued at `now`.
    pub fn time_remaining(&self, now: u64) -> (r: u64)
        ensures
            r == spec_time_remaining(*self, now),
    {
        match self.last_request_finished {
            Some(t) => {
                if now < t {
                    0
                } else {
                    let elapsed = now - t;
                    if elapsed >= REQUEST_GAP_MILLIS {
                        0
                    } else {
                        REQUEST_GAP_MILLIS - elapsed
                    }
                }
            },
            None => 0,
        }
    }

    /// Record that a request through this client finished at `now`.
    pub fn record_finished(&mut self, now: u64)
        ensures
            final(self).last_request_finished == Some(now),
    {
        self.last_request_finished = Some(now);
    }
}

/// A response body within the size ceiling is one whose declared content
/// length is absent or strictly below `BODY_SIZE_LIMIT`.
pub open spec fn spec_within_body_limit(content_length: Option<u64>) -> bool {
    match content_length {
        Some(n) => n < crate::BODY_SIZE_LIMIT,
        None => true,
    }
}

/// Whether a response with the given declared content length may be
/// downloaded, or must be turned into a terminal error.
pub fn within_body_limit(content_length: Option<u64>) -> (r: bool)
    ensures
        r == spec_within_body_limit(content_length),
{
    match content_length {
        Some(n) => n < crate::BODY_SIZE_LIMIT,
        None => true,
    }
}

/// The decimal digit `d` as a one-character sequence.
pub open spec fn spec_digit(d: u64) -> Seq<char> {
    if d == 0 {
        "0"@
    } else if d == 1 {
        "1"@
    } else if d == 2 {
        "2"@
    } else if d == 3 {
        "3"@
    } else if d == 4 {
        "4"@
    } else if d == 5 {
        "5"@
    } else if d == 6 {
        "6"@
    } else if d == 7 {
        "7"@
    } else if d == 8 {
        "8"@
    } else {
        "9"@
    }
}

/// The decimal rendering of `n`, most significant digit first.
pub open spec fn spec_decimal(n: u64) -> Seq<char>
    decreases n,
{
    if n < 10 {
        spec_digit(n)
    } else {
        spec_decimal(n / 10) + spec_digit(n % 10)
    }
}

/// The terminal error recorded for a response whose declared content
/// length `n` reaches the size ceiling.
pub open spec fn spec_too_long_message(n: u64) -> Seq<char> {
    "Response too long: "@ + spec_decimal(n)
}

/// Append the decimal digit `d`.
fn append_digit(d: u64, out: &mut String)
    requires
        d < 10,
    ensures
        final(out)@ == old(out)@ + spec_digit(d),
{
    if d == 0 {
        out.append("0");
    } else if d == 1 {
        out.append("1");
    } else if d == 2 {
        out.append("2");
    } else if d == 3 {
        out.append("3");
    } else if d == 4 {
        out.append("4");
    } else if d == 5 {
        out.append("5");
    } else if d == 6 {
        out.append("6");
    } else if d == 7 {
        out.append("7");
    } else if d == 8 {
        out.append("8");
    } else {
        out.append("9");
    }
}

/// Append the decimal rendering of `n`.
fn append_decimal(n: u64, out: &mut String)
    ensures
        final(out)@ == old(out)@ + spec_decimal(n),
    decreases n,
{
    if n < 10 {
        append_digit(n, out);
    } else {
        proof {
            assert(n / 10 < n) by (nonlinear_arith)
                requires
                    n >= 10,
            ;
        }
        append_decimal(n / 10, out);
        append_digit(n % 10, out);
        proof {
            assert((old(out)@ + spec_decimal(n / 10)) + spec_digit(n % 10) =~= old(out)@ + (
            spec_decimal(n / 10) + spec_digit(n % 10)));
        }
    }
}

/// The terminal error message for an oversize response with declared
/// content length `n`.
pub fn too_long_message(n: u64) -> (s: String)
    ensures
        s@ == spec_too_long_message(n),
{
    let mut out = String::new();
    out.append("Response too long: ");
    append_decimal(n, &mut out);
    proof {
        assert((Seq::<char>::empty() + "Response too long: "@) + spec_decimal(n)
            =~= spec_too_long_message(n));
    }
    out
}

/// Inter-request gap: when a request waits out `time_remaining` before
/// starting, its start lies at least `REQUEST_GAP_MILLIS` after the
/// completion of the previous request through the same client.
pub proof fn lemma_inter_request_gap(c: SlowClient, now: u64, finished: u64)
    requires
        c.last_request_finished == Some(finished),
        finished <= now,
    ensures
        now + spec_time_remaining(c, now) >= finished + REQUEST_GAP_MILLIS,
{
}

} // verus!
