//! The measurement worker's protocol logic: reading the request method,
//! validating a duration-probe body, shaping each probe result, and sorting
//! every failure into the error taxonomy.
//!
//! The network exchanges themselves are the boundary's work; this module
//! decides, for every value the boundary can hand back, what is reported.

use vstd::prelude::*;

use crate::jobs::copy_pairs;
use crate::types::{MeasureDurationRequest, MeasureError, MeasureResponse, SampleView};

verus! {

/// The request methods a duration probe can send.
#[derive(Debug, Clone, Copy, PartialEq, Eq, Structural)]
pub enum Method {
    Get,
    Post,
    Put,
    Delete,
}

/// `c` reads as the (upper-case ASCII) letter `l` ignoring case.
pub open spec fn upper_eq(c: char, l: char) -> bool {
    c == l || (65 <= l as u32 <= 90 && c as u32 == l as u32 + 32)
}

/// `s` spells `lit` when upper-cased, where `lit` is upper-case ASCII.
pub open spec fn matches_upper(s: Seq<char>, lit: Seq<char>) -> bool {
    s.len() == lit.len() && forall|i: int| 0 <= i < s.len() ==> upper_eq(#[trigger] s[i], lit[i])
}

/// The method a duration probe uses for a given method string: the named
/// method when the string spells it ignoring case, and GET for anything
/// else — an unrecognized string is not an error.
pub open spec fn method_of(s: Seq<char>) -> Method {
    if matches_upper(s, "POST"@) {
        Method::Post
    } else if matches_upper(s, "PUT"@) {
        Method::Put
    } else if matches_upper(s, "DELETE"@) {
        Method::Delete
    } else {
        Method::Get
    }
}

/// Whether `s` spells `lit` when upper-cased.
fn matches_upper_exec(s: &str, lit: &str) -> (b: bool)
    ensures
        b == matches_upper(s@, lit@),
{
    let n = s.unicode_len();
    let m = lit.unicode_len();
    if n != m {
        return false;
    }
    let mut i: usize = 0;
    while i < n
        invariant
            n == s@.len(),
            n == lit@.len(),
            0 <= i <= n,
            forall|q: int| 0 <= q < i ==> upper_eq(#[trigger] s@[q], lit@[q]),
        decreases n - i,
    {
        let c = s.get_char(i);
        let l = lit.get_char(i);
        let cu = c as u32;
        let lu = l as u32;
        let ok = c == l || (65 <= lu && lu <= 90 && cu == lu + 32);
        if !ok {
            assert(!upper_eq(s@[i as int], lit@[i as int]));
            return false;
        }
        i = i + 1;
    }
    true
}

/// Reads the method of a duration probe; an unrecognized string gives GET.
pub fn parse_method(s: &str) -> (r: Method)
    ensures
        r == method_of(s@),
{
    if matches_upper_exec(s, "POST") {
        Method::Post
    } else if matches_upper_exec(s, "PUT") {
        Method::Put
    } else if matches_upper_exec(s, "DELETE") {
        Method::Delete
    } else {
        Method::Get
    }
}

/// A duration probe with an unrecognized method string behaves exactly as
/// one with the method string `GET`: both read as GET.
pub proof fn lemma_unknown_method_defaults_to_get(s: Seq<char>)
    requires
        !matches_upper(s, "POST"@),
        !matches_upper(s, "PUT"@),
        !matches_upper(s, "DELETE"@),
    ensures
        method_of(s) == method_of("GET"@),
        method_of(s) == Method::Get,
{
    reveal_strlit("GET");
    reveal_strlit("POST");
    reveal_strlit("PUT");
    reveal_strlit("DELETE");
    assert(!matches_upper("GET"@, "POST"@));
    assert("GET"@[0] == 'G' && "PUT"@[0] == 'P');
    assert(!upper_eq("GET"@[0], "PUT"@[0]));
    assert(!matches_upper("GET"@, "PUT"@));
    assert(!matches_upper("GET"@, "DELETE"@));
}

/// Whether a body is valid JSON text, as serde_json decides it.
pub uninterp spec fn json_wellformed(s: Seq<char>) -> bool;

/// The reserialized text of a valid JSON body, as serde_json writes it.
pub uninterp spec fn json_canon(s: Seq<char>) -> Seq<char>;

/// Relies on serde_json::from_str::<serde_json::Value>, which returns Ok
/// exactly on valid JSON text and depends on the text alone, and on
/// serde_json::Value's to_string, which writes the parsed value back out,
/// again from the text alone. The error arm carries serde_json's own
/// diagnostic, of which nothing is claimed.
#[verifier::external_body]
fn normalize_json(s: &str) -> (r: Result<String, String>)
    ensures
        r is Ok == json_wellformed(s@),
        r matches Ok(t) ==> t@ == json_canon(s@),
{
    match serde_json::from_str::<serde_json::Value>(s) {
        Ok(v) => Ok(v.to_string()),
        Err(e) => Err(e.to_string()),
    }
}

/// What a duration probe will send: the parsed method, the target, the
/// headers as given, and the body reserialized from its JSON form.
#[derive(Debug, PartialEq, Eq)]
pub struct DurationPlan {
    pub method: Method,
    pub target: String,
    pub headers: Option<Vec<(String, String)>>,
    pub body: Option<String>,
}

/// Builds the request a duration probe sends. A body that is not valid JSON
/// is a BadRequest before anything is sent; everything else passes through
/// with the method read by `method_of`.
pub fn plan_duration_probe(req: &MeasureDurationRequest) -> (r: Result<DurationPlan, MeasureError>)
    ensures
        r is Err <==> (req.body matches Some(b) && !json_wellformed(b@)),
        r matches Err(e) ==> (e matches MeasureError::BadRequest(m) && m@.len() >= 19 && m@.subrange(
            0,
            19,
        ) == "Invalid JSON body: "@),
        r matches Ok(p) ==> {
            &&& p.method == method_of(req.method@)
            &&& p.target@ == req.target@
            &&& p.headers.deep_view() == req.headers.deep_view()
            &&& match req.body {
                Some(ref b) => (p.body matches Some(nb) && nb@ == json_canon(b@)),
                None => p.body is None,
            }
        },
{
    let body: Option<String> = match req.body {
        Some(ref b) => match normalize_json(b.as_str()) {
            Ok(nb) => Some(nb),
            Err(m) => {
                let mut msg = String::from_str("Invalid JSON body: ");
                proof {
                    reveal_strlit("Invalid JSON body: ");
                }
                msg.append(m.as_str());
                proof {
                    assert(msg@.subrange(0, 19) =~= "Invalid JSON body: "@);
                }
                return Err(MeasureError::BadRequest(msg));
            },
        },
        None => None,
    };
    let headers: Option<Vec<(String, String)>> = match req.headers {
        Some(ref h) => Some(copy_pairs(h)),
        None => None,
    };
    Ok(DurationPlan { method: parse_method(req.method.as_str()), target: req.target.clone(), headers, body })
}

/// The image of a duration-probe result: only the overall duration is
/// populated, the source ip is empty, every phase duration is zero or
/// absent.
pub open spec fn duration_sample_view(elapsed: u64) -> SampleView {
    SampleView {
        ip: Seq::<char>::empty(),
        dns_lookup_duration: None,
        tcp_connect_duration: 0,
        http_get_send_duration: 0,
        ttfb_duration: 0,
        tls_handshake_duration: None,
        overall_duration: Some(elapsed),
    }
}

/// Judges a completed duration exchange: a status in the success range
/// yields the sample, any other status is an HttpStatus error carrying the
/// code — never a network failure.
pub fn duration_outcome(status: u16, elapsed: u64) -> (r: Result<MeasureResponse, MeasureError>)
    ensures
        200 <= status < 300 ==> (r matches Ok(s) && s@ == duration_sample_view(elapsed)),
        !(200 <= status < 300) ==> r == Err::<MeasureResponse, MeasureError>(
            MeasureError::HttpStatus(status),
        ),
{
    if 200 <= status && status < 300 {
        let r = MeasureResponse {
            ip: String::new(),
            dns_lookup_duration: None,
            tcp_connect_duration: 0,
            http_get_send_duration: 0,
            ttfb_duration: 0,
            tls_handshake_duration: None,
            overall_duration: Some(elapsed),
        };
        proof {
            assert(r@ =~= duration_sample_view(elapsed));
        }
        Ok(r)
    } else {
        Err(MeasureError::HttpStatus(status))
    }
}

/// Judges the whole outcome of a duration exchange: a completed exchange is
/// judged by its status as `duration_outcome` does, and a send that failed
/// before any response (DNS, connect, TLS or send failure) is a network
/// error carrying the diagnostic — never anything else.
pub fn duration_exchange_outcome(exchange: Result<(u16, u64), String>) -> (r: Result<
    MeasureResponse,
    MeasureError,
>)
    ensures
        exchange matches Ok(p) ==> {
            &&& 200 <= p.0 < 300 ==> (r matches Ok(s) && s@ == duration_sample_view(p.1))
            &&& !(200 <= p.0 < 300) ==> r == Err::<MeasureResponse, MeasureError>(
                MeasureError::HttpStatus(p.0),
            )
        },
        exchange matches Err(m) ==> r == Err::<MeasureResponse, MeasureError>(
            MeasureError::Network(m),
        ),
{
    match exchange {
        Ok((status, elapsed)) => duration_outcome(status, elapsed),
        Err(m) => Err(MeasureError::Network(m)),
    }
}

/// Judges the join of an isolated phase-timed probe: an abnormal end of the
/// isolated execution is a TaskFailure, a failed probe is a network error,
/// and a completed probe passes through.
pub fn probe_outcome(joined: Result<Result<MeasureResponse, String>, String>) -> (r: Result<
    MeasureResponse,
    MeasureError,
>)
    ensures
        joined matches Ok(Ok(s)) ==> r == Ok::<MeasureResponse, MeasureError>(s),
        joined matches Ok(Err(m)) ==> r == Err::<MeasureResponse, MeasureError>(
            MeasureError::Network(m),
        ),
        joined matches Err(m) ==> r == Err::<MeasureResponse, MeasureError>(
            MeasureError::TaskFailure(m),
        ),
{
    match joined {
        Ok(Ok(s)) => Ok(s),
        Ok(Err(m)) => Err(MeasureError::Network(m)),
        Err(m) => Err(MeasureError::TaskFailure(m)),
    }
}

/// A url whose scheme secures the transport: only such a probe has a TLS
/// handshake phase.
pub open spec fn https_scheme(u: Seq<char>) -> bool {
    crate::codec::lit_at(u, 0, "https://"@)
}

/// Whether a TLS handshake phase is expected for this target url.
pub fn url_expects_tls(url: &str) -> (b: bool)
    ensures
        b == https_scheme(url@),
{
    crate::codec::match_lit_at(url, 0, "https://")
}

} // verus!
