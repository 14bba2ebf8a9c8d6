//! Run configuration: the command-line surface, and its resolution into a
//! fixed set of jobs with explicit precedence — an explicit value wins over a
//! discovered deployment artifact, and a missing pair is a resolution error.
//!
//! Reading the artifacts themselves is I/O and stays outside the library;
//! their contents are handed in as plain values.

use vstd::prelude::*;

use crate::types::ConfigError;

verus! {

/// The resolved, immutable description of one run.
#[derive(Debug, PartialEq, Eq)]
pub struct Jobs {
    /// The addresses of the measurement workers.
    pub services: Vec<String>,
    /// The url of the target request.
    pub target_url: String,
    /// The method of the target request.
    pub target_method: String,
    /// The body of the target request.
    pub target_body: Option<String>,
    /// The headers of the target request.
    pub target_headers: Option<Vec<(String, String)>>,
    /// The url of the comparison request.
    pub comparison_url: Option<String>,
}

/// The command-line surface of the orchestrator. Argument parsing itself is
/// boundary work; the library only resolves the parsed values.
#[derive(Debug, PartialEq, Eq)]
pub struct CliArgs {
    pub target_request_url: Option<String>,
    pub target_request_method: Option<String>,
    pub target_request_body: Option<String>,
    pub target_request_headers: Option<Vec<(String, String)>>,
    pub comparison_url: Option<String>,
    pub services: Option<Vec<String>>,
    pub average: bool,
    pub times: usize,
    pub delay: usize,
    pub output_dir: Option<String>,
    pub flood: bool,
}

/// Splits `key=value` at the first `=`; an input without `=` is rejected
/// with a diagnostic naming the input.
pub fn parse_key_val(s: &str) -> (r: Result<(String, String), String>)
    ensures
        r matches Ok(kv) ==> exists|p: int|
            0 <= p < s@.len() && #[trigger] s@[p] == '=' && (forall|q: int|
                0 <= q < p ==> s@[q] != '=') && kv.0@ == s@.subrange(0, p) && kv.1@
                == s@.subrange(p + 1, s@.len() as int),
        r is Err <==> (forall|p: int| 0 <= p < s@.len() ==> #[trigger] s@[p] != '='),
        r matches Err(m) ==> m@ == "invalid KEY=value: no `=` found in `"@ + s@ + "`"@,
{
    let len = s.unicode_len();
    let mut i: usize = 0;
    while i < len
        invariant
            len == s@.len(),
            0 <= i <= len,
            forall|q: int| 0 <= q < i ==> #[trigger] s@[q] != '=',
        decreases len - i,
    {
        if s.get_char(i) == '=' {
            let k = s.substring_char(0, i).to_owned();
            let v = s.substring_char(i + 1, len).to_owned();
            return Ok((k, v));
        }
        i = i + 1;
    }
    let mut msg = String::from_str("invalid KEY=value: no `=` found in `");
    msg.append(s);
    msg.append("`");
    Err(msg)
}

/// The address under which a discovered worker host is reachable.
pub fn format_service_addr(host: &str) -> (r: String)
    ensures
        r@ == "http://"@ + host@ + ":3000"@,
{
    let mut out = String::from_str("http://");
    out.append(host);
    out.append(":3000");
    out
}

/// The addresses for a list of discovered worker hosts, in order.
pub fn service_addrs(hosts: &Vec<String>) -> (r: Vec<String>)
    ensures
        r.deep_view().len() == hosts@.len(),
        forall|i: int| 0 <= i < hosts@.len() ==> #[trigger] r.deep_view()[i] == "http://"@
            + hosts@[i]@ + ":3000"@,
{
    let mut out: Vec<String> = Vec::new();
    let mut i: usize = 0;
    while i < hosts.len()
        invariant
            0 <= i <= hosts@.len(),
            out@.len() == i,
            forall|j: int| 0 <= j < i ==> #[trigger] out@[j]@ == "http://"@ + hosts@[j]@
                + ":3000"@,
        decreases hosts@.len() - i,
    {
        out.push(format_service_addr(hosts[i].as_str()));
        i = i + 1;
    }
    proof {
        assert forall|j: int| 0 <= j < hosts@.len() implies #[trigger] out.deep_view()[j]
            == "http://"@ + hosts@[j]@ + ":3000"@ by {
            assert(out.deep_view()[j] == out@[j]@);
        }
    }
    out
}

/// The default target url derived from a deployed content address.
pub fn deployed_url(cid: &str) -> (r: String)
    ensures
        r@ == "https://fleek-test.network/services/1/ipfs/"@ + cid@,
{
    let mut out = String::from_str("https://fleek-test.network/services/1/ipfs/");
    out.append(cid);
    out
}

/// A deep copy of a worker list.
pub(crate) fn copy_strings(v: &Vec<String>) -> (r: Vec<String>)
    ensures
        r.deep_view() == v.deep_view(),
{
    let mut out: Vec<String> = Vec::new();
    let mut i: usize = 0;
    while i < v.len()
        invariant
            0 <= i <= v@.len(),
            out@.len() == i,
            forall|j: int| 0 <= j < i ==> #[trigger] out@[j]@ == v@[j]@,
        decreases v@.len() - i,
    {
        out.push(v[i].clone());
        i = i + 1;
    }
    proof {
        assert forall|j: int| 0 <= j < v@.len() implies #[trigger] out.deep_view()[j]
            == v.deep_view()[j] by {
            assert(out.deep_view()[j] == out@[j]@);
            assert(v.deep_view()[j] == v@[j]@);
        }
        assert(out.deep_view() =~= v.deep_view());
    }
    out
}

/// A deep copy of a header list.
pub(crate) fn copy_pairs(v: &Vec<(String, String)>) -> (r: Vec<(String, String)>)
    ensures
        r.deep_view() == v.deep_view(),
{
    let mut out: Vec<(String, String)> = Vec::new();
    let mut i: usize = 0;
    while i < v.len()
        invariant
            0 <= i <= v@.len(),
            out@.len() == i,
            forall|j: int| 0 <= j < i ==> #[trigger] out@[j].0@ == v@[j].0@ && out@[j].1@
                == v@[j].1@,
        decreases v@.len() - i,
    {
        let k = v[i].0.clone();
        let w = v[i].1.clone();
        out.push((k, w));
        i = i + 1;
    }
    proof {
        assert forall|j: int| 0 <= j < v@.len() implies #[trigger] out.deep_view()[j]
            == v.deep_view()[j] by {
            assert(out.deep_view()[j] == (out@[j].0@, out@[j].1@));
            assert(v.deep_view()[j] == (v@[j].0@, v@[j].1@));
        }
        assert(out.deep_view() =~= v.deep_view());
    }
    out
}

impl CliArgs {
    /// Whether a worker list can be resolved from these arguments and the
    /// discovered artifact.
    pub open spec fn services_resolvable(&self, discovered_services: Option<Vec<String>>) -> bool {
        self.services is Some || discovered_services is Some
    }

    /// Whether a target url can be resolved likewise.
    pub open spec fn target_url_resolvable(&self, discovered_url: Option<String>) -> bool {
        self.target_request_url is Some || discovered_url is Some
    }

    /// What a successful resolution hands back: each field of the jobs,
    /// determined by the arguments and the discovered artifacts.
    pub open spec fn resolves_to(
        &self,
        discovered_services: Option<Vec<String>>,
        discovered_url: Option<String>,
        j: Jobs,
    ) -> bool {
        &&& j.services.deep_view() == (match self.services {
            Some(ref v) => v.deep_view(),
            None => discovered_services.unwrap().deep_view(),
        })
        &&& j.target_url@ == (match self.target_request_url {
            Some(ref u) => u@,
            None => discovered_url.unwrap()@,
        })
        &&& j.target_method.deep_view() == (match self.target_request_method {
            Some(ref m) => m@,
            None => "GET"@,
        })
        &&& j.target_body.deep_view() == self.target_request_body.deep_view()
        &&& j.target_headers.deep_view() == self.target_request_headers.deep_view()
        &&& j.comparison_url.deep_view() == self.comparison_url.deep_view()
    }

    /// Resolves the jobs of a run. An explicit argument wins over a
    /// discovered value; the method defaults to GET; a worker list or target
    /// url that neither source supplies is a resolution error, the worker
    /// list being checked first.
    pub fn jobs(
        &self,
        discovered_services: Option<Vec<String>>,
        discovered_url: Option<String>,
    ) -> (r: Result<Jobs, ConfigError>)
        ensures
            r is Ok <==> self.services_resolvable(discovered_services)
                && self.target_url_resolvable(discovered_url),
            r == Err::<Jobs, ConfigError>(ConfigError::MissingServices) <==> !self.services_resolvable(
                discovered_services,
            ),
            r == Err::<Jobs, ConfigError>(ConfigError::MissingTargetUrl) <==> self.services_resolvable(
                discovered_services,
            ) && !self.target_url_resolvable(discovered_url),
            r matches Ok(j) ==> self.resolves_to(discovered_services, discovered_url, j),
    {
        let services = match self.services {
            Some(ref v) => copy_strings(v),
            None => match discovered_services {
                Some(v) => v,
                None => {
                    return Err(ConfigError::MissingServices);
                },
            },
        };
        let target_url = match self.target_request_url {
            Some(ref u) => u.clone(),
            None => match discovered_url {
                Some(u) => u,
                None => {
                    return Err(ConfigError::MissingTargetUrl);
                },
            },
        };
        let target_method = match self.target_request_method {
            Some(ref m) => m.clone(),
            None => String::from_str("GET"),
        };
        let target_body = match self.target_request_body {
            Some(ref b) => Some(b.clone()),
            None => None,
        };
        let target_headers = match self.target_request_headers {
            Some(ref h) => Some(copy_pairs(h)),
            None => None,
        };
        let comparison_url = match self.comparison_url {
            Some(ref u) => Some(u.clone()),
            None => None,
        };
        Ok(Jobs { services, target_url, target_method, target_body, target_headers, comparison_url })
    }
}

} // verus!
