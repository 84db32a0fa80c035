//! Discovery of nearby test servers.
//!
//! The discovery service returns the nearest servers with signed
//! endpoint URLs for running tests. This module holds the response
//! model, its verified JSON parser, and the classification of a
//! discovery response into targets or a distinguished error.

use vstd::prelude::*;
use vstd::string::StrSliceExecFns;
use vstd::string::StringExecFns;

use crate::error::Ndt7Error;
use crate::json::skip_ws;
use crate::json::skip_ws_exec;
use crate::json::spec_parse_string;
use crate::json::parse_json_string;
use crate::json::spec_skip_value;
use crate::json::skip_value_exec;
use crate::json::str_eqx;

verus! {

/// Base URL for the discovery service.
pub const LOCATE_URL: &'static str = "https://locate.measurementlab.net/v2/nearest/ndt/ndt7";

/// A single server returned by the discovery service.
#[derive(Debug, Clone)]
pub struct Target {
    /// FQDN of the server machine.
    pub machine: String,
    /// Pairs of service key (e.g. `"wss:///ndt/v7/download"`) and full
    /// URL with access token, in the order the service listed them.
    pub urls: Vec<(String, String)>,
}

/// Top-level response from the discovery service.
#[derive(Debug, Clone)]
pub struct LocateResponse {
    /// Ordered list of nearby servers (closest first).
    pub results: Vec<Target>,
}

/// The abstract value of a parsed target: its strings as character
/// sequences.
pub struct SpecTarget {
    /// Server machine name.
    pub machine: Seq<char>,
    /// Service key and URL pairs.
    pub urls: Seq<(Seq<char>, Seq<char>)>,
}

/// The abstraction of an exec URL list.
pub open spec fn abs_urls(urls: Seq<(String, String)>) -> Seq<(Seq<char>, Seq<char>)> {
    urls.map_values(|p: (String, String)| (p.0@, p.1@))
}

/// The abstraction of an exec target.
pub open spec fn abs_target(t: Target) -> SpecTarget {
    SpecTarget { machine: t.machine@, urls: abs_urls(t.urls@) }
}

/// Whether the exec targets carry exactly the abstract ones.
pub open spec fn targets_match(ts: Seq<Target>, vs: Seq<SpecTarget>) -> bool {
    ts.len() == vs.len() && forall|i: int|
        0 <= i < ts.len() ==> #[trigger] abs_target(ts[i]) == vs[i]
}

/// The members of a service-URL object continued at `i`: every member
/// maps a service key to an endpoint URL.
pub open spec fn spec_parse_urls_members(
    s: Seq<char>,
    i: int,
    acc: Seq<(Seq<char>, Seq<char>)>,
    first: bool,
) -> Option<(Seq<(Seq<char>, Seq<char>)>, int)>
    decreases s.len() - i,
{
    if i < 0 || i >= s.len() {
        None
    } else if first && s[i] == '}' {
        Some((acc, i + 1))
    } else {
        match spec_parse_string(s, i) {
            Option::None => None,
            Option::Some((k, i2)) => {
                let i3 = skip_ws(s, i2);
                if i3 < s.len() && s[i3] == ':' {
                    let i4 = skip_ws(s, i3 + 1);
                    match spec_parse_string(s, i4) {
                        Option::None => None,
                        Option::Some((v, j)) => {
                            let j2 = skip_ws(s, j);
                            if j2 < s.len() && s[j2] == '}' {
                                Some((acc.push((k, v)), j2 + 1))
                            } else if j2 < s.len() && s[j2] == ',' {
                                let nx = skip_ws(s, j2 + 1);
                                if i < nx && nx <= s.len() {
                                    spec_parse_urls_members(s, nx, acc.push((k, v)), false)
                                } else {
                                    None
                                }
                            } else {
                                None
                            }
                        },
                    }
                } else {
                    None
                }
            },
        }
    }
}

/// A service-URL object at `i`.
pub open spec fn spec_parse_urls(s: Seq<char>, i: int) -> Option<(Seq<(Seq<char>, Seq<char>)>, int)> {
    if 0 <= i < s.len() && s[i] == '{' {
        spec_parse_urls_members(s, skip_ws(s, i + 1), Seq::empty(), true)
    } else {
        None
    }
}

/// Builds a target once both required members were seen.
pub open spec fn target_finish(
    machine: Option<Seq<char>>,
    urls: Option<Seq<(Seq<char>, Seq<char>)>>,
    j: int,
) -> Option<(SpecTarget, int)> {
    match (machine, urls) {
        (Option::Some(m), Option::Some(u)) => Some((SpecTarget { machine: m, urls: u }, j)),
        _ => None,
    }
}

/// The members of a target object continued at `i`.
pub open spec fn spec_parse_target_members(
    s: Seq<char>,
    i: int,
    machine: Option<Seq<char>>,
    urls: Option<Seq<(Seq<char>, Seq<char>)>>,
    first: bool,
) -> Option<(SpecTarget, int)>
    decreases s.len() - i,
{
    if i < 0 || i >= s.len() {
        None
    } else if first && s[i] == '}' {
        target_finish(machine, urls, i + 1)
    } else {
        match spec_parse_string(s, i) {
            Option::None => None,
            Option::Some((k, i2)) => {
                let i3 = skip_ws(s, i2);
                if i3 < s.len() && s[i3] == ':' {
                    let i4 = skip_ws(s, i3 + 1);
                    let stepped: Option<(Option<Seq<char>>, Option<Seq<(Seq<char>, Seq<char>)>>, int)> =
                        if k == "machine"@ {
                        match spec_parse_string(s, i4) {
                            Option::None => None,
                            Option::Some((v, j)) => Some((Some(v), urls, j)),
                        }
                    } else if k == "urls"@ {
                        match spec_parse_urls(s, i4) {
                            Option::None => None,
                            Option::Some((v, j)) => Some((machine, Some(v), j)),
                        }
                    } else {
                        match spec_skip_value(s, i4) {
                            Option::None => None,
                            Option::Some(j) => Some((machine, urls, j)),
                        }
                    };
                    match stepped {
                        Option::None => None,
                        Option::Some((m2, u2, j)) => {
                            let j2 = skip_ws(s, j);
                            if j2 < s.len() && s[j2] == '}' {
                                target_finish(m2, u2, j2 + 1)
                            } else if j2 < s.len() && s[j2] == ',' {
                                let nx = skip_ws(s, j2 + 1);
                                if i < nx && nx <= s.len() {
                                    spec_parse_target_members(s, nx, m2, u2, false)
                                } else {
                                    None
                                }
                            } else {
                                None
                            }
                        },
                    }
                } else {
                    None
                }
            },
        }
    }
}

/// A target object at `i`.
pub open spec fn spec_parse_target(s: Seq<char>, i: int) -> Option<(SpecTarget, int)> {
    if 0 <= i < s.len() && s[i] == '{' {
        spec_parse_target_members(s, skip_ws(s, i + 1), None, None, true)
    } else {
        None
    }
}

/// The elements of the target array continued at `i`.
pub open spec fn spec_parse_targets_items(
    s: Seq<char>,
    i: int,
    acc: Seq<SpecTarget>,
    first: bool,
) -> Option<(Seq<SpecTarget>, int)>
    decreases s.len() - i,
{
    if i < 0 || i >= s.len() {
        None
    } else if first && s[i] == ']' {
        Some((acc, i + 1))
    } else {
        match spec_parse_target(s, i) {
            Option::None => None,
            Option::Some((t, j)) => {
                let j2 = skip_ws(s, j);
                if j2 < s.len() && s[j2] == ']' {
                    Some((acc.push(t), j2 + 1))
                } else if j2 < s.len() && s[j2] == ',' {
                    let nx = skip_ws(s, j2 + 1);
                    if i < nx && nx <= s.len() {
                        spec_parse_targets_items(s, nx, acc.push(t), false)
                    } else {
                        None
                    }
                } else {
                    None
                }
            },
        }
    }
}

/// The target array at `i`.
pub open spec fn spec_parse_targets(s: Seq<char>, i: int) -> Option<(Seq<SpecTarget>, int)> {
    if 0 <= i < s.len() && s[i] == '[' {
        spec_parse_targets_items(s, skip_ws(s, i + 1), Seq::empty(), true)
    } else {
        None
    }
}

/// The members of the discovery response continued at `i`.
pub open spec fn spec_parse_locate_members(
    s: Seq<char>,
    i: int,
    results: Option<Seq<SpecTarget>>,
    first: bool,
) -> Option<(Seq<SpecTarget>, int)>
    decreases s.len() - i,
{
    if i < 0 || i >= s.len() {
        None
    } else if first && s[i] == '}' {
        match results {
            Option::Some(rs) => Some((rs, i + 1)),
            Option::None => None,
        }
    } else {
        match spec_parse_string(s, i) {
            Option::None => None,
            Option::Some((k, i2)) => {
                let i3 = skip_ws(s, i2);
                if i3 < s.len() && s[i3] == ':' {
                    let i4 = skip_ws(s, i3 + 1);
                    let stepped: Option<(Option<Seq<SpecTarget>>, int)> = if k == "results"@ {
                        match spec_parse_targets(s, i4) {
                            Option::None => None,
                            Option::Some((v, j)) => Some((Some(v), j)),
                        }
                    } else {
                        match spec_skip_value(s, i4) {
                            Option::None => None,
                            Option::Some(j) => Some((results, j)),
                        }
                    };
                    match stepped {
                        Option::None => None,
                        Option::Some((r2, j)) => {
                            let j2 = skip_ws(s, j);
                            if j2 < s.len() && s[j2] == '}' {
                                match r2 {
                                    Option::Some(rs) => Some((rs, j2 + 1)),
                                    Option::None => None,
                                }
                            } else if j2 < s.len() && s[j2] == ',' {
                                let nx = skip_ws(s, j2 + 1);
                                if i < nx && nx <= s.len() {
                                    spec_parse_locate_members(s, nx, r2, false)
                                } else {
                                    None
                                }
                            } else {
                                None
                            }
                        },
                    }
                } else {
                    None
                }
            },
        }
    }
}

/// A whole discovery response text.
pub open spec fn spec_parse_locate_text(s: Seq<char>) -> Option<Seq<SpecTarget>> {
    let i = skip_ws(s, 0);
    if i < s.len() && s[i] == '{' {
        match spec_parse_locate_members(s, skip_ws(s, i + 1), None, true) {
            Option::None => None,
            Option::Some((rs, j)) => if skip_ws(s, j) == s.len() {
                Some(rs)
            } else {
                None
            },
        }
    } else {
        None
    }
}

/// Exec mirror of [`spec_parse_urls_members`].
fn parse_urls_members(
    s: &str,
    n: usize,
    i: usize,
    acc: Vec<(String, String)>,
    first: bool,
) -> (r: Option<(Vec<(String, String)>, usize)>)
    requires
        n == s@.len(),
        i <= n,
    ensures
        match spec_parse_urls_members(s@, i as int, abs_urls(acc@), first) {
            Option::None => r is None,
            Option::Some((v, j)) => r is Some && abs_urls(r.unwrap().0@) == v && r.unwrap().1 == j
                && j <= n,
        },
    decreases n - i,
{
    if i >= n {
        return None;
    }
    if first && s.get_char(i) == '}' {
        return Some((acc, i + 1));
    }
    match parse_json_string(s, n, i) {
        Option::None => None,
        Option::Some((k, i2)) => {
            let i3 = skip_ws_exec(s, n, i2);
            if i3 < n && s.get_char(i3) == ':' {
                let i4 = skip_ws_exec(s, n, i3 + 1);
                match parse_json_string(s, n, i4) {
                    Option::None => None,
                    Option::Some((v, j)) => {
                        let ghost acc0 = abs_urls(acc@);
                        let ghost kv = (k@, v@);
                        let mut acc2 = acc;
                        acc2.push((k, v));
                        proof {
                            assert(abs_urls(acc2@) =~= acc0.push(kv));
                        }
                        let j2 = skip_ws_exec(s, n, j);
                        if j2 < n && s.get_char(j2) == '}' {
                            Some((acc2, j2 + 1))
                        } else if j2 < n && s.get_char(j2) == ',' {
                            let nx = skip_ws_exec(s, n, j2 + 1);
                            if i < nx && nx <= n {
                                parse_urls_members(s, n, nx, acc2, false)
                            } else {
                                None
                            }
                        } else {
                            None
                        }
                    },
                }
            } else {
                None
            }
        },
    }
}

/// Exec mirror of [`spec_parse_target_members`].
fn parse_target_members(
    s: &str,
    n: usize,
    i: usize,
    machine: Option<String>,
    urls: Option<Vec<(String, String)>>,
    first: bool,
) -> (r: Option<(Target, usize)>)
    requires
        n == s@.len(),
        i <= n,
    ensures
        match spec_parse_target_members(
            s@,
            i as int,
            match machine {
                Option::None => None,
                Option::Some(x) => Some(x@),
            },
            match urls {
                Option::None => None,
                Option::Some(u) => Some(abs_urls(u@)),
            },
            first,
        ) {
            Option::None => r is None,
            Option::Some((v, j)) => r is Some && abs_target(r.unwrap().0) == v && r.unwrap().1
                == j && j <= n,
        },
    decreases n - i,
{
    if i >= n {
        return None;
    }
    if first && s.get_char(i) == '}' {
        return match (machine, urls) {
            (Some(m), Some(u)) => Some((Target { machine: m, urls: u }, i + 1)),
            _ => None,
        };
    }
    match parse_json_string(s, n, i) {
        Option::None => None,
        Option::Some((k, i2)) => {
            let i3 = skip_ws_exec(s, n, i2);
            if i3 < n && s.get_char(i3) == ':' {
                let i4 = skip_ws_exec(s, n, i3 + 1);
                let stepped: Option<(Option<String>, Option<Vec<(String, String)>>, usize)> =
                    if str_eqx(k.as_str(), "machine") {
                    match parse_json_string(s, n, i4) {
                        Option::None => None,
                        Option::Some((v, j)) => Some((Some(v), urls, j)),
                    }
                } else if str_eqx(k.as_str(), "urls") {
                    if i4 < n && s.get_char(i4) == '{' {
                        let nx = skip_ws_exec(s, n, i4 + 1);
                        let acc0: Vec<(String, String)> = Vec::new();
                        proof {
                            assert(abs_urls(acc0@) =~= Seq::<(Seq<char>, Seq<char>)>::empty());
                        }
                        match parse_urls_members(s, n, nx, acc0, true) {
                            Option::None => None,
                            Option::Some((v, j)) => Some((machine, Some(v), j)),
                        }
                    } else {
                        None
                    }
                } else {
                    match skip_value_exec(s, n, i4) {
                        Option::None => None,
                        Option::Some(j) => Some((machine, urls, j)),
                    }
                };
                match stepped {
                    Option::None => None,
                    Option::Some((m2, u2, j)) => {
                        let j2 = skip_ws_exec(s, n, j);
                        if j2 < n && s.get_char(j2) == '}' {
                            match (m2, u2) {
                                (Some(m), Some(u)) => Some((Target { machine: m, urls: u }, j2 + 1)),
                                _ => None,
                            }
                        } else if j2 < n && s.get_char(j2) == ',' {
                            let nx = skip_ws_exec(s, n, j2 + 1);
                            if i < nx && nx <= n {
                                parse_target_members(s, n, nx, m2, u2, false)
                            } else {
                                None
                            }
                        } else {
                            None
                        }
                    },
                }
            } else {
                None
            }
        },
    }
}

/// Exec mirror of [`spec_parse_targets_items`].
fn parse_targets_items(s: &str, n: usize, i: usize, acc: Vec<Target>, first: bool) -> (r: Option<
    (Vec<Target>, usize),
>)
    requires
        n == s@.len(),
        i <= n,
    ensures
        match spec_parse_targets_items(
            s@,
            i as int,
            acc@.map_values(|t: Target| abs_target(t)),
            first,
        ) {
            Option::None => r is None,
            Option::Some((v, j)) => r is Some && targets_match(r.unwrap().0@, v) && r.unwrap().1
                == j && j <= n,
        },
    decreases n - i,
{
    if i >= n {
        return None;
    }
    if first && s.get_char(i) == ']' {
        proof {
            assert(targets_match(acc@, acc@.map_values(|t: Target| abs_target(t))));
        }
        return Some((acc, i + 1));
    }
    let item: Option<(Target, usize)> = if i < n && s.get_char(i) == '{' {
        let nx = skip_ws_exec(s, n, i + 1);
        parse_target_members(s, n, nx, None, None, true)
    } else {
        None
    };
    match item {
        Option::None => None,
        Option::Some((t, j)) => {
            let ghost acc0 = acc@.map_values(|t: Target| abs_target(t));
            let ghost tv = abs_target(t);
            let mut acc2 = acc;
            acc2.push(t);
            proof {
                assert(acc2@.map_values(|t: Target| abs_target(t)) =~= acc0.push(tv));
            }
            let j2 = skip_ws_exec(s, n, j);
            if j2 < n && s.get_char(j2) == ']' {
                proof {
                    assert(targets_match(acc2@, acc0.push(tv)));
                }
                Some((acc2, j2 + 1))
            } else if j2 < n && s.get_char(j2) == ',' {
                let nx = skip_ws_exec(s, n, j2 + 1);
                if i < nx && nx <= n {
                    parse_targets_items(s, n, nx, acc2, false)
                } else {
                    None
                }
            } else {
                None
            }
        },
    }
}

/// Exec mirror of [`spec_parse_locate_members`].
fn parse_locate_members(
    s: &str,
    n: usize,
    i: usize,
    results: Option<Vec<Target>>,
    first: bool,
) -> (r: Option<(Vec<Target>, usize)>)
    requires
        n == s@.len(),
        i <= n,
    ensures
        match spec_parse_locate_members(
            s@,
            i as int,
            match results {
                Option::None => None,
                Option::Some(rs) => Some(rs@.map_values(|t: Target| abs_target(t))),
            },
            first,
        ) {
            Option::None => r is None,
            Option::Some((v, j)) => r is Some && targets_match(r.unwrap().0@, v) && r.unwrap().1
                == j && j <= n,
        },
    decreases n - i,
{
    if i >= n {
        return None;
    }
    if first && s.get_char(i) == '}' {
        return match results {
            Some(rs) => {
                proof {
                    assert(targets_match(rs@, rs@.map_values(|t: Target| abs_target(t))));
                }
                Some((rs, i + 1))
            },
            None => None,
        };
    }
    match parse_json_string(s, n, i) {
        Option::None => None,
        Option::Some((k, i2)) => {
            let i3 = skip_ws_exec(s, n, i2);
            if i3 < n && s.get_char(i3) == ':' {
                let i4 = skip_ws_exec(s, n, i3 + 1);
                let stepped: Option<(Option<Vec<Target>>, usize)> = if str_eqx(
                    k.as_str(),
                    "results",
                ) {
                    if i4 < n && s.get_char(i4) == '[' {
                        let nx = skip_ws_exec(s, n, i4 + 1);
                        let acc0: Vec<Target> = Vec::new();
                        proof {
                            assert(acc0@.map_values(|t: Target| abs_target(t))
                                =~= Seq::<SpecTarget>::empty());
                        }
                        match parse_targets_items(s, n, nx, acc0, true) {
                            Option::None => None,
                            Option::Some((v, j)) => {
                                proof {
                                    match spec_parse_targets(s@, i4 as int) {
                                        Option::Some((vs, jj)) => {
                                            assert(v@.map_values(|t: Target| abs_target(t))
                                                =~= vs);
                                        },
                                        Option::None => {},
                                    }
                                }
                                Some((Some(v), j))
                            },
                        }
                    } else {
                        None
                    }
                } else {
                    match skip_value_exec(s, n, i4) {
                        Option::None => None,
                        Option::Some(j) => Some((results, j)),
                    }
                };
                match stepped {
                    Option::None => None,
                    Option::Some((r2, j)) => {
                        proof {
                            if r2 is Some {
                                assert(targets_match(
                                    r2.unwrap()@,
                                    r2.unwrap()@.map_values(|t: Target| abs_target(t)),
                                ));
                            }
                        }
                        let j2 = skip_ws_exec(s, n, j);
                        if j2 < n && s.get_char(j2) == '}' {
                            match r2 {
                                Some(rs) => Some((rs, j2 + 1)),
                                None => None,
                            }
                        } else if j2 < n && s.get_char(j2) == ',' {
                            let nx = skip_ws_exec(s, n, j2 + 1);
                            if i < nx && nx <= n {
                                parse_locate_members(s, n, nx, r2, false)
                            } else {
                                None
                            }
                        } else {
                            None
                        }
                    },
                }
            } else {
                None
            }
        },
    }
}

/// Exec mirror of [`spec_parse_locate_text`]: parses one whole
/// discovery response.
pub fn locate_response_from_json(s: &str) -> (r: Option<LocateResponse>)
    ensures
        match spec_parse_locate_text(s@) {
            Option::None => r is None,
            Option::Some(v) => r is Some && targets_match(r.unwrap().results@, v),
        },
{
    let n = s.unicode_len();
    let i = skip_ws_exec(s, n, 0);
    if i < n && s.get_char(i) == '{' {
        let nx = skip_ws_exec(s, n, i + 1);
        match parse_locate_members(s, n, nx, None, true) {
            Option::None => None,
            Option::Some((rs, j)) => {
                let e = skip_ws_exec(s, n, j);
                if e == n {
                    Some(LocateResponse { results: rs })
                } else {
                    None
                }
            },
        }
    } else {
        None
    }
}

/// Classifies one discovery response by its HTTP status and body.
///
/// A "no content" status means the service is temporarily out of
/// capacity; any other non-success status is a discovery failure; a
/// success status carries a JSON body listing the nearest servers.
pub fn locate_outcome(status: u16, body: &str) -> (r: Result<Vec<Target>, Ndt7Error>)
    ensures
        status == 204 ==> (r matches Err(e) && e is NoCapacity),
        !(200 <= status < 300) ==> (r matches Err(e) && e is LocateFailed),
        200 <= status < 300 && status != 204 ==> match spec_parse_locate_text(body@) {
            Option::None => (r matches Err(e) && e is JsonError),
            Option::Some(v) => (r matches Ok(ts) && targets_match(ts@, v)),
        },
{
    if status < 200 || status >= 300 {
        let mut msg = String::from_str("discovery HTTP status ");
        crate::text::push_dec_u64(&mut msg, status as u64);
        return Err(Ndt7Error::LocateFailed(msg));
    }
    if status == 204 {
        return Err(Ndt7Error::NoCapacity);
    }
    match locate_response_from_json(body) {
        Option::Some(resp) => Ok(resp.results),
        Option::None => Err(
            Ndt7Error::JsonError(String::from_str("invalid discovery response body")),
        ),
    }
}

} // verus!
