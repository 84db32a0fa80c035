//! The test client: identity, connection-request preparation and
//! target resolution.
//!
//! Establishing the encrypted connection itself is transport work that
//! lives outside this library; everything the transport needs that can
//! be computed — the endpoint URL with the client identity appended,
//! the user agent, the classification of an explicit service URL, the
//! choice among discovered targets — is computed and verified here.

use vstd::prelude::*;
use vstd::string::StringExecFns;

use crate::error::Ndt7Error;
use crate::locate::Target;
use crate::params::DOWNLOAD_URL_PATH;
use crate::params::UPLOAD_URL_PATH;
use crate::text::contains_seq;
use crate::text::str_contains;

verus! {

/// This library's name, as reported in the user agent.
pub const LIB_NAME: &'static str = "ndt7_client";

/// This library's version, as reported in the user agent.
pub const LIB_VERSION: &'static str = "0.1.0";

/// An ndt7 test client.
///
/// Use [`ClientBuilder`] to create a client. Target resolution and
/// request preparation are verified methods here; the surrounding
/// program drives the network.
pub struct Client {
    /// Name of the calling application.
    pub client_name: String,
    /// Version of the calling application.
    pub client_version: String,
    /// Whether certificate verification is disabled (diagnostic use
    /// only).
    pub no_verify_tls: bool,
}

/// Builder for [`Client`].
pub struct ClientBuilder {
    /// Name of the calling application.
    pub client_name: String,
    /// Version of the calling application.
    pub client_version: String,
    /// Whether certificate verification is disabled.
    pub no_verify_tls: bool,
}

/// Result of resolving test targets: a server identity and up to one
/// endpoint URL per subtest.
#[derive(Debug)]
pub struct LocateResult {
    /// Fully qualified domain name of the selected server.
    pub server_fqdn: String,
    /// Endpoint URL for the download test, if available.
    pub download_url: Option<String>,
    /// Endpoint URL for the upload test, if available.
    pub upload_url: Option<String>,
}

impl ClientBuilder {
    /// Create a new builder. `client_name` and `client_version`
    /// identify the calling application in requests to test servers.
    pub fn new(client_name: String, client_version: String) -> (r: ClientBuilder)
        ensures
            r.client_name@ == client_name@,
            r.client_version@ == client_version@,
            !r.no_verify_tls,
    {
        ClientBuilder { client_name, client_version, no_verify_tls: false }
    }

    /// Skip certificate verification. Unsafe against active attackers;
    /// for diagnostic use against self-signed servers only.
    pub fn danger_no_verify_tls(self) -> (r: ClientBuilder)
        ensures
            r.client_name@ == self.client_name@,
            r.client_version@ == self.client_version@,
            r.no_verify_tls,
    {
        ClientBuilder {
            client_name: self.client_name,
            client_version: self.client_version,
            no_verify_tls: true,
        }
    }

    /// Build the [`Client`].
    pub fn build(self) -> (r: Client)
        ensures
            r.client_name@ == self.client_name@,
            r.client_version@ == self.client_version@,
            r.no_verify_tls == self.no_verify_tls,
    {
        Client {
            client_name: self.client_name,
            client_version: self.client_version,
            no_verify_tls: self.no_verify_tls,
        }
    }
}

/// The user agent for an application identity: the application's name
/// and version, then this library's.
pub open spec fn spec_user_agent(name: Seq<char>, version: Seq<char>) -> Seq<char> {
    name + "/"@ + version + " "@ + LIB_NAME@ + "/"@ + LIB_VERSION@
}

/// Whether `url::Url::parse` accepts this text. Relied upon by the
/// trusted wrappers below.
pub uninterp spec fn url_parse_ok(s: Seq<char>) -> bool;

/// The host of a parsed URL, as `url::Url::host_str` reports it.
pub uninterp spec fn url_host_of(s: Seq<char>) -> Option<Seq<char>>;

/// The path of a parsed URL, as `url::Url::path` reports it.
pub uninterp spec fn url_path_of(s: Seq<char>) -> Seq<char>;

/// The URL with the four client-identity query parameters appended, as
/// the url crate serializes it.
pub uninterp spec fn url_with_client_params(
    s: Seq<char>,
    name: Seq<char>,
    version: Seq<char>,
    os: Seq<char>,
    arch: Seq<char>,
) -> Seq<char>;

/// Relies on url's `Url::parse`, `Url::host_str` and `Url::path`:
/// parsing succeeds or fails on the text alone, and a parsed URL
/// reports its host (absent for URLs without one) and its path.
#[verifier::external_body]
fn parse_host_and_path(s: &str) -> (r: Result<(Option<String>, String), String>)
    ensures
        r is Ok <==> url_parse_ok(s@),
        r matches Ok((h, p)) ==> p@ == url_path_of(s@) && match (h, url_host_of(s@)) {
            (Option::Some(x), Option::Some(y)) => x@ == y,
            (Option::None, Option::None) => true,
            _ => false,
        },
{
    match url::Url::parse(s) {
        Ok(u) => Ok((u.host_str().map(|h| h.to_string()), u.path().to_string())),
        Err(e) => Err(e.to_string()),
    }
}

/// Relies on url's `Url::parse`, `Url::query_pairs_mut` with
/// form_urlencoded's `Serializer::append_pair`, and `Url::as_str`:
/// appending query pairs keeps existing ones (notably an access token)
/// and the result is a function of the URL and the four values alone.
#[verifier::external_body]
fn append_client_params(s: &str, name: &str, version: &str, os: &str, arch: &str) -> (r: Result<
    String,
    String,
>)
    ensures
        r is Ok <==> url_parse_ok(s@),
        r matches Ok(u) ==> u@ == url_with_client_params(s@, name@, version@, os@, arch@),
{
    match url::Url::parse(s) {
        Ok(mut u) => {
            u.query_pairs_mut()
                .append_pair("client_name", name)
                .append_pair("client_version", version)
                .append_pair("client_os", os)
                .append_pair("client_arch", arch);
            Ok(u.as_str().to_string())
        },
        Err(e) => Err(e.to_string()),
    }
}

impl Client {
    /// The user agent naming the application and this library.
    pub fn user_agent(&self) -> (r: String)
        ensures
            r@ == spec_user_agent(self.client_name@, self.client_version@),
    {
        let mut s = self.client_name.clone();
        s.append("/");
        s.append(self.client_version.as_str());
        s.append(" ");
        s.append(LIB_NAME);
        s.append("/");
        s.append(LIB_VERSION);
        proof {
            assert(s@ =~= spec_user_agent(self.client_name@, self.client_version@));
        }
        s
    }

    /// The URL to open the connection with: the service URL with the
    /// client identity appended as query parameters, existing
    /// parameters (notably an access token) untouched.
    pub fn connect_request_url(&self, service_url: &str, os: &str, arch: &str) -> (r: Result<
        String,
        Ndt7Error,
    >)
        ensures
            r is Ok <==> url_parse_ok(service_url@),
            r matches Ok(u) ==> u@ == url_with_client_params(
                service_url@,
                self.client_name@,
                self.client_version@,
                os@,
                arch@,
            ),
            r matches Err(e) ==> e is UrlParse,
    {
        match append_client_params(
            service_url,
            self.client_name.as_str(),
            self.client_version.as_str(),
            os,
            arch,
        ) {
            Ok(u) => Ok(u),
            Err(msg) => Err(Ndt7Error::UrlParse(msg)),
        }
    }
}

/// Classifies an explicit service URL by its path: a URL whose path
/// contains the download marker resolves to a download-only target, one
/// with the upload marker to an upload-only target, and any other path
/// is unsupported — no connection is attempted for it.
pub fn targets_from_service_url(service_url: &str) -> (r: Result<LocateResult, Ndt7Error>)
    ensures
        !url_parse_ok(service_url@) ==> (r matches Err(e) && e is UrlParse),
        url_parse_ok(service_url@) ==> match url_host_of(service_url@) {
            Option::None => (r matches Err(e) && e is NoTargets),
            Option::Some(host) => {
                let path = url_path_of(service_url@);
                if contains_seq(path, DOWNLOAD_URL_PATH@) {
                    r matches Ok(t) && t.server_fqdn@ == host && (t.download_url matches Some(u)
                        && u@ == service_url@) && t.upload_url is None
                } else if contains_seq(path, UPLOAD_URL_PATH@) {
                    r matches Ok(t) && t.server_fqdn@ == host && t.download_url is None && (
                    t.upload_url matches Some(u) && u@ == service_url@)
                } else {
                    r matches Err(e) && e is ServiceUnsupported
                }
            },
        },
{
    match parse_host_and_path(service_url) {
        Err(msg) => Err(Ndt7Error::UrlParse(msg)),
        Ok((host, path)) => {
            let fqdn = match host {
                Option::Some(h) => h,
                Option::None => {
                    return Err(Ndt7Error::NoTargets);
                },
            };
            if str_contains(path.as_str(), DOWNLOAD_URL_PATH) {
                Ok(
                    LocateResult {
                        server_fqdn: fqdn,
                        download_url: Some(String::from_str(service_url)),
                        upload_url: None,
                    },
                )
            } else if str_contains(path.as_str(), UPLOAD_URL_PATH) {
                Ok(
                    LocateResult {
                        server_fqdn: fqdn,
                        download_url: None,
                        upload_url: Some(String::from_str(service_url)),
                    },
                )
            } else {
                let mut msg = String::from_str("path must contain ");
                msg.append(DOWNLOAD_URL_PATH);
                msg.append(" or ");
                msg.append(UPLOAD_URL_PATH);
                Err(Ndt7Error::ServiceUnsupported(msg))
            }
        },
    }
}

/// The endpoint URL synthesized from a bare server name.
pub open spec fn spec_server_url(server: Seq<char>, no_tls: bool, path: Seq<char>) -> Seq<char> {
    (if no_tls {
        "ws://"@
    } else {
        "wss://"@
    }) + server + path
}

/// Synthesizes both endpoint URLs from an explicit server name, with
/// the encrypted scheme unless plaintext was chosen, and either subtest
/// independently suppressed by caller preference.
pub fn targets_from_server(server: &str, no_tls: bool, no_download: bool, no_upload: bool) -> (r:
    LocateResult)
    ensures
        r.server_fqdn@ == server@,
        if no_download {
            r.download_url is None
        } else {
            r.download_url matches Some(u) && u@ == spec_server_url(
                server@,
                no_tls,
                DOWNLOAD_URL_PATH@,
            )
        },
        if no_upload {
            r.upload_url is None
        } else {
            r.upload_url matches Some(u) && u@ == spec_server_url(server@, no_tls, UPLOAD_URL_PATH@)
        },
{
    let scheme: &str = if no_tls {
        "ws://"
    } else {
        "wss://"
    };
    let download_url = if no_download {
        None
    } else {
        let mut u = String::from_str(scheme);
        u.append(server);
        u.append(DOWNLOAD_URL_PATH);
        Some(u)
    };
    let upload_url = if no_upload {
        None
    } else {
        let mut u = String::from_str(scheme);
        u.append(server);
        u.append(UPLOAD_URL_PATH);
        Some(u)
    };
    LocateResult { server_fqdn: String::from_str(server), download_url, upload_url }
}

/// The endpoint URL that the service-key list yields for a path
/// marker: the URL of the last key containing it.
pub open spec fn extract_url(urls: Seq<(Seq<char>, Seq<char>)>, marker: Seq<char>) -> Option<
    Seq<char>,
>
    decreases urls.len(),
{
    if urls.len() == 0 {
        None
    } else if contains_seq(urls.last().0, marker) {
        Some(urls.last().1)
    } else {
        extract_url(urls.drop_last(), marker)
    }
}

/// As [`extract_url`], but a key containing the excluded marker does
/// not count: keys are classified by the first marker they contain.
pub open spec fn extract_url_excl(
    urls: Seq<(Seq<char>, Seq<char>)>,
    marker: Seq<char>,
    excl: Seq<char>,
) -> Option<Seq<char>>
    decreases urls.len(),
{
    if urls.len() == 0 {
        None
    } else if !contains_seq(urls.last().0, excl) && contains_seq(urls.last().0, marker) {
        Some(urls.last().1)
    } else {
        extract_url_excl(urls.drop_last(), marker, excl)
    }
}

/// Selects the first (closest) discovered target and extracts its
/// subtest endpoint URLs by matching service keys against the two path
/// markers. An empty discovery result has no targets.
pub fn select_target(targets: Vec<Target>) -> (r: Result<LocateResult, Ndt7Error>)
    ensures
        targets@.len() == 0 ==> (r matches Err(e) && e is NoTargets),
        targets@.len() > 0 ==> (r matches Ok(t) && {
            let urls = crate::locate::abs_target(targets@[0]).urls;
            &&& t.server_fqdn@ == targets@[0].machine@
            &&& match (t.download_url, extract_url(urls, DOWNLOAD_URL_PATH@)) {
                (Option::Some(u), Option::Some(v)) => u@ == v,
                (Option::None, Option::None) => true,
                _ => false,
            }
            &&& match (t.upload_url, extract_url_excl(urls, UPLOAD_URL_PATH@, DOWNLOAD_URL_PATH@)) {
                (Option::Some(u), Option::Some(v)) => u@ == v,
                (Option::None, Option::None) => true,
                _ => false,
            }
        }),
{
    let mut targets = targets;
    if targets.len() == 0 {
        return Err(Ndt7Error::NoTargets);
    }
    let target = targets.remove(0);
    let ghost urls_v = crate::locate::abs_target(target).urls;
    let mut dl_url: Option<String> = None;
    let mut ul_url: Option<String> = None;
    let m = target.urls.len();
    let mut i: usize = 0;
    while i < m
        invariant
            m == target.urls@.len(),
            i <= m,
            urls_v == crate::locate::abs_urls(target.urls@),
            match (dl_url, extract_url(urls_v.subrange(0, i as int), DOWNLOAD_URL_PATH@)) {
                (Option::Some(u), Option::Some(v)) => u@ == v,
                (Option::None, Option::None) => true,
                _ => false,
            },
            match (
                ul_url,
                extract_url_excl(
                    urls_v.subrange(0, i as int),
                    UPLOAD_URL_PATH@,
                    DOWNLOAD_URL_PATH@,
                ),
            ) {
                (Option::Some(u), Option::Some(v)) => u@ == v,
                (Option::None, Option::None) => true,
                _ => false,
            },
        decreases m - i,
    {
        let key: &String = &target.urls[i].0;
        let url: &String = &target.urls[i].1;
        proof {
            let pre = urls_v.subrange(0, i as int);
            let now = urls_v.subrange(0, i as int + 1);
            assert(now =~= pre.push(urls_v[i as int]));
            assert(now.drop_last() =~= pre);
            assert(now.last() == urls_v[i as int]);
            assert(urls_v[i as int].0 == key@ && urls_v[i as int].1 == url@);
        }
        if str_contains(key.as_str(), DOWNLOAD_URL_PATH) {
            dl_url = Some(url.clone());
        } else if str_contains(key.as_str(), UPLOAD_URL_PATH) {
            ul_url = Some(url.clone());
        }
        i = i + 1;
    }
    proof {
        assert(urls_v.subrange(0, m as int) =~= urls_v);
    }
    Ok(
        LocateResult {
            server_fqdn: target.machine,
            download_url: dl_url,
            upload_url: ul_url,
        },
    )
}

} // verus!
