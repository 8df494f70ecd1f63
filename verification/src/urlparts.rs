//! The parts of a URL that the crawler keeps, and how they are obtained
//! from the `url` crate and written back as text.

use vstd::prelude::*;
use crate::text::{decimal, decimal_chars, string_of};

verus! {

broadcast use vstd::string::group_string_axioms;

/// What `url::Url::parse` makes of `input`, when it accepts it: the scheme,
/// the host written as text (absent for URLs without one), the path, and
/// the port when it is given and is not the scheme's default.
pub uninterp spec fn url_components(input: Seq<char>) -> Option<
    (Seq<char>, Option<Seq<char>>, Seq<char>, Option<u16>),
>;

/// The message (`to_string` of the `url::ParseError`) with which
/// `url::Url::parse` refuses `input`.
pub uninterp spec fn url_error_message(input: Seq<char>) -> Seq<char>;

/// The components of a parsed URL as plain values.
pub struct UrlFields {
    pub scheme: String,
    pub host: Option<String>,
    pub path: String,
    pub port: Option<u16>,
}

/// The view of an optional string.
pub open spec fn opt_chars(o: Option<String>) -> Option<Seq<char>> {
    match o {
        Some(s) => Some(s@),
        None => None,
    }
}

impl View for UrlFields {
    type V = (Seq<char>, Option<Seq<char>>, Seq<char>, Option<u16>);

    open spec fn view(&self) -> Self::V {
        (self.scheme@, opt_chars(self.host), self.path@, self.port)
    }
}

/// `url::Url::parse` followed by its accessors `scheme`, `host` (written
/// with `to_string`), `path` and `port`, and, on failure, by `to_string` of
/// the `url::ParseError`.  The contract claims that the call succeeds
/// exactly when `url_components` names a result for `input`, that the
/// fields handed back are those components, and that a failure carries the
/// message that `url_error_message` names for `input`.
#[verifier::external_body]
fn parse_url_fields(input: &str) -> (r: Result<UrlFields, String>)
    ensures
        r is Ok <==> url_components(input@) is Some,
        r matches Ok(f) ==> url_components(input@) == Some(f@),
        r matches Err(m) ==> m@ == url_error_message(input@),
{
    match url::Url::parse(input) {
        Ok(u) => Ok(
            UrlFields {
                scheme: u.scheme().to_string(),
                host: u.host().map(|h| h.to_string()),
                path: u.path().to_string(),
                port: u.port(),
            },
        ),
        Err(e) => Err(e.to_string()),
    }
}

/// A URL as scheme, host, path and port; a negative port means that none
/// was given.
#[derive(Debug)]
pub struct UrlParts {
    scheme: String,
    host: String,
    path: String,
    port: i32,
}

/// The mathematical content of a `UrlParts`.
pub struct UrlPartsView {
    pub scheme: Seq<char>,
    pub host: Seq<char>,
    pub path: Seq<char>,
    pub port: i32,
}

impl View for UrlParts {
    type V = UrlPartsView;

    closed spec fn view(&self) -> UrlPartsView {
        UrlPartsView { scheme: self.scheme@, host: self.host@, path: self.path@, port: self.port }
    }
}

/// The port kept for an optional explicit port: the port itself, or -1.
pub open spec fn port_value(p: Option<u16>) -> i32 {
    match p {
        Some(v) => v as i32,
        None => -1i32,
    }
}

/// The parts kept from parsed components, or `None` when there is no host.
pub open spec fn parts_of_components(
    c: (Seq<char>, Option<Seq<char>>, Seq<char>, Option<u16>),
) -> Option<UrlPartsView> {
    match c.1 {
        Some(h) => Some(UrlPartsView { scheme: c.0, host: h, path: c.2, port: port_value(c.3) }),
        None => None,
    }
}

/// The same parts with an `http` scheme raised to `https`.
pub open spec fn secured(u: UrlPartsView) -> UrlPartsView {
    UrlPartsView {
        scheme: if u.scheme == "http"@ { "https"@ } else { u.scheme },
        ..u
    }
}

/// What `get_url_parts` gives for `input`: the parts, or the message of
/// the failure (the parse error's message after `UrlParse error `, or
/// `UrlHost error` for a URL without a host).
pub open spec fn url_parts_result(input: Seq<char>) -> Result<UrlPartsView, Seq<char>> {
    match url_components(input) {
        None => Err(parse_error_prefix() + url_error_message(input)),
        Some(c) => match parts_of_components(c) {
            Some(u) => Ok(u),
            None => Err(host_error_text()),
        },
    }
}

/// What `get_tls_url_parts` gives for `input`: as `get_url_parts`, with an
/// `http` scheme raised to `https`.
pub open spec fn tls_url_parts_result(input: Seq<char>) -> Result<UrlPartsView, Seq<char>> {
    match url_parts_result(input) {
        Ok(u) => Ok(secured(u)),
        Err(m) => Err(m),
    }
}

/// The parts that `get_url_parts` gives for `input`, `None` when it fails.
pub open spec fn url_parts_of(input: Seq<char>) -> Option<UrlPartsView> {
    match url_parts_result(input) {
        Ok(u) => Some(u),
        Err(_) => None,
    }
}

/// The parts that `get_tls_url_parts` gives for `input`, `None` when it fails.
pub open spec fn tls_url_parts_of(input: Seq<char>) -> Option<UrlPartsView> {
    match tls_url_parts_result(input) {
        Ok(u) => Some(u),
        Err(_) => None,
    }
}

/// The text of a URL as `to_url` writes it.
pub open spec fn url_text(u: UrlPartsView) -> Seq<char> {
    if u.port < 0 {
        u.scheme + "://"@ + u.host + u.path
    } else {
        u.scheme + "://"@ + u.host + ":"@ + decimal(u.port as nat) + u.path
    }
}

/// The message of a failure to find a host.
pub open spec fn host_error_text() -> Seq<char> {
    "UrlHost error"@
}

/// The prefix of the message of a failure of `url::Url::parse`.
pub open spec fn parse_error_prefix() -> Seq<char> {
    "UrlParse error "@
}

impl UrlParts {
    fn new() -> (r: Self)
        ensures
            r@ == (UrlPartsView { scheme: Seq::empty(), host: Seq::empty(), path: Seq::empty(), port: -1i32 }),
    {
        UrlParts { scheme: String::new(), host: String::new(), path: String::new(), port: -1 }
    }

    /// The URL written out: `scheme://host[:port]path`.
    pub fn to_url(&self) -> (r: String)
        ensures
            r@ == url_text(self@),
    {
        let mut r = self.scheme.clone();
        r.append("://");
        r.append(self.host.as_str());
        if self.port >= 0 {
            r.append(":");
            let digits = decimal_chars(self.port as u32);
            let port_text = string_of(digits.as_slice());
            r.append(port_text.as_str());
        }
        r.append(self.path.as_str());
        r
    }

    /// The scheme.
    pub fn get_scheme(&self) -> (r: String)
        ensures
            r@ == self@.scheme,
    {
        self.scheme.clone()
    }
}

/// The parts kept from what `url::Url::parse` returned: an error when the
/// URL has no host.
pub fn url_parts_from(fields: UrlFields) -> (r: Result<UrlParts, String>)
    ensures
        match r {
            Ok(u) => parts_of_components(fields@) == Some(u@),
            Err(m) => parts_of_components(fields@) is None && m@ == host_error_text(),
        },
{
    let mut parts = UrlParts::new();
    parts.scheme = fields.scheme;
    parts.host = match fields.host {
        Some(h) => h,
        None => return Err(String::from_str("UrlHost error")),
    };
    parts.path = fields.path;
    parts.port = match fields.port {
        Some(v) => v as i32,
        None => -1,
    };
    Ok(parts)
}

/// As `url_parts_from`, with an `http` scheme raised to `https`.
pub fn tls_url_parts_from(fields: UrlFields) -> (r: Result<UrlParts, String>)
    ensures
        match r {
            Ok(u) => parts_of_components(fields@) matches Some(p) && u@ == secured(p),
            Err(m) => parts_of_components(fields@) is None && m@ == host_error_text(),
        },
{
    let http = String::from_str("http");
    let mut parts = UrlParts::new();
    if fields.scheme == http {
        parts.scheme = String::from_str("https");
    } else {
        parts.scheme = fields.scheme;
    }
    parts.host = match fields.host {
        Some(h) => h,
        None => return Err(String::from_str("UrlHost error")),
    };
    parts.path = fields.path;
    parts.port = match fields.port {
        Some(v) => v as i32,
        None => -1,
    };
    Ok(parts)
}

fn parse_failure(msg: String) -> (m: String)
    ensures
        m@ == parse_error_prefix() + msg@,
{
    let mut m = String::from_str("UrlParse error ");
    m.append(msg.as_str());
    m
}

/// Splits `url` into scheme, host, path and port with `url::Url::parse`.
pub fn get_url_parts(url: &String) -> (r: Result<UrlParts, String>)
    ensures
        r matches Ok(u) ==> url_parts_result(url@) == Ok::<UrlPartsView, Seq<char>>(u@),
        r matches Err(m) ==> url_parts_result(url@) == Err::<UrlPartsView, Seq<char>>(m@),
{
    match parse_url_fields(url.as_str()) {
        Ok(f) => url_parts_from(f),
        Err(e) => Err(parse_failure(e)),
    }
}

/// As `get_url_parts`, with an `http` scheme raised to `https`.
pub fn get_tls_url_parts(url: &String) -> (r: Result<UrlParts, String>)
    ensures
        r matches Ok(u) ==> tls_url_parts_result(url@) == Ok::<UrlPartsView, Seq<char>>(u@),
        r matches Err(m) ==> tls_url_parts_result(url@) == Err::<UrlPartsView, Seq<char>>(m@),
{
    match parse_url_fields(url.as_str()) {
        Ok(f) => tls_url_parts_from(f),
        Err(e) => Err(parse_failure(e)),
    }
}

/// A URL that `get_url_parts` accepts is accepted by `get_tls_url_parts`
/// too, with the same host, path and port, and with the scheme raised to
/// `https` when it is `http` and kept otherwise; a URL that one refuses the
/// other refuses with the same message.
pub proof fn law_tls_parts_agree(input: Seq<char>)
    ensures
        url_parts_result(input) matches Err(m) ==> tls_url_parts_result(input) == Err::<
            UrlPartsView,
            Seq<char>,
        >(m),
        tls_url_parts_result(input) matches Err(m) ==> url_parts_result(input) == Err::<
            UrlPartsView,
            Seq<char>,
        >(m),
        url_parts_of(input) is Some <==> tls_url_parts_of(input) is Some,
        url_parts_of(input) matches Some(u) ==> {
            let t = tls_url_parts_of(input)->0;
            &&& t.host == u.host
            &&& t.path == u.path
            &&& t.port == u.port
            &&& (u.scheme == "http"@ ==> t.scheme == "https"@)
            &&& (u.scheme != "http"@ ==> t.scheme == u.scheme)
        },
{
}

} // verus!
