//! Site addresses: the parts of a parsed URL that the shell reads, and the
//! same-site test used to decide whether a window has to be re-navigated.

use vstd::prelude::*;

verus! {

/// What the shell reads of a parsed absolute URL.
#[derive(Clone, Debug)]
pub struct UrlParts {
    /// Lower-case scheme, without the `:`.
    pub scheme: String,
    /// Host as serialized, if the URL has one.
    pub host: Option<String>,
    /// Explicit port, or the scheme's well-known default port.
    pub port: Option<u16>,
    /// The full serialization of the URL.
    pub href: String,
}

pub struct UrlPartsView {
    pub scheme: Seq<char>,
    pub host: Option<Seq<char>>,
    pub port: Option<u16>,
    pub href: Seq<char>,
}

pub open spec fn opt_str_view(o: Option<String>) -> Option<Seq<char>> {
    match o {
        Some(s) => Some(s@),
        None => None,
    }
}

impl View for UrlParts {
    type V = UrlPartsView;

    open spec fn view(&self) -> UrlPartsView {
        UrlPartsView {
            scheme: self.scheme@,
            host: opt_str_view(self.host),
            port: self.port,
            href: self.href@,
        }
    }
}

/// The outcome of `url::Url::parse` on `input`: the parts of the parsed URL,
/// or the display text of the parse error.
pub uninterp spec fn url_parse(input: Seq<char>) -> Result<UrlPartsView, Seq<char>>;

/// Parses `input` with `url::Url::parse` and reads the result back through
/// `scheme`, `host_str`, `port_or_known_default` and its serialization; an
/// error is returned as its display text. The contract only ties the outcome
/// to `url_parse` of the input: the WHATWG parsing rules themselves are not
/// restated here.
#[verifier::external_body]
pub(crate) fn parse_url(input: &str) -> (r: Result<UrlParts, String>)
    ensures
        match r {
            Ok(p) => url_parse(input@) == Ok::<UrlPartsView, Seq<char>>(p@),
            Err(e) => url_parse(input@) == Err::<UrlPartsView, Seq<char>>(e@),
        },
{
    match url::Url::parse(input) {
        Ok(u) => Ok(UrlParts {
            scheme: u.scheme().to_string(),
            host: u.host_str().map(|h| h.to_string()),
            port: u.port_or_known_default(),
            href: u.to_string(),
        }),
        Err(e) => Err(e.to_string()),
    }
}

/// Two URLs point at the same site when scheme, host and port agree.
pub open spec fn same_site_spec(a: UrlPartsView, b: UrlPartsView) -> bool {
    a.scheme == b.scheme && a.host == b.host && a.port == b.port
}

fn opt_string_eq(a: &Option<String>, b: &Option<String>) -> (r: bool)
    ensures
        r == (opt_str_view(*a) == opt_str_view(*b)),
{
    match (a, b) {
        (Some(x), Some(y)) => *x == *y,
        (None, None) => true,
        _ => false,
    }
}

/// Whether `a` and `b` point at the same site (scheme, host and port agree).
pub fn same_site(a: &UrlParts, b: &UrlParts) -> (r: bool)
    ensures
        r == same_site_spec(a@, b@),
{
    a.scheme == b.scheme && opt_string_eq(&a.host, &b.host) && a.port == b.port
}

} // verus!
