//! The address of a request: an absolute URL, taken apart.
//!
//! Parsing and path replacement are the `url` crate's work. The library
//! keeps what they return as plain values, and every contract that depends
//! on them speaks of `parsed_url` and `url_with_path`, the names of their
//! results.

use crate::error::GarmataError;
use crate::text::same_text;
use url::{ParseError, Url};
use vstd::prelude::*;
use vstd::utf8::encode_utf8;

verus! {

/// The error of the `url` crate's parser.
#[verifier::external_type_specification]
#[verifier::external_body]
pub struct ExParseError(ParseError);

/// A parsed absolute URL.
#[derive(Debug, Clone)]
pub struct Address {
    /// The whole URL in its normal form.
    pub href: String,
    /// The scheme, in lower case and without the colon.
    pub scheme: String,
    /// The host as it stands in the URL, where the URL has one.
    pub host: Option<String>,
    /// Whether the host is a domain name, not an IP address.
    pub host_is_domain: bool,
    /// The port, where the URL names one that is not its scheme's default.
    pub port: Option<u16>,
    pub path: String,
    /// The query, without the question mark.
    pub query: Option<String>,
}

/// What an address holds, as plain sequences of characters.
pub struct AddressView {
    pub href: Seq<char>,
    pub scheme: Seq<char>,
    pub host: Option<Seq<char>>,
    pub host_is_domain: bool,
    pub port: Option<u16>,
    pub path: Seq<char>,
    pub query: Option<Seq<char>>,
}

/// The view of a string that may be absent.
pub open spec fn text_of(s: Option<String>) -> Option<Seq<char>> {
    match s {
        Some(t) => Some(t@),
        None => None,
    }
}

impl View for Address {
    type V = AddressView;

    open spec fn view(&self) -> AddressView {
        AddressView {
            href: self.href@,
            scheme: self.scheme@,
            host: text_of(self.host),
            host_is_domain: self.host_is_domain,
            port: self.port,
            path: self.path@,
            query: text_of(self.query),
        }
    }
}

/// What `Url::parse` makes of a text: the parts of the URL, or nothing where
/// the text is no absolute URL.
pub uninterp spec fn parsed_url(input: Seq<char>) -> Option<AddressView>;

/// What `Url::set_path` makes of the URL with the normal form `href` and a
/// new path: the parts of the changed URL, or nothing where `href` is no
/// absolute URL.
pub uninterp spec fn url_with_path(href: Seq<char>, path: Seq<char>) -> Option<AddressView>;

/// The number of bytes of a text in UTF-8.
pub open spec fn byte_len(s: Seq<char>) -> nat {
    encode_utf8(s).len()
}

/// The longest text, in bytes, that is handed to the URL parser when a path
/// is replaced: a URL may not grow beyond what 32 bits can count.
pub const PATH_LIMIT: usize = 0x3FFF_FFFF;

/// The URL and the new path are short enough for the path to be replaced.
pub open spec fn path_fits(href: Seq<char>, path: Seq<char>) -> bool {
    byte_len(href) <= PATH_LIMIT && byte_len(path) <= PATH_LIMIT
}

/// The port that a scheme uses where the URL names none.
pub open spec fn default_port(scheme: Seq<char>) -> Option<u16> {
    if scheme == "http"@ || scheme == "ws"@ {
        Some(80u16)
    } else if scheme == "https"@ || scheme == "wss"@ {
        Some(443u16)
    } else if scheme == "ftp"@ {
        Some(21u16)
    } else {
        None
    }
}

/// The port to connect to: the one that the URL names, else the default of
/// its scheme.
pub open spec fn known_port(a: AddressView) -> Option<u16> {
    match a.port {
        Some(p) => Some(p),
        None => default_port(a.scheme),
    }
}

/// The text of an IP address that stands as a host: an IPv6 address loses
/// its square brackets.
pub open spec fn ip_text(host: Seq<char>) -> Seq<char> {
    if host.len() >= 2 && host[0] == '[' {
        host.subrange(1, host.len() - 1)
    } else {
        host
    }
}

/// `Url::parse` of the `url` crate, with the parts of the URL read off by
/// its getters `as_str`, `scheme`, `host_str`, `domain`, `port`, `path` and
/// `query`. The parser's result is a function of the text alone; the
/// contract gives it the name `parsed_url` and claims nothing else of it.
#[verifier::external_body]
fn url_parse(input: &str) -> (r: Result<Address, ParseError>)
    ensures
        match r {
            Ok(a) => parsed_url(input@) == Some(a@),
            Err(_) => parsed_url(input@) is None,
        },
{
    let u = Url::parse(input)?;
    Ok(
        Address {
            href: u.as_str().to_owned(),
            scheme: u.scheme().to_owned(),
            host: u.host_str().map(str::to_owned),
            host_is_domain: u.domain().is_some(),
            port: u.port(),
            path: u.path().to_owned(),
            query: u.query().map(str::to_owned),
        },
    )
}

/// `Url::set_path` of the `url` crate, on the URL that `Url::parse` makes of
/// `href`, with the parts of the changed URL read off as in `url_parse`. The
/// result is a function of the two texts alone; the contract gives it the
/// name `url_with_path` and claims nothing else of it. The crate counts a
/// URL's bytes in 32 bits and may panic beyond that, and a path can grow
/// threefold when it is escaped: hence the bound on the lengths.
#[verifier::external_body]
fn url_set_path(href: &str, path: &str) -> (r: Option<Address>)
    requires
        path_fits(href@, path@),
    ensures
        match r {
            Some(a) => url_with_path(href@, path@) == Some(a@),
            None => url_with_path(href@, path@) is None,
        },
{
    let mut u = Url::parse(href).ok()?;
    u.set_path(path);
    Some(
        Address {
            href: u.as_str().to_owned(),
            scheme: u.scheme().to_owned(),
            host: u.host_str().map(str::to_owned),
            host_is_domain: u.domain().is_some(),
            port: u.port(),
            path: u.path().to_owned(),
            query: u.query().map(str::to_owned),
        },
    )
}

/// The `Display` text of the `url` crate's `ParseError`: the parser's own
/// words for why a text is no URL. Nothing is claimed of the text.
#[verifier::external_body]
fn describe(e: ParseError) -> String {
    e.to_string()
}

impl Address {
    /// Parses an absolute URL. The parts are what the `url` crate makes of
    /// the text; where it makes nothing of it, the error carries its words.
    pub fn parse(input: &str) -> (r: Result<Address, GarmataError>)
        ensures
            match r {
                Ok(a) => parsed_url(input@) == Some(a@),
                Err(_) => parsed_url(input@) is None,
            },
    {
        match url_parse(input) {
            Ok(a) => Ok(a),
            Err(e) => Err(GarmataError { reason: describe(e) }),
        }
    }

    /// The address with its path replaced, scheme, host, port and query
    /// kept. Fails where a text is too long to hand to the URL parser, with
    /// `redirect location is too long`, and where the parser makes nothing
    /// of this address, with `cannot replace the path of the url`.
    pub fn with_path(&self, path: &str) -> (r: Result<Address, GarmataError>)
        ensures
            match r {
                Ok(a) => path_fits(self@.href, path@) && url_with_path(self@.href, path@) == Some(
                    a@,
                ),
                Err(e) => if path_fits(self@.href, path@) {
                    url_with_path(self@.href, path@) is None && e.reason@
                        == "cannot replace the path of the url"@
                } else {
                    e.reason@ == "redirect location is too long"@
                },
            },
    {
        if self.href.as_str().as_bytes().len() > PATH_LIMIT || path.as_bytes().len() > PATH_LIMIT {
            return Err(GarmataError::new("redirect location is too long"));
        }
        match url_set_path(self.href.as_str(), path) {
            Some(a) => Ok(a),
            None => Err(GarmataError::new("cannot replace the path of the url")),
        }
    }

    /// The port to connect to: the one that the URL names, else the default
    /// of its scheme, if it has one.
    pub fn port_or_known_default(&self) -> (r: Option<u16>)
        ensures
            r == known_port(self@),
    {
        match self.port {
            Some(p) => Some(p),
            None => {
                let scheme = self.scheme.as_str();
                if same_text(scheme, "http") || same_text(scheme, "ws") {
                    Some(80)
                } else if same_text(scheme, "https") || same_text(scheme, "wss") {
                    Some(443)
                } else if same_text(scheme, "ftp") {
                    Some(21)
                } else {
                    None
                }
            },
        }
    }

    /// Whether requests to this address go through TLS.
    pub fn is_https(&self) -> (r: bool)
        ensures
            r == (self@.scheme == "https"@),
    {
        same_text(self.scheme.as_str(), "https")
    }
}

} // verus!
