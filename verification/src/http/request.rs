//! The request: what is sent, and how it is written on the wire.

use crate::http::address::{Address, AddressView};
use crate::http::cookies::{views_of, Cookie, CookieView};
use crate::text::{
    decimal, decimal_text, lowercase, lowercase_of, same_text, uppercase, uppercase_of,
};
use vstd::prelude::*;

verus! {

/// One HTTP request.
#[derive(Debug)]
pub struct HttpRequest {
    pub http_version: String,
    /// The header fields in the order in which their names first came, each
    /// name in lower case and at most once.
    pub headers: Vec<(String, String)>,
    pub method: String,
    pub url: Address,
    pub body: String,
}

/// What a request holds, as plain sequences of characters.
pub struct RequestView {
    pub http_version: Seq<char>,
    pub headers: Seq<(Seq<char>, Seq<char>)>,
    pub method: Seq<char>,
    pub url: AddressView,
    pub body: Seq<char>,
}

impl View for HttpRequest {
    type V = RequestView;

    open spec fn view(&self) -> RequestView {
        RequestView {
            http_version: self.http_version@,
            headers: self.headers.deep_view(),
            method: self.method@,
            url: self.url@,
            body: self.body@,
        }
    }
}

/// The header fields that every request starts with.
pub open spec fn default_headers() -> Seq<(Seq<char>, Seq<char>)> {
    seq![("accept"@, "*/*"@), ("accept-encoding"@, "gzip, deflate, br"@)]
}

/// A header name that a flow may not set: the request writes these fields
/// itself, from the URL and from the cookie jar.
pub open spec fn is_reserved(name: Seq<char>) -> bool {
    name == "host"@ || name == "cookie"@
}

/// No name occurs twice among the header fields.
pub open spec fn distinct_names(headers: Seq<(Seq<char>, Seq<char>)>) -> bool {
    forall|i: int, j: int|
        0 <= i < j < headers.len() ==> (#[trigger] headers[i]).0 != (#[trigger] headers[j]).0
}

/// The header fields after setting one: the field with this name gets the
/// new value where it stands, and without one the field goes to the end.
pub open spec fn set_header(
    headers: Seq<(Seq<char>, Seq<char>)>,
    name: Seq<char>,
    value: Seq<char>,
) -> Seq<(Seq<char>, Seq<char>)>
    decreases headers.len(),
{
    if headers.len() == 0 {
        seq![(name, value)]
    } else if headers[0].0 == name {
        seq![(name, value)] + headers.drop_first()
    } else {
        seq![headers[0]] + set_header(headers.drop_first(), name, value)
    }
}

/// The header fields after setting one of a flow, its name in lower case:
/// a reserved name is passed over.
pub open spec fn flow_header(
    headers: Seq<(Seq<char>, Seq<char>)>,
    name: Seq<char>,
    value: Seq<char>,
) -> Seq<(Seq<char>, Seq<char>)> {
    if is_reserved(name) {
        headers
    } else {
        set_header(headers, name, value)
    }
}

/// The header fields after setting those of a flow, in order: each name is
/// put in lower case, and the reserved names are passed over.
pub open spec fn with_headers(
    headers: Seq<(Seq<char>, Seq<char>)>,
    extra: Seq<(Seq<char>, Seq<char>)>,
) -> Seq<(Seq<char>, Seq<char>)>
    decreases extra.len(),
{
    if extra.len() == 0 {
        headers
    } else {
        flow_header(
            with_headers(headers, extra.drop_last()),
            lowercase_of(extra.last().0),
            extra.last().1,
        )
    }
}

/// The header fields as lines, each `name: value` with a line break.
pub open spec fn header_lines(headers: Seq<(Seq<char>, Seq<char>)>) -> Seq<char>
    decreases headers.len(),
{
    if headers.len() == 0 {
        Seq::empty()
    } else {
        header_lines(headers.drop_last()) + headers.last().0 + ": "@ + headers.last().1 + "\r\n"@
    }
}

/// The cookies as `name=value` pairs, separated by `"; "`.
pub open spec fn cookie_pairs(cookies: Seq<CookieView>) -> Seq<char>
    decreases cookies.len(),
{
    if cookies.len() == 0 {
        Seq::empty()
    } else if cookies.len() == 1 {
        cookies[0].name + "="@ + cookies[0].value
    } else {
        cookie_pairs(cookies.drop_last()) + "; "@ + cookies.last().name + "="@
            + cookies.last().value
    }
}

/// The cookie line of a request: one line with all the cookies, or nothing
/// where there are none.
pub open spec fn cookie_line(cookies: Seq<CookieView>) -> Seq<char> {
    if cookies.len() == 0 {
        Seq::empty()
    } else {
        "cookie: "@ + cookie_pairs(cookies) + "\r\n"@
    }
}

/// The request target: the path of the URL, and its query after a question
/// mark where it has one.
pub open spec fn path_and_query(url: AddressView) -> Seq<char> {
    match url.query {
        Some(query) => url.path + "?"@ + query,
        None => url.path,
    }
}

/// The host of the URL, and its port after a colon where the URL names one.
pub open spec fn authority(url: AddressView) -> Seq<char>
    recommends
        url.host is Some,
{
    match url.port {
        Some(port) => url.host->0 + ":"@ + decimal(port as nat),
        None => url.host->0,
    }
}

/// The request as it is written on the wire with `method` in its request
/// line: the request line, the host line, the header lines, the cookie
/// line, an empty line and the body as it is. No length of the body is
/// written.
pub open spec fn on_the_wire(
    method: Seq<char>,
    request: RequestView,
    cookies: Seq<CookieView>,
) -> Seq<char>
    recommends
        request.url.host is Some,
{
    method + " "@ + path_and_query(request.url) + " HTTP/"@ + request.http_version + "\r\n"@
        + "host: "@ + authority(request.url) + "\r\n"@ + header_lines(request.headers)
        + cookie_line(cookies) + "\r\n"@ + request.body
}

/// The request as it is written on the wire: its method stands in upper
/// case.
pub open spec fn rendered(request: RequestView, cookies: Seq<CookieView>) -> Seq<char>
    recommends
        request.url.host is Some,
{
    on_the_wire(uppercase_of(request.method), request, cookies)
}

/// Setting a header whose name stands first at index `i` replaces its value.
pub proof fn lemma_set_header_replaces(
    headers: Seq<(Seq<char>, Seq<char>)>,
    name: Seq<char>,
    value: Seq<char>,
    i: int,
)
    requires
        0 <= i < headers.len(),
        headers[i].0 == name,
        forall|j: int| 0 <= j < i ==> (#[trigger] headers[j]).0 != name,
    ensures
        set_header(headers, name, value) == headers.update(i, (name, value)),
    decreases headers.len(),
{
    if i == 0 {
        assert(seq![(name, value)] + headers.drop_first() =~= headers.update(0, (name, value)));
    } else {
        let rest = headers.drop_first();
        assert forall|j: int| 0 <= j < i - 1 implies (#[trigger] rest[j]).0 != name by {
            assert(rest[j] == headers[j + 1]);
        }
        lemma_set_header_replaces(rest, name, value, i - 1);
        assert(seq![headers[0]] + rest.update(i - 1, (name, value)) =~= headers.update(
            i,
            (name, value),
        ));
    }
}

/// Setting a header whose name is new appends the field.
pub proof fn lemma_set_header_appends(
    headers: Seq<(Seq<char>, Seq<char>)>,
    name: Seq<char>,
    value: Seq<char>,
)
    requires
        forall|j: int| 0 <= j < headers.len() ==> (#[trigger] headers[j]).0 != name,
    ensures
        set_header(headers, name, value) == headers.push((name, value)),
    decreases headers.len(),
{
    if headers.len() == 0 {
        assert(seq![(name, value)] =~= headers.push((name, value)));
    } else {
        let rest = headers.drop_first();
        assert forall|j: int| 0 <= j < rest.len() implies (#[trigger] rest[j]).0 != name by {
            assert(rest[j] == headers[j + 1]);
        }
        lemma_set_header_appends(rest, name, value);
        assert(seq![headers[0]] + rest.push((name, value)) =~= headers.push((name, value)));
    }
}

/// Setting a header keeps the names distinct.
pub proof fn lemma_set_header_distinct(
    headers: Seq<(Seq<char>, Seq<char>)>,
    name: Seq<char>,
    value: Seq<char>,
)
    requires
        distinct_names(headers),
    ensures
        distinct_names(set_header(headers, name, value)),
{
    if exists|i: int| 0 <= i < headers.len() && (#[trigger] headers[i]).0 == name {
        let i = choose|i: int| 0 <= i < headers.len() && (#[trigger] headers[i]).0 == name;
        assert forall|j: int| 0 <= j < i implies (#[trigger] headers[j]).0 != name by {
            assert(headers[j].0 != headers[i].0);
        }
        lemma_set_header_replaces(headers, name, value, i);
        let after = headers.update(i, (name, value));
        assert forall|a: int, b: int| 0 <= a < b < after.len() implies (#[trigger] after[a]).0 != (
        #[trigger] after[b]).0 by {
            assert(headers[a].0 != headers[b].0);
        }
    } else {
        lemma_set_header_appends(headers, name, value);
        let after = headers.push((name, value));
        assert forall|a: int, b: int| 0 <= a < b < after.len() implies (#[trigger] after[a]).0 != (
        #[trigger] after[b]).0 by {
            if b < headers.len() {
                assert(headers[a].0 != headers[b].0);
            }
        }
    }
}

/// Setting the headers of a flow keeps the names distinct.
pub proof fn lemma_with_headers_distinct(
    headers: Seq<(Seq<char>, Seq<char>)>,
    extra: Seq<(Seq<char>, Seq<char>)>,
)
    requires
        distinct_names(headers),
    ensures
        distinct_names(with_headers(headers, extra)),
    decreases extra.len(),
{
    if extra.len() > 0 {
        lemma_with_headers_distinct(headers, extra.drop_last());
        lemma_set_header_distinct(
            with_headers(headers, extra.drop_last()),
            lowercase_of(extra.last().0),
            extra.last().1,
        );
    }
}

/// Two requests that hold the same are written the same, with the same
/// cookies: what is written depends on nothing else.
pub proof fn rendering_is_deterministic(
    a: HttpRequest,
    b: HttpRequest,
    cookies_a: Seq<CookieView>,
    cookies_b: Seq<CookieView>,
)
    requires
        a@ == b@,
        cookies_a == cookies_b,
    ensures
        rendered(a@, cookies_a) == rendered(b@, cookies_b),
{
}

impl HttpRequest {
    /// The request is well formed: no header name occurs twice.
    pub open spec fn wf(&self) -> bool {
        distinct_names(self@.headers)
    }

    /// A request with the default headers and an empty body.
    pub fn new(http_version: &str, method: &str, url: Address) -> (r: Self)
        ensures
            r@ == (RequestView {
                http_version: http_version@,
                headers: default_headers(),
                method: method@,
                url: url@,
                body: Seq::empty(),
            }),
            r.wf(),
    {
        let mut headers: Vec<(String, String)> = Vec::new();
        headers.push(("accept".to_owned(), "*/*".to_owned()));
        headers.push(("accept-encoding".to_owned(), "gzip, deflate, br".to_owned()));
        let r = HttpRequest {
            http_version: http_version.to_owned(),
            headers,
            method: method.to_owned(),
            url,
            body: String::new(),
        };
        proof {
            assert(r@.headers =~= default_headers());
            reveal_strlit("accept");
            reveal_strlit("accept-encoding");
            assert("accept"@.len() != "accept-encoding"@.len());
        }
        r
    }

    /// Sets one header field, by its exact name.
    pub fn set_header(&mut self, name: String, value: String)
        ensures
            final(self)@ == (RequestView {
                headers: set_header(old(self)@.headers, name@, value@),
                ..old(self)@
            }),
            old(self).wf() ==> final(self).wf(),
    {
        let ghost before = self@.headers;
        proof {
            if self.wf() {
                lemma_set_header_distinct(before, name@, value@);
            }
        }
        let mut i: usize = 0;
        while i < self.headers.len()
            invariant
                i <= self.headers.len(),
                *self == *old(self),
                before == self@.headers,
                forall|j: int| 0 <= j < i ==> (#[trigger] before[j]).0 != name@,
            decreases self.headers.len() - i,
        {
            assert(before[i as int] == self.headers@[i as int].deep_view());
            if self.headers[i].0 == name {
                proof {
                    lemma_set_header_replaces(before, name@, value@, i as int);
                }
                let ghost field = (name@, value@);
                self.headers.set(i, (name, value));
                assert(self@.headers =~= before.update(i as int, field));
                return ;
            }
            i += 1;
        }
        proof {
            lemma_set_header_appends(before, name@, value@);
        }
        let ghost field = (name@, value@);
        self.headers.push((name, value));
        assert(self@.headers =~= before.push(field));
    }

    /// Sets one header field of a flow, its name already in lower case:
    /// `host` and `cookie` are passed over.
    pub fn set_flow_header(&mut self, name: String, value: String)
        ensures
            final(self)@ == (RequestView {
                headers: flow_header(old(self)@.headers, name@, value@),
                ..old(self)@
            }),
            old(self).wf() ==> final(self).wf(),
    {
        if !(same_text(name.as_str(), "host") || same_text(name.as_str(), "cookie")) {
            self.set_header(name, value);
        }
    }

    /// Sets the header fields of a flow, in order. Each name is put in lower
    /// case; `host` and `cookie` are passed over.
    pub fn headers(self, headers: &Vec<(String, String)>) -> (r: Self)
        ensures
            r@ == (RequestView {
                headers: with_headers(self@.headers, headers.deep_view()),
                ..self@
            }),
            self.wf() ==> r.wf(),
    {
        let ghost start = self@;
        let ghost extra = headers.deep_view();
        let ghost was_wf = self.wf();
        let mut request = self;
        let mut i: usize = 0;
        assert(extra.take(0) =~= Seq::<(Seq<char>, Seq<char>)>::empty());
        while i < headers.len()
            invariant
                i <= headers.len(),
                extra == headers.deep_view(),
                was_wf ==> request.wf(),
                request@ == (RequestView {
                    headers: with_headers(start.headers, extra.take(i as int)),
                    ..start
                }),
            decreases headers.len() - i,
        {
            proof {
                assert(extra.take(i + 1).drop_last() =~= extra.take(i as int));
                assert(extra.take(i + 1).last() == headers@[i as int].deep_view());
            }
            let name = lowercase(headers[i].0.as_str());
            request.set_flow_header(name, headers[i].1.clone());
            i += 1;
        }
        assert(extra.take(i as int) =~= extra);
        request
    }

    /// Sets the body, which is sent as it is.
    pub fn set_body(self, body: &str) -> (r: Self)
        ensures
            r@ == (RequestView { body: body@, ..self@ }),
            self.wf() ==> r.wf(),
    {
        let mut request = self;
        request.body = body.to_owned();
        request
    }

    /// Sets the method.
    pub fn set_method(self, method: &str) -> (r: Self)
        ensures
            r@ == (RequestView { method: method@, ..self@ }),
            self.wf() ==> r.wf(),
    {
        let mut request = self;
        request.method = method.to_owned();
        request
    }

    /// The request as it is written on the wire, with the cookies given.
    pub fn render(&self, cookies: Vec<&Cookie>) -> (r: String)
        requires
            self@.url.host is Some,
        ensures
            r@ == rendered(self@, views_of(cookies@)),
    {
        let method = uppercase(self.method.as_str());
        self.render_as(method.as_str(), cookies)
    }

    /// The request as it is written on the wire, with `method` in its
    /// request line and the cookies given.
    pub fn render_as(&self, method: &str, cookies: Vec<&Cookie>) -> (r: String)
        requires
            self@.url.host is Some,
        ensures
            r@ == on_the_wire(method@, self@, views_of(cookies@)),
    {
        let mut out = method.to_owned();
        out.append(" ");
        out.append(self.url.path.as_str());
        match &self.url.query {
            Some(query) => {
                out.append("?");
                out.append(query.as_str());
            },
            None => {},
        }
        assert(out@ =~= method@ + " "@ + path_and_query(self@.url));
        out.append(" HTTP/");
        out.append(self.http_version.as_str());
        out.append("\r\n");
        out.append("host: ");
        let ghost head = out@;
        match &self.url.host {
            Some(host) => {
                out.append(host.as_str());
            },
            None => {},
        }
        match self.url.port {
            Some(port) => {
                out.append(":");
                out.append(decimal_text(port as u128).as_str());
            },
            None => {},
        }
        assert(out@ =~= head + authority(self@.url));
        out.append("\r\n");
        let ghost head = out@;
        let ghost fields = self@.headers;
        let mut i: usize = 0;
        assert(fields.take(0) =~= Seq::<(Seq<char>, Seq<char>)>::empty());
        assert(out@ =~= head + header_lines(fields.take(0)));
        while i < self.headers.len()
            invariant
                i <= self.headers.len(),
                fields == self@.headers,
                out@ == head + header_lines(fields.take(i as int)),
            decreases self.headers.len() - i,
        {
            let ghost before = out@;
            proof {
                assert(fields.take(i + 1).drop_last() =~= fields.take(i as int));
                assert(fields.take(i + 1).last() == self.headers@[i as int].deep_view());
            }
            out.append(self.headers[i].0.as_str());
            out.append(": ");
            out.append(self.headers[i].1.as_str());
            out.append("\r\n");
            assert(out@ =~= head + header_lines(fields.take(i + 1)));
            i += 1;
        }
        assert(fields.take(i as int) =~= fields);
        let ghost head = out@;
        let ghost sent = views_of(cookies@);
        if cookies.len() > 0 {
            out.append("cookie: ");
            let ghost head = out@;
            let mut k: usize = 0;
            assert(sent.take(0) =~= Seq::<CookieView>::empty());
            assert(out@ =~= head + cookie_pairs(sent.take(0)));
            while k < cookies.len()
                invariant
                    k <= cookies.len(),
                    sent == views_of(cookies@),
                    out@ == head + cookie_pairs(sent.take(k as int)),
                decreases cookies.len() - k,
            {
                proof {
                    assert(sent.take(k + 1).drop_last() =~= sent.take(k as int));
                    assert(sent.take(k + 1).last() == cookies@[k as int]@);
                    assert(sent.take(k + 1)[0] == sent[0]);
                }
                if k > 0 {
                    out.append("; ");
                }
                out.append(cookies[k].name.as_str());
                out.append("=");
                out.append(cookies[k].value.as_str());
                assert(out@ =~= head + cookie_pairs(sent.take(k + 1)));
                k += 1;
            }
            assert(sent.take(k as int) =~= sent);
            out.append("\r\n");
        }
        assert(out@ =~= head + cookie_line(sent));
        out.append("\r\n");
        out.append(self.body.as_str());
        assert(out@ =~= on_the_wire(method@, self@, sent));
        out
    }
}

} // verus!
