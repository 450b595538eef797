//! The redirect driver: one flow from its first request to its result.
//!
//! The driver decides and the caller does the I/O. `Execution::begin` makes
//! the state of a flow; `connection` and `payload` say where to connect and
//! what to send; the caller makes the exchange, measures it and hands the
//! timings and the response to `advance`, which ends the flow with a result
//! or an error, or asks for the next exchange.

use crate::configuration::{Flow, FlowView};
use crate::error::GarmataError;
use crate::http::address::{
    ip_text, known_port, parsed_url, path_fits, text_of, url_with_path, Address, AddressView,
};
use crate::http::cookies::{scoped, store_all, unique_keys, CookieView, Cookiejar};
use crate::http::request::{
    default_headers, distinct_names, lemma_with_headers_distinct, rendered, with_headers,
    HttpRequest, RequestView,
};
use crate::http::response::{first_value, values_named, HttpResponse, ResponseView};
use crate::http::{adds_up, HttpResult, ResultView};
use crate::text::{has_prefix, piece, same_text, starts_with};
use vstd::pervasive::unreached;
use vstd::prelude::*;

verus! {

/// The measured phases of one exchange, each a number of nanoseconds.
#[derive(Clone, Copy, Debug)]
pub struct Timings {
    pub dns: u128,
    pub connect: u128,
    pub tls: u128,
    pub sending: u128,
    pub waiting: u128,
    pub download: u128,
}

impl Timings {
    /// The time of the whole exchange.
    pub open spec fn total(self) -> int {
        self.dns + self.connect + self.tls + self.sending + self.waiting + self.download
    }

    /// The time of the whole exchange, where the machine can hold it.
    pub fn checked_total(&self) -> (r: Option<u128>)
        ensures
            match r {
                Some(t) => t == self.total(),
                None => self.total() > u128::MAX,
            },
    {
        let a = self.dns.checked_add(self.connect)?;
        let b = a.checked_add(self.tls)?;
        let c = b.checked_add(self.sending)?;
        let d = c.checked_add(self.waiting)?;
        d.checked_add(self.download)
    }
}

/// What the state of a flow holds, as plain values.
pub struct ExecutionView {
    pub group: Seq<char>,
    pub flow: Seq<char>,
    pub start_timestamp: Seq<char>,
    pub max_redirects: u32,
    pub insecure: bool,
    /// The number of redirects followed so far.
    pub redirects: u32,
    /// The time that the exchanges made so far took.
    pub redirect_duration: u128,
    /// The request of the next exchange.
    pub request: RequestView,
    pub jar: Seq<CookieView>,
}

/// How one exchange ends for the flow.
pub enum Outcome {
    /// The flow is over; this is its result.
    Finished(ResultView),
    /// The response was a redirect that is followed: the state for the next
    /// exchange.
    Redirected(ExecutionView),
    /// The flow is given up.
    Failed,
    /// The server sent a redirect without saying where to: the whole run
    /// is given up.
    Fatal,
}

/// The status is one of the redirects that the driver follows.
pub open spec fn is_redirect(status: Seq<char>) -> bool {
    status == "301"@ || status == "302"@ || status == "303"@ || status == "307"@ || status
        == "308"@
}

/// The status is a redirect after which the request is made with `GET`.
pub open spec fn rewrites_method(status: Seq<char>) -> bool {
    status == "301"@ || status == "303"@
}

/// The address can be connected to: it has a host and a port.
pub open spec fn reachable(url: AddressView) -> bool {
    url.host is Some && known_port(url) is Some
}

/// The state is well formed: its address can be connected to, no more
/// redirects were followed than the flow allows, and neither the cookies
/// nor the header fields hold a key twice.
pub open spec fn well_formed(s: ExecutionView) -> bool {
    &&& reachable(s.request.url)
    &&& s.redirects <= s.max_redirects
    &&& unique_keys(s.jar)
    &&& distinct_names(s.request.headers)
}

/// The timings that count for an exchange with `url`: no lookup is made for
/// a host that is an IP address, and no handshake without `https`, so those
/// phases take no time.
pub open spec fn effective(measured: Timings, url: AddressView) -> Timings {
    Timings {
        dns: if url.host_is_domain {
            measured.dns
        } else {
            0
        },
        tls: if url.scheme == "https"@ {
            measured.tls
        } else {
            0
        },
        ..measured
    }
}

/// The response ends the flow: the flow follows no more redirects, or the
/// response is none.
pub open spec fn finishes(s: ExecutionView, response: ResponseView) -> bool {
    s.redirects == s.max_redirects || !is_redirect(response.status)
}

/// The location is a whole URL, not only a path.
pub open spec fn is_absolute(location: Seq<char>) -> bool {
    starts_with(location, "http"@)
}

/// The address that a redirect leads to: the location itself where it is a
/// whole URL, else the current address with the location as its path.
pub open spec fn redirect_target(url: AddressView, location: Seq<char>) -> Option<AddressView> {
    if is_absolute(location) {
        parsed_url(location)
    } else if path_fits(url.href, location) {
        url_with_path(url.href, location)
    } else {
        None
    }
}

/// The result of a flow that ends in state `s` with an exchange that took
/// `spent` and brought `response`.
pub open spec fn result_of(s: ExecutionView, spent: Timings, response: ResponseView) -> ResultView {
    ResultView {
        group: s.group,
        flow: s.flow,
        start_timestamp: s.start_timestamp,
        dns_duration: spent.dns,
        connect_duration: spent.connect,
        tls_duration: spent.tls,
        redirect_duration: s.redirect_duration,
        sending_duration: spent.sending,
        waiting_duration: spent.waiting,
        download_duration: spent.download,
        total_duration: (spent.total() + s.redirect_duration) as u128,
        response_status: response.status,
    }
}

/// The state after following a redirect to `url`: one more redirect is
/// counted and the exchange's time added; the cookies of the response are
/// stored for the host that sent them; a `301` or `303` turns the method
/// into `GET`; a redirect to a whole URL resets the header fields. The body
/// stays.
pub open spec fn follow(
    s: ExecutionView,
    spent: Timings,
    response: ResponseView,
    location: Seq<char>,
    url: AddressView,
) -> ExecutionView
    recommends
        s.request.url.host is Some,
{
    ExecutionView {
        redirects: (s.redirects + 1) as u32,
        redirect_duration: (s.redirect_duration + spent.total()) as u128,
        jar: store_all(s.jar, values_named(response.headers, "set-cookie"@), s.request.url.host->0),
        request: RequestView {
            method: if rewrites_method(response.status) {
                "GET"@
            } else {
                s.request.method
            },
            headers: if is_absolute(location) {
                default_headers()
            } else {
                s.request.headers
            },
            url,
            ..s.request
        },
        ..s
    }
}

/// The location that the response sends the flow to, where the flow follows
/// it: the response does not end the flow and names a location.
pub open spec fn location_to_follow(s: ExecutionView, response: ResponseView) -> Option<Seq<char>> {
    if finishes(s, response) {
        None
    } else {
        first_value(response.headers, "location"@)
    }
}

/// What the driver makes of one exchange, made in state `s`, that took
/// `measured` and brought `response`, where a redirect leads to `target`:
/// an error where the durations outgrow the machine; else the result where
/// the response ends the flow; else a fatal error where the redirect names
/// no location; else the next state where the target can be connected to,
/// and an error where there is no such target.
pub open spec fn step_to(
    s: ExecutionView,
    measured: Timings,
    response: ResponseView,
    target: Option<AddressView>,
) -> Outcome
    recommends
        well_formed(s),
{
    let spent = effective(measured, s.request.url);
    if spent.total() + s.redirect_duration > u128::MAX {
        Outcome::Failed
    } else if finishes(s, response) {
        Outcome::Finished(result_of(s, spent, response))
    } else {
        match first_value(response.headers, "location"@) {
            None => Outcome::Fatal,
            Some(location) => match target {
                Some(url) => if reachable(url) {
                    Outcome::Redirected(follow(s, spent, response, location, url))
                } else {
                    Outcome::Failed
                },
                None => Outcome::Failed,
            },
        }
    }
}

/// What the driver makes of one exchange, made in state `s`, that took
/// `measured` and brought `response`.
pub open spec fn step(s: ExecutionView, measured: Timings, response: ResponseView) -> Outcome
    recommends
        well_formed(s),
{
    step_to(
        s,
        measured,
        response,
        match location_to_follow(s, response) {
            Some(location) => redirect_target(s.request.url, location),
            None => None,
        },
    )
}

/// The text of the URL that a flow starts with.
pub open spec fn first_url(scheme: Seq<char>, target: Seq<char>, path: Seq<char>) -> Seq<char> {
    scheme + "://"@ + target + path
}

/// The state in which a flow starts at `url`, if that address can be
/// connected to: its request carries the headers and the body of the flow,
/// and its jar holds the cookies of the flow, stored for the host of the
/// URL.
pub open spec fn started_at(
    http_version: Seq<char>,
    url: AddressView,
    flow: FlowView,
    group: Seq<char>,
    start_timestamp: Seq<char>,
) -> Option<ExecutionView> {
    if reachable(url) {
        Some(
            ExecutionView {
                group,
                flow: flow.name,
                start_timestamp,
                max_redirects: flow.max_redirects,
                insecure: flow.insecure,
                redirects: 0,
                redirect_duration: 0,
                request: RequestView {
                    http_version,
                    headers: with_headers(default_headers(), flow.headers),
                    method: flow.method,
                    url,
                    body: flow.body,
                },
                jar: store_all(Seq::empty(), flow.cookies, url.host->0),
            },
        )
    } else {
        None
    }
}

/// The state in which a flow starts, if it can start: at the URL that the
/// plan gives, where that is one.
pub open spec fn started(
    http_version: Seq<char>,
    scheme: Seq<char>,
    target: Seq<char>,
    flow: FlowView,
    group: Seq<char>,
    start_timestamp: Seq<char>,
) -> Option<ExecutionView> {
    match parsed_url(first_url(scheme, target, flow.path)) {
        Some(url) => started_at(http_version, url, flow, group, start_timestamp),
        None => None,
    }
}

/// What the error says when a redirect names no location.
pub open spec fn missing_location(href: Seq<char>, status: Seq<char>) -> Seq<char> {
    "response of "@ + href
        + " did not provide the expected location header but returned the status code "@ + status
}

/// How the address of the server is found.
#[derive(Debug)]
pub enum Lookup {
    /// The host is an IP address: this is its text, and nothing is looked
    /// up.
    Literal(String),
    /// The host is a name, to be resolved.
    Resolve(String),
}

/// Where and how to connect for the next exchange.
#[derive(Debug)]
pub struct Connection {
    pub lookup: Lookup,
    pub port: u16,
    /// The host name for the TLS handshake, where there is one to make.
    pub tls: Option<String>,
    /// Whether the handshake accepts any certificate and host name.
    pub insecure: bool,
}

/// How the address of the server of `url` is found.
pub open spec fn lookup_matches(lookup: Lookup, url: AddressView) -> bool
    recommends
        url.host is Some,
{
    match lookup {
        Lookup::Literal(text) => !url.host_is_domain && text@ == ip_text(url.host->0),
        Lookup::Resolve(name) => url.host_is_domain && name@ == url.host->0,
    }
}

/// The connection is the one to make for the next exchange of `s`.
pub open spec fn connects(c: Connection, s: ExecutionView) -> bool
    recommends
        well_formed(s),
{
    &&& lookup_matches(c.lookup, s.request.url)
    &&& Some(c.port) == known_port(s.request.url)
    &&& c.insecure == s.insecure
    &&& match c.tls {
        Some(domain) => s.request.url.scheme == "https"@ && domain@ == s.request.url.host->0,
        None => s.request.url.scheme != "https"@,
    }
}

/// One exchange of a run: what was measured, and what came back.
pub type Exchange = (Timings, ResponseView);

/// The number of exchanges that the driver makes when the server answers
/// with `events`, one after the other, from state `s` on: it stops at the
/// first exchange that ends the flow.
pub open spec fn exchanges(s: ExecutionView, events: Seq<Exchange>) -> nat
    decreases events.len(),
{
    if events.len() == 0 {
        0
    } else {
        match step(s, events[0].0, events[0].1) {
            Outcome::Redirected(next) => 1 + exchanges(next, events.drop_first()),
            _ => 1,
        }
    }
}

/// How the flow stands after those exchanges: ended, or waiting in some
/// state for the next one.
pub open spec fn outcome(s: ExecutionView, events: Seq<Exchange>) -> Outcome
    decreases events.len(),
{
    if events.len() == 0 {
        Outcome::Redirected(s)
    } else {
        match step(s, events[0].0, events[0].1) {
            Outcome::Redirected(next) => outcome(next, events.drop_first()),
            ended => ended,
        }
    }
}

/// Every exchange that the driver makes in the run takes some time.
pub open spec fn takes_time(s: ExecutionView, events: Seq<Exchange>) -> bool
    decreases events.len(),
{
    if events.len() == 0 {
        true
    } else {
        &&& effective(events[0].0, s.request.url).total() > 0
        &&& match step(s, events[0].0, events[0].1) {
            Outcome::Redirected(next) => takes_time(next, events.drop_first()),
            _ => true,
        }
    }
}

/// The answers form a redirect chain for a flow in state `s`: all but the
/// last are redirects, the chain is no longer than the redirects that are
/// left plus one, and the last answer is no redirect unless the chain has
/// that full length.
pub open spec fn is_chain(s: ExecutionView, events: Seq<Exchange>) -> bool {
    &&& events.len() >= 1
    &&& s.redirects + events.len() <= s.max_redirects + 1
    &&& forall|i: int| 0 <= i < events.len() - 1 ==> is_redirect((#[trigger] events[i]).1.status)
    &&& (s.redirects + events.len() == s.max_redirects + 1 || !is_redirect(
        events.last().1.status,
    ))
}

/// Every result adds up: its total is the sum of its seven durations. It
/// carries the names of its group and flow; without `https` its TLS time is
/// zero, and with an IP address for a host its DNS time is zero.
pub proof fn results_add_up(s: ExecutionView, measured: Timings, response: ResponseView)
    ensures
        match step(s, measured, response) {
            Outcome::Finished(result) => {
                &&& adds_up(result)
                &&& result.group == s.group
                &&& result.flow == s.flow
                &&& result.redirect_duration == s.redirect_duration
                &&& s.request.url.scheme != "https"@ ==> result.tls_duration == 0
                &&& !s.request.url.host_is_domain ==> result.dns_duration == 0
            },
            Outcome::Redirected(next) => {
                &&& next.group == s.group
                &&& next.flow == s.flow
                &&& next.max_redirects == s.max_redirects
                &&& s.redirects < s.max_redirects ==> next.redirects == s.redirects + 1
            },
            _ => true,
        },
{
}

/// A redirect chain of length k takes exactly k exchanges: the driver never
/// asks for another one after the chain, and it reaches a result only with
/// the last answer of the chain.
pub proof fn chain_takes_its_length(s: ExecutionView, events: Seq<Exchange>)
    requires
        s.redirects <= s.max_redirects,
        is_chain(s, events),
    ensures
        1 <= exchanges(s, events) <= events.len(),
        !(outcome(s, events) is Redirected),
        outcome(s, events) is Finished ==> exchanges(s, events) == events.len(),
    decreases events.len(),
{
    let first = step(s, events[0].0, events[0].1);
    if events.len() == 1 {
        assert(events.last() == events[0]);
        assert(finishes(s, events[0].1));
    } else {
        assert(is_redirect(events[0].1.status));
        assert(!finishes(s, events[0].1));
        match first {
            Outcome::Redirected(next) => {
                let rest = events.drop_first();
                assert(next.redirects == s.redirects + 1);
                assert(next.max_redirects == s.max_redirects);
                assert forall|i: int| 0 <= i < rest.len() - 1 implies is_redirect(
                    (#[trigger] rest[i]).1.status,
                ) by {
                    assert(rest[i] == events[i + 1]);
                }
                assert(rest.last() == events.last());
                chain_takes_its_length(next, rest);
            },
            _ => {},
        }
    }
}

/// Where every exchange takes time, a result has a redirect time above zero
/// if and only if a redirect was followed before it: the flow was already
/// past a redirect, or the run made more than one exchange.
pub proof fn lemma_redirect_time(s: ExecutionView, events: Seq<Exchange>)
    requires
        s.redirects <= s.max_redirects,
        s.redirect_duration > 0 <==> s.redirects > 0,
        takes_time(s, events),
    ensures
        match outcome(s, events) {
            Outcome::Finished(result) => result.redirect_duration > 0 <==> s.redirects + exchanges(
                s,
                events,
            ) > 1,
            _ => true,
        },
    decreases events.len(),
{
    if events.len() > 0 {
        match step(s, events[0].0, events[0].1) {
            Outcome::Redirected(next) => {
                assert(s.redirects < s.max_redirects);
                assert(next.redirects == s.redirects + 1);
                assert(next.redirect_duration == s.redirect_duration + effective(
                    events[0].0,
                    s.request.url,
                ).total());
                lemma_redirect_time(next, events.drop_first());
            },
            _ => {},
        }
    }
}

/// For a flow that starts fresh and whose exchanges all take time, the
/// redirect time of its result is above zero if and only if at least one
/// redirect was followed, that is, the result came with a later exchange
/// than the first.
pub proof fn redirect_time_means_redirected(s: ExecutionView, events: Seq<Exchange>)
    requires
        s.redirects == 0,
        s.redirect_duration == 0,
        takes_time(s, events),
    ensures
        match outcome(s, events) {
            Outcome::Finished(result) => result.redirect_duration > 0 <==> exchanges(s, events)
                > 1,
            _ => true,
        },
{
    lemma_redirect_time(s, events);
}

/// The state of one flow: the request of its next exchange, its cookies and
/// what its exchanges took so far.
#[derive(Debug)]
pub struct Execution {
    group: String,
    flow: String,
    start_timestamp: String,
    max_redirects: u32,
    insecure: bool,
    redirects: u32,
    redirect_duration: u128,
    request: HttpRequest,
    cookiejar: Cookiejar,
}

impl View for Execution {
    type V = ExecutionView;

    closed spec fn view(&self) -> ExecutionView {
        ExecutionView {
            group: self.group@,
            flow: self.flow@,
            start_timestamp: self.start_timestamp@,
            max_redirects: self.max_redirects,
            insecure: self.insecure,
            redirects: self.redirects,
            redirect_duration: self.redirect_duration,
            request: self.request@,
            jar: self.cookiejar@,
        }
    }
}

/// How one exchange ends for the flow.
#[derive(Debug)]
pub enum Step {
    /// The flow is over; this is its result.
    Finished(HttpResult),
    /// The redirect is followed: the state for the next exchange.
    Redirected(Execution),
    /// The flow is given up, for the reason given.
    Failed(GarmataError),
    /// The whole run is given up, for the reason given.
    Fatal(GarmataError),
}

impl View for Step {
    type V = Outcome;

    open spec fn view(&self) -> Outcome {
        match self {
            Step::Finished(result) => Outcome::Finished(result@),
            Step::Redirected(next) => Outcome::Redirected(next@),
            Step::Failed(_) => Outcome::Failed,
            Step::Fatal(_) => Outcome::Fatal,
        }
    }
}

/// Whether the status is one of the redirects that the driver follows.
pub fn follows_status(status: &str) -> (r: bool)
    ensures
        r == is_redirect(status@),
{
    same_text(status, "301") || same_text(status, "302") || same_text(status, "303") || same_text(
        status,
        "307",
    ) || same_text(status, "308")
}

impl Execution {
    #[verifier::type_invariant]
    spec fn holds(&self) -> bool {
        well_formed(self@)
    }

    /// Starts a flow of a group. Fails where the plan gives no URL, or one
    /// without a host or a port to connect to.
    pub fn begin(
        http_version: &str,
        scheme: &str,
        target: &str,
        flow: &Flow,
        group_name: &str,
        start_timestamp: &str,
    ) -> (r: Result<Execution, GarmataError>)
        ensures
            match r {
                Ok(e) => started(
                    http_version@,
                    scheme@,
                    target@,
                    flow@,
                    group_name@,
                    start_timestamp@,
                ) == Some(e@) && well_formed(e@) && e@.group == group_name@,
                Err(_) => started(
                    http_version@,
                    scheme@,
                    target@,
                    flow@,
                    group_name@,
                    start_timestamp@,
                ) is None,
            },
    {
        let mut text = scheme.to_owned();
        text.append("://");
        text.append(target);
        text.append(flow.path.as_str());
        assert(text@ =~= first_url(scheme@, target@, flow@.path));
        match Address::parse(text.as_str()) {
            Ok(url) => Execution::start_at(http_version, url, flow, group_name, start_timestamp),
            Err(e) => Err(e),
        }
    }

    /// Starts a flow of a group at a URL. Fails where the URL has no host,
    /// with `the url has no host`, or no port to connect to, with `the url
    /// has no port`.
    pub fn start_at(
        http_version: &str,
        url: Address,
        flow: &Flow,
        group_name: &str,
        start_timestamp: &str,
    ) -> (r: Result<Execution, GarmataError>)
        ensures
            match r {
                Ok(e) => started_at(http_version@, url@, flow@, group_name@, start_timestamp@)
                    == Some(e@) && well_formed(e@) && e@.group == group_name@,
                Err(e) => !reachable(url@) && e.reason@ == if url@.host is None {
                    "the url has no host"@
                } else {
                    "the url has no port"@
                },
            },
    {
        let host = match &url.host {
            Some(host) => host.clone(),
            None => {
                return Err(GarmataError::new("the url has no host"));
            },
        };
        if url.port_or_known_default().is_none() {
            return Err(GarmataError::new("the url has no port"));
        }
        let request = HttpRequest::new(http_version, flow.method.as_str(), url).headers(
            &flow.headers,
        ).set_body(flow.body.as_str());
        proof {
            lemma_with_headers_distinct(default_headers(), flow@.headers);
        }
        let mut cookiejar = Cookiejar::default();
        cookiejar.set_all(&flow.cookies, host);
        Ok(
            Execution {
                group: group_name.to_owned(),
                flow: flow.name.clone(),
                start_timestamp: start_timestamp.to_owned(),
                max_redirects: flow.max_redirects,
                insecure: flow.insecure,
                redirects: 0,
                redirect_duration: 0,
                request,
                cookiejar,
            },
        )
    }

    /// The request of the next exchange.
    pub fn request(&self) -> (r: &HttpRequest)
        ensures
            r@ == self@.request,
            well_formed(self@),
    {
        proof {
            use_type_invariant(self);
        }
        &self.request
    }

    /// The cookies of the flow.
    pub fn cookiejar(&self) -> (r: &Cookiejar)
        ensures
            r@ == self@.jar,
    {
        &self.cookiejar
    }

    /// The number of redirects followed so far.
    pub fn redirects(&self) -> (r: u32)
        ensures
            r == self@.redirects,
    {
        self.redirects
    }

    /// Where and how to connect for the next exchange.
    pub fn connection(&self) -> (r: Connection)
        ensures
            connects(r, self@),
    {
        proof {
            use_type_invariant(self);
        }
        let url = &self.request.url;
        let host = match &url.host {
            Some(host) => host,
            None => unreached(),
        };
        let port = match url.port_or_known_default() {
            Some(port) => port,
            None => unreached(),
        };
        let lookup = if url.host_is_domain {
            Lookup::Resolve(host.clone())
        } else {
            let total = host.as_str().unicode_len();
            if total >= 2 && host.as_str().get_char(0) == '[' {
                Lookup::Literal(piece(host.as_str(), 1, total - 1))
            } else {
                Lookup::Literal(host.clone())
            }
        };
        let tls = if url.is_https() {
            Some(host.clone())
        } else {
            None
        };
        Connection { lookup, port, tls, insecure: self.insecure }
    }

    /// The bytes to send in the next exchange: the request as it is written
    /// on the wire, with the cookies of the jar that go to its host and
    /// path.
    pub fn payload(&self) -> (r: String)
        ensures
            self@.request.url.host is Some,
            r@ == rendered(
                self@.request,
                scoped(self@.jar, self@.request.url.host->0, self@.request.url.path),
            ),
    {
        proof {
            use_type_invariant(self);
        }
        let host = match &self.request.url.host {
            Some(host) => Some(host.as_str()),
            None => None,
        };
        let cookies = self.cookiejar.get(host, self.request.url.path.as_str());
        self.request.render(cookies)
    }

    /// The location that the response sends the flow to, where the flow
    /// follows it.
    pub fn location_to_follow(&self, response: &HttpResponse) -> (r: Option<String>)
        ensures
            text_of(r) == location_to_follow(self@, response@),
    {
        if self.redirects == self.max_redirects || !follows_status(response.status.as_str()) {
            None
        } else {
            match response.header("location") {
                Some(location) => Some(location.clone()),
                None => None,
            }
        }
    }

    /// The address that a redirect to `location` leads to: the location
    /// itself where it is a whole URL, else the address of the request with
    /// the location as its path.
    pub fn redirect_target(&self, location: &str) -> (r: Result<Address, GarmataError>)
        ensures
            match r {
                Ok(url) => redirect_target(self@.request.url, location@) == Some(url@),
                Err(_) => redirect_target(self@.request.url, location@) is None,
            },
    {
        if has_prefix(location, "http") {
            Address::parse(location)
        } else {
            self.request.url.with_path(location)
        }
    }

    /// Takes in one exchange: its measured timings and the response it
    /// brought. The flow ends with a result where it follows no more
    /// redirects or the response is none; it ends with an error where the
    /// redirect cannot be followed or the durations outgrow the machine;
    /// else the redirect is followed.
    pub fn advance(self, measured: Timings, response: HttpResponse) -> (r: Step)
        ensures
            r@ == step(self@, measured, response@),
            well_formed(self@),
            match r {
                Step::Finished(result) => {
                    &&& adds_up(result@)
                    &&& result@.group == self@.group
                    &&& result@.flow == self@.flow
                    &&& self@.request.url.scheme != "https"@ ==> result@.tls_duration == 0
                    &&& !self@.request.url.host_is_domain ==> result@.dns_duration == 0
                },
                Step::Redirected(next) => well_formed(next@) && next@.group == self@.group,
                Step::Failed(_) => true,
                Step::Fatal(e) => e.reason@ == missing_location(
                    self@.request.url.href,
                    response@.status,
                ),
            },
    {
        let target = match self.location_to_follow(&response) {
            Some(location) => self.redirect_target(location.as_str()),
            None => Err(GarmataError::new("the response names no location to follow")),
        };
        self.advance_to(measured, response, target)
    }

    /// Takes in one exchange, as `advance` does, where a redirect leads to
    /// `target`, or to nowhere for the reason given.
    pub fn advance_to(
        self,
        measured: Timings,
        response: HttpResponse,
        target: Result<Address, GarmataError>,
    ) -> (r: Step)
        ensures
            r@ == step_to(self@, measured, response@, address_of(target)),
            well_formed(self@),
            match r {
                Step::Finished(result) => {
                    &&& adds_up(result@)
                    &&& result@.group == self@.group
                    &&& result@.flow == self@.flow
                    &&& self@.request.url.scheme != "https"@ ==> result@.tls_duration == 0
                    &&& !self@.request.url.host_is_domain ==> result@.dns_duration == 0
                },
                Step::Redirected(next) => well_formed(next@) && next@.group == self@.group,
                Step::Failed(e) => e.reason@ == failure(self@, measured, target),
                Step::Fatal(e) => e.reason@ == missing_location(
                    self@.request.url.href,
                    response@.status,
                ),
            },
    {
        proof {
            use_type_invariant(&self);
        }
        let ghost before = self@;
        let Execution {
            group,
            flow,
            start_timestamp,
            max_redirects,
            insecure,
            redirects,
            redirect_duration,
            request,
            cookiejar,
        } = self;
        let mut cookiejar = cookiejar;
        let spent = Timings {
            dns: if request.url.host_is_domain {
                measured.dns
            } else {
                0
            },
            connect: measured.connect,
            tls: if request.url.is_https() {
                measured.tls
            } else {
                0
            },
            sending: measured.sending,
            waiting: measured.waiting,
            download: measured.download,
        };
        assert(spent == effective(measured, before.request.url));
        let total = match spent.checked_total() {
            Some(t) => match t.checked_add(redirect_duration) {
                Some(total) => total,
                None => {
                    return Step::Failed(GarmataError::new("overflow when adding durations"));
                },
            },
            None => {
                return Step::Failed(GarmataError::new("overflow when adding durations"));
            },
        };
        if redirects == max_redirects || !follows_status(response.status.as_str()) {
            return Step::Finished(
                HttpResult {
                    group,
                    flow,
                    start_timestamp,
                    dns_duration: spent.dns,
                    connect_duration: spent.connect,
                    tls_duration: spent.tls,
                    redirect_duration,
                    sending_duration: spent.sending,
                    waiting_duration: spent.waiting,
                    download_duration: spent.download,
                    total_duration: total,
                    response_status: response.status,
                },
            );
        }
        let absolute = match response.header("location") {
            Some(location) => has_prefix(location.as_str(), "http"),
            None => {
                let mut reason = "response of ".to_owned();
                reason.append(request.url.href.as_str());
                reason.append(
                    " did not provide the expected location header but returned the status code ",
                );
                reason.append(response.status.as_str());
                assert(reason@ =~= missing_location(before.request.url.href, response@.status));
                return Step::Fatal(GarmataError { reason });
            },
        };
        let url = match target {
            Ok(url) => url,
            Err(e) => {
                return Step::Failed(e);
            },
        };
        if url.host.is_none() || url.port_or_known_default().is_none() {
            return Step::Failed(GarmataError::new("the url has no host or no port"));
        }
        let host = match &request.url.host {
            Some(host) => host.clone(),
            None => unreached(),
        };
        cookiejar.set_all(&response.header_values("set-cookie"), host);
        let status = response.status.as_str();
        let method = if same_text(status, "301") || same_text(status, "303") {
            "GET".to_owned()
        } else {
            request.method
        };
        let request = if absolute {
            HttpRequest::new(request.http_version.as_str(), method.as_str(), url).set_body(
                request.body.as_str(),
            )
        } else {
            HttpRequest {
                http_version: request.http_version,
                headers: request.headers,
                method,
                url,
                body: request.body,
            }
        };
        let next = Execution {
            group,
            flow,
            start_timestamp,
            max_redirects,
            insecure,
            redirects: redirects + 1,
            redirect_duration: total,
            request,
            cookiejar,
        };
        assert(next@ == follow(
            before,
            spent,
            response@,
            first_value(response@.headers, "location"@)->0,
            next@.request.url,
        ));
        Step::Redirected(next)
    }
}

/// What the error says where an exchange gives the flow up: that the
/// durations outgrow the machine; else, for a redirect that leads nowhere,
/// the reason given for that; else that the target cannot be connected to.
pub open spec fn failure(
    s: ExecutionView,
    measured: Timings,
    target: Result<Address, GarmataError>,
) -> Seq<char> {
    if effective(measured, s.request.url).total() + s.redirect_duration > u128::MAX {
        "overflow when adding durations"@
    } else {
        match target {
            Ok(_) => "the url has no host or no port"@,
            Err(e) => e.reason@,
        }
    }
}

/// The address that a redirect was found to lead to, if any.
pub open spec fn address_of(target: Result<Address, GarmataError>) -> Option<AddressView> {
    match target {
        Ok(url) => Some(url@),
        Err(_) => None,
    }
}

} // verus!
