//! The cookie jar: cookies scoped by domain and path, kept in the order in
//! which they were first stored, with at most one cookie for each pair of
//! domain and name.

use crate::text::{
    ends_with, has_prefix, has_suffix, lowercase, lowercase_of, same_text, second_piece, split,
    split_text, starts_with, strip_leading, strip_trailing, without_leading, without_trailing,
};
use vstd::prelude::*;

verus! {

/// One stored cookie.
#[derive(Debug)]
pub struct Cookie {
    /// The domain that the cookie belongs to, in lower case and without a
    /// leading dot.
    pub domain: String,
    /// Whether the cookie named its domain itself, and so is also sent to
    /// the subdomains of that domain.
    pub including_subdomains: bool,
    /// The path under which the cookie is sent.
    pub path: String,
    pub name: String,
    pub value: String,
}

/// What a cookie holds, as plain sequences of characters.
pub struct CookieView {
    pub domain: Seq<char>,
    pub including_subdomains: bool,
    pub path: Seq<char>,
    pub name: Seq<char>,
    pub value: Seq<char>,
}

impl View for Cookie {
    type V = CookieView;

    open spec fn view(&self) -> CookieView {
        CookieView {
            domain: self.domain@,
            including_subdomains: self.including_subdomains,
            path: self.path@,
            name: self.name@,
            value: self.value@,
        }
    }
}

/// The views of a sequence of borrowed cookies.
pub open spec fn views_of(cookies: Seq<&Cookie>) -> Seq<CookieView> {
    cookies.map_values(|c: &Cookie| c@)
}

/// Two cookies are stored under the same key: the same domain and name.
pub open spec fn same_key(a: CookieView, b: CookieView) -> bool {
    a.domain == b.domain && a.name == b.name
}

/// No two cookies of the jar share a key.
pub open spec fn unique_keys(jar: Seq<CookieView>) -> bool {
    forall|i: int, j: int|
        0 <= i < j < jar.len() ==> !same_key(#[trigger] jar[i], #[trigger] jar[j])
}

/// The cookie is sent to `host`: a cookie that named its domain goes to that
/// domain and to its subdomains, another one only to the host that set it.
pub open spec fn domain_matches(c: CookieView, host: Seq<char>) -> bool {
    if c.including_subdomains {
        host == c.domain || ends_with(host, "."@ + c.domain)
    } else {
        host == c.domain
    }
}

/// The cookie is sent with a request for `path` on `host`.
pub open spec fn in_scope(c: CookieView, host: Seq<char>, path: Seq<char>) -> bool {
    domain_matches(c, host) && starts_with(path, c.path)
}

/// The cookies of the jar that are sent with a request for `path` on `host`,
/// in the order of the jar.
pub open spec fn scoped(jar: Seq<CookieView>, host: Seq<char>, path: Seq<char>) -> Seq<CookieView> {
    jar.filter(|c: CookieView| in_scope(c, host, path))
}

/// The first of the segments from index `from` on whose lower-case form, as
/// `lowered` gives it, begins with `prefix`.
pub open spec fn find_attribute_from(
    segments: Seq<Seq<char>>,
    lowered: Seq<Seq<char>>,
    prefix: Seq<char>,
    from: int,
) -> Option<Seq<char>>
    decreases segments.len() - from,
{
    if from < 0 || from >= segments.len() || from >= lowered.len() {
        None
    } else if starts_with(lowered[from], prefix) {
        Some(segments[from])
    } else {
        find_attribute_from(segments, lowered, prefix, from + 1)
    }
}

/// The first of the attributes, the segments after the first one, whose
/// lower-case form begins with `prefix`.
pub open spec fn find_attribute(
    segments: Seq<Seq<char>>,
    lowered: Seq<Seq<char>>,
    prefix: Seq<char>,
) -> Option<Seq<char>> {
    find_attribute_from(segments, lowered, prefix, 1)
}

/// The value that an attribute carries: the text after its first `=`, up to
/// the next one.
pub open spec fn attribute_value(attribute: Seq<char>) -> Option<Seq<char>> {
    second_piece(attribute, "="@)
}

/// What the segments of a `Set-Cookie` value hold, before the domain is put
/// in lower case and checked.
pub struct ScanView {
    pub name: Seq<char>,
    pub value: Seq<char>,
    /// The domain that a `Domain` attribute names, without a leading dot.
    pub domain: Option<Seq<char>>,
    pub path: Seq<char>,
}

/// The domain that the `Domain` attribute names, without its leading dot;
/// `Some(None)` without such an attribute, and nothing where the attribute
/// names no domain.
pub open spec fn named_domain(segments: Seq<Seq<char>>, lowered: Seq<Seq<char>>) -> Option<
    Option<Seq<char>>,
> {
    match find_attribute(segments, lowered, "domain="@) {
        Some(attribute) => match attribute_value(attribute) {
            Some(raw) => {
                let domain = without_leading(raw, '.');
                if domain.len() == 0 {
                    None
                } else {
                    Some(Some(domain))
                }
            },
            None => None,
        },
        None => Some(None),
    }
}

/// The path of a cookie: that of its `Path` attribute without one trailing
/// slash, or `/` without such an attribute; nothing where the attribute
/// carries no value.
pub open spec fn cookie_path(segments: Seq<Seq<char>>, lowered: Seq<Seq<char>>) -> Option<
    Seq<char>,
> {
    match find_attribute(segments, lowered, "path="@) {
        Some(attribute) => match attribute_value(attribute) {
            Some(raw) => Some(without_trailing(raw, '/')),
            None => None,
        },
        None => Some("/"@),
    }
}

/// What the segments of a `Set-Cookie` value hold, where `lowered` gives
/// their lower-case forms: the first segment is `name=value`, the others
/// are attributes. Nothing where the first segment has no `=` or an
/// attribute carries no usable value.
pub open spec fn scanned(segments: Seq<Seq<char>>, lowered: Seq<Seq<char>>) -> Option<ScanView> {
    if segments.len() == 0 {
        None
    } else {
        let pair = split(segments[0], "="@);
        if pair.len() < 2 {
            None
        } else {
            match (named_domain(segments, lowered), cookie_path(segments, lowered)) {
                (Some(domain), Some(path)) => Some(
                    ScanView { name: pair[0], value: pair[1], domain, path },
                ),
                _ => None,
            }
        }
    }
}

/// The text whose lower-case form is the domain of the cookie: the domain
/// that the cookie names, else the host that set it.
pub open spec fn domain_source(scan: ScanView, host: Seq<char>) -> Seq<char> {
    match scan.domain {
        Some(domain) => domain,
        None => host,
    }
}

/// The cookie of a scan with its domain in lower case, set by `host`: it is
/// dropped where the domain does not end with the host.
pub open spec fn completed(scan: ScanView, domain: Seq<char>, host: Seq<char>) -> Option<
    CookieView,
> {
    if ends_with(domain, host) {
        Some(
            CookieView {
                domain,
                including_subdomains: scan.domain is Some,
                path: scan.path,
                name: scan.name,
                value: scan.value,
            },
        )
    } else {
        None
    }
}

/// The lower-case forms of the segments.
pub open spec fn lowered_all(segments: Seq<Seq<char>>) -> Seq<Seq<char>> {
    segments.map_values(|s: Seq<char>| lowercase_of(s))
}

/// The cookie that a `Set-Cookie` value received from `host` stores, if it
/// stores one. The segments of the value are separated by `"; "`: the first
/// is `name=value`, the others are attributes, whose names are matched in
/// lower case. A `Domain` attribute gives the domain, which then reaches
/// subdomains; without one the domain is the host. The domain is stored in
/// lower case. The value is dropped where its first segment has no `=`,
/// where an attribute carries no usable value, and where its domain does
/// not end with `host`.
pub open spec fn parse_cookie(raw: Seq<char>, host: Seq<char>) -> Option<CookieView> {
    let segments = split(raw, "; "@);
    match scanned(segments, lowered_all(segments)) {
        Some(scan) => completed(scan, lowercase_of(domain_source(scan, host)), host),
        None => None,
    }
}

/// The jar after storing `c`: the first cookie with the key of `c` is
/// replaced where it stands, and without one `c` goes to the end.
pub open spec fn upsert(jar: Seq<CookieView>, c: CookieView) -> Seq<CookieView>
    decreases jar.len(),
{
    if jar.len() == 0 {
        seq![c]
    } else if same_key(jar[0], c) {
        seq![c] + jar.drop_first()
    } else {
        seq![jar[0]] + upsert(jar.drop_first(), c)
    }
}

/// The jar after one `Set-Cookie` value received from `host`.
pub open spec fn store(jar: Seq<CookieView>, raw: Seq<char>, host: Seq<char>) -> Seq<CookieView> {
    match parse_cookie(raw, host) {
        Some(c) => upsert(jar, c),
        None => jar,
    }
}

/// The jar after a list of `Set-Cookie` values received from `host`, taken
/// in order.
pub open spec fn store_all(jar: Seq<CookieView>, raws: Seq<Seq<char>>, host: Seq<char>) -> Seq<
    CookieView,
>
    decreases raws.len(),
{
    if raws.len() == 0 {
        jar
    } else {
        store(store_all(jar, raws.drop_last(), host), raws.last(), host)
    }
}

/// Storing a cookie whose key stands first at index `i` replaces that entry.
pub proof fn lemma_upsert_replaces(jar: Seq<CookieView>, c: CookieView, i: int)
    requires
        0 <= i < jar.len(),
        same_key(jar[i], c),
        forall|j: int| 0 <= j < i ==> !same_key(jar[j], c),
    ensures
        upsert(jar, c) == jar.update(i, c),
    decreases jar.len(),
{
    if i == 0 {
        assert(seq![c] + jar.drop_first() =~= jar.update(0, c));
    } else {
        let rest = jar.drop_first();
        assert forall|j: int| 0 <= j < i - 1 implies !same_key(rest[j], c) by {
            assert(rest[j] == jar[j + 1]);
        }
        lemma_upsert_replaces(rest, c, i - 1);
        assert(seq![jar[0]] + rest.update(i - 1, c) =~= jar.update(i, c));
    }
}

/// Storing a cookie whose key the jar does not hold appends it.
pub proof fn lemma_upsert_appends(jar: Seq<CookieView>, c: CookieView)
    requires
        forall|j: int| 0 <= j < jar.len() ==> !same_key(jar[j], c),
    ensures
        upsert(jar, c) == jar.push(c),
    decreases jar.len(),
{
    if jar.len() == 0 {
        assert(seq![c] =~= jar.push(c));
    } else {
        let rest = jar.drop_first();
        assert forall|j: int| 0 <= j < rest.len() implies !same_key(rest[j], c) by {
            assert(rest[j] == jar[j + 1]);
        }
        lemma_upsert_appends(rest, c);
        assert(seq![jar[0]] + rest.push(c) =~= jar.push(c));
    }
}

/// Storing a cookie keeps the keys of the jar unique, and afterwards the
/// jar holds that cookie under its key.
pub proof fn lemma_upsert_unique(jar: Seq<CookieView>, c: CookieView)
    requires
        unique_keys(jar),
    ensures
        unique_keys(upsert(jar, c)),
        exists|i: int|
            0 <= i < upsert(jar, c).len() && #[trigger] upsert(jar, c)[i] == c && forall|k: int|
                0 <= k < upsert(jar, c).len() && same_key(#[trigger] upsert(jar, c)[k], c) ==> k
                    == i,
{
    if exists|i: int| 0 <= i < jar.len() && same_key(jar[i], c) {
        let i = choose|i: int| 0 <= i < jar.len() && same_key(jar[i], c);
        assert forall|j: int| 0 <= j < jar.len() && j != i implies !same_key(jar[j], c) by {
            if same_key(jar[j], c) {
                if j < i {
                    assert(!same_key(jar[j], jar[i]));
                } else {
                    assert(!same_key(jar[i], jar[j]));
                }
            }
        }
        lemma_upsert_replaces(jar, c, i);
        let after = jar.update(i, c);
        assert forall|a: int, b: int| 0 <= a < b < after.len() implies !same_key(
            #[trigger] after[a],
            #[trigger] after[b],
        ) by {
            if a != i && b != i {
                assert(!same_key(jar[a], jar[b]));
            }
        }
        assert(after[i] == c);
    } else {
        lemma_upsert_appends(jar, c);
        let after = jar.push(c);
        assert forall|a: int, b: int| 0 <= a < b < after.len() implies !same_key(
            #[trigger] after[a],
            #[trigger] after[b],
        ) by {
            if b < jar.len() {
                assert(!same_key(jar[a], jar[b]));
            }
        }
        assert(after[jar.len() as int] == c);
    }
}

/// Storing the same cookie twice is storing it once.
pub proof fn lemma_upsert_idempotent(jar: Seq<CookieView>, c: CookieView)
    ensures
        upsert(upsert(jar, c), c) == upsert(jar, c),
    decreases jar.len(),
{
    if jar.len() == 0 {
        assert(seq![c].drop_first() =~= Seq::<CookieView>::empty());
        assert(seq![c] + Seq::<CookieView>::empty() =~= seq![c]);
    } else if same_key(jar[0], c) {
        let once = seq![c] + jar.drop_first();
        assert(once.drop_first() =~= jar.drop_first());
    } else {
        let once = seq![jar[0]] + upsert(jar.drop_first(), c);
        assert(once[0] == jar[0]);
        assert(once.drop_first() =~= upsert(jar.drop_first(), c));
        lemma_upsert_idempotent(jar.drop_first(), c);
    }
}

/// Storing the same `Set-Cookie` value twice from one host leaves the jar as
/// storing it once does; and where the value stores a cookie, the jar then
/// holds exactly one cookie under that cookie's key, with the value given.
pub proof fn store_twice_is_store_once(jar: Seq<CookieView>, raw: Seq<char>, host: Seq<char>)
    requires
        unique_keys(jar),
    ensures
        store_all(store_all(jar, seq![raw], host), seq![raw], host) == store_all(
            jar,
            seq![raw],
            host,
        ),
        store_all(jar, seq![raw], host) == store(jar, raw, host),
        unique_keys(store(jar, raw, host)),
        match parse_cookie(raw, host) {
            Some(c) => exists|i: int|
                0 <= i < store(jar, raw, host).len() && #[trigger] store(jar, raw, host)[i] == c
                    && forall|k: int|
                    0 <= k < store(jar, raw, host).len() && same_key(
                        #[trigger] store(jar, raw, host)[k],
                        c,
                    ) ==> k == i,
            None => store(jar, raw, host) == jar,
        },
{
    lemma_store_all_one(jar, raw, host);
    lemma_store_all_one(store(jar, raw, host), raw, host);
    match parse_cookie(raw, host) {
        Some(c) => {
            lemma_upsert_idempotent(jar, c);
            lemma_upsert_unique(jar, c);
        },
        None => {},
    }
}

/// A list of one value is stored as that value.
pub proof fn lemma_store_all_one(jar: Seq<CookieView>, raw: Seq<char>, host: Seq<char>)
    ensures
        store_all(jar, seq![raw], host) == store(jar, raw, host),
{
    let one = seq![raw];
    assert(one.drop_last() =~= Seq::<Seq<char>>::empty());
    assert(one.last() == raw);
    assert(store_all(jar, one.drop_last(), host) == jar);
}

/// No two cookies of a jar share a domain and a name: storing a list of
/// values keeps the keys of the jar unique.
pub proof fn storing_keeps_keys_unique(jar: Seq<CookieView>, raws: Seq<Seq<char>>, host: Seq<char>)
    requires
        unique_keys(jar),
    ensures
        unique_keys(store_all(jar, raws, host)),
    decreases raws.len(),
{
    if raws.len() > 0 {
        storing_keeps_keys_unique(jar, raws.drop_last(), host);
        let before = store_all(jar, raws.drop_last(), host);
        match parse_cookie(raws.last(), host) {
            Some(c) => {
                lemma_upsert_unique(before, c);
            },
            None => {},
        }
    }
}

/// Every cookie that a lookup returns is in the jar and in scope, and every
/// cookie of the jar that is in scope is returned.
pub proof fn scoped_is_exact(jar: Seq<CookieView>, host: Seq<char>, path: Seq<char>)
    ensures
        forall|c: CookieView|
            scoped(jar, host, path).contains(c) <==> jar.contains(c) && in_scope(c, host, path),
{
    let pred = |c: CookieView| in_scope(c, host, path);
    assert forall|c: CookieView|
        scoped(jar, host, path).contains(c) <==> jar.contains(c) && in_scope(c, host, path) by {
        if scoped(jar, host, path).contains(c) {
            let i = choose|i: int| 0 <= i < jar.filter(pred).len() && jar.filter(pred)[i] == c;
            jar.lemma_filter_pred(pred, i);
            jar.lemma_filter_contains_rev(pred, c);
        }
        if jar.contains(c) && in_scope(c, host, path) {
            let i = choose|i: int| 0 <= i < jar.len() && jar[i] == c;
            jar.lemma_filter_contains(pred, i);
        }
    }
}

/// What the segments of a `Set-Cookie` value hold, before the domain is put
/// in lower case and checked.
#[derive(Debug)]
pub struct Scan {
    pub name: String,
    pub value: String,
    /// The domain that a `Domain` attribute names, without a leading dot.
    pub domain: Option<String>,
    pub path: String,
}

impl View for Scan {
    type V = ScanView;

    open spec fn view(&self) -> ScanView {
        ScanView {
            name: self.name@,
            value: self.value@,
            domain: match self.domain {
                Some(domain) => Some(domain@),
                None => None,
            },
            path: self.path@,
        }
    }
}

/// The view of a scan that may be absent.
pub open spec fn scan_of(scan: Option<Scan>) -> Option<ScanView> {
    match scan {
        Some(scan) => Some(scan@),
        None => None,
    }
}

/// The view of a cookie that may be absent.
pub open spec fn cookie_of(cookie: Option<Cookie>) -> Option<CookieView> {
    match cookie {
        Some(cookie) => Some(cookie@),
        None => None,
    }
}

impl Cookie {
    /// The cookie that a `Set-Cookie` value received from `host` stores, if
    /// it stores one.
    pub fn parse(raw: &str, host: &str) -> (r: Option<Cookie>)
        ensures
            cookie_of(r) == parse_cookie(raw@, host@),
    {
        let segments = split_text(raw, "; ");
        let lowered = lower_all(&segments);
        match Cookie::scan(&segments, &lowered) {
            Some(scan) => {
                let domain = match &scan.domain {
                    Some(domain) => lowercase(domain.as_str()),
                    None => lowercase(host),
                };
                Cookie::complete(scan, domain, host)
            },
            None => None,
        }
    }

    /// What the segments of a `Set-Cookie` value hold, where `lowered` gives
    /// their lower-case forms.
    pub fn scan(segments: &Vec<String>, lowered: &Vec<String>) -> (r: Option<Scan>)
        ensures
            scan_of(r) == scanned(segments.deep_view(), lowered.deep_view()),
    {
        if segments.len() == 0 {
            return None;
        }
        let pair = split_text(segments[0].as_str(), "=");
        if pair.len() < 2 {
            return None;
        }
        let domain = match find_among(segments, lowered, "domain=") {
            Some(at) => {
                let fields = split_text(segments[at].as_str(), "=");
                if fields.len() < 2 {
                    return None;
                }
                let named = strip_leading(fields[1].as_str(), '.');
                if named.as_str().unicode_len() == 0 {
                    return None;
                }
                Some(named)
            },
            None => None,
        };
        let path = match find_among(segments, lowered, "path=") {
            Some(at) => {
                let fields = split_text(segments[at].as_str(), "=");
                if fields.len() < 2 {
                    return None;
                }
                strip_trailing(fields[1].as_str(), '/')
            },
            None => "/".to_owned(),
        };
        Some(Scan { name: pair[0].clone(), value: pair[1].clone(), domain, path })
    }

    /// The cookie of a scan with its domain in lower case, set by `host`, if
    /// the domain ends with the host.
    pub fn complete(scan: Scan, domain: String, host: &str) -> (r: Option<Cookie>)
        ensures
            cookie_of(r) == completed(scan@, domain@, host@),
    {
        if !has_suffix(domain.as_str(), host) {
            return None;
        }
        Some(
            Cookie {
                domain,
                including_subdomains: scan.domain.is_some(),
                path: scan.path,
                name: scan.name,
                value: scan.value,
            },
        )
    }

    /// Whether the cookie is sent with a request for `path` on `host`.
    pub fn matches(&self, host: &str, path: &str) -> (r: bool)
        ensures
            r == in_scope(self@, host@, path@),
    {
        let on_domain = if same_text(host, self.domain.as_str()) {
            true
        } else if self.including_subdomains {
            let mut dotted = ".".to_owned();
            dotted.append(self.domain.as_str());
            has_suffix(host, dotted.as_str())
        } else {
            false
        };
        on_domain && has_prefix(path, self.path.as_str())
    }
}

/// The lower-case forms of the segments.
fn lower_all(segments: &Vec<String>) -> (r: Vec<String>)
    ensures
        r.deep_view() == lowered_all(segments.deep_view()),
{
    let mut lowered: Vec<String> = Vec::new();
    let mut i: usize = 0;
    while i < segments.len()
        invariant
            i <= segments.len(),
            lowered@.len() == i,
            forall|j: int| 0 <= j < i ==> (#[trigger] lowered@[j])@ == lowercase_of(segments@[j]@),
        decreases segments.len() - i,
    {
        lowered.push(lowercase(segments[i].as_str()));
        i += 1;
    }
    assert(lowered.deep_view() =~= lowered_all(segments.deep_view()));
    lowered
}

/// The index of the first segment after the first whose lower-case form, as
/// `lowered` gives it, begins with `prefix`.
fn find_among(segments: &Vec<String>, lowered: &Vec<String>, prefix: &str) -> (r: Option<usize>)
    ensures
        match r {
            Some(i) => 1 <= i < segments.len() && find_attribute(
                segments.deep_view(),
                lowered.deep_view(),
                prefix@,
            ) == Some(segments.deep_view()[i as int]),
            None => find_attribute(segments.deep_view(), lowered.deep_view(), prefix@) is None,
        },
{
    let ghost all = segments.deep_view();
    let ghost low = lowered.deep_view();
    let mut i: usize = 1;
    while i < segments.len() && i < lowered.len()
        invariant
            1 <= i,
            all == segments.deep_view(),
            low == lowered.deep_view(),
            find_attribute(all, low, prefix@) == find_attribute_from(all, low, prefix@, i as int),
        decreases segments.len() - i,
    {
        assert(low[i as int] == lowered@[i as int]@);
        if has_prefix(lowered[i].as_str(), prefix) {
            return Some(i);
        }
        i += 1;
    }
    None
}

/// The cookies of one flow execution.
#[derive(Debug)]
pub struct Cookiejar {
    cookies: Vec<Cookie>,
}

impl View for Cookiejar {
    type V = Seq<CookieView>;

    closed spec fn view(&self) -> Seq<CookieView> {
        self.cookies@.map_values(|c: Cookie| c@)
    }
}

impl Default for Cookiejar {
    /// The empty jar.
    fn default() -> (r: Self)
        ensures
            r@ == Seq::<CookieView>::empty(),
            r.wf(),
    {
        let r = Cookiejar { cookies: Vec::new() };
        assert(r@ =~= Seq::<CookieView>::empty());
        r
    }
}

impl Cookiejar {
    /// The jar is well formed: no two of its cookies share a domain and a
    /// name. The empty jar is, and storing cookies keeps it so.
    pub open spec fn wf(&self) -> bool {
        unique_keys(self@)
    }

    /// The number of cookies in the jar.
    pub fn len(&self) -> (r: usize)
        ensures
            r == self@.len(),
    {
        self.cookies.len()
    }

    /// The cookies that are sent with a request for `path` on `host`, in the
    /// order in which the jar holds them; none for a request without a host.
    pub fn get(&self, host: Option<&str>, path: &str) -> (r: Vec<&Cookie>)
        ensures
            views_of(r@) == match host {
                Some(h) => scoped(self@, h@, path@),
                None => Seq::<CookieView>::empty(),
            },
    {
        let mut found: Vec<&Cookie> = Vec::new();
        let host = match host {
            Some(h) => h,
            None => {
                assert(views_of(found@) =~= Seq::<CookieView>::empty());
                return found;
            },
        };
        let ghost pred = |c: CookieView| in_scope(c, host@, path@);
        let mut i: usize = 0;
        assert(self@.take(0) =~= Seq::<CookieView>::empty());
        assert(views_of(found@) =~= self@.take(0).filter(pred));
        while i < self.cookies.len()
            invariant
                i <= self.cookies.len(),
                self.cookies.len() == self@.len(),
                pred == |c: CookieView| in_scope(c, host@, path@),
                views_of(found@) == self@.take(i as int).filter(pred),
            decreases self.cookies.len() - i,
        {
            let cookie = &self.cookies[i];
            proof {
                assert(self@.take(i + 1) =~= self@.take(i as int).push(self@[i as int]));
                self@.take(i as int).lemma_filter_push(self@[i as int], pred);
                assert(self@[i as int] == cookie@);
            }
            let ghost before = found@;
            if cookie.matches(host, path) {
                found.push(cookie);
                assert(views_of(found@) =~= views_of(before).push(cookie@));
            }
            i += 1;
        }
        assert(self@.take(i as int) =~= self@);
        found
    }

    /// Stores one cookie under its key: it replaces the cookie with the same
    /// domain and name where that one stands, or goes to the end.
    pub fn insert(&mut self, cookie: Cookie)
        ensures
            final(self)@ == upsert(old(self)@, cookie@),
            old(self).wf() ==> final(self).wf(),
    {
        proof {
            if self.wf() {
                lemma_upsert_unique(self@, cookie@);
            }
        }
        let ghost before = self@;
        let mut i: usize = 0;
        while i < self.cookies.len()
            invariant
                i <= self.cookies.len(),
                self@ == before,
                before == old(self)@,
                self.cookies.len() == before.len(),
                old(self).wf() ==> unique_keys(upsert(before, cookie@)),
                forall|j: int| 0 <= j < i ==> !same_key(before[j], cookie@),
            decreases self.cookies.len() - i,
        {
            assert(before[i as int] == self.cookies@[i as int]@);
            if self.cookies[i].domain == cookie.domain && self.cookies[i].name == cookie.name {
                proof {
                    lemma_upsert_replaces(before, cookie@, i as int);
                }
                let ghost stored = cookie@;
                self.cookies.set(i, cookie);
                assert(self@ =~= before.update(i as int, stored));
                return ;
            }
            i += 1;
        }
        proof {
            lemma_upsert_appends(before, cookie@);
        }
        let ghost stored = cookie@;
        self.cookies.push(cookie);
        assert(self@ =~= before.push(stored));
    }

    /// Stores the cookies of a list of `Set-Cookie` values received from
    /// `current_host`, in order. A value that stores no cookie is passed
    /// over.
    pub fn set_all(&mut self, cookies: &Vec<String>, current_host: String)
        ensures
            final(self)@ == store_all(old(self)@, cookies.deep_view(), current_host@),
            old(self).wf() ==> final(self).wf(),
    {
        let ghost raws = cookies.deep_view();
        let mut i: usize = 0;
        assert(raws.take(0) =~= Seq::<Seq<char>>::empty());
        while i < cookies.len()
            invariant
                i <= cookies.len(),
                raws == cookies.deep_view(),
                self@ == store_all(old(self)@, raws.take(i as int), current_host@),
                old(self).wf() ==> self.wf(),
            decreases cookies.len() - i,
        {
            proof {
                assert(raws.take(i + 1).drop_last() =~= raws.take(i as int));
                assert(raws.take(i + 1).last() == cookies@[i as int]@);
            }
            match Cookie::parse(cookies[i].as_str(), current_host.as_str()) {
                Some(cookie) => {
                    self.insert(cookie);
                },
                None => {},
            }
            i += 1;
        }
        assert(raws.take(i as int) =~= raws);
    }
}

} // verus!
