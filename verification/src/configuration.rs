//! The plan of a load run: groups of virtual users and the flows they
//! execute against one target.

use vstd::prelude::*;

verus! {

/// The scheme of a plan that names none.
pub fn default_scheme() -> (r: String)
    ensures
        r@ == "https"@,
{
    "https".to_owned()
}

/// The HTTP version of a plan that names none.
pub fn default_http_version() -> (r: String)
    ensures
        r@ == "1.1"@,
{
    "1.1".to_owned()
}

/// The number of users of a group that names none.
pub fn default_users() -> (r: usize)
    ensures
        r == 1,
{
    1
}

/// The whole plan.
#[derive(Debug)]
pub struct Configuration {
    /// `http` or `https`.
    pub scheme: String,
    /// The version that stands in the request line.
    pub http_version: String,
    /// The host, and the port after a colon if any, of every request.
    pub target: String,
    pub groups: Vec<Group>,
}

/// One request of a plan.
#[derive(Debug, Clone)]
pub struct Flow {
    pub name: String,
    /// The path of the request, with its query if any.
    pub path: String,
    pub method: String,
    /// How many redirects are followed before a redirect is the result.
    pub max_redirects: u32,
    pub body: String,
    /// Header fields, each a name and a value.
    pub headers: Vec<(String, String)>,
    /// Whether the certificate and the host name of the server go unchecked.
    pub insecure: bool,
    /// `Set-Cookie` values that the jar holds before the first request.
    pub cookies: Vec<String>,
}

/// Users that execute the same flows until the same deadline.
#[derive(Debug, Clone)]
pub struct Group {
    pub name: String,
    /// The number of users that run at the same time.
    pub users: usize,
    /// The time that the group runs, in whole seconds.
    pub duration: u64,
    pub flows: Vec<Flow>,
}

/// What a flow holds, as plain sequences of characters.
pub struct FlowView {
    pub name: Seq<char>,
    pub path: Seq<char>,
    pub method: Seq<char>,
    pub max_redirects: u32,
    pub body: Seq<char>,
    pub headers: Seq<(Seq<char>, Seq<char>)>,
    pub insecure: bool,
    pub cookies: Seq<Seq<char>>,
}

impl View for Flow {
    type V = FlowView;

    open spec fn view(&self) -> FlowView {
        FlowView {
            name: self.name@,
            path: self.path@,
            method: self.method@,
            max_redirects: self.max_redirects,
            body: self.body@,
            headers: self.headers.deep_view(),
            insecure: self.insecure,
            cookies: self.cookies.deep_view(),
        }
    }
}

impl Configuration {
    /// A plan for a target, with the default scheme and version and no
    /// groups yet.
    pub fn new(target: &str) -> (r: Configuration)
        ensures
            r.scheme@ == "https"@,
            r.http_version@ == "1.1"@,
            r.target@ == target@,
            r.groups@.len() == 0,
    {
        Configuration {
            scheme: default_scheme(),
            http_version: default_http_version(),
            target: target.to_owned(),
            groups: Vec::new(),
        }
    }
}

impl Flow {
    /// A flow with a path and a method, and the defaults for the rest: no
    /// name, no redirects followed, no body, headers or cookies, and the
    /// server's certificate checked.
    pub fn new(path: &str, method: &str) -> (r: Flow)
        ensures
            r@ == (FlowView {
                name: Seq::empty(),
                path: path@,
                method: method@,
                max_redirects: 0,
                body: Seq::empty(),
                headers: Seq::empty(),
                insecure: false,
                cookies: Seq::empty(),
            }),
    {
        let r = Flow {
            name: String::new(),
            path: path.to_owned(),
            method: method.to_owned(),
            max_redirects: 0,
            body: String::new(),
            headers: Vec::new(),
            insecure: false,
            cookies: Vec::new(),
        };
        assert(r@.headers =~= Seq::empty());
        assert(r@.cookies =~= Seq::empty());
        r
    }
}

impl Group {
    /// A group that runs its flows for `duration` seconds, with the default
    /// number of users and no name.
    pub fn new(duration: u64, flows: Vec<Flow>) -> (r: Group)
        ensures
            r.name@ == Seq::<char>::empty(),
            r.users == 1,
            r.duration == duration,
            r.flows == flows,
    {
        Group { name: String::new(), users: default_users(), duration, flows }
    }
}

} // verus!
