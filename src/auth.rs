use vstd::prelude::*;

use regex::Regex;

use crate::ids::{format_uuid, uuid_text};
use crate::json::{Json, JsonValue, Member};

verus! {

/// The method of an HTTP request.
#[allow(non_camel_case_types)]
#[derive(Clone, Copy, Debug, PartialEq, Eq, Structural)]
pub enum RequestMethod {
    GET,
    POST,
    PUT,
    PATCH,
    DELETE,
    HEAD,
    OPTIONS,
    OTHER,
}

/// Whether the regular expression `pattern` finds a match anywhere in
/// `text`; none where the pattern does not compile.
pub uninterp spec fn regex_finds(pattern: Seq<char>, text: Seq<char>) -> Option<bool>;

/// Relies on `regex::Regex::new` and `regex::Regex::is_match`: compiles the
/// pattern and searches the text for a match. The result depends on the two
/// strings alone.
#[verifier::external_body]
fn pattern_finds(pattern: &str, text: &str) -> (r: Option<bool>)
    ensures
        r == regex_finds(pattern@, text@),
{
    match Regex::new(pattern) {
        Ok(re) => Some(re.is_match(text)),
        Err(_) => None,
    }
}

/// A request that passes without authentication: a path pattern and a method.
#[derive(Debug)]
pub struct SkipAuthRoute {
    pub path: String,
    pub method: RequestMethod,
}

pub open spec fn route_view(r: SkipAuthRoute) -> (Seq<char>, RequestMethod) {
    (r.path@, r.method)
}

/// The requests that need no signed-in user: logging in, status and
/// configuration, setup, file downloads, the documentation and the public
/// read API.
pub open spec fn skip_routes() -> Seq<(Seq<char>, RequestMethod)> {
    seq![
        ("/admin-api/v1/auth/(.*)/login"@, RequestMethod::POST),
        ("/admin-api/v1/status"@, RequestMethod::GET),
        ("/admin-api/v1/config"@, RequestMethod::GET),
        ("/admin-api/v1/auth/(.*)/callback"@, RequestMethod::POST),
        ("/admin-api/v1/authentication-methods$"@, RequestMethod::GET),
        ("/admin-api/v1/setup/*"@, RequestMethod::POST),
        ("/admin-api/v1/sites/(.*)/storage-repositories/(.*)/files"@, RequestMethod::GET),
        ("/docs/?(.*)"@, RequestMethod::GET),
        ("/api/?(.*)"@, RequestMethod::GET),
    ]
}

/// A route lets the request through: its method is the request's and its
/// pattern is found in the path.
pub open spec fn route_admits(
    route: (Seq<char>, RequestMethod),
    method: RequestMethod,
    path: Seq<char>,
) -> bool {
    route.1 == method && regex_finds(route.0, path) == Some(true)
}

impl SkipAuthRoute {
    pub fn new(path: &str, method: RequestMethod) -> (r: SkipAuthRoute)
        ensures
            route_view(r) == (path@, method),
    {
        SkipAuthRoute { path: path.to_owned(), method }
    }

    fn matches_path(&self, path: &str) -> (r: bool)
        ensures
            r == (regex_finds(self.path@, path@) == Some(true)),
    {
        match pattern_finds(self.path.as_str(), path) {
            Some(found) => found,
            None => false,
        }
    }

    fn matches_method(&self, method: RequestMethod) -> (r: bool)
        ensures
            r == (self.method == method),
    {
        self.method == method
    }

    /// The route lets a request with this path and method through.
    pub fn matches_path_and_method(&self, path: &str, method: RequestMethod) -> (r: bool)
        ensures
            r == route_admits(route_view(*self), method, path@),
    {
        self.matches_path(path) && self.matches_method(method)
    }
}

/// Decides which requests go through without a signed-in user.
#[derive(Debug)]
pub struct Authentication {
    routes: Vec<SkipAuthRoute>,
}

impl Authentication {
    pub closed spec fn routes(&self) -> Seq<(Seq<char>, RequestMethod)> {
        Seq::new(self.routes.len() as nat, |i: int| route_view(self.routes[i]))
    }

    pub fn new() -> (r: Authentication)
        ensures
            r.routes() == skip_routes(),
    {
        let mut routes: Vec<SkipAuthRoute> = Vec::new();
        routes.push(SkipAuthRoute::new("/admin-api/v1/auth/(.*)/login", RequestMethod::POST));
        routes.push(SkipAuthRoute::new("/admin-api/v1/status", RequestMethod::GET));
        routes.push(SkipAuthRoute::new("/admin-api/v1/config", RequestMethod::GET));
        routes.push(SkipAuthRoute::new("/admin-api/v1/auth/(.*)/callback", RequestMethod::POST));
        routes.push(SkipAuthRoute::new("/admin-api/v1/authentication-methods$", RequestMethod::GET));
        routes.push(SkipAuthRoute::new("/admin-api/v1/setup/*", RequestMethod::POST));
        routes.push(
            SkipAuthRoute::new(
                "/admin-api/v1/sites/(.*)/storage-repositories/(.*)/files",
                RequestMethod::GET,
            ),
        );
        routes.push(SkipAuthRoute::new("/docs/?(.*)", RequestMethod::GET));
        routes.push(SkipAuthRoute::new("/api/?(.*)", RequestMethod::GET));
        let r = Authentication { routes };
        proof {
            assert(r.routes() =~= skip_routes());
        }
        r
    }

    /// A request passes without authentication when it is a preflight
    /// (`OPTIONS`) request or one of the routes lets it through.
    pub fn should_skip_auth(&self, method: RequestMethod, path: &str) -> (r: bool)
        ensures
            r == (method == RequestMethod::OPTIONS || exists|i: int|
                0 <= i < self.routes().len() && route_admits(
                    #[trigger] self.routes()[i],
                    method,
                    path@,
                )),
    {
        if method == RequestMethod::OPTIONS {
            return true;
        }
        let mut i: usize = 0;
        while i < self.routes.len()
            invariant
                i <= self.routes.len(),
                forall|j: int| 0 <= j < i ==> !route_admits(#[trigger] self.routes()[j], method, path@),
            decreases self.routes.len() - i,
        {
            if self.routes[i].matches_path_and_method(path, method) {
                assert(self.routes()[i as int] == route_view(self.routes[i as int]));
                return true;
            }
            assert(self.routes()[i as int] == route_view(self.routes[i as int]));
            i = i + 1;
        }
        false
    }
}

/// What the authentication middleware does next with a request.
#[derive(Clone, Copy, Debug, PartialEq, Eq, Structural)]
pub enum AuthStep {
    /// Hand the request on to the wrapped service.
    Forward,
    /// Find the user the request's credentials name, then decide again.
    LookUpUser,
    /// Answer 401 Unauthorized.
    Reject,
}

impl Authentication {
    /// Wraps a service in the middleware that applies these routes.
    pub fn new_transform<S>(self, service: S) -> (r: AuthenticationMiddleware<S>)
        ensures
            r.routes() == self.routes(),
            r.wrapped() == service,
    {
        AuthenticationMiddleware { service, auth: self }
    }
}

/// A service behind the authentication check.
pub struct AuthenticationMiddleware<S> {
    service: S,
    auth: Authentication,
}

impl<S> AuthenticationMiddleware<S> {
    pub closed spec fn wrapped(&self) -> S {
        self.service
    }

    /// The wrapped service.
    pub fn service(&self) -> (r: &S)
        ensures
            *r == self.wrapped(),
    {
        &self.service
    }

    pub closed spec fn routes(&self) -> Seq<(Seq<char>, RequestMethod)> {
        self.auth.routes()
    }

    /// The first decision on a request: requests that need no user go on,
    /// the others wait for their user to be looked up.
    pub fn first_step(&self, method: RequestMethod, path: &str) -> (r: AuthStep)
        ensures
            r == if method == RequestMethod::OPTIONS || exists|i: int|
                0 <= i < self.routes().len() && route_admits(
                    #[trigger] self.routes()[i],
                    method,
                    path@,
                ) {
                AuthStep::Forward
            } else {
                AuthStep::LookUpUser
            },
    {
        proof {
            assert(self.routes() == self.auth.routes());
        }
        if self.auth.should_skip_auth(method, path) {
            AuthStep::Forward
        } else {
            AuthStep::LookUpUser
        }
    }

    /// The decision once the lookup is done: a request whose user was found
    /// goes on, any other is rejected.
    pub fn after_lookup(&self, user_found: bool) -> (r: AuthStep)
        ensures
            r == if user_found {
                AuthStep::Forward
            } else {
                AuthStep::Reject
            },
    {
        if user_found {
            AuthStep::Forward
        } else {
            AuthStep::Reject
        }
    }
}

/// The body of the answer to a request that is rejected: a message, the
/// status, the identifier of this occurrence, and a code.
pub open spec fn unauthorized_json(identifier: u128) -> Json {
    Json::Object(
        seq![
            ("message"@, Json::Str("Please authenticate"@)),
            ("status"@, Json::Int(401)),
            ("identifier"@, Json::Str(uuid_text(identifier))),
            ("code"@, Json::Str("UNAUTHORIZED"@)),
        ],
    )
}

/// The JSON body of a 401 answer; `identifier` is a fresh identifier for
/// this occurrence.
pub fn unauthorized_body(identifier: u128) -> (r: JsonValue)
    ensures
        r@ == unauthorized_json(identifier),
{
    let mut members: Vec<Member> = Vec::new();
    members.push(
        Member { key: "message".to_owned(), value: JsonValue::Str("Please authenticate".to_owned()) },
    );
    members.push(Member { key: "status".to_owned(), value: JsonValue::Int(401) });
    members.push(
        Member { key: "identifier".to_owned(), value: JsonValue::Str(format_uuid(identifier)) },
    );
    members.push(Member { key: "code".to_owned(), value: JsonValue::Str("UNAUTHORIZED".to_owned()) });
    let r = JsonValue::Object(members);
    proof {
        assert(members[0].entry() == unauthorized_json(identifier)->Object_0[0]);
        assert(members[1].entry() == unauthorized_json(identifier)->Object_0[1]);
        assert(members[2].entry() == unauthorized_json(identifier)->Object_0[2]);
        assert(members[3].entry() == unauthorized_json(identifier)->Object_0[3]);
        assert(r@->Object_0 =~= unauthorized_json(identifier)->Object_0);
    }
    r
}

} // verus!
