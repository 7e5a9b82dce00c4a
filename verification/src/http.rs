//! The HTTP request dispatcher: from a request line to the handler that
//! serves it.

use crate::text::{
    chars_eq, chars_eq_ignore_ascii_case, chars_of, chars_strip_leading, chars_strip_trailing,
    eq_ignore_ascii_case, split, split_chars, split_tokens, string_of, strip_leading,
    strip_trailing, tokens, views,
};
use vstd::prelude::*;
use vstd::string::StringExecFns;

verus! {

/// A request method.
#[derive(Debug, Clone, Copy, PartialEq, Eq, Hash, Structural)]
pub enum Method {
    GET,
    POST,
    PUT,
    DELETE,
}

/// What serves a request.
#[derive(Debug, Clone, Copy, PartialEq, Eq, Hash, Structural)]
pub enum Handler {
    /// One record, by identifier.
    GetMail,
    /// The records sent to an address.
    GetMailsTo,
    /// The records sent from an address.
    GetMailsFrom,
    /// Removal of one record.
    DeleteMail,
    /// All records.
    GetMails,
    /// Removal of all records.
    DeleteMails,
    /// Resource figures of the process and its host.
    Info,
    /// The page that shows one record.
    PreviewMail,
    /// The panel page.
    Panel,
}

/// A name with a value: a query parameter, or a captured path segment.
pub type Pair = (Seq<char>, Seq<char>);

/// The pairs of sequences that the pairs of strings hold.
pub open spec fn pair_views(v: Seq<(String, String)>) -> Seq<Pair> {
    Seq::new(v.len(), |i: int| (v[i].0@, v[i].1@))
}

/// The method that `name` names, the case of ASCII letters aside.
pub open spec fn method_of(name: Seq<char>) -> Option<Method> {
    if eq_ignore_ascii_case(name, "GET"@) {
        Some(Method::GET)
    } else if eq_ignore_ascii_case(name, "POST"@) {
        Some(Method::POST)
    } else if eq_ignore_ascii_case(name, "PUT"@) {
        Some(Method::PUT)
    } else if eq_ignore_ascii_case(name, "DELETE"@) {
        Some(Method::DELETE)
    } else {
        None
    }
}

impl Method {
    /// The method that `method` names, the case of ASCII letters aside.
    pub fn from_str(method: &str) -> (r: Option<Method>)
        ensures
            r == method_of(method@),
    {
        let name = chars_of(method);
        let get = chars_of("GET");
        let post = chars_of("POST");
        let put = chars_of("PUT");
        let delete = chars_of("DELETE");
        if chars_eq_ignore_ascii_case(name.as_slice(), get.as_slice()) {
            Some(Method::GET)
        } else if chars_eq_ignore_ascii_case(name.as_slice(), post.as_slice()) {
            Some(Method::POST)
        } else if chars_eq_ignore_ascii_case(name.as_slice(), put.as_slice()) {
            Some(Method::PUT)
        } else if chars_eq_ignore_ascii_case(name.as_slice(), delete.as_slice()) {
            Some(Method::DELETE)
        } else {
            None
        }
    }
}

/// The segments of a path: the pieces between its slashes, the slashes at
/// its end left aside.
pub open spec fn segments(path: Seq<char>) -> Seq<Seq<char>> {
    split(strip_trailing(path, '/'), '/')
}

/// Whether a segment of a route captures a segment of the request: it
/// starts with a colon.
pub open spec fn is_capture(segment: Seq<char>) -> bool {
    segment.len() > 0 && segment[0] == ':'
}

/// What the segments of a route capture from as many segments of a request:
/// each capturing segment its counterpart, under its name without the
/// colons at its start. Nothing where another segment differs from its
/// counterpart.
pub open spec fn bind(route: Seq<Seq<char>>, request: Seq<Seq<char>>) -> Option<Seq<Pair>>
    decreases route.len(),
{
    if route.len() == 0 {
        Some(Seq::<Pair>::empty())
    } else {
        match bind(route.drop_last(), request.drop_last()) {
            None => None,
            Some(prior) => if is_capture(route.last()) {
                Some(prior.push((strip_leading(route.last(), ':'), request.last())))
            } else if route.last() == request.last() {
                Some(prior)
            } else {
                None
            },
        }
    }
}

/// What the route path captures from the request path, where the two match:
/// they have as many segments, and each segment of the route captures its
/// counterpart or equals it.
pub open spec fn path_match(route_path: Seq<char>, request_path: Seq<char>) -> Option<Seq<Pair>> {
    if segments(route_path).len() != segments(request_path).len() {
        None
    } else {
        bind(segments(route_path), segments(request_path))
    }
}

/// The value of the last pair named `name`.
pub open spec fn lookup(pairs: Seq<Pair>, name: Seq<char>) -> Option<Seq<char>>
    decreases pairs.len(),
{
    if pairs.len() == 0 {
        None
    } else if pairs.last().0 == name {
        Some(pairs.last().1)
    } else {
        lookup(pairs.drop_last(), name)
    }
}

/// Segments that fail to bind at some length fail to bind as a whole.
pub proof fn lemma_bind_fails_on(route: Seq<Seq<char>>, request: Seq<Seq<char>>, n: int)
    requires
        route.len() == request.len(),
        0 <= n <= route.len(),
        bind(route.take(n), request.take(n)) is None,
    ensures
        bind(route, request) is None,
    decreases route.len() - n,
{
    if n == route.len() {
        assert(route.take(n) =~= route);
        assert(request.take(n) =~= request);
    } else {
        assert(route.take(n + 1).drop_last() =~= route.take(n));
        assert(request.take(n + 1).drop_last() =~= request.take(n));
        lemma_bind_fails_on(route, request, n + 1);
    }
}

/// What the route path captures from the request path, where the two match.
pub fn match_path(route_path: &str, request_path: &str) -> (r: Option<Vec<(String, String)>>)
    ensures
        match path_match(route_path@, request_path@) {
            Some(pairs) => r is Some && pair_views(r->Some_0@) == pairs,
            None => r is None,
        },
{
    let route_chars = chars_of(route_path);
    let request_chars = chars_of(request_path);
    let route_parts = split_chars(chars_strip_trailing(route_chars.as_slice(), '/'), '/');
    let request_parts = split_chars(chars_strip_trailing(request_chars.as_slice(), '/'), '/');
    if route_parts.len() != request_parts.len() {
        return None;
    }
    let ghost route = views(route_parts@);
    let ghost request = views(request_parts@);
    let mut params: Vec<(String, String)> = Vec::new();
    let mut i: usize = 0;
    assert(route.take(0) =~= Seq::<Seq<char>>::empty());
    assert(pair_views(params@) =~= Seq::<Pair>::empty());
    while i < route_parts.len()
        invariant
            i <= route_parts.len(),
            route_parts.len() == request_parts.len(),
            route == views(route_parts@),
            request == views(request_parts@),
            route == segments(route_path@),
            request == segments(request_path@),
            bind(route.take(i as int), request.take(i as int)) == Some(pair_views(params@)),
        decreases route_parts.len() - i,
    {
        let route_part = route_parts[i].as_slice();
        let request_part = request_parts[i].as_slice();
        proof {
            assert(route.take(i + 1).drop_last() =~= route.take(i as int));
            assert(request.take(i + 1).drop_last() =~= request.take(i as int));
            assert(route.take(i + 1).last() == route_part@);
            assert(request.take(i + 1).last() == request_part@);
        }
        if route_part.len() > 0 && route_part[0] == ':' {
            let name = string_of(chars_strip_leading(route_part, ':'));
            let value = string_of(request_part);
            let ghost before = params@;
            params.push((name, value));
            assert(pair_views(params@) =~= pair_views(before).push((name@, value@)));
        } else if !chars_eq(route_part, request_part) {
            proof {
                lemma_bind_fails_on(route, request, i + 1);
            }
            return None;
        }
        i = i + 1;
    }
    assert(route.take(i as int) =~= route);
    assert(request.take(i as int) =~= request);
    Some(params)
}

/// The value of the last pair named `name`.
pub fn find_pair<'a>(pairs: &'a Vec<(String, String)>, name: &str) -> (r: Option<&'a String>)
    ensures
        match lookup(pair_views(pairs@), name@) {
            Some(value) => r is Some && r->Some_0@ == value,
            None => r is None,
        },
{
    let wanted: String = name.to_owned();
    let ghost all = pair_views(pairs@);
    let mut n: usize = pairs.len();
    assert(all.take(n as int) =~= all);
    while n > 0
        invariant
            n <= pairs.len(),
            all == pair_views(pairs@),
            wanted@ == name@,
            lookup(all, name@) == lookup(all.take(n as int), name@),
        decreases n,
    {
        assert(all.take(n as int).last() == (pairs@[n - 1].0@, pairs@[n - 1].1@));
        assert(all.take(n as int).drop_last() =~= all.take(n - 1));
        if pairs[n - 1].0 == wanted {
            return Some(&pairs[n - 1].1);
        }
        n = n - 1;
    }
    None
}

/// One line of the route table.
#[derive(Debug)]
pub struct Route {
    /// The method that the route serves.
    pub method: Method,
    /// The path pattern; a segment that starts with a colon captures.
    pub path: String,
    /// What serves the requests that the route takes.
    pub handler: Handler,
}

/// A route as a triple of method, path pattern and handler.
pub type RouteView = (Method, Seq<char>, Handler);

/// The triples that the routes hold.
pub open spec fn route_views(routes: Seq<Route>) -> Seq<RouteView> {
    Seq::new(routes.len(), |i: int| (routes[i].method, routes[i].path@, routes[i].handler))
}

/// The route table, in the order in which the routes are tried.
pub open spec fn route_table() -> Seq<RouteView> {
    seq![
        (Method::GET, "/mails/:mail_id"@, Handler::GetMail),
        (Method::GET, "/mails/to/:email"@, Handler::GetMailsTo),
        (Method::GET, "/mails/from/:email"@, Handler::GetMailsFrom),
        (Method::DELETE, "/mails/:mail_id"@, Handler::DeleteMail),
        (Method::GET, "/mails"@, Handler::GetMails),
        (Method::DELETE, "/mails"@, Handler::DeleteMails),
        (Method::GET, "/info"@, Handler::Info),
        (Method::GET, "/preview/:mail_id"@, Handler::PreviewMail),
        (Method::GET, "/panel"@, Handler::Panel),
    ]
}

/// The route table.
pub fn build_routes() -> (routes: Vec<Route>)
    ensures
        route_views(routes@) == route_table(),
{
    let mut routes: Vec<Route> = Vec::new();
    routes.push(
        Route {
            method: Method::GET,
            path: String::from_str("/mails/:mail_id"),
            handler: Handler::GetMail,
        },
    );
    routes.push(
        Route {
            method: Method::GET,
            path: String::from_str("/mails/to/:email"),
            handler: Handler::GetMailsTo,
        },
    );
    routes.push(
        Route {
            method: Method::GET,
            path: String::from_str("/mails/from/:email"),
            handler: Handler::GetMailsFrom,
        },
    );
    routes.push(
        Route {
            method: Method::DELETE,
            path: String::from_str("/mails/:mail_id"),
            handler: Handler::DeleteMail,
        },
    );
    routes.push(
        Route { method: Method::GET, path: String::from_str("/mails"), handler: Handler::GetMails },
    );
    routes.push(
        Route {
            method: Method::DELETE,
            path: String::from_str("/mails"),
            handler: Handler::DeleteMails,
        },
    );
    routes.push(
        Route { method: Method::GET, path: String::from_str("/info"), handler: Handler::Info },
    );
    routes.push(
        Route {
            method: Method::GET,
            path: String::from_str("/preview/:mail_id"),
            handler: Handler::PreviewMail,
        },
    );
    routes.push(
        Route { method: Method::GET, path: String::from_str("/panel"), handler: Handler::Panel },
    );
    assert(route_views(routes@) =~= route_table());
    routes
}

/// The handler of the first route that serves `method` and whose path
/// matches `path`, with what the path captures.
pub open spec fn find_route(routes: Seq<RouteView>, method: Method, path: Seq<char>) -> Option<
    (Handler, Seq<Pair>),
>
    decreases routes.len(),
{
    if routes.len() == 0 {
        None
    } else if routes[0].0 == method && path_match(routes[0].1, path) is Some {
        Some((routes[0].2, path_match(routes[0].1, path)->Some_0))
    } else {
        find_route(routes.drop_first(), method, path)
    }
}

/// The handler of the first route that serves `method` and whose path
/// matches `request_path`, with what the path captures.
pub fn find_handler(routes: &Vec<Route>, method: &Method, request_path: &str) -> (r: Option<
    (Handler, Vec<(String, String)>),
>)
    ensures
        match find_route(route_views(routes@), *method, request_path@) {
            Some((handler, params)) => r is Some && r->Some_0.0 == handler && pair_views(
                r->Some_0.1@,
            ) == params,
            None => r is None,
        },
{
    let ghost all = route_views(routes@);
    let mut i: usize = 0;
    assert(all.skip(0) =~= all);
    while i < routes.len()
        invariant
            i <= routes.len(),
            all == route_views(routes@),
            find_route(all, *method, request_path@) == find_route(
                all.skip(i as int),
                *method,
                request_path@,
            ),
        decreases routes.len() - i,
    {
        assert(all.skip(i as int)[0] == all[i as int]);
        assert(all.skip(i as int).drop_first() =~= all.skip(i + 1));
        if routes[i].method == *method {
            match match_path(routes[i].path.as_str(), request_path) {
                Some(params) => {
                    return Some((routes[i].handler, params));
                },
                None => {},
            }
        }
        i = i + 1;
    }
    None
}


/// What `url::Url::parse` finds in the absolute URL `url`, where it accepts
/// it: the path, and the query where there is one.
pub uninterp spec fn url_parts(url: Seq<char>) -> Option<(Seq<char>, Option<Seq<char>>)>;

/// What `percent_encoding::percent_decode_str` and `decode_utf8` make of
/// `s`: the text with its percent escapes replaced by the bytes they stand
/// for, where those bytes are UTF-8.
pub uninterp spec fn percent_decoded(s: Seq<char>) -> Option<Seq<char>>;

/// The name-value pairs that `url::form_urlencoded::parse` reads from a
/// query string, in order.
pub uninterp spec fn query_pairs(query: Seq<char>) -> Seq<Pair>;

/// Calls `url::Url::parse` on `url` and, where it succeeds, `Url::path` and
/// `Url::query` on what it gives.
#[verifier::external_body]
fn split_url(url: &str) -> (r: Option<(String, Option<String>)>)
    ensures
        match url_parts(url@) {
            Some((path, query)) => r is Some && r->Some_0.0@ == path && match query {
                Some(q) => r->Some_0.1 is Some && r->Some_0.1->Some_0@ == q,
                None => r->Some_0.1 is None,
            },
            None => r is None,
        },
{
    let parsed = url::Url::parse(url).ok()?;
    Some((parsed.path().to_string(), parsed.query().map(|q| q.to_string())))
}

/// Calls `percent_encoding::percent_decode_str` on `s` and `decode_utf8` on
/// what it gives.
#[verifier::external_body]
fn percent_decode(s: &str) -> (r: Option<String>)
    ensures
        match percent_decoded(s@) {
            Some(decoded) => r is Some && r->Some_0@ == decoded,
            None => r is None,
        },
{
    percent_encoding::percent_decode_str(s).decode_utf8().ok().map(|decoded| decoded.into_owned())
}

/// Calls `url::form_urlencoded::parse` on the bytes of `query` and gathers
/// the pairs that it yields.
#[verifier::external_body]
fn parse_query(query: &str) -> (r: Vec<(String, String)>)
    ensures
        pair_views(r@) == query_pairs(query@),
{
    url::form_urlencoded::parse(query.as_bytes()).into_owned().collect()
}

/// A request that a route takes.
#[derive(Debug, PartialEq, Eq)]
pub struct Request {
    /// The request method.
    pub method: Method,
    /// The path, percent escapes decoded.
    pub path: String,
    /// The query parameters, in order.
    pub query: Vec<(String, String)>,
    /// What the route's path captured from the request's.
    pub params: Vec<(String, String)>,
    /// What serves the request.
    pub handler: Handler,
}

/// A request as a value of the specification.
pub struct RequestView {
    pub method: Method,
    pub path: Seq<char>,
    pub query: Seq<Pair>,
    pub params: Seq<Pair>,
    pub handler: Handler,
}

impl View for Request {
    type V = RequestView;

    open spec fn view(&self) -> RequestView {
        RequestView {
            method: self.method,
            path: self.path@,
            query: pair_views(self.query@),
            params: pair_views(self.params@),
            handler: self.handler,
        }
    }
}

/// What becomes of a request line.
#[derive(Debug, PartialEq, Eq)]
pub enum Verdict {
    /// The line is no request line: answer with status 400.
    BadRequest,
    /// Close the connection without sending anything.
    Close,
    /// No route takes the request: answer with status 404.
    NotFound,
    /// Hand the request to its handler.
    Serve(Request),
}

/// A verdict as a value of the specification.
pub enum VerdictView {
    BadRequest,
    Close,
    NotFound,
    Serve(RequestView),
}

impl View for Verdict {
    type V = VerdictView;

    open spec fn view(&self) -> VerdictView {
        match self {
            Verdict::BadRequest => VerdictView::BadRequest,
            Verdict::Close => VerdictView::Close,
            Verdict::NotFound => VerdictView::NotFound,
            Verdict::Serve(request) => VerdictView::Serve(request@),
        }
    }
}

/// Whether the query carries the shared secret: its last parameter `k` is
/// the key.
pub open spec fn authorized(query: Seq<Pair>, key: Seq<char>) -> bool {
    lookup(query, "k"@) == Some(key)
}

/// What becomes of a request with the given method, where its name is that
/// of one, decoded path and query parameters: it is dropped unless it
/// carries the key, and is then handed to the first route that takes it.
/// No route takes a request whose method is unknown.
pub open spec fn route_verdict(
    method: Option<Method>,
    path: Seq<char>,
    query: Seq<Pair>,
    key: Seq<char>,
) -> VerdictView {
    if !authorized(query, key) {
        VerdictView::Close
    } else {
        match method {
            Some(method) => match find_route(route_table(), method, path) {
                Some((handler, params)) => VerdictView::Serve(
                    RequestView { method, path, query, params, handler },
                ),
                None => VerdictView::NotFound,
            },
            None => VerdictView::NotFound,
        }
    }
}

/// The query parameters that the request target `target` carries, where it
/// parses as the rest of a URL.
pub open spec fn target_query(target: Seq<char>) -> Option<Seq<Pair>> {
    match url_parts("http://localhost"@ + target) {
        Some((_, Some(query))) => Some(query_pairs(query)),
        Some((_, None)) => Some(query_pairs(Seq::<char>::empty())),
        None => None,
    }
}

/// What becomes of a request line. A line of fewer than two words is a bad
/// request. A request is dropped without an answer where its target does
/// not parse as the rest of a URL, where the path of the target does not
/// decode, or where the query does not carry the key. A request that
/// carries the key is handed to the route that takes its method and path,
/// and is not found where there is none.
pub open spec fn request_verdict(line: Seq<char>, key: Seq<char>) -> VerdictView {
    let words = tokens(line);
    if words.len() < 2 {
        VerdictView::BadRequest
    } else {
        match url_parts("http://localhost"@ + words[1]) {
            Some((raw_path, _)) => match percent_decoded(raw_path) {
                Some(path) => route_verdict(
                    method_of(words[0]),
                    path,
                    target_query(words[1])->Some_0,
                    key,
                ),
                None => VerdictView::Close,
            },
            None => VerdictView::Close,
        }
    }
}

/// A request line of two words or more whose target carries no parameter
/// `k` with the key is dropped without an answer.
pub proof fn lemma_unauthorized_request_is_dropped(line: Seq<char>, key: Seq<char>)
    requires
        tokens(line).len() >= 2,
        match target_query(tokens(line)[1]) {
            Some(query) => !authorized(query, key),
            None => true,
        },
    ensures
        request_verdict(line, key) == VerdictView::Close,
{
}

/// A request that carries the key and whose method is unknown is answered
/// as not found.
pub proof fn lemma_unknown_method_is_not_found(line: Seq<char>, key: Seq<char>)
    requires
        tokens(line).len() >= 2,
        method_of(tokens(line)[0]) is None,
        url_parts("http://localhost"@ + tokens(line)[1]) is Some,
        percent_decoded(url_parts("http://localhost"@ + tokens(line)[1])->Some_0.0) is Some,
        authorized(target_query(tokens(line)[1])->Some_0, key),
    ensures
        request_verdict(line, key) == VerdictView::NotFound,
{
}

/// What becomes of a request with the given method, where its name is that
/// of one, decoded path and query parameters.
pub fn route_request(
    method: Option<Method>,
    path: String,
    query: Vec<(String, String)>,
    key: &str,
) -> (v: Verdict)
    ensures
        v@ == route_verdict(method, path@, pair_views(query@), key@),
{
    let authorized = match find_pair(&query, "k") {
        Some(given) => {
            let wanted: String = key.to_owned();
            *given == wanted
        },
        None => false,
    };
    if !authorized {
        return Verdict::Close;
    }
    let method = match method {
        Some(method) => method,
        None => {
            return Verdict::NotFound;
        },
    };
    let routes = build_routes();
    match find_handler(&routes, &method, path.as_str()) {
        Some((handler, params)) => Verdict::Serve(Request { method, path, query, params, handler }),
        None => Verdict::NotFound,
    }
}

/// What becomes of the request line `request_line`, given the shared
/// secret `key`.
pub fn parse_request(request_line: &str, key: &str) -> (v: Verdict)
    ensures
        v@ == request_verdict(request_line@, key@),
{
    let chars = chars_of(request_line);
    let words = split_tokens(chars.as_slice());
    if words.len() < 2 {
        return Verdict::BadRequest;
    }
    let method_name = string_of(words[0].as_slice());
    let target = string_of(words[1].as_slice());
    assert(views(words@)[0] == method_name@);
    assert(views(words@)[1] == target@);
    let method = Method::from_str(method_name.as_str());
    let url = String::from_str("http://localhost").concat(target.as_str());
    let (raw_path, raw_query) = match split_url(url.as_str()) {
        Some(parts) => parts,
        None => {
            return Verdict::Close;
        },
    };
    let path = match percent_decode(raw_path.as_str()) {
        Some(path) => path,
        None => {
            return Verdict::Close;
        },
    };
    let query = match raw_query {
        Some(text) => parse_query(text.as_str()),
        None => parse_query(""),
    };
    proof {
        reveal_strlit("");
        assert(""@ =~= Seq::<char>::empty());
    }
    route_request(method, path, query, key)
}

} // verus!
