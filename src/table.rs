use vstd::prelude::*;
use vstd::string::*;

use crate::method::Method;
use crate::pattern::{
    capture_spans, captures_of, kinds_of, lemma_captures_len, param_kinds, path_chars,
    segment_ok, spans_denote, valid_segment, ParamKind, Segment,
};
use crate::value::{parse_param, parse_spec, values_view, ParamValue, ParamView};

verus! {

/// A declared route: a verb, a path template and the handler it leads to.
/// The template with no segments is the home route, `/`.
pub struct Route<H> {
    pub method: Method,
    pub segments: Vec<Segment>,
    pub handler: H,
}

impl<H> Route<H> {
    pub fn new(method: Method, segments: Vec<Segment>, handler: H) -> (r: Route<H>)
        ensures
            r.method == method,
            r.segments == segments,
            r.handler == handler,
    {
        Route { method, segments, handler }
    }
}

/// Why a list of routes cannot make a table.
#[derive(Clone, Copy, Debug, PartialEq, Eq, Structural)]
pub enum BuildError {
    /// Segment `segment` of route `route` is an empty literal or holds a `/`.
    MalformedSegment { route: usize, segment: usize },
    /// Routes `first` and `second` are both home routes.
    DuplicateHome { first: usize, second: usize },
}

/// The immutable table a request is dispatched over: the routes in the
/// order they are tried, and the fallback handler.
pub struct RouteTable<H> {
    routes: Vec<Route<H>>,
    fallback: H,
}

/// Which handler a request goes to, with the values of the placeholders.
pub enum Selection<'a, H> {
    Route { handler: &'a H, args: Vec<ParamValue> },
    Fallback { handler: &'a H },
}

pub open spec fn malformed_at<H>(routes: Seq<Route<H>>, i: int, j: int) -> bool {
    &&& 0 <= i < routes.len()
    &&& 0 <= j < routes[i].segments@.len()
    &&& !valid_segment(routes[i].segments@[j])
}

pub open spec fn all_well_formed<H>(routes: Seq<Route<H>>) -> bool {
    forall|i: int, j: int| !#[trigger] malformed_at(routes, i, j)
}

pub open spec fn is_home_at<H>(routes: Seq<Route<H>>, i: int) -> bool {
    0 <= i < routes.len() && routes[i].segments@.len() == 0
}

pub open spec fn at_most_one_home<H>(routes: Seq<Route<H>>) -> bool {
    forall|i: int, j: int| #[trigger] is_home_at(routes, i) && #[trigger] is_home_at(routes, j) ==> i == j
}

/// What a table can be built from: every literal well formed, and one
/// home route at most.
pub open spec fn valid_routes<H>(routes: Seq<Route<H>>) -> bool {
    all_well_formed(routes) && at_most_one_home(routes)
}

/// The order in which routes are tried: the home route, if any, first, the
/// others in the order given.
pub open spec fn normalized<H>(routes: Seq<Route<H>>) -> Seq<Route<H>> {
    if exists|h: int| is_home_at(routes, h) {
        let h = choose|h: int| is_home_at(routes, h);
        seq![routes[h]] + routes.remove(h)
    } else {
        routes
    }
}

/// The values of the captured texts `caps`, parsed by the kinds `kinds`,
/// if every one parses.
pub open spec fn parse_all(kinds: Seq<ParamKind>, caps: Seq<Seq<char>>) -> Option<Seq<ParamView>> {
    if kinds.len() == caps.len() && forall|j: int|
        0 <= j < caps.len() ==> (#[trigger] parse_spec(kinds[j], caps[j])) is Some {
        Some(Seq::new(caps.len(), |j: int| parse_spec(kinds[j], caps[j])->0))
    } else {
        None
    }
}

/// The arguments route `r` takes a request with, if it takes it: the verb
/// is the route's, the template matches the path, and every placeholder's
/// text parses.
pub open spec fn route_args<H>(r: Route<H>, m: Method, p: Seq<char>) -> Option<Seq<ParamView>> {
    if r.method != m {
        None
    } else {
        match captures_of(r.segments@, p) {
            Some(caps) => parse_all(param_kinds(r.segments@), caps),
            None => None,
        }
    }
}

/// The first route from position `i` on that takes the request, with its
/// arguments.
pub open spec fn first_match<H>(routes: Seq<Route<H>>, m: Method, p: Seq<char>, i: int) -> Option<
    (int, Seq<ParamView>),
>
    decreases routes.len() - i,
{
    if i < 0 || i >= routes.len() {
        None
    } else {
        match route_args(routes[i], m, p) {
            Some(a) => Some((i, a)),
            None => first_match(routes, m, p, i + 1),
        }
    }
}

pub open spec fn select<H>(routes: Seq<Route<H>>, m: Method, p: Seq<char>) -> Option<
    (int, Seq<ParamView>),
> {
    first_match(routes, m, p, 0)
}

/// Parses the texts that `spans` cut out of `path` by the kinds of the
/// placeholders of `segs`.
fn parse_spans(segs: &Vec<Segment>, path: &str, spans: &Vec<(usize, usize)>) -> (r: Option<
    Vec<ParamValue>,
>)
    requires
        captures_of(segs@, path@) is Some,
        spans_denote(spans@, path@, captures_of(segs@, path@)->0),
    ensures
        match parse_all(param_kinds(segs@), captures_of(segs@, path@)->0) {
            Some(a) => r is Some && values_view(r->0@) == a,
            None => r is None,
        },
{
    let ghost caps = captures_of(segs@, path@)->0;
    let kinds = kinds_of(segs);
    proof {
        lemma_captures_len(segs@, path@, 0);
    }
    assert(kinds@.len() == caps.len());
    let mut out: Vec<ParamValue> = Vec::new();
    let mut j: usize = 0;
    while j < spans.len()
        invariant
            caps == captures_of(segs@, path@)->0,
            kinds@ == param_kinds(segs@),
            kinds@.len() == caps.len(),
            spans_denote(spans@, path@, caps),
            j <= spans@.len(),
            out@.len() == j,
            forall|t: int|
                0 <= t < j ==> parse_spec(kinds@[t], caps[t]) == Some(#[trigger] out@[t]@),
        decreases spans@.len() - j,
    {
        let (a, b) = spans[j];
        let text = path.substring_char(a, b);
        assert(spans@[j as int] == (a, b));
        assert(text@ == caps[j as int]);
        match parse_param(kinds[j], text) {
            Some(v) => {
                out.push(v);
            },
            None => {
                assert(parse_spec(kinds@[j as int], caps[j as int]) is None);
                assert(parse_all(kinds@, caps) is None);
                return None;
            },
        }
        j = j + 1;
    }
    assert forall|t: int| 0 <= t < caps.len() implies (#[trigger] parse_spec(
        kinds@[t],
        caps[t],
    )) is Some by {
        assert(parse_spec(kinds@[t], caps[t]) == Some(out@[t]@));
    }
    assert(values_view(out@) =~= parse_all(kinds@, caps)->0);
    Some(out)
}

impl<H> RouteTable<H> {
    /// The routes, in the order they are tried.
    pub closed spec fn routes(&self) -> Seq<Route<H>> {
        self.routes@
    }

    pub closed spec fn fallback(&self) -> H {
        self.fallback
    }

    /// Builds the table from routes in declaration order and the fallback
    /// handler. Fails on the first malformed literal (by route, then by
    /// segment), else on the first two home routes.
    pub fn build(routes: Vec<Route<H>>, fallback: H) -> (r: Result<RouteTable<H>, BuildError>)
        ensures
            r is Ok <==> valid_routes(routes@),
            match r {
                Ok(t) => t.routes() == normalized(routes@) && t.fallback() == fallback,
                Err(BuildError::MalformedSegment { route, segment }) => {
                    &&& malformed_at(routes@, route as int, segment as int)
                    &&& forall|i: int, j: int| #[trigger]
                        malformed_at(routes@, i, j) ==> i > route || (i == route && j >= segment)
                },
                Err(BuildError::DuplicateHome { first, second }) => {
                    &&& all_well_formed(routes@)
                    &&& first < second
                    &&& is_home_at(routes@, first as int)
                    &&& is_home_at(routes@, second as int)
                    &&& forall|i: int| #[trigger]
                        is_home_at(routes@, i) ==> i == first || i >= second
                },
            },
    {
        let mut i: usize = 0;
        while i < routes.len()
            invariant
                i <= routes@.len(),
                forall|i2: int, j: int| i2 < i ==> !#[trigger] malformed_at(routes@, i2, j),
            decreases routes@.len() - i,
        {
            let segs = &routes[i].segments;
            let mut j: usize = 0;
            while j < segs.len()
                invariant
                    i < routes@.len(),
                    *segs == routes@[i as int].segments,
                    j <= segs@.len(),
                    forall|i2: int, j2: int| i2 < i ==> !#[trigger] malformed_at(routes@, i2, j2),
                    forall|j2: int| j2 < j ==> !#[trigger] malformed_at(routes@, i as int, j2),
                decreases segs@.len() - j,
            {
                if !segment_ok(&segs[j]) {
                    assert(malformed_at(routes@, i as int, j as int));
                    return Err(BuildError::MalformedSegment { route: i, segment: j });
                }
                j = j + 1;
            }
            i = i + 1;
        }
        assert(all_well_formed(routes@));
        let mut home: Option<usize> = None;
        let mut i: usize = 0;
        while i < routes.len()
            invariant
                i <= routes@.len(),
                all_well_formed(routes@),
                match home {
                    Some(h) => h < i && is_home_at(routes@, h as int) && forall|k: int|
                        #[trigger] is_home_at(routes@, k) && k < i ==> k == h,
                    None => forall|k: int| #[trigger] is_home_at(routes@, k) ==> k >= i,
                },
            decreases routes@.len() - i,
        {
            if routes[i].segments.len() == 0 {
                match home {
                    Some(h) => {
                        assert(is_home_at(routes@, i as int));
                        assert(is_home_at(routes@, h as int));
                        return Err(BuildError::DuplicateHome { first: h, second: i });
                    },
                    None => {
                        home = Some(i);
                    },
                }
            }
            i = i + 1;
        }
        let ghost given = routes@;
        let mut routes = routes;
        match home {
            Some(h) => {
                let r = routes.remove(h);
                routes.insert(0, r);
                assert(exists|k: int| is_home_at(given, k));
                assert(routes@ =~= seq![given[h as int]] + given.remove(h as int));
            },
            None => {
                assert(!exists|k: int| is_home_at(given, k));
            },
        }
        Ok(RouteTable { routes, fallback })
    }

    /// The handler for requests that no route takes.
    pub fn fallback_handler(&self) -> (r: &H)
        ensures
            *r == self.fallback(),
    {
        &self.fallback
    }

    /// Picks the handler for a request: the first route, in table order,
    /// whose verb is `method`, whose template matches `path` and whose
    /// placeholders all parse; else the fallback.
    pub fn dispatch(&self, method: Method, path: &str) -> (r: Selection<'_, H>)
        ensures
            match (select(self.routes(), method, path@), r) {
                (Some((i, a)), Selection::Route { handler, args }) => {
                    &&& 0 <= i < self.routes().len()
                    &&& *handler == self.routes()[i].handler
                    &&& values_view(args@) == a
                },
                (None, Selection::Fallback { handler }) => *handler == self.fallback(),
                _ => false,
            },
    {
        let p = path_chars(path);
        let mut i: usize = 0;
        while i < self.routes.len()
            invariant
                p@ == path@,
                i <= self.routes@.len(),
                select(self.routes@, method, path@) == first_match(
                    self.routes@,
                    method,
                    path@,
                    i as int,
                ),
            decreases self.routes@.len() - i,
        {
            let route = &self.routes[i];
            if route.method == method {
                match capture_spans(&route.segments, &p) {
                    Some(spans) => {
                        match parse_spans(&route.segments, path, &spans) {
                            Some(args) => {
                                return Selection::Route { handler: &route.handler, args };
                            },
                            None => {},
                        }
                    },
                    None => {},
                }
            }
            i = i + 1;
        }
        Selection::Fallback { handler: &self.fallback }
    }
}

} // verus!
