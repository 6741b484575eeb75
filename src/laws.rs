use vstd::prelude::*;

use crate::method::Method;
use crate::value::ParamView;
use crate::pattern::{captures_of, param_kinds, valid_segment, valid_segments, Segment};
use crate::table::{
    first_match, is_home_at, malformed_at, normalized, parse_all, route_args, select, valid_routes, Route,
};

verus! {

/// Whatever the search from `k` selects is a route at or after `k` that
/// takes the request, with the arguments it takes it with.
pub proof fn lemma_selected_takes_request<H>(
    routes: Seq<Route<H>>,
    m: Method,
    p: Seq<char>,
    k: int,
)
    requires
        0 <= k,
    ensures
        first_match(routes, m, p, k) matches Some((i, a)) ==> {
            &&& k <= i < routes.len()
            &&& route_args(routes[i], m, p) == Some(a)
        },
    decreases routes.len() - k,
{
    if k < routes.len() && route_args(routes[k], m, p) is None {
        lemma_selected_takes_request(routes, m, p, k + 1);
    }
}

/// Routes that do not take the request are passed over.
pub proof fn lemma_skip_non_matching<H>(
    routes: Seq<Route<H>>,
    m: Method,
    p: Seq<char>,
    k: int,
    i: int,
)
    requires
        0 <= k <= i <= routes.len(),
        forall|j: int| k <= j < i ==> (#[trigger] route_args(routes[j], m, p)) is None,
    ensures
        first_match(routes, m, p, k) == first_match(routes, m, p, i),
    decreases i - k,
{
    if k < i {
        lemma_skip_non_matching(routes, m, p, k + 1, i);
    }
}

/// A request that route `i` takes, and no route before it, goes to route
/// `i`, with the values that route parses from the path.
pub proof fn lemma_matching_route_selected<H>(routes: Seq<Route<H>>, m: Method, p: Seq<char>, i: int)
    requires
        0 <= i < routes.len(),
        route_args(routes[i], m, p) is Some,
        forall|j: int| 0 <= j < i ==> (#[trigger] route_args(routes[j], m, p)) is None,
    ensures
        select(routes, m, p) == Some((i, route_args(routes[i], m, p)->0)),
{
    lemma_skip_non_matching(routes, m, p, 0, i);
}

/// Of two routes that both take a request, the later one is never
/// selected: the request goes to the earlier one or to a route before it.
pub proof fn lemma_first_match_wins<H>(
    routes: Seq<Route<H>>,
    m: Method,
    p: Seq<char>,
    i: int,
    j: int,
)
    requires
        0 <= i < j < routes.len(),
        route_args(routes[i], m, p) is Some,
        route_args(routes[j], m, p) is Some,
    ensures
        select(routes, m, p) matches Some((k, _)) && k <= i && k != j,
{
    lemma_first_taker_at_most(routes, m, p, 0, i);
}

proof fn lemma_first_taker_at_most<H>(
    routes: Seq<Route<H>>,
    m: Method,
    p: Seq<char>,
    k: int,
    i: int,
)
    requires
        0 <= k <= i < routes.len(),
        route_args(routes[i], m, p) is Some,
    ensures
        first_match(routes, m, p, k) matches Some((t, _)) && k <= t <= i,
    decreases i - k,
{
    if k < i && route_args(routes[k], m, p) is None {
        lemma_first_taker_at_most(routes, m, p, k + 1, i);
    }
}

/// A route whose template matches the path but one of whose placeholders
/// does not parse takes no request: the search goes on past it, to the
/// routes after it or to the fallback.
pub proof fn lemma_parse_failure_falls_through<H>(
    routes: Seq<Route<H>>,
    m: Method,
    p: Seq<char>,
    i: int,
)
    requires
        0 <= i < routes.len(),
        routes[i].method == m,
        captures_of(routes[i].segments@, p) is Some,
        parse_all(param_kinds(routes[i].segments@), captures_of(routes[i].segments@, p)->0) is None,
    ensures
        route_args(routes[i], m, p) is None,
        first_match(routes, m, p, i) == first_match(routes, m, p, i + 1),
        !(select(routes, m, p) matches Some((k, _)) && k == i),
{
    lemma_selected_takes_request(routes, m, p, 0);
}

/// A route for one verb never takes a request with another, whatever the
/// path.
pub proof fn lemma_other_verb_never_selected<H>(
    routes: Seq<Route<H>>,
    m: Method,
    p: Seq<char>,
    i: int,
)
    requires
        0 <= i < routes.len(),
        routes[i].method != m,
    ensures
        route_args(routes[i], m, p) is None,
        !(select(routes, m, p) matches Some((k, _)) && k == i),
{
    lemma_selected_takes_request(routes, m, p, 0);
}

/// The home template matches the path `/` and no other; a template with
/// segments never matches `/`.
pub proof fn lemma_home_matches_only_root(segs: Seq<Segment>, p: Seq<char>)
    requires
        valid_segments(segs),
    ensures
        segs.len() == 0 ==> (captures_of(segs, p) is Some <==> p == seq!['/']),
        segs.len() > 0 ==> captures_of(segs, seq!['/']) is None,
{
    if segs.len() > 0 {
        assert(crate::pattern::valid_segment(segs[0]));
        assert(crate::pattern::run_end(seq!['/'], 1) == 1);
    }
}

/// A request that no route takes goes to the fallback.
pub proof fn lemma_no_match_falls_back<H>(routes: Seq<Route<H>>, m: Method, p: Seq<char>)
    requires
        forall|j: int| 0 <= j < routes.len() ==> (#[trigger] route_args(routes[j], m, p)) is None,
    ensures
        select(routes, m, p) is None,
{
    lemma_skip_non_matching(routes, m, p, 0, routes.len() as int);
}

/// The route that the search from `k` selects, with its arguments.
pub open spec fn chosen_from<H>(routes: Seq<Route<H>>, m: Method, p: Seq<char>, k: int) -> Option<
    (Route<H>, Seq<ParamView>),
> {
    match first_match(routes, m, p, k) {
        Some((i, a)) => Some((routes[i], a)),
        None => None,
    }
}

/// The route that a request goes to, with its arguments; `None` for the
/// fallback.
pub open spec fn chosen<H>(routes: Seq<Route<H>>, m: Method, p: Seq<char>) -> Option<
    (Route<H>, Seq<ParamView>),
> {
    chosen_from(routes, m, p, 0)
}

proof fn lemma_chosen_suffix<H>(
    t: Seq<Route<H>>,
    s: Seq<Route<H>>,
    d: int,
    m: Method,
    p: Seq<char>,
    k: int,
)
    requires
        0 <= d,
        0 <= k <= s.len(),
        t.len() == s.len() + d,
        forall|j: int| k <= j < s.len() ==> t[j + d] == s[j],
    ensures
        chosen_from(t, m, p, k + d) == chosen_from(s, m, p, k),
    decreases s.len() - k,
{
    if k < s.len() {
        assert(t[k + d] == s[k]);
        lemma_chosen_suffix(t, s, d, m, p, k + 1);
        assert(k + d + 1 == (k + 1) + d);
    }
}

proof fn lemma_chosen_remove<H>(s: Seq<Route<H>>, h: int, m: Method, p: Seq<char>, k: int)
    requires
        0 <= k <= h < s.len(),
        route_args(s[h], m, p) is None,
    ensures
        chosen_from(s, m, p, k) == chosen_from(s.remove(h), m, p, k),
    decreases h - k,
{
    let r = s.remove(h);
    if k < h {
        assert(r[k] == s[k]);
        lemma_chosen_remove(s, h, m, p, k + 1);
    } else {
        assert forall|j: int| h <= j < r.len() implies s[j + 1] == r[j] by {}
        lemma_chosen_suffix(s, r, 1, m, p, h);
    }
}

/// Trying the home route first, as a built table does, sends every request
/// to the same route, with the same arguments, as the declared order would:
/// the home route takes only `/`, which no other route takes.
pub proof fn lemma_home_first_keeps_outcome<H>(routes: Seq<Route<H>>, m: Method, p: Seq<char>)
    requires
        valid_routes(routes),
    ensures
        chosen(normalized(routes), m, p) == chosen(routes, m, p),
{
    if exists|h: int| is_home_at(routes, h) {
        let h = choose|h: int| is_home_at(routes, h);
        let rest = routes.remove(h);
        let n = seq![routes[h]] + rest;
        assert(normalized(routes) == n);
        if route_args(routes[h], m, p) is None {
            assert forall|j: int| 0 <= j < rest.len() implies n[j + 1] == rest[j] by {}
            lemma_chosen_suffix(n, rest, 1, m, p, 0);
            lemma_chosen_remove(routes, h, m, p, 0);
        } else {
            assert(p == seq!['/']);
            assert forall|j: int| 0 <= j < routes.len() && j != h implies (#[trigger] route_args(
                routes[j],
                m,
                p,
            )) is None by {
                assert(!is_home_at(routes, j));
                assert(valid_segments(routes[j].segments@)) by {
                    assert forall|q: int| 0 <= q < routes[j].segments@.len() implies valid_segment(
                        #[trigger] routes[j].segments@[q],
                    ) by {
                        assert(!malformed_at(routes, j, q));
                    }
                }
                lemma_home_matches_only_root(routes[j].segments@, p);
            }
            lemma_matching_route_selected(routes, m, p, h);
        }
    }
}

} // verus!
