//! Host- and path-based route selection: first match in config order wins.
use vstd::prelude::*;
use crate::config::RouteConfig;
use crate::text::{
    ascii_lower, before_first, chars_of, eq_ignore_ascii_case, eq_ignore_case_ranges, find_first,
    lemma_first_index_of, lower_code, lower_seq, opt_as_str, opt_str_view, opt_view,
    seq_ends_with, seq_starts_with,
};

verus! {

pub open spec fn wildcard_prefix() -> Seq<char> {
    seq!['*', '.']
}

/// Host constraint: none matches anything; a request without a Host never
/// matches a constraint; the port is ignored; "*.d" matches "d" and every
/// name ending in ".d"; comparisons ignore ASCII case.
pub open spec fn spec_host_matches(pattern: Option<Seq<char>>, actual: Option<Seq<char>>) -> bool {
    match pattern {
        None => true,
        Some(p) => match actual {
            None => false,
            Some(a) => {
                let host = before_first(a, ':');
                if seq_starts_with(p, wildcard_prefix()) {
                    let suffix = p.skip(2);
                    eq_ignore_ascii_case(host, suffix) || seq_ends_with(
                        lower_seq(host),
                        seq!['.'] + lower_seq(suffix),
                    )
                } else {
                    eq_ignore_ascii_case(host, p)
                }
            },
        },
    }
}

/// Length of `s` once every trailing `/` is removed.
pub open spec fn trimmed_slash_len(s: Seq<char>) -> int
    decreases s.len(),
{
    if s.len() == 0 {
        0
    } else if s.last() == '/' {
        trimmed_slash_len(s.drop_last())
    } else {
        s.len() as int
    }
}

/// Path constraint: a prefix match on segment boundaries ("/api" matches
/// "/api" and "/api/v1" but not "/apiary"); trailing slashes of the
/// constraint are ignored, so "/" matches everything.
pub open spec fn spec_path_matches(pattern: Option<Seq<char>>, actual: Seq<char>) -> bool {
    match pattern {
        None => true,
        Some(p) => {
            let q = p.take(trimmed_slash_len(p));
            q.len() == 0 || (seq_starts_with(actual, q) && (actual.len() == q.len() || actual[q.len() as int] == '/'))
        },
    }
}

pub open spec fn route_matches(r: RouteConfig, host: Option<Seq<char>>, path: Seq<char>) -> bool {
    spec_host_matches(opt_view(r.host), host) && spec_path_matches(opt_view(r.path), path)
}

/// The index of the first route that matches, in config order.
pub open spec fn first_matching_route(routes: Seq<RouteConfig>, host: Option<Seq<char>>, path: Seq<char>) -> Option<int> {
    if exists|i: int| 0 <= i < routes.len() && route_matches(routes[i], host, path) {
        Some(choose|i: int| 0 <= i < routes.len() && route_matches(routes[i], host, path)
            && forall|j: int| 0 <= j < i ==> !route_matches(routes[j], host, path))
    } else {
        None
    }
}

/// What `first_matching_route` promises: the route it names matches and
/// none before it does; with none, no route matches.
pub proof fn lemma_first_matching_route(routes: Seq<RouteConfig>, host: Option<Seq<char>>, path: Seq<char>)
    ensures
        match first_matching_route(routes, host, path) {
            Some(i) => 0 <= i < routes.len() && route_matches(routes[i], host, path)
                && forall|j: int| 0 <= j < i ==> !route_matches(#[trigger] routes[j], host, path),
            None => forall|i: int| 0 <= i < routes.len() ==> !route_matches(#[trigger] routes[i], host, path),
        },
{
    if exists|i: int| 0 <= i < routes.len() && route_matches(routes[i], host, path) {
        let i = choose|i: int| 0 <= i < routes.len() && route_matches(routes[i], host, path);
        lemma_least_match(routes, host, path, i);
    }
}

/// A route that matches has a first matching route at or before it.
proof fn lemma_least_match(routes: Seq<RouteConfig>, host: Option<Seq<char>>, path: Seq<char>, i: int)
    requires
        0 <= i < routes.len(),
        route_matches(routes[i], host, path),
    ensures
        exists|k: int| 0 <= k < routes.len() && route_matches(routes[k], host, path)
            && forall|j: int| 0 <= j < k ==> !route_matches(#[trigger] routes[j], host, path),
    decreases i,
{
    if exists|j: int| 0 <= j < i && route_matches(routes[j], host, path) {
        let j = choose|j: int| 0 <= j < i && route_matches(routes[j], host, path);
        lemma_least_match(routes, host, path, j);
    } else {
        assert(forall|j: int| 0 <= j < i ==> !route_matches(#[trigger] routes[j], host, path));
    }
}

/// Two route lists that agree on every route's host and path constraint
/// send every request to the same route.
pub proof fn lemma_first_match_same(routes: Seq<RouteConfig>, routes2: Seq<RouteConfig>, host: Option<Seq<char>>, path: Seq<char>)
    requires
        routes2.len() == routes.len(),
        forall|i: int| 0 <= i < routes.len() ==> #[trigger] routes2[i].host == routes[i].host
            && routes2[i].path == routes[i].path,
    ensures
        first_matching_route(routes2, host, path) == first_matching_route(routes, host, path),
{
    assert forall|i: int| 0 <= i < routes.len() implies route_matches(#[trigger] routes2[i], host, path)
        == route_matches(routes[i], host, path) by {
        assert(routes2[i].host == routes[i].host);
    }
    lemma_first_matching_route(routes, host, path);
    lemma_first_matching_route(routes2, host, path);
    let a = first_matching_route(routes, host, path);
    let b = first_matching_route(routes2, host, path);
    if a is Some && b is Some {
        let (x, y) = (a->0, b->0);
        if x < y {
            assert(!route_matches(routes2[x], host, path));
        }
        if y < x {
            assert(!route_matches(routes[y], host, path));
        }
    } else if a is Some {
        assert(!route_matches(routes2[a->0], host, path));
    } else if b is Some {
        assert(!route_matches(routes[b->0], host, path));
    }
}

proof fn lemma_trimmed_slash_len(s: Seq<char>, k: int)
    requires
        0 <= k <= s.len(),
        forall|j: int| k <= j < s.len() ==> #[trigger] s[j] == '/',
        k == 0 || s[k - 1] != '/',
    ensures
        trimmed_slash_len(s) == k,
    decreases s.len() - k,
{
    if k < s.len() {
        let t = s.drop_last();
        assert forall|j: int| k <= j < t.len() implies #[trigger] t[j] == '/' by {
            assert(t[j] == s[j]);
        }
        if k > 0 {
            assert(t[k - 1] == s[k - 1]);
        }
        assert(s[s.len() - 1] == '/');
        lemma_trimmed_slash_len(t, k);
    }
}

/// Index of the first route whose host and path constraints match.
pub fn route_index(routes: &[RouteConfig], host: Option<&str>, path: &str) -> (r: Option<usize>)
    ensures
        match r {
            Some(k) => k < routes@.len() && first_matching_route(routes@, opt_str_view(host), path@) == Some(k as int),
            None => first_matching_route(routes@, opt_str_view(host), path@) is None,
        },
{
    let mut i: usize = 0;
    while i < routes.len()
        invariant
            i <= routes@.len(),
            forall|j: int| 0 <= j < i ==> !route_matches(#[trigger] routes@[j], opt_str_view(host), path@),
        decreases routes@.len() - i,
    {
        let r = &routes[i];
        if host_matches(opt_as_str(&r.host), host) && path_matches(opt_as_str(&r.path), path) {
            proof {
                let ghost h = opt_str_view(host);
                assert(route_matches(routes@[i as int], h, path@));
                let k = choose|k: int| 0 <= k < routes@.len() && route_matches(routes@[k], h, path@)
                    && forall|j: int| 0 <= j < k ==> !route_matches(routes@[j], h, path@);
                if k < i {
                    assert(!route_matches(routes@[k], h, path@));
                }
                if (i as int) < k {
                    assert(!route_matches(routes@[i as int], h, path@));
                }
            }
            return Some(i);
        }
        i = i + 1;
    }
    None
}

/// Pick the first route whose host and path constraints match the request.
/// Config order is match priority: put more specific routes first. A route
/// with no `host`/`path` set matches anything, so it acts as a catch-all if
/// placed last.
pub fn select_route<'a>(routes: &'a [RouteConfig], host: Option<&str>, path: &str) -> (r: Option<&'a RouteConfig>)
    ensures
        match first_matching_route(routes@, opt_str_view(host), path@) {
            Some(i) => r == Some(&routes@[i]),
            None => r is None,
        },
{
    match route_index(routes, host, path) {
        Some(i) => Some(&routes[i]),
        None => None,
    }
}

#[verifier::spinoff_prover]
#[verifier::rlimit(40)]
pub fn host_matches(pattern: Option<&str>, actual: Option<&str>) -> (b: bool)
    ensures
        b == spec_host_matches(opt_str_view(pattern), opt_str_view(actual)),
{
    let pattern = match pattern {
        None => {
            return true;
        },
        Some(p) => p,
    };
    let actual = match actual {
        None => {
            return false;
        },
        Some(a) => a,
    };
    let a = chars_of(actual);
    let p = chars_of(pattern);
    // Host headers may carry a port (`example.com:8080`); match on the
    // hostname only.
    let hend = match find_first(&a, 0, a.len(), ':') {
        Some(i) => {
            proof {
                assert(a@.subrange(0, a.len() as int) =~= a@);
                lemma_first_index_of(a@, ':', i as int);
            }
            i
        },
        None => {
            assert(a@.subrange(0, a.len() as int) =~= a@);
            a.len()
        },
    };
    let ghost host = before_first(a@, ':');
    assert(host =~= a@.subrange(0, hend as int));
    let wildcard = p.len() >= 2 && p[0] == '*' && p[1] == '.';
    proof {
        if wildcard {
            assert(p@.take(2) =~= wildcard_prefix());
        } else if p@.len() >= 2 && p@.take(2) == wildcard_prefix() {
            assert(p@.take(2)[0] == '*');
            assert(p@.take(2)[1] == '.');
        }
    }
    if wildcard {
        let ghost suffix = p@.skip(2);
        assert(suffix =~= p@.subrange(2, p.len() as int));
        if eq_ignore_case_ranges(&a, 0, hend, &p, 2, p.len()) {
            return true;
        }
        let slen = p.len() - 2;
        let ghost target = seq!['.'] + lower_seq(suffix);
        if hend < slen + 1 {
            return false;
        }
        let dot = hend - slen - 1;
        if a[dot] != '.' {
            proof {
                let lh = lower_seq(host);
                if seq_ends_with(lh, target) {
                    assert(lh.skip(lh.len() - target.len())[0] == target[0]);
                    assert(lh[dot as int] == ascii_lower(a@[dot as int]));
                }
            }
            return false;
        }
        let same = eq_ignore_case_ranges(&a, dot + 1, hend, &p, 2, p.len());
        proof {
            let lh = lower_seq(host);
            let tail = lh.skip(lh.len() - target.len());
            if same {
                assert forall|j: int| 0 <= j < target.len() implies tail[j] == target[j] by {
                    if j > 0 {
                        assert(a@.subrange(dot + 1, hend as int)[j - 1] == a@[dot + j]);
                        assert(p@.subrange(2, p.len() as int)[j - 1] == suffix[j - 1]);
                    }
                }
                assert(tail =~= target);
            } else if seq_ends_with(lh, target) {
                let sa = a@.subrange(dot + 1, hend as int);
                let sb = p@.subrange(2, p.len() as int);
                assert forall|j: int| 0 <= j < sa.len() implies ascii_lower(#[trigger] sa[j]) == ascii_lower(sb[j]) by {
                    assert(tail[j + 1] == target[j + 1]);
                    assert(sa[j] == a@[dot + 1 + j]);
                    assert(sb[j] == suffix[j]);
                }
            }
        }
        same
    } else {
        assert(p@.subrange(0, p.len() as int) =~= p@);
        eq_ignore_case_ranges(&a, 0, hend, &p, 0, p.len())
    }
}

pub fn path_matches(pattern: Option<&str>, actual: &str) -> (b: bool)
    ensures
        b == spec_path_matches(opt_str_view(pattern), actual@),
{
    let pat = match pattern {
        None => {
            return true;
        },
        Some(p) => p,
    };
    let p = chars_of(pat);
    let mut k = p.len();
    while k > 0 && p[k - 1] == '/'
        invariant
            k <= p.len(),
            forall|j: int| k <= j < p@.len() ==> #[trigger] p@[j] == '/',
        decreases k,
    {
        k = k - 1;
    }
    proof {
        lemma_trimmed_slash_len(p@, k as int);
    }
    if k == 0 {
        return true;
    }
    let a = chars_of(actual);
    if a.len() < k {
        return false;
    }
    let mut i: usize = 0;
    while i < k
        invariant
            i <= k <= p.len(),
            k <= a.len(),
            k == trimmed_slash_len(p@),
            pattern == Some(pat),
            p@ == pat@,
            a@ == actual@,
            forall|j: int| 0 <= j < i ==> #[trigger] a@[j] == p@[j],
        decreases k - i,
    {
        if a[i] != p[i] {
            proof {
                let q = p@.take(k as int);
                assert(q[i as int] == p@[i as int]);
                if seq_starts_with(a@, q) {
                    assert(a@.take(k as int)[i as int] == q[i as int]);
                    assert(a@.take(k as int)[i as int] == a@[i as int]);
                }
            }
            return false;
        }
        i = i + 1;
    }
    assert(a@.take(k as int) =~= p@.take(k as int));
    // Require a segment boundary so "/api" doesn't match "/apiary".
    a.len() == k || a[k] == '/'
}

} // verus!
