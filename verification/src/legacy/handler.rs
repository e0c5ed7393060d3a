//! Request handling of the first-generation proxy. Routing by request is
//! not part of it: every request goes to the first route, to the next
//! upstream of that route's balancer.
use vstd::prelude::*;
use std::time::Duration;
use crate::config::{duration_from_secs, duration_result, opt_duration_in_range, spec_duration_from_secs};
use crate::legacy::config::RouteConfig;
use crate::legacy::upstream::LoadBalancer;
use crate::server::{AttemptOutcome, Reply};
use crate::text::str_eq;
use crate::upstream::next_counter;

verus! {

/// The route names a balancer cache is keyed by, in order.
pub open spec fn cache_names(m: Seq<(String, LoadBalancer)>) -> Seq<Seq<char>> {
    m.map_values(|p: (String, LoadBalancer)| p.0@)
}

/// The position of the balancer a cache holds for `name`: the last entry
/// under that name, as a map keeps the last value stored under a key.
pub open spec fn last_index_of(names: Seq<Seq<char>>, name: Seq<char>) -> Option<int>
    decreases names.len(),
{
    if names.len() == 0 {
        None
    } else if names.last() == name {
        Some(names.len() - 1)
    } else {
        last_index_of(names.drop_last(), name)
    }
}

proof fn lemma_last_index_of(names: Seq<Seq<char>>, name: Seq<char>)
    ensures
        match last_index_of(names, name) {
            Some(i) => 0 <= i < names.len() && names[i] == name,
            None => true,
        },
    decreases names.len(),
{
    if names.len() > 0 && names.last() != name {
        lemma_last_index_of(names.drop_last(), name);
    }
}

/// The balancer cache entry for `name`, as `last_index_of` finds it.
fn find_balancer(m: &Vec<(String, LoadBalancer)>, name: &str) -> (r: Option<usize>)
    ensures
        match r {
            Some(k) => last_index_of(cache_names(m@), name@) == Some(k as int),
            None => last_index_of(cache_names(m@), name@) is None,
        },
{
    let mut i = m.len();
    assert(cache_names(m@).take(i as int) =~= cache_names(m@));
    while i > 0
        invariant
            i <= m@.len(),
            last_index_of(cache_names(m@), name@) == last_index_of(cache_names(m@).take(i as int), name@),
        decreases i,
    {
        let ghost names = cache_names(m@).take(i as int);
        assert(names.drop_last() =~= cache_names(m@).take(i - 1));
        if str_eq(m[i - 1].0.as_str(), name) {
            assert(names.last() == cache_names(m@)[i - 1]);
            return Some(i - 1);
        }
        i = i - 1;
    }
    assert(cache_names(m@).take(0) =~= Seq::<Seq<char>>::empty());
    None
}

/// The total timeout of a route: its `timeout.total` when that parses, else
/// 30 seconds.
pub open spec fn spec_legacy_timeout(route: RouteConfig) -> Duration {
    match route.timeout.total {
        Some(t) => match duration_result(t@) {
            Ok(d) => d,
            Err(_) => spec_duration_from_secs(30),
        },
        None => spec_duration_from_secs(30),
    }
}

/// What the first-generation proxy does with a request.
#[derive(Debug)]
pub enum LegacyPlan {
    /// Answer at once.
    Reply(Reply),
    /// Forward to `upstream`, waiting at most `timeout` for its response
    /// headers.
    Forward { upstream: String, timeout: Duration },
}

/// Plan one request: the first route, and the next upstream of the
/// balancer cached under its name; `NoRoutes` when there is no route,
/// `NoUpstream` when the route has no balancer or it has no upstreams.
/// Only that balancer advances.
pub fn plan_legacy_request(routes: &Vec<RouteConfig>, lbs: &mut Vec<(String, LoadBalancer)>) -> (r: LegacyPlan)
    requires
        routes@.len() > 0 ==> opt_duration_in_range(routes@[0].timeout.total),
    ensures
        final(lbs)@.len() == old(lbs)@.len(),
        routes@.len() == 0 ==> r == LegacyPlan::Reply(Reply::NoRoutes) && final(lbs)@ == old(lbs)@,
        routes@.len() > 0 ==> match last_index_of(cache_names(old(lbs)@), routes@[0].name@) {
            None => r == LegacyPlan::Reply(Reply::NoUpstream) && final(lbs)@ == old(lbs)@,
            Some(i) => {
                let lb = old(lbs)@[i].1;
                let lb2 = final(lbs)@[i].1;
                &&& forall|j: int| 0 <= j < old(lbs)@.len() && j != i ==> final(lbs)@[j] == old(lbs)@[j]
                &&& final(lbs)@[i].0 == old(lbs)@[i].0
                &&& lb2.schedule() == lb.schedule()
                &&& if lb.schedule().len() == 0 {
                    r == LegacyPlan::Reply(Reply::NoUpstream) && lb2.counter() == lb.counter()
                } else {
                    &&& r matches LegacyPlan::Forward { upstream, timeout }
                    &&& upstream@ == lb.schedule()[(lb.counter() % lb.schedule().len()) as int].0
                    &&& timeout == spec_legacy_timeout(routes@[0])
                    &&& lb2.counter() == next_counter(lb.counter())
                }
            },
        },
{
    if routes.len() == 0 {
        return LegacyPlan::Reply(Reply::NoRoutes);
    }
    let route = &routes[0];
    let i = match find_balancer(lbs, route.name.as_str()) {
        Some(i) => i,
        None => {
            return LegacyPlan::Reply(Reply::NoUpstream);
        },
    };
    proof {
        lemma_last_index_of(cache_names(lbs@), route.name@);
    }
    let upstream = match lbs[i].1.next() {
        Some(u) => u.addr.clone(),
        None => {
            return LegacyPlan::Reply(Reply::NoUpstream);
        },
    };
    let timeout = match route.timeout.total_duration() {
        Some(d) => d,
        None => duration_from_secs(30),
    };
    LegacyPlan::Forward { upstream, timeout }
}

/// How a forwarded request ends: `None` passes the upstream's response on;
/// a failure is answered 502 and a timeout 504.
pub fn legacy_outcome_reply(outcome: AttemptOutcome) -> (r: Option<Reply>)
    ensures
        r == match outcome {
            AttemptOutcome::Responded => None,
            AttemptOutcome::Failed { .. } => Some(Reply::BadGateway),
            AttemptOutcome::TimedOut => Some(Reply::GatewayTimeout),
        },
{
    match outcome {
        AttemptOutcome::Responded => None,
        AttemptOutcome::Failed { .. } => Some(Reply::BadGateway),
        AttemptOutcome::TimedOut => Some(Reply::GatewayTimeout),
    }
}

} // verus!
