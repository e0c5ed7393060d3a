//! Weighted round robin of the first-generation proxy: weights are used as
//! given, so a weight of 0 takes an upstream out of the rotation.
use vstd::prelude::*;
pub use crate::upstream::UpstreamPool;
use crate::upstream::{max_of, next_counter, pools_view, slots_upto};

verus! {

pub open spec fn raw_weights(ups: Seq<(Seq<char>, u32)>) -> Seq<nat> {
    Seq::new(ups.len(), |k: int| ups[k].1 as nat)
}

/// Rounds of the schedule: the largest weight (1 when there are no
/// upstreams).
pub open spec fn raw_rounds(ups: Seq<(Seq<char>, u32)>) -> nat {
    if ups.len() == 0 {
        1
    } else {
        max_of(raw_weights(ups))
    }
}

/// The interleaved schedule: round `r` lists, in order, every upstream whose
/// weight exceeds `r`.
pub open spec fn raw_schedule(ups: Seq<(Seq<char>, u32)>) -> Seq<(Seq<char>, u32)> {
    slots_upto(raw_weights(ups), raw_rounds(ups)).map_values(|k: int| ups[k])
}

pub struct LoadBalancer {
    upstreams: Vec<UpstreamPool>,
    counter: usize,
}

impl LoadBalancer {
    /// The interleaved schedule that `next` cycles through.
    pub closed spec fn schedule(&self) -> Seq<(Seq<char>, u32)> {
        pools_view(self.upstreams@)
    }

    pub closed spec fn counter(&self) -> nat {
        self.counter as nat
    }

    pub fn new(upstreams: Vec<UpstreamPool>) -> (lb: Self)
        ensures
            lb.schedule() == raw_schedule(pools_view(upstreams@)),
            lb.counter() == 0,
    {
        let ghost ups = pools_view(upstreams@);
        let ghost ws = raw_weights(ups);
        let n = upstreams.len();
        // Expand upstreams based on weights with interleaving.
        let mut maxw: u32 = 0;
        let mut i: usize = 0;
        while i < n
            invariant
                i <= n == upstreams@.len(),
                ups == pools_view(upstreams@),
                ws == raw_weights(ups),
                maxw == max_of(ws.take(i as int)),
            decreases n - i,
        {
            assert(ws.take(i + 1).drop_last() =~= ws.take(i as int));
            if upstreams[i].weight > maxw {
                maxw = upstreams[i].weight;
            }
            i = i + 1;
        }
        assert(ws.take(n as int) =~= ws);
        let rounds_n: u32 = if n == 0 { 1 } else { maxw };
        let mut expanded: Vec<UpstreamPool> = Vec::new();
        let ghost mut slots: Seq<int> = Seq::empty();
        let mut r: u32 = 0;
        while r < rounds_n
            invariant
                r <= rounds_n,
                rounds_n == raw_rounds(ups),
                n == upstreams@.len() == ups.len(),
                ups == pools_view(upstreams@),
                ws == raw_weights(ups),
                slots == slots_upto(ws, r as nat),
                pools_view(expanded@) == slots.map_values(|k: int| ups[k]),
            decreases rounds_n - r,
        {
            let ghost before = slots;
            let mut j: usize = 0;
            while j < n
                invariant
                    j <= n == upstreams@.len() == ups.len(),
                    r < rounds_n,
                    ups == pools_view(upstreams@),
                    ws == raw_weights(ups),
                    before == slots_upto(ws, r as nat),
                    slots == before + crate::upstream::round_slots(ws, r as nat, j as nat),
                    pools_view(expanded@) == slots.map_values(|k: int| ups[k]),
                decreases n - j,
            {
                let ghost old_exp = expanded@;
                assert(upstreams@[j as int]@.1 == ws[j as int]);
                if r < upstreams[j].weight {
                    let u = upstreams[j].clone();
                    expanded.push(u);
                    proof {
                        slots = slots.push(j as int);
                        assert(pools_view(expanded@) =~= pools_view(old_exp).push(u@));
                    }
                }
                assert(before + crate::upstream::round_slots(ws, r as nat, (j + 1) as nat) =~= slots);
                assert(pools_view(expanded@) =~= slots.map_values(|k: int| ups[k]));
                j = j + 1;
            }
            assert(ws.len() == n);
            r = r + 1;
        }
        LoadBalancer { upstreams: expanded, counter: 0 }
    }

    /// The next upstream in round-robin order, or `None` when the balancer
    /// has no upstreams.
    pub fn next(&mut self) -> (r: Option<&UpstreamPool>)
        ensures
            final(self).schedule() == old(self).schedule(),
            old(self).schedule().len() == 0 ==> r is None && final(self).counter() == old(self).counter(),
            old(self).schedule().len() > 0 ==> {
                &&& r matches Some(u)
                &&& u@ == old(self).schedule()[(old(self).counter() % old(self).schedule().len()) as int]
                &&& final(self).counter() == next_counter(old(self).counter())
            },
    {
        let len = self.upstreams.len();
        if len == 0 {
            return None;
        }
        let idx = self.counter % len;
        self.counter = if self.counter == usize::MAX { 0 } else { self.counter + 1 };
        Some(&self.upstreams[idx])
    }
}

} // verus!
