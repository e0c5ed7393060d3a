//! Weighted round-robin load balancing over a route's upstreams.
use vstd::prelude::*;
use crate::health::{health_of, HealthRegistry};
use crate::text::str_eq;
use crate::config::{Config, RouteConfig, UpstreamConfig};

verus! {

/// Greatest common divisor, by Euclid's recursion.
pub open spec fn spec_gcd(a: nat, b: nat) -> nat
    decreases b,
{
    if b == 0 {
        a
    } else {
        spec_gcd(b, a % b)
    }
}

/// `d` divides `a`.
pub open spec fn divides(d: nat, a: nat) -> bool {
    exists|q: nat| #[trigger] (d * q) == a
}

proof fn lemma_divides_mod(g: nat, a: nat, b: nat)
    requires
        b > 0,
        divides(g, b),
        divides(g, a % b),
    ensures
        divides(g, a),
{
    let m = choose|q: nat| #[trigger] (g * q) == b;
    let n = choose|q: nat| #[trigger] (g * q) == a % b;
    let k = a / b;
    assert(a == k * b + a % b) by (nonlinear_arith)
        requires
            b > 0,
            k == a / b,
    ;
    let w: nat = (k * m + n) as nat;
    assert(g * w == a) by (nonlinear_arith)
        requires
            a == k * b + a % b,
            g * m == b,
            g * n == a % b,
            w == k * m + n,
    ;
}

/// The gcd divides both arguments, and is positive unless both are zero.
pub proof fn lemma_gcd_divides(a: nat, b: nat)
    ensures
        divides(spec_gcd(a, b), a),
        divides(spec_gcd(a, b), b),
        (a > 0 || b > 0) ==> spec_gcd(a, b) > 0,
    decreases b,
{
    if b == 0 {
        assert(a * 1 == a);
        assert(a * 0 == 0);
    } else {
        lemma_gcd_divides(b, a % b);
        lemma_divides_mod(spec_gcd(b, a % b), a, b);
    }
}

pub fn gcd(a: u32, b: u32) -> (g: u32)
    ensures
        g == spec_gcd(a as nat, b as nat),
    decreases b,
{
    if b == 0 {
        a
    } else {
        gcd(b, a % b)
    }
}

#[derive(Debug)]
pub struct UpstreamPool {
    pub addr: String,
    pub weight: u32,
}

impl View for UpstreamPool {
    type V = (Seq<char>, u32);

    open spec fn view(&self) -> (Seq<char>, u32) {
        (self.addr@, self.weight)
    }
}

impl Clone for UpstreamPool {
    fn clone(&self) -> (r: Self)
        ensures
            r@ == self@,
    {
        UpstreamPool { addr: self.addr.clone(), weight: self.weight }
    }
}

/// A configured weight of 0 counts as 1.
pub open spec fn eff_weight(w: u32) -> nat {
    if w == 0 {
        1
    } else {
        w as nat
    }
}

pub open spec fn eff_weights(ups: Seq<(Seq<char>, u32)>) -> Seq<nat> {
    Seq::new(ups.len(), |k: int| eff_weight(ups[k].1))
}

/// gcd of all entries (0 for none).
pub open spec fn gcd_of(ws: Seq<nat>) -> nat
    decreases ws.len(),
{
    if ws.len() == 0 {
        0
    } else {
        spec_gcd(gcd_of(ws.drop_last()), ws.last())
    }
}

pub open spec fn weight_divisor(ups: Seq<(Seq<char>, u32)>) -> nat {
    let g = gcd_of(eff_weights(ups));
    if g == 0 {
        1
    } else {
        g
    }
}

/// Weight of upstream `k` once every weight is divided by their gcd.
pub open spec fn reduced_weight(ups: Seq<(Seq<char>, u32)>, k: int) -> nat {
    eff_weight(ups[k].1) / weight_divisor(ups)
}

pub open spec fn reduced_weights(ups: Seq<(Seq<char>, u32)>) -> Seq<nat> {
    Seq::new(ups.len(), |k: int| reduced_weight(ups, k))
}

pub open spec fn max_of(ws: Seq<nat>) -> nat
    decreases ws.len(),
{
    if ws.len() == 0 {
        0
    } else if ws.last() > max_of(ws.drop_last()) {
        ws.last()
    } else {
        max_of(ws.drop_last())
    }
}

/// Number of rounds in the schedule: the largest reduced weight (1 when
/// there are no upstreams).
pub open spec fn rounds(ups: Seq<(Seq<char>, u32)>) -> nat {
    if ups.len() == 0 {
        1
    } else {
        max_of(reduced_weights(ups))
    }
}

/// Round `r` of the schedule restricted to the first `n` upstreams: the
/// indices `k < n` whose weight exceeds `r`, in order.
pub open spec fn round_slots(ws: Seq<nat>, r: nat, n: nat) -> Seq<int>
    decreases n,
{
    if n == 0 {
        Seq::empty()
    } else {
        let prev = round_slots(ws, r, (n - 1) as nat);
        if r < ws[n - 1] {
            prev.push(n - 1)
        } else {
            prev
        }
    }
}

/// Rounds `0..m` of the schedule, one after the other.
pub open spec fn slots_upto(ws: Seq<nat>, m: nat) -> Seq<int>
    decreases m,
{
    if m == 0 {
        Seq::empty()
    } else {
        slots_upto(ws, (m - 1) as nat) + round_slots(ws, (m - 1) as nat, ws.len())
    }
}

/// For each slot of the interleaved weighted schedule, the index of the
/// upstream it serves.
pub open spec fn schedule_slots(ups: Seq<(Seq<char>, u32)>) -> Seq<int> {
    slots_upto(reduced_weights(ups), rounds(ups))
}

/// The schedule a load balancer built from `ups` cycles through: each slot
/// holds its upstream's address and reduced weight.
pub open spec fn spec_schedule(ups: Seq<(Seq<char>, u32)>) -> Seq<(Seq<char>, u32)> {
    schedule_slots(ups).map_values(|k: int| (ups[k].0, reduced_weight(ups, k) as u32))
}

pub open spec fn pools_view(v: Seq<UpstreamPool>) -> Seq<(Seq<char>, u32)> {
    v.map_values(|u: UpstreamPool| u@)
}

pub struct LoadBalancer {
    upstreams: Vec<UpstreamPool>,
    counter: usize,
    /// The pools this balancer was built from.
    source: Ghost<Seq<(Seq<char>, u32)>>,
}

impl LoadBalancer {
    #[verifier::type_invariant]
    spec fn wf(self) -> bool {
        pools_view(self.upstreams@) == spec_schedule(self.source@)
    }

    /// The pools this balancer was built from.
    pub closed spec fn source(&self) -> Seq<(Seq<char>, u32)> {
        self.source@
    }

    /// The interleaved schedule that `next` cycles through.
    pub closed spec fn schedule(&self) -> Seq<(Seq<char>, u32)> {
        pools_view(self.upstreams@)
    }

    /// How many picks have been made (wrapping at `usize::MAX`).
    pub closed spec fn counter(&self) -> nat {
        self.counter as nat
    }

    pub fn new(upstreams: Vec<UpstreamPool>) -> (lb: Self)
        ensures
            lb.source() == pools_view(upstreams@),
            lb.schedule() == spec_schedule(pools_view(upstreams@)),
            lb.counter() == 0,
    {
        let ghost ups = pools_view(upstreams@);
        let ghost ws = eff_weights(ups);
        let n = upstreams.len();
        // Expand upstreams into an interleaved weighted round-robin schedule.
        // Weights are reduced by their GCD first so weight=100/100 produces
        // [a, b] rather than 200 entries.
        let mut g: u32 = 0;
        let mut i: usize = 0;
        while i < n
            invariant
                i <= n == upstreams@.len(),
                ups == pools_view(upstreams@),
                ws == eff_weights(ups),
                g == gcd_of(ws.take(i as int)),
            decreases n - i,
        {
            let w = upstreams[i].weight;
            let e = if w == 0 { 1 } else { w };
            assert(ws.take(i + 1).drop_last() =~= ws.take(i as int));
            g = gcd(g, e);
            i = i + 1;
        }
        assert(ws.take(n as int) =~= ws);
        let d = if g == 0 { 1 } else { g };
        let mut reduced: Vec<UpstreamPool> = Vec::new();
        let mut maxw: u32 = 0;
        i = 0;
        while i < n
            invariant
                i <= n == upstreams@.len(),
                ups == pools_view(upstreams@),
                d == weight_divisor(ups),
                d >= 1,
                reduced@.len() == i,
                forall|k: int| 0 <= k < i ==> (#[trigger] reduced@[k])@ == (ups[k].0, reduced_weight(ups, k) as u32),
                forall|k: int| 0 <= k < i ==> reduced_weight(ups, k) <= u32::MAX,
                maxw == max_of(reduced_weights(ups).take(i as int)),
            decreases n - i,
        {
            let w = upstreams[i].weight;
            let e = if w == 0 { 1 } else { w };
            let rw = e / d;
            assert(rw <= e) by (nonlinear_arith)
                requires
                    d >= 1,
                    rw == e / d,
            ;
            assert(reduced_weights(ups).take(i + 1).drop_last() =~= reduced_weights(ups).take(i as int));
            if rw > maxw {
                maxw = rw;
            }
            reduced.push(UpstreamPool { addr: upstreams[i].addr.clone(), weight: rw });
            i = i + 1;
        }
        assert(reduced_weights(ups).take(n as int) =~= reduced_weights(ups));
        let ghost rws = reduced_weights(ups);
        let rounds_n: u32 = if n == 0 { 1 } else { maxw };
        let mut expanded: Vec<UpstreamPool> = Vec::new();
        let ghost mut slots: Seq<int> = Seq::empty();
        let mut r: u32 = 0;
        while r < rounds_n
            invariant
                r <= rounds_n,
                rounds_n == rounds(ups),
                n == reduced@.len() == ups.len(),
                rws == reduced_weights(ups),
                forall|k: int| 0 <= k < n ==> (#[trigger] reduced@[k])@ == (ups[k].0, reduced_weight(ups, k) as u32),
                forall|k: int| 0 <= k < n ==> reduced_weight(ups, k) <= u32::MAX,
                slots == slots_upto(rws, r as nat),
                pools_view(expanded@) == slots.map_values(|k: int| (ups[k].0, reduced_weight(ups, k) as u32)),
            decreases rounds_n - r,
        {
            let ghost before = slots;
            let mut j: usize = 0;
            while j < n
                invariant
                    j <= n == reduced@.len() == ups.len(),
                    r < rounds_n,
                    rws == reduced_weights(ups),
                    forall|k: int| 0 <= k < n ==> (#[trigger] reduced@[k])@ == (ups[k].0, reduced_weight(ups, k) as u32),
                    forall|k: int| 0 <= k < n ==> reduced_weight(ups, k) <= u32::MAX,
                    before == slots_upto(rws, r as nat),
                    slots == before + round_slots(rws, r as nat, j as nat),
                    pools_view(expanded@) == slots.map_values(|k: int| (ups[k].0, reduced_weight(ups, k) as u32)),
                decreases n - j,
            {
                let ghost old_exp = expanded@;
                assert(reduced@[j as int]@.1 == rws[j as int]);
                if r < reduced[j].weight {
                    let u = reduced[j].clone();
                    expanded.push(u);
                    proof {
                        slots = slots.push(j as int);
                        assert(expanded@ == old_exp.push(u));
                        assert(pools_view(expanded@) =~= pools_view(old_exp).push(u@));
                    }
                }
                assert(before + round_slots(rws, r as nat, (j + 1) as nat) =~= slots);
                assert(pools_view(expanded@) =~= slots.map_values(|k: int| (ups[k].0, reduced_weight(ups, k) as u32)));
                j = j + 1;
            }
            assert(rws.len() == n);
            r = r + 1;
        }
        let lb = LoadBalancer { upstreams: expanded, counter: 0, source: Ghost(ups) };
        lb
    }
}

/// The counter after one more pick (`fetch_add` wraps around).
pub open spec fn next_counter(c: nat) -> nat {
    if c == usize::MAX {
        0
    } else {
        c + 1
    }
}

impl LoadBalancer {
    /// The next upstream in round-robin order, or `None` when the balancer
    /// has no upstreams.
    pub fn next(&mut self) -> (r: Option<&UpstreamPool>)
        ensures
            old(self).schedule() == spec_schedule(old(self).source()),
            final(self).source() == old(self).source(),
            final(self).schedule() == old(self).schedule(),
            old(self).schedule().len() == 0 ==> r is None && final(self).counter() == old(self).counter(),
            old(self).schedule().len() > 0 ==> {
                &&& r matches Some(u)
                &&& u@ == old(self).schedule()[(old(self).counter() % old(self).schedule().len()) as int]
                &&& final(self).counter() == next_counter(old(self).counter())
            },
    {
        proof {
            use_type_invariant(&*self);
        }
        let len = self.upstreams.len();
        if len == 0 {
            return None;
        }
        let idx = self.counter % len;
        self.counter = if self.counter == usize::MAX { 0 } else { self.counter + 1 };
        Some(&self.upstreams[idx])
    }
}

/// How often `k` occurs in `s`.
pub open spec fn count_in(s: Seq<int>, k: int) -> nat
    decreases s.len(),
{
    if s.len() == 0 {
        0
    } else {
        count_in(s.drop_last(), k) + if s.last() == k {
            1nat
        } else {
            0nat
        }
    }
}

/// The slots visited by `m` consecutive picks that start at counter `c`,
/// over a schedule of `len` slots.
pub open spec fn picked_positions(c: nat, len: nat, m: nat) -> Seq<int> {
    Seq::new(m, |j: int| ((c + j) % (len as int)) as int)
}

proof fn lemma_count_append(a: Seq<int>, b: Seq<int>, k: int)
    ensures
        count_in(a + b, k) == count_in(a, k) + count_in(b, k),
    decreases b.len(),
{
    if b.len() > 0 {
        lemma_count_append(a, b.drop_last(), k);
        assert((a + b).drop_last() =~= a + b.drop_last());
    } else {
        assert(a + b =~= a);
    }
}

proof fn lemma_count_round(ws: Seq<nat>, r: nat, n: nat, k: int)
    requires
        n <= ws.len(),
    ensures
        count_in(round_slots(ws, r, n), k) == if 0 <= k < n && r < ws[k] {
            1nat
        } else {
            0nat
        },
        forall|t: int| 0 <= t < round_slots(ws, r, n).len() ==> 0 <= #[trigger] round_slots(ws, r, n)[t] < n,
    decreases n,
{
    if n > 0 {
        lemma_count_round(ws, r, (n - 1) as nat, k);
        let prev = round_slots(ws, r, (n - 1) as nat);
        if r < ws[n - 1] {
            assert(prev.push(n - 1).drop_last() =~= prev);
        }
    }
}

proof fn lemma_count_upto(ws: Seq<nat>, m: nat, k: int)
    requires
        0 <= k < ws.len(),
    ensures
        count_in(slots_upto(ws, m), k) == if ws[k] < m {
            ws[k]
        } else {
            m
        },
    decreases m,
{
    if m > 0 {
        lemma_count_upto(ws, (m - 1) as nat, k);
        lemma_count_append(slots_upto(ws, (m - 1) as nat), round_slots(ws, (m - 1) as nat, ws.len()), k);
        lemma_count_round(ws, (m - 1) as nat, ws.len(), k);
    }
}

proof fn lemma_max_of_ge(ws: Seq<nat>, k: int)
    requires
        0 <= k < ws.len(),
    ensures
        ws[k] <= max_of(ws),
    decreases ws.len(),
{
    if k < ws.len() - 1 {
        lemma_max_of_ge(ws.drop_last(), k);
    }
}

proof fn lemma_divides_trans(d: nat, g: nat, x: nat)
    requires
        divides(d, g),
        divides(g, x),
    ensures
        divides(d, x),
{
    let p = choose|q: nat| #[trigger] (d * q) == g;
    let q = choose|q: nat| #[trigger] (g * q) == x;
    let w: nat = p * q;
    assert(d * w == x) by (nonlinear_arith)
        requires
            d * p == g,
            g * q == x,
            w == p * q,
    ;
}

proof fn lemma_gcd_of_divides(ws: Seq<nat>, k: int)
    requires
        0 <= k < ws.len(),
    ensures
        divides(gcd_of(ws), ws[k]),
        ws[ws.len() - 1] > 0 ==> gcd_of(ws) > 0,
    decreases ws.len(),
{
    let pre = gcd_of(ws.drop_last());
    lemma_gcd_divides(pre, ws.last());
    if k < ws.len() - 1 {
        lemma_gcd_of_divides(ws.drop_last(), k);
        lemma_divides_trans(gcd_of(ws), pre, ws[k]);
    }
}

/// Dividing every weight by their gcd keeps each weight positive and keeps
/// the ratios: reduced weight times the divisor gives back the weight.
pub proof fn lemma_reduced_weight(ups: Seq<(Seq<char>, u32)>, k: int)
    requires
        0 <= k < ups.len(),
    ensures
        reduced_weight(ups, k) * weight_divisor(ups) == eff_weight(ups[k].1),
        reduced_weight(ups, k) >= 1,
{
    let ws = eff_weights(ups);
    lemma_gcd_of_divides(ws, k);
    lemma_gcd_of_divides(ws, ws.len() - 1);
    let d = weight_divisor(ups);
    let e = eff_weight(ups[k].1);
    assert(ws[k] == e);
    assert(ws[ws.len() - 1] > 0);
    assert(d == gcd_of(ws));
    let q = choose|q: nat| #[trigger] (gcd_of(ws) * q) == ws[k];
    assert(e / d == q) by (nonlinear_arith)
        requires
            d * q == e,
            d > 0,
    ;
    assert(q >= 1) by (nonlinear_arith)
        requires
            d * q == e,
            e >= 1,
    ;
    assert(q * d == e) by (nonlinear_arith)
        requires
            d * q == e,
    ;
}

/// In the schedule built from `ups`, upstream `k` occupies exactly as many
/// slots as its reduced weight.
pub proof fn lemma_schedule_counts(ups: Seq<(Seq<char>, u32)>, k: int)
    requires
        0 <= k < ups.len(),
    ensures
        count_in(schedule_slots(ups), k) == reduced_weight(ups, k),
        schedule_slots(ups).len() > 0,
{
    let rws = reduced_weights(ups);
    lemma_max_of_ge(rws, k);
    lemma_count_upto(rws, rounds(ups), k);
    lemma_reduced_weight(ups, k);
    if schedule_slots(ups).len() == 0 {
        assert(count_in(schedule_slots(ups), k) == 0);
    }
}

/// Weighted round robin: any `len` consecutive picks (no counter wrap in
/// between), where `len` is the schedule length, choose each upstream
/// exactly its reduced weight times.
pub proof fn law_round_robin_share(ups: Seq<(Seq<char>, u32)>, c: nat, k: int)
    requires
        0 <= k < ups.len(),
    ensures
        ({
            let slots = schedule_slots(ups);
            let pos = picked_positions(c, slots.len(), slots.len());
            count_in(pos.map_values(|p: int| slots[p]), k) == reduced_weight(ups, k)
        }),
        reduced_weight(ups, k) * weight_divisor(ups) == eff_weight(ups[k].1),
{
    let slots = schedule_slots(ups);
    lemma_schedule_counts(ups, k);
    lemma_reduced_weight(ups, k);
    let len = slots.len();
    let m = (c as int) % (len as int);
    let pos = picked_positions(c, len, len);
    let picked = pos.map_values(|p: int| slots[p]);
    assert forall|j: int| 0 <= j < len implies #[trigger] picked[j] == (slots.skip(m) + slots.take(m))[j] by {
        if j < len - m {
            assert((c + j) % (len as int) == m + j) by (nonlinear_arith)
                requires
                    m == (c as int) % (len as int),
                    0 <= j < len - m,
                    len > 0,
            ;
        } else {
            assert((c + j) % (len as int) == j - (len - m)) by (nonlinear_arith)
                requires
                    m == (c as int) % (len as int),
                    len - m <= j < len,
                    len > 0,
            ;
        }
    }
    assert(picked =~= slots.skip(m) + slots.take(m));
    lemma_count_append(slots.skip(m), slots.take(m), k);
    lemma_count_append(slots.take(m), slots.skip(m), k);
    assert(slots.take(m) + slots.skip(m) =~= slots);
}

/// The counter after `m` calls of `next` that start at counter `c`.
pub open spec fn counter_after(c: nat, m: nat) -> nat
    decreases m,
{
    if m == 0 {
        c
    } else {
        next_counter(counter_after(c, (m - 1) as nat))
    }
}

/// The schedule slots that `m` successive calls of `next` pick when they
/// start at counter `c`, over a schedule of `len` slots: call `j` picks
/// slot `counter_after(c, j) % len`.
pub open spec fn run_positions(c: nat, len: nat, m: nat) -> Seq<int> {
    Seq::new(m, |j: int| (counter_after(c, j as nat) % len) as int)
}

proof fn lemma_counter_after(c: nat, m: nat)
    requires
        c + m <= usize::MAX,
    ensures
        counter_after(c, m) == c + m,
    decreases m,
{
    if m > 0 {
        lemma_counter_after(c, (m - 1) as nat);
    }
}

/// A run of `next` calls: as long as the counter does not wrap, the picks
/// repeat with the schedule's length as period, and any schedule-length
/// run of calls picks each upstream exactly its reduced weight times.
pub proof fn law_next_run_share(ups: Seq<(Seq<char>, u32)>, c: nat, k: int)
    requires
        0 <= k < ups.len(),
        c + 2 * schedule_slots(ups).len() <= usize::MAX,
    ensures
        ({
            let slots = schedule_slots(ups);
            let len = slots.len();
            &&& count_in(run_positions(c, len, len).map_values(|p: int| slots[p]), k) == reduced_weight(ups, k)
            &&& forall|j: int| 0 <= j < len ==> #[trigger] run_positions(c, len, 2 * len)[j + len]
                == run_positions(c, len, 2 * len)[j]
        }),
{
    let slots = schedule_slots(ups);
    let len = slots.len();
    lemma_schedule_counts(ups, k);
    assert forall|j: int| 0 <= j < 2 * len implies #[trigger] counter_after(c, j as nat) == c + j by {
        lemma_counter_after(c, j as nat);
    }
    assert(run_positions(c, len, len) =~= picked_positions(c, len, len));
    law_round_robin_share(ups, c, k);
    assert forall|j: int| 0 <= j < len implies #[trigger] run_positions(c, len, 2 * len)[j + len]
        == run_positions(c, len, 2 * len)[j] by {
        assert(counter_after(c, (j + len) as nat) == c + j + len);
        assert(counter_after(c, j as nat) == c + j);
        assert((c + j + len) % (len as int) == (c + j) % (len as int)) by (nonlinear_arith)
            requires
                len > 0,
        ;
    }
}

/// How often address `a` occurs in `s`.
pub open spec fn count_addr(s: Seq<Seq<char>>, a: Seq<char>) -> nat
    decreases s.len(),
{
    if s.len() == 0 {
        0
    } else {
        count_addr(s.drop_last(), a) + if s.last() == a {
            1nat
        } else {
            0nat
        }
    }
}

/// No two upstreams share an address.
pub open spec fn distinct_addrs(ups: Seq<(Seq<char>, u32)>) -> bool {
    forall|i: int, j: int| 0 <= i < ups.len() && 0 <= j < ups.len() && i != j ==> #[trigger] ups[i].0 != #[trigger] ups[j].0
}

/// The addresses that `m` successive calls of `next` return on schedule
/// `sched` when they start at counter `c`: call `j` returns the address in
/// slot `counter_after(c, j) % sched.len()`.
pub open spec fn next_addrs(sched: Seq<(Seq<char>, u32)>, c: nat, m: nat) -> Seq<Seq<char>> {
    Seq::new(m, |j: int| sched[(counter_after(c, j as nat) % sched.len()) as int].0)
}

proof fn lemma_slots_in_range(ws: Seq<nat>, m: nat)
    ensures
        forall|t: int| 0 <= t < slots_upto(ws, m).len() ==> 0 <= #[trigger] slots_upto(ws, m)[t] < ws.len(),
    decreases m,
{
    if m > 0 {
        lemma_slots_in_range(ws, (m - 1) as nat);
        lemma_count_round(ws, (m - 1) as nat, ws.len(), 0);
        let a = slots_upto(ws, (m - 1) as nat);
        let b = round_slots(ws, (m - 1) as nat, ws.len());
        assert forall|t: int| 0 <= t < (a + b).len() implies 0 <= #[trigger] (a + b)[t] < ws.len() by {
            if t >= a.len() {
                assert((a + b)[t] == b[t - a.len()]);
            }
        }
    }
}

proof fn lemma_count_addr_of_slots(ups: Seq<(Seq<char>, u32)>, s: Seq<int>, k: int)
    requires
        distinct_addrs(ups),
        0 <= k < ups.len(),
        forall|t: int| 0 <= t < s.len() ==> 0 <= #[trigger] s[t] < ups.len(),
    ensures
        count_addr(s.map_values(|p: int| ups[p].0), ups[k].0) == count_in(s, k),
    decreases s.len(),
{
    if s.len() > 0 {
        let t = s.drop_last();
        lemma_count_addr_of_slots(ups, t, k);
        assert(s.map_values(|p: int| ups[p].0).drop_last() =~= t.map_values(|p: int| ups[p].0));
        let last = s.last();
        assert(0 <= last < ups.len());
        if last != k {
            assert(ups[last].0 != ups[k].0);
        }
    }
}

/// Successive calls of `next` on a balancer built from upstreams with
/// distinct addresses: as long as the counter does not wrap, every call
/// returns one of the upstreams' addresses, the returned addresses repeat
/// with the schedule's length as period, and any schedule-length run of
/// calls returns each upstream's address exactly its reduced weight times.
pub proof fn law_next_calls_share(ups: Seq<(Seq<char>, u32)>, c: nat, k: int)
    requires
        distinct_addrs(ups),
        0 <= k < ups.len(),
        c + 2 * spec_schedule(ups).len() <= usize::MAX,
    ensures
        ({
            let sched = spec_schedule(ups);
            let len = sched.len();
            &&& len > 0
            &&& count_addr(next_addrs(sched, c, len), ups[k].0) == reduced_weight(ups, k)
            &&& forall|j: int| 0 <= j < len ==> #[trigger] next_addrs(sched, c, 2 * len)[j + len]
                == next_addrs(sched, c, 2 * len)[j]
            &&& forall|j: int| 0 <= j < 2 * len ==> exists|i: int| 0 <= i < ups.len()
                && #[trigger] next_addrs(sched, c, 2 * len)[j] == ups[i].0
        }),
{
    let slots = schedule_slots(ups);
    let sched = spec_schedule(ups);
    let len = sched.len();
    assert(len == slots.len());
    lemma_schedule_counts(ups, k);
    law_next_run_share(ups, c, k);
    lemma_slots_in_range(reduced_weights(ups), rounds(ups));
    assert(reduced_weights(ups).len() == ups.len());
    let picked = run_positions(c, len, len).map_values(|p: int| slots[p]);
    assert forall|t: int| 0 <= t < picked.len() implies 0 <= #[trigger] picked[t] < ups.len() by {
        let p = run_positions(c, len, len)[t];
        assert(0 <= p < len);
    }
    lemma_count_addr_of_slots(ups, picked, k);
    assert(next_addrs(sched, c, len) =~= picked.map_values(|p: int| ups[p].0));
    assert(count_addr(next_addrs(sched, c, len), ups[k].0) == reduced_weight(ups, k));
    assert forall|j: int| 0 <= j < len implies #[trigger] next_addrs(sched, c, 2 * len)[j + len]
        == next_addrs(sched, c, 2 * len)[j] by {
        assert(run_positions(c, len, 2 * len)[j + len] == run_positions(c, len, 2 * len)[j]);
    }
    assert forall|j: int| 0 <= j < 2 * len implies exists|i: int| 0 <= i < ups.len()
        && #[trigger] next_addrs(sched, c, 2 * len)[j] == ups[i].0 by {
        let p = (counter_after(c, j as nat) % len) as int;
        assert(0 <= slots[p] < ups.len());
        assert(next_addrs(sched, c, 2 * len)[j] == ups[slots[p]].0);
    }
}

/// Walking `i` slots on from `start % len` and wrapping at `len` lands on
/// `candidate_pos(start, len, i)`.
proof fn lemma_wrapped_pos(start: nat, len: nat, i: int, p: int)
    requires
        len > 0,
        0 <= i < len,
        p == if i >= len - start % len { i - (len - start % len) } else { start % len + i },
    ensures
        p == candidate_pos(start, len, i),
{
    let d = len as int;
    let q = (start as int) / d;
    let base = (start as int) % d;
    vstd::arithmetic::div_mod::lemma_fundamental_div_mod(start as int, d);
    vstd::arithmetic::mul::lemma_mul_is_commutative(d, q);
    assert(start == q * d + base);
    if i >= d - base {
        vstd::arithmetic::mul::lemma_mul_is_distributive_add_other_way(d, q, 1);
        assert(start + i == (q + 1) * d + p);
        vstd::arithmetic::div_mod::lemma_fundamental_div_mod_converse_mod(start + i, d, q + 1, p);
    } else {
        assert(start + i == q * d + p);
        vstd::arithmetic::div_mod::lemma_fundamental_div_mod_converse_mod(start + i, d, q, p);
    }
}

/// Schedule position of the candidate tried `i`-th when picking from
/// counter `c`.
pub open spec fn candidate_pos(c: nat, len: nat, i: int) -> int {
    ((c + i) % (len as int)) as int
}

/// Not yet tried for this request, and healthy.
pub open spec fn preferred(u: (Seq<char>, u32), health: Map<Seq<char>, bool>, exclude: Seq<Seq<char>>) -> bool {
    !exclude.contains(u.0) && health_of(health, u.0)
}

/// The schedule position `next_healthy` picks: in round-robin order from
/// the counter, the first untried healthy upstream; else the first healthy
/// one; else (failing open) the plain round-robin choice.
pub open spec fn spec_next_healthy(
    sched: Seq<(Seq<char>, u32)>,
    c: nat,
    health: Map<Seq<char>, bool>,
    exclude: Seq<Seq<char>>,
) -> Option<int> {
    let len = sched.len();
    if len == 0 {
        None
    } else if exists|i: int| 0 <= i < len && preferred(sched[candidate_pos(c, len, i)], health, exclude) {
        let i = choose|i: int| 0 <= i < len && preferred(sched[candidate_pos(c, len, i)], health, exclude)
            && forall|j: int| 0 <= j < i ==> !preferred(#[trigger] sched[candidate_pos(c, len, j)], health, exclude);
        Some(candidate_pos(c, len, i))
    } else if exists|i: int| 0 <= i < len && health_of(health, sched[candidate_pos(c, len, i)].0) {
        let i = choose|i: int| 0 <= i < len && health_of(health, sched[candidate_pos(c, len, i)].0)
            && forall|j: int| 0 <= j < i ==> !health_of(health, #[trigger] sched[candidate_pos(c, len, j)].0);
        Some(candidate_pos(c, len, i))
    } else {
        Some(candidate_pos(c, len, 0))
    }
}

/// Every schedule position is the candidate at some offset from the counter.
proof fn lemma_candidate_hits(c: nat, len: nat, k: int)
    requires
        0 <= k < len,
    ensures
        0 <= (k - (c as int) % (len as int) + len) % (len as int) < len,
        candidate_pos(c, len, (k - (c as int) % (len as int) + len) % (len as int)) == k,
{
    let l = len as int;
    let ci = c as int;
    let q = ci / l;
    let i = (k - ci % l + l) % l;
    vstd::arithmetic::div_mod::lemma_mod_bound(k - ci % l + l, l);
    vstd::arithmetic::div_mod::lemma_mod_bound(ci, l);
    if k - ci % l >= 0 {
        vstd::arithmetic::div_mod::lemma_mod_add_multiples_vanish(k - ci % l, l);
        vstd::arithmetic::div_mod::lemma_small_mod((k - ci % l) as nat, len);
        assert(i == k - ci % l);
    } else {
        vstd::arithmetic::div_mod::lemma_small_mod((k - ci % l + l) as nat, len);
        assert(i == k - ci % l + l);
    }
    vstd::arithmetic::div_mod::lemma_fundamental_div_mod(ci, l);
    assert(l * (q + 1) == l * q + l) by (nonlinear_arith);
    assert(ci + i == l * q + k || ci + i == l * (q + 1) + k);
    vstd::arithmetic::div_mod::lemma_mod_multiples_vanish(q, k, l);
    vstd::arithmetic::div_mod::lemma_mod_multiples_vanish(q + 1, k, l);
    vstd::arithmetic::div_mod::lemma_small_mod(k as nat, len);
}

/// Health-aware picking never blackholes traffic and never picks a worse
/// upstream than it has to: with any upstream it always picks one; it
/// picks an untried healthy upstream whenever one exists, and a healthy
/// one whenever one exists.
#[verifier::rlimit(80)]
pub proof fn law_next_healthy_prefers_healthy(
    sched: Seq<(Seq<char>, u32)>,
    c: nat,
    health: Map<Seq<char>, bool>,
    exclude: Seq<Seq<char>>,
)
    ensures
        sched.len() > 0 <==> spec_next_healthy(sched, c, health, exclude) is Some,
        spec_next_healthy(sched, c, health, exclude) matches Some(p) ==> 0 <= p < sched.len(),
        (exists|k: int| 0 <= k < sched.len() && preferred(#[trigger] sched[k], health, exclude))
            ==> (spec_next_healthy(sched, c, health, exclude) matches Some(p) && preferred(sched[p], health, exclude)),
        (exists|k: int| 0 <= k < sched.len() && health_of(health, (#[trigger] sched[k]).0))
            ==> (spec_next_healthy(sched, c, health, exclude) matches Some(p) && health_of(health, sched[p].0)),
{
    let len = sched.len();
    if len > 0 {
        lemma_pick_in_range(sched, c, health, exclude);
        if exists|k: int| 0 <= k < len && preferred(#[trigger] sched[k], health, exclude) {
            let k = choose|k: int| 0 <= k < len && preferred(#[trigger] sched[k], health, exclude);
            lemma_candidate_hits(c, len, k);
            let i = (k - (c as int) % (len as int) + len) % (len as int);
            lemma_first_preferred(sched, c, health, exclude, i);
        }
        if exists|k: int| 0 <= k < len && health_of(health, (#[trigger] sched[k]).0) {
            let k = choose|k: int| 0 <= k < len && health_of(health, (#[trigger] sched[k]).0);
            lemma_candidate_hits(c, len, k);
            let i = (k - (c as int) % (len as int) + len) % (len as int);
            lemma_preferred_is_healthy(sched, c, health, exclude, i);
        }
    }
}

proof fn lemma_pick_in_range(
    sched: Seq<(Seq<char>, u32)>,
    c: nat,
    health: Map<Seq<char>, bool>,
    exclude: Seq<Seq<char>>,
)
    requires
        sched.len() > 0,
    ensures
        spec_next_healthy(sched, c, health, exclude) matches Some(p) && 0 <= p < sched.len(),
{
    let len = sched.len();
    assert forall|i: int| 0 <= i < len implies 0 <= #[trigger] candidate_pos(c, len, i) < len by {}
}

/// Some offset holds the first untried healthy candidate.
proof fn lemma_first_preferred(
    sched: Seq<(Seq<char>, u32)>,
    c: nat,
    health: Map<Seq<char>, bool>,
    exclude: Seq<Seq<char>>,
    k: int,
)
    requires
        0 <= k < sched.len(),
        preferred(sched[candidate_pos(c, sched.len(), k)], health, exclude),
    ensures
        exists|j: int| 0 <= j < sched.len() && preferred(sched[candidate_pos(c, sched.len(), j)], health, exclude)
            && forall|m: int| 0 <= m < j ==> !preferred(#[trigger] sched[candidate_pos(c, sched.len(), m)], health, exclude),
    decreases k,
{
    let len = sched.len();
    if exists|m: int| 0 <= m < k && preferred(sched[candidate_pos(c, len, m)], health, exclude) {
        let m = choose|m: int| 0 <= m < k && preferred(sched[candidate_pos(c, len, m)], health, exclude);
        lemma_first_preferred(sched, c, health, exclude, m);
    } else {
        assert(0 <= k < len && preferred(sched[candidate_pos(c, len, k)], health, exclude)
            && forall|m: int| 0 <= m < k ==> !preferred(#[trigger] sched[candidate_pos(c, len, m)], health, exclude));
    }
}

/// Some offset holds the first healthy candidate.
proof fn lemma_first_healthy(
    sched: Seq<(Seq<char>, u32)>,
    c: nat,
    health: Map<Seq<char>, bool>,
    k: int,
)
    requires
        0 <= k < sched.len(),
        health_of(health, sched[candidate_pos(c, sched.len(), k)].0),
    ensures
        exists|j: int| 0 <= j < sched.len() && health_of(health, sched[candidate_pos(c, sched.len(), j)].0)
            && forall|m: int| 0 <= m < j ==> !health_of(health, #[trigger] sched[candidate_pos(c, sched.len(), m)].0),
    decreases k,
{
    let len = sched.len();
    if exists|m: int| 0 <= m < k && health_of(health, sched[candidate_pos(c, len, m)].0) {
        let m = choose|m: int| 0 <= m < k && health_of(health, sched[candidate_pos(c, len, m)].0);
        lemma_first_healthy(sched, c, health, m);
    } else {
        assert(0 <= k < len && health_of(health, sched[candidate_pos(c, len, k)].0)
            && forall|m: int| 0 <= m < k ==> !health_of(health, #[trigger] sched[candidate_pos(c, len, m)].0));
    }
}

#[verifier::rlimit(80)]
proof fn lemma_preferred_is_healthy(
    sched: Seq<(Seq<char>, u32)>,
    c: nat,
    health: Map<Seq<char>, bool>,
    exclude: Seq<Seq<char>>,
    k: int,
)
    requires
        0 <= k < sched.len(),
        health_of(health, sched[candidate_pos(c, sched.len(), k)].0),
    ensures
        spec_next_healthy(sched, c, health, exclude) matches Some(p) && health_of(health, sched[p].0),
{
    let len = sched.len();
    if exists|j: int| 0 <= j < len && preferred(sched[candidate_pos(c, len, j)], health, exclude) {
        let j0 = choose|j: int| 0 <= j < len && preferred(sched[candidate_pos(c, len, j)], health, exclude);
        lemma_first_preferred(sched, c, health, exclude, j0);
    } else {
        lemma_first_healthy(sched, c, health, k);
    }
}

pub open spec fn strings_view(v: Seq<String>) -> Seq<Seq<char>> {
    v.map_values(|s: String| s@)
}

fn contains_str(v: &[String], s: &str) -> (r: bool)
    ensures
        r == strings_view(v@).contains(s@),
{
    let mut i: usize = 0;
    while i < v.len()
        invariant
            i <= v@.len(),
            forall|j: int| 0 <= j < i ==> (#[trigger] v@[j])@ != s@,
        decreases v@.len() - i,
    {
        if str_eq(v[i].as_str(), s) {
            assert(strings_view(v@)[i as int] == s@);
            return true;
        }
        i = i + 1;
    }
    proof {
        if strings_view(v@).contains(s@) {
            let j = choose|j: int| 0 <= j < strings_view(v@).len() && strings_view(v@)[j] == s@;
            assert(v@[j]@ == s@);
        }
    }
    false
}

impl LoadBalancer {
    /// Number of slots in the round-robin schedule.
    pub fn schedule_len(&self) -> (n: usize)
        ensures
            n == self.schedule().len(),
    {
        self.upstreams.len()
    }

    /// Health- and retry-aware selection: skips upstreams in `exclude`
    /// (already tried this request) and prefers upstreams the health
    /// registry considers up. Falls back to a healthy-but-excluded upstream,
    /// and finally fails open (returns the next candidate regardless of
    /// health) rather than blackholing all traffic on a bad health check.
    pub fn next_healthy(&mut self, health: &HealthRegistry, exclude: &[String]) -> (r: Option<&UpstreamPool>)
        ensures
            old(self).schedule() == spec_schedule(old(self).source()),
            final(self).source() == old(self).source(),
            final(self).schedule() == old(self).schedule(),
            match spec_next_healthy(old(self).schedule(), old(self).counter(), health@, strings_view(exclude@)) {
                None => r is None && final(self).counter() == old(self).counter(),
                Some(p) => r matches Some(u) && u@ == old(self).schedule()[p] && final(self).counter()
                    == next_counter(old(self).counter()),
            },
    {
        proof {
            use_type_invariant(&*self);
        }
        let ghost sched = self.schedule();
        let ghost hm = health@;
        let ghost ex = strings_view(exclude@);
        let len = self.upstreams.len();
        if len == 0 {
            return None;
        }
        let start = self.counter;
        let base = start % len;
        self.counter = if self.counter == usize::MAX { 0 } else { self.counter + 1 };
        let mut i: usize = 0;
        while i < len
            invariant
                i <= len == self.upstreams@.len() == sched.len(),
                sched == pools_view(self.upstreams@),
                sched == old(self).schedule(),
                old(self).schedule() == spec_schedule(old(self).source()),
                self.source() == old(self).source(),
                start == old(self).counter(),
                self.counter() == next_counter(old(self).counter()),
                base == start % len,
                hm == health@,
                ex == strings_view(exclude@),
                forall|j: int| 0 <= j < i ==> !preferred(#[trigger] sched[candidate_pos(start as nat, len as nat, j)], hm, ex),
            decreases len - i,
        {
            let p = if i >= len - base { i - (len - base) } else { base + i };
            proof {
                lemma_wrapped_pos(start as nat, len as nat, i as int, p as int);
            }
            let cand = &self.upstreams[p];
            if !contains_str(exclude, cand.addr.as_str()) && health.is_healthy(cand.addr.as_str()) {
                proof {
                    assert(preferred(sched[p as int], hm, ex));
                    let k = choose|k: int| 0 <= k < len && preferred(sched[candidate_pos(start as nat, len as nat, k)], hm, ex)
                        && forall|j: int| 0 <= j < k ==> !preferred(#[trigger] sched[candidate_pos(start as nat, len as nat, j)], hm, ex);
                    if k < i {
                        assert(!preferred(sched[candidate_pos(start as nat, len as nat, k)], hm, ex));
                    }
                    if (i as int) < k {
                        assert(!preferred(sched[candidate_pos(start as nat, len as nat, i as int)], hm, ex));
                    }
                }
                return Some(&self.upstreams[p]);
            }
            i = i + 1;
        }
        i = 0;
        while i < len
            invariant
                i <= len == self.upstreams@.len() == sched.len(),
                sched == pools_view(self.upstreams@),
                sched == old(self).schedule(),
                old(self).schedule() == spec_schedule(old(self).source()),
                self.source() == old(self).source(),
                start == old(self).counter(),
                self.counter() == next_counter(old(self).counter()),
                base == start % len,
                hm == health@,
                ex == strings_view(exclude@),
                forall|j: int| 0 <= j < len ==> !preferred(#[trigger] sched[candidate_pos(start as nat, len as nat, j)], hm, ex),
                forall|j: int| 0 <= j < i ==> !health_of(hm, #[trigger] sched[candidate_pos(start as nat, len as nat, j)].0),
            decreases len - i,
        {
            let p = if i >= len - base { i - (len - base) } else { base + i };
            proof {
                lemma_wrapped_pos(start as nat, len as nat, i as int, p as int);
            }
            if health.is_healthy(self.upstreams[p].addr.as_str()) {
                proof {
                    assert(health_of(hm, sched[p as int].0));
                    let k = choose|k: int| 0 <= k < len && health_of(hm, sched[candidate_pos(start as nat, len as nat, k)].0)
                        && forall|j: int| 0 <= j < k ==> !health_of(hm, #[trigger] sched[candidate_pos(start as nat, len as nat, j)].0);
                    if k < i {
                        assert(!health_of(hm, sched[candidate_pos(start as nat, len as nat, k)].0));
                    }
                    if (i as int) < k {
                        assert(!health_of(hm, sched[candidate_pos(start as nat, len as nat, i as int)].0));
                    }
                }
                return Some(&self.upstreams[p]);
            }
            i = i + 1;
        }
        assert(base == candidate_pos(start as nat, len as nat, 0));
        Some(&self.upstreams[base])
    }
}

/// The pools a route's upstream list denotes; an unset weight is 100.
pub open spec fn route_pools(r: RouteConfig) -> Seq<(Seq<char>, u32)> {
    r.upstream@.map_values(|u: UpstreamConfig| (u.addr@, match u.weight {
        Some(w) => w,
        None => 100u32,
    }))
}

proof fn lemma_round_slots_len(ws: Seq<nat>, r: nat, n: nat)
    ensures
        round_slots(ws, r, n).len() <= n,
    decreases n,
{
    if n > 0 {
        lemma_round_slots_len(ws, r, (n - 1) as nat);
    }
}

proof fn lemma_slots_upto_len(ws: Seq<nat>, m: nat)
    ensures
        slots_upto(ws, m).len() <= m * ws.len(),
    decreases m,
{
    if m > 0 {
        lemma_slots_upto_len(ws, (m - 1) as nat);
        lemma_round_slots_len(ws, (m - 1) as nat, ws.len());
        assert((m - 1) * ws.len() + ws.len() == m * ws.len()) by (nonlinear_arith);
    }
}

proof fn lemma_max_of_le(ws: Seq<nat>, bound: nat)
    requires
        forall|k: int| 0 <= k < ws.len() ==> ws[k] <= bound,
    ensures
        max_of(ws) <= bound,
    decreases ws.len(),
{
    if ws.len() > 0 {
        lemma_max_of_le(ws.drop_last(), bound);
    }
}

/// With every configured weight at most `bound` (at least 1), a balancer's
/// schedule has at most `bound` slots per upstream.
pub proof fn lemma_schedule_bounded(ups: Seq<(Seq<char>, u32)>, bound: nat)
    requires
        bound >= 1,
        forall|k: int| 0 <= k < ups.len() ==> (#[trigger] ups[k]).1 <= bound,
    ensures
        spec_schedule(ups).len() <= bound * ups.len(),
{
    let rws = reduced_weights(ups);
    let d = weight_divisor(ups);
    assert(d >= 1);
    assert forall|k: int| 0 <= k < rws.len() implies rws[k] <= bound by {
        let e = eff_weight(ups[k].1);
        assert(e <= bound);
        assert(e / d <= e) by (nonlinear_arith)
            requires
                d >= 1,
        ;
    }
    lemma_max_of_le(rws, bound);
    lemma_slots_upto_len(rws, rounds(ups));
    let m = rounds(ups);
    assert(m <= bound);
    assert(m * rws.len() <= bound * ups.len()) by (nonlinear_arith)
        requires
            m <= bound,
            rws.len() == ups.len(),
    ;
}

/// Entry `i` balances route `i` of `routes`: same name, built from that
/// route's upstreams, with a fresh counter.
pub open spec fn lb_map_built_from(m: Seq<(String, LoadBalancer)>, routes: Seq<RouteConfig>) -> bool {
    &&& m.len() == routes.len()
    &&& forall|i: int| 0 <= i < m.len() ==> {
        &&& (#[trigger] m[i]).0@ == routes[i].name@
        &&& m[i].1.source() == route_pools(routes[i])
        &&& m[i].1.schedule() == spec_schedule(route_pools(routes[i]))
        &&& m[i].1.counter() == 0
    }
}

/// Build one LoadBalancer per route from a config, in route order. Called
/// at startup and again on every successful reload so upstream changes
/// take effect.
pub fn build_lb_map(config: &Config) -> (m: Vec<(String, LoadBalancer)>)
    ensures
        lb_map_built_from(m@, config.route@),
{
    let mut m: Vec<(String, LoadBalancer)> = Vec::new();
    let mut i: usize = 0;
    while i < config.route.len()
        invariant
            i <= config.route@.len(),
            lb_map_built_from(m@, config.route@.take(i as int)),
        decreases config.route@.len() - i,
    {
        let route = &config.route[i];
        let mut pools: Vec<UpstreamPool> = Vec::new();
        let mut j: usize = 0;
        while j < route.upstream.len()
            invariant
                j <= route.upstream@.len(),
                pools_view(pools@) == route_pools(*route).take(j as int),
            decreases route.upstream@.len() - j,
        {
            let u = &route.upstream[j];
            let w = match u.weight {
                Some(w) => w,
                None => 100,
            };
            let ghost before = pools@;
            let a = u.addr.clone();
            pools.push(UpstreamPool { addr: a, weight: w });
            assert(pools@ == before.push(UpstreamPool { addr: a, weight: w }));
            assert(route_pools(*route)[j as int] == (u.addr@, w));
            assert(pools_view(pools@) =~= pools_view(before).push((u.addr@, w)));
            assert(route_pools(*route).take(j + 1) =~= route_pools(*route).take(j as int).push((u.addr@, w)));
            j = j + 1;
        }
        assert(route_pools(*route).take(j as int) =~= route_pools(*route));
        let lb = LoadBalancer::new(pools);
        let ghost before = m@;
        m.push((route.name.clone(), lb));
        proof {
            let rs = config.route@.take(i + 1);
            assert forall|k: int| 0 <= k < m@.len() implies {
                &&& (#[trigger] m@[k]).0@ == rs[k].name@
                &&& m@[k].1.source() == route_pools(rs[k])
                &&& m@[k].1.schedule() == spec_schedule(route_pools(rs[k]))
                &&& m@[k].1.counter() == 0
            } by {
                if k < i {
                    assert(m@[k] == before[k]);
                    assert(config.route@.take(i as int)[k] == rs[k]);
                }
            }
        }
        i = i + 1;
    }
    assert(config.route@.take(i as int) =~= config.route@);
    m
}

/// Index of the balancer registered for `name`; when several routes share a
/// name, the last one wins, as when the map is keyed by name.
pub fn find_lb(m: &[(String, LoadBalancer)], name: &str) -> (r: Option<usize>)
    ensures
        match r {
            Some(i) => i < m@.len() && m@[i as int].0@ == name@ && forall|j: int| i < j < m@.len() ==> (#[trigger] m@[j]).0@ != name@,
            None => forall|j: int| 0 <= j < m@.len() ==> (#[trigger] m@[j]).0@ != name@,
        },
{
    let mut i = m.len();
    while i > 0
        invariant
            i <= m@.len(),
            forall|j: int| i <= j < m@.len() ==> (#[trigger] m@[j]).0@ != name@,
        decreases i,
    {
        if str_eq(m[i - 1].0.as_str(), name) {
            return Some(i - 1);
        }
        i = i - 1;
    }
    None
}

/// The balancer of a route is built from its upstreams in order, each with
/// its address and its configured weight, where an unset weight counts as
/// 100. So in one cycle of the schedule an upstream with no weight is
/// picked 100/g times and one with weight w (at least 1) w/g times, g the
/// divisor common to the route's weights.
pub proof fn law_route_pools_default_weight(r: RouteConfig, k: int)
    requires
        0 <= k < r.upstream@.len(),
    ensures
        route_pools(r).len() == r.upstream@.len(),
        route_pools(r)[k].0 == r.upstream@[k].addr@,
        r.upstream@[k].weight is None ==> {
            &&& route_pools(r)[k].1 == 100
            &&& reduced_weight(route_pools(r), k) * weight_divisor(route_pools(r)) == 100
        },
        r.upstream@[k].weight matches Some(w) ==> {
            &&& route_pools(r)[k].1 == w
            &&& w >= 1 ==> reduced_weight(route_pools(r), k) * weight_divisor(route_pools(r)) == w
        },
{
    lemma_reduced_weight(route_pools(r), k);
}

} // verus!
