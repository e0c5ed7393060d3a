//! The header rules a proxy applies on the way through: hop-by-hop
//! headers are dropped, and the client is recorded in forwarding headers.
use vstd::prelude::*;
use crate::text::str_eq;
use crate::validate::{header_value_ok, header_value_parses};
use crate::text::opt_str_view;
use vstd::utf8::encode_utf8;

verus! {

/// A byte `HeaderName::from_bytes` accepts in a name: the RFC 9110 token
/// characters.
pub open spec fn header_name_byte(b: u8) -> bool {
    ||| b == 33
    ||| (35 <= b && b <= 39)
    ||| b == 42
    ||| b == 43
    ||| b == 45
    ||| b == 46
    ||| (48 <= b && b <= 57)
    ||| (65 <= b && b <= 90)
    ||| (94 <= b && b <= 122)
    ||| b == 124
    ||| b == 126
}

/// ASCII lowercase of a byte.
pub open spec fn lower_byte(b: u8) -> u8 {
    if 65 <= b && b <= 90 {
        (b + 32) as u8
    } else {
        b
    }
}

/// The lowercase name that `HeaderName::from_bytes(bytes)` yields: 1 to
/// 65535 token bytes, lowercased; `None` for anything else.
pub open spec fn spec_header_name(bytes: Seq<u8>) -> Option<Seq<char>> {
    if 1 <= bytes.len() && bytes.len() <= 65535 && forall|i: int| 0 <= i < bytes.len() ==> header_name_byte(#[trigger] bytes[i]) {
        Some(Seq::new(bytes.len(), |i: int| (lower_byte(bytes[i]) as u32) as char))
    } else {
        None
    }
}

/// `hyper::header::HeaderName::from_bytes`, as the name's text.
#[verifier::external_body]
pub fn header_name_from_bytes(bytes: &[u8]) -> (r: Option<String>)
    ensures
        match r {
            Some(n) => spec_header_name(bytes@) == Some(n@),
            None => spec_header_name(bytes@) is None,
        },
{
    hyper::header::HeaderName::from_bytes(bytes).ok().map(|n| n.as_str().to_string())
}

/// Request or response headers as `(lowercase name, value bytes)` pairs in
/// order; a name may repeat.
#[derive(Debug, Clone)]
pub struct HeaderList {
    pub entries: Vec<(String, Vec<u8>)>,
}

pub open spec fn entries_view(es: Seq<(String, Vec<u8>)>) -> Seq<(Seq<char>, Seq<u8>)> {
    es.map_values(|e: (String, Vec<u8>)| (e.0@, e.1@))
}

impl View for HeaderList {
    type V = Seq<(Seq<char>, Seq<u8>)>;

    open spec fn view(&self) -> Seq<(Seq<char>, Seq<u8>)> {
        entries_view(self.entries@)
    }
}

/// Headers that must not be forwarded by a proxy (RFC 9110 7.6.1).
pub open spec fn hop_by_hop_names() -> Seq<Seq<char>> {
    seq![
        "connection"@,
        "keep-alive"@,
        "proxy-authenticate"@,
        "proxy-authorization"@,
        "te"@,
        "trailer"@,
        "transfer-encoding"@,
        "upgrade"@,
    ]
}

/// `HeaderValue::to_str` succeeds: visible ASCII or tab only.
pub open spec fn visible_ascii(v: Seq<u8>) -> bool {
    forall|i: int| 0 <= i < v.len() ==> ((32 <= #[trigger] v[i] && v[i] < 127) || v[i] == 9)
}

/// Index of the first comma in `v`.
pub open spec fn first_comma(v: Seq<u8>) -> Option<int> {
    if exists|i: int| 0 <= i < v.len() && v[i] == 44 {
        Some(choose|i: int| 0 <= i < v.len() && v[i] == 44 && forall|j: int| 0 <= j < i ==> v[j] != 44)
    } else {
        None
    }
}

/// Pieces of `v` between commas (`str::split(',')`).
#[verifier::opaque]
pub open spec fn split_commas(v: Seq<u8>) -> Seq<Seq<u8>>
    decreases v.len(),
{
    match first_comma(v) {
        Some(i) => if 0 <= i < v.len() {
            seq![v.take(i)] + split_commas(v.skip(i + 1))
        } else {
            seq![v]
        },
        None => seq![v],
    }
}

/// ASCII whitespace as `str::trim` sees it.
pub open spec fn ascii_ws(b: u8) -> bool {
    (9 <= b && b <= 13) || b == 32
}

pub open spec fn trim_bytes_start(v: Seq<u8>) -> int
    decreases v.len(),
{
    if v.len() > 0 && ascii_ws(v[0]) {
        1 + trim_bytes_start(v.skip(1))
    } else {
        0
    }
}

pub open spec fn trim_bytes_end(v: Seq<u8>) -> int
    decreases v.len(),
{
    if v.len() > 0 && ascii_ws(v.last()) {
        trim_bytes_end(v.drop_last())
    } else {
        v.len() as int
    }
}

pub open spec fn trim_bytes(v: Seq<u8>) -> Seq<u8> {
    let t = v.skip(trim_bytes_start(v));
    t.take(trim_bytes_end(t))
}

/// Header names listed in one comma-separated list, skipping pieces that
/// are not valid names.
pub open spec fn names_in_pieces(ps: Seq<Seq<u8>>) -> Seq<Seq<char>>
    decreases ps.len(),
{
    if ps.len() == 0 {
        Seq::empty()
    } else {
        names_in_pieces(ps.drop_last()) + match spec_header_name(trim_bytes(ps.last())) {
            Some(n) => seq![n],
            None => Seq::empty(),
        }
    }
}

/// Header names that the `Connection` headers among `es` name.
pub open spec fn connection_names(es: Seq<(Seq<char>, Seq<u8>)>) -> Seq<Seq<char>>
    decreases es.len(),
{
    if es.len() == 0 {
        Seq::empty()
    } else {
        let e = es.last();
        connection_names(es.drop_last()) + if e.0 == "connection"@ && visible_ascii(e.1) {
            names_in_pieces(split_commas(e.1))
        } else {
            Seq::empty()
        }
    }
}

/// Entries of `es` whose name is in neither list, in order.
pub open spec fn without_names(es: Seq<(Seq<char>, Seq<u8>)>, a: Seq<Seq<char>>, b: Seq<Seq<char>>) -> Seq<(Seq<char>, Seq<u8>)>
    decreases es.len(),
{
    if es.len() == 0 {
        Seq::empty()
    } else {
        let e = es.last();
        without_names(es.drop_last(), a, b) + if a.contains(e.0) || b.contains(e.0) {
            Seq::empty()
        } else {
            seq![e]
        }
    }
}

/// What stripping hop-by-hop headers leaves of `es`: every header named by
/// a `Connection` header goes, and so do the fixed hop-by-hop headers.
pub open spec fn spec_strip_hop_by_hop(es: Seq<(Seq<char>, Seq<u8>)>) -> Seq<(Seq<char>, Seq<u8>)> {
    without_names(es, connection_names(es), hop_by_hop_names())
}

proof fn lemma_split_commas_first(v: Seq<u8>, i: int)
    requires
        0 <= i < v.len(),
        v[i] == 44,
        forall|j: int| 0 <= j < i ==> v[j] != 44,
    ensures
        first_comma(v) == Some(i),
        split_commas(v) == seq![v.take(i)] + split_commas(v.skip(i + 1)),
{
    reveal(split_commas);
    let k = choose|k: int| 0 <= k < v.len() && v[k] == 44 && forall|j: int| 0 <= j < k ==> v[j] != 44;
    assert(0 <= k < v.len() && v[k] == 44 && forall|j: int| 0 <= j < k ==> v[j] != 44);
    if k < i {
        assert(v[k] != 44);
    }
    if i < k {
        assert(v[i] != 44);
    }
}

proof fn lemma_trim_bytes_start(v: Seq<u8>, i: int)
    requires
        0 <= i <= v.len(),
        forall|j: int| 0 <= j < i ==> ascii_ws(#[trigger] v[j]),
        i == v.len() || !ascii_ws(v[i]),
    ensures
        trim_bytes_start(v) == i,
    decreases i,
{
    if i > 0 {
        let t = v.skip(1);
        assert forall|j: int| 0 <= j < i - 1 implies ascii_ws(#[trigger] t[j]) by {
            assert(t[j] == v[j + 1]);
        }
        if i < v.len() {
            assert(t[i - 1] == v[i]);
        }
        lemma_trim_bytes_start(t, i - 1);
    }
}

proof fn lemma_trim_bytes_end(v: Seq<u8>, k: int)
    requires
        0 <= k <= v.len(),
        forall|j: int| k <= j < v.len() ==> ascii_ws(#[trigger] v[j]),
        k == 0 || !ascii_ws(v[k - 1]),
    ensures
        trim_bytes_end(v) == k,
    decreases v.len() - k,
{
    if k < v.len() {
        let t = v.drop_last();
        assert forall|j: int| k <= j < t.len() implies ascii_ws(#[trigger] t[j]) by {
            assert(t[j] == v[j]);
        }
        if k > 0 {
            assert(t[k - 1] == v[k - 1]);
        }
        assert(ascii_ws(v[v.len() - 1]));
        lemma_trim_bytes_end(t, k);
    }
}

fn is_ascii_ws(b: u8) -> (r: bool)
    ensures
        r == ascii_ws(b),
{
    (9 <= b && b <= 13) || b == 32
}

/// The header name in `v[lo..hi]` once surrounding whitespace is trimmed.
fn piece_name(v: &Vec<u8>, lo: usize, hi: usize) -> (r: Option<String>)
    requires
        lo <= hi <= v.len(),
    ensures
        match r {
            Some(n) => spec_header_name(trim_bytes(v@.subrange(lo as int, hi as int))) == Some(n@),
            None => spec_header_name(trim_bytes(v@.subrange(lo as int, hi as int))) is None,
        },
{
    let ghost p = v@.subrange(lo as int, hi as int);
    let mut a = lo;
    while a < hi && is_ascii_ws(v[a])
        invariant
            lo <= a <= hi <= v.len(),
            p == v@.subrange(lo as int, hi as int),
            forall|j: int| 0 <= j < a - lo ==> ascii_ws(#[trigger] p[j]),
        decreases hi - a,
    {
        assert(p[a - lo] == v@[a as int]);
        a = a + 1;
    }
    proof {
        if a < hi {
            assert(p[a - lo] == v@[a as int]);
        }
        lemma_trim_bytes_start(p, a - lo);
    }
    let ghost t = p.skip(a - lo);
    assert(t =~= v@.subrange(a as int, hi as int));
    let mut b = hi;
    while b > a && is_ascii_ws(v[b - 1])
        invariant
            lo <= a <= b <= hi <= v.len(),
            t == v@.subrange(a as int, hi as int),
            forall|j: int| b - a <= j < t.len() ==> ascii_ws(#[trigger] t[j]),
        decreases b - a,
    {
        assert(t[b - 1 - a] == v@[b - 1]);
        b = b - 1;
    }
    proof {
        if b > a {
            assert(t[b - 1 - a] == v@[b - 1]);
        }
        lemma_trim_bytes_end(t, b - a);
        assert(t.take(b - a) =~= v@.subrange(a as int, b as int));
    }
    let piece = slice_subrange(v.as_slice(), a, b);
    header_name_from_bytes(piece)
}

/// `&v[lo..hi]`.
fn slice_subrange(v: &[u8], lo: usize, hi: usize) -> (r: &[u8])
    requires
        lo <= hi <= v@.len(),
    ensures
        r@ == v@.subrange(lo as int, hi as int),
{
    vstd::slice::slice_subrange(v, lo, hi)
}

/// End of the piece that starts at `start`: the next comma, or the end.
fn piece_end(v: &Vec<u8>, start: usize) -> (i: usize)
    requires
        start <= v.len(),
    ensures
        start <= i <= v.len(),
        forall|j: int| start <= j < i ==> v@[j] != 44,
        i < v.len() ==> v@[i as int] == 44,
{
    let mut i = start;
    while i < v.len() && v[i] != 44u8
        invariant
            start <= i <= v.len(),
            forall|j: int| start <= j < i ==> v@[j] != 44,
        decreases v.len() - i,
    {
        i = i + 1;
    }
    i
}

proof fn lemma_split_last(v: Seq<u8>, start: int, done: Seq<Seq<u8>>)
    requires
        0 <= start <= v.len(),
        forall|j: int| start <= j < v.len() ==> v[j] != 44,
        split_commas(v) == done + split_commas(v.skip(start)),
    ensures
        split_commas(v) == done.push(v.subrange(start, v.len() as int)),
{
    let rest = v.skip(start);
    assert(!(exists|j: int| 0 <= j < rest.len() && rest[j] == 44)) by {
        if exists|j: int| 0 <= j < rest.len() && rest[j] == 44 {
            let j = choose|j: int| 0 <= j < rest.len() && rest[j] == 44;
            assert(rest[j] == v[start + j]);
        }
    }
    assert(v.subrange(start, v.len() as int) =~= rest);
    reveal(split_commas);
    assert(split_commas(rest) == seq![rest]);
    assert(done + seq![rest] =~= done.push(rest));
}

proof fn lemma_split_step(v: Seq<u8>, start: int, i: int, done: Seq<Seq<u8>>)
    requires
        0 <= start <= i < v.len(),
        forall|j: int| start <= j < i ==> v[j] != 44,
        v[i] == 44,
        split_commas(v) == done + split_commas(v.skip(start)),
    ensures
        split_commas(v) == done.push(v.subrange(start, i)) + split_commas(v.skip(i + 1)),
{
    let rest = v.skip(start);
    let piece = v.subrange(start, i);
    assert forall|j: int| 0 <= j < i - start implies rest[j] != 44 by {
        assert(rest[j] == v[start + j]);
    }
    assert(rest[i - start] == v[i]);
    lemma_split_commas_first(rest, i - start);
    assert(rest.take(i - start) =~= piece);
    assert(rest.skip(i - start + 1) =~= v.skip(i + 1));
    assert(done + (seq![piece] + split_commas(v.skip(i + 1))) =~= done.push(piece) + split_commas(v.skip(i + 1)));
}

/// Append to `out` the names listed in the comma-separated value `v`.
fn collect_names(v: &Vec<u8>, out: &mut Vec<String>)
    ensures
        strs_view(final(out)@) == strs_view(old(out)@) + names_in_pieces(split_commas(v@)),
{
    let n = v.len();
    let mut start: usize = 0;
    let ghost mut done: Seq<Seq<u8>> = Seq::empty();
    assert(v@.skip(0) =~= v@);
    loop
        invariant
            start <= n == v.len(),
            split_commas(v@) == done + split_commas(v@.skip(start as int)),
            strs_view(out@) == strs_view(old(out)@) + names_in_pieces(done),
        decreases n - start,
    {
        let i = piece_end(v, start);
        let name = piece_name(v, start, i);
        let ghost piece = v@.subrange(start as int, i as int);
        let ghost old_out = out@;
        match name {
            Some(nm) => {
                out.push(nm);
            },
            None => {},
        }
        proof {
            if i == n {
                lemma_split_last(v@, start as int, done);
            } else {
                lemma_split_step(v@, start as int, i as int, done);
            }
            let d2 = done.push(piece);
            assert(d2.drop_last() =~= done);
            assert(strs_view(out@) =~= strs_view(old_out) + match spec_header_name(trim_bytes(piece)) {
                Some(x) => seq![x],
                None => Seq::<Seq<char>>::empty(),
            });
            assert(strs_view(out@) =~= strs_view(old(out)@) + names_in_pieces(d2));
            done = d2;
        }
        if i == n {
            return;
        }
        start = i + 1;
    }
}

pub open spec fn strs_view(v: Seq<String>) -> Seq<Seq<char>> {
    v.map_values(|s: String| s@)
}

fn is_visible_ascii(v: &Vec<u8>) -> (r: bool)
    ensures
        r == visible_ascii(v@),
{
    let mut i: usize = 0;
    while i < v.len()
        invariant
            i <= v@.len(),
            forall|j: int| 0 <= j < i ==> ((32 <= #[trigger] v@[j] && v@[j] < 127) || v@[j] == 9),
        decreases v@.len() - i,
    {
        let b = v[i];
        if !((32 <= b && b < 127) || b == 9) {
            return false;
        }
        i = i + 1;
    }
    true
}

fn contains_name(v: &Vec<String>, s: &str) -> (r: bool)
    ensures
        r == strs_view(v@).contains(s@),
{
    let mut i: usize = 0;
    while i < v.len()
        invariant
            i <= v@.len(),
            forall|j: int| 0 <= j < i ==> (#[trigger] v@[j])@ != s@,
        decreases v@.len() - i,
    {
        if str_eq(v[i].as_str(), s) {
            assert(strs_view(v@)[i as int] == s@);
            return true;
        }
        i = i + 1;
    }
    proof {
        if strs_view(v@).contains(s@) {
            let j = choose|j: int| 0 <= j < strs_view(v@).len() && strs_view(v@)[j] == s@;
            assert(v@[j]@ == s@);
        }
    }
    false
}

fn is_hop_by_hop(name: &str) -> (r: bool)
    ensures
        r == hop_by_hop_names().contains(name@),
{
    let ghost h = hop_by_hop_names();
    let r = str_eq(name, "connection") || str_eq(name, "keep-alive") || str_eq(name, "proxy-authenticate")
        || str_eq(name, "proxy-authorization") || str_eq(name, "te") || str_eq(name, "trailer")
        || str_eq(name, "transfer-encoding") || str_eq(name, "upgrade");
    proof {
        if r {
            if name@ == "connection"@ {
                assert(h[0] == name@);
            } else if name@ == "keep-alive"@ {
                assert(h[1] == name@);
            } else if name@ == "proxy-authenticate"@ {
                assert(h[2] == name@);
            } else if name@ == "proxy-authorization"@ {
                assert(h[3] == name@);
            } else if name@ == "te"@ {
                assert(h[4] == name@);
            } else if name@ == "trailer"@ {
                assert(h[5] == name@);
            } else if name@ == "transfer-encoding"@ {
                assert(h[6] == name@);
            } else {
                assert(h[7] == name@);
            }
        } else if h.contains(name@) {
            let j = choose|j: int| 0 <= j < h.len() && h[j] == name@;
            assert(h.len() == 8);
            assert(j == 0 || j == 1 || j == 2 || j == 3 || j == 4 || j == 5 || j == 6 || j == 7);
        }
    }
    r
}

fn clone_entry(e: &(String, Vec<u8>)) -> (r: (String, Vec<u8>))
    ensures
        r.0@ == e.0@,
        r.1@ == e.1@,
{
    (e.0.clone(), e.1.clone())
}

impl HeaderList {
    /// Remove hop-by-hop headers: every header that a `Connection` header
    /// names, and the fixed hop-by-hop set.
    pub fn strip_hop_by_hop(&mut self)
        ensures
            final(self)@ == spec_strip_hop_by_hop(old(self)@),
    {
        let ghost es = self@;
        // The Connection header may name additional hop-by-hop headers.
        let mut named: Vec<String> = Vec::new();
        let mut i: usize = 0;
        while i < self.entries.len()
            invariant
                i <= self.entries@.len(),
                es == self@,
                strs_view(named@) == connection_names(es.take(i as int)),
            decreases self.entries@.len() - i,
        {
            let e = &self.entries[i];
            let ghost ev = (e.0@, e.1@);
            assert(es[i as int] == ev);
            if str_eq(e.0.as_str(), "connection") && is_visible_ascii(&e.1) {
                collect_names(&e.1, &mut named);
            }
            assert(es.take(i + 1).drop_last() =~= es.take(i as int));
            i = i + 1;
        }
        assert(es.take(i as int) =~= es);
        let ghost cn = connection_names(es);
        let mut kept: Vec<(String, Vec<u8>)> = Vec::new();
        i = 0;
        while i < self.entries.len()
            invariant
                i <= self.entries@.len(),
                es == self@,
                strs_view(named@) == cn,
                entries_view(kept@) == without_names(es.take(i as int), cn, hop_by_hop_names()),
            decreases self.entries@.len() - i,
        {
            let e = &self.entries[i];
            assert(es[i as int] == (e.0@, e.1@));
            assert(es.take(i + 1).drop_last() =~= es.take(i as int));
            let ghost before = kept@;
            if !contains_name(&named, e.0.as_str()) && !is_hop_by_hop(e.0.as_str()) {
                let c = clone_entry(e);
                kept.push(c);
                assert(entries_view(kept@) =~= entries_view(before).push((e.0@, e.1@)));
            }
            assert(entries_view(kept@) =~= without_names(es.take(i + 1), cn, hop_by_hop_names()));
            i = i + 1;
        }
        assert(es.take(i as int) =~= es);
        self.entries = kept;
    }
}

/// Entries of `es` not named `name`, in order.
pub open spec fn remove_all(es: Seq<(Seq<char>, Seq<u8>)>, name: Seq<char>) -> Seq<(Seq<char>, Seq<u8>)>
    decreases es.len(),
{
    if es.len() == 0 {
        Seq::empty()
    } else {
        remove_all(es.drop_last(), name) + if es.last().0 == name {
            Seq::empty()
        } else {
            seq![es.last()]
        }
    }
}

/// `HeaderMap::insert`: `name` ends up with the single value `value`.
pub open spec fn set_header(es: Seq<(Seq<char>, Seq<u8>)>, name: Seq<char>, value: Seq<u8>) -> Seq<(Seq<char>, Seq<u8>)> {
    remove_all(es, name).push((name, value))
}

/// Value of the first entry named `name`.
pub open spec fn first_value(es: Seq<(Seq<char>, Seq<u8>)>, name: Seq<char>) -> Option<Seq<u8>>
    decreases es.len(),
{
    if es.len() == 0 {
        None
    } else if es[0].0 == name {
        Some(es[0].1)
    } else {
        first_value(es.skip(1), name)
    }
}

/// `hyper::header::HeaderValue::from_bytes` succeeds.
#[verifier::external_body]
fn header_value_bytes_parse(b: &[u8]) -> (r: bool)
    ensures
        r == header_value_ok(b@),
{
    hyper::header::HeaderValue::from_bytes(b).is_ok()
}

/// Append every byte of `b` to `out`.
pub(crate) fn push_all(out: &mut Vec<u8>, b: &[u8])
    ensures
        final(out)@ == old(out)@ + b@,
{
    let ghost start = out@;
    let mut k: usize = 0;
    while k < b.len()
        invariant
            k <= b@.len(),
            out@ == start + b@.take(k as int),
        decreases b@.len() - k,
    {
        out.push(b[k]);
        assert(b@.take(k + 1) =~= b@.take(k as int).push(b@[k as int]));
        k = k + 1;
    }
    assert(b@.take(k as int) =~= b@);
}

/// `X-Forwarded-For` after this hop: the client's address appended to a
/// readable existing value ("10.0.0.1, 192.168.1.5"), else the address
/// alone.
pub open spec fn spec_forwarded_for(es: Seq<(Seq<char>, Seq<u8>)>, client_ip: Seq<u8>) -> Seq<u8> {
    match first_value(es, "x-forwarded-for"@) {
        Some(v) => if visible_ascii(v) {
            v + seq![44u8, 32u8] + client_ip
        } else {
            client_ip
        },
        None => client_ip,
    }
}

/// The headers after recording the client (`X-Forwarded-For`, appended
/// to, never replaced) and the protocol it used (`X-Forwarded-Proto`).
pub open spec fn spec_append_forwarded(es: Seq<(Seq<char>, Seq<u8>)>, client_ip: Seq<u8>, proto: Seq<u8>) -> Seq<(Seq<char>, Seq<u8>)> {
    let xff = spec_forwarded_for(es, client_ip);
    let with_xff = if header_value_ok(xff) {
        set_header(es, "x-forwarded-for"@, xff)
    } else {
        es
    };
    set_header(with_xff, "x-forwarded-proto"@, proto)
}

impl HeaderList {
    pub fn new() -> (h: Self)
        ensures
            h@.len() == 0,
    {
        HeaderList { entries: Vec::new() }
    }

    /// Value of the first header named `name`.
    pub fn get(&self, name: &str) -> (r: Option<&Vec<u8>>)
        ensures
            match first_value(self@, name@) {
                Some(v) => r matches Some(x) && x@ == v,
                None => r is None,
            },
    {
        let mut i: usize = 0;
        assert(self@.skip(0) =~= self@);
        while i < self.entries.len()
            invariant
                i <= self.entries@.len(),
                first_value(self@, name@) == first_value(self@.skip(i as int), name@),
            decreases self.entries@.len() - i,
        {
            assert(self@.skip(i as int)[0] == (self.entries@[i as int].0@, self.entries@[i as int].1@));
            assert(self@.skip(i as int).skip(1) =~= self@.skip(i + 1));
            if str_eq(self.entries[i].0.as_str(), name) {
                return Some(&self.entries[i].1);
            }
            i = i + 1;
        }
        None
    }

    /// Drop every header named `name`.
    pub fn remove(&mut self, name: &str)
        ensures
            final(self)@ == remove_all(old(self)@, name@),
    {
        let ghost es = self@;
        let mut kept: Vec<(String, Vec<u8>)> = Vec::new();
        let mut i: usize = 0;
        while i < self.entries.len()
            invariant
                i <= self.entries@.len(),
                es == self@,
                entries_view(kept@) == remove_all(es.take(i as int), name@),
            decreases self.entries@.len() - i,
        {
            let e = &self.entries[i];
            assert(es[i as int] == (e.0@, e.1@));
            assert(es.take(i + 1).drop_last() =~= es.take(i as int));
            let ghost before = kept@;
            if !str_eq(e.0.as_str(), name) {
                let c = clone_entry(e);
                kept.push(c);
                assert(entries_view(kept@) =~= entries_view(before).push((e.0@, e.1@)));
            }
            assert(entries_view(kept@) =~= remove_all(es.take(i + 1), name@));
            i = i + 1;
        }
        assert(es.take(i as int) =~= es);
        self.entries = kept;
    }

    /// Replace every header named `name` with the single value `value`.
    pub fn insert(&mut self, name: &str, value: Vec<u8>)
        ensures
            final(self)@ == set_header(old(self)@, name@, value@),
    {
        self.remove(name);
        let ghost before = self@;
        self.entries.push((name.to_owned(), value));
        assert(self@ =~= before.push((name@, value@)));
    }

    /// Record the client in `X-Forwarded-For` (appending to any value the
    /// client sent, as nginx and Caddy do) and set `X-Forwarded-Proto`.
    pub fn append_forwarded_headers(&mut self, client_ip: &str, proto: &str)
        ensures
            final(self)@ == spec_append_forwarded(old(self)@, encode_utf8(client_ip@), encode_utf8(proto@)),
    {
        let mut xff: Vec<u8> = Vec::new();
        match self.get("x-forwarded-for") {
            Some(v) => {
                if is_visible_ascii(v) {
                    push_all(&mut xff, v.as_slice());
                    xff.push(44u8);
                    xff.push(32u8);
                }
            },
            None => {},
        }
        push_all(&mut xff, client_ip.as_bytes());
        assert(xff@ =~= spec_forwarded_for(old(self)@, encode_utf8(client_ip@)));
        if header_value_bytes_parse(xff.as_slice()) {
            self.insert("x-forwarded-for", xff);
        }
        let mut p: Vec<u8> = Vec::new();
        push_all(&mut p, proto.as_bytes());
        self.insert("x-forwarded-proto", p);
    }
}


/// Override pairs as `(name, value)` texts.
pub open spec fn pairs_view(ov: Seq<(String, String)>) -> Seq<(Seq<char>, Seq<char>)> {
    ov.map_values(|o: (String, String)| (o.0@, o.1@))
}

/// The headers after a route's overrides, applied in order: an empty value
/// removes the header, any other value replaces it. An override whose name
/// or value `hyper` would not accept leaves the headers as they are.
pub open spec fn spec_apply_overrides(es: Seq<(Seq<char>, Seq<u8>)>, ov: Seq<(Seq<char>, Seq<char>)>) -> Seq<(Seq<char>, Seq<u8>)>
    decreases ov.len(),
{
    if ov.len() == 0 {
        es
    } else {
        let prev = spec_apply_overrides(es, ov.drop_last());
        let o = ov.last();
        match spec_header_name(encode_utf8(o.0)) {
            None => prev,
            Some(name) => if o.1.len() == 0 {
                remove_all(prev, name)
            } else if header_value_ok(encode_utf8(o.1)) {
                set_header(prev, name, encode_utf8(o.1))
            } else {
                prev
            },
        }
    }
}

/// Name of the header that carries the mTLS client identity upstream.
pub open spec fn fingerprint_header() -> Seq<char> {
    "x-client-cert-fingerprint"@
}

/// The headers after the client identity is recorded: whatever arrived
/// under the fingerprint header is dropped, and the verified fingerprint,
/// if there is one, takes its place.
pub open spec fn spec_set_fingerprint(es: Seq<(Seq<char>, Seq<u8>)>, fingerprint: Option<Seq<char>>) -> Seq<(Seq<char>, Seq<u8>)> {
    match fingerprint {
        Some(f) => set_header(es, fingerprint_header(), encode_utf8(f)),
        None => remove_all(es, fingerprint_header()),
    }
}

pub proof fn lemma_first_value_absent(es: Seq<(Seq<char>, Seq<u8>)>, name: Seq<char>)
    requires
        forall|i: int| 0 <= i < es.len() ==> (#[trigger] es[i]).0 != name,
    ensures
        first_value(es, name) is None,
    decreases es.len(),
{
    if es.len() > 0 {
        assert(es[0].0 != name);
        assert forall|i: int| 0 <= i < es.skip(1).len() implies (#[trigger] es.skip(1)[i]).0 != name by {
            assert(es.skip(1)[i] == es[i + 1]);
        }
        lemma_first_value_absent(es.skip(1), name);
    }
}

proof fn lemma_first_value_pushed(es: Seq<(Seq<char>, Seq<u8>)>, name: Seq<char>, value: Seq<u8>)
    requires
        forall|i: int| 0 <= i < es.len() ==> (#[trigger] es[i]).0 != name,
    ensures
        first_value(es.push((name, value)), name) == Some(value),
    decreases es.len(),
{
    let p = es.push((name, value));
    if es.len() > 0 {
        assert(p[0] == es[0]);
        assert(es[0].0 != name);
        assert(p.skip(1) =~= es.skip(1).push((name, value)));
        assert forall|i: int| 0 <= i < es.skip(1).len() implies (#[trigger] es.skip(1)[i]).0 != name by {
            assert(es.skip(1)[i] == es[i + 1]);
        }
        lemma_first_value_pushed(es.skip(1), name, value);
    } else {
        assert(p[0] == (name, value));
    }
}

/// No entry of `remove_all(es, name)` is named `name`.
pub proof fn lemma_remove_all_absent(es: Seq<(Seq<char>, Seq<u8>)>, name: Seq<char>)
    ensures
        forall|i: int| 0 <= i < remove_all(es, name).len() ==> (#[trigger] remove_all(es, name)[i]).0 != name,
    decreases es.len(),
{
    if es.len() > 0 {
        lemma_remove_all_absent(es.drop_last(), name);
        let prev = remove_all(es.drop_last(), name);
        let r = remove_all(es, name);
        assert forall|i: int| 0 <= i < r.len() implies (#[trigger] r[i]).0 != name by {
            if i < prev.len() {
                assert(r[i] == prev[i]);
            }
        }
    }
}

/// After `set_header(es, name, value)` the header `name` reads `value`.
pub proof fn lemma_set_header_reads_back(es: Seq<(Seq<char>, Seq<u8>)>, name: Seq<char>, value: Seq<u8>)
    ensures
        first_value(set_header(es, name, value), name) == Some(value),
{
    lemma_remove_all_absent(es, name);
    lemma_first_value_pushed(remove_all(es, name), name, value);
}


/// An override decides what its header reads afterwards: an empty value
/// leaves no such header, any other valid value is exactly what it reads.
pub proof fn law_override_reads_back(
    es: Seq<(Seq<char>, Seq<u8>)>,
    ov: Seq<(Seq<char>, Seq<char>)>,
    name: Seq<char>,
    value: Seq<char>,
)
    requires
        spec_header_name(encode_utf8(name)) is Some,
        value.len() == 0 || header_value_ok(encode_utf8(value)),
    ensures
        first_value(spec_apply_overrides(es, ov.push((name, value))), spec_header_name(encode_utf8(name))->Some_0)
            == if value.len() == 0 {
                None::<Seq<u8>>
            } else {
                Some(encode_utf8(value))
            },
{
    let all = ov.push((name, value));
    assert(all.drop_last() =~= ov);
    let prev = spec_apply_overrides(es, ov);
    let n = spec_header_name(encode_utf8(name))->Some_0;
    if value.len() == 0 {
        lemma_remove_all_absent(prev, n);
        lemma_first_value_absent(remove_all(prev, n), n);
    } else {
        lemma_set_header_reads_back(prev, n, encode_utf8(value));
    }
}

/// The proxy's own forwarding headers win over anything the client sent
/// or a route override set: `X-Forwarded-Proto` reads the protocol the
/// client used, and `X-Forwarded-For` ends with the client's address.
pub proof fn law_forwarded_headers_set_by_proxy(
    es: Seq<(Seq<char>, Seq<u8>)>,
    ov: Seq<(Seq<char>, Seq<char>)>,
    client_ip: Seq<u8>,
    proto: Seq<u8>,
)
    requires
        header_value_ok(client_ip),
    ensures
        first_value(spec_append_forwarded(spec_apply_overrides(es, ov), client_ip, proto), "x-forwarded-proto"@)
            == Some(proto),
        first_value(spec_append_forwarded(spec_apply_overrides(es, ov), client_ip, proto), "x-forwarded-for"@)
            matches Some(v) && v.len() >= client_ip.len()
                && v.subrange(v.len() - client_ip.len(), v.len() as int) == client_ip,
{
    let a = spec_apply_overrides(es, ov);
    let xff = spec_forwarded_for(a, client_ip);
    let xfp: Seq<char> = "x-forwarded-proto"@;
    let xffn: Seq<char> = "x-forwarded-for"@;
    lemma_set_header_reads_back(set_header(a, xffn, xff), xfp, proto);
    reveal_strlit("x-forwarded-proto");
    reveal_strlit("x-forwarded-for");
    assert(xfp != xffn) by {
        assert(xfp.len() != xffn.len());
    }
    assert(xff.subrange(xff.len() - client_ip.len(), xff.len() as int) =~= client_ip);
    assert(header_value_ok(xff)) by {
        match first_value(a, xffn) {
            Some(v) => if visible_ascii(v) {
                assert forall|i: int| 0 <= i < xff.len() implies ((#[trigger] xff[i] >= 32 && xff[i] != 127) || xff[i] == 9) by {
                    if i < v.len() {
                        assert(xff[i] == v[i]);
                    } else if i >= v.len() + 2 {
                        assert(xff[i] == client_ip[i - v.len() - 2]);
                    }
                }
            },
            None => {},
        }
    }
    lemma_set_header_reads_back(a, xffn, xff);
    lemma_first_value_other(set_header(a, xffn, xff), xfp, proto, xffn);
}

pub proof fn lemma_first_value_other(es: Seq<(Seq<char>, Seq<u8>)>, name: Seq<char>, value: Seq<u8>, other: Seq<char>)
    requires
        other != name,
    ensures
        first_value(set_header(es, name, value), other) == first_value(es, other),
{
    lemma_first_value_remove_other(es, name, other);
    lemma_first_value_push_other(remove_all(es, name), name, value, other);
}

proof fn lemma_first_value_push_other(es: Seq<(Seq<char>, Seq<u8>)>, name: Seq<char>, value: Seq<u8>, other: Seq<char>)
    requires
        other != name,
    ensures
        first_value(es.push((name, value)), other) == first_value(es, other),
    decreases es.len(),
{
    let p = es.push((name, value));
    if es.len() > 0 {
        assert(p[0] == es[0]);
        assert(p.skip(1) =~= es.skip(1).push((name, value)));
        lemma_first_value_push_other(es.skip(1), name, value, other);
    } else {
        assert(p[0] == (name, value));
        assert(p.skip(1) =~= Seq::<(Seq<char>, Seq<u8>)>::empty());
        assert(first_value(p.skip(1), other) is None);
    }
}

proof fn lemma_first_value_remove_other(es: Seq<(Seq<char>, Seq<u8>)>, name: Seq<char>, other: Seq<char>)
    requires
        other != name,
    ensures
        first_value(remove_all(es, name), other) == first_value(es, other),
    decreases es.len(),
{
    if es.len() > 0 {
        let e = es.last();
        lemma_first_value_remove_other(es.drop_last(), name, other);
        lemma_first_value_concat(remove_all(es.drop_last(), name), if e.0 == name { Seq::empty() } else { seq![e] }, other);
        assert(es =~= es.drop_last() + seq![e]);
        lemma_first_value_concat(es.drop_last(), seq![e], other);
        if e.0 == name {
            assert(seq![e][0] == e);
            assert(seq![e].skip(1) =~= Seq::<(Seq<char>, Seq<u8>)>::empty());
        }
    }
}

proof fn lemma_first_value_concat(a: Seq<(Seq<char>, Seq<u8>)>, b: Seq<(Seq<char>, Seq<u8>)>, name: Seq<char>)
    ensures
        first_value(a + b, name) == match first_value(a, name) {
            Some(v) => Some(v),
            None => first_value(b, name),
        },
    decreases a.len(),
{
    if a.len() > 0 {
        assert((a + b)[0] == a[0]);
        assert((a + b).skip(1) =~= a.skip(1) + b);
        lemma_first_value_concat(a.skip(1), b, name);
    } else {
        assert(a + b =~= b);
    }
}

proof fn lemma_without_names_excludes(es: Seq<(Seq<char>, Seq<u8>)>, a: Seq<Seq<char>>, b: Seq<Seq<char>>)
    ensures
        forall|i: int| 0 <= i < without_names(es, a, b).len() ==> {
            let n = (#[trigger] without_names(es, a, b)[i]).0;
            !a.contains(n) && !b.contains(n)
        },
    decreases es.len(),
{
    if es.len() > 0 {
        lemma_without_names_excludes(es.drop_last(), a, b);
        let prev = without_names(es.drop_last(), a, b);
        let r = without_names(es, a, b);
        assert forall|i: int| 0 <= i < r.len() implies {
            let n = (#[trigger] r[i]).0;
            !a.contains(n) && !b.contains(n)
        } by {
            if i < prev.len() {
                assert(r[i] == prev[i]);
            }
        }
    }
}

/// After stripping, no header is hop-by-hop: none of the fixed hop-by-hop
/// names is left, nor any name that a `Connection` header listed.
pub proof fn law_strip_leaves_no_hop_by_hop(es: Seq<(Seq<char>, Seq<u8>)>)
    ensures
        forall|i: int| 0 <= i < spec_strip_hop_by_hop(es).len() ==> {
            let n = (#[trigger] spec_strip_hop_by_hop(es)[i]).0;
            !hop_by_hop_names().contains(n) && !connection_names(es).contains(n)
        },
{
    lemma_without_names_excludes(es, connection_names(es), hop_by_hop_names());
}

impl HeaderList {
    /// Apply a route's header overrides in order: an empty value removes
    /// the header, any other value replaces it.
    pub fn apply_header_overrides(&mut self, overrides: &Vec<(String, String)>)
        ensures
            final(self)@ == spec_apply_overrides(old(self)@, pairs_view(overrides@)),
    {
        let ghost start = self@;
        let mut i: usize = 0;
        while i < overrides.len()
            invariant
                i <= overrides@.len(),
                self@ == spec_apply_overrides(start, pairs_view(overrides@.take(i as int))),
            decreases overrides@.len() - i,
        {
            let o = &overrides[i];
            assert(pairs_view(overrides@.take(i + 1)).drop_last() =~= pairs_view(overrides@.take(i as int)));
            assert(pairs_view(overrides@.take(i + 1)).last() == (o.0@, o.1@));
            match header_name_from_bytes(o.0.as_str().as_bytes()) {
                None => {},
                Some(name) => {
                    if o.1.as_str().is_empty() {
                        self.remove(name.as_str());
                    } else if header_value_parses(o.1.as_str()) {
                        let mut v: Vec<u8> = Vec::new();
                        push_all(&mut v, o.1.as_str().as_bytes());
                        self.insert(name.as_str(), v);
                    }
                },
            }
            i = i + 1;
        }
        assert(overrides@.take(i as int) =~= overrides@);
    }

    /// Record the client's identity from a verified mTLS handshake: the
    /// fingerprint header the request arrived with is always dropped, and
    /// set again only when this connection presented a verified
    /// certificate.
    pub fn set_client_cert_fingerprint(&mut self, fingerprint: Option<&str>)
        requires
            fingerprint matches Some(f) ==> header_value_ok(encode_utf8(f@)),
        ensures
            final(self)@ == spec_set_fingerprint(old(self)@, opt_str_view(fingerprint)),
    {
        match fingerprint {
            Some(f) => {
                let mut v: Vec<u8> = Vec::new();
                push_all(&mut v, f.as_bytes());
                self.insert("x-client-cert-fingerprint", v);
            },
            None => {
                self.remove("x-client-cert-fingerprint");
            },
        }
    }
}

/// Stripping leaves none of the eight hop-by-hop headers of RFC 9110
/// (connection, keep-alive, proxy-authenticate, proxy-authorization, te,
/// trailer, transfer-encoding, upgrade), whatever the request carried.
pub proof fn law_strip_removes_rfc_hop_by_hop(es: Seq<(Seq<char>, Seq<u8>)>)
    ensures
        forall|i: int| 0 <= i < spec_strip_hop_by_hop(es).len() ==> {
            let n = (#[trigger] spec_strip_hop_by_hop(es)[i]).0;
            &&& n != "connection"@
            &&& n != "keep-alive"@
            &&& n != "proxy-authenticate"@
            &&& n != "proxy-authorization"@
            &&& n != "te"@
            &&& n != "trailer"@
            &&& n != "transfer-encoding"@
            &&& n != "upgrade"@
        },
{
    law_strip_leaves_no_hop_by_hop(es);
    let h = hop_by_hop_names();
    assert(h.contains("connection"@));
    assert(h.contains("keep-alive"@));
    assert(h.contains("proxy-authenticate"@));
    assert(h.contains("proxy-authorization"@));
    assert(h.contains("te"@));
    assert(h.contains("trailer"@));
    assert(h.contains("transfer-encoding"@));
    assert(h.contains("upgrade"@));
}

} // verus!
