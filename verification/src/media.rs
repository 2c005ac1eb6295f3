//! Media type parsing and content negotiation (`Accept` / `Content-Type`),
//! per the "Media Types", "Accept" and "Body" sections of the
//! specification.
//!
//! A quality is a floating-point number, which this library does not
//! compute with: it is held as an order key. The key of a quality `x` (an
//! `f32`, never NaN) is the bit pattern of `x` when `x` is not negative,
//! and minus the bit pattern of `-x` when it is. Keys order exactly as the
//! qualities do, both zeros have the key `0`, and a key is positive exactly
//! when its quality is. The caller reads each `q` value text that
//! `quality_texts` hands out (with `str::parse::<f32>`) and passes the keys
//! in the same order; an unreadable text, or NaN, has no key.

use vstd::prelude::*;
use crate::text::{ascii_lower, is_ws, trim_end, trim_start, find_char, find_in_range, lemma_find_char_bound, lemma_split_on_nonempty, lower, split_on, trim, trim_range, lower_range, chars_of, substring_of};

verus! {

/// `application/json`, the legacy GraphQL response media type.
pub const APPLICATION_JSON: &'static str = "application/json";

/// `application/graphql-response+json`, the specification's media type.
pub const APPLICATION_GRAPHQL_RESPONSE_JSON: &'static str = "application/graphql-response+json";

/// The quality key of an `Accept` entry that carries no readable `q`
/// parameter: the key of `1.0`.
pub const DEFAULT_Q: i64 = 0x3f80_0000;

// ---------------------------------------------------------------------
// Accept entries
// ---------------------------------------------------------------------

/// The mathematical content of an `Accept` entry: its lowercased essence
/// and its quality key.
pub struct AcceptEntry {
    pub essence: Seq<char>,
    pub q: int,
}

/// A parsed `Accept` (or `Content-Type`) media-range essence, e.g.
/// `application/json` without parameters, with the key of its quality
/// value (`DEFAULT_Q`, the key of `1.0`, when the entry carries no
/// readable `q`).
#[derive(Debug, Clone, PartialEq)]
pub struct MediaRange {
    /// The essence of the media type, lowercased, e.g. `"application/json"`,
    /// or `"*/*"`, `"application/*"`.
    pub essence: String,
    /// The key of the `q` quality value (see the module documentation).
    pub q: i64,
}

impl View for MediaRange {
    type V = AcceptEntry;

    open spec fn view(&self) -> AcceptEntry {
        AcceptEntry { essence: self.essence@, q: self.q as int }
    }
}

pub open spec fn range_views(v: Seq<MediaRange>) -> Seq<AcceptEntry> {
    v.map_values(|r: MediaRange| r@)
}

/// The value text of a `q=` parameter: after trimming, the parameter
/// starts with `q=`, and the rest, trimmed, is the text. `None` for other
/// parameters.
pub open spec fn q_text(p: Seq<char>) -> Option<Seq<char>> {
    let t = trim(p);
    if t.len() >= 2 && t[0] == 'q' && t[1] == '=' {
        Some(trim(t.skip(2)))
    } else {
        None
    }
}

/// The `q` value texts among the parameters `ps`, in order.
pub open spec fn q_texts_of_params(ps: Seq<Seq<char>>) -> Seq<Seq<char>>
    decreases ps.len(),
{
    if ps.len() == 0 {
        Seq::<Seq<char>>::empty()
    } else {
        let r = q_texts_of_params(ps.drop_last());
        match q_text(ps.last()) {
            Some(v) => r.push(v),
            None => r,
        }
    }
}

/// The essence of one `,`-separated part of an `Accept` header: its text
/// before the first `;`, trimmed and ASCII-lowercased.
pub open spec fn part_essence(part: Seq<char>) -> Seq<char> {
    lower(trim(split_on(trim(part), ';')[0]))
}

/// The `q` value texts of the parameters of a part, in order.
pub open spec fn part_q_texts(part: Seq<char>) -> Seq<Seq<char>> {
    q_texts_of_params(split_on(trim(part), ';').skip(1))
}

/// The parts with a non-empty essence, in order: those that make entries.
pub open spec fn kept_parts(parts: Seq<Seq<char>>) -> Seq<Seq<char>>
    decreases parts.len(),
{
    if parts.len() == 0 {
        Seq::<Seq<char>>::empty()
    } else {
        let r = kept_parts(parts.drop_last());
        if part_essence(parts.last()).len() > 0 {
            r.push(parts.last())
        } else {
            r
        }
    }
}

/// The parts of an `Accept` header that make entries.
pub open spec fn header_parts(header: Seq<char>) -> Seq<Seq<char>> {
    kept_parts(split_on(header, ','))
}

/// The `q` value texts of the parts `ps`, part by part, in order.
pub open spec fn texts_of_parts(ps: Seq<Seq<char>>) -> Seq<Seq<char>>
    decreases ps.len(),
{
    if ps.len() == 0 {
        Seq::<Seq<char>>::empty()
    } else {
        texts_of_parts(ps.drop_last()) + part_q_texts(ps.last())
    }
}

/// The `q` value texts of an `Accept` header, entry by entry, in order:
/// the texts whose quality keys a caller supplies.
pub open spec fn q_texts(header: Seq<char>) -> Seq<Seq<char>> {
    texts_of_parts(header_parts(header))
}

/// The quality of an entry whose `q` value texts have the keys `ks`: the
/// last readable one, the default when none is.
pub open spec fn last_key(ks: Seq<Option<i64>>) -> int
    decreases ks.len(),
{
    if ks.len() == 0 {
        DEFAULT_Q as int
    } else {
        match ks.last() {
            Some(k) => k as int,
            None => last_key(ks.drop_last()),
        }
    }
}

/// The entries made by the parts `ps`, given the keys of all their `q`
/// value texts, in order.
pub open spec fn keyed_entries(ps: Seq<Seq<char>>, keys: Seq<Option<i64>>) -> Seq<AcceptEntry>
    decreases ps.len(),
{
    if ps.len() == 0 {
        Seq::<AcceptEntry>::empty()
    } else {
        let cut = keys.len() - part_q_texts(ps.last()).len();
        keyed_entries(ps.drop_last(), keys.take(cut)).push(
            AcceptEntry { essence: part_essence(ps.last()), q: last_key(keys.skip(cut)) },
        )
    }
}

/// The entries of an `Accept` header, in the order in which they are
/// listed, with the qualities that `keys` give to its `q` value texts.
pub open spec fn accept_entries(header: Seq<char>, keys: Seq<Option<i64>>) -> Seq<AcceptEntry> {
    keyed_entries(header_parts(header), keys)
}

/// The entries of `s` whose quality is `k`, in order.
pub open spec fn with_q(s: Seq<AcceptEntry>, k: int) -> Seq<AcceptEntry>
    decreases s.len(),
{
    if s.len() == 0 {
        s
    } else {
        let r = with_q(s.drop_last(), k);
        if s.last().q == k {
            r.push(s.last())
        } else {
            r
        }
    }
}

/// Qualities never increase along `s`.
pub open spec fn sorted_by_q(s: Seq<AcceptEntry>) -> bool {
    forall|i: int, j: int| 0 <= i < j < s.len() ==> s[i].q >= s[j].q
}

/// `out` is `inp` ordered by descending quality, entries of equal quality
/// keeping their relative order (a stable sort).
pub open spec fn stable_q_order(out: Seq<AcceptEntry>, inp: Seq<AcceptEntry>) -> bool {
    &&& sorted_by_q(out)
    &&& forall|k: int| #[trigger] with_q(out, k) == with_q(inp, k)
}

pub proof fn lemma_with_q_add(a: Seq<AcceptEntry>, b: Seq<AcceptEntry>, k: int)
    ensures
        with_q(a + b, k) == with_q(a, k) + with_q(b, k),
    decreases b.len(),
{
    if b.len() == 0 {
        assert(a + b =~= a);
        assert(with_q(a, k) + with_q(b, k) =~= with_q(a, k));
    } else {
        assert((a + b).drop_last() =~= a + b.drop_last());
        lemma_with_q_add(a, b.drop_last(), k);
        if b.last().q == k {
            assert(with_q(a, k) + with_q(b.drop_last(), k).push(b.last()) =~= (with_q(a, k)
                + with_q(b.drop_last(), k)).push(b.last()));
        }
    }
}

pub proof fn lemma_with_q_absent(s: Seq<AcceptEntry>, k: int)
    requires
        forall|i: int| 0 <= i < s.len() ==> s[i].q != k,
    ensures
        with_q(s, k) == Seq::<AcceptEntry>::empty(),
    decreases s.len(),
{
    if s.len() > 0 {
        lemma_with_q_absent(s.drop_last(), k);
    }
}

pub proof fn lemma_with_q_contains(s: Seq<AcceptEntry>, k: int, x: AcceptEntry)
    ensures
        with_q(s, k).contains(x) <==> (s.contains(x) && x.q == k),
    decreases s.len(),
{
    if s.len() > 0 {
        lemma_with_q_contains(s.drop_last(), k, x);
        let r = with_q(s.drop_last(), k);
        if s.contains(x) && x.q == k {
            let i = choose|i: int| 0 <= i < s.len() && s[i] == x;
            if i < s.len() - 1 {
                assert(s.drop_last()[i] == x);
                let j = choose|j: int| 0 <= j < r.len() && r[j] == x;
                if s.last().q == k {
                    assert(r.push(s.last())[j] == x);
                }
            } else {
                assert(with_q(s, k)[with_q(s, k).len() - 1] == x);
            }
        }
        if with_q(s, k).contains(x) {
            let j = choose|j: int| 0 <= j < with_q(s, k).len() && with_q(s, k)[j] == x;
            if s.last().q == k && j == r.len() {
                assert(s[s.len() - 1] == x);
            } else {
                assert(r[j] == x);
                let i = choose|i: int| 0 <= i < s.drop_last().len() && s.drop_last()[i] == x;
                assert(s[i] == x);
            }
        }
    }
}

/// Entries ordered stably by quality are the same entries as the input.
pub proof fn lemma_stable_q_order_same_entries(out: Seq<AcceptEntry>, inp: Seq<AcceptEntry>)
    requires
        stable_q_order(out, inp),
    ensures
        forall|x: AcceptEntry| out.contains(x) <==> inp.contains(x),
{
    assert forall|x: AcceptEntry| out.contains(x) <==> inp.contains(x) by {
        lemma_with_q_contains(out, x.q, x);
        lemma_with_q_contains(inp, x.q, x);
        assert(with_q(out, x.q) == with_q(inp, x.q));
    }
}

proof fn lemma_split_step(s: Seq<char>, lo: int, hi: int, j: int, sep: char)
    requires
        0 <= lo <= j <= hi <= s.len(),
        j - lo == find_char(s.subrange(lo, hi), sep),
    ensures
        j < hi ==> split_on(s.subrange(lo, hi), sep) == seq![s.subrange(lo, j)] + split_on(
            s.subrange(j + 1, hi),
            sep,
        ),
        j == hi ==> split_on(s.subrange(lo, hi), sep) == seq![s.subrange(lo, hi)],
{
    let t = s.subrange(lo, hi);
    assert(t.take(j - lo) =~= s.subrange(lo, j));
    if j < hi {
        assert(t.skip(j - lo + 1) =~= s.subrange(j + 1, hi));
    }
}

/// The texts that the bounds `bs` delimit in `s`.
pub open spec fn bounds_texts(s: Seq<char>, bs: Seq<(usize, usize)>) -> Seq<Seq<char>> {
    bs.map_values(|b: (usize, usize)| s.subrange(b.0 as int, b.1 as int))
}

/// Each of the bounds `bs` delimits a part of `s`.
pub open spec fn bounds_ok(s: Seq<char>, bs: Seq<(usize, usize)>) -> bool {
    forall|i: int| 0 <= i < bs.len() ==> #[trigger] bs[i].0 <= bs[i].1 <= s.len()
}

/// The bounds of the value text of the `q=` parameter written in
/// `s[lo..hi]`.
fn q_text_bounds(s: &Vec<char>, lo: usize, hi: usize) -> (r: Option<(usize, usize)>)
    requires
        lo <= hi <= s@.len(),
    ensures
        r matches Some(b) ==> lo <= b.0 <= b.1 <= hi && q_text(s@.subrange(lo as int, hi as int))
            == Some(s@.subrange(b.0 as int, b.1 as int)),
        r is None ==> q_text(s@.subrange(lo as int, hi as int)) is None,
{
    let (a, b) = trim_range(s, lo, hi);
    if b - a >= 2 && s[a] == 'q' && s[a + 1] == '=' {
        let ghost t = s@.subrange(a as int, b as int);
        assert(t.skip(2) =~= s@.subrange(a + 2, b as int));
        let (c, d) = trim_range(s, a + 2, b);
        Some((c, d))
    } else {
        None
    }
}

/// Reads the part written in `s[lo..hi]`: its essence, and the bounds of
/// its `q` value texts; `None` when its essence is empty.
fn entry_scan(s: &Vec<char>, lo: usize, hi: usize) -> (r: Option<(String, Vec<(usize, usize)>)>)
    requires
        lo <= hi <= s@.len(),
    ensures
        r is None <==> part_essence(s@.subrange(lo as int, hi as int)).len() == 0,
        r matches Some(x) ==> {
            &&& x.0@ == part_essence(s@.subrange(lo as int, hi as int))
            &&& bounds_ok(s@, x.1@)
            &&& bounds_texts(s@, x.1@) == part_q_texts(s@.subrange(lo as int, hi as int))
        },
{
    let (a, b) = trim_range(s, lo, hi);
    let ghost t = s@.subrange(a as int, b as int);
    let ghost segs = split_on(t, ';');
    let k = find_in_range(s, a, b, ';');
    proof {
        lemma_split_step(s@, a as int, b as int, k as int, ';');
    }
    assert(segs[0] == s@.subrange(a as int, k as int));
    let (e0, e1) = trim_range(s, a, k);
    if e0 == e1 {
        assert(lower(s@.subrange(e0 as int, e1 as int)).len() == 0);
        return None;
    }
    let essence = lower_range(s, e0, e1);
    let mut bs: Vec<(usize, usize)> = Vec::new();
    if k < b {
        let mut pstart = k + 1;
        let ghost mut done: Seq<Seq<char>> = Seq::empty();
        let mut finished = false;
        assert(segs.skip(1) =~= done + split_on(s@.subrange(pstart as int, b as int), ';'));
        assert(bounds_texts(s@, bs@) =~= q_texts_of_params(done));
        while !finished
            invariant
                k + 1 <= pstart <= b <= s@.len(),
                !finished ==> segs.skip(1) == done + split_on(
                    s@.subrange(pstart as int, b as int),
                    ';',
                ),
                finished ==> segs.skip(1) == done,
                bounds_ok(s@, bs@),
                bounds_texts(s@, bs@) == q_texts_of_params(done),
            decreases (b - pstart) + (if finished {
                0int
            } else {
                1int
            }),
        {
            let j = find_in_range(s, pstart, b, ';');
            proof {
                lemma_split_step(s@, pstart as int, b as int, j as int, ';');
            }
            let ghost piece = s@.subrange(pstart as int, j as int);
            let ghost before = bs@;
            match q_text_bounds(s, pstart, j) {
                Some(qb) => {
                    bs.push(qb);
                    assert(bounds_texts(s@, bs@) =~= bounds_texts(s@, before).push(
                        s@.subrange(qb.0 as int, qb.1 as int),
                    ));
                },
                None => {},
            }
            let ghost rest = split_on(s@.subrange(pstart as int, b as int), ';');
            proof {
                assert(done.push(piece).drop_last() =~= done);
                assert(done.push(piece).last() == piece);
                if j == b {
                    assert(rest == seq![piece]);
                    assert(done + rest =~= done.push(piece));
                } else {
                    assert(done + rest =~= done.push(piece) + split_on(
                        s@.subrange(j + 1, b as int),
                        ';',
                    ));
                }
                done = done.push(piece);
            }
            if j == b {
                finished = true;
            } else {
                pstart = j + 1;
            }
        }
    } else {
        assert(segs.skip(1) =~= Seq::<Seq<char>>::empty());
        assert(bounds_texts(s@, bs@) =~= Seq::<Seq<char>>::empty());
    }
    Some((essence, bs))
}

fn insert_by_q(out: &mut Vec<MediaRange>, r: MediaRange)
    requires
        sorted_by_q(range_views(old(out)@)),
    ensures
        sorted_by_q(range_views(final(out)@)),
        forall|k: int|
            #![trigger with_q(range_views(final(out)@), k)]
            with_q(range_views(final(out)@), k) == if k == r.q {
                with_q(range_views(old(out)@), k).push(r@)
            } else {
                with_q(range_views(old(out)@), k)
            },
{
    let ghost a = range_views(out@);
    let mut pos: usize = 0;
    while pos < out.len() && out[pos].q >= r.q
        invariant
            0 <= pos <= out@.len(),
            out@ == old(out)@,
            a == range_views(out@),
            forall|i: int| 0 <= i < pos ==> a[i].q >= r.q,
        decreases out@.len() - pos,
    {
        pos = pos + 1;
    }
    assert(forall|i: int| pos <= i < a.len() ==> a[i].q < r.q) by {
        if pos < a.len() {
            assert(a[pos as int].q < r.q);
        }
    }
    let ghost rv = r@;
    out.insert(pos, r);
    let ghost b = range_views(out@);
    assert(b =~= a.take(pos as int) + seq![rv] + a.skip(pos as int));
    assert(a =~= a.take(pos as int) + a.skip(pos as int));
    assert forall|k: int| #[trigger]
        with_q(range_views(out@), k) == if k == rv.q {
            with_q(a, k).push(rv)
        } else {
            with_q(a, k)
        } by {
        lemma_with_q_add(a.take(pos as int) + seq![rv], a.skip(pos as int), k);
        lemma_with_q_add(a.take(pos as int), seq![rv], k);
        lemma_with_q_add(a.take(pos as int), a.skip(pos as int), k);
        assert(seq![rv].drop_last() =~= Seq::<AcceptEntry>::empty());
        assert(with_q(Seq::<AcceptEntry>::empty(), k) == Seq::<AcceptEntry>::empty());
        assert(with_q(seq![rv], k) == if rv.q == k {
            seq![rv]
        } else {
            Seq::<AcceptEntry>::empty()
        }) by {
            assert(Seq::<AcceptEntry>::empty().push(rv) =~= seq![rv]);
        }
        if k == rv.q {
            lemma_with_q_absent(a.skip(pos as int), k);
            assert(with_q(a.take(pos as int), k) + seq![rv] =~= with_q(a.take(pos as int), k).push(rv));
            assert(with_q(a.take(pos as int), k) + Seq::<AcceptEntry>::empty() =~= with_q(a.take(pos as int), k));
        } else {
            assert(with_q(a.take(pos as int), k) + Seq::<AcceptEntry>::empty() =~= with_q(a.take(pos as int), k));
        }
    }
    assert(sorted_by_q(b)) by {
        assert forall|i: int, j: int| 0 <= i < j < b.len() implies b[i].q >= b[j].q by {
            if j < pos {
                assert(b[i] == a[i] && b[j] == a[j]);
            } else if j == pos {
                assert(b[i] == a[i]);
            } else if i == pos {
                assert(b[j] == a[j - 1]);
            } else if i < pos {
                assert(b[i] == a[i] && b[j] == a[j - 1]);
            } else {
                assert(b[i] == a[i - 1] && b[j] == a[j - 1]);
            }
        }
    }
}

/// The parts of `cs` that make entries, read: for each, its essence and
/// the bounds of its `q` value texts.
fn scan_header(cs: &Vec<char>) -> (r: Vec<(String, Vec<(usize, usize)>)>)
    ensures
        r@.len() == header_parts(cs@).len(),
        forall|i: int|
            0 <= i < r@.len() ==> {
                &&& (#[trigger] r@[i]).0@ == part_essence(header_parts(cs@)[i])
                &&& bounds_ok(cs@, r@[i].1@)
                &&& bounds_texts(cs@, r@[i].1@) == part_q_texts(header_parts(cs@)[i])
            },
{
    let n = cs.len();
    let mut out: Vec<(String, Vec<(usize, usize)>)> = Vec::new();
    let ghost mut done: Seq<Seq<char>> = Seq::empty();
    let mut start: usize = 0;
    let mut finished = false;
    assert(cs@.subrange(0, n as int) =~= cs@);
    assert(split_on(cs@, ',') =~= done + split_on(cs@.subrange(0, n as int), ','));
    while !finished
        invariant
            start <= n == cs@.len(),
            !finished ==> split_on(cs@, ',') == done + split_on(
                cs@.subrange(start as int, n as int),
                ',',
            ),
            finished ==> split_on(cs@, ',') == done,
            out@.len() == kept_parts(done).len(),
            forall|i: int|
                0 <= i < out@.len() ==> {
                    &&& (#[trigger] out@[i]).0@ == part_essence(kept_parts(done)[i])
                    &&& bounds_ok(cs@, out@[i].1@)
                    &&& bounds_texts(cs@, out@[i].1@) == part_q_texts(kept_parts(done)[i])
                },
        decreases (n - start) + (if finished {
            0int
        } else {
            1int
        }),
    {
        let j = find_in_range(cs, start, n, ',');
        proof {
            lemma_split_step(cs@, start as int, n as int, j as int, ',');
        }
        let ghost piece = cs@.subrange(start as int, j as int);
        let ghost before = kept_parts(done);
        let ghost after = kept_parts(done.push(piece));
        assert(done.push(piece).drop_last() =~= done);
        assert(done.push(piece).last() == piece);
        match entry_scan(cs, start, j) {
            Some(x) => {
                out.push(x);
                assert(after == before.push(piece));
            },
            None => {
                assert(after == before);
            },
        }
        let ghost rest = split_on(cs@.subrange(start as int, n as int), ',');
        proof {
            if j == n {
                assert(rest == seq![piece]);
                assert(done + rest =~= done.push(piece));
            } else {
                assert(done + rest =~= done.push(piece) + split_on(
                    cs@.subrange(j + 1, n as int),
                    ',',
                ));
            }
            done = done.push(piece);
        }
        if j == n {
            finished = true;
        } else {
            start = j + 1;
        }
    }
    out
}

/// The views of the strings `v`.
pub open spec fn string_views(v: Seq<String>) -> Seq<Seq<char>> {
    v.map_values(|t: String| t@)
}

proof fn lemma_texts_of_parts_prefix(ps: Seq<Seq<char>>, i: int)
    requires
        0 <= i <= ps.len(),
    ensures
        texts_of_parts(ps.take(i)).len() <= texts_of_parts(ps).len(),
    decreases ps.len(),
{
    if i < ps.len() {
        assert(ps.drop_last().take(i) =~= ps.take(i));
        lemma_texts_of_parts_prefix(ps.drop_last(), i);
    } else {
        assert(ps.take(i) =~= ps);
    }
}

/// The `q` value texts of an `Accept` header, entry by entry, in order
/// (parts with an empty essence have none): the texts that a caller reads
/// as qualities, to pass their keys to `parse_accept` and `negotiate`.
pub fn quality_texts(header: &str) -> (texts: Vec<String>)
    ensures
        string_views(texts@) == q_texts(header@),
{
    let cs = chars_of(header);
    let parts = scan_header(&cs);
    let ghost ps = header_parts(cs@);
    let mut texts: Vec<String> = Vec::new();
    let mut i: usize = 0;
    assert(ps.take(0) =~= Seq::<Seq<char>>::empty());
    assert(string_views(texts@) =~= texts_of_parts(ps.take(0)));
    while i < parts.len()
        invariant
            0 <= i <= parts@.len() == ps.len(),
            ps == header_parts(cs@),
            forall|t: int|
                0 <= t < parts@.len() ==> {
                    &&& (#[trigger] parts@[t]).0@ == part_essence(ps[t])
                    &&& bounds_ok(cs@, parts@[t].1@)
                    &&& bounds_texts(cs@, parts@[t].1@) == part_q_texts(ps[t])
                },
            string_views(texts@) == texts_of_parts(ps.take(i as int)),
        decreases parts@.len() - i,
    {
        let bs = &parts[i].1;
        let ghost base = string_views(texts@);
        let ghost bt = bounds_texts(cs@, bs@);
        let mut j: usize = 0;
        assert(base + bt.take(0) =~= base);
        while j < bs.len()
            invariant
                0 <= j <= bs@.len(),
                bounds_ok(cs@, bs@),
                bt == bounds_texts(cs@, bs@),
                string_views(texts@) == base + bt.take(j as int),
            decreases bs@.len() - j,
        {
            let (lo, hi) = bs[j];
            assert(bs@[j as int].0 <= bs@[j as int].1 <= cs@.len());
            let t = substring_of(&cs, lo, hi);
            assert(bt[j as int] == cs@.subrange(lo as int, hi as int));
            let ghost tv = t@;
            let ghost before = texts@;
            texts.push(t);
            assert(texts@ == before.push(t));
            assert(string_views(texts@) =~= string_views(before).push(tv));
            assert(bt.take(j + 1) =~= bt.take(j as int).push(bt[j as int]));
            assert(string_views(texts@) =~= base + bt.take(j + 1));
            j = j + 1;
        }
        assert(bt.take(j as int) =~= bt);
        assert(ps.take(i + 1).drop_last() =~= ps.take(i as int));
        assert(ps.take(i + 1).last() == ps[i as int]);
        i = i + 1;
    }
    assert(ps.take(i as int) =~= ps);
    texts
}

/// The quality key chosen from the keys `keys[from..to]` of an entry's
/// `q` value texts.
fn last_readable(keys: &Vec<Option<i64>>, from: usize, to: usize) -> (q: i64)
    requires
        from <= to <= keys@.len(),
    ensures
        q == last_key(keys@.subrange(from as int, to as int)),
{
    let mut q = DEFAULT_Q;
    let mut t = from;
    while t < to
        invariant
            from <= t <= to <= keys@.len(),
            q == last_key(keys@.subrange(from as int, t as int)),
        decreases to - t,
    {
        assert(keys@.subrange(from as int, t + 1).drop_last() =~= keys@.subrange(
            from as int,
            t as int,
        ));
        match keys[t] {
            Some(k) => {
                q = k;
            },
            None => {},
        }
        t = t + 1;
    }
    q
}

/// The entries of an `Accept` header, in the order in which they are
/// listed, with the qualities that `keys` give to its `q` value texts.
fn accept_list(header: &str, keys: &Vec<Option<i64>>) -> (ranges: Vec<MediaRange>)
    requires
        keys@.len() == q_texts(header@).len(),
    ensures
        range_views(ranges@) == accept_entries(header@, keys@),
{
    let cs = chars_of(header);
    let parts = scan_header(&cs);
    let ghost ps = header_parts(cs@);
    let mut out: Vec<MediaRange> = Vec::new();
    let mut kpos: usize = 0;
    let mut i: usize = 0;
    assert(ps.take(0) =~= Seq::<Seq<char>>::empty());
    assert(range_views(out@) =~= keyed_entries(ps.take(0), keys@.take(0)));
    while i < parts.len()
        invariant
            0 <= i <= parts@.len() == ps.len(),
            ps == header_parts(cs@),
            keys@.len() == texts_of_parts(ps).len(),
            forall|t: int|
                0 <= t < parts@.len() ==> {
                    &&& (#[trigger] parts@[t]).0@ == part_essence(ps[t])
                    &&& bounds_ok(cs@, parts@[t].1@)
                    &&& bounds_texts(cs@, parts@[t].1@) == part_q_texts(ps[t])
                },
            kpos == texts_of_parts(ps.take(i as int)).len(),
            range_views(out@) == keyed_entries(ps.take(i as int), keys@.take(kpos as int)),
        decreases parts@.len() - i,
    {
        let n = parts[i].1.len();
        assert(ps.take(i + 1).drop_last() =~= ps.take(i as int));
        assert(ps.take(i + 1).last() == ps[i as int]);
        assert(n == part_q_texts(ps[i as int]).len());
        proof {
            lemma_texts_of_parts_prefix(ps, i + 1);
        }
        assert(texts_of_parts(ps.take(i + 1)).len() == kpos + n);
        let total = keys.len();
        assert(kpos + n <= total);
        let q = last_readable(keys, kpos, kpos + n);
        let essence = parts[i].0.clone();
        let ghost prev = range_views(out@);
        let mr = MediaRange { essence, q };
        let ghost mv = mr@;
        out.push(mr);
        let ghost kt = keys@.take(kpos + n);
        assert(kt.take(kt.len() - n) =~= keys@.take(kpos as int));
        assert(kt.skip(kt.len() - n) =~= keys@.subrange(kpos as int, kpos + n));
        assert(range_views(out@) =~= prev.push(mv));
        kpos = kpos + n;
        i = i + 1;
    }
    assert(ps.take(i as int) =~= ps);
    assert(keys@.take(kpos as int) =~= keys@);
    out
}

fn copy_range(m: &MediaRange) -> (r: MediaRange)
    ensures
        r@ == m@,
{
    MediaRange { essence: m.essence.clone(), q: m.q }
}

/// Parses an HTTP `Accept` header value into its media ranges ordered by
/// descending quality, entries of equal quality keeping the order in which
/// they are listed (a stable sort). Parts with an empty essence are
/// skipped. `keys` holds the quality keys of the header's `q` value texts
/// (`quality_texts`), in order, `None` for one that cannot be read; an
/// entry's quality is the key of its last readable `q`, the key of `1.0`
/// when it has none.
pub fn parse_accept(header: &str, keys: &Vec<Option<i64>>) -> (ranges: Vec<MediaRange>)
    requires
        keys@.len() == q_texts(header@).len(),
    ensures
        stable_q_order(range_views(ranges@), accept_entries(header@, keys@)),
        forall|x: AcceptEntry|
            range_views(ranges@).contains(x) <==> accept_entries(header@, keys@).contains(x),
{
    let list = accept_list(header, keys);
    let ghost es = range_views(list@);
    let mut out: Vec<MediaRange> = Vec::new();
    let mut i: usize = 0;
    assert(es.take(0) =~= Seq::<AcceptEntry>::empty());
    assert(range_views(out@) =~= Seq::<AcceptEntry>::empty());
    while i < list.len()
        invariant
            0 <= i <= list@.len(),
            es == range_views(list@),
            stable_q_order(range_views(out@), es.take(i as int)),
        decreases list@.len() - i,
    {
        let ghost prev = range_views(out@);
        let r = copy_range(&list[i]);
        let ghost rv = r@;
        assert(rv == es[i as int]);
        insert_by_q(&mut out, r);
        assert(es.take(i + 1).drop_last() =~= es.take(i as int));
        assert(es.take(i + 1).last() == rv);
        assert forall|k: int| #[trigger]
            with_q(range_views(out@), k) == with_q(es.take(i + 1), k) by {
            assert(with_q(prev, k) == with_q(es.take(i as int), k));
        }
        i = i + 1;
    }
    assert(es.take(i as int) =~= es);
    proof {
        lemma_stable_q_order_same_entries(range_views(out@), es);
    }
    out
}


// ---------------------------------------------------------------------
// Matching and negotiation
// ---------------------------------------------------------------------

/// The part of a media type before its first `/` (all of it when there
/// is none).
pub open spec fn type_of(s: Seq<char>) -> Seq<char> {
    s.take(find_char(s, '/') as int)
}

pub open spec fn has_slash(s: Seq<char>) -> bool {
    find_char(s, '/') < s.len()
}

pub open spec fn ends_with_wildcard_subtype(s: Seq<char>) -> bool {
    s.len() >= 2 && s[s.len() - 2] == '/' && s[s.len() - 1] == '*'
}

/// Whether the concrete media type `concrete` is matched by the media
/// range `range`: `*/*` matches everything; a range `type/*` matches any
/// concrete type with the same `type`; any other range matches only
/// itself.
pub open spec fn range_matches(range: Seq<char>, concrete: Seq<char>) -> bool {
    if range == seq!['*', '/', '*'] {
        true
    } else if has_slash(range) && has_slash(concrete) && ends_with_wildcard_subtype(range) {
        type_of(range) == type_of(concrete)
    } else {
        range == concrete
    }
}

fn range_eq(a: &Vec<char>, alo: usize, ahi: usize, b: &Vec<char>, blo: usize, bhi: usize) -> (r:
    bool)
    requires
        alo <= ahi <= a@.len(),
        blo <= bhi <= b@.len(),
    ensures
        r == (a@.subrange(alo as int, ahi as int) == b@.subrange(blo as int, bhi as int)),
{
    if ahi - alo != bhi - blo {
        assert(a@.subrange(alo as int, ahi as int).len() != b@.subrange(
            blo as int,
            bhi as int,
        ).len());
        return false;
    }
    let len = ahi - alo;
    let mut i: usize = 0;
    while i < len
        invariant
            len == ahi - alo == bhi - blo,
            alo <= ahi <= a@.len(),
            blo <= bhi <= b@.len(),
            0 <= i <= len,
            a@.subrange(alo as int, alo + i) =~= b@.subrange(blo as int, blo + i),
        decreases len - i,
    {
        if a[alo + i] != b[blo + i] {
            assert(a@.subrange(alo as int, ahi as int)[i as int] != b@.subrange(
                blo as int,
                bhi as int,
            )[i as int]);
            return false;
        }
        assert(a@.subrange(alo as int, alo + i) == b@.subrange(blo as int, blo + i));
        assert(a@.subrange(alo as int, alo + i + 1) =~= a@.subrange(alo as int, alo + i).push(
            a@[alo + i],
        ));
        assert(b@.subrange(blo as int, blo + i + 1) =~= b@.subrange(blo as int, blo + i).push(
            b@[blo + i],
        ));
        i = i + 1;
    }
    assert(a@.subrange(alo as int, ahi as int) =~= a@.subrange(alo as int, alo + i));
    assert(b@.subrange(blo as int, bhi as int) =~= b@.subrange(blo as int, blo + i));
    true
}

fn matches_chars(range: &Vec<char>, concrete: &Vec<char>) -> (r: bool)
    ensures
        r == range_matches(range@, concrete@),
{
    let rn = range.len();
    let cn = concrete.len();
    assert(range@.subrange(0, rn as int) =~= range@);
    assert(concrete@.subrange(0, cn as int) =~= concrete@);
    if rn == 3 && range[0] == '*' && range[1] == '/' && range[2] == '*' {
        assert(range@ =~= seq!['*', '/', '*']);
        return true;
    }
    assert(range@ != seq!['*', '/', '*']) by {
        if range@ == seq!['*', '/', '*'] {
            assert(range@[0] == '*' && range@[1] == '/' && range@[2] == '*');
        }
    }
    let rs = find_in_range(range, 0, rn, '/');
    let cs = find_in_range(concrete, 0, cn, '/');
    if rs < rn && cs < cn && rn >= 2 && range[rn - 2] == '/' && range[rn - 1] == '*' {
        assert(range@.subrange(0, rs as int) =~= type_of(range@));
        assert(concrete@.subrange(0, cs as int) =~= type_of(concrete@));
        return range_eq(range, 0, rs, concrete, 0, cs);
    }
    range_eq(range, 0, rn, concrete, 0, cn)
}

/// Returns whether a concrete media type (e.g. `application/json`) matches a
/// media range from an `Accept` header (e.g. `application/*` or `*/*`).
pub fn media_range_matches(range: &str, concrete: &str) -> (r: bool)
    ensures
        r == range_matches(range@, concrete@),
{
    let rc = chars_of(range);
    let cc = chars_of(concrete);
    matches_chars(&rc, &cc)
}

/// The result of negotiating a response media type against a client's
/// `Accept` header, per the "Body" section of the specification.
#[derive(Debug, Clone, Copy, PartialEq, Eq, Structural)]
pub enum Negotiated {
    /// Serve `application/graphql-response+json`, the spec-compliant mode.
    GraphqlResponseJson,
    /// Serve content encoded as `application/graphql-response+json`, with
    /// the `Content-Type` header replaced with `application/json` for 2xx
    /// responses, for legacy clients.
    LegacyJson,
    /// No acceptable media type; the server SHOULD respond `406`.
    NotAcceptable,
}

/// An entry makes `target` acceptable when its quality is positive and its
/// range matches `target`.
pub open spec fn accepts(e: AcceptEntry, target: Seq<char>) -> bool {
    e.q > 0 && range_matches(e.essence, target)
}

/// The highest quality with which the entries `es` accept `target`, or
/// `None` when none of them does.
pub open spec fn best_q(es: Seq<AcceptEntry>, target: Seq<char>) -> Option<int>
    decreases es.len(),
{
    if es.len() == 0 {
        None
    } else {
        let b = best_q(es.drop_last(), target);
        let e = es.last();
        if accepts(e, target) {
            match b {
                Some(m) => Some(
                    if m >= e.q {
                        m
                    } else {
                        e.q
                    },
                ),
                None => Some(e.q),
            }
        } else {
            b
        }
    }
}

/// The position in `es` of the first entry that accepts `target` with its
/// best quality (`0` when none accepts it).
pub open spec fn best_pos(es: Seq<AcceptEntry>, target: Seq<char>) -> int
    decreases es.len(),
{
    if es.len() == 0 {
        0
    } else {
        let p = es.drop_last();
        let e = es.last();
        if accepts(e, target) && match best_q(p, target) {
            Some(m) => e.q > m,
            None => true,
        } {
            es.len() - 1
        } else {
            best_pos(p, target)
        }
    }
}

/// The outcome for the best qualities `g` and `j` of the two supported
/// media types, first reached at positions `gp` and `jp`: the one accepted
/// with the higher quality wins; on a tie, the one listed first wins, and
/// `application/graphql-response+json` when a single entry (a wildcard)
/// accepts both.
pub open spec fn choose_media(g: Option<int>, gp: int, j: Option<int>, jp: int) -> Negotiated {
    match (g, j) {
        (Some(gq), Some(jq)) => if gq > jq || (gq == jq && gp <= jp) {
            Negotiated::GraphqlResponseJson
        } else {
            Negotiated::LegacyJson
        },
        (Some(_), None) => Negotiated::GraphqlResponseJson,
        (None, Some(_)) => Negotiated::LegacyJson,
        (None, None) => Negotiated::NotAcceptable,
    }
}

/// The negotiated outcome for an optional `Accept` header: an absent or
/// blank header leaves the choice to the server, which picks the
/// specification's media type.
pub open spec fn negotiation(header: Option<Seq<char>>, keys: Seq<Option<i64>>) -> Negotiated {
    match header {
        None => Negotiated::GraphqlResponseJson,
        Some(h) => if trim(h).len() == 0 {
            Negotiated::GraphqlResponseJson
        } else {
            choose_for(accept_entries(trim(h), keys))
        },
    }
}

/// The outcome for the entries `es` of a non-blank `Accept` header.
pub open spec fn choose_for(es: Seq<AcceptEntry>) -> Negotiated {
    choose_media(
        best_q(es, APPLICATION_GRAPHQL_RESPONSE_JSON@),
        best_pos(es, APPLICATION_GRAPHQL_RESPONSE_JSON@),
        best_q(es, APPLICATION_JSON@),
        best_pos(es, APPLICATION_JSON@),
    )
}

pub proof fn lemma_best_q_char(es: Seq<AcceptEntry>, t: Seq<char>)
    ensures
        best_q(es, t) is None <==> (forall|i: int| 0 <= i < es.len() ==> !accepts(es[i], t)),
        best_q(es, t) matches Some(m) ==> {
            &&& exists|i: int| 0 <= i < es.len() && accepts(es[i], t) && es[i].q == m
            &&& forall|i: int| 0 <= i < es.len() && accepts(es[i], t) ==> es[i].q <= m
        },
    decreases es.len(),
{
    if es.len() > 0 {
        let p = es.drop_last();
        lemma_best_q_char(p, t);
        assert(forall|i: int| 0 <= i < p.len() ==> p[i] == es[i]);
        let last = es.len() - 1;
        if accepts(es[last], t) {
            match best_q(p, t) {
                Some(m) => {
                    let i0 = choose|i: int| 0 <= i < p.len() && accepts(p[i], t) && p[i].q == m;
                    assert(es[i0] == p[i0]);
                },
                None => {},
            }
        } else {
            match best_q(p, t) {
                Some(m) => {
                    let i0 = choose|i: int| 0 <= i < p.len() && accepts(p[i], t) && p[i].q == m;
                    assert(es[i0] == p[i0]);
                },
                None => {},
            }
        }
    }
}

/// `best_pos` is the position of the first entry that accepts the target
/// with its best quality.
pub proof fn lemma_best_pos_char(es: Seq<AcceptEntry>, t: Seq<char>)
    ensures
        best_q(es, t) matches Some(m) ==> {
            &&& 0 <= best_pos(es, t) < es.len()
            &&& accepts(es[best_pos(es, t)], t)
            &&& es[best_pos(es, t)].q == m
            &&& forall|i: int| 0 <= i < best_pos(es, t) ==> !(accepts(es[i], t) && es[i].q == m)
        },
    decreases es.len(),
{
    if es.len() > 0 {
        let p = es.drop_last();
        lemma_best_pos_char(p, t);
        lemma_best_q_char(p, t);
        assert(forall|i: int| 0 <= i < p.len() ==> p[i] == es[i]);
        let last = es.len() - 1;
        if accepts(es[last], t) {
            match best_q(p, t) {
                Some(m) => {
                    if es[last].q > m {
                        assert forall|i: int| 0 <= i < last implies !(accepts(es[i], t) && es[i].q
                            == es[last].q) by {
                            assert(p[i] == es[i]);
                        }
                    }
                },
                None => {},
            }
        }
    }
}

/// Two lists with the same entries give the same best qualities.
pub proof fn lemma_best_q_same_entries(a: Seq<AcceptEntry>, b: Seq<AcceptEntry>, t: Seq<char>)
    requires
        forall|x: AcceptEntry| a.contains(x) <==> b.contains(x),
    ensures
        best_q(a, t) == best_q(b, t),
{
    lemma_best_q_char(a, t);
    lemma_best_q_char(b, t);
    match (best_q(a, t), best_q(b, t)) {
        (Some(ma), Some(mb)) => {
            let ia = choose|i: int| 0 <= i < a.len() && accepts(a[i], t) && a[i].q == ma;
            let ib = choose|i: int| 0 <= i < b.len() && accepts(b[i], t) && b[i].q == mb;
            assert(a.contains(a[ia]));
            assert(b.contains(b[ib]));
            let jb = choose|j: int| 0 <= j < b.len() && b[j] == a[ia];
            let ja = choose|j: int| 0 <= j < a.len() && a[j] == b[ib];
            assert(b[jb].q <= mb);
            assert(a[ja].q <= ma);
        },
        (Some(ma), None) => {
            let ia = choose|i: int| 0 <= i < a.len() && accepts(a[i], t) && a[i].q == ma;
            assert(a.contains(a[ia]));
            let jb = choose|j: int| 0 <= j < b.len() && b[j] == a[ia];
            assert(!accepts(b[jb], t));
        },
        (None, Some(mb)) => {
            let ib = choose|i: int| 0 <= i < b.len() && accepts(b[i], t) && b[i].q == mb;
            assert(b.contains(b[ib]));
            let ja = choose|j: int| 0 <= j < a.len() && a[j] == b[ib];
            assert(!accepts(a[ja], t));
        },
        (None, None) => {},
    }
}

pub open spec fn opt_int(o: Option<i64>) -> Option<int> {
    match o {
        Some(v) => Some(v as int),
        None => None,
    }
}

/// Negotiates the response media type given an optional `Accept` header
/// value, following the "Body" section of the specification:
///
/// - No `Accept` header, or a blank one: the server may choose freely;
///   `application/graphql-response+json` is chosen.
/// - Otherwise each of the two supported media types gets the highest
///   positive quality of an entry whose range matches it; the one with the
///   higher quality wins. On a tie, the one whose best entry is listed
///   first wins; when one entry (a wildcard) is first for both, the
///   specification's media type wins. When neither is accepted the outcome
///   is `NotAcceptable`.
///
/// `keys` holds the quality keys of the `q` value texts of the trimmed
/// header (`quality_texts`), in order; it is not read without a header.
pub fn negotiate(accept_header: Option<&str>, keys: &Vec<Option<i64>>) -> (r: Negotiated)
    requires
        accept_header matches Some(h) ==> keys@.len() == q_texts(trim(h@)).len(),
    ensures
        accept_header is None ==> r is GraphqlResponseJson,
        accept_header matches Some(h) && trim(h@).len() == 0 ==> r is GraphqlResponseJson,
        r == negotiation(
            match accept_header {
                Some(h) => Some(h@),
                None => None,
            },
            keys@,
        ),
{
    let header = match accept_header {
        Some(h) => h,
        None => {
            return Negotiated::GraphqlResponseJson;
        },
    };
    let cs = chars_of(header);
    let (a, b) = trim_range(&cs, 0, cs.len());
    assert(cs@.subrange(0, cs@.len() as int) =~= header@);
    if a == b {
        return Negotiated::GraphqlResponseJson;
    }
    let trimmed = header.substring_char(a, b);
    assert(trimmed@ == trim(header@));
    let list = accept_list(trimmed, keys);
    let ghost es = accept_entries(trim(header@), keys@);
    let ghost vs = range_views(list@);
    assert(vs == es);
    let g_target = chars_of(APPLICATION_GRAPHQL_RESPONSE_JSON);
    let j_target = chars_of(APPLICATION_JSON);
    let mut bg: Option<i64> = None;
    let mut bj: Option<i64> = None;
    let mut pg: usize = 0;
    let mut pj: usize = 0;
    let mut i: usize = 0;
    assert(vs.take(0) =~= Seq::<AcceptEntry>::empty());
    while i < list.len()
        invariant
            0 <= i <= list@.len(),
            vs == range_views(list@),
            g_target@ == APPLICATION_GRAPHQL_RESPONSE_JSON@,
            j_target@ == APPLICATION_JSON@,
            opt_int(bg) == best_q(vs.take(i as int), g_target@),
            opt_int(bj) == best_q(vs.take(i as int), j_target@),
            pg == best_pos(vs.take(i as int), g_target@),
            pj == best_pos(vs.take(i as int), j_target@),
        decreases list@.len() - i,
    {
        let ess = chars_of(list[i].essence.as_str());
        let q = list[i].q;
        let ghost e = vs[i as int];
        assert(vs.take(i + 1).drop_last() =~= vs.take(i as int));
        assert(vs.take(i + 1).last() == e);
        if q > 0 && matches_chars(&ess, &g_target) {
            let improves = match bg {
                Some(m) => q > m,
                None => true,
            };
            if improves {
                bg = Some(q);
                pg = i;
            }
        }
        if q > 0 && matches_chars(&ess, &j_target) {
            let improves = match bj {
                Some(m) => q > m,
                None => true,
            };
            if improves {
                bj = Some(q);
                pj = i;
            }
        }
        i = i + 1;
    }
    assert(vs.take(i as int) =~= vs);
    match (bg, bj) {
        (Some(gq), Some(jq)) => {
            if gq > jq || (gq == jq && pg <= pj) {
                Negotiated::GraphqlResponseJson
            } else {
                Negotiated::LegacyJson
            }
        },
        (Some(_), None) => Negotiated::GraphqlResponseJson,
        (None, Some(_)) => Negotiated::LegacyJson,
        (None, None) => Negotiated::NotAcceptable,
    }
}


// ---------------------------------------------------------------------
// Content-Type
// ---------------------------------------------------------------------

/// The essence of a `Content-Type` value: the text before the first `;`,
/// trimmed and ASCII-lowercased.
pub open spec fn essence_of(content_type: Seq<char>) -> Seq<char> {
    lower(trim(split_on(content_type, ';')[0]))
}

/// Parses a `Content-Type` header value into its essence (media type without
/// parameters), lowercased, e.g. `"application/json; charset=utf-8"` ->
/// `"application/json"`.
pub fn content_type_essence(content_type: &str) -> (r: String)
    ensures
        r@ == essence_of(content_type@),
{
    let cs = chars_of(content_type);
    let n = cs.len();
    let k = find_in_range(&cs, 0, n, ';');
    assert(cs@.subrange(0, n as int) =~= cs@);
    proof {
        lemma_split_on_nonempty(cs@, ';');
    }
    assert(cs@.take(k as int) =~= cs@.subrange(0, k as int));
    let (a, b) = trim_range(&cs, 0, k);
    lower_range(&cs, a, b)
}


// ---------------------------------------------------------------------
// Laws
// ---------------------------------------------------------------------

/// Quality values decide, not the order of listing: two lists with the
/// same entries negotiate the same outcome, unless the two media types are
/// accepted with the same best quality (a tie, which the entry listed
/// first decides).
pub proof fn law_listed_order_irrelevant(a: Seq<AcceptEntry>, b: Seq<AcceptEntry>)
    requires
        forall|x: AcceptEntry| a.contains(x) <==> b.contains(x),
        best_q(a, APPLICATION_GRAPHQL_RESPONSE_JSON@) != best_q(a, APPLICATION_JSON@),
    ensures
        choose_for(a) == choose_for(b),
{
    lemma_best_q_same_entries(a, b, APPLICATION_GRAPHQL_RESPONSE_JSON@);
    lemma_best_q_same_entries(a, b, APPLICATION_JSON@);
}

/// On a tie in quality, the media type whose best entry is listed first
/// is chosen, `application/graphql-response+json` when one entry is the
/// first for both.
pub proof fn law_tie_goes_to_first_listed(es: Seq<AcceptEntry>)
    requires
        best_q(es, APPLICATION_GRAPHQL_RESPONSE_JSON@) is Some,
        best_q(es, APPLICATION_GRAPHQL_RESPONSE_JSON@) == best_q(es, APPLICATION_JSON@),
    ensures
        choose_for(es) == if best_pos(es, APPLICATION_GRAPHQL_RESPONSE_JSON@) <= best_pos(
            es,
            APPLICATION_JSON@,
        ) {
            Negotiated::GraphqlResponseJson
        } else {
            Negotiated::LegacyJson
        },
{
}

/// When the entry that first accepts `application/json` with its best
/// quality also accepts `application/graphql-response+json` (a wildcard
/// such as `*/*` or `application/*`), the specification's media type is
/// chosen.
pub proof fn law_shared_entry_prefers_spec_type(es: Seq<AcceptEntry>)
    requires
        best_q(es, APPLICATION_JSON@) is Some,
        accepts(es[best_pos(es, APPLICATION_JSON@)], APPLICATION_GRAPHQL_RESPONSE_JSON@),
    ensures
        choose_for(es) == Negotiated::GraphqlResponseJson,
{
    let g = APPLICATION_GRAPHQL_RESPONSE_JSON@;
    let j = APPLICATION_JSON@;
    lemma_best_pos_char(es, j);
    lemma_best_pos_char(es, g);
    lemma_best_q_char(es, g);
    let pj = best_pos(es, j);
    let mj = best_q(es, j)->0;
    assert(es[pj].q == mj);
    let mg = best_q(es, g)->0;
    assert(mg >= mj);
    if mg == mj {
        if best_pos(es, g) > pj {
            assert(accepts(es[pj], g) && es[pj].q == mg);
        }
    }
}

/// An entry with quality zero (or below) accepts nothing: adding it to a
/// list of entries changes no best quality.
pub proof fn law_nonpositive_quality_ignored(es: Seq<AcceptEntry>, e: AcceptEntry, t: Seq<char>)
    requires
        e.q <= 0,
    ensures
        best_q(es.push(e), t) == best_q(es, t),
{
    assert(es.push(e).drop_last() =~= es);
}

/// The range `*/*` matches every media type.
pub proof fn law_full_wildcard_matches(concrete: Seq<char>)
    ensures
        range_matches(seq!['*', '/', '*'], concrete),
{
}

/// Every media type matches itself as a range.
pub proof fn law_range_matches_itself(m: Seq<char>)
    ensures
        range_matches(m, m),
{
}

proof fn lemma_find_char_concat(a: Seq<char>, rest: Seq<char>, c: char)
    requires
        find_char(a, c) == a.len(),
    ensures
        find_char(a + rest, c) == a.len() + find_char(rest, c),
    decreases a.len(),
{
    if a.len() == 0 {
        assert(a + rest =~= rest);
    } else {
        lemma_find_char_bound(a, c);
        assert(a[0] != c);
        assert((a + rest)[0] == a[0]);
        assert((a + rest).drop_first() =~= a.drop_first() + rest);
        lemma_find_char_concat(a.drop_first(), rest, c);
    }
}

/// The parameters of a `Content-Type` value do not change its essence.
pub proof fn law_essence_ignores_parameters(a: Seq<char>, params: Seq<char>)
    requires
        find_char(a, ';') == a.len(),
    ensures
        essence_of(a + seq![';'] + params) == essence_of(a),
{
    let s = a + seq![';'] + params;
    assert(s =~= a + (seq![';'] + params));
    lemma_find_char_concat(a, seq![';'] + params, ';');
    assert(find_char(seq![';'] + params, ';') == 0);
    lemma_split_on_nonempty(s, ';');
    lemma_split_on_nonempty(a, ';');
    assert(s.take(a.len() as int) =~= a);
    assert(a.take(a.len() as int) =~= a);
}

proof fn lemma_trim_start_shape(s: Seq<char>) -> (k: int)
    ensures
        0 <= k <= s.len(),
        trim_start(s) == s.skip(k),
        trim_start(s).len() > 0 ==> !is_ws(trim_start(s)[0]),
    decreases s.len(),
{
    if s.len() > 0 && is_ws(s[0]) {
        let k1 = lemma_trim_start_shape(s.drop_first());
        assert(s.drop_first().skip(k1) =~= s.skip(k1 + 1));
        k1 + 1
    } else {
        assert(s.skip(0) =~= s);
        0
    }
}

proof fn lemma_trim_end_shape(s: Seq<char>) -> (k: int)
    ensures
        0 <= k <= s.len(),
        trim_end(s) == s.take(k),
        trim_end(s).len() > 0 ==> !is_ws(trim_end(s).last()),
    decreases s.len(),
{
    if s.len() > 0 && is_ws(s.last()) {
        let k1 = lemma_trim_end_shape(s.drop_last());
        assert(s.drop_last().take(k1) =~= s.take(k1));
        k1
    } else {
        assert(s.take(s.len() as int) =~= s);
        s.len() as int
    }
}


/// The essence of a `Content-Type` essence is itself.
pub proof fn law_essence_idempotent(content_type: Seq<char>)
    ensures
        essence_of(essence_of(content_type)) == essence_of(content_type),
{
    let x = content_type;
    lemma_split_on_nonempty(x, ';');
    lemma_find_char_bound(x, ';');
    let p = x.take(find_char(x, ';') as int);
    let k1 = lemma_trim_start_shape(p);
    let ts = trim_start(p);
    let k2 = lemma_trim_end_shape(ts);
    let z = trim(p);
    assert(z == p.skip(k1).take(k2));
    assert(forall|i: int| 0 <= i < z.len() ==> z[i] == p[k1 + i]);
    assert(z.len() > 0 ==> z[0] == ts[0]);
    let y = lower(z);
    assert(y == essence_of(x));
    // y holds no ';'
    assert forall|i: int| 0 <= i < y.len() implies y[i] != ';' by {
        assert(y[i] == ascii_lower(z[i]));
        assert(z[i] == p[k1 + i]);
        assert(p[k1 + i] == x[k1 + i]);
    }
    lemma_find_char_none(y, ';');
    lemma_split_on_nonempty(y, ';');
    assert(y.take(y.len() as int) =~= y);
    // y is already trimmed
    if y.len() > 0 {
        assert(!is_ws(y[0]));
        assert(!is_ws(y.last()));
        assert(trim_start(y) == y);
        assert(trim_end(y) == y);
    } else {
        assert(trim_start(y) == y);
        assert(trim_end(y) == y);
    }
    assert(lower(y) =~= y);
}

proof fn lemma_find_char_none(s: Seq<char>, c: char)
    requires
        forall|i: int| 0 <= i < s.len() ==> s[i] != c,
    ensures
        find_char(s, c) == s.len(),
    decreases s.len(),
{
    if s.len() > 0 {
        assert forall|i: int| 0 <= i < s.drop_first().len() implies s.drop_first()[i] != c by {
            assert(s.drop_first()[i] == s[i + 1]);
        }
        lemma_find_char_none(s.drop_first(), c);
    }
}

} // verus!
