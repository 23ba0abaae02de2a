//! The proxy pool: how lines of the proxy file become addresses, how validation work is
//! shared among workers, and the file that keeps the proxies that answered.

use crate::text::{
    is_space, lemma_trim_pad, chars_of, contains, equals_in, find, find_in, lemma_lines_last, lemma_lines_split, lines,
    string_of, strip_cr, trim, trim_bounds, CharClass,
};
use crate::types::strings_view;
use vstd::prelude::*;

verus! {

/// Loads, normalizes and validates the proxy pool.
pub struct ProxyManager;

/// `s` without all the copies of `p` at its start (`trim_start_matches` with a string).
pub open spec fn strip_prefix_all(s: Seq<char>, p: Seq<char>) -> Seq<char>
    decreases s.len(),
{
    if p.len() > 0 && p.len() <= s.len() && s.take(p.len() as int) == p {
        strip_prefix_all(s.skip(p.len() as int), p)
    } else {
        s
    }
}

/// A line of the proxy file without surrounding whitespace and without the scheme
/// prefixes `http://`, `https://`, `socks4://` and `socks5://`, stripped in that order.
pub open spec fn clean_address(line: Seq<char>) -> Seq<char> {
    strip_prefix_all(
        strip_prefix_all(
            strip_prefix_all(strip_prefix_all(trim(line), "http://"@), "https://"@),
            "socks4://"@,
        ),
        "socks5://"@,
    )
}

/// The pool entry for a line: its clean address, where that is not empty and holds a `:`.
pub open spec fn pool_entry(line: Seq<char>) -> Option<Seq<char>> {
    let c = clean_address(line);
    if c.len() > 0 && contains(c, seq![':']) {
        Some(c)
    } else {
        None
    }
}

/// The pool that the lines `ls` give, in order.
pub open spec fn pool_of(ls: Seq<Seq<char>>) -> Seq<Seq<char>>
    decreases ls.len(),
{
    if ls.len() == 0 {
        seq![]
    } else {
        let p = pool_of(ls.drop_last());
        match pool_entry(ls.last()) {
            Some(c) => p.push(c),
            None => p,
        }
    }
}

/// Bound `r` with `v[r..hi] == strip_prefix_all(v[lo..hi], pat)`.
fn strip_prefix_bound(v: &Vec<char>, lo: usize, hi: usize, pat: &Vec<char>) -> (r: usize)
    requires
        lo <= hi <= v@.len(),
    ensures
        lo <= r <= hi,
        v@.subrange(r as int, hi as int) == strip_prefix_all(v@.subrange(lo as int, hi as int), pat@),
{
    let mut i = lo;
    let plen = pat.len();
    while plen > 0 && plen <= hi - i && equals_in(v, i, i + plen, pat)
        invariant
            lo <= i <= hi <= v@.len(),
            plen == pat@.len(),
            strip_prefix_all(v@.subrange(lo as int, hi as int), pat@) == strip_prefix_all(
                v@.subrange(i as int, hi as int),
                pat@,
            ),
        decreases hi - i,
    {
        proof {
            let s = v@.subrange(i as int, hi as int);
            assert(s.take(plen as int) =~= v@.subrange(i as int, i + plen));
            assert(s.skip(plen as int) =~= v@.subrange(i + plen, hi as int));
        }
        i = i + plen;
    }
    proof {
        let s = v@.subrange(i as int, hi as int);
        if plen > 0 && plen <= hi - i {
            assert(s.take(plen as int) =~= v@.subrange(i as int, i + plen));
        }
    }
    i
}

impl ProxyManager {
    /// The pool entry for one line of the proxy file, as `pool_entry` describes it.
    pub fn normalize_entry(line: &str) -> (r: Option<String>)
        ensures
            r matches Some(c) ==> pool_entry(line@) == Some(c@),
            r is None ==> pool_entry(line@) is None,
    {
        let v = chars_of(line);
        let n = v.len();
        proof {
            assert(v@.subrange(0, n as int) =~= line@);
        }
        let (a, b) = trim_bounds(&v, 0, n, CharClass::Space);
        let p1 = chars_of("http://");
        let p2 = chars_of("https://");
        let p3 = chars_of("socks4://");
        let p4 = chars_of("socks5://");
        let a1 = strip_prefix_bound(&v, a, b, &p1);
        let a2 = strip_prefix_bound(&v, a1, b, &p2);
        let a3 = strip_prefix_bound(&v, a2, b, &p3);
        let a4 = strip_prefix_bound(&v, a3, b, &p4);
        proof {
            assert(clean_address(line@) == v@.subrange(a4 as int, b as int));
        }
        if a4 == b {
            return None;
        }
        let mut colon: Vec<char> = Vec::new();
        colon.push(':');
        proof {
            assert(colon@ =~= seq![':']);
        }
        if find_in(&v, a4, b, &colon).is_some() {
            Some(string_of(&v, a4, b))
        } else {
            None
        }
    }

    /// The pool that the lines of the proxy file give, in their order.
    pub fn build_pool(lines: &Vec<String>) -> (r: Vec<String>)
        ensures
            strings_view(r@) == pool_of(strings_view(lines@)),
    {
        let mut pool: Vec<String> = Vec::new();
        let mut i: usize = 0;
        while i < lines.len()
            invariant
                i <= lines@.len(),
                strings_view(pool@) == pool_of(strings_view(lines@).take(i as int)),
            decreases lines@.len() - i,
        {
            let ghost before = pool@;
            let entry = ProxyManager::normalize_entry(lines[i].as_str());
            proof {
                let t = strings_view(lines@).take(i + 1);
                assert(t.drop_last() =~= strings_view(lines@).take(i as int));
                assert(t.last() == lines@[i as int]@);
            }
            match entry {
                Some(c) => {
                    pool.push(c);
                    proof {
                        assert(strings_view(pool@) =~= strings_view(before).push(pool@.last()@));
                    }
                },
                None => {},
            }
            i = i + 1;
        }
        proof {
            assert(strings_view(lines@).take(lines@.len() as int) =~= strings_view(lines@));
        }
        pool
    }
}


/// The most workers that validate proxies at once.
pub const MAX_VALIDATION_WORKERS: usize = 40;

/// How many workers validate `total` proxies: at most `MAX_VALIDATION_WORKERS`, and no
/// more than there are proxies.
pub open spec fn worker_count(total: nat) -> nat {
    if total < MAX_VALIDATION_WORKERS {
        total
    } else {
        MAX_VALIDATION_WORKERS as nat
    }
}

/// How many proxies each worker takes: `total` divided by the workers, rounded up.
pub open spec fn chunk_len(total: nat) -> nat {
    ((total + worker_count(total) - 1) / (worker_count(total) as int)) as nat
}

/// The indices `[start, end)` that worker `w` validates (empty where `start >= end`).
pub open spec fn worker_span(w: nat, chunk: nat, total: nat) -> (nat, nat) {
    let start = w * chunk;
    let end = if start + chunk < total {
        start + chunk
    } else {
        total
    };
    (start, end)
}

/// Index `i` falls to worker `w`.
pub open spec fn in_span(w: nat, chunk: nat, total: nat, i: nat) -> bool {
    worker_span(w, chunk, total).0 <= i < worker_span(w, chunk, total).1
}

/// Whether the validation progress is reported after `processed` of `total` proxies:
/// every fiftieth of the pool (at least every proxy), and at the last one.
pub open spec fn reports_validation(processed: nat, total: nat) -> bool {
    let step = if total / 50 > 1 {
        total / 50
    } else {
        1
    };
    processed % step == 0 || processed == total
}

/// The text of the proxy file: the entries, one per line, separated by `\n`.
pub open spec fn joined_lines(xs: Seq<Seq<char>>) -> Seq<char>
    decreases xs.len(),
{
    if xs.len() == 0 {
        seq![]
    } else if xs.len() == 1 {
        xs[0]
    } else {
        xs[0] + seq!['\n'] + joined_lines(xs.drop_first())
    }
}

proof fn lemma_joined_push(xs: Seq<Seq<char>>, x: Seq<char>)
    requires
        xs.len() > 0,
    ensures
        joined_lines(xs.push(x)) == joined_lines(xs) + seq!['\n'] + x,
    decreases xs.len(),
{
    if xs.len() == 1 {
        assert(xs.push(x).drop_first() =~= seq![x]);
        assert(joined_lines(seq![x]) == x);
    } else {
        assert(xs.push(x).drop_first() =~= xs.drop_first().push(x));
        lemma_joined_push(xs.drop_first(), x);
    }
}

impl ProxyManager {
    /// The number of validation workers and how many proxies each one takes.
    pub fn validation_plan(total: usize) -> (r: (usize, usize))
        requires
            total > 0,
            total + MAX_VALIDATION_WORKERS <= usize::MAX,
        ensures
            r.0 == worker_count(total as nat),
            r.1 == chunk_len(total as nat),
            0 < r.0 <= MAX_VALIDATION_WORKERS,
            0 < r.1 <= total,
    {
        let workers = if total < MAX_VALIDATION_WORKERS {
            total
        } else {
            MAX_VALIDATION_WORKERS
        };
        let chunk = (total + workers - 1) / workers;
        proof {
            assert(chunk <= total) by (nonlinear_arith)
                requires
                    chunk == (total + workers - 1) / (workers as int),
                    0 < workers <= total,
            ;
            assert(chunk > 0) by (nonlinear_arith)
                requires
                    chunk == (total + workers - 1) / (workers as int),
                    0 < workers <= total,
            ;
        }
        (workers, chunk)
    }

    /// The indices that worker `worker_id` validates, as `[start, end)`.
    pub fn worker_range(worker_id: usize, chunk: usize, total: usize) -> (r: (usize, usize))
        requires
            (worker_id + 1) * chunk <= usize::MAX,
        ensures
            r.0 == worker_span(worker_id as nat, chunk as nat, total as nat).0,
            r.1 == worker_span(worker_id as nat, chunk as nat, total as nat).1,
    {
        proof {
            assert(worker_id * chunk + chunk == (worker_id + 1) * chunk) by (nonlinear_arith);
        }
        let start_idx = worker_id * chunk;
        let end_idx = if start_idx + chunk < total {
            start_idx + chunk
        } else {
            total
        };
        (start_idx, end_idx)
    }

    /// Whether progress is reported after `processed` of `total` proxies.
    pub fn reports_progress(processed: usize, total: usize) -> (b: bool)
        ensures
            b == reports_validation(processed as nat, total as nat),
    {
        let step_interval = if total / 50 > 1 {
            total / 50
        } else {
            1
        };
        processed % step_interval == 0 || processed == total
    }

    /// The text of the proxy file that keeps `proxies`.
    pub fn pool_file_text(proxies: &Vec<String>) -> (r: String)
        ensures
            r@ == joined_lines(strings_view(proxies@)),
    {
        let mut text = String::new();
        let mut i: usize = 0;
        while i < proxies.len()
            invariant
                i <= proxies@.len(),
                text@ == joined_lines(strings_view(proxies@).take(i as int)),
            decreases proxies@.len() - i,
        {
            let ghost before = strings_view(proxies@).take(i as int);
            proof {
                assert(strings_view(proxies@).take(i + 1) =~= before.push(proxies@[i as int]@));
            }
            if i > 0 {
                text.push('\n');
                proof {
                    lemma_joined_push(before, proxies@[i as int]@);
                }
            } else {
                proof {
                    assert(before.push(proxies@[i as int]@) =~= seq![proxies@[i as int]@]);
                }
            }
            text.append(proxies[i].as_str());
            proof {
                assert(text@ =~= joined_lines(strings_view(proxies@).take(i + 1)));
            }
            i = i + 1;
        }
        proof {
            assert(strings_view(proxies@).take(proxies@.len() as int) =~= strings_view(proxies@));
        }
        text
    }
}

/// The validation workers share out the pool exactly: every index below `total` falls to
/// one worker and only one, and no worker is given an index at or past `total`.
pub proof fn law_workers_partition_pool(total: nat, i: nat)
    requires
        total > 0,
    ensures
        i < total ==> exists|w: nat| w < worker_count(total) && in_span(w, chunk_len(total), total, i),
        forall|w1: nat, w2: nat|
            in_span(w1, chunk_len(total), total, i) && in_span(w2, chunk_len(total), total, i) ==> w1
                == w2,
        forall|w: nat| in_span(w, chunk_len(total), total, i) ==> i < total,
{
    let c = worker_count(total);
    let k = chunk_len(total);
    assert(k * c >= total && k > 0) by (nonlinear_arith)
        requires
            k == (total + c - 1) / (c as int),
            0 < c <= total,
    ;
    if i < total {
        let w = i / k;
        assert(w * k <= i < w * k + k) by (nonlinear_arith)
            requires
                w == i / k,
                k > 0,
        ;
        assert(w < c) by (nonlinear_arith)
            requires
                w == i / k,
                k > 0,
                i < total,
                k * c >= total,
        ;
        assert(in_span(w, k, total, i));
    }
    assert forall|w1: nat, w2: nat|
        in_span(w1, k, total, i) && in_span(w2, k, total, i) implies w1 == w2 by {
        assert(w1 * k <= i < w1 * k + k && w2 * k <= i < w2 * k + k);
        assert(w1 == w2) by (nonlinear_arith)
            requires
                w1 * k <= i < w1 * k + k,
                w2 * k <= i < w2 * k + k,
                k > 0,
        ;
    }
}

/// The last proxy of the pool is always reported.
pub proof fn law_last_proxy_reported(total: nat)
    ensures
        reports_validation(total, total),
{
}

/// The proxy file reads back as the entries written to it, where each is a non-empty
/// line that holds no `\n` and does not end in `\r`.
pub proof fn law_pool_file_round_trip(xs: Seq<Seq<char>>)
    requires
        forall|j: int|
            0 <= j < xs.len() ==> {
                let x = #[trigger] xs[j];
                &&& x.len() > 0
                &&& x.last() != '\r'
                &&& forall|i: int| 0 <= i < x.len() ==> x[i] != '\n'
            },
    ensures
        lines(joined_lines(xs)) == xs,
    decreases xs.len(),
{
    if xs.len() == 0 {
        assert(lines(Seq::<char>::empty()) =~= Seq::<Seq<char>>::empty());
    } else if xs.len() == 1 {
        let x = xs[0];
        lemma_lines_last(x);
        assert(seq![x] =~= xs);
    } else {
        let x = xs[0];
        let rest = xs.drop_first();
        assert forall|j: int| 0 <= j < rest.len() implies {
            let y = #[trigger] rest[j];
            &&& y.len() > 0
            &&& y.last() != '\r'
            &&& forall|i: int| 0 <= i < y.len() ==> y[i] != '\n'
        } by {
            assert(rest[j] == xs[j + 1]);
        }
        law_pool_file_round_trip(rest);
        lemma_lines_split(x, joined_lines(rest));
        assert(strip_cr(x) == x);
        assert(seq![x] + rest =~= xs);
    }
}

/// Entries that are already clean addresses come back unchanged from `pool_of`.
proof fn lemma_pool_of_clean(xs: Seq<Seq<char>>)
    requires
        forall|j: int| 0 <= j < xs.len() ==> pool_entry(#[trigger] xs[j]) == Some(xs[j]),
    ensures
        pool_of(xs) == xs,
    decreases xs.len(),
{
    if xs.len() > 0 {
        lemma_pool_of_clean(xs.drop_last());
        assert(xs.drop_last().push(xs.last()) =~= xs);
    }
}

/// A pool written to the proxy file and loaded again is the same pool, where its
/// entries are clean addresses that end in no `\r` and hold no `\n`.
pub proof fn law_saved_pool_reloads(xs: Seq<Seq<char>>)
    requires
        forall|j: int|
            0 <= j < xs.len() ==> {
                let x = #[trigger] xs[j];
                &&& pool_entry(x) == Some(x)
                &&& x.last() != '\r'
                &&& forall|i: int| 0 <= i < x.len() ==> x[i] != '\n'
            },
    ensures
        pool_of(lines(joined_lines(xs))) == xs,
{
    assert forall|j: int| 0 <= j < xs.len() implies {
        let x = #[trigger] xs[j];
        &&& x.len() > 0
        &&& x.last() != '\r'
        &&& forall|i: int| 0 <= i < x.len() ==> x[i] != '\n'
    } by {
        assert(pool_entry(xs[j]) is Some);
    }
    law_pool_file_round_trip(xs);
    lemma_pool_of_clean(xs);
}

/// Every entry of a pool is a non-empty address that holds a `:`.
pub proof fn law_pool_entries_are_addresses(ls: Seq<Seq<char>>)
    ensures
        forall|j: int|
            0 <= j < pool_of(ls).len() ==> (#[trigger] pool_of(ls)[j]).len() > 0 && contains(
                pool_of(ls)[j],
                seq![':'],
            ),
        pool_of(ls).len() <= ls.len(),
    decreases ls.len(),
{
    if ls.len() > 0 {
        law_pool_entries_are_addresses(ls.drop_last());
    }
}


/// `s` does not start with `p`.
pub open spec fn lacks_prefix(s: Seq<char>, p: Seq<char>) -> bool {
    !(p.len() <= s.len() && s.take(p.len() as int) == p)
}

proof fn lemma_strip_differs(s: Seq<char>, p: Seq<char>, i: int)
    requires
        0 <= i < p.len(),
        i < s.len(),
        s[i] != p[i],
    ensures
        strip_prefix_all(s, p) == s,
{
    if p.len() <= s.len() {
        assert(s.take(p.len() as int)[i] != p[i]);
    }
}

proof fn lemma_strip_once(p: Seq<char>, x: Seq<char>)
    requires
        p.len() > 0,
        lacks_prefix(x, p),
    ensures
        strip_prefix_all(p + x, p) == x,
{
    assert((p + x).take(p.len() as int) =~= p);
    assert((p + x).skip(p.len() as int) =~= x);
    assert(strip_prefix_all(x, p) == x);
}

proof fn lemma_strip_absent(s: Seq<char>, p: Seq<char>)
    requires
        lacks_prefix(s, p),
    ensures
        strip_prefix_all(s, p) == s,
{
}

/// A proxy line and the same address with a scheme prefix (`http://`, `https://`,
/// `socks4://` or `socks5://`) give the same pool entry: the address itself where it
/// holds a `:`, none otherwise; and surrounding whitespace changes nothing either.
pub proof fn law_scheme_prefix_ignored(x: Seq<char>, scheme: Seq<char>, pad: Seq<char>)
    requires
        x.len() > 0,
        !is_space(x[0]),
        !is_space(x.last()),
        lacks_prefix(x, "http://"@),
        lacks_prefix(x, "https://"@),
        lacks_prefix(x, "socks4://"@),
        lacks_prefix(x, "socks5://"@),
        scheme == "http://"@ || scheme == "https://"@ || scheme == "socks4://"@ || scheme
            == "socks5://"@ || scheme.len() == 0,
        forall|i: int| 0 <= i < pad.len() ==> is_space(pad[i]),
    ensures
        pool_entry(pad + scheme + x + pad) == (if contains(x, seq![':']) {
            Some(x)
        } else {
            None
        }),
{
    reveal_strlit("http://");
    reveal_strlit("https://");
    reveal_strlit("socks4://");
    reveal_strlit("socks5://");
    let h1 = "http://"@;
    let h2 = "https://"@;
    let s4 = "socks4://"@;
    let s5 = "socks5://"@;
    let core = scheme + x;
    assert(core.len() > 0);
    assert(!is_space(core[0])) by {
        if scheme.len() > 0 {
            assert(core[0] == scheme[0]);
        }
    }
    assert(core.last() == x.last());
    lemma_trim_pad(pad, core);
    assert(pad + scheme + x + pad =~= pad + core + pad);
    assert(trim(pad + scheme + x + pad) == core);
    if scheme.len() == 0 {
        assert(core =~= x);
    } else if scheme == h1 {
        lemma_strip_once(h1, x);
        lemma_strip_absent(x, h2);
        lemma_strip_absent(x, s4);
        lemma_strip_absent(x, s5);
    } else if scheme == h2 {
        lemma_strip_differs(core, h1, 4);
        lemma_strip_once(h2, x);
        lemma_strip_absent(x, s4);
        lemma_strip_absent(x, s5);
    } else if scheme == s4 {
        lemma_strip_differs(core, h1, 0);
        lemma_strip_differs(core, h2, 0);
        lemma_strip_once(s4, x);
        lemma_strip_absent(x, s5);
    } else {
        lemma_strip_differs(core, h1, 0);
        lemma_strip_differs(core, h2, 0);
        lemma_strip_differs(core, s4, 5);
        lemma_strip_once(s5, x);
    }
}

} // verus!
