//! Per-request outcomes and the statistics aggregated from them: counts by
//! class, status and error distributions, a per-second timeline, latency
//! extremes and the latency histogram.

use vstd::prelude::*;
use vstd::multiset::Multiset;
use hdrhistogram::{CreationError, Histogram, RecordError};
use crate::text::{decimal, decimal_string, digit_char, push_char};

verus! {

// ── Outcomes ─────────────────────────────────────────────────────────────────

/// What one request produced.
#[derive(Debug, Clone)]
pub struct RequestOutcome {
    /// Latency in microseconds.
    pub latency_us: u64,
    /// HTTP status of the response, when one arrived.
    pub status_code: Option<u16>,
    /// Transport-level error kind, when the request failed.
    pub error: Option<String>,
    /// Milliseconds since the start of the run.
    pub offset_ms: u64,
}

/// How many elements of `s` satisfy `p`.
pub open spec fn count_matching<T>(s: Seq<T>, p: spec_fn(T) -> bool) -> nat
    decreases s.len(),
{
    if s.len() == 0 {
        0
    } else {
        count_matching(s.drop_last(), p) + if p(s.last()) {
            1nat
        } else {
            0nat
        }
    }
}

/// A transport-level failure.
pub open spec fn is_error() -> spec_fn(RequestOutcome) -> bool {
    |o: RequestOutcome| o.error is Some
}

/// A successful response: a 2xx status.
pub open spec fn is_success() -> spec_fn(RequestOutcome) -> bool {
    |o: RequestOutcome|
        o.error is None && o.status_code is Some && 200 <= o.status_code->0 && o.status_code->0 < 300
}

/// A failed response: a 4xx or 5xx status.
pub open spec fn is_failure() -> spec_fn(RequestOutcome) -> bool {
    |o: RequestOutcome|
        o.error is None && o.status_code is Some && 400 <= o.status_code->0 && o.status_code->0 < 600
}

/// A response (no transport error) with the given status.
pub open spec fn has_status(code: u16) -> spec_fn(RequestOutcome) -> bool {
    |o: RequestOutcome| o.error is None && o.status_code == Some(code)
}

/// A transport error of the given kind.
pub open spec fn has_error(kind: Seq<char>) -> spec_fn(RequestOutcome) -> bool {
    |o: RequestOutcome| o.error is Some && o.error->0@ == kind
}

/// A request issued during the given second of the run.
pub open spec fn in_second(b: u64) -> spec_fn(RequestOutcome) -> bool {
    |o: RequestOutcome| o.offset_ms / 1000 == b
}

proof fn lemma_count_step<T>(s: Seq<T>, i: int, p: spec_fn(T) -> bool)
    requires
        0 <= i < s.len(),
    ensures
        count_matching(s.take(i + 1), p) == count_matching(s.take(i), p) + if p(s[i]) {
            1nat
        } else {
            0nat
        },
{
    let t = s.take(i + 1);
    assert(t.drop_last() =~= s.take(i));
    assert(t.last() == s[i]);
}

proof fn lemma_count_positive<T>(s: Seq<T>, p: spec_fn(T) -> bool)
    requires
        count_matching(s, p) > 0,
    ensures
        exists|i: int| 0 <= i < s.len() && p(s[i]),
    decreases s.len(),
{
    if count_matching(s.drop_last(), p) > 0 {
        lemma_count_positive(s.drop_last(), p);
        let i = choose|i: int| 0 <= i < s.drop_last().len() && p(s.drop_last()[i]);
        assert(s[i] == s.drop_last()[i]);
    } else {
        assert(p(s[s.len() - 1]));
    }
}

proof fn lemma_count_bound<T>(s: Seq<T>, p: spec_fn(T) -> bool)
    ensures
        count_matching(s, p) <= s.len(),
    decreases s.len(),
{
    if s.len() > 0 {
        lemma_count_bound(s.drop_last(), p);
    }
}

/// A response arrived (no transport error, a status).
pub open spec fn is_answered() -> spec_fn(RequestOutcome) -> bool {
    |o: RequestOutcome| o.error is None && o.status_code is Some
}

/// The sum of the counts of a distribution.
pub open spec fn dist_total<K>(d: Seq<(K, u64)>) -> nat
    decreases d.len(),
{
    if d.len() == 0 {
        0
    } else {
        dist_total(d.drop_last()) + d.last().1 as nat
    }
}

proof fn lemma_dist_total_update<K>(d: Seq<(K, u64)>, k: int, x: (K, u64))
    requires
        0 <= k < d.len(),
    ensures
        dist_total(d.update(k, x)) + d[k].1 == dist_total(d) + x.1,
    decreases d.len(),
{
    let u = d.update(k, x);
    if k < d.len() - 1 {
        lemma_dist_total_update(d.drop_last(), k, x);
        assert(u.drop_last() =~= d.drop_last().update(k, x));
    } else {
        assert(u.drop_last() =~= d.drop_last());
    }
}

proof fn lemma_dist_total_push<K>(d: Seq<(K, u64)>, x: (K, u64))
    ensures
        dist_total(d.push(x)) == dist_total(d) + x.1,
{
    assert(d.push(x).drop_last() =~= d);
}

proof fn lemma_answered_split(s: Seq<RequestOutcome>)
    ensures
        count_matching(s, is_success()) + count_matching(s, is_failure()) <= count_matching(
            s,
            is_answered(),
        ),
        count_matching(s, is_answered()) + count_matching(s, is_error()) <= s.len(),
    decreases s.len(),
{
    if s.len() > 0 {
        lemma_answered_split(s.drop_last());
    }
}

// ── Status and error distributions ───────────────────────────────────────────

/// `dist` holds, once per status, the number of responses with that status,
/// for exactly the statuses that occur.
pub open spec fn is_status_distribution(outcomes: Seq<RequestOutcome>, dist: Seq<(u16, u64)>) -> bool {
    &&& forall|a: int, b: int| 0 <= a < b < dist.len() ==> dist[a].0 != dist[b].0
    &&& forall|k: int|
        0 <= k < dist.len() ==> (#[trigger] dist[k]).1 == count_matching(
            outcomes,
            has_status(dist[k].0),
        ) && dist[k].1 > 0
    &&& forall|i: int|
        0 <= i < outcomes.len() && (#[trigger] outcomes[i]).error is None
            && outcomes[i].status_code is Some ==> exists|k: int|
            0 <= k < dist.len() && dist[k].0 == outcomes[i].status_code->0
}

/// `dist` holds, once per error kind, the number of requests that failed
/// with that kind, for exactly the kinds that occur.
pub open spec fn is_error_distribution(outcomes: Seq<RequestOutcome>, dist: Seq<(String, u64)>) -> bool {
    &&& forall|a: int, b: int| 0 <= a < b < dist.len() ==> dist[a].0@ != dist[b].0@
    &&& forall|k: int|
        0 <= k < dist.len() ==> (#[trigger] dist[k]).1 == count_matching(
            outcomes,
            has_error(dist[k].0@),
        ) && dist[k].1 > 0
    &&& forall|i: int|
        0 <= i < outcomes.len() && (#[trigger] outcomes[i]).error is Some ==> exists|k: int|
            0 <= k < dist.len() && dist[k].0@ == outcomes[i].error->0@
}

/// Counts responses per status code.
pub fn status_distribution(outcomes: &Vec<RequestOutcome>) -> (dist: Vec<(u16, u64)>)
    ensures
        is_status_distribution(outcomes@, dist@),
        dist_total(dist@) == count_matching(outcomes@, is_answered()),
{
    let mut dist: Vec<(u16, u64)> = Vec::new();
    let n = outcomes.len();
    let mut i: usize = 0;
    while i < n
        invariant
            n == outcomes.len(),
            i <= n,
            is_status_distribution(outcomes@.take(i as int), dist@),
            dist_total(dist@) == count_matching(outcomes@.take(i as int), is_answered()),
        decreases n - i,
    {
        let ghost s = outcomes@;
        let ghost before = dist@;
        proof {
            lemma_count_step(s, i as int, is_answered());
        }
        proof {
            lemma_count_bound(s.take(i as int), has_status(0));
        }
        if outcomes[i].error.is_none() {
            match outcomes[i].status_code {
                Some(code) => {
                    let mut k: usize = 0;
                    while k < dist.len() && dist[k].0 != code
                        invariant
                            k <= dist.len(),
                            forall|j: int| 0 <= j < k ==> dist@[j].0 != code,
                        decreases dist.len() - k,
                    {
                        k = k + 1;
                    }
                    proof {
                        lemma_count_step(s, i as int, has_status(code));
                        lemma_count_bound(s.take(i as int), has_status(code));
                    }
                    if k < dist.len() {
                        let c = dist[k].1;
                        dist.set(k, (code, c + 1));
                        proof {
                            lemma_dist_total_update(before, k as int, (code, (c + 1) as u64));
                        }
                    } else {
                        proof {
                            if count_matching(s.take(i as int), has_status(code)) > 0 {
                                lemma_count_positive(s.take(i as int), has_status(code));
                                let x = choose|x: int|
                                    0 <= x < i && has_status(code)(s.take(i as int)[x]);
                                assert(s.take(i as int)[x].error is None);
                                let j = choose|j: int|
                                    0 <= j < before.len() && before[j].0 == s.take(
                                        i as int,
                                    )[x].status_code->0;
                                assert(dist@[j].0 != code);
                            }
                        }
                        dist.push((code, 1));
                        proof {
                            lemma_dist_total_push(before, (code, 1u64));
                        }
                    }
                    proof {
                        assert forall|j: int| 0 <= j < dist.len() implies (#[trigger] dist@[j]).1
                            == count_matching(s.take(i + 1), has_status(dist@[j].0)) && dist@[j].1
                            > 0 by {
                            lemma_count_step(s, i as int, has_status(dist@[j].0));
                            if j < before.len() && j != k {
                                assert(dist@[j] == before[j]);
                            }
                        }
                        assert forall|x: int|
                            0 <= x < i + 1 && (#[trigger] s.take(i + 1)[x]).error is None
                                && s.take(i + 1)[x].status_code is Some implies exists|j: int|
                            0 <= j < dist.len() && dist@[j].0 == s.take(i + 1)[x].status_code->0 by {
                            if x < i {
                                assert(s.take(i + 1)[x] == s.take(i as int)[x]);
                                let j = choose|j: int|
                                    0 <= j < before.len() && before[j].0 == s.take(
                                        i as int,
                                    )[x].status_code->0;
                                assert(dist@[j].0 == before[j].0);
                            } else {
                                assert(dist@[k as int].0 == code);
                            }
                        }
                    }
                },
                None => {
                    proof {
                        assert forall|j: int| 0 <= j < dist.len() implies (#[trigger] dist@[j]).1
                            == count_matching(s.take(i + 1), has_status(dist@[j].0)) by {
                            lemma_count_step(s, i as int, has_status(dist@[j].0));
                        }
                        assert forall|x: int|
                            0 <= x < i + 1 && (#[trigger] s.take(i + 1)[x]).error is None
                                && s.take(i + 1)[x].status_code is Some implies exists|j: int|
                            0 <= j < dist.len() && dist@[j].0 == s.take(i + 1)[x].status_code->0 by {
                            assert(s.take(i + 1)[x] == s.take(i as int)[x]);
                        }
                    }
                },
            }
        } else {
            proof {
                assert forall|j: int| 0 <= j < dist.len() implies (#[trigger] dist@[j]).1
                    == count_matching(s.take(i + 1), has_status(dist@[j].0)) by {
                    lemma_count_step(s, i as int, has_status(dist@[j].0));
                }
                assert forall|x: int|
                    0 <= x < i + 1 && (#[trigger] s.take(i + 1)[x]).error is None && s.take(
                        i + 1,
                    )[x].status_code is Some implies exists|j: int|
                    0 <= j < dist.len() && dist@[j].0 == s.take(i + 1)[x].status_code->0 by {
                    assert(s.take(i + 1)[x] == s.take(i as int)[x]);
                }
            }
        }
        i = i + 1;
    }
    proof {
        assert(outcomes@.take(n as int) =~= outcomes@);
    }
    dist
}

/// Counts failed requests per error kind.
pub fn error_distribution(outcomes: &Vec<RequestOutcome>) -> (dist: Vec<(String, u64)>)
    ensures
        is_error_distribution(outcomes@, dist@),
        dist_total(dist@) == count_matching(outcomes@, is_error()),
{
    let mut dist: Vec<(String, u64)> = Vec::new();
    let n = outcomes.len();
    let mut i: usize = 0;
    while i < n
        invariant
            n == outcomes.len(),
            i <= n,
            is_error_distribution(outcomes@.take(i as int), dist@),
            dist_total(dist@) == count_matching(outcomes@.take(i as int), is_error()),
        decreases n - i,
    {
        let ghost s = outcomes@;
        let ghost before = dist@;
        proof {
            lemma_count_step(s, i as int, is_error());
        }
        match &outcomes[i].error {
            Some(err) => {
                let mut k: usize = 0;
                while k < dist.len() && !(dist[k].0 == *err)
                    invariant
                        k <= dist.len(),
                        forall|j: int| 0 <= j < k ==> dist@[j].0@ != err@,
                    decreases dist.len() - k,
                {
                    k = k + 1;
                }
                proof {
                    lemma_count_step(s, i as int, has_error(err@));
                    lemma_count_bound(s.take(i as int), has_error(err@));
                }
                if k < dist.len() {
                    let c = dist[k].1;
                    let key = dist[k].0.clone();
                    dist.set(k, (key, c + 1));
                    proof {
                        lemma_dist_total_update(before, k as int, (key, (c + 1) as u64));
                    }
                } else {
                    proof {
                        if count_matching(s.take(i as int), has_error(err@)) > 0 {
                            lemma_count_positive(s.take(i as int), has_error(err@));
                            let x = choose|x: int|
                                0 <= x < i && has_error(err@)(s.take(i as int)[x]);
                            assert(s.take(i as int)[x].error is Some);
                            let j = choose|j: int|
                                0 <= j < before.len() && before[j].0@ == s.take(
                                    i as int,
                                )[x].error->0@;
                            assert(dist@[j].0@ != err@);
                        }
                    }
                    let key = err.clone();
                    dist.push((key, 1));
                    proof {
                        lemma_dist_total_push(before, (key, 1u64));
                    }
                }
                proof {
                    assert forall|j: int| 0 <= j < dist.len() implies (#[trigger] dist@[j]).1
                        == count_matching(s.take(i + 1), has_error(dist@[j].0@)) && dist@[j].1
                        > 0 by {
                        lemma_count_step(s, i as int, has_error(dist@[j].0@));
                        if j < before.len() && j != k {
                            assert(dist@[j] == before[j]);
                        }
                    }
                    assert forall|x: int|
                        0 <= x < i + 1 && (#[trigger] s.take(i + 1)[x]).error is Some implies exists|
                        j: int,
                    |
                        0 <= j < dist.len() && dist@[j].0@ == s.take(i + 1)[x].error->0@ by {
                        if x < i {
                            assert(s.take(i + 1)[x] == s.take(i as int)[x]);
                            let j = choose|j: int|
                                0 <= j < before.len() && before[j].0@ == s.take(
                                    i as int,
                                )[x].error->0@;
                            assert(dist@[j].0@ == before[j].0@);
                        } else {
                            assert(dist@[k as int].0@ == err@);
                        }
                    }
                    assert forall|a: int, b: int| 0 <= a < b < dist.len() implies dist@[a].0@
                        != dist@[b].0@ by {
                        if b == k as int && k < before.len() {
                            assert(dist@[b].0@ == before[b].0@);
                        }
                    }
                }
            },
            None => {
                proof {
                    assert forall|j: int| 0 <= j < dist.len() implies (#[trigger] dist@[j]).1
                        == count_matching(s.take(i + 1), has_error(dist@[j].0@)) by {
                        lemma_count_step(s, i as int, has_error(dist@[j].0@));
                    }
                    assert forall|x: int|
                        0 <= x < i + 1 && (#[trigger] s.take(i + 1)[x]).error is Some implies exists|
                        j: int,
                    |
                        0 <= j < dist.len() && dist@[j].0@ == s.take(i + 1)[x].error->0@ by {
                        assert(s.take(i + 1)[x] == s.take(i as int)[x]);
                    }
                }
            },
        }
        i = i + 1;
    }
    proof {
        assert(outcomes@.take(n as int) =~= outcomes@);
    }
    dist
}

/// Counts of successful responses (2xx), failed responses (4xx and 5xx)
/// and transport errors. Other statuses count in none of them.
pub fn class_counts(outcomes: &Vec<RequestOutcome>) -> (res: (u64, u64, u64))
    ensures
        res.0 == count_matching(outcomes@, is_success()),
        res.1 == count_matching(outcomes@, is_failure()),
        res.2 == count_matching(outcomes@, is_error()),
{
    let mut ok: u64 = 0;
    let mut fail: u64 = 0;
    let mut err: u64 = 0;
    let n = outcomes.len();
    let mut i: usize = 0;
    while i < n
        invariant
            n == outcomes.len(),
            i <= n,
            ok == count_matching(outcomes@.take(i as int), is_success()),
            fail == count_matching(outcomes@.take(i as int), is_failure()),
            err == count_matching(outcomes@.take(i as int), is_error()),
        decreases n - i,
    {
        proof {
            lemma_count_step(outcomes@, i as int, is_success());
            lemma_count_step(outcomes@, i as int, is_failure());
            lemma_count_step(outcomes@, i as int, is_error());
            lemma_count_bound(outcomes@.take(i as int), is_success());
            lemma_count_bound(outcomes@.take(i as int), is_failure());
            lemma_count_bound(outcomes@.take(i as int), is_error());
        }
        if outcomes[i].error.is_some() {
            err = err + 1;
        } else {
            match outcomes[i].status_code {
                Some(code) => {
                    if 200 <= code && code < 300 {
                        ok = ok + 1;
                    } else if 400 <= code && code < 600 {
                        fail = fail + 1;
                    }
                },
                None => {},
            }
        }
        i = i + 1;
    }
    proof {
        assert(outcomes@.take(n as int) =~= outcomes@);
    }
    (ok, fail, err)
}

/// `timeline` has one entry per second from 0 to the last second in which a
/// request was issued (just second 0 when there were none), each holding
/// the number of requests issued in that second.
pub open spec fn is_timeline(outcomes: Seq<RequestOutcome>, timeline: Seq<(u64, u64)>) -> bool {
    &&& timeline.len() >= 1
    &&& outcomes.len() == 0 ==> timeline.len() == 1
    &&& forall|i: int| 0 <= i < outcomes.len() ==> (#[trigger] outcomes[i]).offset_ms / 1000 < timeline.len()
    &&& outcomes.len() > 0 ==> exists|i: int|
        0 <= i < outcomes.len() && (#[trigger] outcomes[i]).offset_ms / 1000 == timeline.len() - 1
    &&& forall|b: int|
        0 <= b < timeline.len() ==> (#[trigger] timeline[b]).0 == b && timeline[b].1 == count_matching(
            outcomes,
            in_second(b as u64),
        )
}

/// Requests issued per second of the run, gaps filled with zero.
pub fn timeline(outcomes: &Vec<RequestOutcome>) -> (t: Vec<(u64, u64)>)
    requires
        forall|i: int| 0 <= i < outcomes.len() ==> (#[trigger] outcomes@[i]).offset_ms / 1000 < usize::MAX,
    ensures
        is_timeline(outcomes@, t@),
        dist_total(t@) == outcomes.len(),
{
    let n = outcomes.len();
    let mut max_bucket: u64 = 0;
    let mut i: usize = 0;
    while i < n
        invariant
            n == outcomes.len(),
            i <= n,
            forall|j: int| 0 <= j < i ==> (#[trigger] outcomes@[j]).offset_ms / 1000 <= max_bucket,
            i > 0 ==> exists|j: int| 0 <= j < i && (#[trigger] outcomes@[j]).offset_ms / 1000 == max_bucket,
            i == 0 ==> max_bucket == 0,
            forall|j: int| 0 <= j < n ==> (#[trigger] outcomes@[j]).offset_ms / 1000 < usize::MAX,
        decreases n - i,
    {
        let b = outcomes[i].offset_ms / 1000;
        if i == 0 || b > max_bucket {
            max_bucket = b;
        }
        i = i + 1;
    }
    proof {
        if n > 0 {
            let j = choose|j: int| 0 <= j < n && (#[trigger] outcomes@[j]).offset_ms / 1000 == max_bucket;
            assert(max_bucket < usize::MAX);
        }
    }
    let len: usize = max_bucket as usize + 1;
    let mut t: Vec<(u64, u64)> = Vec::new();
    let mut b: usize = 0;
    while b < len
        invariant
            b <= len,
            len == max_bucket + 1,
            t.len() == b,
            forall|x: int| 0 <= x < b ==> (#[trigger] t@[x]) == (x as u64, 0u64),
            dist_total(t@) == 0,
        decreases len - b,
    {
        proof {
            lemma_dist_total_push(t@, (b as u64, 0u64));
        }
        t.push((b as u64, 0));
        b = b + 1;
    }
    let mut i: usize = 0;
    while i < n
        invariant
            n == outcomes.len(),
            i <= n,
            t.len() == len == max_bucket + 1,
            forall|j: int| 0 <= j < n ==> (#[trigger] outcomes@[j]).offset_ms / 1000 <= max_bucket,
            forall|x: int|
                0 <= x < t.len() ==> (#[trigger] t@[x]).0 == x && t@[x].1 == count_matching(
                    outcomes@.take(i as int),
                    in_second(x as u64),
                ),
            dist_total(t@) == i,
        decreases n - i,
    {
        let bk = (outcomes[i].offset_ms / 1000) as usize;
        proof {
            lemma_count_bound(outcomes@.take(i as int), in_second(bk as u64));
            assert forall|x: int| 0 <= x < t.len() implies #[trigger] count_matching(
                outcomes@.take(i + 1),
                in_second(x as u64),
            ) == count_matching(outcomes@.take(i as int), in_second(x as u64)) + if x == bk {
                1nat
            } else {
                0nat
            } by {
                lemma_count_step(outcomes@, i as int, in_second(x as u64));
            }
        }
        let c = t[bk].1;
        proof {
            lemma_dist_total_update(t@, bk as int, (bk as u64, (c + 1) as u64));
        }
        t.set(bk, (bk as u64, c + 1));
        i = i + 1;
    }
    proof {
        assert(outcomes@.take(n as int) =~= outcomes@);
    }
    t
}

/// The smallest and largest latency (both 0 when there are no outcomes) and
/// the sum of all latencies.
pub fn latency_extremes(outcomes: &Vec<RequestOutcome>) -> (res: (u64, u64, u128))
    ensures
        outcomes.len() == 0 ==> res.0 == 0 && res.1 == 0,
        forall|i: int| 0 <= i < outcomes.len() ==> res.0 <= (#[trigger] outcomes@[i]).latency_us <= res.1,
        outcomes.len() > 0 ==> exists|i: int| 0 <= i < outcomes.len() && (#[trigger] outcomes@[i]).latency_us == res.0,
        outcomes.len() > 0 ==> exists|i: int| 0 <= i < outcomes.len() && (#[trigger] outcomes@[i]).latency_us == res.1,
        res.2 == latency_sum(outcomes@),
{
    let n = outcomes.len();
    if n == 0 {
        return (0, 0, 0);
    }
    let mut lo: u64 = outcomes[0].latency_us;
    let mut hi: u64 = outcomes[0].latency_us;
    let mut sum: u128 = 0;
    let mut i: usize = 0;
    while i < n
        invariant
            n == outcomes.len() > 0,
            i <= n,
            forall|j: int| 0 <= j < i ==> lo <= (#[trigger] outcomes@[j]).latency_us <= hi,
            exists|j: int| 0 <= j < n && (#[trigger] outcomes@[j]).latency_us == lo,
            exists|j: int| 0 <= j < n && (#[trigger] outcomes@[j]).latency_us == hi,
            sum == latency_sum(outcomes@.take(i as int)),
            sum <= i * 0xFFFF_FFFF_FFFF_FFFFu128,
        decreases n - i,
    {
        let l = outcomes[i].latency_us;
        if l < lo {
            lo = l;
        }
        if l > hi {
            hi = l;
        }
        proof {
            let t = outcomes@.take(i + 1);
            assert(t.drop_last() =~= outcomes@.take(i as int));
            assert(i * 0xFFFF_FFFF_FFFF_FFFFu128 + 0xFFFF_FFFF_FFFF_FFFFu128 == (i + 1) * 0xFFFF_FFFF_FFFF_FFFFu128) by (nonlinear_arith);
            assert((i + 1) * 0xFFFF_FFFF_FFFF_FFFFu128 <= 0xFFFF_FFFF_FFFF_FFFF * 0xFFFF_FFFF_FFFF_FFFFu128) by (nonlinear_arith)
                requires i + 1 <= 0xFFFF_FFFF_FFFF_FFFF;
        }
        sum = sum + l as u128;
        i = i + 1;
    }
    proof {
        assert(outcomes@.take(n as int) =~= outcomes@);
    }
    (lo, hi, sum)
}

/// The sum of the latencies.
pub open spec fn latency_sum(s: Seq<RequestOutcome>) -> nat
    decreases s.len(),
{
    if s.len() == 0 {
        0
    } else {
        latency_sum(s.drop_last()) + s.last().latency_us as nat
    }
}

// ── Latency histogram ────────────────────────────────────────────────────────

/// An HDR histogram of latencies in microseconds, opaque to the proofs:
/// `histogram_values` and `histogram_setup` say what it holds, and the
/// wrappers below are the only operations on it here. The field is public
/// for reading quantiles, whose argument is a floating-point fraction.
#[verifier::external_body]
pub struct LatencyHistogram {
    pub histogram: Histogram<u64>,
}

#[verifier::external_type_specification]
#[verifier::external_body]
pub struct ExCreationError(CreationError);

#[verifier::external_type_specification]
#[verifier::external_body]
pub struct ExRecordError(RecordError);

/// The values recorded in a histogram so far.
pub uninterp spec fn histogram_values(h: LatencyHistogram) -> Multiset<u64>;

/// What a histogram was created with: lowest discernible value, highest
/// trackable value, significant figures, and whether it grows on demand.
pub uninterp spec fn histogram_setup(h: LatencyHistogram) -> (u64, u64, u8, bool);

/// What `Histogram::count_between` returns for a histogram created with
/// `setup` holding `values`, over the range `low..=high` (widened to the
/// histogram's bucket resolution).
pub uninterp spec fn histogram_count_between(
    setup: (u64, u64, u8, bool),
    values: Multiset<u64>,
    low: u64,
    high: u64,
) -> u64;

/// Calls `Histogram::new_with_max`. Claimed, from its source: the call
/// succeeds exactly when `high >= 2` and `sigfig <= 5` (the lowest
/// discernible value is 1); a new histogram holds no values and does not grow.
#[verifier::external_body]
fn histogram_with_max(high: u64, sigfig: u8) -> (res: Result<LatencyHistogram, CreationError>)
    ensures
        res is Ok <==> (high >= 2 && sigfig <= 5),
        res is Ok ==> histogram_values(res->Ok_0) =~= Multiset::empty(),
        res is Ok ==> histogram_setup(res->Ok_0) == (1u64, high, sigfig, false),
{
    Histogram::new_with_max(high, sigfig).map(|histogram| LatencyHistogram { histogram })
}

/// Calls `Histogram::new`. Claimed, from its source: the call succeeds
/// exactly when `sigfig <= 5`; a new histogram holds no values, starts with
/// bounds 1 and 2, and grows on demand.
#[verifier::external_body]
fn histogram_auto(sigfig: u8) -> (res: Result<LatencyHistogram, CreationError>)
    ensures
        res is Ok <==> sigfig <= 5,
        res is Ok ==> histogram_values(res->Ok_0) =~= Multiset::empty(),
        res is Ok ==> histogram_setup(res->Ok_0) == (1u64, 2u64, sigfig, true),
{
    Histogram::new(sigfig).map(|histogram| LatencyHistogram { histogram })
}

/// Calls `Histogram::record`. Claimed, from its source and documentation: on
/// success the value is added, on failure nothing changes, and a value up to
/// the highest trackable value of a histogram that does not grow is always
/// recorded. Whether a growing histogram can take a huge value is not stated.
#[verifier::external_body]
fn histogram_record(h: &mut LatencyHistogram, value: u64) -> (res: Result<(), RecordError>)
    ensures
        histogram_setup(*final(h)) == histogram_setup(*old(h)),
        res is Ok ==> histogram_values(*final(h)) == histogram_values(*old(h)).insert(value),
        res is Err ==> histogram_values(*final(h)) == histogram_values(*old(h)),
        !histogram_setup(*old(h)).3 && value <= histogram_setup(*old(h)).1 ==> res is Ok,
{
    h.histogram.record(value)
}

/// Calls `Histogram::count_between`. Claimed, from its documentation: the
/// result counts the recorded values within `low..=high` widened to the
/// histogram's resolution, saturating at `u64::MAX`; so it is at most the
/// number of recorded values, and positive when a recorded value lies in
/// `low..=high`. The exact count is left to the name.
#[verifier::external_body]
fn histogram_count(h: &LatencyHistogram, low: u64, high: u64) -> (c: u64)
    ensures
        c == histogram_count_between(histogram_setup(*h), histogram_values(*h), low, high),
        c <= histogram_values(*h).len(),
        forall|v: u64|
            #[trigger] histogram_values(*h).count(v) > 0 && low <= v && v <= high ==> c > 0,
{
    h.histogram.count_between(low, high)
}

/// Latencies above this many microseconds are recorded as this value.
pub const LATENCY_CAP_US: u64 = 60_000_000;

/// The latencies of the outcomes, capped at `LATENCY_CAP_US`, as a multiset.
pub open spec fn capped_latencies(s: Seq<RequestOutcome>) -> Multiset<u64>
    decreases s.len(),
{
    if s.len() == 0 {
        Multiset::empty()
    } else {
        capped_latencies(s.drop_last()).insert(
            if s.last().latency_us <= LATENCY_CAP_US {
                s.last().latency_us
            } else {
                LATENCY_CAP_US
            },
        )
    }
}

proof fn lemma_capped_len(s: Seq<RequestOutcome>)
    ensures
        capped_latencies(s).len() == s.len(),
    decreases s.len(),
{
    broadcast use vstd::multiset::group_multiset_axioms;

    if s.len() > 0 {
        lemma_capped_len(s.drop_last());
    }
}

/// The setup of the latency histogram: values 1 to 60 s in microseconds, three
/// significant figures, fixed size.
pub open spec fn latency_setup() -> (u64, u64, u8, bool) {
    (1u64, LATENCY_CAP_US, 3u8, false)
}

/// Records every outcome's latency, capped at 60 s, in a fixed-size histogram
/// with three significant figures.
pub fn latency_histogram(outcomes: &Vec<RequestOutcome>) -> (h: LatencyHistogram)
    ensures
        histogram_setup(h) == latency_setup(),
        histogram_values(h) == capped_latencies(outcomes@),
{
    let mut h = match histogram_with_max(LATENCY_CAP_US, 3) {
        Ok(h) => h,
        Err(_) => histogram_auto(3).unwrap(),
    };
    let n = outcomes.len();
    let mut i: usize = 0;
    proof {
        assert(outcomes@.take(0) =~= Seq::<RequestOutcome>::empty());
    }
    while i < n
        invariant
            n == outcomes.len(),
            i <= n,
            histogram_setup(h) == latency_setup(),
            histogram_values(h) == capped_latencies(outcomes@.take(i as int)),
        decreases n - i,
    {
        let l = outcomes[i].latency_us;
        let capped = if l <= LATENCY_CAP_US {
            l
        } else {
            LATENCY_CAP_US
        };
        let r = histogram_record(&mut h, capped);
        proof {
            let t = outcomes@.take(i + 1);
            assert(t.drop_last() =~= outcomes@.take(i as int));
            assert(t.last() == outcomes@[i as int]);
        }
        i = i + 1;
    }
    proof {
        assert(outcomes@.take(n as int) =~= outcomes@);
    }
    h
}

/// Upper bound in microseconds of latency bucket `i` (0 ≤ i < 14).
pub open spec fn bucket_bound(i: int) -> u64 {
    if i == 0 {
        500
    } else if i == 1 {
        1_000
    } else if i == 2 {
        2_000
    } else if i == 3 {
        5_000
    } else if i == 4 {
        10_000
    } else if i == 5 {
        25_000
    } else if i == 6 {
        50_000
    } else if i == 7 {
        100_000
    } else if i == 8 {
        250_000
    } else if i == 9 {
        500_000
    } else if i == 10 {
        1_000_000
    } else if i == 11 {
        2_500_000
    } else if i == 12 {
        5_000_000
    } else {
        10_000_000
    }
}

/// Number of latency buckets before the overflow bucket.
pub const BUCKET_COUNT: usize = 14;

/// Lower bound in microseconds of latency bucket `i`.
pub open spec fn bucket_floor(i: int) -> u64 {
    if i == 0 {
        0
    } else {
        (bucket_bound(i - 1) + 1) as u64
    }
}

/// Label of latency bucket `i`: "≤" and the bound in µs, ms or s.
pub open spec fn bucket_label(i: int) -> Seq<char> {
    let b = bucket_bound(i);
    if b < 1_000 {
        seq!['\u{2264}'] + decimal(b as nat) + seq!['\u{b5}', 's']
    } else if b < 1_000_000 {
        seq!['\u{2264}'] + decimal((b / 1_000) as nat) + seq!['m', 's']
    } else {
        seq!['\u{2264}'] + decimal((b / 1_000_000) as nat) + seq!['s']
    }
}

/// Label of the overflow bucket.
pub open spec fn overflow_label() -> Seq<char> {
    seq!['>', '1', '0', 's']
}

/// Index of the first non-zero count (`counts.len()` when all are zero).
pub open spec fn first_nonzero(counts: Seq<u64>) -> int
    decreases counts.len(),
{
    if counts.len() == 0 {
        0
    } else if counts[0] > 0 {
        0
    } else {
        1 + first_nonzero(counts.drop_first())
    }
}

/// The latency chart: buckets from the first non-empty one on, then the
/// overflow bucket when it is non-empty.
pub open spec fn latency_chart(counts: Seq<u64>, overflow: u64) -> Seq<(Seq<char>, u64)> {
    let f = first_nonzero(counts);
    Seq::new((counts.len() - f) as nat, |k: int| (bucket_label(f + k), counts[f + k])) + if overflow > 0 {
        seq![(overflow_label(), overflow)]
    } else {
        Seq::empty()
    }
}

/// The count of each bucket of a histogram, as `count_between` gives it.
pub open spec fn bucket_counts(setup: (u64, u64, u8, bool), values: Multiset<u64>) -> Seq<u64> {
    Seq::new(
        BUCKET_COUNT as nat,
        |i: int| histogram_count_between(setup, values, bucket_floor(i), bucket_bound(i)),
    )
}

/// The count of the overflow bucket (above 10 s).
pub open spec fn overflow_count(setup: (u64, u64, u8, bool), values: Multiset<u64>) -> u64 {
    histogram_count_between(setup, values, 10_000_001, u64::MAX)
}

fn bound_at(i: usize) -> (b: u64)
    requires
        i < BUCKET_COUNT,
    ensures
        b == bucket_bound(i as int),
{
    if i == 0 {
        500
    } else if i == 1 {
        1_000
    } else if i == 2 {
        2_000
    } else if i == 3 {
        5_000
    } else if i == 4 {
        10_000
    } else if i == 5 {
        25_000
    } else if i == 6 {
        50_000
    } else if i == 7 {
        100_000
    } else if i == 8 {
        250_000
    } else if i == 9 {
        500_000
    } else if i == 10 {
        1_000_000
    } else if i == 11 {
        2_500_000
    } else if i == 12 {
        5_000_000
    } else {
        10_000_000
    }
}

fn append_str(out: &mut String, s: &String)
    ensures
        final(out)@ == old(out)@ + s@,
{
    out.append(s.as_str());
}

fn label_for(i: usize) -> (l: String)
    requires
        i < BUCKET_COUNT,
    ensures
        l@ == bucket_label(i as int),
{
    let b = bound_at(i);
    let mut l = String::new();
    push_char(&mut l, '\u{2264}');
    if b < 1_000 {
        let d = decimal_string(b);
        append_str(&mut l, &d);
        push_char(&mut l, '\u{b5}');
        push_char(&mut l, 's');
        proof {
            assert(l@ =~= seq!['\u{2264}'] + decimal(b as nat) + seq!['\u{b5}', 's']);
        }
    } else if b < 1_000_000 {
        let d = decimal_string(b / 1_000);
        append_str(&mut l, &d);
        push_char(&mut l, 'm');
        push_char(&mut l, 's');
        proof {
            assert(l@ =~= seq!['\u{2264}'] + decimal((b / 1_000) as nat) + seq!['m', 's']);
        }
    } else {
        let d = decimal_string(b / 1_000_000);
        append_str(&mut l, &d);
        push_char(&mut l, 's');
        proof {
            assert(l@ =~= seq!['\u{2264}'] + decimal((b / 1_000_000) as nat) + seq!['s']);
        }
    }
    l
}

/// Views of labelled counts.
pub open spec fn labelled_view(v: Seq<(String, u64)>) -> Seq<(Seq<char>, u64)> {
    v.map_values(|p: (String, u64)| (p.0@, p.1))
}

proof fn lemma_first_nonzero(counts: Seq<u64>, f: int)
    requires
        0 <= f <= counts.len(),
        forall|j: int| 0 <= j < f ==> counts[j] == 0,
        f == counts.len() || counts[f] > 0,
    ensures
        first_nonzero(counts) == f,
    decreases f,
{
    if f > 0 {
        let t = counts.drop_first();
        assert forall|j: int| 0 <= j < f - 1 implies t[j] == 0 by {
            assert(t[j] == counts[j + 1]);
        }
        if f < counts.len() {
            assert(t[f - 1] == counts[f]);
        }
        lemma_first_nonzero(t, f - 1);
    }
}

/// The latency chart of a histogram: counts per bucket up to 10 s, starting
/// at the first non-empty bucket, and a final "> 10 s" bucket when non-empty.
pub fn build_latency_histogram(h: &LatencyHistogram) -> (chart: Vec<(String, u64)>)
    ensures
        labelled_view(chart@) == latency_chart(
            bucket_counts(histogram_setup(*h), histogram_values(*h)),
            overflow_count(histogram_setup(*h), histogram_values(*h)),
        ),
        chart@.len() == 0 <==> histogram_values(*h).len() == 0,
{
    let ghost counts = bucket_counts(histogram_setup(*h), histogram_values(*h));
    let ghost values = histogram_values(*h);
    let mut buckets: Vec<(String, u64)> = Vec::new();
    let mut prev: u64 = 0;
    let mut i: usize = 0;
    // `f` is the first bucket that was kept.
    let ghost mut f: int = 0;
    while i < BUCKET_COUNT
        invariant
            i <= BUCKET_COUNT,
            counts == bucket_counts(histogram_setup(*h), histogram_values(*h)),
            prev == bucket_floor(i as int),
            buckets.len() == 0 ==> forall|j: int| 0 <= j < i ==> counts[j] == 0,
            buckets.len() == 0 ==> f == i,
            buckets.len() > 0 ==> 0 <= f < i && counts[f] > 0 && forall|j: int| 0 <= j < f ==> counts[j] == 0,
            buckets.len() == i - f,
            forall|k: int| 0 <= k < buckets.len() ==> (#[trigger] buckets@[k]).0@ == bucket_label(f + k) && buckets@[k].1 == counts[f + k],
            values == histogram_values(*h),
            values.len() == 0 ==> buckets.len() == 0,
            forall|j: int, v: u64|
                0 <= j < i && #[trigger] values.count(v) > 0 && bucket_floor(j) <= v
                    && v <= bucket_bound(j) ==> #[trigger] counts[j] > 0,
        decreases BUCKET_COUNT - i,
    {
        let boundary = bound_at(i);
        let count = histogram_count(h, prev, boundary);
        if count > 0 || buckets.len() > 0 {
            let label = label_for(i);
            buckets.push((label, count));
        } else {
            proof {
                f = f + 1;
            }
        }
        prev = boundary + 1;
        i = i + 1;
    }
    let overflow = histogram_count(h, prev, u64::MAX);
    proof {
        if values.len() > 0 {
            vstd::multiset::lemma_multiset_empty_len(values);
            let v = values.choose();
            assert(values.count(v) > 0);
            if v <= 10_000_000 {
                let j = bucket_of(v);
                assert(counts[j] > 0);
            }
        }
        lemma_first_nonzero(counts, f);
        assert(labelled_view(buckets@) =~= Seq::new((counts.len() - f) as nat, |k: int| (bucket_label(f + k), counts[f + k])));
    }
    if overflow > 0 {
        let mut ol = String::new();
        push_char(&mut ol, '>');
        push_char(&mut ol, '1');
        push_char(&mut ol, '0');
        push_char(&mut ol, 's');
        let ghost before = buckets@;
        buckets.push((ol, overflow));
        proof {
            assert(ol@ =~= overflow_label());
            assert(labelled_view(buckets@) =~= labelled_view(before) + seq![(overflow_label(), overflow)]);
        }
    } else {
        proof {
            assert(labelled_view(buckets@) =~= labelled_view(buckets@) + Seq::<(Seq<char>, u64)>::empty());
        }
    }
    buckets
}

/// The bucket that holds a latency of at most 10 s.
proof fn bucket_of(v: u64) -> (j: int)
    requires
        v <= 10_000_000,
    ensures
        0 <= j < BUCKET_COUNT,
        bucket_floor(j) <= v <= bucket_bound(j),
{
    if v <= 500 {
        0
    } else if v <= 1_000 {
        1
    } else if v <= 2_000 {
        2
    } else if v <= 5_000 {
        3
    } else if v <= 10_000 {
        4
    } else if v <= 25_000 {
        5
    } else if v <= 50_000 {
        6
    } else if v <= 100_000 {
        7
    } else if v <= 250_000 {
        8
    } else if v <= 500_000 {
        9
    } else if v <= 1_000_000 {
        10
    } else if v <= 2_500_000 {
        11
    } else if v <= 5_000_000 {
        12
    } else {
        13
    }
}

/// The latency chart's buckets: fourteen up to 10 s, bounded at 0.5, 1, 2,
/// 5, 10, 25, 50, 100, 250 and 500 ms and 1, 2.5, 5 and 10 s. Each counts
/// the latencies (in µs) from just above the previous bound up to its own,
/// and is labelled with its bound in µs below 1 ms, else in whole ms below
/// 1 s, else in whole seconds (rounded down); the overflow bucket counts
/// everything above 10 s.
pub proof fn law_latency_buckets(setup: (u64, u64, u8, bool), values: Multiset<u64>)
    ensures
        bucket_counts(setup, values).len() == 14,
        bucket_counts(setup, values)[0] == histogram_count_between(setup, values, 0, 500),
        bucket_counts(setup, values)[1] == histogram_count_between(setup, values, 501, 1000),
        bucket_counts(setup, values)[2] == histogram_count_between(setup, values, 1001, 2000),
        bucket_counts(setup, values)[3] == histogram_count_between(setup, values, 2001, 5000),
        bucket_counts(setup, values)[4] == histogram_count_between(setup, values, 5001, 10000),
        bucket_counts(setup, values)[5] == histogram_count_between(setup, values, 10001, 25000),
        bucket_counts(setup, values)[6] == histogram_count_between(setup, values, 25001, 50000),
        bucket_counts(setup, values)[7] == histogram_count_between(setup, values, 50001, 100000),
        bucket_counts(setup, values)[8] == histogram_count_between(setup, values, 100001, 250000),
        bucket_counts(setup, values)[9] == histogram_count_between(setup, values, 250001, 500000),
        bucket_counts(setup, values)[10] == histogram_count_between(setup, values, 500001, 1000000),
        bucket_counts(setup, values)[11] == histogram_count_between(setup, values, 1000001, 2500000),
        bucket_counts(setup, values)[12] == histogram_count_between(setup, values, 2500001, 5000000),
        bucket_counts(setup, values)[13] == histogram_count_between(setup, values, 5000001, 10000000),
        bucket_label(0) == seq!['\u{2264}', '5', '0', '0', '\u{b5}', 's'],
        bucket_label(1) == seq!['\u{2264}', '1', 'm', 's'],
        bucket_label(2) == seq!['\u{2264}', '2', 'm', 's'],
        bucket_label(3) == seq!['\u{2264}', '5', 'm', 's'],
        bucket_label(4) == seq!['\u{2264}', '1', '0', 'm', 's'],
        bucket_label(5) == seq!['\u{2264}', '2', '5', 'm', 's'],
        bucket_label(6) == seq!['\u{2264}', '5', '0', 'm', 's'],
        bucket_label(7) == seq!['\u{2264}', '1', '0', '0', 'm', 's'],
        bucket_label(8) == seq!['\u{2264}', '2', '5', '0', 'm', 's'],
        bucket_label(9) == seq!['\u{2264}', '5', '0', '0', 'm', 's'],
        bucket_label(10) == seq!['\u{2264}', '1', 's'],
        bucket_label(11) == seq!['\u{2264}', '2', 's'],
        bucket_label(12) == seq!['\u{2264}', '5', 's'],
        bucket_label(13) == seq!['\u{2264}', '1', '0', 's'],
        overflow_count(setup, values) == histogram_count_between(setup, values, 10_000_001, u64::MAX),
{
    assert(digit_char(0) == '0');
    assert(digit_char(1) == '1');
    assert(digit_char(2) == '2');
    assert(digit_char(5) == '5');
    reveal_with_fuel(decimal, 4);
    assert(bucket_label(0) =~= seq!['\u{2264}', '5', '0', '0', '\u{b5}', 's']);
    assert(bucket_label(1) =~= seq!['\u{2264}', '1', 'm', 's']);
    assert(bucket_label(2) =~= seq!['\u{2264}', '2', 'm', 's']);
    assert(bucket_label(3) =~= seq!['\u{2264}', '5', 'm', 's']);
    assert(bucket_label(4) =~= seq!['\u{2264}', '1', '0', 'm', 's']);
    assert(bucket_label(5) =~= seq!['\u{2264}', '2', '5', 'm', 's']);
    assert(bucket_label(6) =~= seq!['\u{2264}', '5', '0', 'm', 's']);
    assert(bucket_label(7) =~= seq!['\u{2264}', '1', '0', '0', 'm', 's']);
    assert(bucket_label(8) =~= seq!['\u{2264}', '2', '5', '0', 'm', 's']);
    assert(bucket_label(9) =~= seq!['\u{2264}', '5', '0', '0', 'm', 's']);
    assert(bucket_label(10) =~= seq!['\u{2264}', '1', 's']);
    assert(bucket_label(11) =~= seq!['\u{2264}', '2', 's']);
    assert(bucket_label(12) =~= seq!['\u{2264}', '5', 's']);
    assert(bucket_label(13) =~= seq!['\u{2264}', '1', '0', 's']);
}

/// The latency chart never starts with an empty bucket.
pub proof fn law_latency_chart_starts_nonempty(counts: Seq<u64>, overflow: u64)
    ensures
        latency_chart(counts, overflow).len() > 0 ==> latency_chart(counts, overflow)[0].1 > 0,
{
    lemma_first_nonzero_bounds(counts);
    let f = first_nonzero(counts);
    let head = Seq::new((counts.len() - f) as nat, |k: int| (bucket_label(f + k), counts[f + k]));
    if f < counts.len() {
        assert(latency_chart(counts, overflow)[0] == head[0]);
    }
}

proof fn lemma_first_nonzero_bounds(counts: Seq<u64>)
    ensures
        0 <= first_nonzero(counts) <= counts.len(),
        first_nonzero(counts) < counts.len() ==> counts[first_nonzero(counts)] > 0,
    decreases counts.len(),
{
    if counts.len() > 0 && counts[0] == 0 {
        lemma_first_nonzero_bounds(counts.drop_first());
        let f = first_nonzero(counts.drop_first());
        if f < counts.drop_first().len() {
            assert(counts.drop_first()[f] == counts[f + 1]);
        }
    }
}

// ── Aggregated statistics of one step ───────────────────────────────────────

/// The exact statistics of one step over all its outcomes. Rates, means,
/// standard deviation and percentiles derive from these with floating point.
pub struct StepStats {
    pub total_requests: u64,
    pub successful_requests: u64,
    pub failed_requests: u64,
    pub error_requests: u64,
    /// Smallest latency in microseconds (0 without outcomes).
    pub latency_min_us: u64,
    /// Largest latency in microseconds (0 without outcomes).
    pub latency_max_us: u64,
    /// Sum of all latencies in microseconds.
    pub latency_sum_us: u128,
    /// Status code and count, once per status that occurred.
    pub status_distribution: Vec<(u16, u64)>,
    /// Error kind and count, once per kind that occurred.
    pub error_distribution: Vec<(String, u64)>,
    /// (second, requests issued in that second), from second 0 on.
    pub timeline: Vec<(u64, u64)>,
    /// Every latency, capped at 60 s.
    pub histogram: LatencyHistogram,
    /// Latency chart: bucket label and count.
    pub latency_histogram: Vec<(String, u64)>,
}

/// The outcomes on which statistics are defined: their timeline fits in memory.
pub open spec fn outcomes_fit(outcomes: Seq<RequestOutcome>) -> bool {
    forall|i: int| 0 <= i < outcomes.len() ==> (#[trigger] outcomes[i]).offset_ms / 1000 < usize::MAX
}

impl StepStats {
    /// Aggregates the outcomes of one step.
    pub fn from_outcomes(outcomes: &Vec<RequestOutcome>) -> (r: StepStats)
        requires
            outcomes_fit(outcomes@),
        ensures
            r.total_requests == outcomes.len(),
            r.successful_requests == count_matching(outcomes@, is_success()),
            r.failed_requests == count_matching(outcomes@, is_failure()),
            r.error_requests == count_matching(outcomes@, is_error()),
            r.successful_requests + r.failed_requests + r.error_requests <= r.total_requests,
            outcomes.len() == 0 ==> r.latency_min_us == 0 && r.latency_max_us == 0,
            forall|i: int|
                0 <= i < outcomes.len() ==> r.latency_min_us <= (#[trigger] outcomes@[i]).latency_us
                    <= r.latency_max_us,
            outcomes.len() > 0 ==> exists|i: int|
                0 <= i < outcomes.len() && (#[trigger] outcomes@[i]).latency_us == r.latency_min_us,
            outcomes.len() > 0 ==> exists|i: int|
                0 <= i < outcomes.len() && (#[trigger] outcomes@[i]).latency_us == r.latency_max_us,
            r.latency_sum_us == latency_sum(outcomes@),
            is_status_distribution(outcomes@, r.status_distribution@),
            dist_total(r.status_distribution@) == count_matching(outcomes@, is_answered()),
            r.successful_requests + r.failed_requests <= dist_total(r.status_distribution@),
            dist_total(r.status_distribution@) + r.error_requests <= r.total_requests,
            is_error_distribution(outcomes@, r.error_distribution@),
            dist_total(r.error_distribution@) == r.error_requests,
            is_timeline(outcomes@, r.timeline@),
            dist_total(r.timeline@) == r.total_requests,
            histogram_setup(r.histogram) == latency_setup(),
            histogram_values(r.histogram) == capped_latencies(outcomes@),
            r.latency_histogram@.len() == 0 <==> outcomes.len() == 0,
            labelled_view(r.latency_histogram@) == latency_chart(
                bucket_counts(latency_setup(), capped_latencies(outcomes@)),
                overflow_count(latency_setup(), capped_latencies(outcomes@)),
            ),
    {
        let (ok, fail, err) = class_counts(outcomes);
        let (lo, hi, sum) = latency_extremes(outcomes);
        let status = status_distribution(outcomes);
        let errors = error_distribution(outcomes);
        let tl = timeline(outcomes);
        let hist = latency_histogram(outcomes);
        let chart = build_latency_histogram(&hist);
        proof {
            lemma_answered_split(outcomes@);
            lemma_capped_len(outcomes@);
        }
        StepStats {
            total_requests: outcomes.len() as u64,
            successful_requests: ok,
            failed_requests: fail,
            error_requests: err,
            latency_min_us: lo,
            latency_max_us: hi,
            latency_sum_us: sum,
            status_distribution: status,
            error_distribution: errors,
            timeline: tl,
            histogram: hist,
            latency_histogram: chart,
        }
    }
}

} // verus!
