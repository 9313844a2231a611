//! Decisions of the benchmark runner: how iterations are shared among
//! workers, where outcomes are filed, how they are handed back per leaf, and
//! how transport errors are named.

use vstd::prelude::*;
use vstd::string::*;
use crate::stats::RequestOutcome;

verus! {

// ── Sharing iterations among workers ─────────────────────────────────────────

/// Iterations per worker: the total divided by the number of workers, rounded up.
pub open spec fn chunk_size(total: u64, workers: usize) -> int {
    (total + workers - 1) / (workers as int)
}

/// Iterations of worker `i`: its slice `[i·chunk, (i+1)·chunk)` clipped to the total.
pub open spec fn worker_share(total: u64, workers: usize, i: int) -> int {
    let chunk = chunk_size(total, workers);
    let start = i * chunk;
    let end = if start + chunk < total {
        start + chunk
    } else {
        total as int
    };
    if end > start {
        end - start
    } else {
        0
    }
}

/// The sum of the first `k` values of `v`.
pub open spec fn sum_first(v: Seq<u64>, k: int) -> int
    decreases k,
{
    if k <= 0 {
        0
    } else {
        sum_first(v, k - 1) + v[k - 1]
    }
}

proof fn lemma_chunk_covers(total: u64, workers: usize)
    requires
        workers >= 1,
    ensures
        chunk_size(total, workers) >= 0,
        chunk_size(total, workers) * workers >= total,
        chunk_size(total, workers) * workers <= total + workers - 1,
{
    let c = workers as int;
    let t = total + c - 1;
    let q = t / c;
    assert(q * c <= t && t < q * c + c && q >= 0) by (nonlinear_arith)
        requires
            c >= 1,
            t >= 0,
            q == t / c,
    ;
}

proof fn lemma_shares_prefix(total: u64, workers: usize, k: int)
    requires
        workers >= 1,
        0 <= k,
    ensures
        ({
            let chunk = chunk_size(total, workers);
            let s = Seq::new(k as nat, |i: int| worker_share(total, workers, i) as u64);
            sum_first(s, k) == if k * chunk < total {
                k * chunk
            } else {
                total as int
            }
        }),
    decreases k,
{
    let chunk = chunk_size(total, workers);
    lemma_chunk_covers(total, workers);
    if k > 0 {
        lemma_shares_prefix(total, workers, k - 1);
        let s = Seq::new(k as nat, |i: int| worker_share(total, workers, i) as u64);
        let s1 = Seq::new((k - 1) as nat, |i: int| worker_share(total, workers, i) as u64);
        assert forall|j: int| 0 <= j <= k - 1 implies sum_first(s, j) == sum_first(s1, j) by {
            lemma_sum_first_agree(s, s1, j);
        }
        assert((k - 1) * chunk + chunk == k * chunk) by (nonlinear_arith);
        let sh = worker_share(total, workers, k - 1);
        assert(0 <= sh <= total);
        assert(s[k - 1] == sh as u64);
        assert(sum_first(s, k) == sum_first(s, k - 1) + s[k - 1]);
        assert(sum_first(s, k - 1) == sum_first(s1, k - 1));
        let start = (k - 1) * chunk;
        if start >= total {
            assert(sh == 0);
            assert(k * chunk >= total);
        } else {
            assert(k * chunk == start + chunk);
        }
    }
}

proof fn lemma_sum_first_agree(a: Seq<u64>, b: Seq<u64>, k: int)
    requires
        0 <= k <= a.len(),
        k <= b.len(),
        forall|j: int| 0 <= j < k ==> a[j] == b[j],
    ensures
        sum_first(a, k) == sum_first(b, k),
    decreases k,
{
    if k > 0 {
        lemma_sum_first_agree(a, b, k - 1);
    }
}

/// How many iterations each of `workers` workers runs when `total`
/// iterations are shared out in equal slices, the last ones possibly shorter
/// or empty.
pub fn worker_iterations(total: u64, workers: usize) -> (shares: Vec<u64>)
    requires
        workers >= 1,
        total + workers - 1 <= u64::MAX,
    ensures
        shares.len() == workers,
        forall|i: int| 0 <= i < workers ==> shares@[i] == worker_share(total, workers, i),
        forall|i: int| 0 <= i < workers ==> shares@[i] <= chunk_size(total, workers),
        sum_first(shares@, workers as int) == total,
{
    proof {
        lemma_chunk_covers(total, workers);
    }
    let w = workers as u64;
    let chunk: u64 = (total + (w - 1)) / w;
    let mut shares: Vec<u64> = Vec::new();
    let mut i: usize = 0;
    while i < workers
        invariant
            i <= workers,
            w == workers,
            workers >= 1,
            chunk == chunk_size(total, workers),
            chunk * workers <= total + workers - 1 <= u64::MAX,
            shares.len() == i,
            forall|j: int| 0 <= j < i ==> shares@[j] == worker_share(total, workers, j),
        decreases workers - i,
    {
        proof {
            assert((i as int) * chunk + chunk <= (workers as int) * chunk) by (nonlinear_arith)
                requires
                    i < workers,
                    chunk >= 0,
            ;
        }
        let start: u64 = i as u64 * chunk;
        let end: u64 = if start + chunk < total {
            start + chunk
        } else {
            total
        };
        let count: u64 = if end > start {
            end - start
        } else {
            0
        };
        shares.push(count);
        i = i + 1;
    }
    proof {
        lemma_shares_prefix(total, workers, workers as int);
        let s = Seq::new(workers as nat, |i: int| worker_share(total, workers, i) as u64);
        assert forall|j: int| 0 <= j < workers implies shares@[j] == s[j] by {
            assert(worker_share(total, workers, j) >= 0);
        }
        lemma_sum_first_agree(shares@, s, workers as int);
        lemma_chunk_covers(total, workers);
        let c = chunk_size(total, workers);
        assert((workers as int) * c >= total) by (nonlinear_arith)
            requires
                c * workers >= total,
        ;
    }
    shares
}

// ── Outcomes filed by leaf name ──────────────────────────────────────────────

/// Outcomes collected during a run, filed under the name of the leaf that
/// produced them, in arrival order.
pub struct OutcomeLog {
    entries: Vec<(String, Vec<RequestOutcome>)>,
}

/// The outcomes filed under `name` in a log view (none when absent).
pub open spec fn filed(m: Map<Seq<char>, Seq<RequestOutcome>>, name: Seq<char>) -> Seq<
    RequestOutcome,
> {
    if m.dom().contains(name) {
        m[name]
    } else {
        Seq::empty()
    }
}

impl OutcomeLog {
    #[verifier::type_invariant]
    spec fn names_distinct(self) -> bool {
        forall|a: int, b: int|
            0 <= a < b < self.entries.len() ==> self.entries@[a].0@ != self.entries@[b].0@
    }

    spec fn has(self, name: Seq<char>) -> bool {
        exists|k: int| 0 <= k < self.entries.len() && self.entries@[k].0@ == name
    }

    spec fn index_of(self, name: Seq<char>) -> int {
        choose|k: int| 0 <= k < self.entries.len() && self.entries@[k].0@ == name
    }
}

impl View for OutcomeLog {
    type V = Map<Seq<char>, Seq<RequestOutcome>>;

    closed spec fn view(&self) -> Map<Seq<char>, Seq<RequestOutcome>> {
        Map::new(|n: Seq<char>| self.has(n), |n: Seq<char>| self.entries@[self.index_of(n)].1@)
    }
}

impl OutcomeLog {
    /// An empty log.
    pub fn new() -> (log: OutcomeLog)
        ensures
            log@ == Map::<Seq<char>, Seq<RequestOutcome>>::empty(),
    {
        let log = OutcomeLog { entries: Vec::new() };
        proof {
            assert(log@ =~= Map::<Seq<char>, Seq<RequestOutcome>>::empty());
        }
        log
    }

    fn find(&self, name: &String) -> (k: usize)
        ensures
            k <= self.entries.len(),
            k < self.entries.len() ==> self.entries@[k as int].0@ == name@,
            k == self.entries.len() ==> !self.has(name@),
    {
        let mut k: usize = 0;
        while k < self.entries.len() && !(self.entries[k].0 == *name)
            invariant
                k <= self.entries.len(),
                forall|j: int| 0 <= j < k ==> self.entries@[j].0@ != name@,
            decreases self.entries.len() - k,
        {
            k = k + 1;
        }
        k
    }

    /// Files `outcome` under `name`, after those already there.
    pub fn record(&mut self, name: &String, outcome: RequestOutcome)
        ensures
            final(self)@ == old(self)@.insert(name@, filed(old(self)@, name@).push(outcome)),
    {
        proof {
            use_type_invariant(&*self);
        }
        let ghost before = *self;
        let k = self.find(name);
        let mut entries: Vec<(String, Vec<RequestOutcome>)> = Vec::new();
        std::mem::swap(&mut entries, &mut self.entries);
        if k < entries.len() {
            let (key, mut list) = entries.remove(k);
            list.push(outcome);
            entries.insert(k, (key, list));
        } else {
            let mut list: Vec<RequestOutcome> = Vec::new();
            list.push(outcome);
            entries.push((name.clone(), list));
        }
        proof {
            let e = entries@;
            let b = before.entries@;
            assert(forall|j: int| 0 <= j < e.len() && j != k ==> e[j] == b[j]);
            assert(e[k as int].0@ == name@);
            assert forall|x: int, y: int| 0 <= x < y < e.len() implies e[x].0@ != e[y].0@ by {
                if y == k as int {
                    if k == b.len() {
                        assert(b[x].0@ != name@);
                    } else {
                        assert(b[y].0@ == name@);
                    }
                } else if x == k as int {
                    assert(b[x].0@ == name@);
                }
            }
        }
        self.entries = entries;
        proof {
            let b = before;
            assert forall|n: Seq<char>| #[trigger] self@.dom().contains(n) == b@.insert(
                name@,
                filed(b@, name@).push(outcome),
            ).dom().contains(n) by {
                if n != name@ && b.has(n) {
                    let j = b.index_of(n);
                    assert(self.entries@[j].0@ == n);
                }
                if n != name@ && self.has(n) {
                    let j = self.index_of(n);
                    assert(b.entries@[j].0@ == n);
                }
            }
            assert forall|n: Seq<char>| #[trigger] self@.dom().contains(n) implies self@[n]
                == b@.insert(name@, filed(b@, name@).push(outcome))[n] by {
                let j = self.index_of(n);
                if n == name@ {
                    assert(j == k as int);
                    if k < b.entries.len() {
                        assert(b.index_of(n) == k as int);
                    }
                } else {
                    assert(b.entries@[j].0@ == n);
                    assert(b.index_of(n) == j);
                }
            }
            assert(self@ =~= b@.insert(name@, filed(b@, name@).push(outcome)));
        }
    }

    /// Removes and returns everything filed under `name` (nothing when absent).
    pub fn take(&mut self, name: &String) -> (outcomes: Vec<RequestOutcome>)
        ensures
            outcomes@ == filed(old(self)@, name@),
            final(self)@ == old(self)@.remove(name@),
    {
        proof {
            use_type_invariant(&*self);
        }
        let ghost before = *self;
        let k = self.find(name);
        if k == self.entries.len() {
            proof {
                assert(self@ =~= before@.remove(name@));
            }
            return Vec::new();
        }
        let mut entries: Vec<(String, Vec<RequestOutcome>)> = Vec::new();
        std::mem::swap(&mut entries, &mut self.entries);
        let (_, list) = entries.remove(k);
        proof {
            let e = entries@;
            let b = before.entries@;
            assert(forall|j: int| 0 <= j < e.len() ==> e[j] == if j < k { b[j] } else { b[j + 1] });
        }
        self.entries = entries;
        proof {
            let b = before;
            assert(b.index_of(name@) == k as int);
            assert forall|n: Seq<char>| #[trigger] self@.dom().contains(n) == b@.remove(
                name@,
            ).dom().contains(n) by {
                if n != name@ && b.has(n) {
                    let j = b.index_of(n);
                    if j < k {
                        assert(self.entries@[j].0@ == n);
                    } else {
                        assert(self.entries@[j - 1].0@ == n);
                    }
                }
                if self.has(n) {
                    let j = self.index_of(n);
                    if j < k {
                        assert(b.entries@[j].0@ == n);
                    } else {
                        assert(b.entries@[j + 1].0@ == n);
                    }
                }
            }
            assert forall|n: Seq<char>| #[trigger] self@.dom().contains(n) implies self@[n]
                == b@.remove(name@)[n] by {
                let j = self.index_of(n);
                if j < k {
                    assert(b.entries@[j].0@ == n);
                    assert(b.index_of(n) == j);
                } else {
                    assert(b.entries@[j + 1].0@ == n);
                    assert(b.index_of(n) == j + 1);
                }
            }
            assert(self@ =~= b@.remove(name@));
        }
        list
    }
}

/// What was filed under a name is what a later take returns, with the new
/// outcome last; other names are unaffected, and after a take nothing is
/// filed under the name.
pub proof fn law_take_returns_recorded(
    m: Map<Seq<char>, Seq<RequestOutcome>>,
    name: Seq<char>,
    other: Seq<char>,
    o: RequestOutcome,
)
    ensures
        filed(m.insert(name, filed(m, name).push(o)), name) == filed(m, name).push(o),
        other != name ==> filed(m.insert(name, filed(m, name).push(o)), other) == filed(m, other),
        filed(m.remove(name), name) == Seq::<RequestOutcome>::empty(),
        other != name ==> filed(m.remove(name), other) == filed(m, other),
{
}

// ── Handing outcomes back per leaf ───────────────────────────────────────────

/// The log view after taking each of `names` in turn.
pub open spec fn after_takes(m: Map<Seq<char>, Seq<RequestOutcome>>, names: Seq<Seq<char>>) -> Map<
    Seq<char>,
    Seq<RequestOutcome>,
>
    decreases names.len(),
{
    if names.len() == 0 {
        m
    } else {
        after_takes(m, names.drop_last()).remove(names.last())
    }
}

/// The leaf names of leaf tuples, as text.
pub open spec fn leaf_names(leaves: Seq<(String, String, String)>) -> Seq<Seq<char>> {
    leaves.map_values(|t: (String, String, String)| t.0@)
}

/// The leaves whose name did not occur before them, in order: one leaf per
/// distinct name, at its first occurrence.
pub open spec fn unique_leaves(leaves: Seq<(String, String, String)>) -> Seq<(String, String, String)>
    decreases leaves.len(),
{
    if leaves.len() == 0 {
        Seq::empty()
    } else {
        let p = unique_leaves(leaves.drop_last());
        if leaf_names(leaves.drop_last()).contains(leaves.last().0@) {
            p
        } else {
            p.push(leaves.last())
        }
    }
}

/// One entry per distinct leaf name, in order of first occurrence, each
/// with everything filed under that name.
pub fn outcomes_per_leaf(leaves: &Vec<(String, String, String)>, log: OutcomeLog) -> (res: Vec<
    ((String, String, String), Vec<RequestOutcome>),
>)
    ensures
        res.len() == unique_leaves(leaves@).len(),
        forall|i: int|
            0 <= i < res.len() ==> (#[trigger] res@[i]).0 == unique_leaves(leaves@)[i]
                && res@[i].1@ == filed(log@, res@[i].0.0@),
{
    let mut log = log;
    let ghost start = log@;
    let mut res: Vec<((String, String, String), Vec<RequestOutcome>)> = Vec::new();
    let n = leaves.len();
    let mut i: usize = 0;
    proof {
        assert(leaves@.take(0) =~= Seq::<(String, String, String)>::empty());
        assert(leaf_names(leaves@.take(0)) =~= Seq::<Seq<char>>::empty());
    }
    while i < n
        invariant
            n == leaves.len(),
            i <= n,
            log@ == after_takes(start, leaf_names(leaves@.take(i as int))),
            res.len() == unique_leaves(leaves@.take(i as int)).len(),
            forall|k: int|
                0 <= k < res.len() ==> (#[trigger] res@[k]).0 == unique_leaves(leaves@.take(i as int))[k]
                    && res@[k].1@ == filed(start, res@[k].0.0@),
        decreases n - i,
    {
        let ghost names = leaf_names(leaves@.take(i as int));
        let mut seen = false;
        let mut j: usize = 0;
        while j < i
            invariant
                i < n == leaves.len(),
                j <= i,
                names == leaf_names(leaves@.take(i as int)),
                seen <==> exists|k: int| 0 <= k < j && names[k] == leaves@[i as int].0@,
            decreases i - j,
        {
            if leaves[j].0 == leaves[i].0 {
                seen = true;
                proof {
                    assert(names[j as int] == leaves@[i as int].0@);
                }
            }
            j = j + 1;
        }
        proof {
            assert(seen <==> names.contains(leaves@[i as int].0@));
            let t = leaves@.take(i + 1);
            assert(t.drop_last() =~= leaves@.take(i as int));
            assert(t.last() == leaves@[i as int]);
            assert(leaf_names(t) =~= names.push(leaves@[i as int].0@));
            if !seen {
                assert forall|k: int| 0 <= k < names.len() implies names[k] != leaves@[i as int].0@ by {
                    if names[k] == leaves@[i as int].0@ {
                        assert(names.contains(leaves@[i as int].0@));
                    }
                }
                lemma_untouched(start, names, leaves@[i as int].0@);
            }
        }
        let outcomes = log.take(&leaves[i].0);
        proof {
            let nn = names.push(leaves@[i as int].0@);
            assert(nn.drop_last() =~= names);
            assert(nn.last() == leaves@[i as int].0@);
            assert(after_takes(start, nn) == after_takes(start, names).remove(leaves@[i as int].0@));
        }
        if !seen {
            let l = (leaves[i].0.clone(), leaves[i].1.clone(), leaves[i].2.clone());
            res.push((l, outcomes));
        }
        i = i + 1;
    }
    proof {
        assert(leaves@.take(n as int) =~= leaves@);
    }
    res
}

/// Leaf names that occur more than once yield one entry: the names of the
/// unique leaves are distinct, and every leaf's name is among them.
pub proof fn law_one_entry_per_leaf_name(leaves: Seq<(String, String, String)>)
    ensures
        forall|a: int, b: int|
            0 <= a < b < unique_leaves(leaves).len() ==> unique_leaves(leaves)[a].0@
                != unique_leaves(leaves)[b].0@,
        forall|i: int|
            0 <= i < leaves.len() ==> exists|k: int|
                0 <= k < unique_leaves(leaves).len() && unique_leaves(leaves)[k].0@
                    == (#[trigger] leaves[i]).0@,
    decreases leaves.len(),
{
    if leaves.len() > 0 {
        let d = leaves.drop_last();
        law_one_entry_per_leaf_name(d);
        let p = unique_leaves(d);
        let x = leaves.last();
        assert forall|i: int| 0 <= i < leaves.len() implies exists|k: int|
            0 <= k < unique_leaves(leaves).len() && unique_leaves(leaves)[k].0@
                == (#[trigger] leaves[i]).0@ by {
            if i < d.len() {
                assert(leaves[i] == d[i]);
                let k = choose|k: int| 0 <= k < p.len() && p[k].0@ == d[i].0@;
                assert(unique_leaves(leaves)[k] == p[k]);
            } else if leaf_names(d).contains(x.0@) {
                let j = choose|j: int| 0 <= j < leaf_names(d).len() && leaf_names(d)[j] == x.0@;
                assert(d[j].0@ == x.0@);
                let k = choose|k: int| 0 <= k < p.len() && p[k].0@ == d[j].0@;
                assert(unique_leaves(leaves)[k] == p[k]);
            } else {
                assert(unique_leaves(leaves)[p.len() as int] == x);
            }
        }
        if !leaf_names(d).contains(x.0@) {
            assert forall|k: int| 0 <= k < p.len() implies p[k].0@ != x.0@ by {
                lemma_unique_from(d, k);
                let j = choose|j: int| 0 <= j < d.len() && d[j] == p[k];
                if p[k].0@ == x.0@ {
                    assert(leaf_names(d)[j] == x.0@);
                }
            }
        }
    }
}

proof fn lemma_unique_from(leaves: Seq<(String, String, String)>, k: int)
    requires
        0 <= k < unique_leaves(leaves).len(),
    ensures
        exists|j: int| 0 <= j < leaves.len() && leaves[j] == unique_leaves(leaves)[k],
    decreases leaves.len(),
{
    let d = leaves.drop_last();
    let p = unique_leaves(d);
    if k < p.len() {
        lemma_unique_from(d, k);
        let j = choose|j: int| 0 <= j < d.len() && d[j] == p[k];
        assert(leaves[j] == d[j]);
    } else {
        assert(leaves[leaves.len() - 1] == leaves.last());
    }
}

proof fn lemma_untouched(m: Map<Seq<char>, Seq<RequestOutcome>>, names: Seq<Seq<char>>, n: Seq<char>)
    requires
        forall|j: int| 0 <= j < names.len() ==> names[j] != n,
    ensures
        filed(after_takes(m, names), n) == filed(m, n),
    decreases names.len(),
{
    if names.len() > 0 {
        lemma_untouched(m, names.drop_last(), n);
    }
}

// ── Transport errors ─────────────────────────────────────────────────────────

/// The error kind reported for a request that got no response: "timeout",
/// else "connection error", else "request error".
pub fn request_error_kind(is_timeout: bool, is_connect: bool) -> (kind: String)
    ensures
        is_timeout ==> kind@ == "timeout"@,
        !is_timeout && is_connect ==> kind@ == "connection error"@,
        !is_timeout && !is_connect ==> kind@ == "request error"@,
{
    if is_timeout {
        String::from_str("timeout")
    } else if is_connect {
        String::from_str("connection error")
    } else {
        String::from_str("request error")
    }
}

} // verus!
