//! The queue's rules: which jobs start, retrying, recovery after a crash, adding
//! sources, cancelling, clearing, removing and reordering jobs, and how a run ends.
use vstd::prelude::*;
use crate::models::{EncodeSettings, Job, JobStatus};
use crate::text::chars_of;

verus! {

// ---------------------------------------------------------------- clock and ids

/// A fresh random job id: `uuid::Uuid::new_v4().to_string()`, the 36-character
/// hyphenated form. Its value is random; only its length is claimed.
#[verifier::external_body]
fn new_job_id() -> (r: String)
    ensures
        r@.len() == 36,
{
    uuid::Uuid::new_v4().to_string()
}

// ---------------------------------------------------------------- starting jobs

/// A job that can start: analysed and waiting.
pub open spec fn ready(j: Job) -> bool {
    j.status == JobStatus::Pending && j.info is Some
}

/// Stable insertion of index `x` into `s`, ordered by the jobs' `order`.
pub open spec fn insert_by_order(jobs: Seq<Job>, s: Seq<nat>, x: nat) -> Seq<nat>
    decreases s.len(),
{
    if s.len() == 0 {
        seq![x]
    } else if jobs[x as int].order < jobs[s.last() as int].order {
        insert_by_order(jobs, s.drop_last(), x).push(s.last())
    } else {
        s.push(x)
    }
}

/// The indices of the first `n` jobs sorted by `order` (ties keep their position).
pub open spec fn by_order(jobs: Seq<Job>, n: nat) -> Seq<nat>
    decreases n,
{
    if n == 0 {
        Seq::empty()
    } else {
        insert_by_order(jobs, by_order(jobs, (n - 1) as nat), (n - 1) as nat)
    }
}

/// The first `k` ready jobs among the indices `ord`, in that order.
pub open spec fn first_ready(jobs: Seq<Job>, ord: Seq<nat>, k: nat) -> Seq<nat>
    decreases ord.len(),
{
    if ord.len() == 0 || k == 0 {
        Seq::empty()
    } else if ready(jobs[ord[0] as int]) {
        seq![ord[0]] + first_ready(jobs, ord.skip(1), (k - 1) as nat)
    } else {
        first_ready(jobs, ord.skip(1), k)
    }
}

/// The jobs to start: none while paused; else, while fewer than `parallel` run, the
/// ready jobs in queue order.
pub open spec fn tick_plan(jobs: Seq<Job>, running: nat, parallel: nat, paused: bool) -> Seq<nat> {
    if paused || running >= parallel {
        Seq::empty()
    } else {
        first_ready(jobs, by_order(jobs, jobs.len()), (parallel - running) as nat)
    }
}

/// `b` is `a` started: running, at some time, with its last error cleared.
pub open spec fn started(a: Job, b: Job, t: i64) -> bool {
    &&& b.status == JobStatus::Running
    &&& b.started_at == Some(t)
    &&& b.error is None
    &&& b == Job { status: b.status, started_at: b.started_at, error: b.error, ..a }
}

pub open spec fn idx_view(v: Seq<usize>) -> Seq<nat> {
    v.map_values(|i: usize| i as nat)
}

proof fn lemma_insert_by_order_at(jobs: Seq<Job>, s: Seq<nat>, x: nat, j: int)
    requires
        0 <= j <= s.len(),
        forall|k: int| j <= k < s.len() ==> jobs[x as int].order < jobs[#[trigger] s[k] as int].order,
        j == 0 || !(jobs[x as int].order < jobs[s[j - 1] as int].order),
    ensures
        insert_by_order(jobs, s, x) == s.take(j).push(x) + s.skip(j),
    decreases s.len(),
{
    if s.len() == 0 {
        assert(s.take(j).push(x) + s.skip(j) =~= seq![x]);
    } else if j == s.len() {
        assert(s.take(j).push(x) + s.skip(j) =~= s.push(x));
    } else {
        let t = s.drop_last();
        assert forall|k: int| j <= k < t.len() implies jobs[x as int].order < jobs[#[trigger] t[k] as int].order by {
            assert(t[k] == s[k]);
        }
        if j > 0 {
            assert(t[j - 1] == s[j - 1]);
        }
        lemma_insert_by_order_at(jobs, t, x, j);
        assert(t.take(j).push(x) + t.skip(j) + seq![s.last()] =~= s.take(j).push(x) + s.skip(j));
    }
}

proof fn lemma_insert_by_order_range(jobs: Seq<Job>, s: Seq<nat>, x: nat, n: nat)
    requires
        forall|k: int| 0 <= k < s.len() ==> #[trigger] s[k] < n,
        x < n,
    ensures
        forall|k: int| 0 <= k < insert_by_order(jobs, s, x).len() ==> #[trigger] insert_by_order(jobs, s, x)[k] < n,
        insert_by_order(jobs, s, x).len() == s.len() + 1,
    decreases s.len(),
{
    if s.len() > 0 && jobs[x as int].order < jobs[s.last() as int].order {
        let t = s.drop_last();
        assert forall|k: int| 0 <= k < t.len() implies #[trigger] t[k] < n by {
            assert(t[k] == s[k]);
        }
        lemma_insert_by_order_range(jobs, t, x, n);
    }
}

proof fn lemma_by_order_range(jobs: Seq<Job>, n: nat)
    ensures
        by_order(jobs, n).len() == n,
        forall|k: int| 0 <= k < by_order(jobs, n).len() ==> #[trigger] by_order(jobs, n)[k] < n,
    decreases n,
{
    if n > 0 {
        lemma_by_order_range(jobs, (n - 1) as nat);
        let s = by_order(jobs, (n - 1) as nat);
        assert forall|k: int| 0 <= k < s.len() implies #[trigger] s[k] < n by {}
        lemma_insert_by_order_range(jobs, s, (n - 1) as nat, n);
    }
}

/// The job indices sorted by `order`, ties by position.
fn order_indices(jobs: &Vec<Job>) -> (r: Vec<usize>)
    ensures
        idx_view(r@) == by_order(jobs@, jobs@.len()),
        forall|k: int| 0 <= k < r@.len() ==> #[trigger] r@[k] < jobs@.len(),
{
    let mut r: Vec<usize> = Vec::new();
    let mut n: usize = 0;
    while n < jobs.len()
        invariant
            n <= jobs@.len(),
            idx_view(r@) == by_order(jobs@, n as nat),
            forall|k: int| 0 <= k < r@.len() ==> #[trigger] r@[k] < n,
        decreases jobs@.len() - n,
    {
        let mut j: usize = r.len();
        while j > 0 && jobs[n].order < jobs[r[j - 1]].order
            invariant
                j <= r@.len(),
                n < jobs@.len(),
                forall|k: int| 0 <= k < r@.len() ==> #[trigger] r@[k] < n,
                forall|k: int| j <= k < r@.len() ==> jobs@[n as int].order < jobs@[#[trigger] r@[k] as int].order,
            decreases j,
        {
            j = j - 1;
        }
        proof {
            let s = idx_view(r@);
            assert forall|k: int| j <= k < s.len() implies jobs@[n as int].order < jobs@[#[trigger] s[k] as int].order by {
                assert(s[k] == r@[k]);
            }
            if j > 0 {
                assert(s[j - 1] == r@[j - 1]);
            }
            lemma_insert_by_order_at(jobs@, s, n as nat, j as int);
        }
        let ghost before = r@;
        r.insert(j, n);
        proof {
            assert(idx_view(r@) =~= idx_view(before).take(j as int).push(n as nat) + idx_view(before).skip(j as int));
            assert forall|k: int| 0 <= k < r@.len() implies #[trigger] r@[k] < n + 1 by {
                if k < j {
                    assert(r@[k] == before[k]);
                } else if k > j {
                    assert(r@[k] == before[k - 1]);
                }
            }
        }
        n = n + 1;
    }
    r
}

fn is_ready(j: &Job) -> (r: bool)
    ensures
        r == ready(*j),
{
    j.status == JobStatus::Pending && j.info.is_some()
}

/// Marks the planned jobs as started at time `t`; returns their indices.
fn start_planned(jobs: &mut Vec<Job>, running: usize, parallel: usize, t: i64) -> (r: Vec<usize>)
    requires
        running < parallel,
    ensures
        idx_view(r@) == tick_plan(old(jobs)@, running as nat, parallel as nat, false),
        final(jobs)@.len() == old(jobs)@.len(),
        forall|i: int|
            0 <= i < old(jobs)@.len() ==> if idx_view(r@).contains(i as nat) {
                started(old(jobs)@[i], #[trigger] final(jobs)@[i], t)
            } else {
                final(jobs)@[i] == old(jobs)@[i]
            },
{
    let ghost orig = jobs@;
    let ord = order_indices(jobs);
    let ghost ov = idx_view(ord@);
    let slots = parallel - running;
    let mut out: Vec<usize> = Vec::new();
    let mut p: usize = 0;
    proof {
        assert(ov.skip(0) =~= ov);
        lemma_by_order_distinct(orig, orig.len());
    }
    while p < ord.len() && out.len() < slots
        invariant
            p <= ord@.len(),
            ov == idx_view(ord@),
            ov == by_order(orig, orig.len()),
            forall|k: int| 0 <= k < ord@.len() ==> #[trigger] ord@[k] < orig.len(),
            forall|a: int, b: int| 0 <= a < b < ov.len() ==> ov[a] != ov[b],
            jobs@.len() == orig.len(),
            out@.len() <= slots,
            first_ready(orig, ov, slots as nat) == idx_view(out@) + first_ready(
                orig,
                ov.skip(p as int),
                (slots - out@.len()) as nat,
            ),
            forall|k: int| 0 <= k < out@.len() ==> ov.take(p as int).contains(#[trigger] out@[k] as nat),
            forall|i: int|
                0 <= i < orig.len() ==> if idx_view(out@).contains(i as nat) {
                    started(orig[i], #[trigger] jobs@[i], t)
                } else {
                    jobs@[i] == orig[i]
                },
        decreases ord@.len() - p,
    {
        let i = ord[p];
        proof {
            assert(ov.skip(p as int)[0] == ov[p as int]);
            assert(ov.skip(p as int).skip(1) =~= ov.skip(p + 1));
            assert(!idx_view(out@).contains(i as nat)) by {
                if idx_view(out@).contains(i as nat) {
                    let k = choose|k: int| 0 <= k < idx_view(out@).len() && idx_view(out@)[k] == i as nat;
                    assert(out@[k] as nat == i as nat);
                    assert(ov.take(p as int).contains(out@[k] as nat));
                    let q = choose|q: int| 0 <= q < p && ov.take(p as int)[q] == out@[k] as nat;
                    assert(ov[q] == ov[p as int]);
                }
            }
            assert(jobs@[i as int] == orig[i as int]);
        }
        if is_ready(&jobs[i]) {
            let ghost before_out = idx_view(out@);
            jobs[i].status = JobStatus::Running;
            jobs[i].started_at = Some(t);
            jobs[i].error = None;
            out.push(i);
            proof {
                assert(idx_view(out@) =~= before_out.push(i as nat));
                assert(before_out + (seq![i as nat] + first_ready(orig, ov.skip(p + 1), (slots - out@.len()) as nat))
                    =~= idx_view(out@) + first_ready(orig, ov.skip(p + 1), (slots - out@.len()) as nat));
                assert forall|ii: int| 0 <= ii < orig.len() implies (if idx_view(out@).contains(ii as nat) {
                    started(orig[ii], #[trigger] jobs@[ii], t)
                } else {
                    jobs@[ii] == orig[ii]
                }) by {
                    if ii == i {
                        assert(idx_view(out@)[out@.len() - 1] == i as nat);
                    } else {
                        if before_out.contains(ii as nat) {
                            let k = choose|k: int| 0 <= k < before_out.len() && before_out[k] == ii as nat;
                            assert(idx_view(out@)[k] == ii as nat);
                        }
                        if idx_view(out@).contains(ii as nat) {
                            let k = choose|k: int| 0 <= k < idx_view(out@).len() && idx_view(out@)[k] == ii as nat;
                            assert(k < before_out.len());
                            assert(before_out[k] == ii as nat);
                        }
                    }
                }
                assert forall|k: int| 0 <= k < out@.len() implies ov.take(p + 1).contains(#[trigger] out@[k] as nat) by {
                    if k == out@.len() - 1 {
                        assert(ov.take(p + 1)[p as int] == out@[k] as nat);
                    } else {
                        assert(out@[k] as nat == before_out[k]);
                        assert(ov.take(p as int).contains(out@[k] as nat));
                        let q = choose|q: int| 0 <= q < p && ov.take(p as int)[q] == out@[k] as nat;
                        assert(ov.take(p + 1)[q] == out@[k] as nat);
                    }
                }
            }
        } else {
            proof {
                assert forall|k: int| 0 <= k < out@.len() implies ov.take(p + 1).contains(#[trigger] out@[k] as nat) by {
                    assert(ov.take(p as int).contains(out@[k] as nat));
                    let q = choose|q: int| 0 <= q < p && ov.take(p as int)[q] == out@[k] as nat;
                    assert(ov.take(p + 1)[q] == out@[k] as nat);
                }
            }
        }
        p = p + 1;
    }
    proof {
        if p == ord@.len() {
            assert(ov.skip(p as int).len() == 0);
        }
        assert(first_ready(orig, ov.skip(p as int), (slots - out@.len()) as nat) =~= Seq::<nat>::empty());
        assert(idx_view(out@) + Seq::<nat>::empty() =~= idx_view(out@));
    }
    out
}

proof fn lemma_insert_by_order_distinct(jobs: Seq<Job>, s: Seq<nat>, x: nat)
    requires
        forall|a: int, b: int| 0 <= a < b < s.len() ==> s[a] != s[b],
        !s.contains(x),
    ensures
        forall|a: int, b: int|
            0 <= a < b < insert_by_order(jobs, s, x).len() ==> insert_by_order(jobs, s, x)[a] != insert_by_order(jobs, s, x)[b],
        forall|y: nat| #[trigger] insert_by_order(jobs, s, x).contains(y) <==> (s.contains(y) || y == x),
    decreases s.len(),
{
    if s.len() == 0 {
        assert(insert_by_order(jobs, s, x) =~= seq![x]);
        assert forall|y: nat| #[trigger] insert_by_order(jobs, s, x).contains(y) <==> (s.contains(y) || y == x) by {
            if insert_by_order(jobs, s, x).contains(y) {
                let k = choose|k: int| 0 <= k < insert_by_order(jobs, s, x).len() && insert_by_order(jobs, s, x)[k] == y;
            }
            if y == x {
                assert(insert_by_order(jobs, s, x)[0] == x);
            }
        }
    } else if jobs[x as int].order < jobs[s.last() as int].order {
        let t = s.drop_last();
        assert(!t.contains(x)) by {
            if t.contains(x) {
                let k = choose|k: int| 0 <= k < t.len() && t[k] == x;
                assert(s[k] == x);
            }
        }
        lemma_insert_by_order_distinct(jobs, t, x);
        let r = insert_by_order(jobs, t, x);
        assert(!r.contains(s.last())) by {
            if r.contains(s.last()) {
                if s.last() != x {
                    assert(t.contains(s.last()));
                    let m = choose|m: int| 0 <= m < t.len() && t[m] == s.last();
                    assert(s[m] == s[s.len() - 1]);
                } else {
                    assert(s.contains(x));
                }
            }
        }
        assert forall|a: int, b: int| 0 <= a < b < r.push(s.last()).len() implies r.push(s.last())[a] != r.push(s.last())[b] by {
            if b == r.len() {
                assert(r.contains(r[a]));
            }
        }
        assert forall|y: nat| #[trigger] r.push(s.last()).contains(y) <==> (s.contains(y) || y == x) by {
            if r.push(s.last()).contains(y) {
                let k = choose|k: int| 0 <= k < r.push(s.last()).len() && r.push(s.last())[k] == y;
                if k < r.len() {
                    assert(r.contains(y));
                    if y != x {
                        assert(t.contains(y));
                        let m = choose|m: int| 0 <= m < t.len() && t[m] == y;
                        assert(s[m] == y);
                    }
                } else {
                    assert(s[s.len() - 1] == y);
                }
            }
            if s.contains(y) {
                let m = choose|m: int| 0 <= m < s.len() && s[m] == y;
                if m < s.len() - 1 {
                    assert(t[m] == y);
                    assert(r.contains(y));
                    let k = choose|k: int| 0 <= k < r.len() && r[k] == y;
                    assert(r.push(s.last())[k] == y);
                } else {
                    assert(r.push(s.last())[r.len() as int] == y);
                }
            }
            if y == x {
                assert(r.contains(x));
                let k = choose|k: int| 0 <= k < r.len() && r[k] == x;
                assert(r.push(s.last())[k] == x);
            }
        }
    } else {
        assert forall|a: int, b: int| 0 <= a < b < s.push(x).len() implies s.push(x)[a] != s.push(x)[b] by {
            if b == s.len() {
                assert(s.contains(s[a]));
            }
        }
        assert forall|y: nat| #[trigger] s.push(x).contains(y) <==> (s.contains(y) || y == x) by {
            if s.push(x).contains(y) {
                let k = choose|k: int| 0 <= k < s.push(x).len() && s.push(x)[k] == y;
                if k < s.len() {
                    assert(s[k] == y);
                }
            }
            if s.contains(y) {
                let m = choose|m: int| 0 <= m < s.len() && s[m] == y;
                assert(s.push(x)[m] == y);
            }
            if y == x {
                assert(s.push(x)[s.len() as int] == x);
            }
        }
    }
}

proof fn lemma_by_order_distinct(jobs: Seq<Job>, n: nat)
    ensures
        forall|a: int, b: int| 0 <= a < b < by_order(jobs, n).len() ==> by_order(jobs, n)[a] != by_order(jobs, n)[b],
        forall|y: nat| #[trigger] by_order(jobs, n).contains(y) <==> y < n,
    decreases n,
{
    if n > 0 {
        lemma_by_order_distinct(jobs, (n - 1) as nat);
        let s = by_order(jobs, (n - 1) as nat);
        lemma_insert_by_order_distinct(jobs, s, (n - 1) as nat);
    }
}

/// Starts jobs while capacity allows: unless the queue is paused, ready jobs are
/// marked running, in queue order, until `parallel` jobs run (`running` already
/// do), each stamped with the start time `t`. Returns the indices of the jobs
/// started.
pub fn tick(jobs: &mut Vec<Job>, running: usize, parallel: usize, paused: bool, t: i64) -> (r: Vec<usize>)
    ensures
        idx_view(r@) == tick_plan(old(jobs)@, running as nat, parallel as nat, paused),
        final(jobs)@.len() == old(jobs)@.len(),
        forall|i: int|
            0 <= i < old(jobs)@.len() ==> if idx_view(r@).contains(i as nat) {
                started(old(jobs)@[i], #[trigger] final(jobs)@[i], t)
            } else {
                final(jobs)@[i] == old(jobs)@[i]
            },
{
    if paused || running >= parallel {
        let r: Vec<usize> = Vec::new();
        assert(idx_view(r@) =~= Seq::<nat>::empty());
        return r;
    }
    start_planned(jobs, running, parallel, t)
}

proof fn lemma_first_ready(jobs: Seq<Job>, ord: Seq<nat>, k: nat)
    ensures
        first_ready(jobs, ord, k).len() <= k,
        forall|m: int|
            0 <= m < first_ready(jobs, ord, k).len() ==> ord.contains(#[trigger] first_ready(jobs, ord, k)[m])
                && ready(jobs[first_ready(jobs, ord, k)[m] as int]),
    decreases ord.len(),
{
    if ord.len() > 0 && k > 0 {
        let rest = ord.skip(1);
        if ready(jobs[ord[0] as int]) {
            lemma_first_ready(jobs, rest, (k - 1) as nat);
            let f = first_ready(jobs, ord, k);
            assert forall|m: int| 0 <= m < f.len() implies ord.contains(#[trigger] f[m]) && ready(jobs[f[m] as int]) by {
                if m == 0 {
                    assert(f[0] == ord[0]);
                } else {
                    assert(f[m] == first_ready(jobs, rest, (k - 1) as nat)[m - 1]);
                    let q = choose|q: int| 0 <= q < rest.len() && rest[q] == f[m];
                    assert(ord[q + 1] == f[m]);
                }
            }
        } else {
            lemma_first_ready(jobs, rest, k);
            let f = first_ready(jobs, ord, k);
            assert forall|m: int| 0 <= m < f.len() implies ord.contains(#[trigger] f[m]) && ready(jobs[f[m] as int]) by {
                let q = choose|q: int| 0 <= q < rest.len() && rest[q] == f[m];
                assert(ord[q + 1] == f[m]);
            }
        }
    }
}

/// Law: a tick never starts a job while the queue is paused, never takes the number
/// of running jobs past the limit, and only starts jobs that are analysed and
/// waiting.
pub proof fn law_tick_within_limit(jobs: Seq<Job>, running: nat, parallel: nat, paused: bool)
    ensures
        paused ==> tick_plan(jobs, running, parallel, paused).len() == 0,
        running + tick_plan(jobs, running, parallel, paused).len() <= if running > parallel {
            running
        } else {
            parallel
        },
        forall|m: int|
            0 <= m < tick_plan(jobs, running, parallel, paused).len() ==> #[trigger] tick_plan(jobs, running, parallel, paused)[m]
                < jobs.len() && ready(jobs[tick_plan(jobs, running, parallel, paused)[m] as int]),
{
    if !(paused || running >= parallel) {
        let ord = by_order(jobs, jobs.len());
        lemma_first_ready(jobs, ord, (parallel - running) as nat);
        lemma_by_order_distinct(jobs, jobs.len());
        let f = tick_plan(jobs, running, parallel, paused);
        assert forall|m: int| 0 <= m < f.len() implies #[trigger] f[m] < jobs.len() && ready(jobs[f[m] as int]) by {
            assert(ord.contains(f[m]));
        }
    }
}

/// The ready jobs among the indices `ord`, in that order.
pub open spec fn ready_list(jobs: Seq<Job>, ord: Seq<nat>) -> Seq<nat>
    decreases ord.len(),
{
    if ord.len() == 0 {
        Seq::empty()
    } else if ready(jobs[ord[0] as int]) {
        seq![ord[0]] + ready_list(jobs, ord.skip(1))
    } else {
        ready_list(jobs, ord.skip(1))
    }
}

proof fn lemma_first_ready_take(jobs: Seq<Job>, ord: Seq<nat>, k: nat)
    ensures
        first_ready(jobs, ord, k) == ready_list(jobs, ord).take(
            if k < ready_list(jobs, ord).len() {
                k as int
            } else {
                ready_list(jobs, ord).len() as int
            },
        ),
    decreases ord.len(),
{
    let rl = ready_list(jobs, ord);
    if ord.len() == 0 {
        assert(rl.take(0) =~= Seq::<nat>::empty());
    } else if k == 0 {
        assert(rl.take(0) =~= Seq::<nat>::empty());
    } else {
        lemma_first_ready_take(jobs, ord.skip(1), (k - 1) as nat);
        lemma_first_ready_take(jobs, ord.skip(1), k);
        let rest = ready_list(jobs, ord.skip(1));
        if ready(jobs[ord[0] as int]) {
            let m: int = if k < rl.len() {
                k as int
            } else {
                rl.len() as int
            };
            assert(rl.take(m) =~= seq![ord[0]] + rest.take(m - 1));
        }
    }
}

/// Index `i` of `s` names a job whose `order` is not above that of index `i + 1`.
pub open spec fn idx_order_le_next(jobs: Seq<Job>, s: Seq<nat>, i: int) -> bool {
    jobs[s[i] as int].order <= jobs[s[i + 1] as int].order
}

proof fn lemma_insert_by_order_sorted(jobs: Seq<Job>, s: Seq<nat>, x: nat)
    requires
        forall|i: int| 0 <= i < s.len() - 1 ==> #[trigger] idx_order_le_next(jobs, s, i),
    ensures
        forall|i: int|
            0 <= i < insert_by_order(jobs, s, x).len() - 1 ==> #[trigger] idx_order_le_next(
                jobs,
                insert_by_order(jobs, s, x),
                i,
            ),
        insert_by_order(jobs, s, x).len() == s.len() + 1,
        insert_by_order(jobs, s, x).last() == x || insert_by_order(jobs, s, x).last() == s.last(),
    decreases s.len(),
{
    if s.len() == 0 {
    } else if jobs[x as int].order < jobs[s.last() as int].order {
        let t = s.drop_last();
        assert forall|i: int| 0 <= i < t.len() - 1 implies #[trigger] idx_order_le_next(jobs, t, i) by {
            assert(idx_order_le_next(jobs, s, i));
            assert(t[i] == s[i] && t[i + 1] == s[i + 1]);
        }
        lemma_insert_by_order_sorted(jobs, t, x);
        let r = insert_by_order(jobs, t, x);
        let res = r.push(s.last());
        if t.len() > 0 {
            assert(idx_order_le_next(jobs, s, s.len() - 2));
        }
        assert forall|i: int| 0 <= i < res.len() - 1 implies #[trigger] idx_order_le_next(jobs, res, i) by {
            if i < r.len() - 1 {
                assert(idx_order_le_next(jobs, r, i));
                assert(res[i] == r[i] && res[i + 1] == r[i + 1]);
            } else {
                assert(res[i] == r.last());
                assert(res[i + 1] == s.last());
            }
        }
    } else {
        let res = s.push(x);
        assert forall|i: int| 0 <= i < res.len() - 1 implies #[trigger] idx_order_le_next(jobs, res, i) by {
            if i < s.len() - 1 {
                assert(idx_order_le_next(jobs, s, i));
            }
        }
    }
}

proof fn lemma_by_order_sorted(jobs: Seq<Job>, n: nat)
    ensures
        forall|i: int| 0 <= i < by_order(jobs, n).len() - 1 ==> #[trigger] idx_order_le_next(jobs, by_order(jobs, n), i),
    decreases n,
{
    if n > 0 {
        lemma_by_order_sorted(jobs, (n - 1) as nat);
        lemma_insert_by_order_sorted(jobs, by_order(jobs, (n - 1) as nat), (n - 1) as nat);
    }
}

/// Law: while the queue is not paused and below its limit, a tick starts exactly
/// the first `parallel - running` ready jobs in queue order (all of them when
/// fewer are ready); queue order lists every job once, ascending by `order`.
pub proof fn law_tick_starts_first_ready(jobs: Seq<Job>, running: nat, parallel: nat)
    requires
        running < parallel,
    ensures
        by_order(jobs, jobs.len()).len() == jobs.len(),
        forall|y: nat| #[trigger] by_order(jobs, jobs.len()).contains(y) <==> y < jobs.len(),
        forall|a: int, b: int|
            0 <= a < b < jobs.len() ==> by_order(jobs, jobs.len())[a] != by_order(jobs, jobs.len())[b],
        forall|i: int|
            0 <= i < jobs.len() - 1 ==> #[trigger] idx_order_le_next(jobs, by_order(jobs, jobs.len()), i),
        ({
            let e = ready_list(jobs, by_order(jobs, jobs.len()));
            let free = (parallel - running) as nat;
            tick_plan(jobs, running, parallel, false) == e.take(
                if free < e.len() {
                    free as int
                } else {
                    e.len() as int
                },
            )
        }),
{
    lemma_first_ready_take(jobs, by_order(jobs, jobs.len()), (parallel - running) as nat);
    lemma_by_order_range(jobs, jobs.len());
    lemma_by_order_distinct(jobs, jobs.len());
    lemma_by_order_sorted(jobs, jobs.len());
}

// ---------------------------------------------------------------- retry, recovery, cancel

pub open spec fn strs(v: Seq<String>) -> Seq<Seq<char>> {
    v.map_values(|s: String| s@)
}

fn contains_str(v: &[String], s: &str) -> (r: bool)
    ensures
        r == strs(v@).contains(s@),
{
    let ghost sv = strs(v@);
    let mut i: usize = 0;
    while i < v.len()
        invariant
            i <= v@.len(),
            sv == strs(v@),
            forall|j: int| 0 <= j < i ==> sv[j] != s@,
        decreases v@.len() - i,
    {
        if crate::text::str_eq(v[i].as_str(), s) {
            assert(sv[i as int] == s@);
            return true;
        }
        i = i + 1;
    }
    false
}

/// A job that can be queued again: interrupted, failed, cancelled or skipped.
pub open spec fn retryable(st: JobStatus) -> bool {
    st == JobStatus::Interrupted || st == JobStatus::Failed || st == JobStatus::Cancelled || st
        == JobStatus::Skipped
}

/// Law: a listed job that was interrupted, failed, cancelled or skipped is re-queued:
/// it waits again when it was analysed and is analysed again otherwise, with its
/// error, output size and finish time cleared and everything else kept.
pub proof fn law_retry_requeues_stopped(j: Job)
    requires
        j.status == JobStatus::Interrupted || j.status == JobStatus::Failed || j.status == JobStatus::Cancelled
            || j.status == JobStatus::Skipped,
    ensures
        retryable(j.status),
        retried(j).status == (if j.info is Some {
            JobStatus::Pending
        } else {
            JobStatus::Probing
        }),
        retried(j).error is None,
        retried(j).out_size is None,
        retried(j).finished_at is None,
        retried(j) == (Job {
            status: retried(j).status,
            error: None,
            out_size: None,
            finished_at: None,
            ..j
        }),
{
}

/// Law: a job that is waiting, being analysed, running or done is never re-queued.
pub proof fn law_retry_keeps_active(j: Job)
    requires
        j.status == JobStatus::Pending || j.status == JobStatus::Probing || j.status == JobStatus::Running
            || j.status == JobStatus::Done,
    ensures
        !retryable(j.status),
{
}

/// A retried job waits again (or is analysed again when it never was), with its
/// error, output size and finish time cleared.
pub open spec fn retried(j: Job) -> Job {
    Job {
        status: if j.info is Some {
            JobStatus::Pending
        } else {
            JobStatus::Probing
        },
        error: None,
        out_size: None,
        finished_at: None,
        ..j
    }
}

/// Re-queues the listed jobs that are interrupted, failed, cancelled or skipped;
/// returns their indices. Other jobs are unchanged.
pub fn retry(jobs: &mut Vec<Job>, ids: &[String]) -> (r: Vec<usize>)
    ensures
        final(jobs)@.len() == old(jobs)@.len(),
        forall|i: int|
            0 <= i < old(jobs)@.len() ==> #[trigger] final(jobs)@[i] == if strs(ids@).contains(old(jobs)@[i].id@)
                && retryable(old(jobs)@[i].status) {
                retried(old(jobs)@[i])
            } else {
                old(jobs)@[i]
            },
        forall|i: int|
            0 <= i < old(jobs)@.len() ==> (idx_view(r@).contains(i as nat) <==> (strs(ids@).contains(
                old(jobs)@[i].id@,
            ) && retryable(old(jobs)@[i].status))),
        forall|i: int|
            0 <= i < old(jobs)@.len() && strs(ids@).contains(old(jobs)@[i].id@) && (old(jobs)@[i].status
                == JobStatus::Interrupted || old(jobs)@[i].status == JobStatus::Failed || old(jobs)@[i].status
                == JobStatus::Cancelled || old(jobs)@[i].status == JobStatus::Skipped) ==> idx_view(r@).contains(
                i as nat,
            ) && #[trigger] final(jobs)@[i].status == (if old(jobs)@[i].info is Some {
                JobStatus::Pending
            } else {
                JobStatus::Probing
            }),
{
    let ghost orig = jobs@;
    let mut changed: Vec<usize> = Vec::new();
    let mut i: usize = 0;
    while i < jobs.len()
        invariant
            i <= jobs@.len(),
            jobs@.len() == orig.len(),
            forall|k: int| 0 <= k < changed@.len() ==> #[trigger] changed@[k] < i,
            forall|k: int|
                0 <= k < orig.len() ==> #[trigger] jobs@[k] == if k < i && strs(ids@).contains(orig[k].id@) && retryable(
                    orig[k].status,
                ) {
                    retried(orig[k])
                } else {
                    orig[k]
                },
            forall|k: int|
                0 <= k < i ==> (idx_view(changed@).contains(k as nat) <==> (strs(ids@).contains(orig[k].id@)
                    && retryable(orig[k].status))),
        decreases jobs@.len() - i,
    {
        let st = jobs[i].status;
        if contains_str(ids, jobs[i].id.as_str()) && (st == JobStatus::Interrupted || st == JobStatus::Failed || st
            == JobStatus::Cancelled || st == JobStatus::Skipped) {
            let has_info = jobs[i].info.is_some();
            jobs[i].status = if has_info {
                JobStatus::Pending
            } else {
                JobStatus::Probing
            };
            jobs[i].error = None;
            jobs[i].out_size = None;
            jobs[i].finished_at = None;
            let ghost before = idx_view(changed@);
            changed.push(i);
            proof {
                assert(idx_view(changed@) =~= before.push(i as nat));
                assert forall|k: int| 0 <= k < i + 1 implies (idx_view(changed@).contains(k as nat) <==> (strs(
                    ids@,
                ).contains(orig[k].id@) && retryable(orig[k].status))) by {
                    if k < i {
                        if before.contains(k as nat) {
                            let m = choose|m: int| 0 <= m < before.len() && before[m] == k as nat;
                            assert(idx_view(changed@)[m] == k as nat);
                        }
                        if idx_view(changed@).contains(k as nat) {
                            let m = choose|m: int| 0 <= m < idx_view(changed@).len() && idx_view(changed@)[m] == k as nat;
                            if m == before.len() {
                                assert(k as nat == i as nat);
                            } else {
                                assert(before[m] == k as nat);
                            }
                        }
                    } else {
                        assert(idx_view(changed@)[before.len() as int] == i as nat);
                    }
                }
            }
        } else {
            proof {
                assert(!idx_view(changed@).contains(i as nat)) by {
                    if idx_view(changed@).contains(i as nat) {
                        let m = choose|m: int| 0 <= m < idx_view(changed@).len() && idx_view(changed@)[m] == i as nat;
                        assert(changed@[m] < i);
                    }
                }
            }
        }
        i = i + 1;
    }
    changed
}

/// The message left on a job that was running when the application stopped.
pub open spec fn interrupted_msg() -> Seq<char> {
    "Interrupted by a crash or shutdown"@
}

/// The largest `order` among `jobs`, or 0 when there are none.
pub open spec fn max_order(jobs: Seq<Job>) -> i64
    decreases jobs.len(),
{
    if jobs.len() == 0 {
        0
    } else if jobs.len() == 1 {
        jobs[0].order
    } else {
        let m = max_order(jobs.drop_last());
        if jobs.last().order > m {
            jobs.last().order
        } else {
            m
        }
    }
}

/// Number of jobs with status `st`.
pub open spec fn count_status(jobs: Seq<Job>, st: JobStatus) -> nat
    decreases jobs.len(),
{
    if jobs.len() == 0 {
        0
    } else {
        count_status(jobs.drop_last(), st) + if jobs.last().status == st {
            1nat
        } else {
            0nat
        }
    }
}

/// A running job found at startup is interrupted: no process, and an explanation.
pub open spec fn interrupted(a: Job, b: Job) -> bool {
    &&& b.status == JobStatus::Interrupted
    &&& b.pid is None
    &&& b.error matches Some(e) && e@ == interrupted_msg()
    &&& b == Job { status: b.status, pid: b.pid, error: b.error, ..a }
}

/// Called once at startup, after a crash or shutdown: running jobs become
/// interrupted. Returns how many were, and the largest job order (the counter for
/// new jobs continues from it).
pub fn recover(jobs: &mut Vec<Job>) -> (r: (usize, i64))
    ensures
        final(jobs)@.len() == old(jobs)@.len(),
        forall|i: int|
            0 <= i < old(jobs)@.len() ==> if old(jobs)@[i].status == JobStatus::Running {
                interrupted(old(jobs)@[i], #[trigger] final(jobs)@[i])
            } else {
                final(jobs)@[i] == old(jobs)@[i]
            },
        r.0 == count_status(old(jobs)@, JobStatus::Running),
        r.1 == max_order(old(jobs)@),
{
    let ghost orig = jobs@;
    let mut count: usize = 0;
    let mut mx: i64 = 0;
    let mut i: usize = 0;
    while i < jobs.len()
        invariant
            i <= jobs@.len(),
            jobs@.len() == orig.len(),
            count == count_status(orig.take(i as int), JobStatus::Running),
            count <= i,
            mx == max_order(orig.take(i as int)),
            forall|k: int|
                0 <= k < orig.len() ==> if k < i && orig[k].status == JobStatus::Running {
                    interrupted(orig[k], #[trigger] jobs@[k])
                } else {
                    jobs@[k] == orig[k]
                },
        decreases jobs@.len() - i,
    {
        proof {
            assert(orig.take(i + 1).drop_last() =~= orig.take(i as int));
            assert(orig.take(i + 1).last() == orig[i as int]);
        }
        let o = jobs[i].order;
        if i == 0 || o > mx {
            mx = o;
        }
        if jobs[i].status == JobStatus::Running {
            jobs[i].status = JobStatus::Interrupted;
            jobs[i].pid = None;
            jobs[i].error = Some(crate::text::owned("Interrupted by a crash or shutdown"));
            count = count + 1;
        }
        i = i + 1;
    }
    proof {
        assert(orig.take(orig.len() as int) =~= orig);
    }
    (count, mx)
}

/// Listed jobs that are waiting or interrupted (they never started, or will not
/// resume by themselves) are marked cancelled; other jobs are unchanged.
pub fn cancel_waiting(jobs: &mut Vec<Job>, ids: &[String])
    ensures
        final(jobs)@.len() == old(jobs)@.len(),
        forall|i: int|
            0 <= i < old(jobs)@.len() ==> #[trigger] final(jobs)@[i] == if strs(ids@).contains(old(jobs)@[i].id@)
                && (old(jobs)@[i].status == JobStatus::Pending || old(jobs)@[i].status == JobStatus::Interrupted) {
                Job { status: JobStatus::Cancelled, ..old(jobs)@[i] }
            } else {
                old(jobs)@[i]
            },
{
    let ghost orig = jobs@;
    let mut i: usize = 0;
    while i < jobs.len()
        invariant
            i <= jobs@.len(),
            jobs@.len() == orig.len(),
            forall|k: int|
                0 <= k < orig.len() ==> #[trigger] jobs@[k] == if k < i && strs(ids@).contains(orig[k].id@) && (
                orig[k].status == JobStatus::Pending || orig[k].status == JobStatus::Interrupted) {
                    Job { status: JobStatus::Cancelled, ..orig[k] }
                } else {
                    orig[k]
                },
        decreases jobs@.len() - i,
    {
        let st = jobs[i].status;
        if (st == JobStatus::Pending || st == JobStatus::Interrupted) && contains_str(ids, jobs[i].id.as_str()) {
            jobs[i].status = JobStatus::Cancelled;
        }
        i = i + 1;
    }
}

// ---------------------------------------------------------------- clearing and removing

/// The jobs kept by `keep`, in order; `removed` collects the ids of the others.
pub open spec fn finished_job(j: Job) -> bool {
    j.status.is_finished_spec()
}

/// Drops the finished jobs; returns their ids, in order.
pub fn clear_finished(jobs: &mut Vec<Job>) -> (r: Vec<String>)
    ensures
        final(jobs)@ == old(jobs)@.filter(|j: Job| !finished_job(j)),
        strs(r@) == strs(old(jobs)@.filter(|j: Job| finished_job(j)).map_values(|j: Job| j.id)),
{
    let ghost orig = jobs@;
    let mut rest: Vec<Job> = Vec::new();
    std::mem::swap(jobs, &mut rest);
    let mut removed: Vec<String> = Vec::new();
    let mut k: usize = 0;
    let n = rest.len();
    while rest.len() > 0
        invariant
            k + rest@.len() == n,
            n == orig.len(),
            rest@ == orig.skip(k as int),
            jobs@ == orig.take(k as int).filter(|j: Job| !finished_job(j)),
            strs(removed@) == strs(orig.take(k as int).filter(|j: Job| finished_job(j)).map_values(|j: Job| j.id)),
        decreases rest@.len(),
    {
        let j = rest.remove(0);
        proof {
            assert(orig.take(k + 1).drop_last() =~= orig.take(k as int));
            assert(orig.take(k + 1).last() == j);
            assert(rest@ =~= orig.skip(k + 1));
            orig.take(k as int).lemma_filter_push(j, |j: Job| !finished_job(j));
            orig.take(k as int).lemma_filter_push(j, |j: Job| finished_job(j));
            assert(orig.take(k as int).push(j) =~= orig.take(k + 1));
        }
        if j.status.is_finished() {
            let ghost before = strs(removed@);
            removed.push(j.id);
            proof {
                assert(strs(removed@) =~= before.push(j.id@));
                assert(orig.take(k as int).filter(|j: Job| finished_job(j)).push(j).map_values(|j: Job| j.id)
                    =~= orig.take(k as int).filter(|j: Job| finished_job(j)).map_values(|j: Job| j.id).push(j.id));
                assert(strs(orig.take(k as int).filter(|j: Job| finished_job(j)).map_values(|j: Job| j.id).push(j.id))
                    =~= strs(orig.take(k as int).filter(|j: Job| finished_job(j)).map_values(|j: Job| j.id)).push(j.id@));
            }
        } else {
            jobs.push(j);
        }
        k = k + 1;
    }
    proof {
        assert(orig.take(n as int) =~= orig);
    }
    removed
}

/// Whether the removal request drops job `j`: it is listed and not running.
pub open spec fn removed_by(j: Job, ids: Seq<Seq<char>>) -> bool {
    ids.contains(j.id@) && j.status != JobStatus::Running
}

/// Removes the listed jobs that are not running (a running job is cancelled first
/// and stays until its run ends).
pub fn remove_jobs(jobs: &mut Vec<Job>, ids: &[String])
    ensures
        final(jobs)@ == old(jobs)@.filter(|j: Job| !removed_by(j, strs(ids@))),
{
    let ghost orig = jobs@;
    let ghost idv = strs(ids@);
    let mut rest: Vec<Job> = Vec::new();
    std::mem::swap(jobs, &mut rest);
    let mut k: usize = 0;
    let n = rest.len();
    while rest.len() > 0
        invariant
            k + rest@.len() == n,
            n == orig.len(),
            idv == strs(ids@),
            rest@ == orig.skip(k as int),
            jobs@ == orig.take(k as int).filter(|j: Job| !removed_by(j, idv)),
        decreases rest@.len(),
    {
        let j = rest.remove(0);
        proof {
            assert(orig.take(k + 1).drop_last() =~= orig.take(k as int));
            assert(orig.take(k + 1).last() == j);
            assert(rest@ =~= orig.skip(k + 1));
            orig.take(k as int).lemma_filter_push(j, |j: Job| !removed_by(j, idv));
            assert(orig.take(k as int).push(j) =~= orig.take(k + 1));
        }
        if !(j.status != JobStatus::Running && contains_str(ids, j.id.as_str())) {
            jobs.push(j);
        }
        k = k + 1;
    }
    proof {
        assert(orig.take(n as int) =~= orig);
    }
}

// ---------------------------------------------------------------- reordering

/// Index of the first job with id `id`.
pub open spec fn first_with_id(jobs: Seq<Job>, id: Seq<char>, i: int) -> Option<int>
    decreases jobs.len() - i,
{
    if i < 0 || i >= jobs.len() {
        None
    } else if jobs[i].id@ == id {
        Some(i)
    } else {
        first_with_id(jobs, id, i + 1)
    }
}

/// The jobs after the first `k` listed ids were given the orders 1, 2, …: the first
/// job with the i-th id gets order i + 1 (a later listing of the same id wins).
pub open spec fn renumbered(jobs: Seq<Job>, ids: Seq<Seq<char>>, k: nat) -> Seq<Job>
    decreases k,
{
    if k == 0 {
        jobs
    } else {
        let prev = renumbered(jobs, ids, (k - 1) as nat);
        match first_with_id(prev, ids[k - 1], 0) {
            Some(x) => prev.update(x, Job { order: k as i64, ..prev[x] }),
            None => prev,
        }
    }
}

/// Stable insertion of `x` by `order`.
pub open spec fn insert_job(s: Seq<Job>, x: Job) -> Seq<Job>
    decreases s.len(),
{
    if s.len() == 0 {
        seq![x]
    } else if x.order < s.last().order {
        insert_job(s.drop_last(), x).push(s.last())
    } else {
        s.push(x)
    }
}

/// The jobs sorted by `order` (ties keep their position).
pub open spec fn sort_jobs(s: Seq<Job>) -> Seq<Job>
    decreases s.len(),
{
    if s.len() == 0 {
        s
    } else {
        insert_job(sort_jobs(s.drop_last()), s.last())
    }
}

proof fn lemma_first_with_id(jobs: Seq<Job>, id: Seq<char>, i: int)
    requires
        0 <= i,
    ensures
        match first_with_id(jobs, id, i) {
            Some(x) => i <= x < jobs.len() && jobs[x].id@ == id,
            None => true,
        },
    decreases jobs.len() - i,
{
    if i < jobs.len() && jobs[i].id@ != id {
        lemma_first_with_id(jobs, id, i + 1);
    }
}

proof fn lemma_renumbered_ids(jobs: Seq<Job>, ids: Seq<Seq<char>>, k: nat)
    ensures
        renumbered(jobs, ids, k).len() == jobs.len(),
        forall|i: int| 0 <= i < jobs.len() ==> (#[trigger] renumbered(jobs, ids, k)[i]).id == jobs[i].id,
    decreases k,
{
    if k > 0 {
        lemma_renumbered_ids(jobs, ids, (k - 1) as nat);
        let prev = renumbered(jobs, ids, (k - 1) as nat);
        lemma_first_with_id(prev, ids[k - 1], 0);
    }
}

fn find_id(jobs: &Vec<Job>, id: &str) -> (r: Option<usize>)
    ensures
        match r {
            Some(x) => first_with_id(jobs@, id@, 0) == Some(x as int),
            None => first_with_id(jobs@, id@, 0) is None,
        },
{
    let mut i: usize = 0;
    while i < jobs.len()
        invariant
            i <= jobs@.len(),
            first_with_id(jobs@, id@, 0) == first_with_id(jobs@, id@, i as int),
        decreases jobs@.len() - i,
    {
        if crate::text::str_eq(jobs[i].id.as_str(), id) {
            return Some(i);
        }
        i = i + 1;
    }
    None
}

proof fn lemma_insert_job_at(s: Seq<Job>, x: Job, j: int)
    requires
        0 <= j <= s.len(),
        forall|k: int| j <= k < s.len() ==> x.order < (#[trigger] s[k]).order,
        j == 0 || !(x.order < s[j - 1].order),
    ensures
        insert_job(s, x) == s.take(j).push(x) + s.skip(j),
    decreases s.len(),
{
    if s.len() == 0 {
        assert(s.take(j).push(x) + s.skip(j) =~= seq![x]);
    } else if j == s.len() {
        assert(s.take(j).push(x) + s.skip(j) =~= s.push(x));
    } else {
        let t = s.drop_last();
        assert forall|k: int| j <= k < t.len() implies x.order < (#[trigger] t[k]).order by {
            assert(t[k] == s[k]);
        }
        if j > 0 {
            assert(t[j - 1] == s[j - 1]);
        }
        lemma_insert_job_at(t, x, j);
        assert(t.take(j).push(x) + t.skip(j) + seq![s.last()] =~= s.take(j).push(x) + s.skip(j));
    }
}

/// Puts the listed jobs first, in the listed order: the first job with the i-th id
/// gets order i + 1; then the jobs are sorted by order (ties keep their position).
/// Returns the counter for the next new job: the number of jobs.
pub fn reorder(jobs: &mut Vec<Job>, ids: &[String]) -> (r: i64)
    requires
        ids@.len() < i64::MAX,
        old(jobs)@.len() <= i64::MAX,
    ensures
        final(jobs)@ == sort_jobs(renumbered(old(jobs)@, strs(ids@), ids@.len())),
        r == old(jobs)@.len(),
{
    let ghost orig = jobs@;
    let ghost idv = strs(ids@);
    let mut i: usize = 0;
    while i < ids.len()
        invariant
            i <= ids@.len(),
            ids@.len() < i64::MAX,
            idv == strs(ids@),
            jobs@ == renumbered(orig, idv, i as nat),
        decreases ids@.len() - i,
    {
        assert(idv[i as int] == ids@[i as int]@);
        proof {
            lemma_first_with_id(jobs@, ids@[i as int]@, 0);
        }
        match find_id(jobs, ids[i].as_str()) {
            Some(x) => {
                jobs[x].order = (i + 1) as i64;
            },
            None => {},
        }
        i = i + 1;
    }
    let n = jobs.len();
    let ghost unsorted = jobs@;
    let mut rest: Vec<Job> = Vec::new();
    std::mem::swap(jobs, &mut rest);
    let mut k: usize = 0;
    while rest.len() > 0
        invariant
            k + rest@.len() == n,
            n == unsorted.len(),
            rest@ == unsorted.skip(k as int),
            jobs@ == sort_jobs(unsorted.take(k as int)),
        decreases rest@.len(),
    {
        let x = rest.remove(0);
        proof {
            assert(unsorted.take(k + 1).drop_last() =~= unsorted.take(k as int));
            assert(unsorted.take(k + 1).last() == x);
            assert(rest@ =~= unsorted.skip(k + 1));
        }
        let mut j: usize = jobs.len();
        while j > 0 && x.order < jobs[j - 1].order
            invariant
                j <= jobs@.len(),
                forall|m: int| j <= m < jobs@.len() ==> x.order < (#[trigger] jobs@[m]).order,
            decreases j,
        {
            j = j - 1;
        }
        proof {
            lemma_insert_job_at(jobs@, x, j as int);
        }
        let ghost before = jobs@;
        jobs.insert(j, x);
        assert(jobs@ =~= before.take(j as int).push(x) + before.skip(j as int));
        k = k + 1;
    }
    proof {
        assert(unsorted.take(n as int) =~= unsorted);
        lemma_renumbered_ids(orig, idv, ids@.len());
    }
    n as i64
}

/// Job `i` of `s` does not come after job `i + 1` in order.
pub open spec fn order_le_next(s: Seq<Job>, i: int) -> bool {
    s[i].order <= s[i + 1].order
}

/// The jobs are sorted by order.
pub open spec fn sorted_by_order(s: Seq<Job>) -> bool {
    forall|i: int| 0 <= i < s.len() - 1 ==> #[trigger] order_le_next(s, i)
}

proof fn lemma_insert_job_sorted(s: Seq<Job>, x: Job)
    requires
        sorted_by_order(s),
    ensures
        sorted_by_order(insert_job(s, x)),
        insert_job(s, x).len() == s.len() + 1,
        insert_job(s, x).last() == x || insert_job(s, x).last() == s.last(),
    decreases s.len(),
{
    if s.len() == 0 {
    } else if x.order < s.last().order {
        let t = s.drop_last();
        assert forall|i: int| 0 <= i < t.len() - 1 implies #[trigger] order_le_next(t, i) by {
            assert(order_le_next(s, i));
            assert(t[i] == s[i] && t[i + 1] == s[i + 1]);
        }
        lemma_insert_job_sorted(t, x);
        let r = insert_job(t, x);
        let res = r.push(s.last());
        if t.len() > 0 {
            assert(order_le_next(s, s.len() - 2));
        }
        assert forall|i: int| 0 <= i < res.len() - 1 implies #[trigger] order_le_next(res, i) by {
            if i < r.len() - 1 {
                assert(order_le_next(r, i));
                assert(res[i] == r[i] && res[i + 1] == r[i + 1]);
            } else {
                assert(res[i] == r.last());
                assert(res[i + 1] == s.last());
            }
        }
    } else {
        let res = s.push(x);
        assert forall|i: int| 0 <= i < res.len() - 1 implies #[trigger] order_le_next(res, i) by {
            if i < s.len() - 1 {
                assert(order_le_next(s, i));
            }
        }
    }
}

proof fn lemma_sort_jobs_sorted(s: Seq<Job>)
    ensures
        sorted_by_order(sort_jobs(s)),
        sort_jobs(s).len() == s.len(),
    decreases s.len(),
{
    if s.len() > 0 {
        lemma_sort_jobs_sorted(s.drop_last());
        lemma_insert_job_sorted(sort_jobs(s.drop_last()), s.last());
    }
}

/// Law: after a reorder the queue is sorted by order, and the first job with the
/// last-listed id has the order of its position in the list.
pub proof fn law_reorder_sorted(jobs: Seq<Job>, ids: Seq<Seq<char>>)
    requires
        ids.len() < i64::MAX,
    ensures
        sorted_by_order(sort_jobs(renumbered(jobs, ids, ids.len()))),
        ids.len() > 0 ==> match first_with_id(renumbered(jobs, ids, (ids.len() - 1) as nat), ids.last(), 0) {
            Some(x) => renumbered(jobs, ids, ids.len())[x].order == ids.len(),
            None => true,
        },
{
    lemma_sort_jobs_sorted(renumbered(jobs, ids, ids.len()));
    if ids.len() > 0 {
        lemma_first_with_id(renumbered(jobs, ids, (ids.len() - 1) as nat), ids.last(), 0);
        lemma_renumbered_ids(jobs, ids, (ids.len() - 1) as nat);
    }
}

// ---------------------------------------------------------------- adding sources

/// Whether source `i` of `sources` is queued: no unfinished job already has that
/// source, and it does not repeat an earlier source that was queued.
pub open spec fn source_added(jobs: Seq<Job>, sources: Seq<Seq<char>>, i: int) -> bool
    decreases i,
{
    &&& !(exists|k: int| 0 <= k < jobs.len() && #[trigger] jobs[k].source@ == sources[i] && !jobs[k].status.is_finished_spec())
    &&& !(exists|j: int| 0 <= j < i && #[trigger] sources[j] == sources[i] && (0 <= j < i && source_added(jobs, sources, j)))
}

/// The sources that are queued, as indices into `sources`, in order.
pub open spec fn added_sources(jobs: Seq<Job>, sources: Seq<Seq<char>>, n: nat) -> Seq<nat>
    decreases n,
{
    if n == 0 {
        Seq::empty()
    } else if source_added(jobs, sources, n - 1) {
        added_sources(jobs, sources, (n - 1) as nat).push((n - 1) as nat)
    } else {
        added_sources(jobs, sources, (n - 1) as nat)
    }
}

fn has_unfinished_source(jobs: &Vec<Job>, src: &str) -> (r: bool)
    ensures
        r == exists|k: int| 0 <= k < jobs@.len() && #[trigger] jobs@[k].source@ == src@ && !jobs@[k].status.is_finished_spec(),
{
    let mut k: usize = 0;
    while k < jobs.len()
        invariant
            k <= jobs@.len(),
            forall|m: int| 0 <= m < k ==> !(#[trigger] jobs@[m].source@ == src@ && !jobs@[m].status.is_finished_spec()),
        decreases jobs@.len() - k,
    {
        if !jobs[k].status.is_finished() && crate::text::str_eq(jobs[k].source.as_str(), src) {
            return true;
        }
        k = k + 1;
    }
    false
}

/// Which of the found video files are queued: a file already queued and not
/// finished is skipped, and so is a repeat within `sources`. Returns indices into
/// `sources`.
pub fn sources_to_add(jobs: &Vec<Job>, sources: &[String]) -> (r: Vec<usize>)
    ensures
        idx_view(r@) == added_sources(jobs@, strs(sources@), sources@.len()),
{
    let ghost sv = strs(sources@);
    let mut out: Vec<usize> = Vec::new();
    let mut i: usize = 0;
    while i < sources.len()
        invariant
            i <= sources@.len(),
            sv == strs(sources@),
            idx_view(out@) == added_sources(jobs@, sv, i as nat),
            forall|j: int| 0 <= j < i ==> (source_added(jobs@, sv, j) <==> idx_view(out@).contains(j as nat)),
            forall|m: int| 0 <= m < out@.len() ==> #[trigger] out@[m] < i,
        decreases sources@.len() - i,
    {
        assert(sv[i as int] == sources@[i as int]@);
        let existing = has_unfinished_source(jobs, sources[i].as_str());
        let mut repeat = false;
        let mut m: usize = 0;
        while m < out.len()
            invariant
                m <= out@.len(),
                i < sources@.len(),
                sv == strs(sources@),
                forall|q: int| 0 <= q < out@.len() ==> #[trigger] out@[q] < i,
                repeat == exists|q: int| 0 <= q < m && #[trigger] sv[out@[q] as int] == sv[i as int],
            decreases out@.len() - m,
        {
            let o = out[m];
            assert(sv[o as int] == sources@[o as int]@);
            if crate::text::str_eq(sources[o].as_str(), sources[i].as_str()) {
                repeat = true;
            }
            m = m + 1;
        }
        proof {
            assert(repeat == exists|j: int| 0 <= j < i && #[trigger] sv[j] == sv[i as int] && (0 <= j < i && source_added(jobs@, sv, j))) by {
                if repeat {
                    let q = choose|q: int| 0 <= q < out@.len() && #[trigger] sv[out@[q] as int] == sv[i as int];
                    let j = out@[q] as int;
                    assert(idx_view(out@)[q] == j as nat);
                    assert(source_added(jobs@, sv, j));
                }
                if exists|j: int| 0 <= j < i && #[trigger] sv[j] == sv[i as int] && (0 <= j < i && source_added(jobs@, sv, j)) {
                    let j = choose|j: int| 0 <= j < i && #[trigger] sv[j] == sv[i as int] && (0 <= j < i && source_added(jobs@, sv, j));
                    assert(idx_view(out@).contains(j as nat));
                    let q = choose|q: int| 0 <= q < idx_view(out@).len() && idx_view(out@)[q] == j as nat;
                    assert(out@[q] as int == j);
                    assert(sv[out@[q] as int] == sv[i as int]);
                }
            }
            assert(source_added(jobs@, sv, i as int) == (!existing && !repeat));
        }
        let ghost before = idx_view(out@);
        if !existing && !repeat {
            out.push(i);
            proof {
                assert(idx_view(out@) =~= before.push(i as nat));
            }
        }
        proof {
            assert forall|j: int| 0 <= j < i + 1 implies (source_added(jobs@, sv, j) <==> idx_view(out@).contains(j as nat)) by {
                if j < i {
                    if before.contains(j as nat) {
                        let q = choose|q: int| 0 <= q < before.len() && before[q] == j as nat;
                        assert(idx_view(out@)[q] == j as nat);
                    }
                    if idx_view(out@).contains(j as nat) {
                        let q = choose|q: int| 0 <= q < idx_view(out@).len() && idx_view(out@)[q] == j as nat;
                        if q == before.len() {
                            assert(idx_view(out@)[q] == i as nat);
                        } else {
                            assert(before[q] == j as nat);
                        }
                    }
                } else {
                    if source_added(jobs@, sv, j) {
                        assert(idx_view(out@)[before.len() as int] == i as nat);
                    }
                    if idx_view(out@).contains(j as nat) && !source_added(jobs@, sv, j) {
                        let q = choose|q: int| 0 <= q < idx_view(out@).len() && idx_view(out@)[q] == j as nat;
                        assert(before[q] == j as nat);
                        assert(out@[q] < i);
                    }
                }
            }
        }
        i = i + 1;
    }
    out
}

/// A newly added job: being analysed, created at `created_at` with a fresh id.
pub open spec fn new_job_spec(j: Job, source: Seq<char>, root: Seq<char>, settings: EncodeSettings, in_size: u64, order: i64, created_at: i64) -> bool {
    &&& j.id@.len() == 36
    &&& j.source@ == source
    &&& j.root@ == root
    &&& j.output@ == Seq::<char>::empty()
    &&& j.settings == settings
    &&& j.status == JobStatus::Probing
    &&& !j.held
    &&& j.info is None
    &&& j.crop is None
    &&& j.sub_candidates@.len() == 0
    &&& j.auto_subtitle is None
    &&& j.out_height is None
    &&& j.error is None
    &&& j.log_tail@ == Seq::<char>::empty()
    &&& j.created_at == created_at
    &&& j.started_at is None
    &&& j.finished_at is None
    &&& j.in_size == in_size
    &&& j.out_size is None
    &&& j.pid is None
    &&& j.order == order
}

/// A new job for a found video file (its output path is computed next).
pub fn new_job(source: &str, root: &str, settings: EncodeSettings, in_size: u64, order: i64, created_at: i64) -> (r: Job)
    ensures
        new_job_spec(r, source@, root@, settings, in_size, order, created_at),
{
    Job {
        id: new_job_id(),
        source: crate::text::owned(source),
        root: crate::text::owned(root),
        output: String::new(),
        settings,
        status: JobStatus::Probing,
        held: false,
        info: None,
        crop: None,
        sub_candidates: Vec::new(),
        auto_subtitle: None,
        out_height: None,
        error: None,
        log_tail: String::new(),
        created_at,
        started_at: None,
        finished_at: None,
        in_size,
        out_size: None,
        pid: None,
        order,
    }
}

// ---------------------------------------------------------------- running a job

/// A job is skipped when skipping is on and its output file already exists; the
/// job then carries the reason as its error.
pub fn skip_existing(job: &mut Job, skip: bool, output_exists: bool) -> (r: bool)
    ensures
        r == (skip && output_exists),
        r ==> (final(job).error matches Some(e) && e@ == "Output already exists"@),
        r ==> *final(job) == (Job { error: final(job).error, ..*old(job) }),
        !r ==> *final(job) == *old(job),
{
    if skip && output_exists {
        job.error = Some(crate::text::owned("Output already exists"));
        proof {
            reveal_strlit("Output already exists");
        }
        true
    } else {
        false
    }
}

/// Where ffmpeg writes until the encode succeeds: the output path with ".part".
pub fn part_path(output: &str) -> (r: String)
    ensures
        r@ == output@ + ".part"@,
{
    crate::text::concat2(output, ".part")
}

/// The stderr lines kept of a run: the last 80.
pub open spec fn tail_push(tail: Seq<Seq<char>>, line: Seq<char>) -> Seq<Seq<char>> {
    let t = tail.push(line);
    if t.len() > 80 {
        t.skip(1)
    } else {
        t
    }
}

/// Keeps `line` at the end of the tail, dropping the oldest line past 80.
pub fn push_tail(tail: &mut Vec<String>, line: String)
    ensures
        strs(final(tail)@) == tail_push(strs(old(tail)@), line@),
{
    tail.push(line);
    if tail.len() > 80 {
        tail.remove(0);
    }
    proof {
        let t = strs(old(tail)@).push(line@);
        if t.len() > 80 {
            assert(strs(tail@) =~= t.skip(1));
        } else {
            assert(strs(tail@) =~= t);
        }
    }
}

/// Law: a tail never holds more than 80 lines, and always ends with the newest.
pub proof fn law_tail_bounded(tail: Seq<Seq<char>>, line: Seq<char>)
    requires
        tail.len() <= 80,
    ensures
        tail_push(tail, line).len() <= 80,
        tail_push(tail, line).last() == line,
{
}

/// The last line of `tail` that is not blank.
pub open spec fn last_nonblank(tail: Seq<Seq<char>>) -> Option<Seq<char>>
    decreases tail.len(),
{
    if tail.len() == 0 {
        None
    } else if crate::text::trim(tail.last()).len() > 0 {
        Some(tail.last())
    } else {
        last_nonblank(tail.drop_last())
    }
}

/// How a run ended.
pub enum RunEnd {
    Cancelled,
    /// ffmpeg failed, with the message to show.
    Failed(String),
    Done,
}

/// How a run ended: cancelled when it was cancelled; failed when ffmpeg did not exit
/// successfully, with its last non-blank stderr line (or "ffmpeg exited with
/// <status>"); else done.
pub fn run_end(cancelled: bool, success: bool, tail: &[String], exit_status: &str) -> (r: RunEnd)
    ensures
        cancelled ==> r is Cancelled,
        !cancelled && success ==> r is Done,
        !cancelled && !success ==> (r matches RunEnd::Failed(m) && m@ == match last_nonblank(strs(tail@)) {
            Some(l) => l,
            None => "ffmpeg exited with "@ + exit_status@,
        }),
{
    if cancelled {
        return RunEnd::Cancelled;
    }
    if success {
        return RunEnd::Done;
    }
    let ghost tv = strs(tail@);
    let mut n: usize = tail.len();
    assert(tv.take(n as int) =~= tv);
    while n > 0
        invariant
            !cancelled,
            !success,
            n <= tail@.len(),
            tv == strs(tail@),
            last_nonblank(tv) == last_nonblank(tv.take(n as int)),
        decreases n,
    {
        let line = chars_of(tail[n - 1].as_str());
        proof {
            assert(tv.take(n as int).last() == tail@[n - 1]@);
            assert(tv.take(n as int).drop_last() =~= tv.take(n - 1));
        }
        if crate::text::trim_vec(&line).len() > 0 {
            return RunEnd::Failed(crate::text::owned(tail[n - 1].as_str()));
        }
        n = n - 1;
    }
    RunEnd::Failed(crate::text::concat2("ffmpeg exited with ", exit_status))
}

/// An argument as it appears in the log: quoted when it holds a space.
pub open spec fn quote_arg(a: Seq<char>) -> Seq<char> {
    if a.contains(' ') {
        seq!['"'] + a + seq!['"']
    } else {
        a
    }
}

/// The arguments, quoted, separated by spaces.
pub open spec fn join_args(args: Seq<Seq<char>>) -> Seq<char>
    decreases args.len(),
{
    if args.len() == 0 {
        Seq::empty()
    } else if args.len() == 1 {
        quote_arg(args[0])
    } else {
        join_args(args.drop_last()) + seq![' '] + quote_arg(args.last())
    }
}

/// The first line of a job's log: the ffmpeg command line.
pub fn log_header(args: &[String]) -> (r: String)
    ensures
        r@ == "ffmpeg "@ + join_args(strs(args@)) + "\n"@,
{
    let ghost av = strs(args@);
    let mut body: Vec<char> = Vec::new();
    let mut i: usize = 0;
    while i < args.len()
        invariant
            i <= args@.len(),
            av == strs(args@),
            body@ == join_args(av.take(i as int)),
        decreases args@.len() - i,
    {
        let a = chars_of(args[i].as_str());
        let ghost pre = av.take(i as int);
        proof {
            assert(av.take(i + 1).drop_last() =~= pre);
            assert(av.take(i + 1).last() == a@);
        }
        if i > 0 {
            body.push(' ');
        }
        let quoted = crate::text::char_in(' ', &a);
        if quoted {
            body.push('"');
        }
        crate::subtitles::extend_chars(&mut body, &a);
        if quoted {
            body.push('"');
        }
        proof {
            if i == 0 {
                assert(av.take(1) =~= seq![a@]);
            }
            assert(body@ =~= join_args(av.take(i + 1)));
        }
        i = i + 1;
    }
    assert(av.take(args@.len() as int) =~= av);
    let mut r = crate::text::owned("ffmpeg ");
    crate::text::push_chars(&mut r, &body);
    crate::text::push_char(&mut r, '\n');
    assert(r@ =~= "ffmpeg "@ + join_args(av) + "\n"@) by {
        reveal_strlit("\n");
    }
    r
}

/// A job after its run: the outcome as its status (a failure also records the
/// message), finished at `t`, no process.
pub open spec fn finished_with(a: Job, outcome: Result<JobStatus, Seq<char>>, t: i64, b: Job) -> bool {
    &&& b.finished_at == Some(t)
    &&& b.pid is None
    &&& match outcome {
        Ok(st) => b == Job { status: st, finished_at: b.finished_at, pid: b.pid, ..a },
        Err(m) => b.status == JobStatus::Failed && (b.error matches Some(e) && e@ == m) && b == Job {
            status: b.status,
            error: b.error,
            finished_at: b.finished_at,
            pid: b.pid,
            ..a
        },
    }
}

/// Records how a run ended.
pub fn finish_job(job: &mut Job, outcome: Result<JobStatus, String>, t: i64)
    ensures
        finished_with(
            *old(job),
            match outcome {
                Ok(st) => Ok(st),
                Err(m) => Err(m@),
            },
            t,
            *final(job),
        ),
{
    match outcome {
        Ok(st) => {
            job.status = st;
        },
        Err(m) => {
            job.status = JobStatus::Failed;
            job.error = Some(m);
        },
    }
    job.finished_at = Some(t);
    job.pid = None;
}

// ---------------------------------------------------------------- after the queue drains

/// The command that puts the machine to sleep or shuts it down after the queue
/// drains ("sleep" or "shutdown"; other actions run nothing), for the OS name of
/// `std::env::consts::OS`.
pub open spec fn post_action_spec(action: Seq<char>, os: Seq<char>) -> Option<(Seq<char>, Seq<Seq<char>>)> {
    if action == "sleep"@ {
        if os == "macos"@ {
            Some(("pmset"@, seq!["sleepnow"@]))
        } else if os == "windows"@ {
            Some(("rundll32.exe"@, seq!["powrprof.dll,SetSuspendState"@, "0,1,0"@]))
        } else {
            Some(("systemctl"@, seq!["suspend"@]))
        }
    } else if action == "shutdown"@ {
        if os == "macos"@ {
            Some(("osascript"@, seq!["-e"@, "tell application \"System Events\" to shut down"@]))
        } else if os == "windows"@ {
            Some(("shutdown"@, seq!["/s"@, "/t"@, "60"@]))
        } else {
            Some(("systemctl"@, seq!["poweroff"@]))
        }
    } else {
        None
    }
}

/// The program and arguments for the post-queue action.
pub fn post_action_command(action: &str, os: &str) -> (r: Option<(String, Vec<String>)>)
    ensures
        match r {
            Some((p, a)) => post_action_spec(action@, os@) == Some((p@, strs(a@))),
            None => post_action_spec(action@, os@) is None,
        },
{
    let eq = |a: &str, b: &str| -> (r: bool)
        ensures
            r == (a@ == b@),
        { crate::text::str_eq(a, b) };
    if eq(action, "sleep") {
        if eq(os, "macos") {
            let a = vec![crate::text::owned("sleepnow")];
            assert(strs(a@) =~= seq!["sleepnow"@]);
            Some((crate::text::owned("pmset"), a))
        } else if eq(os, "windows") {
            let a = vec![crate::text::owned("powrprof.dll,SetSuspendState"), crate::text::owned("0,1,0")];
            assert(strs(a@) =~= seq!["powrprof.dll,SetSuspendState"@, "0,1,0"@]);
            Some((crate::text::owned("rundll32.exe"), a))
        } else {
            let a = vec![crate::text::owned("suspend")];
            assert(strs(a@) =~= seq!["suspend"@]);
            Some((crate::text::owned("systemctl"), a))
        }
    } else if eq(action, "shutdown") {
        if eq(os, "macos") {
            let a = vec![
                crate::text::owned("-e"),
                crate::text::owned("tell application \"System Events\" to shut down"),
            ];
            assert(strs(a@) =~= seq!["-e"@, "tell application \"System Events\" to shut down"@]);
            Some((crate::text::owned("osascript"), a))
        } else if eq(os, "windows") {
            let a = vec![crate::text::owned("/s"), crate::text::owned("/t"), crate::text::owned("60")];
            assert(strs(a@) =~= seq!["/s"@, "/t"@, "60"@]);
            Some((crate::text::owned("shutdown"), a))
        } else {
            let a = vec![crate::text::owned("poweroff")];
            assert(strs(a@) =~= seq!["poweroff"@]);
            Some((crate::text::owned("systemctl"), a))
        }
    } else {
        None
    }
}

/// Law: a job interrupted by a crash can be retried, and then waits to run again
/// when it had been analysed.
pub proof fn law_interrupted_jobs_resume(a: Job, b: Job)
    requires
        interrupted(a, b),
    ensures
        retryable(b.status),
        a.info is Some ==> retried(b).status == JobStatus::Pending,
        retried(b).error is None,
{
}

// ---------------------------------------------------------------- ordering found files

/// Component lists in lexicographic order, each component compared as a string.
pub open spec fn comps_lt(a: Seq<Seq<char>>, b: Seq<Seq<char>>) -> bool
    decreases a.len(),
{
    if a.len() == 0 {
        b.len() > 0
    } else if b.len() == 0 {
        false
    } else if crate::subtitles::str_lt(a[0], b[0]) {
        true
    } else if a[0] == b[0] {
        comps_lt(a.skip(1), b.skip(1))
    } else {
        false
    }
}

/// Paths in the order of `Path`'s comparison for plain names: rooted paths first,
/// then component by component (a path before its extensions).
pub open spec fn path_lt(a: Seq<char>, b: Seq<char>) -> bool {
    if crate::path::is_absolute(a) != crate::path::is_absolute(b) {
        crate::path::is_absolute(a)
    } else {
        comps_lt(crate::path::components(a), crate::path::components(b))
    }
}

/// Stable insertion of `x` into `s` by `path_lt`.
pub open spec fn insert_path(s: Seq<Seq<char>>, x: Seq<char>) -> Seq<Seq<char>>
    decreases s.len(),
{
    if s.len() == 0 {
        seq![x]
    } else if path_lt(x, s.last()) {
        insert_path(s.drop_last(), x).push(s.last())
    } else {
        s.push(x)
    }
}

/// The paths sorted (equal paths keep their order).
pub open spec fn sort_paths(s: Seq<Seq<char>>) -> Seq<Seq<char>>
    decreases s.len(),
{
    if s.len() == 0 {
        s
    } else {
        insert_path(sort_paths(s.drop_last()), s.last())
    }
}

fn str_lt_chars(x: &Vec<char>, y: &Vec<char>) -> (r: bool)
    ensures
        r == crate::subtitles::str_lt(x@, y@),
{
    let mut i: usize = 0;
    assert(x@.skip(0) =~= x@);
    assert(y@.skip(0) =~= y@);
    while i < x.len() && i < y.len() && x[i] == y[i]
        invariant
            i <= x@.len(),
            i <= y@.len(),
            crate::subtitles::str_lt(x@, y@) == crate::subtitles::str_lt(x@.skip(i as int), y@.skip(i as int)),
        decreases x@.len() - i,
    {
        assert(x@.skip(i as int).skip(1) =~= x@.skip(i + 1));
        assert(y@.skip(i as int).skip(1) =~= y@.skip(i + 1));
        i = i + 1;
    }
    if i == x.len() {
        i < y.len()
    } else if i == y.len() {
        false
    } else {
        (x[i] as u32) < (y[i] as u32)
    }
}

fn path_lt_exec(a: &str, b: &str) -> (r: bool)
    ensures
        r == path_lt(a@, b@),
{
    let av = chars_of(a);
    let bv = chars_of(b);
    let ra = av.len() > 0 && av[0] == '/';
    let rb = bv.len() > 0 && bv[0] == '/';
    if ra != rb {
        return ra;
    }
    let ca = crate::path::components_of(&av);
    let cb = crate::path::components_of(&bv);
    let ghost xa = ca@.map_values(|v: Vec<char>| v@);
    let ghost xb = cb@.map_values(|v: Vec<char>| v@);
    assert(path_lt(a@, b@) == comps_lt(xa, xb));
    let mut i: usize = 0;
    assert(xa.skip(0) =~= xa);
    assert(xb.skip(0) =~= xb);
    while i < ca.len() && i < cb.len()
        invariant
            i <= ca@.len(),
            i <= cb@.len(),
            xa == ca@.map_values(|v: Vec<char>| v@),
            xb == cb@.map_values(|v: Vec<char>| v@),
            path_lt(a@, b@) == comps_lt(xa.skip(i as int), xb.skip(i as int)),
        decreases ca@.len() - i,
    {
        let ghost sa = xa.skip(i as int);
        let ghost sb = xb.skip(i as int);
        assert(sa.len() > 0 && sb.len() > 0);
        assert(sa[0] == ca@[i as int]@);
        assert(sb[0] == cb@[i as int]@);
        if str_lt_chars(&ca[i], &cb[i]) {
            return true;
        }
        if !crate::text::seq_eq(&ca[i], &cb[i]) {
            return false;
        }
        assert(sa.skip(1) =~= xa.skip(i + 1));
        assert(sb.skip(1) =~= xb.skip(i + 1));
        i = i + 1;
    }
    i == ca.len() && i < cb.len()
}

proof fn lemma_insert_path_at(s: Seq<Seq<char>>, x: Seq<char>, j: int)
    requires
        0 <= j <= s.len(),
        forall|k: int| j <= k < s.len() ==> path_lt(x, #[trigger] s[k]),
        j == 0 || !path_lt(x, s[j - 1]),
    ensures
        insert_path(s, x) == s.take(j).push(x) + s.skip(j),
    decreases s.len(),
{
    if s.len() == 0 {
        assert(s.take(j).push(x) + s.skip(j) =~= seq![x]);
    } else if j == s.len() {
        assert(s.take(j).push(x) + s.skip(j) =~= s.push(x));
    } else {
        let t = s.drop_last();
        assert forall|k: int| j <= k < t.len() implies path_lt(x, #[trigger] t[k]) by {
            assert(t[k] == s[k]);
        }
        if j > 0 {
            assert(t[j - 1] == s[j - 1]);
        }
        lemma_insert_path_at(t, x, j);
        assert(t.take(j).push(x) + t.skip(j) + seq![s.last()] =~= s.take(j).push(x) + s.skip(j));
    }
}

/// The video files found in a folder, in path order (the walk's own order is not
/// kept).
pub fn order_sources(files: Vec<String>) -> (r: Vec<String>)
    ensures
        strs(r@) == sort_paths(strs(files@)),
{
    let ghost input = strs(files@);
    let n0 = files.len();
    let mut rest = files;
    let mut sorted: Vec<String> = Vec::new();
    let mut taken: usize = 0;
    while rest.len() > 0
        invariant
            taken + rest@.len() == input.len(),
            input.len() == n0,
            strs(rest@) == input.skip(taken as int),
            strs(sorted@) == sort_paths(input.take(taken as int)),
        decreases rest@.len(),
    {
        let ghost before_rest = strs(rest@);
        let x = rest.remove(0);
        proof {
            assert(before_rest[0] == x@);
            assert(input.take(taken + 1).drop_last() =~= input.take(taken as int));
            assert(input.take(taken + 1).last() == x@);
            assert(strs(rest@) =~= before_rest.skip(1));
            assert(before_rest.skip(1) =~= input.skip(taken + 1));
        }
        let mut j: usize = sorted.len();
        while j > 0 && path_lt_exec(x.as_str(), sorted[j - 1].as_str())
            invariant
                j <= sorted@.len(),
                forall|k: int| j <= k < sorted@.len() ==> path_lt(x@, #[trigger] sorted@[k]@),
            decreases j,
        {
            j = j - 1;
        }
        proof {
            let sv = strs(sorted@);
            assert forall|k: int| j <= k < sv.len() implies path_lt(x@, #[trigger] sv[k]) by {
                assert(sv[k] == sorted@[k]@);
            }
            if j > 0 {
                assert(sv[j - 1] == sorted@[j - 1]@);
            }
            lemma_insert_path_at(sv, x@, j as int);
        }
        let ghost before = strs(sorted@);
        sorted.insert(j, x);
        assert(strs(sorted@) =~= before.take(j as int).push(x@) + before.skip(j as int));
        taken = taken + 1;
    }
    assert(input.take(taken as int) =~= input);
    sorted
}

proof fn lemma_comps_lt_asym(a: Seq<Seq<char>>, b: Seq<Seq<char>>)
    ensures
        comps_lt(a, b) ==> !comps_lt(b, a),
    decreases a.len(),
{
    if a.len() > 0 && b.len() > 0 {
        crate::subtitles::lemma_str_lt_asym(a[0], b[0]);
        if a[0] == b[0] {
            lemma_comps_lt_asym(a.skip(1), b.skip(1));
        }
    }
}

/// Path `i` of `s` does not sort after path `i + 1`.
pub open spec fn path_le_next(s: Seq<Seq<char>>, i: int) -> bool {
    !path_lt(s[i + 1], s[i])
}

proof fn lemma_insert_path_sorted(s: Seq<Seq<char>>, x: Seq<char>)
    requires
        forall|i: int| 0 <= i < s.len() - 1 ==> #[trigger] path_le_next(s, i),
    ensures
        forall|i: int| 0 <= i < insert_path(s, x).len() - 1 ==> #[trigger] path_le_next(insert_path(s, x), i),
        insert_path(s, x).len() == s.len() + 1,
        insert_path(s, x).last() == x || insert_path(s, x).last() == s.last(),
    decreases s.len(),
{
    if s.len() == 0 {
    } else if path_lt(x, s.last()) {
        let t = s.drop_last();
        assert forall|i: int| 0 <= i < t.len() - 1 implies #[trigger] path_le_next(t, i) by {
            assert(path_le_next(s, i));
            assert(t[i] == s[i] && t[i + 1] == s[i + 1]);
        }
        lemma_insert_path_sorted(t, x);
        let r = insert_path(t, x);
        let res = r.push(s.last());
        if t.len() > 0 {
            assert(path_le_next(s, s.len() - 2));
        }
        lemma_comps_lt_asym(crate::path::components(x), crate::path::components(s.last()));
        assert forall|i: int| 0 <= i < res.len() - 1 implies #[trigger] path_le_next(res, i) by {
            if i < r.len() - 1 {
                assert(path_le_next(r, i));
                assert(res[i] == r[i] && res[i + 1] == r[i + 1]);
            } else {
                assert(res[i] == r.last());
                assert(res[i + 1] == s.last());
            }
        }
    } else {
        let res = s.push(x);
        assert forall|i: int| 0 <= i < res.len() - 1 implies #[trigger] path_le_next(res, i) by {
            if i < s.len() - 1 {
                assert(path_le_next(s, i));
            }
        }
    }
}

/// Law: found files come out in path order: no path sorts before the one listed
/// ahead of it.
pub proof fn law_sources_sorted(s: Seq<Seq<char>>)
    ensures
        forall|i: int| 0 <= i < sort_paths(s).len() - 1 ==> #[trigger] path_le_next(sort_paths(s), i),
        sort_paths(s).len() == s.len(),
    decreases s.len(),
{
    if s.len() > 0 {
        law_sources_sorted(s.drop_last());
        lemma_insert_path_sorted(sort_paths(s.drop_last()), s.last());
    }
}

} // verus!
