//! Viewport-aware prefetch scheduling: the priority order over a candidate
//! list, and the single-job scheduler state machine with cancellable,
//! chunked progress.
//!
//! The scheduler here is the decision core: it computes the visitation
//! order, hands out fixed-size chunks while not cancelled, and accounts for
//! per-item results. The surrounding application runs the worker thread and
//! performs the actual generation for each item.

use vstd::prelude::*;

use crate::tier::ThumbnailTier;

verus! {

/// Number of items processed per cancellable chunk.
pub const CHUNK_SIZE: usize = 4;

/// One unit of background work: candidate paths, the tier to generate, and
/// the viewport range to prioritize. Immutable once submitted.
#[derive(Clone, Debug)]
pub struct PrefetchJob {
    pub file_paths: Vec<String>,
    pub tier: ThumbnailTier,
    pub viewport_start: usize,
    pub viewport_end: usize,
}

/// A live snapshot of a prefetch job's progress.
#[derive(Clone, Copy, Debug, PartialEq, Eq, Structural)]
pub struct PrefetchProgress {
    pub total_files: usize,
    pub completed_files: usize,
    pub failed_files: usize,
    pub viewport_completed: usize,
    pub viewport_total: usize,
    pub is_cancelled: bool,
    pub is_finished: bool,
}

/// The smaller of two naturals.
pub open spec fn min_nat(a: nat, b: nat) -> nat {
    if a <= b {
        a
    } else {
        b
    }
}

/// The in-viewport prefix of the visitation order: the clamped viewport
/// indices in increasing order, marked as in-viewport.
pub open spec fn spec_viewport_part(len: nat, vs: nat, ve: nat) -> Seq<(usize, bool)> {
    let vs1 = min_nat(vs, len);
    let ve1 = min_nat(ve, len);
    if vs1 < ve1 {
        Seq::new((ve1 - vs1) as nat, |i: int| ((vs1 + i) as usize, true))
    } else {
        Seq::empty()
    }
}

/// The indices before the clamped viewport, in strictly decreasing order
/// (closest to the viewport first).
pub open spec fn spec_before_part(len: nat, vs: nat) -> Seq<(usize, bool)> {
    let vs1 = min_nat(vs, len);
    Seq::new(vs1, |i: int| ((vs1 - 1 - i) as usize, false))
}

/// The indices at or after the clamped viewport end, in increasing order.
pub open spec fn spec_after_part(len: nat, ve: nat) -> Seq<(usize, bool)> {
    let ve1 = min_nat(ve, len);
    Seq::new((len - ve1) as nat, |i: int| ((ve1 + i) as usize, false))
}

/// Alternates one element from each side until both are exhausted.
pub open spec fn spec_interleave(a: Seq<(usize, bool)>, b: Seq<(usize, bool)>) -> Seq<
    (usize, bool),
>
    decreases a.len() + b.len(),
{
    if a.len() == 0 {
        b
    } else if b.len() == 0 {
        a
    } else {
        seq![a[0], b[0]] + spec_interleave(a.drop_first(), b.drop_first())
    }
}

/// The full visitation order: the viewport first, then an alternating
/// expansion outward on both sides.
pub open spec fn spec_priority_order(len: nat, vs: nat, ve: nat) -> Seq<(usize, bool)> {
    spec_viewport_part(len, vs, ve) + spec_interleave(
        spec_before_part(len, vs),
        spec_after_part(len, ve),
    )
}

/// Computes the viewport-prioritized visitation order over `len` items:
/// first the clamped viewport indices in order, marked in-viewport, then the
/// remaining indices alternating one step outward on each side, nearest
/// first.
pub fn compute_priority_order(len: usize, viewport_start: usize, viewport_end: usize) -> (r: Vec<
    (usize, bool),
>)
    ensures
        r@ == spec_priority_order(len as nat, viewport_start as nat, viewport_end as nat),
{
    let vs: usize = if viewport_start <= len {
        viewport_start
    } else {
        len
    };
    let ve: usize = if viewport_end <= len {
        viewport_end
    } else {
        len
    };
    let mut order: Vec<(usize, bool)> = Vec::new();

    let mut i: usize = vs;
    while i < ve
        invariant
            vs <= i,
            i <= ve || i == vs,
            ve <= len,
            vs as nat == min_nat(viewport_start as nat, len as nat),
            ve as nat == min_nat(viewport_end as nat, len as nat),
            order@ =~= if vs < ve {
                Seq::new((i - vs) as nat, |k: int| ((vs + k) as usize, true))
            } else {
                Seq::<(usize, bool)>::empty()
            },
        decreases ve - i,
    {
        order.push((i, true));
        i = i + 1;
    }
    proof {
        assert(order@ =~= spec_viewport_part(len as nat, viewport_start as nat, viewport_end as nat));
    }

    let mut before: Vec<(usize, bool)> = Vec::new();
    let mut j: usize = 0;
    while j < vs
        invariant
            j <= vs,
            vs <= len,
            before@ =~= Seq::new(j as nat, |k: int| ((vs - 1 - k) as usize, false)),
        decreases vs - j,
    {
        before.push((vs - 1 - j, false));
        j = j + 1;
    }
    proof {
        assert(before@ =~= spec_before_part(len as nat, viewport_start as nat));
    }

    let mut after: Vec<(usize, bool)> = Vec::new();
    let mut k: usize = ve;
    while k < len
        invariant
            ve <= k,
            k <= len || k == ve,
            ve <= len,
            after@ =~= Seq::new((k - ve) as nat, |t: int| ((ve + t) as usize, false)),
        decreases len - k,
    {
        after.push((k, false));
        k = k + 1;
    }
    proof {
        assert(after@ =~= spec_after_part(len as nat, viewport_end as nat));
    }

    let ghost viewport_seq = order@;
    proof {
        assert(before@.skip(0) =~= before@);
        assert(after@.skip(0) =~= after@);
    }
    let nb = before.len();
    let na = after.len();
    let mut bi: usize = 0;
    let mut ai: usize = 0;
    while bi < nb || ai < na
        invariant
            bi <= nb,
            ai <= na,
            nb == before@.len(),
            na == after@.len(),
            viewport_seq + spec_interleave(before@, after@) =~= order@ + spec_interleave(
                before@.skip(bi as int),
                after@.skip(ai as int),
            ),
        decreases (nb - bi) + (na - ai),
    {
        let ghost bs = before@.skip(bi as int);
        let ghost as_ = after@.skip(ai as int);
        if bi < nb {
            order.push(before[bi]);
            bi = bi + 1;
        }
        if ai < na {
            order.push(after[ai]);
            ai = ai + 1;
        }
        proof {
            if bs.len() > 0 {
                assert(bs[0] == before@[bi - 1]);
                assert(bs.drop_first() =~= before@.skip(bi as int));
            }
            if as_.len() > 0 {
                assert(as_[0] == after@[ai - 1]);
                assert(as_.drop_first() =~= after@.skip(ai as int));
            }
            if bs.len() > 0 && as_.len() > 0 {
                assert(spec_interleave(bs, as_) =~= seq![bs[0], as_[0]] + spec_interleave(
                    bs.drop_first(),
                    as_.drop_first(),
                ));
            } else if bs.len() > 0 {
                assert(spec_interleave(bs, as_) == bs);
                assert(bs =~= seq![bs[0]] + bs.drop_first());
            } else if as_.len() > 0 {
                assert(spec_interleave(bs, as_) == as_);
                assert(as_ =~= seq![as_[0]] + as_.drop_first());
            }
            assert(viewport_seq + spec_interleave(before@, after@) =~= order@ + spec_interleave(
                before@.skip(bi as int),
                after@.skip(ai as int),
            ));
        }
    }
    proof {
        assert(before@.skip(nb as int) =~= Seq::<(usize, bool)>::empty());
        assert(after@.skip(na as int) =~= Seq::<(usize, bool)>::empty());
        assert(spec_interleave(Seq::empty(), Seq::empty()) =~= Seq::<(usize, bool)>::empty());
        assert(order@ =~= viewport_seq + spec_interleave(before@, after@));
    }
    order
}

/// Builds a prefetch job for a viewport given by start and size; the end is
/// clamped to the list length.
pub fn create_viewport_prefetch_job(
    file_paths: Vec<String>,
    tier: ThumbnailTier,
    viewport_start: usize,
    viewport_size: usize,
) -> (r: PrefetchJob)
    ensures
        r.file_paths == file_paths,
        r.tier == tier,
        r.viewport_start == viewport_start,
        r.viewport_end as int == if viewport_start + viewport_size <= file_paths@.len() {
            viewport_start + viewport_size
        } else {
            file_paths@.len() as int
        },
{
    let len = file_paths.len();
    let unclamped: u128 = viewport_start as u128 + viewport_size as u128;
    let viewport_end: usize = if unclamped <= len as u128 {
        viewport_start + viewport_size
    } else {
        len
    };
    PrefetchJob { file_paths, tier, viewport_start, viewport_end }
}

/// The initial progress record for a job over `total` files with
/// `viewport_total` in-viewport items.
pub open spec fn spec_initial_progress(total: nat, viewport_total: nat) -> PrefetchProgress {
    PrefetchProgress {
        total_files: total as usize,
        completed_files: 0,
        failed_files: 0,
        viewport_completed: 0,
        viewport_total: viewport_total as usize,
        is_cancelled: false,
        is_finished: false,
    }
}

/// How many of the first `n` entries of a visitation order are marked
/// in-viewport.
pub open spec fn count_viewport(order: Seq<(usize, bool)>, n: int) -> int
    decreases n,
{
    if n <= 0 {
        0
    } else {
        count_viewport(order, n - 1) + if order[n - 1].1 {
            1int
        } else {
            0int
        }
    }
}

/// The in-viewport count over a prefix never shrinks as the prefix grows.
pub proof fn lemma_count_viewport_monotone(order: Seq<(usize, bool)>, n1: int, n2: int)
    requires
        0 <= n1 <= n2,
    ensures
        0 <= count_viewport(order, n1) <= count_viewport(order, n2),
    decreases n2,
{
    if n2 > n1 {
        lemma_count_viewport_monotone(order, n1, n2 - 1);
    } else {
        if n1 > 0 {
            lemma_count_viewport_monotone(order, 0, n1 - 1);
        }
    }
}

/// A prefix whose in-viewport marks sit exactly on the first `k` entries has
/// in-viewport count `k`.
proof fn lemma_count_flag_prefix(order: Seq<(usize, bool)>, n: int, k: int)
    requires
        0 <= k <= n <= order.len(),
        forall|i: int| 0 <= i < n ==> ((#[trigger] order[i]).1 <==> i < k),
    ensures
        count_viewport(order, n) == k,
    decreases n,
{
    if n > 0 {
        if k == n {
            lemma_count_flag_prefix(order, n - 1, k - 1);
        } else {
            lemma_count_flag_prefix(order, n - 1, k);
        }
    }
}

/// The in-viewport marks of a visitation order sit exactly on its leading
/// viewport entries, so their total count is the clamped viewport's size.
pub proof fn lemma_priority_order_viewport_count(len: nat, vs: nat, ve: nat)
    requires
        min_nat(vs, len) <= min_nat(ve, len),
    ensures
        count_viewport(
            spec_priority_order(len, vs, ve),
            spec_priority_order(len, vs, ve).len() as int,
        ) == spec_viewport_part(len, vs, ve).len(),
{
    let vp = spec_viewport_part(len, vs, ve);
    let bp = spec_before_part(len, vs);
    let ap = spec_after_part(len, ve);
    let inter = spec_interleave(bp, ap);
    let order = spec_priority_order(len, vs, ve);
    lemma_interleave_len(bp, ap);
    lemma_interleave_elems(bp, ap);
    assert(forall|i: int| 0 <= i < bp.len() ==> !(#[trigger] bp[i]).1);
    assert(forall|i: int| 0 <= i < ap.len() ==> !(#[trigger] ap[i]).1);
    assert(forall|i: int| 0 <= i < vp.len() ==> (#[trigger] vp[i]).1);
    assert forall|k: int| 0 <= k < inter.len() implies !(#[trigger] inter[k]).1 by {
        assert(elem_of(inter[k], bp) || elem_of(inter[k], ap));
        if elem_of(inter[k], bp) {
            let i = choose|i: int| 0 <= i < bp.len() && bp[i] == inter[k];
            assert(!bp[i].1);
        } else {
            let i = choose|i: int| 0 <= i < ap.len() && ap[i] == inter[k];
            assert(!ap[i].1);
        }
    }
    assert forall|p: int| 0 <= p < order.len() implies ((#[trigger] order[p]).1 <==> p
        < vp.len()) by {
        if p < vp.len() {
            assert(order[p] == vp[p]);
        } else {
            assert(order[p] == inter[p - vp.len()]);
        }
    }
    lemma_count_flag_prefix(order, order.len() as int, vp.len() as int);
}

/// The state of the one active job: its visitation order, the position of
/// the next item not yet handed out, and the shared progress snapshot.
pub struct ActiveJob {
    pub order: Vec<(usize, bool)>,
    pub next_pos: usize,
    pub progress: PrefetchProgress,
}

impl ActiveJob {
    /// Well-formedness: positions and counters stay within the order, and
    /// the viewport count stays within both the in-viewport items already
    /// handed out and the viewport total, which is the number of in-viewport
    /// entries of the order.
    pub open spec fn wf(self) -> bool {
        &&& self.next_pos <= self.order@.len()
        &&& self.progress.total_files == self.order@.len()
        &&& self.progress.completed_files + self.progress.failed_files <= self.next_pos
        &&& self.progress.viewport_completed <= self.progress.completed_files
        &&& self.progress.viewport_completed <= count_viewport(self.order@, self.next_pos as int)
        &&& self.progress.viewport_total == count_viewport(
            self.order@,
            self.order@.len() as int,
        )
        &&& self.progress.viewport_completed <= self.progress.viewport_total
    }
}

/// The single-job prefetch scheduler: at most one job occupies the slot, and
/// starting a new job first cancels the old one.
pub struct PrefetchScheduler {
    pub job: Option<ActiveJob>,
}

impl PrefetchScheduler {
    /// Whether the slot and its counters are consistent.
    pub open spec fn wf(self) -> bool {
        match self.job {
            Some(j) => j.wf(),
            None => true,
        }
    }

    /// A scheduler with an empty job slot.
    pub fn new() -> (r: Self)
        ensures
            r.job is None,
            r.wf(),
    {
        PrefetchScheduler { job: None }
    }

    /// Marks the active job's progress as cancelled; no further chunks will
    /// be handed out. Idempotent when no job is active.
    pub fn cancel_current_job(&mut self)
        ensures
            old(self).wf() ==> final(self).wf(),
            match old(self).job {
                Some(j) => final(self).job matches Some(j2) && j2.order == j.order && j2.next_pos
                    == j.next_pos && j2.progress == (PrefetchProgress {
                    is_cancelled: true,
                    ..j.progress
                }),
                None => final(self).job is None,
            },
    {
        match &mut self.job {
            Some(j) => {
                j.progress.is_cancelled = true;
            },
            None => {},
        }
    }

    /// Starts a new job: the running job, if any, is cancelled first, and
    /// the slot is filled with a fresh order, position, and progress record,
    /// with no completions yet.
    pub fn start_prefetch(&mut self, job: &PrefetchJob)
        requires
            min_nat(job.viewport_start as nat, job.file_paths@.len()) <= min_nat(
                job.viewport_end as nat,
                job.file_paths@.len(),
            ),
        ensures
            final(self).wf(),
            final(self).job matches Some(j) && j.order@ == spec_priority_order(
                job.file_paths@.len(),
                job.viewport_start as nat,
                job.viewport_end as nat,
            ) && j.next_pos == 0 && j.progress == spec_initial_progress(
                job.file_paths@.len(),
                spec_viewport_part(
                    job.file_paths@.len(),
                    job.viewport_start as nat,
                    job.viewport_end as nat,
                ).len(),
            ),
    {
        self.cancel_current_job();
        let len = job.file_paths.len();
        let order = compute_priority_order(len, job.viewport_start, job.viewport_end);
        let vs: usize = if job.viewport_start <= len {
            job.viewport_start
        } else {
            len
        };
        let ve: usize = if job.viewport_end <= len {
            job.viewport_end
        } else {
            len
        };
        let viewport_total: usize = if vs < ve {
            ve - vs
        } else {
            0
        };
        let progress = PrefetchProgress {
            total_files: len,
            completed_files: 0,
            failed_files: 0,
            viewport_completed: 0,
            viewport_total,
            is_cancelled: false,
            is_finished: false,
        };
        proof {
            lemma_priority_order_len(
                len as nat,
                job.viewport_start as nat,
                job.viewport_end as nat,
            );
            lemma_priority_order_viewport_count(
                len as nat,
                job.viewport_start as nat,
                job.viewport_end as nat,
            );
        }
        self.job = Some(ActiveJob { order, next_pos: 0, progress });
    }

    /// A snapshot of the active job's progress, if any.
    pub fn get_progress(&self) -> (r: Option<PrefetchProgress>)
        ensures
            match self.job {
                Some(j) => r == Some(j.progress),
                None => r is None,
            },
    {
        match &self.job {
            Some(j) => Some(j.progress),
            None => None,
        }
    }

    /// Whether a job exists that is neither finished nor cancelled.
    pub fn is_running(&self) -> (r: bool)
        ensures
            r == match self.job {
                Some(j) => !j.progress.is_finished && !j.progress.is_cancelled,
                None => false,
            },
    {
        match &self.job {
            Some(j) => !j.progress.is_finished && !j.progress.is_cancelled,
            None => false,
        }
    }

    /// Hands out the next chunk of up to `CHUNK_SIZE` items to process, as
    /// pairs of candidate index and in-viewport flag. Returns nothing — and
    /// marks the job finished — once the job is cancelled or the order is
    /// exhausted, so a cancelled job never starts another chunk.
    pub fn next_chunk(&mut self) -> (r: Option<Vec<(usize, bool)>>)
        requires
            old(self).wf(),
        ensures
            final(self).wf(),
            match old(self).job {
                None => r is None && final(self).job is None,
                Some(j) => {
                    if j.progress.is_cancelled || j.next_pos >= j.order@.len() {
                        (r is None) && (final(self).job matches Some(j2) && j2.order == j.order
                            && j2.next_pos == j.next_pos && j2.progress == (PrefetchProgress {
                            is_finished: true,
                            ..j.progress
                        }))
                    } else {
                        r matches Some(chunk) && (final(self).job matches Some(j2) && j2.order
                            == j.order && j2.progress == j.progress && j2.next_pos as int == (
                        if j.next_pos + CHUNK_SIZE <= j.order@.len() {
                            j.next_pos + CHUNK_SIZE
                        } else {
                            j.order@.len() as int
                        }) && chunk@ == j.order@.subrange(j.next_pos as int, j2.next_pos as int))
                    }
                },
            },
    {
        match &mut self.job {
            None => None,
            Some(j) => {
                let n = j.order.len();
                if j.progress.is_cancelled || j.next_pos >= n {
                    j.progress.is_finished = true;
                    None
                } else {
                    let start = j.next_pos;
                    let end: usize = if n - start >= CHUNK_SIZE {
                        start + CHUNK_SIZE
                    } else {
                        n
                    };
                    let mut chunk: Vec<(usize, bool)> = Vec::new();
                    let mut p: usize = start;
                    while p < end
                        invariant
                            start <= p <= end,
                            end <= j.order@.len(),
                            chunk@ =~= j.order@.subrange(start as int, p as int),
                        decreases end - p,
                    {
                        chunk.push(j.order[p]);
                        proof {
                            assert(chunk@ =~= j.order@.subrange(start as int, p as int + 1));
                        }
                        p = p + 1;
                    }
                    proof {
                        lemma_count_viewport_monotone(j.order@, start as int, end as int);
                    }
                    j.next_pos = end;
                    Some(chunk)
                }
            },
        }
    }

    /// Records one finished item: a success bumps the completed count (and
    /// the viewport count when the item was in the viewport), a failure
    /// bumps the failed count. An in-viewport success is admitted only while
    /// fewer in-viewport successes are recorded than in-viewport items were
    /// handed out, which keeps the viewport count within the viewport total.
    pub fn record_item(&mut self, in_viewport: bool, ok: bool)
        requires
            old(self).wf(),
            old(self).job matches Some(j) && j.progress.completed_files + j.progress.failed_files
                < j.next_pos,
            in_viewport ==> (old(self).job matches Some(j)
                && j.progress.viewport_completed < count_viewport(j.order@, j.next_pos as int)),
        ensures
            final(self).wf(),
            final(self).job matches Some(j2) && (old(self).job matches Some(j) && j2.order
                == j.order && j2.next_pos == j.next_pos && j2.progress == (PrefetchProgress {
                completed_files: if ok {
                    (j.progress.completed_files + 1) as usize
                } else {
                    j.progress.completed_files
                },
                failed_files: if ok {
                    j.progress.failed_files
                } else {
                    (j.progress.failed_files + 1) as usize
                },
                viewport_completed: if ok && in_viewport {
                    (j.progress.viewport_completed + 1) as usize
                } else {
                    j.progress.viewport_completed
                },
                ..j.progress
            })),
    {
        match &mut self.job {
            Some(j) => {
                proof {
                    lemma_count_viewport_monotone(
                        j.order@,
                        j.next_pos as int,
                        j.order@.len() as int,
                    );
                }
                if ok {
                    j.progress.completed_files = j.progress.completed_files + 1;
                    if in_viewport {
                        j.progress.viewport_completed = j.progress.viewport_completed + 1;
                    }
                } else {
                    j.progress.failed_files = j.progress.failed_files + 1;
                }
            },
            None => {
                proof {
                    assert(false);
                }
            },
        }
    }
}

/// The visitation order covers exactly the candidate list, provided the
/// viewport is a range (its clamped start does not exceed its clamped end).
pub proof fn lemma_priority_order_len(len: nat, vs: nat, ve: nat)
    requires
        min_nat(vs, len) <= min_nat(ve, len),
    ensures
        spec_priority_order(len, vs, ve).len() == len,
{
    lemma_interleave_len(spec_before_part(len, vs), spec_after_part(len, ve));
}

/// Interleaving keeps every element of both sides.
proof fn lemma_interleave_len(a: Seq<(usize, bool)>, b: Seq<(usize, bool)>)
    ensures
        spec_interleave(a, b).len() == a.len() + b.len(),
    decreases a.len() + b.len(),
{
    if a.len() == 0 {
    } else if b.len() == 0 {
    } else {
        lemma_interleave_len(a.drop_first(), b.drop_first());
    }
}

/// Whether a sequence holds this element.
spec fn elem_of(x: (usize, bool), s: Seq<(usize, bool)>) -> bool {
    exists|i: int| 0 <= i < s.len() && s[i] == x
}

/// Every element of an interleaving comes from one of its two sides.
proof fn lemma_interleave_elems(a: Seq<(usize, bool)>, b: Seq<(usize, bool)>)
    ensures
        forall|k: int|
            0 <= k < spec_interleave(a, b).len() ==> elem_of(
                #[trigger] spec_interleave(a, b)[k],
                a,
            ) || elem_of(spec_interleave(a, b)[k], b),
    decreases a.len() + b.len(),
{
    lemma_interleave_len(a, b);
    if a.len() == 0 {
        assert forall|k: int| 0 <= k < spec_interleave(a, b).len() implies elem_of(
            #[trigger] spec_interleave(a, b)[k],
            a,
        ) || elem_of(spec_interleave(a, b)[k], b) by {
            assert(b[k] == spec_interleave(a, b)[k]);
        }
    } else if b.len() == 0 {
        assert forall|k: int| 0 <= k < spec_interleave(a, b).len() implies elem_of(
            #[trigger] spec_interleave(a, b)[k],
            a,
        ) || elem_of(spec_interleave(a, b)[k], b) by {
            assert(a[k] == spec_interleave(a, b)[k]);
        }
    } else {
        let a1 = a.drop_first();
        let b1 = b.drop_first();
        lemma_interleave_elems(a1, b1);
        lemma_interleave_len(a1, b1);
        let rest = spec_interleave(a1, b1);
        assert forall|k: int| 0 <= k < spec_interleave(a, b).len() implies elem_of(
            #[trigger] spec_interleave(a, b)[k],
            a,
        ) || elem_of(spec_interleave(a, b)[k], b) by {
            if k == 0 {
                assert(spec_interleave(a, b)[0] == a[0]);
            } else if k == 1 {
                assert(spec_interleave(a, b)[1] == b[0]);
            } else {
                assert(spec_interleave(a, b)[k] == rest[k - 2]);
                assert(elem_of(rest[k - 2], a1) || elem_of(rest[k - 2], b1));
                if elem_of(rest[k - 2], a1) {
                    let i = choose|i: int| 0 <= i < a1.len() && a1[i] == rest[k - 2];
                    assert(a[i + 1] == rest[k - 2]);
                } else {
                    let i = choose|i: int| 0 <= i < b1.len() && b1[i] == rest[k - 2];
                    assert(b[i + 1] == rest[k - 2]);
                }
            }
        }
    }
}

/// Interleaving two sides whose indices are duplicate-free and disjoint
/// yields a duplicate-free sequence of indices.
proof fn lemma_interleave_no_dup(a: Seq<(usize, bool)>, b: Seq<(usize, bool)>)
    requires
        forall|p: int, q: int| 0 <= p < q < a.len() ==> (#[trigger] a[p]).0 != (#[trigger] a[q]).0,
        forall|p: int, q: int| 0 <= p < q < b.len() ==> (#[trigger] b[p]).0 != (#[trigger] b[q]).0,
        forall|i: int, j: int|
            0 <= i < a.len() && 0 <= j < b.len() ==> (#[trigger] a[i]).0 != (#[trigger] b[j]).0,
    ensures
        forall|p: int, q: int|
            0 <= p < q < spec_interleave(a, b).len() ==> (#[trigger] spec_interleave(a, b)[p]).0
                != (#[trigger] spec_interleave(a, b)[q]).0,
    decreases a.len() + b.len(),
{
    lemma_interleave_len(a, b);
    if a.len() == 0 {
    } else if b.len() == 0 {
    } else {
        let a1 = a.drop_first();
        let b1 = b.drop_first();
        lemma_interleave_no_dup(a1, b1);
        lemma_interleave_elems(a1, b1);
        lemma_interleave_len(a1, b1);
        let rest = spec_interleave(a1, b1);
        assert forall|p: int, q: int|
            0 <= p < q < spec_interleave(a, b).len() implies (#[trigger] spec_interleave(a, b)[p]).0
            != (#[trigger] spec_interleave(a, b)[q]).0 by {
            if p >= 2 {
                assert(spec_interleave(a, b)[p] == rest[p - 2]);
                assert(spec_interleave(a, b)[q] == rest[q - 2]);
            } else {
                let hd = if p == 0 {
                    a[0]
                } else {
                    b[0]
                };
                assert(spec_interleave(a, b)[p] == hd);
                if q == 1 {
                    assert(spec_interleave(a, b)[q] == b[0]);
                } else {
                    assert(spec_interleave(a, b)[q] == rest[q - 2]);
                    assert(elem_of(rest[q - 2], a1) || elem_of(rest[q - 2], b1));
                    if elem_of(rest[q - 2], a1) {
                        let i = choose|i: int| 0 <= i < a1.len() && a1[i] == rest[q - 2];
                        assert(a[i + 1] == rest[q - 2]);
                    } else {
                        let i = choose|i: int| 0 <= i < b1.len() && b1[i] == rest[q - 2];
                        assert(b[i + 1] == rest[q - 2]);
                    }
                }
            }
        }
    }
}

/// Law: the visitation order is a permutation of the candidates. For a
/// viewport that is a range once clamped, the order has exactly one entry
/// per candidate index, every index is in range and none repeats, and an
/// entry is marked in-viewport exactly when its index lies in the clamped
/// viewport.
#[verifier::spinoff_prover]
#[verifier::rlimit(80)]
pub proof fn lemma_priority_order_permutation(len: nat, vs: nat, ve: nat)
    requires
        min_nat(vs, len) <= min_nat(ve, len),
        len <= usize::MAX,
    ensures
        spec_priority_order(len, vs, ve).len() == len,
        forall|p: int|
            0 <= p < len ==> (#[trigger] spec_priority_order(len, vs, ve)[p]).0 < len,
        forall|p: int, q: int|
            0 <= p < q < len ==> (#[trigger] spec_priority_order(len, vs, ve)[p]).0 != (
            #[trigger] spec_priority_order(len, vs, ve)[q]).0,
        forall|p: int|
            0 <= p < len ==> ((#[trigger] spec_priority_order(len, vs, ve)[p]).1 <==> min_nat(
                vs,
                len,
            ) <= spec_priority_order(len, vs, ve)[p].0 < min_nat(ve, len)),
{
    let vp = spec_viewport_part(len, vs, ve);
    let bp = spec_before_part(len, vs);
    let ap = spec_after_part(len, ve);
    let inter = spec_interleave(bp, ap);
    let order = spec_priority_order(len, vs, ve);
    let vs1 = min_nat(vs, len);
    let ve1 = min_nat(ve, len);
    lemma_priority_order_len(len, vs, ve);
    lemma_interleave_len(bp, ap);
    lemma_interleave_elems(bp, ap);
    // each side's indices are in its own band around the viewport
    assert(forall|i: int| 0 <= i < bp.len() ==> (#[trigger] bp[i]).0 < vs1 && !bp[i].1);
    assert(forall|i: int| 0 <= i < ap.len() ==> ve1 <= (#[trigger] ap[i]).0 < len && !ap[i].1);
    assert(forall|i: int| 0 <= i < vp.len() ==> vs1 <= (#[trigger] vp[i]).0 < ve1 && vp[i].1);
    assert(forall|p: int, q: int|
        0 <= p < q < bp.len() ==> (#[trigger] bp[p]).0 != (#[trigger] bp[q]).0);
    assert(forall|p: int, q: int|
        0 <= p < q < ap.len() ==> (#[trigger] ap[p]).0 != (#[trigger] ap[q]).0);
    assert(forall|i: int, j: int|
        0 <= i < bp.len() && 0 <= j < ap.len() ==> (#[trigger] bp[i]).0 != (#[trigger] ap[j]).0);
    lemma_interleave_no_dup(bp, ap);
    assert forall|k: int| 0 <= k < inter.len() implies ((#[trigger] inter[k]).0 < vs1 || ve1
        <= inter[k].0 < len) && !inter[k].1 by {
        assert(elem_of(inter[k], bp) || elem_of(inter[k], ap));
        if elem_of(inter[k], bp) {
            let i = choose|i: int| 0 <= i < bp.len() && bp[i] == inter[k];
            assert(bp[i].0 < vs1 && !bp[i].1);
        } else {
            let i = choose|i: int| 0 <= i < ap.len() && ap[i] == inter[k];
            assert(ve1 <= ap[i].0 < len && !ap[i].1);
        }
    }
    assert forall|p: int, q: int| 0 <= p < q < len implies (#[trigger] order[p]).0 != (
    #[trigger] order[q]).0 by {
        if p < vp.len() && q < vp.len() {
            assert(order[p] == vp[p] && order[q] == vp[q]);
        } else if p < vp.len() {
            assert(order[p] == vp[p] && order[q] == inter[q - vp.len()]);
        } else {
            assert(order[p] == inter[p - vp.len()] && order[q] == inter[q - vp.len()]);
        }
    }
    assert forall|p: int| 0 <= p < len implies (#[trigger] order[p]).0 < len && (order[p].1 <==> vs1
        <= order[p].0 < ve1) by {
        if p < vp.len() {
            assert(order[p] == vp[p]);
        } else {
            assert(order[p] == inter[p - vp.len()]);
        }
    }
}

/// Law: cancellation stops the job early. Once a job's progress is marked
/// cancelled, the scheduler hands out no further chunk (the next request
/// ends the job), and the completed count can never exceed the positions
/// already handed out — in particular, a job cancelled before all items were
/// handed out ends with fewer completions than candidates.
pub proof fn lemma_cancel_stops_early(s: PrefetchScheduler)
    requires
        s.wf(),
        s.job matches Some(j) && j.progress.is_cancelled,
    ensures
        s.job matches Some(j) && j.progress.completed_files <= j.next_pos,
        s.job matches Some(j) && (j.next_pos < j.order@.len()
            ==> j.progress.completed_files < j.progress.total_files),
{
}

/// Law: one job at a time. A job slot is always cancelled before it is
/// replaced: the record that `cancel_current_job` leaves behind shows
/// `is_cancelled` with all counts as they were, while the record that
/// `start_prefetch` installs starts with zero completions. So the old job's
/// cancellation is in effect before the new job produces any completion.
pub proof fn lemma_single_job(old_progress: PrefetchProgress, total: nat, viewport_total: nat)
    ensures
        (PrefetchProgress { is_cancelled: true, ..old_progress }).is_cancelled,
        (PrefetchProgress { is_cancelled: true, ..old_progress }).completed_files
            == old_progress.completed_files,
        spec_initial_progress(total, viewport_total).completed_files == 0,
        !spec_initial_progress(total, viewport_total).is_cancelled,
{
}

} // verus!
