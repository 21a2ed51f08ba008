//! The validation workers. Each worker owns a share of the key space. Until
//! its time is up it draws a key of its share, reads the record that is
//! published under it, checks the signature, and keeps the stored form of the
//! confirmed record in a set of its own, which it hands to the channel as the
//! batching mode says.
//!
//! What one sample does to a worker is a function of the sample alone,
//! `WorkerState::step`: the sample is judged by `examine`, and the outcome is
//! recorded by `WorkerState::record`. The loop around it, `run_worker`, draws
//! the keys, reads and sends. Threads are the caller's part: one call of
//! `pool_plan`, one call of `run_worker` per thread, then one call of
//! `collect`.
use crate::confirmations::{all_confirmations, is_confirmation, ConfirmationSet};
use crate::encoding::{encode, encoding, lemma_decode_encode};
use crate::mempool::MempoolReader;
use crate::partition::KeyRange;
use crate::random::random_key;
use crate::tx::{confirmed, lemma_confirm_keeps_validity, signature_valid, PipelineError, Tx, TxView};
use crossbeam_channel::{Sender, TrySendError};
use std::time::Instant;
use vstd::prelude::*;

verus! {

/// `crossbeam_channel::Sender`, the sending side of a channel. Verus sees
/// nothing inside it.
#[verifier::external_type_specification]
#[verifier::external_body]
#[verifier::reject_recursive_types(T)]
pub struct ExSender<T>(Sender<T>);

/// `std::time::Instant`, a moment on the clock. Verus sees nothing inside it.
#[verifier::external_type_specification]
#[verifier::external_body]
pub struct ExInstant(Instant);

/// `Sender::try_send` hands a batch to the channel without waiting. Where the
/// channel is full or has no receiver, the batch comes back as it was. Only
/// sets of confirmations are sent.
#[verifier::external_body]
fn try_send(sender: &Sender<ConfirmationSet>, batch: ConfirmationSet) -> (back: Option<
    ConfirmationSet,
>)
    requires
        batch.wf(),
        all_confirmations(batch@),
    ensures
        back matches Some(returned) ==> returned == batch,
{
    match sender.try_send(batch) {
        Ok(()) => None,
        Err(TrySendError::Full(batch)) => Some(batch),
        Err(TrySendError::Disconnected(batch)) => Some(batch),
    }
}

/// `Instant::elapsed`, in whole milliseconds: the time since `since`.
#[verifier::external_body]
fn elapsed_ms(since: &Instant) -> u64 {
    since.elapsed().as_millis() as u64
}

/// When a worker hands its confirmations to the channel.
#[derive(Clone, Copy, Debug, PartialEq, Eq, Structural)]
pub enum BatchMode {
    /// Every confirmation at once, by itself.
    Immediate,
    /// As soon as the worker holds this many.
    SizeBatched(usize),
    /// Never while the worker runs: they are flushed when the workers are
    /// joined.
    Suppressed,
}

impl BatchMode {
    /// Whether a worker that holds `held` confirmations hands them over now.
    pub open spec fn flushes(self, held: nat) -> bool {
        match self {
            BatchMode::Immediate => true,
            BatchMode::SizeBatched(k) => held >= k,
            BatchMode::Suppressed => false,
        }
    }
}

/// What a worker has done so far, as mathematical values.
pub struct WorkerView {
    /// The confirmations that it holds.
    pub local: Set<Seq<char>>,
    /// How many records it has checked.
    pub attempts: nat,
    /// How many of them had an invalid signature.
    pub failures: nat,
}

/// What a sample is worth: the record, where one was found and its signature
/// is valid, else why there is none.
pub open spec fn judged(sample: Option<TxView>) -> Result<TxView, PipelineError> {
    match sample {
        None => Err(PipelineError::NotFound),
        Some(v) => if signature_valid(v) {
            Ok(v)
        } else {
            Err(PipelineError::SignatureInvalid)
        },
    }
}

impl WorkerView {
    /// The worker holds one confirmation at most for each record that it
    /// checked and found valid.
    pub open spec fn wf(self) -> bool {
        &&& self.local.finite()
        &&& self.local.len() + self.failures <= self.attempts
    }

    /// The worker after the outcome of one sample was recorded, and the batch
    /// that it hands over, if any. No record under the key changes nothing.
    /// Any other failure counts as an attempt and a failure. A record counts
    /// as an attempt; the stored form of its confirmed copy joins the local
    /// set, and where the mode says so the whole set leaves as a batch. A
    /// record whose count is full cannot be confirmed and is only counted.
    pub open spec fn recorded(self, outcome: Result<TxView, PipelineError>, mode: BatchMode) -> (
        WorkerView,
        Option<Set<Seq<char>>>,
    ) {
        match outcome {
            Err(PipelineError::NotFound) => (self, None),
            Err(_) => (
                WorkerView {
                    local: self.local,
                    attempts: self.attempts + 1,
                    failures: self.failures + 1,
                },
                None,
            ),
            Ok(v) => if v.conf == u32::MAX {
                (
                    WorkerView {
                        local: self.local,
                        attempts: self.attempts + 1,
                        failures: self.failures,
                    },
                    None,
                )
            } else {
                let held = self.local.insert(encoding(confirmed(v)));
                if mode.flushes(held.len()) {
                    (
                        WorkerView {
                            local: Set::empty(),
                            attempts: self.attempts + 1,
                            failures: self.failures,
                        },
                        Some(held),
                    )
                } else {
                    (
                        WorkerView {
                            local: held,
                            attempts: self.attempts + 1,
                            failures: self.failures,
                        },
                        None,
                    )
                }
            },
        }
    }

    /// The worker after one sample, and the batch that it hands over, if any:
    /// the sample is judged, and the outcome recorded.
    pub open spec fn stepped(self, sample: Option<TxView>, mode: BatchMode) -> (
        WorkerView,
        Option<Set<Seq<char>>>,
    ) {
        self.recorded(judged(sample), mode)
    }
}

/// The stored form of a valid record's confirmed copy is a confirmation.
pub proof fn lemma_confirmed_is_confirmation(v: TxView)
    requires
        signature_valid(v),
        v.conf < u32::MAX,
    ensures
        is_confirmation(encoding(confirmed(v))),
{
    lemma_decode_encode(confirmed(v));
    lemma_confirm_keeps_validity(v);
}

/// Recording an outcome keeps a worker's counts in order, and a batch that
/// leaves has one member at most for each record found valid.
pub proof fn lemma_record_keeps_wf(
    w: WorkerView,
    outcome: Result<TxView, PipelineError>,
    mode: BatchMode,
)
    requires
        w.wf(),
    ensures
        w.recorded(outcome, mode).0.wf(),
        w.recorded(outcome, mode).1 matches Some(batch) ==> batch.finite() && batch.len()
            + w.failures <= w.attempts + 1,
{
}

/// A worker that holds nothing but confirmations still does so after a
/// step, and what it hands over is a set of confirmations.
pub proof fn lemma_step_keeps_confirmations(w: WorkerView, sample: Option<TxView>, mode: BatchMode)
    requires
        all_confirmations(w.local),
    ensures
        all_confirmations(w.stepped(sample, mode).0.local),
        w.stepped(sample, mode).1 matches Some(batch) ==> all_confirmations(batch),
{
    if let Some(v) = sample {
        if signature_valid(v) && v.conf < u32::MAX {
            lemma_confirmed_is_confirmation(v);
        }
    }
}

/// What a sample holds, as mathematical values.
pub open spec fn seen(sample: Option<Tx>) -> Option<TxView> {
    match sample {
        Some(tx) => Some(tx@),
        None => None,
    }
}

/// What an outcome holds, as mathematical values.
pub open spec fn outcome_view(outcome: Result<Tx, PipelineError>) -> Result<TxView, PipelineError> {
    match outcome {
        Ok(tx) => Ok(tx@),
        Err(e) => Err(e),
    }
}

/// Decides what a sample is worth: the record, where one was found and its
/// signature is valid.
pub fn examine(sample: Option<Tx>) -> (r: Result<Tx, PipelineError>)
    ensures
        outcome_view(r) == judged(seen(sample)),
        r matches Ok(tx) ==> sample == Some(tx),
{
    match sample {
        None => Err(PipelineError::NotFound),
        Some(tx) => match tx.validate() {
            Ok(()) => Ok(tx),
            Err(e) => Err(e),
        },
    }
}

/// A worker between two samples.
pub struct WorkerState {
    local: ConfirmationSet,
    attempts: u32,
    failures: u32,
}

/// What a worker gives back when it is done.
pub struct WorkerReport {
    /// The confirmations that it still held.
    pub residual: ConfirmationSet,
    /// How many records it checked.
    pub attempts: u32,
    /// How many of them had an invalid signature.
    pub failures: u32,
}

impl View for WorkerState {
    type V = WorkerView;

    closed spec fn view(&self) -> WorkerView {
        WorkerView {
            local: self.local@,
            attempts: self.attempts as nat,
            failures: self.failures as nat,
        }
    }
}

impl View for WorkerReport {
    type V = WorkerView;

    open spec fn view(&self) -> WorkerView {
        WorkerView {
            local: self.residual@,
            attempts: self.attempts as nat,
            failures: self.failures as nat,
        }
    }
}

impl WorkerState {
    pub closed spec fn wf(&self) -> bool {
        &&& self.local.wf()
        &&& self@.wf()
    }

    /// A valid worker has a valid view.
    pub proof fn lemma_view_wf(&self)
        requires
            self.wf(),
        ensures
            self@.wf(),
            self@.attempts <= u32::MAX,
    {
    }

    /// A worker that has done nothing.
    pub fn new() -> (w: WorkerState)
        ensures
            w.wf(),
            w@ == (WorkerView { local: Set::empty(), attempts: 0, failures: 0 }),
    {
        WorkerState { local: ConfirmationSet::new(), attempts: 0, failures: 0 }
    }

    /// How many records the worker has checked.
    pub fn attempts(&self) -> (n: u32)
        ensures
            n == self@.attempts,
    {
        self.attempts
    }

    /// Records the outcome of one sample. Gives the batch to hand over, if
    /// the mode asks for one now.
    pub fn record(&mut self, outcome: Result<Tx, PipelineError>, mode: BatchMode) -> (batch: Option<
        ConfirmationSet,
    >)
        requires
            old(self).wf(),
            old(self)@.attempts < u32::MAX,
        ensures
            final(self).wf(),
            final(self)@ == old(self)@.recorded(outcome_view(outcome), mode).0,
            match batch {
                Some(set) => set.wf() && Some(set@) == old(self)@.recorded(
                    outcome_view(outcome),
                    mode,
                ).1,
                None => old(self)@.recorded(outcome_view(outcome), mode).1 is None,
            },
    {
        proof {
            lemma_record_keeps_wf(self@, outcome_view(outcome), mode);
            self.local.lemma_view();
        }
        match outcome {
            Err(PipelineError::NotFound) => None,
            Err(_) => {
                self.attempts = self.attempts + 1;
                self.failures = self.failures + 1;
                None
            },
            Ok(tx) => {
                self.attempts = self.attempts + 1;
                if tx.conf == u32::MAX {
                    return None;
                }
                let copy = tx.confirm();
                self.local.insert(encode(&copy));
                let held = self.local.len();
                let flush = match mode {
                    BatchMode::Immediate => true,
                    BatchMode::SizeBatched(k) => held >= k,
                    BatchMode::Suppressed => false,
                };
                if flush {
                    Some(self.local.take())
                } else {
                    None
                }
            },
        }
    }

    /// Takes one sample: what was read under the key that was drawn. The
    /// sample is judged and the outcome recorded. Gives the batch to hand
    /// over, if the mode asks for one now.
    pub fn step(&mut self, sample: Option<Tx>, mode: BatchMode) -> (batch: Option<ConfirmationSet>)
        requires
            old(self).wf(),
            old(self)@.attempts < u32::MAX,
        ensures
            final(self).wf(),
            final(self)@ == old(self)@.stepped(seen(sample), mode).0,
            match batch {
                Some(set) => set.wf() && Some(set@) == old(self)@.stepped(seen(sample), mode).1,
                None => old(self)@.stepped(seen(sample), mode).1 is None,
            },
    {
        self.record(examine(sample), mode)
    }

    /// Takes back a batch that the channel did not accept. The worker holds
    /// it again, together with what it has gathered since.
    pub fn restore(&mut self, batch: ConfirmationSet)
        requires
            old(self).wf(),
            batch.wf(),
            old(self)@.local.len() + batch@.len() + old(self)@.failures <= old(self)@.attempts,
        ensures
            final(self).wf(),
            final(self)@ == (WorkerView { local: old(self)@.local.union(batch@), ..old(self)@ }),
    {
        proof {
            batch.lemma_view();
            self.local.lemma_view();
            vstd::set_lib::lemma_len_union(self@.local, batch@);
        }
        self.local.extend(batch);
    }

    /// Ends the worker: what it still holds, and its counts.
    pub fn finish(self) -> (report: WorkerReport)
        requires
            self.wf(),
        ensures
            report@ == self@,
            report.residual.wf(),
    {
        WorkerReport { residual: self.local, attempts: self.attempts, failures: self.failures }
    }
}

/// One sample of a run, as mathematical values: the key that was drawn, what
/// was found under it, and whether the channel refused the batch that the
/// sample made, if it made one.
pub struct Draw {
    pub key: usize,
    pub found: Option<TxView>,
    pub refused: bool,
}

/// The worker that has done nothing.
pub open spec fn idle() -> WorkerView {
    WorkerView { local: Set::empty(), attempts: 0, failures: 0 }
}

/// The worker after a run of samples, from the idle worker on: each sample
/// is a step, and a batch that the channel refuses is held again.
pub open spec fn run_of(draws: Seq<Draw>, mode: BatchMode) -> WorkerView
    decreases draws.len(),
{
    if draws.len() == 0 {
        idle()
    } else {
        let before = run_of(draws.drop_last(), mode);
        let (after, batch) = before.stepped(draws.last().found, mode);
        match batch {
            Some(set) => if draws.last().refused {
                WorkerView { local: after.local.union(set), ..after }
            } else {
                after
            },
            None => after,
        }
    }
}

/// Whether `view` is what some run leaves that takes `max_samples` samples at
/// most, each with a key of `range`.
pub open spec fn is_run(view: WorkerView, range: KeyRange, max_samples: nat, mode: BatchMode) -> bool {
    exists|draws: Seq<Draw>|
        {
            &&& draws.len() <= max_samples
            &&& forall|i: int| 0 <= i < draws.len() ==> range.contains((#[trigger] draws[i]).key as int)
            &&& view == #[trigger] run_of(draws, mode)
        }
}

/// Everything that a run handed to the channel and the channel took.
pub open spec fn sent_of(draws: Seq<Draw>, mode: BatchMode) -> Set<Seq<char>>
    decreases draws.len(),
{
    if draws.len() == 0 {
        Set::empty()
    } else {
        let before = run_of(draws.drop_last(), mode);
        let sent = sent_of(draws.drop_last(), mode);
        match before.stepped(draws.last().found, mode).1 {
            Some(set) => if draws.last().refused {
                sent
            } else {
                sent.union(set)
            },
            None => sent,
        }
    }
}

/// Everything that a run confirmed: what the channel took of it, and what
/// the worker still holds.
pub open spec fn confirmed_by(draws: Seq<Draw>, mode: BatchMode) -> Set<Seq<char>> {
    sent_of(draws, mode).union(run_of(draws, mode).local)
}

/// Of every run: nothing reaches the channel or stays with the worker that
/// is no confirmation, and all of it together has one member at most for each
/// record that the worker checked and found valid. The worker checked one
/// record at most for each sample.
pub proof fn lemma_run_is_bounded(draws: Seq<Draw>, mode: BatchMode)
    ensures
        run_of(draws, mode).wf(),
        run_of(draws, mode).attempts <= draws.len(),
        confirmed_by(draws, mode).finite(),
        all_confirmations(confirmed_by(draws, mode)),
        confirmed_by(draws, mode).len() + run_of(draws, mode).failures <= run_of(
            draws,
            mode,
        ).attempts,
    decreases draws.len(),
{
    if draws.len() > 0 {
        let front = draws.drop_last();
        lemma_run_is_bounded(front, mode);
        let before = run_of(front, mode);
        let sent = sent_of(front, mode);
        let all = confirmed_by(front, mode);
        let found = draws.last().found;
        assert(sent.finite()) by {
            assert(sent.subset_of(all));
            vstd::set_lib::lemma_len_subset(sent, all);
        }
        assert(before.local.subset_of(all));
        assert(all_confirmations(sent) && all_confirmations(before.local));
        lemma_step_keeps_confirmations(before, found, mode);
        lemma_record_keeps_wf(before, judged(found), mode);
        match judged(found) {
            Ok(v) => {
                if v.conf < u32::MAX {
                    let text = encoding(confirmed(v));
                    lemma_confirmed_is_confirmation(v);
                    let held = before.local.insert(text);
                    assert(Set::<Seq<char>>::empty().union(held) =~= held);
                    assert(confirmed_by(draws, mode) =~= all.insert(text));
                } else {
                    assert(confirmed_by(draws, mode) =~= all);
                }
            },
            Err(_) => {
                assert(confirmed_by(draws, mode) =~= all);
            },
        }
    } else {
        assert(confirmed_by(draws, mode) =~= Set::<Seq<char>>::empty());
    }
}

/// Everything that the runs of a pool confirmed, all together.
pub open spec fn pool_confirmed(runs: Seq<Seq<Draw>>, mode: BatchMode) -> Set<Seq<char>>
    decreases runs.len(),
{
    if runs.len() == 0 {
        Set::empty()
    } else {
        pool_confirmed(runs.drop_last(), mode).union(confirmed_by(runs.last(), mode))
    }
}

/// The attempts of the runs of a pool, added up.
pub open spec fn pool_attempts(runs: Seq<Seq<Draw>>, mode: BatchMode) -> nat
    decreases runs.len(),
{
    if runs.len() == 0 {
        0
    } else {
        pool_attempts(runs.drop_last(), mode) + run_of(runs.last(), mode).attempts
    }
}

/// Of every pool: what its workers handed to the channel and what they
/// still hold, all together, is a set of confirmations with no more members
/// than records were checked. Whatever reaches the aggregator is part of it.
pub proof fn lemma_pool_is_bounded(runs: Seq<Seq<Draw>>, mode: BatchMode)
    ensures
        pool_confirmed(runs, mode).finite(),
        all_confirmations(pool_confirmed(runs, mode)),
        pool_confirmed(runs, mode).len() <= pool_attempts(runs, mode),
        forall|i: int|
            0 <= i < runs.len() ==> (#[trigger] sent_of(runs[i], mode)).subset_of(
                pool_confirmed(runs, mode),
            ),
    decreases runs.len(),
{
    if runs.len() > 0 {
        let front = runs.drop_last();
        lemma_pool_is_bounded(front, mode);
        lemma_run_is_bounded(runs.last(), mode);
        vstd::set_lib::lemma_len_union(pool_confirmed(front, mode), confirmed_by(runs.last(), mode));
        assert forall|i: int| 0 <= i < runs.len() implies (#[trigger] sent_of(
            runs[i],
            mode,
        )).subset_of(pool_confirmed(runs, mode)) by {
            if i < front.len() {
                assert(front[i] == runs[i]);
                assert(sent_of(front[i], mode).subset_of(pool_confirmed(front, mode)));
            }
        }
    }
}

/// Runs one worker over its share `range` of the key space, for `budget_ms`
/// milliseconds from `started` on and for `max_samples` samples at most. Each
/// sample is a key drawn from the share and what `reader` finds under it;
/// each batch that `WorkerState::step` asks for goes to `sender`, and comes
/// back into the worker's own set where the channel does not take it.
///
/// The keys, the reads and the clock are not known in advance. Whatever
/// they were, the report is what a run of samples leaves, `max_samples` at
/// most, each with a key of the share: the worker checked `max_samples`
/// records at most, and what it still holds is a set of confirmations, one at
/// most for each record that it found valid. Without keys, samples or time
/// the worker does nothing.
pub fn run_worker(
    reader: &MempoolReader,
    sender: &Sender<ConfirmationSet>,
    range: KeyRange,
    started: &Instant,
    budget_ms: u64,
    mode: BatchMode,
    max_samples: u32,
) -> (report: WorkerReport)
    ensures
        report.residual.wf(),
        report@.wf(),
        all_confirmations(report.residual@),
        report.attempts <= max_samples,
        is_run(report@, range, max_samples as nat, mode),
        range.start >= range.end || max_samples == 0 || budget_ms == 0 ==> report@ == idle(),
{
    let mut state = WorkerState::new();
    let mut samples: u32 = 0;
    let ghost mut draws: Seq<Draw> = Seq::empty();
    if range.is_empty() {
        proof {
            assert(state@ == run_of(draws, mode));
        }
        return state.finish();
    }
    while samples < max_samples && elapsed_ms(started) < budget_ms
        invariant
            state.wf(),
            all_confirmations(state@.local),
            state@.attempts <= samples <= max_samples,
            range.start < range.end,
            draws.len() == samples,
            forall|i: int| 0 <= i < draws.len() ==> range.contains((#[trigger] draws[i]).key as int),
            state@ == run_of(draws, mode),
            samples == 0 ==> state@ == idle(),
            samples == 0 || budget_ms > 0,
        decreases max_samples - samples,
    {
        samples = samples + 1;
        let key = random_key(range.start, range.end);
        let sample = reader.get(key);
        let ghost found = seen(sample);
        let ghost before = state@;
        let ghost mut refused = false;
        proof {
            lemma_record_keeps_wf(state@, judged(seen(sample)), mode);
            lemma_step_keeps_confirmations(state@, seen(sample), mode);
        }
        if let Some(batch) = state.step(sample, mode) {
            if let Some(back) = try_send(sender, batch) {
                proof {
                    back.lemma_view();
                    refused = true;
                }
                state.restore(back);
            }
        }
        proof {
            let draw = Draw { key, found, refused };
            let longer = draws.push(draw);
            assert(longer.drop_last() =~= draws);
            assert(longer.last() == draw);
            assert(state@ == run_of(longer, mode));
            draws = longer;
        }
    }
    state.finish()
}

/// What the pool reports when all workers are done.
pub struct PoolSummary {
    /// How many records the workers checked, all together.
    pub total_attempts: u128,
    /// The confirmations that are flushed now: what the workers still held
    /// where a flush is asked for, else nothing.
    pub flushed: ConfirmationSet,
}

/// The attempts of all workers, added up.
pub open spec fn sum_attempts(reports: Seq<WorkerReport>) -> nat
    decreases reports.len(),
{
    if reports.len() == 0 {
        0
    } else {
        sum_attempts(reports.drop_last()) + reports.last().attempts as nat
    }
}

/// Everything that the workers still held.
pub open spec fn union_residuals(reports: Seq<WorkerReport>) -> Set<Seq<char>>
    decreases reports.len(),
{
    if reports.len() == 0 {
        Set::empty()
    } else {
        union_residuals(reports.drop_last()).union(reports.last().residual@)
    }
}

/// Whether every report is that of a valid worker that holds nothing but
/// confirmations.
pub open spec fn all_reports_wf(reports: Seq<WorkerReport>) -> bool {
    forall|i: int|
        0 <= i < reports.len() ==> (#[trigger] reports[i])@.wf() && all_confirmations(
            reports[i].residual@,
        )
}

/// Workers that each checked `cap` records at most checked `cap` times their
/// number at most.
pub proof fn lemma_total_is_bounded(reports: Seq<WorkerReport>, cap: nat)
    requires
        forall|i: int| 0 <= i < reports.len() ==> (#[trigger] reports[i]).attempts <= cap,
    ensures
        sum_attempts(reports) <= reports.len() * cap,
    decreases reports.len(),
{
    if reports.len() > 0 {
        let front = reports.drop_last();
        assert forall|i: int| 0 <= i < front.len() implies (#[trigger] front[i]).attempts <= cap by {
            assert(front[i] == reports[i]);
        }
        lemma_total_is_bounded(front, cap);
        assert(reports.len() * cap == front.len() * cap + cap) by (nonlinear_arith)
            requires
                reports.len() == front.len() + 1,
        ;
    }
}

/// What valid workers still hold, all together, is a set of confirmations
/// with no more members than records were checked.
pub proof fn lemma_residuals(reports: Seq<WorkerReport>)
    requires
        all_reports_wf(reports),
    ensures
        union_residuals(reports).finite(),
        all_confirmations(union_residuals(reports)),
        union_residuals(reports).len() <= sum_attempts(reports),
    decreases reports.len(),
{
    if reports.len() > 0 {
        let front = reports.drop_last();
        assert forall|i: int| 0 <= i < front.len() implies (#[trigger] front[i])@.wf()
            && all_confirmations(front[i].residual@) by {
            assert(front[i] == reports[i]);
        }
        lemma_residuals(front);
        let last = reports.last();
        assert(last@.wf() && all_confirmations(last.residual@));
        vstd::set_lib::lemma_len_union(union_residuals(front), last.residual@);
    }
}

/// Joins the workers: adds up their attempts and, where `flush` is set,
/// flushes what they still hold into one set. Else what a worker still holds
/// is dropped.
pub fn collect(reports: Vec<WorkerReport>, flush: bool) -> (summary: PoolSummary)
    ensures
        summary.total_attempts == sum_attempts(reports@),
        summary.flushed.wf(),
        summary.flushed@ == (if flush {
            union_residuals(reports@)
        } else {
            Set::empty()
        }),
{
    let ghost all = reports@;
    let count = reports.len();
    let mut rest = reports;
    let mut total: u128 = 0;
    let mut flushed = ConfirmationSet::new();
    proof {
        assert(all.len() == count);
        assert(all.take(all.len() as int) =~= all);
    }
    while rest.len() > 0
        invariant
            rest@ == all.take(rest@.len() as int),
            rest@.len() <= all.len() <= usize::MAX,
            flushed.wf(),
            total + sum_attempts(rest@) == sum_attempts(all),
            total <= (all.len() - rest@.len()) * u32::MAX,
            flushed@.union(union_residuals(rest@)) == (if flush {
                union_residuals(all)
            } else {
                union_residuals(rest@)
            }),
            !flush ==> flushed@ == Set::<Seq<char>>::empty(),
        decreases rest.len(),
    {
        let ghost before = rest@;
        let ghost held = flushed@;
        let report = rest.pop().unwrap();
        proof {
            assert(before.drop_last() =~= rest@);
            assert(before.last() == report);
            assert(rest@ =~= all.take(rest@.len() as int));
            assert((all.len() - before.len()) * u32::MAX + u32::MAX == (all.len() - rest@.len())
                * u32::MAX) by (nonlinear_arith)
                requires
                    before.len() == rest@.len() + 1,
            ;
            assert(all.len() * u32::MAX <= usize::MAX * u32::MAX) by (nonlinear_arith)
                requires
                    all.len() <= usize::MAX,
            ;
            assert((all.len() - rest@.len()) * u32::MAX <= all.len() * u32::MAX) by (nonlinear_arith)
                requires
                    0 <= rest@.len() <= all.len(),
            ;
            assert(usize::MAX * u32::MAX <= u128::MAX) by (nonlinear_arith)
                requires
                    usize::MAX <= u64::MAX,
            ;
        }
        total = total + report.attempts as u128;
        if flush {
            flushed.extend(report.residual);
            proof {
                assert(held.union(report.residual@).union(union_residuals(rest@)) =~= held.union(
                    union_residuals(before),
                ));
            }
        }
    }
    proof {
        assert(flushed@.union(Set::<Seq<char>>::empty()) =~= flushed@);
    }
    PoolSummary { total_attempts: total, flushed }
}

/// Joins the workers: adds up their attempts and, in suppressed mode, flushes
/// what they still hold into one set. In the other modes what a worker still
/// holds is dropped.
pub fn join(reports: Vec<WorkerReport>, mode: BatchMode) -> (summary: PoolSummary)
    ensures
        summary.total_attempts == sum_attempts(reports@),
        summary.flushed.wf(),
        summary.flushed@ == (if mode == BatchMode::Suppressed {
            union_residuals(reports@)
        } else {
            Set::empty()
        }),
{
    let flush = match mode {
        BatchMode::Suppressed => true,
        _ => false,
    };
    collect(reports, flush)
}

/// How a pool is to run.
#[derive(Clone, Copy, Debug, PartialEq, Eq, Structural)]
pub struct PoolPlan {
    /// When the workers hand their confirmations to the channel.
    pub mode: BatchMode,
    /// Whether what the workers still hold is flushed when they are joined.
    pub flush: bool,
    /// How many samples a worker takes at most.
    pub cap: u32,
}

/// The plan that two switches and a batch size stand for, over a key space
/// of `total` keys. With `batch` set the workers hand over batches of
/// `batch_size`; else with `timed` set they hand over nothing while they run;
/// else they hand over every confirmation at once. With `timed` set what they
/// still hold is flushed when they are joined, whatever the mode. A worker
/// takes as many samples as there are keys at most, and no more than a
/// counter of 32 bits holds.
pub open spec fn plan_of(batch: bool, batch_size: usize, timed: bool, total: usize) -> PoolPlan {
    PoolPlan {
        mode: if batch {
            BatchMode::SizeBatched(batch_size)
        } else if timed {
            BatchMode::Suppressed
        } else {
            BatchMode::Immediate
        },
        flush: timed,
        cap: if total <= u32::MAX {
            total as u32
        } else {
            u32::MAX
        },
    }
}

/// The plan that the switches stand for, computed.
pub fn pool_plan(batch: bool, batch_size: usize, timed: bool, total: usize) -> (plan: PoolPlan)
    ensures
        plan == plan_of(batch, batch_size, timed, total),
{
    let mode = if batch {
        BatchMode::SizeBatched(batch_size)
    } else if timed {
        BatchMode::Suppressed
    } else {
        BatchMode::Immediate
    };
    let cap: u32 = if total <= 0xffff_ffff {
        total as u32
    } else {
        0xffff_ffff
    };
    PoolPlan { mode, flush: timed, cap }
}

/// With the cap of a plan, the workers of a pool check no more records, all
/// together, than there are keys times workers.
pub proof fn lemma_plan_bounds_attempts(
    reports: Seq<WorkerReport>,
    batch: bool,
    batch_size: usize,
    timed: bool,
    total: usize,
)
    requires
        forall|i: int|
            0 <= i < reports.len() ==> (#[trigger] reports[i]).attempts <= plan_of(
                batch,
                batch_size,
                timed,
                total,
            ).cap,
    ensures
        sum_attempts(reports) <= reports.len() * total,
{
    let cap = plan_of(batch, batch_size, timed, total).cap;
    lemma_total_is_bounded(reports, cap as nat);
    assert(reports.len() * cap <= reports.len() * total) by (nonlinear_arith)
        requires
            cap <= total,
    ;
}

} // verus!
