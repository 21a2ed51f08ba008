use crossbeam_channel::{bounded, unbounded};
use std::time::Instant;
use validator::aggregator::{
    batched_writes, delivery, single_write, sink_outcome, timed_writes, Aggregator,
};
use validator::confirmations::ConfirmationSet;
use validator::encoding::{decode, encode};
use validator::mempool::{create_txs, Mempool};
use validator::partition::{partition, KeyRange};
use validator::tx::{PipelineError, Tx};
use validator::vpu::Validator;
use validator::worker::{
    collect, examine, join, pool_plan, run_worker, BatchMode, PoolPlan, WorkerReport, WorkerState,
};

fn forged() -> Tx {
    let mut tx = Tx::random();
    tx.amt.push('0');
    tx
}

fn set_of(texts: &[&str]) -> ConfirmationSet {
    let mut set = ConfirmationSet::new();
    for text in texts {
        set.insert(text.to_string());
    }
    set
}

fn sorted(set: &ConfirmationSet) -> Vec<String> {
    let mut list = set.members().clone();
    list.sort();
    list
}

#[test]
fn examine_tells_the_three_outcomes() {
    let valid = Tx::random();
    assert_eq!(examine(None), Err(PipelineError::NotFound));
    assert_eq!(examine(Some(forged())), Err(PipelineError::SignatureInvalid));
    assert_eq!(examine(Some(valid.clone())), Ok(valid));
}

#[test]
fn confirmation_set_keeps_each_text_once() {
    let mut set = ConfirmationSet::new();
    assert_eq!(set.len(), 0);
    assert!(set.insert("a".to_string()));
    assert!(set.insert("b".to_string()));
    assert!(!set.insert("a".to_string()));
    assert_eq!(set.len(), 2);
    assert!(set.contains(&"a".to_string()));
    assert!(!set.contains(&"c".to_string()));
    set.extend(set_of(&["b", "c", "d", "c"]));
    assert_eq!(sorted(&set), vec!["a", "b", "c", "d"]);
    let taken = set.take();
    assert_eq!(set.len(), 0);
    assert_eq!(sorted(&taken), vec!["a", "b", "c", "d"]);
    let mut other = set_of(&["x"]);
    other.clear();
    assert_eq!(other.len(), 0);
    assert!(!other.contains(&"x".to_string()));
}

#[test]
fn immediate_mode_hands_over_every_confirmation_singly() {
    let mut state = WorkerState::new();
    let first = Tx::random();
    let second = Tx::random();
    let batch = state.step(Some(first.clone()), BatchMode::Immediate).unwrap();
    assert_eq!(batch.members(), &vec![encode(&first.confirm())]);
    let batch = state.step(Some(second.clone()), BatchMode::Immediate).unwrap();
    assert_eq!(batch.members(), &vec![encode(&second.confirm())]);
    assert_eq!(state.attempts(), 2);
    let report = state.finish();
    assert_eq!(report.residual.len(), 0);
    assert_eq!(report.attempts, 2);
    assert_eq!(report.failures, 0);
}

#[test]
fn size_batched_mode_flushes_when_the_size_is_reached() {
    let mut state = WorkerState::new();
    let records: Vec<Tx> = (0..5).map(|_| Tx::random()).collect();
    let mode = BatchMode::SizeBatched(3);
    assert!(state.step(Some(records[0].clone()), mode).is_none());
    assert!(state.step(Some(records[1].clone()), mode).is_none());
    assert!(state.step(Some(records[1].clone()), mode).is_none());
    assert!(state.step(None, mode).is_none());
    assert!(state.step(Some(forged()), mode).is_none());
    let batch = state.step(Some(records[2].clone()), mode).unwrap();
    let expected: Vec<String> = records[0..3].iter().map(|tx| encode(&tx.confirm())).collect();
    assert_eq!(batch.members(), &expected);
    assert!(state.step(Some(records[3].clone()), mode).is_none());
    assert!(state.step(Some(records[4].clone()), mode).is_none());
    let report = state.finish();
    let expected: Vec<String> = records[3..5].iter().map(|tx| encode(&tx.confirm())).collect();
    assert_eq!(report.residual.members(), &expected);
    assert_eq!(report.attempts, 7);
    assert_eq!(report.failures, 1);
}

#[test]
fn size_zero_and_one_flush_every_time() {
    for size in [0usize, 1] {
        let mut state = WorkerState::new();
        let tx = Tx::random();
        let batch = state.step(Some(tx.clone()), BatchMode::SizeBatched(size)).unwrap();
        assert_eq!(batch.members(), &vec![encode(&tx.confirm())]);
        assert_eq!(state.finish().residual.len(), 0);
    }
}

#[test]
fn suppressed_mode_never_hands_over() {
    let mut state = WorkerState::new();
    let records: Vec<Tx> = (0..10).map(|_| Tx::random()).collect();
    for tx in records.iter() {
        assert!(state.step(Some(tx.clone()), BatchMode::Suppressed).is_none());
    }
    let report = state.finish();
    assert_eq!(report.residual.len(), 10);
    assert_eq!(report.attempts, 10);
}

#[test]
fn failures_and_misses_are_absorbed() {
    let mut state = WorkerState::new();
    assert!(state.step(None, BatchMode::Immediate).is_none());
    assert_eq!(state.attempts(), 0);
    assert!(state.step(Some(forged()), BatchMode::Immediate).is_none());
    assert!(state.step(Some(forged()), BatchMode::Immediate).is_none());
    let report = state.finish();
    assert_eq!(report.attempts, 2);
    assert_eq!(report.failures, 2);
    assert_eq!(report.residual.len(), 0);
}

#[test]
fn full_count_is_checked_but_not_confirmed() {
    let mut state = WorkerState::new();
    let mut tx = Tx::random();
    tx.conf = u32::MAX;
    assert_eq!(tx.validate(), Ok(()));
    assert!(state.step(Some(tx), BatchMode::Immediate).is_none());
    let report = state.finish();
    assert_eq!(report.attempts, 1);
    assert_eq!(report.failures, 0);
    assert_eq!(report.residual.len(), 0);
}

#[test]
fn two_confirmations_of_one_record_are_two_members() {
    let mut state = WorkerState::new();
    let tx = Tx::random();
    state.step(Some(tx.clone()), BatchMode::Suppressed);
    state.step(Some(tx.clone()), BatchMode::Suppressed);
    state.step(Some(tx.confirm()), BatchMode::Suppressed);
    let report = state.finish();
    assert_eq!(report.attempts, 3);
    assert_eq!(
        report.residual.members(),
        &vec![encode(&tx.confirm()), encode(&tx.confirm().confirm())]
    );
}

#[test]
fn recording_takes_the_outcome_as_it_is_given() {
    let mut state = WorkerState::new();
    let tx = forged();
    let batch = state.record(Ok(tx.clone()), BatchMode::SizeBatched(1)).unwrap();
    assert_eq!(batch.members(), &vec![encode(&tx.confirm())]);
    assert!(state.record(Err(PipelineError::NotFound), BatchMode::Immediate).is_none());
    assert_eq!(state.attempts(), 1);
    assert!(state.record(Err(PipelineError::SignatureInvalid), BatchMode::Immediate).is_none());
    assert!(state.record(Err(PipelineError::IoFailure), BatchMode::Immediate).is_none());
    assert!(state.record(Err(PipelineError::ChannelClosed), BatchMode::Immediate).is_none());
    let report = state.finish();
    assert_eq!((report.attempts, report.failures, report.residual.len()), (4, 3, 0));
}

#[test]
fn restored_batch_is_held_again() {
    let mut state = WorkerState::new();
    let first = Tx::random();
    let second = Tx::random();
    let batch = state.step(Some(first.clone()), BatchMode::Immediate).unwrap();
    state.restore(batch);
    let batch = state.step(Some(second.clone()), BatchMode::Immediate).unwrap();
    assert_eq!(batch.len(), 2);
    state.restore(batch);
    let report = state.finish();
    assert_eq!(
        report.residual.members(),
        &vec![encode(&first.confirm()), encode(&second.confirm())]
    );
}

#[test]
fn worker_samples_its_share_until_the_cap() {
    let mempool = create_txs(40);
    let (sender, receiver) = unbounded();
    let report = run_worker(
        &mempool.reader(),
        &sender,
        KeyRange { start: 10, end: 20 },
        &Instant::now(),
        60_000,
        BatchMode::Suppressed,
        30,
    );
    assert_eq!(report.attempts, 30);
    assert_eq!(report.failures, 0);
    assert!(report.residual.len() >= 1 && report.residual.len() <= 10);
    let share: Vec<String> =
        (10..20).map(|key| encode(&mempool.get(key).unwrap().confirm())).collect();
    for text in report.residual.members() {
        assert!(share.contains(text));
        assert!(Validator::validate(text.clone()));
        assert_eq!(decode(text).unwrap().conf, 1);
    }
    drop(sender);
    assert!(receiver.recv().is_err());
}

#[test]
fn worker_without_keys_or_time_does_nothing() {
    let mempool = create_txs(5);
    let (sender, _receiver) = unbounded();
    let reader = mempool.reader();
    let now = Instant::now();
    let empty = KeyRange { start: 3, end: 3 };
    let whole = KeyRange { start: 0, end: 5 };
    let report = run_worker(&reader, &sender, empty, &now, 60_000, BatchMode::Immediate, 100);
    assert_eq!((report.attempts, report.residual.len()), (0, 0));
    let report = run_worker(&reader, &sender, whole, &now, 0, BatchMode::Immediate, 100);
    assert_eq!((report.attempts, report.residual.len()), (0, 0));
    let report = run_worker(&reader, &sender, whole, &now, 60_000, BatchMode::Immediate, 0);
    assert_eq!((report.attempts, report.residual.len()), (0, 0));
}

#[test]
fn worker_stops_when_its_time_is_up() {
    let mempool = create_txs(5);
    let (sender, _receiver) = unbounded();
    let started = Instant::now();
    let report = run_worker(
        &mempool.reader(),
        &sender,
        KeyRange { start: 0, end: 5 },
        &started,
        50,
        BatchMode::Suppressed,
        u32::MAX,
    );
    assert!(started.elapsed().as_millis() >= 50);
    assert!(started.elapsed().as_millis() < 5_000);
    assert!(report.attempts >= 1);
    assert!(report.residual.len() <= 5);
}

#[test]
fn misses_are_not_attempts() {
    let mut mempool = Mempool::new();
    mempool.add(&Tx::random());
    let (sender, _receiver) = unbounded();
    let unpublished = KeyRange { start: 0, end: 1 };
    let report = run_worker(
        &mempool.reader(),
        &sender,
        unpublished,
        &Instant::now(),
        60_000,
        BatchMode::Immediate,
        50,
    );
    assert_eq!((report.attempts, report.failures, report.residual.len()), (0, 0, 0));
}

#[test]
fn invalid_records_are_dropped() {
    let mut mempool = Mempool::new();
    mempool.add(&forged());
    mempool.refresh();
    let (sender, receiver) = unbounded();
    let report = run_worker(
        &mempool.reader(),
        &sender,
        KeyRange { start: 0, end: 1 },
        &Instant::now(),
        60_000,
        BatchMode::Immediate,
        20,
    );
    assert_eq!((report.attempts, report.failures, report.residual.len()), (20, 20, 0));
    drop(sender);
    assert!(receiver.recv().is_err());
}

#[test]
fn immediate_worker_sends_every_confirmation() {
    let mempool = create_txs(8);
    let (sender, receiver) = unbounded();
    let report = run_worker(
        &mempool.reader(),
        &sender,
        KeyRange { start: 0, end: 8 },
        &Instant::now(),
        60_000,
        BatchMode::Immediate,
        25,
    );
    drop(sender);
    assert_eq!(report.attempts, 25);
    assert_eq!(report.residual.len(), 0);
    let mut received = 0;
    while let Ok(batch) = receiver.recv() {
        assert_eq!(batch.len(), 1);
        assert!(Validator::validate(batch.members()[0].clone()));
        received += 1;
    }
    assert_eq!(received, 25);
}

#[test]
fn what_the_channel_refuses_stays_with_the_worker() {
    let mempool = create_txs(8);
    let (sender, receiver) = bounded(1);
    let report = run_worker(
        &mempool.reader(),
        &sender,
        KeyRange { start: 0, end: 8 },
        &Instant::now(),
        60_000,
        BatchMode::Immediate,
        40,
    );
    assert_eq!(report.attempts, 40);
    let sent = receiver.recv().unwrap();
    assert_eq!(sent.len(), 1);
    assert!(receiver.try_recv().is_err());
    assert!(report.residual.len() >= 1 && report.residual.len() <= 8);
    let (sender, receiver) = unbounded();
    drop(receiver);
    let report = run_worker(
        &mempool.reader(),
        &sender,
        KeyRange { start: 0, end: 1 },
        &Instant::now(),
        60_000,
        BatchMode::SizeBatched(1),
        3,
    );
    assert_eq!(report.attempts, 3);
    assert_eq!(report.residual.members(), &vec![encode(&mempool.get(0).unwrap().confirm())]);
}

#[test]
fn join_adds_up_and_flushes_in_suppressed_mode_only() {
    let reports = || {
        vec![
            WorkerReport { residual: set_of(&["a", "b"]), attempts: 5, failures: 1 },
            WorkerReport { residual: set_of(&[]), attempts: 0, failures: 0 },
            WorkerReport { residual: set_of(&["b", "c"]), attempts: u32::MAX, failures: 0 },
        ]
    };
    let summary = join(reports(), BatchMode::Suppressed);
    assert_eq!(summary.total_attempts, 5 + u32::MAX as u128);
    assert_eq!(sorted(&summary.flushed), vec!["a", "b", "c"]);
    let summary = join(reports(), BatchMode::SizeBatched(2));
    assert_eq!(summary.total_attempts, 5 + u32::MAX as u128);
    assert_eq!(summary.flushed.len(), 0);
    let summary = join(reports(), BatchMode::Immediate);
    assert_eq!(summary.flushed.len(), 0);
    let summary = join(Vec::new(), BatchMode::Suppressed);
    assert_eq!((summary.total_attempts, summary.flushed.len()), (0, 0));
}

#[test]
fn collect_flushes_where_it_is_asked_to() {
    let reports = || {
        vec![
            WorkerReport { residual: set_of(&["a", "b"]), attempts: 5, failures: 1 },
            WorkerReport { residual: set_of(&["b", "c"]), attempts: 7, failures: 0 },
        ]
    };
    let summary = collect(reports(), true);
    assert_eq!(summary.total_attempts, 12);
    assert_eq!(sorted(&summary.flushed), vec!["a", "b", "c"]);
    let summary = collect(reports(), false);
    assert_eq!(summary.total_attempts, 12);
    assert_eq!(summary.flushed.len(), 0);
}

#[test]
fn plan_reads_the_switches() {
    let sized = BatchMode::SizeBatched(300);
    assert_eq!(
        pool_plan(true, 300, false, 100_000),
        PoolPlan { mode: sized, flush: false, cap: 100_000 }
    );
    assert_eq!(pool_plan(true, 300, true, 7), PoolPlan { mode: sized, flush: true, cap: 7 });
    assert_eq!(
        pool_plan(false, 300, true, 0),
        PoolPlan { mode: BatchMode::Suppressed, flush: true, cap: 0 }
    );
    assert_eq!(
        pool_plan(false, 300, false, u32::MAX as usize),
        PoolPlan { mode: BatchMode::Immediate, flush: false, cap: u32::MAX }
    );
    assert_eq!(pool_plan(false, 0, false, u32::MAX as usize + 1).cap, u32::MAX);
    assert_eq!(pool_plan(false, 0, false, usize::MAX).cap, u32::MAX);
}

#[test]
fn writes_give_the_json_array_of_the_whole_set() {
    let mut confs = ConfirmationSet::new();
    let bytes = single_write(&mut confs, set_of(&["a"])).unwrap();
    assert_eq!(bytes, b"[\"a\"]".to_vec());
    let bytes = batched_writes(&mut confs, set_of(&["a", "q\"\n"])).unwrap();
    assert_eq!(confs.len(), 2);
    assert_eq!(bytes, serde_json::to_vec(confs.members()).unwrap());
    let list: Vec<String> = serde_json::from_slice(&bytes).unwrap();
    assert_eq!(&list, confs.members());
    assert_eq!(timed_writes(&confs), Ok(bytes));
    assert_eq!(timed_writes(&ConfirmationSet::new()), Ok(b"[]".to_vec()));
}

#[test]
fn a_receive_without_senders_is_a_closed_channel() {
    let (sender, receiver) = unbounded();
    sender.send(set_of(&["a"])).unwrap();
    drop(sender);
    let first = delivery(receiver.recv()).ok().unwrap();
    assert_eq!(first.members(), &vec!["a".to_string()]);
    assert_eq!(delivery(receiver.recv()).err(), Some(PipelineError::ChannelClosed));
    assert_eq!(delivery(Err(crossbeam_channel::RecvError)).err(), Some(PipelineError::ChannelClosed));
}

#[test]
fn a_failed_write_is_an_io_failure() {
    let failure = serde_json::from_str::<u32>("x").unwrap_err();
    assert_eq!(sink_outcome(Err(failure)), Err(PipelineError::IoFailure));
    assert_eq!(sink_outcome(Ok(vec![1, 2, 3])), Ok(vec![1, 2, 3]));
    assert_eq!(sink_outcome(Ok(Vec::new())), Ok(Vec::new()));
}

#[test]
fn aggregator_joins_batches_and_writes_once_at_the_end() {
    let mut aggregator = Aggregator::new();
    assert_eq!(aggregator.deliver(Ok(set_of(&["a", "b"]))), None);
    assert_eq!(aggregator.deliver(Ok(set_of(&["b", "c"]))), None);
    assert_eq!(aggregator.deliver(Ok(set_of(&[]))), None);
    assert_eq!(aggregator.cardinality(), 3);
    assert!(aggregator.contains(&"c".to_string()));
    assert!(!aggregator.contains(&"d".to_string()));
    let written = aggregator.deliver(Err(PipelineError::ChannelClosed)).unwrap().unwrap();
    let mut list: Vec<String> = serde_json::from_slice(&written).unwrap();
    list.sort();
    assert_eq!(list, vec!["a", "b", "c"]);
    assert_eq!(aggregator.cardinality(), 3);
    assert_eq!(
        aggregator.deliver(Err(PipelineError::IoFailure)),
        Some(Err(PipelineError::IoFailure))
    );
    assert_eq!(
        aggregator.deliver(Err(PipelineError::NotFound)),
        Some(Err(PipelineError::NotFound))
    );
    assert_eq!(aggregator.members().len(), 3);
}

#[test]
fn eight_workers_over_ten_thousand_records() {
    let total = 10_000;
    let workers = 8;
    let mempool = create_txs(total);
    let plan = pool_plan(true, 50, false, total);
    assert_eq!(
        plan,
        PoolPlan { mode: BatchMode::SizeBatched(50), flush: false, cap: 10_000 }
    );
    let (sender, receiver) = unbounded();
    let mut reports = Vec::new();
    let mut confirmed: u128 = 0;
    for i in 0..workers {
        let report = run_worker(
            &mempool.reader(),
            &sender,
            partition(i, workers, total),
            &Instant::now(),
            200,
            plan.mode,
            plan.cap,
        );
        assert!(report.attempts as usize <= total);
        assert!(report.residual.len() < 50);
        assert_eq!(report.failures, 0);
        confirmed += (report.attempts - report.failures) as u128;
        reports.push(report);
    }
    let summary = collect(reports, plan.flush);
    drop(sender);
    let mut aggregator = Aggregator::new();
    let mut batches = 0;
    let written = loop {
        let received = delivery(receiver.recv());
        if let Ok(batch) = &received {
            assert_eq!(batch.len(), 50);
            batches += 1;
        }
        if let Some(outcome) = aggregator.deliver(received) {
            break outcome.unwrap();
        }
    };
    let list: Vec<String> = serde_json::from_slice(&written).unwrap();
    assert_eq!(list.len(), aggregator.cardinality());
    assert!(batches >= 1);
    assert!(list.len() >= 50);
    for text in list.iter() {
        assert!(Validator::validate(text.clone()));
        assert_eq!(decode(text).unwrap().conf, 1);
    }
    assert!(list.len() as u128 <= confirmed);
    assert_eq!(summary.total_attempts, confirmed);
    assert!(summary.total_attempts <= (total * workers) as u128);
    assert_eq!(summary.flushed.len(), 0);
    println!("{} attempts, {} batches, {} distinct", summary.total_attempts, batches, list.len());
}
