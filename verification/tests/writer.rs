use easylog::channel::{fill_batch, BATCH_MAX, CHANNEL_CAPACITY};
use easylog::flush::{flush_batch, FlushEvent, FlushNotice, FlushState, Ingested};
use easylog::recv_buffer::{
    configure_recv_buffer, BufferEvent, BufferNotice, BufferState, UDP_RECV_BUFFER_BYTES,
};
use easylog::work::{Meta, Timestamp, WorkItem};
use tokio::sync::mpsc::channel;

fn item(n: usize) -> WorkItem {
    WorkItem {
        log_type: "apache".to_string(),
        raw: format!("line {n}"),
        meta: Meta {
            source_ip: "192.0.2.7".to_string(),
            hostname: None,
            received_at: Timestamp { secs: 0, nanos: 0 },
        },
    }
}

fn bodies(batch: &[WorkItem]) -> Vec<String> {
    batch.iter().map(|i| i.raw.clone()).collect()
}

#[test]
fn a_batch_takes_what_is_queued() {
    let (tx, mut rx) = channel(8);
    for n in 1..4 {
        assert!(tx.try_send(item(n)).is_ok());
    }
    let mut batch = Vec::new();
    assert!(!fill_batch(item(0), &mut rx, &mut batch));
    assert_eq!(bodies(&batch), vec!["line 0", "line 1", "line 2", "line 3"]);
    batch.clear();
    assert!(!fill_batch(item(9), &mut rx, &mut batch));
    assert_eq!(bodies(&batch), vec!["line 9"]);
    drop(tx);
    batch.clear();
    assert!(!fill_batch(item(9), &mut rx, &mut batch));
    assert_eq!(bodies(&batch), vec!["line 9"]);
}

#[test]
fn a_batch_is_bounded() {
    let (tx, mut rx) = channel(CHANNEL_CAPACITY);
    for n in 1..BATCH_MAX + 10 {
        assert!(tx.try_send(item(n)).is_ok());
    }
    let mut batch = Vec::new();
    assert!(fill_batch(item(0), &mut rx, &mut batch));
    assert_eq!(batch.len(), BATCH_MAX);
    assert_eq!(batch[BATCH_MAX - 1].raw, format!("line {}", BATCH_MAX - 1));
    assert_eq!(rx.try_recv().unwrap().raw, format!("line {BATCH_MAX}"));
    assert!(fill_batch(item(0), &mut rx, &mut batch));
    assert_eq!(batch.len(), BATCH_MAX + 1);
}

struct Outcome {
    states: Vec<FlushState>,
    notices: Vec<FlushNotice>,
    statements: Vec<&'static str>,
}

fn run(batch: &mut Vec<WorkItem>, begins: bool, known: &[bool], ingested: &[Ingested], commits: bool) -> Outcome {
    let mut outcome = Outcome { states: vec![], notices: vec![], statements: vec![] };
    let mut state = FlushState::Idle;
    while state != FlushState::Done {
        let event = match state {
            FlushState::Idle => FlushEvent::Start,
            FlushState::Begin => FlushEvent::Begun(begins),
            FlushState::Lookup(i) => FlushEvent::Resolved(known[i]),
            FlushState::Ingest(i) => FlushEvent::Ingested(ingested[i]),
            FlushState::Commit => FlushEvent::Committed(commits),
            FlushState::Rollback => FlushEvent::RolledBack,
            FlushState::Done => unreachable!(),
        };
        let before = batch.len();
        let (next, notice) = flush_batch(state, event, batch);
        if next != FlushState::Done {
            assert_eq!(batch.len(), before);
        }
        outcome.states.push(next);
        outcome.notices.extend(notice);
        outcome.statements.extend(next.statement());
        state = next;
    }
    assert!(batch.is_empty());
    outcome
}

#[test]
fn an_empty_batch_needs_no_transaction() {
    let outcome = run(&mut vec![], true, &[], &[], true);
    assert_eq!(outcome.states, vec![FlushState::Done]);
    assert!(outcome.notices.is_empty() && outcome.statements.is_empty());
}

#[test]
fn a_batch_is_written_in_one_transaction() {
    let mut batch: Vec<WorkItem> = (0..4).map(item).collect();
    let outcome = run(
        &mut batch,
        true,
        &[true, false, true, true],
        &[Ingested::Stored, Ingested::Stored, Ingested::NotParsed, Ingested::Failed],
        true,
    );
    assert_eq!(
        outcome.states,
        vec![
            FlushState::Begin,
            FlushState::Lookup(0),
            FlushState::Ingest(0),
            FlushState::Lookup(1),
            FlushState::Lookup(2),
            FlushState::Ingest(2),
            FlushState::Lookup(3),
            FlushState::Ingest(3),
            FlushState::Commit,
            FlushState::Done,
        ]
    );
    assert_eq!(
        outcome.notices,
        vec![FlushNotice::UnknownType(1), FlushNotice::NotParsed(2), FlushNotice::IngestFailed(3)]
    );
    assert_eq!(outcome.statements, vec!["BEGIN TRANSACTION", "COMMIT"]);
}

#[test]
fn a_failed_begin_drops_the_batch() {
    let mut batch: Vec<WorkItem> = (0..2).map(item).collect();
    let outcome = run(&mut batch, false, &[], &[], true);
    assert_eq!(outcome.states, vec![FlushState::Begin, FlushState::Done]);
    assert_eq!(outcome.notices, vec![FlushNotice::BeginFailed]);
    assert_eq!(outcome.statements, vec!["BEGIN TRANSACTION"]);
}

#[test]
fn a_failed_commit_is_rolled_back() {
    let mut batch: Vec<WorkItem> = (0..1).map(item).collect();
    let outcome = run(&mut batch, true, &[true], &[Ingested::Stored], false);
    assert_eq!(
        outcome.states,
        vec![
            FlushState::Begin,
            FlushState::Lookup(0),
            FlushState::Ingest(0),
            FlushState::Commit,
            FlushState::Rollback,
            FlushState::Done,
        ]
    );
    assert_eq!(outcome.notices, vec![FlushNotice::CommitFailed]);
    assert_eq!(outcome.statements, vec!["BEGIN TRANSACTION", "COMMIT", "ROLLBACK"]);
}

#[test]
fn rounds_flush_what_was_received() {
    let (tx, mut rx) = channel(CHANNEL_CAPACITY);
    let total = 2 * BATCH_MAX + 5;
    for n in 0..total {
        assert!(tx.try_send(item(n)).is_ok());
    }
    drop(tx);
    let mut batch = Vec::new();
    let mut flushed = Vec::new();
    let mut round = 0;
    while let Ok(first) = rx.try_recv() {
        assert!(batch.is_empty());
        fill_batch(first, &mut rx, &mut batch);
        flushed.extend(bodies(&batch));
        let known = vec![round % 2 == 0; batch.len()];
        let ingested = vec![Ingested::Failed; batch.len()];
        // The first transaction does not begin, the second is not committed.
        run(&mut batch, round != 0, &known, &ingested, round != 1);
        round += 1;
    }
    assert_eq!(round, 3);
    assert_eq!(flushed, (0..total).map(|n| format!("line {n}")).collect::<Vec<_>>());
}

fn configure(
    can_force: bool,
    forces: bool,
    accepts: bool,
    granted: Option<usize>,
) -> (Vec<BufferState>, Vec<BufferNotice>) {
    let mut states = vec![];
    let mut notices = vec![];
    let mut state = BufferState::Idle;
    while state != BufferState::Done {
        let event = match state {
            BufferState::Idle => BufferEvent::Start { can_force },
            BufferState::Force => BufferEvent::Forced(forces),
            BufferState::Request => BufferEvent::Requested(accepts),
            BufferState::ReadBack { .. } => BufferEvent::Granted(granted),
            BufferState::Done => unreachable!(),
        };
        let (next, notice) = configure_recv_buffer(state, event);
        states.push(next);
        notices.extend(notice);
        state = next;
    }
    (states, notices)
}

#[test]
fn the_buffer_is_forced_where_possible() {
    let (states, notices) = configure(true, true, true, Some(2 * UDP_RECV_BUFFER_BYTES));
    assert_eq!(
        states,
        vec![BufferState::Force, BufferState::ReadBack { forced: true }, BufferState::Done]
    );
    assert_eq!(
        notices,
        vec![BufferNotice::Granted { granted_kib: 16384, requested_kib: 8192, forced: true }]
    );
}

#[test]
fn the_buffer_is_requested_otherwise() {
    let (states, notices) = configure(true, false, true, Some(212_992));
    assert_eq!(
        states,
        vec![
            BufferState::Force,
            BufferState::Request,
            BufferState::ReadBack { forced: false },
            BufferState::Done,
        ]
    );
    assert_eq!(
        notices,
        vec![BufferNotice::Granted { granted_kib: 208, requested_kib: 8192, forced: false }]
    );
    let (states, notices) = configure(false, true, false, None);
    assert_eq!(
        states,
        vec![BufferState::Request, BufferState::ReadBack { forced: false }, BufferState::Done]
    );
    assert_eq!(notices, vec![BufferNotice::RequestFailed, BufferNotice::ReadBackFailed]);
}
