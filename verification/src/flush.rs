//! Writing a batch in one transaction.
//!
//! The writer asks the database and the registry of log types for one thing at
//! a time: the state of a flush names the thing, and [`flush_batch`] takes the
//! reply and gives the next state.

use crate::work::WorkItem;
use vstd::prelude::*;

verus! {

/// What the flush of a batch waits for.
#[derive(Clone, Copy, Debug, PartialEq, Eq, Structural)]
pub enum FlushState {
    /// To be started.
    Idle,
    /// A transaction to begin.
    Begin,
    /// The log type of the item at this place in the batch.
    Lookup(usize),
    /// The item at this place in the batch to be ingested by its log type.
    Ingest(usize),
    /// The transaction to be committed.
    Commit,
    /// The transaction to be rolled back.
    Rollback,
    /// Nothing: the flush is over.
    Done,
}

/// What became of an item that was handed to its log type.
#[derive(Clone, Copy, Debug, PartialEq, Eq, Structural)]
pub enum Ingested {
    Stored,
    /// The line did not parse.
    NotParsed,
    Failed,
}

/// The reply to what a flush waits for.
#[derive(Clone, Copy, Debug, PartialEq, Eq, Structural)]
pub enum FlushEvent {
    Start,
    /// Whether the transaction began.
    Begun(bool),
    /// Whether the log type is registered.
    Resolved(bool),
    Ingested(Ingested),
    /// Whether the transaction was committed.
    Committed(bool),
    RolledBack,
}

/// What there is to report about a step, with the place of the item that it
/// concerns.
#[derive(Clone, Copy, Debug, PartialEq, Eq, Structural)]
pub enum FlushNotice {
    BeginFailed,
    UnknownType(usize),
    NotParsed(usize),
    IngestFailed(usize),
    CommitFailed,
}

impl FlushState {
    /// Whether the event is a reply to what the state waits for. Items are
    /// asked for by their place in a batch of `len` items.
    pub open spec fn expects(self, event: FlushEvent, len: nat) -> bool {
        match self {
            FlushState::Idle => event is Start,
            FlushState::Begin => event is Begun,
            FlushState::Lookup(i) => event is Resolved && i < len,
            FlushState::Ingest(i) => event is Ingested && i < len,
            FlushState::Commit => event is Committed,
            FlushState::Rollback => event is RolledBack,
            FlushState::Done => false,
        }
    }

    /// The SQL statement that the state waits for, where it waits for one.
    pub fn statement(self) -> (r: Option<&'static str>)
        ensures
            match self {
                FlushState::Begin => r matches Some(sql) && sql@ == "BEGIN TRANSACTION"@,
                FlushState::Commit => r matches Some(sql) && sql@ == "COMMIT"@,
                FlushState::Rollback => r matches Some(sql) && sql@ == "ROLLBACK"@,
                _ => r is None,
            },
    {
        match self {
            FlushState::Begin => Some("BEGIN TRANSACTION"),
            FlushState::Commit => Some("COMMIT"),
            FlushState::Rollback => Some("ROLLBACK"),
            _ => None,
        }
    }
}

/// The state in which item `i` of a batch of `len` items is next, or the commit
/// where there is no such item.
pub open spec fn at_item(i: int, len: nat) -> FlushState {
    if i < len {
        FlushState::Lookup(i as usize)
    } else {
        FlushState::Commit
    }
}

/// The state that follows an event, for a batch of `len` items.
pub open spec fn next_state(state: FlushState, event: FlushEvent, len: nat) -> FlushState {
    match (state, event) {
        // An empty batch needs no transaction.
        (FlushState::Idle, FlushEvent::Start) => if len == 0 {
            FlushState::Done
        } else {
            FlushState::Begin
        },
        (FlushState::Begin, FlushEvent::Begun(true)) => at_item(0, len),
        (FlushState::Begin, FlushEvent::Begun(false)) => FlushState::Done,
        // An item of an unknown type is passed over.
        (FlushState::Lookup(i), FlushEvent::Resolved(true)) => FlushState::Ingest(i),
        (FlushState::Lookup(i), FlushEvent::Resolved(false)) => at_item(i + 1, len),
        // One that fails does not stop the others.
        (FlushState::Ingest(i), FlushEvent::Ingested(_)) => at_item(i + 1, len),
        (FlushState::Commit, FlushEvent::Committed(true)) => FlushState::Done,
        (FlushState::Commit, FlushEvent::Committed(false)) => FlushState::Rollback,
        (FlushState::Rollback, FlushEvent::RolledBack) => FlushState::Done,
        _ => state,
    }
}

/// What there is to report about an event.
pub open spec fn notice_of(state: FlushState, event: FlushEvent) -> Option<FlushNotice> {
    match (state, event) {
        (FlushState::Begin, FlushEvent::Begun(false)) => Some(FlushNotice::BeginFailed),
        (FlushState::Lookup(i), FlushEvent::Resolved(false)) => Some(FlushNotice::UnknownType(i)),
        (FlushState::Ingest(i), FlushEvent::Ingested(Ingested::NotParsed)) => Some(
            FlushNotice::NotParsed(i),
        ),
        (FlushState::Ingest(i), FlushEvent::Ingested(Ingested::Failed)) => Some(
            FlushNotice::IngestFailed(i),
        ),
        (FlushState::Commit, FlushEvent::Committed(false)) => Some(FlushNotice::CommitFailed),
        _ => None,
    }
}

/// The batch after a step: cleared when the flush is over, else unchanged.
pub open spec fn batch_after<T>(next: FlushState, batch: Seq<T>) -> Seq<T> {
    if next is Done {
        Seq::empty()
    } else {
        batch
    }
}

fn item_state(i: usize, len: usize) -> (r: FlushState)
    ensures
        r == at_item(i as int, len as nat),
{
    if i < len {
        FlushState::Lookup(i)
    } else {
        FlushState::Commit
    }
}

/// Takes the reply to what the flush of `batch` waits for, and gives what it
/// waits for next, and what there is to report.
///
/// Every item is inserted into its log type's storage within one transaction.
/// The batch is cleared when the flush is over, also where the transaction
/// failed.
pub fn flush_batch(state: FlushState, event: FlushEvent, batch: &mut Vec<WorkItem>) -> (r: (
    FlushState,
    Option<FlushNotice>,
))
    requires
        state.expects(event, old(batch)@.len()),
    ensures
        r.0 == next_state(state, event, old(batch)@.len()),
        r.1 == notice_of(state, event),
        final(batch)@ == batch_after(r.0, old(batch)@),
        r.0 !is Done ==> final(batch)@ == old(batch)@,
        r.0 is Done ==> final(batch)@.len() == 0,
{
    let len = batch.len();
    let (next, notice): (FlushState, Option<FlushNotice>) = match (state, event) {
        (FlushState::Idle, FlushEvent::Start) => {
            if len == 0 {
                (FlushState::Done, None)
            } else {
                (FlushState::Begin, None)
            }
        },
        (FlushState::Begin, FlushEvent::Begun(begun)) => {
            if begun {
                (item_state(0, len), None)
            } else {
                (FlushState::Done, Some(FlushNotice::BeginFailed))
            }
        },
        (FlushState::Lookup(i), FlushEvent::Resolved(known)) => {
            if known {
                (FlushState::Ingest(i), None)
            } else {
                (item_state(i + 1, len), Some(FlushNotice::UnknownType(i)))
            }
        },
        (FlushState::Ingest(i), FlushEvent::Ingested(outcome)) => {
            let notice = match outcome {
                Ingested::Stored => None,
                Ingested::NotParsed => Some(FlushNotice::NotParsed(i)),
                Ingested::Failed => Some(FlushNotice::IngestFailed(i)),
            };
            (item_state(i + 1, len), notice)
        },
        (FlushState::Commit, FlushEvent::Committed(committed)) => {
            if committed {
                (FlushState::Done, None)
            } else {
                (FlushState::Rollback, Some(FlushNotice::CommitFailed))
            }
        },
        _ => (FlushState::Done, None),
    };
    if let FlushState::Done = next {
        batch.clear();
    }
    (next, notice)
}

/// What a flush meets: whether the transaction begins, which log types are
/// registered, what the log types make of their items, and whether the
/// transaction is committed.
pub struct Surroundings {
    pub begins: bool,
    pub known: spec_fn(int) -> bool,
    pub ingested: spec_fn(int) -> Ingested,
    pub commits: bool,
}

impl Surroundings {
    /// The reply to what a state waits for.
    pub open spec fn reply(self, state: FlushState) -> FlushEvent {
        match state {
            FlushState::Idle => FlushEvent::Start,
            FlushState::Begin => FlushEvent::Begun(self.begins),
            FlushState::Lookup(i) => FlushEvent::Resolved((self.known)(i as int)),
            FlushState::Ingest(i) => FlushEvent::Ingested((self.ingested)(i as int)),
            FlushState::Commit => FlushEvent::Committed(self.commits),
            FlushState::Rollback => FlushEvent::RolledBack,
            FlushState::Done => FlushEvent::Start,
        }
    }

    /// How many steps are at most left.
    pub open spec fn steps_left(state: FlushState, len: nat) -> int {
        match state {
            FlushState::Idle => 2 * (len as int) + 5,
            FlushState::Begin => 2 * (len as int) + 4,
            FlushState::Lookup(i) => 2 * (len - i) + 3,
            FlushState::Ingest(i) => 2 * (len - i) + 2,
            FlushState::Commit => 2,
            FlushState::Rollback => 1,
            FlushState::Done => 0,
        }
    }

    /// The states that a flush goes through from `state` on, up to its end.
    pub open spec fn run(self, state: FlushState, len: nat) -> Seq<FlushState>
        decreases Self::steps_left(state, len),
        when len <= usize::MAX && state.expects(self.reply(state), len)
    {
        let next = next_state(state, self.reply(state), len);
        if next is Done {
            seq![next]
        } else {
            seq![next] + self.run(next, len)
        }
    }

    /// What a flush leaves of the batch when it is over.
    pub open spec fn leaves<T>(self, state: FlushState, batch: Seq<T>) -> Seq<T>
        decreases Self::steps_left(state, batch.len()),
        when batch.len() <= usize::MAX && state.expects(self.reply(state), batch.len())
    {
        let next = next_state(state, self.reply(state), batch.len());
        let left = batch_after(next, batch);
        if next is Done {
            left
        } else {
            self.leaves(next, left)
        }
    }

    /// The items that are found at the places that are looked up from `state`
    /// on, in the batch as it is then.
    pub open spec fn looked_up<T>(self, state: FlushState, batch: Seq<T>) -> Seq<T>
        decreases Self::steps_left(state, batch.len()),
        when batch.len() <= usize::MAX && state.expects(self.reply(state), batch.len())
    {
        let next = next_state(state, self.reply(state), batch.len());
        let left = batch_after(next, batch);
        if next is Done || left.len() != batch.len() {
            Seq::empty()
        } else if let FlushState::Lookup(i) = next {
            seq![left[i as int]] + self.looked_up(next, left)
        } else {
            self.looked_up(next, left)
        }
    }

    /// The items that are found at the places that are ingested from `state` on,
    /// in the batch as it is then.
    pub open spec fn handed_over<T>(self, state: FlushState, batch: Seq<T>) -> Seq<T>
        decreases Self::steps_left(state, batch.len()),
        when batch.len() <= usize::MAX && state.expects(self.reply(state), batch.len())
    {
        let next = next_state(state, self.reply(state), batch.len());
        let left = batch_after(next, batch);
        if next is Done || left.len() != batch.len() {
            Seq::empty()
        } else if let FlushState::Ingest(i) = next {
            seq![left[i as int]] + self.handed_over(next, left)
        } else {
            self.handed_over(next, left)
        }
    }

    /// What is asked for from item `i` on: the log type of each item in turn,
    /// and the ingestion of those whose type is known.
    pub open spec fn item_requests(self, i: int, len: nat) -> Seq<FlushState>
        decreases len - i,
    {
        if i >= len {
            Seq::empty()
        } else if (self.known)(i) {
            seq![FlushState::Lookup(i as usize), FlushState::Ingest(i as usize)]
                + self.item_requests(i + 1, len)
        } else {
            seq![FlushState::Lookup(i as usize)] + self.item_requests(i + 1, len)
        }
    }

    /// How a transaction ends.
    pub open spec fn ending(self) -> Seq<FlushState> {
        if self.commits {
            seq![FlushState::Commit, FlushState::Done]
        } else {
            seq![FlushState::Commit, FlushState::Rollback, FlushState::Done]
        }
    }
}

/// A flush asks for this and nothing else, in this order: nothing for an empty
/// batch; else one transaction, in which the items are taken in the order of the
/// batch, each with a known log type ingested once and the others passed over;
/// then the commit, and a rollback only if the commit fails. Where the
/// transaction does not begin, nothing follows.
pub proof fn law_flush_is_one_transaction(surroundings: Surroundings, len: nat)
    requires
        len <= usize::MAX,
    ensures
        surroundings.run(FlushState::Idle, len) == if len == 0 {
            seq![FlushState::Done]
        } else if !surroundings.begins {
            seq![FlushState::Begin, FlushState::Done]
        } else {
            seq![FlushState::Begin] + surroundings.item_requests(0, len) + surroundings.ending()
        },
{
    if len > 0 {
        let rest = surroundings.run(FlushState::Begin, len);
        assert(surroundings.run(FlushState::Idle, len) == seq![FlushState::Begin] + rest);
        if surroundings.begins {
            lemma_run_from_item(surroundings, 0, len);
            assert(rest == seq![at_item(0, len)] + surroundings.run(at_item(0, len), len));
            assert(seq![FlushState::Begin] + (surroundings.item_requests(0, len)
                + surroundings.ending()) =~= seq![FlushState::Begin] + surroundings.item_requests(
                0,
                len,
            ) + surroundings.ending());
        } else {
            assert(seq![FlushState::Begin] + seq![FlushState::Done] =~= seq![
                FlushState::Begin,
                FlushState::Done,
            ]);
        }
    }
}

proof fn lemma_run_from_item(surroundings: Surroundings, i: int, len: nat)
    requires
        0 <= i <= len <= usize::MAX,
    ensures
        seq![at_item(i, len)] + surroundings.run(at_item(i, len), len)
            == surroundings.item_requests(i, len) + surroundings.ending(),
    decreases len - i,
{
    let start = at_item(i, len);
    let requests = surroundings.item_requests(i, len);
    if i == len {
        let rest = surroundings.run(FlushState::Commit, len);
        if !surroundings.commits {
            assert(surroundings.run(FlushState::Rollback, len) == seq![FlushState::Done]);
            assert(rest == seq![FlushState::Rollback] + seq![FlushState::Done]);
        }
        assert(seq![start] + rest =~= requests + surroundings.ending());
    } else {
        lemma_run_from_item(surroundings, i + 1, len);
        let after = at_item(i + 1, len);
        let rest = surroundings.run(after, len);
        let later = surroundings.item_requests(i + 1, len);
        assert(seq![after] + rest == later + surroundings.ending());
        if (surroundings.known)(i) {
            let ingest = FlushState::Ingest(i as usize);
            assert(surroundings.run(ingest, len) == seq![after] + rest);
            assert(surroundings.run(start, len) == seq![ingest] + (seq![after] + rest));
            assert(seq![start] + (seq![ingest] + (later + surroundings.ending())) =~= requests
                + surroundings.ending());
        } else {
            assert(surroundings.run(start, len) == seq![after] + rest);
            assert(seq![start] + (later + surroundings.ending()) =~= requests
                + surroundings.ending());
        }
    }
}

/// An item reaches its log type's storage exactly if a transaction begins and
/// the log type is known: what becomes of the other items does not matter.
pub proof fn law_item_reaches_its_type(surroundings: Surroundings, len: nat, i: int)
    requires
        len <= usize::MAX,
        0 <= i < len,
    ensures
        surroundings.run(FlushState::Idle, len).contains(FlushState::Ingest(i as usize)) <==> (
        surroundings.begins && (surroundings.known)(i)),
{
    law_flush_is_one_transaction(surroundings, len);
    let wanted = FlushState::Ingest(i as usize);
    if surroundings.begins {
        let requests = surroundings.item_requests(0, len);
        let all = surroundings.run(FlushState::Idle, len);
        lemma_requests_contain(surroundings, 0, len, i);
        if requests.contains(wanted) {
            let k = choose|k: int| 0 <= k < requests.len() && requests[k] == wanted;
            assert(all[k + 1] == wanted);
        }
        if all.contains(wanted) {
            let k = choose|k: int| 0 <= k < all.len() && all[k] == wanted;
            if k > requests.len() {
                assert(all[k] == surroundings.ending()[k - 1 - requests.len()]);
            }
            assert(requests[k - 1] == wanted);
        }
    }
}

proof fn lemma_requests_contain(surroundings: Surroundings, from: int, len: nat, i: int)
    requires
        0 <= from <= len <= usize::MAX,
        0 <= i < len,
    ensures
        surroundings.item_requests(from, len).contains(FlushState::Ingest(i as usize)) <==> (from
            <= i && (surroundings.known)(i)),
    decreases len - from,
{
    let wanted = FlushState::Ingest(i as usize);
    if from < len {
        lemma_requests_contain(surroundings, from + 1, len, i);
        let head = if (surroundings.known)(from) {
            seq![FlushState::Lookup(from as usize), FlushState::Ingest(from as usize)]
        } else {
            seq![FlushState::Lookup(from as usize)]
        };
        let later = surroundings.item_requests(from + 1, len);
        let requests = surroundings.item_requests(from, len);
        assert(requests == head + later);
        if later.contains(wanted) {
            let k = choose|k: int| 0 <= k < later.len() && later[k] == wanted;
            assert(requests[head.len() + k] == wanted);
        }
        if from == i && (surroundings.known)(i) {
            assert(requests[1] == wanted);
        }
        if requests.contains(wanted) {
            let k = choose|k: int| 0 <= k < requests.len() && requests[k] == wanted;
            if k < head.len() {
                assert(head[k] == wanted);
            } else {
                assert(later[k - head.len()] == wanted);
            }
        }
    }
}

/// Nothing is left of a batch when its flush is over, whatever it met.
pub proof fn law_flush_leaves_nothing<T>(surroundings: Surroundings, batch: Seq<T>)
    requires
        batch.len() <= usize::MAX,
    ensures
        surroundings.leaves(FlushState::Idle, batch) == Seq::<T>::empty(),
{
    lemma_leaves_nothing(surroundings, FlushState::Idle, batch);
}

proof fn lemma_leaves_nothing<T>(surroundings: Surroundings, state: FlushState, batch: Seq<T>)
    requires
        batch.len() <= usize::MAX,
        state.expects(surroundings.reply(state), batch.len()),
    ensures
        surroundings.leaves(state, batch) == Seq::<T>::empty(),
    decreases Surroundings::steps_left(state, batch.len()),
{
    let next = next_state(state, surroundings.reply(state), batch.len());
    if next !is Done {
        lemma_leaves_nothing(surroundings, next, batch);
    }
}

/// Until a flush is over the batch keeps its items in their places, and then
/// nothing is left of it: the item at a place is the one that the batch was
/// filled with, whatever was replied before.
pub proof fn law_batch_keeps_its_items<T>(state: FlushState, event: FlushEvent, batch: Seq<T>)
    requires
        state.expects(event, batch.len()),
    ensures
        ({
            let next = next_state(state, event, batch.len());
            &&& next !is Done ==> batch_after(next, batch) == batch
            &&& next is Done ==> batch_after(next, batch) == Seq::<T>::empty()
        }),
{
}

/// If a transaction begins, each item of the batch is looked up once, in order,
/// and the items that are handed to their log types are those of a registered
/// type, each once, in order. Otherwise none is.
pub proof fn law_flush_ingests_the_registered<T>(
    surroundings: Surroundings,
    batch: Seq<T>,
    registered: spec_fn(T) -> bool,
)
    requires
        batch.len() <= usize::MAX,
        forall|i: int|
            0 <= i < batch.len() ==> #[trigger] (surroundings.known)(i) == registered(batch[i]),
    ensures
        surroundings.begins ==> surroundings.looked_up(FlushState::Idle, batch) == batch,
        surroundings.begins ==> surroundings.handed_over(FlushState::Idle, batch) == batch.filter(
            registered,
        ),
        !surroundings.begins ==> surroundings.looked_up(FlushState::Idle, batch).len() == 0,
        !surroundings.begins ==> surroundings.handed_over(FlushState::Idle, batch).len() == 0,
{
    if batch.len() == 0 {
        assert(batch.filter(registered) =~= Seq::<T>::empty()) by {
            reveal(Seq::filter);
        }
    } else {
        assert(surroundings.looked_up(FlushState::Idle, batch) == surroundings.looked_up(
            FlushState::Begin,
            batch,
        ));
        assert(surroundings.handed_over(FlushState::Idle, batch) == surroundings.handed_over(
            FlushState::Begin,
            batch,
        ));
        if surroundings.begins {
            lemma_looked_up_from(surroundings, 0, batch);
            lemma_handed_over_from(surroundings, 0, batch, registered);
            assert(batch.skip(0) =~= batch);
            assert(seq![batch[0]] + batch.skip(1) =~= batch);
        }
    }
}

proof fn lemma_looked_up_from<T>(surroundings: Surroundings, i: int, batch: Seq<T>)
    requires
        0 <= i <= batch.len() <= usize::MAX,
    ensures
        surroundings.looked_up(at_item(i, batch.len()), batch) == batch.skip(
            if i < batch.len() {
                i + 1
            } else {
                i
            },
        ),
    decreases batch.len() - i,
{
    let start = at_item(i, batch.len());
    if i == batch.len() {
        if !surroundings.commits {
            assert(surroundings.looked_up(FlushState::Rollback, batch) == Seq::<T>::empty());
        }
        assert(batch.skip(i) =~= Seq::<T>::empty());
    } else {
        let after = at_item(i + 1, batch.len());
        lemma_looked_up_from(surroundings, i + 1, batch);
        if i + 1 < batch.len() {
            assert(seq![batch[i + 1]] + batch.skip(i + 2) =~= batch.skip(i + 1));
        }
        if (surroundings.known)(i) {
            let ingest = FlushState::Ingest(i as usize);
            assert(surroundings.looked_up(ingest, batch) == batch.skip(i + 1));
        }
    }
}

proof fn lemma_filter_skip<T>(s: Seq<T>, i: int, pred: spec_fn(T) -> bool)
    requires
        0 <= i < s.len(),
    ensures
        s.skip(i).filter(pred) == if pred(s[i]) {
            seq![s[i]] + s.skip(i + 1).filter(pred)
        } else {
            s.skip(i + 1).filter(pred)
        },
{
    let item = seq![s[i]];
    assert(s.skip(i) =~= item + s.skip(i + 1));
    Seq::filter_distributes_over_add(item, s.skip(i + 1), pred);
    assert(item.drop_last() =~= Seq::<T>::empty());
    assert(item.filter(pred) =~= if pred(s[i]) {
        item
    } else {
        Seq::empty()
    }) by {
        reveal_with_fuel(Seq::filter, 2);
    }
    if !pred(s[i]) {
        assert(Seq::<T>::empty() + s.skip(i + 1).filter(pred) =~= s.skip(i + 1).filter(pred));
    }
}

proof fn lemma_handed_over_from<T>(
    surroundings: Surroundings,
    i: int,
    batch: Seq<T>,
    registered: spec_fn(T) -> bool,
)
    requires
        0 <= i <= batch.len() <= usize::MAX,
        forall|k: int|
            0 <= k < batch.len() ==> #[trigger] (surroundings.known)(k) == registered(batch[k]),
    ensures
        surroundings.handed_over(at_item(i, batch.len()), batch) == batch.skip(i).filter(registered),
    decreases batch.len() - i,
{
    let start = at_item(i, batch.len());
    if i == batch.len() {
        if !surroundings.commits {
            assert(surroundings.handed_over(FlushState::Rollback, batch) == Seq::<T>::empty());
        }
        assert(batch.skip(i) =~= Seq::<T>::empty());
        assert(batch.skip(i).filter(registered) =~= Seq::<T>::empty()) by {
            reveal(Seq::filter);
        }
    } else {
        let after = at_item(i + 1, batch.len());
        lemma_handed_over_from(surroundings, i + 1, batch, registered);
        lemma_filter_skip(batch, i, registered);
        if (surroundings.known)(i) {
            let ingest = FlushState::Ingest(i as usize);
            assert(surroundings.handed_over(ingest, batch) == surroundings.handed_over(
                after,
                batch,
            ));
        }
    }
}

/// The frame of a flush: it begins a transaction unless the batch is empty; if
/// that begins, it commits once, after everything that concerns an item, and
/// rolls back right after that exactly if the commit failed; and then it is over.
pub proof fn law_flush_frames_the_items(surroundings: Surroundings, len: nat)
    requires
        len <= usize::MAX,
    ensures
        ({
            let states = surroundings.run(FlushState::Idle, len);
            let n = states.len() as int;
            &&& n > 0 && states[n - 1] is Done
            &&& len == 0 ==> n == 1
            &&& len > 0 ==> states[0] is Begin
            &&& len > 0 && !surroundings.begins ==> n == 2
            &&& len > 0 && surroundings.begins ==> {
                let closing: int = if surroundings.commits {
                    2
                } else {
                    3
                };
                &&& n > closing && states[n - closing] is Commit
                &&& !surroundings.commits ==> states[n - 2] is Rollback
                &&& forall|k: int|
                    1 <= k < n - closing ==> #[trigger] states[k] is Lookup || states[k] is Ingest
            }
        }),
{
    law_flush_is_one_transaction(surroundings, len);
    lemma_requests_are_of_items(surroundings, 0, len);
}

proof fn lemma_requests_are_of_items(surroundings: Surroundings, from: int, len: nat)
    ensures
        forall|k: int|
            0 <= k < surroundings.item_requests(from, len).len() ==> {
                ||| #[trigger] surroundings.item_requests(from, len)[k] is Lookup
                ||| surroundings.item_requests(from, len)[k] is Ingest
            },
    decreases len - from,
{
    if from < len {
        lemma_requests_are_of_items(surroundings, from + 1, len);
    }
}

/// What fails is reported, each failure in its own way and with the place `i` of
/// the item that it concerns, and nothing else is.
pub proof fn law_failures_are_reported(state: FlushState, event: FlushEvent, len: nat, i: usize)
    requires
        state.expects(event, len),
    ensures
        ({
            let notice = notice_of(state, event);
            let looked_up = state == FlushState::Lookup(i);
            let ingested = state == FlushState::Ingest(i);
            &&& notice == Some(FlushNotice::BeginFailed) <==> event == FlushEvent::Begun(false)
            &&& notice == Some(FlushNotice::UnknownType(i)) <==> looked_up && event
                == FlushEvent::Resolved(false)
            &&& notice == Some(FlushNotice::NotParsed(i)) <==> ingested && event
                == FlushEvent::Ingested(Ingested::NotParsed)
            &&& notice == Some(FlushNotice::IngestFailed(i)) <==> ingested && event
                == FlushEvent::Ingested(Ingested::Failed)
            &&& notice == Some(FlushNotice::CommitFailed) <==> event == FlushEvent::Committed(false)
        }),
{
}

} // verus!
