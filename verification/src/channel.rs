//! The bounded channel between the receive loops and the writer.

use crate::work::{items, WorkItem, WorkItemView};
use tokio::sync::mpsc::{Receiver, Sender};
use vstd::prelude::*;

verus! {

/// Capacity of the channel. Large enough to absorb a burst while the writer
/// catches up; bounded so that a runaway sender cannot exhaust memory.
pub const CHANNEL_CAPACITY: usize = 100_000;

/// Maximum number of work items folded into a single write transaction.
pub const BATCH_MAX: usize = 1024;

/// The sending half of a tokio channel.
#[verifier::external_type_specification]
#[verifier::external_body]
#[verifier::reject_recursive_types(T)]
pub struct ExSender<T>(Sender<T>);

/// The receiving half of a tokio channel.
#[verifier::external_type_specification]
#[verifier::external_body]
#[verifier::reject_recursive_types(T)]
pub struct ExReceiver<T>(Receiver<T>);

/// The work items that were offered to the channel through this handle, in
/// order, each with whether the channel took it.
pub uninterp spec fn offers(tx: Sender<WorkItem>) -> Seq<(WorkItemView, bool)>;

/// The answers that the receiver gave when it was polled without waiting, in
/// order: the work item that came out, or nothing.
pub uninterp spec fn answers(rx: Receiver<WorkItem>) -> Seq<Option<WorkItemView>>;

/// Calls `tokio::sync::mpsc::Sender::try_send`, which never waits: it places
/// the value on the channel and succeeds, or fails where the channel is full or
/// closed and places nothing. The result says which, and the one offer joins the
/// record of this handle. When the channel is full is left open: it depends on
/// the other senders and on the receiver.
#[verifier::external_body]
pub(crate) fn try_send(tx: &mut Sender<WorkItem>, item: WorkItem) -> (r: bool)
    ensures
        offers(*final(tx)) == offers(*old(tx)).push((item@, r)),
{
    tx.try_send(item).is_ok()
}

/// Calls `tokio::sync::mpsc::Receiver::try_recv`, which takes the next value out
/// of the channel and returns it, or fails where the channel is empty or
/// disconnected. The result is that value or `None`, and the one answer joins
/// the record of the receiver. Which value comes is left open: it depends on the
/// senders.
#[verifier::external_body]
pub(crate) fn try_recv(rx: &mut Receiver<WorkItem>) -> (r: Option<WorkItem>)
    ensures
        answers(*final(rx)) == answers(*old(rx)).push(
            match r {
                Some(item) => Some(item@),
                None => None,
            },
        ),
{
    rx.try_recv().ok()
}

/// The answers by which a batch was filled: the items, and `None` at the end
/// unless the batch became full.
pub open spec fn filling(taken: Seq<WorkItemView>, full: bool) -> Seq<Option<WorkItemView>> {
    let all = taken.map_values(|item: WorkItemView| Some(item));
    if full {
        all
    } else {
        all.push(None)
    }
}

/// What it is to fill a batch: the item that was waited for follows what was
/// there, and then what the receiver handed out, in the same order. The receiver
/// was polled until it had nothing or the batch was full, and no further.
pub open spec fn fills(
    before: Seq<WorkItemView>,
    first: WorkItemView,
    polled: Seq<Option<WorkItemView>>,
    after: Seq<WorkItemView>,
    full: bool,
) -> bool {
    &&& full <==> after.len() >= BATCH_MAX
    &&& after.len() <= BATCH_MAX || after.len() == before.len() + 1
    &&& exists|taken: Seq<WorkItemView>|
        after == before.push(first) + taken && polled == #[trigger] filling(taken, full)
}

/// Starts a batch with the item that was waited for and folds in whatever else
/// is already queued, up to [`BATCH_MAX`] items. Says whether the batch is full.
pub fn fill_batch(first: WorkItem, rx: &mut Receiver<WorkItem>, batch: &mut Vec<WorkItem>) -> (r:
    bool)
    ensures
        exists|polled: Seq<Option<WorkItemView>>|
            answers(*final(rx)) == answers(*old(rx)) + polled && #[trigger] fills(
                items(old(batch)@),
                first@,
                polled,
                items(final(batch)@),
                r,
            ),
{
    let ghost start = items(batch@).push(first@);
    let ghost mut taken: Seq<WorkItemView> = Seq::empty();
    batch.push(first);
    assert(items(batch@) =~= start + taken);
    assert(answers(*rx) =~= answers(*old(rx)) + filling(taken, true));
    while batch.len() < BATCH_MAX
        invariant
            batch@.len() <= BATCH_MAX || batch@.len() == old(batch)@.len() + 1,
            items(batch@) == start + taken,
            answers(*rx) == answers(*old(rx)) + filling(taken, true),
            start == items(old(batch)@).push(first@),
        decreases BATCH_MAX - batch.len(),
    {
        match try_recv(rx) {
            Some(item) => {
                let ghost before = batch@;
                batch.push(item);
                proof {
                    assert(items(batch@) =~= items(before).push(item@));
                    let more = taken.push(item@);
                    assert(items(batch@) =~= start + more);
                    assert(filling(more, true) =~= filling(taken, true).push(Some(item@)));
                    assert(answers(*rx) =~= answers(*old(rx)) + filling(more, true));
                    taken = more;
                }
            },
            None => {
                assert(answers(*rx) =~= answers(*old(rx)) + filling(taken, false));
                assert(fills(
                    items(old(batch)@),
                    first@,
                    filling(taken, false),
                    items(batch@),
                    false,
                ));
                return false;
            },
        }
    }
    assert(fills(items(old(batch)@), first@, filling(taken, true), items(batch@), true));
    true
}

/// What filling a batch does with what was there, the item that was waited for,
/// and each answer of the receiver: all follow one another in the batch, in that
/// order, and nothing else is in it. The receiver is polled as long as it hands
/// out items and the batch holds fewer than 1024; so a batch that ends below that
/// ends because nothing waits any more.
pub proof fn law_batch_takes_what_waits(
    before: Seq<WorkItemView>,
    first: WorkItemView,
    polled: Seq<Option<WorkItemView>>,
    after: Seq<WorkItemView>,
    full: bool,
)
    requires
        fills(before, first, polled, after, full),
    ensures
        after.len() > before.len(),
        after.take(before.len() as int) == before,
        after[before.len() as int] == first,
        forall|k: int|
            before.len() < k < after.len() ==> Some(#[trigger] after[k]) == polled[k - before.len()
                - 1],
        full <==> after.len() >= 1024,
        full ==> polled.len() == after.len() - before.len() - 1,
        !full ==> polled.len() == after.len() - before.len() && polled.last() is None,
        before.len() < 1024 ==> after.len() <= 1024,
        before.len() >= 1023 ==> after.len() == before.len() + 1,
{
    let taken = choose|taken: Seq<WorkItemView>|
        after == before.push(first) + taken && polled == #[trigger] filling(taken, full);
    assert(after.take(before.len() as int) =~= before);
    assert forall|k: int| before.len() < k < after.len() implies Some(#[trigger] after[k])
        == polled[k - before.len() - 1] by {
        assert(after[k] == taken[k - before.len() - 1]);
    }
}

} // verus!
