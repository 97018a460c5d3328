//! The writer over many rounds: it waits for an item, fills a batch, and flushes
//! it.

use crate::channel::{filling, fills, BATCH_MAX};
use crate::flush::{
    law_flush_ingests_the_registered, law_flush_leaves_nothing, FlushState, Surroundings,
};
use crate::work::WorkItemView;
use vstd::prelude::*;

verus! {

/// One round of the writer.
pub struct Round {
    /// The batch at the start.
    pub before: Seq<WorkItemView>,
    /// The item that was waited for.
    pub first: WorkItemView,
    /// What the receiver answered to polls.
    pub polled: Seq<Option<WorkItemView>>,
    pub full: bool,
    /// The batch that is flushed.
    pub batch: Seq<WorkItemView>,
    /// What the flush meets.
    pub surroundings: Surroundings,
}

/// The items among the answers of a receiver, in order.
pub open spec fn handed_out(answers: Seq<Option<WorkItemView>>) -> Seq<WorkItemView>
    decreases answers.len(),
{
    if answers.len() == 0 {
        Seq::empty()
    } else {
        match answers.last() {
            Some(item) => handed_out(answers.drop_last()).push(item),
            None => handed_out(answers.drop_last()),
        }
    }
}

impl Round {
    /// The batch is filled as [`crate::channel::fill_batch`] fills it.
    pub open spec fn valid(self) -> bool {
        fills(self.before, self.first, self.polled, self.batch, self.full)
    }

    /// The items that came out of the channel in this round, in order.
    pub open spec fn received(self) -> Seq<WorkItemView> {
        seq![self.first] + handed_out(self.polled)
    }

    /// The items that the flush hands to their log types, in order.
    pub open spec fn ingested(self) -> Seq<WorkItemView> {
        self.surroundings.handed_over(FlushState::Idle, self.batch)
    }

    /// Whether the transaction of the flush begins, and the log types that are
    /// known to it are the registered ones.
    pub open spec fn meets(self, registered: spec_fn(WorkItemView) -> bool) -> bool {
        &&& self.surroundings.begins
        &&& forall|i: int|
            0 <= i < self.batch.len() ==> #[trigger] (self.surroundings.known)(i) == registered(
                self.batch[i],
            )
    }

    /// What the flush leaves of the batch.
    pub open spec fn left(self) -> Seq<WorkItemView> {
        self.surroundings.leaves(FlushState::Idle, self.batch)
    }
}

/// A run of the writer: the first round starts with an empty batch, and each
/// other with what the flush before it left.
pub open spec fn is_run(rounds: Seq<Round>) -> bool {
    &&& forall|k: int| 0 <= k < rounds.len() ==> (#[trigger] rounds[k]).valid()
    &&& rounds.len() > 0 ==> rounds[0].before == Seq::<WorkItemView>::empty()
    &&& forall|k: int|
        0 < k < rounds.len() ==> (#[trigger] rounds[k]).before == rounds[k - 1].left()
}

/// The items that came out of the channel over a run, in order.
pub open spec fn all_received(rounds: Seq<Round>) -> Seq<WorkItemView>
    decreases rounds.len(),
{
    if rounds.len() == 0 {
        Seq::empty()
    } else {
        all_received(rounds.drop_last()) + rounds.last().received()
    }
}

/// The batches that were flushed over a run, one after the other.
pub open spec fn all_flushed(rounds: Seq<Round>) -> Seq<WorkItemView>
    decreases rounds.len(),
{
    if rounds.len() == 0 {
        Seq::empty()
    } else {
        all_flushed(rounds.drop_last()) + rounds.last().batch
    }
}

/// The items that were handed to their log types over a run, in order.
pub open spec fn all_ingested(rounds: Seq<Round>) -> Seq<WorkItemView>
    decreases rounds.len(),
{
    if rounds.len() == 0 {
        Seq::empty()
    } else {
        all_ingested(rounds.drop_last()) + rounds.last().ingested()
    }
}

/// Over a run in which every transaction begins, the items that reach their log
/// types are the received ones of a registered type, each once, in the order of
/// the channel.
pub proof fn law_writer_ingests_what_it_receives(
    rounds: Seq<Round>,
    registered: spec_fn(WorkItemView) -> bool,
)
    requires
        is_run(rounds),
        forall|k: int| 0 <= k < rounds.len() ==> (#[trigger] rounds[k]).meets(registered),
    ensures
        all_ingested(rounds) == all_received(rounds).filter(registered),
    decreases rounds.len(),
{
    if rounds.len() == 0 {
        assert(all_received(rounds).filter(registered) =~= Seq::<WorkItemView>::empty()) by {
            reveal(Seq::filter);
        }
    } else {
        let earlier = rounds.drop_last();
        let last = rounds.last();
        assert forall|k: int| 0 < k < earlier.len() implies (#[trigger] earlier[k]).before
            == earlier[k - 1].left() by {
            assert(rounds[k].before == rounds[k - 1].left());
        }
        law_writer_ingests_what_it_receives(earlier, registered);
        law_writer_flushes_what_it_receives(rounds);
        assert(last == rounds[rounds.len() - 1] && last.batch == last.received());
        law_flush_ingests_the_registered(last.surroundings, last.batch, registered);
        Seq::filter_distributes_over_add(all_received(earlier), last.received(), registered);
    }
}

/// Over a run of the writer the batches joined are the items received: each is
/// flushed once, in the order of the channel, none is lost between batches and
/// none is left over from an earlier one, also where an earlier flush failed. No
/// batch is empty or larger than the bound.
pub proof fn law_writer_flushes_what_it_receives(rounds: Seq<Round>)
    requires
        is_run(rounds),
    ensures
        all_flushed(rounds) == all_received(rounds),
        forall|k: int|
            0 <= k < rounds.len() ==> {
                &&& (#[trigger] rounds[k]).batch == rounds[k].received()
                &&& 1 <= rounds[k].batch.len() <= BATCH_MAX
                &&& rounds[k].left() == Seq::<WorkItemView>::empty()
            },
    decreases rounds.len(),
{
    if rounds.len() > 0 {
        let earlier = rounds.drop_last();
        let last = rounds.last();
        assert forall|k: int| 0 < k < earlier.len() implies (#[trigger] earlier[k]).before
            == earlier[k - 1].left() by {
            assert(rounds[k].before == rounds[k - 1].left());
        }
        law_writer_flushes_what_it_receives(earlier);
        assert(last.before == Seq::<WorkItemView>::empty()) by {
            if rounds.len() > 1 {
                assert(earlier[earlier.len() - 1].left() == Seq::<WorkItemView>::empty());
            }
        }
        assert(last.valid());
        let taken = choose|taken: Seq<WorkItemView>|
            last.batch == last.before.push(last.first) + taken && last.polled
                == #[trigger] filling(taken, last.full);
        lemma_handed_out(taken, last.full);
        assert(last.batch =~= last.received());
        law_flush_leaves_nothing(last.surroundings, last.batch);
        assert forall|k: int| 0 <= k < rounds.len() implies {
            &&& (#[trigger] rounds[k]).batch == rounds[k].received()
            &&& 1 <= rounds[k].batch.len() <= BATCH_MAX
            &&& rounds[k].left() == Seq::<WorkItemView>::empty()
        } by {
            if k < earlier.len() {
                assert(earlier[k] == rounds[k]);
            }
        }
    }
}

proof fn lemma_handed_out(taken: Seq<WorkItemView>, full: bool)
    ensures
        handed_out(filling(taken, full)) == taken,
    decreases
            taken.len(),
            if full {
                0int
            } else {
                1int
            },
{
    let answers = filling(taken, full);
    if !full {
        assert(answers.drop_last() =~= filling(taken, true));
        lemma_handed_out(taken, true);
    } else if taken.len() > 0 {
        assert(answers.drop_last() =~= filling(taken.drop_last(), true));
        lemma_handed_out(taken.drop_last(), true);
        assert(taken.drop_last().push(taken.last()) =~= taken);
    }
}

} // verus!
