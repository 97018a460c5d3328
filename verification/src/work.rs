//! The unit of work that a receive loop hands to the writer.

use vstd::prelude::*;

verus! {

/// A moment in UTC: seconds since the Unix epoch, and nanoseconds within the
/// second.
#[derive(Clone, Copy, Debug, PartialEq, Eq, Structural)]
pub struct Timestamp {
    pub secs: i64,
    pub nanos: u32,
}

/// The syslog envelope metadata of a message.
pub struct Meta {
    pub source_ip: String,
    pub hostname: Option<String>,
    /// Stamped at receive time.
    pub received_at: Timestamp,
}

/// Which log type to route a message to, the raw message body, and the envelope
/// metadata. Owns its data, so that it can cross a channel.
pub struct WorkItem {
    pub log_type: String,
    pub raw: String,
    pub meta: Meta,
}

/// A work item by its contents.
pub struct WorkItemView {
    pub log_type: Seq<char>,
    pub raw: Seq<char>,
    pub source_ip: Seq<char>,
    pub hostname: Option<Seq<char>>,
    pub received_at: Timestamp,
}

/// An optional text by its contents.
pub open spec fn optional_text(text: Option<String>) -> Option<Seq<char>> {
    match text {
        Some(text) => Some(text@),
        None => None,
    }
}

impl View for WorkItem {
    type V = WorkItemView;

    open spec fn view(&self) -> WorkItemView {
        WorkItemView {
            log_type: self.log_type@,
            raw: self.raw@,
            source_ip: self.meta.source_ip@,
            hostname: optional_text(self.meta.hostname),
            received_at: self.meta.received_at,
        }
    }
}

/// A sequence of work items by their contents.
pub open spec fn items(batch: Seq<WorkItem>) -> Seq<WorkItemView> {
    batch.map_values(|item: WorkItem| item@)
}

/// The contents of a work item are the texts and the time in its fields, and those
/// of a batch are the contents of its items, in order.
pub proof fn law_contents_are_the_fields(batch: Seq<WorkItem>, i: int)
    requires
        0 <= i < batch.len(),
    ensures
        items(batch).len() == batch.len(),
        ({
            let item = batch[i];
            let contents = items(batch)[i];
            &&& contents == item@
            &&& contents.log_type == item.log_type@
            &&& contents.raw == item.raw@
            &&& contents.source_ip == item.meta.source_ip@
            &&& contents.hostname is Some <==> item.meta.hostname is Some
            &&& item.meta.hostname matches Some(host) ==> contents.hostname == Some(host@)
            &&& contents.received_at == item.meta.received_at
        }),
{
}

} // verus!
