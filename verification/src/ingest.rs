//! From a received message to a work item on the writer's channel.

use crate::channel::{offers, try_send};
use crate::envelope::{
    all_body, decoded, exists_in_a_year, is_bare, is_body, is_envelope_of, is_free_text,
    is_full_date, is_host, is_piece, is_priority, is_tag, is_yearless_date, opens_without_year,
    parse_message, rfc3164_line, rfc5424_line, Envelope, EnvelopeView, Rfc5424Header,
};
use crate::sources::SourceMap;
use crate::work::{optional_text, Meta, Timestamp, WorkItem, WorkItemView};
use tokio::sync::mpsc::Sender;
use vstd::prelude::*;
use vstd::slice::slice_subrange;
use vstd::utf8::{decode_utf8, valid_utf8};

verus! {

/// Calls `chrono::Utc::now`: the time since the Unix epoch by the system's
/// clock, which is not negative, with the nanoseconds below one second. A clock
/// that is set before the epoch makes it panic.
#[verifier::external_body]
pub(crate) fn utc_now() -> (r: Timestamp)
    ensures
        is_clock_time(r),
{
    let now = chrono::Utc::now();
    Timestamp { secs: now.timestamp(), nanos: now.timestamp_subsec_nanos() }
}

/// A time that the system's clock can give.
pub open spec fn is_clock_time(t: Timestamp) -> bool {
    t.secs >= 0 && t.nanos < 1_000_000_000
}

/// Whether the clock gave this time: a call of it returned it. A contract that
/// asks for such a time can be met only by reading the clock.
pub closed spec fn is_reading(t: Timestamp) -> bool {
    call_ensures(utc_now, (), t)
}

/// Whether the parser gave this envelope for the line: a call of it with that
/// text returned it.
pub closed spec fn is_parsed(line: Seq<char>, envelope: EnvelopeView) -> bool {
    exists|text: &str, returned: Envelope|
        text@ == line && returned@ == envelope && #[trigger] call_ensures(
            parse_message,
            (text,),
            returned,
        )
}

/// The work item for a message from a configured source.
pub open spec fn routed_item(
    log_type: Seq<char>,
    ip: Seq<char>,
    envelope: EnvelopeView,
    received_at: Timestamp,
) -> WorkItemView {
    WorkItemView {
        log_type,
        raw: envelope.msg,
        source_ip: ip,
        hostname: envelope.hostname,
        received_at,
    }
}

/// Makes the work item for a message from a source of the given log type.
pub fn route(log_type: String, ip: &str, envelope: Envelope, received_at: Timestamp) -> (r: WorkItem)
    ensures
        r@ == routed_item(log_type@, ip@, envelope@, received_at),
        r.log_type@ == log_type@,
        r.raw@ == envelope.msg@,
        r.meta.source_ip@ == ip@,
        r.meta.hostname == envelope.hostname,
        r.meta.received_at == received_at,
{
    WorkItem {
        log_type,
        raw: envelope.msg,
        meta: Meta { source_ip: ip.to_string(), hostname: envelope.hostname, received_at },
    }
}

/// What became of a received message.
#[derive(Clone, Copy, Debug, PartialEq, Eq, Structural)]
pub enum Enqueued {
    /// No source is configured for the sender; the message was dropped.
    NoSource,
    /// The message is on its way to the writer.
    Sent,
    /// The channel was full or closed; the message was dropped.
    Overflow,
}

/// What `enqueue` does with a line: a message of an unknown sender is offered
/// nowhere; any other becomes a work item, with what the parser gave for the line
/// and the time that the clock gave, that is offered to the channel exactly once.
pub open spec fn enqueues(
    sources: Map<Seq<char>, Seq<char>>,
    ip: Seq<char>,
    line: Seq<char>,
    before: Seq<(WorkItemView, bool)>,
    after: Seq<(WorkItemView, bool)>,
    outcome: Enqueued,
) -> bool {
    if sources.contains_key(ip) {
        &&& outcome !is NoSource
        &&& exists|envelope: EnvelopeView, received_at: Timestamp|
            #![trigger routed_item(sources[ip], ip, envelope, received_at)]
            is_parsed(line, envelope) && is_envelope_of(envelope, line) && is_reading(received_at)
                && is_clock_time(received_at) && after == before.push(
                (routed_item(sources[ip], ip, envelope, received_at), outcome is Sent),
            )
    } else {
        outcome is NoSource && after == before
    }
}

/// Parses the syslog envelope, resolves the log type by source IP, and offers
/// the work item, stamped with the current time, to the writer's channel. Never
/// waits: an item that the channel does not take is dropped.
pub fn enqueue(sources: &SourceMap, tx: &mut Sender<WorkItem>, ip: &str, line: &str) -> (r:
    Enqueued)
    ensures
        enqueues(sources@, ip@, line@, offers(*old(tx)), offers(*final(tx)), r),
{
    let envelope = parse_message(line);
    assert(is_parsed(line@, envelope@)) by {
        assert(call_ensures(parse_message, (line,), envelope));
    }
    match sources.log_type(ip) {
        None => Enqueued::NoSource,
        Some(log_type) => {
            let item = route(log_type, ip, envelope, utc_now());
            if try_send(tx, item) {
                Enqueued::Sent
            } else {
                Enqueued::Overflow
            }
        },
    }
}

/// Bytes as text, with the replacement character in place of what is no UTF-8.
pub uninterp spec fn utf8_lossy(bytes: Seq<u8>) -> Seq<char>;

/// Calls `String::from_utf8_lossy`. Its result is a function of the bytes;
/// where they are UTF-8, it is the text that they encode. How much of an invalid
/// sequence one replacement character stands for is left unsaid.
#[verifier::external_body]
fn from_utf8_lossy(bytes: &[u8]) -> (r: String)
    ensures
        r@ == utf8_lossy(bytes@),
        valid_utf8(bytes@) ==> r@ == decode_utf8(bytes@),
{
    String::from_utf8_lossy(bytes).into_owned()
}

/// Enqueues a datagram, which is one syslog message: the first `n` bytes of the
/// receive buffer.
pub fn enqueue_datagram(
    sources: &SourceMap,
    tx: &mut Sender<WorkItem>,
    ip: &str,
    buf: &[u8],
    n: usize,
) -> (r: Enqueued)
    requires
        n <= buf@.len(),
    ensures
        enqueues(
            sources@,
            ip@,
            utf8_lossy(buf@.take(n as int)),
            offers(*old(tx)),
            offers(*final(tx)),
            r,
        ),
        valid_utf8(buf@.take(n as int)) ==> enqueues(
            sources@,
            ip@,
            decode_utf8(buf@.take(n as int)),
            offers(*old(tx)),
            offers(*final(tx)),
            r,
        ),
{
    let bytes = slice_subrange(buf, 0, n);
    assert(bytes@ =~= buf@.take(n as int));
    let line = from_utf8_lossy(bytes);
    enqueue(sources, tx, ip, line.as_str())
}

/// What reading the next line of a TCP connection gave.
pub enum LineRead {
    Line(String),
    /// The peer closed the connection.
    End,
    /// The read failed.
    Failed,
}

/// What follows for the connection.
#[derive(Clone, Copy, Debug, PartialEq, Eq, Structural)]
pub enum Connection {
    /// It goes on; the line was handled with this outcome.
    Open(Enqueued),
    /// It is over.
    Closed,
    /// It is over, and the error is to be reported.
    Broken,
}

/// Handles one read of a TCP connection, on which each line is one syslog
/// message.
pub fn handle_read(sources: &SourceMap, tx: &mut Sender<WorkItem>, ip: &str, read: LineRead) -> (r:
    Connection)
    ensures
        match read {
            LineRead::Line(line) => r matches Connection::Open(outcome) && enqueues(
                sources@,
                ip@,
                line@,
                offers(*old(tx)),
                offers(*final(tx)),
                outcome,
            ),
            LineRead::End => r is Closed && offers(*final(tx)) == offers(*old(tx)),
            LineRead::Failed => r is Broken && offers(*final(tx)) == offers(*old(tx)),
        },
{
    match read {
        LineRead::Line(line) => Connection::Open(enqueue(sources, tx, ip, line.as_str())),
        LineRead::End => Connection::Closed,
        LineRead::Failed => Connection::Broken,
    }
}

/// Whether the drop with the given running number is reported: the first, and
/// then every thousandth after it.
pub open spec fn is_reported(number: int) -> bool {
    number % 1000 == 1
}

/// Numbers a dropped work item, given how many were dropped before, and gives
/// that number where a warning is due. A sustained overload does not produce a
/// warning for every message.
pub fn drop_warning(dropped_before: u64) -> (r: Option<u64>)
    requires
        dropped_before < u64::MAX,
    ensures
        match r {
            Some(number) => number == dropped_before + 1 && is_reported(number as int),
            None => !is_reported(dropped_before + 1),
        },
{
    let number: u64 = dropped_before + 1;
    if number % 1000 == 1 {
        Some(number)
    } else {
        None
    }
}

/// The first drop is reported, and of any thousand consecutive drops exactly
/// one is.
pub proof fn law_drops_throttled(first: nat)
    ensures
        is_reported(1),
        exists|number: int|
            #![trigger is_reported(number)]
            first <= number < first + 1000 && is_reported(number),
        forall|a: int, b: int|
            #![trigger is_reported(a), is_reported(b)]
            first <= a < first + 1000 && first <= b < first + 1000 && is_reported(a)
                && is_reported(b) ==> a == b,
{
    let number: int = first + (1001 - first % 1000) % 1000;
    assert(is_reported(number));
}

/// A message whose sender is no configured source never reaches the channel.
pub proof fn law_unknown_sender_is_dropped(
    sources: Map<Seq<char>, Seq<char>>,
    ip: Seq<char>,
    line: Seq<char>,
    before: Seq<(WorkItemView, bool)>,
    after: Seq<(WorkItemView, bool)>,
    outcome: Enqueued,
)
    requires
        enqueues(sources, ip, line, before, after, outcome),
        !sources.contains_key(ip),
    ensures
        after == before,
        outcome is NoSource,
{
}

/// A message of a configured source is routed by the address it came from: the
/// one item that is offered carries that address and the log type configured
/// for it, whatever the message itself says.
pub proof fn law_routed_by_source(
    sources: Map<Seq<char>, Seq<char>>,
    ip: Seq<char>,
    line: Seq<char>,
    before: Seq<(WorkItemView, bool)>,
    after: Seq<(WorkItemView, bool)>,
    outcome: Enqueued,
)
    requires
        enqueues(sources, ip, line, before, after, outcome),
        sources.contains_key(ip),
    ensures
        after.len() == before.len() + 1,
        after.drop_last() == before,
        after.last().0.log_type == sources[ip],
        after.last().0.source_ip == ip,
        is_piece(after.last().0.raw, line),
        after.last().1 <==> outcome is Sent,
        !after.last().1 <==> outcome is Overflow,
{
    assert(after.drop_last() =~= before);
}

/// What is offered comes from the parser and from the clock: the body and the
/// host are those of an envelope that the parser returned for this very line, and
/// the time is one that the clock returned. In particular, a date without a year
/// never makes the whole line the body unless the parser found it so.
pub proof fn law_item_is_parsed_and_stamped(
    sources: Map<Seq<char>, Seq<char>>,
    ip: Seq<char>,
    line: Seq<char>,
    before: Seq<(WorkItemView, bool)>,
    after: Seq<(WorkItemView, bool)>,
    outcome: Enqueued,
)
    requires
        enqueues(sources, ip, line, before, after, outcome),
        sources.contains_key(ip),
    ensures
        ({
            let item = after.last().0;
            &&& is_parsed(line, EnvelopeView { hostname: item.hostname, msg: item.raw })
            &&& is_reading(item.received_at)
        }),
{
    let (envelope, received_at) = choose|envelope: EnvelopeView, received_at: Timestamp|
        #![trigger routed_item(sources[ip], ip, envelope, received_at)]
        is_parsed(line, envelope) && is_reading(received_at) && after == before.push(
            (routed_item(sources[ip], ip, envelope, received_at), outcome is Sent),
        );
    let item = after.last().0;
    assert(item == routed_item(sources[ip], ip, envelope, received_at));
    assert(EnvelopeView { hostname: item.hostname, msg: item.raw } == envelope);
}

/// The same, over the two calls themselves.
pub(crate) proof fn law_item_holds_what_the_calls_returned(
    sources: Map<Seq<char>, Seq<char>>,
    ip: Seq<char>,
    line: Seq<char>,
    before: Seq<(WorkItemView, bool)>,
    after: Seq<(WorkItemView, bool)>,
    outcome: Enqueued,
)
    requires
        enqueues(sources, ip, line, before, after, outcome),
        sources.contains_key(ip),
    ensures
        exists|text: &str, returned: Envelope|
            #![trigger call_ensures(parse_message, (text,), returned)]
            text@ == line && call_ensures(parse_message, (text,), returned)
                && after.last().0.raw == returned.msg@ && after.last().0.hostname == optional_text(
                returned.hostname,
            ),
        call_ensures(utc_now, (), after.last().0.received_at),
{
    law_item_is_parsed_and_stamped(sources, ip, line, before, after, outcome);
}

/// What an RFC 5424 message says is what the work item holds: the body of the
/// message, and its host.
pub proof fn law_rfc5424_decoded(
    sources: Map<Seq<char>, Seq<char>>,
    ip: Seq<char>,
    priority: Option<nat>,
    header: Rfc5424Header,
    body: Seq<char>,
    before: Seq<(WorkItemView, bool)>,
    after: Seq<(WorkItemView, bool)>,
    outcome: Enqueued,
)
    requires
        enqueues(sources, ip, rfc5424_line(priority, header, body), before, after, outcome),
        sources.contains_key(ip),
        is_priority(priority),
        header.valid(),
        is_body(body),
    ensures
        after.last().0.raw == body,
        after.last().0.hostname == decoded(header.host, body).hostname,
{
}

/// The same of an RFC 3164 message with a date that says its year or is nil.
/// With a date without a year, the work item holds that, or the whole line if
/// the date does not exist in the year and the place of the reading.
pub proof fn law_rfc3164_decoded(
    sources: Map<Seq<char>, Seq<char>>,
    ip: Seq<char>,
    priority: Option<nat>,
    date: Seq<char>,
    host: Seq<char>,
    tag: Seq<char>,
    body: Seq<char>,
    before: Seq<(WorkItemView, bool)>,
    after: Seq<(WorkItemView, bool)>,
    outcome: Enqueued,
)
    requires
        enqueues(
            sources,
            ip,
            rfc3164_line(priority, date, host, tag, body),
            before,
            after,
            outcome,
        ),
        sources.contains_key(ip),
        is_priority(priority),
        is_full_date(date) || is_yearless_date(date),
        is_host(host),
        is_tag(tag),
        is_free_text(body),
    ensures
        ({
            let item = after.last().0;
            let line = rfc3164_line(priority, date, host, tag, body);
            ||| item.raw == body && item.hostname == decoded(host, body).hostname && (is_full_date(
                date,
            ) || exists_in_a_year(date))
            ||| item.raw == line && item.hostname is None && !is_full_date(date)
        }),
{
}

/// A line without an envelope is the body of the work item as it stands, without
/// a host.
pub proof fn law_bare_line_is_body(
    sources: Map<Seq<char>, Seq<char>>,
    ip: Seq<char>,
    line: Seq<char>,
    before: Seq<(WorkItemView, bool)>,
    after: Seq<(WorkItemView, bool)>,
    outcome: Enqueued,
)
    requires
        enqueues(sources, ip, line, before, after, outcome),
        sources.contains_key(ip),
        is_bare(line),
    ensures
        after.last().0.raw == line,
        after.last().0.hostname is None,
{
    assert(all_body(line).msg == line);
}

/// A line that does not begin with a date without a year is decoded alike
/// whenever and from whomever it comes.
pub proof fn law_decoding_is_fixed(
    line: Seq<char>,
    sources1: Map<Seq<char>, Seq<char>>,
    ip1: Seq<char>,
    before1: Seq<(WorkItemView, bool)>,
    after1: Seq<(WorkItemView, bool)>,
    outcome1: Enqueued,
    sources2: Map<Seq<char>, Seq<char>>,
    ip2: Seq<char>,
    before2: Seq<(WorkItemView, bool)>,
    after2: Seq<(WorkItemView, bool)>,
    outcome2: Enqueued,
)
    requires
        enqueues(sources1, ip1, line, before1, after1, outcome1),
        enqueues(sources2, ip2, line, before2, after2, outcome2),
        sources1.contains_key(ip1),
        sources2.contains_key(ip2),
        !opens_without_year(line),
    ensures
        after1.last().0.raw == after2.last().0.raw,
        after1.last().0.hostname == after2.last().0.hostname,
{
}

} // verus!
