//! The syslog envelope of a received message, in the formats of RFC 3164 and
//! RFC 5424.

use crate::decimal::decimal;
use crate::work::optional_text;
use vstd::prelude::*;

verus! {

/// What is read out of a syslog message: the sending host's name, where the
/// message carries one, and the message body.
pub struct Envelope {
    pub hostname: Option<String>,
    pub msg: String,
}

/// An envelope by its contents.
pub struct EnvelopeView {
    pub hostname: Option<Seq<char>>,
    pub msg: Seq<char>,
}

impl View for Envelope {
    type V = EnvelopeView;

    open spec fn view(&self) -> EnvelopeView {
        EnvelopeView { hostname: optional_text(self.hostname), msg: self.msg@ }
    }
}

/// The envelope of a line that is all body.
pub open spec fn all_body(line: Seq<char>) -> EnvelopeView {
    EnvelopeView { hostname: None, msg: line }
}

/// The envelope of a message that names its host, or has the nil value `-` in
/// its place.
pub open spec fn decoded(host: Seq<char>, body: Seq<char>) -> EnvelopeView {
    EnvelopeView {
        hostname: if host == "-"@ {
            None
        } else {
            Some(host)
        },
        msg: body,
    }
}

/// Whether `piece` stands somewhere in `text` in one stretch.
pub open spec fn is_piece(piece: Seq<char>, text: Seq<char>) -> bool {
    exists|i: int, j: int|
        0 <= i <= j <= text.len() && #[trigger] text.subrange(i, j) == piece
}

pub open spec fn is_digit(c: char) -> bool {
    '0' <= c <= '9'
}

pub open spec fn is_letter(c: char) -> bool {
    'a' <= c <= 'z' || 'A' <= c <= 'Z'
}

/// A character that is neither white space nor a control character: visible
/// ASCII, and two ranges of Unicode that hold no white space.
pub open spec fn is_solid(c: char) -> bool {
    '!' <= c <= '~' || '\u{a1}' <= c <= '\u{167f}' || c >= '\u{3001}'
}

/// A word without white space.
pub open spec fn is_word(s: Seq<char>) -> bool {
    s.len() > 0 && forall|i: int| 0 <= i < s.len() ==> is_solid(#[trigger] s[i])
}

pub open spec fn all_digits(s: Seq<char>) -> bool {
    forall|i: int| 0 <= i < s.len() ==> is_digit(#[trigger] s[i])
}

/// The number that decimal digits stand for; a space counts as no digit.
pub open spec fn number(s: Seq<char>) -> int
    decreases s.len(),
{
    if s.len() == 0 {
        0
    } else if s.last() == ' ' {
        number(s.drop_last())
    } else {
        10 * number(s.drop_last()) + (s.last() as int - '0' as int)
    }
}

pub open spec fn lower(c: char) -> char {
    if 'A' <= c <= 'Z' {
        (c as int + 32) as char
    } else {
        c
    }
}

/// The month with the given three-letter English name in any case, or 0.
pub open spec fn month_number(name: Seq<char>) -> int {
    let s = name.map_values(|c: char| lower(c));
    if s == "jan"@ {
        1
    } else if s == "feb"@ {
        2
    } else if s == "mar"@ {
        3
    } else if s == "apr"@ {
        4
    } else if s == "may"@ {
        5
    } else if s == "jun"@ {
        6
    } else if s == "jul"@ {
        7
    } else if s == "aug"@ {
        8
    } else if s == "sep"@ {
        9
    } else if s == "oct"@ {
        10
    } else if s == "nov"@ {
        11
    } else if s == "dec"@ {
        12
    } else {
        0
    }
}

/// The number of days in a month of the Gregorian calendar.
pub open spec fn days_in_month(year: int, month: int) -> int {
    if month == 2 {
        if year % 4 == 0 && (year % 100 != 0 || year % 400 == 0) {
            29
        } else {
            28
        }
    } else if month == 4 || month == 6 || month == 9 || month == 11 {
        30
    } else {
        31
    }
}

pub open spec fn is_calendar_day(year: int, month: int, day: int) -> bool {
    1 <= month <= 12 && 1 <= day <= days_in_month(year, month)
}

/// A text in the form `hh:mm:ss`.
pub open spec fn is_clock_text(s: Seq<char>) -> bool {
    &&& s.len() == 8
    &&& all_digits(s.subrange(0, 2)) && s[2] == ':'
    &&& all_digits(s.subrange(3, 5)) && s[5] == ':'
    &&& all_digits(s.subrange(6, 8))
}

/// A time of day in the form `hh:mm:ss`.
pub open spec fn is_time_of_day(s: Seq<char>) -> bool {
    &&& is_clock_text(s)
    &&& number(s.subrange(0, 2)) < 24
    &&& number(s.subrange(3, 5)) < 60
    &&& number(s.subrange(6, 8)) < 60
}

/// A zone of RFC 3339: `Z`, or an offset such as `+02:00`.
pub open spec fn is_zone(s: Seq<char>) -> bool {
    s == "Z"@ || ({
        &&& s.len() == 6
        &&& s[0] == '+' || s[0] == '-'
        &&& all_digits(s.subrange(1, 3)) && number(s.subrange(1, 3)) < 24
        &&& s[3] == ':'
        &&& all_digits(s.subrange(4, 6)) && number(s.subrange(4, 6)) < 60
    })
}

/// A date and time of RFC 3339 such as `2003-10-11T22:14:15.003Z`, with or
/// without a fraction of the second.
pub open spec fn is_stamp(s: Seq<char>) -> bool {
    &&& s.len() >= 20
    &&& all_digits(s.subrange(0, 4)) && s[4] == '-'
    &&& all_digits(s.subrange(5, 7)) && s[7] == '-'
    &&& all_digits(s.subrange(8, 10)) && s[10] == 'T'
    &&& is_calendar_day(
        number(s.subrange(0, 4)),
        number(s.subrange(5, 7)),
        number(s.subrange(8, 10)),
    )
    &&& is_time_of_day(s.subrange(11, 19))
    &&& is_zone(s.skip(19)) || exists|k: int|
        21 <= k < s.len() && s[19] == '.' && all_digits(s.subrange(20, k)) && is_zone(
            #[trigger] s.skip(k),
        )
}

/// A day of the month in two places, the first of which may be blank.
pub open spec fn is_day_text(s: Seq<char>) -> bool {
    s.len() == 2 && (s[0] == ' ' || is_digit(s[0])) && is_digit(s[1])
}

/// A text in the form of an RFC 3164 date, such as `Jun 12 10:00:00`.
pub open spec fn is_yearless_date(s: Seq<char>) -> bool {
    &&& s.len() == 15
    &&& month_number(s.subrange(0, 3)) > 0 && s[3] == ' '
    &&& is_day_text(s.subrange(4, 6)) && s[6] == ' '
    &&& is_clock_text(s.subrange(7, 15))
}

/// Whether an RFC 3164 date exists in some year.
pub open spec fn exists_in_a_year(s: Seq<char>) -> bool {
    // A leap year has every day that any year has.
    &&& is_calendar_day(2000, month_number(s.subrange(0, 3)), number(s.subrange(4, 6)))
    &&& is_time_of_day(s.subrange(7, 15))
}

/// A date of an RFC 3164 message that is extended by the year, such as
/// `Jun 12 2026 10:00:00`.
pub open spec fn is_date_with_year(s: Seq<char>) -> bool {
    &&& s.len() == 20
    &&& s[3] == ' '
    &&& is_day_text(s.subrange(4, 6)) && s[6] == ' '
    &&& all_digits(s.subrange(7, 11)) && s[11] == ' '
    &&& is_calendar_day(
        number(s.subrange(7, 11)),
        month_number(s.subrange(0, 3)),
        number(s.subrange(4, 6)),
    )
    &&& is_time_of_day(s.subrange(12, 20))
}

/// A date that says which moment is meant, or the nil value.
pub open spec fn is_full_date(s: Seq<char>) -> bool {
    s == "-"@ || is_stamp(s) || is_date_with_year(s)
}

/// The priority that a message may begin with, a number below 192 in angle
/// brackets.
pub open spec fn priority_text(priority: Option<nat>) -> Seq<char> {
    match priority {
        Some(p) => "<"@ + decimal(p) + ">"@,
        None => Seq::empty(),
    }
}

pub open spec fn is_priority(priority: Option<nat>) -> bool {
    priority matches Some(p) ==> p < 192
}

/// A host name, or the nil value: a word that does not end with a colon.
pub open spec fn is_host(host: Seq<char>) -> bool {
    is_word(host) && host.last() != ':'
}

/// A field of an RFC 5424 header, or the nil value: a word that is not a colon
/// alone.
pub open spec fn is_field(field: Seq<char>) -> bool {
    is_word(field) && field != ":"@
}

/// A message body that neither begins nor ends with white space.
pub open spec fn is_body(body: Seq<char>) -> bool {
    body.len() == 0 || is_solid(body[0]) && is_solid(body.last())
}

/// A word that can be the name of a structured data element or parameter.
pub open spec fn is_data_name(name: Seq<char>) -> bool {
    is_word(name) && !name.contains('=') && !name.contains(']') && !name.contains('"')
}

/// A parameter of a structured data element, with nothing in its value that
/// would have to be escaped.
pub open spec fn is_data_param(param: (Seq<char>, Seq<char>)) -> bool {
    &&& is_data_name(param.0)
    &&& !param.1.contains('"') && !param.1.contains('\\') && !param.1.contains(']')
}

/// The parameters of a structured data element as text.
pub open spec fn params_text(params: Seq<(Seq<char>, Seq<char>)>) -> Seq<char>
    decreases params.len(),
{
    if params.len() == 0 {
        Seq::empty()
    } else {
        params_text(params.drop_last()) + " "@ + params.last().0 + "=\""@ + params.last().1 + "\""@
    }
}

/// A structured data element: its name and its parameters.
pub struct DataElement {
    pub id: Seq<char>,
    pub params: Seq<(Seq<char>, Seq<char>)>,
}

impl DataElement {
    pub open spec fn valid(self) -> bool {
        &&& is_data_name(self.id)
        &&& forall|i: int| 0 <= i < self.params.len() ==> is_data_param(#[trigger] self.params[i])
    }
}

/// Structured data elements as text, one after the other.
pub open spec fn elements_text(elements: Seq<DataElement>) -> Seq<char>
    decreases elements.len(),
{
    if elements.len() == 0 {
        Seq::empty()
    } else {
        elements_text(elements.drop_last()) + "["@ + elements.last().id + params_text(
            elements.last().params,
        ) + "]"@
    }
}

/// The structured data of an RFC 5424 message, which is nil without elements.
pub open spec fn data_text(elements: Seq<DataElement>) -> Seq<char> {
    if elements.len() == 0 {
        "-"@
    } else {
        elements_text(elements)
    }
}

/// An RFC 5424 message without its priority and its body.
pub struct Rfc5424Header {
    pub stamp: Seq<char>,
    pub host: Seq<char>,
    pub app: Seq<char>,
    pub procid: Seq<char>,
    pub msgid: Seq<char>,
    pub data: Seq<DataElement>,
}

impl Rfc5424Header {
    pub open spec fn valid(self) -> bool {
        &&& self.stamp == "-"@ || is_stamp(self.stamp)
        &&& is_host(self.host)
        &&& is_field(self.app) && is_field(self.procid) && is_field(self.msgid)
        &&& forall|i: int| 0 <= i < self.data.len() ==> (#[trigger] self.data[i]).valid()
    }
}

/// An RFC 5424 message.
pub open spec fn rfc5424_line(
    priority: Option<nat>,
    header: Rfc5424Header,
    body: Seq<char>,
) -> Seq<char> {
    priority_text(priority) + "1 "@ + header.stamp + " "@ + header.host + " "@ + header.app + " "@
        + header.procid + " "@ + header.msgid + " "@ + data_text(header.data) + " "@ + body
}

/// A tag in front of a message body, such as `apache` or `app[323]`: a word
/// without a colon, and not the nil value.
pub open spec fn is_tag(tag: Seq<char>) -> bool {
    is_word(tag) && !tag.contains(':') && tag != "-"@
}

/// A body that does not begin with what could be read as structured data: not
/// with the nil value, nor with a bracket that holds an equals sign.
pub open spec fn is_free_text(body: Seq<char>) -> bool {
    &&& is_body(body)
    &&& body.len() > 0 ==> body[0] != '-'
    &&& body.len() > 0 && body[0] == '[' ==> forall|i: int|
        0 <= i < body.len() && #[trigger] body[i] == '=' ==> body.take(i).contains(']')
}

/// An RFC 3164 message.
pub open spec fn rfc3164_line(
    priority: Option<nat>,
    date: Seq<char>,
    host: Seq<char>,
    tag: Seq<char>,
    body: Seq<char>,
) -> Seq<char> {
    priority_text(priority) + date + " "@ + host + " "@ + tag + ": "@ + body
}

/// Whether no envelope can begin with the text: neither a priority nor a
/// version nor a date.
pub open spec fn opens_no_header(text: Seq<char>) -> bool {
    text.len() > 0 && ({
        let c = text[0];
        if is_letter(c) {
            // No month, or one that no blank follows.
            ||| text.len() < 3
            ||| month_number(text.subrange(0, 3)) == 0
            ||| text.len() == 3
            ||| text[3] != ' ' && text[3] != '\t'
        } else if is_digit(c) {
            // A number that is followed neither by a blank, as a version is,
            // nor by a hyphen, as the year of a date is.
            exists|n: int|
                #![trigger text.subrange(0, n)]
                1 <= n <= text.len() && all_digits(text.subrange(0, n)) && (n < text.len() ==> ({
                    &&& !is_digit(text[n])
                    &&& text[n] != ' ' && text[n] != '\t' && text[n] != '-'
                }))
        } else if c == '<' {
            text.len() == 1 || !is_digit(text[1])
        } else {
            '!' <= c <= '~' && c != '-'
        }
    })
}

/// Whether the line has no envelope, apart from a priority.
pub open spec fn is_bare(line: Seq<char>) -> bool {
    exists|priority: Option<nat>, rest: Seq<char>|
        is_priority(priority) && opens_no_header(rest) && line == #[trigger] (priority_text(
            priority,
        ) + rest)
}

/// A text that begins with a date without a year, in the parts that are read:
/// what is trimmed in front, a priority, blanks, and then the date.
pub struct YearlessOpening {
    pub trimmed: Seq<char>,
    pub priority: Option<Seq<char>>,
    pub indent: Seq<char>,
    pub month: Seq<char>,
    pub gap: Seq<char>,
    pub day: Seq<char>,
    pub second_gap: Seq<char>,
    pub hour: Seq<char>,
    pub minute: Seq<char>,
    pub second: Seq<char>,
    pub rest: Seq<char>,
}

pub open spec fn all_blank(s: Seq<char>) -> bool {
    forall|i: int| 0 <= i < s.len() ==> #[trigger] s[i] == ' ' || s[i] == '\t'
}

pub open spec fn is_numeral(s: Seq<char>) -> bool {
    s.len() > 0 && all_digits(s)
}

impl YearlessOpening {
    pub open spec fn valid(self) -> bool {
        &&& forall|i: int| 0 <= i < self.trimmed.len() ==> !is_solid(#[trigger] self.trimmed[i])
        &&& (self.priority matches Some(digits) ==> is_numeral(digits))
        &&& all_blank(self.indent)
        &&& self.month.len() == 3 && month_number(self.month) > 0
        &&& self.gap.len() > 0 && all_blank(self.gap)
        &&& is_numeral(self.day)
        &&& self.second_gap.len() > 0 && all_blank(self.second_gap)
        &&& is_numeral(self.hour) && is_numeral(self.minute) && is_numeral(self.second)
    }

    pub open spec fn text(self) -> Seq<char> {
        let priority = match self.priority {
            Some(digits) => "<"@ + digits + ">"@,
            None => Seq::empty(),
        };
        self.trimmed + priority + self.indent + self.month + self.gap + self.day + self.second_gap
            + self.hour + ":"@ + self.minute + ":"@ + self.second + self.rest
    }
}

/// Whether the line begins with a date without a year, behind at most a
/// priority.
pub open spec fn opens_without_year(line: Seq<char>) -> bool {
    exists|opening: YearlessOpening| opening.valid() && line == #[trigger] opening.text()
}

/// What syslog_loose reads out of a line whose date, if it has one without a
/// year, exists: the host's name and the body.
pub uninterp spec fn loose_fields(line: Seq<char>) -> (Option<Seq<char>>, Seq<char>);

/// What is known of the envelope of a line.
pub open spec fn is_envelope_of(envelope: EnvelopeView, line: Seq<char>) -> bool {
    // A function of the line, but for a date that may not exist.
    &&& ({
        ||| (envelope.hostname, envelope.msg) == loose_fields(line)
        ||| opens_without_year(line) && envelope == all_body(line)
    })
    &&& is_piece(envelope.msg, line)
    &&& (envelope.hostname matches Some(host) ==> host.len() > 0 && is_piece(host, line))
    &&& is_bare(line) ==> envelope == all_body(line)
    &&& forall|priority: Option<nat>, header: Rfc5424Header, body: Seq<char>|
        is_priority(priority) && header.valid() && is_body(body) && line == #[trigger] rfc5424_line(
            priority,
            header,
            body,
        ) ==> envelope == decoded(header.host, body)
    &&& forall|
        priority: Option<nat>,
        date: Seq<char>,
        host: Seq<char>,
        tag: Seq<char>,
        body: Seq<char>,
    |
        is_priority(priority) && is_host(host) && is_tag(tag) && is_free_text(body) && line
            == #[trigger] rfc3164_line(priority, date, host, tag, body) ==> {
            &&& is_full_date(date) ==> envelope == decoded(host, body)
            &&& is_yearless_date(date) ==> envelope == all_body(line) || exists_in_a_year(date)
                && envelope == decoded(host, body)
        }
}

/// Calls `syslog_loose::parse_message` for either variant of the protocol.
///
/// A date without a year is read in the current year and the local time zone;
/// where it does not exist there, as on a leap day, no envelope is found and the
/// whole line is the body. Nothing else depends on the clock or the zone, so the
/// result is a function of the line, named `loose_fields`, or it is the whole
/// line, and that only where the line begins with a date without a year, behind
/// at most a priority.
///
/// Of the function itself this is claimed. The body is a piece of the line, and
/// so is the host's name, which is not empty. A line that no envelope can begin
/// with, priority or not, is all body. Out of an RFC 5424 message come the host
/// and the body that went in, and so out of an RFC 3164 message with a date that
/// says its year or is nil. With a date without a year the outcome is that, or
/// the whole line, and it is the whole line if the date exists in no year.
///
/// No argument makes it panic; a clock that is set before the Unix epoch does,
/// where the line has a date without a year.
#[verifier::external_body]
pub(crate) fn parse_message(line: &str) -> (r: Envelope)
    ensures
        is_envelope_of(r@, line@),
        opens_without_year(line@) || (r@.hostname, r@.msg) == loose_fields(line@),
{
    let message = syslog_loose::parse_message(line, syslog_loose::Variant::Either);
    Envelope { hostname: message.hostname.map(String::from), msg: String::from(message.msg) }
}

/// The contents of an envelope are the texts in its fields.
pub proof fn law_envelope_contents_are_the_fields(envelope: Envelope)
    ensures
        envelope@.msg == envelope.msg@,
        envelope@.hostname is Some <==> envelope.hostname is Some,
        envelope.hostname matches Some(host) ==> envelope@.hostname == Some(host@),
{
}

} // verus!
