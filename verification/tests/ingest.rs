use easylog::envelope::Envelope;
use easylog::ingest::{
    drop_warning, enqueue, enqueue_datagram, handle_read, route, Connection, Enqueued, LineRead,
};
use easylog::sources::SourceMap;
use easylog::work::{Timestamp, WorkItem};
use tokio::sync::mpsc::channel;

const IP: &str = "192.0.2.7";

fn sources() -> SourceMap {
    let mut sources = SourceMap::new();
    sources.insert(IP.to_string(), "apache".to_string());
    sources
}

fn sent(line: &str) -> WorkItem {
    let (mut tx, mut rx) = channel(4);
    assert_eq!(enqueue(&sources(), &mut tx, IP, line), Enqueued::Sent);
    let item = rx.try_recv().unwrap();
    assert!(rx.try_recv().is_err());
    item
}

#[test]
fn sources_are_looked_up_by_address() {
    let mut map = SourceMap::new();
    assert_eq!(map.log_type(IP), None);
    map.insert(IP.to_string(), "apache".to_string());
    map.insert("::1".to_string(), "other".to_string());
    assert_eq!(map.log_type(IP), Some("apache".to_string()));
    assert_eq!(map.log_type("::1"), Some("other".to_string()));
    map.insert(IP.to_string(), "other".to_string());
    assert_eq!(map.log_type(IP), Some("other".to_string()));
}

#[test]
fn a_message_is_routed_by_its_source() {
    let at = Timestamp { secs: 17, nanos: 5 };
    let envelope = Envelope { hostname: Some("web1".to_string()), msg: "hello".to_string() };
    let item = route("apache".to_string(), IP, envelope, at);
    assert_eq!(item.log_type, "apache");
    assert_eq!(item.raw, "hello");
    assert_eq!(item.meta.source_ip, IP);
    assert_eq!(item.meta.hostname, Some("web1".to_string()));
    assert_eq!(item.meta.received_at, at);
    let envelope = Envelope { hostname: None, msg: "hello".to_string() };
    assert_eq!(route("x".to_string(), IP, envelope, at).meta.hostname, None);
}

const PRIORITIES: [&str; 6] = ["", "<0>", "<7>", "<14>", "<134>", "<191>"];

const HOSTS: [&str; 7] = ["web1", "a:b", "10.0.0.1", "--", "fe80::1", "x[1]", "\u{e9}t\u{e9}"];

const STAMPS: [&str; 9] = [
    "-",
    "2003-10-11T22:14:15Z",
    "2003-10-11T22:14:15.003Z",
    "2003-10-11T00:00:00.0000000000001-07:59",
    "2024-02-29T23:59:59+23:59",
    "0000-02-29T00:00:00Z",
    "0000-01-01T00:00:00+23:59",
    "9999-12-31T23:59:59-23:59",
    "1999-04-30T12:30:30.5+00:00",
];

const MONTHS: [&str; 12] =
    ["Jan", "feb", "MAR", "Apr", "May", "jUn", "Jul", "Aug", "Sep", "Oct", "Nov", "Dec"];

fn assert_decoded(line: &str, host: Option<&str>, body: &str) {
    let item = sent(line);
    assert_eq!(item.raw, body, "{line}");
    assert_eq!(item.meta.hostname.as_deref(), host, "{line}");
}

fn assert_all_body(line: &str) {
    assert_decoded(line, None, line);
}

#[test]
fn rfc5424_envelope() {
    let bodies = ["", "x", "GET / \"-\" 200", "[a] - b", "-", "<34>1 - h - - - - y", "\u{e9}\u{4e00}"];
    for priority in PRIORITIES {
        for stamp in STAMPS {
            for host in HOSTS {
                for body in bodies {
                    let line = format!("{priority}1 {stamp} {host} su - ID47 - {body}");
                    assert_decoded(&line, Some(host), body);
                }
            }
            let line = format!("{priority}1 {stamp} - - - - - body");
            assert_decoded(&line, None, "body");
        }
    }
    for field in ["-", "a:", "::", "[x]", "1", "\"", "=", "\u{e9}"] {
        assert_decoded(&format!("<34>1 - h {field} - - - m"), Some("h"), "m");
        assert_decoded(&format!("<34>1 - h - {field} - - m"), Some("h"), "m");
        assert_decoded(&format!("<34>1 - h - - {field} - m"), Some("h"), "m");
    }
}

#[test]
fn rfc5424_structured_data() {
    let data = [
        "[id]",
        "[id a=\"\"]",
        "[id@32473 iut=\"3\" eventSource=\"Application x\" eventID=\"1011\"]",
        "[a][b]",
        "[a x=\"1\"][b][c y=\"[ = \" z=\"2\"]",
        "[- -=\"-\"]",
        "[[ [=\"[\"]",
        "[\u{e9} \u{e9}=\"\u{e9}\t\"]",
    ];
    for d in data {
        for body in ["", "x", "[z] y", "-", "- =", "a=\"b\"]"] {
            let line = format!("<34>1 2003-10-11T22:14:15Z host su - ID47 {d} {body}");
            assert_decoded(&line, Some("host"), body);
        }
    }
}

const TAGS: [&str; 7] = ["apache", "--", "a]", "9", "{=}", "app[323]", "[x"];

const FREE_TEXTS: [&str; 9] = [
    "",
    "x",
    "127.0.0.1 - - [12/Jun/2026] \"GET /\" 200",
    ": y",
    "a: [b c=\"d\"] e",
    "[Tue Jun 08 11:54:08.929301 2021] [php7:emerg] x=\"y\"",
    "[",
    "[a b",
    "[x]=",
];

#[test]
fn rfc3164_envelope_with_a_full_date() {
    let mut dates: Vec<String> = STAMPS.iter().map(|s| s.to_string()).collect();
    for month in MONTHS {
        for rest in [" 1 2026 10:00:00", "28 0000 00:00:00", "02 9999 23:59:59"] {
            dates.push(format!("{month} {rest}"));
        }
    }
    dates.push("Feb 29 2024 00:00:00".to_string());
    dates.push("Dec 31 1999 23:59:59".to_string());
    for date in dates {
        for tag in TAGS {
            for body in FREE_TEXTS {
                let line = format!("<13>{date} web1 {tag}: {body}");
                assert_decoded(&line, Some("web1"), body);
            }
        }
        for priority in PRIORITIES {
            for host in HOSTS {
                let line = format!("{priority}{date} {host} apache: GET /");
                assert_decoded(&line, Some(host), "GET /");
            }
            assert_decoded(&format!("{priority}{date} - apache: GET /"), None, "GET /");
        }
    }
}

#[test]
fn rfc3164_envelope_without_a_year() {
    for month in MONTHS {
        for day in [" 1", "02", "12", "28"] {
            for host in HOSTS {
                for tag in TAGS {
                    for body in FREE_TEXTS {
                        let line = format!("<13>{month} {day} 12:34:56 {host} {tag}: {body}");
                        let item = sent(&line);
                        if item.raw != line {
                            assert_eq!(item.raw, body, "{line}");
                            assert_eq!(item.meta.hostname.as_deref(), Some(host), "{line}");
                        } else {
                            assert_eq!(item.meta.hostname, None);
                        }
                    }
                }
            }
        }
    }
    assert_decoded(
        "<34>Oct 11 22:14:15 mymachine app[323]: a message",
        Some("mymachine"),
        "a message",
    );
}

#[test]
fn a_date_of_no_year_is_no_envelope() {
    for date in [
        "Feb 30 10:00:00",
        "Apr 31 10:00:00",
        "Jan 00 10:00:00",
        "Jan  0 10:00:00",
        "Jan 32 10:00:00",
        "Jun 12 24:00:00",
        "Jun 12 10:60:00",
        "Jun 12 10:00:60",
    ] {
        assert_all_body(&format!("<13>{date} web1 apache: GET /"));
        assert_all_body(&format!("{date} web1 apache: "));
    }
}

#[test]
fn a_line_without_an_envelope_is_all_body() {
    let mut openings: Vec<String> = Vec::new();
    for c in '!'..='~' {
        if !c.is_ascii_alphanumeric() && c != '-' && c != '<' {
            openings.push(c.to_string());
        }
    }
    for text in [
        "<", "<html>", "<-1>", "a", "Ju", "Jan", "JANuary", "may.", "Dec-", "hello", "GET", "Jux ",
        "1", "127.", "2003/", "12345:", "1<", "9\u{e9}", "007\n",
    ] {
        openings.push(text.to_string());
    }
    for opening in openings {
        for rest in ["", "x", ".1 ", "<34>1 - h - - - - x", "{\"a\": 1}\n"] {
            let line = format!("{opening}{rest}");
            if opening == "1" && rest == ".1 " || opening != "1" && opening != "<" {
                for priority in PRIORITIES {
                    assert_all_body(&format!("{priority}{line}"));
                }
            }
        }
    }
    assert_all_body("127.0.0.1 - - [12/Jun/2026:09:00:00 +0000] \"GET /test HTTP/1.1\" 200 42");
    assert_all_body("<13>hello world");
    assert_all_body("");
}

#[test]
fn body_and_host_are_pieces_of_the_line() {
    for line in [
        "<34>Oct 11 22:14:15 mymachine: a message",
        "  <134>Oct 30 16:05:54 opsaudit  {\"username\": \"admin\"}  ",
        "<131>Jun 8 11:54:08 master apache_error [Tue Jun 08 11:54:08 2021] [pid 1] rest",
        "<34>Feb 29 22:14:15 mymachine app: leap",
        "<34>Feb 30 22:14:15 mymachine app: never",
        "- - -",
        "plain text",
        "\u{e9}t\u{e9} \u{2603}",
    ] {
        let item = sent(line);
        assert!(line.contains(&item.raw));
        if let Some(host) = item.meta.hostname {
            assert!(!host.is_empty() && line.contains(&host));
        }
        assert!(item.meta.received_at.secs > 1_500_000_000);
        assert!(item.meta.received_at.nanos < 1_000_000_000);
    }
}

#[test]
fn an_unknown_sender_is_dropped() {
    let (mut tx, mut rx) = channel(4);
    assert_eq!(enqueue(&sources(), &mut tx, "192.0.2.8", "{x}"), Enqueued::NoSource);
    assert!(rx.try_recv().is_err());
}

#[test]
fn a_full_or_closed_channel_drops() {
    let (mut tx, mut rx) = channel(1);
    assert_eq!(enqueue(&sources(), &mut tx, IP, "{a}"), Enqueued::Sent);
    assert_eq!(enqueue(&sources(), &mut tx, IP, "{b}"), Enqueued::Overflow);
    assert_eq!(enqueue(&sources(), &mut tx, "192.0.2.8", "{c}"), Enqueued::NoSource);
    assert_eq!(rx.try_recv().unwrap().raw, "{a}");
    assert!(rx.try_recv().is_err());
    assert_eq!(enqueue(&sources(), &mut tx, IP, "{d}"), Enqueued::Sent);
    drop(rx);
    assert_eq!(enqueue(&sources(), &mut tx, IP, "{e}"), Enqueued::Overflow);
}

#[test]
fn a_datagram_is_one_message() {
    let (mut tx, mut rx) = channel(4);
    let mut buf = vec![0u8; 32];
    buf[..9].copy_from_slice("{\u{e9}t\u{e9}} x".as_bytes());
    assert_eq!(enqueue_datagram(&sources(), &mut tx, IP, &buf, 9), Enqueued::Sent);
    assert_eq!(rx.try_recv().unwrap().raw, "{\u{e9}t\u{e9}} x");
    buf[..4].copy_from_slice(&[b'{', 0xff, b'}', b'z']);
    assert_eq!(enqueue_datagram(&sources(), &mut tx, IP, &buf, 3), Enqueued::Sent);
    assert_eq!(rx.try_recv().unwrap().raw, "{\u{fffd}}");
    assert_eq!(enqueue_datagram(&sources(), &mut tx, "192.0.2.8", &buf, 3), Enqueued::NoSource);
    assert!(rx.try_recv().is_err());
}

#[test]
fn a_connection_is_read_line_by_line() {
    let (mut tx, mut rx) = channel(1);
    let map = sources();
    let line = |text: &str| LineRead::Line(text.to_string());
    assert_eq!(
        handle_read(&map, &mut tx, IP, line("{a}")),
        Connection::Open(Enqueued::Sent)
    );
    assert_eq!(
        handle_read(&map, &mut tx, IP, line("{b}")),
        Connection::Open(Enqueued::Overflow)
    );
    assert_eq!(
        handle_read(&map, &mut tx, "192.0.2.8", line("{c}")),
        Connection::Open(Enqueued::NoSource)
    );
    assert_eq!(handle_read(&map, &mut tx, IP, LineRead::End), Connection::Closed);
    assert_eq!(handle_read(&map, &mut tx, IP, LineRead::Failed), Connection::Broken);
    assert_eq!(rx.try_recv().unwrap().raw, "{a}");
    assert!(rx.try_recv().is_err());
}

#[test]
fn drops_are_reported_once_in_a_thousand() {
    assert_eq!(drop_warning(0), Some(1));
    assert_eq!(drop_warning(1), None);
    assert_eq!(drop_warning(999), None);
    assert_eq!(drop_warning(1000), Some(1001));
    assert_eq!(drop_warning(u64::MAX - 1), None);
    for start in [0u64, 1, 500, 12_345] {
        let reported = (start..start + 1000).filter(|n| drop_warning(*n).is_some()).count();
        assert_eq!(reported, 1);
    }
}
