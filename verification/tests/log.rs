use rusty_website::log::{fmt_elapsed, fmt_ip, status_text, to_wdhms, ConnectionTally, Log};
use rusty_website::request::IpAddr;
use rusty_website::response::Host;

fn ip(a: u8, b: u8, c: u8, d: u8) -> IpAddr {
    IpAddr { a, b, c, d }
}

#[test]
fn tally_counts_unique_and_total_connections() {
    let mut tally = ConnectionTally::new();
    let a = ip(10, 0, 0, 1);
    let b = ip(10, 0, 0, 2);
    // first connection ever from A: unique=1, total=1, full record
    let repeat = tally.record(a);
    assert!(!repeat);
    assert_eq!((tally.unique_count, tally.total_count), (1, 1));
    // immediate second connection from A: unique=1, total=2, abbreviated
    let repeat = tally.record(a);
    assert!(repeat);
    assert_eq!((tally.unique_count, tally.total_count), (1, 2));
    // connection from B: unique=2, total=3, full record
    let repeat = tally.record(b);
    assert!(!repeat);
    assert_eq!((tally.unique_count, tally.total_count), (2, 3));
}

#[test]
fn elapsed_times_pick_the_fitting_unit() {
    assert_eq!(fmt_elapsed(0), "0\u{3bc}s");
    assert_eq!(fmt_elapsed(999), "999\u{3bc}s");
    assert_eq!(fmt_elapsed(1000), "1ms");
    assert_eq!(fmt_elapsed(999_999), "999ms");
    assert_eq!(fmt_elapsed(2_000_000), "2s");
}

#[test]
fn uptime_omits_zero_units() {
    assert_eq!(to_wdhms(0), "");
    assert_eq!(to_wdhms(61), " 1 mins 1 secs");
    assert_eq!(to_wdhms(3600), " 1 hours");
    assert_eq!(to_wdhms(604800 + 86400 + 3600 + 60 + 1), " 1 weeks 1 days 1 hours 1 mins 1 secs");
}

#[test]
fn ips_render_dotted_or_anonymous() {
    assert_eq!(fmt_ip(Some(ip(81, 2, 69, 160))), "81.2.69.160");
    assert_eq!(fmt_ip(None), "No IP");
}

#[test]
fn status_line_loses_its_protocol_token() {
    assert_eq!(status_text("HTTP/1.1 200 OK"), " 200 OK");
    assert_eq!(status_text("HTTP/1.1 404 NOT FOUND"), " 404 NOT FOUND");
    assert_eq!(status_text(""), "");
}

fn sample_log() -> Log {
    Log {
        path: Some("/x".to_string()),
        host: Some(Host::Site),
        user_agent: None,
        ip: Some(ip(1, 2, 3, 4)),
        referer: None,
        status: " 200 OK".to_string(),
        length: 123,
        cxn_time_micros: 0,
        turnaround_micros: 500,
        uptime_secs: 61,
        unique_cxn: 1,
        total_cxn: 5,
    }
}

#[test]
fn repeated_ip_gets_the_abbreviated_record() {
    let line = sample_log().stringify(ip(1, 2, 3, 4), ip(1, 2, 3, 4));
    assert_eq!(
        line,
        "#5 - 1.2.3.4 - 1970-01-01 ~ 00:00:00.000 -  200 OK - 123b - 500\u{3bc}s - /x\n"
    );
}

#[test]
fn new_ip_gets_the_full_record() {
    let line = sample_log().stringify(ip(1, 2, 3, 4), ip(9, 9, 9, 9));
    assert_eq!(
        line,
        "START\n\
         Timestamp: 1970-01-01 ~ 00:00:00.000\n\
         # Unique: 1\n\
         # Total: 5\n\
         Up-time: 1 mins 1 secs\n\
         Request:\n\
         \tPath: /x\n\
         \tHost: localhost:7878\n\
         \tIp: 1.2.3.4\n\
         \tReferer: None\n\
         \tAgent: None\n\
         Response:\n\
         \tStatus:  200 OK\n\
         \tLength: 123 bytes\n\
         \tTurnaround: 500\u{3bc}s\n"
    );
}

#[test]
fn timestamps_come_from_the_connection_time() {
    let mut log = sample_log();
    // 2018-02-14T00:28:07.000Z
    log.cxn_time_micros = 1_518_568_087_000_000;
    let line = log.stringify(ip(1, 2, 3, 4), ip(1, 2, 3, 4));
    assert!(line.contains("2018-02-14 ~ 00:28:07.000"));
}
