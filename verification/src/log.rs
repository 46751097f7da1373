//! The logging aggregator's data: one immutable record per connection,
//! the process-wide connection tally, and the exact text of the two record
//! formats.

use vstd::prelude::*;

use crate::request::IpAddr;
use crate::response::Host;
use crate::text;

verus! {

/// One connection's log record: request fields, response fields, and a
/// tally snapshot, with times captured as plain values.
pub struct Log {
    pub path: Option<String>,
    pub host: Option<Host>,
    pub user_agent: Option<String>,
    pub ip: Option<IpAddr>,
    pub referer: Option<String>,
    pub status: String,
    pub length: usize,
    /// When the connection arrived, in microseconds since the epoch.
    pub cxn_time_micros: u64,
    /// How long handling took, in microseconds.
    pub turnaround_micros: u64,
    /// How long the server had been up, in whole seconds.
    pub uptime_secs: u64,
    pub unique_cxn: u64,
    pub total_cxn: u64,
}

/// What `humantime::format_rfc3339_millis` prints for the point in time
/// that lies the given number of microseconds after the epoch.
pub uninterp spec fn rfc3339_millis_of(micros: u64) -> Seq<char>;

/// Relies on humantime::format_rfc3339_millis: it formats a point in time
/// as `YYYY-MM-DDTHH:MM:SS.mmmZ` (24 characters), always in UTC, ignoring
/// the system time zone, so the result is a function of the microsecond
/// value alone.  It refuses times in year 10000 or later, which the
/// precondition excludes.
#[verifier::external_body]
fn format_timestamp(micros: u64) -> (r: String)
    requires
        micros < 253_402_300_800_000_000,
    ensures
        r@ == rfc3339_millis_of(micros),
        r@.len() == 24,
{
    let t = std::time::UNIX_EPOCH + std::time::Duration::from_micros(micros);
    humantime::format_rfc3339_millis(t).to_string()
}

/// The timestamp as the log prints it: the RFC 3339 text with the 'T'
/// spaced out and the 'Z' dropped.
pub open spec fn timestamp_text(micros: u64) -> Seq<char> {
    text::replace_spec(
        text::replace_spec(rfc3339_millis_of(micros), "T"@, " ~ "@),
        "Z"@,
        Seq::<char>::empty(),
    )
}

fn render_timestamp(micros: u64) -> (r: String)
    requires
        micros < 253_402_300_800_000_000,
    ensures
        r@ == timestamp_text(micros),
{
    proof {
        reveal_strlit("T");
        reveal_strlit("Z");
        reveal_strlit("");
        assert(""@ =~= Seq::<char>::empty());
    }
    let raw = format_timestamp(micros);
    text::replace(text::replace(raw.as_str(), "T", " ~ ").as_str(), "Z", "")
}

/// A dotted-decimal IP, or the placeholder for an anonymous connection.
pub open spec fn ip_text(ip: Option<IpAddr>) -> Seq<char> {
    match ip {
        Some(v) => text::dec_spec(v.a as nat) + "."@ + text::dec_spec(v.b as nat) + "."@
            + text::dec_spec(v.c as nat) + "."@ + text::dec_spec(v.d as nat),
        None => "No IP"@,
    }
}

/// Formats an optional IP as the log prints it.
pub fn fmt_ip(ip: Option<IpAddr>) -> (r: String)
    ensures
        r@ == ip_text(ip),
{
    match ip {
        Some(v) => {
            let mut out = text::u64_to_string(v.a as u64);
            out.append(".");
            let b = text::u64_to_string(v.b as u64);
            out.append(b.as_str());
            out.append(".");
            let c = text::u64_to_string(v.c as u64);
            out.append(c.as_str());
            out.append(".");
            let d = text::u64_to_string(v.d as u64);
            out.append(d.as_str());
            out
        },
        None => "No IP".to_owned(),
    }
}

/// The domain a host resolves to in the log, or the placeholder.
pub open spec fn host_text(h: Option<Host>) -> Seq<char> {
    match h {
        Some(Host::Mycology) => "mycology.localhost:7878"@,
        Some(Host::Site) => "localhost:7878"@,
        None => "None"@,
    }
}

fn fmt_host(h: Option<Host>) -> (r: String)
    ensures
        r@ == host_text(h),
{
    match h {
        Some(Host::Mycology) => "mycology.localhost:7878".to_owned(),
        Some(Host::Site) => "localhost:7878".to_owned(),
        None => "None".to_owned(),
    }
}

/// An optional request field, or the placeholder.
pub open spec fn opt_text(o: Option<String>) -> Seq<char> {
    match o {
        Some(s) => s@,
        None => "None"@,
    }
}

fn fmt_opt(o: &Option<String>) -> (r: String)
    ensures
        r@ == opt_text(*o),
{
    match o {
        Some(s) => s.clone(),
        None => "None".to_owned(),
    }
}

/// A duration in the most fitting of microseconds, milliseconds, seconds.
pub open spec fn elapsed_text(micros: u64) -> Seq<char> {
    if micros < 1000 {
        text::dec_spec(micros as nat) + "\u{3bc}s"@
    } else if micros < 1000000 {
        text::dec_spec((micros / 1000) as nat) + "ms"@
    } else {
        text::dec_spec((micros / 1000000) as nat) + "s"@
    }
}

/// Formats a turnaround time.
pub fn fmt_elapsed(micros: u64) -> (r: String)
    ensures
        r@ == elapsed_text(micros),
{
    if micros < 1000 {
        let mut out = text::u64_to_string(micros);
        out.append("\u{3bc}s");
        out
    } else if micros < 1000000 {
        let mut out = text::u64_to_string(micros / 1000);
        out.append("ms");
        out
    } else {
        let mut out = text::u64_to_string(micros / 1000000);
        out.append("s");
        out
    }
}

/// One unit of an uptime rendering: skipped when zero, else appended as
/// " {count} {unit}".
pub open spec fn unit_text(acc: Seq<char>, name: Seq<char>, t: nat) -> Seq<char> {
    if t == 0 {
        acc
    } else {
        acc + " "@ + text::dec_spec(t) + " "@ + name
    }
}

fn append_unit(acc: String, name: &str, t: u64) -> (r: String)
    ensures
        r@ == unit_text(acc@, name@, t as nat),
{
    if t == 0 {
        acc
    } else {
        let mut out = acc;
        out.append(" ");
        let num = text::u64_to_string(t);
        out.append(num.as_str());
        out.append(" ");
        out.append(name);
        out
    }
}

/// A span of seconds as weeks, days, hours, minutes and seconds, omitting
/// the units that are zero.
pub open spec fn wdhms_text(secs: u64) -> Seq<char> {
    unit_text(
        unit_text(
            unit_text(
                unit_text(
                    unit_text(Seq::<char>::empty(), "weeks"@, (secs / 604800) as nat),
                    "days"@,
                    ((secs / 86400) % 7) as nat,
                ),
                "hours"@,
                ((secs / 3600) % 24) as nat,
            ),
            "mins"@,
            ((secs / 60) % 60) as nat,
        ),
        "secs"@,
        (secs % 60) as nat,
    )
}

/// Renders an uptime span unit by unit.
pub fn to_wdhms(secs: u64) -> (r: String)
    ensures
        r@ == wdhms_text(secs),
{
    let mut out = String::new();
    out = append_unit(out, "weeks", secs / 604800);
    out = append_unit(out, "days", (secs / 86400) % 7);
    out = append_unit(out, "hours", (secs / 3600) % 24);
    out = append_unit(out, "mins", (secs / 60) % 60);
    out = append_unit(out, "secs", secs % 60);
    out
}

/// The single-line record for a repeated connection.
pub open spec fn mini_log_spec(l: Log) -> Seq<char> {
    "#"@ + text::dec_spec(l.total_cxn as nat) + " - "@ + ip_text(l.ip) + " - "@ + timestamp_text(
        l.cxn_time_micros,
    ) + " - "@ + l.status@ + " - "@ + text::dec_spec(l.length as nat) + "b - "@ + elapsed_text(
        l.turnaround_micros,
    ) + " - "@ + opt_text(l.path) + "\n"@
}

/// The multi-line record for a connection from a new IP.
pub open spec fn big_log_spec(l: Log) -> Seq<char> {
    "START\nTimestamp: "@ + timestamp_text(l.cxn_time_micros) + "\n# Unique: "@ + text::dec_spec(
        l.unique_cxn as nat,
    ) + "\n# Total: "@ + text::dec_spec(l.total_cxn as nat) + "\nUp-time:"@ + wdhms_text(
        l.uptime_secs,
    ) + "\nRequest:\n\tPath: "@ + opt_text(l.path) + "\n\tHost: "@ + host_text(l.host)
        + "\n\tIp: "@ + ip_text(l.ip) + "\n\tReferer: "@ + opt_text(l.referer) + "\n\tAgent: "@
        + opt_text(l.user_agent) + "\nResponse:\n\tStatus: "@ + l.status@ + "\n\tLength: "@
        + text::dec_spec(l.length as nat) + " bytes\n\tTurnaround: "@ + elapsed_text(
        l.turnaround_micros,
    ) + "\n"@
}

/// The record a connection produces: abbreviated when its IP equals the
/// immediately preceding connection's, full otherwise.
pub open spec fn stringify_spec(l: Log, this_ip: IpAddr, last_ip: IpAddr) -> Seq<char> {
    if last_ip == this_ip {
        mini_log_spec(l)
    } else {
        big_log_spec(l)
    }
}

impl Log {
    /// Renders the record in the format its deduplication key calls for.
    pub fn stringify(self, this_ip: IpAddr, last_ip: IpAddr) -> (r: String)
        requires
            self.cxn_time_micros < 253_402_300_800_000_000,
        ensures
            r@ == stringify_spec(self, this_ip, last_ip),
    {
        let timestamp = render_timestamp(self.cxn_time_micros);
        let turnaround = fmt_elapsed(self.turnaround_micros);
        let ip_str = fmt_ip(self.ip);
        let path = fmt_opt(&self.path);
        if last_ip == this_ip {
            let mut out = String::new();
            out.append("#");
            let total = text::u64_to_string(self.total_cxn);
            out.append(total.as_str());
            out.append(" - ");
            out.append(ip_str.as_str());
            out.append(" - ");
            out.append(timestamp.as_str());
            out.append(" - ");
            out.append(self.status.as_str());
            out.append(" - ");
            let length = text::usize_to_string(self.length);
            out.append(length.as_str());
            out.append("b - ");
            out.append(turnaround.as_str());
            out.append(" - ");
            out.append(path.as_str());
            out.append("\n");
            out
        } else {
            let uptime = to_wdhms(self.uptime_secs);
            let host = fmt_host(self.host);
            let referer = fmt_opt(&self.referer);
            let user_agent = fmt_opt(&self.user_agent);
            let mut out = String::new();
            out.append("START\nTimestamp: ");
            out.append(timestamp.as_str());
            out.append("\n# Unique: ");
            let unique = text::u64_to_string(self.unique_cxn);
            out.append(unique.as_str());
            out.append("\n# Total: ");
            let total = text::u64_to_string(self.total_cxn);
            out.append(total.as_str());
            out.append("\nUp-time:");
            out.append(uptime.as_str());
            out.append("\nRequest:\n\tPath: ");
            out.append(path.as_str());
            out.append("\n\tHost: ");
            out.append(host.as_str());
            out.append("\n\tIp: ");
            out.append(ip_str.as_str());
            out.append("\n\tReferer: ");
            out.append(referer.as_str());
            out.append("\n\tAgent: ");
            out.append(user_agent.as_str());
            out.append("\nResponse:\n\tStatus: ");
            out.append(self.status.as_str());
            out.append("\n\tLength: ");
            let length = text::usize_to_string(self.length);
            out.append(length.as_str());
            out.append(" bytes\n\tTurnaround: ");
            out.append(turnaround.as_str());
            out.append("\n");
            out
        }
    }
}

/// What one token of the status line contributes to the logged status:
/// nothing for the protocol token, a space and the token for the rest.
pub open spec fn status_token_text(tok: Seq<char>) -> Seq<char> {
    if text::has_substring(tok, "HTTP"@) {
        Seq::<char>::empty()
    } else {
        " "@ + tok
    }
}

pub open spec fn status_fold(acc: Seq<char>, toks: Seq<Seq<char>>) -> Seq<char>
    decreases toks.len(),
{
    if toks.len() == 0 {
        acc
    } else {
        status_fold(acc + status_token_text(toks[0]), toks.drop_first())
    }
}

/// The status as the log prints it: the status line's tokens minus the
/// protocol token, each preceded by a space.
pub open spec fn status_text_spec(s: Seq<char>) -> Seq<char> {
    status_fold(Seq::<char>::empty(), crate::request::tokens(s))
}

/// Strips the protocol token out of a status line for the log.
pub fn status_text(status: &str) -> (r: String)
    ensures
        r@ == status_text_spec(status@),
{
    let n = status.unicode_len();
    let mut out = String::new();
    let mut i: usize = 0;
    proof {
        assert(status@.skip(0) =~= status@);
        assert(out@ =~= Seq::<char>::empty());
    }
    while i < n
        invariant
            i <= n,
            n == status@.len(),
            status_text_spec(status@) == status_fold(
                out@,
                crate::request::tokens(status@.skip(i as int)),
            ),
        decreases n - i,
    {
        let ghost tail = status@.skip(i as int);
        if is_wsp_exec(status.get_char(i)) {
            proof {
                assert(tail.drop_first() =~= status@.skip(i + 1));
                assert(crate::request::skip_wsp(tail) == crate::request::skip_wsp(
                    status@.skip(i + 1),
                ));
                assert(crate::request::tokens(tail) == crate::request::tokens(
                    status@.skip(i + 1),
                ));
            }
            i += 1;
        } else {
            let start = i;
            while i < n && !is_wsp_exec(status.get_char(i))
                invariant
                    start <= i <= n,
                    n == status@.len(),
                    forall|k: int| start <= k < i ==> !crate::request::is_wsp(status@[k]),
                decreases n - i,
            {
                i += 1;
            }
            let tok = status.substring_char(start, i).to_owned();
            let ghost rest = status@.skip(i as int);
            proof {
                assert(!crate::request::is_wsp(tail[0]));
                assert(crate::request::skip_wsp(tail) == tail);
                assert(forall|k: int|
                    0 <= k < i - start ==> !crate::request::is_wsp(#[trigger] tail[k]));
                crate::request::lemma_take_token_range(tail, i - start);
                crate::request::lemma_after_token_range(tail, i - start);
                assert(tail.take(i - start) =~= status@.subrange(start as int, i as int));
                assert(tail.skip(i - start) =~= rest);
                assert(crate::request::tokens(tail) =~= seq![tok@] + crate::request::tokens(
                    rest,
                ));
            }
            let ghost out0 = out@;
            if !text::contains(tok.as_str(), "HTTP") {
                out.append(" ");
                out.append(tok.as_str());
            }
            proof {
                assert(out@ =~= out0 + status_token_text(tok@));
                let toks = seq![tok@] + crate::request::tokens(rest);
                assert(toks[0] == tok@);
                assert(toks.drop_first() =~= crate::request::tokens(rest));
                assert(status_fold(out0, toks) == status_fold(
                    out@,
                    crate::request::tokens(rest),
                ));
            }
        }
    }
    proof {
        assert(status@.skip(n as int) =~= Seq::<char>::empty());
        assert(crate::request::tokens(status@.skip(n as int)).len() == 0);
    }
    out
}

fn is_wsp_exec(c: char) -> (r: bool)
    ensures
        r == crate::request::is_wsp(c),
{
    c == ' ' || c == '\t'
}

/// The process-wide connection tally: unique and total counters and the
/// previous connection's IP.  Both counters only ever grow.
pub struct ConnectionTally {
    pub unique_count: u64,
    pub total_count: u64,
    pub last_ip: Option<IpAddr>,
}

impl ConnectionTally {
    /// A fresh tally: nothing counted, no previous connection.
    pub fn new() -> (r: ConnectionTally)
        ensures
            r.unique_count == 0,
            r.total_count == 0,
            r.last_ip is None,
    {
        ConnectionTally { unique_count: 0, total_count: 0, last_ip: None }
    }

    /// Counts one connection.  The result says whether the connection is a
    /// repeat: from the same IP as the one immediately prior, in which
    /// case the abbreviated record is logged.  Both counters are
    /// non-decreasing; the total always grows by one, the unique counter
    /// exactly when the IP changed.
    pub fn record(&mut self, ip: IpAddr) -> (repeat: bool)
        requires
            old(self).total_count < u64::MAX,
            old(self).unique_count < u64::MAX,
        ensures
            repeat == (old(self).last_ip == Some(ip)),
            final(self).total_count == old(self).total_count + 1,
            final(self).unique_count == if repeat {
                old(self).unique_count as int
            } else {
                old(self).unique_count + 1
            },
            final(self).last_ip == Some(ip),
            final(self).unique_count >= old(self).unique_count,
            final(self).total_count > old(self).total_count,
    {
        let repeat = match self.last_ip {
            Some(prev) => prev == ip,
            None => false,
        };
        self.total_count = self.total_count + 1;
        if !repeat {
            self.unique_count = self.unique_count + 1;
        }
        self.last_ip = Some(ip);
        repeat
    }
}

} // verus!
