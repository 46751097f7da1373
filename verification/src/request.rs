//! The request parser: the already-read header lines of one request are
//! examined for the path, the virtual host, the forwarded IP, and a small
//! whitelist of header fields.

use vstd::prelude::*;

use crate::response::Host;
use crate::text;

verus! {

/// A forwarded IPv4 address, one octet per field.
#[derive(Clone, Copy, PartialEq, Eq, Structural, Debug)]
pub struct IpAddr {
    pub a: u8,
    pub b: u8,
    pub c: u8,
    pub d: u8,
}

/// What the parser extracts from one request.
pub struct RequestInfo {
    pub host: Option<Host>,
    pub path: Option<String>,
    pub user_agent: Option<String>,
    pub ip: Option<IpAddr>,
    pub referer: Option<String>,
}

pub open spec fn is_wsp(c: char) -> bool {
    c == ' ' || c == '\t'
}

pub open spec fn skip_wsp(s: Seq<char>) -> Seq<char>
    decreases s.len(),
{
    if s.len() > 0 && is_wsp(s[0]) {
        skip_wsp(s.drop_first())
    } else {
        s
    }
}

pub open spec fn take_token(s: Seq<char>) -> Seq<char>
    decreases s.len(),
{
    if s.len() > 0 && !is_wsp(s[0]) {
        seq![s[0]] + take_token(s.drop_first())
    } else {
        Seq::<char>::empty()
    }
}

pub open spec fn after_token(s: Seq<char>) -> Seq<char>
    decreases s.len(),
{
    if s.len() > 0 && !is_wsp(s[0]) {
        after_token(s.drop_first())
    } else {
        s
    }
}

pub proof fn lemma_skip_wsp_len(s: Seq<char>)
    ensures
        skip_wsp(s).len() <= s.len(),
        skip_wsp(s).len() > 0 ==> !is_wsp(skip_wsp(s)[0]),
    decreases s.len(),
{
    if s.len() > 0 && is_wsp(s[0]) {
        lemma_skip_wsp_len(s.drop_first());
    }
}

pub proof fn lemma_after_token_len(s: Seq<char>)
    ensures
        after_token(s).len() <= s.len(),
        s.len() > 0 && !is_wsp(s[0]) ==> after_token(s).len() < s.len(),
    decreases s.len(),
{
    if s.len() > 0 && !is_wsp(s[0]) {
        lemma_after_token_len(s.drop_first());
    }
}

/// All whitespace-delimited tokens of a line, in order.
pub open spec fn tokens(s: Seq<char>) -> Seq<Seq<char>>
    decreases s.len(),
    when true
    via tokens_decreases
{
    let t = skip_wsp(s);
    if t.len() == 0 {
        Seq::<Seq<char>>::empty()
    } else {
        seq![take_token(t)] + tokens(after_token(t))
    }
}

#[via_fn]
proof fn tokens_decreases(s: Seq<char>) {
    lemma_skip_wsp_len(s);
    let t = skip_wsp(s);
    if t.len() > 0 {
        assert(!is_wsp(t[0]));
        lemma_after_token_len(t);
    }
}

/// The second whitespace-delimited token of a line, if it has one.
pub open spec fn second_token(s: Seq<char>) -> Option<Seq<char>> {
    let rest = skip_wsp(after_token(skip_wsp(s)));
    if rest.len() == 0 {
        None
    } else {
        Some(take_token(rest))
    }
}

pub proof fn lemma_skip_wsp_range(s: Seq<char>, j: int)
    requires
        0 <= j <= s.len(),
        forall|k: int| 0 <= k < j ==> is_wsp(s[k]),
        j == s.len() || !is_wsp(s[j]),
    ensures
        skip_wsp(s) == s.skip(j),
    decreases j,
{
    if j == 0 {
        assert(s.skip(0) =~= s);
    } else {
        let t = s.drop_first();
        assert(forall|k: int| 0 <= k < j - 1 ==> is_wsp(#[trigger] t[k]));
        lemma_skip_wsp_range(t, j - 1);
        assert(t.skip(j - 1) =~= s.skip(j));
    }
}

pub proof fn lemma_after_token_range(s: Seq<char>, j: int)
    requires
        0 <= j <= s.len(),
        forall|k: int| 0 <= k < j ==> !is_wsp(s[k]),
        j == s.len() || is_wsp(s[j]),
    ensures
        after_token(s) == s.skip(j),
    decreases j,
{
    if j == 0 {
        assert(s.skip(0) =~= s);
    } else {
        let t = s.drop_first();
        assert(forall|k: int| 0 <= k < j - 1 ==> !is_wsp(#[trigger] t[k]));
        lemma_after_token_range(t, j - 1);
        assert(t.skip(j - 1) =~= s.skip(j));
    }
}

pub proof fn lemma_take_token_range(s: Seq<char>, j: int)
    requires
        0 <= j <= s.len(),
        forall|k: int| 0 <= k < j ==> !is_wsp(s[k]),
        j == s.len() || is_wsp(s[j]),
    ensures
        take_token(s) == s.take(j),
    decreases j,
{
    if j == 0 {
        assert(s.take(0) =~= Seq::<char>::empty());
    } else {
        let t = s.drop_first();
        assert(forall|k: int| 0 <= k < j - 1 ==> !is_wsp(#[trigger] t[k]));
        lemma_take_token_range(t, j - 1);
        assert(seq![s[0]] + t.take(j - 1) =~= s.take(j));
    }
}

/// Finds the second whitespace-delimited token of a line.
pub fn second_token_of(s: &str) -> (r: Option<String>)
    ensures
        r.deep_view() == second_token(s@),
{
    let n = s.unicode_len();
    let mut i: usize = 0;
    while i < n && is_wsp_char(s.get_char(i))
        invariant
            i <= n,
            n == s@.len(),
            forall|k: int| 0 <= k < i ==> is_wsp(s@[k]),
        decreases n - i,
    {
        i += 1;
    }
    let i1 = i;
    proof {
        lemma_skip_wsp_range(s@, i1 as int);
    }
    while i < n && !is_wsp_char(s.get_char(i))
        invariant
            i1 <= i <= n,
            n == s@.len(),
            forall|k: int| i1 <= k < i ==> !is_wsp(s@[k]),
        decreases n - i,
    {
        i += 1;
    }
    let i2 = i;
    proof {
        let t = s@.skip(i1 as int);
        assert(forall|k: int| 0 <= k < i2 - i1 ==> !is_wsp(#[trigger] t[k]));
        lemma_after_token_range(t, i2 - i1);
        assert(t.skip(i2 - i1) =~= s@.skip(i2 as int));
    }
    while i < n && is_wsp_char(s.get_char(i))
        invariant
            i2 <= i <= n,
            n == s@.len(),
            forall|k: int| i2 <= k < i ==> is_wsp(s@[k]),
        decreases n - i,
    {
        i += 1;
    }
    let i3 = i;
    proof {
        let t = s@.skip(i2 as int);
        assert(forall|k: int| 0 <= k < i3 - i2 ==> is_wsp(#[trigger] t[k]));
        lemma_skip_wsp_range(t, i3 - i2);
        assert(t.skip(i3 - i2) =~= s@.skip(i3 as int));
    }
    if i3 == n {
        proof {
            assert(s@.skip(n as int) =~= Seq::<char>::empty());
        }
        return None;
    }
    while i < n && !is_wsp_char(s.get_char(i))
        invariant
            i3 <= i <= n,
            n == s@.len(),
            forall|k: int| i3 <= k < i ==> !is_wsp(s@[k]),
        decreases n - i,
    {
        i += 1;
    }
    let i4 = i;
    let token = s.substring_char(i3, i4).to_owned();
    proof {
        let t = s@.skip(i3 as int);
        assert(forall|k: int| 0 <= k < i4 - i3 ==> !is_wsp(#[trigger] t[k]));
        lemma_take_token_range(t, i4 - i3);
        assert(t.take(i4 - i3) =~= s@.subrange(i3 as int, i4 as int));
        assert(t.len() > 0);
    }
    Some(token)
}

fn is_wsp_char(c: char) -> (r: bool)
    ensures
        r == is_wsp(c),
{
    c == ' ' || c == '\t'
}

/// The path of a request: the second token of its first line.
pub open spec fn path_spec(lines: Seq<Seq<char>>) -> Option<Seq<char>> {
    if lines.len() == 0 {
        None
    } else {
        second_token(lines[0])
    }
}

/// Extracts the request path, if the first line carries one.
pub fn get_path(lines: &Vec<String>) -> (r: Option<String>)
    ensures
        r.deep_view() == path_spec(lines.deep_view()),
{
    if lines.len() == 0 {
        None
    } else {
        second_token_of(lines[0].as_str())
    }
}

/// The value of the first line carrying the given literal prefix.
pub open spec fn field_spec(lines: Seq<Seq<char>>, field: Seq<char>) -> Option<Seq<char>>
    decreases lines.len(),
{
    if lines.len() == 0 {
        None
    } else if text::has_prefix(lines[0], field) {
        Some(lines[0].skip(field.len() as int))
    } else {
        field_spec(lines.drop_first(), field)
    }
}

/// Finds a header field by its literal prefix; the first matching line
/// wins.
pub fn get_field(lines: &Vec<String>, field: &str) -> (r: Option<String>)
    ensures
        r.deep_view() == field_spec(lines.deep_view(), field@),
{
    let ghost deep = lines.deep_view();
    let n = lines.len();
    let mut i: usize = 0;
    proof {
        assert(deep.skip(0) =~= deep);
    }
    while i < n
        invariant
            i <= n,
            n == lines.len(),
            deep == lines.deep_view(),
            field_spec(deep, field@) == field_spec(deep.skip(i as int), field@),
        decreases n - i,
    {
        let ghost tail = deep.skip(i as int);
        proof {
            assert(tail[0] == deep[i as int]);
            assert(tail.drop_first() =~= deep.skip(i + 1));
        }
        if text::starts_with(lines[i].as_str(), field) {
            let line = lines[i].as_str();
            let value = line.substring_char(field.unicode_len(), line.unicode_len()).to_owned();
            proof {
                assert(line@.subrange(field@.len() as int, line@.len() as int) =~= line@.skip(
                    field@.len() as int,
                ));
            }
            return Some(value);
        }
        i += 1;
    }
    proof {
        assert(deep.skip(n as int) =~= Seq::<Seq<char>>::empty());
    }
    None
}

/// The virtual host a request names: the value of its Host header matched
/// case-sensitively against the two known identifiers.
pub open spec fn host_spec(lines: Seq<Seq<char>>) -> Option<Host> {
    match field_spec(lines, "Host: "@) {
        None => None,
        Some(v) => if v == "mycology.localhost:7878"@ {
            Some(Host::Mycology)
        } else if v == "localhost:7878"@ {
            Some(Host::Site)
        } else {
            None
        },
    }
}

/// Matches the Host header against the known virtual hosts.
pub fn get_host(lines: &Vec<String>) -> (r: Option<Host>)
    ensures
        r == host_spec(lines.deep_view()),
{
    match get_field(lines, "Host: ") {
        None => None,
        Some(v) => {
            if text::str_eq(v.as_str(), "mycology.localhost:7878") {
                Some(Host::Mycology)
            } else if text::str_eq(v.as_str(), "localhost:7878") {
                Some(Host::Site)
            } else {
                None
            }
        },
    }
}

pub open spec fn digit_of(c: char) -> int {
    if c == '0' {
        0
    } else if c == '1' {
        1
    } else if c == '2' {
        2
    } else if c == '3' {
        3
    } else if c == '4' {
        4
    } else if c == '5' {
        5
    } else if c == '6' {
        6
    } else if c == '7' {
        7
    } else if c == '8' {
        8
    } else if c == '9' {
        9
    } else {
        -1
    }
}

pub open spec fn all_digits(s: Seq<char>) -> bool {
    forall|k: int| 0 <= k < s.len() ==> digit_of(#[trigger] s[k]) >= 0
}

/// The numeric value of a digit string, most significant digit first.
pub open spec fn num_val(s: Seq<char>) -> int
    decreases s.len(),
{
    if s.len() == 0 {
        0
    } else {
        num_val(s.drop_last()) * 10 + digit_of(s.last())
    }
}

proof fn lemma_num_val_nonneg(s: Seq<char>)
    requires
        all_digits(s),
    ensures
        num_val(s) >= 0,
    decreases s.len(),
{
    if s.len() > 0 {
        let t = s.drop_last();
        assert(forall|k: int| 0 <= k < t.len() ==> digit_of(#[trigger] t[k]) >= 0);
        lemma_num_val_nonneg(t);
    }
}

proof fn lemma_num_val_mono(s: Seq<char>, i: int)
    requires
        all_digits(s),
        0 <= i <= s.len(),
    ensures
        num_val(s) >= num_val(s.take(i)),
    decreases s.len() - i,
{
    if i < s.len() {
        let t = s.take(i + 1);
        assert(forall|k: int| 0 <= k < i ==> digit_of(#[trigger] s.take(i)[k]) >= 0);
        assert(all_digits(s.take(i)));
        lemma_num_val_nonneg(s.take(i));
        assert(t.drop_last() =~= s.take(i));
        assert(num_val(t) == num_val(s.take(i)) * 10 + digit_of(s[i]));
        assert(num_val(t) >= num_val(s.take(i)));
        lemma_num_val_mono(s, i + 1);
    } else {
        assert(s.take(i) =~= s);
    }
}

/// One dotted-decimal octet: a non-empty digit string whose value fits a
/// byte.
pub open spec fn parse_octet_spec(s: Seq<char>) -> Option<u8> {
    if s.len() > 0 && all_digits(s) && num_val(s) <= 255 {
        Some(num_val(s) as u8)
    } else {
        None
    }
}

fn digit_value(c: char) -> (r: Option<u8>)
    ensures
        match r {
            Some(d) => digit_of(c) == d as int && d < 10,
            None => digit_of(c) < 0,
        },
{
    if c == '0' {
        Some(0)
    } else if c == '1' {
        Some(1)
    } else if c == '2' {
        Some(2)
    } else if c == '3' {
        Some(3)
    } else if c == '4' {
        Some(4)
    } else if c == '5' {
        Some(5)
    } else if c == '6' {
        Some(6)
    } else if c == '7' {
        Some(7)
    } else if c == '8' {
        Some(8)
    } else if c == '9' {
        Some(9)
    } else {
        None
    }
}

/// Parses one octet of a dotted-decimal IP value.
pub fn parse_octet(s: &str) -> (r: Option<u8>)
    ensures
        r == parse_octet_spec(s@),
{
    let n = s.unicode_len();
    if n == 0 {
        return None;
    }
    let mut value: u32 = 0;
    let mut i: usize = 0;
    proof {
        assert(s@.take(0) =~= Seq::<char>::empty());
        assert(all_digits(s@.take(0)));
    }
    while i < n
        invariant
            i <= n,
            n == s@.len(),
            value <= 255,
            all_digits(s@.take(i as int)),
            value == num_val(s@.take(i as int)),
        decreases n - i,
    {
        let ghost pre = s@.take(i as int);
        proof {
            assert(s@.take(i + 1).drop_last() =~= pre);
            assert(s@.take(i + 1).last() == s@[i as int]);
        }
        match digit_value(s.get_char(i)) {
            Some(d) => {
                let next = value * 10 + (d as u32);
                proof {
                    assert(forall|k: int|
                        0 <= k < i + 1 ==> digit_of(#[trigger] s@.take(i + 1)[k]) >= 0);
                }
                if next > 255 {
                    proof {
                        assert(!all_digits(s@) || num_val(s@) > 255) by {
                            if all_digits(s@) {
                                lemma_num_val_mono(s@, i + 1);
                            }
                        }
                    }
                    return None;
                }
                value = next;
            },
            None => {
                proof {
                    assert(digit_of(s@[i as int]) < 0);
                    assert(!all_digits(s@));
                }
                return None;
            },
        }
        i += 1;
    }
    proof {
        assert(s@.take(n as int) =~= s@);
    }
    Some(value as u8)
}

/// The IPv4 address a forwarded-IP value denotes: exactly four octets
/// split on dots, each parsing as a byte.
pub open spec fn octets_spec(v: Seq<char>) -> Option<IpAddr> {
    let parts = text::split_spec(v, '.');
    if parts.len() == 4 {
        match (
            parse_octet_spec(parts[0]),
            parse_octet_spec(parts[1]),
            parse_octet_spec(parts[2]),
            parse_octet_spec(parts[3]),
        ) {
            (Some(a), Some(b), Some(c), Some(d)) => Some(IpAddr { a, b, c, d }),
            _ => None,
        }
    } else {
        None
    }
}

/// Reads a forwarded-IP header value as four octets; anything that does
/// not parse means "no IP".
pub fn arr_u8_from_ip(value: &str) -> (r: Option<IpAddr>)
    ensures
        r == octets_spec(value@),
{
    let parts = text::split_char(value, '.');
    if parts.len() != 4 {
        return None;
    }
    let a = parse_octet(parts[0].as_str());
    let b = parse_octet(parts[1].as_str());
    let c = parse_octet(parts[2].as_str());
    let d = parse_octet(parts[3].as_str());
    match (a, b, c, d) {
        (Some(a), Some(b), Some(c), Some(d)) => Some(IpAddr { a, b, c, d }),
        _ => None,
    }
}

/// The forwarded IP of a request, where the header is present and parses.
pub open spec fn ip_spec(lines: Seq<Seq<char>>) -> Option<IpAddr> {
    match field_spec(lines, "X-Forwarded-For: "@) {
        None => None,
        Some(v) => octets_spec(v),
    }
}

/// Extracts the forwarded IP; a malformed value downgrades to "no IP".
pub fn get_ip(lines: &Vec<String>) -> (r: Option<IpAddr>)
    ensures
        r == ip_spec(lines.deep_view()),
{
    match get_field(lines, "X-Forwarded-For: ") {
        None => None,
        Some(v) => arr_u8_from_ip(v.as_str()),
    }
}

/// Extracts every field of interest from the request lines.
pub fn parse_request(lines: &Vec<String>) -> (r: RequestInfo)
    ensures
        r.host == host_spec(lines.deep_view()),
        r.path.deep_view() == path_spec(lines.deep_view()),
        r.user_agent.deep_view() == field_spec(lines.deep_view(), "User-Agent: "@),
        r.ip == ip_spec(lines.deep_view()),
        r.referer.deep_view() == field_spec(lines.deep_view(), "Referer: "@),
{
    RequestInfo {
        host: get_host(lines),
        path: get_path(lines),
        user_agent: get_field(lines, "User-Agent: "),
        ip: get_ip(lines),
        referer: get_field(lines, "Referer: "),
    }
}

} // verus!
