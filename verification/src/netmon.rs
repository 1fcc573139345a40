//! The network state monitor: a tiny state machine over the detected WAN
//! IPv4 address, and the parsing of an IP-echo response body.

use vstd::prelude::*;

verus! {

use vstd::string::StrSliceExecFns;
use vstd::string::StringExecFns;

/// What one detection pass found: the WAN IPv4 address, if any, as its
/// 32-bit value.
#[derive(Clone, Copy, Debug)]
pub struct NetInfo {
    pub wan_ip4: Option<u32>,
}

impl NetInfo {
    /// The state before any detection: no WAN address.
    pub fn new() -> (r: Self)
        ensures
            r.wan_ip4 is None,
    {
        Self { wan_ip4: None }
    }

    /// Whether a WAN address was found.
    pub fn online(&self) -> (r: bool)
        ensures
            r == (self.wan_ip4 is Some),
    {
        match self.wan_ip4 {
            Some(_) => true,
            None => false,
        }
    }

    /// Whether no WAN address was found.
    pub fn offline(&self) -> (r: bool)
        ensures
            r == (self.wan_ip4 is None),
    {
        !self.online()
    }

    /// Two detections agree when their WAN IPv4 addresses agree.
    pub fn same_wan(&self, other: &NetInfo) -> (r: bool)
        ensures
            r == (self.wan_ip4 == other.wan_ip4),
    {
        match (self.wan_ip4, other.wan_ip4) {
            (None, None) => true,
            (Some(a), Some(b)) => a == b,
            _ => false,
        }
    }
}

/// What one monitor pass reports to the control loop.
#[derive(Clone, Copy, Debug, PartialEq, Eq, Structural)]
pub enum NetStatus {
    ChangedToNew,
    ChangedToPrev,
    Online,
    HardNat,
    Offline,
}

/// The monitor's state: the current detection, the last detection that was
/// online, and the sticky hard-NAT flag.
#[derive(Clone, Copy, Debug)]
pub struct NetworkMonitor {
    pub current: NetInfo,
    pub last_online: NetInfo,
    pub hard_nat: bool,
}

impl NetworkMonitor {
    /// A monitor that has seen nothing yet.
    pub fn new() -> (r: Self)
        ensures
            r.current.wan_ip4 is None,
            r.last_online.wan_ip4 is None,
            !r.hard_nat,
    {
        let current = NetInfo::new();
        Self { current, last_online: current, hard_nat: false }
    }

    /// Sets or clears the sticky hard-NAT flag; the rest of the state is
    /// untouched.
    pub fn set_hard_nat(&mut self, hard_nat: bool)
        ensures
            final(self).hard_nat == hard_nat,
            final(self).current == old(self).current,
            final(self).last_online == old(self).last_online,
    {
        self.hard_nat = hard_nat;
    }

    /// Feeds one detection through the state machine.
    ///
    /// Going offline saves the current detection when it was online;
    /// an unchanged address reports `Online` (or `HardNat` under the sticky
    /// flag); a return to the saved address reports `ChangedToPrev`; a new
    /// address reports `ChangedToNew` and clears the sticky flag.
    pub fn status(&mut self, detected: NetInfo) -> (s: NetStatus)
        ensures
            detected.wan_ip4 is None ==> {
                &&& s == NetStatus::Offline
                &&& final(self).hard_nat == old(self).hard_nat
                &&& (old(self).current.wan_ip4 is Some ==> final(self).current == detected
                    && final(self).last_online == old(self).current)
                &&& (old(self).current.wan_ip4 is None ==> final(self).current == old(self).current
                    && final(self).last_online == old(self).last_online)
            },
            detected.wan_ip4 is Some && detected.wan_ip4 == old(self).current.wan_ip4 ==> {
                &&& s == (if old(self).hard_nat {
                    NetStatus::HardNat
                } else {
                    NetStatus::Online
                })
                &&& *final(self) == *old(self)
            },
            detected.wan_ip4 is Some && detected.wan_ip4 != old(self).current.wan_ip4
                && detected.wan_ip4 == old(self).last_online.wan_ip4 ==> {
                &&& s == (if old(self).hard_nat {
                    NetStatus::HardNat
                } else {
                    NetStatus::ChangedToPrev
                })
                &&& final(self).current == detected
                &&& final(self).last_online == old(self).last_online
                &&& final(self).hard_nat == old(self).hard_nat
            },
            detected.wan_ip4 is Some && detected.wan_ip4 != old(self).current.wan_ip4
                && detected.wan_ip4 != old(self).last_online.wan_ip4 ==> {
                &&& s == NetStatus::ChangedToNew
                &&& final(self).current == detected
                &&& final(self).last_online == old(self).last_online
                &&& !final(self).hard_nat
            },
    {
        if detected.offline() {
            if self.current.online() {
                self.last_online = self.current;
                self.current = detected;
            }
            return NetStatus::Offline;
        }
        if detected.same_wan(&self.current) {
            return if self.hard_nat {
                NetStatus::HardNat
            } else {
                NetStatus::Online
            };
        }
        if self.last_online.same_wan(&detected) {
            self.current = detected;
            return if self.hard_nat {
                NetStatus::HardNat
            } else {
                NetStatus::ChangedToPrev
            };
        }
        self.current = detected;
        self.hard_nat = false;
        NetStatus::ChangedToNew
    }
}

// ---------------------------------------------------------------------------
// Parsing the IP-echo response
// ---------------------------------------------------------------------------
/// A decimal digit.
pub open spec fn is_digit(c: char) -> bool {
    '0' <= c && c <= '9'
}

/// The value of a decimal digit.
pub open spec fn digit_val(c: char) -> u32
    recommends
        is_digit(c),
{
    (((c as int) - ('0' as int)) as u32)
}

/// Reads one dotted-quad octet at `i`: one to three digits, no leading
/// zero, value at most 255, taking as many digits as stand there.
pub open spec fn spec_parse_octet(s: Seq<char>, i: int) -> Option<(u32, int)> {
    if 0 <= i && i < s.len() && is_digit(s[i]) {
        if s[i] == '0' {
            if i + 1 < s.len() && is_digit(s[i + 1]) {
                None
            } else {
                Some((0, i + 1))
            }
        } else if i + 1 < s.len() && is_digit(s[i + 1]) {
            if i + 2 < s.len() && is_digit(s[i + 2]) {
                if i + 3 < s.len() && is_digit(s[i + 3]) {
                    None
                } else {
                    let v = (digit_val(s[i]) * 100 + digit_val(s[i + 1]) * 10 + digit_val(
                        s[i + 2],
                    )) as u32;
                    if v <= 255 {
                        Some((v, i + 3))
                    } else {
                        None
                    }
                }
            } else {
                Some(((digit_val(s[i]) * 10 + digit_val(s[i + 1])) as u32, i + 2))
            }
        } else {
            Some((digit_val(s[i]), i + 1))
        }
    } else {
        None
    }
}

/// Reads a whole dotted-quad IPv4 address: four octets joined by dots,
/// nothing before or after, yielding its 32-bit value.
pub open spec fn spec_parse_ipv4(s: Seq<char>) -> Option<u32> {
    match spec_parse_octet(s, 0) {
        Some((a, i1)) => if i1 < s.len() && s[i1] == '.' {
            match spec_parse_octet(s, i1 + 1) {
                Some((b, i2)) => if i2 < s.len() && s[i2] == '.' {
                    match spec_parse_octet(s, i2 + 1) {
                        Some((c, i3)) => if i3 < s.len() && s[i3] == '.' {
                            match spec_parse_octet(s, i3 + 1) {
                                Some((d, i4)) => if i4 == s.len() {
                                    Some((a * 0x1000000 + b * 0x10000 + c * 0x100 + d) as u32)
                                } else {
                                    None
                                },
                                None => None,
                            }
                        } else {
                            None
                        },
                        None => None,
                    }
                } else {
                    None
                },
                None => None,
            }
        } else {
            None
        },
        None => None,
    }
}

/// Reads one octet of `s` at `i`.
fn parse_octet(s: &str, i: usize) -> (r: Option<(u32, usize)>)
    requires
        i <= s@.len(),
        s@.len() <= usize::MAX,
    ensures
        (match r {
            Some((v, j)) => spec_parse_octet(s@, i as int) == Some((v, j as int)) && j <= s@.len(),
            None => spec_parse_octet(s@, i as int) is None,
        }),
{
    let n = s.unicode_len();
    if i >= n {
        return None;
    }
    let c0 = s.get_char(i);
    if !('0' <= c0 && c0 <= '9') {
        return None;
    }
    let d0 = (c0 as u32) - 48;
    if c0 == '0' {
        if i + 1 < n && {
            let c = s.get_char(i + 1);
            '0' <= c && c <= '9'
        } {
            return None;
        }
        return Some((0, i + 1));
    }
    if i + 1 < n {
        let c1 = s.get_char(i + 1);
        if '0' <= c1 && c1 <= '9' {
            let d1 = (c1 as u32) - 48;
            if i + 2 < n {
                let c2 = s.get_char(i + 2);
                if '0' <= c2 && c2 <= '9' {
                    let d2 = (c2 as u32) - 48;
                    if i + 3 < n {
                        let c3 = s.get_char(i + 3);
                        if '0' <= c3 && c3 <= '9' {
                            return None;
                        }
                    }
                    let v = d0 * 100 + d1 * 10 + d2;
                    if v <= 255 {
                        return Some((v, i + 3));
                    }
                    return None;
                }
            }
            return Some((d0 * 10 + d1, i + 2));
        }
    }
    Some((d0, i + 1))
}

/// Parses a dotted-quad IPv4 address.
pub fn parse_ipv4(s: &str) -> (r: Option<u32>)
    ensures
        r == spec_parse_ipv4(s@),
{
    let n = s.unicode_len();
    let (a, i1) = match parse_octet(s, 0) {
        Some(p) => p,
        None => {
            return None;
        },
    };
    if !(i1 < n && s.get_char(i1) == '.') {
        return None;
    }
    let (b, i2) = match parse_octet(s, i1 + 1) {
        Some(p) => p,
        None => {
            return None;
        },
    };
    if !(i2 < n && s.get_char(i2) == '.') {
        return None;
    }
    let (c, i3) = match parse_octet(s, i2 + 1) {
        Some(p) => p,
        None => {
            return None;
        },
    };
    if !(i3 < n && s.get_char(i3) == '.') {
        return None;
    }
    let (d, i4) = match parse_octet(s, i3 + 1) {
        Some(p) => p,
        None => {
            return None;
        },
    };
    if i4 != n {
        return None;
    }
    Some(a * 0x1000000 + b * 0x10000 + c * 0x100 + d)
}

// ---------------------------------------------------------------------------
// The HTTP body and its surrounding whitespace
// ---------------------------------------------------------------------------
/// The blank line separating an HTTP header from its body.
pub open spec fn header_sep() -> Seq<char> {
    seq!['\r', '\n', '\r', '\n']
}

/// Whether the separator stands at `i`.
pub open spec fn sep_at(s: Seq<char>, i: int) -> bool {
    0 <= i && i + 4 <= s.len() && s.subrange(i, i + 4) == header_sep()
}

/// The first position of the separator at or after `i`.
pub open spec fn find_sep(s: Seq<char>, i: int) -> Option<int>
    recommends
        0 <= i,
    decreases s.len() - i
        when 0 <= i && i <= s.len()
{
    if i + 4 <= s.len() {
        if sep_at(s, i) {
            Some(i)
        } else {
            find_sep(s, i + 1)
        }
    } else {
        None
    }
}

/// An ASCII whitespace character.
pub open spec fn is_ascii_ws(c: char) -> bool {
    c == ' ' || c == '\t' || c == '\n' || c == '\r' || c == '\x0c'
}

/// The sequence without its leading whitespace.
pub open spec fn trim_start(s: Seq<char>) -> Seq<char>
    decreases s.len(),
{
    if s.len() > 0 && is_ascii_ws(s[0]) {
        trim_start(s.drop_first())
    } else {
        s
    }
}

/// The sequence without its trailing whitespace.
pub open spec fn trim_end(s: Seq<char>) -> Seq<char>
    decreases s.len(),
{
    if s.len() > 0 && is_ascii_ws(s.last()) {
        trim_end(s.drop_last())
    } else {
        s
    }
}

/// The sequence without its surrounding whitespace.
pub open spec fn trimmed(s: Seq<char>) -> Seq<char> {
    trim_end(trim_start(s))
}

/// The WAN address carried by an IP-echo HTTPS response: the dotted quad
/// that stands, surrounded only by whitespace, after the first blank line.
pub open spec fn spec_wan_ip_of_http(s: Seq<char>) -> Option<u32> {
    match find_sep(s, 0) {
        Some(i) => spec_parse_ipv4(trimmed(s.skip(i + 4))),
        None => None,
    }
}

/// Whether the separator stands at `i`, decided by looking at the text.
fn sep_here(s: &str, i: usize) -> (r: bool)
    requires
        i + 4 <= s@.len(),
        i + 4 <= usize::MAX,
    ensures
        r == sep_at(s@, i as int),
{
    let r = s.get_char(i) == '\r' && s.get_char(i + 1) == '\n' && s.get_char(i + 2) == '\r'
        && s.get_char(i + 3) == '\n';
    proof {
        if r {
            assert(s@.subrange(i as int, i + 4) =~= header_sep());
        } else {
            if s@.subrange(i as int, i + 4) == header_sep() {
                assert(s@[i as int] == header_sep()[0]);
                assert(s@[i + 1] == header_sep()[1]);
                assert(s@[i + 2] == header_sep()[2]);
                assert(s@[i + 3] == header_sep()[3]);
            }
        }
    }
    r
}

/// Extracts the WAN IPv4 address from an IP-echo HTTPS response: the body
/// after the first blank line, trimmed of whitespace, read as a dotted
/// quad.
pub fn wan_ip_of_http_response(s: &str) -> (r: Option<u32>)
    ensures
        r == spec_wan_ip_of_http(s@),
{
    let n = s.unicode_len();
    let mut i: usize = 0;
    while i < n && n - i >= 4
        invariant
            n == s@.len(),
            0 <= i <= n,
            find_sep(s@, 0) == find_sep(s@, i as int),
        decreases n - i,
    {
        if sep_here(s, i) {
            let body_start = i + 4;
            // Trim the body in place: advance past leading whitespace, then
            // retreat past trailing whitespace.
            let mut a: usize = body_start;
            while a < n && is_ws_char(s.get_char(a))
                invariant
                    n == s@.len(),
                    body_start <= a <= n,
                    trim_start(s@.skip(body_start as int)) == trim_start(s@.skip(a as int)),
                decreases n - a,
            {
                proof {
                    assert(s@.skip(a as int).drop_first() =~= s@.skip(a + 1));
                }
                a += 1;
            }
            proof {
                if a < n {
                    assert(!is_ascii_ws(s@.skip(a as int)[0]));
                }
                assert(trim_start(s@.skip(a as int)) == s@.skip(a as int));
            }
            let mut b: usize = n;
            proof {
                assert(s@.skip(a as int).take(n - a) =~= s@.skip(a as int));
            }
            while b > a && is_ws_char(s.get_char(b - 1))
                invariant
                    n == s@.len(),
                    a <= b <= n,
                    trim_start(s@.skip(body_start as int)) == s@.skip(a as int),
                    trim_end(s@.skip(a as int)) == trim_end(
                        s@.skip(a as int).take(b - a),
                    ),
                decreases b,
            {
                proof {
                    let cur = s@.skip(a as int).take(b - a);
                    assert(cur.last() == s@[b - 1]);
                    assert(cur.drop_last() =~= s@.skip(a as int).take(b - 1 - a));
                }
                b -= 1;
            }
            proof {
                let cur = s@.skip(a as int).take(b - a);
                if b > a {
                    assert(cur.last() == s@[b - 1]);
                    assert(!is_ascii_ws(cur.last()));
                }
                assert(trim_end(cur) == cur);
                assert(trimmed(s@.skip(body_start as int)) == cur);
            }
            let body = s.substring_char(a, b);
            proof {
                assert(body@ =~= s@.skip(a as int).take(b - a));
            }
            return parse_ipv4(body);
        }
        i += 1;
    }
    proof {
        assert(find_sep(s@, i as int) is None);
    }
    None
}

/// Decides ASCII whitespace.
fn is_ws_char(c: char) -> (r: bool)
    ensures
        r == is_ascii_ws(c),
{
    c == ' ' || c == '\t' || c == '\n' || c == '\r' || c == '\x0c'
}

} // verus!
