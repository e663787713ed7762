//! Command-line arguments and the address of the log broker.

use vstd::prelude::*;

use crate::text::chars_of;
use crate::text::decimal;
use crate::text::lemma_decimal_reads_back;
use crate::text::parse_u16;
use crate::text::spec_parse_u16;
use crate::text::law_u16_text_round_trip;

verus! {

/// Main CLI argument structure parsed from command line.
#[derive(Debug)]
pub struct Args {
    /// Enable lulu-logs and connect to the given MQTT broker (default: 127.0.0.1:1883)
    pub lulu: Option<String>,
}

/// The host used when the address gives none.
pub open spec fn default_host() -> Seq<char> {
    "127.0.0.1"@
}

/// The port used when the address gives none, or one that does not parse.
pub const DEFAULT_PORT: u16 = 1883;

/// Whether index `k` holds the last `:` of `s`.
pub open spec fn last_colon_at(s: Seq<char>, k: int) -> bool {
    &&& 0 <= k < s.len()
    &&& s[k] == ':'
    &&& forall|j: int| k < j < s.len() ==> #[trigger] s[j] != ':'
}

/// The index of the last `:` of `s`.
pub open spec fn last_colon(s: Seq<char>) -> int {
    choose|k: int| last_colon_at(s, k)
}

/// The host and port that `parse_lulu_address(s)` gives: `s` is split at its
/// last `:`; an empty host becomes `127.0.0.1`, a port that does not parse as a
/// `u16` becomes 1883; without a `:` the whole of `s` is the host, and an empty
/// `s` gives both defaults.
pub open spec fn spec_parse_lulu_address(s: Seq<char>) -> (Seq<char>, u16) {
    if s.contains(':') {
        let k = last_colon(s);
        let host = s.take(k);
        let port = match spec_parse_u16(s.skip(k + 1)) {
            Some(p) => p,
            None => DEFAULT_PORT,
        };
        (if host.len() == 0 {
            default_host()
        } else {
            host
        }, port)
    } else if s.len() == 0 {
        (default_host(), DEFAULT_PORT)
    } else {
        (s, DEFAULT_PORT)
    }
}

/// Only one index holds the last colon.
proof fn lemma_last_colon_unique(s: Seq<char>, k: int)
    requires
        last_colon_at(s, k),
    ensures
        s.contains(':'),
        last_colon(s) == k,
{
    assert(s[k] == ':');
    let j = last_colon(s);
    assert(last_colon_at(s, j));
    if j < k {
        assert(s[k] != ':');
    } else if j > k {
        assert(s[j] != ':');
    }
}

/// Parse a "host:port" string into separate host and port values.
///
/// Falls back to `127.0.0.1` for host and `1883` for port when parts are
/// missing or invalid.
pub fn parse_lulu_address(s: &str) -> (res: (String, u16))
    ensures
        res.0@ == spec_parse_lulu_address(s@).0,
        res.1 == spec_parse_lulu_address(s@).1,
{
    let v = chars_of(s);
    let n = v.len();
    let mut i: usize = n;
    while i > 0 && v[i - 1] != ':'
        invariant
            i <= n == v@.len(),
            forall|j: int| i <= j < n ==> #[trigger] v@[j] != ':',
        decreases i,
    {
        i = i - 1;
    }
    if i == 0 {
        assert(!s@.contains(':'));
        if n == 0 {
            return (String::from_str("127.0.0.1"), DEFAULT_PORT);
        }
        return (String::from_str(s), DEFAULT_PORT);
    }
    let k = i - 1;
    proof {
        lemma_last_colon_unique(s@, k as int);
    }
    let host = s.substring_char(0, k);
    let port_str = s.substring_char(k + 1, n);
    let port = match parse_u16(port_str) {
        Some(p) => p,
        None => DEFAULT_PORT,
    };
    if host.unicode_len() == 0 {
        (String::from_str("127.0.0.1"), port)
    } else {
        (String::from_str(host), port)
    }
}

/// Law: an address without `:` names only a host: a non-empty one is the host
/// itself, an empty one gives the default host; the port is then the default.
pub proof fn law_lulu_address_without_port(s: Seq<char>)
    requires
        !s.contains(':'),
    ensures
        s.len() > 0 ==> spec_parse_lulu_address(s) == (s, DEFAULT_PORT),
        s.len() == 0 ==> spec_parse_lulu_address(s) == (default_host(), DEFAULT_PORT),
{
}

/// Law: an address is split at its last `:`. With a non-empty host `h` before
/// it and a text `t` after it, the host is `h`; the port is the number `t`
/// writes when it writes one, and 1883 otherwise. An empty host gives the
/// default host.
pub proof fn law_lulu_address_split(h: Seq<char>, t: Seq<char>)
    requires
        !t.contains(':'),
    ensures
        ({
            let r = spec_parse_lulu_address(h + seq![':'] + t);
            &&& r.0 == (if h.len() > 0 {
                h
            } else {
                default_host()
            })
            &&& r.1 == (match spec_parse_u16(t) {
                Some(p) => p,
                None => DEFAULT_PORT,
            })
        }),
{
    let s = h + seq![':'] + t;
    let k = h.len() as int;
    assert forall|j: int| k < j < s.len() implies #[trigger] s[j] != ':' by {
        assert(s[j] == t[j - k - 1]);
    }
    assert(s[k] == ':');
    assert(last_colon_at(s, k));
    lemma_last_colon_unique(s, k);
    assert(s.take(k) =~= h);
    assert(s.skip(k + 1) =~= t);
}

/// Law: writing a non-empty host, a `:` and a port in decimal gives an address
/// that parses back into that host and port.
pub proof fn law_lulu_address_round_trip(host: Seq<char>, port: u16)
    requires
        host.len() > 0,
    ensures
        spec_parse_lulu_address(host + seq![':'] + decimal(port as nat)) == (host, port),
{
    let d = decimal(port as nat);
    let s = host + seq![':'] + d;
    let k = host.len() as int;
    lemma_decimal_reads_back(port as nat);
    assert forall|j: int| k < j < s.len() implies #[trigger] s[j] != ':' by {
        assert(s[j] == d[j - k - 1]);
    }
    assert(last_colon_at(s, k));
    lemma_last_colon_unique(s, k);
    assert(s.take(k) =~= host);
    assert(s.skip(k + 1) =~= d);
    law_u16_text_round_trip(port);
}

} // verus!
