//! IP blacklist / whitelist matching: IPv4 CIDR patterns and the decision of
//! which stored pattern (if any) an address hits.
use vstd::prelude::*;
use crate::text::{contains_char, split_char, split_on};

verus! {

/// Every character is an ASCII digit.
pub open spec fn all_digits(d: Seq<char>) -> bool {
    forall|i: int| 0 <= i < d.len() ==> '0' <= #[trigger] d[i] <= '9'
}

/// The value of a string of ASCII digits.
pub open spec fn digits_value(d: Seq<char>) -> nat
    decreases d.len(),
{
    if d.len() == 0 {
        0
    } else {
        digits_value(d.drop_last()) * 10 + (d.last() as nat - 48) as nat
    }
}

/// `u8::from_str` as its documentation states it: an optional `+` followed by
/// one or more ASCII digits whose value fits in a `u8`.
pub open spec fn spec_parse_u8(s: Seq<char>) -> Option<u8> {
    let d = if s.len() > 0 && s[0] == '+' {
        s.drop_first()
    } else {
        s
    };
    if d.len() > 0 && all_digits(d) && digits_value(d) <= 255 {
        Some(digits_value(d) as u8)
    } else {
        None
    }
}

/// Calls `str::parse::<u8>` and keeps the value on success. Its contract is
/// the grammar the standard library documents for integer parsing.
#[verifier::external_body]
fn parse_u8(s: &str) -> (r: Option<u8>)
    ensures
        r == spec_parse_u8(s@),
{
    s.parse::<u8>().ok()
}

/// The values of the pieces that parse as `u8`, in order (the others are skipped).
pub open spec fn parsed_octets(parts: Seq<Seq<char>>) -> Seq<u8>
    decreases parts.len(),
{
    if parts.len() == 0 {
        seq![]
    } else {
        let prev = parsed_octets(parts.drop_last());
        match spec_parse_u8(parts.last()) {
            Some(v) => prev.push(v),
            None => prev,
        }
    }
}

/// The IPv4 address written in `s`: its dot-separated pieces that parse as
/// `u8` must be exactly four, read big-endian.
pub open spec fn spec_ipv4_value(s: Seq<char>) -> Option<u32> {
    let b = parsed_octets(split_char(s, '.'));
    if b.len() != 4 {
        None
    } else {
        Some((b[0] as int * 16777216 + b[1] as int * 65536 + b[2] as int * 256 + b[3] as int) as u32)
    }
}

/// The network mask of a prefix length `p <= 32`: the top `p` bits set.
pub open spec fn spec_prefix_mask(p: u8) -> u32
    recommends
        p <= 32,
{
    if p == 0 {
        0
    } else {
        0xFFFF_FFFFu32 << ((32 - p) as u32)
    }
}

/// `ip` lies in the network `cidr` (`a.b.c.d/len`, with `len` at most 32;
/// a longer prefix names no network and matches nothing).
pub open spec fn spec_cidr_match(ip: Seq<char>, cidr: Seq<char>) -> bool {
    let parts = split_char(cidr, '/');
    parts.len() == 2 && match spec_parse_u8(parts[1]) {
        None => false,
        Some(p) => p <= 32 && match (spec_ipv4_value(ip), spec_ipv4_value(parts[0])) {
            (Some(a), Some(n)) => a & spec_prefix_mask(p) == n & spec_prefix_mask(p),
            _ => false,
        },
    }
}

/// The IPv4 address written in `s`, if its pieces give exactly four octets.
pub fn ipv4_value(s: &str) -> (r: Option<u32>)
    ensures
        r == spec_ipv4_value(s@),
{
    let parts = split_on(s, '.');
    let ghost pv = parts@.map_values(|p: String| p@);
    let mut b: Vec<u8> = Vec::new();
    for i in 0..parts.len()
        invariant
            pv == parts@.map_values(|p: String| p@),
            b@ == parsed_octets(pv.take(i as int)),
    {
        assert(pv.take(i + 1).drop_last() =~= pv.take(i as int));
        assert(pv.take(i + 1).last() == parts@[i as int]@);
        match parse_u8(parts[i].as_str()) {
            Some(v) => b.push(v),
            None => {},
        }
    }
    assert(pv.take(pv.len() as int) =~= pv);
    if b.len() != 4 {
        return None;
    }
    Some((b[0] as u32) * 16777216 + (b[1] as u32) * 65536 + (b[2] as u32) * 256 + (b[3] as u32))
}

/// The network mask of prefix length `p` (see `spec_prefix_mask`).
pub fn prefix_mask(p: u8) -> (m: u32)
    requires
        p <= 32,
    ensures
        m == spec_prefix_mask(p),
{
    if p == 0 {
        0
    } else {
        u32::MAX << ((32 - p) as u32)
    }
}

/// Whether `ip` lies in the network `cidr` (`a.b.c.d/len`).
pub fn cidr_match(ip: &str, cidr: &str) -> (r: bool)
    ensures
        r == spec_cidr_match(ip@, cidr@),
{
    let parts = split_on(cidr, '/');
    assert(parts@.map_values(|p: String| p@) == split_char(cidr@, '/'));
    if parts.len() != 2 {
        return false;
    }
    assert(parts@[1]@ == split_char(cidr@, '/')[1]);
    assert(parts@[0]@ == split_char(cidr@, '/')[0]);
    let prefix_len = match parse_u8(parts[1].as_str()) {
        Some(p) => p,
        None => {
            return false;
        },
    };
    if prefix_len > 32 {
        return false;
    }
    let ip_u32 = match ipv4_value(ip) {
        Some(v) => v,
        None => {
            return false;
        },
    };
    let net_u32 = match ipv4_value(parts[0].as_str()) {
        Some(v) => v,
        None => {
            return false;
        },
    };
    let mask = prefix_mask(prefix_len);
    (ip_u32 & mask) == (net_u32 & mask)
}


/// Which stored pattern an address hits.
#[derive(Debug, PartialEq, Eq, Structural)]
pub enum IpListMatch {
    /// A pattern equal to the address is stored.
    Exact,
    /// The pattern at this position (in the list's order) is a CIDR range
    /// holding the address; it is the first such pattern.
    Cidr(usize),
    /// No stored pattern holds the address.
    NoMatch,
}

/// The pattern is a CIDR range (holds a `/`) that contains `ip`.
pub open spec fn spec_cidr_hit(ip: Seq<char>, pattern: Seq<char>) -> bool {
    pattern.contains('/') && spec_cidr_match(ip, pattern)
}

/// The decision for `ip` against a list: `exact_count` is the number of
/// stored patterns equal to `ip`, `patterns` the stored patterns in listing
/// order.
pub open spec fn spec_ip_list_match(ip: Seq<char>, exact_count: i64, patterns: Seq<Seq<char>>) -> IpListMatch {
    if exact_count > 0 {
        IpListMatch::Exact
    } else if exists|i: int| 0 <= i < patterns.len() && spec_cidr_hit(ip, #[trigger] patterns[i]) {
        IpListMatch::Cidr(
            (choose|i: int|
                0 <= i < patterns.len() && spec_cidr_hit(ip, #[trigger] patterns[i]) && forall|
                    k: int,
                | 0 <= k < i ==> !spec_cidr_hit(ip, #[trigger] patterns[k])) as usize,
        )
    } else {
        IpListMatch::NoMatch
    }
}

/// Decides whether `ip` is on a list: an exact entry first, else the first
/// CIDR pattern (in listing order) that holds it.
pub fn ip_list_match(ip: &str, exact_count: i64, patterns: &Vec<String>) -> (r: IpListMatch)
    ensures
        r == spec_ip_list_match(ip@, exact_count, patterns@.map_values(|p: String| p@)),
{
    let ghost pv = patterns@.map_values(|p: String| p@);
    if exact_count > 0 {
        return IpListMatch::Exact;
    }
    for i in 0..patterns.len()
        invariant
            pv == patterns@.map_values(|p: String| p@),
            exact_count <= 0,
            forall|k: int| 0 <= k < i ==> !spec_cidr_hit(ip@, #[trigger] pv[k]),
    {
        let p = patterns[i].as_str();
        assert(pv[i as int] == p@);
        if contains_char(p, '/') && cidr_match(ip, p) {
            proof {
                let c = choose|j: int|
                    0 <= j < pv.len() && spec_cidr_hit(ip@, #[trigger] pv[j]) && forall|k: int|
                        0 <= k < j ==> !spec_cidr_hit(ip@, #[trigger] pv[k]);
                assert(spec_cidr_hit(ip@, pv[i as int]));
                assert(c == i) by {
                    if c < i {
                        assert(!spec_cidr_hit(ip@, pv[c]));
                    } else if c > i {
                        assert(!spec_cidr_hit(ip@, pv[i as int]));
                    }
                }
            }
            return IpListMatch::Cidr(i);
        }
    }
    IpListMatch::NoMatch
}


/// An address always lies in a network written with that same address, and
/// a `/0` network holds every well-formed address; a prefix longer than 32
/// matches no address.
pub proof fn lemma_cidr_match_own_network(ip: Seq<char>, cidr: Seq<char>)
    requires
        split_char(cidr, '/').len() == 2,
        spec_parse_u8(split_char(cidr, '/')[1]) is Some,
        spec_ipv4_value(ip) is Some,
        spec_ipv4_value(split_char(cidr, '/')[0]) is Some,
    ensures
        spec_parse_u8(split_char(cidr, '/')[1])->Some_0 > 32 ==> !spec_cidr_match(ip, cidr),
        spec_parse_u8(split_char(cidr, '/')[1])->Some_0 <= 32 && spec_ipv4_value(ip)
            == spec_ipv4_value(split_char(cidr, '/')[0]) ==> spec_cidr_match(ip, cidr),
        spec_parse_u8(split_char(cidr, '/')[1]) == Some(0u8) ==> spec_cidr_match(ip, cidr),
{
    let a = spec_ipv4_value(ip)->Some_0;
    let n = spec_ipv4_value(split_char(cidr, '/')[0])->Some_0;
    assert(a & 0u32 == 0u32 && n & 0u32 == 0u32) by (bit_vector);
}

/// A `/32` network holds exactly its own address.
pub proof fn lemma_prefix_32_is_equality(a: u32, n: u32)
    ensures
        (a & spec_prefix_mask(32) == n & spec_prefix_mask(32)) == (a == n),
{
    assert(spec_prefix_mask(32) == 0xFFFF_FFFFu32 << 0u32);
    assert((0xFFFF_FFFFu32 << 0u32) == 0xFFFF_FFFFu32) by (bit_vector);
    assert(a & 0xFFFF_FFFFu32 == a) by (bit_vector);
    assert(n & 0xFFFF_FFFFu32 == n) by (bit_vector);
}

/// A CIDR pattern `a.b.c.d/p` with `p <= 32` holds an address exactly when
/// the address agrees with the network address in its top `p` bits; a `/0`
/// pattern holds every address.
pub proof fn lemma_cidr_match_top_bits(ip: Seq<char>, cidr: Seq<char>, p: u8, a: u32, n: u32)
    requires
        split_char(cidr, '/').len() == 2,
        spec_parse_u8(split_char(cidr, '/')[1]) == Some(p),
        p <= 32,
        spec_ipv4_value(ip) == Some(a),
        spec_ipv4_value(split_char(cidr, '/')[0]) == Some(n),
    ensures
        spec_cidr_match(ip, cidr) == (p == 0 || (a >> ((32 - p) as u32)) == (n >> ((32 - p) as u32))),
{
    if p == 0 {
        assert(a & 0u32 == 0u32 && n & 0u32 == 0u32) by (bit_vector);
    } else {
        let s = (32 - p) as u32;
        assert(spec_prefix_mask(p) == 0xFFFF_FFFFu32 << s);
        assert(((a & (0xFFFF_FFFFu32 << s)) == (n & (0xFFFF_FFFFu32 << s))) == ((a >> s) == (n
            >> s))) by (bit_vector)
            requires
                s < 32,
        ;
    }
}

} // verus!
