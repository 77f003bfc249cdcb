//! Field lookup in protobuf-encoded messages, by the protobuf wire format:
//! a message is a run of fields, each a varint key (field number times 8
//! plus wire type) followed by a varint (type 0), 8 bytes (type 1), a varint
//! length and that many bytes (type 2), or 4 bytes (type 5).
use vstd::prelude::*;

verus! {

/// `128^n`: one more than the largest value of an `n`-byte varint.
pub open spec fn pow128(n: nat) -> nat
    decreases n,
{
    if n == 0 {
        1
    } else {
        128 * pow128((n - 1) as nat)
    }
}

/// The varint at `pos`, `k` of its bytes having been read already: its value
/// (little-endian groups of 7 bits) and the position after it; `None` when
/// the message ends inside it or it runs past 10 bytes.
pub open spec fn varint_from(data: Seq<u8>, pos: int, k: nat) -> Option<(nat, int)>
    decreases 10 - k,
{
    if k >= 10 || pos < 0 || pos >= data.len() {
        None
    } else if data[pos] < 128 {
        Some((data[pos] as nat, pos + 1))
    } else {
        match varint_from(data, pos + 1, k + 1) {
            Some((v, e)) => Some(((data[pos] - 128) as nat + 128 * v, e)),
            None => None,
        }
    }
}

/// The varint starting at `pos`.
pub open spec fn spec_varint(data: Seq<u8>, pos: int) -> Option<(nat, int)> {
    varint_from(data, pos, 0)
}

/// The error of a varint that is cut off or longer than 10 bytes.
pub open spec fn varint_error() -> Seq<char> {
    "Invalid protobuf varint"@
}

/// The error of a field whose content runs past the end of the message.
pub open spec fn field_bounds_error() -> Seq<char> {
    "Protobuf field runs past the end of the message"@
}

/// The error of a wire type other than 0, 1, 2 and 5.
pub open spec fn wire_type_error() -> Seq<char> {
    "Unsupported protobuf wire type"@
}

/// A varint that is read ends after its start and within the message, and
/// its value stays below `128^(10 - k)`.
pub proof fn lemma_varint_bounds(data: Seq<u8>, pos: int, k: nat)
    ensures
        varint_from(data, pos, k) matches Some((v, e)) ==> pos < e <= data.len() && v < pow128(
            (10 - k) as nat,
        ),
    decreases 10 - k,
{
    if k < 10 && 0 <= pos < data.len() && data[pos] >= 128 {
        lemma_varint_bounds(data, pos + 1, k + 1);
        if let Some((v, e)) = varint_from(data, pos + 1, k + 1) {
            assert(pow128((10 - k) as nat) == 128 * pow128((10 - (k + 1)) as nat));
        }
    } else if k < 10 && 0 <= pos < data.len() {
        assert(pow128((10 - k) as nat) == 128 * pow128((10 - (k + 1)) as nat));
        lemma_pow128_positive((10 - (k + 1)) as nat);
    }
}

proof fn lemma_pow128_positive(n: nat)
    ensures
        pow128(n) >= 1,
    decreases n,
{
    if n > 0 {
        lemma_pow128_positive((n - 1) as nat);
    }
}

proof fn lemma_pow128_ten()
    ensures
        pow128(10) == 1180591620717411303424,
{
    reveal_with_fuel(pow128, 11);
}

proof fn lemma_pow128_monotone(n: nat, m: nat)
    requires
        n <= m,
    ensures
        pow128(n) <= pow128(m),
    decreases m,
{
    if n < m {
        lemma_pow128_monotone(n, (m - 1) as nat);
        lemma_pow128_positive((m - 1) as nat);
    }
}

/// The first length-delimited field numbered `target` of the message from
/// `pos` on: `Ok(Some(content))`, `Ok(None)` when the message has none, or
/// the error of the first malformed field met before it.
pub open spec fn find_field_from(data: Seq<u8>, pos: int, target: u32) -> Result<
    Option<Seq<u8>>,
    Seq<char>,
>
    decreases data.len() - pos,
{
    if pos < 0 || pos >= data.len() {
        Ok(None)
    } else {
        match spec_varint(data, pos) {
            None => Err(varint_error()),
            Some((key, p1)) => {
                proof {
                    lemma_varint_bounds(data, pos, 0);
                }
                let wire = key % 8;
                if wire == 0 {
                    match spec_varint(data, p1) {
                        None => Err(varint_error()),
                        Some((_, p2)) => {
                            proof {
                                lemma_varint_bounds(data, p1, 0);
                            }
                            find_field_from(data, p2, target)
                        },
                    }
                } else if wire == 1 {
                    if p1 + 8 > data.len() {
                        Err(field_bounds_error())
                    } else {
                        find_field_from(data, p1 + 8, target)
                    }
                } else if wire == 2 {
                    match spec_varint(data, p1) {
                        None => Err(varint_error()),
                        Some((len, p2)) => {
                            proof {
                                lemma_varint_bounds(data, p1, 0);
                            }
                            if p2 + len > data.len() {
                                Err(field_bounds_error())
                            } else if key / 8 == target {
                                Ok(Some(data.subrange(p2, p2 + len)))
                            } else {
                                find_field_from(data, p2 + len, target)
                            }
                        },
                    }
                } else if wire == 5 {
                    if p1 + 4 > data.len() {
                        Err(field_bounds_error())
                    } else {
                        find_field_from(data, p1 + 4, target)
                    }
                } else {
                    Err(wire_type_error())
                }
            },
        }
    }
}

/// The first length-delimited field numbered `target` of a whole message.
pub open spec fn spec_find_field(data: Seq<u8>, target: u32) -> Result<Option<Seq<u8>>, Seq<char>> {
    find_field_from(data, 0, target)
}

fn read_varint_from(data: &[u8], pos: usize, k: usize) -> (r: Option<(u128, usize)>)
    requires
        k <= 10,
    ensures
        match varint_from(data@, pos as int, k as nat) {
            None => r is None,
            Some((v, e)) => r matches Some((x, y)) && x == v && y == e,
        },
    decreases 10 - k,
{
    if k >= 10 || pos >= data.len() {
        return None;
    }
    let b = data[pos];
    if b < 128 {
        return Some((b as u128, pos + 1));
    }
    match read_varint_from(data, pos + 1, k + 1) {
        Some((v, e)) => {
            proof {
                lemma_varint_bounds(data@, pos + 1, (k + 1) as nat);
                lemma_pow128_monotone((10 - (k + 1)) as nat, 10);
                lemma_pow128_ten();
            }
            Some(((b - 128) as u128 + 128 * v, e))
        },
        None => None,
    }
}

/// Reads the varint at `pos`: its value and the position after it.
fn read_varint(data: &[u8], pos: usize) -> (r: Option<(u128, usize)>)
    ensures
        match spec_varint(data@, pos as int) {
            None => r is None,
            Some((v, e)) => r matches Some((x, y)) && x == v && y == e,
        },
        r matches Some((x, y)) ==> pos < y <= data@.len() && x < pow128(10),
{
    proof {
        lemma_varint_bounds(data@, pos as int, 0);
    }
    read_varint_from(data, pos, 0)
}

/// Finds the first length-delimited field numbered `target` of a protobuf
/// message and returns its content (see `spec_find_field`).
pub fn find_field(data: &[u8], target: u32) -> (r: Result<Option<Vec<u8>>, String>)
    ensures
        match spec_find_field(data@, target) {
            Ok(None) => r matches Ok(None),
            Ok(Some(c)) => r matches Ok(Some(v)) && v@ == c,
            Err(e) => r matches Err(m) && m@ == e,
        },
{
    proof {
        lemma_pow128_ten();
    }
    let mut pos: usize = 0;
    while pos < data.len()
        invariant
            pos <= data@.len(),
            spec_find_field(data@, target) == find_field_from(data@, pos as int, target),
            pow128(10) == 1180591620717411303424,
        decreases data@.len() - pos,
    {
        let (key, p1) = match read_varint(data, pos) {
            Some(x) => x,
            None => {
                return Err(String::from_str("Invalid protobuf varint"));
            },
        };
        let wire = key % 8;
        if wire == 0 {
            match read_varint(data, p1) {
                Some((_, p2)) => {
                    pos = p2;
                },
                None => {
                    return Err(String::from_str("Invalid protobuf varint"));
                },
            }
        } else if wire == 1 {
            if p1 > data.len() || data.len() - p1 < 8 {
                return Err(String::from_str("Protobuf field runs past the end of the message"));
            }
            pos = p1 + 8;
        } else if wire == 2 {
            let (len, p2) = match read_varint(data, p1) {
                Some(x) => x,
                None => {
                    return Err(String::from_str("Invalid protobuf varint"));
                },
            };
            if len > (data.len() - p2) as u128 {
                return Err(String::from_str("Protobuf field runs past the end of the message"));
            }
            let end = p2 + len as usize;
            if key / 8 == target as u128 {
                let content = vstd::slice::slice_to_vec(vstd::slice::slice_subrange(data, p2, end));
                return Ok(Some(content));
            }
            pos = end;
        } else if wire == 5 {
            if p1 > data.len() || data.len() - p1 < 4 {
                return Err(String::from_str("Protobuf field runs past the end of the message"));
            }
            pos = p1 + 4;
        } else {
            return Err(String::from_str("Unsupported protobuf wire type"));
        }
    }
    Ok(None)
}

} // verus!
