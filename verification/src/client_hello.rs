//! TLS ClientHello normalization: parsing, Chromium-style extension order,
//! GREASE injection and length fix-up.
use vstd::prelude::*;
use crate::text::{dec, hex16, push_decimal, push_hex16, push_str};

verus! {

/// `std::io::Error`, carried through the library unchanged.
#[verifier::external_type_specification]
#[verifier::external_body]
pub struct ExIoError(std::io::Error);

/// `reqwest::Error`, carried through the library unchanged.
#[verifier::external_type_specification]
#[verifier::external_body]
pub struct ExReqwestError(reqwest::Error);

/// Errors of the normalization proxy.
#[derive(Debug)]
pub enum ProxyError {
    Io(std::io::Error),
    NotInitialized,
    ParseError(String),
    Reqwest(reqwest::Error),
}

/// Big-endian 16-bit value of two bytes.
pub open spec fn be16(hi: u8, lo: u8) -> int {
    hi as int * 256 + lo as int
}

/// A GREASE extension type (RFC 8701): both bytes equal, low nibble 0xA.
pub open spec fn spec_is_grease(t: u16) -> bool {
    t / 256 == t % 256 && (t % 256) % 16 == 10
}

/// Returns whether `t` is a GREASE extension type.
pub fn is_grease(t: u16) -> (r: bool)
    ensures
        r == spec_is_grease(t),
{
    let hi = t / 256;
    let lo = t % 256;
    hi == lo && lo % 16 == 10
}

/// A first record that starts a TLS handshake with a ClientHello message.
pub open spec fn spec_looks_like_client_hello(buf: Seq<u8>) -> bool {
    buf.len() > 9 && buf[0] == 0x16 && buf[5] == 0x01
}

/// Returns whether `buf` looks like a TLS record carrying a ClientHello.
pub fn looks_like_client_hello(buf: &[u8]) -> (r: bool)
    ensures
        r == spec_looks_like_client_hello(buf@),
{
    buf.len() > 9 && buf[0] == 0x16 && buf[5] == 0x01
}

/// The message of a failed bounds check.
pub open spec fn bounds_message(field: Seq<char>, pos: int, needed: int, len: int) -> Seq<char> {
    "Buffer too short at '"@ + field + "': pos="@ + dec(pos as nat) + ", need="@ + dec(
        needed as nat,
    ) + ", len="@ + dec(len as nat)
}

/// Checks that `needed` bytes are available at `pos` in `buf`.
pub fn check_bounds(buf: &[u8], pos: usize, needed: usize, field: &str) -> (r: Result<(), ProxyError>)
    requires
        pos + needed <= usize::MAX,
    ensures
        r is Ok <==> pos + needed <= buf@.len(),
        r is Err ==> (r matches Err(ProxyError::ParseError(m)) && m@ == bounds_message(
            field@,
            pos as int,
            needed as int,
            buf@.len() as int,
        )),
{
    if pos + needed > buf.len() {
        let mut m = String::new();
        push_str(&mut m, "Buffer too short at '");
        push_str(&mut m, field);
        push_str(&mut m, "': pos=");
        push_decimal(&mut m, pos as u64);
        push_str(&mut m, ", need=");
        push_decimal(&mut m, needed as u64);
        push_str(&mut m, ", len=");
        push_decimal(&mut m, buf.len() as u64);
        assert(m@ =~= bounds_message(field@, pos as int, needed as int, buf@.len() as int));
        Err(ProxyError::ParseError(m))
    } else {
        Ok(())
    }
}

/// Where the extensions-length field of a ClientHello record lies, or which
/// field ran past the end of the buffer: `Err((field, pos, needed))`.
pub open spec fn spec_extensions_offset(buf: Seq<u8>) -> Result<int, (Seq<char>, int, int)> {
    let p0 = 43int;
    if p0 + 1 > buf.len() {
        Err(("SessionID length"@, p0, 1int))
    } else {
        let p1 = p0 + 1 + buf[p0] as int;
        if p1 + 2 > buf.len() {
            Err(("CipherSuites length"@, p1, 2int))
        } else {
            let p2 = p1 + 2 + be16(buf[p1], buf[p1 + 1]);
            if p2 + 1 > buf.len() {
                Err(("CompressionMethods length"@, p2, 1int))
            } else {
                let p3 = p2 + 1 + buf[p2] as int;
                if p3 + 2 > buf.len() {
                    Err(("Extensions block"@, p3, 2int))
                } else {
                    Ok(p3)
                }
            }
        }
    }
}

/// A ClientHello record laid out as TLS specifies it: `head` (record header,
/// handshake header, version and random: 43 bytes), then the legacy session
/// id, the cipher suites and the compression methods, each behind its length
/// (one, two big-endian and one byte), then `rest`, which starts with the
/// extensions length.
pub open spec fn client_hello_layout(
    head: Seq<u8>,
    session_id: Seq<u8>,
    suites: Seq<u8>,
    compression: Seq<u8>,
    rest: Seq<u8>,
) -> Seq<u8> {
    head + seq![session_id.len() as u8] + session_id + seq![
        (suites.len() / 256) as u8,
        (suites.len() % 256) as u8,
    ] + suites + seq![compression.len() as u8] + compression + rest
}

/// The extensions-length field of a ClientHello lies right after the
/// compression methods: at `43 + 1 + |session id| + 2 + |cipher suites| + 1 +
/// |compression methods|`, whatever the three variable-length fields hold.
pub proof fn lemma_extensions_offset_follows_layout(
    head: Seq<u8>,
    session_id: Seq<u8>,
    suites: Seq<u8>,
    compression: Seq<u8>,
    rest: Seq<u8>,
)
    requires
        head.len() == 43,
        session_id.len() < 256,
        suites.len() < 65536,
        compression.len() < 256,
        rest.len() >= 2,
    ensures
        spec_extensions_offset(client_hello_layout(head, session_id, suites, compression, rest))
            == Ok::<int, (Seq<char>, int, int)>(
            (43 + 1 + session_id.len() + 2 + suites.len() + 1 + compression.len()) as int,
        ),
{
    let buf = client_hello_layout(head, session_id, suites, compression, rest);
    let s = session_id.len() as int;
    let c = suites.len() as int;
    let m = compression.len() as int;
    assert(buf.len() == 43 + 1 + s + 2 + c + 1 + m + rest.len());
    assert(buf[43] == s as u8);
    let p1 = 44 + s;
    assert(buf[p1] == (c / 256) as u8);
    assert(buf[p1 + 1] == (c % 256) as u8);
    assert(be16(buf[p1], buf[p1 + 1]) == c);
    let p2 = p1 + 2 + c;
    assert(buf[p2] == m as u8);
}

/// A ClientHello record whose extensions block serializes `exts` (with the
/// block length in front) carries exactly `exts`, whatever its session id,
/// cipher suites and compression methods.
pub proof fn lemma_layout_record_extensions(
    head: Seq<u8>,
    session_id: Seq<u8>,
    suites: Seq<u8>,
    compression: Seq<u8>,
    exts: Seq<(u16, Seq<u8>)>,
    tail: Seq<u8>,
)
    requires
        head.len() == 43,
        session_id.len() < 256,
        suites.len() < 65536,
        compression.len() < 256,
        ext_lengths_fit(exts),
        spec_serialize_extensions(exts).len() < 65536,
    ensures
        ({
            let block = spec_serialize_extensions(exts);
            let rest = seq![(block.len() / 256) as u8, (block.len() % 256) as u8] + block + tail;
            spec_record_extensions(client_hello_layout(head, session_id, suites, compression, rest))
                == Some(exts)
        }),
{
    let block = spec_serialize_extensions(exts);
    let n = block.len() as int;
    let rest = seq![(n / 256) as u8, (n % 256) as u8] + block + tail;
    let buf = client_hello_layout(head, session_id, suites, compression, rest);
    lemma_extensions_offset_follows_layout(head, session_id, suites, compression, rest);
    let off = (43 + 1 + session_id.len() + 2 + suites.len() + 1 + compression.len()) as int;
    assert(buf =~= buf.take(off) + rest);
    assert(buf[off] == (n / 256) as u8);
    assert(buf[off + 1] == (n % 256) as u8);
    assert(be16(buf[off], buf[off + 1]) == n);
    assert(buf.subrange(off + 2, off + 2 + n) =~= block);
    lemma_parse_serialize_roundtrip(exts);
}

/// Finds the byte offset of the "Extensions Length" field inside a ClientHello record.
pub fn find_extensions_offset(buf: &[u8]) -> (r: Result<usize, ProxyError>)
    ensures
        match spec_extensions_offset(buf@) {
            Ok(p) => r matches Ok(q) && q == p,
            Err((field, pos, needed)) => r matches Err(ProxyError::ParseError(m)) && m@
                == bounds_message(field, pos, needed, buf@.len() as int),
        },
{
    let mut pos: usize = 9;
    pos += 2;
    pos += 32;
    check_bounds(buf, pos, 1, "SessionID length")?;
    let sid_len = buf[pos] as usize;
    pos += 1 + sid_len;
    check_bounds(buf, pos, 2, "CipherSuites length")?;
    let cs_len = (buf[pos] as usize) * 256 + (buf[pos + 1] as usize);
    pos += 2 + cs_len;
    check_bounds(buf, pos, 1, "CompressionMethods length")?;
    let cm_len = buf[pos] as usize;
    pos += 1 + cm_len;
    check_bounds(buf, pos, 2, "Extensions block")?;
    Ok(pos)
}


/// The extensions of a ClientHello: `(type, data)` pairs.
pub open spec fn ext_seq(v: Seq<(u16, Vec<u8>)>) -> Seq<(u16, Seq<u8>)> {
    v.map_values(|e: (u16, Vec<u8>)| (e.0, e.1@))
}

/// Parses an extensions block into `(type, data)` pairs. A tail shorter than an
/// extension header is ignored; an extension whose data runs past the end
/// fails with its type.
pub open spec fn spec_parse_extensions(raw: Seq<u8>) -> Result<Seq<(u16, Seq<u8>)>, u16>
    decreases raw.len(),
{
    if raw.len() < 4 {
        Ok(seq![])
    } else {
        let t = be16(raw[0], raw[1]) as u16;
        let l = be16(raw[2], raw[3]);
        if 4 + l > raw.len() {
            Err(t)
        } else {
            match spec_parse_extensions(raw.skip(4 + l)) {
                Ok(rest) => Ok(seq![(t, raw.subrange(4, 4 + l))] + rest),
                Err(e) => Err(e),
            }
        }
    }
}

/// `exts` followed by the outcome of parsing the rest of a block.
pub open spec fn prepend_parsed(
    exts: Seq<(u16, Seq<u8>)>,
    r: Result<Seq<(u16, Seq<u8>)>, u16>,
) -> Result<Seq<(u16, Seq<u8>)>, u16> {
    match r {
        Ok(rest) => Ok(exts + rest),
        Err(t) => Err(t),
    }
}

/// The message of an extension whose data runs past the end of the block.
pub open spec fn ext_oob_message(t: u16) -> Seq<char> {
    "Extension "@ + hex16(t) + " data out of bounds"@
}

proof fn lemma_parse_step(rest: Seq<u8>, exts: Seq<(u16, Seq<u8>)>)
    requires
        rest.len() >= 4,
        4 + be16(rest[2], rest[3]) <= rest.len(),
    ensures
        prepend_parsed(exts, spec_parse_extensions(rest)) == prepend_parsed(
            exts + seq![(be16(rest[0], rest[1]) as u16, rest.subrange(4, 4 + be16(rest[2], rest[3])))],
            spec_parse_extensions(rest.skip(4 + be16(rest[2], rest[3]))),
        ),
{
    let l = be16(rest[2], rest[3]);
    let e = (be16(rest[0], rest[1]) as u16, rest.subrange(4, 4 + l));
    match spec_parse_extensions(rest.skip(4 + l)) {
        Ok(tail) => {
            assert(exts + (seq![e] + tail) =~= (exts + seq![e]) + tail);
        },
        Err(_) => {},
    }
}

/// Parses an extensions block into `(type, data)` pairs.
pub fn parse_extensions(raw: &[u8]) -> (r: Result<Vec<(u16, Vec<u8>)>, ProxyError>)
    ensures
        match spec_parse_extensions(raw@) {
            Ok(s) => r matches Ok(v) && ext_seq(v@) == s,
            Err(t) => r matches Err(ProxyError::ParseError(m)) && m@ == ext_oob_message(t),
        },
{
    let mut exts: Vec<(u16, Vec<u8>)> = Vec::new();
    let mut pos: usize = 0;
    proof {
        assert(raw@.skip(0) =~= raw@);
        assert(ext_seq(exts@) =~= seq![]);
        if let Ok(all) = spec_parse_extensions(raw@) {
            assert(seq![] + all =~= all);
        }
    }
    while pos <= raw.len() && raw.len() - pos >= 4
        invariant
            pos <= raw@.len(),
            spec_parse_extensions(raw@) == prepend_parsed(
                ext_seq(exts@),
                spec_parse_extensions(raw@.skip(pos as int)),
            ),
        decreases raw@.len() - pos,
    {
        let ghost rest = raw@.skip(pos as int);
        let ghost old_exts = ext_seq(exts@);
        let ext_type: u16 = (raw[pos] as u16) * 256 + (raw[pos + 1] as u16);
        let ext_len: usize = (raw[pos + 2] as usize) * 256 + (raw[pos + 3] as usize);
        assert(rest[0] == raw@[pos as int] && rest[1] == raw@[pos + 1] && rest[2] == raw@[pos
            + 2] && rest[3] == raw@[pos + 3]);
        pos += 4;
        if ext_len > raw.len() - pos {
            let mut m = String::new();
            push_str(&mut m, "Extension ");
            push_hex16(&mut m, ext_type);
            push_str(&mut m, " data out of bounds");
            assert(m@ =~= ext_oob_message(ext_type));
            return Err(ProxyError::ParseError(m));
        }
        let data = vstd::slice::slice_to_vec(vstd::slice::slice_subrange(raw, pos, pos + ext_len));
        exts.push((ext_type, data));
        pos += ext_len;
        proof {
            lemma_parse_step(rest, old_exts);
            assert(rest.skip(4 + ext_len as int) =~= raw@.skip(pos as int));
            assert(rest.subrange(4, 4 + ext_len as int) =~= data@);
            assert(ext_seq(exts@) =~= old_exts + seq![(ext_type, data@)]);
        }
    }
    proof {
        assert(ext_seq(exts@) + seq![] =~= ext_seq(exts@));
    }
    Ok(exts)
}


/// The wire form of one extension: type, data length (both big-endian, the
/// length taken modulo 2^16) and data.
pub open spec fn ext_bytes(e: (u16, Seq<u8>)) -> Seq<u8> {
    seq![
        (e.0 / 256) as u8,
        (e.0 % 256) as u8,
        ((e.1.len() / 256) % 256) as u8,
        (e.1.len() % 256) as u8,
    ] + e.1
}

/// The wire form of an extension list.
pub open spec fn spec_serialize_extensions(s: Seq<(u16, Seq<u8>)>) -> Seq<u8>
    decreases s.len(),
{
    if s.len() == 0 {
        seq![]
    } else {
        ext_bytes(s[0]) + spec_serialize_extensions(s.drop_first())
    }
}

proof fn lemma_serialize_push(s: Seq<(u16, Seq<u8>)>, e: (u16, Seq<u8>))
    ensures
        spec_serialize_extensions(s.push(e)) == spec_serialize_extensions(s) + ext_bytes(e),
    decreases s.len(),
{
    if s.len() == 0 {
        let t = s.push(e);
        assert(t.drop_first() =~= Seq::<(u16, Seq<u8>)>::empty());
        assert(t[0] == e);
        assert(spec_serialize_extensions(t.drop_first()) =~= Seq::<u8>::empty());
        assert(spec_serialize_extensions(t) =~= ext_bytes(e));
        assert(spec_serialize_extensions(s) =~= Seq::<u8>::empty());
    } else {
        lemma_serialize_push(s.drop_first(), e);
        assert(s.push(e).drop_first() =~= s.drop_first().push(e));
        assert(spec_serialize_extensions(s.push(e)) =~= ext_bytes(s[0]) + (
        spec_serialize_extensions(s.drop_first()) + ext_bytes(e)));
    }
}

/// Appends `data` to `out`.
pub fn append_bytes(out: &mut Vec<u8>, data: &[u8])
    ensures
        final(out)@ == old(out)@ + data@,
{
    let ghost start = out@;
    for i in 0..data.len()
        invariant
            out@ == start + data@.take(i as int),
    {
        out.push(data[i]);
        assert(data@.take(i + 1) =~= data@.take(i as int).push(data@[i as int]));
    }
    assert(data@.take(data@.len() as int) =~= data@);
}

/// Serializes `(type, data)` pairs back into an extensions block.
pub fn serialize_extensions(exts: &[(u16, Vec<u8>)]) -> (out: Vec<u8>)
    ensures
        out@ == spec_serialize_extensions(ext_seq(exts@)),
{
    let mut out: Vec<u8> = Vec::new();
    for i in 0..exts.len()
        invariant
            out@ == spec_serialize_extensions(ext_seq(exts@.take(i as int))),
    {
        let ext_type = exts[i].0;
        let len = exts[i].1.len();
        let ghost before = out@;
        out.push((ext_type / 256) as u8);
        out.push((ext_type % 256) as u8);
        out.push(((len / 256) % 256) as u8);
        out.push((len % 256) as u8);
        append_bytes(&mut out, exts[i].1.as_slice());
        proof {
            let e = (ext_type, exts@[i as int].1@);
            assert(ext_seq(exts@.take(i + 1)) =~= ext_seq(exts@.take(i as int)).push(e));
            lemma_serialize_push(ext_seq(exts@.take(i as int)), e);
            assert(out@ =~= before + ext_bytes(e));
        }
    }
    assert(exts@.take(exts@.len() as int) =~= exts@);
    out
}


/// Every extension's data fits the 16-bit length field.
pub open spec fn ext_lengths_fit(s: Seq<(u16, Seq<u8>)>) -> bool {
    forall|i: int| 0 <= i < s.len() ==> #[trigger] s[i].1.len() < 65536
}

/// Parsing what `serialize_extensions` wrote gives back the same list, as long
/// as every extension's data fits the 16-bit length field.
pub proof fn lemma_parse_serialize_roundtrip(s: Seq<(u16, Seq<u8>)>)
    requires
        ext_lengths_fit(s),
    ensures
        spec_parse_extensions(spec_serialize_extensions(s)) == Ok::<Seq<(u16, Seq<u8>)>, u16>(s),
    decreases s.len(),
{
    let b = spec_serialize_extensions(s);
    if s.len() == 0 {
        assert(s =~= seq![]);
    } else {
        let e = s[0];
        let rest = s.drop_first();
        assert(ext_lengths_fit(rest)) by {
            assert forall|i: int| 0 <= i < rest.len() implies #[trigger] rest[i].1.len() < 65536 by {
                assert(rest[i] == s[i + 1]);
            }
        }
        lemma_parse_serialize_roundtrip(rest);
        let r = spec_serialize_extensions(rest);
        let hdr = ext_bytes(e);
        assert(b == hdr + r);
        let l = e.1.len() as int;
        assert(hdr.len() == 4 + l);
        assert(be16(b[0], b[1]) == e.0 as int);
        assert(be16(b[2], b[3]) == l);
        assert(b.skip(4 + l) =~= r);
        assert(b.subrange(4, 4 + l) =~= e.1);
        assert(seq![e] + rest =~= s);
    }
}


/// The process-wide rotation through the sixteen GREASE extension values
/// (0x0A0A, 0x1A1A, ..., 0xFAFA). The counter wraps at 2^16, as an atomic
/// `u16` does.
pub struct GreaseCounter {
    pub count: u16,
}

/// The GREASE value handed out when the counter stands at `count`.
pub open spec fn grease_value(count: u16) -> u16 {
    (0x0A0A + (count % 16) * 0x1010) as u16
}

proof fn lemma_grease_value_is_grease(count: u16)
    ensures
        spec_is_grease(grease_value(count)),
        grease_value(count) == 0x0A0A + (count % 16) * 0x1010,
{
    let idx = (count % 16) as int;
    assert(0 <= idx < 16);
    let v = 0x0A0A + idx * 0x1010;
    assert(v == 256 * (10 + 16 * idx) + (10 + 16 * idx)) by (nonlinear_arith)
        requires
            v == 0x0A0A + idx * 0x1010,
    ;
    assert(v < 65536) by (nonlinear_arith)
        requires
            v == 0x0A0A + idx * 0x1010,
            0 <= idx < 16,
    ;
    assert(v / 256 == 10 + 16 * idx && v % 256 == 10 + 16 * idx) by (nonlinear_arith)
        requires
            v == 256 * (10 + 16 * idx) + (10 + 16 * idx),
            0 <= idx < 16,
    ;
    assert((10 + 16 * idx) % 16 == 10) by (nonlinear_arith)
        requires
            0 <= idx < 16,
    ;
}

impl GreaseCounter {
    /// A counter at its initial position (the next value is 0x0A0A).
    pub fn new() -> (c: GreaseCounter)
        ensures
            c.count == 0,
    {
        GreaseCounter { count: 0 }
    }

    /// Hands out the next GREASE extension type, cycling through the sixteen values.
    pub fn next_grease_ext_type(&mut self) -> (t: u16)
        ensures
            t == grease_value(old(self).count),
            spec_is_grease(t),
            final(self).count == (old(self).count + 1) % 65536,
    {
        let idx: u16 = self.count % 16;
        self.count = self.count.wrapping_add(1);
        proof {
            lemma_grease_value_is_grease(old(self).count);
        }
        0x0A0A + idx * 0x1010
    }
}

/// The GREASE value handed out `k` calls after the counter stood at `c`.
pub open spec fn grease_after(c: u16, k: int) -> u16 {
    grease_value(((c + k) % 65536) as u16)
}

/// The counter hands out the sixteen GREASE values in turn: sixteen
/// successive calls give sixteen different values, and the rotation repeats
/// with period sixteen, also across the wrap of the counter at 2^16.
pub proof fn lemma_grease_rotation(c: u16)
    ensures
        forall|i: int, j: int|
            0 <= i < j < 16 ==> #[trigger] grease_after(c, i) != #[trigger] grease_after(c, j),
        grease_after(c, 16) == grease_after(c, 0),
{
    assert forall|i: int, j: int| 0 <= i < j < 16 implies #[trigger] grease_after(c, i)
        != #[trigger] grease_after(c, j) by {
        vstd::arithmetic::div_mod::lemma_mod_mod(c + i, 16, 4096);
        vstd::arithmetic::div_mod::lemma_mod_mod(c + j, 16, 4096);
        assert((c + i) % 16 != (c + j) % 16);
        lemma_grease_value_is_grease(((c + i) % 65536) as u16);
        lemma_grease_value_is_grease(((c + j) % 65536) as u16);
    }
    vstd::arithmetic::div_mod::lemma_mod_mod(c + 0, 16, 4096);
    vstd::arithmetic::div_mod::lemma_mod_mod(c + 16, 16, 4096);
    assert((c + 16) % 16 == (c + 0) % 16);
    lemma_grease_value_is_grease(((c + 0) % 65536) as u16);
    lemma_grease_value_is_grease(((c + 16) % 65536) as u16);
}

/// Some extension in the list is a GREASE extension.
pub open spec fn has_grease(s: Seq<(u16, Seq<u8>)>) -> bool {
    exists|i: int| 0 <= i < s.len() && #[trigger] spec_is_grease(s[i].0)
}

/// The list after GREASE injection with value `g`: unchanged if it already
/// holds a GREASE extension, else an empty GREASE extension in front.
pub open spec fn spec_inject_grease(s: Seq<(u16, Seq<u8>)>, g: u16) -> Seq<(u16, Seq<u8>)> {
    if has_grease(s) {
        s
    } else {
        seq![(g, Seq::<u8>::empty())] + s
    }
}

/// Adds an empty GREASE extension in front when the list holds none; only
/// then is a value taken from `grease`.
pub fn inject_grease_if_missing(exts: &mut Vec<(u16, Vec<u8>)>, grease: &mut GreaseCounter)
    ensures
        ext_seq(final(exts)@) == spec_inject_grease(ext_seq(old(exts)@), grease_value(old(grease).count)),
        has_grease(ext_seq(old(exts)@)) ==> final(grease).count == old(grease).count,
        !has_grease(ext_seq(old(exts)@)) ==> final(grease).count == (old(grease).count + 1)
            % 65536,
        has_grease(ext_seq(final(exts)@)),
{
    let ghost s = ext_seq(exts@);
    let mut found = false;
    for i in 0..exts.len()
        invariant
            s == ext_seq(exts@),
            found <==> exists|j: int| 0 <= j < i && #[trigger] spec_is_grease(s[j].0),
    {
        if is_grease(exts[i].0) {
            found = true;
        }
        assert(s[i as int].0 == exts@[i as int].0);
    }
    if !found {
        let g = grease.next_grease_ext_type();
        exts.insert(0, (g, Vec::new()));
        proof {
            assert(ext_seq(exts@) =~= seq![(g, Seq::<u8>::empty())] + s);
            assert(spec_is_grease(ext_seq(exts@)[0].0));
        }
    } else {
        proof {
            let j = choose|j: int| 0 <= j < s.len() && #[trigger] spec_is_grease(s[j].0);
            assert(spec_is_grease(ext_seq(exts@)[j].0));
        }
    }
}


/// Some extension in the list has type `t`.
pub open spec fn has_type(s: Seq<(u16, Seq<u8>)>, t: u16) -> bool {
    exists|j: int| 0 <= j < s.len() && #[trigger] s[j].0 == t
}

/// The first extension of each type that satisfies `p`, in list order.
pub open spec fn first_of_each(s: Seq<(u16, Seq<u8>)>, p: spec_fn(u16) -> bool) -> Seq<
    (u16, Seq<u8>),
>
    decreases s.len(),
{
    if s.len() == 0 {
        seq![]
    } else {
        let prev = first_of_each(s.drop_last(), p);
        if p(s.last().0) && !has_type(s.drop_last(), s.last().0) {
            prev.push(s.last())
        } else {
            prev
        }
    }
}

/// Index of the last extension of type `t`, or -1.
pub open spec fn last_index_of(s: Seq<(u16, Seq<u8>)>, t: u16) -> int
    decreases s.len(),
{
    if s.len() == 0 {
        -1
    } else if s.last().0 == t {
        s.len() - 1
    } else {
        last_index_of(s.drop_last(), t)
    }
}

/// Chromium 120's extension order; 0xFF00 marks the slot of the GREASE extensions.
pub open spec fn spec_chromium_ext_order() -> Seq<u16> {
    seq![
        0xFF00u16,
        0x0000u16,
        0x0017u16,
        0xFF01u16,
        0x000Au16,
        0x000Bu16,
        0x0023u16,
        0x0010u16,
        0x0005u16,
        0x0012u16,
        0x000Du16,
        0x0033u16,
        0x002Bu16,
        0x002Du16,
        0x001Bu16,
        0x0015u16,
    ]
}

/// The extension types that the Chromium order places by name.
pub open spec fn spec_listed_types() -> Seq<u16> {
    spec_chromium_ext_order().drop_first()
}

/// For each type of `order` present in the list, that type with the data of
/// its last occurrence.
pub open spec fn listed_part(s: Seq<(u16, Seq<u8>)>, order: Seq<u16>) -> Seq<(u16, Seq<u8>)>
    decreases order.len(),
{
    if order.len() == 0 {
        seq![]
    } else {
        let prev = listed_part(s, order.drop_last());
        let t = order.last();
        if has_type(s, t) {
            prev.push((t, s[last_index_of(s, t)].1))
        } else {
            prev
        }
    }
}

/// GREASE types placed in the GREASE slot.
pub open spec fn grease_pred() -> spec_fn(u16) -> bool {
    |t: u16| spec_is_grease(t)
}

/// Types neither GREASE nor named by the Chromium order: they go last.
pub open spec fn other_pred() -> spec_fn(u16) -> bool {
    |t: u16| !spec_is_grease(t) && !spec_listed_types().contains(t)
}

/// The Chromium order of an extension list: the first extension of each GREASE
/// type, then each listed type present (with the data of its last occurrence)
/// in Chromium's order, then the first extension of each remaining type in
/// list order.
pub open spec fn spec_reorder(s: Seq<(u16, Seq<u8>)>) -> Seq<(u16, Seq<u8>)> {
    first_of_each(s, grease_pred()) + listed_part(s, spec_listed_types()) + first_of_each(
        s,
        other_pred(),
    )
}

/// The Chromium extension order, GREASE slot first.
pub fn chromium_ext_order() -> (v: Vec<u16>)
    ensures
        v@ == spec_chromium_ext_order(),
{
    let v: Vec<u16> = vec![
        0xFF00, 0x0000, 0x0017, 0xFF01, 0x000A, 0x000B, 0x0023, 0x0010, 0x0005, 0x0012, 0x000D,
        0x0033, 0x002B, 0x002D, 0x001B, 0x0015,
    ];
    assert(v@ =~= spec_chromium_ext_order());
    v
}

/// Whether the Chromium order names type `t`.
fn is_listed(order: &Vec<u16>, t: u16) -> (r: bool)
    requires
        order@ == spec_chromium_ext_order(),
    ensures
        r == spec_listed_types().contains(t),
{
    let mut found = false;
    for k in 1..order.len()
        invariant
            order@ == spec_chromium_ext_order(),
            found <==> exists|j: int| 1 <= j < k && order@[j] == t,
    {
        if order[k] == t {
            found = true;
        }
    }
    proof {
        if found {
            let j = choose|j: int| 1 <= j < order@.len() && order@[j] == t;
            assert(spec_listed_types()[j - 1] == t);
        }
        if spec_listed_types().contains(t) {
            let j = choose|j: int| 0 <= j < spec_listed_types().len() && spec_listed_types()[j] == t;
            assert(order@[j + 1] == t);
        }
    }
    found
}

/// A copy of a byte vector.
pub fn copy_bytes(v: &Vec<u8>) -> (r: Vec<u8>)
    ensures
        r@ == v@,
{
    vstd::slice::slice_to_vec(v.as_slice())
}

/// Whether some extension in `v` has type `t`.
fn contains_type(v: &Vec<(u16, Vec<u8>)>, t: u16) -> (r: bool)
    ensures
        r == has_type(ext_seq(v@), t),
{
    let ghost s = ext_seq(v@);
    let mut found = false;
    for i in 0..v.len()
        invariant
            s == ext_seq(v@),
            found <==> exists|j: int| 0 <= j < i && #[trigger] s[j].0 == t,
    {
        if v[i].0 == t {
            found = true;
        }
        assert(s[i as int].0 == v@[i as int].0);
    }
    found
}

proof fn lemma_first_of_each_has_type(s: Seq<(u16, Seq<u8>)>, p: spec_fn(u16) -> bool, t: u16)
    requires
        p(t),
    ensures
        has_type(first_of_each(s, p), t) == has_type(s, t),
    decreases s.len(),
{
    if s.len() > 0 {
        let d = s.drop_last();
        lemma_first_of_each_has_type(d, p, t);
        let prev = first_of_each(d, p);
        if has_type(d, t) {
            let j = choose|j: int| 0 <= j < d.len() && #[trigger] d[j].0 == t;
            assert(s[j].0 == t);
        }
        if has_type(prev, t) {
            let j = choose|j: int| 0 <= j < prev.len() && #[trigger] prev[j].0 == t;
            assert(first_of_each(s, p)[j].0 == t);
        }
        if s.last().0 == t {
            assert(s[s.len() - 1].0 == t);
        }
        if has_type(s, t) && !has_type(d, t) {
            let j = choose|j: int| 0 <= j < s.len() && #[trigger] s[j].0 == t;
            if j < s.len() - 1 {
                assert(d[j].0 == t);
            }
            assert(first_of_each(s, p) == prev.push(s.last()));
            assert(first_of_each(s, p)[prev.len() as int].0 == t);
        }
        if has_type(first_of_each(s, p), t) && !has_type(prev, t) {
            let j = choose|j: int| 0 <= j < first_of_each(s, p).len() && #[trigger] first_of_each(
                s,
                p,
            )[j].0 == t;
            if first_of_each(s, p) == prev {
                assert(prev[j].0 == t);
            } else {
                if j < prev.len() {
                    assert(prev[j].0 == t);
                }
                assert(s[s.len() - 1].0 == t);
            }
        }
    }
}


proof fn lemma_last_index(s: Seq<(u16, Seq<u8>)>, t: u16)
    ensures
        -1 <= last_index_of(s, t) < s.len(),
        last_index_of(s, t) >= 0 <==> has_type(s, t),
        last_index_of(s, t) >= 0 ==> s[last_index_of(s, t)].0 == t,
    decreases s.len(),
{
    if s.len() > 0 {
        let d = s.drop_last();
        lemma_last_index(d, t);
        if s.last().0 == t {
            assert(s[s.len() - 1].0 == t);
        } else {
            if has_type(d, t) {
                let j = choose|j: int| 0 <= j < d.len() && #[trigger] d[j].0 == t;
                assert(s[j].0 == t);
            }
            if has_type(s, t) {
                let j = choose|j: int| 0 <= j < s.len() && #[trigger] s[j].0 == t;
                assert(j < s.len() - 1);
                assert(d[j].0 == t);
            }
        }
    }
}

/// Index of the last extension of type `t`.
fn find_last(exts: &Vec<(u16, Vec<u8>)>, t: u16) -> (r: Option<usize>)
    ensures
        r matches Some(j) ==> j == last_index_of(ext_seq(exts@), t),
        r is None ==> last_index_of(ext_seq(exts@), t) == -1,
{
    let ghost s = ext_seq(exts@);
    let mut found: Option<usize> = None;
    for i in 0..exts.len()
        invariant
            s == ext_seq(exts@),
            i <= s.len(),
            match found {
                Some(j) => j == last_index_of(s.take(i as int), t),
                None => last_index_of(s.take(i as int), t) == -1,
            },
    {
        assert(s.take(i + 1).drop_last() =~= s.take(i as int));
        assert(s.take(i + 1).last() == s[i as int]);
        assert(s[i as int].0 == exts@[i as int].0);
        if exts[i].0 == t {
            found = Some(i);
        }
    }
    assert(s.take(s.len() as int) =~= s);
    found
}

/// The first extension of each type that is GREASE (`grease_part`) or that is
/// neither GREASE nor named by the Chromium order (`!grease_part`).
fn collect_first_of_each(exts: &Vec<(u16, Vec<u8>)>, order: &Vec<u16>, grease_part: bool) -> (out:
    Vec<(u16, Vec<u8>)>)
    requires
        order@ == spec_chromium_ext_order(),
    ensures
        ext_seq(out@) == first_of_each(
            ext_seq(exts@),
            if grease_part {
                grease_pred()
            } else {
                other_pred()
            },
        ),
{
    let ghost s = ext_seq(exts@);
    let ghost p = if grease_part {
        grease_pred()
    } else {
        other_pred()
    };
    let mut out: Vec<(u16, Vec<u8>)> = Vec::new();
    for i in 0..exts.len()
        invariant
            s == ext_seq(exts@),
            i <= s.len(),
            order@ == spec_chromium_ext_order(),
            p == (if grease_part {
                grease_pred()
            } else {
                other_pred()
            }),
            ext_seq(out@) == first_of_each(s.take(i as int), p),
    {
        let ghost pre = s.take(i as int);
        assert(s.take(i + 1).drop_last() =~= pre);
        assert(s.take(i + 1).last() == s[i as int]);
        let t = exts[i].0;
        assert(s[i as int].0 == t);
        let keep = if grease_part {
            is_grease(t)
        } else {
            !is_grease(t) && !is_listed(order, t)
        };
        assert(keep == p(t));
        if keep {
            proof {
                lemma_first_of_each_has_type(pre, p, t);
            }
            if !contains_type(&out, t) {
                let data = copy_bytes(&exts[i].1);
                let ghost before = ext_seq(out@);
                out.push((t, data));
                assert(ext_seq(out@) =~= before.push(s[i as int]));
            }
        }
    }
    assert(s.take(s.len() as int) =~= s);
    out
}

/// Each type named by the Chromium order that the list holds, with the data of
/// its last occurrence, in Chromium's order.
fn collect_listed(exts: &Vec<(u16, Vec<u8>)>, order: &Vec<u16>) -> (out: Vec<(u16, Vec<u8>)>)
    requires
        order@ == spec_chromium_ext_order(),
    ensures
        ext_seq(out@) == listed_part(ext_seq(exts@), spec_listed_types()),
{
    let ghost s = ext_seq(exts@);
    let mut out: Vec<(u16, Vec<u8>)> = Vec::new();
    assert(order@.subrange(1, 1) =~= Seq::<u16>::empty());
    for k in 1..order.len()
        invariant
            s == ext_seq(exts@),
            order@ == spec_chromium_ext_order(),
            ext_seq(out@) == listed_part(s, order@.subrange(1, k as int)),
    {
        let t = order[k];
        assert(order@.subrange(1, k + 1).drop_last() =~= order@.subrange(1, k as int));
        assert(order@.subrange(1, k + 1).last() == t);
        proof {
            lemma_last_index(s, t);
        }
        match find_last(exts, t) {
            Some(j) => {
                let data = copy_bytes(&exts[j].1);
                let ghost before = ext_seq(out@);
                out.push((t, data));
                assert(s[j as int].1 == exts@[j as int].1@);
                assert(ext_seq(out@) =~= before.push((t, s[last_index_of(s, t)].1)));
            },
            None => {},
        }
    }
    assert(order@.subrange(1, 16) =~= spec_listed_types());
    out
}

/// Reorders extensions into Chromium's order (see `spec_reorder`).
pub fn reorder_extensions_chromium(exts: &mut Vec<(u16, Vec<u8>)>)
    ensures
        ext_seq(final(exts)@) == spec_reorder(ext_seq(old(exts)@)),
{
    let order = chromium_ext_order();
    let mut result = collect_first_of_each(exts, &order, true);
    let mut listed = collect_listed(exts, &order);
    let mut others = collect_first_of_each(exts, &order, false);
    let ghost (g, l, o) = (ext_seq(result@), ext_seq(listed@), ext_seq(others@));
    result.append(&mut listed);
    result.append(&mut others);
    assert(ext_seq(result@) =~= g + l + o);
    *exts = result;
}


/// The buffer after the extensions length (modulo 2^16) and the handshake
/// length (modulo 2^24, everything after byte 9) are written.
pub open spec fn spec_write_ext_and_handshake_len(b: Seq<u8>, off: int, n: int) -> Seq<u8> {
    let hs = b.len() - 9;
    b.update(off, ((n / 256) % 256) as u8).update(off + 1, (n % 256) as u8).update(
        6,
        ((hs / 65536) % 256) as u8,
    ).update(7, ((hs / 256) % 256) as u8).update(8, (hs % 256) as u8)
}

/// The buffer with all three length fields rewritten, or `None` when the
/// record (everything after byte 5) exceeds 0xFFFF bytes.
pub open spec fn spec_fix_lengths(b: Seq<u8>, off: int, n: int) -> Option<Seq<u8>> {
    let b2 = spec_write_ext_and_handshake_len(b, off, n);
    let rec = b.len() - 5;
    if rec > 0xFFFF {
        None
    } else {
        Some(b2.update(3, (rec / 256) as u8).update(4, (rec % 256) as u8))
    }
}

/// Rewrites the extensions length at `ext_block_offset`, the handshake length
/// and the record length after the extensions block changed size.
pub fn fix_lengths(buf: &mut Vec<u8>, ext_block_offset: usize, new_ext_len: usize) -> (r: Result<
    (),
    ProxyError,
>)
    requires
        old(buf)@.len() >= 9,
        ext_block_offset + 1 < old(buf)@.len(),
    ensures
        match spec_fix_lengths(old(buf)@, ext_block_offset as int, new_ext_len as int) {
            Some(b) => r is Ok && final(buf)@ == b,
            None => (r matches Err(ProxyError::ParseError(m)) && m@ == "Record too large"@)
                && final(buf)@ == spec_write_ext_and_handshake_len(
                old(buf)@,
                ext_block_offset as int,
                new_ext_len as int,
            ),
        },
{
    let total = buf.len();
    assert(ext_block_offset + 1 < total);
    buf.set(ext_block_offset, ((new_ext_len / 256) % 256) as u8);
    buf.set(ext_block_offset + 1, (new_ext_len % 256) as u8);
    let hs_body_len = buf.len() - 9;
    buf.set(6, ((hs_body_len / 65536) % 256) as u8);
    buf.set(7, ((hs_body_len / 256) % 256) as u8);
    buf.set(8, (hs_body_len % 256) as u8);
    let record_len = buf.len() - 5;
    if record_len > 0xFFFF {
        return Err(ProxyError::ParseError(String::from_str("Record too large")));
    }
    buf.set(3, (record_len / 256) as u8);
    buf.set(4, (record_len % 256) as u8);
    Ok(())
}


/// The message of an extensions block that runs past the end of the buffer.
pub open spec fn block_oob_message(end: int, len: int) -> Seq<char> {
    "Extension block out of bounds: "@ + dec(end as nat) + " > "@ + dec(len as nat)
}

/// The extension list that a successful patch writes: the parsed list with
/// GREASE injected (value `g`) and put in Chromium's order.
pub open spec fn spec_patched_extensions(exts: Seq<(u16, Seq<u8>)>, g: u16) -> Seq<(u16, Seq<u8>)> {
    spec_reorder(spec_inject_grease(exts, g))
}

/// The ClientHello with its extensions in Chromium's order and its length
/// fields rewritten, using GREASE value `g` if one has to be injected; or
/// the message of the first check that fails.
pub open spec fn spec_patch_client_hello(buf: Seq<u8>, g: u16) -> Result<Seq<u8>, Seq<char>> {
    match spec_extensions_offset(buf) {
        Err((field, pos, needed)) => Err(bounds_message(field, pos, needed, buf.len() as int)),
        Ok(off) => {
            let start = off + 2;
            let end = start + be16(buf[off], buf[off + 1]);
            if end > buf.len() {
                Err(block_oob_message(end, buf.len() as int))
            } else {
                match spec_parse_extensions(buf.subrange(start, end)) {
                    Err(t) => Err(ext_oob_message(t)),
                    Ok(exts) => {
                        let nb = spec_serialize_extensions(spec_patched_extensions(exts, g));
                        let joined = buf.take(start) + nb + buf.skip(end);
                        match spec_fix_lengths(joined, off, nb.len() as int) {
                            Some(out) => Ok(out),
                            None => Err("Record too large"@),
                        }
                    },
                }
            }
        },
    }
}

/// Whether patching `buf` takes a value from the GREASE rotation: the
/// extensions parse and none of them is GREASE.
pub open spec fn spec_patch_takes_grease(buf: Seq<u8>) -> bool {
    match spec_extensions_offset(buf) {
        Err(_) => false,
        Ok(off) => {
            let start = off + 2;
            let end = start + be16(buf[off], buf[off + 1]);
            end <= buf.len() && match spec_parse_extensions(buf.subrange(start, end)) {
                Err(_) => false,
                Ok(exts) => !has_grease(exts),
            }
        },
    }
}

/// A patched ClientHello has consistent length fields: the record length is
/// everything after byte 5 and the handshake length everything after byte 9.
pub proof fn lemma_patched_lengths_consistent(buf: Seq<u8>, g: u16)
    requires
        spec_patch_client_hello(buf, g) is Ok,
    ensures
        ({
            let v = spec_patch_client_hello(buf, g)->Ok_0;
            be16(v[3], v[4]) == v.len() - 5 && v[6] as int * 65536 + be16(v[7], v[8]) == v.len()
                - 9
        }),
{
    let off = spec_extensions_offset(buf)->Ok_0;
    let start = off + 2;
    let end = start + be16(buf[off], buf[off + 1]);
    let exts = spec_parse_extensions(buf.subrange(start, end))->Ok_0;
    let nb = spec_serialize_extensions(spec_patched_extensions(exts, g));
    let joined = buf.take(start) + nb + buf.skip(end);
    let v = spec_fix_lengths(joined, off, nb.len() as int)->Some_0;
    let rec = joined.len() - 5;
    let hs = joined.len() - 9;
    assert(v[3] == (rec / 256) as u8 && v[4] == (rec % 256) as u8);
    assert(v[6] == ((hs / 65536) % 256) as u8);
    assert(v[7] == ((hs / 256) % 256) as u8 && v[8] == (hs % 256) as u8);
}

/// Returns the ClientHello with a Chromium-compatible extension order.
#[verifier::rlimit(40)]
pub fn patch_client_hello(buf: Vec<u8>, grease: &mut GreaseCounter) -> (r: Result<
    Vec<u8>,
    ProxyError,
>)
    ensures
        match spec_patch_client_hello(buf@, grease_value(old(grease).count)) {
            Ok(out) => r matches Ok(v) && v@ == out,
            Err(msg) => r matches Err(ProxyError::ParseError(m)) && m@ == msg,
        },
        final(grease).count == if spec_patch_takes_grease(buf@) {
            ((old(grease).count + 1) % 65536) as u16
        } else {
            old(grease).count
        },
        r matches Ok(v) ==> be16(v@[3], v@[4]) == v@.len() - 5 && v@[6] as int * 65536 + be16(
            v@[7],
            v@[8],
        ) == v@.len() - 9,
{
    let ext_block_offset = find_extensions_offset(buf.as_slice())?;
    if ext_block_offset + 2 > buf.len() {
        return Err(ProxyError::ParseError(String::from_str("Buffer too short for ext length")));
    }
    let ext_len = (buf[ext_block_offset] as usize) * 256 + (buf[ext_block_offset + 1] as usize);
    let ext_data_start = ext_block_offset + 2;
    let ext_data_end = ext_data_start + ext_len;
    if ext_data_end > buf.len() {
        let mut m = String::new();
        push_str(&mut m, "Extension block out of bounds: ");
        push_decimal(&mut m, ext_data_end as u64);
        push_str(&mut m, " > ");
        push_decimal(&mut m, buf.len() as u64);
        assert(m@ =~= block_oob_message(ext_data_end as int, buf@.len() as int));
        return Err(ProxyError::ParseError(m));
    }
    let raw_exts = vstd::slice::slice_subrange(buf.as_slice(), ext_data_start, ext_data_end);
    let mut extensions = parse_extensions(raw_exts)?;
    let ghost g0 = grease_value(grease.count);
    inject_grease_if_missing(&mut extensions, grease);
    reorder_extensions_chromium(&mut extensions);
    let new_ext_bytes = serialize_extensions(extensions.as_slice());
    let new_ext_len = new_ext_bytes.len();
    let mut result = vstd::slice::slice_to_vec(
        vstd::slice::slice_subrange(buf.as_slice(), 0, ext_data_start),
    );
    append_bytes(&mut result, new_ext_bytes.as_slice());
    append_bytes(&mut result, vstd::slice::slice_subrange(buf.as_slice(), ext_data_end, buf.len()));
    proof {
        assert(buf@.subrange(0, ext_data_start as int) =~= buf@.take(ext_data_start as int));
        assert(buf@.subrange(ext_data_end as int, buf@.len() as int) =~= buf@.skip(
            ext_data_end as int,
        ));
    }
    fix_lengths(&mut result, ext_block_offset, new_ext_len)?;
    proof {
        lemma_patched_lengths_consistent(buf@, g0);
    }
    Ok(result)
}


/// The extension list a ClientHello record carries, if its layout is sound.
pub open spec fn spec_record_extensions(buf: Seq<u8>) -> Option<Seq<(u16, Seq<u8>)>> {
    match spec_extensions_offset(buf) {
        Err(_) => None,
        Ok(off) => {
            let end = off + 2 + be16(buf[off], buf[off + 1]);
            if end > buf.len() {
                None
            } else {
                match spec_parse_extensions(buf.subrange(off + 2, end)) {
                    Ok(exts) => Some(exts),
                    Err(_) => None,
                }
            }
        },
    }
}

proof fn lemma_parse_fits(raw: Seq<u8>)
    ensures
        spec_parse_extensions(raw) matches Ok(s) ==> ext_lengths_fit(s),
    decreases raw.len(),
{
    if raw.len() >= 4 {
        let l = be16(raw[2], raw[3]);
        if 4 + l <= raw.len() {
            lemma_parse_fits(raw.skip(4 + l));
            if let Ok(rest) = spec_parse_extensions(raw.skip(4 + l)) {
                let s = seq![(be16(raw[0], raw[1]) as u16, raw.subrange(4, 4 + l))] + rest;
                assert forall|i: int| 0 <= i < s.len() implies #[trigger] s[i].1.len() < 65536 by {
                    if i > 0 {
                        assert(s[i] == rest[i - 1]);
                    }
                }
            }
        }
    }
}

proof fn lemma_first_of_each_fits(s: Seq<(u16, Seq<u8>)>, p: spec_fn(u16) -> bool)
    requires
        ext_lengths_fit(s),
    ensures
        ext_lengths_fit(first_of_each(s, p)),
    decreases s.len(),
{
    if s.len() > 0 {
        let d = s.drop_last();
        assert forall|i: int| 0 <= i < d.len() implies #[trigger] d[i].1.len() < 65536 by {
            assert(d[i] == s[i]);
        }
        lemma_first_of_each_fits(d, p);
        assert(s.last() == s[s.len() - 1]);
    }
}

proof fn lemma_listed_part_fits(s: Seq<(u16, Seq<u8>)>, order: Seq<u16>)
    requires
        ext_lengths_fit(s),
    ensures
        ext_lengths_fit(listed_part(s, order)),
    decreases order.len(),
{
    if order.len() > 0 {
        lemma_listed_part_fits(s, order.drop_last());
        lemma_last_index(s, order.last());
    }
}

proof fn lemma_patched_fits(exts: Seq<(u16, Seq<u8>)>, g: u16)
    requires
        ext_lengths_fit(exts),
    ensures
        ext_lengths_fit(spec_patched_extensions(exts, g)),
{
    let inj = spec_inject_grease(exts, g);
    assert forall|i: int| 0 <= i < inj.len() implies #[trigger] inj[i].1.len() < 65536 by {
        if !has_grease(exts) && i > 0 {
            assert(inj[i] == exts[i - 1]);
        }
    }
    lemma_first_of_each_fits(inj, grease_pred());
    lemma_listed_part_fits(inj, spec_listed_types());
    lemma_first_of_each_fits(inj, other_pred());
    let a = first_of_each(inj, grease_pred());
    let b = listed_part(inj, spec_listed_types());
    let c = first_of_each(inj, other_pred());
    let all = a + b + c;
    assert forall|i: int| 0 <= i < all.len() implies #[trigger] all[i].1.len() < 65536 by {
        if i < a.len() {
            assert(all[i] == a[i]);
        } else if i < a.len() + b.len() {
            assert(all[i] == b[i - a.len()]);
        } else {
            assert(all[i] == c[i - a.len() - b.len()]);
        }
    }
}

/// Where a patched ClientHello keeps its extensions: the extensions-length
/// field lies where it lay in the input and announces the new block, which
/// follows it byte for byte; and the length fields are already what a fix-up
/// would write.
#[verifier::spinoff_prover]
#[verifier::rlimit(40)]
proof fn lemma_patched_layout(buf: Seq<u8>, g: u16)
    requires
        spec_patch_client_hello(buf, g) is Ok,
    ensures
        spec_record_extensions(buf) is Some,
        spec_extensions_offset(spec_patch_client_hello(buf, g)->Ok_0) == spec_extensions_offset(
            buf,
        ),
        ({
            let out = spec_patch_client_hello(buf, g)->Ok_0;
            let off = spec_extensions_offset(buf)->Ok_0;
            let nb = spec_serialize_extensions(
                spec_patched_extensions(spec_record_extensions(buf)->Some_0, g),
            );
            &&& 43 <= off
            &&& be16(out[off], out[off + 1]) == nb.len()
            &&& off + 2 + nb.len() <= out.len()
            &&& out.subrange(off + 2, off + 2 + nb.len()) == nb
            &&& spec_fix_lengths(out, off, nb.len() as int) == Some(out)
        }),
{
    let out = spec_patch_client_hello(buf, g)->Ok_0;
    let off = spec_extensions_offset(buf)->Ok_0;
    let start = off + 2;
    let end = start + be16(buf[off], buf[off + 1]);
    let exts = spec_parse_extensions(buf.subrange(start, end))->Ok_0;
    assert(spec_record_extensions(buf) == Some(exts));
    let fin = spec_patched_extensions(exts, g);
    let nb = spec_serialize_extensions(fin);
    let joined = buf.take(start) + nb + buf.skip(end);
    assert(out == spec_fix_lengths(joined, off, nb.len() as int)->Some_0);
    assert(out.len() == joined.len());
    assert(joined.len() - 5 <= 0xFFFF);
    // The bytes in front of the extensions block are unchanged but for the
    // record and handshake lengths, which lie before the ClientHello body.
    assert forall|i: int| 9 <= i < start && i != off && i != off + 1 implies out[i] == buf[i] by {
        assert(joined[i] == buf[i]);
    }
    let p1 = 44 + buf[43] as int;
    let p2 = p1 + 2 + be16(buf[p1], buf[p1 + 1]);
    assert(out[43] == buf[43]);
    assert(out[p1] == buf[p1] && out[p1 + 1] == buf[p1 + 1]);
    assert(out[p2] == buf[p2]);
    assert(spec_extensions_offset(out) == spec_extensions_offset(buf));
    assert(out[off] == ((nb.len() / 256) % 256) as u8);
    assert(out[off + 1] == (nb.len() % 256) as u8);
    lemma_parse_fits(buf.subrange(start, end));
    lemma_patched_fits(exts, g);
    lemma_parse_serialize_roundtrip(fin);
    assert(nb.len() < 65536) by {
        assert(start + nb.len() <= joined.len());
    }
    assert(be16(out[off], out[off + 1]) == nb.len());
    assert(out.subrange(start, start + nb.len()) =~= nb) by {
        assert forall|i: int| 0 <= i < nb.len() implies out[start + i] == nb[i] by {
            assert(joined[start + i] == nb[i]);
        }
    }
    assert(spec_fix_lengths(out, off, nb.len() as int)->Some_0 =~= out);
}

/// A patched ClientHello is again a well-formed record: its extensions block
/// lies where it lay before, and it parses to exactly the Chromium-ordered
/// list (with GREASE) built from the original extensions.
pub proof fn lemma_patched_hello_reparses(buf: Seq<u8>, g: u16)
    requires
        spec_patch_client_hello(buf, g) is Ok,
    ensures
        spec_record_extensions(buf) is Some,
        spec_extensions_offset(spec_patch_client_hello(buf, g)->Ok_0) == spec_extensions_offset(
            buf,
        ),
        spec_record_extensions(spec_patch_client_hello(buf, g)->Ok_0) == Some(
            spec_patched_extensions(spec_record_extensions(buf)->Some_0, g),
        ),
{
    lemma_patched_layout(buf, g);
    let out = spec_patch_client_hello(buf, g)->Ok_0;
    let off = spec_extensions_offset(buf)->Ok_0;
    let exts = spec_record_extensions(buf)->Some_0;
    let fin = spec_patched_extensions(exts, g);
    let nb = spec_serialize_extensions(fin);
    let end = off + 2 + be16(buf[off], buf[off + 1]);
    lemma_parse_fits(buf.subrange(off + 2, end));
    lemma_patched_fits(exts, g);
    lemma_parse_serialize_roundtrip(fin);
    assert(out.subrange(off + 2, off + 2 + be16(out[off], out[off + 1])) == nb);
}

/// Patching a ClientHello laid out as TLS specifies, with any session id,
/// cipher suites and compression methods, rewrites exactly its extensions:
/// the patched record carries the given extensions with GREASE injected and
/// in Chromium's order.
pub proof fn lemma_patch_layout_extensions(
    head: Seq<u8>,
    session_id: Seq<u8>,
    suites: Seq<u8>,
    compression: Seq<u8>,
    exts: Seq<(u16, Seq<u8>)>,
    tail: Seq<u8>,
    g: u16,
)
    requires
        head.len() == 43,
        session_id.len() < 256,
        suites.len() < 65536,
        compression.len() < 256,
        ext_lengths_fit(exts),
        spec_serialize_extensions(exts).len() < 65536,
        ({
            let block = spec_serialize_extensions(exts);
            let rest = seq![(block.len() / 256) as u8, (block.len() % 256) as u8] + block + tail;
            spec_patch_client_hello(
                client_hello_layout(head, session_id, suites, compression, rest),
                g,
            ) is Ok
        }),
    ensures
        ({
            let block = spec_serialize_extensions(exts);
            let rest = seq![(block.len() / 256) as u8, (block.len() % 256) as u8] + block + tail;
            let buf = client_hello_layout(head, session_id, suites, compression, rest);
            spec_record_extensions(spec_patch_client_hello(buf, g)->Ok_0) == Some(
                spec_patched_extensions(exts, g),
            )
        }),
{
    let block = spec_serialize_extensions(exts);
    let rest = seq![(block.len() / 256) as u8, (block.len() % 256) as u8] + block + tail;
    let buf = client_hello_layout(head, session_id, suites, compression, rest);
    lemma_layout_record_extensions(head, session_id, suites, compression, exts, tail);
    lemma_patched_hello_reparses(buf, g);
}

/// Patching is idempotent: a patched ClientHello (patched with a GREASE
/// value, as the rotation hands out) already carries a GREASE extension and
/// Chromium's order, so patching it again gives it back unchanged, with any
/// GREASE value, and takes no value from the rotation.
pub proof fn lemma_patch_idempotent(buf: Seq<u8>, g: u16, g2: u16)
    requires
        spec_is_grease(g),
        spec_patch_client_hello(buf, g) is Ok,
    ensures
        spec_patch_client_hello(spec_patch_client_hello(buf, g)->Ok_0, g2)
            == spec_patch_client_hello(buf, g),
        !spec_patch_takes_grease(spec_patch_client_hello(buf, g)->Ok_0),
{
    lemma_patched_layout(buf, g);
    lemma_patched_hello_reparses(buf, g);
    let p = spec_patch_client_hello(buf, g)->Ok_0;
    let off = spec_extensions_offset(buf)->Ok_0;
    let exts = spec_record_extensions(buf)->Some_0;
    let inj = spec_inject_grease(exts, g);
    let fin = spec_patched_extensions(exts, g);
    let nb = spec_serialize_extensions(fin);
    // The patched list holds a GREASE extension (in front).
    if !has_grease(exts) {
        assert(inj[0].0 == g);
        assert(has_grease(inj));
    }
    lemma_reorder_keeps_types(inj);
    let k = choose|k: int| 0 <= k < inj.len() && #[trigger] spec_is_grease(inj[k].0);
    assert(has_type(inj, inj[k].0));
    assert(has_type(fin, inj[k].0));
    assert(fin.len() > 0);
    assert(spec_is_grease(fin[0].0));
    assert(has_grease(fin));
    // So patching again injects nothing and the order is already Chromium's.
    assert(spec_inject_grease(fin, g2) == fin);
    lemma_reorder_idempotent(inj);
    assert(spec_patched_extensions(fin, g2) == fin);
    // The bytes around the block are the patched record itself.
    let start = off + 2;
    let end = start + be16(p[off], p[off + 1]);
    assert(spec_record_extensions(p) == Some(fin));
    assert(p.subrange(start, end) == nb);
    assert(p.take(start) + nb + p.skip(end) =~= p);
}

/// No two extensions of the list share a type.
pub open spec fn types_distinct(s: Seq<(u16, Seq<u8>)>) -> bool {
    forall|i: int, j: int| 0 <= i < j < s.len() ==> #[trigger] s[i].0 != #[trigger] s[j].0
}

proof fn lemma_first_of_each_props(s: Seq<(u16, Seq<u8>)>, p: spec_fn(u16) -> bool)
    ensures
        forall|i: int|
            0 <= i < first_of_each(s, p).len() ==> #[trigger] p(first_of_each(s, p)[i].0),
        types_distinct(first_of_each(s, p)),
        forall|t: u16| #[trigger] has_type(first_of_each(s, p), t) == (p(t) && has_type(s, t)),
    decreases s.len(),
{
    if s.len() > 0 {
        let d = s.drop_last();
        lemma_first_of_each_props(d, p);
        let prev = first_of_each(d, p);
        let fe = first_of_each(s, p);
        assert forall|t: u16| #[trigger] has_type(fe, t) == (p(t) && has_type(s, t)) by {
            if p(t) {
                lemma_first_of_each_has_type(s, p, t);
            } else {
                if has_type(fe, t) {
                    let j = choose|j: int| 0 <= j < fe.len() && #[trigger] fe[j].0 == t;
                    if j < prev.len() {
                        assert(prev[j].0 == t);
                    }
                }
            }
        }
        if fe != prev {
            let e = s.last();
            assert(fe == prev.push(e));
            assert(!has_type(prev, e.0));
            assert forall|i: int, j: int| 0 <= i < j < fe.len() implies #[trigger] fe[i].0
                != #[trigger] fe[j].0 by {
                if j == prev.len() {
                    if fe[i].0 == e.0 {
                        assert(prev[i].0 == e.0);
                    }
                } else {
                    assert(prev[i] == fe[i] && prev[j] == fe[j]);
                }
            }
            assert forall|i: int| 0 <= i < fe.len() implies #[trigger] p(fe[i].0) by {
                if i < prev.len() {
                    assert(prev[i] == fe[i]);
                }
            }
        }
    }
}

/// The order names no type twice.
pub open spec fn order_distinct(order: Seq<u16>) -> bool {
    forall|i: int, j: int| 0 <= i < j < order.len() ==> order[i] != order[j]
}

proof fn lemma_listed_part_props(s: Seq<(u16, Seq<u8>)>, order: Seq<u16>)
    requires
        order_distinct(order),
    ensures
        forall|i: int|
            0 <= i < listed_part(s, order).len() ==> #[trigger] order.contains(
                listed_part(s, order)[i].0,
            ),
        types_distinct(listed_part(s, order)),
        forall|t: u16| #[trigger]
            has_type(listed_part(s, order), t) == (order.contains(t) && has_type(s, t)),
    decreases order.len(),
{
    if order.len() > 0 {
        let d = order.drop_last();
        let t0 = order.last();
        assert(order_distinct(d));
        lemma_listed_part_props(s, d);
        let prev = listed_part(s, d);
        let lp = listed_part(s, order);
        assert(forall|t: u16| d.contains(t) ==> order.contains(t));
        assert(!d.contains(t0)) by {
            if d.contains(t0) {
                let k = choose|k: int| 0 <= k < d.len() && d[k] == t0;
                assert(order[k] == order[order.len() - 1]);
            }
        }
        assert forall|t: u16| order.contains(t) implies d.contains(t) || t == t0 by {
            let k = choose|k: int| 0 <= k < order.len() && order[k] == t;
            if k < order.len() - 1 {
                assert(d[k] == t);
            }
        }
        assert(order[order.len() - 1] == t0);
        assert forall|t: u16| #[trigger] has_type(lp, t) == (order.contains(t) && has_type(s, t))
            by {
            if has_type(s, t0) && t == t0 {
                assert(lp[prev.len() as int].0 == t0);
            }
            if has_type(lp, t) {
                let j = choose|j: int| 0 <= j < lp.len() && #[trigger] lp[j].0 == t;
                if j < prev.len() {
                    assert(prev[j].0 == t);
                }
            }
            if has_type(prev, t) {
                let j = choose|j: int| 0 <= j < prev.len() && #[trigger] prev[j].0 == t;
                assert(lp[j].0 == t);
            }
        }
        if has_type(s, t0) {
            assert forall|i: int, j: int| 0 <= i < j < lp.len() implies #[trigger] lp[i].0
                != #[trigger] lp[j].0 by {
                if j == prev.len() {
                    assert(d.contains(prev[i].0));
                } else {
                    assert(prev[i] == lp[i] && prev[j] == lp[j]);
                }
            }
            assert forall|i: int| 0 <= i < lp.len() implies #[trigger] order.contains(lp[i].0) by {
                if i < prev.len() {
                    assert(prev[i] == lp[i]);
                    assert(d.contains(prev[i].0));
                }
            }
        } else {
            assert forall|i: int| 0 <= i < lp.len() implies #[trigger] order.contains(lp[i].0) by {
                assert(d.contains(prev[i].0));
            }
        }
    }
}

proof fn lemma_listed_types_facts()
    ensures
        order_distinct(spec_listed_types()),
        forall|t: u16| #[trigger] spec_listed_types().contains(t) ==> !spec_is_grease(t),
{
    let o = spec_listed_types();
    assert(o =~= seq![
        0x0000u16,
        0x0017u16,
        0xFF01u16,
        0x000Au16,
        0x000Bu16,
        0x0023u16,
        0x0010u16,
        0x0005u16,
        0x0012u16,
        0x000Du16,
        0x0033u16,
        0x002Bu16,
        0x002Du16,
        0x001Bu16,
        0x0015u16,
    ]);
    assert forall|t: u16| #[trigger] o.contains(t) implies !spec_is_grease(t) by {
        let k = choose|k: int| 0 <= k < o.len() && o[k] == t;
    }
}

/// The Chromium reorder loses no extension type and duplicates none: the
/// result holds exactly the types of the input, each once, and when the
/// input holds a GREASE extension the result starts with one.
pub proof fn lemma_reorder_keeps_types(s: Seq<(u16, Seq<u8>)>)
    ensures
        forall|t: u16| #[trigger] has_type(spec_reorder(s), t) == has_type(s, t),
        types_distinct(spec_reorder(s)),
        has_grease(s) ==> spec_is_grease(spec_reorder(s)[0].0),
{
    lemma_listed_types_facts();
    let a = first_of_each(s, grease_pred());
    let b = listed_part(s, spec_listed_types());
    let c = first_of_each(s, other_pred());
    lemma_first_of_each_props(s, grease_pred());
    lemma_first_of_each_props(s, other_pred());
    lemma_listed_part_props(s, spec_listed_types());
    let r = spec_reorder(s);
    assert(r == a + b + c);
    assert forall|t: u16| #[trigger] has_type(r, t) == has_type(s, t) by {
        if has_type(r, t) {
            let j = choose|j: int| 0 <= j < r.len() && #[trigger] r[j].0 == t;
            if j < a.len() {
                assert(a[j].0 == t);
                assert(has_type(a, t));
            } else if j < a.len() + b.len() {
                assert(b[j - a.len()].0 == t);
                assert(has_type(b, t));
            } else {
                assert(c[j - a.len() - b.len()].0 == t);
                assert(has_type(c, t));
            }
        }
        if has_type(s, t) {
            if spec_is_grease(t) {
                assert(has_type(a, t));
                let j = choose|j: int| 0 <= j < a.len() && #[trigger] a[j].0 == t;
                assert(r[j].0 == t);
            } else if spec_listed_types().contains(t) {
                assert(has_type(b, t));
                let j = choose|j: int| 0 <= j < b.len() && #[trigger] b[j].0 == t;
                assert(r[a.len() + j].0 == t);
            } else {
                assert(other_pred()(t));
                assert(has_type(c, t));
                let j = choose|j: int| 0 <= j < c.len() && #[trigger] c[j].0 == t;
                assert(r[a.len() + b.len() + j].0 == t);
            }
        }
    }
    assert forall|i: int, j: int| 0 <= i < j < r.len() implies #[trigger] r[i].0
        != #[trigger] r[j].0 by {
        let (na, nb) = (a.len() as int, b.len() as int);
        if j < na {
            assert(r[i] == a[i] && r[j] == a[j]);
        } else if j < na + nb {
            assert(r[j] == b[j - na]);
            assert(spec_listed_types().contains(b[j - na].0));
            if i < na {
                assert(r[i] == a[i]);
                assert(grease_pred()(a[i].0));
            } else {
                assert(r[i] == b[i - na]);
            }
        } else {
            assert(r[j] == c[j - na - nb]);
            assert(other_pred()(c[j - na - nb].0));
            if i < na {
                assert(r[i] == a[i]);
                assert(grease_pred()(a[i].0));
            } else if i < na + nb {
                assert(r[i] == b[i - na]);
                assert(spec_listed_types().contains(b[i - na].0));
            } else {
                assert(r[i] == c[i - na - nb]);
            }
        }
    }
    if has_grease(s) {
        let i = choose|i: int| 0 <= i < s.len() && #[trigger] spec_is_grease(s[i].0);
        assert(s[i].0 == s[i].0);
        assert(has_type(s, s[i].0));
        assert(has_type(a, s[i].0));
        assert(a.len() > 0);
        assert(r[0] == a[0]);
        assert(grease_pred()(a[0].0));
    }
}

proof fn lemma_first_of_each_ignores_suffix(
    x: Seq<(u16, Seq<u8>)>,
    y: Seq<(u16, Seq<u8>)>,
    p: spec_fn(u16) -> bool,
)
    requires
        forall|i: int| 0 <= i < y.len() ==> !p(#[trigger] y[i].0),
    ensures
        first_of_each(x + y, p) == first_of_each(x, p),
    decreases y.len(),
{
    if y.len() == 0 {
        assert(x + y =~= x);
    } else {
        let y2 = y.drop_last();
        assert((x + y).drop_last() =~= x + y2);
        assert((x + y).last() == y[y.len() - 1]);
        lemma_first_of_each_ignores_suffix(x, y2, p);
    }
}

proof fn lemma_first_of_each_ignores_prefix(
    x: Seq<(u16, Seq<u8>)>,
    y: Seq<(u16, Seq<u8>)>,
    p: spec_fn(u16) -> bool,
)
    requires
        forall|i: int| 0 <= i < x.len() ==> !p(#[trigger] x[i].0),
    ensures
        first_of_each(x + y, p) == first_of_each(y, p),
    decreases y.len(),
{
    if y.len() == 0 {
        assert(x + y =~= Seq::<(u16, Seq<u8>)>::empty() + x);
        lemma_first_of_each_ignores_suffix(Seq::<(u16, Seq<u8>)>::empty(), x, p);
        assert(first_of_each(Seq::<(u16, Seq<u8>)>::empty(), p) =~= Seq::<(u16, Seq<u8>)>::empty());
    } else {
        let y2 = y.drop_last();
        assert((x + y).drop_last() =~= x + y2);
        assert((x + y).last() == y.last());
        lemma_first_of_each_ignores_prefix(x, y2, p);
        let t = y.last().0;
        if p(t) {
            if has_type(x + y2, t) {
                let j = choose|j: int| 0 <= j < (x + y2).len() && #[trigger] (x + y2)[j].0 == t;
                if j < x.len() {
                    assert(x[j].0 == t);
                } else {
                    assert(y2[j - x.len()].0 == t);
                }
            }
            if has_type(y2, t) {
                let j = choose|j: int| 0 <= j < y2.len() && #[trigger] y2[j].0 == t;
                assert((x + y2)[x.len() + j].0 == t);
            }
        }
    }
}

proof fn lemma_first_of_each_identity(s: Seq<(u16, Seq<u8>)>, p: spec_fn(u16) -> bool)
    requires
        forall|i: int| 0 <= i < s.len() ==> p(#[trigger] s[i].0),
        types_distinct(s),
    ensures
        first_of_each(s, p) == s,
    decreases s.len(),
{
    if s.len() > 0 {
        let d = s.drop_last();
        assert forall|i: int| 0 <= i < d.len() implies p(#[trigger] d[i].0) by {
            assert(d[i] == s[i]);
        }
        assert forall|i: int, j: int| 0 <= i < j < d.len() implies #[trigger] d[i].0
            != #[trigger] d[j].0 by {
            assert(d[i] == s[i] && d[j] == s[j]);
        }
        lemma_first_of_each_identity(d, p);
        let t = s.last().0;
        if has_type(d, t) {
            let j = choose|j: int| 0 <= j < d.len() && #[trigger] d[j].0 == t;
            assert(s[j].0 == s[s.len() - 1].0);
        }
        assert(s[s.len() - 1].0 == t);
        assert(p(t));
        assert(d.push(s.last()) =~= s);
    }
}

proof fn lemma_listed_part_data(s: Seq<(u16, Seq<u8>)>, order: Seq<u16>)
    ensures
        forall|i: int|
            0 <= i < listed_part(s, order).len() ==> (#[trigger] listed_part(s, order)[i]).1
                == s[last_index_of(s, listed_part(s, order)[i].0)].1,
    decreases order.len(),
{
    if order.len() > 0 {
        lemma_listed_part_data(s, order.drop_last());
        let prev = listed_part(s, order.drop_last());
        let cur = listed_part(s, order);
        assert forall|i: int| 0 <= i < cur.len() implies (#[trigger] cur[i]).1 == s[last_index_of(
            s,
            cur[i].0,
        )].1 by {
            if i < prev.len() {
                assert(cur[i] == prev[i]);
            }
        }
    }
}

proof fn lemma_listed_part_congruent(
    s1: Seq<(u16, Seq<u8>)>,
    s2: Seq<(u16, Seq<u8>)>,
    order: Seq<u16>,
)
    requires
        forall|t: u16|
            #[trigger] order.contains(t) ==> has_type(s2, t) == has_type(s1, t) && (has_type(s1, t)
                ==> s2[last_index_of(s2, t)].1 == s1[last_index_of(s1, t)].1),
    ensures
        listed_part(s2, order) == listed_part(s1, order),
    decreases order.len(),
{
    if order.len() > 0 {
        let o2 = order.drop_last();
        assert forall|t: u16| #[trigger] o2.contains(t) implies order.contains(t) by {
            let k = choose|k: int| 0 <= k < o2.len() && o2[k] == t;
            assert(order[k] == t);
        }
        lemma_listed_part_congruent(s1, s2, o2);
        assert(order[order.len() - 1] == order.last());
        assert(order.contains(order.last()));
    }
}

/// Reordering is idempotent: a list already in Chromium's order (as the
/// reorder leaves it) is left exactly as it is by a second reorder.
pub proof fn lemma_reorder_idempotent(s: Seq<(u16, Seq<u8>)>)
    ensures
        spec_reorder(spec_reorder(s)) == spec_reorder(s),
{
    lemma_listed_types_facts();
    lemma_reorder_keeps_types(s);
    let l = spec_listed_types();
    let a = first_of_each(s, grease_pred());
    let b = listed_part(s, l);
    let c = first_of_each(s, other_pred());
    lemma_first_of_each_props(s, grease_pred());
    lemma_first_of_each_props(s, other_pred());
    lemma_listed_part_props(s, l);
    lemma_listed_part_data(s, l);
    let r = spec_reorder(s);
    assert(r == a + b + c);
    // The GREASE part of `r` is `a`.
    assert forall|i: int| 0 <= i < (b + c).len() implies !grease_pred()(#[trigger] (b + c)[i].0) by {
        if i < b.len() {
            assert((b + c)[i] == b[i]);
            assert(l.contains(b[i].0));
        } else {
            assert((b + c)[i] == c[i - b.len()]);
            assert(other_pred()(c[i - b.len()].0));
        }
    }
    assert(r =~= a + (b + c));
    lemma_first_of_each_ignores_suffix(a, b + c, grease_pred());
    lemma_first_of_each_identity(a, grease_pred());
    // The remaining part of `r` is `c`.
    assert forall|i: int| 0 <= i < (a + b).len() implies !other_pred()(#[trigger] (a + b)[i].0) by {
        if i < a.len() {
            assert((a + b)[i] == a[i]);
            assert(grease_pred()(a[i].0));
        } else {
            assert((a + b)[i] == b[i - a.len()]);
            assert(l.contains(b[i - a.len()].0));
        }
    }
    assert(r =~= (a + b) + c);
    lemma_first_of_each_ignores_prefix(a + b, c, other_pred());
    lemma_first_of_each_identity(c, other_pred());
    // The listed part of `r` is `b`.
    assert forall|t: u16| #[trigger] l.contains(t) implies has_type(r, t) == has_type(s, t) && (
    has_type(s, t) ==> r[last_index_of(r, t)].1 == s[last_index_of(s, t)].1) by {
        if has_type(s, t) {
            assert(has_type(b, t));
            let k = choose|k: int| 0 <= k < b.len() && #[trigger] b[k].0 == t;
            lemma_last_index(r, t);
            let j = last_index_of(r, t);
            assert(r[a.len() + k] == b[k]);
            assert(r[j].0 == t);
            assert(j == a.len() + k) by {
                if j < a.len() + k {
                    assert(r[j].0 != r[a.len() + k].0);
                } else if j > a.len() + k {
                    assert(r[a.len() + k].0 != r[j].0);
                }
            }
        }
    }
    lemma_listed_part_congruent(s, r, l);
}


/// What the proxy forwards as the first record of a connection: a
/// ClientHello patched into Chromium's order, or the record as received when
/// it is not a ClientHello or patching fails.
pub open spec fn spec_normalized_first_record(buf: Seq<u8>, g: u16) -> Seq<u8> {
    if spec_looks_like_client_hello(buf) {
        match spec_patch_client_hello(buf, g) {
            Ok(out) => out,
            Err(_) => buf,
        }
    } else {
        buf
    }
}

/// Normalizes the first record of a proxied connection (see
/// `spec_normalized_first_record`).
pub fn normalize_first_record(buf: Vec<u8>, grease: &mut GreaseCounter) -> (out: Vec<u8>)
    ensures
        out@ == spec_normalized_first_record(buf@, grease_value(old(grease).count)),
        final(grease).count == if spec_looks_like_client_hello(buf@) && spec_patch_takes_grease(
            buf@,
        ) {
            ((old(grease).count + 1) % 65536) as u16
        } else {
            old(grease).count
        },
{
    if looks_like_client_hello(buf.as_slice()) {
        let original = copy_bytes(&buf);
        match patch_client_hello(buf, grease) {
            Ok(p) => p,
            Err(_) => original,
        }
    } else {
        buf
    }
}

/// The URL of the local normalization proxy listening on `port`.
pub open spec fn spec_local_proxy_url(port: u16) -> Seq<char> {
    "http://127.0.0.1:"@ + dec(port as nat)
}

/// The URL under which clients reach the local normalization proxy.
pub fn local_proxy_url(port: u16) -> (u: String)
    ensures
        u@ == spec_local_proxy_url(port),
{
    let mut u = String::from_str("http://127.0.0.1:");
    push_decimal(&mut u, port as u64);
    u
}

} // verus!
