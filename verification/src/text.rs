//! Text building blocks: decimal and hexadecimal rendering of integers and
//! small string helpers, each with a specification over `Seq<char>`.
use vstd::prelude::*;

verus! {

/// The ASCII digit for `d` (`0 <= d < 10`).
pub open spec fn digit_char(d: nat) -> char {
    ((d % 10) + 48) as char
}

/// Decimal rendering of `n`, most significant digit first, without leading zeros.
pub open spec fn dec(n: nat) -> Seq<char>
    decreases n,
{
    if n < 10 {
        seq![digit_char(n)]
    } else {
        dec(n / 10).push(digit_char(n % 10))
    }
}

/// Lower-case hexadecimal digit for `d` (`0 <= d < 16`).
pub open spec fn hex_char(d: nat) -> char {
    if d % 16 < 10 {
        ((d % 16) + 48) as char
    } else {
        ((d % 16) - 10 + 97) as char
    }
}

/// `{:#06x}` rendering of a 16-bit value: `0x` and four lower-case hex digits.
pub open spec fn hex16(t: u16) -> Seq<char> {
    seq!['0', 'x', hex_char(t as nat / 4096), hex_char((t as nat / 256) % 16), hex_char(
        (t as nat / 16) % 16,
    ), hex_char(t as nat % 16)]
}

/// Appends one character to a string.
#[verifier::external_body]
pub(crate) fn push_char(s: &mut String, c: char)
    ensures
        final(s)@ == old(s)@.push(c),
{
    s.push(c);
}

/// Appends a string slice to a string.
#[verifier::external_body]
pub(crate) fn push_str(s: &mut String, t: &str)
    ensures
        final(s)@ == old(s)@ + t@,
{
    s.push_str(t);
}

/// The character with the given ASCII code.
fn ascii_char(b: u8) -> (c: char)
    requires
        b < 128,
    ensures
        c == (b as nat) as char,
{
    b as char
}

/// Appends the decimal rendering of `n` to `s`.
pub fn push_decimal(s: &mut String, n: u64)
    ensures
        final(s)@ == old(s)@ + dec(n as nat),
    decreases n,
{
    if n >= 10 {
        push_decimal(s, n / 10);
    }
    let d: u8 = (n % 10) as u8;
    let c = ascii_char(d + 48);
    push_char(s, c);
    proof {
        if n >= 10 {
            assert(dec(n as nat) == dec((n / 10) as nat).push(digit_char((n % 10) as nat)));
        }
    }
}

/// The decimal rendering of `n` as a new string.
pub fn decimal_string(n: u64) -> (s: String)
    ensures
        s@ == dec(n as nat),
{
    let mut s = String::new();
    push_decimal(&mut s, n);
    assert(s@ =~= dec(n as nat));
    s
}

/// Appends `{:#06x}` of `t` to `s`.
pub fn push_hex16(s: &mut String, t: u16)
    ensures
        final(s)@ == old(s)@ + hex16(t),
{
    let ghost s0 = s@;
    push_char(s, '0');
    push_char(s, 'x');
    let d0: u8 = (t / 4096) as u8;
    let d1: u8 = ((t / 256) % 16) as u8;
    let d2: u8 = ((t / 16) % 16) as u8;
    let d3: u8 = (t % 16) as u8;
    push_char(s, hex_digit(d0));
    push_char(s, hex_digit(d1));
    push_char(s, hex_digit(d2));
    push_char(s, hex_digit(d3));
    assert(s@ =~= s0 + hex16(t));
}

fn hex_digit(d: u8) -> (c: char)
    requires
        d < 16,
    ensures
        c == hex_char(d as nat),
{
    if d < 10 {
        ascii_char(d + 48)
    } else {
        ascii_char(d - 10 + 97)
    }
}


/// The pieces of `s` between occurrences of `c` (at least one piece), as
/// `str::split` with a `char` pattern yields them.
pub open spec fn split_char(s: Seq<char>, c: char) -> Seq<Seq<char>>
    decreases s.len(),
{
    if s.len() == 0 {
        seq![Seq::<char>::empty()]
    } else {
        let rest = split_char(s.drop_last(), c);
        if s.last() == c {
            rest.push(Seq::<char>::empty())
        } else {
            rest.update(rest.len() - 1, rest.last().push(s.last()))
        }
    }
}

proof fn lemma_split_nonempty(s: Seq<char>, c: char)
    ensures
        split_char(s, c).len() >= 1,
    decreases s.len(),
{
    if s.len() > 0 {
        lemma_split_nonempty(s.drop_last(), c);
    }
}

/// The characters of a string slice.
pub fn str_chars(s: &str) -> (v: Vec<char>)
    ensures
        v@ == s@,
{
    let n = s.unicode_len();
    let mut v: Vec<char> = Vec::new();
    for i in 0..n
        invariant
            n == s@.len(),
            v@ == s@.take(i as int),
    {
        v.push(s.get_char(i));
        assert(s@.take(i + 1) =~= s@.take(i as int).push(s@[i as int]));
    }
    assert(s@.take(n as int) =~= s@);
    v
}

/// Splits `s` at every occurrence of `c`.
pub fn split_on(s: &str, c: char) -> (parts: Vec<String>)
    ensures
        parts@.map_values(|p: String| p@) == split_char(s@, c),
{
    let chars = str_chars(s);
    let mut parts: Vec<String> = Vec::new();
    let mut cur = String::new();
    assert(split_char(chars@.take(0), c) =~= seq![Seq::<char>::empty()]) by {
        assert(chars@.take(0) =~= Seq::<char>::empty());
    }
    for i in 0..chars.len()
        invariant
            chars@ == s@,
            parts@.map_values(|p: String| p@).push(cur@) == split_char(chars@.take(i as int), c),
    {
        let ch = chars[i];
        let ghost pre = chars@.take(i as int);
        let ghost split_pre = split_char(pre, c);
        assert(chars@.take(i + 1).drop_last() =~= pre);
        assert(chars@.take(i + 1).last() == ch);
        proof {
            lemma_split_nonempty(pre, c);
        }
        if ch == c {
            let ghost pv = parts@.map_values(|p: String| p@);
            parts.push(cur);
            cur = String::new();
            assert(parts@.map_values(|p: String| p@) =~= pv.push(split_pre.last()));
            assert(parts@.map_values(|p: String| p@).push(cur@) =~= split_pre.push(
                Seq::<char>::empty(),
            ));
        } else {
            let ghost pv = parts@.map_values(|p: String| p@);
            push_char(&mut cur, ch);
            assert(pv.push(cur@) =~= split_pre.update(
                split_pre.len() - 1,
                split_pre.last().push(ch),
            ));
        }
    }
    assert(chars@.take(chars@.len() as int) =~= s@);
    let ghost pv = parts@.map_values(|p: String| p@);
    parts.push(cur);
    assert(parts@.map_values(|p: String| p@) =~= pv.push(cur@));
    parts
}

/// Whether `c` occurs in `s`.
pub fn contains_char(s: &str, c: char) -> (r: bool)
    ensures
        r == s@.contains(c),
{
    let chars = str_chars(s);
    for i in 0..chars.len()
        invariant
            chars@ == s@,
            forall|k: int| 0 <= k < i ==> chars@[k] != c,
    {
        if chars[i] == c {
            return true;
        }
    }
    false
}

} // verus!
