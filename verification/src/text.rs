//! Small text helpers: clock formatting, ellipsis truncation, filesystem-safe
//! cache names and query-string percent-encoding.
use vstd::prelude::*;
use vstd::string::StringSliceAdditionalSpecFns;

verus! {

/// Appends one character to a string (`String::push`).
#[verifier::external_body]
pub(crate) fn push_char(s: &mut String, c: char)
    ensures
        final(s)@ == old(s)@.push(c),
{
    s.push(c);
}

/// The characters of a string slice, in order.
pub fn chars_of(s: &str) -> (out: Vec<char>)
    ensures
        out@ == s@,
{
    let mut out: Vec<char> = Vec::new();
    for c in it: s.chars()
        invariant
            out@ == it.seq().take(it.index() as int),
            it.seq() == s@,
    {
        out.push(c);
    }
    out
}

/// Appends every character of `cs`, in order.
pub fn push_chars(s: &mut String, cs: &Vec<char>)
    ensures
        final(s)@ == old(s)@ + cs@,
{
    let ghost start = s@;
    let mut i: usize = 0;
    while i < cs.len()
        invariant
            i <= cs@.len(),
            s@ == start + cs@.take(i as int),
        decreases cs@.len() - i,
    {
        push_char(s, cs[i]);
        assert(cs@.take(i as int + 1) =~= cs@.take(i as int).push(cs@[i as int]));
        i = i + 1;
    }
    assert(cs@.take(cs@.len() as int) =~= cs@);
}

/// A string holding exactly the characters of `cs`.
pub fn string_from_chars(cs: &Vec<char>) -> (out: String)
    ensures
        out@ == cs@,
{
    let mut out = String::new();
    push_chars(&mut out, cs);
    assert(out@ =~= cs@);
    out
}

/// The decimal digit character for `d` (`0..=9`).
pub open spec fn digit_char(d: nat) -> char {
    if d == 0 { '0' }
    else if d == 1 { '1' }
    else if d == 2 { '2' }
    else if d == 3 { '3' }
    else if d == 4 { '4' }
    else if d == 5 { '5' }
    else if d == 6 { '6' }
    else if d == 7 { '7' }
    else if d == 8 { '8' }
    else { '9' }
}

/// The decimal representation of `n`, without leading zeros (`0` is "0").
pub open spec fn decimal(n: nat) -> Seq<char>
    decreases n,
{
    if n < 10 {
        seq![digit_char(n)]
    } else {
        decimal(n / 10).push(digit_char(n % 10))
    }
}

fn digit(d: u64) -> (c: char)
    requires
        d < 10,
    ensures
        c == digit_char(d as nat),
{
    if d == 0 { '0' }
    else if d == 1 { '1' }
    else if d == 2 { '2' }
    else if d == 3 { '3' }
    else if d == 4 { '4' }
    else if d == 5 { '5' }
    else if d == 6 { '6' }
    else if d == 7 { '7' }
    else if d == 8 { '8' }
    else { '9' }
}

/// Appends the decimal representation of `n`.
pub fn push_decimal(s: &mut String, n: u64)
    ensures
        final(s)@ == old(s)@ + decimal(n as nat),
    decreases n,
{
    if n >= 10 {
        push_decimal(s, n / 10);
    }
    push_char(s, digit(n % 10));
    assert(n >= 10 ==> decimal(n as nat) == decimal((n / 10) as nat).push(digit_char((n % 10) as nat)));
}

/// `m:ss` for a position of `secs` whole seconds: minutes unpadded, seconds
/// always two digits.
pub open spec fn clock_text(secs: nat) -> Seq<char> {
    decimal(secs / 60) + seq![':', digit_char((secs % 60) / 10), digit_char(secs % 10)]
}

/// Formats a playback position, given in whole seconds, as `m:ss`.
pub fn fmt_time(secs: u64) -> (out: String)
    ensures
        out@ == clock_text(secs as nat),
{
    let mut out = String::new();
    push_decimal(&mut out, secs / 60);
    push_char(&mut out, ':');
    let rem = secs % 60;
    push_char(&mut out, digit(rem / 10));
    push_char(&mut out, digit(rem % 10));
    assert((secs as nat % 60) / 10 == (rem / 10) as nat);
    assert((secs as nat) % 10 == (rem % 10) as nat) by (nonlinear_arith)
        requires rem == secs % 60;
    assert(out@ =~= clock_text(secs as nat));
    out
}

/// `s` unchanged if it has at most `max` characters; otherwise its first
/// `max - 1` characters (none when `max` is 0) followed by `…`.
pub open spec fn truncated(s: Seq<char>, max: nat) -> Seq<char> {
    if s.len() <= max {
        s
    } else {
        s.take(if max == 0 { 0 } else { max - 1 }).push('…')
    }
}

/// Shortens `s` to at most `max` characters, marking a cut with `…`.
pub fn truncate(s: &str, max: usize) -> (out: String)
    ensures
        out@ == truncated(s@, max as nat),
{
    let cs = chars_of(s);
    if cs.len() <= max {
        string_from_chars(&cs)
    } else {
        let keep = max.saturating_sub(1);
        let mut out = String::new();
        let mut i: usize = 0;
        while i < keep
            invariant
                keep < cs@.len(),
                i <= keep,
                out@ == cs@.take(i as int),
            decreases keep - i,
        {
            push_char(&mut out, cs[i]);
            assert(cs@.take(i as int + 1) =~= cs@.take(i as int).push(cs@[i as int]));
            i = i + 1;
        }
        push_char(&mut out, '…');
        out
    }
}

/// Whether `c` survives unchanged in a cache filename: ASCII letters and
/// digits, `-` and `_`.
pub open spec fn is_safe_name_char(c: char) -> bool {
    ('a' <= c && c <= 'z') || ('A' <= c && c <= 'Z') || ('0' <= c && c <= '9') || c == '-'
        || c == '_'
}

/// Each character of `key` kept if safe, else replaced by `_`.
pub open spec fn sanitized(key: Seq<char>) -> Seq<char> {
    Seq::new(key.len(), |i: int| if is_safe_name_char(key[i]) { key[i] } else { '_' })
}

/// Filesystem-safe cache filename from an arbitrary key.
pub fn sanitize(key: &str) -> (out: String)
    ensures
        out@ == sanitized(key@),
{
    let cs = chars_of(key);
    let mut out = String::new();
    let mut i: usize = 0;
    while i < cs.len()
        invariant
            i <= cs@.len(),
            out@ == sanitized(cs@).take(i as int),
            cs@ == key@,
        decreases cs@.len() - i,
    {
        let c = cs[i];
        let safe = ('a' <= c && c <= 'z') || ('A' <= c && c <= 'Z') || ('0' <= c && c <= '9')
            || c == '-' || c == '_';
        if safe {
            push_char(&mut out, c);
        } else {
            push_char(&mut out, '_');
        }
        assert(sanitized(cs@).take(i as int + 1) =~= sanitized(cs@).take(i as int).push(
            sanitized(cs@)[i as int],
        ));
        i = i + 1;
    }
    assert(sanitized(cs@).take(cs@.len() as int) =~= sanitized(cs@));
    out
}

/// Bytes that a query string carries as themselves: ASCII letters, digits,
/// `-`, `_`, `.` and `~`.
pub open spec fn is_unreserved(b: u8) -> bool {
    (0x41 <= b && b <= 0x5A) || (0x61 <= b && b <= 0x7A) || (0x30 <= b && b <= 0x39) || b == 0x2D
        || b == 0x5F || b == 0x2E || b == 0x7E
}

/// The uppercase hexadecimal digit for `d` (`0..=15`).
pub open spec fn hex_char(d: nat) -> char {
    if d < 10 {
        digit_char(d)
    } else if d == 10 {
        'A'
    } else if d == 11 {
        'B'
    } else if d == 12 {
        'C'
    } else if d == 13 {
        'D'
    } else if d == 14 {
        'E'
    } else {
        'F'
    }
}

/// The encoding of one byte: itself if unreserved, else `%XX` in uppercase hex.
pub open spec fn byte_escape(b: u8) -> Seq<char> {
    if is_unreserved(b) {
        seq![b as char]
    } else {
        seq!['%', hex_char((b / 16) as nat), hex_char((b % 16) as nat)]
    }
}

/// The percent-encoding of a byte sequence, byte by byte.
pub open spec fn url_escaped(bytes: Seq<u8>) -> Seq<char>
    decreases bytes.len(),
{
    if bytes.len() == 0 {
        Seq::empty()
    } else {
        url_escaped(bytes.drop_last()) + byte_escape(bytes.last())
    }
}

fn hex(d: u8) -> (c: char)
    requires
        d < 16,
    ensures
        c == hex_char(d as nat),
{
    if d < 10 {
        digit(d as u64)
    } else if d == 10 {
        'A'
    } else if d == 11 {
        'B'
    } else if d == 12 {
        'C'
    } else if d == 13 {
        'D'
    } else if d == 14 {
        'E'
    } else {
        'F'
    }
}

/// Percent-encodes the UTF-8 bytes of `s` for a URL query string.
pub fn urlencode(s: &str) -> (out: String)
    ensures
        out@ == url_escaped(s.spec_bytes()),
{
    let bytes = s.as_bytes();
    let mut out = String::new();
    let mut i: usize = 0;
    while i < bytes.len()
        invariant
            i <= bytes@.len(),
            bytes@ == s.spec_bytes(),
            out@ == url_escaped(bytes@.take(i as int)),
        decreases bytes@.len() - i,
    {
        let b = bytes[i];
        let ghost before = out@;
        if (0x41 <= b && b <= 0x5A) || (0x61 <= b && b <= 0x7A) || (0x30 <= b && b <= 0x39)
            || b == 0x2D || b == 0x5F || b == 0x2E || b == 0x7E {
            push_char(&mut out, b as char);
        } else {
            push_char(&mut out, '%');
            push_char(&mut out, hex(b / 16));
            push_char(&mut out, hex(b % 16));
        }
        assert(bytes@.take(i as int + 1).drop_last() =~= bytes@.take(i as int));
        assert(out@ =~= before + byte_escape(b));
        i = i + 1;
    }
    assert(bytes@.take(bytes@.len() as int) =~= bytes@);
    out
}

/// The value of a hexadecimal digit, either case (0 for any other char).
pub open spec fn hex_value(c: char) -> nat {
    if '0' <= c && c <= '9' {
        (c as int - '0' as int) as nat
    } else if 'A' <= c && c <= 'F' {
        (c as int - 'A' as int + 10) as nat
    } else if 'a' <= c && c <= 'f' {
        (c as int - 'a' as int + 10) as nat
    } else {
        0
    }
}

/// Percent-decoding: each `%` followed by two more chars stands for the
/// byte those two hex digits make; any other char stands for its own code
/// (cut to a byte).
pub open spec fn pct_decoded(s: Seq<char>) -> Seq<u8>
    decreases s.len(),
{
    if s.len() == 0 {
        Seq::empty()
    } else if s[0] == '%' && s.len() >= 3 {
        seq![(hex_value(s[1]) * 16 + hex_value(s[2])) as u8] + pct_decoded(s.skip(3))
    } else {
        seq![s[0] as u8] + pct_decoded(s.skip(1))
    }
}

proof fn lemma_hex_value(d: nat)
    requires
        d < 16,
    ensures
        hex_value(hex_char(d)) == d,
{
}

/// The escape of a byte decodes back to the byte, whatever follows it.
proof fn lemma_escape_decodes(b: u8, rest: Seq<char>)
    ensures
        pct_decoded(byte_escape(b) + rest) == seq![b] + pct_decoded(rest),
{
    let e = byte_escape(b);
    let s = e + rest;
    if is_unreserved(b) {
        assert(s[0] == b as char);
        assert(s.skip(1) =~= rest);
        assert((b as char) as u8 == b);
    } else {
        lemma_hex_value((b / 16) as nat);
        lemma_hex_value((b % 16) as nat);
        assert(s[0] == '%');
        assert(s[1] == hex_char((b / 16) as nat));
        assert(s[2] == hex_char((b % 16) as nat));
        assert(s.skip(3) =~= rest);
        assert(((b / 16) as nat * 16 + (b % 16) as nat) == b);
    }
}

/// `url_escaped` read from the front: the first byte's escape, then the
/// rest's.
proof fn lemma_escaped_front(bytes: Seq<u8>)
    requires
        bytes.len() > 0,
    ensures
        url_escaped(bytes) == byte_escape(bytes[0]) + url_escaped(bytes.skip(1)),
    decreases bytes.len(),
{
    if bytes.len() == 1 {
        assert(bytes.drop_last() =~= Seq::<u8>::empty());
        assert(bytes.skip(1) =~= Seq::<u8>::empty());
        assert(byte_escape(bytes[0]) + Seq::<char>::empty() =~= byte_escape(bytes[0]));
        assert(Seq::<char>::empty() + byte_escape(bytes.last()) =~= byte_escape(bytes[0]));
    } else {
        let front = bytes.drop_last();
        lemma_escaped_front(front);
        assert(front.skip(1) =~= bytes.skip(1).drop_last());
        assert(bytes.skip(1).last() == bytes.last());
        assert(front[0] == bytes[0]);
        assert(url_escaped(bytes.skip(1)) == url_escaped(bytes.skip(1).drop_last()) + byte_escape(
            bytes.last(),
        ));
        assert(url_escaped(bytes) =~= byte_escape(bytes[0]) + url_escaped(bytes.skip(1)));
    }
}

/// Decoding an encoding gives back the bytes: percent-decoding the output
/// of `url_escaped` (what `urlencode` returns for a string's UTF-8 bytes)
/// yields exactly the bytes that were encoded.
pub proof fn lemma_url_escaped_decodes(bytes: Seq<u8>)
    ensures
        pct_decoded(url_escaped(bytes)) == bytes,
    decreases bytes.len(),
{
    if bytes.len() == 0 {
        assert(url_escaped(bytes) =~= Seq::<char>::empty());
    } else {
        lemma_escaped_front(bytes);
        lemma_escape_decodes(bytes[0], url_escaped(bytes.skip(1)));
        lemma_url_escaped_decodes(bytes.skip(1));
        assert(seq![bytes[0]] + bytes.skip(1) =~= bytes);
    }
}

/// The encoding loses nothing: two byte sequences with the same encoding
/// are the same, so two strings `urlencode` maps to the same text have the
/// same UTF-8 bytes.
pub proof fn lemma_url_escaped_injective(a: Seq<u8>, b: Seq<u8>)
    requires
        url_escaped(a) == url_escaped(b),
    ensures
        a == b,
{
    lemma_url_escaped_decodes(a);
    lemma_url_escaped_decodes(b);
}

/// Truncation keeps text that fits as it is; longer text keeps its first
/// `max - 1` characters and ends with `…`, so it is exactly `max`
/// characters long (one, the `…` alone, when `max` is zero).
pub proof fn lemma_truncated_fits(s: Seq<char>, max: nat)
    ensures
        s.len() <= max ==> truncated(s, max) == s,
        s.len() > max && max > 0 ==> truncated(s, max).len() == max,
        s.len() > max ==> truncated(s, max).last() == '…',
        s.len() > max ==> forall|k: int|
            0 <= k < truncated(s, max).len() - 1 ==> #[trigger] truncated(s, max)[k] == s[k],
        truncated(s, max).len() <= if max == 0 {
            1
        } else {
            max
        },
{
}

} // verus!
