//! Byte-level primitives of the envelope encoding: JSON string escaping,
//! canonical decimal numbers, and strict parsers for both.
//!
//! The wire format is compact JSON with the fields of each message in a
//! fixed order, which is exactly what both ends of the protocol emit. The
//! parsers accept that canonical form (plus the standard two-character and
//! `\u00xx` string escapes) and treat everything else as a fatal decode
//! error: the protocol is not defensively versioned, so a stream that
//! deviates from the canonical form cannot be trusted past the bad byte.

use vstd::prelude::*;
use vstd::utf8::{valid_utf8, partial_valid_utf8, partial_valid_utf8_extend_ascii_block};
use vstd::arithmetic::div_mod::{lemma_fundamental_div_mod, lemma_div_decreases, lemma_multiply_divide_lt, lemma_div_pos_is_pos};

verus! {

/// The lowercase hex digit of a value below 16.
pub open spec fn hex_digit(n: int) -> u8
    recommends
        0 <= n < 16,
{
    if n < 10 {
        (0x30 + n) as u8  // '0'..'9'
    } else {
        (0x57 + n) as u8  // 'a'..'f'
    }
}

/// The value of a hex digit byte, either case, or -1 when the byte is none.
pub open spec fn hex_value(c: u8) -> int {
    if 0x30 <= c <= 0x39 {
        c - 0x30
    } else if 0x61 <= c <= 0x66 {
        c - 0x57
    } else if 0x41 <= c <= 0x46 {
        c - 0x37
    } else {
        -1
    }
}

/// How one byte of a string value is written inside a JSON string literal:
/// quote, backslash and the named control characters get two-character
/// escapes, the remaining control characters get `\u00xx`, and every other
/// byte stands for itself.
pub open spec fn esc_byte(c: u8) -> Seq<u8> {
    if c == 0x22 {
        seq![0x5cu8, 0x22]  // \"
    } else if c == 0x5c {
        seq![0x5cu8, 0x5c]  // \\
    } else if c == 0x08 {
        seq![0x5cu8, 0x62]  // \b
    } else if c == 0x09 {
        seq![0x5cu8, 0x74]  // \t
    } else if c == 0x0a {
        seq![0x5cu8, 0x6e]  // \n
    } else if c == 0x0c {
        seq![0x5cu8, 0x66]  // \f
    } else if c == 0x0d {
        seq![0x5cu8, 0x72]  // \r
    } else if c < 0x20 {
        seq![0x5cu8, 0x75, 0x30, 0x30, hex_digit(c as int / 16), hex_digit(c as int % 16)]
    } else {
        seq![c]
    }
}

/// The escaped form of a whole string value.
pub open spec fn esc(b: Seq<u8>) -> Seq<u8>
    decreases b.len(),
{
    if b.len() == 0 {
        Seq::empty()
    } else {
        esc_byte(b[0]) + esc(b.skip(1))
    }
}

pub proof fn lemma_esc_push(b: Seq<u8>, c: u8)
    ensures
        esc(b.push(c)) == esc(b) + esc_byte(c),
    decreases b.len(),
{
    if b.len() == 0 {
        assert(b.push(c)[0] == c);
        assert(b.push(c).skip(1) =~= b);
        assert(esc(b) =~= Seq::<u8>::empty());
        assert(esc(b.push(c)) =~= esc(b) + esc_byte(c));
    } else {
        lemma_esc_push(b.skip(1), c);
        assert(b.push(c).skip(1) =~= b.skip(1).push(c));
        assert(b.push(c)[0] == b[0]);
        assert(esc_byte(b[0]) + (esc(b.skip(1)) + esc_byte(c)) =~= (esc_byte(b[0]) + esc(
            b.skip(1),
        )) + esc_byte(c));
    }
}

/// A complete JSON string literal: quote, escaped value, quote.
pub open spec fn spec_json_string(b: Seq<u8>) -> Seq<u8> {
    seq![0x22u8] + esc(b) + seq![0x22u8]
}

/// Appends the escaped form of `b` to `out`.
pub fn escape_into(out: &mut Vec<u8>, b: &[u8])
    ensures
        final(out)@ == old(out)@ + esc(b@),
{
    let ghost out0 = old(out)@;
    let mut i: usize = 0;
    proof {
        assert(out0 + esc(b@.take(0)) =~= out0);
    }
    while i < b.len()
        invariant
            i <= b@.len(),
            out@ == out0 + esc(b@.take(i as int)),
        decreases b@.len() - i,
    {
        let c = b[i];
        proof {
            assert(b@.take(i + 1) =~= b@.take(i as int).push(c));
            lemma_esc_push(b@.take(i as int), c);
        }
        if c == 0x22 {
            out.push(0x5c);
            out.push(0x22);
        } else if c == 0x5c {
            out.push(0x5c);
            out.push(0x5c);
        } else if c == 0x08 {
            out.push(0x5c);
            out.push(0x62);
        } else if c == 0x09 {
            out.push(0x5c);
            out.push(0x74);
        } else if c == 0x0a {
            out.push(0x5c);
            out.push(0x6e);
        } else if c == 0x0c {
            out.push(0x5c);
            out.push(0x66);
        } else if c == 0x0d {
            out.push(0x5c);
            out.push(0x72);
        } else if c < 0x20 {
            out.push(0x5c);
            out.push(0x75);
            out.push(0x30);
            out.push(0x30);
            let hi = c / 16;
            let lo = c % 16;
            out.push(if hi < 10 { 0x30 + hi } else { 0x57 + hi });
            out.push(if lo < 10 { 0x30 + lo } else { 0x57 + lo });
        } else {
            out.push(c);
        }
        proof {
            assert(out@ =~= out0 + esc(b@.take(i + 1)));
        }
        i = i + 1;
    }
    proof {
        assert(b@.take(b@.len() as int) =~= b@);
    }
}

/// Appends a complete JSON string literal holding `b` to `out`.
pub fn json_string_into(out: &mut Vec<u8>, b: &[u8])
    ensures
        final(out)@ == old(out)@ + spec_json_string(b@),
{
    let ghost out0 = old(out)@;
    out.push(0x22);
    escape_into(out, b);
    out.push(0x22);
    proof {
        assert(out@ =~= out0 + spec_json_string(b@));
    }
}

/// Parses the body of a JSON string literal from position `i` (just past
/// the opening quote), accumulating the unescaped bytes onto `acc`; on
/// success yields the value and the position just past the closing quote.
/// Only the canonical escapes and `\u00xx` for values below 0x80 are
/// accepted, and raw control bytes are rejected.
pub open spec fn spec_parse_string_body(b: Seq<u8>, i: int, acc: Seq<u8>) -> Option<(Seq<u8>, int)>
    decreases b.len() - i,
{
    if i < 0 || i >= b.len() {
        None
    } else if b[i] == 0x22 {
        Some((acc, i + 1))
    } else if b[i] == 0x5c {
        if i + 2 > b.len() {
            None
        } else {
            let e = b[i + 1];
            if e == 0x22 {
                spec_parse_string_body(b, i + 2, acc.push(0x22))
            } else if e == 0x5c {
                spec_parse_string_body(b, i + 2, acc.push(0x5c))
            } else if e == 0x2f {
                spec_parse_string_body(b, i + 2, acc.push(0x2f))
            } else if e == 0x62 {
                spec_parse_string_body(b, i + 2, acc.push(0x08))
            } else if e == 0x66 {
                spec_parse_string_body(b, i + 2, acc.push(0x0c))
            } else if e == 0x6e {
                spec_parse_string_body(b, i + 2, acc.push(0x0a))
            } else if e == 0x72 {
                spec_parse_string_body(b, i + 2, acc.push(0x0d))
            } else if e == 0x74 {
                spec_parse_string_body(b, i + 2, acc.push(0x09))
            } else if e == 0x75 {
                if i + 6 > b.len() {
                    None
                } else {
                    let v = hex_value(b[i + 2]) * 0x1000 + hex_value(b[i + 3]) * 0x100 + hex_value(
                        b[i + 4],
                    ) * 16 + hex_value(b[i + 5]);
                    if hex_value(b[i + 2]) >= 0 && hex_value(b[i + 3]) >= 0 && hex_value(
                        b[i + 4],
                    ) >= 0 && hex_value(b[i + 5]) >= 0 && v < 0x80 {
                        spec_parse_string_body(b, i + 6, acc.push(v as u8))
                    } else {
                        None
                    }
                }
            } else {
                None
            }
        }
    } else if b[i] < 0x20 {
        None
    } else {
        spec_parse_string_body(b, i + 1, acc.push(b[i]))
    }
}

/// Exec mirror of [`spec_parse_string_body`], started just past an opening
/// quote.
pub fn parse_string_body(b: &[u8], start: usize) -> (r: Option<(Vec<u8>, usize)>)
    ensures
        match spec_parse_string_body(b@, start as int, Seq::empty()) {
            Some((v, j)) => r is Some && r.unwrap().0@ == v && r.unwrap().1 == j,
            None => r is None,
        },
{
    let mut acc: Vec<u8> = Vec::new();
    let mut i = start;
    loop
        invariant
            start <= i,
            spec_parse_string_body(b@, start as int, Seq::empty()) == spec_parse_string_body(
                b@,
                i as int,
                acc@,
            ),
        decreases b@.len() - i,
    {
        if i >= b.len() {
            return None;
        }
        let c = b[i];
        if c == 0x22 {
            return Some((acc, i + 1));
        } else if c == 0x5c {
            if b.len() - i < 2 {
                return None;
            }
            let e = b[i + 1];
            if e == 0x22 {
                acc.push(0x22);
            } else if e == 0x5c {
                acc.push(0x5c);
            } else if e == 0x2f {
                acc.push(0x2f);
            } else if e == 0x62 {
                acc.push(0x08);
            } else if e == 0x66 {
                acc.push(0x0c);
            } else if e == 0x6e {
                acc.push(0x0a);
            } else if e == 0x72 {
                acc.push(0x0d);
            } else if e == 0x74 {
                acc.push(0x09);
            } else if e == 0x75 {
                if b.len() - i < 6 {
                    return None;
                }
                let h0 = hex_digit_value(b[i + 2]);
                let h1 = hex_digit_value(b[i + 3]);
                let h2 = hex_digit_value(b[i + 4]);
                let h3 = hex_digit_value(b[i + 5]);
                if h0 < 0 || h1 < 0 || h2 < 0 || h3 < 0 {
                    return None;
                }
                let v = h0 * 0x1000 + h1 * 0x100 + h2 * 16 + h3;
                if v >= 0x80 {
                    return None;
                }
                acc.push(v as u8);
                i = i + 6;
                continue;
            } else {
                return None;
            }
            i = i + 2;
            continue;
        } else if c < 0x20 {
            return None;
        } else {
            acc.push(c);
        }
        i = i + 1;
    }
}

/// Exec mirror of [`hex_value`].
fn hex_digit_value(c: u8) -> (r: i32)
    ensures
        r as int == hex_value(c),
{
    if 0x30 <= c && c <= 0x39 {
        c as i32 - 0x30
    } else if 0x61 <= c && c <= 0x66 {
        c as i32 - 0x57
    } else if 0x41 <= c && c <= 0x46 {
        c as i32 - 0x37
    } else {
        -1
    }
}

/// The decimal digits of a positive value, most significant first
/// (empty for zero).
pub open spec fn dec_digits(n: int) -> Seq<u8>
    decreases n,
{
    if n <= 0 {
        Seq::empty()
    } else {
        dec_digits(n / 10).push((0x30 + n % 10) as u8)
    }
}

/// The canonical decimal encoding of a non-negative value.
pub open spec fn dec_u64(n: int) -> Seq<u8> {
    if n == 0 {
        seq![0x30u8]
    } else {
        dec_digits(n)
    }
}

/// Appends the decimal digits of a positive value.
fn push_digits(out: &mut Vec<u8>, m: u64)
    ensures
        final(out)@ == old(out)@ + dec_digits(m as int),
    decreases m,
{
    if m == 0 {
        proof {
            assert(out@ + dec_digits(0) =~= out@);
        }
        return ;
    }
    proof {
        lemma_div_decreases(m as int, 10);
        lemma_fundamental_div_mod(m as int, 10);
    }
    let q = m / 10;
    let d = (m % 10) as u8;
    push_digits(out, q);
    out.push(0x30 + d);
    proof {
        assert(out@ =~= old(out)@ + dec_digits(m as int));
    }
}

/// Appends the canonical decimal encoding of `n` to `out`.
pub fn write_u64_dec(out: &mut Vec<u8>, n: u64)
    ensures
        final(out)@ == old(out)@ + dec_u64(n as int),
{
    if n == 0 {
        out.push(0x30);
        proof {
            assert(out@ =~= old(out)@ + dec_u64(0));
        }
    } else {
        push_digits(out, n);
    }
}

/// Is the byte a decimal digit?
pub open spec fn is_digit(c: u8) -> bool {
    0x30 <= c <= 0x39
}

/// Reads decimal digits from position `i` with the value read so far in
/// `v`, stopping before the first non-digit; fails when the value would
/// exceed `u64::MAX`.
pub open spec fn spec_parse_dec_loop(b: Seq<u8>, i: int, v: int) -> Option<(int, int)>
    decreases b.len() - i,
{
    if i < 0 || i >= b.len() || !is_digit(b[i]) {
        Some((v, i))
    } else {
        let d = b[i] - 0x30;
        if v * 10 + d > u64::MAX {
            None
        } else {
            spec_parse_dec_loop(b, i + 1, v * 10 + d)
        }
    }
}

/// Parses a canonical non-negative decimal at position `i`: a lone zero,
/// or a nonzero leading digit followed by more digits.
pub open spec fn spec_parse_u64_at(b: Seq<u8>, i: int) -> Option<(int, int)> {
    if i < 0 || i >= b.len() || !is_digit(b[i]) {
        None
    } else if b[i] == 0x30 {
        Some((0, i + 1))
    } else {
        spec_parse_dec_loop(b, i, 0)
    }
}

/// Exec mirror of [`spec_parse_u64_at`].
pub fn parse_u64_at(b: &[u8], start: usize) -> (r: Option<(u64, usize)>)
    ensures
        match spec_parse_u64_at(b@, start as int) {
            Some((v, j)) => r is Some && r.unwrap().0 == v && r.unwrap().1 == j,
            None => r is None,
        },
{
    if start >= b.len() {
        return None;
    }
    let c0 = b[start];
    if !(0x30 <= c0 && c0 <= 0x39) {
        return None;
    }
    if c0 == 0x30 {
        return Some((0, start + 1));
    }
    let mut v: u64 = 0;
    let mut i = start;
    loop
        invariant
            start < b@.len(),
            is_digit(b@[start as int]),
            b@[start as int] != 0x30,
            start <= i <= b@.len(),
            spec_parse_dec_loop(b@, start as int, 0) == spec_parse_dec_loop(b@, i as int, v as int),
        decreases b@.len() - i,
    {
        if i >= b.len() {
            return Some((v, i));
        }
        let c = b[i];
        if !(0x30 <= c && c <= 0x39) {
            return Some((v, i));
        }
        let d = (c - 0x30) as u64;
        if v > (u64::MAX - d) / 10 {
            proof {
                lemma_fundamental_div_mod((u64::MAX - d) as int, 10);
            }
            return None;
        }
        proof {
            lemma_fundamental_div_mod((u64::MAX - d) as int, 10);
        }
        v = v * 10 + d;
        i = i + 1;
    }
}

/// Does `b` hold exactly `pat` at position `i`?
pub open spec fn match_at(b: Seq<u8>, i: int, pat: Seq<u8>) -> bool {
    &&& 0 <= i
    &&& i + pat.len() <= b.len()
    &&& b.subrange(i, i + pat.len()) == pat
}

/// Exec check of [`match_at`]; on success yields the position just past
/// the matched pattern.
pub fn expect_at(b: &[u8], i: usize, pat: &[u8]) -> (r: Option<usize>)
    ensures
        r is Some <==> match_at(b@, i as int, pat@),
        r is Some ==> r.unwrap() == i + pat@.len(),
{
    if i > b.len() || pat.len() > b.len() - i {
        proof {
            assert(!match_at(b@, i as int, pat@));
        }
        return None;
    }
    let mut j: usize = 0;
    while j < pat.len()
        invariant
            b@.len() <= usize::MAX,
            i + pat@.len() <= b@.len(),
            j <= pat@.len(),
            forall|k: int| 0 <= k < j ==> b@[i + k] == pat@[k],
        decreases pat@.len() - j,
    {
        if b[i + j] != pat[j] {
            proof {
                assert(b@.subrange(i as int, i + pat@.len())[j as int] == b@[i + j]);
                assert(!match_at(b@, i as int, pat@));
            }
            return None;
        }
        j = j + 1;
    }
    proof {
        assert(b@.subrange(i as int, i + pat@.len()) =~= pat@);
    }
    Some(i + pat.len())
}

// ----------------------------------------------------------------------
// The canonical object shapes of the payloads that ride inside envelopes.
// ----------------------------------------------------------------------

/// The JSON literal of a bool.
pub open spec fn spec_bool_lit(v: bool) -> Seq<u8> {
    if v {
        seq![0x74u8, 0x72, 0x75, 0x65]  // true
    } else {
        seq![0x66u8, 0x61, 0x6c, 0x73, 0x65]  // false
    }
}

/// `{"time":<t>}`: the payload of a ping and of a plain pong.
pub open spec fn spec_time_obj(t: int) -> Seq<u8> {
    seq![0x7bu8, 0x22, 0x74, 0x69, 0x6d, 0x65, 0x22, 0x3a] + dec_u64(t) + seq![0x7du8]
}

pub open spec fn spec_parse_time_obj(b: Seq<u8>) -> Option<int> {
    if !match_at(b, 0, seq![0x7bu8, 0x22, 0x74, 0x69, 0x6d, 0x65, 0x22, 0x3a]) {
        None
    } else {
        match spec_parse_u64_at(b, 8) {
            None => None,
            Some((v, i)) => {
                if 0 <= i < b.len() && b[i] == 0x7d && i + 1 == b.len() {
                    Some(v)
                } else {
                    None
                }
            },
        }
    }
}

/// `{"time":<t>,"authorization_code":null}`: the pong a peer answers with
/// when it carries no credential.
pub open spec fn spec_time_auth_null_obj(t: int) -> Seq<u8> {
    seq![0x7bu8, 0x22, 0x74, 0x69, 0x6d, 0x65, 0x22, 0x3a] + dec_u64(t) + seq![
        0x2cu8, 0x22, 0x61, 0x75, 0x74, 0x68, 0x6f, 0x72, 0x69, 0x7a, 0x61, 0x74, 0x69, 0x6f,
        0x6e, 0x5f, 0x63, 0x6f, 0x64, 0x65, 0x22, 0x3a, 0x6e, 0x75, 0x6c, 0x6c, 0x7d,
    ]
}

/// `{"<key>":"<v>"}`: an object of one string field.
pub open spec fn spec_str_field_obj(key: Seq<u8>, v: Seq<u8>) -> Seq<u8> {
    seq![0x7bu8, 0x22] + key + seq![0x22u8, 0x3a] + spec_json_string(v) + seq![0x7du8]
}

pub open spec fn spec_parse_str_field_obj(key: Seq<u8>, b: Seq<u8>) -> Option<Seq<u8>> {
    let head = seq![0x7bu8, 0x22] + key + seq![0x22u8, 0x3a, 0x22];
    if !match_at(b, 0, head) {
        None
    } else {
        match spec_parse_string_body(b, head.len() as int, Seq::empty()) {
            None => None,
            Some((v, i)) => {
                if 0 <= i < b.len() && b[i] == 0x7d && i + 1 == b.len() {
                    Some(v)
                } else {
                    None
                }
            },
        }
    }
}

/// `{"ok":<ok>,"error":"<err>"}`: the payload of both acknowledgment
/// responses.
pub open spec fn spec_ok_error_obj(ok: bool, err: Seq<u8>) -> Seq<u8> {
    seq![0x7bu8, 0x22, 0x6f, 0x6b, 0x22, 0x3a] + spec_bool_lit(ok) + seq![
        0x2cu8, 0x22, 0x65, 0x72, 0x72, 0x6f, 0x72, 0x22, 0x3a,
    ] + spec_json_string(err) + seq![0x7du8]
}

/// `{"action":<a>,"code":<c>,"token":"<t>"}`: the payload of a pushed
/// media-key event.
pub open spec fn spec_key_event_obj(action: int, code: int, token: Seq<u8>) -> Seq<u8> {
    seq![0x7bu8, 0x22, 0x61, 0x63, 0x74, 0x69, 0x6f, 0x6e, 0x22, 0x3a] + dec_u64(action) + seq![
        0x2cu8, 0x22, 0x63, 0x6f, 0x64, 0x65, 0x22, 0x3a,
    ] + dec_u64(code) + seq![0x2cu8, 0x22, 0x74, 0x6f, 0x6b, 0x65, 0x6e, 0x22, 0x3a]
        + spec_json_string(token) + seq![0x7du8]
}

/// `{"action":<a>,"code":<c>,"token":"<t>","authorization_code":"<s>"}`:
/// the payload of a control request, credential included.
pub open spec fn spec_key_event_auth_obj(
    action: int,
    code: int,
    token: Seq<u8>,
    auth: Seq<u8>,
) -> Seq<u8> {
    seq![0x7bu8, 0x22, 0x61, 0x63, 0x74, 0x69, 0x6f, 0x6e, 0x22, 0x3a] + dec_u64(action) + seq![
        0x2cu8, 0x22, 0x63, 0x6f, 0x64, 0x65, 0x22, 0x3a,
    ] + dec_u64(code) + seq![0x2cu8, 0x22, 0x74, 0x6f, 0x6b, 0x65, 0x6e, 0x22, 0x3a]
        + spec_json_string(token) + seq![
        0x2cu8, 0x22, 0x61, 0x75, 0x74, 0x68, 0x6f, 0x72, 0x69, 0x7a, 0x61, 0x74, 0x69, 0x6f,
        0x6e, 0x5f, 0x63, 0x6f, 0x64, 0x65, 0x22, 0x3a,
    ] + spec_json_string(auth) + seq![0x7du8]
}

pub open spec fn spec_parse_key_event_auth_obj(b: Seq<u8>) -> Option<(int, int, Seq<u8>, Seq<u8>)> {
    if !match_at(b, 0, seq![0x7bu8, 0x22, 0x61, 0x63, 0x74, 0x69, 0x6f, 0x6e, 0x22, 0x3a]) {
        None
    } else {
        match spec_parse_u64_at(b, 10) {
            None => None,
            Some((action, i1)) => {
                if action > u32::MAX {
                    None
                } else if !match_at(b, i1, seq![0x2cu8, 0x22, 0x63, 0x6f, 0x64, 0x65, 0x22, 0x3a]) {
                    None
                } else {
                    match spec_parse_u64_at(b, i1 + 8) {
                        None => None,
                        Some((code, i2)) => {
                            if code > u32::MAX {
                                None
                            } else if !match_at(
                                b,
                                i2,
                                seq![
                                    0x2cu8, 0x22, 0x74, 0x6f, 0x6b, 0x65, 0x6e, 0x22, 0x3a, 0x22,
                                ],
                            ) {
                                None
                            } else {
                                match spec_parse_string_body(b, i2 + 10, Seq::empty()) {
                                    None => None,
                                    Some((token, i3)) => {
                                        if !match_at(
                                            b,
                                            i3,
                                            seq![
                                                0x2cu8, 0x22, 0x61, 0x75, 0x74, 0x68, 0x6f, 0x72,
                                                0x69, 0x7a, 0x61, 0x74, 0x69, 0x6f, 0x6e, 0x5f,
                                                0x63, 0x6f, 0x64, 0x65, 0x22, 0x3a, 0x22,
                                            ],
                                        ) {
                                            None
                                        } else {
                                            match spec_parse_string_body(
                                                b,
                                                i3 + 23,
                                                Seq::empty(),
                                            ) {
                                                None => None,
                                                Some((auth, i4)) => {
                                                    if 0 <= i4 < b.len() && b[i4] == 0x7d && i4 + 1
                                                        == b.len() {
                                                        Some((action, code, token, auth))
                                                    } else {
                                                        None
                                                    }
                                                },
                                            }
                                        }
                                    },
                                }
                            }
                        },
                    }
                }
            },
        }
    }
}

/// Exec mirror of [`spec_time_obj`].
pub fn write_time_obj(t: u64) -> (r: Vec<u8>)
    ensures
        r@ == spec_time_obj(t as int),
{
    let mut out: Vec<u8> = vec![0x7b, 0x22, 0x74, 0x69, 0x6d, 0x65, 0x22, 0x3a];
    proof {
        assert(out@ =~= seq![0x7bu8, 0x22, 0x74, 0x69, 0x6d, 0x65, 0x22, 0x3a]);
    }
    write_u64_dec(&mut out, t);
    out.push(0x7d);
    proof {
        assert(out@ =~= spec_time_obj(t as int));
    }
    out
}

/// Exec mirror of [`spec_parse_time_obj`].
pub fn parse_time_obj(b: &[u8]) -> (r: Option<u64>)
    ensures
        match spec_parse_time_obj(b@) {
            Some(v) => r is Some && r.unwrap() == v,
            None => r is None,
        },
{
    let head: Vec<u8> = vec![0x7b, 0x22, 0x74, 0x69, 0x6d, 0x65, 0x22, 0x3a];
    proof {
        assert(head@ =~= seq![0x7bu8, 0x22, 0x74, 0x69, 0x6d, 0x65, 0x22, 0x3a]);
    }
    let i0 = match expect_at(b, 0, head.as_slice()) {
        Some(i) => i,
        None => {
            return None;
        },
    };
    let (v, i1) = match parse_u64_at(b, i0) {
        Some(p) => p,
        None => {
            return None;
        },
    };
    if i1 < b.len() && b[i1] == 0x7d && i1 + 1 == b.len() {
        Some(v)
    } else {
        None
    }
}

/// Exec mirror of [`spec_time_auth_null_obj`].
pub fn write_time_auth_null_obj(t: u64) -> (r: Vec<u8>)
    ensures
        r@ == spec_time_auth_null_obj(t as int),
{
    let mut out: Vec<u8> = vec![0x7b, 0x22, 0x74, 0x69, 0x6d, 0x65, 0x22, 0x3a];
    proof {
        assert(out@ =~= seq![0x7bu8, 0x22, 0x74, 0x69, 0x6d, 0x65, 0x22, 0x3a]);
    }
    write_u64_dec(&mut out, t);
    let tail: Vec<u8> = vec![
        0x2c, 0x22, 0x61, 0x75, 0x74, 0x68, 0x6f, 0x72, 0x69, 0x7a, 0x61, 0x74, 0x69, 0x6f,
        0x6e, 0x5f, 0x63, 0x6f, 0x64, 0x65, 0x22, 0x3a, 0x6e, 0x75, 0x6c, 0x6c, 0x7d,
    ];
    out.extend_from_slice(tail.as_slice());
    proof {
        assert(out@ =~= spec_time_auth_null_obj(t as int));
    }
    out
}

/// Exec mirror of [`spec_str_field_obj`].
pub fn write_str_field_obj(key: &[u8], v: &[u8]) -> (r: Vec<u8>)
    ensures
        r@ == spec_str_field_obj(key@, v@),
{
    let mut out: Vec<u8> = vec![0x7b, 0x22];
    out.extend_from_slice(key);
    out.push(0x22);
    out.push(0x3a);
    json_string_into(&mut out, v);
    out.push(0x7d);
    proof {
        assert(out@ =~= spec_str_field_obj(key@, v@));
    }
    out
}

/// Exec mirror of [`spec_parse_str_field_obj`]; yields the raw (unescaped)
/// bytes of the field value.
pub fn parse_str_field_obj(key: &[u8], b: &[u8]) -> (r: Option<Vec<u8>>)
    ensures
        match spec_parse_str_field_obj(key@, b@) {
            Some(v) => r is Some && r.unwrap()@ == v,
            None => r is None,
        },
{
    let mut head: Vec<u8> = vec![0x7b, 0x22];
    head.extend_from_slice(key);
    head.push(0x22);
    head.push(0x3a);
    head.push(0x22);
    proof {
        assert(head@ =~= seq![0x7bu8, 0x22] + key@ + seq![0x22u8, 0x3a, 0x22]);
    }
    let i0 = match expect_at(b, 0, head.as_slice()) {
        Some(i) => i,
        None => {
            return None;
        },
    };
    let (v, i1) = match parse_string_body(b, i0) {
        Some(p) => p,
        None => {
            return None;
        },
    };
    if i1 < b.len() && b[i1] == 0x7d && i1 + 1 == b.len() {
        Some(v)
    } else {
        None
    }
}

/// Exec mirror of [`spec_ok_error_obj`].
pub fn write_ok_error_obj(ok: bool, err: &[u8]) -> (r: Vec<u8>)
    ensures
        r@ == spec_ok_error_obj(ok, err@),
{
    let mut out: Vec<u8> = vec![0x7b, 0x22, 0x6f, 0x6b, 0x22, 0x3a];
    proof {
        assert(out@ =~= seq![0x7bu8, 0x22, 0x6f, 0x6b, 0x22, 0x3a]);
    }
    if ok {
        let lit: Vec<u8> = vec![0x74, 0x72, 0x75, 0x65];
        out.extend_from_slice(lit.as_slice());
    } else {
        let lit: Vec<u8> = vec![0x66, 0x61, 0x6c, 0x73, 0x65];
        out.extend_from_slice(lit.as_slice());
    }
    proof {
        assert(out@ =~= seq![0x7bu8, 0x22, 0x6f, 0x6b, 0x22, 0x3a] + spec_bool_lit(ok));
    }
    let key: Vec<u8> = vec![0x2c, 0x22, 0x65, 0x72, 0x72, 0x6f, 0x72, 0x22, 0x3a];
    out.extend_from_slice(key.as_slice());
    json_string_into(&mut out, err);
    out.push(0x7d);
    proof {
        assert(out@ =~= spec_ok_error_obj(ok, err@));
    }
    out
}

/// Exec mirror of [`spec_key_event_obj`].
pub fn write_key_event_obj(action: u32, code: u32, token: &[u8]) -> (r: Vec<u8>)
    ensures
        r@ == spec_key_event_obj(action as int, code as int, token@),
{
    let mut out: Vec<u8> = vec![0x7b, 0x22, 0x61, 0x63, 0x74, 0x69, 0x6f, 0x6e, 0x22, 0x3a];
    proof {
        assert(out@ =~= seq![0x7bu8, 0x22, 0x61, 0x63, 0x74, 0x69, 0x6f, 0x6e, 0x22, 0x3a]);
    }
    write_u64_dec(&mut out, action as u64);
    let key1: Vec<u8> = vec![0x2c, 0x22, 0x63, 0x6f, 0x64, 0x65, 0x22, 0x3a];
    out.extend_from_slice(key1.as_slice());
    write_u64_dec(&mut out, code as u64);
    let key2: Vec<u8> = vec![0x2c, 0x22, 0x74, 0x6f, 0x6b, 0x65, 0x6e, 0x22, 0x3a];
    out.extend_from_slice(key2.as_slice());
    json_string_into(&mut out, token);
    out.push(0x7d);
    proof {
        assert(out@ =~= spec_key_event_obj(action as int, code as int, token@));
    }
    out
}

/// Exec mirror of [`spec_key_event_auth_obj`].
pub fn write_key_event_auth_obj(action: u32, code: u32, token: &[u8], auth: &[u8]) -> (r: Vec<u8>)
    ensures
        r@ == spec_key_event_auth_obj(action as int, code as int, token@, auth@),
{
    let mut out: Vec<u8> = vec![0x7b, 0x22, 0x61, 0x63, 0x74, 0x69, 0x6f, 0x6e, 0x22, 0x3a];
    proof {
        assert(out@ =~= seq![0x7bu8, 0x22, 0x61, 0x63, 0x74, 0x69, 0x6f, 0x6e, 0x22, 0x3a]);
    }
    write_u64_dec(&mut out, action as u64);
    let key1: Vec<u8> = vec![0x2c, 0x22, 0x63, 0x6f, 0x64, 0x65, 0x22, 0x3a];
    out.extend_from_slice(key1.as_slice());
    write_u64_dec(&mut out, code as u64);
    let key2: Vec<u8> = vec![0x2c, 0x22, 0x74, 0x6f, 0x6b, 0x65, 0x6e, 0x22, 0x3a];
    out.extend_from_slice(key2.as_slice());
    json_string_into(&mut out, token);
    let key3: Vec<u8> = vec![
        0x2c, 0x22, 0x61, 0x75, 0x74, 0x68, 0x6f, 0x72, 0x69, 0x7a, 0x61, 0x74, 0x69, 0x6f,
        0x6e, 0x5f, 0x63, 0x6f, 0x64, 0x65, 0x22, 0x3a,
    ];
    out.extend_from_slice(key3.as_slice());
    json_string_into(&mut out, auth);
    out.push(0x7d);
    proof {
        assert(out@ =~= spec_key_event_auth_obj(action as int, code as int, token@, auth@));
    }
    out
}

/// Exec mirror of [`spec_parse_key_event_auth_obj`]; yields the action,
/// the key code, and the raw bytes of the token and of the credential.
pub fn parse_key_event_auth_obj(b: &[u8]) -> (r: Option<(u32, u32, Vec<u8>, Vec<u8>)>)
    ensures
        match spec_parse_key_event_auth_obj(b@) {
            Some((a, c, tk, au)) => r is Some && r.unwrap().0 == a && r.unwrap().1 == c
                && r.unwrap().2@ == tk && r.unwrap().3@ == au,
            None => r is None,
        },
{
    let head: Vec<u8> = vec![0x7b, 0x22, 0x61, 0x63, 0x74, 0x69, 0x6f, 0x6e, 0x22, 0x3a];
    proof {
        assert(head@ =~= seq![0x7bu8, 0x22, 0x61, 0x63, 0x74, 0x69, 0x6f, 0x6e, 0x22, 0x3a]);
    }
    let i0 = match expect_at(b, 0, head.as_slice()) {
        Some(i) => i,
        None => {
            return None;
        },
    };
    let (action, i1) = match parse_u64_at(b, i0) {
        Some(p) => p,
        None => {
            return None;
        },
    };
    if action > u32::MAX as u64 {
        return None;
    }
    let key1: Vec<u8> = vec![0x2c, 0x22, 0x63, 0x6f, 0x64, 0x65, 0x22, 0x3a];
    proof {
        assert(key1@ =~= seq![0x2cu8, 0x22, 0x63, 0x6f, 0x64, 0x65, 0x22, 0x3a]);
    }
    let i2 = match expect_at(b, i1, key1.as_slice()) {
        Some(i) => i,
        None => {
            return None;
        },
    };
    let (code, i3) = match parse_u64_at(b, i2) {
        Some(p) => p,
        None => {
            return None;
        },
    };
    if code > u32::MAX as u64 {
        return None;
    }
    let key2: Vec<u8> = vec![0x2c, 0x22, 0x74, 0x6f, 0x6b, 0x65, 0x6e, 0x22, 0x3a, 0x22];
    proof {
        assert(key2@ =~= seq![0x2cu8, 0x22, 0x74, 0x6f, 0x6b, 0x65, 0x6e, 0x22, 0x3a, 0x22]);
    }
    let i4 = match expect_at(b, i3, key2.as_slice()) {
        Some(i) => i,
        None => {
            return None;
        },
    };
    let (token, i5) = match parse_string_body(b, i4) {
        Some(p) => p,
        None => {
            return None;
        },
    };
    let key3: Vec<u8> = vec![
        0x2c, 0x22, 0x61, 0x75, 0x74, 0x68, 0x6f, 0x72, 0x69, 0x7a, 0x61, 0x74, 0x69, 0x6f,
        0x6e, 0x5f, 0x63, 0x6f, 0x64, 0x65, 0x22, 0x3a, 0x22,
    ];
    proof {
        assert(key3@ =~= seq![
            0x2cu8, 0x22, 0x61, 0x75, 0x74, 0x68, 0x6f, 0x72, 0x69, 0x7a, 0x61, 0x74, 0x69,
            0x6f, 0x6e, 0x5f, 0x63, 0x6f, 0x64, 0x65, 0x22, 0x3a, 0x22,
        ]);
    }
    let i6 = match expect_at(b, i5, key3.as_slice()) {
        Some(i) => i,
        None => {
            return None;
        },
    };
    let (auth, i7) = match parse_string_body(b, i6) {
        Some(p) => p,
        None => {
            return None;
        },
    };
    if i7 < b.len() && b[i7] == 0x7d && i7 + 1 == b.len() {
        Some((action as u32, code as u32, token, auth))
    } else {
        None
    }
}

/// `{"time":<t>,"authorization_code":"<s>"}`: the pong of a peer that
/// carries a credential.
pub open spec fn spec_time_auth_some_obj(t: int, s: Seq<u8>) -> Seq<u8> {
    seq![0x7bu8, 0x22, 0x74, 0x69, 0x6d, 0x65, 0x22, 0x3a] + dec_u64(t) + seq![
        0x2cu8, 0x22, 0x61, 0x75, 0x74, 0x68, 0x6f, 0x72, 0x69, 0x7a, 0x61, 0x74, 0x69, 0x6f,
        0x6e, 0x5f, 0x63, 0x6f, 0x64, 0x65, 0x22, 0x3a,
    ] + spec_json_string(s) + seq![0x7du8]
}

/// Exec mirror of [`spec_time_auth_some_obj`].
pub fn write_time_auth_some_obj(t: u64, s: &[u8]) -> (r: Vec<u8>)
    ensures
        r@ == spec_time_auth_some_obj(t as int, s@),
{
    let mut out: Vec<u8> = vec![0x7b, 0x22, 0x74, 0x69, 0x6d, 0x65, 0x22, 0x3a];
    proof {
        assert(out@ =~= seq![0x7bu8, 0x22, 0x74, 0x69, 0x6d, 0x65, 0x22, 0x3a]);
    }
    write_u64_dec(&mut out, t);
    let key: Vec<u8> = vec![
        0x2c, 0x22, 0x61, 0x75, 0x74, 0x68, 0x6f, 0x72, 0x69, 0x7a, 0x61, 0x74, 0x69, 0x6f,
        0x6e, 0x5f, 0x63, 0x6f, 0x64, 0x65, 0x22, 0x3a,
    ];
    out.extend_from_slice(key.as_slice());
    json_string_into(&mut out, s);
    out.push(0x7d);
    proof {
        assert(out@ =~= spec_time_auth_some_obj(t as int, s@));
    }
    out
}

/// An escaped byte takes at most six bytes, so an escaped string takes at
/// most six times its length.
pub proof fn lemma_esc_len(b: Seq<u8>)
    ensures
        esc(b).len() <= 6 * b.len(),
    decreases b.len(),
{
    if b.len() > 0 {
        lemma_esc_len(b.skip(1));
    }
}

/// Ten to the `k`.
pub open spec fn pow10(k: nat) -> int
    decreases k,
{
    if k == 0 {
        1
    } else {
        10 * pow10((k - 1) as nat)
    }
}

pub proof fn lemma_dec_digits_len(n: int, k: nat)
    requires
        0 <= n < pow10(k),
    ensures
        dec_digits(n).len() <= k,
    decreases k,
{
    if n > 0 {
        if k == 0 {
            assert(false);
        } else {
            assert(n / 10 < pow10((k - 1) as nat)) by {
                lemma_multiply_divide_lt(n, pow10((k - 1) as nat), 10);
            }
            assert(n / 10 >= 0) by {
                vstd::arithmetic::div_mod::lemma_div_pos_is_pos(n, 10);
            }
            lemma_dec_digits_len(n / 10, (k - 1) as nat);
        }
    }
}

/// The canonical decimal encoding of a value a `u64` can hold takes at
/// most 20 bytes.
pub proof fn lemma_dec_u64_len(n: int)
    requires
        0 <= n <= u64::MAX,
    ensures
        1 <= dec_u64(n).len() <= 20,
{
    assert(pow10(0) == 1);
    assert(pow10(1) == 10);
    assert(pow10(2) == 100);
    assert(pow10(3) == 1000);
    assert(pow10(4) == 10000);
    assert(pow10(5) == 100000);
    assert(pow10(6) == 1000000);
    assert(pow10(7) == 10000000);
    assert(pow10(8) == 100000000);
    assert(pow10(9) == 1000000000);
    assert(pow10(10) == 10000000000);
    assert(pow10(11) == 100000000000);
    assert(pow10(12) == 1000000000000);
    assert(pow10(13) == 10000000000000);
    assert(pow10(14) == 100000000000000);
    assert(pow10(15) == 1000000000000000);
    assert(pow10(16) == 10000000000000000);
    assert(pow10(17) == 100000000000000000);
    assert(pow10(18) == 1000000000000000000);
    assert(pow10(19) == 10000000000000000000);
    assert(pow10(20) == 100000000000000000000);
    lemma_dec_digits_len(n, 20);
    if n > 0 {
        assert(dec_digits(n).len() >= 1);
    }
}

/// Byte-for-byte equality of two slices.
pub fn bytes_eq(a: &[u8], b: &[u8]) -> (r: bool)
    ensures
        r == (a@ == b@),
{
    if a.len() != b.len() {
        proof {
            assert(a@ != b@);
        }
        return false;
    }
    let mut j: usize = 0;
    while j < a.len()
        invariant
            a@.len() == b@.len(),
            j <= a@.len(),
            forall|k: int| 0 <= k < j ==> a@[k] == b@[k],
        decreases a@.len() - j,
    {
        if a[j] != b[j] {
            return false;
        }
        j = j + 1;
    }
    proof {
        assert(a@ =~= b@);
    }
    true
}

pub proof fn lemma_hex_digit_value(x: int)
    requires
        0 <= x < 16,
    ensures
        hex_value(hex_digit(x)) == x,
{
}

/// Escaping round trip: when the buffer holds, from position `i`, exactly
/// the escaped form of `s` followed by the closing quote, the string
/// parser recovers `s` and stops just past the quote.
pub proof fn lemma_parse_esc_string(buf: Seq<u8>, i: int, acc: Seq<u8>, s: Seq<u8>)
    requires
        0 <= i,
        i + esc(s).len() + 1 <= buf.len(),
        buf.subrange(i, i + esc(s).len() + 1) == esc(s) + seq![0x22u8],
    ensures
        spec_parse_string_body(buf, i, acc) == Some((acc + s, i + esc(s).len() + 1)),
    decreases s.len(),
{
    let sub = buf.subrange(i, i + esc(s).len() + 1);
    if s.len() == 0 {
        assert(esc(s).len() == 0);
        assert(buf[i] == sub[0]);
        assert(buf[i] == 0x22);
        assert(acc + s =~= acc);
    } else {
        let c = s[0];
        let rest = s.skip(1);
        assert(esc(s) == esc_byte(c) + esc(rest));
        let el = esc_byte(c).len() as int;
        assert forall|k: int| 0 <= k < el implies buf[i + k] == esc_byte(c)[k] by {
            assert(sub[k] == buf[i + k]);
            assert(sub[k] == esc(s)[k]);
            assert(esc(s)[k] == esc_byte(c)[k]);
        }
        assert(buf.subrange(i + el, i + el + esc(rest).len() + 1) =~= esc(rest) + seq![
            0x22u8,
        ]) by {
            assert forall|k: int| 0 <= k < esc(rest).len() + 1 implies buf.subrange(
                i + el,
                i + el + esc(rest).len() + 1,
            )[k] == (esc(rest) + seq![0x22u8])[k] by {
                assert(buf.subrange(i + el, i + el + esc(rest).len() + 1)[k] == buf[i + el + k]);
                assert(buf[i + el + k] == sub[el + k]);
                if k < esc(rest).len() {
                    assert(sub[el + k] == esc(s)[el + k]);
                    assert(esc(s)[el + k] == esc(rest)[k]);
                } else {
                    assert(sub[el + k] == 0x22);
                }
            }
        }
        lemma_parse_esc_string(buf, i + el, acc.push(c), rest);
        assert(acc.push(c) + rest =~= acc + s);
        if c == 0x22 || c == 0x5c || c == 0x08 || c == 0x09 || c == 0x0a || c == 0x0c || c
            == 0x0d {
            assert(buf[i] == 0x5c);
        } else if c < 0x20 {
            assert(buf[i] == 0x5c && buf[i + 1] == 0x75);
            assert(buf[i + 2] == 0x30 && buf[i + 3] == 0x30);
            assert(buf[i + 4] == hex_digit(c as int / 16));
            assert(buf[i + 5] == hex_digit(c as int % 16));
            assert(0 <= c as int / 16 < 16) by {
                assert(c < 0x20);
            }
            lemma_hex_digit_value(c as int / 16);
            lemma_hex_digit_value(c as int % 16);
            lemma_fundamental_div_mod(c as int, 16);
            let v = hex_value(buf[i + 2]) * 0x1000 + hex_value(buf[i + 3]) * 0x100 + hex_value(
                buf[i + 4],
            ) * 16 + hex_value(buf[i + 5]);
            assert(hex_value(0x30) == 0);
            assert(v == c);
            assert(acc.push(v as u8) == acc.push(c));
        } else {
            assert(buf[i + 0] == esc_byte(c)[0]);
            assert(buf[i] == c);
            assert(c != 0x22 && c != 0x5c && c >= 0x20);
        }
    }
}

/// Every byte of a run is a decimal digit.
pub open spec fn all_digits(ds: Seq<u8>) -> bool {
    forall|k: int| 0 <= k < ds.len() ==> is_digit(#[trigger] ds[k])
}

/// The value the decimal parser accumulates over a run of digit bytes.
pub open spec fn digits_value(v: int, ds: Seq<u8>) -> int
    decreases ds.len(),
{
    if ds.len() == 0 {
        v
    } else {
        digits_value(v * 10 + (ds[0] - 0x30), ds.skip(1))
    }
}

proof fn lemma_digits_value_lower(v: int, ds: Seq<u8>)
    requires
        0 <= v,
        all_digits(ds),
    ensures
        digits_value(v, ds) >= v,
    decreases ds.len(),
{
    if ds.len() > 0 {
        assert(is_digit(ds[0]));
        assert(all_digits(ds.skip(1))) by {
            assert(forall|k: int| 0 <= k < ds.skip(1).len() ==> ds.skip(1)[k] == ds[k + 1]);
        }
        lemma_digits_value_lower(v * 10 + (ds[0] - 0x30), ds.skip(1));
    }
}

proof fn lemma_parse_dec_loop_run(buf: Seq<u8>, i: int, v: int, ds: Seq<u8>)
    requires
        0 <= i,
        0 <= v,
        i + ds.len() <= buf.len(),
        buf.subrange(i, i + ds.len()) == ds,
        all_digits(ds),
        i + ds.len() == buf.len() || !is_digit(buf[i + ds.len()]),
        digits_value(v, ds) <= u64::MAX,
    ensures
        spec_parse_dec_loop(buf, i, v) == Some((digits_value(v, ds), i + ds.len())),
    decreases ds.len(),
{
    if ds.len() == 0 {
    } else {
        assert(buf[i] == ds[0]) by {
            assert(buf.subrange(i, i + ds.len())[0] == buf[i]);
        }
        assert(is_digit(buf[i]));
        let d = buf[i] - 0x30;
        assert(all_digits(ds.skip(1))) by {
            assert(forall|k: int| 0 <= k < ds.skip(1).len() ==> ds.skip(1)[k] == ds[k + 1]);
        }
        assert(digits_value(v, ds) == digits_value(v * 10 + d, ds.skip(1)));
        lemma_digits_value_lower(v * 10 + d, ds.skip(1));
        assert(buf.subrange(i + 1, i + 1 + ds.skip(1).len()) =~= ds.skip(1)) by {
            assert forall|k: int|
                0 <= k < ds.skip(1).len() implies buf.subrange(
                i + 1,
                i + 1 + ds.skip(1).len(),
            )[k] == ds.skip(1)[k] by {
                assert(buf.subrange(i, i + ds.len())[k + 1] == buf[i + k + 1]);
                assert(buf.subrange(i + 1, i + 1 + ds.skip(1).len())[k] == buf[i + 1 + k]);
            }
        }
        lemma_parse_dec_loop_run(buf, i + 1, v * 10 + d, ds.skip(1));
    }
}

proof fn lemma_digits_value_push(v: int, ds: Seq<u8>, d: u8)
    ensures
        digits_value(v, ds.push(d)) == digits_value(v, ds) * 10 + (d - 0x30),
    decreases ds.len(),
{
    if ds.len() == 0 {
        assert(ds.push(d)[0] == d);
        assert(ds.push(d).skip(1) =~= ds);
        assert(digits_value(v * 10 + (d - 0x30), ds) == v * 10 + (d - 0x30));
        assert(digits_value(v, ds) == v);
    } else {
        assert(ds.push(d)[0] == ds[0]);
        assert(ds.push(d).skip(1) =~= ds.skip(1).push(d));
        lemma_digits_value_push(v * 10 + (ds[0] - 0x30), ds.skip(1), d);
    }
}

proof fn lemma_dec_digits_shape(m: int)
    requires
        0 <= m,
    ensures
        all_digits(dec_digits(m)),
        0 < m ==> dec_digits(m).len() >= 1 && dec_digits(m)[0] != 0x30,
    decreases m,
{
    if m > 0 {
        lemma_div_decreases(m, 10);
        lemma_div_pos_is_pos(m, 10);
        lemma_fundamental_div_mod(m, 10);
        let q = m / 10;
        lemma_dec_digits_shape(q);
        let prefix = dec_digits(q);
        let d = (0x30 + m % 10) as u8;
        assert(is_digit(d));
        assert(dec_digits(m) == prefix.push(d));
        assert(all_digits(prefix.push(d))) by {
            assert(forall|k: int|
                0 <= k < prefix.len() ==> prefix.push(d)[k] == prefix[k]);
            assert(prefix.push(d)[prefix.len() as int] == d);
        }
        if q == 0 {
            assert(prefix.len() == 0);
            assert(dec_digits(m)[0] == d);
            assert(m % 10 == m);
            assert(d != 0x30);
        } else {
            assert(dec_digits(m)[0] == prefix[0]);
        }
    }
}

proof fn lemma_digits_value_dec(v: int, m: int)
    requires
        0 <= v,
        0 <= m,
    ensures
        digits_value(v, dec_digits(m)) == v * pow10(dec_digits(m).len()) + m,
    decreases m,
{
    if m == 0 {
        assert(dec_digits(0).len() == 0);
        assert(pow10(0) == 1);
        assert(v * 1 == v) by (nonlinear_arith);
    } else {
        lemma_div_decreases(m, 10);
        lemma_div_pos_is_pos(m, 10);
        lemma_fundamental_div_mod(m, 10);
        let q = m / 10;
        let d = (0x30 + m % 10) as u8;
        assert(dec_digits(m) == dec_digits(q).push(d));
        lemma_digits_value_push(v, dec_digits(q), d);
        lemma_digits_value_dec(v, q);
        let small = dec_digits(q).len();
        assert(dec_digits(m).len() == small + 1);
        assert(pow10((small + 1) as nat) == 10 * pow10(small));
        assert((v * pow10(small) + q) * 10 + (m % 10) == v * pow10((small + 1) as nat) + m)
            by (nonlinear_arith)
            requires
                m == 10 * q + m % 10,
                pow10((small + 1) as nat) == 10 * pow10(small),
        {
        }
        assert(d - 0x30 == m % 10);
    }
}

/// Decimal round trip: at a position holding exactly the canonical
/// encoding of `n`, followed by a non-digit or the end, the number parser
/// recovers `n` and stops just past it.
pub proof fn lemma_parse_u64_round_trip(buf: Seq<u8>, i: int, n: int)
    requires
        0 <= i,
        0 <= n <= u64::MAX,
        i + dec_u64(n).len() <= buf.len(),
        buf.subrange(i, i + dec_u64(n).len()) == dec_u64(n),
        i + dec_u64(n).len() == buf.len() || !is_digit(buf[i + dec_u64(n).len()]),
    ensures
        spec_parse_u64_at(buf, i) == Some((n, i + dec_u64(n).len())),
{
    if n == 0 {
        assert(buf[i] == 0x30) by {
            assert(buf.subrange(i, i + 1)[0] == buf[i]);
        }
    } else {
        lemma_dec_digits_shape(n);
        assert(buf[i] == dec_digits(n)[0]) by {
            assert(buf.subrange(i, i + dec_digits(n).len())[0] == buf[i]);
        }
        lemma_digits_value_dec(0, n);
        assert(0 * pow10(dec_digits(n).len()) == 0) by (nonlinear_arith);
        lemma_parse_dec_loop_run(buf, i, 0, dec_digits(n));
    }
}

/// Round trip of the `{"time":<t>}` payload codec.
pub proof fn lemma_time_obj_round_trip(t: int)
    requires
        0 <= t <= u64::MAX,
    ensures
        spec_parse_time_obj(spec_time_obj(t)) == Some(t),
{
    let b = spec_time_obj(t);
    let dl = dec_u64(t).len() as int;
    assert(b.len() == 9 + dl);
    assert(b.subrange(0, 8) =~= seq![0x7bu8, 0x22, 0x74, 0x69, 0x6d, 0x65, 0x22, 0x3a]);
    assert(match_at(b, 0, seq![0x7bu8, 0x22, 0x74, 0x69, 0x6d, 0x65, 0x22, 0x3a]));
    assert(b.subrange(8, 8 + dl) =~= dec_u64(t));
    assert(b[8 + dl] == 0x7d);
    lemma_parse_u64_round_trip(b, 8, t);
}

/// Round trip of the one-string-field payload codec.
pub proof fn lemma_str_field_obj_round_trip(key: Seq<u8>, v: Seq<u8>)
    ensures
        spec_parse_str_field_obj(key, spec_str_field_obj(key, v)) == Some(v),
{
    let b = spec_str_field_obj(key, v);
    let head = seq![0x7bu8, 0x22] + key + seq![0x22u8, 0x3a, 0x22];
    let hl = key.len() as int + 5;
    assert(head.len() == hl);
    assert(b.len() == hl + esc(v).len() + 2);
    assert(b.subrange(0, hl) =~= head);
    assert(match_at(b, 0, head));
    assert(b.subrange(hl, hl + esc(v).len() + 1) =~= esc(v) + seq![0x22u8]);
    lemma_parse_esc_string(b, hl, Seq::empty(), v);
    assert(Seq::<u8>::empty() + v =~= v);
    assert(b[hl + esc(v).len() + 1] == 0x7d);
}

/// Round trip of the control-request payload codec.
#[verifier::rlimit(100)]
pub proof fn lemma_key_event_auth_round_trip(a: int, c: int, tk: Seq<u8>, au: Seq<u8>)
    requires
        0 <= a <= u32::MAX,
        0 <= c <= u32::MAX,
    ensures
        spec_parse_key_event_auth_obj(spec_key_event_auth_obj(a, c, tk, au)) == Some(
            (a, c, tk, au),
        ),
{
    let b = spec_key_event_auth_obj(a, c, tk, au);
    let da = dec_u64(a).len() as int;
    let dc = dec_u64(c).len() as int;
    let etk = esc(tk).len() as int;
    let eau = esc(au).len() as int;
    let i1 = 10 + da;
    let i2 = i1 + 8 + dc;
    let i4 = i2 + 10;
    let i5 = i4 + etk + 1;
    let i6 = i5 + 23;
    let j = i6 + eau + 1;
    assert(b.len() == j + 1);
    assert(b.subrange(0, 10) =~= seq![0x7bu8, 0x22, 0x61, 0x63, 0x74, 0x69, 0x6f, 0x6e, 0x22, 0x3a]);
    assert(match_at(b, 0, seq![0x7bu8, 0x22, 0x61, 0x63, 0x74, 0x69, 0x6f, 0x6e, 0x22, 0x3a]));
    assert(b.subrange(10, i1) =~= dec_u64(a));
    assert(b[i1] == 0x2c);
    lemma_parse_u64_round_trip(b, 10, a);
    assert(b.subrange(i1, i1 + 8) =~= seq![0x2cu8, 0x22, 0x63, 0x6f, 0x64, 0x65, 0x22, 0x3a]);
    assert(match_at(b, i1, seq![0x2cu8, 0x22, 0x63, 0x6f, 0x64, 0x65, 0x22, 0x3a]));
    assert(b.subrange(i1 + 8, i2) =~= dec_u64(c));
    assert(b[i2] == 0x2c);
    lemma_parse_u64_round_trip(b, i1 + 8, c);
    assert(b.subrange(i2, i4) =~= seq![0x2cu8, 0x22, 0x74, 0x6f, 0x6b, 0x65, 0x6e, 0x22, 0x3a, 0x22]);
    assert(match_at(b, i2, seq![0x2cu8, 0x22, 0x74, 0x6f, 0x6b, 0x65, 0x6e, 0x22, 0x3a, 0x22]));
    assert(b.subrange(i4, i4 + etk + 1) =~= esc(tk) + seq![0x22u8]);
    lemma_parse_esc_string(b, i4, Seq::empty(), tk);
    assert(Seq::<u8>::empty() + tk =~= tk);
    assert(b.subrange(i5, i6) =~= seq![
        0x2cu8, 0x22, 0x61, 0x75, 0x74, 0x68, 0x6f, 0x72, 0x69, 0x7a, 0x61, 0x74, 0x69, 0x6f,
        0x6e, 0x5f, 0x63, 0x6f, 0x64, 0x65, 0x22, 0x3a, 0x22,
    ]);
    assert(match_at(b, i5, seq![
        0x2cu8, 0x22, 0x61, 0x75, 0x74, 0x68, 0x6f, 0x72, 0x69, 0x7a, 0x61, 0x74, 0x69, 0x6f,
        0x6e, 0x5f, 0x63, 0x6f, 0x64, 0x65, 0x22, 0x3a, 0x22,
    ]));
    assert(b.subrange(i6, i6 + eau + 1) =~= esc(au) + seq![0x22u8]);
    lemma_parse_esc_string(b, i6, Seq::empty(), au);
    assert(Seq::<u8>::empty() + au =~= au);
    assert(b[j] == 0x7d);
}

/// Every byte is in the ASCII range.
pub open spec fn all_ascii(b: Seq<u8>) -> bool {
    forall|i: int| 0 <= i < b.len() ==> #[trigger] b[i] < 0x80
}

/// A sequence of ASCII bytes is valid UTF-8.
pub proof fn lemma_ascii_valid_utf8(b: Seq<u8>)
    requires
        all_ascii(b),
    ensures
        valid_utf8(b),
{
    assert(b.subrange(0, 0) =~= Seq::<u8>::empty());
    assert(valid_utf8(Seq::<u8>::empty()));
    assert(partial_valid_utf8(b, 0));
    partial_valid_utf8_extend_ascii_block(b, 0, b.len() as int);
    assert(b.subrange(0, b.len() as int) =~= b);
}

/// Escaping keeps ASCII text ASCII.
pub proof fn lemma_esc_ascii(b: Seq<u8>)
    requires
        all_ascii(b),
    ensures
        all_ascii(esc(b)),
    decreases b.len(),
{
    if b.len() > 0 {
        assert(all_ascii(b.skip(1))) by {
            assert(forall|k: int| 0 <= k < b.skip(1).len() ==> b.skip(1)[k] == b[k + 1]);
        }
        lemma_esc_ascii(b.skip(1));
        let c = b[0];
        assert(c < 0x80);
        assert(all_ascii(esc_byte(c))) by {
            if c < 0x20 && c != 0x22 && c != 0x5c && c != 0x08 && c != 0x09 && c != 0x0a && c
                != 0x0c && c != 0x0d {
                assert(hex_digit(c as int / 16) < 0x80);
                assert(hex_digit(c as int % 16) < 0x80);
            }
        }
        assert forall|i: int| 0 <= i < esc(b).len() implies esc(b)[i] < 0x80 by {
            if i < esc_byte(c).len() {
                assert(esc(b)[i] == esc_byte(c)[i]);
            } else {
                assert(esc(b)[i] == esc(b.skip(1))[i - esc_byte(c).len()]);
            }
        }
    }
}

/// Canonical decimals are ASCII.
pub proof fn lemma_dec_u64_ascii(n: int)
    requires
        0 <= n,
    ensures
        all_ascii(dec_u64(n)),
{
    lemma_dec_digits_shape(n);
}

/// The control-request payload built from ASCII token and credential is
/// ASCII throughout.
pub proof fn lemma_key_event_auth_obj_ascii(a: int, c: int, tk: Seq<u8>, au: Seq<u8>)
    requires
        0 <= a,
        0 <= c,
        all_ascii(tk),
        all_ascii(au),
    ensures
        all_ascii(spec_key_event_auth_obj(a, c, tk, au)),
{
    lemma_dec_u64_ascii(a);
    lemma_dec_u64_ascii(c);
    lemma_esc_ascii(tk);
    lemma_esc_ascii(au);
    let b = spec_key_event_auth_obj(a, c, tk, au);
    assert forall|i: int| 0 <= i < b.len() implies b[i] < 0x80 by {
    }
}

} // verus!
