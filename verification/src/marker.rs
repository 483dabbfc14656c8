//! The data block that an exported PDF carries at its end: a line
//! `%%DCPR-DATA:` followed by the form's JSON in base64. PDF readers skip
//! it as a comment; opening the PDF again reads the form back from it.

use vstd::prelude::*;
use vstd::utf8::{encode_utf8, decode_utf8, valid_utf8, is_ascii_chars};
use base64::Engine;
use crate::report::ReportData;
use crate::json::{to_json, from_json, spec_to_json, spec_text_from_json, spec_checks_from_json};

verus! {


/// The line prefix that marks the data block.
pub const MARKER: &'static str = "%%DCPR-DATA:";

/// The bytes of [`MARKER`].
pub open spec fn marker_seq() -> Seq<u8> {
    seq![37u8, 37u8, 68u8, 67u8, 80u8, 82u8, 45u8, 68u8, 65u8, 84u8, 65u8, 58u8]
}

/// [`marker_seq`] is the UTF-8 encoding of [`MARKER`].
pub proof fn lemma_marker_bytes()
    ensures
        encode_utf8(MARKER@) == marker_seq(),
{
    reveal_strlit("%%DCPR-DATA:");
    assert(is_ascii_chars(MARKER@));
    vstd::utf8::is_ascii_chars_encode_utf8(MARKER@);
    assert(encode_utf8(MARKER@) =~= marker_seq());
}

/// The line feed byte.
pub open spec fn newline() -> u8 {
    10u8
}

/// Whether `c` belongs to the standard base64 alphabet (padding included).
pub open spec fn is_b64_char(c: char) -> bool {
    ||| 'A' <= c <= 'Z'
    ||| 'a' <= c <= 'z'
    ||| '0' <= c <= '9'
    ||| c == '+'
    ||| c == '/'
    ||| c == '='
}

/// The length of the padded base64 text of `n` bytes.
pub open spec fn b64_len(n: nat) -> nat {
    (n / 3) * 4 + if n % 3 > 0 { 4nat } else { 0nat }
}

/// ASCII characters as bytes.
pub open spec fn ascii_bytes(s: Seq<char>) -> Seq<u8> {
    s.map_values(|c: char| c as u8)
}

/// The base64 digit for a 6-bit value (RFC 4648 standard alphabet).
pub open spec fn b64_digit(v: int) -> char {
    if v < 26 {
        (v + 65) as char
    } else if v < 52 {
        (v - 26 + 97) as char
    } else if v < 62 {
        (v - 52 + 48) as char
    } else if v == 62 {
        '+'
    } else {
        '/'
    }
}

/// The standard, padded base64 text of `b` (RFC 4648, section 4): each
/// group of three bytes becomes four digits of six bits each; a final group
/// of one or two bytes is filled out with zero bits and padded with `=`.
pub open spec fn b64_text(b: Seq<u8>) -> Seq<char>
    decreases b.len(),
{
    if b.len() == 0 {
        Seq::empty()
    } else if b.len() == 1 {
        seq![b64_digit(b[0] as int / 4), b64_digit((b[0] as int % 4) * 16), '=', '=']
    } else if b.len() == 2 {
        seq![b64_digit(b[0] as int / 4), b64_digit((b[0] % 4) * 16 + b[1] / 16), b64_digit((b[1] % 16) * 4), '=']
    } else {
        seq![
            b64_digit(b[0] as int / 4),
            b64_digit((b[0] % 4) * 16 + b[1] / 16),
            b64_digit((b[1] % 16) * 4 + b[2] / 64),
            b64_digit(b[2] as int % 64),
        ] + b64_text(b.skip(3))
    }
}

/// The base64 text of `b` has the padded length and only standard digits and `=`.
pub proof fn lemma_b64_text(b: Seq<u8>)
    ensures
        b64_text(b).len() == b64_len(b.len()),
        forall|i: int| 0 <= i < b64_text(b).len() ==> is_b64_char(#[trigger] b64_text(b)[i]),
    decreases b.len(),
{
    if b.len() >= 3 {
        lemma_b64_text(b.skip(3));
        let head = seq![
            b64_digit(b[0] as int / 4),
            b64_digit((b[0] % 4) * 16 + b[1] / 16),
            b64_digit((b[1] % 16) * 4 + b[2] / 64),
            b64_digit(b[2] as int % 64),
        ];
        assert(b64_text(b) == head + b64_text(b.skip(3)));
        assert forall|i: int| 0 <= i < b64_text(b).len() implies is_b64_char(#[trigger] b64_text(b)[i]) by {
            if i >= 4 {
                assert(b64_text(b)[i] == b64_text(b.skip(3))[i - 4]);
            }
        }
    }
}

/// The six-bit value of a standard base64 digit (RFC 4648, table 1): `A` to
/// `Z` are 0 to 25, `a` to `z` 26 to 51, `0` to `9` 52 to 61, `+` 62 and
/// `/` 63; anything else has none (-1).
pub open spec fn b64_value(c: char) -> int {
    if 'A' <= c <= 'Z' {
        c as int - 65
    } else if 'a' <= c <= 'z' {
        c as int - 71
    } else if '0' <= c <= '9' {
        c as int + 4
    } else if c == '+' {
        62
    } else if c == '/' {
        63
    } else {
        -1
    }
}

/// The digit for a six-bit value has that value.
pub proof fn lemma_b64_digit(v: int)
    requires
        0 <= v < 64,
    ensures
        b64_value(b64_digit(v)) == v,
        b64_digit(v) != '=',
{
}

/// The three bytes that four base64 digits starting at `4 * k` stand for.
pub open spec fn decode_group(t: Seq<char>, k: int) -> Seq<int> {
    let v0 = b64_value(t[4 * k]);
    let v1 = b64_value(t[4 * k + 1]);
    let v2 = b64_value(t[4 * k + 2]);
    let v3 = b64_value(t[4 * k + 3]);
    seq![v0 * 4 + v1 / 16, (v1 % 16) * 16 + v2 / 4, (v2 % 4) * 64 + v3]
}

/// The first group of three bytes decodes back from its four digits.
proof fn lemma_b64_head(b: Seq<u8>)
    requires
        b.len() >= 1,
    ensures
        ({
            let t = b64_text(b);
            let v0 = b64_value(t[0]);
            let v1 = b64_value(t[1]);
            &&& v0 * 4 + v1 / 16 == b[0]
            &&& b.len() == 1 ==> v1 % 16 == 0 && t[2] == '=' && t[3] == '='
            &&& b.len() >= 2 ==> (v1 % 16) * 16 + b64_value(t[2]) / 4 == b[1]
            &&& b.len() == 2 ==> b64_value(t[2]) % 4 == 0 && t[3] == '='
            &&& b.len() >= 3 ==> decode_group(t, 0) == seq![b[0] as int, b[1] as int, b[2] as int]
        }),
{
    let t = b64_text(b);
    let x0 = b[0] as int;
    lemma_b64_digit(x0 / 4);
    if b.len() == 1 {
        lemma_b64_digit((x0 % 4) * 16);
    } else {
        let x1 = b[1] as int;
        lemma_b64_digit((x0 % 4) * 16 + x1 / 16);
        if b.len() == 2 {
            lemma_b64_digit((x1 % 16) * 4);
        } else {
            let x2 = b[2] as int;
            lemma_b64_digit((x1 % 16) * 4 + x2 / 64);
            lemma_b64_digit(x2 % 64);
            assert(decode_group(t, 0) =~= seq![x0, x1, x2]);
        }
    }
}

/// The base64 text of `b` decodes back to `b`: each group of four digits
/// gives back its three bytes, and a final group of one or two bytes comes
/// back from its two or three digits, the rest being `=` and zero bits.
pub proof fn lemma_b64_decodes(b: Seq<u8>)
    ensures
        forall|k: int| 0 <= k && 3 * k + 3 <= b.len() ==> #[trigger] decode_group(b64_text(b), k)
            == seq![b[3 * k] as int, b[3 * k + 1] as int, b[3 * k + 2] as int],
        b.len() % 3 != 0 ==> ({
            let q = (b.len() / 3) as int;
            let t = b64_text(b);
            let v0 = b64_value(t[4 * q]);
            let v1 = b64_value(t[4 * q + 1]);
            &&& v0 * 4 + v1 / 16 == b[3 * q]
            &&& b.len() % 3 == 1 ==> v1 % 16 == 0 && t[4 * q + 2] == '=' && t[4 * q + 3] == '='
            &&& b.len() % 3 == 2 ==> (v1 % 16) * 16 + b64_value(t[4 * q + 2]) / 4 == b[3 * q + 1]
                && b64_value(t[4 * q + 2]) % 4 == 0 && t[4 * q + 3] == '='
        }),
    decreases b.len(),
{
    if b.len() == 0 {
    } else if b.len() < 3 {
        lemma_b64_head(b);
    } else {
        let rest = b.skip(3);
        lemma_b64_decodes(rest);
        lemma_b64_head(b);
        lemma_b64_text(rest);
        let t = b64_text(b);
        let tr = b64_text(rest);
        let head = seq![
            b64_digit(b[0] as int / 4),
            b64_digit((b[0] % 4) * 16 + b[1] / 16),
            b64_digit((b[1] % 16) * 4 + b[2] / 64),
            b64_digit(b[2] as int % 64),
        ];
        assert(t == head + tr);
        assert forall|k: int| 0 <= k && 3 * k + 3 <= b.len() implies #[trigger] decode_group(b64_text(b), k)
            == seq![b[3 * k] as int, b[3 * k + 1] as int, b[3 * k + 2] as int] by {
            if k > 0 {
                assert(t[4 * k] == tr[4 * (k - 1)]);
                assert(t[4 * k + 1] == tr[4 * (k - 1) + 1]);
                assert(t[4 * k + 2] == tr[4 * (k - 1) + 2]);
                assert(t[4 * k + 3] == tr[4 * (k - 1) + 3]);
                assert(decode_group(tr, k - 1) == seq![rest[3 * (k - 1)] as int, rest[3 * (k - 1) + 1] as int, rest[3 * (k - 1) + 2] as int]);
                assert(decode_group(t, k) == decode_group(tr, k - 1));
                assert(rest[3 * (k - 1)] == b[3 * k]);
                assert(rest[3 * (k - 1) + 1] == b[3 * k + 1]);
                assert(rest[3 * (k - 1) + 2] == b[3 * k + 2]);
            }
        }
        if b.len() % 3 != 0 {
            let q = (b.len() / 3) as int;
            assert(rest.len() / 3 == q - 1 && rest.len() % 3 == b.len() % 3);
            assert(t[4 * q] == tr[4 * (q - 1)]);
            assert(t[4 * q + 1] == tr[4 * (q - 1) + 1]);
            assert(t[4 * q + 2] == tr[4 * (q - 1) + 2]);
            assert(t[4 * q + 3] == tr[4 * (q - 1) + 3]);
            assert(rest[3 * (q - 1)] == b[3 * q]);
            if b.len() % 3 == 2 {
                assert(rest[3 * (q - 1) + 1] == b[3 * q + 1]);
            }
        }
    }
}

/// The bytes that the `base64` crate's standard engine reads from this text,
/// or `None` where it refuses it.
pub uninterp spec fn spec_b64_decode(text: Seq<u8>) -> Option<Seq<u8>>;

/// Base64-encodes bytes with `base64::engine::general_purpose::STANDARD.encode`.
///
/// Trusted: the text is the standard padded encoding (RFC 4648), which is
/// what the crate's STANDARD engine writes, and the same engine decodes it
/// back to the input. The crate panics where the encoded length does not fit
/// in `usize`; `requires` leaves that out.
#[verifier::external_body]
fn b64_encode(bytes: &[u8]) -> (text: String)
    requires
        b64_len(bytes@.len()) <= usize::MAX,
    ensures
        text@ == b64_text(bytes@),
        spec_b64_decode(ascii_bytes(text@)) == Some(bytes@),
{
    base64::engine::general_purpose::STANDARD.encode(bytes)
}

/// Decodes base64 text with `base64::engine::general_purpose::STANDARD.decode`.
///
/// Trusted: the result is what the crate decodes, `None` where it returns an error.
#[verifier::external_body]
fn b64_decode(text: &[u8]) -> (bytes: Option<Vec<u8>>)
    ensures
        match bytes {
            Some(b) => spec_b64_decode(text@) == Some(b@),
            None => spec_b64_decode(text@) is None,
        },
{
    base64::engine::general_purpose::STANDARD.decode(text).ok()
}

/// Reads bytes as UTF-8 text with `String::from_utf8`.
///
/// Trusted: as std documents it, the bytes are accepted exactly when they are
/// valid UTF-8, and then the text is what they encode.
#[verifier::external_body]
fn string_from_utf8(bytes: Vec<u8>) -> (s: Option<String>)
    ensures
        s is Some <==> valid_utf8(bytes@),
        s matches Some(t) ==> t@ == decode_utf8(bytes@),
{
    String::from_utf8(bytes).ok()
}

/// Appends bytes to a byte vector.
fn push_all(v: &mut Vec<u8>, s: &[u8])
    ensures
        final(v)@ == old(v)@ + s@,
{
    let mut i: usize = 0;
    while i < s.len()
        invariant
            i <= s@.len(),
            v@ == old(v)@ + s@.take(i as int),
        decreases s@.len() - i,
    {
        v.push(s[i]);
        proof {
            assert(s@.take(i + 1) =~= s@.take(i as int).push(s@[i as int]));
        }
        i = i + 1;
    }
    proof {
        assert(s@.take(s@.len() as int) =~= s@);
    }
}

/// The bytes of [`MARKER`].
pub fn marker_bytes() -> (m: &'static [u8])
    ensures
        m@ == marker_seq(),
{
    proof {
        lemma_marker_bytes();
    }
    MARKER.as_bytes()
}

/// The data block for a payload: a line feed, the marker, the payload and a line feed.
pub open spec fn marker_block(payload: Seq<u8>) -> Seq<u8> {
    seq![newline()] + marker_seq() + payload + seq![newline()]
}

/// The data block is the text line `%%DCPR-DATA:` followed by the payload,
/// on a line of its own: a line feed, the marker's characters, the payload
/// and a line feed.
pub proof fn lemma_marker_block_text(payload: Seq<u8>)
    ensures
        marker_block(payload) == ascii_bytes("\n%%DCPR-DATA:"@) + payload + ascii_bytes("\n"@),
        marker_seq() == ascii_bytes("%%DCPR-DATA:"@),
        MARKER@ == "%%DCPR-DATA:"@,
{
    reveal_strlit("\n%%DCPR-DATA:");
    reveal_strlit("%%DCPR-DATA:");
    reveal_strlit("\n");
    assert(ascii_bytes("%%DCPR-DATA:"@) =~= marker_seq());
    assert(seq![newline()] + marker_seq() =~= ascii_bytes("\n%%DCPR-DATA:"@));
    assert(ascii_bytes("\n"@) =~= seq![newline()]);
}

/// The payload of the data block for a form's JSON text: the base64 text of its UTF-8 bytes.
pub open spec fn json_payload(json: Seq<char>) -> Seq<u8> {
    ascii_bytes(b64_text(encode_utf8(json)))
}

/// Appends the data block that carries `payload`.
pub fn append_payload(pdf: &mut Vec<u8>, payload: &[u8])
    ensures
        final(pdf)@ == old(pdf)@ + marker_block(payload@),
{
    pdf.push(10u8);
    push_all(pdf, marker_bytes());
    push_all(pdf, payload);
    pdf.push(10u8);
    proof {
        assert(final(pdf)@ =~= old(pdf)@ + marker_block(payload@));
    }
}

/// The marker starts at position `i` of `b`.
#[verifier::opaque]
pub open spec fn marker_at(b: Seq<u8>, i: int) -> bool {
    &&& 0 <= i
    &&& i + marker_seq().len() <= b.len()
    &&& b.subrange(i, i + marker_seq().len()) == marker_seq()
}

/// The marker occurs in `b`.
pub open spec fn has_marker(b: Seq<u8>) -> bool {
    exists|i: int| marker_at(b, i)
}

/// Where the last marker in `b` starts (where `b` holds one).
pub open spec fn last_marker(b: Seq<u8>) -> int {
    choose|i: int| marker_at(b, i) && forall|k: int| i < k ==> !marker_at(b, k)
}

/// The position of the first line feed in `s`, or its length where it has none.
pub open spec fn line_end(s: Seq<u8>) -> int {
    if exists|j: int| 0 <= j < s.len() && s[j] == newline() {
        choose|j: int| 0 <= j < s.len() && s[j] == newline() && forall|k: int| 0 <= k < j ==> s[k] != newline()
    } else {
        s.len() as int
    }
}

/// The payload of the last data block in `b`: what follows the last marker,
/// up to the next line feed or the end.
pub open spec fn spec_marker_payload(b: Seq<u8>) -> Option<Seq<u8>> {
    if has_marker(b) {
        let rest = b.skip(last_marker(b) + marker_seq().len());
        Some(rest.take(line_end(rest)))
    } else {
        None
    }
}

/// The form that the last data block in `b` carries: `None` where there is
/// no block, or its payload is not base64 of UTF-8 text. Text that is not a
/// JSON object gives an empty form.
pub open spec fn spec_extract(b: Seq<u8>) -> Option<(Map<Seq<char>, Seq<char>>, Set<Seq<char>>)> {
    match spec_marker_payload(b) {
        None => None,
        Some(p) => match spec_b64_decode(p) {
            None => None,
            Some(j) => if valid_utf8(j) {
                Some((spec_text_from_json(decode_utf8(j)), spec_checks_from_json(decode_utf8(j))))
            } else {
                None
            },
        },
    }
}

/// Whether the marker starts at position `i` of `b`.
fn marker_at_exec(b: &[u8], m: &[u8], i: usize) -> (r: bool)
    requires
        m@ == marker_seq(),
        i + marker_seq().len() <= b@.len(),
    ensures
        r == marker_at(b@, i as int),
{
    let mut j: usize = 0;
    let blen = b.len();
    assert(marker_seq().len() == 12);
    while j < m.len()
        invariant
            blen == b@.len(),
            m@ == marker_seq(),
            i + marker_seq().len() <= b@.len(),
            j <= m@.len(),
            m@.len() == 12,
            i + 12 <= b@.len(),
            forall|k: int| 0 <= k < j ==> b@[i + k] == m@[k],
        decreases m@.len() - j,
    {
        if b[i + j] != m[j] {
            proof {
                reveal(marker_at);
                assert(b@.subrange(i as int, i + marker_seq().len())[j as int] != marker_seq()[j as int]);
            }
            return false;
        }
        j = j + 1;
    }
    proof {
        reveal(marker_at);
        assert(b@.subrange(i as int, i + marker_seq().len()) =~= marker_seq());
    }
    true
}

/// The payload of the last data block in `bytes`: what follows the last
/// marker, up to the next line feed or the end; `None` where there is no marker.
pub fn marker_payload(bytes: &[u8]) -> (p: Option<&[u8]>)
    ensures
        match p {
            Some(q) => spec_marker_payload(bytes@) == Some(q@),
            None => spec_marker_payload(bytes@) is None,
        },
{
    let m = marker_bytes();
    let n = bytes.len();
    if n < m.len() {
        proof {
            assert forall|i: int| !marker_at(bytes@, i) by {
                reveal(marker_at);
            }
        }
        return None;
    }
    let mut i: usize = n - m.len() + 1;
    proof {
        assert forall|k: int| i <= k implies !marker_at(bytes@, k) by {
            reveal(marker_at);
        }
    }
    while i > 0
        invariant
            m@ == marker_seq(),
            n == bytes@.len(),
            n >= marker_seq().len(),
            i <= n - marker_seq().len() + 1,
            forall|k: int| i <= k ==> !marker_at(bytes@, k),
        decreases i,
    {
        if marker_at_exec(bytes, m, i - 1) {
            let pos = i - 1;
            let start = pos + m.len();
            proof {
                assert(has_marker(bytes@));
                let c = last_marker(bytes@);
                assert(marker_at(bytes@, c) && forall|k: int| c < k ==> !marker_at(bytes@, k));
                assert(c == pos);
            }
            let mut j: usize = start;
            while j < n
                invariant
                    start <= j <= n,
                    n == bytes@.len(),
                    forall|k: int| start <= k < j ==> bytes@[k] != newline(),
                ensures
                    start <= j <= n,
                    forall|k: int| start <= k < j ==> bytes@[k] != newline(),
                    j < n ==> bytes@[j as int] == newline(),
                decreases n - j,
            {
                if bytes[j] == 10u8 {
                    break;
                }
                j = j + 1;
            }
            proof {
                let rest = bytes@.skip(start as int);
                let e = (j - start) as int;
                if j < n {
                    assert(rest[e] == newline());
                    let w = choose|w: int| 0 <= w < rest.len() && rest[w] == newline() && forall|k: int| 0 <= k < w ==> rest[k] != newline();
                    assert(rest[w] == bytes@[start + w]);
                    if w < e {
                        assert(bytes@[start + w] != newline());
                    }
                    if e < w {
                        assert(rest[e] != newline());
                    }
                    assert(line_end(rest) == e);
                } else {
                    assert forall|w: int| 0 <= w < rest.len() implies rest[w] != newline() by {
                        assert(rest[w] == bytes@[start + w]);
                    }
                    assert(line_end(rest) == e);
                }
                assert(rest.take(e) =~= bytes@.subrange(start as int, j as int));
            }
            return Some(&bytes[start..j]);
        }
        i = i - 1;
    }
    proof {
        assert forall|k: int| !marker_at(bytes@, k) by {
            reveal(marker_at);
        }
    }
    None
}

/// The bytes of `p` followed by a data block, position by position.
proof fn lemma_block_bytes(p: Seq<u8>, payload: Seq<u8>)
    ensures
        ({
            let b = p + marker_block(payload);
            let pos = p.len() + 1int;
            &&& b.len() == pos + 12 + payload.len() + 1
            &&& forall|k: int| 0 <= k < p.len() ==> b[k] == p[k]
            &&& b[p.len() as int] == newline()
            &&& forall|k: int| pos <= k < pos + 12 ==> b[k] == marker_seq()[k - pos]
            &&& forall|k: int| pos + 12 <= k < pos + 12 + payload.len() ==> b[k] == payload[k - pos - 12]
            &&& b[pos + 12 + payload.len()] == newline()
        }),
{
    let b = p + marker_block(payload);
    let blk = marker_block(payload);
    assert(marker_seq().len() == 12);
    assert forall|k: int| 0 <= k < blk.len() implies #[trigger] blk[k] == (if k == 0 { newline() } else if k < 13 { marker_seq()[k - 1] } else if k < 13 + payload.len() { payload[k - 13] } else { newline() }) by {}
}

/// Where a marker starts at `pos` and none starts after it, it is the last marker.
proof fn lemma_last_marker_is(b: Seq<u8>, pos: int)
    requires
        marker_at(b, pos),
        forall|k: int| pos < k ==> !#[trigger] marker_at(b, k),
    ensures
        has_marker(b),
        last_marker(b) == pos,
{
    assert(has_marker(b));
    let c = last_marker(b);
    assert(marker_at(b, c) && forall|k: int| c < k ==> !marker_at(b, k));
}

/// A marker needs `%` at its first two positions.
proof fn lemma_marker_starts(b: Seq<u8>, k: int)
    requires
        marker_at(b, k),
    ensures
        0 <= k,
        k + 12 <= b.len(),
        b[k] == 37u8,
        b[k + 1] == 37u8,
{
    reveal(marker_at);
    assert(b.subrange(k, k + 12)[0] == marker_seq()[0]);
    assert(b.subrange(k, k + 12)[1] == marker_seq()[1]);
}

/// No marker starts at `k` inside a data block after its own marker, where
/// the payload holds no `%`.
proof fn lemma_no_marker_at(p: Seq<u8>, payload: Seq<u8>, k: int)
    requires
        forall|i: int| 0 <= i < payload.len() ==> #[trigger] payload[i] != 37u8 && payload[i] != newline(),
        p.len() + 1 < k,
    ensures
        !marker_at(p + marker_block(payload), k),
{
    let b = p + marker_block(payload);
    let pos = p.len() + 1int;
    if marker_at(b, k) {
        lemma_marker_starts(b, k);
        lemma_block_bytes(p, payload);
        if k + 1 < pos + 12 {
            assert(b[k + 1] == marker_seq()[k + 1 - pos]);
        } else if k < pos + 12 + payload.len() {
            assert(b[k] == payload[k - pos - 12]);
        }
    }
}

/// No marker starts inside a data block after its own marker, where the
/// payload holds no `%`.
proof fn lemma_no_later_marker(p: Seq<u8>, payload: Seq<u8>)
    requires
        forall|i: int| 0 <= i < payload.len() ==> #[trigger] payload[i] != 37u8 && payload[i] != newline(),
    ensures
        forall|k: int| p.len() + 1 < k ==> !#[trigger] marker_at(p + marker_block(payload), k),
{
    assert forall|k: int| p.len() + 1 < k implies !#[trigger] marker_at(p + marker_block(payload), k) by {
        lemma_no_marker_at(p, payload, k);
    }
}

/// Reading the payload back from bytes that end with a data block gives that
/// payload, whatever bytes come before it, where the payload holds neither `%`
/// nor a line feed (base64 text holds neither).
pub proof fn lemma_payload_after_block(p: Seq<u8>, payload: Seq<u8>)
    requires
        forall|i: int| 0 <= i < payload.len() ==> #[trigger] payload[i] != 37u8 && payload[i] != newline(),
    ensures
        spec_marker_payload(p + marker_block(payload)) == Some(payload),
{
    let b = p + marker_block(payload);
    let pos = p.len() + 1int;
    lemma_block_bytes(p, payload);
    assert(b.subrange(pos, pos + 12) =~= marker_seq());
    assert(marker_at(b, pos)) by {
        reveal(marker_at);
    }
    lemma_no_later_marker(p, payload);
    lemma_last_marker_is(b, pos);
    let rest = b.skip(pos + 12);
    assert(rest =~= payload + seq![newline()]);
    lemma_line_end_after(payload);
    assert(rest.take(payload.len() as int) =~= payload);
}

/// The first line feed of a payload without line feeds, followed by one, is that last one.
proof fn lemma_line_end_after(payload: Seq<u8>)
    requires
        forall|i: int| 0 <= i < payload.len() ==> #[trigger] payload[i] != 37u8 && payload[i] != newline(),
    ensures
        line_end(payload + seq![newline()]) == payload.len(),
{
    let rest = payload + seq![newline()];
    let e = payload.len() as int;
    assert(rest[e] == newline());
    let w = choose|w: int| 0 <= w < rest.len() && rest[w] == newline() && forall|k: int| 0 <= k < w ==> rest[k] != newline();
    if w < e {
        assert(rest[w] == payload[w]);
    }
    if e < w {
        assert(rest[e] != newline());
    }
}

/// Reading back bytes that end with the data block of JSON text `json` gives
/// the form that `json` describes.
proof fn lemma_read_back_block(p: Seq<u8>, json: Seq<char>)
    requires
        forall|i: int| 0 <= i < json_payload(json).len() ==> #[trigger] json_payload(json)[i] != 37u8 && json_payload(json)[i] != newline(),
        spec_b64_decode(json_payload(json)) == Some(encode_utf8(json)),
    ensures
        spec_extract(p + marker_block(json_payload(json))) == Some((spec_text_from_json(json), spec_checks_from_json(json))),
{
    lemma_payload_after_block(p, json_payload(json));
    vstd::utf8::encode_utf8_valid_utf8(json);
    vstd::utf8::encode_utf8_decode_utf8(json);
}

/// Appends the data block that carries JSON text `json` (base64 of its UTF-8 bytes).
fn append_json_block(pdf: &mut Vec<u8>, json: &str)
    requires
        b64_len(encode_utf8(json@).len()) <= usize::MAX,
    ensures
        final(pdf)@ == old(pdf)@ + marker_block(json_payload(json@)),
        forall|i: int| 0 <= i < json_payload(json@).len() ==> #[trigger] json_payload(json@)[i] != 37u8 && json_payload(json@)[i] != newline(),
        spec_b64_decode(json_payload(json@)) == Some(encode_utf8(json@)),
{
    broadcast use vstd::utf8::group_utf8_lib;
    let bytes = json.as_bytes();
    let enc = b64_encode(bytes);
    proof {
        lemma_b64_text(bytes@);
    }
    let enc_bytes = enc.as_str().as_bytes();
    proof {
        assert(is_ascii_chars(enc@)) by {
            assert forall|i: int| 0 <= i < enc@.len() implies '\0' <= #[trigger] enc@[i] <= '\u{7f}' by {
                assert(is_b64_char(enc@[i]));
            }
        }
        assert(enc_bytes@ =~= ascii_bytes(enc@));
        assert forall|i: int| 0 <= i < enc_bytes@.len() implies #[trigger] enc_bytes@[i] != 37u8 && enc_bytes@[i] != newline() by {
            assert(is_b64_char(enc@[i]));
            assert(enc_bytes@[i] == enc@[i] as u8);
        }
    }
    append_payload(pdf, enc_bytes);
}

/// The form that a data block carrying this JSON text gives back: its text
/// fields less those named like a ticked box, and its ticked boxes.
pub open spec fn spec_read_back(text: Map<Seq<char>, Seq<char>>, checks: Set<Seq<char>>) -> (Map<Seq<char>, Seq<char>>, Set<Seq<char>>) {
    (text.remove_keys(checks), checks)
}

/// Appends to an exported PDF the data block that carries the form, so that
/// [`extract_data_marker`] reads the form back from it.
///
/// The base64 crate panics where the encoded text would not fit in `usize`;
/// `requires` leaves that out ([`append_data_marker_checked`] tests it first).
pub fn append_data_marker(pdf: &mut Vec<u8>, data: &ReportData)
    requires
        b64_len(encode_utf8(spec_to_json(data.text_view(), data.checks_view())).len()) <= usize::MAX,
    ensures
        final(pdf)@ == old(pdf)@ + marker_block(json_payload(spec_to_json(data.text_view(), data.checks_view()))),
        spec_extract(final(pdf)@) == Some(spec_read_back(data.text_view(), data.checks_view())),
{
    let json = to_json(data);
    append_json_block(pdf, json.as_str());
    proof {
        lemma_read_back_block(old(pdf)@, json@);
    }
}

/// Appends the data block as [`append_data_marker`] does where its base64
/// text fits in `usize`, and returns `true`; otherwise leaves `pdf` as it is
/// and returns `false`.
pub fn append_data_marker_checked(pdf: &mut Vec<u8>, data: &ReportData) -> (ok: bool)
    ensures
        ok == (b64_len(encode_utf8(spec_to_json(data.text_view(), data.checks_view())).len()) <= usize::MAX),
        ok ==> final(pdf)@ == old(pdf)@ + marker_block(json_payload(spec_to_json(data.text_view(), data.checks_view()))),
        ok ==> spec_extract(final(pdf)@) == Some(spec_read_back(data.text_view(), data.checks_view())),
        !ok ==> final(pdf)@ == old(pdf)@,
{
    let json = to_json(data);
    let n = json.as_str().as_bytes().len();
    let q = n / 3;
    let r: usize = if n % 3 > 0 { 4 } else { 0 };
    if q > (usize::MAX - r) / 4 {
        proof {
            assert(q * 4 > usize::MAX - r) by (nonlinear_arith)
                requires q > (usize::MAX - r) / 4, r <= 4;
        }
        return false;
    }
    proof {
        assert(q * 4 <= usize::MAX - r) by (nonlinear_arith)
            requires q <= (usize::MAX - r) / 4, r <= 4;
    }
    append_data_marker(pdf, data);
    true
}

/// The form that UTF-8 JSON bytes describe: `None` where they are not valid UTF-8.
pub fn report_from_json_bytes(json: Vec<u8>) -> (d: Option<ReportData>)
    ensures
        d is Some <==> valid_utf8(json@),
        d matches Some(r) ==> r.text_view() == spec_text_from_json(decode_utf8(json@))
            && r.checks_view() == spec_checks_from_json(decode_utf8(json@)),
{
    match string_from_utf8(json) {
        None => None,
        Some(s) => Some(from_json(s.as_str())),
    }
}

/// Reads the form back from a PDF that this library exported: from the last
/// data block in it. `None` where there is none, or it does not decode.
pub fn extract_data_marker(bytes: &[u8]) -> (d: Option<ReportData>)
    ensures
        match d {
            Some(r) => spec_extract(bytes@) == Some((r.text_view(), r.checks_view())),
            None => spec_extract(bytes@) is None,
        },
{
    match marker_payload(bytes) {
        None => None,
        Some(p) => match b64_decode(p) {
            None => None,
            Some(json) => report_from_json_bytes(json),
        },
    }
}

} // verus!
