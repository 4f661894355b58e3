//! The plain-HTTP side of the debugging endpoint: the discovery requests, the
//! split of a response into headers and body, chunked transfer decoding, and
//! the framing of the target list inside a body.
use vstd::prelude::*;
use vstd::slice::{slice_subrange, slice_to_vec};
use vstd::string::*;
use crate::text::{
    chars_of, contains, find, find_char_from, find_from, lemma_find_char_from, lemma_find_contains,
    lemma_find_first, lemma_rfind_char, occurs_at, rfind_char, starts_with,
};

verus! {

/// The bytes of an ASCII text.
pub open spec fn ascii_bytes(s: Seq<char>) -> Seq<u8> {
    s.map_values(|c: char| c as u8)
}

/// Carriage return and line feed.
pub open spec fn crlf() -> Seq<u8> {
    seq![13u8, 10u8]
}

/// The blank line that ends the headers.
pub open spec fn blank_line() -> Seq<u8> {
    seq![13u8, 10u8, 13u8, 10u8]
}

/// The header that announces a chunked body, in lower case.
pub open spec fn chunked_marker() -> Seq<u8> {
    ascii_bytes("transfer-encoding: chunked"@)
}

pub open spec fn is_ascii_space(b: u8) -> bool {
    (9 <= b && b <= 13) || b == 32
}

/// `s` without ASCII white space at either end.
pub open spec fn trim_space(s: Seq<u8>) -> Seq<u8>
    decreases s.len(),
{
    if s.len() == 0 {
        s
    } else if is_ascii_space(s[0]) {
        trim_space(s.drop_first())
    } else if is_ascii_space(s.last()) {
        trim_space(s.drop_last())
    } else {
        s
    }
}

pub open spec fn is_hex_digit(b: u8) -> bool {
    (48 <= b && b <= 57) || (65 <= b && b <= 70) || (97 <= b && b <= 102)
}

pub open spec fn hex_digit_value(b: u8) -> int {
    if 48 <= b && b <= 57 {
        b - 48
    } else if 65 <= b && b <= 70 {
        b - 55
    } else {
        b - 87
    }
}

/// The value of a string of hexadecimal digits.
pub open spec fn hex_value(s: Seq<u8>) -> nat
    decreases s.len(),
{
    if s.len() == 0 {
        0
    } else {
        (hex_value(s.drop_last()) * 16 + hex_digit_value(s.last())) as nat
    }
}

/// What `usize::from_str_radix(_, 16)` gives: a non-empty run of hexadecimal
/// digits, after an optional `+`, whose value fits in a `usize`.
/// The digits of an unsigned literal: an optional `+` sign dropped.
pub open spec fn unsigned_part(s: Seq<u8>) -> Seq<u8> {
    if s.len() > 0 && s[0] == 43u8 {
        s.drop_first()
    } else {
        s
    }
}

pub open spec fn parse_hex(s: Seq<u8>) -> Option<nat> {
    let d = unsigned_part(s);
    if d.len() > 0 && (forall|i: int| 0 <= i < d.len() ==> is_hex_digit(d[i])) && hex_value(d)
        <= usize::MAX {
        Some(hex_value(d))
    } else {
        None
    }
}

/// The payload of a chunked body: each chunk is a hexadecimal size line, that
/// many bytes (fewer when the body ends first) and an optional line ending;
/// decoding stops at a zero size, a size that does not parse, or a missing
/// line ending after the size.
pub open spec fn dechunked(s: Seq<u8>) -> Seq<u8>
    decreases s.len(),
{
    match find(s, crlf()) {
        None => Seq::empty(),
        Some(e) => match parse_hex(trim_space(s.subrange(0, e))) {
            None => Seq::empty(),
            Some(n) => if n == 0 {
                Seq::empty()
            } else {
                let rest = s.subrange(e + 2, s.len() as int);
                let take = if n < rest.len() {
                    n as int
                } else {
                    rest.len() as int
                };
                let after = rest.subrange(take, rest.len() as int);
                let next = if starts_with(after, crlf()) {
                    after.subrange(2, after.len() as int)
                } else {
                    after
                };
                if e + 2 <= s.len() && next.len() < s.len() {
                    rest.subrange(0, take) + dechunked(next)
                } else {
                    Seq::empty()
                }
            },
        },
    }
}

/// `s` with ASCII capitals in lower case.
pub open spec fn ascii_lower(s: Seq<u8>) -> Seq<u8> {
    s.map_values(|b: u8| if 65 <= b && b <= 90 { (b + 32) as u8 } else { b })
}

/// The body of an HTTP response: what follows the blank line, decoded when
/// the headers announce chunked transfer; none without a blank line.
pub open spec fn body_of(response: Seq<u8>) -> Option<Seq<u8>> {
    match find(response, blank_line()) {
        None => None,
        Some(p) => {
            let headers = response.subrange(0, p);
            let raw = response.subrange(p + 4, response.len() as int);
            Some(
                if contains(ascii_lower(headers), chunked_marker()) {
                    dechunked(raw)
                } else {
                    raw
                },
            )
        },
    }
}

/// The outermost bracketed span of a body: from its first `[` to its last `]`.
pub open spec fn json_array_of(body: Seq<u8>) -> Option<Seq<u8>> {
    match (find_char_from(body, 91u8, 0), rfind_char(body, 93u8)) {
        (Some(a), Some(b)) => if a < b {
            Some(body.subrange(a, b + 1))
        } else {
            None
        },
        _ => None,
    }
}

/// The decimal digits of `n`.
pub open spec fn decimal_of(n: nat) -> Seq<char>
    decreases n,
{
    if n < 10 {
        seq![digit_char(n)]
    } else {
        decimal_of(n / 10) + seq![digit_char(n % 10)]
    }
}

pub open spec fn digit_char(d: nat) -> char {
    if d == 0 { '0' } else if d == 1 { '1' } else if d == 2 { '2' } else if d == 3 { '3' } else if d
        == 4 { '4' } else if d == 5 { '5' } else if d == 6 { '6' } else if d == 7 { '7' } else if d
        == 8 { '8' } else { '9' }
}

/// A minimal GET request for `path` on the local endpoint at `port`, asking
/// the peer to close the connection after its answer.
pub open spec fn request_text(path: Seq<char>, port: u16) -> Seq<char> {
    "GET "@ + path + " HTTP/1.1\r\nHost: 127.0.0.1:"@ + decimal_of(port as nat)
        + "\r\nConnection: close\r\n\r\n"@
}

/// The bytes of an ASCII text.
pub fn ascii_bytes_of(s: &str) -> (r: Vec<u8>)
    ensures
        r@ == ascii_bytes(s@),
{
    let cs = chars_of(s);
    let mut out: Vec<u8> = Vec::new();
    let mut i: usize = 0;
    while i < cs.len()
        invariant
            i <= cs@.len(),
            cs@ == s@,
            out@ == ascii_bytes(cs@.subrange(0, i as int)),
        decreases cs.len() - i,
    {
        out.push(cs[i] as u8);
        assert(ascii_bytes(cs@.subrange(0, i + 1)) =~= ascii_bytes(cs@.subrange(0, i as int)).push(cs@[i as int] as u8));
        i = i + 1;
    }
    assert(cs@.subrange(0, cs@.len() as int) =~= cs@);
    out
}

fn bytes_match_at(s: &[u8], needle: &[u8], i: usize) -> (r: bool)
    ensures
        r == occurs_at(s@, needle@, i as int),
{
    if needle.len() > s.len() || i > s.len() - needle.len() {
        return false;
    }
    let mut k: usize = 0;
    while k < needle.len()
        invariant
            k <= needle.len(),
            i + needle.len() <= s.len(),
            s@.subrange(i as int, i + k) == needle@.subrange(0, k as int),
        decreases needle.len() - k,
    {
        if s[i + k] != needle[k] {
            assert(s@.subrange(i as int, i + needle.len())[k as int] != needle@[k as int]);
            return false;
        }
        assert(s@.subrange(i as int, i + k + 1) =~= s@.subrange(i as int, i + k).push(s@[i + k]));
        assert(needle@.subrange(0, k + 1) =~= needle@.subrange(0, k as int).push(needle@[k as int]));
        k = k + 1;
    }
    assert(needle@.subrange(0, needle.len() as int) =~= needle@);
    true
}

/// The first position at or after `from` where `needle` occurs in `s`.
fn find_bytes(s: &[u8], needle: &[u8], from: usize) -> (r: Option<usize>)
    ensures
        r matches Some(i) ==> find_from(s@, needle@, from as int) == Some(i as int),
        r is None ==> find_from(s@, needle@, from as int) is None,
{
    let mut i = from;
    while i <= s.len() && needle.len() <= s.len() - i
        invariant
            from <= i,
            find_from(s@, needle@, from as int) == find_from(s@, needle@, i as int),
        decreases s.len() + 1 - i,
    {
        if bytes_match_at(s, needle, i) {
            return Some(i);
        }
        if needle.len() == 0 {
            assert(s@.subrange(i as int, i as int) =~= needle@);
        }
        i = i + 1;
    }
    None
}

/// `s` without ASCII white space at either end.
fn trim_space_of(s: &[u8]) -> (r: &[u8])
    ensures
        r@ == trim_space(s@),
{
    let mut lo: usize = 0;
    let mut hi: usize = s.len();
    assert(s@.subrange(0, s@.len() as int) =~= s@);
    while lo < hi && ((9 <= s[lo] && s[lo] <= 13) || s[lo] == 32)
        invariant
            lo <= hi <= s@.len(),
            trim_space(s@) == trim_space(s@.subrange(lo as int, hi as int)),
        decreases hi - lo,
    {
        assert(s@.subrange(lo as int, hi as int).drop_first() =~= s@.subrange(lo + 1, hi as int));
        lo = lo + 1;
    }
    while lo < hi && ((9 <= s[hi - 1] && s[hi - 1] <= 13) || s[hi - 1] == 32)
        invariant
            lo <= hi <= s@.len(),
            lo < hi ==> !is_ascii_space(s@[lo as int]),
            trim_space(s@) == trim_space(s@.subrange(lo as int, hi as int)),
        decreases hi - lo,
    {
        assert(s@.subrange(lo as int, hi as int).drop_last() =~= s@.subrange(lo as int, hi - 1));
        hi = hi - 1;
    }
    slice_subrange(s, lo, hi)
}

proof fn lemma_hex_prefix(s: Seq<u8>, j: int)
    requires
        0 <= j <= s.len(),
        forall|i: int| 0 <= i < s.len() ==> is_hex_digit(s[i]),
    ensures
        hex_value(s.subrange(0, j)) <= hex_value(s),
    decreases s.len() - j,
{
    if j < s.len() {
        let a = s.subrange(0, j);
        let b = s.subrange(0, j + 1);
        assert(b.drop_last() =~= a);
        lemma_hex_prefix(s, j + 1);
    } else {
        assert(s.subrange(0, j) =~= s);
    }
}

/// The value of a hexadecimal size, when it parses and fits in a `usize`.
fn parse_hex_of(s: &[u8]) -> (r: Option<usize>)
    ensures
        r matches Some(n) ==> parse_hex(s@) == Some(n as nat),
        r is None ==> parse_hex(s@) is None,
{
    let mut i: usize = 0;
    if s.len() > 0 && s[0] == 43u8 {
        i = 1;
    }
    let start = i;
    let ghost d = unsigned_part(s@);
    assert(d =~= s@.subrange(start as int, s@.len() as int));
    if start == s.len() {
        return None;
    }
    let mut value: usize = 0;
    while i < s.len()
        invariant
            start <= i <= s@.len(),
            start < s@.len(),
            d == s@.subrange(start as int, s@.len() as int),
            d == unsigned_part(s@),
            value as nat == hex_value(s@.subrange(start as int, i as int)),
            forall|k: int| start <= k < i ==> is_hex_digit(s@[k]),
        decreases s.len() - i,
    {
        let b = s[i];
        let digit: usize = if 48 <= b && b <= 57 {
            (b - 48) as usize
        } else if 65 <= b && b <= 70 {
            (b - 55) as usize
        } else if 97 <= b && b <= 102 {
            (b - 87) as usize
        } else {
            assert(!is_hex_digit(d[i - start]));
            assert(!(forall|k: int| 0 <= k < d.len() ==> is_hex_digit(d[k])));
            assert(parse_hex(s@) is None);
            return None;
        };
        let ghost before = s@.subrange(start as int, i as int);
        assert(s@.subrange(start as int, i + 1).drop_last() =~= before);
        assert(hex_value(s@.subrange(start as int, i + 1)) == value * 16 + digit);
        if value > (usize::MAX - digit) / 16 {
            proof {
                assert(value * 16 + digit > usize::MAX) by (nonlinear_arith)
                    requires
                        value > (usize::MAX - digit) / 16,
                        digit <= 15,
                ;
                if forall|k: int| 0 <= k < d.len() ==> is_hex_digit(d[k]) {
                    lemma_hex_prefix(d, i + 1 - start);
                    assert(d.subrange(0, i + 1 - start) =~= s@.subrange(start as int, i + 1));
                    assert(hex_value(d) > usize::MAX);
                }
                assert(parse_hex(s@) is None);
            }
            return None;
        }
        assert(value * 16 + digit <= usize::MAX) by (nonlinear_arith)
            requires
                value <= (usize::MAX - digit) / 16,
                digit <= 15,
        ;
        value = value * 16 + digit;
        i = i + 1;
    }
    assert(s@.subrange(start as int, i as int) =~= d);
    Some(value)
}

/// Decodes a chunked transfer body; see `dechunked`.
pub fn dechunk(body: &[u8]) -> (r: Vec<u8>)
    ensures
        r@ == dechunked(body@),
{
    let crlf_bytes = ascii_bytes_of("\r\n");
    proof {
        reveal_strlit("\r\n");
        assert(crlf_bytes@ =~= crlf());
    }
    let mut out: Vec<u8> = Vec::new();
    let mut pos: usize = 0;
    let len = body.len();
    assert(body@.subrange(0, len as int) =~= body@);
    while pos < len
        invariant
            pos <= len,
            len == body@.len(),
            crlf_bytes@ == crlf(),
            dechunked(body@) == out@ + dechunked(body@.subrange(pos as int, len as int)),
        decreases len - pos,
    {
        let rem = slice_subrange(body, pos, len);
        let ghost rs = rem@;
        let e = match find_bytes(rem, crlf_bytes.as_slice(), 0) {
            Some(e) => e,
            None => {
                assert(dechunked(rs) =~= Seq::<u8>::empty());
                assert(out@ + dechunked(rs) =~= out@);
                return out;
            },
        };
        proof {
            crate::text::lemma_find_from(rs, crlf(), 0);
        }
        let size_line = slice_subrange(rem, 0, e);
        let trimmed = trim_space_of(size_line);
        let n = match parse_hex_of(trimmed) {
            Some(n) => n,
            None => {
                assert(out@ + dechunked(rs) =~= out@);
                return out;
            },
        };
        if n == 0 {
            assert(out@ + dechunked(rs) =~= out@);
            return out;
        }
        let start = pos + e + 2;
        let avail = len - start;
        let take = if n < avail {
            n
        } else {
            avail
        };
        let piece = slice_subrange(body, start, start + take);
        let mut k: usize = 0;
        let ghost out0 = out@;
        while k < piece.len()
            invariant
                k <= piece@.len(),
                out@ == out0 + piece@.subrange(0, k as int),
            decreases piece.len() - k,
        {
            out.push(piece[k]);
            assert(piece@.subrange(0, k + 1) =~= piece@.subrange(0, k as int).push(piece@[k as int]));
            k = k + 1;
        }
        assert(piece@.subrange(0, piece@.len() as int) =~= piece@);
        let mut next = start + take;
        let ghost rest = rs.subrange(e + 2, rs.len() as int);
        let ghost after = rest.subrange(take as int, rest.len() as int);
        assert(rest =~= body@.subrange(start as int, len as int));
        assert(after =~= body@.subrange(next as int, len as int));
        assert(rest.subrange(0, take as int) =~= piece@);
        if next < len && len - next >= 2 && body[next] == 13u8 && body[next + 1] == 10u8 {
            assert(starts_with(after, crlf())) by {
                assert(after.subrange(0, 2) =~= crlf());
            }
            assert(after.subrange(2, after.len() as int) =~= body@.subrange(next + 2, len as int));
            next = next + 2;
        } else {
            proof {
                if starts_with(after, crlf()) {
                    assert(after.subrange(0, 2)[0] == after[0]);
                    assert(after.subrange(0, 2)[1] == after[1]);
                }
            }
        }
        assert(out@ + dechunked(body@.subrange(next as int, len as int)) =~= out0 + dechunked(rs));
        pos = next;
    }
    assert(dechunked(body@.subrange(pos as int, len as int)) =~= Seq::<u8>::empty()) by {
        assert(body@.subrange(pos as int, len as int) =~= Seq::<u8>::empty());
        assert(find(Seq::<u8>::empty(), crlf()) is None);
    }
    assert(out@ + Seq::<u8>::empty() =~= out@);
    out
}

/// Whether a header block announces a chunked body, in any case.
fn announces_chunked(headers: &[u8]) -> (r: bool)
    ensures
        r == contains(ascii_lower(headers@), chunked_marker()),
{
    let mut lower: Vec<u8> = Vec::new();
    let mut i: usize = 0;
    while i < headers.len()
        invariant
            i <= headers@.len(),
            lower@ == ascii_lower(headers@.subrange(0, i as int)),
        decreases headers.len() - i,
    {
        let b = headers[i];
        let l = if 65 <= b && b <= 90 {
            b + 32
        } else {
            b
        };
        lower.push(l);
        assert(ascii_lower(headers@.subrange(0, i + 1)) =~= ascii_lower(headers@.subrange(0, i as int)).push(l));
        i = i + 1;
    }
    assert(headers@.subrange(0, headers@.len() as int) =~= headers@);
    let marker = ascii_bytes_of("transfer-encoding: chunked");
    proof {
        lemma_find_contains(lower@, marker@);
    }
    find_bytes(lower.as_slice(), marker.as_slice(), 0).is_some()
}

/// The body of a raw HTTP response, decoded when it is chunked; none when the
/// response has no blank line after its headers.
pub fn http_body(response: &[u8]) -> (r: Option<Vec<u8>>)
    ensures
        r matches Some(b) ==> body_of(response@) == Some(b@),
        r is None ==> body_of(response@) is None,
{
    let blank = ascii_bytes_of("\r\n\r\n");
    proof {
        reveal_strlit("\r\n\r\n");
        assert(blank@ =~= blank_line());
    }
    match find_bytes(response, blank.as_slice(), 0) {
        None => None,
        Some(p) => {
            proof {
                crate::text::lemma_find_from(response@, blank_line(), 0);
            }
            let total = response.len();
            assert(p + 4 <= total);
            let headers = slice_subrange(response, 0, p);
            let raw = slice_subrange(response, p + 4, response.len());
            if announces_chunked(headers) {
                Some(dechunk(raw))
            } else {
                Some(slice_to_vec(raw))
            }
        },
    }
}

/// The target list framed inside a body: from its first `[` to its last `]`.
pub fn extract_json_array(body: &[u8]) -> (r: Option<Vec<u8>>)
    ensures
        r matches Some(a) ==> json_array_of(body@) == Some(a@),
        r is None ==> json_array_of(body@) is None,
{
    let mut a: usize = 0;
    while a < body.len() && body[a] != 91u8
        invariant
            a <= body@.len(),
            find_char_from(body@, 91u8, 0) == find_char_from(body@, 91u8, a as int),
        decreases body.len() - a,
    {
        a = a + 1;
    }
    let mut n: usize = body.len();
    assert(body@.subrange(0, n as int) =~= body@);
    while n > 0 && body[n - 1] != 93u8
        invariant
            n <= body@.len(),
            rfind_char(body@, 93u8) == rfind_char(body@.subrange(0, n as int), 93u8),
        decreases n,
    {
        assert(body@.subrange(0, n as int).drop_last() =~= body@.subrange(0, n - 1));
        n = n - 1;
    }
    if a == body.len() || n == 0 {
        return None;
    }
    assert(body@.subrange(0, n as int).drop_last() =~= body@.subrange(0, n - 1));
    let b = n - 1;
    if a < b {
        Some(slice_to_vec(slice_subrange(body, a, b + 1)))
    } else {
        None
    }
}

fn digit_text(d: u64) -> (r: &'static str)
    requires
        d < 10,
    ensures
        r@ == seq![digit_char(d as nat)],
{
    proof {
        reveal_strlit("0");
        reveal_strlit("1");
        reveal_strlit("2");
        reveal_strlit("3");
        reveal_strlit("4");
        reveal_strlit("5");
        reveal_strlit("6");
        reveal_strlit("7");
        reveal_strlit("8");
        reveal_strlit("9");
    }
    if d == 0 {
        "0"
    } else if d == 1 {
        "1"
    } else if d == 2 {
        "2"
    } else if d == 3 {
        "3"
    } else if d == 4 {
        "4"
    } else if d == 5 {
        "5"
    } else if d == 6 {
        "6"
    } else if d == 7 {
        "7"
    } else if d == 8 {
        "8"
    } else {
        "9"
    }
}

/// Appends the decimal digits of `n`.
pub fn push_decimal(s: &mut String, n: u64)
    ensures
        final(s)@ == old(s)@ + decimal_of(n as nat),
    decreases n,
{
    if n >= 10 {
        push_decimal(s, n / 10);
    }
    s.append(digit_text(n % 10));
    if n < 10 {
        assert(decimal_of(n as nat) == seq![digit_char(n as nat)]);
    }
}

/// The GET request for `path` on the local endpoint at `port`.
pub fn discovery_request(path: &str, port: u16) -> (r: String)
    ensures
        r@ == request_text(path@, port),
{
    let mut s = String::new();
    s.append("GET ");
    s.append(path);
    s.append(" HTTP/1.1\r\nHost: 127.0.0.1:");
    push_decimal(&mut s, port as u64);
    s.append("\r\nConnection: close\r\n\r\n");
    assert(s@ =~= request_text(path@, port));
    s
}

/// Decodes a chunked transfer body given as text; see `dechunked`.
pub fn dechunk_body(body: &str) -> (r: String)
    ensures
        r@ == lossy_text(dechunked(body.spec_bytes())),
{
    let decoded = dechunk(body.as_bytes());
    text_of_bytes(decoded.as_slice())
}

/// What `String::from_utf8_lossy` makes of these bytes.
pub uninterp spec fn lossy_text(b: Seq<u8>) -> Seq<char>;

/// Relies on `String::from_utf8_lossy`: the text the bytes encode, with each
/// invalid sequence replaced by U+FFFD; it depends on the bytes alone.
#[verifier::external_body]
pub(crate) fn text_of_bytes(b: &[u8]) -> (r: String)
    ensures
        r@ == lossy_text(b@),
{
    String::from_utf8_lossy(b).into_owned()
}

/// A body that is leading text without `[` followed by a bracketed array
/// frames exactly that array.
pub proof fn lemma_json_array_after_banner(banner: Seq<u8>, array: Seq<u8>)
    requires
        forall|i: int| 0 <= i < banner.len() ==> banner[i] != 91u8,
        array.len() >= 2,
        array[0] == 91u8,
        array.last() == 93u8,
    ensures
        json_array_of(banner + array) == Some(array),
{
    let body = banner + array;
    let a = banner.len() as int;
    lemma_find_char_from(body, 91u8, 0);
    let f = find_char_from(body, 91u8, 0);
    assert(body[a] == 91u8);
    if f is None {
        assert(body[a] != 91u8);
    } else {
        let k = f.unwrap();
        if k < a {
            assert(body[k] == banner[k]);
        } else if k > a {
            assert(body[a] != 91u8);
        }
    }
    assert(body.last() == 93u8);
    assert(rfind_char(body, 93u8) == Some(body.len() - 1));
    assert(body.subrange(a, body.len() as int) =~= array);
}

/// A body in which no `[` comes before a `]` frames nothing.
pub proof fn lemma_json_array_absent(body: Seq<u8>)
    requires
        forall|i: int, j: int| 0 <= i < j < body.len() ==> !(body[i] == 91u8 && body[j] == 93u8),
    ensures
        json_array_of(body) is None,
{
    lemma_find_char_from(body, 91u8, 0);
    lemma_rfind_char(body, 93u8);
}

/// The lower-case hexadecimal digit of `d`.
pub open spec fn hex_digit(d: nat) -> u8 {
    if d < 10 {
        (48 + d) as u8
    } else {
        (87 + d) as u8
    }
}

/// The lower-case hexadecimal digits of `n`.
pub open spec fn hex_of(n: nat) -> Seq<u8>
    decreases n,
{
    if n < 16 {
        seq![hex_digit(n)]
    } else {
        hex_of(n / 16).push(hex_digit(n % 16))
    }
}

/// The chunked transfer encoding of `chunks`, without the final empty chunk.
pub open spec fn chunked_encoding(chunks: Seq<Seq<u8>>) -> Seq<u8>
    decreases chunks.len(),
{
    if chunks.len() == 0 {
        Seq::empty()
    } else {
        hex_of(chunks[0].len()) + crlf() + chunks[0] + crlf() + chunked_encoding(chunks.drop_first())
    }
}

/// The chunks one after another.
pub open spec fn concat_chunks(chunks: Seq<Seq<u8>>) -> Seq<u8>
    decreases chunks.len(),
{
    if chunks.len() == 0 {
        Seq::empty()
    } else {
        chunks[0] + concat_chunks(chunks.drop_first())
    }
}

/// The empty chunk that ends a chunked body, with its blank line.
pub open spec fn final_chunk() -> Seq<u8> {
    seq![48u8, 13u8, 10u8, 13u8, 10u8]
}

proof fn lemma_hex_of(n: nat)
    ensures
        hex_of(n).len() > 0,
        forall|i: int| 0 <= i < hex_of(n).len() ==> is_hex_digit(#[trigger] hex_of(n)[i]),
        hex_value(hex_of(n)) == n,
    decreases n,
{
    assert(hex_digit_value(hex_digit(n % 16)) == n % 16);
    if n < 16 {
        assert(hex_of(n) == seq![hex_digit(n)]);
        assert(hex_of(n).last() == hex_digit(n));
        assert(hex_of(n).drop_last() =~= Seq::<u8>::empty());
        assert(hex_value(Seq::<u8>::empty()) == 0);
        assert(n % 16 == n);
        assert(hex_value(hex_of(n)) == hex_digit_value(hex_digit(n)));
    } else {
        lemma_hex_of(n / 16);
        let h = hex_of(n / 16);
        assert(hex_of(n).drop_last() =~= h);
        assert(hex_of(n).last() == hex_digit(n % 16));
        assert forall|i: int| 0 <= i < hex_of(n).len() implies is_hex_digit(#[trigger] hex_of(n)[i]) by {
            if i < h.len() {
                assert(hex_of(n)[i] == h[i]);
            }
        }
        assert(hex_value(hex_of(n)) == hex_value(h) * 16 + hex_digit_value(hex_digit(n % 16)));
        assert(n == (n / 16) * 16 + n % 16) by (nonlinear_arith);
    }
}

/// A size line, its chunk and the rest decode to the chunk and the rest.
proof fn lemma_dechunk_step(c: Seq<u8>, rest: Seq<u8>)
    requires
        0 < c.len() <= usize::MAX,
    ensures
        dechunked(hex_of(c.len()) + crlf() + c + crlf() + rest) == c + dechunked(rest),
{
    let h = hex_of(c.len());
    lemma_hex_of(c.len());
    let s = h + crlf() + c + crlf() + rest;
    let e = h.len() as int;
    assert(s.subrange(e, e + 2) =~= crlf());
    assert forall|j: int| 0 <= j < e implies !occurs_at(s, crlf(), j) by {
        assert(s[j] == h[j]);
        assert(is_hex_digit(h[j]));
        assert(s.subrange(j, j + 2)[0] == s[j]);
    }
    lemma_find_first(s, crlf(), e);
    assert(s.subrange(0, e) =~= h);
    assert(is_hex_digit(h[0]) && is_hex_digit(h.last()));
    assert(trim_space(h) == h);
    assert(unsigned_part(h) == h);
    assert(parse_hex(h) == Some(c.len()));
    let r = s.subrange(e + 2, s.len() as int);
    assert(r =~= c + crlf() + rest);
    let after = r.subrange(c.len() as int, r.len() as int);
    assert(after =~= crlf() + rest);
    assert(after.subrange(0, 2) =~= crlf());
    assert(after.subrange(2, after.len() as int) =~= rest);
    assert(r.subrange(0, c.len() as int) =~= c);
}

/// Decoding the chunked encoding of non-empty chunks, ended by the empty
/// chunk, gives back the chunks one after another, whatever follows.
pub proof fn lemma_dechunk_round_trip(chunks: Seq<Seq<u8>>, trailer: Seq<u8>)
    requires
        forall|i: int| 0 <= i < chunks.len() ==> 0 < (#[trigger] chunks[i]).len() <= usize::MAX,
    ensures
        dechunked(chunked_encoding(chunks) + final_chunk() + trailer) == concat_chunks(chunks),
    decreases chunks.len(),
{
    if chunks.len() == 0 {
        let s = final_chunk() + trailer;
        assert(chunked_encoding(chunks) + final_chunk() + trailer =~= s);
        assert(s.subrange(1, 3) =~= crlf());
        assert(!occurs_at(s, crlf(), 0)) by {
            assert(s.subrange(0, 2)[0] == 48u8);
        }
        lemma_find_first(s, crlf(), 1);
        assert(s.subrange(0, 1) =~= seq![48u8]);
        assert(trim_space(seq![48u8]) == seq![48u8]);
        assert(unsigned_part(seq![48u8]) == seq![48u8]);
        assert(seq![48u8].drop_last() =~= Seq::<u8>::empty());
        assert(hex_value(seq![48u8]) == hex_value(Seq::<u8>::empty()) * 16 + hex_digit_value(48u8));
        assert(hex_value(seq![48u8]) == 0);
    } else {
        let rest = chunks.drop_first();
        assert forall|i: int| 0 <= i < rest.len() implies 0 < (#[trigger] rest[i]).len() <= usize::MAX by {
            assert(rest[i] == chunks[i + 1]);
        }
        lemma_dechunk_round_trip(rest, trailer);
        let tail = chunked_encoding(rest) + final_chunk() + trailer;
        lemma_dechunk_step(chunks[0], tail);
        assert(chunked_encoding(chunks) + final_chunk() + trailer =~= hex_of(chunks[0].len()) + crlf()
            + chunks[0] + crlf() + tail);
    }
}

} // verus!
