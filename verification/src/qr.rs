//! The pairing QR code as an SVG image in a `data:` URL.
//!
//! The QR code is rendered as text, one character per module, dark modules
//! as `'\u{2588}'`; every dark module becomes a 10-by-10 black square of an
//! SVG picture on a white background, and the picture is base64-encoded.
use crate::net::{append_decimal, decimal};
use base64::Engine;
use vstd::prelude::*;
use vstd::string::StringExecFns;
use vstd::string::StringSliceAdditionalSpecFns;
use vstd::utf8::encode_utf8;

verus! {

/// Why a QR code could not be made (the variants of `qrcode::types::QrError`).
#[derive(Debug, Clone, Copy, PartialEq, Eq, Structural)]
pub enum QrErrorKind {
    DataTooLong,
    InvalidVersion,
    UnsupportedCharacterSet,
    InvalidEciDesignator,
    InvalidCharacter,
}

/// The text rendering of the QR code of `text` at a minimum size of
/// `min_width` by `min_height` modules' worth of characters, or why there is
/// none.
pub uninterp spec fn qr_rendering(text: Seq<char>, min_width: u32, min_height: u32) -> Result<Seq<char>, QrErrorKind>;

/// The character of a six-bit value in the standard base64 alphabet:
/// `A`-`Z`, `a`-`z`, `0`-`9`, `+`, `/`.
pub open spec fn b64_char(v: int) -> char {
    if v < 26 {
        (65 + v) as char
    } else if v < 52 {
        (97 + v - 26) as char
    } else if v < 62 {
        (48 + v - 52) as char
    } else if v == 62 {
        '+'
    } else {
        '/'
    }
}

/// The six-bit value of a character of the standard base64 alphabet.
pub open spec fn b64_value(c: char) -> int {
    if 'A' <= c && c <= 'Z' {
        c as int - 65
    } else if 'a' <= c && c <= 'z' {
        c as int - 97 + 26
    } else if '0' <= c && c <= '9' {
        c as int - 48 + 52
    } else if c == '+' {
        62
    } else {
        63
    }
}

/// The standard base64 encoding of `bytes` (RFC 4648, section 4): each
/// three bytes become four characters of six bits each, and a last group
/// of one or two bytes is padded with `=` to four characters.
pub open spec fn base64_standard(bytes: Seq<u8>) -> Seq<char>
    decreases bytes.len(),
{
    if bytes.len() == 0 {
        Seq::empty()
    } else if bytes.len() == 1 {
        let a = bytes[0] as int;
        seq![b64_char(a / 4), b64_char((a % 4) * 16), '=', '=']
    } else if bytes.len() == 2 {
        let a = bytes[0] as int;
        let b = bytes[1] as int;
        seq![b64_char(a / 4), b64_char((a % 4) * 16 + b / 16), b64_char((b % 16) * 4), '=']
    } else {
        let a = bytes[0] as int;
        let b = bytes[1] as int;
        let c = bytes[2] as int;
        seq![b64_char(a / 4), b64_char((a % 4) * 16 + b / 16), b64_char((b % 16) * 4 + c / 64), b64_char(c % 64)]
            + base64_standard(bytes.skip(3))
    }
}

/// The bytes a standard base64 text stands for: each four characters give
/// three bytes, or fewer where `=` pads them.
pub open spec fn base64_decode(t: Seq<char>) -> Seq<u8>
    decreases t.len(),
{
    if t.len() < 4 {
        Seq::empty()
    } else {
        let v0 = b64_value(t[0]);
        let v1 = b64_value(t[1]);
        let v2 = b64_value(t[2]);
        let v3 = b64_value(t[3]);
        if t[2] == '=' {
            seq![(v0 * 4 + v1 / 16) as u8]
        } else if t[3] == '=' {
            seq![(v0 * 4 + v1 / 16) as u8, ((v1 % 16) * 16 + v2 / 4) as u8]
        } else {
            seq![(v0 * 4 + v1 / 16) as u8, ((v1 % 16) * 16 + v2 / 4) as u8, ((v2 % 4) * 64 + v3) as u8]
                + base64_decode(t.skip(4))
        }
    }
}

/// Each six-bit value has its own character of the alphabet, never `=`.
pub proof fn lemma_b64_char(v: int)
    requires
        0 <= v < 64,
    ensures
        b64_value(b64_char(v)) == v,
        b64_char(v) != '=',
{
}

/// Decoding the base64 encoding of bytes gives the bytes back.
pub proof fn lemma_base64_roundtrip(bytes: Seq<u8>)
    ensures
        base64_decode(base64_standard(bytes)) == bytes,
    decreases bytes.len(),
{
    if bytes.len() == 0 {
    } else {
        let a = bytes[0] as int;
        let b = if bytes.len() > 1 { bytes[1] as int } else { 0 };
        let c = if bytes.len() > 2 { bytes[2] as int } else { 0 };
        lemma_b64_char(a / 4);
        lemma_b64_char((a % 4) * 16 + b / 16);
        lemma_b64_char((b % 16) * 4 + c / 64);
        lemma_b64_char(c % 64);
        lemma_b64_char((a % 4) * 16);
        lemma_b64_char((b % 16) * 4);
        assert((a / 4) * 4 + ((a % 4) * 16 + b / 16) / 16 == a) by (nonlinear_arith)
            requires
                0 <= a < 256,
                0 <= b < 256,
        ;
        assert((((a % 4) * 16 + b / 16) % 16) * 16 + ((b % 16) * 4 + c / 64) / 4 == b) by (nonlinear_arith)
            requires
                0 <= a < 256,
                0 <= b < 256,
                0 <= c < 256,
        ;
        assert((((b % 16) * 4 + c / 64) % 4) * 64 + c % 64 == c) by (nonlinear_arith)
            requires
                0 <= b < 256,
                0 <= c < 256,
        ;
        assert((a / 4) * 4 + ((a % 4) * 16) / 16 == a) by (nonlinear_arith)
            requires
                0 <= a < 256,
        ;
        assert((((a % 4) * 16 + b / 16) % 16) * 16 + ((b % 16) * 4) / 4 == b) by (nonlinear_arith)
            requires
                0 <= a < 256,
                0 <= b < 256,
        ;
        if bytes.len() == 1 {
            assert(base64_decode(base64_standard(bytes)) =~= bytes);
        } else if bytes.len() == 2 {
            assert(base64_decode(base64_standard(bytes)) =~= bytes);
        } else {
            let rest = bytes.skip(3);
            lemma_base64_roundtrip(rest);
            let t = base64_standard(bytes);
            let group = seq![b64_char(a / 4), b64_char((a % 4) * 16 + b / 16), b64_char((b % 16) * 4 + c / 64), b64_char(c % 64)];
            assert(t == group + base64_standard(rest));
            assert(t.skip(4) =~= base64_standard(rest));
            assert(base64_decode(t) =~= seq![a as u8, b as u8, c as u8] + rest);
            assert(seq![a as u8, b as u8, c as u8] + rest =~= bytes);
        }
    }
}

/// Renders the QR code of `text` as text (`QrCode::new`, then
/// `render::<char>().min_dimensions(min_width, min_height).build()`). The
/// result is named `qr_rendering`; nothing more is stated of it.
#[verifier::external_body]
fn render_qr_text(text: &str, min_width: u32, min_height: u32) -> (r: Result<String, QrErrorKind>)
    requires
        min_width <= 1000,
        min_height <= 1000,
    ensures
        qr_rendering(text@, min_width, min_height) == (match r {
            Ok(s) => Ok::<Seq<char>, QrErrorKind>(s@),
            Err(e) => Err::<Seq<char>, QrErrorKind>(e),
        }),
{
    match qrcode::QrCode::new(text) {
        Ok(code) => Ok(code.render::<char>().min_dimensions(min_width, min_height).build()),
        Err(qrcode::types::QrError::DataTooLong) => Err(QrErrorKind::DataTooLong),
        Err(qrcode::types::QrError::InvalidVersion) => Err(QrErrorKind::InvalidVersion),
        Err(qrcode::types::QrError::UnsupportedCharacterSet) => Err(QrErrorKind::UnsupportedCharacterSet),
        Err(qrcode::types::QrError::InvalidEciDesignator) => Err(QrErrorKind::InvalidEciDesignator),
        Err(qrcode::types::QrError::InvalidCharacter) => Err(QrErrorKind::InvalidCharacter),
    }
}

/// Encodes `bytes` in standard base64 with padding
/// (`base64::engine::general_purpose::STANDARD.encode`), as
/// `base64_standard` defines it.
#[verifier::external_body]
fn base64_encode(bytes: &[u8]) -> (r: String)
    requires
        bytes@.len() <= usize::MAX / 2,
    ensures
        r@ == base64_standard(bytes@),
{
    base64::engine::general_purpose::STANDARD.encode(bytes)
}

/// The position of the first newline byte at or after `i`, or the end.
pub open spec fn newline_from(b: Seq<u8>, i: int) -> int
    decreases b.len() - i,
{
    if i >= b.len() {
        b.len() as int
    } else if b[i] == 10 {
        i
    } else {
        newline_from(b, i + 1)
    }
}

/// The newline search from `i` ends at `i` or later, and within `b`.
pub proof fn lemma_newline_from_bounds(b: Seq<u8>, i: int)
    requires
        0 <= i <= b.len(),
    ensures
        i <= newline_from(b, i) <= b.len(),
        newline_from(b, i) < b.len() ==> b[newline_from(b, i)] == 10,
        forall|j: int| i <= j < newline_from(b, i) ==> b[j] != 10,
    decreases b.len() - i,
{
    if i < b.len() && b[i] != 10 {
        lemma_newline_from_bounds(b, i + 1);
    }
}

/// A line without the carriage return that ended it, if any.
pub open spec fn strip_cr(line: Seq<u8>) -> Seq<u8> {
    if line.len() > 0 && line.last() == 13 {
        line.drop_last()
    } else {
        line
    }
}

/// The lines of `b` from position `start` on, as `str::lines` gives them:
/// split at newlines, a carriage return before a newline dropped, and no
/// empty line after a final newline.
pub open spec fn lines_from(b: Seq<u8>, start: int) -> Seq<Seq<u8>>
    decreases b.len() - start,
{
    if start >= b.len() || start < 0 {
        Seq::empty()
    } else {
        let p = newline_from(b, start);
        proof {
            lemma_newline_from_bounds(b, start);
        }
        if p >= b.len() {
            seq![b.subrange(start, b.len() as int)]
        } else {
            seq![strip_cr(b.subrange(start, p))] + lines_from(b, p + 1)
        }
    }
}

/// Whether `b` is not a UTF-8 continuation byte, so that it starts a character.
pub open spec fn starts_char(b: u8) -> bool {
    b < 0x80 || b >= 0xC0
}

/// The number of characters in the UTF-8 bytes `s` (its leading bytes).
pub open spec fn char_count(s: Seq<u8>) -> nat
    decreases s.len(),
{
    if s.len() == 0 {
        0
    } else {
        char_count(s.drop_last()) + if starts_char(s.last()) { 1nat } else { 0nat }
    }
}

/// Whether the character `'\u{2588}'` (bytes E2 96 88) starts at byte `p` of `line`.
pub open spec fn dark_at(line: Seq<u8>, p: int) -> bool {
    &&& 0 <= p
    &&& p + 3 <= line.len()
    &&& line[p] == 0xE2
    &&& line[p + 1] == 0x96
    &&& line[p + 2] == 0x88
}

/// The black square of a dark module at pixel position `(x, y)`.
pub open spec fn rect_text(x: nat, y: nat) -> Seq<char> {
    "<rect x=\""@ + decimal(x) + "\" y=\""@ + decimal(y) + "\" width=\"10\" height=\"10\" fill=\"black\"/>"@
}

/// The squares of the dark modules among the first `p` bytes of line `y`,
/// left to right; the module of a character is its character index.
pub open spec fn row_rects(line: Seq<u8>, y: nat, p: int) -> Seq<char>
    decreases p,
{
    if p <= 0 {
        Seq::empty()
    } else {
        row_rects(line, y, p - 1) + if dark_at(line, p - 1) {
            rect_text(char_count(line.take(p - 1)) * 10, y * 10)
        } else {
            Seq::empty()
        }
    }
}

/// The squares of the dark modules of the first `k` lines.
pub open spec fn body_rects(lines: Seq<Seq<u8>>, k: int) -> Seq<char>
    decreases k,
{
    if k <= 0 {
        Seq::empty()
    } else {
        body_rects(lines, k - 1) + row_rects(lines[k - 1], (k - 1) as nat, lines[k - 1].len() as int)
    }
}

/// The opening tag of the picture, `w` by `h` pixels.
pub open spec fn svg_open(w: nat, h: nat) -> Seq<char> {
    "<svg xmlns=\"http://www.w3.org/2000/svg\" width=\""@ + decimal(w) + "\" height=\""@ + decimal(h)
        + "\" viewBox=\"0 0 "@ + decimal(w) + " "@ + decimal(h) + "\">"@
}

/// The SVG picture of a rendered QR code whose UTF-8 bytes are `rendered`:
/// ten pixels per module, as wide as the first line has bytes (200 modules
/// when there is no line), as high as there are lines.
pub open spec fn svg_text(rendered: Seq<u8>) -> Seq<char> {
    let lines = lines_from(rendered, 0);
    let width = if lines.len() > 0 { lines[0].len() } else { 200 };
    svg_open(width * 10, lines.len() * 10) + "<rect width=\"100%\" height=\"100%\" fill=\"white\"/>"@
        + body_rects(lines, lines.len() as int) + "</svg>"@
}

/// The `data:` URL of an SVG picture given as text.
pub open spec fn svg_data_url(svg: Seq<char>) -> Seq<char> {
    "data:image/svg+xml;base64,"@ + base64_standard(encode_utf8(svg))
}

/// The `data:` URL of a picture holds the picture: after its 26-character
/// `data:image/svg+xml;base64,` prefix, the base64 text decodes to the
/// UTF-8 bytes of the SVG text.
pub proof fn lemma_data_url_decodes(svg: Seq<char>)
    ensures
        svg_data_url(svg).take(26) == "data:image/svg+xml;base64,"@,
        base64_decode(svg_data_url(svg).skip(26)) == encode_utf8(svg),
{
    reveal_strlit("data:image/svg+xml;base64,");
    let url = svg_data_url(svg);
    assert(url.take(26) =~= "data:image/svg+xml;base64,"@);
    assert(url.skip(26) =~= base64_standard(encode_utf8(svg)));
    lemma_base64_roundtrip(encode_utf8(svg));
}

/// The byte ranges `(start, end)` of the lines of `b` (see `lines_from`).
fn line_ranges(b: &[u8]) -> (r: Vec<(usize, usize)>)
    ensures
        r@.len() == lines_from(b@, 0).len(),
        forall|i: int| 0 <= i < r@.len() ==> {
            &&& (#[trigger] r@[i]).0 <= r@[i].1 <= b@.len()
            &&& b@.subrange(r@[i].0 as int, r@[i].1 as int) == lines_from(b@, 0)[i]
        },
{
    let n = b.len();
    let mut ranges: Vec<(usize, usize)> = Vec::new();
    let mut start: usize = 0;
    while start < n
        invariant
            n == b@.len(),
            start <= n,
            lines_from(b@, 0) == ranges@.map_values(|r: (usize, usize)| b@.subrange(r.0 as int, r.1 as int)) + lines_from(b@, start as int),
            forall|i: int| 0 <= i < ranges@.len() ==> (#[trigger] ranges@[i]).0 <= ranges@[i].1 <= b@.len(),
        decreases n - start,
    {
        let mut p = start;
        while p < n && b[p] != 10
            invariant
                start <= p <= n,
                n == b@.len(),
                newline_from(b@, start as int) == newline_from(b@, p as int),
            decreases n - p,
        {
            p = p + 1;
        }
        proof {
            lemma_newline_from_bounds(b@, start as int);
            assert(newline_from(b@, p as int) == p);
        }
        let ghost before = ranges@;
        if p == n {
            ranges.push((start, n));
            proof {
                assert(lines_from(b@, start as int) == seq![b@.subrange(start as int, n as int)]);
                assert(lines_from(b@, n as int) == Seq::<Seq<u8>>::empty());
                assert(ranges@.map_values(|r: (usize, usize)| b@.subrange(r.0 as int, r.1 as int))
                    =~= before.map_values(|r: (usize, usize)| b@.subrange(r.0 as int, r.1 as int)).push(
                    b@.subrange(start as int, n as int),
                ));
                assert(lines_from(b@, 0) =~= ranges@.map_values(
                    |r: (usize, usize)| b@.subrange(r.0 as int, r.1 as int),
                ) + lines_from(b@, n as int));
            }
            start = n;
        } else {
            let end = if p > start && b[p - 1] == 13 {
                p - 1
            } else {
                p
            };
            ranges.push((start, end));
            proof {
                let line = b@.subrange(start as int, p as int);
                assert(b@.subrange(start as int, end as int) == strip_cr(line)) by {
                    if p > start && b@[p - 1] == 13 {
                        assert(line.drop_last() =~= b@.subrange(start as int, end as int));
                    }
                }
                assert(lines_from(b@, start as int) == seq![strip_cr(line)] + lines_from(b@, p + 1));
                assert(ranges@.map_values(|r: (usize, usize)| b@.subrange(r.0 as int, r.1 as int))
                    =~= before.map_values(|r: (usize, usize)| b@.subrange(r.0 as int, r.1 as int)).push(
                    strip_cr(line),
                ));
                assert(lines_from(b@, 0) =~= ranges@.map_values(
                    |r: (usize, usize)| b@.subrange(r.0 as int, r.1 as int),
                ) + lines_from(b@, p + 1));
            }
            start = p + 1;
        }
    }
    proof {
        assert(lines_from(b@, start as int) == Seq::<Seq<u8>>::empty());
        assert(lines_from(b@, 0) =~= ranges@.map_values(|r: (usize, usize)| b@.subrange(r.0 as int, r.1 as int)));
        assert forall|i: int| 0 <= i < ranges@.len() implies b@.subrange(ranges@[i].0 as int, ranges@[i].1 as int)
            == lines_from(b@, 0)[i] by {
            assert(ranges@.map_values(|r: (usize, usize)| b@.subrange(r.0 as int, r.1 as int))[i]
                == b@.subrange(ranges@[i].0 as int, ranges@[i].1 as int));
        }
    }
    ranges
}

/// Appends the square of a dark module at pixel position `(x, y)`.
fn append_rect(out: &mut String, x: usize, y: usize)
    ensures
        final(out)@ == old(out)@ + rect_text(x as nat, y as nat),
{
    out.append("<rect x=\"");
    append_decimal(out, x as u64);
    out.append("\" y=\"");
    append_decimal(out, y as u64);
    out.append("\" width=\"10\" height=\"10\" fill=\"black\"/>");
    assert(out@ =~= old(out)@ + rect_text(x as nat, y as nat));
}

/// Appends the squares of the dark modules of line `y`, the bytes
/// `b[s..e]`.
fn append_row(out: &mut String, b: &[u8], s: usize, e: usize, y: usize)
    requires
        s <= e <= b@.len(),
        (e - s) * 10 <= usize::MAX,
        y * 10 <= usize::MAX,
    ensures
        final(out)@ == old(out)@ + row_rects(b@.subrange(s as int, e as int), y as nat, (e - s) as int),
{
    let ghost line = b@.subrange(s as int, e as int);
    let mut q: usize = 0;
    let mut count: usize = 0;
    while q < e - s
        invariant
            s <= e <= b@.len(),
            (e - s) * 10 <= usize::MAX,
            y * 10 <= usize::MAX,
            line == b@.subrange(s as int, e as int),
            q <= e - s,
            count == char_count(line.take(q as int)),
            count <= q,
            out@ == old(out)@ + row_rects(line, y as nat, q as int),
        decreases e - s - q,
    {
        let i = s + q;
        let dark = q + 3 <= e - s && b[i] == 0xE2 && b[i + 1] == 0x96 && b[i + 2] == 0x88;
        proof {
            assert(dark == dark_at(line, q as int));
        }
        if dark {
            append_rect(out, count * 10, y * 10);
        }
        proof {
            assert(line.take(q + 1).drop_last() =~= line.take(q as int));
            assert(line.take(q + 1).last() == line[q as int]);
        }
        if b[i] < 0x80 || b[i] >= 0xC0 {
            count = count + 1;
        }
        q = q + 1;
    }
    assert(line.take(q as int) =~= line);
}

/// The SVG picture of a QR code rendered as text (see `svg_text`).
pub fn svg_from_rendering(rendered: &str) -> (r: String)
    requires
        (encode_utf8(rendered@).len() + 1) * 10 <= usize::MAX,
    ensures
        r@ == svg_text(encode_utf8(rendered@)),
{
    let b = rendered.as_bytes();
    let ranges = line_ranges(b);
    let ghost lines = lines_from(b@, 0);
    let width: usize = if ranges.len() > 0 {
        ranges[0].1 - ranges[0].0
    } else {
        200
    };
    proof {
        if ranges@.len() > 0 {
            assert(b@.subrange(ranges@[0].0 as int, ranges@[0].1 as int) == lines[0]);
        }
    }
    let height = ranges.len();
    proof {
        lemma_lines_count(b@, 0);
    }
    let mut out = String::new();
    out.append("<svg xmlns=\"http://www.w3.org/2000/svg\" width=\"");
    append_decimal(&mut out, (width * 10) as u64);
    out.append("\" height=\"");
    append_decimal(&mut out, (height * 10) as u64);
    out.append("\" viewBox=\"0 0 ");
    append_decimal(&mut out, (width * 10) as u64);
    out.append(" ");
    append_decimal(&mut out, (height * 10) as u64);
    out.append("\">");
    out.append("<rect width=\"100%\" height=\"100%\" fill=\"white\"/>");
    let ghost head = out@;
    assert(head =~= svg_open((width * 10) as nat, (height * 10) as nat) + "<rect width=\"100%\" height=\"100%\" fill=\"white\"/>"@);
    let mut y: usize = 0;
    while y < height
        invariant
            height == ranges@.len(),
            height == lines.len(),
            height <= b@.len() + 1,
            (b@.len() + 1) * 10 <= usize::MAX,
            lines == lines_from(b@, 0),
            forall|i: int| 0 <= i < ranges@.len() ==> {
                &&& (#[trigger] ranges@[i]).0 <= ranges@[i].1 <= b@.len()
                &&& b@.subrange(ranges@[i].0 as int, ranges@[i].1 as int) == lines[i]
            },
            y <= height,
            out@ == head + body_rects(lines, y as int),
        decreases height - y,
    {
        let (s, e) = ranges[y];
        proof {
            assert(b@.subrange(s as int, e as int) == lines[y as int]);
        }
        append_row(&mut out, b, s, e, y);
        assert(out@ =~= head + body_rects(lines, y + 1));
        y = y + 1;
    }
    out.append("</svg>");
    assert(out@ =~= svg_text(b@));
    out
}

/// There are at most one more lines than bytes.
proof fn lemma_lines_count(b: Seq<u8>, start: int)
    requires
        0 <= start <= b.len(),
    ensures
        lines_from(b, start).len() <= b.len() - start + 1,
    decreases b.len() - start,
{
    if start < b.len() {
        lemma_newline_from_bounds(b, start);
        let p = newline_from(b, start);
        if p < b.len() {
            lemma_lines_count(b, p + 1);
        }
    }
}

/// The `data:` URL of the SVG picture of a rendered QR code (see
/// `svg_text`, `svg_data_url`); `None` when the picture would be too large
/// to encode.
pub fn qr_data_url_from_rendering(rendered: &str) -> (r: Option<String>)
    requires
        (encode_utf8(rendered@).len() + 1) * 10 <= usize::MAX,
    ensures
        r is Some ==> r->0@ == svg_data_url(svg_text(encode_utf8(rendered@))),
        r is None <==> encode_utf8(svg_text(encode_utf8(rendered@))).len() > usize::MAX / 2,
{
    let svg = svg_from_rendering(rendered);
    let svg_str = svg.as_str();
    let bytes = svg_str.as_bytes();
    assert(svg_str.spec_bytes() == encode_utf8(svg_str@));
    if bytes.len() > usize::MAX / 2 {
        return None;
    }
    let encoded = base64_encode(bytes);
    let mut url = String::from_str("data:image/svg+xml;base64,");
    url.append(encoded.as_str());
    Some(url)
}

/// Why no QR picture was made.
#[derive(Debug, Clone, Copy, PartialEq, Eq, Structural)]
pub enum QrImageError {
    /// The QR code itself could not be made.
    Encoding(QrErrorKind),
    /// The picture would be too large to encode.
    TooLarge,
}

/// The minimum size of the rendered QR code, in characters each way.
pub const QR_MIN_DIMENSION: u32 = 200;

/// Whether the picture of a rendering is too large for this machine to
/// build and encode (its text or the picture's text past the limits of
/// `usize`).
pub open spec fn picture_too_large(rendered: Seq<char>) -> bool {
    encode_utf8(rendered).len() >= usize::MAX / 10 || encode_utf8(svg_text(encode_utf8(rendered))).len() > usize::MAX
        / 2
}

/// Generates the QR code of `text` as an SVG picture in a base64 `data:`
/// URL: the code is rendered at a minimum of 200 by 200 characters, every
/// dark module becomes a 10-pixel black square on a white background. It
/// succeeds whenever the code can be made and its picture fits in memory.
pub fn generate_qr_svg(text: &str) -> (r: Result<String, QrImageError>)
    ensures
        match qr_rendering(text@, QR_MIN_DIMENSION, QR_MIN_DIMENSION) {
            Err(e) => r == Err::<String, QrImageError>(QrImageError::Encoding(e)),
            Ok(rendered) => match r {
                Ok(url) => url@ == svg_data_url(svg_text(encode_utf8(rendered))) && !picture_too_large(rendered),
                Err(e) => e == QrImageError::TooLarge && picture_too_large(rendered),
            },
        },
{
    match render_qr_text(text, QR_MIN_DIMENSION, QR_MIN_DIMENSION) {
        Err(e) => Err(QrImageError::Encoding(e)),
        Ok(rendered) => {
            let rs = rendered.as_str();
            let n = rs.as_bytes().len();
            assert(rs.spec_bytes() == encode_utf8(rs@));
            if n >= usize::MAX / 10 {
                return Err(QrImageError::TooLarge);
            }
            match qr_data_url_from_rendering(rs) {
                Some(url) => Ok(url),
                None => Err(QrImageError::TooLarge),
            }
        },
    }
}

} // verus!

