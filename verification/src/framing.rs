//! Wire-format framing: `Content-Length: <n>\r\n\r\n<body>`.
//!
//! A frame is a header block (lines separated by CRLF, ended by an empty
//! line) followed by exactly `n` body bytes, where `n` is the value of the
//! `Content-Length` header.  Encoding always produces the canonical single
//! header; decoding accepts any header block that contains a
//! `Content-Length` line, as the protocol allows additional headers.

use vstd::prelude::*;

verus! {

pub const CR: u8 = 13;
pub const LF: u8 = 10;

/// The decimal digits of `n`, most significant first, as ASCII bytes.
pub open spec fn spec_dec_digits(n: nat) -> Seq<u8>
    decreases n,
{
    if n < 10 {
        seq![(48 + n) as u8]
    } else {
        spec_dec_digits(n / 10).push((48 + n % 10) as u8)
    }
}

pub open spec fn is_digit(b: u8) -> bool {
    48 <= b <= 57
}

pub open spec fn all_digits(s: Seq<u8>) -> bool {
    forall|i: int| 0 <= i < s.len() ==> is_digit(#[trigger] s[i])
}

/// The numeric value of a non-empty digit string, folding from the right.
pub open spec fn spec_digits_value(s: Seq<u8>) -> nat
    recommends
        s.len() > 0,
        all_digits(s),
    decreases s.len(),
{
    if s.len() <= 1 {
        if s.len() == 1 {
            (s[0] - 48) as nat
        } else {
            0
        }
    } else {
        spec_digits_value(s.drop_last()) * 10 + (s.last() - 48) as nat
    }
}

pub proof fn lemma_dec_digits_all_digits(n: nat)
    ensures
        spec_dec_digits(n).len() >= 1,
        all_digits(spec_dec_digits(n)),
    decreases n,
{
    if n >= 10 {
        lemma_dec_digits_all_digits(n / 10);
    }
}

/// Parsing the canonical digit string of `n` gives back `n`.
pub proof fn lemma_digits_value_of_dec_digits(n: nat)
    ensures
        spec_digits_value(spec_dec_digits(n)) == n,
    decreases n,
{
    if n < 10 {
    } else {
        lemma_digits_value_of_dec_digits(n / 10);
        lemma_dec_digits_all_digits(n / 10);
        let s = spec_dec_digits(n);
        assert(s.drop_last() =~= spec_dec_digits(n / 10));
    }
}

/// Render `n` as decimal ASCII digits.
pub fn u64_to_dec(n: u64) -> (r: Vec<u8>)
    ensures
        r@ == spec_dec_digits(n as nat),
    decreases n,
{
    if n < 10 {
        let mut v: Vec<u8> = Vec::new();
        v.push(48 + n as u8);
        assert(v@ =~= spec_dec_digits(n as nat));
        v
    } else {
        let mut v = u64_to_dec(n / 10);
        v.push(48 + (n % 10) as u8);
        v
    }
}

/// `Content-Length: ` as ASCII bytes.
pub open spec fn header_prefix() -> Seq<u8> {
    seq![67u8, 111, 110, 116, 101, 110, 116, 45, 76, 101, 110, 103, 116, 104, 58, 32]
}

/// The canonical encoding of one frame.
pub open spec fn spec_encode_frame(body: Seq<u8>) -> Seq<u8> {
    header_prefix() + spec_dec_digits(body.len()) + seq![CR, LF, CR, LF] + body
}

/// Encode one frame: header, blank line, body.
pub fn encode_frame(body: &Vec<u8>) -> (r: Vec<u8>)
    ensures
        r@ == spec_encode_frame(body@),
{
    let mut out: Vec<u8> = Vec::new();
    out.push(67);
    out.push(111);
    out.push(110);
    out.push(116);
    out.push(101);
    out.push(110);
    out.push(116);
    out.push(45);
    out.push(76);
    out.push(101);
    out.push(110);
    out.push(103);
    out.push(116);
    out.push(104);
    out.push(58);
    out.push(32);
    assert(out@ =~= header_prefix());
    let mut digits = u64_to_dec(body.len() as u64);
    out.append(&mut digits);
    out.push(CR);
    out.push(LF);
    out.push(CR);
    out.push(LF);
    let ghost head = out@;
    assert(head =~= header_prefix() + spec_dec_digits(body@.len()) + seq![CR, LF, CR, LF]);
    let mut i: usize = 0;
    while i < body.len()
        invariant
            0 <= i <= body.len(),
            out@ == head + body@.subrange(0, i as int),
        decreases body.len() - i,
    {
        out.push(body[i]);
        i = i + 1;
        assert(out@ =~= head + body@.subrange(0, i as int));
    }
    assert(body@.subrange(0, body@.len() as int) =~= body@);
    out
}

/// Smallest index `j >= i` where a CRLF pair starts, if any.
pub open spec fn spec_find_crlf(s: Seq<u8>, i: int) -> Option<int>
    recommends
        0 <= i <= s.len(),
    decreases s.len() - i,
    when 0 <= i <= s.len()
{
    if i + 2 > s.len() {
        None
    } else if s[i] == CR && s[i + 1] == LF {
        Some(i)
    } else {
        spec_find_crlf(s, i + 1)
    }
}

proof fn lemma_find_crlf_bounds(s: Seq<u8>, i: int)
    requires
        0 <= i <= s.len(),
    ensures
        match spec_find_crlf(s, i) {
            Some(j) => i <= j && j + 2 <= s.len() && s[j] == CR && s[j + 1] == LF,
            None => true,
        },
    decreases s.len() - i,
{
    if i + 2 > s.len() {
    } else if s[i] == CR && s[i + 1] == LF {
    } else {
        lemma_find_crlf_bounds(s, i + 1);
    }
}

/// What decoding yields on a byte sequence.
pub enum DecodeSpec {
    /// A complete frame: the body, and how many bytes of input it used.
    Frame(Seq<u8>, int),
    /// The input ends before the frame is complete.
    NeedMore,
    /// The header block is not a valid frame header.
    Malformed,
}

/// Is the line `Content-Length: <digits>` with a value that fits in `u64`?
pub open spec fn spec_content_length_of_line(line: Seq<u8>) -> Option<nat> {
    if line.len() > header_prefix().len() && line.subrange(0, header_prefix().len() as int)
        == header_prefix() {
        let digits = line.subrange(header_prefix().len() as int, line.len() as int);
        if all_digits(digits) && spec_digits_value(digits) <= u64::MAX {
            Some(spec_digits_value(digits))
        } else {
            None
        }
    } else {
        None
    }
}

/// Walk the header block starting at `i`; `cl` is the `Content-Length`
/// seen so far.  A later `Content-Length` line overrides an earlier one.
pub open spec fn spec_header_block(s: Seq<u8>, i: int, cl: Option<nat>) -> DecodeSpec
    recommends
        0 <= i <= s.len(),
    decreases s.len() - i,
    when 0 <= i <= s.len()
{
    if i + 2 <= s.len() && s[i] == CR && s[i + 1] == LF {
        // blank line: end of headers
        match cl {
            Some(n) => {
                if i + 2 + n <= s.len() {
                    DecodeSpec::Frame(s.subrange(i + 2, i + 2 + n), i + 2 + n)
                } else {
                    DecodeSpec::NeedMore
                }
            },
            None => DecodeSpec::Malformed,
        }
    } else {
        match spec_find_crlf(s, i) {
            None => DecodeSpec::NeedMore,
            Some(j) => {
                if i <= j && j + 2 <= s.len() {
                    let line = s.subrange(i, j);
                    let cl2 = match spec_content_length_of_line(line) {
                        Some(n) => Some(n),
                        None => cl,
                    };
                    spec_header_block(s, j + 2, cl2)
                } else {
                    DecodeSpec::Malformed
                }
            },
        }
    }
}

/// Decoding one frame from the start of `s`.
pub open spec fn spec_decode_frame(s: Seq<u8>) -> DecodeSpec {
    spec_header_block(s, 0, None)
}

proof fn lemma_find_crlf_at(s: Seq<u8>, i: int, j: int)
    requires
        0 <= i <= j,
        j + 2 <= s.len(),
        forall|k: int| i <= k < j ==> s[k] != CR,
        s[j] == CR,
        s[j + 1] == LF,
    ensures
        spec_find_crlf(s, i) == Some(j),
    decreases j - i,
{
    if i == j {
    } else {
        lemma_find_crlf_at(s, i + 1, j);
    }
}

/// Decoding the encoding of `body`, with anything at all appended, yields
/// exactly `body` and consumes exactly the encoding.
pub proof fn lemma_frame_round_trip(body: Seq<u8>, rest: Seq<u8>)
    requires
        body.len() <= u64::MAX,
    ensures
        spec_decode_frame(spec_encode_frame(body) + rest) == DecodeSpec::Frame(
            body,
            spec_encode_frame(body).len() as int,
        ),
{
    let enc = spec_encode_frame(body);
    let s = enc + rest;
    let n = body.len() as int;
    let digits = spec_dec_digits(body.len());
    let dl = digits.len() as int;
    let ll = 16 + dl;  // length of the Content-Length line
    lemma_dec_digits_all_digits(body.len());
    lemma_digits_value_of_dec_digits(body.len());
    assert(enc.len() == ll + 4 + n);
    assert forall|k: int| 0 <= k < ll + 4 implies s[k] == (header_prefix() + digits + seq![
        CR,
        LF,
        CR,
        LF,
    ])[k] by {
        assert(s[k] == enc[k]);
    }
    assert forall|k: int| 0 <= k < ll implies s[k] != CR by {
        if k < 16 {
            assert(s[k] == header_prefix()[k]);
        } else {
            assert(s[k] == digits[k - 16]);
            assert(is_digit(digits[k - 16]));
        }
    }
    assert(s[ll] == CR);
    assert(s[ll + 1] == LF);
    assert(s[ll + 2] == CR);
    assert(s[ll + 3] == LF);
    // the first line is found as a whole
    assert(s[0] == header_prefix()[0]);
    lemma_find_crlf_at(s, 0, ll);
    // that line carries the body length
    let line = s.subrange(0, ll);
    assert(line.subrange(0, 16) =~= header_prefix());
    assert(line.subrange(16, ll) =~= digits);
    assert(spec_content_length_of_line(line) == Some(body.len()));
    assert(spec_header_block(s, 0, None) == spec_header_block(s, ll + 2, Some(body.len())));
    // the blank line ends the headers, and the body follows in full
    assert(ll + 2 + 2 + n <= s.len());
    assert(s.subrange(ll + 4, ll + 4 + n) =~= body);
    assert(spec_header_block(s, ll + 2, Some(body.len())) == DecodeSpec::Frame(body, ll + 4 + n));
}

/// The concatenation of the encodings of a sequence of bodies.
pub open spec fn spec_encode_stream(bodies: Seq<Seq<u8>>) -> Seq<u8>
    decreases bodies.len(),
{
    if bodies.len() == 0 {
        Seq::empty()
    } else {
        spec_encode_frame(bodies[0]) + spec_encode_stream(bodies.drop_first())
    }
}

/// Frames written one after the other never blur together: a decoder at
/// the head of the stream sees exactly the first body, and what remains
/// is exactly the stream of the other frames, in order.
pub proof fn lemma_stream_keeps_frames_apart(bodies: Seq<Seq<u8>>)
    requires
        bodies.len() > 0,
        bodies[0].len() <= u64::MAX,
    ensures
        ({
            let s = spec_encode_stream(bodies);
            let c = spec_encode_frame(bodies[0]).len() as int;
            spec_decode_frame(s) == DecodeSpec::Frame(bodies[0], c) && s.subrange(c, s.len() as int)
                == spec_encode_stream(bodies.drop_first())
        }),
{
    let s = spec_encode_stream(bodies);
    let enc = spec_encode_frame(bodies[0]);
    let tail = spec_encode_stream(bodies.drop_first());
    assert(s == enc + tail);
    lemma_frame_round_trip(bodies[0], tail);
    assert(s.subrange(enc.len() as int, s.len() as int) =~= tail);
}

/// The exec-level result of decoding.
pub enum DecodeResult {
    /// A complete frame: the body, and how many input bytes it used.
    Frame(Vec<u8>, usize),
    /// The input ends before the frame is complete.
    NeedMore,
    /// The header block is not a valid frame header.
    Malformed,
}

pub open spec fn decode_result_matches(r: DecodeResult, s: DecodeSpec) -> bool {
    match s {
        DecodeSpec::Frame(body, used) => match r {
            DecodeResult::Frame(b, u) => b@ == body && u == used,
            _ => false,
        },
        DecodeSpec::NeedMore => r is NeedMore,
        DecodeSpec::Malformed => r is Malformed,
    }
}

/// Find the first CRLF at or after `start`.
fn find_crlf(buf: &Vec<u8>, start: usize) -> (r: Option<usize>)
    requires
        start <= buf.len(),
    ensures
        match r {
            Some(j) => spec_find_crlf(buf@, start as int) == Some(j as int) && start <= j && j + 2
                <= buf.len(),
            None => spec_find_crlf(buf@, start as int) is None,
        },
{
    let mut i: usize = start;
    loop
        invariant
            start <= i <= buf.len(),
            spec_find_crlf(buf@, start as int) == spec_find_crlf(buf@, i as int),
        decreases buf.len() - i,
    {
        if buf.len() - i < 2 {
            return None;
        }
        if buf[i] == CR && buf[i + 1] == LF {
            return Some(i);
        }
        i = i + 1;
    }
}

/// Parse a whole digit string as a `u64`; `None` when empty, when a byte
/// is not a digit, or when the value does not fit.
pub fn parse_digits(buf: &Vec<u8>, start: usize, end: usize) -> (r: Option<u64>)
    requires
        start <= end <= buf.len(),
    ensures
        ({
            let digits = buf@.subrange(start as int, end as int);
            match r {
                Some(v) => all_digits(digits) && digits.len() > 0 && spec_digits_value(digits)
                    == v,
                None => !(all_digits(digits) && digits.len() > 0 && spec_digits_value(digits)
                    <= u64::MAX),
            }
        }),
{
    if start == end {
        return None;
    }
    let ghost digits = buf@.subrange(start as int, end as int);
    let mut acc: u64 = 0;
    let mut i: usize = start;
    while i < end
        invariant
            start <= i <= end <= buf.len(),
            digits == buf@.subrange(start as int, end as int),
            all_digits(digits.subrange(0, i - start)),
            acc == spec_digits_value(digits.subrange(0, i - start)),
        decreases end - i,
    {
        let b = buf[i];
        if b < 48 || b > 57 {
            assert(digits[i - start] == b);
            return None;
        }
        let d = b - 48;
        if acc > (u64::MAX - d as u64) / 10 {
            proof {
                let pre = digits.subrange(0, i + 1 - start);
                assert(pre.drop_last() =~= digits.subrange(0, i - start));
                assert(pre.last() == b);
                assert(pre.len() >= 2 ==> spec_digits_value(pre) == spec_digits_value(
                    digits.subrange(0, i - start),
                ) * 10 + (b - 48) as nat);
                assert(spec_digits_value(pre) > u64::MAX) by {
                    let m = u64::MAX as nat;
                    let dd = (b - 48) as nat;
                    assert(acc * 10 + dd > m) by (nonlinear_arith)
                        requires
                            acc > (m - dd) / 10,
                            dd < 10,
                            m == u64::MAX as nat,
                    ;
                }
                if all_digits(digits) {
                    lemma_digits_value_monotone(digits, i + 1 - start);
                }
            }
            return None;
        }
        acc = acc * 10 + d as u64;
        i = i + 1;
        proof {
            let pre = digits.subrange(0, i - start);
            assert(pre.drop_last() =~= digits.subrange(0, i - 1 - start));
            assert(pre.last() == b);
            if i - 1 == start {
                assert(pre.len() == 1);
                assert(spec_digits_value(pre) == (b - 48) as nat);
            } else {
                assert(spec_digits_value(pre) == spec_digits_value(digits.subrange(
                    0,
                    i - 1 - start,
                )) * 10 + (b - 48) as nat);
            }
        }
    }
    assert(digits.subrange(0, (end - start) as int) =~= digits);
    Some(acc)
}

/// A prefix of a digit string is worth no more than the whole string.
pub proof fn lemma_digits_value_monotone(s: Seq<u8>, k: int)
    requires
        all_digits(s),
        0 < k <= s.len(),
    ensures
        spec_digits_value(s.subrange(0, k)) <= spec_digits_value(s),
    decreases s.len() - k,
{
    if k == s.len() {
        assert(s.subrange(0, k) =~= s);
    } else {
        lemma_digits_value_monotone(s, k + 1);
        let p = s.subrange(0, k + 1);
        assert(p.drop_last() =~= s.subrange(0, k));
        assert(spec_digits_value(p) == spec_digits_value(s.subrange(0, k)) * 10 + (p.last()
            - 48) as nat);
    }
}

/// Does `buf[start..end]` carry the `Content-Length: ` prefix?
fn has_cl_prefix(buf: &Vec<u8>, start: usize, end: usize) -> (r: bool)
    requires
        start <= end <= buf.len(),
    ensures
        ({
            let line = buf@.subrange(start as int, end as int);
            r == (line.len() > header_prefix().len() && line.subrange(
                0,
                header_prefix().len() as int,
            ) == header_prefix())
        }),
{
    let ghost line = buf@.subrange(start as int, end as int);
    if end - start <= 16 {
        assert(line.len() <= 16);
        return false;
    }
    let mut p: Vec<u8> = Vec::new();
    p.push(67);
    p.push(111);
    p.push(110);
    p.push(116);
    p.push(101);
    p.push(110);
    p.push(116);
    p.push(45);
    p.push(76);
    p.push(101);
    p.push(110);
    p.push(103);
    p.push(116);
    p.push(104);
    p.push(58);
    p.push(32);
    assert(p@ =~= header_prefix());
    let mut i: usize = 0;
    while i < 16
        invariant
            0 <= i <= 16,
            start + 16 < end <= buf.len(),
            p@ =~= header_prefix(),
            p.len() == 16,
            line == buf@.subrange(start as int, end as int),
            forall|k: int| 0 <= k < i ==> line[k] == header_prefix()[k],
        decreases 16 - i,
    {
        if buf[start + i] != p[i] {
            assert(line[i as int] == buf@[start + i]);
            assert(line.subrange(0, 16)[i as int] == line[i as int]);
            assert(line.subrange(0, 16) != header_prefix());
            return false;
        }
        i = i + 1;
    }
    assert(line.subrange(0, 16) =~= header_prefix());
    true
}

/// Decode one frame from the front of `buf`.
///
/// Yields the body and the number of bytes consumed, or reports that more
/// input is needed, or that the header block is malformed.
pub fn decode_frame(buf: &Vec<u8>) -> (r: DecodeResult)
    ensures
        decode_result_matches(r, spec_decode_frame(buf@)),
{
    let mut i: usize = 0;
    let mut cl: Option<u64> = None;
    loop
        invariant
            0 <= i <= buf.len(),
            spec_header_block(buf@, 0, None) == spec_header_block(
                buf@,
                i as int,
                match cl {
                    Some(v) => Some(v as nat),
                    None => None,
                },
            ),
        decreases buf.len() - i,
    {
        if buf.len() - i >= 2 && buf[i] == CR && buf[i + 1] == LF {
            // blank line: headers end here
            match cl {
                Some(n) => {
                    let remaining = buf.len() - (i + 2);
                    if (remaining as u64) >= n {
                        let n_us = n as usize;
                        let mut body: Vec<u8> = Vec::new();
                        let mut k: usize = 0;
                        while k < n_us
                            invariant
                                0 <= k <= n_us,
                                i + 2 + n_us <= buf.len(),
                                body@ == buf@.subrange(i + 2, i + 2 + k),
                            decreases n_us - k,
                        {
                            body.push(buf[i + 2 + k]);
                            k = k + 1;
                            assert(body@ =~= buf@.subrange(i + 2, i + 2 + k));
                        }
                        return DecodeResult::Frame(body, i + 2 + n_us);
                    } else {
                        return DecodeResult::NeedMore;
                    }
                },
                None => {
                    return DecodeResult::Malformed;
                },
            }
        }
        let j = match find_crlf(buf, i) {
            Some(j) => j,
            None => {
                return DecodeResult::NeedMore;
            },
        };
        proof {
            lemma_find_crlf_bounds(buf@, i as int);
        }
        // one header line: buf[i..j]
        if has_cl_prefix(buf, i, j) {
            match parse_digits(buf, i + 16, j) {
                Some(v) => {
                    proof {
                        let line = buf@.subrange(i as int, j as int);
                        let digits = line.subrange(16, line.len() as int);
                        assert(digits =~= buf@.subrange(i + 16, j as int));
                        assert(spec_content_length_of_line(line) == Some(v as nat));
                    }
                    cl = Some(v);
                },
                None => {
                    proof {
                        let line = buf@.subrange(i as int, j as int);
                        let digits = line.subrange(16, line.len() as int);
                        assert(digits =~= buf@.subrange(i + 16, j as int));
                        assert(spec_content_length_of_line(line) is None);
                    }
                    // keep any earlier value, as the spec does
                },
            }
        } else {
            proof {
                let line = buf@.subrange(i as int, j as int);
                assert(spec_content_length_of_line(line) is None);
            }
        }
        i = j + 2;
    }
}

} // verus!
