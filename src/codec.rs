//! The HTTP/1.1 codec of `actix-http`: it cuts requests off the head of the
//! read buffer and writes the date header.
use crate::buffer::buf_bytes;
use actix_http::error::ParseError;
use actix_http::h1::Codec;
use actix_http::h1::Message;
use bytes::BytesMut;
use tokio_util::codec::Decoder;
use vstd::prelude::*;

verus! {

#[verifier::external_type_specification]
#[verifier::external_body]
pub struct ExCodec(Codec);

#[verifier::external_type_specification]
#[verifier::external_body]
pub struct ExParseError(ParseError);

/// What the decoder took off the read buffer.
pub enum Frame {
    /// A complete request head, with the path of its target.
    Request(Vec<u8>),
    /// A piece of a request body, or its end.
    Payload,
}

/// How the decoder answered.
#[derive(PartialEq, Eq, Structural, Clone, Copy, Debug)]
pub enum DecodeKind {
    /// The input is not a valid request.
    Refused,
    /// No complete request yet: more bytes are needed.
    Incomplete,
    /// A piece of a request body, or its end.
    Body,
    /// A complete request head.
    Request,
}

/// What `decode` does on a codec in state `c` with the buffer holding `src`:
/// how it answers, how many bytes it takes off the front, the path of the
/// request it yields, and the codec's state afterwards. The parser reads only
/// its own state and the bytes.
pub uninterp spec fn decoded(c: Codec, src: Seq<u8>) -> (DecodeKind, nat, Seq<u8>, Codec);

/// Longest run of bytes without a line feed that the decoder is handed:
/// a header name lies within one line, and `http` refuses (and the decoder
/// then unwraps) a name of `LINE_LIMIT` bytes or more.
pub const LINE_LIMIT: usize = 65536;

/// The number of bytes since the last line feed before position `i`.
pub open spec fn run_at(s: Seq<u8>, i: int) -> nat
    decreases i,
{
    if i <= 0 || i > s.len() {
        0
    } else if s[i - 1] == 10u8 {
        0
    } else {
        run_at(s, i - 1) + 1
    }
}

/// Every run of bytes without a line feed is shorter than `LINE_LIMIT`.
pub open spec fn lines_fit(s: Seq<u8>) -> bool {
    forall|i: int| 0 <= i <= s.len() ==> #[trigger] run_at(s, i) < LINE_LIMIT
}

/// Dropping bytes from the front never lengthens a run.
pub proof fn run_at_skip(s: Seq<u8>, m: int, i: int)
    requires
        0 <= m <= s.len(),
        0 <= i <= s.len() - m,
    ensures
        run_at(s.skip(m), i) <= run_at(s, i + m),
    decreases i,
{
    if i > 0 {
        run_at_skip(s, m, i - 1);
    }
}

/// What is left of a buffer whose lines fit still has lines that fit.
pub proof fn lines_fit_skip(s: Seq<u8>, m: int)
    requires
        0 <= m <= s.len(),
        lines_fit(s),
    ensures
        lines_fit(s.skip(m)),
{
    assert forall|i: int| 0 <= i <= s.skip(m).len() implies #[trigger] run_at(s.skip(m), i)
        < LINE_LIMIT by {
        run_at_skip(s, m, i);
        assert(run_at(s, i + m) < LINE_LIMIT);
    }
}

/// Whether every run of bytes without a line feed in `bytes` is shorter
/// than `LINE_LIMIT`.
pub fn lines_fit_in(bytes: &[u8]) -> (r: bool)
    ensures
        r == lines_fit(bytes@),
{
    let mut run: usize = 0;
    let mut i: usize = 0;
    while i < bytes.len()
        invariant
            i <= bytes@.len(),
            run == run_at(bytes@, i as int),
            forall|k: int| 0 <= k <= i ==> #[trigger] run_at(bytes@, k) < LINE_LIMIT,
        decreases bytes@.len() - i,
    {
        if bytes[i] == 10u8 {
            run = 0;
        } else {
            run = run + 1;
        }
        i = i + 1;
        if run >= LINE_LIMIT {
            assert(!lines_fit(bytes@)) by {
                assert(run_at(bytes@, i as int) >= LINE_LIMIT);
            }
            return false;
        }
    }
    true
}

/// An ASCII digit.
pub open spec fn is_digit(b: u8) -> bool {
    48 <= b <= 57
}

/// An ASCII letter.
pub open spec fn is_letter(b: u8) -> bool {
    (65 <= b <= 90) || (97 <= b <= 122)
}

/// The IMF-fixdate layout, as in `Sun, 06 Nov 1994 08:49:37 GMT`.
pub open spec fn is_http_date(v: Seq<u8>) -> bool {
    &&& v.len() == 29
    &&& is_letter(v[0]) && is_letter(v[1]) && is_letter(v[2])
    &&& v[3] == 44u8 && v[4] == 32u8
    &&& is_digit(v[5]) && is_digit(v[6])
    &&& v[7] == 32u8
    &&& is_letter(v[8]) && is_letter(v[9]) && is_letter(v[10])
    &&& v[11] == 32u8
    &&& is_digit(v[12]) && is_digit(v[13]) && is_digit(v[14]) && is_digit(v[15])
    &&& v[16] == 32u8
    &&& is_digit(v[17]) && is_digit(v[18]) && v[19] == 58u8
    &&& is_digit(v[20]) && is_digit(v[21]) && v[22] == 58u8
    &&& is_digit(v[23]) && is_digit(v[24])
    &&& v.subrange(25, 29) == seq![32u8, 71u8, 77u8, 84u8]
}

/// Length of the date header line: `date: `, a 29-byte HTTP date, CRLF.
pub const DATE_LINE_LEN: usize = 37;

/// The shape of the date header line, whatever time it tells.
pub open spec fn is_date_line(d: Seq<u8>) -> bool {
    &&& d.len() == DATE_LINE_LEN
    &&& d.subrange(0, 6) == seq![100u8, 97u8, 116u8, 101u8, 58u8, 32u8]
    &&& d.subrange(35, 37) == seq![13u8, 10u8]
    &&& is_http_date(d.subrange(6, 35))
    &&& forall|i: int| 6 <= i < 35 ==> 32 <= #[trigger] d[i] <= 126
}

/// Relies on `Decoder::decode` for `h1::Codec`: the decoder only ever takes
/// bytes off the front of the buffer (`split_to`, `split`, `advance`), and a
/// request head is cut off by its parsed length, which is never zero. The
/// path is `Request::path` of the decoded head. It unwraps the header name
/// that `http` makes of each header, which fails from `LINE_LIMIT` bytes on.
#[verifier::external_body]
pub(crate) fn decode_frame(codec: &mut Codec, src: &mut BytesMut) -> (r: Result<
    Option<Frame>,
    ParseError,
>)
    requires
        lines_fit(buf_bytes(*old(src))),
    ensures
        ({
            let d = decoded(*old(codec), buf_bytes(*old(src)));
            let before = buf_bytes(*old(src));
            let after = buf_bytes(*final(src));
            &&& *final(codec) == d.3
            &&& (r is Err) <==> d.0 == DecodeKind::Refused
            &&& (r matches Ok(None)) <==> d.0 == DecodeKind::Incomplete
            &&& (r matches Ok(Some(Frame::Payload))) <==> d.0 == DecodeKind::Body
            &&& (r matches Ok(Some(Frame::Request(path))) ==> d.0 == DecodeKind::Request && path@
                == d.2 && 0 < d.1)
            &&& (r is Ok ==> d.1 <= before.len() && after == before.skip(d.1 as int))
        }),
{
    match codec.decode(src) {
        Ok(Some(Message::Item(req))) => Ok(Some(Frame::Request(req.path().as_bytes().to_vec()))),
        Ok(Some(Message::Chunk(_))) => Ok(Some(Frame::Payload)),
        Ok(None) => Ok(None),
        Err(e) => Err(e),
    }
}

/// Relies on `ServiceConfig::write_date_header` of the codec's config, in
/// lower case: appends `date: `, the current date as `httpdate` prints it
/// (IMF-fixdate: weekday, day, month, four-digit year before 9999, time and
/// `GMT`) and CRLF.
#[verifier::external_body]
pub(crate) fn write_date_header(codec: &Codec, dst: &mut BytesMut)
    requires
        buf_bytes(*old(dst)).len() + DATE_LINE_LEN <= isize::MAX,
    ensures
        buf_bytes(*final(dst)).len() == buf_bytes(*old(dst)).len() + DATE_LINE_LEN,
        buf_bytes(*final(dst)).subrange(0, buf_bytes(*old(dst)).len() as int) == buf_bytes(
            *old(dst),
        ),
        is_date_line(
            buf_bytes(*final(dst)).subrange(
                buf_bytes(*old(dst)).len() as int,
                buf_bytes(*final(dst)).len() as int,
            ),
        ),
{
    codec.config().write_date_header(dst, false)
}

} // verus!
