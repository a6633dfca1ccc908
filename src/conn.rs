//! The per-connection state machine: read, decode and answer, write.
//!
//! The caller owns the socket. It reports each read and write to the
//! connection, which keeps the buffers and says what to do next. No event
//! is awaited between decoding a request and appending its answer, so the
//! answers leave in request order.
use crate::buffer::{
    buf_advance, buf_as_slice, buf_bytes, buf_capacity, buf_clear, buf_extend, buf_len,
    buf_reserve, buf_with_capacity,
};
use crate::codec::{
    decode_frame, decoded, is_date_line, lines_fit, lines_fit_in, lines_fit_skip, write_date_header,
    DecodeKind, Frame,
};
use actix_http::error::ParseError;
use crate::wire::{
    is_root, literal_lengths, replies, replies_in_request_order, replies_push, reply, BODY,
    CONTENT_LENGTH, CONTENT_TYPE, HDR_END, MAX_REPLY, SERVER, STATUS_NOT_FOUND, STATUS_OK,
};
use actix_http::h1::Codec;
use bytes::BytesMut;
use vstd::prelude::*;

verus! {

/// Capacity each buffer starts with, and the step it grows by.
pub const BUF_STEP: usize = 32768;

/// Free space the read buffer keeps before each read.
pub const READ_HEADROOM: usize = 512;

/// Free space above which the write buffer is not grown before decoding.
pub const WRITE_HEADROOM: usize = 512;

/// Where a connection stands.
#[derive(PartialEq, Eq, Structural, Clone, Copy, Debug)]
pub enum Phase {
    /// Taking bytes from the socket.
    Reading,
    /// The socket has no more bytes for now: requests are to be decoded.
    Decoding,
    /// Answers wait in the write buffer.
    Writing,
    /// The connection is over; its resources can be released.
    Closed,
}

/// How a connection ended.
#[derive(PartialEq, Eq, Structural, Clone, Copy, Debug)]
pub enum Outcome {
    /// The peer closed its side.
    Clean,
    /// An I/O error, a refused write or a request that could not be decoded.
    Failed,
}

/// What the caller is to do next.
#[derive(PartialEq, Eq, Structural, Clone, Copy, Debug)]
pub enum Next {
    /// Read again from the socket.
    Read,
    /// Call `decode_requests`.
    Decode,
    /// Write `pending_output` to the socket.
    Write,
    /// Wait until the socket is readable or writable, then read.
    Wait,
    /// Drop the connection.
    Close(Outcome),
}

/// The state of a connection, and its history.
pub struct ConnView {
    pub phase: Phase,
    /// Bytes read and not yet taken by the decoder.
    pub input: Seq<u8>,
    /// Answers not yet accepted by the socket.
    pub output: Seq<u8>,
    /// Every byte that the socket has accepted, in order.
    pub sent: Seq<u8>,
    /// The path of every request answered, in order.
    pub paths: Seq<Seq<u8>>,
    /// The date header line each answer carried.
    pub dates: Seq<Seq<u8>>,
    /// The decoder's state.
    pub codec: Codec,
}

/// What decoding a whole input gives.
pub struct DecodeRun {
    /// The decoder refused the input or met a request body.
    pub fails: bool,
    /// The paths of the requests decoded, in order.
    pub paths: Seq<Seq<u8>>,
    /// The decoder's state at the end.
    pub codec: Codec,
    /// The bytes left when the decoder asked for more.
    pub rest: Seq<u8>,
}

/// Decodes request after request from `input`, starting on a codec in state
/// `c`, until the decoder asks for more bytes, refuses, or meets a body.
pub open spec fn decode_run(c: Codec, input: Seq<u8>) -> DecodeRun
    decreases input.len(),
{
    let d = decoded(c, input);
    if d.0 == DecodeKind::Request && 0 < d.1 <= input.len() {
        let tail = decode_run(d.3, input.skip(d.1 as int));
        DecodeRun { paths: seq![d.2] + tail.paths, ..tail }
    } else if d.0 == DecodeKind::Incomplete && d.1 <= input.len() {
        DecodeRun { fails: false, paths: Seq::empty(), codec: d.3, rest: input.skip(d.1 as int) }
    } else {
        DecodeRun { fails: true, paths: Seq::empty(), codec: d.3, rest: input }
    }
}

pub struct Connection {
    read_buf: BytesMut,
    write_buf: BytesMut,
    codec: Codec,
    phase: Phase,
    sent: Ghost<Seq<u8>>,
    paths: Ghost<Seq<Seq<u8>>>,
    dates: Ghost<Seq<Seq<u8>>>,
}

impl View for Connection {
    type V = ConnView;

    closed spec fn view(&self) -> ConnView {
        ConnView {
            phase: self.phase,
            input: buf_bytes(self.read_buf),
            output: buf_bytes(self.write_buf),
            sent: self.sent@,
            paths: self.paths@,
            dates: self.dates@,
            codec: self.codec,
        }
    }
}

/// Grows `b` by one step when less than `min_free` bytes are free.
fn reserve_headroom(b: &mut BytesMut, min_free: usize)
    requires
        buf_bytes(*old(b)).len() + BUF_STEP <= isize::MAX,
    ensures
        buf_bytes(*final(b)) == buf_bytes(*old(b)),
{
    let free = buf_capacity(b) - buf_len(b);
    if free < min_free {
        buf_reserve(b, BUF_STEP);
    }
}

/// The bytes delivered and the bytes left after a run of partial writes
/// accepting `ns[0]`, `ns[1]`, ... bytes of what is pending.
pub open spec fn after_writes(sent: Seq<u8>, out: Seq<u8>, ns: Seq<nat>) -> (Seq<u8>, Seq<u8>)
    decreases ns.len(),
{
    if ns.len() == 0 {
        (sent, out)
    } else {
        let n = ns[0] as int;
        after_writes(sent + out.take(n), out.skip(n), ns.skip(1))
    }
}

/// The total number of bytes a run of writes accepted.
pub open spec fn total(ns: Seq<nat>) -> nat
    decreases ns.len(),
{
    if ns.len() == 0 {
        0
    } else {
        ns[0] + total(ns.skip(1))
    }
}

/// However the socket splits them, a run of partial writes that accepts
/// `total(ns)` bytes delivers exactly the first `total(ns)` pending bytes,
/// in order, once each, and leaves the rest pending.
pub proof fn split_writes_deliver_in_order(sent: Seq<u8>, out: Seq<u8>, ns: Seq<nat>)
    requires
        total(ns) <= out.len(),
    ensures
        after_writes(sent, out, ns) == (sent + out.take(total(ns) as int), out.skip(
            total(ns) as int,
        )),
    decreases ns.len(),
{
    if ns.len() == 0 {
        assert(sent + out.take(0) =~= sent);
        assert(out.skip(0) =~= out);
    } else {
        let n = ns[0] as int;
        let rest = ns.skip(1);
        split_writes_deliver_in_order(sent + out.take(n), out.skip(n), rest);
        partial_writes_compose(sent, out, n, total(rest) as int);
    }
}

/// Writing `n` pending bytes and then `m` more delivers, and leaves
/// pending, exactly what one write of `n + m` bytes would: split writes
/// neither lose nor repeat a byte.
pub proof fn partial_writes_compose(sent: Seq<u8>, out: Seq<u8>, n: int, m: int)
    requires
        0 <= n,
        0 <= m,
        n + m <= out.len(),
    ensures
        sent + out.take(n) + out.skip(n).take(m) == sent + out.take(n + m),
        out.skip(n).skip(m) == out.skip(n + m),
{
    assert(sent + out.take(n) + out.skip(n).take(m) =~= sent + out.take(n + m));
    assert(out.skip(n).skip(m) =~= out.skip(n + m));
}

impl Connection {
    /// The connection's invariant: what the socket accepted, followed by what
    /// waits to be written, is exactly the answers to the requests decoded so
    /// far, in order; nothing is lost, repeated or reordered.
    pub open spec fn wf(&self) -> bool {
        &&& self@.paths.len() == self@.dates.len()
        &&& forall|i: int|
            0 <= i < self@.paths.len() && is_root(#[trigger] self@.paths[i]) ==> is_date_line(
                self@.dates[i],
            )
        &&& self@.sent + self@.output == replies(self@.paths, self@.dates)
        &&& self@.phase == Phase::Writing ==> self@.output.len() > 0
    }

    /// A fresh connection around a codec, with empty buffers.
    pub fn new(codec: Codec) -> (r: Connection)
        ensures
            r.wf(),
            r@.phase == Phase::Reading,
            r@.input == Seq::<u8>::empty(),
            r@.output == Seq::<u8>::empty(),
            r@.sent == Seq::<u8>::empty(),
            r@.paths == Seq::<Seq<u8>>::empty(),
            r@.codec == codec,
    {
        let r = Connection {
            read_buf: buf_with_capacity(BUF_STEP),
            write_buf: buf_with_capacity(BUF_STEP),
            codec,
            phase: Phase::Reading,
            sent: Ghost(Seq::empty()),
            paths: Ghost(Seq::empty()),
            dates: Ghost(Seq::empty()),
        };
        assert(r@.sent + r@.output =~= Seq::<u8>::empty());
        r
    }

    pub fn phase(&self) -> (r: Phase)
        ensures
            r == self@.phase,
    {
        self.phase
    }

    /// Number of bytes read and not yet decoded.
    pub fn input_len(&self) -> (r: usize)
        ensures
            r == self@.input.len(),
    {
        buf_len(&self.read_buf)
    }

    /// Whether the write buffer has room for the answers to every request
    /// that the read buffer could hold: each request takes at least one byte
    /// and each answer at most `MAX_REPLY`.
    pub fn room_to_decode(&self) -> (r: bool)
        ensures
            r == (self@.output.len() + MAX_REPLY * self@.input.len() + BUF_STEP <= isize::MAX),
    {
        let input = buf_len(&self.read_buf) as u128;
        let output = buf_len(&self.write_buf) as u128;
        assert(input * (MAX_REPLY as u128) <= 0xffff_ffff_ffff_ffffu128 * 256) by (nonlinear_arith)
            requires
                input <= 0xffff_ffff_ffff_ffffu128,
        ;
        output + input * (MAX_REPLY as u128) + (BUF_STEP as u128) <= (isize::MAX as u128)
    }

    /// The answers that wait to be written, oldest byte first.
    pub fn pending_output(&self) -> (r: &[u8])
        ensures
            r@ == self@.output,
    {
        buf_as_slice(&self.write_buf)
    }

    /// A read returned `data`. No bytes means that the peer closed its side:
    /// the connection ends cleanly. Otherwise the bytes join the read buffer,
    /// after it was given room, and the caller reads again.
    pub fn on_data(&mut self, data: &[u8]) -> (next: Next)
        requires
            old(self).wf(),
            old(self)@.phase == Phase::Reading,
            old(self)@.input.len() + data@.len() + BUF_STEP <= isize::MAX,
        ensures
            final(self).wf(),
            data@.len() == 0 ==> next == Next::Close(Outcome::Clean) && final(self)@ == (
            ConnView { phase: Phase::Closed, ..old(self)@ }),
            data@.len() > 0 ==> next == Next::Read && final(self)@ == (ConnView {
                input: old(self)@.input + data@,
                ..old(self)@
            }),
    {
        if data.len() == 0 {
            self.phase = Phase::Closed;
            return Next::Close(Outcome::Clean);
        }
        reserve_headroom(&mut self.read_buf, READ_HEADROOM);
        buf_extend(&mut self.read_buf, data);
        Next::Read
    }

    /// The socket has no bytes for now: decode what was read.
    pub fn on_read_blocked(&mut self) -> (next: Next)
        requires
            old(self).wf(),
            old(self)@.phase == Phase::Reading,
        ensures
            final(self).wf(),
            next == Next::Decode,
            final(self)@ == (ConnView { phase: Phase::Decoding, ..old(self)@ }),
    {
        self.phase = Phase::Decoding;
        Next::Decode
    }

    /// A read or a write failed: the connection ends, with nothing retried.
    pub fn on_io_error(&mut self) -> (next: Next)
        requires
            old(self).wf(),
            old(self)@.phase == Phase::Reading || old(self)@.phase == Phase::Writing,
        ensures
            final(self).wf(),
            next == Next::Close(Outcome::Failed),
            final(self)@ == (ConnView { phase: Phase::Closed, ..old(self)@ }),
    {
        self.phase = Phase::Closed;
        Next::Close(Outcome::Failed)
    }

    /// Appends the answer to a request on `path`: for the root path the
    /// 200 head, the current date header, the empty line and the body; for
    /// any other path the 404 status line and the empty line.
    pub fn handle_request(&mut self, path: &Vec<u8>)
        requires
            old(self).wf(),
            old(self)@.output.len() + MAX_REPLY <= isize::MAX,
        ensures
            final(self).wf(),
            final(self)@.paths == old(self)@.paths.push(path@),
            final(self)@.dates.drop_last() == old(self)@.dates,
            final(self)@.dates.len() == old(self)@.dates.len() + 1,
            final(self)@.output == old(self)@.output + reply(path@, final(self)@.dates.last()),
            final(self)@.output.len() <= old(self)@.output.len() + MAX_REPLY,
            final(self)@.input == old(self)@.input,
            final(self)@.sent == old(self)@.sent,
            final(self)@.phase == old(self)@.phase,
            final(self)@.codec == old(self)@.codec,
    {
        proof {
            literal_lengths();
        }
        let ghost start = buf_bytes(self.write_buf);
        let ghost date: Seq<u8> = Seq::empty();
        if path.len() == 1 && path[0] == 47u8 {
            assert(path@ =~= seq![47u8]);
            buf_extend(&mut self.write_buf, STATUS_OK.as_bytes());
            buf_extend(&mut self.write_buf, SERVER.as_bytes());
            buf_extend(&mut self.write_buf, CONTENT_TYPE.as_bytes());
            buf_extend(&mut self.write_buf, CONTENT_LENGTH.as_bytes());
            let ghost before = buf_bytes(self.write_buf);
            write_date_header(&self.codec, &mut self.write_buf);
            proof {
                let after = buf_bytes(self.write_buf);
                date = after.subrange(before.len() as int, after.len() as int);
                assert(after =~= before + date);
            }
            buf_extend(&mut self.write_buf, HDR_END.as_bytes());
            buf_extend(&mut self.write_buf, BODY.as_bytes());
        } else {
            assert(!is_root(path@));
            buf_extend(&mut self.write_buf, STATUS_NOT_FOUND.as_bytes());
            buf_extend(&mut self.write_buf, HDR_END.as_bytes());
        }
        proof {
            assert(buf_bytes(self.write_buf) =~= start + reply(path@, date));
            replies_push(self.paths@, self.dates@, path@, date);
        }
        self.paths = Ghost(self.paths@.push(path@));
        self.dates = Ghost(self.dates@.push(date));
        assert(self.dates@.drop_last() =~= old(self)@.dates);
        assert(self@.sent + self@.output =~= replies(self@.paths, self@.dates));
    }
    /// Decodes every complete request in the read buffer, in order, and
    /// appends the answer to each before the next is decoded. Ends with
    /// `Write` when answers wait, `Wait` when none do, and closes the
    /// connection, with nothing more to be sent, when the decoder refuses
    /// the input or meets a request body.
    pub fn decode_requests(&mut self) -> (next: Next)
        requires
            old(self).wf(),
            old(self)@.phase == Phase::Decoding,
            old(self)@.output.len() + MAX_REPLY * old(self)@.input.len() + BUF_STEP <= isize::MAX,
        ensures
            final(self).wf(),
            final(self)@.sent == old(self)@.sent,
            final(self)@.paths.take(old(self)@.paths.len() as int) == old(self)@.paths,
            final(self)@.dates.take(old(self)@.dates.len() as int) == old(self)@.dates,
            final(self)@.output == old(self)@.output + replies(
                final(self)@.paths.skip(old(self)@.paths.len() as int),
                final(self)@.dates.skip(old(self)@.dates.len() as int),
            ),
            next != Next::Close(Outcome::Failed) ==> {
                &&& final(self)@.input.len() <= old(self)@.input.len()
                &&& final(self)@.input == old(self)@.input.subrange(
                    old(self)@.input.len() - final(self)@.input.len(),
                    old(self)@.input.len() as int,
                )
                &&& final(self)@.paths.len() - old(self)@.paths.len() <= old(self)@.input.len()
                    - final(self)@.input.len()
            },
            next == Next::Close(Outcome::Failed) || next == Next::Write || next == Next::Wait,
            next == Next::Close(Outcome::Failed) <==> !lines_fit(old(self)@.input) || decode_run(
                old(self)@.codec,
                old(self)@.input,
            ).fails,
            !lines_fit(old(self)@.input) ==> final(self)@.paths == old(self)@.paths
                && final(self)@.output == old(self)@.output,
            lines_fit(old(self)@.input) ==> final(self)@.paths == old(self)@.paths + decode_run(
                old(self)@.codec,
                old(self)@.input,
            ).paths,
            !decode_run(old(self)@.codec, old(self)@.input).fails && lines_fit(old(self)@.input)
                ==> {
                let run = decode_run(old(self)@.codec, old(self)@.input);
                &&& final(self)@.input == run.rest
                &&& final(self)@.codec == run.codec
            },
            next == Next::Close(Outcome::Failed) <==> final(self)@.phase == Phase::Closed,
            next == Next::Write <==> final(self)@.phase == Phase::Writing,
            next == Next::Wait <==> final(self)@.phase == Phase::Reading,
            next == Next::Wait ==> final(self)@.output.len() == 0,
    {
        if !lines_fit_in(buf_as_slice(&self.read_buf)) {
            self.phase = Phase::Closed;
            assert(self@.output =~= old(self)@.output + replies(
                self@.paths.skip(old(self)@.paths.len() as int),
                self@.dates.skip(old(self)@.dates.len() as int),
            ));
            assert(self@.paths.take(old(self)@.paths.len() as int) =~= old(self)@.paths);
            assert(self@.dates.take(old(self)@.dates.len() as int) =~= old(self)@.dates);
            return Next::Close(Outcome::Failed);
        }
        let ghost start = self@;
        reserve_headroom(&mut self.write_buf, WRITE_HEADROOM + 1);
        loop
            invariant
                start == old(self)@,
                self.wf(),
                self@.phase == Phase::Decoding,
                self@.sent == start.sent,
                self@.paths.take(start.paths.len() as int) == start.paths,
                self@.dates.take(start.dates.len() as int) == start.dates,
                self@.paths.len() >= start.paths.len(),
                self@.input.len() <= start.input.len(),
                self@.input == start.input.subrange(
                    start.input.len() - self@.input.len(),
                    start.input.len() as int,
                ),
                self@.paths.len() - start.paths.len() <= start.input.len() - self@.input.len(),
                self@.output.len() <= start.output.len() + MAX_REPLY * (self@.paths.len()
                    - start.paths.len()),
                start.output.len() + MAX_REPLY * start.input.len() + BUF_STEP <= isize::MAX,
                start.sent + start.output == replies(start.paths, start.dates),
                start.paths.len() == start.dates.len(),
                lines_fit(self@.input),
                lines_fit(start.input),
                decode_run(start.codec, start.input).fails == decode_run(
                    self@.codec,
                    self@.input,
                ).fails,
                decode_run(start.codec, start.input).paths == self@.paths.skip(
                    start.paths.len() as int,
                ) + decode_run(self@.codec, self@.input).paths,
                decode_run(start.codec, start.input).rest == decode_run(
                    self@.codec,
                    self@.input,
                ).rest,
                decode_run(start.codec, start.input).codec == decode_run(
                    self@.codec,
                    self@.input,
                ).codec,
            decreases self@.input.len(),
        {
            let ghost before = self@;
            let frame = decode_frame(&mut self.codec, &mut self.read_buf);
            let ghost d = decoded(before.codec, before.input);
            proof {
                assert(self@.codec == d.3);
                if frame is Ok {
                    lines_fit_skip(before.input, d.1 as int);
                }
                if frame matches Ok(Some(Frame::Request(_))) {
                    assert(self@.input =~= before.input.skip(d.1 as int));
                    assert(decode_run(before.codec, before.input).paths == seq![d.2] + decode_run(
                        self@.codec,
                        self@.input,
                    ).paths);
                } else if frame matches Ok(None) {
                    assert(self@.input =~= before.input.skip(d.1 as int));
                    assert(!decode_run(before.codec, before.input).fails);
                    assert(decode_run(before.codec, before.input).paths =~= Seq::<Seq<u8>>::empty());
                } else {
                    assert(decode_run(before.codec, before.input).fails);
                }
                let a = self@.input;
                if frame is Ok {
                    assert(a =~= start.input.subrange(start.input.len() - a.len(), start.input.len() as int));
                }
                if frame matches Ok(Some(Frame::Request(_))) {
                    let k = before.paths.len() - start.paths.len();
                    assert(k + 1 <= start.input.len());
                    assert(MAX_REPLY * (k + 1) <= MAX_REPLY * start.input.len()) by (nonlinear_arith)
                        requires k + 1 <= start.input.len();
                    assert(MAX_REPLY * (k + 1) == MAX_REPLY * k + MAX_REPLY) by (nonlinear_arith);
                }
            }
            match self.on_frame(frame) {
                Some(next) => {
                    proof {
                        self.close_keeps_order(start);
                        assert(self@.paths == before.paths);
                        let k = start.paths.len() as int;
                        assert(self@.paths =~= start.paths + self@.paths.skip(k));
                        assert(self@.paths.skip(k) + Seq::<Seq<u8>>::empty() =~= self@.paths.skip(k));
                    }
                    return next;
                },
                None => {
                    proof {
                        let k = start.paths.len() as int;
                        assert(self@.paths.take(k) =~= start.paths);
                        assert(self@.dates.take(k) =~= start.dates);
                        assert(self@.paths.skip(k) =~= before.paths.skip(k).push(d.2));
                        let tail = decode_run(self@.codec, self@.input);
                        assert(self@.input =~= before.input.skip(d.1 as int));
                        assert(before.paths.skip(k) + (seq![d.2] + tail.paths) =~= self@.paths.skip(k) + tail.paths);
                    }
                },
            }
        }
    }

    /// Acts on one answer of the decoder. A request is answered and `None`
    /// asks for the next one. When no complete request is left, the caller is
    /// told to write if answers wait and to wait otherwise. A request body or
    /// a decoding error closes the connection as failed.
    pub fn on_frame(&mut self, frame: Result<Option<Frame>, ParseError>) -> (next: Option<Next>)
        requires
            old(self).wf(),
            old(self)@.phase == Phase::Decoding,
            frame matches Ok(Some(Frame::Request(_))) ==> old(self)@.output.len() + MAX_REPLY
                <= isize::MAX,
        ensures
            final(self).wf(),
            final(self)@.input == old(self)@.input,
            final(self)@.sent == old(self)@.sent,
            final(self)@.codec == old(self)@.codec,
            next is None <==> frame matches Ok(Some(Frame::Request(_))),
            frame matches Ok(Some(Frame::Request(path))) ==> {
                &&& final(self)@.phase == Phase::Decoding
                &&& final(self)@.paths == old(self)@.paths.push(path@)
                &&& final(self)@.dates.drop_last() == old(self)@.dates
                &&& final(self)@.dates.len() == old(self)@.dates.len() + 1
                &&& final(self)@.output == old(self)@.output + reply(
                    path@,
                    final(self)@.dates.last(),
                )
                &&& final(self)@.output.len() <= old(self)@.output.len() + MAX_REPLY
            },
            !(frame matches Ok(Some(Frame::Request(_)))) ==> {
                &&& final(self)@.paths == old(self)@.paths
                &&& final(self)@.dates == old(self)@.dates
                &&& final(self)@.output == old(self)@.output
            },
            frame matches Ok(None) && old(self)@.output.len() > 0 ==> next == Some(Next::Write)
                && final(self)@.phase == Phase::Writing,
            frame matches Ok(None) && old(self)@.output.len() == 0 ==> next == Some(Next::Wait)
                && final(self)@.phase == Phase::Reading,
            (frame is Err || frame matches Ok(Some(Frame::Payload))) ==> next == Some(
                Next::Close(Outcome::Failed),
            ) && final(self)@.phase == Phase::Closed,
    {
        match frame {
            Ok(Some(Frame::Request(path))) => {
                self.handle_request(&path);
                None
            },
            Ok(None) => {
                if buf_len(&self.write_buf) > 0 {
                    self.phase = Phase::Writing;
                    Some(Next::Write)
                } else {
                    self.phase = Phase::Reading;
                    Some(Next::Wait)
                }
            },
            _ => {
                self.phase = Phase::Closed;
                Some(Next::Close(Outcome::Failed))
            },
        }
    }

    proof fn close_keeps_order(&self, start: ConnView)
        requires
            self.wf(),
            self@.sent == start.sent,
            self@.paths.take(start.paths.len() as int) == start.paths,
            self@.dates.take(start.dates.len() as int) == start.dates,
            self@.paths.len() >= start.paths.len(),
            start.sent + start.output == replies(start.paths, start.dates),
            start.paths.len() == start.dates.len(),
        ensures
            self@.output == start.output + replies(
                self@.paths.skip(start.paths.len() as int),
                self@.dates.skip(start.dates.len() as int),
            ),
    {
        let k = start.paths.len() as int;
        replies_in_request_order(self@.paths, self@.dates, k);
        assert(start.sent + self@.output =~= start.sent + (start.output + replies(
            self@.paths.skip(k),
            self@.dates.skip(k),
        )));
        assert(self@.output =~= (start.sent + self@.output).skip(start.sent.len() as int));
        assert((start.output + replies(self@.paths.skip(k), self@.dates.skip(k))) =~= (start.sent
            + (start.output + replies(self@.paths.skip(k), self@.dates.skip(k)))).skip(
            start.sent.len() as int,
        ));
    }

    /// The socket accepted `n` of the pending bytes. None accepted means the
    /// connection failed. Part of them: the accepted head leaves the buffer
    /// and the rest is written next. All of them: the buffer is emptied,
    /// keeping its allocation, and the connection waits for the socket.
    pub fn on_written(&mut self, n: usize) -> (next: Next)
        requires
            old(self).wf(),
            old(self)@.phase == Phase::Writing,
            n <= old(self)@.output.len(),
        ensures
            final(self).wf(),
            n == 0 ==> next == Next::Close(Outcome::Failed) && final(self)@ == (ConnView {
                phase: Phase::Closed,
                ..old(self)@
            }),
            0 < n < old(self)@.output.len() ==> next == Next::Write && final(self)@ == (
            ConnView {
                sent: old(self)@.sent + old(self)@.output.take(n as int),
                output: old(self)@.output.skip(n as int),
                ..old(self)@
            }),
            n > 0 ==> (final(self)@.sent, final(self)@.output) == after_writes(
                old(self)@.sent,
                old(self)@.output,
                seq![n as nat],
            ),
            n > 0 && n == old(self)@.output.len() ==> next == Next::Wait && final(self)@ == (
            ConnView {
                phase: Phase::Reading,
                sent: old(self)@.sent + old(self)@.output,
                output: Seq::<u8>::empty(),
                ..old(self)@
            }),
    {
        let len = buf_len(&self.write_buf);
        let ghost out = self@.output;
        proof {
            let ns = seq![n as nat];
            assert(ns.skip(1) =~= Seq::<nat>::empty());
            assert(after_writes(self@.sent, out, ns) == after_writes(
                self@.sent + out.take(n as int),
                out.skip(n as int),
                ns.skip(1),
            ));
            assert(out.take(len as int) =~= out);
            assert(out.skip(len as int) =~= Seq::<u8>::empty());
        }
        if n == 0 {
            self.phase = Phase::Closed;
            Next::Close(Outcome::Failed)
        } else if n == len {
            self.sent = Ghost(self.sent@ + out);
            buf_clear(&mut self.write_buf);
            self.phase = Phase::Reading;
            assert(self@.sent + self@.output =~= old(self)@.sent + out);
            Next::Wait
        } else {
            self.sent = Ghost(self.sent@ + out.take(n as int));
            buf_advance(&mut self.write_buf, n);
            assert(self@.output =~= out.skip(n as int));
            assert(self@.sent + self@.output =~= old(self)@.sent + out);
            Next::Write
        }
    }

    /// The socket cannot take more bytes for now: what is left waits, and
    /// the connection waits for the socket.
    pub fn on_write_blocked(&mut self) -> (next: Next)
        requires
            old(self).wf(),
            old(self)@.phase == Phase::Writing,
        ensures
            final(self).wf(),
            next == Next::Wait,
            final(self)@ == (ConnView { phase: Phase::Reading, ..old(self)@ }),
    {
        self.phase = Phase::Reading;
        Next::Wait
    }
}

} // verus!
