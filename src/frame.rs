//! Length-prefixed framing of commands on the serial link.
//!
//! A frame is the four header bytes `FF FF FD 00`, one byte giving the
//! payload length `n` (1 to 32), then the `n` bytes of an encoded command.
//! The decoder is a streaming parser that resynchronises on the header after
//! any fault.
use vstd::prelude::*;
use crate::wire::{cmd_bytes, is_cmd_encoding, lemma_cmd_bytes_injective, lemma_cmd_bytes_len, Cmd, TError, CMD_MAX_SIZE};

verus! {

/// Largest payload a frame may carry.
pub const PAYLOAD_CAPACITY: usize = 32;

pub open spec fn header() -> Seq<u8> {
    seq![0xFFu8, 0xFFu8, 0xFDu8, 0x00u8]
}

/// The frame that carries `c`.
pub open spec fn frame_bytes(c: Cmd) -> Seq<u8> {
    header() + seq![cmd_bytes(c).len() as u8] + cmd_bytes(c)
}

/// What the decoder makes of a complete payload.
pub open spec fn payload_result(p: Seq<u8>) -> Result<Cmd, TError> {
    if is_cmd_encoding(p) {
        Ok(choose|c: Cmd| cmd_bytes(c) == p)
    } else {
        Err(TError::Decode)
    }
}

/// Header matching: given that the last `k` bytes seen are the first `k`
/// bytes of the header, the length of the longest suffix of those bytes
/// followed by `b` that is again a prefix of the header.
pub open spec fn next_match(k: nat, b: u8) -> nat {
    if k < 4 && b == header()[k as int] {
        k + 1
    } else if b == 0xFF {
        if k == 2 { 2 } else { 1 }
    } else {
        0
    }
}

/// The decoder's state: how much of the header has been matched, the payload
/// length announced (0 while no payload is being read) and the payload bytes
/// received so far.
pub struct DecoderView {
    pub matched: nat,
    pub expected: nat,
    pub buffer: Seq<u8>,
}

pub open spec fn idle() -> DecoderView {
    DecoderView { matched: 0, expected: 0, buffer: Seq::empty() }
}

pub open spec fn decoder_wf(s: DecoderView) -> bool {
    &&& s.matched <= 4
    &&& s.expected <= PAYLOAD_CAPACITY
    &&& if s.expected == 0 { s.buffer.len() == 0 } else { s.matched == 4 && s.buffer.len() < s.expected }
}

/// One byte through the decoder: the next state, and what it reports.
pub open spec fn step(s: DecoderView, b: u8) -> (DecoderView, Option<Result<Cmd, TError>>) {
    if s.expected > 0 {
        let buf = s.buffer.push(b);
        if buf.len() == s.expected {
            (idle(), Some(payload_result(buf)))
        } else {
            (DecoderView { buffer: buf, ..s }, None)
        }
    } else if s.matched == 4 {
        if b == 0 {
            (idle(), Some(Err(TError::Decode)))
        } else if b as nat > PAYLOAD_CAPACITY {
            (idle(), Some(Err(TError::Oversize)))
        } else {
            (DecoderView { matched: 4, expected: b as nat, buffer: Seq::empty() }, None)
        }
    } else {
        (DecoderView { matched: next_match(s.matched, b), ..s }, None)
    }
}

/// Bytes through the decoder until it reports something or the bytes run
/// out: the state, the report, and how many bytes were consumed.
pub open spec fn scan(s: DecoderView, bytes: Seq<u8>) -> (DecoderView, Option<Result<Cmd, TError>>, nat)
    decreases bytes.len(),
{
    if bytes.len() == 0 {
        (s, None, 0)
    } else {
        let (s1, out) = step(s, bytes[0]);
        if out is Some {
            (s1, out, 1)
        } else {
            let (s2, out2, k) = scan(s1, bytes.drop_first());
            (s2, out2, k + 1)
        }
    }
}

/// Every byte through the decoder: the final state and the last report.
pub open spec fn feed(s: DecoderView, bytes: Seq<u8>) -> (DecoderView, Option<Result<Cmd, TError>>)
    decreases bytes.len(),
{
    if bytes.len() == 0 {
        (s, None)
    } else {
        let (s1, out) = step(s, bytes[0]);
        if bytes.len() == 1 {
            (s1, out)
        } else {
            feed(s1, bytes.drop_first())
        }
    }
}

/// The serial link's codec: decodes frames from a byte stream and encodes
/// commands into frames.
#[derive(Debug)]
pub struct SerialConnection {
    header_index: usize,
    expected_size: usize,
    buffer: Vec<u8>,
}

impl View for SerialConnection {
    type V = DecoderView;

    closed spec fn view(&self) -> DecoderView {
        DecoderView {
            matched: self.header_index as nat,
            expected: self.expected_size as nat,
            buffer: self.buffer@,
        }
    }
}

impl SerialConnection {
    pub open spec fn wf(&self) -> bool {
        decoder_wf(self@)
    }

    /// A decoder that has seen nothing yet.
    pub fn new() -> (r: SerialConnection)
        ensures
            r@ == idle(),
            r.wf(),
    {
        SerialConnection { header_index: 0, expected_size: 0, buffer: Vec::new() }
    }

    fn reset(&mut self)
        ensures
            final(self)@ == idle(),
    {
        self.header_index = 0;
        self.expected_size = 0;
        self.buffer = Vec::new();
        assert(self@.buffer =~= Seq::<u8>::empty());
    }

    /// Feeds one byte; reports a command or a fault when a frame ends.
    pub fn push_byte(&mut self, b: u8) -> (r: Option<Result<Cmd, TError>>)
        requires
            old(self).wf(),
        ensures
            final(self).wf(),
            (final(self)@, r) == step(old(self)@, b),
    {
        if self.expected_size > 0 {
            self.buffer.push(b);
            if self.buffer.len() == self.expected_size {
                let res = Cmd::from_vec(self.buffer.as_slice());
                proof {
                    let p = self.buffer@;
                    if let Ok(c) = res {
                        let d = choose|d: Cmd| cmd_bytes(d) == p;
                        lemma_cmd_bytes_injective(c, d);
                    }
                }
                self.reset();
                Some(res)
            } else {
                None
            }
        } else if self.header_index == 4 {
            if b == 0 {
                self.reset();
                Some(Err(TError::Decode))
            } else if b as usize > PAYLOAD_CAPACITY {
                self.reset();
                Some(Err(TError::Oversize))
            } else {
                self.expected_size = b as usize;
                self.buffer = Vec::new();
                assert(self@.buffer =~= Seq::<u8>::empty());
                None
            }
        } else {
            let k = self.header_index;
            self.header_index = if (k == 0 && b == 0xFF) || (k == 1 && b == 0xFF) || (k == 2
                && b == 0xFD) || (k == 3 && b == 0x00) {
                k + 1
            } else if b == 0xFF {
                if k == 2 {
                    2
                } else {
                    1
                }
            } else {
                0
            };
            None
        }
    }

    /// Consumes bytes from the front of `src` until a frame ends or `src` is
    /// empty. A complete command comes back as `Ok(Some(..))`, a frame fault
    /// as its error, and `Ok(None)` when more bytes are needed.
    pub fn decode(&mut self, src: &mut Vec<u8>) -> (r: Result<Option<Cmd>, TError>)
        requires
            old(self).wf(),
        ensures
            final(self).wf(),
            final(self)@ == scan(old(self)@, old(src)@).0,
            final(src)@ == old(src)@.skip(scan(old(self)@, old(src)@).2 as int),
            r == report(scan(old(self)@, old(src)@).1),
    {
        let ghost s0 = self@;
        let ghost bytes = src@;
        let mut i: usize = 0;
        let mut out: Option<Result<Cmd, TError>> = None;
        assert(bytes.skip(0) =~= bytes);
        while i < src.len()
            invariant_except_break
                out is None,
                scan(s0, bytes) == (
                    scan(self@, bytes.skip(i as int)).0,
                    scan(self@, bytes.skip(i as int)).1,
                    (scan(self@, bytes.skip(i as int)).2 + i) as nat,
                ),
            invariant
                self.wf(),
                src@ == bytes,
                i <= bytes.len(),
            ensures
                out is None ==> i == bytes.len() && scan(s0, bytes) == (
                    scan(self@, bytes.skip(i as int)).0,
                    scan(self@, bytes.skip(i as int)).1,
                    (scan(self@, bytes.skip(i as int)).2 + i) as nat,
                ),
                out is Some ==> scan(s0, bytes) == (self@, out, i as nat),
            decreases bytes.len() - i,
        {
            let ghost before = self@;
            let o = self.push_byte(src[i]);
            proof {
                let rest = bytes.skip(i as int);
                assert(rest.len() > 0);
                assert(rest[0] == bytes[i as int]);
                assert(rest.drop_first() =~= bytes.skip(i + 1));
                assert(step(before, rest[0]) == (self@, o));
                if o is Some {
                    assert(scan(before, rest) == (self@, o, 1nat));
                } else {
                    assert(scan(before, rest) == (
                        scan(self@, rest.drop_first()).0,
                        scan(self@, rest.drop_first()).1,
                        scan(self@, rest.drop_first()).2 + 1,
                    ));
                }
            }
            i = i + 1;
            if o.is_some() {
                out = o;
                break;
            }
        }
        proof {
            if out is None {
                assert(i == bytes.len());
                assert(bytes.skip(i as int) =~= Seq::<u8>::empty());
            }
        }
        let rest = src.split_off(i);
        *src = rest;
        match out {
            None => Ok(None),
            Some(Ok(c)) => Ok(Some(c)),
            Some(Err(e)) => Err(e),
        }
    }

    /// Appends the frame that carries `cmd` to `buf`; it never fails.
    pub fn encode(&self, cmd: Cmd, buf: &mut Vec<u8>) -> (r: Result<(), TError>)
        ensures
            r is Ok,
            final(buf)@ == old(buf)@ + frame_bytes(cmd),
    {
        let payload = match cmd.to_vec() {
            Ok(v) => v,
            Err(e) => return Err(e),
        };
        proof {
            lemma_cmd_bytes_len(cmd);
        }
        if payload.len() > PAYLOAD_CAPACITY {
            return Err(TError::Oversize);
        }
        buf.push(0xFF);
        buf.push(0xFF);
        buf.push(0xFD);
        buf.push(0x00);
        buf.push(payload.len() as u8);
        let mut i: usize = 0;
        let ghost start = buf@;
        while i < payload.len()
            invariant
                i <= payload@.len(),
                buf@ == start + payload@.subrange(0, i as int),
            decreases payload@.len() - i,
        {
            buf.push(payload[i]);
            i = i + 1;
            assert(buf@ =~= start + payload@.subrange(0, i as int));
        }
        assert(buf@ =~= old(buf)@ + frame_bytes(cmd));
        Ok(())
    }
}

proof fn lemma_scan_cons(s: DecoderView, b: u8, rest: Seq<u8>)
    ensures
        scan(s, seq![b] + rest) == (if step(s, b).1 is Some {
            (step(s, b).0, step(s, b).1, 1nat)
        } else {
            (scan(step(s, b).0, rest).0, scan(step(s, b).0, rest).1, scan(step(s, b).0, rest).2 + 1)
        }),
{
    assert((seq![b] + rest).drop_first() =~= rest);
    assert((seq![b] + rest)[0] == b);
}

proof fn lemma_payload_result_of_encoding(c: Cmd)
    ensures
        payload_result(cmd_bytes(c)) == Ok::<Cmd, TError>(c),
{
    assert(is_cmd_encoding(cmd_bytes(c)));
    let d = choose|d: Cmd| cmd_bytes(d) == cmd_bytes(c);
    lemma_cmd_bytes_injective(c, d);
}

/// While a payload is being read, its remaining bytes complete it.
proof fn lemma_payload(s: DecoderView, q: Seq<u8>, rest: Seq<u8>)
    requires
        s.expected > 0,
        q.len() > 0,
        s.buffer.len() + q.len() == s.expected,
    ensures
        scan(s, q + rest) == (idle(), Some(payload_result(s.buffer + q)), q.len()),
    decreases q.len(),
{
    let q0 = q[0];
    let q1 = q.drop_first();
    assert(q + rest =~= seq![q0] + (q1 + rest));
    lemma_scan_cons(s, q0, q1 + rest);
    if q.len() == 1 {
        assert(s.buffer.push(q0) =~= s.buffer + q);
    } else {
        let s1 = DecoderView { buffer: s.buffer.push(q0), ..s };
        lemma_payload(s1, q1, rest);
        assert(s1.buffer + q1 =~= s.buffer + q);
    }
}

/// From any point of the header search, a whole frame is decoded.
proof fn lemma_search_then_frame(s: DecoderView, c: Cmd, rest: Seq<u8>)
    requires
        s.expected == 0,
        s.matched < 4,
    ensures
        scan(s, frame_bytes(c) + rest) == (idle(), Some(Ok::<Cmd, TError>(c)), frame_bytes(c).len()),
{
    lemma_cmd_bytes_len(c);
    let p = cmd_bytes(c);
    let n = p.len() as u8;
    let s1 = DecoderView { matched: next_match(s.matched, 0xFF), ..s };
    let s2 = DecoderView { matched: 2, ..s };
    let s3 = DecoderView { matched: 3, ..s };
    let s4 = DecoderView { matched: 4, ..s };
    let s5 = DecoderView { matched: 4, expected: n as nat, buffer: Seq::empty() };
    assert(frame_bytes(c) + rest =~= seq![0xFFu8] + (seq![0xFFu8] + (seq![0xFDu8] + (seq![0x00u8] + (seq![n] + (p + rest))))));
    lemma_payload(s5, p, rest);
    assert(s5.buffer + p =~= p);
    lemma_payload_result_of_encoding(c);
    lemma_scan_cons(s4, n, p + rest);
    lemma_scan_cons(s3, 0x00, seq![n] + (p + rest));
    lemma_scan_cons(s2, 0xFD, seq![0x00u8] + (seq![n] + (p + rest)));
    lemma_scan_cons(s1, 0xFF, seq![0xFDu8] + (seq![0x00u8] + (seq![n] + (p + rest))));
    lemma_scan_cons(s, 0xFF, seq![0xFFu8] + (seq![0xFDu8] + (seq![0x00u8] + (seq![n] + (p + rest)))));
}

/// Decoding what `encode` wrote gives the command back: a fresh decoder fed
/// a frame, followed by anything, reports exactly that frame's command and
/// consumes exactly the frame.
pub proof fn lemma_frame_round_trip(c: Cmd, rest: Seq<u8>)
    ensures
        scan(idle(), frame_bytes(c) + rest) == (idle(), Some(Ok::<Cmd, TError>(c)), frame_bytes(c).len()),
        feed(idle(), frame_bytes(c)).1 == Some(Ok::<Cmd, TError>(c)),
{
    lemma_search_then_frame(idle(), c, rest);
    lemma_search_then_frame(idle(), c, Seq::empty());
    assert(frame_bytes(c) + Seq::<u8>::empty() =~= frame_bytes(c));
    lemma_scan_feed(idle(), frame_bytes(c));
}

/// A stray byte while the decoder looks for a header (with at most two
/// header bytes matched, as after any complete frame) does not cost the frame
/// that follows it: that frame is still decoded, and nothing is reported
/// before it.
pub proof fn lemma_resync(s: DecoderView, b: u8, c: Cmd, rest: Seq<u8>)
    requires
        decoder_wf(s),
        s.expected == 0,
        s.matched < 3,
    ensures
        scan(s, seq![b] + frame_bytes(c) + rest) == (
            idle(),
            Some(Ok::<Cmd, TError>(c)),
            frame_bytes(c).len() + 1,
        ),
{
    assert(seq![b] + frame_bytes(c) + rest =~= seq![b] + (frame_bytes(c) + rest));
    lemma_scan_cons(s, b, frame_bytes(c) + rest);
    let s1 = step(s, b).0;
    assert(s1.expected == 0 && s1.matched < 4);
    lemma_search_then_frame(s1, c, rest);
}

/// When every byte of `bytes` but the last leaves the decoder silent, feeding
/// them all ends where scanning them does.
proof fn lemma_scan_feed(s: DecoderView, bytes: Seq<u8>)
    requires
        bytes.len() > 0,
        scan(s, bytes).2 == bytes.len(),
    ensures
        feed(s, bytes) == (scan(s, bytes).0, scan(s, bytes).1),
    decreases bytes.len(),
{
    let (s1, out) = step(s, bytes[0]);
    if bytes.len() > 1 {
        assert(out is None);
        lemma_scan_feed(s1, bytes.drop_first());
    } else {
        assert(bytes.drop_first().len() == 0);
        assert(scan(s1, bytes.drop_first()) == (s1, None::<Result<Cmd, TError>>, 0nat));
    }
}

/// A call that reports nothing consumes all its bytes, and the decoder then
/// goes on with the next call's bytes exactly as one call over the joined
/// bytes would: bytes may be split over any number of calls.
pub proof fn lemma_scan_join(s: DecoderView, a: Seq<u8>, b: Seq<u8>)
    requires
        scan(s, a).1 is None,
    ensures
        scan(s, a).2 == a.len(),
        scan(s, a + b) == (
            scan(scan(s, a).0, b).0,
            scan(scan(s, a).0, b).1,
            scan(scan(s, a).0, b).2 + a.len(),
        ),
    decreases a.len(),
{
    if a.len() == 0 {
        assert(a + b =~= b);
    } else {
        let (s1, out) = step(s, a[0]);
        assert((a + b)[0] == a[0]);
        assert((a + b).drop_first() =~= a.drop_first() + b);
        lemma_scan_join(s1, a.drop_first(), b);
    }
}

/// When scanning `a + b` runs past `a`, the part `a` is consumed silently.
proof fn lemma_scan_prefix(s: DecoderView, a: Seq<u8>, b: Seq<u8>)
    requires
        scan(s, a + b).2 > a.len(),
    ensures
        scan(s, a).1 is None,
    decreases a.len(),
{
    if a.len() > 0 {
        let (s1, out) = step(s, a[0]);
        assert((a + b)[0] == a[0]);
        assert((a + b).drop_first() =~= a.drop_first() + b);
        lemma_scan_prefix(s1, a.drop_first(), b);
    }
}

/// The stray byte and the frame may arrive split over calls at any point:
/// the calls before the last piece report nothing, and the frame is still
/// decoded. With `lemma_scan_join` this extends to any number of calls.
pub proof fn lemma_resync_split(s: DecoderView, b: u8, c: Cmd, rest: Seq<u8>, k: int)
    requires
        decoder_wf(s),
        s.expected == 0,
        s.matched < 3,
        0 <= k <= frame_bytes(c).len(),
    ensures
        ({
            let x = seq![b] + frame_bytes(c) + rest;
            let first = scan(s, x.take(k));
            &&& first.1 is None
            &&& scan(first.0, x.skip(k)) == (
                idle(),
                Some(Ok::<Cmd, TError>(c)),
                (frame_bytes(c).len() + 1 - k) as nat,
            )
        }),
{
    let x = seq![b] + frame_bytes(c) + rest;
    lemma_resync(s, b, c, rest);
    assert(x.take(k) + x.skip(k) =~= x);
    lemma_scan_prefix(s, x.take(k), x.skip(k));
    lemma_scan_join(s, x.take(k), x.skip(k));
}

/// How `decode` reports what the decoder produced.
pub open spec fn report(o: Option<Result<Cmd, TError>>) -> Result<Option<Cmd>, TError> {
    match o {
        None => Ok(None),
        Some(Ok(c)) => Ok(Some(c)),
        Some(Err(e)) => Err(e),
    }
}

} // verus!
