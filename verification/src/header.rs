//! The connection header: an optional out-of-band preamble that an
//! upstream proxy prepends to a connection to carry routing metadata.
//!
//! Wire form: a fixed ASCII preface token, a 4-byte big-endian message
//! length, then a small field-tagged message holding a target port and an
//! optional logical name. The read side is an incremental state machine
//! fed by byte events; bytes that turn out not to be a header are kept
//! for replay.

use vstd::prelude::*;

use crate::name::{is_valid_name, Name};
use crate::prefix::{PrefixedStream, ReadEvent};
use crate::wire::{
    be32_bytes, be32_value, encode_be32, encode_varint, lemma_be32_roundtrip,
    lemma_pow128_values, lemma_varint_bytes_len, lemma_varint_roundtrip, parse_varint, pow128,
    read_be32, read_varint, varint_bytes,
};

verus! {

/// The preface token `proxy.l5d.io/connect\r\n\r\n`.
pub open spec fn preface_spec() -> Seq<u8> {
    seq![
        112u8, 114, 111, 120, 121, 46, 108, 53, 100, 46, 105, 111, 47, 99, 111, 110, 110, 101,
        99, 116, 13, 10, 13, 10,
    ]
}

/// Length of the preface token.
pub const PREFACE_LEN: usize = 24;

/// Length of the preface token plus the 4-byte message length.
pub const FRAME_HEAD_LEN: usize = 28;

/// Default read-side buffer capacity.
pub const HEADER_BUFFER_CAPACITY: usize = 65536;

/// The preface token as bytes.
pub fn preface() -> (r: Vec<u8>)
    ensures
        r@ == preface_spec(),
{
    let mut v: Vec<u8> = Vec::new();
    v.push(112);
    v.push(114);
    v.push(111);
    v.push(120);
    v.push(121);
    v.push(46);
    v.push(108);
    v.push(53);
    v.push(100);
    v.push(46);
    v.push(105);
    v.push(111);
    v.push(47);
    v.push(99);
    v.push(111);
    v.push(110);
    v.push(110);
    v.push(101);
    v.push(99);
    v.push(116);
    v.push(13);
    v.push(10);
    v.push(13);
    v.push(10);
    proof {
        assert(v@ =~= preface_spec());
    }
    v
}

/// A connection header: the target port, and the logical name of the
/// target service when one is known.
#[derive(Debug, Clone)]
pub struct Header {
    pub port: u16,
    pub name: Option<Name>,
}

/// Mathematical image of a [`Header`].
pub ghost struct HeaderModel {
    pub port: u16,
    pub name: Option<Seq<u8>>,
}

impl View for Header {
    type V = HeaderModel;

    open spec fn view(&self) -> HeaderModel {
        HeaderModel {
            port: self.port,
            name: match self.name {
                Some(n) => Some(n@),
                None => None,
            },
        }
    }
}

/// Validity of a header model: a present name has DNS-style syntax.
pub open spec fn header_wf(h: HeaderModel) -> bool {
    h.name matches Some(b) ==> is_valid_name(b)
}

/// The port field of the message: tag 1, varint, omitted when 0.
pub open spec fn port_field_bytes(port: u16) -> Seq<u8> {
    if port == 0 {
        Seq::empty()
    } else {
        seq![8u8] + varint_bytes(port as nat)
    }
}

/// The name field of the message: tag 2, length-delimited, omitted when
/// no name is present.
pub open spec fn name_field_bytes(name: Option<Seq<u8>>) -> Seq<u8> {
    match name {
        None => Seq::empty(),
        Some(b) => seq![18u8] + varint_bytes(b.len()) + b,
    }
}

/// The structured message carried after the preface and length.
pub open spec fn message_bytes(h: HeaderModel) -> Seq<u8> {
    port_field_bytes(h.port) + name_field_bytes(h.name)
}

/// The whole encoded frame: preface, big-endian message length, message.
pub open spec fn prefaced_bytes(h: HeaderModel) -> Seq<u8> {
    preface_spec() + be32_bytes(message_bytes(h).len() as u32) + message_bytes(h)
}

/// The message never outgrows its 32-bit length field: at most 4 bytes
/// of port field and 256 of name field for a valid name.
pub proof fn lemma_message_len(h: HeaderModel)
    requires
        header_wf(h),
    ensures
        message_bytes(h).len() <= 260,
{
    assert(pow128(0) == 1);
    assert(pow128(1) == 128);
    assert(pow128(2) == 0x4000);
    assert(pow128(3) == 0x200000);
    if h.port != 0 {
        lemma_varint_bytes_len(h.port as nat, 3);
    }
    match h.name {
        Some(b) => lemma_varint_bytes_len(b.len(), 2),
        None => (),
    }
}

fn push_all(dst: &mut Vec<u8>, src: &[u8])
    ensures
        final(dst)@ == old(dst)@ + src@,
{
    let mut i: usize = 0;
    while i < src.len()
        invariant
            i <= src@.len(),
            dst@ =~= old(dst)@ + src@.subrange(0, i as int),
        decreases src@.len() - i,
    {
        dst.push(src[i]);
        i += 1;
    }
    proof {
        assert(dst@ =~= old(dst)@ + src@);
    }
}

/// A fresh copy of `s[a..b]`.
fn copy_range(s: &[u8], a: usize, b: usize) -> (r: Vec<u8>)
    requires
        a <= b <= s@.len(),
    ensures
        r@ == s@.subrange(a as int, b as int),
{
    let mut r: Vec<u8> = Vec::new();
    let mut i: usize = a;
    while i < b
        invariant
            a <= i <= b <= s@.len(),
            r@ =~= s@.subrange(a as int, i as int),
        decreases b - i,
    {
        r.push(s[i]);
        i += 1;
    }
    proof {
        assert(r@ =~= s@.subrange(a as int, b as int));
    }
    r
}

/// Parses the field-tagged message from offset `i`, with the port and
/// name collected so far; a later occurrence of a field overrides an
/// earlier one. Unknown fields are skipped by their wire type: varint,
/// eight bytes, length-delimited, or four bytes. The port is the low 16
/// bits of its field's value.
pub open spec fn parse_fields(s: Seq<u8>, i: int, port: u16, name: Seq<u8>) -> Option<(u16, Seq<u8>)>
    decreases s.len() - i,
{
    if i < 0 || i > s.len() {
        None
    } else if i == s.len() {
        Some((port, name))
    } else {
        match parse_varint(s, i, 10) {
            None => None,
            Some((tag, j)) => {
                if j <= i || j > s.len() {
                    None
                } else if tag / 8 == 1 && tag % 8 == 0 {
                    match parse_varint(s, j, 10) {
                        None => None,
                        Some((v, k)) => {
                            if k <= j || k > s.len() {
                                None
                            } else {
                                parse_fields(s, k, (v % 0x10000) as u16, name)
                            }
                        },
                    }
                } else if tag / 8 == 2 && tag % 8 == 2 {
                    match parse_varint(s, j, 10) {
                        None => None,
                        Some((l, k)) => {
                            if k <= j || k + l > s.len() {
                                None
                            } else {
                                parse_fields(s, k + l, port, s.subrange(k, k + l))
                            }
                        },
                    }
                } else if tag % 8 == 0 {
                    match parse_varint(s, j, 10) {
                        None => None,
                        Some((v, k)) => {
                            if k <= j || k > s.len() {
                                None
                            } else {
                                parse_fields(s, k, port, name)
                            }
                        },
                    }
                } else if tag % 8 == 1 {
                    if j + 8 <= s.len() {
                        parse_fields(s, j + 8, port, name)
                    } else {
                        None
                    }
                } else if tag % 8 == 2 {
                    match parse_varint(s, j, 10) {
                        None => None,
                        Some((l, k)) => {
                            if k <= j || k + l > s.len() {
                                None
                            } else {
                                parse_fields(s, k + l, port, name)
                            }
                        },
                    }
                } else if tag % 8 == 5 {
                    if j + 4 <= s.len() {
                        parse_fields(s, j + 4, port, name)
                    } else {
                        None
                    }
                } else {
                    None
                }
            },
        }
    }
}

/// What the message bytes mean: the collected fields, with an empty or
/// absent name meaning "no logical name", and a present name required to
/// have DNS-style syntax.
pub open spec fn decode_message_spec(s: Seq<u8>) -> Option<HeaderModel> {
    match parse_fields(s, 0, 0u16, Seq::empty()) {
        None => None,
        Some((port, name)) => {
            if name.len() == 0 {
                Some(HeaderModel { port, name: None })
            } else if is_valid_name(name) {
                Some(HeaderModel { port, name: Some(name) })
            } else {
                None
            }
        },
    }
}

/// Collects the raw port and name fields of the message.
fn decode_fields(s: &[u8]) -> (r: Option<(u16, Vec<u8>)>)
    ensures
        match r {
            Some(f) => parse_fields(s@, 0, 0u16, Seq::empty()) == Some((f.0, f.1@)),
            None => parse_fields(s@, 0, 0u16, Seq::empty()) is None,
        },
{
    let mut i: usize = 0;
    let mut port: u16 = 0;
    let mut name: Vec<u8> = Vec::new();
    while i < s.len()
        invariant
            i <= s@.len(),
            parse_fields(s@, 0, 0u16, Seq::empty()) == parse_fields(s@, i as int, port, name@),
        decreases s@.len() - i,
    {
        let (tag, j) = match read_varint(s, i, 10) {
            None => {
                return None;
            },
            Some(t) => t,
        };
        if tag / 8 == 1 && tag % 8 == 0 {
            match read_varint(s, j, 10) {
                None => {
                    return None;
                },
                Some((v, k)) => {
                    port = (v % 0x10000) as u16;
                    i = k;
                },
            }
        } else if tag / 8 == 2 && tag % 8 == 2 {
            match read_varint(s, j, 10) {
                None => {
                    return None;
                },
                Some((l, k)) => {
                    if l > (s.len() - k) as u64 {
                        return None;
                    }
                    let end = k + l as usize;
                    name = copy_range(s, k, end);
                    i = end;
                },
            }
        } else if tag % 8 == 0 {
            match read_varint(s, j, 10) {
                None => {
                    return None;
                },
                Some((v, k)) => {
                    i = k;
                },
            }
        } else if tag % 8 == 1 {
            if s.len() - j < 8 {
                return None;
            }
            i = j + 8;
        } else if tag % 8 == 2 {
            match read_varint(s, j, 10) {
                None => {
                    return None;
                },
                Some((l, k)) => {
                    if l > (s.len() - k) as u64 {
                        return None;
                    }
                    i = k + l as usize;
                },
            }
        } else if tag % 8 == 5 {
            if s.len() - j < 4 {
                return None;
            }
            i = j + 4;
        } else {
            return None;
        }
    }
    Some((port, name))
}

/// Decodes the message into a header: fields collected, the name
/// validated, an empty name meaning none.
pub fn decode_message(s: &[u8]) -> (r: Option<Header>)
    ensures
        match r {
            Some(h) => decode_message_spec(s@) == Some(h@) && header_wf(h@),
            None => decode_message_spec(s@) is None,
        },
{
    let (port, name_bytes) = match decode_fields(s) {
        None => {
            return None;
        },
        Some(f) => f,
    };
    if name_bytes.len() == 0 {
        Some(Header { port, name: None })
    } else {
        match Name::parse(name_bytes) {
            None => None,
            Some(n) => Some(Header { port, name: Some(n) }),
        }
    }
}

impl Header {
    /// Serializes the structured message: port then name, in field-tagged
    /// wire form, fields with default values omitted.
    pub fn encode(&self) -> (r: Vec<u8>)
        requires
            header_wf(self@),
        ensures
            r@ == message_bytes(self@),
    {
        let mut out: Vec<u8> = Vec::new();
        if self.port != 0 {
            out.push(8);
            let v = encode_varint(self.port as u64);
            push_all(&mut out, v.as_slice());
        }
        proof {
            assert(out@ =~= port_field_bytes(self.port));
        }
        match &self.name {
            None => {},
            Some(n) => {
                out.push(18);
                let b = n.as_bytes();
                let l = encode_varint(b.len() as u64);
                push_all(&mut out, l.as_slice());
                push_all(&mut out, b.as_slice());
            },
        }
        proof {
            assert(out@ =~= message_bytes(self@));
        }
        out
    }

    /// Frames the message: preface token, 4-byte big-endian message
    /// length, then the message itself. A valid header's message is at
    /// most 260 bytes, so its length always fits the 32-bit field.
    pub fn encode_prefaced(&self) -> (r: Vec<u8>)
        requires
            header_wf(self@),
        ensures
            r@ == prefaced_bytes(self@),
    {
        let msg = self.encode();
        proof {
            lemma_message_len(self@);
        }
        let mut out = preface();
        let len_bytes = encode_be32(msg.len() as u32);
        push_all(&mut out, len_bytes.as_slice());
        push_all(&mut out, msg.as_slice());
        proof {
            assert(out@ =~= prefaced_bytes(self@));
        }
        out
    }
}

/// Why a header was judged absent. Together with a present header this
/// forms the read side's tri-state outcome.
#[derive(Copy, Clone, Debug, PartialEq, Eq, Structural)]
pub enum Reason {
    NoPreface,
    Timeout,
}

/// A fatal framing failure: the peer committed to a header and then
/// broke its promise. The connection is expected to be closed.
#[derive(Copy, Clone, Debug, PartialEq, Eq, Structural)]
pub enum DecodeError {
    /// Declared message length over the configured capacity, an
    /// undecodable message, or a malformed logical name.
    InvalidData,
    /// End of stream after the preface but before the declared message
    /// length was fully read.
    UnexpectedEof,
}

/// A decoded header, or its absence with the reason.
#[derive(Debug)]
pub enum ConditionalHeader {
    Present(Header),
    Absent(Reason),
}

/// Mathematical image of a [`ConditionalHeader`].
pub ghost enum CondModel {
    Present(HeaderModel),
    Absent(Reason),
}

impl View for ConditionalHeader {
    type V = CondModel;

    open spec fn view(&self) -> CondModel {
        match self {
            ConditionalHeader::Present(h) => CondModel::Present(h@),
            ConditionalHeader::Absent(r) => CondModel::Absent(*r),
        }
    }
}

/// Read-side configuration: buffer capacity in bytes, and the detection
/// timeout in milliseconds. The timeout itself is enforced by the I/O
/// loop feeding the state machine, which reports expiry as a
/// [`ReadEvent::TimedOut`].
#[derive(Copy, Clone, Debug)]
pub struct DetectHeader {
    pub capacity: usize,
    pub timeout_ms: u64,
}

impl DetectHeader {
    pub fn new(capacity: usize, timeout_ms: u64) -> (r: Self)
        ensures
            r.capacity == capacity,
            r.timeout_ms == timeout_ms,
    {
        DetectHeader { capacity, timeout_ms }
    }
}

/// Bytes accumulated so far by an undecided header detection.
pub struct FramerState {
    buf: Vec<u8>,
}

impl View for FramerState {
    type V = Seq<u8>;

    closed spec fn view(&self) -> Seq<u8> {
        self.buf@
    }
}

impl FramerState {
    pub fn new() -> (r: Self)
        ensures
            r@ == Seq::<u8>::empty(),
    {
        let r = FramerState { buf: Vec::new() };
        proof {
            assert(r@ =~= Seq::<u8>::empty());
        }
        r
    }
}

/// One advance of the header detection: still reading, or settled with
/// the outcome and the replay buffer (a fatal error keeps no replay; the
/// connection is torn down).
pub enum FramerStep {
    Reading(FramerState),
    Settled(Result<(ConditionalHeader, PrefixedStream), DecodeError>),
}

/// Mathematical image of a [`FramerStep`].
pub ghost enum FrameOutcome {
    Reading(Seq<u8>),
    Settled(Result<(CondModel, Seq<u8>), DecodeError>),
}

impl View for FramerStep {
    type V = FrameOutcome;

    open spec fn view(&self) -> FrameOutcome {
        match self {
            FramerStep::Reading(st) => FrameOutcome::Reading(st@),
            FramerStep::Settled(Ok(cp)) => FrameOutcome::Settled(Ok((cp.0@, cp.1@))),
            FramerStep::Settled(Err(e)) => FrameOutcome::Settled(Err(*e)),
        }
    }
}

/// Whether the buffered bytes begin with the preface token.
pub open spec fn starts_with_preface(s: Seq<u8>) -> bool {
    s.len() >= 24 && s.subrange(0, 24) == preface_spec()
}

/// The message length declared by the four bytes after the preface.
pub open spec fn declared_len(s: Seq<u8>) -> nat {
    be32_value(s[24], s[25], s[26], s[27])
}

/// What the bytes buffered so far mean, `eof` saying whether the stream
/// has ended. End of stream or a preface mismatch before `preface + 4`
/// bytes means "header absent", with every byte kept for replay; once
/// the preface has matched, the whole declared message is owed: a
/// declared length over capacity, a truncated message, or an undecodable
/// one is fatal. Bytes beyond the message stay in the replay buffer.
pub open spec fn frame_result(cap: nat, s: Seq<u8>, eof: bool) -> FrameOutcome {
    if s.len() < 28 {
        if eof {
            FrameOutcome::Settled(Ok((CondModel::Absent(Reason::NoPreface), s)))
        } else {
            FrameOutcome::Reading(s)
        }
    } else if !starts_with_preface(s) {
        FrameOutcome::Settled(Ok((CondModel::Absent(Reason::NoPreface), s)))
    } else if 28 + declared_len(s) > cap {
        FrameOutcome::Settled(Err(DecodeError::InvalidData))
    } else if s.len() < 28 + declared_len(s) {
        if eof {
            FrameOutcome::Settled(Err(DecodeError::UnexpectedEof))
        } else {
            FrameOutcome::Reading(s)
        }
    } else {
        match decode_message_spec(s.subrange(28, 28 + declared_len(s) as int)) {
            None => FrameOutcome::Settled(Err(DecodeError::InvalidData)),
            Some(h) => FrameOutcome::Settled(
                Ok((CondModel::Present(h), s.subrange(28 + declared_len(s) as int, s.len() as int))),
            ),
        }
    }
}

/// One event against the buffered bytes: timeout settles as "absent,
/// timed out" with the buffer kept for replay; data is appended (an
/// empty chunk counting as end of stream).
pub open spec fn frame_step_spec(cap: nat, buf: Seq<u8>, ev: ReadEvent) -> FrameOutcome {
    match ev {
        ReadEvent::Data(d) => if d@.len() == 0 {
            frame_result(cap, buf, true)
        } else {
            frame_result(cap, buf + d@, false)
        },
        ReadEvent::Eof => frame_result(cap, buf, true),
        ReadEvent::TimedOut => FrameOutcome::Settled(
            Ok((CondModel::Absent(Reason::Timeout), buf)),
        ),
    }
}

/// Whether `s[at..at + p.len()]` equals `p`.
fn range_eq(s: &[u8], at: usize, p: &[u8]) -> (r: bool)
    requires
        at + p@.len() <= s@.len(),
    ensures
        r == (s@.subrange(at as int, at + p@.len()) == p@),
{
    let n = s.len();
    let mut i: usize = 0;
    while i < p.len()
        invariant
            i <= p@.len(),
            at + p@.len() <= s@.len(),
            n == s@.len(),
            forall|k: int| 0 <= k < i ==> s@[at + k] == #[trigger] p@[k],
        decreases p@.len() - i,
    {
        if s[at + i] != p[i] {
            proof {
                assert(s@.subrange(at as int, at + p@.len())[i as int] != p@[i as int]);
            }
            return false;
        }
        i += 1;
    }
    proof {
        assert(s@.subrange(at as int, at + p@.len()) =~= p@);
    }
    true
}

impl DetectHeader {
    /// Settles or extends a detection over the bytes buffered so far.
    fn resolve(&self, buf: Vec<u8>, eof: bool) -> (r: FramerStep)
        ensures
            r@ == frame_result(self.capacity as nat, buf@, eof),
            r matches FramerStep::Settled(Ok(cp)) ==> cp.1.wf(),
    {
        if buf.len() < FRAME_HEAD_LEN {
            if eof {
                FramerStep::Settled(
                    Ok((ConditionalHeader::Absent(Reason::NoPreface), PrefixedStream::new(buf))),
                )
            } else {
                FramerStep::Reading(FramerState { buf })
            }
        } else {
            let pf = preface();
            if !range_eq(buf.as_slice(), 0, pf.as_slice()) {
                return FramerStep::Settled(
                    Ok((ConditionalHeader::Absent(Reason::NoPreface), PrefixedStream::new(buf))),
                );
            }
            let ml = read_be32(buf.as_slice(), PREFACE_LEN);
            if (FRAME_HEAD_LEN as u64) + (ml as u64) > (self.capacity as u64) {
                return FramerStep::Settled(Err(DecodeError::InvalidData));
            }
            let total = FRAME_HEAD_LEN + (ml as usize);
            if buf.len() < total {
                if eof {
                    FramerStep::Settled(Err(DecodeError::UnexpectedEof))
                } else {
                    FramerStep::Reading(FramerState { buf })
                }
            } else {
                let msg = copy_range(buf.as_slice(), FRAME_HEAD_LEN, total);
                match decode_message(msg.as_slice()) {
                    None => FramerStep::Settled(Err(DecodeError::InvalidData)),
                    Some(h) => {
                        let rest = copy_range(buf.as_slice(), total, buf.len());
                        FramerStep::Settled(
                            Ok((ConditionalHeader::Present(h), PrefixedStream::new(rest))),
                        )
                    },
                }
            }
        }
    }

    /// Feeds one read event to an undecided detection.
    pub fn step(&self, st: FramerState, ev: ReadEvent) -> (r: FramerStep)
        ensures
            r@ == frame_step_spec(self.capacity as nat, st@, ev),
            r matches FramerStep::Settled(Ok(cp)) ==> cp.1.wf(),
    {
        match ev {
            ReadEvent::Data(d) => {
                if d.len() == 0 {
                    self.resolve(st.buf, true)
                } else {
                    let mut buf = st.buf;
                    push_all(&mut buf, d.as_slice());
                    self.resolve(buf, false)
                }
            },
            ReadEvent::Eof => self.resolve(st.buf, true),
            ReadEvent::TimedOut => FramerStep::Settled(
                Ok((ConditionalHeader::Absent(Reason::Timeout), PrefixedStream::new(st.buf))),
            ),
        }
    }
}

/// The state machine folded over a sequence of events, from the given
/// buffered bytes: the settled outcome, or `None` if the events end
/// before a decision.
pub open spec fn frames_run(cap: nat, buf: Seq<u8>, events: Seq<ReadEvent>) -> Option<
    Result<(CondModel, Seq<u8>), DecodeError>,
>
    decreases events.len(),
{
    if events.len() == 0 {
        None
    } else {
        match frame_step_spec(cap, buf, events[0]) {
            FrameOutcome::Reading(b2) => frames_run(cap, b2, events.subrange(1, events.len() as int)),
            FrameOutcome::Settled(res) => Some(res),
        }
    }
}

/// Mathematical image of a whole detection's result.
pub open spec fn detection_view(
    r: Option<Result<(ConditionalHeader, PrefixedStream), DecodeError>>,
) -> Option<Result<(CondModel, Seq<u8>), DecodeError>> {
    match r {
        None => None,
        Some(Ok(cp)) => Some(Ok((cp.0@, cp.1@))),
        Some(Err(e)) => Some(Err(e)),
    }
}

impl DetectHeader {
    /// Runs the whole detection over a sequence of read events. Timeout
    /// and a missing preface are not errors — they settle as an absent
    /// header with the bytes kept for replay; a header committed by its
    /// preface and then broken is a fatal error.
    #[verifier::loop_isolation(false)]
    pub fn detect(&self, events: Vec<ReadEvent>) -> (r: Option<
        Result<(ConditionalHeader, PrefixedStream), DecodeError>,
    >)
        ensures
            detection_view(r) == frames_run(self.capacity as nat, Seq::<u8>::empty(), events@),
            r matches Some(Ok(cp)) ==> cp.1.wf(),
    {
        let ghost all = events@;
        let mut st = FramerState::new();
        let mut evs = events;
        proof {
            assert(st@ =~= Seq::<u8>::empty());
        }
        while evs.len() > 0
            invariant
                frames_run(self.capacity as nat, st@, evs@) == frames_run(
                    self.capacity as nat,
                    Seq::<u8>::empty(),
                    all,
                ),
            decreases evs@.len(),
        {
            let ghost cap = self.capacity as nat;
            let ghost st_view = st@;
            let ghost evs_before = evs@;
            let ev = evs.remove(0);
            proof {
                assert(evs@ =~= evs_before.subrange(1, evs_before.len() as int));
                assert(evs_before[0] == ev);
            }
            let stp = self.step(st, ev);
            let ghost stp_view = stp@;
            match stp {
                FramerStep::Reading(s2) => {
                    st = s2;
                    proof {
                        assert(stp_view == FrameOutcome::Reading(st@));
                        assert(frames_run(cap, st_view, evs_before) == frames_run(cap, st@, evs@));
                    }
                },
                FramerStep::Settled(res) => {
                    proof {
                        assert(stp_view == FrameOutcome::Settled(detection_view(Some(res))->Some_0));
                        assert(frames_run(cap, st_view, evs_before) == detection_view(Some(res)));
                    }
                    return Some(res);
                },
            }
        }
        None
    }
}

/// Decoding reads back exactly the fields that encoding wrote.
pub proof fn lemma_message_roundtrip(h: HeaderModel)
    requires
        header_wf(h),
    ensures
        decode_message_spec(message_bytes(h)) == Some(h),
{
    lemma_pow128_values();
    let s = message_bytes(h);
    let pf = port_field_bytes(h.port);
    let nf = name_field_bytes(h.name);
    if h.port != 0 {
        let vb = varint_bytes(h.port as nat);
        assert(pf =~= seq![8u8] + vb);
        assert(s[0] == 8);
        assert(parse_varint(s, 0, 10) == Some((8 as nat, 1 as int)));
        assert(s.subrange(1, 1 + vb.len() as int) =~= vb);
        lemma_varint_roundtrip(s, 1, h.port as nat, 10);
        let k = 1 + vb.len() as int;
        assert(parse_varint(s, 1, 10) == Some((h.port as nat, k)));
        assert(((h.port as nat) % 0x10000) as u16 == h.port);
        assert(parse_fields(s, 0, 0u16, Seq::empty()) == parse_fields(s, k, h.port, Seq::empty()));
        assert(k == pf.len());
    } else {
        assert(pf =~= Seq::<u8>::empty());
    }
    let p0 = pf.len() as int;
    match h.name {
        None => {
            assert(nf =~= Seq::<u8>::empty());
            assert(p0 == s.len());
            assert(parse_fields(s, p0, h.port, Seq::empty()) == Some((h.port, Seq::<u8>::empty())));
        },
        Some(b) => {
            let lb = varint_bytes(b.len());
            assert(nf =~= seq![18u8] + lb + b);
            assert(s[p0] == 18);
            assert(parse_varint(s, p0, 10) == Some((18 as nat, p0 + 1)));
            assert(s.subrange(p0 + 1, p0 + 1 + lb.len() as int) =~= lb);
            lemma_varint_roundtrip(s, p0 + 1, b.len(), 10);
            let k2 = p0 + 1 + lb.len() as int;
            assert(parse_varint(s, p0 + 1, 10) == Some((b.len(), k2)));
            assert(k2 + b.len() == s.len());
            assert(s.subrange(k2, k2 + b.len() as int) =~= b);
            assert(parse_fields(s, p0, h.port, Seq::empty()) == parse_fields(
                s,
                s.len() as int,
                h.port,
                b,
            ));
            assert(b.len() >= 1);
        },
    }
}

/// Round trip: a stream carrying an encoded header followed by arbitrary
/// bytes settles on exactly that header, with exactly the trailing bytes
/// kept for replay.
pub proof fn lemma_prefaced_roundtrip(cap: nat, h: HeaderModel, extra: Seq<u8>)
    requires
        header_wf(h),
        28 + message_bytes(h).len() <= cap,
    ensures
        frame_result(cap, prefaced_bytes(h) + extra, false) == FrameOutcome::Settled(
            Ok((CondModel::Present(h), extra)),
        ),
        frame_result(cap, prefaced_bytes(h) + extra, true) == FrameOutcome::Settled(
            Ok((CondModel::Present(h), extra)),
        ),
{
    let msg = message_bytes(h);
    let s = prefaced_bytes(h) + extra;
    lemma_message_len(h);
    assert(s.len() == 28 + msg.len() + extra.len());
    assert(s.subrange(0, 24) =~= preface_spec());
    assert(starts_with_preface(s));
    let lb = be32_bytes(msg.len() as u32);
    assert(s[24] == lb[0] && s[25] == lb[1] && s[26] == lb[2] && s[27] == lb[3]);
    lemma_be32_roundtrip(msg.len() as u32);
    assert(declared_len(s) == msg.len());
    assert(s.subrange(28, 28 + declared_len(s) as int) =~= msg);
    lemma_message_roundtrip(h);
    assert(s.subrange(28 + declared_len(s) as int, s.len() as int) =~= extra);
}

/// A stream that does not start with the preface token settles as
/// "absent, no preface", with the replay buffer holding exactly the
/// bytes consumed — whether settled by a mismatch or by end of stream.
pub proof fn lemma_no_preface_absent(cap: nat, s: Seq<u8>, eof: bool)
    requires
        !(s.len() >= 24 && s.subrange(0, 24) == preface_spec()),
        eof || s.len() >= 28,
    ensures
        frame_result(cap, s, eof) == FrameOutcome::Settled(
            Ok((CondModel::Absent(Reason::NoPreface), s)),
        ),
{
}

/// After the preface has matched, end of stream before the declared
/// message is fully buffered is a fatal error, not an absent header.
pub proof fn lemma_truncated_after_preface(cap: nat, s: Seq<u8>)
    requires
        s.len() >= 28,
        starts_with_preface(s),
        28 + declared_len(s) <= cap,
        s.len() < 28 + declared_len(s),
    ensures
        frame_result(cap, s, true) == FrameOutcome::Settled(Err(DecodeError::UnexpectedEof)),
{
}

} // verus!
