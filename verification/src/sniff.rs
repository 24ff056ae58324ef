//! Application-protocol sniffing.
//!
//! Classifies a fresh byte stream as HTTP/2, HTTP/1.x, or unknown, by
//! reading ahead under a timeout and a capacity bound. The decision is an
//! incremental state machine over read events; every byte read is kept
//! for replay, so the stream can be handed on intact whatever the
//! outcome. Timeout and end of stream are not errors: they settle the
//! classification as unknown.

use vstd::prelude::*;

use crate::prefix::{DetectionOutcome, PrefixedStream, ReadEvent};

verus! {

/// The HTTP/2 connection preface `PRI * HTTP/2.0\r\n\r\nSM\r\n\r\n`.
pub open spec fn h2_preface_spec() -> Seq<u8> {
    seq![
        80u8, 82, 73, 32, 42, 32, 72, 84, 84, 80, 47, 50, 46, 48, 13, 10, 13, 10, 83, 77, 13,
        10, 13, 10,
    ]
}

/// Length of the HTTP/2 preface.
pub const H2_PREFACE_LEN: usize = 24;

/// Length of the preface's first line, CRLF included: checked as an
/// early discriminator.
pub const H2_FIRST_LINE_LEN: usize = 16;

/// Default sniffing buffer capacity.
pub const SNIFF_BUFFER_CAPACITY: usize = 8192;

/// The HTTP/2 preface as bytes.
pub fn h2_preface() -> (r: Vec<u8>)
    ensures
        r@ == h2_preface_spec(),
{
    let mut v: Vec<u8> = Vec::new();
    v.push(80);
    v.push(82);
    v.push(73);
    v.push(32);
    v.push(42);
    v.push(32);
    v.push(72);
    v.push(84);
    v.push(84);
    v.push(80);
    v.push(47);
    v.push(50);
    v.push(46);
    v.push(48);
    v.push(13);
    v.push(10);
    v.push(13);
    v.push(10);
    v.push(83);
    v.push(77);
    v.push(13);
    v.push(10);
    v.push(13);
    v.push(10);
    proof {
        assert(v@ =~= h2_preface_spec());
    }
    v
}

/// What the stream was judged to speak.
#[derive(Copy, Clone, Debug, PartialEq, Eq, Structural)]
pub enum ProtocolKind {
    H2,
    Http1,
    Unknown,
}

/// Whether the bytes read so far begin a well-formed HTTP/1.x request.
/// The result depends on the bytes alone.
pub uninterp spec fn http1_parse_accepts(s: Seq<u8>) -> bool;

/// Relies on `httparse::Request::parse` with no header slots: `Ok`
/// (complete or partial) accepts, and so does `Error::TooManyHeaders`,
/// which that parser reports only after the request line itself parsed;
/// any other error rejects.
#[verifier::external_body]
fn http1_request_accepts(s: &[u8]) -> (r: bool)
    ensures
        r == http1_parse_accepts(s@),
{
    let mut headers = [httparse::EMPTY_HEADER; 0];
    let mut req = httparse::Request::new(&mut headers);
    match req.parse(s) {
        Ok(_) => true,
        Err(httparse::Error::TooManyHeaders) => true,
        Err(_) => false,
    }
}

/// Whether `line` is exactly the first line of the HTTP/2 preface.
pub open spec fn is_h2_first_line(line: Seq<u8>) -> bool {
    line.len() == 16 && line == h2_preface_spec().subrange(0, 16)
}

/// The classification the line scan settles on, looking for a CRLF from
/// position `j` on. A CRLF ending any line other than the preface's
/// first line hands the bytes read so far to the request-line parse:
/// acceptance means HTTP/1.x, rejection means unknown. A CRLF ending the
/// preface's first line keeps scanning while HTTP/2 is still possible,
/// and settles as unknown once it is not. No CRLF settles nothing.
pub open spec fn scan_classification(s: Seq<u8>, j: int, maybe_h2: bool) -> Option<ProtocolKind>
    decreases s.len() - j,
{
    if j < 0 || j + 1 >= s.len() {
        None
    } else if s[j] == 13 && s[j + 1] == 10 {
        if !is_h2_first_line(s.subrange(0, j + 2)) {
            Some(
                if http1_parse_accepts(s) {
                    ProtocolKind::Http1
                } else {
                    ProtocolKind::Unknown
                },
            )
        } else if !maybe_h2 {
            Some(ProtocolKind::Unknown)
        } else {
            scan_classification(s, j + 1, maybe_h2)
        }
    } else {
        scan_classification(s, j + 1, maybe_h2)
    }
}

/// An undecided sniff: the bytes read so far, the scan cursor (no byte
/// is scanned twice, backing up one position when the buffer ends with a
/// carriage return so a straddling CRLF is not missed), and whether the
/// HTTP/2 preface is still possible.
pub struct SniffState {
    buf: Vec<u8>,
    cursor: usize,
    maybe_h2: bool,
}

/// Mathematical image of a [`SniffState`].
pub ghost struct SniffModel {
    pub buf: Seq<u8>,
    pub cursor: int,
    pub maybe_h2: bool,
}

impl View for SniffState {
    type V = SniffModel;

    closed spec fn view(&self) -> SniffModel {
        SniffModel { buf: self.buf@, cursor: self.cursor as int, maybe_h2: self.maybe_h2 }
    }
}

/// The scan cursor never runs past the buffer.
pub open spec fn sniff_wf(m: SniffModel) -> bool {
    0 <= m.cursor <= m.buf.len()
}

/// The state a detection starts from.
pub open spec fn initial_sniff() -> SniffModel {
    SniffModel { buf: Seq::empty(), cursor: 0, maybe_h2: true }
}

impl SniffState {
    pub fn new() -> (r: Self)
        ensures
            r@ == initial_sniff(),
            sniff_wf(r@),
    {
        let r = SniffState { buf: Vec::new(), cursor: 0, maybe_h2: true };
        proof {
            assert(r@.buf =~= initial_sniff().buf);
        }
        r
    }
}

/// One advance of the sniff: still reading, or classified with the
/// replay bytes.
pub enum SniffStep {
    Reading(SniffState),
    Classified(ProtocolKind, PrefixedStream),
}

/// Mathematical image of a [`SniffStep`].
pub ghost enum SniffOutcome {
    Reading(SniffModel),
    Classified(ProtocolKind, Seq<u8>),
}

impl View for SniffStep {
    type V = SniffOutcome;

    open spec fn view(&self) -> SniffOutcome {
        match self {
            SniffStep::Reading(st) => SniffOutcome::Reading(st@),
            SniffStep::Classified(k, p) => SniffOutcome::Classified(*k, p@),
        }
    }
}

/// One non-empty data chunk against the state. With the whole preface
/// buffered and matching (and not ruled out), the stream is HTTP/2 at
/// once — no line terminator is awaited. Otherwise the preface is ruled
/// out once 24 bytes are buffered, the new bytes are scanned for a CRLF,
/// and an undecided detection keeps reading until the capacity is
/// exhausted, which settles it as unknown.
pub open spec fn sniff_data_spec(cap: nat, m: SniffModel, d: Seq<u8>) -> SniffOutcome {
    let s = m.buf + d;
    if m.maybe_h2 && s.len() >= 24 && s.subrange(0, 24) == h2_preface_spec() {
        SniffOutcome::Classified(ProtocolKind::H2, s)
    } else {
        let m2 = m.maybe_h2 && s.len() < 24;
        match scan_classification(s, m.cursor, m2) {
            Some(k) => SniffOutcome::Classified(k, s),
            None => {
                if s.len() >= cap {
                    SniffOutcome::Classified(ProtocolKind::Unknown, s)
                } else {
                    let c0 = m.cursor + d.len() - 1;
                    let c = if c0 > 0 && s[c0] == 13 {
                        c0 - 1
                    } else {
                        c0
                    };
                    SniffOutcome::Reading(SniffModel { buf: s, cursor: c, maybe_h2: m2 })
                }
            },
        }
    }
}

/// One read event against the state: end of stream, an empty chunk, or
/// the timeout settle the classification as unknown with the buffered
/// bytes kept; data advances the scan.
pub open spec fn sniff_step_spec(cap: nat, m: SniffModel, ev: ReadEvent) -> SniffOutcome {
    match ev {
        ReadEvent::Data(d) => if d@.len() == 0 {
            SniffOutcome::Classified(ProtocolKind::Unknown, m.buf)
        } else {
            sniff_data_spec(cap, m, d@)
        },
        ReadEvent::Eof => SniffOutcome::Classified(ProtocolKind::Unknown, m.buf),
        ReadEvent::TimedOut => SniffOutcome::Classified(ProtocolKind::Unknown, m.buf),
    }
}

/// Sniffer configuration: buffer capacity in bytes, and the detection
/// timeout in milliseconds. The timeout is enforced by the I/O loop
/// feeding the state machine, which reports expiry as a
/// [`ReadEvent::TimedOut`].
#[derive(Copy, Clone, Debug)]
pub struct DetectHttp {
    pub capacity: usize,
    pub timeout_ms: u64,
}

fn append_all(dst: &mut Vec<u8>, src: &[u8])
    ensures
        final(dst)@ == old(dst)@ + src@,
{
    let mut i: usize = 0;
    while i < src.len()
        invariant
            i <= src@.len(),
            dst@ =~= old(dst)@ + src@.subrange(0, i as int),
        decreases src@.len() - i,
    {
        dst.push(src[i]);
        i += 1;
    }
    proof {
        assert(dst@ =~= old(dst)@ + src@);
    }
}

/// Whether `s[0..p.len()]` equals `p`.
fn begins_with(s: &[u8], p: &[u8]) -> (r: bool)
    requires
        p@.len() <= s@.len(),
    ensures
        r == (s@.subrange(0, p@.len() as int) == p@),
{
    let n = s.len();
    let mut i: usize = 0;
    while i < p.len()
        invariant
            i <= p@.len() <= s@.len(),
            n == s@.len(),
            forall|k: int| 0 <= k < i ==> s@[k] == #[trigger] p@[k],
        decreases p@.len() - i,
    {
        if s[i] != p[i] {
            proof {
                assert(s@.subrange(0, p@.len() as int)[i as int] != p@[i as int]);
            }
            return false;
        }
        i += 1;
    }
    proof {
        assert(s@.subrange(0, p@.len() as int) =~= p@);
    }
    true
}

/// Whether the first 16 bytes of `s` are the preface's first line.
fn matches_h2_first_line(s: &[u8]) -> (r: bool)
    requires
        16 <= s@.len(),
    ensures
        r == (s@.subrange(0, 16) == h2_preface_spec().subrange(0, 16)),
{
    let pf = h2_preface();
    let n = s.len();
    let mut i: usize = 0;
    while i < 16
        invariant
            i <= 16,
            16 <= n == s@.len(),
            pf@ == h2_preface_spec(),
            forall|k: int| 0 <= k < i ==> s@[k] == #[trigger] pf@[k],
        decreases 16 - i,
    {
        if s[i] != pf[i] {
            proof {
                assert(s@.subrange(0, 16)[i as int] != h2_preface_spec().subrange(0, 16)[
                    i as int
                ]);
            }
            return false;
        }
        i += 1;
    }
    proof {
        assert(s@.subrange(0, 16) =~= h2_preface_spec().subrange(0, 16));
    }
    true
}

impl DetectHttp {
    /// The default capacity with the given timeout.
    pub fn new(timeout_ms: u64) -> (r: Self)
        ensures
            r.capacity == SNIFF_BUFFER_CAPACITY,
            r.timeout_ms == timeout_ms,
    {
        DetectHttp { capacity: SNIFF_BUFFER_CAPACITY, timeout_ms }
    }

    /// Feeds one read event to an undecided sniff.
    #[verifier::loop_isolation(false)]
    pub fn step(&self, st: SniffState, ev: ReadEvent) -> (r: SniffStep)
        requires
            sniff_wf(st@),
        ensures
            r@ == sniff_step_spec(self.capacity as nat, st@, ev),
            r matches SniffStep::Reading(s2) ==> sniff_wf(s2@),
            r matches SniffStep::Classified(k, p) ==> p.wf(),
    {
        let d = match ev {
            ReadEvent::Data(d) => d,
            ReadEvent::Eof => {
                return SniffStep::Classified(ProtocolKind::Unknown, PrefixedStream::new(st.buf));
            },
            ReadEvent::TimedOut => {
                return SniffStep::Classified(ProtocolKind::Unknown, PrefixedStream::new(st.buf));
            },
        };
        if d.len() == 0 {
            return SniffStep::Classified(ProtocolKind::Unknown, PrefixedStream::new(st.buf));
        }
        let ghost m = st@;
        let ghost dv = d@;
        let cursor = st.cursor;
        let maybe_h2 = st.maybe_h2;
        let mut buf = st.buf;
        append_all(&mut buf, d.as_slice());
        let ghost s = buf@;
        if maybe_h2 && buf.len() >= H2_PREFACE_LEN {
            let pf = h2_preface();
            if begins_with(buf.as_slice(), pf.as_slice()) {
                proof {
                    assert(s.subrange(0, 24) == h2_preface_spec());
                }
                return SniffStep::Classified(ProtocolKind::H2, PrefixedStream::new(buf));
            }
        }
        let m2 = maybe_h2 && buf.len() < H2_PREFACE_LEN;
        let total = buf.len();
        let mut j = cursor;
        while j + 1 < total
            invariant
                sniff_wf(m),
                s == m.buf + dv,
                s == buf@,
                m.cursor <= j,
                j + 1 <= s.len(),
                m2 == (m.maybe_h2 && s.len() < 24),
                scan_classification(s, m.cursor, m2) == scan_classification(s, j as int, m2),
            decreases s.len() - j,
        {
            if buf[j] == 13 && buf[j + 1] == 10 {
                let line_is_h2 = j + 2 == H2_FIRST_LINE_LEN && matches_h2_first_line(
                    buf.as_slice(),
                );
                proof {
                    assert(s.subrange(0, j + 2).len() == j + 2);
                    if j + 2 == 16 {
                        assert(s.subrange(0, j + 2) == s.subrange(0, 16));
                    }
                    assert(line_is_h2 == is_h2_first_line(s.subrange(0, j + 2)));
                }
                if !line_is_h2 {
                    let accepted = http1_request_accepts(buf.as_slice());
                    let k = if accepted {
                        ProtocolKind::Http1
                    } else {
                        ProtocolKind::Unknown
                    };
                    proof {
                        assert(scan_classification(s, j as int, m2) == Some(k));
                    }
                    return SniffStep::Classified(k, PrefixedStream::new(buf));
                } else if !m2 {
                    proof {
                        assert(scan_classification(s, j as int, m2) == Some(
                            ProtocolKind::Unknown,
                        ));
                    }
                    return SniffStep::Classified(ProtocolKind::Unknown, PrefixedStream::new(buf));
                }
            }
            j += 1;
        }
        proof {
            assert(scan_classification(s, j as int, m2) is None);
        }
        if buf.len() >= self.capacity {
            return SniffStep::Classified(ProtocolKind::Unknown, PrefixedStream::new(buf));
        }
        let c0 = cursor + d.len() - 1;
        let c = if c0 > 0 && buf[c0] == 13 {
            c0 - 1
        } else {
            c0
        };
        SniffStep::Reading(SniffState { buf, cursor: c, maybe_h2: m2 })
    }
}

/// The state machine folded over a sequence of events from the given
/// state: the classification and replay bytes, or `None` if the events
/// end before a decision.
pub open spec fn sniff_run(cap: nat, m: SniffModel, events: Seq<ReadEvent>) -> Option<
    (ProtocolKind, Seq<u8>),
>
    decreases events.len(),
{
    if events.len() == 0 {
        None
    } else {
        match sniff_step_spec(cap, m, events[0]) {
            SniffOutcome::Reading(m2) => sniff_run(cap, m2, events.subrange(1, events.len() as int)),
            SniffOutcome::Classified(k, s) => Some((k, s)),
        }
    }
}

/// Mathematical image of a whole detection's result.
pub open spec fn sniff_view(r: Option<DetectionOutcome<ProtocolKind>>) -> Option<
    (ProtocolKind, Seq<u8>),
> {
    match r {
        None => None,
        Some(o) => Some((o.classification, o.remainder@)),
    }
}

impl DetectHttp {
    /// Runs the whole sniff over a sequence of read events: the
    /// classification and the replay buffer holding every byte read, or
    /// `None` if the events end before a decision. Timeout and end of
    /// stream settle as unknown, never as an error.
    #[verifier::loop_isolation(false)]
    pub fn detect(&self, events: Vec<ReadEvent>) -> (r: Option<DetectionOutcome<ProtocolKind>>)
        ensures
            sniff_view(r) == sniff_run(self.capacity as nat, initial_sniff(), events@),
            r matches Some(o) ==> o.remainder.wf(),
    {
        let ghost all = events@;
        let ghost cap = self.capacity as nat;
        let mut st = SniffState::new();
        let mut evs = events;
        while evs.len() > 0
            invariant
                sniff_wf(st@),
                sniff_run(cap, st@, evs@) == sniff_run(cap, initial_sniff(), all),
            decreases evs@.len(),
        {
            let ghost st_view = st@;
            let ghost evs_before = evs@;
            let ev = evs.remove(0);
            proof {
                assert(evs@ =~= evs_before.subrange(1, evs_before.len() as int));
                assert(evs_before[0] == ev);
            }
            let stp = self.step(st, ev);
            let ghost stp_view = stp@;
            match stp {
                SniffStep::Reading(s2) => {
                    st = s2;
                    proof {
                        assert(stp_view == SniffOutcome::Reading(st@));
                        assert(sniff_run(cap, st_view, evs_before) == sniff_run(cap, st@, evs@));
                    }
                },
                SniffStep::Classified(k, p) => {
                    proof {
                        assert(stp_view == SniffOutcome::Classified(k, p@));
                        assert(sniff_run(cap, st_view, evs_before) == Some((k, p@)));
                    }
                    return Some(DetectionOutcome { classification: k, remainder: p });
                },
            }
        }
        None
    }
}

/// Whether the bytes contain a CRLF pair.
pub open spec fn has_crlf(s: Seq<u8>) -> bool {
    exists|j: int| 0 <= j && j + 1 < s.len() && s[j] == 13 && #[trigger] s[j + 1] == 10
}

/// Without a CRLF there is nothing for the line scan to settle on.
proof fn lemma_scan_none(s: Seq<u8>, j: int, maybe_h2: bool)
    requires
        !has_crlf(s),
    ensures
        scan_classification(s, j, maybe_h2) is None,
    decreases s.len() - j,
{
    if j >= 0 && j + 1 < s.len() {
        if s[j] == 13 && s[j + 1] == 10 {
            assert(has_crlf(s));
        }
        lemma_scan_none(s, j + 1, maybe_h2);
    }
}

/// Bytes that match the whole HTTP/2 preface contain a CRLF.
proof fn lemma_preface_has_crlf(s: Seq<u8>)
    requires
        s.len() >= 24,
        s.subrange(0, 24) == h2_preface_spec(),
    ensures
        has_crlf(s),
{
    assert(h2_preface_spec()[14] == 13 && h2_preface_spec()[15] == 10);
    assert(s[14] == h2_preface_spec()[14]) by {
        assert(s.subrange(0, 24)[14] == h2_preface_spec()[14]);
    }
    assert(s[15] == h2_preface_spec()[15]) by {
        assert(s.subrange(0, 24)[15] == h2_preface_spec()[15]);
    }
    assert(s[14int] == 13 && s[14int + 1] == 10);
}

/// A prefix of CRLF-free bytes is CRLF-free.
proof fn lemma_no_crlf_prefix(s: Seq<u8>, k: int)
    requires
        !has_crlf(s),
        0 <= k <= s.len(),
    ensures
        !has_crlf(s.subrange(0, k)),
{
    let p = s.subrange(0, k);
    if has_crlf(p) {
        let j = choose|j: int| 0 <= j && j + 1 < p.len() && p[j] == 13 && #[trigger] p[j + 1]
            == 10;
        assert(s[j] == 13 && s[j + 1] == 10);
        assert(has_crlf(s));
    }
}

/// While the bytes read have no CRLF, one data chunk never settles the
/// detection on a protocol: it either keeps reading or exhausts the
/// capacity, which classifies unknown.
proof fn lemma_no_crlf_step(cap: nat, m: SniffModel, d: Seq<u8>)
    requires
        sniff_wf(m),
        d.len() > 0,
        !has_crlf(m.buf + d),
    ensures
        (m.buf + d).len() >= cap ==> sniff_data_spec(cap, m, d) == SniffOutcome::Classified(
            ProtocolKind::Unknown,
            m.buf + d,
        ),
        (m.buf + d).len() < cap ==> (sniff_data_spec(cap, m, d) matches SniffOutcome::Reading(
            m2,
        ) && m2.buf == m.buf + d && sniff_wf(m2)),
{
    let s = m.buf + d;
    if m.maybe_h2 && s.len() >= 24 && s.subrange(0, 24) == h2_preface_spec() {
        lemma_preface_has_crlf(s);
    }
    lemma_scan_none(s, m.cursor, m.maybe_h2 && s.len() < 24);
}

/// The concatenation of the data chunks among the events.
pub open spec fn data_concat(events: Seq<ReadEvent>) -> Seq<u8>
    decreases events.len(),
{
    if events.len() == 0 {
        Seq::empty()
    } else {
        (match events[0] {
            ReadEvent::Data(d) => d@,
            _ => Seq::empty(),
        }) + data_concat(events.subrange(1, events.len() as int))
    }
}

/// A stream whose bytes never contain a CRLF (and so can never complete
/// the HTTP/2 preface), delivered in any number of reads and ended by
/// the end of the stream, is classified unknown with every byte
/// preserved for replay.
pub proof fn lemma_no_crlf_unknown(cap: nat, m: SniffModel, events: Seq<ReadEvent>)
    requires
        sniff_wf(m),
        events.len() > 0,
        events.last() == ReadEvent::Eof,
        forall|i: int|
            0 <= i < events.len() - 1 ==> (#[trigger] events[i] matches ReadEvent::Data(d)
                && d@.len() > 0),
        !has_crlf(m.buf + data_concat(events)),
        (m.buf + data_concat(events)).len() < cap,
    ensures
        sniff_run(cap, m, events) == Some((ProtocolKind::Unknown, m.buf + data_concat(events))),
    decreases events.len(),
{
    let whole = m.buf + data_concat(events);
    let rest = events.subrange(1, events.len() as int);
    if events.len() == 1 {
        assert(events[0] == ReadEvent::Eof);
        assert(whole =~= m.buf);
    } else {
        assert(events[0] matches ReadEvent::Data(d) && d@.len() > 0);
        match events[0] {
            ReadEvent::Data(d) => {
                let s1 = m.buf + d@;
                assert(whole =~= s1 + data_concat(rest));
                lemma_no_crlf_prefix(whole, s1.len() as int);
                assert(whole.subrange(0, s1.len() as int) =~= s1);
                lemma_no_crlf_step(cap, m, d@);
                let m2 = sniff_data_spec(cap, m, d@)->Reading_0;
                assert(rest.last() == events.last());
                assert(forall|i: int|
                    0 <= i < rest.len() - 1 ==> (#[trigger] rest[i] matches ReadEvent::Data(
                        d2,
                    ) && d2@.len() > 0)) by {
                    assert(forall|i: int|
                        0 <= i < rest.len() - 1 ==> rest[i] == #[trigger] events[i + 1]);
                }
                assert(m2.buf + data_concat(rest) =~= whole);
                lemma_no_crlf_unknown(cap, m2, rest);
            },
            _ => {
                assert(false);
            },
        }
    }
}

/// A stream that never completes a read is classified unknown once the
/// timeout fires, with nothing consumed.
pub proof fn lemma_timeout_unknown(cap: nat)
    ensures
        sniff_step_spec(cap, initial_sniff(), ReadEvent::TimedOut) == SniffOutcome::Classified(
            ProtocolKind::Unknown,
            Seq::<u8>::empty(),
        ),
{
}

} // verus!
