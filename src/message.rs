use vstd::prelude::*;

use crate::codec::{kind_id, kind_of_id, lemma_kind_id_round_trip, u16_le, u32_le, PacketKind};

verus! {

/// Disambiguates kinds that hold several instances: events by code, laps by car.
#[derive(Clone, Copy, Debug)]
pub enum OptionalMessage {
    Code([u8; 4]),
    Number(u8),
}

/// One message of the outbound stream.
#[derive(Debug)]
pub struct OutboundMessage {
    pub kind: PacketKind,
    pub payload: Vec<u8>,
    pub optional: Option<OptionalMessage>,
}

/// A message as a value: its kind, its payload bytes, its key.
pub type MessageView = (PacketKind, Seq<u8>, Option<OptionalMessage>);

impl OutboundMessage {
    pub open spec fn view(&self) -> MessageView {
        (self.kind, self.payload@, self.optional)
    }
}

pub open spec fn views(v: Seq<OutboundMessage>) -> Seq<MessageView> {
    v.map_values(|m: OutboundMessage| m@)
}

/// A payload fits the 32-bit length prefix of the batch format.
pub open spec fn frameable(m: MessageView) -> bool {
    m.1.len() <= u32::MAX
}

pub open spec fn all_frameable(ms: Seq<MessageView>) -> bool {
    forall|i: int| 0 <= i < ms.len() ==> frameable(#[trigger] ms[i])
}

/// The bytes that name the key of a message.
pub open spec fn optional_bytes(o: Option<OptionalMessage>) -> Seq<u8> {
    match o {
        None => seq![0u8],
        Some(OptionalMessage::Code(c)) => seq![1u8, c[0], c[1], c[2], c[3]],
        Some(OptionalMessage::Number(n)) => seq![2u8, n],
    }
}

/// Four little-endian bytes of `n`.
pub open spec fn le_bytes4(n: nat) -> Seq<u8> {
    seq![
        (n % 256) as u8,
        ((n / 256) % 256) as u8,
        ((n / 65536) % 256) as u8,
        ((n / 16777216) % 256) as u8,
    ]
}

/// One message in the batch format: kind, key, payload length, payload.
pub open spec fn frame(m: MessageView) -> Seq<u8> {
    seq![kind_id(m.0)] + optional_bytes(m.2) + le_bytes4(m.1.len()) + m.1
}

/// A batch: its messages' frames one after another.
pub open spec fn frames(ms: Seq<MessageView>) -> Seq<u8>
    decreases ms.len(),
{
    if ms.len() == 0 {
        Seq::empty()
    } else {
        frame(ms[0]) + frames(ms.drop_first())
    }
}

/// The key that starts `b` and the number of bytes it takes.
pub open spec fn parse_optional(b: Seq<u8>) -> Option<(Option<OptionalMessage>, nat)> {
    if b.len() < 1 {
        None
    } else if b[0] == 0 {
        Some((None, 1))
    } else if b[0] == 1 && b.len() >= 5 {
        Some((Some(OptionalMessage::Code([b[1], b[2], b[3], b[4]])), 5))
    } else if b[0] == 2 && b.len() >= 2 {
        Some((Some(OptionalMessage::Number(b[1])), 2))
    } else {
        None
    }
}

/// The message that starts `b` and the number of bytes it takes.
pub open spec fn parse_frame(b: Seq<u8>) -> Option<(MessageView, nat)> {
    if b.len() < 1 {
        None
    } else {
        match kind_of_id(b[0]) {
            None => None,
            Some(k) => match parse_optional(b.drop_first()) {
                None => None,
                Some((o, n)) => {
                    let at: int = 1 + n as int;
                    if b.len() < at + 4 {
                        None
                    } else {
                        let len = u32_le(b, at as int);
                        if b.len() < at + 4 + len {
                            None
                        } else {
                            Some(((k, b.subrange(at + 4, at + 4 + len), o), (at + 4 + len) as nat))
                        }
                    }
                },
            },
        }
    }
}

/// The messages of a batch, or `None` when the bytes are not a batch.
pub open spec fn parse_frames(b: Seq<u8>) -> Option<Seq<MessageView>>
    decreases b.len(),
{
    match parse_frame(b) {
        None => if b.len() == 0 {
            Some(Seq::empty())
        } else {
            None
        },
        Some((m, n)) => if 0 < n <= b.len() {
            match parse_frames(b.subrange(n as int, b.len() as int)) {
                Some(rest) => Some(seq![m] + rest),
                None => None,
            }
        } else {
            None
        },
    }
}

proof fn lemma_le_bytes4(n: nat)
    requires
        n <= u32::MAX,
    ensures
        u32_le(le_bytes4(n), 0) == n,
{
    let b = le_bytes4(n);
    let q1 = n / 256;
    let q2 = n / 65536;
    let q3 = n / 16777216;
    assert(q2 == q1 / 256);
    assert(q3 == q2 / 256);
    assert(q3 < 256);
}

proof fn lemma_parse_frame(m: MessageView, rest: Seq<u8>)
    requires
        frameable(m),
    ensures
        parse_frame(frame(m) + rest) == Some((m, frame(m).len())),
{
    let b = frame(m) + rest;
    let ob = optional_bytes(m.2);
    let lb = le_bytes4(m.1.len());
    lemma_kind_id_round_trip(m.0);
    assert(b[0] == kind_id(m.0));
    assert(b.drop_first() =~= ob + lb + m.1 + rest);
    assert((ob + (lb + m.1 + rest)).subrange(0, ob.len() as int) =~= ob);
    match m.2 {
        None => {},
        Some(OptionalMessage::Code(c)) => {
            let p = ob + lb + m.1 + rest;
            assert(p[1] == c[0] && p[2] == c[1] && p[3] == c[2] && p[4] == c[3]);
            assert([p[1], p[2], p[3], p[4]] =~= c);
        },
        Some(OptionalMessage::Number(x)) => {},
    }
    let at: int = 1 + ob.len() as int;
    lemma_le_bytes4(m.1.len());
    assert(b.subrange(at, at + 4) =~= lb);
    assert(u32_le(b, at) == u32_le(lb, 0));
    assert(b.subrange(at + 4, at + 4 + m.1.len()) =~= m.1);
}

/// A batch read back gives the messages it was made of.
pub proof fn lemma_parse_frames(ms: Seq<MessageView>)
    requires
        all_frameable(ms),
    ensures
        parse_frames(frames(ms)) == Some(ms),
    decreases ms.len(),
{
    if ms.len() == 0 {
        assert(parse_frame(frames(ms)) is None);
    } else {
        let tail = ms.drop_first();
        assert(all_frameable(tail)) by {
            assert forall|i: int| 0 <= i < tail.len() implies frameable(#[trigger] tail[i]) by {
                assert(tail[i] == ms[i + 1]);
            }
        }
        assert(frameable(ms[0]));
        lemma_parse_frame(ms[0], frames(tail));
        lemma_parse_frames(tail);
        let b = frames(ms);
        let n = frame(ms[0]).len();
        assert(b.subrange(n as int, b.len() as int) =~= frames(tail));
        assert(seq![ms[0]] + tail =~= ms);
    }
}

proof fn lemma_frames_push(ms: Seq<MessageView>, m: MessageView)
    ensures
        frames(ms.push(m)) == frames(ms) + frame(m),
    decreases ms.len(),
{
    if ms.len() == 0 {
        assert(ms.push(m).drop_first() =~= Seq::<MessageView>::empty());
        assert(frames(ms.push(m).drop_first()) =~= Seq::<u8>::empty());
        assert(frames(ms.push(m)) =~= frame(m));
    } else {
        lemma_frames_push(ms.drop_first(), m);
        assert(ms.push(m).drop_first() =~= ms.drop_first().push(m));
        assert(frames(ms.push(m)) =~= frames(ms) + frame(m));
    }
}

/// A copy of a byte vector.
pub fn copy_bytes(v: &Vec<u8>) -> (r: Vec<u8>)
    ensures
        r@ == v@,
{
    let mut r: Vec<u8> = Vec::with_capacity(v.len());
    let mut i: usize = 0;
    while i < v.len()
        invariant
            i <= v@.len(),
            r@ == v@.subrange(0, i as int),
        decreases v@.len() - i,
    {
        r.push(v[i]);
        i = i + 1;
        assert(r@ =~= v@.subrange(0, i as int));
    }
    assert(v@.subrange(0, v@.len() as int) =~= v@);
    r
}

pub fn copy_range(b: &[u8], start: usize, end: usize) -> (r: Vec<u8>)
    requires
        start <= end <= b@.len(),
    ensures
        r@ == b@.subrange(start as int, end as int),
{
    let mut r: Vec<u8> = Vec::with_capacity(end - start);
    let mut i: usize = start;
    while i < end
        invariant
            start <= i <= end <= b@.len(),
            r@ == b@.subrange(start as int, i as int),
        decreases end - i,
    {
        r.push(b[i]);
        i = i + 1;
        assert(r@ =~= b@.subrange(start as int, i as int));
    }
    r
}

fn append_frame(out: &mut Vec<u8>, m: &OutboundMessage)
    requires
        frameable(m@),
    ensures
        final(out)@ == old(out)@ + frame(m@),
{
    let ghost start = out@;
    out.push(m.kind.id());
    match m.optional {
        None => out.push(0),
        Some(OptionalMessage::Code(c)) => {
            out.push(1);
            out.push(c[0]);
            out.push(c[1]);
            out.push(c[2]);
            out.push(c[3]);
        },
        Some(OptionalMessage::Number(n)) => {
            out.push(2);
            out.push(n);
        },
    }
    let len = m.payload.len() as u32;
    out.push((len % 256) as u8);
    out.push(((len / 256) % 256) as u8);
    out.push(((len / 65536) % 256) as u8);
    out.push(((len / 16777216) % 256) as u8);
    let mut i: usize = 0;
    let ghost head = out@;
    while i < m.payload.len()
        invariant
            i <= m.payload@.len(),
            out@ == head + m.payload@.subrange(0, i as int),
        decreases m.payload@.len() - i,
    {
        out.push(m.payload[i]);
        i = i + 1;
        assert(out@ =~= head + m.payload@.subrange(0, i as int));
    }
    assert(m.payload@.subrange(0, m.payload@.len() as int) =~= m.payload@);
    assert(out@ =~= start + frame(m@));
}

/// Frames `msgs` as one batch.
pub fn encode_batch(msgs: &Vec<OutboundMessage>) -> (r: Vec<u8>)
    requires
        all_frameable(views(msgs@)),
    ensures
        r@ == frames(views(msgs@)),
{
    let mut out: Vec<u8> = Vec::new();
    let mut i: usize = 0;
    while i < msgs.len()
        invariant
            i <= msgs@.len(),
            all_frameable(views(msgs@)),
            out@ == frames(views(msgs@.subrange(0, i as int))),
        decreases msgs@.len() - i,
    {
        assert(frameable(views(msgs@)[i as int]));
        append_frame(&mut out, &msgs[i]);
        proof {
            lemma_frames_push(views(msgs@.subrange(0, i as int)), msgs@[i as int]@);
            assert(views(msgs@.subrange(0, i + 1)) =~= views(msgs@.subrange(0, i as int)).push(
                msgs@[i as int]@,
            ));
        }
        i = i + 1;
    }
    assert(msgs@.subrange(0, msgs@.len() as int) =~= msgs@);
    out
}

fn read_frame(b: &[u8], pos: usize) -> (r: Option<(OutboundMessage, usize)>)
    requires
        pos <= b@.len(),
    ensures
        match parse_frame(b@.subrange(pos as int, b@.len() as int)) {
            None => r is None,
            Some((m, n)) => r matches Some((msg, end)) && msg@ == m && end == pos + n,
        },
{
    let ghost s = b@.subrange(pos as int, b@.len() as int);
    if pos >= b.len() {
        return None;
    }
    let kind = match PacketKind::from_id(b[pos]) {
        None => return None,
        Some(k) => k,
    };
    let ghost t = s.drop_first();
    if pos + 1 >= b.len() {
        assert(t.len() == 0);
        return None;
    }
    let tag = b[pos + 1];
    let (optional, n): (Option<OptionalMessage>, usize) = if tag == 0 {
        (None, 1)
    } else if tag == 1 && b.len() - pos >= 6 {
        (Some(OptionalMessage::Code([b[pos + 2], b[pos + 3], b[pos + 4], b[pos + 5]])), 5)
    } else if tag == 2 && b.len() - pos >= 3 {
        (Some(OptionalMessage::Number(b[pos + 2])), 2)
    } else {
        return None;
    };
    assert(parse_optional(t) == Some((optional, n as nat))) by {
        if tag == 1 && b.len() - pos >= 6 {
            assert([t[1], t[2], t[3], t[4]] =~= [b@[pos + 2], b@[pos + 3], b@[pos + 4], b@[pos + 5]]);
        }
    }
    let at = pos + 1 + n;
    if b.len() < 4 || at > b.len() - 4 {
        return None;
    }
    let len = crate::codec::read_u32_le(b, at) as usize;
    assert(u32_le(s, 1 + n) == u32_le(b@, at as int));
    if len > b.len() - at - 4 {
        return None;
    }
    let payload = copy_range(b, at + 4, at + 4 + len);
    assert(payload@ =~= s.subrange(1 + n + 4, 1 + n + 4 + len));
    Some((OutboundMessage { kind, payload, optional }, at + 4 + len))
}

/// Reads a batch back into its messages; `None` when the bytes are not a batch.
pub fn decode_batch(b: &[u8]) -> (r: Option<Vec<OutboundMessage>>)
    ensures
        match parse_frames(b@) {
            None => r is None,
            Some(ms) => r matches Some(v) && views(v@) == ms,
        },
{
    let mut out: Vec<OutboundMessage> = Vec::new();
    let mut pos: usize = 0;
    assert(b@.subrange(0, b@.len() as int) =~= b@);
    while pos < b.len()
        invariant
            pos <= b@.len(),
            match parse_frames(b@.subrange(pos as int, b@.len() as int)) {
                Some(rest) => parse_frames(b@) == Some(views(out@) + rest),
                None => parse_frames(b@) is None,
            },
        decreases b@.len() - pos,
    {
        let ghost s = b@.subrange(pos as int, b@.len() as int);
        match read_frame(b, pos) {
            None => {
                assert(parse_frames(s) is None);
                return None;
            },
            Some((m, end)) => {
                proof {
                    let n = (end - pos) as nat;
                    assert(s.subrange(n as int, s.len() as int) =~= b@.subrange(
                        end as int,
                        b@.len() as int,
                    ));
                    assert(views(out@.push(m)) =~= views(out@).push(m@));
                    match parse_frames(b@.subrange(end as int, b@.len() as int)) {
                        Some(rest) => {
                            assert(views(out@).push(m@) + rest =~= views(out@) + (seq![m@]
                                + rest));
                        },
                        None => {},
                    }
                }
                out.push(m);
                pos = end;
            },
        }
    }
    proof {
        let s = b@.subrange(pos as int, b@.len() as int);
        assert(s.len() == 0);
        assert(parse_frame(s) is None);
        assert(views(out@) + Seq::<MessageView>::empty() =~= views(out@));
    }
    Some(out)
}

} // verus!
