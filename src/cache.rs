use vstd::prelude::*;

use crate::codec::{same_code, PacketKind};
use crate::message::{
    all_frameable, copy_bytes, encode_batch, frameable, frames, lemma_parse_frames, parse_frames,
    views, MessageView, OptionalMessage, OutboundMessage,
};

verus! {

/// The latest state of a session: one slot per singleton kind, and keyed lists
/// of events (by code) and lap histories (by car index).
pub ghost struct CacheState {
    pub motion: Option<Seq<u8>>,
    pub session: Option<Seq<u8>>,
    pub participants: Option<Seq<u8>>,
    pub final_classification: Option<Seq<u8>>,
    pub events: Seq<([u8; 4], Seq<u8>)>,
    pub history: Seq<(u8, Seq<u8>)>,
}

pub open spec fn empty_cache() -> CacheState {
    CacheState {
        motion: None,
        session: None,
        participants: None,
        final_classification: None,
        events: Seq::empty(),
        history: Seq::empty(),
    }
}

/// No key occurs twice.
pub open spec fn keys_unique<K, V>(s: Seq<(K, V)>) -> bool {
    forall|i: int, j: int| 0 <= i < s.len() && 0 <= j < s.len() && s[i].0 == s[j].0 ==> i == j
}

pub open spec fn has_key<K, V>(s: Seq<(K, V)>, k: K) -> bool {
    exists|i: int| 0 <= i < s.len() && s[i].0 == k
}

/// Last write wins: the entry for `k` takes `v` in place, or `(k, v)` is appended.
pub open spec fn upsert<K, V>(s: Seq<(K, V)>, k: K, v: V) -> Seq<(K, V)> {
    if has_key(s, k) {
        s.update(choose|i: int| 0 <= i < s.len() && s[i].0 == k, (k, v))
    } else {
        s.push((k, v))
    }
}

pub open spec fn payloads_frameable<K>(s: Seq<(K, Seq<u8>)>) -> bool {
    forall|i: int| 0 <= i < s.len() ==> (#[trigger] s[i]).1.len() <= u32::MAX
}

pub open spec fn slot_frameable(o: Option<Seq<u8>>) -> bool {
    o matches Some(p) ==> p.len() <= u32::MAX
}

impl CacheState {
    pub open spec fn wf(self) -> bool {
        &&& keys_unique(self.events)
        &&& keys_unique(self.history)
        &&& payloads_frameable(self.events)
        &&& payloads_frameable(self.history)
        &&& slot_frameable(self.motion)
        &&& slot_frameable(self.session)
        &&& slot_frameable(self.participants)
        &&& slot_frameable(self.final_classification)
    }

    pub open spec fn is_empty(self) -> bool {
        &&& self.motion is None
        &&& self.session is None
        &&& self.participants is None
        &&& self.final_classification is None
        &&& self.events.len() == 0
        &&& self.history.len() == 0
    }
}

/// The cache after saving `m`: singleton kinds overwrite their slot, events and
/// lap histories replace the entry of their key; other kinds are not cached.
pub open spec fn save_spec(c: CacheState, m: MessageView) -> CacheState {
    match m.0 {
        PacketKind::Motion => CacheState { motion: Some(m.1), ..c },
        PacketKind::Session => CacheState { session: Some(m.1), ..c },
        PacketKind::Participants => CacheState { participants: Some(m.1), ..c },
        PacketKind::FinalClassification => CacheState { final_classification: Some(m.1), ..c },
        PacketKind::Event => match m.2 {
            Some(OptionalMessage::Code(code)) => CacheState {
                events: upsert(c.events, code, m.1),
                ..c
            },
            _ => c,
        },
        PacketKind::SessionHistory => match m.2 {
            Some(OptionalMessage::Number(car)) => CacheState {
                history: upsert(c.history, car, m.1),
                ..c
            },
            _ => c,
        },
        _ => c,
    }
}

/// Saving each of `ms` in turn.
pub open spec fn save_all(c: CacheState, ms: Seq<MessageView>) -> CacheState
    decreases ms.len(),
{
    if ms.len() == 0 {
        c
    } else {
        save_all(save_spec(c, ms[0]), ms.drop_first())
    }
}

pub open spec fn slot_message(k: PacketKind, o: Option<Seq<u8>>) -> Seq<MessageView> {
    match o {
        Some(p) => seq![(k, p, None::<OptionalMessage>)],
        None => Seq::empty(),
    }
}

pub open spec fn event_messages(es: Seq<([u8; 4], Seq<u8>)>) -> Seq<MessageView> {
    es.map_values(
        |e: ([u8; 4], Seq<u8>)| (PacketKind::Event, e.1, Some(OptionalMessage::Code(e.0))),
    )
}

pub open spec fn history_messages(hs: Seq<(u8, Seq<u8>)>) -> Seq<MessageView> {
    hs.map_values(
        |h: (u8, Seq<u8>)| (PacketKind::SessionHistory, h.1, Some(OptionalMessage::Number(h.0))),
    )
}

/// The snapshot's messages in their fixed order: Session, Participants, Motion,
/// all events, all lap histories, then the final classification.
pub open spec fn snapshot_messages(c: CacheState) -> Seq<MessageView> {
    slot_message(PacketKind::Session, c.session) + slot_message(
        PacketKind::Participants,
        c.participants,
    ) + slot_message(PacketKind::Motion, c.motion) + event_messages(c.events) + history_messages(
        c.history,
    ) + slot_message(PacketKind::FinalClassification, c.final_classification)
}

/// Per-service cache of the latest payload of each kind, from which a new
/// subscriber can render without replay.
pub struct PacketCaching {
    motion: Option<Vec<u8>>,
    session: Option<Vec<u8>>,
    participants: Option<Vec<u8>>,
    final_classification: Option<Vec<u8>>,
    events: Vec<([u8; 4], Vec<u8>)>,
    history: Vec<(u8, Vec<u8>)>,
}

pub open spec fn slot_view(o: Option<Vec<u8>>) -> Option<Seq<u8>> {
    match o {
        Some(v) => Some(v@),
        None => None,
    }
}

impl PacketCaching {
    pub closed spec fn view(&self) -> CacheState {
        CacheState {
            motion: slot_view(self.motion),
            session: slot_view(self.session),
            participants: slot_view(self.participants),
            final_classification: slot_view(self.final_classification),
            events: self.events@.map_values(|e: ([u8; 4], Vec<u8>)| (e.0, e.1@)),
            history: self.history@.map_values(|h: (u8, Vec<u8>)| (h.0, h.1@)),
        }
    }

    pub open spec fn wf(&self) -> bool {
        self@.wf()
    }

    pub fn new() -> (r: PacketCaching)
        ensures
            r@ == empty_cache(),
            r.wf(),
    {
        let r = PacketCaching {
            motion: None,
            session: None,
            participants: None,
            final_classification: None,
            events: Vec::new(),
            history: Vec::new(),
        };
        assert(r@.events =~= Seq::<([u8; 4], Seq<u8>)>::empty());
        assert(r@.history =~= Seq::<(u8, Seq<u8>)>::empty());
        r
    }

    /// Writes `payload` into the slot of `kind` (and of its key, for events and lap histories).
    pub fn save(&mut self, kind: PacketKind, payload: &Vec<u8>, optional: Option<OptionalMessage>)
        requires
            old(self).wf(),
            payload@.len() <= u32::MAX,
        ensures
            final(self).wf(),
            final(self)@ == save_spec(old(self)@, (kind, payload@, optional)),
    {
        let ghost c = self@;
        match kind {
            PacketKind::Motion => {
                self.motion = Some(copy_bytes(payload));
                assert(self@ =~= save_spec(c, (kind, payload@, optional)));
            },
            PacketKind::Session => {
                self.session = Some(copy_bytes(payload));
                assert(self@ =~= save_spec(c, (kind, payload@, optional)));
            },
            PacketKind::Participants => {
                self.participants = Some(copy_bytes(payload));
                assert(self@ =~= save_spec(c, (kind, payload@, optional)));
            },
            PacketKind::FinalClassification => {
                self.final_classification = Some(copy_bytes(payload));
                assert(self@ =~= save_spec(c, (kind, payload@, optional)));
            },
            PacketKind::Event => match optional {
                Some(OptionalMessage::Code(code)) => {
                    self.save_event(code, payload);
                },
                _ => {},
            },
            PacketKind::SessionHistory => match optional {
                Some(OptionalMessage::Number(car)) => {
                    self.save_history(car, payload);
                },
                _ => {},
            },
            _ => {},
        }
    }

    fn save_event(&mut self, code: [u8; 4], payload: &Vec<u8>)
        requires
            old(self).wf(),
            payload@.len() <= u32::MAX,
        ensures
            final(self).wf(),
            final(self)@ == (CacheState { events: upsert(old(self)@.events, code, payload@), ..old(self)@ }),
    {
        let ghost c = self@;
        let mut i: usize = 0;
        while i < self.events.len()
            invariant
                self@ == c,
                c == old(self)@,
                c.wf(),
                payload@.len() <= u32::MAX,
                i <= c.events.len(),
                forall|j: int| 0 <= j < i ==> c.events[j].0 != code,
            decreases self.events@.len() - i,
        {
            if same_code(&self.events[i].0, &code) {
                let ghost idx = i as int;
                assert(c.events[idx].0 == code);
                assert(has_key(c.events, code));
                let ghost ch = choose|k: int| 0 <= k < c.events.len() && c.events[k].0 == code;
                assert(ch == idx);
                self.events.set(i, (code, copy_bytes(payload)));
                assert(self@.events =~= upsert(c.events, code, payload@));
                assert(self@ =~= (CacheState { events: upsert(c.events, code, payload@), ..c }));
                return;
            }
            i = i + 1;
        }
        assert(!has_key(c.events, code));
        self.events.push((code, copy_bytes(payload)));
        assert(self@.events =~= upsert(c.events, code, payload@));
        assert(self@ =~= (CacheState { events: upsert(c.events, code, payload@), ..c }));
    }

    fn save_history(&mut self, car: u8, payload: &Vec<u8>)
        requires
            old(self).wf(),
            payload@.len() <= u32::MAX,
        ensures
            final(self).wf(),
            final(self)@ == (CacheState { history: upsert(old(self)@.history, car, payload@), ..old(self)@ }),
    {
        let ghost c = self@;
        let mut i: usize = 0;
        while i < self.history.len()
            invariant
                self@ == c,
                c == old(self)@,
                c.wf(),
                payload@.len() <= u32::MAX,
                i <= c.history.len(),
                forall|j: int| 0 <= j < i ==> c.history[j].0 != car,
            decreases self.history@.len() - i,
        {
            if self.history[i].0 == car {
                let ghost idx = i as int;
                assert(c.history[idx].0 == car);
                assert(has_key(c.history, car));
                let ghost ch = choose|k: int| 0 <= k < c.history.len() && c.history[k].0 == car;
                assert(ch == idx);
                self.history.set(i, (car, copy_bytes(payload)));
                assert(self@.history =~= upsert(c.history, car, payload@));
                assert(self@ =~= (CacheState { history: upsert(c.history, car, payload@), ..c }));
                return;
            }
            i = i + 1;
        }
        assert(!has_key(c.history, car));
        self.history.push((car, copy_bytes(payload)));
        assert(self@.history =~= upsert(c.history, car, payload@));
        assert(self@ =~= (CacheState { history: upsert(c.history, car, payload@), ..c }));
    }

    /// The snapshot's messages, in the fixed kind order.
    pub fn snapshot_messages(&self) -> (r: Vec<OutboundMessage>)
        requires
            self.wf(),
        ensures
            views(r@) == snapshot_messages(self@),
    {
        let ghost c = self@;
        let mut out: Vec<OutboundMessage> = Vec::new();
        push_slot(&mut out, PacketKind::Session, &self.session);
        push_slot(&mut out, PacketKind::Participants, &self.participants);
        push_slot(&mut out, PacketKind::Motion, &self.motion);
        let ghost before_events = views(out@);
        let mut i: usize = 0;
        while i < self.events.len()
            invariant
                self@ == c,
                i <= c.events.len(),
                views(out@) == before_events + event_messages(c.events.subrange(0, i as int)),
            decreases self.events@.len() - i,
        {
            let m = OutboundMessage {
                kind: PacketKind::Event,
                payload: copy_bytes(&self.events[i].1),
                optional: Some(OptionalMessage::Code(self.events[i].0)),
            };
            let ghost prev = out@;
            assert(c.events[i as int] == (self.events@[i as int].0, self.events@[i as int].1@));
            out.push(m);
            proof {
                assert(views(out@) =~= views(prev).push(m@));
                assert(event_messages(c.events.subrange(0, i + 1)) =~= event_messages(
                    c.events.subrange(0, i as int),
                ).push(m@));
            }
            i = i + 1;
            assert(views(out@) =~= before_events + event_messages(c.events.subrange(0, i as int)));
        }
        assert(c.events.subrange(0, c.events.len() as int) =~= c.events);
        let ghost before_history = views(out@);
        let mut j: usize = 0;
        while j < self.history.len()
            invariant
                self@ == c,
                j <= c.history.len(),
                views(out@) == before_history + history_messages(c.history.subrange(0, j as int)),
            decreases self.history@.len() - j,
        {
            let m = OutboundMessage {
                kind: PacketKind::SessionHistory,
                payload: copy_bytes(&self.history[j].1),
                optional: Some(OptionalMessage::Number(self.history[j].0)),
            };
            let ghost prev = out@;
            assert(c.history[j as int] == (self.history@[j as int].0, self.history@[j as int].1@));
            out.push(m);
            proof {
                assert(views(out@) =~= views(prev).push(m@));
                assert(history_messages(c.history.subrange(0, j + 1)) =~= history_messages(
                    c.history.subrange(0, j as int),
                ).push(m@));
            }
            j = j + 1;
            assert(views(out@) =~= before_history + history_messages(
                c.history.subrange(0, j as int),
            ));
        }
        assert(c.history.subrange(0, c.history.len() as int) =~= c.history);
        push_slot(&mut out, PacketKind::FinalClassification, &self.final_classification);
        assert(views(out@) =~= snapshot_messages(c));
        out
    }

    /// The framed snapshot; `None` when nothing has been cached. The cache is not changed.
    pub fn snapshot(&self) -> (r: Option<Vec<u8>>)
        requires
            self.wf(),
        ensures
            r is None <==> self@.is_empty(),
            r matches Some(b) ==> b@ == frames(snapshot_messages(self@)),
    {
        if self.motion.is_none() && self.session.is_none() && self.participants.is_none()
            && self.final_classification.is_none() && self.events.len() == 0
            && self.history.len() == 0 {
            return None;
        }
        let msgs = self.snapshot_messages();
        proof {
            lemma_snapshot_frameable(self@);
        }
        Some(encode_batch(&msgs))
    }
}

fn push_slot(out: &mut Vec<OutboundMessage>, kind: PacketKind, slot: &Option<Vec<u8>>)
    ensures
        views(final(out)@) == views(old(out)@) + slot_message(kind, slot_view(*slot)),
{
    match slot {
        Some(p) => {
            out.push(OutboundMessage { kind, payload: copy_bytes(p), optional: None });
            assert(views(out@) =~= views(old(out)@) + slot_message(kind, slot_view(*slot)));
        },
        None => {
            assert(views(out@) =~= views(old(out)@) + slot_message(kind, slot_view(*slot)));
        },
    }
}

proof fn lemma_snapshot_frameable(c: CacheState)
    requires
        c.wf(),
    ensures
        all_frameable(snapshot_messages(c)),
{
    let ms = snapshot_messages(c);
    assert forall|i: int| 0 <= i < ms.len() implies frameable(#[trigger] ms[i]) by {
        let em = event_messages(c.events);
        let hm = history_messages(c.history);
        assert forall|j: int| 0 <= j < em.len() implies frameable(#[trigger] em[j]) by {
            assert(em[j].1 == c.events[j].1);
        }
        assert forall|j: int| 0 <= j < hm.len() implies frameable(#[trigger] hm[j]) by {
            assert(hm[j].1 == c.history[j].1);
        }
    }
}

proof fn lemma_save_all_append(c: CacheState, a: Seq<MessageView>, b: Seq<MessageView>)
    ensures
        save_all(c, a + b) == save_all(save_all(c, a), b),
    decreases a.len(),
{
    if a.len() == 0 {
        assert(a + b =~= b);
    } else {
        assert((a + b).drop_first() =~= a.drop_first() + b);
        lemma_save_all_append(save_spec(c, a[0]), a.drop_first(), b);
    }
}

proof fn lemma_save_events(c: CacheState, es: Seq<([u8; 4], Seq<u8>)>)
    requires
        keys_unique(c.events + es),
    ensures
        save_all(c, event_messages(es)) == (CacheState { events: c.events + es, ..c }),
    decreases es.len(),
{
    if es.len() == 0 {
        assert(c.events + es =~= c.events);
    } else {
        let all = c.events + es;
        let k = es[0].0;
        assert(!has_key(c.events, k)) by {
            if has_key(c.events, k) {
                let i = choose|i: int| 0 <= i < c.events.len() && c.events[i].0 == k;
                assert(all[i].0 == all[c.events.len() as int].0);
            }
        }
        let c1 = save_spec(c, event_messages(es)[0]);
        assert(c1 == (CacheState { events: c.events.push(es[0]), ..c }));
        assert(c.events.push(es[0]) + es.drop_first() =~= all);
        assert(event_messages(es).drop_first() =~= event_messages(es.drop_first()));
        lemma_save_events(c1, es.drop_first());
    }
}

proof fn lemma_save_history(c: CacheState, hs: Seq<(u8, Seq<u8>)>)
    requires
        keys_unique(c.history + hs),
    ensures
        save_all(c, history_messages(hs)) == (CacheState { history: c.history + hs, ..c }),
    decreases hs.len(),
{
    if hs.len() == 0 {
        assert(c.history + hs =~= c.history);
    } else {
        let all = c.history + hs;
        let k = hs[0].0;
        assert(!has_key(c.history, k)) by {
            if has_key(c.history, k) {
                let i = choose|i: int| 0 <= i < c.history.len() && c.history[i].0 == k;
                assert(all[i].0 == all[c.history.len() as int].0);
            }
        }
        let c1 = save_spec(c, history_messages(hs)[0]);
        assert(c1 == (CacheState { history: c.history.push(hs[0]), ..c }));
        assert(c.history.push(hs[0]) + hs.drop_first() =~= all);
        assert(history_messages(hs).drop_first() =~= history_messages(hs.drop_first()));
        lemma_save_history(c1, hs.drop_first());
    }
}

proof fn lemma_save_slot(c: CacheState, k: PacketKind, o: Option<Seq<u8>>)
    ensures
        save_all(c, slot_message(k, o)) == (match o {
            Some(p) => save_spec(c, (k, p, None::<OptionalMessage>)),
            None => c,
        }),
{
    match o {
        Some(p) => {
            let x = (k, p, None::<OptionalMessage>);
            assert(slot_message(k, o).drop_first() =~= Seq::<MessageView>::empty());
            assert(save_all(save_spec(c, x), Seq::<MessageView>::empty()) == save_spec(c, x));
        },
        None => {
            assert(slot_message(k, o) =~= Seq::<MessageView>::empty());
        },
    }
}

/// Snapshot sufficiency: the snapshot of any cache decodes back to messages
/// which, saved in order into an empty cache under the last-write-wins rule,
/// give exactly that cache.
pub proof fn lemma_snapshot_restores(c: CacheState)
    requires
        c.wf(),
    ensures
        parse_frames(frames(snapshot_messages(c))) == Some(snapshot_messages(c)),
        save_all(empty_cache(), snapshot_messages(c)) == c,
{
    lemma_snapshot_frameable(c);
    lemma_parse_frames(snapshot_messages(c));
    let s1 = slot_message(PacketKind::Session, c.session);
    let s2 = slot_message(PacketKind::Participants, c.participants);
    let s3 = slot_message(PacketKind::Motion, c.motion);
    let s4 = event_messages(c.events);
    let s5 = history_messages(c.history);
    let s6 = slot_message(PacketKind::FinalClassification, c.final_classification);
    let e = empty_cache();
    lemma_save_all_append(e, s1 + s2 + s3 + s4 + s5, s6);
    lemma_save_all_append(e, s1 + s2 + s3 + s4, s5);
    lemma_save_all_append(e, s1 + s2 + s3, s4);
    lemma_save_all_append(e, s1 + s2, s3);
    lemma_save_all_append(e, s1, s2);
    lemma_save_slot(e, PacketKind::Session, c.session);
    let e1 = save_all(e, s1);
    lemma_save_slot(e1, PacketKind::Participants, c.participants);
    let e2 = save_all(e1, s2);
    lemma_save_slot(e2, PacketKind::Motion, c.motion);
    let e3 = save_all(e2, s3);
    assert(e3.events + c.events =~= c.events);
    lemma_save_events(e3, c.events);
    let e4 = save_all(e3, s4);
    assert(e4.history + c.history =~= c.history);
    lemma_save_history(e4, c.history);
    let e5 = save_all(e4, s5);
    lemma_save_slot(e5, PacketKind::FinalClassification, c.final_classification);
    assert(save_all(e5, s6) =~= c);
}

} // verus!
