use vstd::prelude::*;

use crate::codec::{
    decode_spec, header_of, is_race_spec, kind_of_id, parse_header, F1Data, PacketKind,
    SectorsLaps, SessionType, HEADER_SIZE, SUPPORTED_PACKET_FORMAT,
};
use crate::error::F1ServiceError;
use crate::message::{copy_range, MessageView, OptionalMessage, OutboundMessage};
use crate::support::{lap_mark, lap_marks, new_lap_map, set_lap_mark, LapMap, LapMark};

verus! {

/// Milliseconds between two emitted `Motion` packets.
pub const MOTION_INTERVAL_MS: u64 = 700;
/// Milliseconds between two emitted `Session` (or `Participants`) packets.
pub const SESSION_INTERVAL_MS: u64 = 10000;
/// Milliseconds between two emitted lap histories of one car.
pub const HISTORY_INTERVAL_MS: u64 = 1000;
/// Milliseconds without a datagram after which a service stops itself.
pub const SOCKET_TIMEOUT_MS: u64 = 900000;
/// Size of the receive buffer.
pub const BUFFER_SIZE: usize = 1460;
/// Largest datagram the socket can hand over.
pub const MAX_DATAGRAM: usize = 65535;

/// What the receive loop remembers between datagrams.
pub ghost struct RateState {
    pub last_motion: Option<u64>,
    pub last_session: Option<u64>,
    pub last_participants: Option<u64>,
    pub session_type: Option<SessionType>,
    pub car_laps: Map<u8, LapMark>,
}

/// What the loop does with one datagram.
pub ghost enum Decision {
    Skip,
    Emit(MessageView),
    FinishRace(MessageView),
    /// The datagram speaks another protocol year: the service must stop.
    Stop,
}

/// At least `interval` milliseconds separate `now` from the last emission.
pub open spec fn interval_passed(last: Option<u64>, now: u64, interval: u64) -> bool {
    match last {
        None => true,
        Some(t) => now as int >= t as int + interval as int,
    }
}

pub open spec fn mark_of(now: u64, s: SectorsLaps) -> LapMark {
    (now, s.sector1, s.sector2, s.sector3)
}

/// A car's lap history is emitted when none was before, or when a second has
/// passed since the last one and the lap's sector triple changed.
pub open spec fn history_due(laps: Map<u8, LapMark>, car: u8, s: SectorsLaps, now: u64) -> bool {
    !laps.contains_key(car) || {
        let m = laps[car];
        &&& now as int >= m.0 as int + HISTORY_INTERVAL_MS as int
        &&& (m.1, m.2, m.3) != (s.sector1, s.sector2, s.sector3)
    }
}

pub open spec fn in_race(s: RateState) -> bool {
    s.session_type matches Some(t) && is_race_spec(t)
}

/// The decision on a well-formed packet `d` of datagram `b`.
pub open spec fn decide_packet(s: RateState, d: F1Data, b: Seq<u8>, now: u64) -> (
    RateState,
    Decision,
) {
    match d {
        F1Data::Motion => if interval_passed(s.last_motion, now, MOTION_INTERVAL_MS) {
            (
                RateState { last_motion: Some(now), ..s },
                Decision::Emit((PacketKind::Motion, b, None)),
            )
        } else {
            (s, Decision::Skip)
        },
        F1Data::Session { session_type } => {
            let s1 = RateState { session_type: Some(session_type), ..s };
            if interval_passed(s.last_session, now, SESSION_INTERVAL_MS) {
                (
                    RateState { last_session: Some(now), ..s1 },
                    Decision::Emit((PacketKind::Session, b, None)),
                )
            } else {
                (s1, Decision::Skip)
            }
        },
        F1Data::Participants => if interval_passed(s.last_participants, now, SESSION_INTERVAL_MS) {
            (
                RateState { last_participants: Some(now), ..s },
                Decision::Emit((PacketKind::Participants, b, None)),
            )
        } else {
            (s, Decision::Skip)
        },
        F1Data::Event { code } => if in_race(s) {
            (s, Decision::Emit((PacketKind::Event, b, Some(OptionalMessage::Code(code)))))
        } else {
            (s, Decision::Skip)
        },
        F1Data::SessionHistory { car_idx, sectors } => if history_due(
            s.car_laps,
            car_idx,
            sectors,
            now,
        ) {
            (
                RateState { car_laps: s.car_laps.insert(car_idx, mark_of(now, sectors)), ..s },
                Decision::Emit(
                    (PacketKind::SessionHistory, b, Some(OptionalMessage::Number(car_idx))),
                ),
            )
        } else {
            (s, Decision::Skip)
        },
        F1Data::FinalClassification => if in_race(s) {
            (s, Decision::FinishRace((PacketKind::FinalClassification, b, None)))
        } else {
            (s, Decision::Emit((PacketKind::FinalClassification, b, None)))
        },
        _ => (s, Decision::Skip),
    }
}

/// The decision on datagram `b` received at `now` (milliseconds).
pub open spec fn decide(s: RateState, b: Seq<u8>, now: u64) -> (RateState, Decision) {
    if b.len() < HEADER_SIZE {
        (s, Decision::Skip)
    } else {
        let h = header_of(b);
        if h.packet_format != SUPPORTED_PACKET_FORMAT {
            (s, Decision::Stop)
        } else if h.session_uid == 0 {
            (s, Decision::Skip)
        } else {
            match kind_of_id(h.packet_id) {
                None => (s, Decision::Skip),
                Some(k) => match decode_spec(k, b) {
                    None => (s, Decision::Skip),
                    Some(d) => decide_packet(s, d, b, now),
                },
            }
        }
    }
}

/// Feeds `trace` (datagram, arrival time) to the filter, collecting each decision with its time.
pub open spec fn run(s: RateState, trace: Seq<(Seq<u8>, u64)>) -> (RateState, Seq<(Decision, u64)>)
    decreases trace.len(),
{
    if trace.len() == 0 {
        (s, Seq::empty())
    } else {
        let (s1, out) = run(s, trace.drop_last());
        let (s2, d) = decide(s1, trace.last().0, trace.last().1);
        (s2, out.push((d, trace.last().1)))
    }
}

/// The rate state of a service that has seen nothing yet.
pub open spec fn fresh_state() -> RateState {
    RateState {
        last_motion: None,
        last_session: None,
        last_participants: None,
        session_type: None,
        car_laps: Map::empty(),
    }
}

/// Arrival times never go back.
pub open spec fn monotone(trace: Seq<(Seq<u8>, u64)>) -> bool {
    forall|i: int, j: int| 0 <= i <= j < trace.len() ==> trace[i].1 <= trace[j].1
}

/// The decision sends a message of kind `k` downstream.
pub open spec fn emits(d: Decision, k: PacketKind) -> bool {
    match d {
        Decision::Emit(m) => m.0 == k,
        Decision::FinishRace(m) => m.0 == k,
        _ => false,
    }
}

/// The decision sends a lap history of car `car` downstream.
pub open spec fn emits_car(d: Decision, car: u8) -> bool {
    d matches Decision::Emit(m) && m.0 == PacketKind::SessionHistory && m.2 == Some(
        OptionalMessage::Number(car),
    )
}

/// The kinds with a single rate slot, and the slot's last emission.
pub open spec fn slotted(k: PacketKind) -> bool {
    k == PacketKind::Motion || k == PacketKind::Session || k == PacketKind::Participants
}

pub open spec fn slot_of(s: RateState, k: PacketKind) -> Option<u64> {
    if k == PacketKind::Motion {
        s.last_motion
    } else if k == PacketKind::Session {
        s.last_session
    } else {
        s.last_participants
    }
}

pub open spec fn interval_of(k: PacketKind) -> u64 {
    if k == PacketKind::Motion {
        MOTION_INTERVAL_MS
    } else {
        SESSION_INTERVAL_MS
    }
}

proof fn lemma_slot_step(s: RateState, b: Seq<u8>, now: u64, k: PacketKind)
    requires
        slotted(k),
    ensures
        ({
            let (s2, d) = decide(s, b, now);
            &&& emits(d, k) ==> interval_passed(slot_of(s, k), now, interval_of(k)) && slot_of(
                s2,
                k,
            ) == Some(now)
            &&& !emits(d, k) ==> slot_of(s2, k) == slot_of(s, k)
        }),
{
}

proof fn lemma_car_step(s: RateState, b: Seq<u8>, now: u64, car: u8)
    ensures
        ({
            let (s2, d) = decide(s, b, now);
            &&& emits_car(d, car) ==> (!s.car_laps.contains_key(car) || now as int
                >= s.car_laps[car].0 + HISTORY_INTERVAL_MS) && s2.car_laps.contains_key(car)
                && s2.car_laps[car].0 == now
            &&& !emits_car(d, car) ==> s2.car_laps.contains_key(car) == s.car_laps.contains_key(
                car,
            ) && (s.car_laps.contains_key(car) ==> s2.car_laps[car] == s.car_laps[car])
        }),
{
}

proof fn lemma_run_len(s: RateState, trace: Seq<(Seq<u8>, u64)>)
    ensures
        run(s, trace).1.len() == trace.len(),
        forall|i: int| 0 <= i < trace.len() ==> #[trigger] run(s, trace).1[i].1 == trace[i].1,
    decreases trace.len(),
{
    if trace.len() > 0 {
        lemma_run_len(s, trace.drop_last());
    }
}

proof fn lemma_slot_run(trace: Seq<(Seq<u8>, u64)>, k: PacketKind)
    requires
        slotted(k),
        monotone(trace),
    ensures
        ({
            let (s, out) = run(fresh_state(), trace);
            &&& forall|i: int|
                0 <= i < out.len() && emits(#[trigger] out[i].0, k) ==> (slot_of(s, k) matches Some(
                    t,
                ) && out[i].1 <= t)
            &&& slot_of(s, k) matches Some(t) ==> trace.len() > 0 && t <= trace.last().1
            &&& forall|i: int, j: int|
                0 <= i < j < out.len() && emits(#[trigger] out[i].0, k) && emits(
                    #[trigger] out[j].0,
                    k,
                ) ==> out[j].1 >= out[i].1 + interval_of(k)
        }),
    decreases trace.len(),
{
    lemma_run_len(fresh_state(), trace);
    if trace.len() > 0 {
        let prev = trace.drop_last();
        assert(monotone(prev));
        lemma_slot_run(prev, k);
        lemma_run_len(fresh_state(), prev);
        let (s1, out1) = run(fresh_state(), prev);
        let (b, now) = trace.last();
        lemma_slot_step(s1, b, now, k);
        let (s2, out) = run(fresh_state(), trace);
        assert(out == out1.push((decide(s1, b, now).1, now)));
        if prev.len() > 0 {
            assert(prev.last() == trace[prev.len() - 1]);
        }
        assert forall|i: int| 0 <= i < out.len() && emits(#[trigger] out[i].0, k) implies (slot_of(
            s2,
            k,
        ) matches Some(t) && out[i].1 <= t) by {
            if i < out1.len() {
                assert(out[i] == out1[i]);
                assert(out1[i].1 == prev[i].1);
                assert(prev[i] == trace[i]);
            }
        }
        assert forall|i: int, j: int|
            0 <= i < j < out.len() && emits(#[trigger] out[i].0, k) && emits(
                #[trigger] out[j].0,
                k,
            ) implies out[j].1 >= out[i].1 + interval_of(k) by {
            assert(out[i] == out1[i]);
            if j < out1.len() {
                assert(out[j] == out1[j]);
            }
        }
    }
}

/// Rate limit of the singleton kinds: over any trace with a clock that does not
/// go back, two emitted `Motion` messages are at least 700 ms apart, and two
/// emitted `Session` (or `Participants`) messages at least 10 s apart.
pub proof fn lemma_rate_limit(trace: Seq<(Seq<u8>, u64)>, k: PacketKind, i: int, j: int)
    requires
        monotone(trace),
        slotted(k),
        0 <= i < j < trace.len(),
        emits(run(fresh_state(), trace).1[i].0, k),
        emits(run(fresh_state(), trace).1[j].0, k),
    ensures
        trace[j].1 >= trace[i].1 + interval_of(k),
{
    lemma_slot_run(trace, k);
    lemma_run_len(fresh_state(), trace);
    let out = run(fresh_state(), trace).1;
    assert(emits(out[i].0, k) && emits(out[j].0, k));
}

proof fn lemma_car_run(trace: Seq<(Seq<u8>, u64)>, car: u8)
    requires
        monotone(trace),
    ensures
        ({
            let (s, out) = run(fresh_state(), trace);
            &&& forall|i: int|
                0 <= i < out.len() && emits_car(#[trigger] out[i].0, car) ==> s.car_laps.contains_key(car)
                    && out[i].1 <= s.car_laps[car].0
            &&& s.car_laps.contains_key(car) ==> trace.len() > 0 && s.car_laps[car].0 <= trace.last().1
            &&& forall|i: int, j: int|
                0 <= i < j < out.len() && emits_car(#[trigger] out[i].0, car) && emits_car(
                    #[trigger] out[j].0,
                    car,
                ) ==> out[j].1 >= out[i].1 + HISTORY_INTERVAL_MS
        }),
    decreases trace.len(),
{
    lemma_run_len(fresh_state(), trace);
    if trace.len() > 0 {
        let prev = trace.drop_last();
        assert(monotone(prev));
        lemma_car_run(prev, car);
        lemma_run_len(fresh_state(), prev);
        let (s1, out1) = run(fresh_state(), prev);
        let (b, now) = trace.last();
        lemma_car_step(s1, b, now, car);
        let (s2, out) = run(fresh_state(), trace);
        assert(out == out1.push((decide(s1, b, now).1, now)));
        if prev.len() > 0 {
            assert(prev.last() == trace[prev.len() - 1]);
        }
        assert forall|i: int| 0 <= i < out.len() && emits_car(#[trigger] out[i].0, car) implies s2.car_laps.contains_key(car)
            && out[i].1 <= s2.car_laps[car].0 by {
            if i < out1.len() {
                assert(out[i] == out1[i]);
                assert(out1[i].1 == prev[i].1);
                assert(prev[i] == trace[i]);
            }
        }
        assert forall|i: int, j: int|
            0 <= i < j < out.len() && emits_car(#[trigger] out[i].0, car) && emits_car(
                #[trigger] out[j].0,
                car,
            ) implies out[j].1 >= out[i].1 + HISTORY_INTERVAL_MS by {
            assert(out[i] == out1[i]);
            if j < out1.len() {
                assert(out[j] == out1[j]);
            }
        }
    }
}

/// Rate limit of lap histories: over any trace with a clock that does not go
/// back, two lap histories emitted for one car are at least a second apart.
pub proof fn lemma_history_rate_limit(trace: Seq<(Seq<u8>, u64)>, car: u8, i: int, j: int)
    requires
        monotone(trace),
        0 <= i < j < trace.len(),
        emits_car(run(fresh_state(), trace).1[i].0, car),
        emits_car(run(fresh_state(), trace).1[j].0, car),
    ensures
        trace[j].1 >= trace[i].1 + HISTORY_INTERVAL_MS,
{
    lemma_car_run(trace, car);
    lemma_run_len(fresh_state(), trace);
    let out = run(fresh_state(), trace).1;
    assert(emits_car(out[i].0, car) && emits_car(out[j].0, car));
}

/// The car index and sector triple of a lap-history datagram that reaches the filter.
pub open spec fn history_in(b: Seq<u8>) -> Option<(u8, SectorsLaps)> {
    if b.len() >= HEADER_SIZE && header_of(b).packet_format == SUPPORTED_PACKET_FORMAT
        && header_of(b).session_uid != 0 && kind_of_id(header_of(b).packet_id) == Some(
        PacketKind::SessionHistory,
    ) {
        match decode_spec(PacketKind::SessionHistory, b) {
            Some(F1Data::SessionHistory { car_idx, sectors }) => Some((car_idx, sectors)),
            _ => None,
        }
    } else {
        None
    }
}

/// Lap histories only on change: a car's lap history is emitted only when its
/// sector triple differs from the one last emitted for that car, and that
/// triple is then remembered.
pub proof fn lemma_history_changed(s: RateState, b: Seq<u8>, now: u64, car: u8)
    ensures
        ({
            let (s2, d) = decide(s, b, now);
            emits_car(d, car) ==> (history_in(b) matches Some((c, sec)) && c == car && (
            !s.car_laps.contains_key(car) || {
                let m = s.car_laps[car];
                (m.1, m.2, m.3) != (sec.sector1, sec.sector2, sec.sector3)
            }) && s2.car_laps[car] == mark_of(now, sec))
        }),
{
}

proof fn lemma_run_prefix(s: RateState, trace: Seq<(Seq<u8>, u64)>, n: int)
    requires
        0 <= n <= trace.len(),
    ensures
        run(s, trace.subrange(0, n)).1 == run(s, trace).1.subrange(0, n),
    decreases trace.len(),
{
    lemma_run_len(s, trace);
    if n == trace.len() {
        assert(trace.subrange(0, n) =~= trace);
        assert(run(s, trace).1.subrange(0, n) =~= run(s, trace).1);
    } else {
        let prev = trace.drop_last();
        lemma_run_prefix(s, prev, n);
        lemma_run_len(s, prev);
        assert(prev.subrange(0, n) =~= trace.subrange(0, n));
        assert(run(s, trace).1.subrange(0, n) =~= run(s, prev).1.subrange(0, n));
    }
}

/// Emission `i` is the last lap history emitted for `car`.
pub open spec fn last_for_car(out: Seq<(Decision, u64)>, car: u8, i: int) -> bool {
    &&& 0 <= i < out.len()
    &&& emits_car(out[i].0, car)
    &&& forall|m: int| i < m < out.len() ==> !emits_car(#[trigger] out[m].0, car)
}

proof fn lemma_car_mark(trace: Seq<(Seq<u8>, u64)>, car: u8, i: int)
    requires
        last_for_car(run(fresh_state(), trace).1, car, i),
    ensures
        history_in(trace[i].0) matches Some((c, sec)) && c == car && {
            let st = run(fresh_state(), trace).0;
            st.car_laps.contains_key(car) && st.car_laps[car] == mark_of(trace[i].1, sec)
        },
    decreases trace.len(),
{
    lemma_run_len(fresh_state(), trace);
    let prev = trace.drop_last();
    lemma_run_len(fresh_state(), prev);
    let (s1, out1) = run(fresh_state(), prev);
    let (b, now) = trace.last();
    let out = run(fresh_state(), trace).1;
    assert(out == out1.push((decide(s1, b, now).1, now)));
    lemma_car_step(s1, b, now, car);
    lemma_history_changed(s1, b, now, car);
    if i == trace.len() - 1 {
        assert(trace[i] == trace.last());
    } else {
        assert(!emits_car(out[trace.len() - 1].0, car));
        assert(out[i] == out1[i]);
        assert forall|m: int| i < m < out1.len() implies !emits_car(#[trigger] out1[m].0, car) by {
            assert(out[m] == out1[m]);
        }
        lemma_car_mark(prev, car, i);
        assert(prev[i] == trace[i]);
    }
}

/// Lap histories only on change, over a whole trace: two lap histories emitted
/// one after the other for a car (none for it in between) carry different
/// sector triples.
pub proof fn lemma_history_triples_change(trace: Seq<(Seq<u8>, u64)>, car: u8, i: int, j: int)
    requires
        0 <= i < j < trace.len(),
        emits_car(run(fresh_state(), trace).1[i].0, car),
        emits_car(run(fresh_state(), trace).1[j].0, car),
        forall|m: int| i < m < j ==> !emits_car(#[trigger] run(fresh_state(), trace).1[m].0, car),
    ensures
        history_in(trace[i].0) matches Some((ci, si)) && history_in(trace[j].0) matches Some((cj, sj))
            && ci == car && cj == car && (si.sector1, si.sector2, si.sector3) != (sj.sector1, sj.sector2, sj.sector3),
{
    let out = run(fresh_state(), trace).1;
    lemma_run_len(fresh_state(), trace);
    let p = trace.subrange(0, j);
    let q = trace.subrange(0, j + 1);
    lemma_run_prefix(fresh_state(), trace, j);
    lemma_run_prefix(fresh_state(), trace, j + 1);
    lemma_run_len(fresh_state(), p);
    let outp = run(fresh_state(), p).1;
    assert(outp == out.subrange(0, j));
    assert(outp[i] == out[i]);
    assert forall|m: int| i < m < outp.len() implies !emits_car(#[trigger] outp[m].0, car) by {
        assert(outp[m] == out[m]);
    }
    assert(last_for_car(outp, car, i));
    lemma_car_mark(p, car, i);
    assert(p[i] == trace[i]);
    let sp = run(fresh_state(), p).0;
    assert(q.drop_last() =~= p);
    assert(q.last() == trace[j]);
    assert(run(fresh_state(), q).1 == outp.push((decide(sp, trace[j].0, trace[j].1).1, trace[j].1)));
    let dj = decide(sp, trace[j].0, trace[j].1).1;
    assert(outp.len() == j);
    assert(run(fresh_state(), q).1[j] == (dj, trace[j].1));
    assert(run(fresh_state(), q).1[j] == out[j]);
    assert(emits_car(dj, car));
    lemma_history_changed(sp, trace[j].0, trace[j].1, car);
    let (ci, si) = history_in(trace[i].0).unwrap();
    let (cj, sj) = history_in(trace[j].0).unwrap();
    assert(sp.car_laps[car] == mark_of(trace[i].1, si));
}

/// The session type of a `Session` datagram that reaches the filter.
pub open spec fn session_in(b: Seq<u8>) -> Option<SessionType> {
    if b.len() >= HEADER_SIZE && header_of(b).packet_format == SUPPORTED_PACKET_FORMAT
        && header_of(b).session_uid != 0 && kind_of_id(header_of(b).packet_id) == Some(
        PacketKind::Session,
    ) {
        match decode_spec(PacketKind::Session, b) {
            Some(F1Data::Session { session_type }) => Some(session_type),
            _ => None,
        }
    } else {
        None
    }
}

/// The type of the most recent `Session` in `trace`, or `start` when there is none.
pub open spec fn latest_session(start: Option<SessionType>, trace: Seq<(Seq<u8>, u64)>) -> Option<
    SessionType,
>
    decreases trace.len(),
{
    if trace.len() == 0 {
        start
    } else {
        match session_in(trace.last().0) {
            Some(t) => Some(t),
            None => latest_session(start, trace.drop_last()),
        }
    }
}

/// An `Event` datagram that reaches the filter.
pub open spec fn is_event(b: Seq<u8>) -> bool {
    &&& b.len() >= HEADER_SIZE
    &&& header_of(b).packet_format == SUPPORTED_PACKET_FORMAT
    &&& header_of(b).session_uid != 0
    &&& kind_of_id(header_of(b).packet_id) == Some(PacketKind::Event)
    &&& decode_spec(PacketKind::Event, b) is Some
}

proof fn lemma_session_tracked(s: RateState, trace: Seq<(Seq<u8>, u64)>)
    ensures
        run(s, trace).0.session_type == latest_session(s.session_type, trace),
    decreases trace.len(),
{
    if trace.len() > 0 {
        lemma_session_tracked(s, trace.drop_last());
    }
}

/// Race gating: after any trace, an `Event` datagram is emitted exactly when
/// the most recent `Session` observed was a race.
pub proof fn lemma_race_gating(s: RateState, trace: Seq<(Seq<u8>, u64)>, e: Seq<u8>, now: u64)
    requires
        is_event(e),
    ensures
        emits(decide(run(s, trace).0, e, now).1, PacketKind::Event) <==> (latest_session(
            s.session_type,
            trace,
        ) matches Some(t) && is_race_spec(t)),
{
    lemma_session_tracked(s, trace);
}

/// Lifecycle of a service.
#[derive(Clone, Copy, Debug, PartialEq, Eq, Structural)]
pub enum ServicePhase {
    Starting,
    Running,
    Stopping,
    TimingOut,
    Failed(F1ServiceError),
    Stopped,
}

/// What the receive loop must do next.
#[derive(Debug)]
pub enum Action {
    /// Drop the datagram.
    Skip,
    /// Push the message to the batcher.
    Emit(OutboundMessage),
    /// Push the final classification, record the results, then stop.
    FinishRace(OutboundMessage),
    /// Tear the service down, reporting the error if there is one.
    Teardown(Option<F1ServiceError>),
}

impl Action {
    pub open spec fn view(&self) -> Decision {
        match self {
            Action::Skip => Decision::Skip,
            Action::Emit(m) => Decision::Emit(m@),
            Action::FinishRace(m) => Decision::FinishRace(m@),
            Action::Teardown(_) => Decision::Stop,
        }
    }
}

/// The decision state of one service's receive loop.
pub struct F1ServiceCore {
    pub phase: ServicePhase,
    pub last_motion: Option<u64>,
    pub last_session: Option<u64>,
    pub last_participants: Option<u64>,
    pub session_type: Option<SessionType>,
    pub car_laps: LapMap,
}

fn passed(last: Option<u64>, now: u64, interval: u64) -> (r: bool)
    ensures
        r == interval_passed(last, now, interval),
{
    match last {
        None => true,
        Some(t) => now >= t && now - t >= interval,
    }
}

impl F1ServiceCore {
    pub open spec fn view(&self) -> RateState {
        RateState {
            last_motion: self.last_motion,
            last_session: self.last_session,
            last_participants: self.last_participants,
            session_type: self.session_type,
            car_laps: lap_marks(self.car_laps),
        }
    }

    /// A service that has not yet bound its socket.
    pub fn new() -> (r: F1ServiceCore)
        ensures
            r.phase == ServicePhase::Starting,
            r@.last_motion is None,
            r@.last_session is None,
            r@.last_participants is None,
            r@.session_type is None,
            r@.car_laps.dom() == Set::<u8>::empty(),
    {
        F1ServiceCore {
            phase: ServicePhase::Starting,
            last_motion: None,
            last_session: None,
            last_participants: None,
            session_type: None,
            car_laps: new_lap_map(),
        }
    }

    /// The socket is bound: the service starts receiving.
    pub fn bound(&mut self)
        requires
            old(self).phase == ServicePhase::Starting,
        ensures
            final(self).phase == ServicePhase::Running,
            final(self)@ == old(self)@,
    {
        self.phase = ServicePhase::Running;
    }

    /// Decides what to do with datagram `b`, received at `now` milliseconds.
    pub fn on_datagram(&mut self, b: &[u8], now: u64) -> (r: Action)
        requires
            old(self).phase == ServicePhase::Running,
            b@.len() <= MAX_DATAGRAM,
        ensures
            (final(self)@, r@) == decide(old(self)@, b@, now),
            r@ == Decision::Stop ==> r == Action::Teardown(Some(F1ServiceError::UnsupportedFormat))
                && final(self).phase == ServicePhase::Failed(F1ServiceError::UnsupportedFormat),
            r@ is FinishRace ==> final(self).phase == ServicePhase::Stopping,
            !(r@ is FinishRace) && r@ != Decision::Stop ==> final(self).phase == ServicePhase::Running,
    {
        let header = match parse_header(b) {
            None => return Action::Skip,
            Some(h) => h,
        };
        if header.packet_format != SUPPORTED_PACKET_FORMAT {
            self.phase = ServicePhase::Failed(F1ServiceError::UnsupportedFormat);
            return Action::Teardown(Some(F1ServiceError::UnsupportedFormat));
        }
        if header.session_uid == 0 {
            return Action::Skip;
        }
        let kind = match PacketKind::from_id(header.packet_id) {
            None => return Action::Skip,
            Some(k) => k,
        };
        let data = match F1Data::try_deserialize(kind, b) {
            None => return Action::Skip,
            Some(d) => d,
        };
        let r = self.decide_packet(data, b, now);
        proof {
            assert(decode_spec(kind, b@) == Some(data));
        }
        r
    }

    fn race(&self) -> (r: bool)
        ensures
            r == in_race(self@),
    {
        match self.session_type {
            Some(t) => t.is_race(),
            None => false,
        }
    }

    fn decide_packet(&mut self, d: F1Data, b: &[u8], now: u64) -> (r: Action)
        requires
            old(self).phase == ServicePhase::Running,
        ensures
            (final(self)@, r@) == decide_packet(old(self)@, d, b@, now),
            !(r is Teardown),
            r@ is FinishRace ==> final(self).phase == ServicePhase::Stopping,
            !(r@ is FinishRace) ==> final(self).phase == ServicePhase::Running,
    {
        let ghost s = self@;
        match d {
            F1Data::Motion => {
                if passed(self.last_motion, now, MOTION_INTERVAL_MS) {
                    self.last_motion = Some(now);
                    let msg = message(PacketKind::Motion, b, None);
                    assert(self@ == (RateState { last_motion: Some(now), ..s }));
                    Action::Emit(msg)
                } else {
                    Action::Skip
                }
            },
            F1Data::Session { session_type } => {
                self.session_type = Some(session_type);
                if passed(self.last_session, now, SESSION_INTERVAL_MS) {
                    self.last_session = Some(now);
                    Action::Emit(message(PacketKind::Session, b, None))
                } else {
                    Action::Skip
                }
            },
            F1Data::Participants => {
                if passed(self.last_participants, now, SESSION_INTERVAL_MS) {
                    self.last_participants = Some(now);
                    Action::Emit(message(PacketKind::Participants, b, None))
                } else {
                    Action::Skip
                }
            },
            F1Data::Event { code } => {
                if self.race() {
                    Action::Emit(message(PacketKind::Event, b, Some(OptionalMessage::Code(code))))
                } else {
                    Action::Skip
                }
            },
            F1Data::SessionHistory { car_idx, sectors } => {
                let due = match lap_mark(&self.car_laps, car_idx) {
                    None => true,
                    Some(m) => now >= m.0 && now - m.0 >= HISTORY_INTERVAL_MS && (m.1
                        != sectors.sector1 || m.2 != sectors.sector2 || m.3 != sectors.sector3),
                };
                if due {
                    set_lap_mark(
                        &mut self.car_laps,
                        car_idx,
                        (now, sectors.sector1, sectors.sector2, sectors.sector3),
                    );
                    Action::Emit(
                        message(
                            PacketKind::SessionHistory,
                            b,
                            Some(OptionalMessage::Number(car_idx)),
                        ),
                    )
                } else {
                    Action::Skip
                }
            },
            F1Data::FinalClassification => {
                let msg = message(PacketKind::FinalClassification, b, None);
                if self.race() {
                    self.phase = ServicePhase::Stopping;
                    Action::FinishRace(msg)
                } else {
                    Action::Emit(msg)
                }
            },
            _ => Action::Skip,
        }
    }

    /// No datagram arrived within the socket timeout: the service stops itself.
    pub fn on_timeout(&mut self) -> (r: Action)
        requires
            old(self).phase == ServicePhase::Running,
        ensures
            final(self).phase == ServicePhase::TimingOut,
            final(self)@ == old(self)@,
            r == Action::Teardown(None),
    {
        self.phase = ServicePhase::TimingOut;
        Action::Teardown(None)
    }

    /// The socket failed: the service stops with an error.
    pub fn on_receive_error(&mut self) -> (r: Action)
        requires
            old(self).phase == ServicePhase::Running,
        ensures
            final(self).phase == ServicePhase::Failed(F1ServiceError::ReceivingData),
            final(self)@ == old(self)@,
            r == Action::Teardown(Some(F1ServiceError::ReceivingData)),
    {
        self.phase = ServicePhase::Failed(F1ServiceError::ReceivingData);
        Action::Teardown(Some(F1ServiceError::ReceivingData))
    }

    /// An external stop request; a service that is already stopping or stopped is left as it is.
    pub fn request_stop(&mut self)
        ensures
            final(self)@ == old(self)@,
            old(self).phase == ServicePhase::Starting || old(self).phase == ServicePhase::Running
                ==> final(self).phase == ServicePhase::Stopping,
            !(old(self).phase == ServicePhase::Starting || old(self).phase == ServicePhase::Running)
                ==> final(self).phase == old(self).phase,
    {
        match self.phase {
            ServicePhase::Starting | ServicePhase::Running => {
                self.phase = ServicePhase::Stopping;
            },
            _ => {},
        }
    }

    /// Teardown is done; calling it again changes nothing.
    pub fn finish_teardown(&mut self)
        ensures
            final(self).phase == ServicePhase::Stopped,
            final(self)@ == old(self)@,
    {
        self.phase = ServicePhase::Stopped;
    }
}

fn message(kind: PacketKind, b: &[u8], optional: Option<OptionalMessage>) -> (r: OutboundMessage)
    ensures
        r@ == (kind, b@, optional),
{
    let payload = copy_range(b, 0, b.len());
    assert(b@.subrange(0, b@.len() as int) =~= b@);
    OutboundMessage { kind, payload, optional }
}

} // verus!
