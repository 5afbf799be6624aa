use intelli_telemetry::batching::PacketBatching;
use intelli_telemetry::broadcast::Broadcaster;
use intelli_telemetry::cache::PacketCaching;
use intelli_telemetry::codec::{parse_header, F1Data, PacketKind, SectorsLaps, SessionType};
use intelli_telemetry::error::{F1ServiceError, FirewallError};
use intelli_telemetry::ids::IdsGenerator;
use intelli_telemetry::message::{decode_batch, encode_batch, OptionalMessage, OutboundMessage};
use intelli_telemetry::ports::MachinePorts;
use intelli_telemetry::registry::F1Service;
use intelli_telemetry::service::{Action, F1ServiceCore, ServicePhase};

fn datagram(format: u16, packet_id: u8, session_uid: u64, size: usize) -> Vec<u8> {
    let mut b = vec![0u8; size];
    b[0..2].copy_from_slice(&format.to_le_bytes());
    b[2] = 23;
    b[6] = packet_id;
    b[7..15].copy_from_slice(&session_uid.to_le_bytes());
    b[19..23].copy_from_slice(&77u32.to_le_bytes());
    b[27] = 3;
    b
}

fn session_packet(session_type: u8) -> Vec<u8> {
    let mut b = datagram(2023, 1, 42, 644);
    b[35] = session_type;
    b
}

fn participants_packet() -> Vec<u8> {
    datagram(2023, 4, 42, 1306)
}

fn motion_packet() -> Vec<u8> {
    datagram(2023, 0, 42, 1349)
}

fn event_packet(code: &[u8; 4]) -> Vec<u8> {
    let mut b = datagram(2023, 3, 42, 45);
    b[29..33].copy_from_slice(code);
    b
}

fn sector_bytes(b: &mut [u8], at: usize, total_ms: u32) {
    let minutes = (total_ms / 60000) as u8;
    let ms = (total_ms % 60000) as u16;
    b[at..at + 2].copy_from_slice(&ms.to_le_bytes());
    b[at + 2] = minutes;
}

fn history_packet(car: u8, laps: u8, sectors: (u32, u32, u32)) -> Vec<u8> {
    let mut b = datagram(2023, 11, 42, 1460);
    b[29] = car;
    b[30] = laps;
    let base = 36 + 14 * (laps as usize - 1);
    sector_bytes(&mut b, base + 4, sectors.0);
    sector_bytes(&mut b, base + 7, sectors.1);
    sector_bytes(&mut b, base + 10, sectors.2);
    b
}

fn running_core() -> F1ServiceCore {
    let mut core = F1ServiceCore::new();
    core.bound();
    core
}

fn emitted(a: &Action) -> Option<&OutboundMessage> {
    match a {
        Action::Emit(m) | Action::FinishRace(m) => Some(m),
        _ => None,
    }
}

#[test]
fn header_too_short_is_rejected() {
    let b = datagram(2023, 1, 9, 28);
    assert!(parse_header(&b).is_none());
}

#[test]
fn header_fields_are_read_little_endian() {
    let b = datagram(2023, 11, 0x0102030405060708, 29);
    let h = parse_header(&b).unwrap();
    assert_eq!(h.packet_format, 2023);
    assert_eq!(h.game_year, 23);
    assert_eq!(h.packet_id, 11);
    assert_eq!(h.session_uid, 0x0102030405060708);
    assert_eq!(h.frame_identifier, 77);
    assert_eq!(h.player_car_index, 3);
}

#[test]
fn packet_kind_ids() {
    assert_eq!(PacketKind::from_id(0), Some(PacketKind::Motion));
    assert_eq!(PacketKind::from_id(11), Some(PacketKind::SessionHistory));
    assert_eq!(PacketKind::from_id(2), None);
    assert_eq!(PacketKind::FinalClassification.id(), 8);
}

#[test]
fn session_body_gives_session_type() {
    match F1Data::try_deserialize(PacketKind::Session, &session_packet(10)) {
        Some(F1Data::Session { session_type }) => assert_eq!(session_type, SessionType::R),
        other => panic!("unexpected {:?}", other),
    }
    assert!(F1Data::try_deserialize(PacketKind::Session, &session_packet(14)).is_none());
    assert!(F1Data::try_deserialize(PacketKind::Session, &session_packet(10)[..643]).is_none());
}

#[test]
fn history_body_gives_sector_triple() {
    let b = history_packet(5, 3, (93000, 30000, 31000));
    match F1Data::try_deserialize(PacketKind::SessionHistory, &b) {
        Some(F1Data::SessionHistory { car_idx, sectors }) => {
            assert_eq!(car_idx, 5);
            assert_eq!(sectors, SectorsLaps { sector1: 93000, sector2: 30000, sector3: 31000 });
        }
        other => panic!("unexpected {:?}", other),
    }
    let mut no_laps = b.clone();
    no_laps[30] = 0;
    assert!(F1Data::try_deserialize(PacketKind::SessionHistory, &no_laps).is_none());
}

#[test]
fn batch_round_trip() {
    let msgs = vec![
        OutboundMessage { kind: PacketKind::Session, payload: vec![1, 2, 3], optional: None },
        OutboundMessage {
            kind: PacketKind::Event,
            payload: vec![],
            optional: Some(OptionalMessage::Code(*b"FTLP")),
        },
        OutboundMessage {
            kind: PacketKind::SessionHistory,
            payload: vec![9; 300],
            optional: Some(OptionalMessage::Number(5)),
        },
    ];
    let bytes = encode_batch(&msgs);
    assert_eq!(&bytes[..7], &[1, 0, 3, 0, 0, 0, 1]);
    let back = decode_batch(&bytes).unwrap();
    assert_eq!(back.len(), 3);
    assert_eq!(back[0].payload, vec![1, 2, 3]);
    assert!(matches!(back[1].optional, Some(OptionalMessage::Code(c)) if &c == b"FTLP"));
    assert!(matches!(back[2].optional, Some(OptionalMessage::Number(5))));
    assert_eq!(back[2].payload.len(), 300);
    assert!(decode_batch(&bytes[..bytes.len() - 1]).is_none());
}

#[test]
fn empty_cache_has_no_snapshot() {
    let cache = PacketCaching::new();
    assert!(cache.snapshot().is_none());
}

#[test]
fn cache_keeps_last_write_per_key() {
    let mut cache = PacketCaching::new();
    cache.save(PacketKind::Event, &vec![1], Some(OptionalMessage::Code(*b"SSTA")));
    cache.save(PacketKind::Event, &vec![2], Some(OptionalMessage::Code(*b"FTLP")));
    cache.save(PacketKind::Event, &vec![3], Some(OptionalMessage::Code(*b"SSTA")));
    cache.save(PacketKind::Motion, &vec![4], None);
    cache.save(PacketKind::Motion, &vec![5], None);
    let msgs = decode_batch(&cache.snapshot().unwrap()).unwrap();
    let payloads: Vec<Vec<u8>> = msgs.iter().map(|m| m.payload.clone()).collect();
    assert_eq!(payloads, vec![vec![5], vec![3], vec![2]]);
}

#[test]
fn snapshot_prelude_holds_session_and_participants() {
    let mut core = running_core();
    let mut batching = PacketBatching::new();
    let session = session_packet(10);
    let participants = participants_packet();
    for (b, now) in [(&session, 0u64), (&participants, 5)] {
        if let Action::Emit(m) = core.on_datagram(b, now) {
            batching.push(m);
        }
    }
    let msgs = decode_batch(&batching.snapshot().unwrap()).unwrap();
    assert_eq!(msgs.len(), 2);
    assert_eq!(msgs[0].kind, PacketKind::Session);
    assert_eq!(msgs[0].payload, session);
    assert_eq!(msgs[1].kind, PacketKind::Participants);
    assert_eq!(msgs[1].payload, participants);
}

#[test]
fn batch_is_dropped_without_subscribers() {
    let mut batching = PacketBatching::new();
    batching.push(OutboundMessage { kind: PacketKind::Motion, payload: vec![7], optional: None });
    assert!(batching.send_data(0).is_none());
    assert!(batching.send_data(3).is_none());
    batching.push(OutboundMessage { kind: PacketKind::Motion, payload: vec![8], optional: None });
    let frame = batching.send_data(1).unwrap();
    let msgs = decode_batch(&frame).unwrap();
    assert_eq!(msgs.len(), 1);
    assert_eq!(msgs[0].payload, vec![8]);
}

#[test]
fn late_subscriber_keeps_latest_frames() {
    let mut b = Broadcaster::new(2);
    let slow = b.subscribe().unwrap();
    for i in 0..10u8 {
        b.publish(&vec![i]);
    }
    assert_eq!(b.recv(slow), Some(vec![8]));
    assert_eq!(b.recv(slow), Some(vec![9]));
    assert_eq!(b.recv(slow), None);
}

#[test]
fn closed_broadcaster_ends_subscriptions() {
    let mut b = Broadcaster::new(50);
    let s = b.subscribe().unwrap();
    b.publish(&vec![1]);
    assert_eq!(b.subscriber_count(), 1);
    b.unsubscribe(s);
    assert_eq!(b.subscriber_count(), 0);
    assert_eq!(b.recv(s), None);
    b.close();
    assert!(b.subscribe().is_none());
}

#[test]
fn unsupported_format_stops_service() {
    let mut core = running_core();
    let b = datagram(2022, 1, 42, 644);
    assert!(matches!(
        core.on_datagram(&b, 0),
        Action::Teardown(Some(F1ServiceError::UnsupportedFormat))
    ));
    assert_eq!(core.phase, ServicePhase::Failed(F1ServiceError::UnsupportedFormat));
    let mut registry = F1Service::new();
    registry.start_service(27700, 100).unwrap();
    let port = registry.stop_service(100).unwrap();
    assert_eq!(port, 27700);
    assert!(!registry.service_active(100));
}

#[test]
fn history_dedup_emits_once() {
    let mut core = running_core();
    let mut emissions = 0;
    for now in [0u64, 2000, 4500] {
        let b = history_packet(5, 2, (93000, 30000, 31000));
        if let Some(m) = emitted(&core.on_datagram(&b, now)) {
            assert!(matches!(m.optional, Some(OptionalMessage::Number(5))));
            emissions += 1;
        }
    }
    assert_eq!(emissions, 1);
    let changed = history_packet(5, 3, (93000, 30000, 31500));
    assert!(emitted(&core.on_datagram(&changed, 4600)).is_some());
    let again = history_packet(5, 4, (90000, 30000, 31000));
    assert!(emitted(&core.on_datagram(&again, 5000)).is_none());
}

#[test]
fn motion_is_rate_limited() {
    let mut core = running_core();
    let b = motion_packet();
    assert!(emitted(&core.on_datagram(&b, 1000)).is_some());
    assert!(emitted(&core.on_datagram(&b, 1699)).is_none());
    assert!(emitted(&core.on_datagram(&b, 1700)).is_some());
}

#[test]
fn session_is_rate_limited() {
    let mut core = running_core();
    assert!(emitted(&core.on_datagram(&session_packet(1), 0)).is_some());
    assert!(emitted(&core.on_datagram(&session_packet(1), 9999)).is_none());
    assert!(emitted(&core.on_datagram(&session_packet(1), 10000)).is_some());
}

#[test]
fn events_only_in_race() {
    let mut core = running_core();
    let ev = event_packet(b"FTLP");
    assert!(emitted(&core.on_datagram(&ev, 0)).is_none());
    core.on_datagram(&session_packet(5), 1);
    assert!(emitted(&core.on_datagram(&ev, 2)).is_none());
    core.on_datagram(&session_packet(11), 3);
    match core.on_datagram(&ev, 4) {
        Action::Emit(m) => assert!(matches!(m.optional, Some(OptionalMessage::Code(c)) if &c == b"FTLP")),
        other => panic!("unexpected {:?}", other),
    }
    core.on_datagram(&session_packet(13), 5);
    assert!(emitted(&core.on_datagram(&ev, 6)).is_none());
}

#[test]
fn zero_session_uid_is_skipped() {
    let mut core = running_core();
    let b = datagram(2023, 0, 0, 1349);
    assert!(matches!(core.on_datagram(&b, 0), Action::Skip));
    assert_eq!(core.phase, ServicePhase::Running);
}

#[test]
fn final_classification_in_race_finishes() {
    let mut core = running_core();
    let fc = datagram(2023, 8, 42, 1020);
    assert!(matches!(core.on_datagram(&fc, 0), Action::Emit(_)));
    core.on_datagram(&session_packet(10), 1);
    assert!(matches!(core.on_datagram(&fc, 2), Action::FinishRace(_)));
    assert_eq!(core.phase, ServicePhase::Stopping);
}

#[test]
fn idle_timeout_stops_and_returns_port() {
    let mut ports = MachinePorts::new(27700..27800, &(27701..27800).collect());
    let port = ports.next().unwrap();
    assert_eq!(port, 27700);
    let mut registry = F1Service::new();
    registry.start_service(port, 100).unwrap();
    let mut core = running_core();
    assert!(matches!(core.on_timeout(), Action::Teardown(None)));
    assert_eq!(core.phase, ServicePhase::TimingOut);
    core.finish_teardown();
    assert_eq!(core.phase, ServicePhase::Stopped);
    ports.return_port(registry.stop_service(100).unwrap());
    assert!(registry.active_services().is_empty());
    assert_eq!(ports.next(), Some(27700));
}

#[test]
fn start_stop_roundtrip_recycles_port() {
    // The free ports form a FIFO: with both ports free the second lease would
    // be 27701, so 27701 is seeded as in use to leave 27700 the only free one.
    let mut ports = MachinePorts::new(27700..27702, &vec![27701]);
    let mut registry = F1Service::new();
    let first = ports.next().unwrap();
    assert_eq!(first, 27700);
    registry.start_service(first, 100).unwrap();
    ports.return_port(registry.stop_service(100).unwrap());
    let second = ports.next().unwrap();
    assert_eq!(second, 27700);
    registry.start_service(second, 100).unwrap();
    assert_eq!(registry.active_services(), vec![100]);
}

#[test]
fn second_start_is_already_exists() {
    let mut registry = F1Service::new();
    assert_eq!(registry.start_service(27700, 7), Ok(()));
    assert_eq!(registry.start_service(27701, 7), Err(F1ServiceError::AlreadyExists));
    assert_eq!(registry.service_port(7), Some(27700));
    assert_eq!(registry.stop_service(8), Err(F1ServiceError::NotActive));
}

#[test]
fn ports_are_leased_in_order_and_exclusively() {
    let mut ports = MachinePorts::new(27700..27800, &vec![27700, 27702, 1]);
    assert_eq!(ports.next(), Some(27701));
    assert_eq!(ports.next(), Some(27703));
    ports.return_port(27701);
    ports.return_port(27701);
    ports.return_port(5);
    ports.return_port(27704);
    let mut seen = Vec::new();
    while let Some(p) = ports.next() {
        assert!(!seen.contains(&p));
        seen.push(p);
    }
    assert_eq!(seen.len(), 97);
    assert_eq!(seen.last(), Some(&27701));
    assert!(!seen.contains(&27703));
}

#[test]
fn test_unique_ids() {
    let mut generator = IdsGenerator::new(0..1000, vec![1, 2, 3]);
    let mut ids = Vec::new();
    for _ in 0..100 {
        let id = generator.next().unwrap();
        assert!((0..1000).contains(&id));
        assert!(![1, 2, 3].contains(&id));
        assert!(!ids.contains(&id));
        ids.push(id);
    }
}

#[test]
fn exhausted_range_yields_no_id() {
    let mut generator = IdsGenerator::new(10..20, (10..20).collect());
    assert_eq!(generator.next(), None);
}

#[test]
fn refill_maps_random_words_into_range() {
    let mut g = IdsGenerator::new(0..1_000_000, vec![]);
    let words: Vec<u8> = [5i32, -7, i32::MIN, 1_000_005]
        .iter()
        .flat_map(|w| w.to_le_bytes())
        .collect();
    g.refill_from(&words);
    assert_eq!(g.next(), Some(483647));
    assert_eq!(g.next(), Some(7));
    assert_eq!(g.next(), Some(5));
}

#[test]
fn error_messages_and_codes() {
    assert_eq!(F1ServiceError::AlreadyExists.error_message(), "Already Exists");
    assert_eq!(F1ServiceError::AlreadyExists.status_code(), 409);
    assert_eq!(F1ServiceError::NotActive.status_code(), 500);
    assert_eq!(FirewallError::RuleNotFound.error_message(), "Rule not found");
    assert_eq!(FirewallError::RuleNotFound.status_code(), 404);
}

#[test]
fn snapshot_restores_cache_state() {
    let mut cache = PacketCaching::new();
    cache.save(PacketKind::FinalClassification, &vec![9], None);
    cache.save(PacketKind::SessionHistory, &vec![4], Some(OptionalMessage::Number(2)));
    cache.save(PacketKind::SessionHistory, &vec![5], Some(OptionalMessage::Number(1)));
    cache.save(PacketKind::Event, &vec![6], Some(OptionalMessage::Code(*b"SSTA")));
    cache.save(PacketKind::Session, &vec![1], None);
    cache.save(PacketKind::CarDamage, &vec![8], None);
    let snapshot = cache.snapshot().unwrap();
    let msgs = decode_batch(&snapshot).unwrap();
    let kinds: Vec<PacketKind> = msgs.iter().map(|m| m.kind).collect();
    assert_eq!(
        kinds,
        vec![
            PacketKind::Session,
            PacketKind::Event,
            PacketKind::SessionHistory,
            PacketKind::SessionHistory,
            PacketKind::FinalClassification
        ]
    );
    let mut rebuilt = PacketCaching::new();
    for m in &msgs {
        rebuilt.save(m.kind, &m.payload, m.optional);
    }
    assert_eq!(rebuilt.snapshot().unwrap(), snapshot);
}

#[test]
fn participants_is_rate_limited() {
    let mut core = running_core();
    assert!(emitted(&core.on_datagram(&participants_packet(), 100)).is_some());
    assert!(emitted(&core.on_datagram(&participants_packet(), 5000)).is_none());
    assert!(emitted(&core.on_datagram(&participants_packet(), 10100)).is_some());
}

#[test]
fn malformed_body_is_skipped_not_fatal() {
    let mut core = running_core();
    let short = datagram(2023, 0, 42, 100);
    assert!(matches!(core.on_datagram(&short, 0), Action::Skip));
    let unknown_kind = datagram(2023, 2, 42, 1200);
    assert!(matches!(core.on_datagram(&unknown_kind, 0), Action::Skip));
    let telemetry = datagram(2023, 6, 42, 1352);
    assert!(matches!(core.on_datagram(&telemetry, 0), Action::Skip));
    assert_eq!(core.phase, ServicePhase::Running);
}

#[test]
fn receive_error_fails_service() {
    let mut core = running_core();
    assert!(matches!(
        core.on_receive_error(),
        Action::Teardown(Some(F1ServiceError::ReceivingData))
    ));
    assert_eq!(core.phase, ServicePhase::Failed(F1ServiceError::ReceivingData));
}

#[test]
fn stop_request_is_idempotent() {
    let mut core = running_core();
    core.request_stop();
    assert_eq!(core.phase, ServicePhase::Stopping);
    core.finish_teardown();
    core.request_stop();
    assert_eq!(core.phase, ServicePhase::Stopped);
}

#[test]
fn history_needs_a_second_between_changes() {
    let mut core = running_core();
    assert!(emitted(&core.on_datagram(&history_packet(7, 1, (1, 2, 3)), 0)).is_some());
    assert!(emitted(&core.on_datagram(&history_packet(7, 2, (4, 5, 6)), 999)).is_none());
    assert!(emitted(&core.on_datagram(&history_packet(8, 2, (4, 5, 6)), 999)).is_some());
    assert!(emitted(&core.on_datagram(&history_packet(7, 2, (4, 5, 6)), 1000)).is_some());
}

#[test]
fn fan_out_reaches_every_subscriber_in_order() {
    let mut b = Broadcaster::new(50);
    let a = b.subscribe().unwrap();
    let c = b.subscribe().unwrap();
    assert_ne!(a, c);
    b.publish(&vec![1]);
    b.publish(&vec![2]);
    assert_eq!(b.recv(a), Some(vec![1]));
    assert_eq!(b.recv(c), Some(vec![1]));
    assert_eq!(b.recv(a), Some(vec![2]));
    assert_eq!(b.recv(a), None);
    assert_eq!(b.recv(c), Some(vec![2]));
}

#[test]
fn ids_are_disjoint_from_seeds_in_configured_range() {
    let seeds: Vec<i32> = (700000000..700000100).collect();
    let mut generator = IdsGenerator::new(700000000..700000200, seeds.clone());
    let mut ids = Vec::new();
    for _ in 0..100 {
        let id = generator.next().unwrap();
        assert!((700000100..700000200).contains(&id));
        assert!(!ids.contains(&id));
        ids.push(id);
    }
    assert_eq!(generator.next(), None);
}

#[test]
fn subscribers_get_fresh_ids_until_close() {
    let mut b = Broadcaster::new(3);
    assert_eq!(b.subscribe(), Some(0));
    assert_eq!(b.subscribe(), Some(1));
    b.publish(&vec![4]);
    b.close();
    assert!(b.finished());
    assert_eq!(b.subscribe(), None);
    assert_eq!(b.recv(0), Some(vec![4]));
    assert_eq!(b.recv(0), None);
    assert_eq!(b.recv(1), Some(vec![4]));
}

#[test]
fn negative_and_out_of_range_seeds_are_harmless() {
    let mut generator = IdsGenerator::new(0..50, vec![-3, 7, 500, 12]);
    let mut ids = Vec::new();
    for _ in 0..48 {
        let id = generator.next().unwrap();
        assert!((0..50).contains(&id));
        assert!(id != 7 && id != 12);
        assert!(!ids.contains(&id));
        ids.push(id);
    }
    assert_eq!(generator.next(), None);
}
