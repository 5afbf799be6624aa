use vstd::prelude::*;

verus! {

/// Bytes of the common header that opens every telemetry datagram.
pub const HEADER_SIZE: usize = 29;

/// Protocol year that the service accepts in `packet_format`.
pub const SUPPORTED_PACKET_FORMAT: u16 = 2023;

/// The packet kinds the ingest understands.
#[derive(Clone, Copy, Debug, PartialEq, Eq, Structural)]
pub enum PacketKind {
    Motion,
    Session,
    Participants,
    Event,
    SessionHistory,
    CarDamage,
    CarTelemetry,
    CarStatus,
    FinalClassification,
}

/// Wire identifier of each kind.
pub open spec fn kind_id(k: PacketKind) -> u8 {
    match k {
        PacketKind::Motion => 0,
        PacketKind::Session => 1,
        PacketKind::Event => 3,
        PacketKind::Participants => 4,
        PacketKind::CarTelemetry => 6,
        PacketKind::CarStatus => 7,
        PacketKind::FinalClassification => 8,
        PacketKind::CarDamage => 10,
        PacketKind::SessionHistory => 11,
    }
}

/// The kind whose wire identifier is `id`, if any.
pub open spec fn kind_of_id(id: u8) -> Option<PacketKind> {
    if id == 0 {
        Some(PacketKind::Motion)
    } else if id == 1 {
        Some(PacketKind::Session)
    } else if id == 3 {
        Some(PacketKind::Event)
    } else if id == 4 {
        Some(PacketKind::Participants)
    } else if id == 6 {
        Some(PacketKind::CarTelemetry)
    } else if id == 7 {
        Some(PacketKind::CarStatus)
    } else if id == 8 {
        Some(PacketKind::FinalClassification)
    } else if id == 10 {
        Some(PacketKind::CarDamage)
    } else if id == 11 {
        Some(PacketKind::SessionHistory)
    } else {
        None
    }
}

/// Full size in bytes of a datagram of each kind.
pub open spec fn packet_size(k: PacketKind) -> nat {
    match k {
        PacketKind::Motion => 1349,
        PacketKind::Session => 644,
        PacketKind::Participants => 1306,
        PacketKind::Event => 45,
        PacketKind::SessionHistory => 1460,
        PacketKind::CarDamage => 953,
        PacketKind::CarTelemetry => 1352,
        PacketKind::CarStatus => 1239,
        PacketKind::FinalClassification => 1020,
    }
}

impl PacketKind {
    pub fn id(&self) -> (r: u8)
        ensures
            r == kind_id(*self),
    {
        match self {
            PacketKind::Motion => 0,
            PacketKind::Session => 1,
            PacketKind::Event => 3,
            PacketKind::Participants => 4,
            PacketKind::CarTelemetry => 6,
            PacketKind::CarStatus => 7,
            PacketKind::FinalClassification => 8,
            PacketKind::CarDamage => 10,
            PacketKind::SessionHistory => 11,
        }
    }

    pub fn from_id(id: u8) -> (r: Option<PacketKind>)
        ensures
            r == kind_of_id(id),
    {
        if id == 0 {
            Some(PacketKind::Motion)
        } else if id == 1 {
            Some(PacketKind::Session)
        } else if id == 3 {
            Some(PacketKind::Event)
        } else if id == 4 {
            Some(PacketKind::Participants)
        } else if id == 6 {
            Some(PacketKind::CarTelemetry)
        } else if id == 7 {
            Some(PacketKind::CarStatus)
        } else if id == 8 {
            Some(PacketKind::FinalClassification)
        } else if id == 10 {
            Some(PacketKind::CarDamage)
        } else if id == 11 {
            Some(PacketKind::SessionHistory)
        } else {
            None
        }
    }

    pub fn size(&self) -> (r: usize)
        ensures
            r == packet_size(*self),
    {
        match self {
            PacketKind::Motion => 1349,
            PacketKind::Session => 644,
            PacketKind::Participants => 1306,
            PacketKind::Event => 45,
            PacketKind::SessionHistory => 1460,
            PacketKind::CarDamage => 953,
            PacketKind::CarTelemetry => 1352,
            PacketKind::CarStatus => 1239,
            PacketKind::FinalClassification => 1020,
        }
    }
}

pub proof fn lemma_kind_id_round_trip(k: PacketKind)
    ensures
        kind_of_id(kind_id(k)) == Some(k),
{
}

/// Little-endian value of the two bytes at `off`.
pub open spec fn u16_le(b: Seq<u8>, off: int) -> int {
    b[off] as int + 256 * b[off + 1] as int
}

/// Little-endian value of the four bytes at `off`.
pub open spec fn u32_le(b: Seq<u8>, off: int) -> int {
    u16_le(b, off) + 65536 * u16_le(b, off + 2)
}

/// Little-endian value of the eight bytes at `off`.
pub open spec fn u64_le(b: Seq<u8>, off: int) -> int {
    u32_le(b, off) + 4294967296 * u32_le(b, off + 4)
}

pub fn read_u16_le(b: &[u8], off: usize) -> (r: u16)
    requires
        off + 2 <= b.len(),
    ensures
        r as int == u16_le(b@, off as int),
{
    b[off] as u16 + 256 * (b[off + 1] as u16)
}

pub fn read_u32_le(b: &[u8], off: usize) -> (r: u32)
    requires
        off + 4 <= b.len(),
    ensures
        r as int == u32_le(b@, off as int),
{
    let lo = read_u16_le(b, off);
    let hi = read_u16_le(b, off + 2);
    lo as u32 + 65536 * (hi as u32)
}

pub fn read_u64_le(b: &[u8], off: usize) -> (r: u64)
    requires
        off + 8 <= b.len(),
    ensures
        r as int == u64_le(b@, off as int),
{
    let lo = read_u32_le(b, off);
    let hi = read_u32_le(b, off + 4);
    lo as u64 + 4294967296 * (hi as u64)
}

/// The fields of the common header that the ingest reads.
#[derive(Clone, Copy, Debug, PartialEq, Eq, Structural)]
pub struct PacketHeader {
    pub packet_format: u16,
    pub game_year: u8,
    pub packet_id: u8,
    pub session_uid: u64,
    pub frame_identifier: u32,
    pub player_car_index: u8,
}

/// The header that the first `HEADER_SIZE` bytes of `b` spell.
pub open spec fn header_of(b: Seq<u8>) -> PacketHeader {
    PacketHeader {
        packet_format: u16_le(b, 0) as u16,
        game_year: b[2],
        packet_id: b[6],
        session_uid: u64_le(b, 7) as u64,
        frame_identifier: u32_le(b, 19) as u32,
        player_car_index: b[27],
    }
}

/// Reads the common header; `None` when the datagram is shorter than a header.
pub fn parse_header(b: &[u8]) -> (r: Option<PacketHeader>)
    ensures
        r is Some <==> b@.len() >= HEADER_SIZE,
        r matches Some(h) ==> h == header_of(b@),
{
    if b.len() < HEADER_SIZE {
        return None;
    }
    let packet_format = read_u16_le(b, 0);
    let session_uid = read_u64_le(b, 7);
    let frame_identifier = read_u32_le(b, 19);
    Some(
        PacketHeader {
            packet_format,
            game_year: b[2],
            packet_id: b[6],
            session_uid,
            frame_identifier,
            player_car_index: b[27],
        },
    )
}

/// Session types as the telemetry protocol numbers them.
#[derive(Clone, Copy, Debug, PartialEq, Eq, Structural)]
pub enum SessionType {
    Unknown,
    P1,
    P2,
    P3,
    ShortP,
    Q1,
    Q2,
    Q3,
    ShortQ,
    Osq,
    R,
    R2,
    R3,
    TimeTrial,
}

pub open spec fn session_type_of(v: u8) -> Option<SessionType> {
    if v == 0 {
        Some(SessionType::Unknown)
    } else if v == 1 {
        Some(SessionType::P1)
    } else if v == 2 {
        Some(SessionType::P2)
    } else if v == 3 {
        Some(SessionType::P3)
    } else if v == 4 {
        Some(SessionType::ShortP)
    } else if v == 5 {
        Some(SessionType::Q1)
    } else if v == 6 {
        Some(SessionType::Q2)
    } else if v == 7 {
        Some(SessionType::Q3)
    } else if v == 8 {
        Some(SessionType::ShortQ)
    } else if v == 9 {
        Some(SessionType::Osq)
    } else if v == 10 {
        Some(SessionType::R)
    } else if v == 11 {
        Some(SessionType::R2)
    } else if v == 12 {
        Some(SessionType::R3)
    } else if v == 13 {
        Some(SessionType::TimeTrial)
    } else {
        None
    }
}

pub open spec fn is_race_spec(t: SessionType) -> bool {
    t == SessionType::R || t == SessionType::R2 || t == SessionType::R3
}

impl SessionType {
    pub fn from_u8(v: u8) -> (r: Option<SessionType>)
        ensures
            r == session_type_of(v),
    {
        if v == 0 {
            Some(SessionType::Unknown)
        } else if v == 1 {
            Some(SessionType::P1)
        } else if v == 2 {
            Some(SessionType::P2)
        } else if v == 3 {
            Some(SessionType::P3)
        } else if v == 4 {
            Some(SessionType::ShortP)
        } else if v == 5 {
            Some(SessionType::Q1)
        } else if v == 6 {
            Some(SessionType::Q2)
        } else if v == 7 {
            Some(SessionType::Q3)
        } else if v == 8 {
            Some(SessionType::ShortQ)
        } else if v == 9 {
            Some(SessionType::Osq)
        } else if v == 10 {
            Some(SessionType::R)
        } else if v == 11 {
            Some(SessionType::R2)
        } else if v == 12 {
            Some(SessionType::R3)
        } else if v == 13 {
            Some(SessionType::TimeTrial)
        } else {
            None
        }
    }

    /// Race variants unlock event emission and end-of-race handling.
    pub fn is_race(&self) -> (r: bool)
        ensures
            r == is_race_spec(*self),
    {
        match self {
            SessionType::R | SessionType::R2 | SessionType::R3 => true,
            _ => false,
        }
    }
}

/// The three sector times of one lap, in milliseconds.
#[derive(Clone, Copy, Debug, PartialEq, Eq, Structural)]
pub struct SectorsLaps {
    pub sector1: u32,
    pub sector2: u32,
    pub sector3: u32,
}

/// Offset of the session type byte in a `Session` packet.
pub const SESSION_TYPE_OFFSET: usize = 35;
/// Offset of the 4-byte event code in an `Event` packet.
pub const EVENT_CODE_OFFSET: usize = 29;
/// Offsets of the car index, the lap count and the lap table in a `SessionHistory` packet.
pub const HISTORY_CAR_OFFSET: usize = 29;
pub const HISTORY_LAPS_OFFSET: usize = 30;
pub const HISTORY_LAP_TABLE: usize = 36;
/// Bytes of one lap record, and the number of records in the table.
pub const LAP_RECORD_SIZE: usize = 14;
pub const MAX_LAPS: u8 = 100;

/// A sector time: milliseconds field plus whole minutes.
pub open spec fn sector_at(b: Seq<u8>, off: int) -> int {
    u16_le(b, off) + 60000 * b[off + 2] as int
}

/// The sector triple of lap record `lap` (zero based) of a `SessionHistory` packet.
pub open spec fn sectors_of(b: Seq<u8>, lap: int) -> SectorsLaps {
    let base = HISTORY_LAP_TABLE + LAP_RECORD_SIZE * lap;
    SectorsLaps {
        sector1: sector_at(b, base + 4) as u32,
        sector2: sector_at(b, base + 7) as u32,
        sector3: sector_at(b, base + 10) as u32,
    }
}

/// What the ingest reads from the body of each packet kind.
#[derive(Clone, Copy, Debug)]
pub enum F1Data {
    Motion,
    Session { session_type: SessionType },
    Participants,
    Event { code: [u8; 4] },
    SessionHistory { car_idx: u8, sectors: SectorsLaps },
    CarDamage,
    CarTelemetry,
    CarStatus,
    FinalClassification,
}

/// The decoded packet of kind `k` in `b`, or `None` when `b` is malformed for `k`.
pub open spec fn decode_spec(k: PacketKind, b: Seq<u8>) -> Option<F1Data> {
    if b.len() < packet_size(k) {
        None
    } else {
        match k {
            PacketKind::Motion => Some(F1Data::Motion),
            PacketKind::Session => match session_type_of(b[SESSION_TYPE_OFFSET as int]) {
                Some(t) => Some(F1Data::Session { session_type: t }),
                None => None,
            },
            PacketKind::Participants => Some(F1Data::Participants),
            PacketKind::Event => Some(
                F1Data::Event {
                    code: [b[29], b[30], b[31], b[32]],
                },
            ),
            PacketKind::SessionHistory => {
                let laps = b[HISTORY_LAPS_OFFSET as int];
                if laps == 0 || laps > MAX_LAPS {
                    None
                } else {
                    Some(
                        F1Data::SessionHistory {
                            car_idx: b[HISTORY_CAR_OFFSET as int],
                            sectors: sectors_of(b, laps - 1),
                        },
                    )
                }
            },
            PacketKind::CarDamage => Some(F1Data::CarDamage),
            PacketKind::CarTelemetry => Some(F1Data::CarTelemetry),
            PacketKind::CarStatus => Some(F1Data::CarStatus),
            PacketKind::FinalClassification => Some(F1Data::FinalClassification),
        }
    }
}

/// Equality of two event codes.
pub fn same_code(a: &[u8; 4], b: &[u8; 4]) -> (r: bool)
    ensures
        r == (*a == *b),
{
    let r = a[0] == b[0] && a[1] == b[1] && a[2] == b[2] && a[3] == b[3];
    proof {
        if r {
            assert(a@ =~= b@);
            vstd::array::axiom_array_ext_equal(*a, *b);
        }
    }
    r
}

fn read_sector(b: &[u8], off: usize) -> (r: u32)
    requires
        off + 3 <= b.len(),
    ensures
        r as int == sector_at(b@, off as int),
{
    let ms = read_u16_le(b, off);
    ms as u32 + 60000 * (b[off + 2] as u32)
}

impl F1Data {
    /// Decodes the body of a packet of kind `kind`; never panics on short or malformed input.
    pub fn try_deserialize(kind: PacketKind, b: &[u8]) -> (r: Option<F1Data>)
        ensures
            r == decode_spec(kind, b@),
    {
        if b.len() < kind.size() {
            return None;
        }
        match kind {
            PacketKind::Motion => Some(F1Data::Motion),
            PacketKind::Session => match SessionType::from_u8(b[SESSION_TYPE_OFFSET]) {
                Some(t) => Some(F1Data::Session { session_type: t }),
                None => None,
            },
            PacketKind::Participants => Some(F1Data::Participants),
            PacketKind::Event => Some(F1Data::Event { code: [b[29], b[30], b[31], b[32]] }),
            PacketKind::SessionHistory => {
                let laps = b[HISTORY_LAPS_OFFSET];
                if laps == 0 || laps > MAX_LAPS {
                    None
                } else {
                    let base = HISTORY_LAP_TABLE + LAP_RECORD_SIZE * ((laps - 1) as usize);
                    let sectors = SectorsLaps {
                        sector1: read_sector(b, base + 4),
                        sector2: read_sector(b, base + 7),
                        sector3: read_sector(b, base + 10),
                    };
                    Some(F1Data::SessionHistory { car_idx: b[HISTORY_CAR_OFFSET], sectors })
                }
            },
            PacketKind::CarDamage => Some(F1Data::CarDamage),
            PacketKind::CarTelemetry => Some(F1Data::CarTelemetry),
            PacketKind::CarStatus => Some(F1Data::CarStatus),
            PacketKind::FinalClassification => Some(F1Data::FinalClassification),
        }
    }
}

} // verus!
