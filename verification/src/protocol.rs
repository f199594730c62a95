//! Packet classification: the one-byte type tag of each message kind,
//! and the predicate naming the kinds that ride the reliability layer.

use vstd::prelude::*;

verus! {

/// Every message kind the server understands. The wire tag of each kind is
/// given by [`PacketType::tag`]; an unrecognized tag maps to `Unknown`.
#[derive(Debug, Clone, Copy, PartialEq, Eq, Structural)]
pub enum PacketType {
    Handshake,
    PlayerConnected,
    PlayerDisconnected,
    Ping,
    Pong,
    FullSyncRequest,
    NoteSaveData,
    InitialSaveDataRequest,
    FileProgressFlags,
    AbilityProgress,
    HoneycombScore,
    MumboScore,
    HoneycombCollected,
    MumboTokenCollected,
    PuppetUpdate,
    PuppetSyncRequest,
    PlayerPosition,
    JiggyCollected,
    NoteCollected,
    NoteCollectedPos,
    LevelOpened,
    PlayerInfoRequest,
    PlayerInfoResponse,
    PlayerListUpdate,
    ReliableAck,
    Unknown,
}

impl PacketType {
    /// The wire tag of this kind. `Unknown` stands for every unassigned tag
    /// and serializes as 255.
    pub open spec fn spec_tag(self) -> u8 {
        match self {
            PacketType::Handshake => 1,
            PacketType::PlayerConnected => 3,
            PacketType::PlayerDisconnected => 4,
            PacketType::Ping => 5,
            PacketType::Pong => 6,
            PacketType::FullSyncRequest => 10,
            PacketType::NoteSaveData => 11,
            PacketType::InitialSaveDataRequest => 12,
            PacketType::FileProgressFlags => 13,
            PacketType::AbilityProgress => 14,
            PacketType::HoneycombScore => 15,
            PacketType::MumboScore => 16,
            PacketType::HoneycombCollected => 17,
            PacketType::MumboTokenCollected => 18,
            PacketType::PuppetUpdate => 20,
            PacketType::PuppetSyncRequest => 21,
            PacketType::PlayerPosition => 50,
            PacketType::JiggyCollected => 51,
            PacketType::NoteCollected => 52,
            PacketType::NoteCollectedPos => 53,
            PacketType::LevelOpened => 54,
            PacketType::PlayerInfoRequest => 55,
            PacketType::PlayerInfoResponse => 56,
            PacketType::PlayerListUpdate => 57,
            PacketType::ReliableAck => 60,
            PacketType::Unknown => 255,
        }
    }

    /// The kind assigned to a wire tag; `Unknown` for unassigned tags.
    pub open spec fn spec_from_tag(tag: u8) -> PacketType {
        match tag {
            1u8 => PacketType::Handshake,
            3u8 => PacketType::PlayerConnected,
            4u8 => PacketType::PlayerDisconnected,
            5u8 => PacketType::Ping,
            6u8 => PacketType::Pong,
            10u8 => PacketType::FullSyncRequest,
            11u8 => PacketType::NoteSaveData,
            12u8 => PacketType::InitialSaveDataRequest,
            13u8 => PacketType::FileProgressFlags,
            14u8 => PacketType::AbilityProgress,
            15u8 => PacketType::HoneycombScore,
            16u8 => PacketType::MumboScore,
            17u8 => PacketType::HoneycombCollected,
            18u8 => PacketType::MumboTokenCollected,
            20u8 => PacketType::PuppetUpdate,
            21u8 => PacketType::PuppetSyncRequest,
            50u8 => PacketType::PlayerPosition,
            51u8 => PacketType::JiggyCollected,
            52u8 => PacketType::NoteCollected,
            53u8 => PacketType::NoteCollectedPos,
            54u8 => PacketType::LevelOpened,
            55u8 => PacketType::PlayerInfoRequest,
            56u8 => PacketType::PlayerInfoResponse,
            57u8 => PacketType::PlayerListUpdate,
            60u8 => PacketType::ReliableAck,
            _ => PacketType::Unknown,
        }
    }

    /// The wire tag of this kind.
    pub fn tag(&self) -> (t: u8)
        ensures
            t == self.spec_tag(),
    {
        match self {
            PacketType::Handshake => 1,
            PacketType::PlayerConnected => 3,
            PacketType::PlayerDisconnected => 4,
            PacketType::Ping => 5,
            PacketType::Pong => 6,
            PacketType::FullSyncRequest => 10,
            PacketType::NoteSaveData => 11,
            PacketType::InitialSaveDataRequest => 12,
            PacketType::FileProgressFlags => 13,
            PacketType::AbilityProgress => 14,
            PacketType::HoneycombScore => 15,
            PacketType::MumboScore => 16,
            PacketType::HoneycombCollected => 17,
            PacketType::MumboTokenCollected => 18,
            PacketType::PuppetUpdate => 20,
            PacketType::PuppetSyncRequest => 21,
            PacketType::PlayerPosition => 50,
            PacketType::JiggyCollected => 51,
            PacketType::NoteCollected => 52,
            PacketType::NoteCollectedPos => 53,
            PacketType::LevelOpened => 54,
            PacketType::PlayerInfoRequest => 55,
            PacketType::PlayerInfoResponse => 56,
            PacketType::PlayerListUpdate => 57,
            PacketType::ReliableAck => 60,
            PacketType::Unknown => 255,
        }
    }

    /// Whether this kind rides the sequence/ack/retransmit layer.
    /// `ReliableAck` itself is unreliable by definition.
    pub open spec fn spec_is_reliable(self) -> bool {
        match self {
            PacketType::JiggyCollected => true,
            PacketType::NoteCollected => true,
            PacketType::NoteCollectedPos => true,
            PacketType::NoteSaveData => true,
            PacketType::FileProgressFlags => true,
            PacketType::AbilityProgress => true,
            PacketType::HoneycombScore => true,
            PacketType::MumboScore => true,
            PacketType::HoneycombCollected => true,
            PacketType::MumboTokenCollected => true,
            PacketType::LevelOpened => true,
            PacketType::FullSyncRequest => true,
            _ => false,
        }
    }

    /// Whether this kind rides the sequence/ack/retransmit layer.
    pub fn is_reliable_type(self) -> (r: bool)
        ensures
            r == self.spec_is_reliable(),
    {
        match self {
            PacketType::JiggyCollected
            | PacketType::NoteCollected
            | PacketType::NoteCollectedPos
            | PacketType::NoteSaveData
            | PacketType::FileProgressFlags
            | PacketType::AbilityProgress
            | PacketType::HoneycombScore
            | PacketType::MumboScore
            | PacketType::HoneycombCollected
            | PacketType::MumboTokenCollected
            | PacketType::LevelOpened
            | PacketType::FullSyncRequest => true,
            _ => false,
        }
    }
}

impl From<u8> for PacketType {
    /// The kind assigned to a wire tag; `Unknown` for unassigned tags.
    fn from(tag: u8) -> (r: PacketType) {
        PacketType::from_tag_impl(tag)
    }
}

impl vstd::std_specs::convert::FromSpecImpl<u8> for PacketType {
    open spec fn obeys_from_spec() -> bool {
        true
    }

    open spec fn from_spec(tag: u8) -> PacketType {
        PacketType::spec_from_tag(tag)
    }
}

impl From<PacketType> for u8 {
    /// The wire tag of a kind.
    fn from(kind: PacketType) -> (r: u8) {
        kind.tag()
    }
}

impl vstd::std_specs::convert::FromSpecImpl<PacketType> for u8 {
    open spec fn obeys_from_spec() -> bool {
        true
    }

    open spec fn from_spec(kind: PacketType) -> u8 {
        kind.spec_tag()
    }
}

impl PacketType {
    /// Exec body shared by `From<u8>`: maps a wire tag to its kind.
    fn from_tag_impl(tag: u8) -> (r: PacketType)
        ensures
            r == PacketType::spec_from_tag(tag),
    {
        match tag {
            1u8 => PacketType::Handshake,
            3u8 => PacketType::PlayerConnected,
            4u8 => PacketType::PlayerDisconnected,
            5u8 => PacketType::Ping,
            6u8 => PacketType::Pong,
            10u8 => PacketType::FullSyncRequest,
            11u8 => PacketType::NoteSaveData,
            12u8 => PacketType::InitialSaveDataRequest,
            13u8 => PacketType::FileProgressFlags,
            14u8 => PacketType::AbilityProgress,
            15u8 => PacketType::HoneycombScore,
            16u8 => PacketType::MumboScore,
            17u8 => PacketType::HoneycombCollected,
            18u8 => PacketType::MumboTokenCollected,
            20u8 => PacketType::PuppetUpdate,
            21u8 => PacketType::PuppetSyncRequest,
            50u8 => PacketType::PlayerPosition,
            51u8 => PacketType::JiggyCollected,
            52u8 => PacketType::NoteCollected,
            53u8 => PacketType::NoteCollectedPos,
            54u8 => PacketType::LevelOpened,
            55u8 => PacketType::PlayerInfoRequest,
            56u8 => PacketType::PlayerInfoResponse,
            57u8 => PacketType::PlayerListUpdate,
            60u8 => PacketType::ReliableAck,
            _ => PacketType::Unknown,
        }
    }

    /// Mapping a kind to its tag and back yields the kind, for every kind
    /// that owns a tag (every kind but `Unknown`, whose 255 is shared by
    /// all unassigned tags and also maps to `Unknown`).
    pub proof fn lemma_tag_round_trip(self)
        ensures
            PacketType::spec_from_tag(self.spec_tag()) == self || self == PacketType::Unknown,
    {
    }
}

} // verus!
