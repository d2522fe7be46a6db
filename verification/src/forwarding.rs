//! The decisions of the XDP fast path: which packets are NDN packets, the name
//! hash they are tracked by, and what happens to them given the Pending Interest
//! Table (PIT) and the content store.
//!
//! The tables themselves are kernel maps that the XDP program reads and writes.
//! Processing one packet is a short run of steps: each step names the map
//! operation to do next, and the outcome of that operation gives the next step,
//! until a step says what becomes of the packet.
use vstd::prelude::*;
use vstd::wrapping::u64_specs::{wrapping_add, wrapping_mul};

verus! {

/// The first byte, the TLV type, of an Interest packet.
pub const NDN_INTEREST_TYPE: u8 = 0x05;

/// The first byte, the TLV type, of a Data packet.
pub const NDN_DATA_TYPE: u8 = 0x06;

/// The verdict on a packet.
#[derive(Debug, Clone, Copy, PartialEq, Eq, Structural)]
pub enum XdpAction {
    Aborted,
    Drop,
    Pass,
}

impl XdpAction {
    /// The kernel's number for this verdict.
    pub open spec fn code(self) -> u32 {
        match self {
            XdpAction::Aborted => 0,
            XdpAction::Drop => 1,
            XdpAction::Pass => 2,
        }
    }

    /// The kernel's number for this verdict.
    pub fn to_u32(self) -> (r: u32)
        ensures
            r == self.code(),
    {
        match self {
            XdpAction::Aborted => 0,
            XdpAction::Drop => 1,
            XdpAction::Pass => 2,
        }
    }
}

/// The counters of the fast path.
#[derive(Debug, Clone, Copy, PartialEq, Eq, Structural)]
pub struct XdpStats {
    pub interests_processed: u64,
    pub data_processed: u64,
    pub pit_hits: u64,
    pub cache_hits: u64,
    pub packets_dropped: u64,
}

impl XdpStats {
    /// All counters at zero, as the fast path starts when no counters are stored yet.
    pub fn zero() -> (r: Self)
        ensures
            r == (XdpStats {
                interests_processed: 0,
                data_processed: 0,
                pit_hits: 0,
                cache_hits: 0,
                packets_dropped: 0,
            }),
    {
        XdpStats {
            interests_processed: 0,
            data_processed: 0,
            pit_hits: 0,
            cache_hits: 0,
            packets_dropped: 0,
        }
    }
}

/// An entry of the Pending Interest Table.
#[derive(Debug, Clone, Copy, PartialEq, Eq, Structural)]
pub struct PitEntry {
    pub name_hash: u64,
    pub timestamp: u64,
    pub interface: u32,
}

/// An entry of the content store.
#[derive(Debug, Clone, Copy, PartialEq, Eq, Structural)]
pub struct CacheEntry {
    pub name_hash: u64,
    pub timestamp: u64,
    pub size: u32,
}

/// The next step of processing a packet.
#[derive(Debug, Clone, Copy, PartialEq, Eq, Structural)]
pub enum XdpStep {
    /// Look `name_hash` up in the content store; say whether it is there.
    LookupCache { name_hash: u64, stats: XdpStats },
    /// Insert `entry` into the PIT under `name_hash`; say whether that worked.
    InsertPit { name_hash: u64, entry: PitEntry, stats: XdpStats },
    /// Look `name_hash` up in the PIT; say whether it is there.
    LookupPit { name_hash: u64, size: usize, stats: XdpStats },
    /// Remove `name_hash` from the PIT and insert `entry` into the content store
    /// under it; whether that worked changes nothing.
    MoveToCache { name_hash: u64, entry: CacheEntry, stats: XdpStats },
    /// The packet's verdict; where `stats` is given, it is stored as the new counters.
    Finish { action: XdpAction, stats: Option<XdpStats> },
}

/// The kind of a packet, from its length and first byte.
#[derive(Debug, Clone, Copy, PartialEq, Eq, Structural)]
pub enum PacketKind {
    /// No bytes at all.
    Empty,
    /// Fewer than two bytes: not looked at.
    TooShort,
    Interest,
    Data,
    /// Not an NDN packet.
    Other,
}

/// The kind of the packet with these bytes.
pub open spec fn kind_of(packet: Seq<u8>) -> PacketKind {
    if packet.len() == 0 {
        PacketKind::Empty
    } else if packet.len() < 2 {
        PacketKind::TooShort
    } else if packet[0] == NDN_INTEREST_TYPE {
        PacketKind::Interest
    } else if packet[0] == NDN_DATA_TYPE {
        PacketKind::Data
    } else {
        PacketKind::Other
    }
}

/// The kind of a packet: by its size, then by its first byte, the TLV type of an NDN packet.
pub fn classify_packet(packet: &[u8]) -> (r: PacketKind)
    ensures
        r == kind_of(packet@),
{
    if packet.len() == 0 {
        PacketKind::Empty
    } else if packet.len() < 2 {
        PacketKind::TooShort
    } else if packet[0] == NDN_INTEREST_TYPE {
        PacketKind::Interest
    } else if packet[0] == NDN_DATA_TYPE {
        PacketKind::Data
    } else {
        PacketKind::Other
    }
}

/// The 64-bit word of the eight bytes at `at`, read little-endian (the byte
/// order of the eBPF target).
pub open spec fn le_word(p: Seq<u8>, at: int) -> u64 {
    (p[at] as u64) | ((p[at + 1] as u64) << 8u64) | ((p[at + 2] as u64) << 16u64) | ((p[at
        + 3] as u64) << 24u64) | ((p[at + 4] as u64) << 32u64) | ((p[at + 5] as u64) << 40u64) | ((
    p[at + 6] as u64) << 48u64) | ((p[at + 7] as u64) << 56u64)
}

/// `h = h * 31 + word`, with wrapping arithmetic, from 0 over the first `k`
/// 64-bit words of `p`.
pub open spec fn hash_words(p: Seq<u8>, k: nat) -> u64
    decreases k,
{
    if k == 0 {
        0
    } else {
        wrapping_add(wrapping_mul(hash_words(p, (k - 1) as nat), 31), le_word(p, 8 * (k - 1)))
    }
}

/// The name hash of a packet: `hash_words` over every whole 64-bit word of
/// its first bytes, at most 32 of them.
pub open spec fn simple_hash(p: Seq<u8>) -> u64 {
    let hashed = if p.len() < 32 {
        p.len()
    } else {
        32
    };
    hash_words(p, hashed / 8)
}

fn read_le_word(p: &[u8], at: usize) -> (r: u64)
    requires
        at + 8 <= p@.len(),
    ensures
        r == le_word(p@, at as int),
{
    (p[at] as u64) | ((p[at + 1] as u64) << 8) | ((p[at + 2] as u64) << 16) | ((p[at + 3] as u64)
        << 24) | ((p[at + 4] as u64) << 32) | ((p[at + 5] as u64) << 40) | ((p[at + 6] as u64)
        << 48) | ((p[at + 7] as u64) << 56)
}

/// The name hash of a packet: its first bytes, up to 32, read as 64-bit words
/// and combined as `h = h * 31 + word`.
pub fn compute_simple_hash(packet: &[u8]) -> (r: u64)
    ensures
        r == simple_hash(packet@),
{
    let size = packet.len();
    let mut hash: u64 = 0;
    let mut remaining: usize = if size < 32 {
        size
    } else {
        32
    };
    let mut offset: usize = 0;
    while remaining >= 8
        invariant
            size == packet@.len(),
            offset + remaining == (if size < 32 {
                size
            } else {
                32
            }),
            offset % 8 == 0,
            hash == hash_words(packet@, (offset / 8) as nat),
        decreases remaining,
    {
        let word = read_le_word(packet, offset);
        hash = hash.wrapping_mul(31).wrapping_add(word);
        proof {
            assert(((offset + 8) / 8) as nat == (offset / 8) as nat + 1);
            assert(8 * (((offset + 8) / 8) as nat - 1) == offset);
        }
        offset = offset + 8;
        remaining = remaining - 8;
    }
    proof {
        let total: int = if size < 32 {
            size as int
        } else {
            32
        };
        assert(offset / 8 == total / 8);
    }
    hash
}

/// Begin processing a packet with the stored counters `stats`.
pub fn xdp_start(packet: &[u8], stats: XdpStats) -> (r: XdpStep)
    requires
        kind_of(packet@) == PacketKind::Interest ==> stats.interests_processed < u64::MAX,
        kind_of(packet@) == PacketKind::Data ==> stats.data_processed < u64::MAX,
    ensures
        r == (match kind_of(packet@) {
            PacketKind::Empty => XdpStep::Finish { action: XdpAction::Drop, stats: None },
            PacketKind::TooShort => XdpStep::Finish { action: XdpAction::Pass, stats: None },
            PacketKind::Other => XdpStep::Finish { action: XdpAction::Pass, stats: None },
            PacketKind::Interest => XdpStep::LookupCache {
                name_hash: simple_hash(packet@),
                stats: XdpStats { interests_processed: (stats.interests_processed + 1) as u64, ..stats },
            },
            PacketKind::Data => XdpStep::LookupPit {
                name_hash: simple_hash(packet@),
                size: packet@.len() as usize,
                stats: XdpStats { data_processed: (stats.data_processed + 1) as u64, ..stats },
            },
        }),
{
    match classify_packet(packet) {
        PacketKind::Empty => XdpStep::Finish { action: XdpAction::Drop, stats: None },
        PacketKind::TooShort => XdpStep::Finish { action: XdpAction::Pass, stats: None },
        PacketKind::Other => XdpStep::Finish { action: XdpAction::Pass, stats: None },
        PacketKind::Interest => {
            let mut s = stats;
            s.interests_processed = s.interests_processed + 1;
            XdpStep::LookupCache { name_hash: compute_simple_hash(packet), stats: s }
        },
        PacketKind::Data => {
            let mut s = stats;
            s.data_processed = s.data_processed + 1;
            XdpStep::LookupPit { name_hash: compute_simple_hash(packet), size: packet.len(), stats: s }
        },
    }
}

/// The step after a content store lookup for an Interest: a hit passes the
/// Interest up, counted as a cache hit; a miss records it in the PIT.
pub fn xdp_after_cache_lookup(name_hash: u64, stats: XdpStats, hit: bool) -> (r: XdpStep)
    requires
        hit ==> stats.cache_hits < u64::MAX,
    ensures
        r == (if hit {
            XdpStep::Finish {
                action: XdpAction::Pass,
                stats: Some(XdpStats { cache_hits: (stats.cache_hits + 1) as u64, ..stats }),
            }
        } else {
            XdpStep::InsertPit {
                name_hash,
                entry: PitEntry { name_hash, timestamp: 0, interface: 0 },
                stats,
            }
        }),
{
    if hit {
        let mut s = stats;
        s.cache_hits = s.cache_hits + 1;
        XdpStep::Finish { action: XdpAction::Pass, stats: Some(s) }
    } else {
        XdpStep::InsertPit {
            name_hash,
            entry: PitEntry { name_hash, timestamp: 0, interface: 0 },
            stats,
        }
    }
}

/// The step after recording an Interest in the PIT: passed on success;
/// dropped, and counted as dropped, where the PIT refused it.
pub fn xdp_after_pit_insert(stats: XdpStats, inserted: bool) -> (r: XdpStep)
    requires
        !inserted ==> stats.packets_dropped < u64::MAX,
    ensures
        r == (if inserted {
            XdpStep::Finish { action: XdpAction::Pass, stats: Some(stats) }
        } else {
            XdpStep::Finish {
                action: XdpAction::Drop,
                stats: Some(XdpStats { packets_dropped: (stats.packets_dropped + 1) as u64, ..stats }),
            }
        }),
{
    if inserted {
        XdpStep::Finish { action: XdpAction::Pass, stats: Some(stats) }
    } else {
        let mut s = stats;
        s.packets_dropped = s.packets_dropped + 1;
        XdpStep::Finish { action: XdpAction::Drop, stats: Some(s) }
    }
}

/// The step after a PIT lookup for a Data packet: a hit, counted, moves the
/// name from the PIT to the content store (the size taken modulo 2^32); a
/// Data packet that nobody asked for is dropped and counted as dropped.
pub fn xdp_after_pit_lookup(name_hash: u64, size: usize, stats: XdpStats, hit: bool) -> (r: XdpStep)
    requires
        hit ==> stats.pit_hits < u64::MAX,
        !hit ==> stats.packets_dropped < u64::MAX,
    ensures
        r == (if hit {
            XdpStep::MoveToCache {
                name_hash,
                entry: CacheEntry { name_hash, timestamp: 0, size: size as u32 },
                stats: XdpStats { pit_hits: (stats.pit_hits + 1) as u64, ..stats },
            }
        } else {
            XdpStep::Finish {
                action: XdpAction::Drop,
                stats: Some(XdpStats { packets_dropped: (stats.packets_dropped + 1) as u64, ..stats }),
            }
        }),
{
    if hit {
        let mut s = stats;
        s.pit_hits = s.pit_hits + 1;
        XdpStep::MoveToCache {
            name_hash,
            entry: CacheEntry { name_hash, timestamp: 0, size: #[verifier::truncate] (size as u32) },
            stats: s,
        }
    } else {
        let mut s = stats;
        s.packets_dropped = s.packets_dropped + 1;
        XdpStep::Finish { action: XdpAction::Drop, stats: Some(s) }
    }
}

/// The step after moving a name to the content store: the Data packet is passed up.
pub fn xdp_after_move_to_cache(stats: XdpStats) -> (r: XdpStep)
    ensures
        r == (XdpStep::Finish { action: XdpAction::Pass, stats: Some(stats) }),
{
    XdpStep::Finish { action: XdpAction::Pass, stats: Some(stats) }
}

} // verus!
