use std::collections::HashMap;

use udcn2_common::forwarding::{
    classify_packet, compute_simple_hash, xdp_after_cache_lookup, xdp_after_move_to_cache,
    xdp_after_pit_insert, xdp_after_pit_lookup, xdp_start, CacheEntry, PacketKind, PitEntry,
    XdpAction, XdpStats, XdpStep,
};

/// Drives the steps with in-memory tables, as the XDP program does with its maps.
struct Tables {
    pit: HashMap<u64, PitEntry>,
    cache: HashMap<u64, CacheEntry>,
    stats: Option<XdpStats>,
}

impl Tables {
    fn new() -> Self {
        Tables { pit: HashMap::new(), cache: HashMap::new(), stats: None }
    }

    fn process(&mut self, packet: &[u8]) -> XdpAction {
        let stats = self.stats.unwrap_or(XdpStats::zero());
        let mut step = xdp_start(packet, stats);
        loop {
            step = match step {
                XdpStep::LookupCache { name_hash, stats } => {
                    xdp_after_cache_lookup(name_hash, stats, self.cache.contains_key(&name_hash))
                }
                XdpStep::InsertPit { name_hash, entry, stats } => {
                    self.pit.insert(name_hash, entry);
                    xdp_after_pit_insert(stats, true)
                }
                XdpStep::LookupPit { name_hash, size, stats } => {
                    xdp_after_pit_lookup(name_hash, size, stats, self.pit.contains_key(&name_hash))
                }
                XdpStep::MoveToCache { name_hash, entry, stats } => {
                    self.pit.remove(&name_hash);
                    self.cache.insert(name_hash, entry);
                    xdp_after_move_to_cache(stats)
                }
                XdpStep::Finish { action, stats } => {
                    if let Some(s) = stats {
                        self.stats = Some(s);
                    }
                    return action;
                }
            }
        }
    }
}

#[test]
fn verdict_numbers() {
    assert_eq!(XdpAction::Aborted.to_u32(), 0);
    assert_eq!(XdpAction::Drop.to_u32(), 1);
    assert_eq!(XdpAction::Pass.to_u32(), 2);
}

#[test]
fn packet_kinds() {
    assert_eq!(classify_packet(&[]), PacketKind::Empty);
    assert_eq!(classify_packet(&[0x05]), PacketKind::TooShort);
    assert_eq!(classify_packet(&[0x05, 0x00]), PacketKind::Interest);
    assert_eq!(classify_packet(&[0x06, 0x00]), PacketKind::Data);
    assert_eq!(classify_packet(&[0x07, 0x00]), PacketKind::Other);
}

#[test]
fn hash_folds_the_words_of_the_first_32_bytes() {
    assert_eq!(compute_simple_hash(&[1, 2, 3, 4, 5, 6, 7]), 0);
    let word = |p: &[u8], i: usize| u64::from_le_bytes(p[8 * i..8 * i + 8].try_into().unwrap());
    let fold = |p: &[u8], k: usize| (0..k).fold(0u64, |h, i| h.wrapping_mul(31).wrapping_add(word(p, i)));
    let p40: Vec<u8> = (1..=40).collect();
    assert_eq!(compute_simple_hash(&p40[..8]), word(&p40, 0));
    assert_eq!(compute_simple_hash(&p40[..15]), word(&p40, 0));
    assert_eq!(compute_simple_hash(&p40[..16]), fold(&p40, 2));
    assert_eq!(compute_simple_hash(&p40[..17]), fold(&p40, 2));
    assert_eq!(compute_simple_hash(&p40[..24]), fold(&p40, 3));
    assert_eq!(compute_simple_hash(&p40[..31]), fold(&p40, 3));
    assert_eq!(compute_simple_hash(&p40[..32]), fold(&p40, 4));
    assert_eq!(compute_simple_hash(&p40), fold(&p40, 4));
    let mut one = [0u8; 32];
    one[0] = 1;
    assert_eq!(compute_simple_hash(&one), 29791);
}

#[test]
fn non_ndn_packets_pass_uncounted() {
    let stats = XdpStats::zero();
    assert_eq!(
        xdp_start(&[], stats),
        XdpStep::Finish { action: XdpAction::Drop, stats: None }
    );
    assert_eq!(
        xdp_start(&[0x05], stats),
        XdpStep::Finish { action: XdpAction::Pass, stats: None }
    );
    assert_eq!(
        xdp_start(&[0x45, 0x00, 0x01], stats),
        XdpStep::Finish { action: XdpAction::Pass, stats: None }
    );
}

#[test]
fn interest_then_data_flow() {
    let mut tables = Tables::new();
    // An Interest is recorded in the PIT and passed.
    let interest = [0x05u8, 0x01, 0x02, 0x03, 0x04, 0x05, 0x06, 0x07, 0x08, 0x09];
    assert_eq!(tables.process(&interest), XdpAction::Pass);
    assert_eq!(tables.pit.len(), 1);
    let h = compute_simple_hash(&interest);
    assert_eq!(tables.pit[&h], PitEntry { name_hash: h, timestamp: 0, interface: 0 });

    // A Data packet whose hash is pending moves to the content store.
    let mut data = interest;
    data[0] = 0x06;
    let hd = compute_simple_hash(&data);
    tables.pit.insert(hd, PitEntry { name_hash: hd, timestamp: 0, interface: 0 });
    assert_eq!(tables.process(&data), XdpAction::Pass);
    assert!(!tables.pit.contains_key(&hd));
    assert_eq!(tables.cache[&hd], CacheEntry { name_hash: hd, timestamp: 0, size: 10 });

    // An unsolicited Data packet is dropped.
    let stray = [0x06u8, 0xff, 0xee];
    assert_eq!(tables.process(&stray), XdpAction::Drop);

    // An Interest whose hash is cached is a cache hit.
    tables.cache.insert(h, CacheEntry { name_hash: h, timestamp: 0, size: 1 });
    assert_eq!(tables.process(&interest), XdpAction::Pass);

    let stats = tables.stats.unwrap();
    assert_eq!(stats.interests_processed, 2);
    assert_eq!(stats.data_processed, 2);
    assert_eq!(stats.pit_hits, 1);
    assert_eq!(stats.cache_hits, 1);
    assert_eq!(stats.packets_dropped, 1);
}

#[test]
fn refused_pit_insert_drops() {
    let stats = XdpStats::zero();
    assert_eq!(
        xdp_after_pit_insert(stats, false),
        XdpStep::Finish {
            action: XdpAction::Drop,
            stats: Some(XdpStats { packets_dropped: 1, ..stats })
        }
    );
    assert_eq!(
        xdp_after_pit_lookup(9, 70000, stats, true),
        XdpStep::MoveToCache {
            name_hash: 9,
            entry: CacheEntry { name_hash: 9, timestamp: 0, size: 70000 },
            stats: XdpStats { pit_hits: 1, ..stats }
        }
    );
}

#[test]
fn full_counters_that_are_not_touched_do_not_matter() {
    let full = XdpStats {
        interests_processed: u64::MAX - 1,
        data_processed: u64::MAX,
        pit_hits: u64::MAX,
        cache_hits: 0,
        packets_dropped: u64::MAX,
    };
    assert_eq!(
        xdp_start(&[0x45, 0x00], full),
        XdpStep::Finish { action: XdpAction::Pass, stats: None }
    );
    let interest = [0x05u8, 0x00];
    let h = compute_simple_hash(&interest);
    let step = xdp_start(&interest, full);
    let counted = XdpStats { interests_processed: u64::MAX, ..full };
    assert_eq!(step, XdpStep::LookupCache { name_hash: h, stats: counted });
    assert_eq!(
        xdp_after_cache_lookup(h, counted, true),
        XdpStep::Finish {
            action: XdpAction::Pass,
            stats: Some(XdpStats { cache_hits: 1, ..counted })
        }
    );
    assert_eq!(
        xdp_after_pit_insert(counted, true),
        XdpStep::Finish { action: XdpAction::Pass, stats: Some(counted) }
    );
}
