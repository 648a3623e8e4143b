use chainsaw::maps::{BlockMaps, MemoryBlockMaps};
use chainsaw::node::{parse_node_id, CARD_NODE_PREFIX, RENDER_NODE_PREFIX};
use chainsaw::pci::pci_key;

#[test]
fn id_block_unblock_round_trip() {
    let mut m = MemoryBlockMaps::new();
    assert!(!m.is_id_blocked(129).ok().unwrap());
    assert!(m.block_id(129).is_ok());
    assert!(m.is_id_blocked(129).ok().unwrap());
    assert!(m.block_id(129).is_ok());
    assert!(m.unblock_id(129).is_ok());
    assert!(!m.is_id_blocked(129).ok().unwrap());
}

#[test]
fn unblocking_absent_id_is_silent() {
    let mut m = MemoryBlockMaps::new();
    assert!(m.block_id(1).is_ok());
    assert!(m.unblock_id(2).is_ok());
    assert!(m.is_id_blocked(1).ok().unwrap());
    assert!(!m.is_id_blocked(2).ok().unwrap());
}

#[test]
fn pci_block_then_lookup() {
    let mut m = MemoryBlockMaps::new();
    assert!(m.block_pci("0000:01:00.0").is_ok());
    assert!(m.is_pci_blocked("0000:01:00.0").ok().unwrap());
    assert!(!m.is_pci_blocked("0000:00:02.0").ok().unwrap());
    assert!(m.unblock_pci("0000:01:00.0").is_ok());
    assert!(!m.is_pci_blocked("0000:01:00.0").ok().unwrap());
}

#[test]
fn pci_keys_alias_beyond_fifteen_bytes() {
    let mut m = MemoryBlockMaps::new();
    assert!(m.block_pci("0000:01:00.0-longer-a").is_ok());
    assert!(m.is_pci_blocked("0000:01:00.0-longer-b").ok().unwrap());
    assert!(m.is_pci_blocked("0000:01:00.0-lo").ok().unwrap());
    assert!(!m.is_pci_blocked("0000:01:00.0-").ok().unwrap());
}

#[test]
fn lists_are_independent() {
    let mut m = MemoryBlockMaps::new();
    assert!(m.block_id(5).is_ok());
    assert!(m.block_pci("0000:05:00.0").is_ok());
    assert!(m.unblock_pci("0000:05:00.0").is_ok());
    assert!(m.is_id_blocked(5).ok().unwrap());
}

#[test]
fn pci_key_layout() {
    let key = pci_key("0000:01:00.0");
    let mut expected = [0u8; 16];
    expected[..12].copy_from_slice(b"0000:01:00.0");
    assert_eq!(key, expected);

    let long = pci_key("0123456789abcdefXYZ");
    let mut expected = [0u8; 16];
    expected[..15].copy_from_slice(b"0123456789abcde");
    assert_eq!(long, expected);
    assert_eq!(long[15], 0);

    assert_eq!(pci_key(""), [0u8; 16]);
    assert_eq!(pci_key("0123456789abcde"), expected);
}

#[test]
fn node_ids_parse_after_prefix() {
    assert_eq!(parse_node_id("/dev/dri/renderD128", RENDER_NODE_PREFIX), Some(128));
    assert_eq!(parse_node_id("/dev/dri/card1", CARD_NODE_PREFIX), Some(1));
    assert_eq!(parse_node_id("/dev/dri/card+7", CARD_NODE_PREFIX), Some(7));
    assert_eq!(parse_node_id("/dev/dri/card4294967295", CARD_NODE_PREFIX), Some(4294967295));
    assert_eq!(parse_node_id("/dev/dri/card4294967296", CARD_NODE_PREFIX), None);
    assert_eq!(parse_node_id("/dev/dri/card", CARD_NODE_PREFIX), None);
    assert_eq!(parse_node_id("/dev/dri/card-1", CARD_NODE_PREFIX), None);
    assert_eq!(parse_node_id("/dev/dri/renderD128", CARD_NODE_PREFIX), None);
    assert_eq!(parse_node_id("/dev/dri/card0x", CARD_NODE_PREFIX), None);
}
