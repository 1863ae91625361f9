use txgraph::identity::{addr_to_uuid, seed_ids, str_to_uuid, vertex_id, IdError, VType};
use uuid::Uuid;

const ADDR: &str = "0x52908400098527886E0F7030069857D2E4169EE7";

fn expected_id(bytes: &[u8]) -> u128 {
    Uuid::new_v5(&Uuid::NAMESPACE_OID, bytes).as_u128()
}

fn decode(hex: &str) -> Vec<u8> {
    (0..hex.len())
        .step_by(2)
        .map(|i| u8::from_str_radix(&hex[i..i + 2], 16).unwrap())
        .collect()
}

#[test]
fn address_id_hashes_the_twenty_bytes() {
    let bytes = decode("52908400098527886E0F7030069857D2E4169EE7");
    assert_eq!(bytes.len(), 20);
    assert_eq!(addr_to_uuid(ADDR), Ok(expected_id(&bytes)));
    assert_ne!(addr_to_uuid(ADDR), Ok(expected_id(ADDR.as_bytes())));
}

#[test]
fn address_id_ignores_case_and_prefix() {
    let lower = "0x52908400098527886e0f7030069857d2e4169ee7";
    let bare = "52908400098527886E0F7030069857D2E4169EE7";
    assert_eq!(addr_to_uuid(ADDR), addr_to_uuid(lower));
    assert_eq!(addr_to_uuid(ADDR), addr_to_uuid(bare));
}

#[test]
fn address_id_is_deterministic() {
    assert_eq!(addr_to_uuid(ADDR), addr_to_uuid(ADDR));
    assert_eq!(str_to_uuid("alice"), str_to_uuid("alice"));
}

#[test]
fn malformed_addresses_are_rejected() {
    assert_eq!(addr_to_uuid(""), Err(IdError::InvalidAddress));
    assert_eq!(addr_to_uuid("0x"), Err(IdError::InvalidAddress));
    assert_eq!(addr_to_uuid("0x52908400098527886E0F7030069857D2E4169EE"), Err(IdError::InvalidAddress));
    assert_eq!(addr_to_uuid("0x52908400098527886E0F7030069857D2E4169EE70"), Err(IdError::InvalidAddress));
    assert_eq!(addr_to_uuid("0X52908400098527886E0F7030069857D2E4169EE7"), Err(IdError::InvalidAddress));
    assert_eq!(addr_to_uuid("0x52908400098527886E0F7030069857D2E4169EEG"), Err(IdError::InvalidAddress));
}

#[test]
fn distinct_addresses_get_distinct_ids() {
    let mut ids = std::collections::HashSet::new();
    for i in 0..2000u32 {
        let addr = format!("0x{:040x}", (i as u128) * 7919 + 1);
        let id = addr_to_uuid(&addr).unwrap();
        assert_eq!(addr_to_uuid(&addr).unwrap(), id);
        assert!(ids.insert(id));
    }
    assert_eq!(ids.len(), 2000);
}

#[test]
fn label_id_hashes_the_label_bytes() {
    assert_eq!(str_to_uuid("alice"), expected_id(b"alice"));
    assert_ne!(str_to_uuid("alice"), str_to_uuid("bob"));
    assert_eq!(vertex_id("alice", VType::String), Ok(expected_id(b"alice")));
    assert_eq!(vertex_id("alice", VType::ETHAddress), Err(IdError::InvalidAddress));
}

#[test]
fn seeds_are_mapped_one_by_one() {
    let seeds = vec![ADDR.to_string(), "nope".to_string(), ADDR.to_lowercase()];
    let ids = seed_ids(&seeds, VType::ETHAddress);
    assert_eq!(ids.len(), 3);
    assert_eq!(ids[0], addr_to_uuid(ADDR));
    assert_eq!(ids[1], Err(IdError::InvalidAddress));
    assert_eq!(ids[2], ids[0]);
}
