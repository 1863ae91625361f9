use txgraph::identity::{addr_to_uuid, h160_to_uuid};
use txgraph::ingest::{load_step, plan_transaction, resume_point, LoadStep};

const CHECKSUMMED: &str = "0x5aAeb6053F3E94C9b9A09f33669435E7Ef1BeAed";

fn bytes_of(addr: &str) -> Vec<u8> {
    let hex = addr.trim_start_matches("0x");
    (0..hex.len()).step_by(2).map(|i| u8::from_str_radix(&hex[i..i + 2], 16).unwrap()).collect()
}

#[test]
fn plan_labels_vertices_with_checksummed_addresses() {
    let from = bytes_of(CHECKSUMMED);
    let to = bytes_of("0xfb6916095ca1df60bb79ce92ce3ea74c37c5d359");
    let plan = plan_transaction(&from, &Some(to.clone()), &None, &[0xab, 0x01, 0xff]).unwrap();
    assert_eq!(plan.from_label, CHECKSUMMED);
    assert_eq!(plan.to_label, "0xfB6916095ca1df60bB79Ce92cE3Ea74c37c5d359");
    assert_eq!(plan.label, "ab01ff");
    assert!(!plan.is_create);
    assert_eq!(plan.from_id, h160_to_uuid(&from));
    assert_eq!(plan.to_id, h160_to_uuid(&to));
    assert_eq!(addr_to_uuid(&plan.from_label), Ok(plan.from_id));
    assert_eq!(addr_to_uuid(&plan.to_label), Ok(plan.to_id));
}

#[test]
fn plan_for_contract_creation_uses_created_address() {
    let from = bytes_of(CHECKSUMMED);
    let created = bytes_of("0xdbf03b407c01e7cd3cbea99509d93f8dddc8c6fb");
    let plan = plan_transaction(&from, &None, &Some(created.clone()), &[0x00]).unwrap();
    assert_eq!(plan.to_id, h160_to_uuid(&created));
    assert_eq!(plan.to_label, "0xdbF03B407c01E7cD3CBea99509d93f8DDDC8C6FB");
    assert_eq!(plan.label, "00");
    assert!(plan.is_create);
}

#[test]
fn plan_without_recipient_is_none() {
    let from = bytes_of(CHECKSUMMED);
    assert!(plan_transaction(&from, &None, &None, &[1, 2]).is_none());
}

#[test]
fn loader_resumes_and_batches() {
    assert_eq!(resume_point(0, 42), 42);
    assert_eq!(resume_point(7, 42), 7);
    assert_eq!(load_step(3, 5, 4), LoadStep::Skip);
    assert_eq!(load_step(5, 5, 4), LoadStep::Add);
    assert_eq!(load_step(7, 5, 4), LoadStep::AddAndFlush);
    assert_eq!(load_step(0, 0, 1), LoadStep::AddAndFlush);
}
