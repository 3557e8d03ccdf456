use snake_core::registry::{Registry, RegistryError};

#[test]
fn create_chain_assigns_ids_in_order() {
    let mut reg = Registry::new();
    assert_eq!(reg.create_chain(10), Ok(0));
    assert_eq!(reg.create_chain(20), Ok(1));
    assert_eq!(reg.chain_count(), 2);
    assert_eq!(reg.segment_at(0, 0), Some(10));
    assert_eq!(reg.segment_at(1, 0), Some(20));
}

#[test]
fn create_chain_refuses_registered_head() {
    let mut reg = Registry::new();
    assert_eq!(reg.create_chain(7), Ok(0));
    assert_eq!(reg.create_chain(7), Err(RegistryError::DuplicateSegment));
    assert_eq!(reg.chain_count(), 1);
}

#[test]
fn append_assigns_pre_append_count() {
    let mut reg = Registry::new();
    reg.create_chain(0).unwrap();
    assert_eq!(reg.append(0, 1), Ok(1));
    assert_eq!(reg.append(0, 2), Ok(2));
    assert_eq!(reg.append(0, 3), Ok(3));
    assert_eq!(reg.chain_len(0), Some(4));
}

#[test]
fn append_refuses_unknown_chain() {
    let mut reg = Registry::new();
    reg.create_chain(0).unwrap();
    assert_eq!(reg.append(1, 5), Err(RegistryError::NoSuchChain));
}

#[test]
fn append_refuses_duplicate_segment() {
    let mut reg = Registry::new();
    reg.create_chain(0).unwrap();
    reg.create_chain(9).unwrap();
    reg.append(0, 1).unwrap();
    // already a body segment of chain 0
    assert_eq!(reg.append(1, 1), Err(RegistryError::DuplicateSegment));
    // already the head of chain 0
    assert_eq!(reg.append(1, 0), Err(RegistryError::DuplicateSegment));
    assert_eq!(reg.chain_len(1), Some(1));
}

#[test]
fn indices_are_contiguous_from_zero() {
    let mut reg = Registry::new();
    reg.create_chain(100).unwrap();
    reg.append(0, 101).unwrap();
    reg.append(0, 102).unwrap();
    // every index below the count is present, everything beyond is absent
    assert_eq!(reg.segment_at(0, 0), Some(100));
    assert_eq!(reg.segment_at(0, 1), Some(101));
    assert_eq!(reg.segment_at(0, 2), Some(102));
    assert_eq!(reg.segment_at(0, 3), None);
    assert_eq!(reg.segment_at(0, 4), None);
}

#[test]
fn predecessor_is_previous_index() {
    let mut reg = Registry::new();
    reg.create_chain(100).unwrap();
    reg.append(0, 101).unwrap();
    reg.append(0, 102).unwrap();
    assert_eq!(reg.predecessor_of(0, 0), None);
    assert_eq!(reg.predecessor_of(0, 1), Some(100));
    assert_eq!(reg.predecessor_of(0, 2), Some(101));
    // the predecessor lookup only reads index - 1, whether or not the
    // index itself is populated yet
    assert_eq!(reg.predecessor_of(0, 3), Some(102));
    assert_eq!(reg.predecessor_of(0, 4), None);
}

#[test]
fn is_head_only_for_index_zero() {
    let mut reg = Registry::new();
    reg.create_chain(100).unwrap();
    reg.append(0, 101).unwrap();
    assert!(reg.is_head(100));
    assert!(!reg.is_head(101));
    assert!(!reg.is_head(55));
}

#[test]
fn is_registered_sees_every_entry() {
    let mut reg = Registry::new();
    reg.create_chain(4).unwrap();
    reg.append(0, 8).unwrap();
    assert!(reg.is_registered(4));
    assert!(reg.is_registered(8));
    assert!(!reg.is_registered(2));
}
