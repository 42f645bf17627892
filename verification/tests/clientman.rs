use sraft::raft::clientman::admit_address;

#[test]
fn unseen_address_is_skipped_and_not_recorded() {
    let mut seen: hashbrown::HashSet<String> = hashbrown::HashSet::new();
    assert!(!admit_address(&mut seen, &"10.0.0.1:50051".to_string()));
    assert!(seen.is_empty());
    // so, starting from nothing, no address is ever admitted
    assert!(!admit_address(&mut seen, &"10.0.0.1:50051".to_string()));
    assert!(seen.is_empty());
}

#[test]
fn seen_address_is_admitted() {
    let mut seen: hashbrown::HashSet<String> = hashbrown::HashSet::new();
    seen.insert("a:1".to_string());
    assert!(admit_address(&mut seen, &"a:1".to_string()));
    assert_eq!(seen.len(), 1);
    assert!(!admit_address(&mut seen, &"b:1".to_string()));
    assert_eq!(seen.len(), 1);
}
