use peer_registry::AddressEntry;
use peer_registry::BotInstance;
use peer_registry::Registry;
use peer_registry::registry::pick_address;

const LOCALHOST: u128 = 0x7f000001;

fn instance(domain: &str, port: u16) -> BotInstance {
    BotInstance { domain: domain.to_string(), port }
}

#[test]
fn insert_and_get() {
    let mut reg = Registry::create(5, 300_000);
    let bot_instance = instance("instance.kiu.party", 41234);
    assert!(reg.insert(LOCALHOST, bot_instance, 0));
    let (vec, dirty) = reg.get(LOCALHOST, 0).unwrap();
    assert_eq!(1, vec.len());
    assert!(!dirty);
    assert_eq!("instance.kiu.party".to_string(), vec[0].domain);
    assert_eq!(41234, vec[0].port);
    assert_eq!(0, vec[0].updated);
}

#[test]
fn test_ttl() {
    let mut reg = Registry::create(5, 4_000);
    let bot_instance_1 = instance("instance.kiu.party", 41234);
    assert!(reg.insert(LOCALHOST, bot_instance_1, 0));
    let bot_instance_2 = instance("instance.kiu.party", 41235);
    assert!(reg.insert(LOCALHOST, bot_instance_2, 2_000));
    let (vec, dirty) = reg.get(LOCALHOST, 4_000).unwrap();
    assert_eq!(1, vec.len());
    assert_eq!(41235, vec[0].port);
    assert!(dirty);
    reg.clean_key(LOCALHOST, 4_000);
    let (vec, dirty) = reg.get(LOCALHOST, 4_000).unwrap();
    assert_eq!(1, vec.len());
    assert!(!dirty);
    reg.clean_key(LOCALHOST, 6_000);
    assert_eq!(None, reg.get(LOCALHOST, 6_000));
}

#[test]
fn capacity_bounds_keys() {
    let mut reg = Registry::create(2, 1_000);
    assert!(reg.insert(1, instance("a.example", 1), 0));
    assert!(reg.insert(2, instance("b.example", 2), 0));
    // Full, nothing expired: a third key is refused and nothing changes.
    assert!(!reg.insert(3, instance("c.example", 3), 500));
    assert!(reg.get(3, 500).is_none());
    assert_eq!(1, reg.get(1, 500).unwrap().0.len());
    assert_eq!(1, reg.get(2, 500).unwrap().0.len());
    // An announcement under a stored key is also refused while full.
    assert!(!reg.insert(1, instance("a.example", 9), 500));
    assert_eq!(1, reg.get(1, 500).unwrap().0.len());
    // Once both keys expire, the cleanup pass frees the slots.
    assert!(reg.insert(3, instance("c.example", 3), 1_500));
    assert!(reg.get(1, 1_500).is_none());
    assert!(reg.get(2, 1_500).is_none());
    assert_eq!(1, reg.get(3, 1_500).unwrap().0.len());
}

#[test]
fn repeated_announcement_updates_in_place() {
    let mut reg = Registry::create(5, 10_000);
    assert!(reg.insert(LOCALHOST, instance("instance.kiu.party", 41234), 0));
    assert!(reg.insert(LOCALHOST, instance("instance.kiu.party", 41234), 5));
    let (vec, dirty) = reg.get(LOCALHOST, 5).unwrap();
    assert_eq!(1, vec.len());
    assert_eq!(5, vec[0].updated);
    assert!(!dirty);
}

#[test]
fn distinct_ports_coexist() {
    let mut reg = Registry::create(5, 10_000);
    assert!(reg.insert(LOCALHOST, instance("instance.kiu.party", 41234), 0));
    assert!(reg.insert(LOCALHOST, instance("instance.kiu.party", 41235), 1));
    let (vec, _) = reg.get(LOCALHOST, 1).unwrap();
    assert_eq!(2, vec.len());
    assert_eq!(41234, vec[0].port);
    assert_eq!(41235, vec[1].port);
}

#[test]
fn refresh_keeps_position() {
    let mut reg = Registry::create(5, 10_000);
    assert!(reg.insert(LOCALHOST, instance("x.example", 1), 0));
    assert!(reg.insert(LOCALHOST, instance("x.example", 2), 1));
    assert!(reg.insert(LOCALHOST, instance("x.example", 1), 2));
    let (vec, _) = reg.get(LOCALHOST, 2).unwrap();
    assert_eq!(2, vec.len());
    assert_eq!(1, vec[0].port);
    assert_eq!(2, vec[0].updated);
    assert_eq!(2, vec[1].port);
}

#[test]
fn get_reports_dirty_only_with_stale_entries() {
    let mut reg = Registry::create(5, 1_000);
    assert!(reg.insert(LOCALHOST, instance("a.example", 1), 0));
    assert!(reg.insert(LOCALHOST, instance("a.example", 2), 500));
    let (vec, dirty) = reg.get(LOCALHOST, 900).unwrap();
    assert_eq!(2, vec.len());
    assert!(!dirty);
    let (vec, dirty) = reg.get(LOCALHOST, 1_200).unwrap();
    assert_eq!(1, vec.len());
    assert_eq!(2, vec[0].port);
    assert!(dirty);
}

#[test]
fn get_never_mutates() {
    let mut reg = Registry::create(5, 1_000);
    assert!(reg.insert(LOCALHOST, instance("a.example", 1), 0));
    assert!(reg.insert(LOCALHOST, instance("a.example", 2), 500));
    let (_, dirty) = reg.get(LOCALHOST, 1_200).unwrap();
    assert!(dirty);
    // The stale entry is still stored: a second read is dirty again.
    let (vec, dirty) = reg.get(LOCALHOST, 1_200).unwrap();
    assert!(dirty);
    assert_eq!(1, vec.len());
}

#[test]
fn clean_key_removes_emptied_key() {
    let mut reg = Registry::create(5, 1_000);
    assert!(reg.insert(LOCALHOST, instance("a.example", 1), 0));
    reg.clean_key(LOCALHOST, 2_000);
    assert_eq!(None, reg.get(LOCALHOST, 2_000));
    // Cleaning again, or cleaning a key never stored, is a no-op.
    reg.clean_key(LOCALHOST, 2_000);
    reg.clean_key(42, 2_000);
    assert_eq!(None, reg.get(LOCALHOST, 2_000));
}

#[test]
fn clean_removes_only_wholly_stale_keys() {
    let mut reg = Registry::create(5, 1_000);
    assert!(reg.insert(1, instance("a.example", 1), 0));
    assert!(reg.insert(2, instance("b.example", 1), 0));
    assert!(reg.insert(2, instance("b.example", 2), 800));
    reg.clean(1_500);
    // The wholly-stale key is gone.
    assert_eq!(None, reg.get(1, 1_500));
    // The mixed key survives the global sweep unpruned: its stale entry is
    // still stored, so a read filters it out and reports dirty.
    let (vec, dirty) = reg.get(2, 1_500).unwrap();
    assert_eq!(1, vec.len());
    assert_eq!(2, vec[0].port);
    assert!(dirty);
    // The key-scoped cleanup, by contrast, prunes the stale entry.
    reg.clean_key(2, 1_500);
    let (vec, dirty) = reg.get(2, 1_500).unwrap();
    assert_eq!(1, vec.len());
    assert_eq!(2, vec[0].port);
    assert!(!dirty);
}

#[test]
fn returned_entries_are_copies() {
    let mut reg = Registry::create(5, 1_000);
    assert!(reg.insert(LOCALHOST, instance("a.example", 1), 0));
    let (mut vec, _) = reg.get(LOCALHOST, 0).unwrap();
    vec[0].port = 9999;
    vec.clear();
    let (vec, _) = reg.get(LOCALHOST, 0).unwrap();
    assert_eq!(1, vec.len());
    assert_eq!(1, vec[0].port);
}

#[test]
fn entry_validity_window() {
    let e = AddressEntry::new_from_instance(&instance("a.example", 1), 10);
    assert_eq!("a.example", e.domain);
    assert_eq!(1, e.port);
    assert_eq!(10, e.updated);
    // A timestamp in the future is never valid.
    assert!(!e.is_entry_valid(9, 100));
    // Valid from its own time until the time-to-live has fully passed.
    assert!(e.is_entry_valid(10, 1));
    assert!(e.is_entry_valid(109, 100));
    assert!(!e.is_entry_valid(110, 100));
    assert!(!e.is_entry_valid(11, 1));
}

#[test]
fn entry_identity_ignores_timestamp() {
    let a = AddressEntry::new_from_instance(&instance("a.example", 1), 0);
    let b = AddressEntry::new_from_instance(&instance("a.example", 1), 77);
    let c = AddressEntry::new_from_instance(&instance("a.example", 2), 0);
    let d = AddressEntry::new_from_instance(&instance("d.example", 1), 0);
    assert!(a == b);
    assert!(a != c);
    assert!(a != d);
    assert!(a == instance("a.example", 1));
    assert!(a != instance("a.example", 2));
    assert!(a != instance("d.example", 1));
}

#[test]
fn pick_address_prefers_forwarded() {
    assert_eq!(Some(7), pick_address(Some(7), Some(9)));
    assert_eq!(Some(7), pick_address(Some(7), None));
    assert_eq!(Some(9), pick_address(None, Some(9)));
    assert_eq!(None, pick_address(None, None));
}
