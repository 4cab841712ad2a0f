use pywui::correlation::PendingTable;
use pywui::dispatch::DispatchTable;
use pywui::registry::{Registry, RegistryError};

#[test]
fn registry_register_find_remove() {
    let mut r = Registry::new();
    assert_eq!(r.register(0, "main".to_string()), Ok(()));
    assert_eq!(r.register(1, "main".to_string()), Err(RegistryError::DuplicateLabel));
    assert_eq!(r.register(1, "other".to_string()), Ok(()));
    assert_eq!(r.count(), 2);
    assert_eq!(r.find("main").map(|e| e.id), Some(0));
    let removed = r.remove("main").unwrap();
    assert_eq!((removed.id, removed.label.as_str()), (0, "main"));
    assert!(r.find("main").is_none());
    assert_eq!(r.count(), 1);
    assert!(r.remove("main").is_none());
    assert_eq!(r.register(2, "main".to_string()), Ok(()));
}

#[test]
fn dispatch_table_last_write_wins() {
    let mut t = DispatchTable::new();
    assert_eq!(t.command("a"), None);
    t.register_command("a".to_string(), 1);
    t.register_listener("a".to_string(), 5);
    t.register_command("a".to_string(), 2);
    assert_eq!(t.command("a"), Some(2));
    assert_eq!(t.listener("a"), Some(5));
    assert_eq!(t.listener("b"), None);
}

#[test]
fn pending_take_and_discard() {
    let mut p = PendingTable::new();
    p.insert("r1".to_string(), 1);
    p.insert("r2".to_string(), 2);
    p.insert("r3".to_string(), 1);
    assert_eq!(p.take("r2"), Some(2));
    assert_eq!(p.take("r2"), None);
    p.discard_window(1);
    assert_eq!(p.take("r1"), None);
    assert_eq!(p.take("r3"), None);
    assert_eq!(p.position("r1"), None);
}
