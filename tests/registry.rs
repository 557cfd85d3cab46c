use nix_bindings_store::init::InitState;
use nix_bindings_store::registry::{OpenStep, Registry, Store, StoreKey};

#[test]
fn weak_ref() {
    let mut registry = Registry::new();
    let store = registry.register(StoreKey::new(None, &[]));
    let weak = store.weak_ref();
    let store2 = weak.upgrade(&mut registry).unwrap();
    assert_eq!(store2.connection(), store.connection());
}

#[test]
fn weak_ref_gone() {
    let mut registry = Registry::new();
    let weak = {
        // Opened outside the cache, so nothing else keeps it alive.
        let store = registry.register_uncached();
        let weak = store.weak_ref();
        assert!(registry.release(store));
        weak
    };
    assert!(weak.upgrade(&mut registry).is_none());
}

#[test]
fn open_twice_reuses_connection() {
    let mut registry = Registry::new();
    let params = [("store", "/tmp/s"), ("state", "/tmp/st")];
    let key = StoreKey::new(Some("local"), &params);
    assert!(registry.lookup(&key).is_none());
    let first = registry.register(key.duplicate());
    let second = registry.lookup(&StoreKey::new(Some("local"), &params)).unwrap();
    assert_eq!(first.connection(), second.connection());
    assert_eq!(registry.strong_count(first.connection()), 2);
}

#[test]
fn reopen_after_release_is_fresh() {
    let mut registry = Registry::new();
    let key = StoreKey::new(Some("dummy://"), &[]);
    let first = registry.register(key.duplicate());
    let id = first.connection();
    let weak = first.weak_ref();
    assert!(registry.release(first));
    assert!(registry.lookup(&key).is_none());
    let again = registry.register(key.duplicate());
    assert_ne!(again.connection(), id);
    // The old weak handle stays dead even though the key is cached again.
    assert!(weak.upgrade(&mut registry).is_none());
    assert_eq!(registry.lookup(&key).unwrap().connection(), again.connection());
}

#[test]
fn parameter_order_is_part_of_key() {
    let mut registry = Registry::new();
    let a = StoreKey::new(Some("local"), &[("store", "/s"), ("state", "/t")]);
    let b = StoreKey::new(Some("local"), &[("state", "/t"), ("store", "/s")]);
    assert!(!a.same_key(&b));
    let _held = registry.register(a);
    assert!(registry.lookup(&b).is_none());
    let none_url = StoreKey::new(None, &[("store", "/s"), ("state", "/t")]);
    assert!(registry.lookup(&none_url).is_none());
}

#[test]
fn clone_store_counts_and_release() {
    let mut registry = Registry::new();
    let s = registry.register(StoreKey::new(None, &[]));
    let c = registry.clone_store(&s);
    assert_eq!(c.connection(), s.connection());
    assert_eq!(c.context().code(), 0);
    assert_eq!(registry.strong_count(s.connection()), 2);
    let weak = s.weak_ref();
    assert!(!registry.release(s));
    let up = weak.upgrade(&mut registry).unwrap();
    assert!(!registry.release(up));
    assert!(registry.release(c));
    assert!(weak.upgrade(&mut registry).is_none());
}

#[test]
fn store_key_rejects_nul() {
    assert!(StoreKey::new(Some("local"), &[("store", "/s")]).check_c_strings().is_ok());
    assert!(StoreKey::new(Some("lo\0cal"), &[]).check_c_strings().is_err());
    assert!(StoreKey::new(None, &[("store", "/s\0")]).check_c_strings().is_err());
    assert!(StoreKey::new(None, &[("st\0ore", "/s")]).check_c_strings().is_err());
}

fn initialized() -> InitState {
    let mut init = InitState::new();
    init.record(None);
    init
}

#[test]
fn open_then_cached() {
    let init = initialized();
    let mut registry = Registry::new();
    let key = match Store::open(&mut registry, &init, Some("dummy://"), &[]).unwrap() {
        OpenStep::NeedsOpen(k) => k,
        OpenStep::Cached(_) => panic!("nothing is cached yet"),
    };
    assert!(key.same_key(&StoreKey::new(Some("dummy://"), &[])));
    let first = registry.register(key);
    match Store::open(&mut registry, &init, Some("dummy://"), &[]).unwrap() {
        OpenStep::Cached(second) => assert_eq!(second.connection(), first.connection()),
        OpenStep::NeedsOpen(_) => panic!("a live connection is cached"),
    }
}

#[test]
fn open_reports_init_failure() {
    let mut init = InitState::new();
    init.record(Some("cannot read nix.conf".to_string()));
    let mut registry = Registry::new();
    let e1 = Store::open(&mut registry, &init, None, &[]).err().unwrap().to_string();
    let e2 = Store::open_uncached(&init, None, &[]).err().unwrap().to_string();
    assert_eq!(e1, "nix_libstore_init error: cannot read nix.conf");
    assert_eq!(e1, e2);
}

#[test]
fn open_rejects_nul_before_opening() {
    let init = initialized();
    let mut registry = Registry::new();
    assert!(Store::open(&mut registry, &init, Some("local"), &[("store", "/s\0x")]).is_err());
    assert!(Store::open_uncached(&init, Some("lo\0cal"), &[]).is_err());
    let key = Store::open_uncached(&init, Some("local"), &[("store", "/s")]).unwrap();
    assert!(key.same_key(&StoreKey::new(Some("local"), &[("store", "/s")])));
}

#[test]
fn each_handle_has_its_own_context() {
    let mut registry = Registry::new();
    let mut a = registry.register(StoreKey::new(None, &[]));
    let b = registry.clone_store(&a);
    a.record_status(-1, "not in the store".to_string());
    assert_eq!(a.context().code(), -1);
    assert_eq!(b.context().code(), 0);
    assert_eq!(a.check(()).err().unwrap().message(), "not in the store");
    assert_eq!(a.context().code(), 0);
    assert_eq!(a.check(5u8).unwrap(), 5);
}
