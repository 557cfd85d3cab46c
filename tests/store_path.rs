use harmonia_store_core::store_path::StorePath as HarmoniaPath;
use nix_bindings_store::path::{StorePath, STORE_PATH_HASH_SIZE};

const HARMONIA_PATH: &str = "g1w7hy3qg1w7hy3qg1w7hy3qg1w7hy3q-foo.drv";

#[test]
fn store_path_round_trip() {
    let original_hash: [u8; STORE_PATH_HASH_SIZE] = [
        0x01, 0x23, 0x45, 0x67, 0x89, 0xab, 0xcd, 0xef, 0x00, 0x11, 0x22, 0x33, 0x44, 0x55, 0x66,
        0x77, 0xde, 0xad, 0xbe, 0xef,
    ];
    let original_name = "foo.drv";

    let store_path = StorePath::from_parts(&original_hash, original_name).unwrap();

    // Round trip gets back what we started with
    assert_eq!(store_path.hash().unwrap(), original_hash);
    assert_eq!(store_path.name().unwrap(), original_name);
}

#[test]
fn store_path_clone() {
    let harmonia_path: HarmoniaPath = HARMONIA_PATH.parse().unwrap();

    let nix_path = StorePath::from_harmonia(&harmonia_path).unwrap();
    let cloned_path = nix_path.clone();

    // Verify both paths have the same name and hash
    assert_eq!(nix_path.name().unwrap(), cloned_path.name().unwrap());
    assert_eq!(nix_path.hash().unwrap(), cloned_path.hash().unwrap());
}

#[test]
fn lib_store_path_round_trip_harmonia() {
    let harmonia_path: HarmoniaPath = HARMONIA_PATH.parse().unwrap();

    let nix_path = StorePath::from_harmonia(&harmonia_path).unwrap();

    let harmonia_round_trip: HarmoniaPath = nix_path.to_harmonia().unwrap();

    assert_eq!(harmonia_path, harmonia_round_trip);
}

#[test]
fn harmonia_store_path_round_trip_harmonia() {
    let harmonia_path: HarmoniaPath = HARMONIA_PATH.parse().unwrap();

    let nix_path = StorePath::from_harmonia(&harmonia_path).unwrap();

    let harmonia_round_trip: HarmoniaPath = nix_path.to_harmonia().unwrap();

    assert_eq!(harmonia_path, harmonia_round_trip);
}

#[test]
fn store_path_harmonia_clone() {
    let harmonia_path: HarmoniaPath = HARMONIA_PATH.parse().unwrap();

    let nix_path = StorePath::from_harmonia(&harmonia_path).unwrap();
    let cloned_path = nix_path.clone();

    assert_eq!(nix_path.name().unwrap(), cloned_path.name().unwrap());
    assert_eq!(nix_path.hash().unwrap(), cloned_path.hash().unwrap());
}

#[test]
fn from_harmonia_keeps_name_and_hash() {
    let harmonia_path: HarmoniaPath = HARMONIA_PATH.parse().unwrap();
    let nix_path = StorePath::from_harmonia(&harmonia_path).unwrap();
    assert_eq!(nix_path.name().unwrap(), "foo.drv");
    let expected: &[u8; STORE_PATH_HASH_SIZE] = harmonia_path.hash().as_ref();
    assert_eq!(&nix_path.hash().unwrap(), expected);
    assert_ne!(nix_path.hash().unwrap(), [0u8; STORE_PATH_HASH_SIZE]);
}

#[test]
fn to_harmonia_uses_own_parts() {
    let hash = [7u8; STORE_PATH_HASH_SIZE];
    let p = StorePath::from_parts(&hash, "hello-2.12").unwrap();
    let h = p.to_harmonia().unwrap();
    assert_eq!(AsRef::<str>::as_ref(h.name()), "hello-2.12");
    let got: &[u8; STORE_PATH_HASH_SIZE] = h.hash().as_ref();
    assert_eq!(got, &hash);
}

#[test]
fn from_parts_round_trip_various_names() {
    let hash = [0xffu8; STORE_PATH_HASH_SIZE];
    for name in ["a", "bash-interactive-5.2p26", "x+y_z?=w.", "A0-._+?="] {
        let p = StorePath::from_parts(&hash, name).unwrap();
        assert_eq!(p.name().unwrap(), name);
        assert_eq!(p.hash().unwrap(), hash);
    }
    let longest = "n".repeat(211);
    let p = StorePath::from_parts(&hash, &longest).unwrap();
    assert_eq!(p.name().unwrap(), longest);
}

#[test]
fn from_parts_rejects_invalid_names() {
    let hash = [1u8; STORE_PATH_HASH_SIZE];
    assert!(StorePath::from_parts(&hash, "").is_err());
    assert!(StorePath::from_parts(&hash, "has space").is_err());
    assert!(StorePath::from_parts(&hash, "slash/inside").is_err());
    assert!(StorePath::from_parts(&hash, "caf\u{e9}").is_err());
    assert!(StorePath::from_parts(&hash, &"n".repeat(212)).is_err());
    let err = StorePath::from_parts(&hash, "bad name").err().unwrap();
    assert!(err.to_string().contains("bad name"));
}
