use std::collections::{BTreeMap, BTreeSet};

use bytes::Bytes;
use std::str::FromStr;

use harmonia_store_core::derivation::{Derivation as HarmoniaDerivation, DerivationOutput};
use harmonia_store_core::derived_path::OutputName;
use harmonia_store_core::store_path::StorePath as HarmoniaPath;
use nix_bindings_store::derivation::{harmonia_derivation_to_nix, Derivation};
use nix_bindings_store::registry::{Registry, Store};

fn open_store() -> Store {
    Registry::new().register_uncached()
}

fn current_system() -> String {
    "x86_64-linux".to_string()
}

fn create_harmonia_derivation() -> HarmoniaDerivation {
    let system = current_system();
    let out_path = "8bs8sd27bzzy6w94fznjd2j8ldmdg7x6-myname";

    let env = BTreeMap::from([
        ("builder".into(), "/bin/sh".into()),
        ("name".into(), "myname".into()),
        ("out".into(), format!("/{out_path}").into()),
        ("system".into(), system.clone().into()),
    ]);
    let mut outputs = BTreeMap::new();
    outputs.insert(
        OutputName::from_str("out").unwrap(),
        DerivationOutput::InputAddressed(HarmoniaPath::from_base_path(out_path).unwrap()),
    );

    HarmoniaDerivation {
        args: vec!["-c".into(), "echo $name foo > $out".into()],
        builder: "/bin/sh".into(),
        env,
        inputs: BTreeSet::new(),
        name: b"myname".as_slice().try_into().unwrap(),
        outputs,
        platform: system.into(),
        structured_attrs: None,
    }
}

fn create_test_derivation() -> HarmoniaDerivation {
    let platform = current_system();
    let out_path = "/1rz4g4znpzjwh1xymhjpm42vipw92pr73vdgl6xs1hycac8kf2n9";

    let mut env = BTreeMap::new();
    env.insert(Bytes::from("builder"), Bytes::from("/bin/sh"));
    env.insert(Bytes::from("name"), Bytes::from("myname"));
    env.insert(Bytes::from("out"), Bytes::from(out_path));
    env.insert(Bytes::from("system"), Bytes::from(platform.clone()));

    let mut outputs = BTreeMap::new();
    outputs.insert(
        "out".parse::<OutputName>().unwrap(),
        DerivationOutput::InputAddressed("8bs8sd27bzzy6w94fznjd2j8ldmdg7x6-myname".parse().unwrap()),
    );

    HarmoniaDerivation {
        args: vec![Bytes::from("-c"), Bytes::from("echo $name foo > $out")],
        builder: Bytes::from("/bin/sh"),
        env,
        inputs: BTreeSet::new(),
        name: "myname".parse().unwrap(),
        outputs,
        platform: Bytes::from(platform),
        structured_attrs: None,
    }
}

fn create_test_derivation_json() -> String {
    let system = current_system();
    format!(
        r#"{{
            "args": ["-c", "echo $name foo > $out"],
            "builder": "/bin/sh",
            "env": {{
                "builder": "/bin/sh",
                "name": "myname",
                "out": "/1rz4g4znpzjwh1xymhjpm42vipw92pr73vdgl6xs1hycac8kf2n9",
                "system": "{}"
            }},
            "inputs": {{
                "drvs": {{}},
                "srcs": []
            }},
            "name": "myname",
            "outputs": {{
                "out": {{
                "hashAlgo": "sha256",
                "method": "nar"
                }}
            }},
            "system": "{}",
            "version": 4
        }}"#,
        system, system
    )
}

#[test]
fn harmonia_derivation_round_trip_harmonia() {
    let store = open_store();
    let harmonia_drv = create_harmonia_derivation();

    let nix_drv = Derivation::from_harmonia(&store, &harmonia_drv).unwrap();

    let harmonia_round_trip: HarmoniaDerivation = nix_drv.to_harmonia().unwrap();

    assert_eq!(harmonia_drv, harmonia_round_trip);
}

#[test]
fn harmonia_derivation_clone() {
    let store = open_store();
    let harmonia_drv = create_harmonia_derivation();

    let derivation = Derivation::from_harmonia(&store, &harmonia_drv).unwrap();
    let cloned_derivation = derivation.clone();

    let original_harmonia = derivation.to_harmonia().unwrap();
    let cloned_harmonia = cloned_derivation.to_harmonia().unwrap();

    assert_eq!(original_harmonia, cloned_harmonia);
}

#[test]
fn lib_derivation_round_trip_harmonia() {
    let store = open_store();
    let harmonia_drv = create_test_derivation();

    let nix_drv = harmonia_derivation_to_nix(&store, &harmonia_drv).unwrap();

    let harmonia_round_trip: HarmoniaDerivation = nix_drv.to_harmonia().unwrap();

    assert_eq!(harmonia_drv, harmonia_round_trip);
}

#[test]
fn lib_derivation_clone() {
    let store = open_store();
    let harmonia_drv = create_test_derivation();

    let derivation = harmonia_derivation_to_nix(&store, &harmonia_drv).unwrap();
    let cloned_derivation = derivation.clone();

    let original_harmonia = derivation.to_harmonia().unwrap();
    let cloned_harmonia = cloned_derivation.to_harmonia().unwrap();

    assert_eq!(original_harmonia, cloned_harmonia);
}

#[test]
fn derivation_from_json() {
    let store = open_store();
    let drv_json = create_test_derivation_json();
    let drv = store.derivation_from_json(&drv_json).unwrap();
    // If we got here, parsing succeeded
    drop(drv);
}

#[test]
fn derivation_from_invalid_json() {
    let store = open_store();
    let result = store.derivation_from_json("not valid json");
    assert!(result.is_err());
}

#[test]
fn derivation_json_round_trip() {
    let store = open_store();
    // Serialized, then parsed from exactly that text: the same derivation.
    let drv = Derivation::from_harmonia(&store, &create_harmonia_derivation()).unwrap();
    let json = drv.to_json().unwrap();
    let parsed = store.derivation_from_json(&json).unwrap();
    assert_eq!(parsed.to_harmonia().unwrap(), drv.to_harmonia().unwrap());
    assert_eq!(parsed.to_json().unwrap(), json);
    assert!(json.contains("myname"));
}

#[test]
fn derivation_from_json_keeps_text() {
    let store = open_store();
    let drv_json = create_test_derivation_json();
    let drv = store.derivation_from_json(&drv_json).unwrap();
    assert_eq!(drv.to_json().unwrap(), drv_json);
    let again = store.derivation_from_json(&drv.to_json().unwrap()).unwrap();
    assert_eq!(again.to_json().unwrap(), drv_json);
}

#[test]
fn derivation_from_json_rejects_nul() {
    let store = open_store();
    let drv_json = create_test_derivation_json().replace("myname", "my\0name");
    let err = store.derivation_from_json(&drv_json).err().unwrap();
    assert!(err.to_string().contains("NUL"));
}
