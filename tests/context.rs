use nix_bindings_store::context::{check_c_string, Context, Error, STATUS_OK};
use nix_bindings_store::init::InitState;

#[test]
fn check_passes_value_on_success() {
    let mut ctx = Context::new();
    assert_eq!(ctx.check(42u32).unwrap(), 42);
    assert_eq!(ctx.code(), STATUS_OK);
}

#[test]
fn check_turns_failure_into_error_and_clears() {
    let mut ctx = Context::new();
    ctx.set_err(-4, "path 'bash-interactive-5.2p26' is not in the Nix store".to_string());
    let err = ctx.check(7u32).err().unwrap();
    assert!(err.to_string().contains("bash-interactive-5.2p26"));
    assert_eq!(err.message(), "path 'bash-interactive-5.2p26' is not in the Nix store");
    assert_eq!(ctx.code(), STATUS_OK);
    assert_eq!(ctx.check("next").unwrap(), "next");
}

#[test]
fn error_messages() {
    assert_eq!(Error::msg("boom".to_string()).to_string(), "boom");
    assert_eq!(Error::with_detail("a: ", "b").message(), "a: b");
    assert_eq!(Error::new("x").message(), "x");
}

#[test]
fn c_string_check() {
    assert!(check_c_string("dummy://").is_ok());
    assert!(check_c_string("").is_ok());
    assert!(check_c_string("a\0b").is_err());
}

#[test]
fn init_success_settles() {
    let mut init = InitState::new();
    assert!(init.needs_attempt());
    init.record(None);
    assert!(!init.needs_attempt());
    assert!(init.outcome().is_ok());
    init.record(Some("late failure".to_string()));
    assert!(init.outcome().is_ok());
}

#[test]
fn init_failure_repeats() {
    let mut init = InitState::new();
    init.record(Some("no store config".to_string()));
    let first = init.outcome().err().unwrap().to_string();
    init.record(None);
    let second = init.outcome().err().unwrap().to_string();
    assert_eq!(first, second);
    assert_eq!(first, "nix_libstore_init error: no store config");
}
