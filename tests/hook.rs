use memors::hook::{Hook, HookError, HookState};
use memors::module::Module;
use memors::pattern::ida;

fn image() -> Vec<u8> {
    vec![0x90, 0x90, 0x48, 0x8B, 0x05, 0x11, 0x22, 0xC3]
}

fn new_hook() -> Hook {
    Hook::new(ida("48 8B ?? 11"), "Msg".to_string(), 0xDEAD)
}

fn module() -> Module {
    Module::from_parts("tier0.dll".to_string(), 1, 0x4000, 8).unwrap()
}

#[test]
fn new_hook_is_uninstalled() {
    let h = new_hook();
    assert_eq!(h.state(), HookState::Uninstalled);
    assert_eq!(h.target(), None);
    assert_eq!(h.original(), None);
    assert_eq!(h.detour(), 0xDEAD);
    assert_eq!(h.name(), "Msg");
    assert_eq!(h.signature().bytes, vec![0x48, 0x8B, 0, 0x11]);
}

#[test]
fn switching_before_install_fails_not_installed() {
    let mut h = new_hook();
    assert_eq!(h.switch_target(), Err(HookError::NotInstalled));
    assert_eq!(h.enable(Ok(())), Err(HookError::NotInstalled));
    assert_eq!(h.disable(Ok(())), Err(HookError::NotInstalled));
    assert_eq!(h.state(), HookState::Uninstalled);
    assert_eq!(h.target(), None);
}

#[test]
fn locate_finds_target_address() {
    let h = new_hook();
    assert_eq!(h.locate(&module(), &image()), Ok(0x4002));
}

#[test]
fn locate_reports_missing_signature() {
    let h = new_hook();
    assert_eq!(h.locate(&module(), &[0u8; 8]), Err(HookError::SignatureNotFound));
}

#[test]
fn install_then_switch_in_any_order() {
    let mut h = new_hook();
    let t = h.locate(&module(), &image()).unwrap();
    assert_eq!(h.install(t, Ok(0x7000)), Ok(()));
    assert_eq!(h.state(), HookState::Installed);
    assert_eq!(h.target(), Some(0x4002));
    assert_eq!(h.original(), Some(0x7000));
    assert_eq!(h.switch_target(), Ok(0x4002));
    assert_eq!(h.disable(Ok(())), Ok(()));
    assert_eq!(h.state(), HookState::Disabled);
    assert_eq!(h.enable(Ok(())), Ok(()));
    assert_eq!(h.state(), HookState::Enabled);
    assert_eq!(h.enable(Ok(())), Ok(()));
    assert_eq!(h.disable(Ok(())), Ok(()));
    assert_eq!(h.state(), HookState::Disabled);
    assert_eq!(h.target(), Some(0x4002));
    assert_eq!(h.original(), Some(0x7000));
}

#[test]
fn engine_refusal_on_install_leaves_hook_uninstalled() {
    let mut h = new_hook();
    assert_eq!(h.install(0x4002, Err(3)), Err(HookError::Engine(3)));
    assert_eq!(h.state(), HookState::Uninstalled);
    assert_eq!(h.target(), None);
    assert_eq!(h.original(), None);
}

#[test]
fn second_install_is_refused() {
    let mut h = new_hook();
    assert_eq!(h.install(0x4002, Ok(0x7000)), Ok(()));
    assert_eq!(h.locate(&module(), &image()), Err(HookError::AlreadyInstalled));
    assert_eq!(h.install(0x5000, Ok(0x8000)), Err(HookError::AlreadyInstalled));
    assert_eq!(h.target(), Some(0x4002));
    assert_eq!(h.original(), Some(0x7000));
}

#[test]
fn engine_refusal_on_switch_keeps_state() {
    let mut h = new_hook();
    assert_eq!(h.install(0x4002, Ok(0x7000)), Ok(()));
    assert_eq!(h.enable(Err(5)), Err(HookError::Engine(5)));
    assert_eq!(h.state(), HookState::Installed);
    assert_eq!(h.enable(Ok(())), Ok(()));
    assert_eq!(h.disable(Err(6)), Err(HookError::Engine(6)));
    assert_eq!(h.state(), HookState::Enabled);
}
