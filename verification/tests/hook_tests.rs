use toggy::config::Config;
use toggy::hook::{hook_step, HookAction, HookEvent, HookState, HC_ACTION, WM_KEYUP};

fn run(events: &[HookEvent]) -> Vec<HookAction> {
    let mut state = HookState::Idle;
    let mut actions = Vec::new();
    for e in events {
        let (next, action) = hook_step(state, *e);
        state = next;
        actions.push(action);
    }
    assert_eq!(state, HookState::Idle);
    actions
}

fn config() -> Config {
    Config { hotkey: 0xC0, lower_players: 1, upper_players: 8 }
}

#[test]
fn hotkey_on_first_weapon_set_writes_lower_count() {
    let actions = run(&[
        HookEvent::Key { n_code: HC_ACTION, w_param: WM_KEYUP },
        HookEvent::Foreground { process_id: 42, own_process_id: 42 },
        HookEvent::KeyCode { vk_code: 0xC0, config: config() },
        HookEvent::WeaponSet { set: 0 },
        HookEvent::PlayersWritten,
    ]);
    assert_eq!(actions, vec![
        HookAction::QueryForeground,
        HookAction::ReadKeyAndConfig,
        HookAction::ReadWeaponSet,
        HookAction::WritePlayers { count: 1 },
        HookAction::PassOn,
    ]);
}

#[test]
fn hotkey_on_second_weapon_set_writes_upper_count() {
    let (s, a) = hook_step(HookState::AwaitWeaponSet { config: config() }, HookEvent::WeaponSet { set: 1 });
    assert_eq!(s, HookState::AwaitWrite);
    assert_eq!(a, HookAction::WritePlayers { count: 8 });
}

#[test]
fn key_press_and_other_hook_codes_pass_on() {
    assert_eq!(run(&[HookEvent::Key { n_code: HC_ACTION, w_param: 0x0100 }]), vec![HookAction::PassOn]);
    assert_eq!(run(&[HookEvent::Key { n_code: 3, w_param: WM_KEYUP }]), vec![HookAction::PassOn]);
}

#[test]
fn other_process_passes_on() {
    let actions = run(&[
        HookEvent::Key { n_code: HC_ACTION, w_param: WM_KEYUP },
        HookEvent::Foreground { process_id: 7, own_process_id: 42 },
    ]);
    assert_eq!(actions, vec![HookAction::QueryForeground, HookAction::PassOn]);
}

#[test]
fn other_key_passes_on() {
    let actions = run(&[
        HookEvent::Key { n_code: HC_ACTION, w_param: WM_KEYUP },
        HookEvent::Foreground { process_id: 42, own_process_id: 42 },
        HookEvent::KeyCode { vk_code: 0x41, config: config() },
    ]);
    assert_eq!(actions, vec![HookAction::QueryForeground, HookAction::ReadKeyAndConfig, HookAction::PassOn]);
}
