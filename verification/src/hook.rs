//! Decisions of the keyboard hook, as a state machine.
//!
//! For each keyboard event the hook runs one cycle from [`HookState::Idle`]:
//! it acts only on key releases that happen while the game's own window has
//! the focus, and only for the configured hotkey. Then it reads which weapon
//! set is active and writes the matching player count into the game. Every
//! cycle ends by handing the event on to the next hook.
use crate::config::Config;
use vstd::prelude::*;

verus! {

/// Hook code of an event that the hook must process.
pub const HC_ACTION: i32 = 0;

/// Message of a key release.
pub const WM_KEYUP: usize = 0x0101;

/// Offset, in the game module, of the byte that holds the player count.
pub const PLAYER_COUNT_OFFSET: usize = 0x111C44;

/// Offset, in the client module, of the byte that holds the active weapon set.
pub const WEAPON_SET_OFFSET: usize = 0x11CB84;

/// Where the hook stands in its cycle.
#[derive(Clone, Copy, Debug, PartialEq, Eq, Structural)]
pub enum HookState {
    /// Waiting for a keyboard event.
    Idle,
    /// Waiting for the process that owns the foreground window.
    AwaitForeground,
    /// Waiting for the released key and the settings.
    AwaitKey,
    /// Waiting for the active weapon set, with the settings read.
    AwaitWeaponSet { config: Config },
    /// Waiting for the player count to be written.
    AwaitWrite,
}

/// What the outside world reports to the hook.
#[derive(Clone, Copy, Debug, PartialEq, Eq, Structural)]
pub enum HookEvent {
    /// A keyboard event: the hook code and the message.
    Key { n_code: i32, w_param: usize },
    /// The process of the foreground window, and this process.
    Foreground { process_id: u32, own_process_id: u32 },
    /// The released key's virtual key code, and the settings just read.
    KeyCode { vk_code: u32, config: Config },
    /// The active weapon set.
    WeaponSet { set: u8 },
    /// The player count was written.
    PlayersWritten,
}

/// What the hook asks the outside world to do next.
#[derive(Clone, Copy, Debug, PartialEq, Eq, Structural)]
pub enum HookAction {
    /// Hand the event on to the next hook; the cycle is over.
    PassOn,
    /// Find the process of the foreground window.
    QueryForeground,
    /// Read the released key's code and the settings file.
    ReadKeyAndConfig,
    /// Read the active weapon set.
    ReadWeaponSet,
    /// Write this player count into the game.
    WritePlayers { count: u8 },
}

/// Whether `event` is one that `state` waits for.
pub open spec fn expects(state: HookState, event: HookEvent) -> bool {
    match (state, event) {
        (HookState::Idle, HookEvent::Key { .. }) => true,
        (HookState::AwaitForeground, HookEvent::Foreground { .. }) => true,
        (HookState::AwaitKey, HookEvent::KeyCode { .. }) => true,
        (HookState::AwaitWeaponSet { .. }, HookEvent::WeaponSet { set }) => set <= 1,
        (HookState::AwaitWrite, HookEvent::PlayersWritten) => true,
        _ => false,
    }
}

/// How far a state is into the cycle; every step either ends the cycle or
/// moves further into it, so a cycle ends after at most five steps.
pub open spec fn stage(state: HookState) -> nat {
    match state {
        HookState::Idle => 0,
        HookState::AwaitForeground => 1,
        HookState::AwaitKey => 2,
        HookState::AwaitWeaponSet { .. } => 3,
        HookState::AwaitWrite => 4,
    }
}

/// The player count that goes with a weapon set: the lower one for the
/// first set, the upper one for the second.
pub open spec fn players_for(config: Config, set: u8) -> u8 {
    if set == 0 {
        config.lower_players
    } else {
        config.upper_players
    }
}

/// Law: the first weapon set gets exactly the lower player count and the
/// second exactly the upper one, whatever the two counts are.
pub proof fn lemma_players_for_weapon_set(config: Config)
    ensures
        players_for(config, 0) == config.lower_players,
        players_for(config, 1) == config.upper_players,
{
}

/// One step of the hook: from its state and what was reported, its next
/// state and what it asks for.
pub fn hook_step(state: HookState, event: HookEvent) -> (r: (HookState, HookAction))
    requires
        expects(state, event),
    ensures
        (r.1 == HookAction::PassOn) <==> (r.0 == HookState::Idle),
        r.0 == HookState::Idle || stage(r.0) == stage(state) + 1,
        match (state, event) {
            (HookState::Idle, HookEvent::Key { n_code, w_param }) => if n_code == HC_ACTION
                && w_param == WM_KEYUP {
                r == (HookState::AwaitForeground, HookAction::QueryForeground)
            } else {
                r == (HookState::Idle, HookAction::PassOn)
            },
            (HookState::AwaitForeground, HookEvent::Foreground { process_id, own_process_id }) =>
                if process_id == own_process_id {
                r == (HookState::AwaitKey, HookAction::ReadKeyAndConfig)
            } else {
                r == (HookState::Idle, HookAction::PassOn)
            },
            (HookState::AwaitKey, HookEvent::KeyCode { vk_code, config }) => if vk_code
                == config.hotkey {
                r == (HookState::AwaitWeaponSet { config }, HookAction::ReadWeaponSet)
            } else {
                r == (HookState::Idle, HookAction::PassOn)
            },
            (HookState::AwaitWeaponSet { config }, HookEvent::WeaponSet { set }) => r == (
                HookState::AwaitWrite,
                HookAction::WritePlayers { count: players_for(config, set) },
            ) && (set == 0 ==> r.1 == HookAction::WritePlayers { count: config.lower_players }) && (
            set == 1 ==> r.1 == HookAction::WritePlayers { count: config.upper_players }),
            _ => r == (HookState::Idle, HookAction::PassOn),
        },
{
    match (state, event) {
        (HookState::Idle, HookEvent::Key { n_code, w_param }) => {
            if n_code == HC_ACTION && w_param == WM_KEYUP {
                (HookState::AwaitForeground, HookAction::QueryForeground)
            } else {
                (HookState::Idle, HookAction::PassOn)
            }
        },
        (HookState::AwaitForeground, HookEvent::Foreground { process_id, own_process_id }) => {
            if process_id == own_process_id {
                (HookState::AwaitKey, HookAction::ReadKeyAndConfig)
            } else {
                (HookState::Idle, HookAction::PassOn)
            }
        },
        (HookState::AwaitKey, HookEvent::KeyCode { vk_code, config }) => {
            if vk_code == config.hotkey {
                (HookState::AwaitWeaponSet { config }, HookAction::ReadWeaponSet)
            } else {
                (HookState::Idle, HookAction::PassOn)
            }
        },
        (HookState::AwaitWeaponSet { config }, HookEvent::WeaponSet { set }) => {
            let count = if set == 0 {
                config.lower_players
            } else {
                config.upper_players
            };
            (HookState::AwaitWrite, HookAction::WritePlayers { count })
        },
        _ => (HookState::Idle, HookAction::PassOn),
    }
}

} // verus!
