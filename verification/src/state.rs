//! The mode of the game, and the pause.

use vstd::prelude::*;

verus! {

/// The top-level mode.
#[derive(Clone, Copy, Debug, PartialEq, Eq, Hash, Structural)]
pub enum AppState {
    /// The spec sheet is on its way; there is no tank yet.
    Loading,
    Playing,
    Paused,
}

impl Default for AppState {
    fn default() -> (r: AppState)
        ensures
            r == AppState::Playing,
    {
        AppState::Playing
    }
}

/// Gameplay runs only in this mode: pausing freezes all of it from one place.
pub open spec fn plays(state: AppState) -> bool {
    state == AppState::Playing
}

pub fn gameplay_runs(state: AppState) -> (r: bool)
    ensures
        r == plays(state),
        r == (state == AppState::Playing),
{
    match state {
        AppState::Playing => true,
        _ => false,
    }
}

/// The mode after the pause key: play and pause follow each other, and loading cannot be paused.
pub open spec fn toggled(state: AppState) -> AppState {
    match state {
        AppState::Playing => AppState::Paused,
        AppState::Paused => AppState::Playing,
        AppState::Loading => AppState::Loading,
    }
}

/// The mode to go to, if the pause key asks for one.
pub fn toggle_pause(pressed: bool, state: AppState) -> (next: Option<AppState>)
    ensures
        next == (if pressed && toggled(state) != state {
            Some(toggled(state))
        } else {
            None
        }),
        !pressed ==> next is None,
        state == AppState::Loading ==> next is None,
        pressed && state == AppState::Playing ==> next == Some(AppState::Paused),
        pressed && state == AppState::Paused ==> next == Some(AppState::Playing),
{
    if !pressed {
        return None;
    }
    match state {
        AppState::Playing => Some(AppState::Paused),
        AppState::Paused => Some(AppState::Playing),
        AppState::Loading => None,
    }
}

/// The pause key pressed twice leads back.
pub proof fn law_pausing_twice_leads_back(state: AppState)
    ensures
        toggled(toggled(state)) == state,
        state != AppState::Loading ==> plays(state) != plays(toggled(state)),
{
}

/// The game runs while it is played, and neither while it loads nor while it is paused; the pause key
/// goes back and forth between the two modes that there are after loading.
pub proof fn law_pause_stops_the_game()
    ensures
        plays(AppState::Playing),
        !plays(AppState::Paused),
        !plays(AppState::Loading),
        toggled(AppState::Playing) == AppState::Paused,
        toggled(AppState::Paused) == AppState::Playing,
        toggled(AppState::Loading) == AppState::Loading,
{
}

} // verus!
