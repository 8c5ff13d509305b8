//! When a tank may appear: its spec sheet is a load dependency.

use crate::state::AppState;
use vstd::prelude::*;

verus! {

/// How far the spec sheet has come.
#[derive(Clone, Copy, Debug, PartialEq, Eq, Structural)]
pub enum SpecLoad {
    /// No tank waits for a spec sheet.
    NotWanted,
    OnItsWay,
    Loaded,
    Failed,
}

/// What to do about the tank.
#[derive(Clone, Copy, Debug, PartialEq, Eq, Structural)]
pub enum SpawnStep {
    Wait,
    /// Put the tank into the world and go to this mode.
    Spawn(AppState),
    /// There are no fallback numbers: give up.
    Abort,
}

/// A tank appears once its spec sheet is there, and the game starts with it. A sheet that cannot be
/// loaded is fatal.
pub fn spawn_tank_when_loaded(load: SpecLoad) -> (r: SpawnStep)
    ensures
        r == (match load {
            SpecLoad::Loaded => SpawnStep::Spawn(AppState::Playing),
            SpecLoad::Failed => SpawnStep::Abort,
            _ => SpawnStep::Wait,
        }),
{
    match load {
        SpecLoad::Loaded => SpawnStep::Spawn(AppState::Playing),
        SpecLoad::Failed => SpawnStep::Abort,
        SpecLoad::NotWanted => SpawnStep::Wait,
        SpecLoad::OnItsWay => SpawnStep::Wait,
    }
}

/// Whether the spec sheet of some tank in the world failed to load.
pub fn report_failed_spec(loads: &Vec<SpecLoad>) -> (fatal: bool)
    ensures
        fatal == loads@.contains(SpecLoad::Failed),
{
    let mut i: usize = 0;
    while i < loads.len()
        invariant
            i <= loads.len(),
            forall|k: int| 0 <= k < i ==> (#[trigger] loads@[k]) != SpecLoad::Failed,
        decreases loads.len() - i,
    {
        if loads[i] == SpecLoad::Failed {
            assert(loads@[i as int] == SpecLoad::Failed);
            return true;
        }
        i = i + 1;
    }
    false
}

/// A tank appears with its spec sheet and the game starts with it; without the sheet nothing happens,
/// and a sheet that cannot be had ends it.
pub proof fn law_tank_waits_for_its_sheet(
    loaded: SpawnStep,
    failed: SpawnStep,
    coming: SpawnStep,
    unwanted: SpawnStep,
)
    requires
        call_ensures(spawn_tank_when_loaded, (SpecLoad::Loaded,), loaded),
        call_ensures(spawn_tank_when_loaded, (SpecLoad::Failed,), failed),
        call_ensures(spawn_tank_when_loaded, (SpecLoad::OnItsWay,), coming),
        call_ensures(spawn_tank_when_loaded, (SpecLoad::NotWanted,), unwanted),
    ensures
        loaded == SpawnStep::Spawn(AppState::Playing),
        failed == SpawnStep::Abort,
        coming == SpawnStep::Wait,
        unwanted == SpawnStep::Wait,
{
}

} // verus!
