//! Damage and its consequences: what depleted volumes mean for the crew and for what the tank can do.
//!
//! There is no crew count at which a tank is out. Each capability has a degree from zero to one that
//! follows from its requirement and the live volumes. The knocked-out label is a label: nothing is
//! gated by it.

pub mod capability;
pub mod consequence;
pub mod requirement;
pub mod role;

pub use capability::{
    capability_available, capability_effectiveness, ComponentHealth, ControlledEntry, ControlledTank,
    TankCapabilities, TankVolumes, VolumeFacets, VolumeOf,
};
pub use consequence::{
    kill_crew, launch_turrets_on_cookoff, mark_dead_tanks, place_occupant, place_occupants,
    process_cookoffs, tick_swaps, AmmoRack, Cookoff, CrewVitals, Occupant, PendingSwap, Placement,
    TurretLaunch, TurretPose, Vitals, SWAP_SECONDS,
};
pub use requirement::{evaluate, GradedGroup, Group, Member, PartQuality, Requirement};
pub use role::{
    competence, Capability, CrewStation, Crewman, FunctionRole, KnockoutReason, Part,
    TankKnockedOut, FOREIGN_COMPETENCE,
};
