//! The tank: the rig that the model declares, and the servos that lay the turret and the gun.

pub mod rig;
pub mod servo;
pub mod slew;
pub mod spawn;
pub mod speed;

pub use rig::{on_tank_ready, BoundRig, ModelNode, NodeRole, Rig, RigError, TrackSide};
pub use servo::{
    drive_servo, servo_pose, shortest_angle, Axis, Motion, Rotation, ServoCommand, ServoPose,
    ServoSpec, ServoState, Travel,
};
pub use spawn::{report_failed_spec, spawn_tank_when_loaded, SpawnStep, SpecLoad};
