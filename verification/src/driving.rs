//! Driving: the hull rides on the springs of its roadwheels, and the tracks push it over the ground.

pub mod friction;
pub mod input;
pub mod parameters;
pub mod suspension;
pub mod thrust;
pub mod traction;

pub use input::{approach, read_drive_input, DriveInput, DriveKeys};
pub use parameters::{Drivetrain, SuspensionParams};
pub use suspension::{apply_suspension, probe_ground, GroundProbe, Suspension};
pub use traction::{
    apply_drive, drive_basis, drive_order, drive_wheel, track_command, DriveBasis, DriveOrder, Wheel,
};
