use overmatch::binary32::encoding::Binary32;
use overmatch::damage::{
    CrewStation, Group, Part, TankCapabilities, TankVolumes, VolumeFacets,
};
use overmatch::driving::input::INPUT_RAMP;
use overmatch::driving::traction::{COMMAND_DEADBAND, LATERAL_GRIP_RATIO, MU, STICK_SPEED};
use overmatch::driving::{
    apply_drive, apply_suspension, approach, drive_basis, drive_order, drive_wheel, probe_ground,
    read_drive_input, track_command, DriveInput, DriveKeys, DriveOrder, Drivetrain, Suspension,
    SuspensionParams, Wheel,
};
use overmatch::tank::TrackSide;
use overmatch::vector::{origin, vector, Vector3};
use std::collections::HashMap;

fn n(x: f32) -> Binary32 {
    Binary32::from_bits(x.to_bits())
}

fn v(x: Binary32) -> f32 {
    f32::from_bits(x.to_bits())
}

fn vn(a: [f32; 3]) -> Vector3 {
    vector(n(a[0]), n(a[1]), n(a[2]))
}

fn vv(a: Vector3) -> [f32; 3] {
    [v(a.x), v(a.y), v(a.z)]
}

struct Numbers(u32);

impl Numbers {
    fn next(&mut self, low: f32, high: f32) -> f32 {
        self.0 = self.0.wrapping_mul(1664525).wrapping_add(1013904223);
        low + (high - low) * ((self.0 >> 8) as f32 / 16_777_216.0)
    }

    fn vector(&mut self, size: f32) -> [f32; 3] {
        [self.next(-size, size), self.next(-size, size), self.next(-size, size)]
    }
}

fn plus(a: [f32; 3], b: [f32; 3]) -> [f32; 3] {
    [a[0] + b[0], a[1] + b[1], a[2] + b[2]]
}

fn minus(a: [f32; 3], b: [f32; 3]) -> [f32; 3] {
    [a[0] - b[0], a[1] - b[1], a[2] - b[2]]
}

fn times(a: [f32; 3], s: f32) -> [f32; 3] {
    [a[0] * s, a[1] * s, a[2] * s]
}

fn dot(a: [f32; 3], b: [f32; 3]) -> f32 {
    (a[0] * b[0]) + (a[1] * b[1]) + (a[2] * b[2])
}

#[test]
fn driving_constants_are_their_decimals() {
    assert_eq!(INPUT_RAMP, 4.0f32.to_bits());
    assert_eq!(MU, 0.9f32.to_bits());
    assert_eq!(LATERAL_GRIP_RATIO, 0.55f32.to_bits());
    assert_eq!(STICK_SPEED, 0.3f32.to_bits());
    assert_eq!(COMMAND_DEADBAND, 0.02f32.to_bits());
}

#[test]
fn approach_never_overshoots() {
    assert_eq!(v(approach(n(0.0), n(1.0), n(0.25))), 0.25);
    assert_eq!(v(approach(n(0.9), n(1.0), n(0.25))), 1.0);
    assert_eq!(v(approach(n(0.0), n(-1.0), n(0.25))), -0.25);
    assert_eq!(v(approach(n(-0.9), n(-1.0), n(0.25))), -1.0);
    assert_eq!(v(approach(n(0.5), n(0.5), n(0.25))), 0.5);
    let mut numbers = Numbers(3);
    for _ in 0..2000 {
        let a = numbers.next(-2.0, 2.0);
        let b = numbers.next(-2.0, 2.0);
        let step = numbers.next(0.0, 1.0);
        let want = if a < b { (a + step).min(b) } else { (a - step).max(b) };
        let got = v(approach(n(a), n(b), n(step)));
        assert_eq!(got, want);
        assert!(got >= a.min(b) && got <= a.max(b));
    }
}

#[test]
fn keys_ramp_into_intent() {
    let mut input = DriveInput::default();
    let forward_right = DriveKeys { forward: true, backward: false, right: true, left: false };
    read_drive_input(forward_right, n(0.125), &mut input);
    assert_eq!((v(input.throttle), v(input.steer)), (0.5, 0.5));
    read_drive_input(forward_right, n(0.5), &mut input);
    assert_eq!((v(input.throttle), v(input.steer)), (1.0, 1.0));
    let back_left = DriveKeys { forward: false, backward: true, right: false, left: true };
    read_drive_input(back_left, n(10.0), &mut input);
    assert_eq!((v(input.throttle), v(input.steer)), (-1.0, -1.0));
    // Keys that oppose each other cancel.
    let both = DriveKeys { forward: true, backward: true, right: true, left: true };
    read_drive_input(both, n(0.125), &mut input);
    assert_eq!((v(input.throttle), v(input.steer)), (-0.5, -0.5));
}

fn springs() -> SuspensionParams {
    SuspensionParams {
        ray_length: n(0.8),
        rest_length: n(0.6),
        stiffness: n(500000.0),
        damping: n(50000.0),
    }
}

#[test]
fn a_compressed_spring_carries_the_hull() {
    let down = vn([0.0, -1.0, 0.0]);
    let hub = vn([1.0, 0.5, 2.0]);
    let probe = probe_ground(&springs(), hub, down, Some(n(0.5))).unwrap();
    assert_eq!(vv(probe.contact), [1.0, 0.0, 2.0]);
    assert_eq!(vv(probe.up), [0.0, 1.0, 0.0]);
    let mut wheel = Suspension::default();
    wheel.anchor = Some(hub);
    let force = apply_suspension(&springs(), Some(probe), vn([0.0, -0.1, 0.0]), &mut wheel).unwrap();
    let compression = 0.6f32 - 0.5;
    let load = 500000.0 * compression - 50000.0 * -0.1f32;
    assert_eq!(v(wheel.load), load);
    assert_eq!(vv(force)[1], load);
    assert_eq!(wheel.contact, Some(probe.contact));
    assert_eq!(wheel.anchor, Some(hub));
}

#[test]
fn a_spring_never_pulls() {
    let probe = probe_ground(&springs(), origin(), vn([0.0, -1.0, 0.0]), Some(n(0.59))).unwrap();
    let mut wheel = Suspension::default();
    let force = apply_suspension(&springs(), Some(probe), vn([0.0, 9.0, 0.0]), &mut wheel).unwrap();
    assert_eq!(v(wheel.load), 0.0);
    assert_eq!(vv(force)[1], 0.0);
}

#[test]
fn a_wheel_off_the_ground_is_reset() {
    let down = vn([0.0, -1.0, 0.0]);
    assert!(probe_ground(&springs(), origin(), down, None).is_none());
    assert!(probe_ground(&springs(), origin(), down, Some(n(0.6))).is_none());
    assert!(probe_ground(&springs(), origin(), down, Some(n(0.7))).is_none());
    let mut wheel = Suspension {
        contact: Some(origin()),
        load: n(5.0),
        drive_force: down,
        anchor: Some(down),
    };
    let force = apply_suspension(&springs(), None, down, &mut wheel);
    assert!(force.is_none());
    assert_eq!(wheel, Suspension::default());
}

#[test]
fn the_basis_lies_on_the_ground() {
    let basis = drive_basis(vn([3.0, 5.0, -4.0]));
    assert_eq!(vv(basis.forward)[1], 0.0);
    assert!((vv(basis.forward)[0] - 0.6).abs() < 1e-6);
    assert!((vv(basis.forward)[2] + 0.8).abs() < 1e-6);
    assert_eq!(vv(basis.right), [-vv(basis.forward)[2], 0.0, vv(basis.forward)[0]]);
    let up = drive_basis(vn([0.0, 1.0, 0.0]));
    assert_eq!(vv(up.forward), [0.0, 0.0, 0.0]);
}

#[test]
fn tracks_share_the_intent() {
    let both = DriveInput { throttle: n(0.5), steer: n(0.25) };
    assert_eq!(v(track_command(TrackSide::Left, both)), 0.75);
    assert_eq!(v(track_command(TrackSide::Right, both)), 0.25);
    let full = DriveInput { throttle: n(1.0), steer: n(1.0) };
    assert_eq!(v(track_command(TrackSide::Left, full)), 1.0);
    assert_eq!(v(track_command(TrackSide::Right, full)), 0.0);
    let pivot = DriveInput { throttle: n(0.0), steer: n(0.7) };
    assert_eq!(
        v(track_command(TrackSide::Left, pivot)),
        -v(track_command(TrackSide::Right, pivot))
    );
}

struct HardwareWheel {
    contact: [f32; 3],
    load: f32,
    velocity: [f32; 3],
    anchor: Option<[f32; 3]>,
    drive_force: [f32; 3],
}

struct HardwareTrain {
    max_thrust: f32,
    rolling_resistance: f32,
    lateral_grip: f32,
    brush_stiffness: f32,
    brush_damping: f32,
}

/// The drive of a grounded, loaded wheel in hardware arithmetic.
fn hardware_drive(
    wheel: &mut HardwareWheel,
    train: &HardwareTrain,
    command: f32,
    forward: [f32; 3],
    right: [f32; 3],
) {
    let driving = command.abs() > 0.02;
    let v_fwd = dot(wheel.velocity, forward);
    let v_lat = dot(wheel.velocity, right);
    let gripping = v_fwd.hypot(v_lat) < 0.3;
    if !gripping {
        wheel.anchor = None;
    } else if wheel.anchor.is_none() {
        wheel.anchor = Some(wheel.contact);
    }
    let grip = 0.9 * wheel.load;
    let grip_lat = grip * 0.55;
    let (mut d_fwd, mut d_lat) = match wheel.anchor {
        Some(anchor) => (
            dot(minus(wheel.contact, anchor), forward),
            dot(minus(wheel.contact, anchor), right),
        ),
        None => (0.0, 0.0),
    };
    if wheel.anchor.is_some() {
        let a_fwd = grip / train.brush_stiffness;
        let a_lat = grip_lat / train.brush_stiffness;
        let e = (d_fwd / a_fwd).powi(2) + (d_lat / a_lat).powi(2);
        if e > 1.0 {
            let s = e.sqrt().recip();
            d_fwd *= s;
            d_lat *= s;
            wheel.anchor = Some(minus(
                minus(wheel.contact, times(forward, d_fwd)),
                times(right, d_lat),
            ));
        }
    }
    let f_fwd = if driving {
        if let Some(anchor) = wheel.anchor {
            wheel.anchor = Some(plus(anchor, times(forward, d_fwd)));
        }
        command * train.max_thrust - train.rolling_resistance * v_fwd
    } else if gripping {
        -train.brush_stiffness * d_fwd - train.brush_damping * v_fwd
    } else {
        -train.rolling_resistance * v_fwd
    };
    let f_lat = if gripping {
        -train.brush_stiffness * d_lat - train.brush_damping * v_lat
    } else {
        -train.lateral_grip * v_lat
    };
    let mut force = plus(times(forward, f_fwd), times(right, f_lat));
    let e = (f_fwd / grip).powi(2) + (f_lat / grip_lat).powi(2);
    if e > 1.0 {
        force = times(force, e.sqrt().recip());
    }
    wheel.drive_force = force;
}

fn train() -> (Drivetrain, HardwareTrain) {
    (
        Drivetrain {
            max_thrust: n(12500.0),
            rolling_resistance: n(900.0),
            lateral_grip: n(9000.0),
            brush_stiffness: n(400000.0),
            brush_damping: n(30000.0),
        },
        HardwareTrain {
            max_thrust: 12500.0,
            rolling_resistance: 900.0,
            lateral_grip: 9000.0,
            brush_stiffness: 400000.0,
            brush_damping: 30000.0,
        },
    )
}

#[test]
fn wheel_forces_match_the_hardware() {
    let mut numbers = Numbers(21);
    let (drivetrain, hardware) = train();
    for round in 0..3000 {
        let hull = numbers.vector(1.0);
        let basis = drive_basis(vn(hull));
        let slow = round % 3 != 0;
        let contact = numbers.vector(20.0);
        let velocity = numbers.vector(if slow { 0.2 } else { 8.0 });
        let load = numbers.next(1.0, 60000.0);
        let anchor = if round % 4 == 0 {
            None
        } else {
            Some(plus(contact, numbers.vector(0.1)))
        };
        let throttle = if round % 5 == 0 { 0.0 } else { numbers.next(-1.0, 1.0) };
        let steer = if round % 5 == 0 { 0.01 } else { numbers.next(-1.0, 1.0) };
        let side = if round % 2 == 0 { TrackSide::Left } else { TrackSide::Right };
        let (v_fwd, v_lat) = basis.split(vn(velocity));
        let mut wheel = Wheel {
            side,
            velocity: vn(velocity),
            speed: n(v(v_fwd).hypot(v(v_lat))),
            suspension: Suspension {
                contact: Some(vn(contact)),
                load: n(load),
                drive_force: origin(),
                anchor: anchor.map(vn),
            },
        };
        let order = DriveOrder {
            available: true,
            controlled: true,
            input: DriveInput { throttle: n(throttle), steer: n(steer) },
            drivetrain,
            basis,
        };
        let force = drive_wheel(&order, &mut wheel).unwrap();
        let command = match side {
            TrackSide::Left => throttle + steer,
            TrackSide::Right => throttle - steer,
        }
        .clamp(-1.0, 1.0);
        let mut want = HardwareWheel { contact, load, velocity, anchor, drive_force: [0.0; 3] };
        hardware_drive(&mut want, &hardware, command, vv(basis.forward), vv(basis.right));
        assert_eq!(vv(force), want.drive_force);
        assert_eq!(vv(wheel.suspension.drive_force), want.drive_force);
        assert_eq!(wheel.suspension.anchor.map(vv), want.anchor);
    }
}

fn order(available: bool, controlled: bool) -> DriveOrder {
    DriveOrder {
        available,
        controlled,
        input: DriveInput { throttle: n(1.0), steer: n(0.0) },
        drivetrain: train().0,
        basis: drive_basis(vn([0.0, 0.0, -1.0])),
    }
}

fn standing(load: f32) -> Wheel {
    Wheel {
        side: TrackSide::Left,
        velocity: origin(),
        speed: n(0.0),
        suspension: Suspension {
            contact: Some(vn([1.0, 2.0, 3.0])),
            load: n(load),
            drive_force: vn([9.0, 9.0, 9.0]),
            anchor: Some(vn([1.0, 2.0, 3.0])),
        },
    }
}

#[test]
fn a_disabled_tank_parks() {
    let mut wheel = standing(1000.0);
    assert!(drive_wheel(&order(false, true), &mut wheel).is_none());
    assert_eq!(vv(wheel.suspension.drive_force), [0.0, 0.0, 0.0]);
    assert_eq!(wheel.suspension.anchor, standing(1000.0).suspension.anchor);
}

#[test]
fn an_uncontrolled_tank_rests_on_its_anchors() {
    let mut wheel = standing(1000.0);
    let force = drive_wheel(&order(true, false), &mut wheel).unwrap();
    assert_eq!(vv(force), [0.0, 0.0, 0.0]);
    assert_eq!(wheel.suspension.anchor, standing(1000.0).suspension.anchor);
}

#[test]
fn an_unloaded_wheel_is_idle() {
    let mut wheel = standing(0.0);
    assert!(drive_wheel(&order(true, true), &mut wheel).is_none());
    assert_eq!(vv(wheel.suspension.drive_force), [0.0, 0.0, 0.0]);
    assert!(wheel.suspension.anchor.is_none());
}

#[test]
fn a_wheel_off_the_ground_is_left_alone() {
    let mut wheel = standing(1000.0);
    wheel.suspension.contact = None;
    let before = wheel;
    assert!(drive_wheel(&order(true, true), &mut wheel).is_none());
    assert_eq!(wheel, before);
}

#[test]
fn thrust_is_capped_by_friction() {
    let mut wheel = standing(1000.0);
    let force = drive_wheel(&order(true, true), &mut wheel).unwrap();
    // 12500 N of thrust on a grip of 900 N.
    assert!((vv(force)[2] + 900.0).abs() < 0.01);
    let mut heavy = standing(20000.0);
    let force = drive_wheel(&order(true, true), &mut heavy).unwrap();
    assert_eq!(vv(force)[2], -12500.0);
}

#[test]
fn all_wheels_of_a_tank_are_driven() {
    let mut wheels = vec![standing(1000.0), standing(0.0), standing(20000.0)];
    let forces = apply_drive(&order(true, true), &mut wheels);
    assert_eq!(forces.len(), 3);
    assert!(forces[0].is_some() && forces[1].is_none() && forces[2].is_some());
    let mut single = standing(20000.0);
    let force = drive_wheel(&order(true, true), &mut single);
    assert_eq!(wheels[2], single);
    assert_eq!(forces[2], force);
}

#[test]
fn steer_turns_the_same_way_at_any_throttle() {
    for throttle in [-1.0f32, -0.3, 0.0, 0.6, 1.0] {
        for steer in [0.0f32, 0.2, 1.0] {
            let intent = DriveInput { throttle: n(throttle), steer: n(steer) };
            let left = v(track_command(TrackSide::Left, intent));
            let right = v(track_command(TrackSide::Right, intent));
            assert!(right <= left);
            assert!((-1.0..=1.0).contains(&left) && (-1.0..=1.0).contains(&right));
        }
    }
}

#[test]
fn grip_follows_speed() {
    let mut slow = standing(1000.0);
    slow.suspension.anchor = None;
    drive_wheel(&order(true, false), &mut slow);
    assert_eq!(slow.suspension.anchor, slow.suspension.contact);
    let mut fast = standing(1000.0);
    fast.velocity = vn([0.0, 0.0, -5.0]);
    fast.speed = n(5.0);
    drive_wheel(&order(true, false), &mut fast);
    assert!(fast.suspension.anchor.is_none());
}

#[test]
fn a_stretched_brush_trails_the_contact() {
    let mut wheel = standing(1000.0);
    wheel.suspension.anchor = Some(vn([1.0, 2.0, 5.0]));
    drive_wheel(&order(true, false), &mut wheel);
    // The slip of two metres is held to the grip of 900 N over the stiffness.
    let anchor = wheel.suspension.anchor.map(vv).unwrap();
    assert!((anchor[2] - (3.0 + 900.0 / 400000.0)).abs() < 1e-5);
}

/// How far out on an ellipse a point lies, in double precision.
fn level(x: f64, y: f64, a: f64, b: f64) -> f64 {
    (x / a) * (x / a) + (y / b) * (y / b)
}

#[test]
fn forces_and_slip_keep_to_the_friction_ellipse() {
    let mut numbers = Numbers(77);
    let (drivetrain, _) = train();
    let mut capped = 0;
    let mut slipped = 0;
    for round in 0..4000 {
        let basis = drive_basis(vn(numbers.vector(1.0)));
        let forward = vv(basis.forward);
        let right = vv(basis.right);
        assert!(dot(forward, forward) as f64 <= 1.0 + 32.0 / 16_777_216.0);
        let contact = numbers.vector(1.0);
        let velocity = numbers.vector(if round % 2 == 0 { 0.1 } else { 12.0 });
        let (along, across) = basis.split(vn(velocity));
        let load = numbers.next(1.0, 60000.0);
        let mut wheel = Wheel {
            side: TrackSide::Left,
            velocity: vn(velocity),
            speed: n(v(along).hypot(v(across))),
            suspension: Suspension {
                contact: Some(vn(contact)),
                load: n(load),
                drive_force: origin(),
                anchor: Some(vn(plus(contact, numbers.vector(0.5)))),
            },
        };
        let order = DriveOrder {
            available: true,
            controlled: false,
            input: DriveInput { throttle: n(0.0), steer: n(0.0) },
            drivetrain,
            basis,
        };
        let force = vv(drive_wheel(&order, &mut wheel).unwrap());
        assert_eq!(force[1], 0.0);
        let grip = 0.9f32 * load;
        let grip_lat = grip * 0.55f32;
        let split = |a: [f32; 3], b: [f32; 3]| a[0] as f64 * b[0] as f64 + a[2] as f64 * b[2] as f64;
        let out = level(
            split(force, forward),
            split(force, right),
            grip as f64,
            grip_lat as f64,
        );
        assert!(out <= 1.0 + 512.0 / 16_777_216.0);
        if out > 0.999 {
            capped += 1;
        }
        if let Some(anchor) = wheel.suspension.anchor {
            let slip = minus(contact, vv(anchor));
            let stiffness = v(drivetrain.brush_stiffness);
            let out = level(
                split(slip, forward),
                split(slip, right),
                (grip / stiffness) as f64,
                (grip_lat / stiffness) as f64,
            );
            // The anchor is rounded once more where it is placed.
            assert!(out <= 1.01);
            if out > 0.98 {
                slipped += 1;
            }
        }
    }
    assert!(capped > 100);
    assert!(slipped > 100);
}

#[test]
fn the_order_reads_the_live_tank() {
    let caps = TankCapabilities {
        drive: Some(vec![Group::Single(Part::Driver)]),
        traverse: None,
        fire: None,
        load: None,
        gunner_sight: None,
        commander_view: None,
    };
    let ids = TankVolumes(vec![7]);
    let input = DriveInput { throttle: n(0.5), steer: n(-0.25) };
    let seat = |dead: bool| VolumeFacets {
        crew: Some(CrewStation::Driver),
        crewman: None,
        dead,
        function: None,
        health: None,
    };
    let hull = vn([3.0, 1.0, 4.0]);
    for dead in [false, true] {
        let volumes = HashMap::from([(7, seat(dead))]);
        let order =
            drive_order(Some(&ids), Some(&caps), &volumes, hull, true, input, train().0);
        assert_eq!(order.available, !dead);
        assert!(order.controlled);
        assert_eq!(order.input, input);
        assert_eq!(order.basis, drive_basis(hull));
    }
    let order = drive_order(None, Some(&caps), &HashMap::new(), hull, false, input, train().0);
    assert!(!order.available);
    assert!(!order.controlled);
}
