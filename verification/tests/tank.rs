use overmatch::binary32::encoding::Binary32;
use overmatch::damage::{CrewStation, FunctionRole, TankCapabilities};
use overmatch::driving::{Drivetrain, SuspensionParams};
use overmatch::spec::{declare_volume, TankSpec, VolumeSpec};
use overmatch::state::AppState;
use overmatch::tank::{
    drive_servo, on_tank_ready, report_failed_spec, servo_pose, shortest_angle,
    spawn_tank_when_loaded, Axis, BoundRig, ModelNode, Motion, NodeRole, Rig, RigError, Rotation,
    ServoCommand, ServoSpec, ServoState, SpawnStep, SpecLoad, TrackSide, Travel,
};
use overmatch::vector::{axis_x, axis_y, axis_z};
use std::f32::consts::{PI, TAU};

fn n(x: f32) -> Binary32 {
    Binary32::from_bits(x.to_bits())
}

fn v(x: Binary32) -> f32 {
    f32::from_bits(x.to_bits())
}

struct Numbers(u32);

impl Numbers {
    /// A number between the bounds.
    fn next(&mut self, low: f32, high: f32) -> f32 {
        self.0 = self.0.wrapping_mul(1664525).wrapping_add(1013904223);
        low + (high - low) * ((self.0 >> 8) as f32 / 16_777_216.0)
    }
}

fn wrap(diff: f32) -> f32 {
    (diff + PI).rem_euclid(TAU) - PI
}

/// One servo step in hardware arithmetic.
fn hardware_step(
    max_speed: f32,
    accel: f32,
    travel: Option<(f32, f32)>,
    target: f32,
    motion: (f32, f32),
    dt: f32,
) -> (f32, f32) {
    let (mut current, mut velocity) = motion;
    let max_speed = max_speed.to_radians();
    let accel = accel.to_radians();
    let travel = travel.map(|(min, max)| (min.to_radians(), max.to_radians()));
    let error = match travel {
        Some(_) => target - current,
        None => wrap(target - current),
    };
    let step = velocity * dt;
    if step.abs() >= error.abs() && error.abs() > 0.0 {
        current += error;
        velocity = 0.0;
        if let Some((min, max)) = travel {
            current = current.clamp(min, max);
        }
    } else {
        let target_speed = (2.0 * accel * error.abs()).sqrt().min(max_speed);
        let desired = error.signum() * target_speed;
        let dv = accel * dt;
        velocity += (desired - velocity).clamp(-dv, dv);
        current += velocity * dt;
        if let Some((min, max)) = travel {
            current = current.clamp(min, max);
        }
    }
    let settle = accel * dt * dt;
    if error.abs() < settle && velocity.abs() < accel * dt {
        velocity = 0.0;
        if let Some((min, max)) = travel {
            current = target.clamp(min, max);
        }
    }
    (current, velocity)
}

#[test]
fn servo_steps_match_the_hardware() {
    let mut numbers = Numbers(7);
    for round in 0..3000 {
        let limited = round % 2 == 0;
        let max_speed = numbers.next(1.0, 60.0);
        let accel = numbers.next(1.0, 90.0);
        let min = numbers.next(-30.0, -1.0);
        let max = numbers.next(1.0, 30.0);
        let target = numbers.next(-4.0, 4.0);
        let close = round % 5 == 0;
        let current = if close { target + numbers.next(-0.001, 0.001) } else { numbers.next(-4.0, 4.0) };
        let velocity = numbers.next(-1.0, 1.0);
        let dt = numbers.next(0.0, 0.05);
        let spec = ServoSpec {
            axis: Axis::Y,
            max_speed: n(max_speed),
            accel: n(accel),
            travel: if limited {
                Travel::Limited { min: n(min), max: n(max) }
            } else {
                Travel::Continuous
            },
        };
        let motion = Motion { current: n(current), velocity: n(velocity) };
        assert!(spec.can_step(motion, n(target), n(dt)));
        let got = spec.step(motion, n(target), n(dt));
        let travel = if limited { Some((min, max)) } else { None };
        let want = hardware_step(max_speed, accel, travel, target, (current, velocity), dt);
        assert_eq!(v(got.current), want.0);
        assert_eq!(v(got.velocity), want.1);
    }
}

fn turret_spec() -> ServoSpec {
    ServoSpec { axis: Axis::Y, max_speed: n(14.0), accel: n(20.0), travel: Travel::Continuous }
}

fn gun_spec() -> ServoSpec {
    ServoSpec {
        axis: Axis::X,
        max_speed: n(8.0),
        accel: n(20.0),
        travel: Travel::Limited { min: n(-8.0), max: n(15.0) },
    }
}

#[test]
fn a_servo_reaches_its_target_and_stays() {
    let spec = gun_spec();
    let target = n(0.1);
    let mut motion = Motion { current: n(0.0), velocity: n(0.0) };
    for _ in 0..600 {
        motion = spec.step(motion, target, n(1.0 / 60.0));
    }
    assert_eq!(v(motion.current), 0.1);
    assert_eq!(v(motion.velocity), 0.0);
    let after = spec.step(motion, target, n(1.0 / 60.0));
    assert_eq!(v(after.current), 0.1);
    assert_eq!(v(after.velocity), 0.0);
}

#[test]
fn a_slewing_servo_stays_within_its_travel() {
    let spec = gun_spec();
    let max = 15.0f32.to_radians();
    // Far from the target the step does not arrive, and the angle is held.
    let motion = Motion { current: n(max - 0.0001), velocity: n(0.1) };
    let after = spec.step(motion, n(1.0), n(0.1));
    assert_eq!(v(after.current), max);
    let min = (-8.0f32).to_radians();
    let motion = Motion { current: n(min + 0.0001), velocity: n(-0.1) };
    let after = spec.step(motion, n(-1.0), n(0.1));
    assert_eq!(v(after.current), min);
}

#[test]
fn an_arriving_servo_stops() {
    let spec = gun_spec();
    let motion = Motion { current: n(0.0), velocity: n(0.2) };
    let after = spec.step(motion, n(0.01), n(0.1));
    assert_eq!(v(after.velocity), 0.0);
    assert_eq!(v(after.current), 0.01);
}

#[test]
fn an_arriving_servo_stays_within_its_travel() {
    let locked = ServoSpec {
        axis: Axis::X,
        max_speed: n(10.0),
        accel: n(1.0),
        travel: Travel::Limited { min: n(0.0), max: n(0.0) },
    };
    let motion = Motion { current: n(0.0), velocity: n(1.0) };
    let after = locked.step(motion, n(1.0), n(1.0));
    assert_eq!(v(after.current), 0.0);
    assert_eq!(v(after.velocity), 0.0);
    // A gun at its stop with a target just outside.
    let spec = gun_spec();
    let max = 15.0f32.to_radians();
    let motion = Motion { current: n(max), velocity: n(0.1) };
    let after = spec.step(motion, n(0.27), n(0.1));
    assert_eq!(v(after.current), max);
    assert_eq!(v(after.velocity), 0.0);
}

#[test]
fn a_servo_keeps_its_speed_limit() {
    let mut numbers = Numbers(12);
    let spec = turret_spec();
    let limit = 14.0f32.to_radians();
    let mut motion = Motion { current: n(0.0), velocity: n(0.0) };
    let mut fastest: f32 = 0.0;
    for _ in 0..5000 {
        let target = numbers.next(-3.0, 3.0);
        let dt = numbers.next(0.0, 0.5);
        motion = spec.step(motion, n(target), n(dt));
        let speed = v(motion.velocity).abs();
        assert!(speed as f64 <= limit as f64 * (1.0 + 4.0 / 16_777_216.0));
        fastest = fastest.max(speed);
    }
    assert!(fastest >= limit * 0.99);
}

#[test]
fn velocity_changes_within_the_acceleration_limit() {
    let spec = turret_spec();
    let motion = Motion { current: n(0.0), velocity: n(0.0) };
    let after = spec.step(motion, n(2.0), n(0.25));
    assert_eq!(v(after.velocity), 20.0f32.to_radians() * 0.25);
}

#[test]
fn bounds_out_of_order_leave_no_step() {
    let motion = Motion { current: n(0.0), velocity: n(0.0) };
    let crossed = ServoSpec { travel: Travel::Limited { min: n(5.0), max: n(-5.0) }, ..gun_spec() };
    assert!(!crossed.can_step(motion, n(1.0), n(0.1)));
    let backward = ServoSpec { accel: n(-20.0), ..gun_spec() };
    assert!(!backward.can_step(motion, n(1.0), n(0.1)));
    assert!(!gun_spec().can_step(motion, n(1.0), n(f32::NAN)));
    // The travel holds a step that arrives as well; the acceleration limit does not.
    let fast = Motion { current: n(0.0), velocity: n(10.0) };
    assert!(!crossed.can_step(fast, n(0.5), n(0.1)));
    assert!(backward.can_step(fast, n(0.5), n(0.1)));
}

#[test]
fn the_rest_pose_is_read_once() {
    let spec = turret_spec();
    let command = ServoCommand { target: n(1.0) };
    let mut state = ServoState::default();
    assert!(!state.captured);
    assert_eq!(v(state.rest.w), 1.0);
    let first = Rotation { x: n(0.0), y: n(0.6), z: n(0.0), w: n(0.8) };
    let second = Rotation { x: n(1.0), y: n(0.0), z: n(0.0), w: n(0.0) };
    drive_servo(&spec, &command, &mut state, first, n(0.1));
    drive_servo(&spec, &command, &mut state, second, n(0.1));
    assert!(state.captured);
    assert_eq!(state.rest, first);
    assert!(v(state.current()) > 0.0);
    let pose = servo_pose(&spec, &state);
    assert_eq!(pose.rest, first);
    assert_eq!(pose.axis, axis_y());
    assert_eq!(pose.angle, state.current());
    assert_eq!(v(ServoCommand::default().target), 0.0);
}

#[test]
fn shortest_angles_match_the_hardware() {
    let mut numbers = Numbers(99);
    for _ in 0..3000 {
        let diff = numbers.next(-50.0, 50.0);
        let got = v(shortest_angle(n(diff)));
        assert_eq!(got, wrap(diff));
        assert!((-PI..=PI).contains(&got));
    }
    assert_eq!(v(shortest_angle(n(0.0))), 0.0);
}

#[test]
fn axes_are_the_unit_vectors() {
    assert_eq!(Axis::X.to_vec3(), axis_x());
    assert_eq!(Axis::Y.to_vec3(), axis_y());
    assert_eq!(Axis::Z.to_vec3(), axis_z());
    assert_eq!(v(axis_z().z), 1.0);
    assert_eq!(v(axis_z().x), 0.0);
}

fn armor() -> VolumeSpec {
    VolumeSpec { material_factor: n(1000.0), hp: None, crew: None, ammo: false, function: None }
}

fn barrel_module() -> VolumeSpec {
    VolumeSpec { hp: Some(n(8.0)), function: Some(FunctionRole::GunBarrel), ..armor() }
}

fn commander() -> VolumeSpec {
    VolumeSpec { hp: Some(n(3.0)), crew: Some(CrewStation::Commander), ..armor() }
}

fn spec_with(volumes: Vec<(&str, VolumeSpec)>) -> TankSpec {
    let servo = turret_spec();
    TankSpec {
        mass: n(57000.0),
        inertia_extents: (n(3.0), n(2.0), n(6.3)),
        drivetrain: Drivetrain {
            max_thrust: n(12500.0),
            rolling_resistance: n(900.0),
            lateral_grip: n(9000.0),
            brush_stiffness: n(90000.0),
            brush_damping: n(9000.0),
        },
        suspension: SuspensionParams {
            ray_length: n(0.8),
            rest_length: n(0.58),
            stiffness: n(551613.0),
            damping: n(50000.0),
        },
        turret: servo,
        gun: servo,
        capabilities: TankCapabilities {
            drive: None,
            traverse: None,
            fire: None,
            load: None,
            gunner_sight: None,
            commander_view: None,
        },
        volumes: volumes.into_iter().map(|(name, volume)| (name.to_string(), volume)).collect(),
    }
}

fn nodes(names: &[&str]) -> Vec<ModelNode> {
    let mut out = Vec::new();
    for (i, name) in names.iter().enumerate() {
        let name = if name.is_empty() { None } else { Some(name.to_string()) };
        out.push(ModelNode { entity: 100 + i as u64, name });
    }
    out
}

const COMPLETE: [&str; 12] = [
    "",
    "Hull",
    "Turret",
    "Gun",
    "Gun_Barrel",
    "Muzzle",
    "Center_Of_Mass",
    "Wheel_L_0",
    "Wheel_R_0",
    "Collider_Hull",
    "Ballistic_Hull_UFP",
    "Ballistic_Commander",
];

fn declared() -> Vec<(&'static str, VolumeSpec)> {
    vec![("Ballistic_Hull_UFP", armor()), ("Ballistic_Commander", commander())]
}

#[test]
fn a_complete_model_binds() {
    let spec = spec_with(declared());
    let mut names = COMPLETE.to_vec();
    names.push("Ballistic_Forgotten");
    names.push("Antenna");
    let bound: BoundRig = match on_tank_ready(&nodes(&names), &spec) {
        Ok(bound) => bound,
        Err(error) => panic!("{:?}", error),
    };
    assert_eq!(bound.rig, Rig { hull: 101, turret: 102, gun: 103 });
    let want = vec![
        (101, NodeRole::Hull),
        (102, NodeRole::Turret),
        (103, NodeRole::Gun),
        (104, NodeRole::GunBarrel),
        (105, NodeRole::Muzzle),
        (106, NodeRole::CenterOfMass),
        (107, NodeRole::Roadwheel(TrackSide::Left)),
        (108, NodeRole::Roadwheel(TrackSide::Right)),
        (109, NodeRole::Collider),
        (110, NodeRole::Volume(armor())),
        (111, NodeRole::Volume(commander())),
        (112, NodeRole::Undeclared),
    ];
    assert_eq!(bound.nodes, want);
}

#[test]
fn missing_nodes_are_listed_in_order() {
    let spec = spec_with(vec![]);
    let error = on_tank_ready(&nodes(&["", "Gun", "Wheel_R_3"]), &spec);
    let want: Vec<String> = [
        "Hull",
        "Turret",
        "Gun_Barrel",
        "Muzzle",
        "Center_Of_Mass",
        "*Collider_",
        "Wheel_L*",
    ]
    .iter()
    .map(|s| s.to_string())
    .collect();
    assert_eq!(error, Err(RigError::MissingNodes(want)));
    let all = on_tank_ready(&vec![], &spec);
    assert!(matches!(all, Err(RigError::MissingNodes(ref labels)) if labels.len() == 9));
}

#[test]
fn missing_volumes_are_listed() {
    let mut volumes = declared();
    volumes.push(("Ballistic_Ammo_L_0", VolumeSpec { hp: Some(n(4.0)), ammo: true, ..armor() }));
    let error = on_tank_ready(&nodes(&COMPLETE), &spec_with(volumes));
    assert_eq!(
        error,
        Err(RigError::MissingVolumes(vec!["Ballistic_Ammo_L_0".to_string()]))
    );
}

#[test]
fn a_consequence_needs_hit_points() {
    for bad in [
        VolumeSpec { hp: None, ..commander() },
        VolumeSpec { hp: None, ..barrel_module() },
        VolumeSpec { ammo: true, ..armor() },
    ] {
        assert!(!bad.is_sound());
        let spec = spec_with(vec![("Ballistic_Hull_UFP", armor()), ("Ballistic_Commander", bad)]);
        // It is reported before anything that is missing.
        let error = on_tank_ready(&nodes(&["Ballistic_Commander"]), &spec);
        assert_eq!(
            error,
            Err(RigError::FacetWithoutHealth("Ballistic_Commander".to_string()))
        );
    }
    assert!(armor().is_sound() && commander().is_sound());
}

#[test]
fn a_rig_name_is_never_a_volume() {
    let mut volumes = declared();
    volumes.push(("Turret", armor()));
    let error = on_tank_ready(&nodes(&COMPLETE), &spec_with(volumes));
    assert_eq!(error, Err(RigError::MissingVolumes(vec!["Turret".to_string()])));
}

#[test]
fn wheels_take_their_side_from_the_name() {
    let spec = spec_with(declared());
    let mut names = COMPLETE.to_vec();
    names.push("Wheel_Left");
    names.push("Wheel_Spare");
    names.push("Wheel_");
    let bound = match on_tank_ready(&nodes(&names), &spec) {
        Ok(bound) => bound,
        Err(error) => panic!("{:?}", error),
    };
    let last: Vec<NodeRole> = bound.nodes[bound.nodes.len() - 3..].iter().map(|b| b.1).collect();
    assert_eq!(
        last,
        vec![
            NodeRole::Roadwheel(TrackSide::Left),
            NodeRole::Roadwheel(TrackSide::Right),
            NodeRole::Roadwheel(TrackSide::Right),
        ]
    );
}

#[test]
fn volumes_are_found_by_name() {
    let spec = spec_with(vec![
        ("Ballistic_Gun_Barrel", barrel_module()),
        ("Ballistic_Hull_UFP", armor()),
    ]);
    assert_eq!(spec.volume("Ballistic_Gun_Barrel"), Some(barrel_module()));
    assert_eq!(spec.volume("Ballistic_Hull_UFP").map(|s| s.hp), Some(None));
    assert_eq!(spec.volume("Ballistic_Hull"), None);
    let health = barrel_module().health();
    assert_eq!(health.map(|h| (v(h.current), v(h.max))), Some((8.0, 8.0)));
    assert!(armor().health().is_none());
}

#[test]
fn the_tank_waits_for_its_spec_sheet() {
    assert_eq!(spawn_tank_when_loaded(SpecLoad::NotWanted), SpawnStep::Wait);
    assert_eq!(spawn_tank_when_loaded(SpecLoad::OnItsWay), SpawnStep::Wait);
    assert_eq!(
        spawn_tank_when_loaded(SpecLoad::Loaded),
        SpawnStep::Spawn(AppState::Playing)
    );
    assert_eq!(spawn_tank_when_loaded(SpecLoad::Failed), SpawnStep::Abort);
    assert!(!report_failed_spec(&vec![]));
    assert!(!report_failed_spec(&vec![SpecLoad::Loaded, SpecLoad::OnItsWay]));
    assert!(report_failed_spec(&vec![SpecLoad::Loaded, SpecLoad::Failed]));
}

#[test]
fn a_name_stands_for_one_volume() {
    let mut spec = spec_with(vec![("Hull_Front", armor()), ("Seat", commander())]);
    declare_volume(&mut spec.volumes, "Barrel".to_string(), barrel_module());
    assert_eq!(spec.volumes.len(), 3);
    declare_volume(&mut spec.volumes, "Seat".to_string(), armor());
    assert_eq!(spec.volumes.len(), 3);
    assert_eq!(spec.volume("Seat"), Some(armor()));
    assert_eq!(spec.volume("Barrel"), Some(barrel_module()));
    assert_eq!(spec.volume("Hull_Front"), Some(armor()));
    assert_eq!(spec.volume("Other"), None);
    spec.volumes.reverse();
    assert_eq!(spec.volume("Seat"), Some(armor()));
    assert_eq!(spec.volume("Barrel"), Some(barrel_module()));
}
