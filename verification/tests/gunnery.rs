use overmatch::binary32::encoding::Binary32;
use overmatch::camera::{
    capture_turret_pivot, orbit_center, orbit_look, orbit_position, orbit_radius, orbit_zoom,
    sight_pitch, OrbitCamera, TurretPivot,
};
use overmatch::damage::{
    Capability, ComponentHealth, ControlledEntry, ControlledTank, CrewStation, FunctionRole, Group,
    Part, TankCapabilities, TankVolumes, VolumeFacets,
};
use overmatch::shooting::{
    apply_recoil, attach_recoil, fire, shell, MuzzlePose, Recoil, Reload, CALIBER, MUZZLE_SPEED,
    RECOIL_DAMPING, RECOIL_KICK, RECOIL_STIFFNESS, RELOAD_SECS, SHELL_MASS,
};
use overmatch::sight::{
    adjust_range, drive_gunner_aim, in_gunner, in_third_person, local_dir, optic_works,
    superelevation, third_person_works, toggle_sight, update_intent_reticle,
    update_view_death_overlay, GunnerIntent, ModelVisibility, OverlayChange, Ranging, ReticleStep,
    SightMode,
};
use overmatch::tank::{Motion, Rig, ServoState};
use overmatch::vector::{axis_z, origin, vector, Vector3};
use std::collections::HashMap;
use std::f32::consts::{FRAC_PI_2, FRAC_PI_4, PI, TAU};

fn n(x: f32) -> Binary32 {
    Binary32::from_bits(x.to_bits())
}

fn v(x: Binary32) -> f32 {
    f32::from_bits(x.to_bits())
}

struct Numbers(u32);

impl Numbers {
    fn next(&mut self, low: f32, high: f32) -> f32 {
        self.0 = self.0.wrapping_mul(1664525).wrapping_add(1013904223);
        low + (high - low) * ((self.0 >> 8) as f32 / 16_777_216.0)
    }
}

fn wrap(diff: f32) -> f32 {
    (diff + PI).rem_euclid(TAU) - PI
}

fn hardware_superelevation(range: f32) -> f32 {
    9.81 * range / (2.0 * 773.0 * 773.0)
}

fn seat(station: CrewStation, dead: bool) -> VolumeFacets {
    VolumeFacets { crew: Some(station), crewman: None, dead, function: None, health: None }
}

/// A tank whose gunner and commander live or not.
fn tank(gunner: bool, commander: bool) -> ControlledTank {
    let mut volumes = HashMap::new();
    volumes.insert(1, seat(CrewStation::Gunner, !gunner));
    volumes.insert(2, seat(CrewStation::Commander, !commander));
    volumes.insert(
        3,
        VolumeFacets {
            crew: None,
            crewman: None,
            dead: false,
            function: Some(FunctionRole::Breech),
            health: Some(ComponentHealth { current: n(8.0), max: n(8.0) }),
        },
    );
    let gunner_only = Some(vec![Group::Single(Part::Gunner)]);
    ControlledTank {
        tanks: vec![ControlledEntry {
            entity: 10,
            rig: Rig { hull: 20, turret: 21, gun: 22 },
            volumes: Some(TankVolumes(vec![1, 2, 3])),
            capabilities: Some(TankCapabilities {
                drive: None,
                traverse: gunner_only.clone(),
                fire: Some(vec![Group::Single(Part::Gunner), Group::Single(Part::Breech)]),
                load: None,
                gunner_sight: gunner_only,
                commander_view: Some(vec![Group::Single(Part::Commander)]),
            }),
        }],
        volumes,
    }
}

fn lay(entity: u64, angle: f32) -> HashMap<u64, ServoState> {
    let mut servos = HashMap::new();
    let mut state = ServoState::default();
    state.motion = Motion { current: n(angle), velocity: n(0.0) };
    servos.insert(entity, state);
    servos
}

#[test]
fn gunnery_constants_are_their_decimals() {
    assert_eq!(MUZZLE_SPEED, 773.0f32.to_bits());
    assert_eq!(CALIBER, 0.088f32.to_bits());
    assert_eq!(SHELL_MASS, 10.2f32.to_bits());
    assert_eq!(RELOAD_SECS, 3.0f32.to_bits());
    assert_eq!(RECOIL_KICK, 14.0f32.to_bits());
    assert_eq!(RECOIL_STIFFNESS, 90.0f32.to_bits());
    assert_eq!(RECOIL_DAMPING, 14.0f32.to_bits());
    assert_eq!(overmatch::sight::DEFAULT_RANGE, 800.0f32.to_bits());
    assert_eq!(overmatch::sight::GRAVITY, 9.81f32.to_bits());
    assert_eq!(overmatch::sight::SENSITIVITY, 0.0005f32.to_bits());
    assert_eq!(overmatch::sight::LEAD_MARGIN, 0.04f32.to_bits());
    assert_eq!(overmatch::sight::RANGE_STEP, 50.0f32.to_bits());
    assert_eq!(overmatch::sight::RANGE_MIN, 50.0f32.to_bits());
    assert_eq!(overmatch::sight::RANGE_MAX, 4000.0f32.to_bits());
}

#[test]
fn camera_constants_are_their_decimals() {
    assert_eq!(overmatch::camera::ORBIT_FOV, FRAC_PI_4.to_bits());
    assert_eq!(overmatch::camera::GUNNER_FOV, 0.12f32.to_bits());
    assert_eq!(overmatch::camera::PITCH_LIMIT, (FRAC_PI_2 - 0.001).to_bits());
    assert_eq!(overmatch::camera::YAW_SENSITIVITY, 0.004f32.to_bits());
    assert_eq!(overmatch::camera::PITCH_SENSITIVITY, 0.003f32.to_bits());
    assert_eq!(overmatch::camera::ZOOM_SPEED, 0.01f32.to_bits());
    assert_eq!(overmatch::camera::ZOOM_GLIDE, 12.0f32.to_bits());
    assert_eq!(overmatch::camera::PIVOT_LIFT, 2.5f32.to_bits());
    assert_eq!(overmatch::camera::ORBIT_FAR, 18.0f32.to_bits());
    assert_eq!(overmatch::camera::ORBIT_NEAR, 5.0f32.to_bits());
}

#[test]
fn superelevation_matches_the_hardware() {
    let mut numbers = Numbers(5);
    let mut last = 0.0;
    for _ in 0..1000 {
        let range = numbers.next(0.0, 5000.0);
        assert_eq!(v(superelevation(n(range))), hardware_superelevation(range));
    }
    for step in 0..80 {
        let now = v(superelevation(n(step as f32 * 50.0)));
        assert!(now >= last);
        last = now;
    }
    assert_eq!(v(Ranging::default().range), 800.0);
}

#[test]
fn views_work_only_with_their_crew() {
    assert_eq!(SightMode::default(), SightMode::ThirdPerson);
    assert!(in_gunner(SightMode::Gunner, true));
    assert!(!in_gunner(SightMode::Gunner, false));
    assert!(!in_gunner(SightMode::ThirdPerson, true));
    assert!(in_third_person(SightMode::ThirdPerson, true));
    assert!(!in_third_person(SightMode::ThirdPerson, false));
    assert!(!in_third_person(SightMode::Gunner, true));
    for gunner in [false, true] {
        for commander in [false, true] {
            let tank = tank(gunner, commander);
            assert_eq!(optic_works(SightMode::Gunner, &tank), gunner);
            assert!(!optic_works(SightMode::ThirdPerson, &tank));
            assert_eq!(third_person_works(SightMode::ThirdPerson, &tank), commander);
            assert!(!third_person_works(SightMode::Gunner, &tank));
        }
    }
}

#[test]
fn entering_the_optic_seeds_the_intent() {
    let controlled = tank(true, true);
    let ranging = Ranging::default();
    let mut mode = SightMode::ThirdPerson;
    let mut intent = GunnerIntent::default();
    let change = toggle_sight(
        true,
        &mut mode,
        &mut intent,
        &ranging,
        &controlled,
        &lay(21, 0.7),
        &lay(22, 0.05),
    );
    assert_eq!(mode, SightMode::Gunner);
    assert_eq!(change, Some(ModelVisibility { tank: 10, hidden: true }));
    assert_eq!(v(intent.yaw), 0.7);
    assert_eq!(v(intent.pitch), 0.05 - hardware_superelevation(800.0));

    // With the mouse at rest nothing jumps.
    let commands = drive_gunner_aim(
        n(0.0),
        n(0.0),
        &ranging,
        &mut intent,
        &controlled,
        &lay(21, 0.7),
        &lay(22, 0.05),
    );
    assert_eq!(commands.map(|c| v(c.turret)), Some(0.7));
    assert_eq!(v(intent.yaw), 0.7);

    let change = toggle_sight(
        true,
        &mut mode,
        &mut intent,
        &ranging,
        &controlled,
        &HashMap::new(),
        &HashMap::new(),
    );
    assert_eq!(mode, SightMode::ThirdPerson);
    assert_eq!(change, Some(ModelVisibility { tank: 10, hidden: false }));
    assert_eq!(v(intent.yaw), 0.7);
}

#[test]
fn no_switch_into_a_dark_view() {
    let ranging = Ranging::default();
    let nothing = HashMap::new();
    for (controlled, start) in [
        (tank(false, true), SightMode::ThirdPerson),
        (tank(true, false), SightMode::Gunner),
        (ControlledTank { tanks: vec![], volumes: HashMap::new() }, SightMode::ThirdPerson),
    ] {
        let mut mode = start;
        let mut intent = GunnerIntent { yaw: n(0.3), pitch: n(0.1) };
        let change =
            toggle_sight(true, &mut mode, &mut intent, &ranging, &controlled, &nothing, &nothing);
        assert_eq!(change, None);
        assert_eq!(mode, start);
        assert_eq!(v(intent.yaw), 0.3);
    }
    let mut mode = SightMode::ThirdPerson;
    let mut intent = GunnerIntent::default();
    let idle =
        toggle_sight(false, &mut mode, &mut intent, &ranging, &tank(true, true), &nothing, &nothing);
    assert_eq!((idle, mode), (None, SightMode::ThirdPerson));
}

#[test]
fn aiming_matches_the_hardware() {
    let mut numbers = Numbers(11);
    let controlled = tank(true, true);
    for _ in 0..1000 {
        let ranging = Ranging { range: n(numbers.next(50.0, 4000.0)) };
        let turret = numbers.next(-3.0, 3.0);
        let gun = numbers.next(-0.1, 0.2);
        let dx = numbers.next(-120.0, 120.0);
        let dy = numbers.next(-120.0, 120.0);
        let mut yaw = turret + numbers.next(-0.05, 0.05);
        let mut pitch = gun + numbers.next(-0.05, 0.05);
        let mut intent = GunnerIntent { yaw: n(yaw), pitch: n(pitch) };
        let commands = drive_gunner_aim(
            n(dx),
            n(dy),
            &ranging,
            &mut intent,
            &controlled,
            &lay(21, turret),
            &lay(22, gun),
        )
        .unwrap();

        yaw -= dx * 0.0005;
        pitch -= dy * 0.0005;
        let elevation = hardware_superelevation(v(ranging.range));
        let yaw_offset = wrap(yaw - turret);
        let sight_now = gun - elevation;
        let pitch_offset = pitch - sight_now;
        let len = (yaw_offset * yaw_offset + pitch_offset * pitch_offset).sqrt();
        if len > 0.04 {
            let scale = 0.04 / len;
            yaw = turret + yaw_offset * scale;
            pitch = sight_now + pitch_offset * scale;
        }
        assert_eq!((v(intent.yaw), v(intent.pitch)), (yaw, pitch));
        assert_eq!((v(commands.turret), v(commands.gun)), (yaw, pitch + elevation));
    }
}

#[test]
fn a_dead_gunner_freezes_the_aim() {
    let ranging = Ranging::default();
    let mut intent = GunnerIntent { yaw: n(0.3), pitch: n(0.1) };
    let frozen = drive_gunner_aim(
        n(50.0),
        n(50.0),
        &ranging,
        &mut intent,
        &tank(false, true),
        &lay(21, 0.0),
        &lay(22, 0.0),
    );
    assert_eq!(frozen, None);
    assert_eq!(v(intent.yaw), 0.3);
    // Without servos the intent moves but nothing is commanded.
    let unbound = drive_gunner_aim(
        n(100.0),
        n(0.0),
        &ranging,
        &mut intent,
        &tank(true, true),
        &HashMap::new(),
        &lay(22, 0.0),
    );
    assert_eq!(unbound, None);
    assert_eq!(v(intent.yaw), 0.3 - 100.0 * 0.0005);
}

#[test]
fn the_overlay_covers_a_dark_view() {
    let show = |text: &str| OverlayChange::Show(text.to_string());
    let none = ControlledTank { tanks: vec![], volumes: HashMap::new() };
    assert_eq!(update_view_death_overlay(SightMode::Gunner, &none), OverlayChange::Keep);
    assert_eq!(
        update_view_death_overlay(SightMode::Gunner, &tank(true, false)),
        OverlayChange::Hide
    );
    assert_eq!(
        update_view_death_overlay(SightMode::Gunner, &tank(false, true)),
        show("Crewman down — [Lshift] for third-person")
    );
    assert_eq!(
        update_view_death_overlay(SightMode::ThirdPerson, &tank(true, false)),
        show("Crewman down — [Lshift] for gunner optic")
    );
    assert_eq!(
        update_view_death_overlay(SightMode::ThirdPerson, &tank(false, false)),
        show("All view crew down")
    );
}

#[test]
fn the_dial_stays_between_its_ends() {
    let mut ranging = Ranging::default();
    adjust_range(n(2.0), &mut ranging);
    assert_eq!(v(ranging.range), 900.0);
    adjust_range(n(-100.0), &mut ranging);
    assert_eq!(v(ranging.range), 50.0);
    adjust_range(n(1000.0), &mut ranging);
    assert_eq!(v(ranging.range), 4000.0);
}

#[test]
fn the_intent_has_a_direction() {
    let (sy, cy) = 0.4f32.sin_cos();
    let (sp, cp) = 0.1f32.sin_cos();
    let dir = local_dir(n(sy), n(cy), n(sp), n(cp));
    assert_eq!((v(dir.x), v(dir.y), v(dir.z)), (-sy * cp, sp, -cy * cp));
}

#[test]
fn the_reticle_shows_only_in_the_optic() {
    assert_eq!(update_intent_reticle(SightMode::ThirdPerson, true, true), ReticleStep::Hide);
    assert_eq!(update_intent_reticle(SightMode::Gunner, false, true), ReticleStep::Hide);
    assert_eq!(update_intent_reticle(SightMode::Gunner, true, false), ReticleStep::Keep);
    assert_eq!(update_intent_reticle(SightMode::Gunner, true, true), ReticleStep::Project);
}

fn pose() -> MuzzlePose {
    MuzzlePose { origin: vector(n(1.0), n(2.0), n(3.0)), direction: axis_z() }
}

#[test]
fn a_shot_needs_trigger_load_muzzle_and_crew() {
    let mut reload = Reload { remaining: n(0.0) };
    let mut barrels = vec![attach_recoil(origin())];
    let ready = tank(true, true);
    assert_eq!(fire(false, n(0.1), Some(pose()), &ready, &mut reload, &mut barrels), None);
    assert_eq!(fire(true, n(0.1), None, &ready, &mut reload, &mut barrels), None);
    let dead = tank(false, true);
    assert_eq!(fire(true, n(0.1), Some(pose()), &dead, &mut reload, &mut barrels), None);
    assert_eq!(v(barrels[0].velocity), 0.0);

    let shot = fire(true, n(0.1), Some(pose()), &ready, &mut reload, &mut barrels);
    assert_eq!(shot, Some(shell(pose())));
    assert_eq!(v(reload.remaining), 3.0);
    assert_eq!(v(barrels[0].velocity), 14.0);
    let fired = shell(pose());
    assert_eq!((v(fired.speed), v(fired.caliber), v(fired.mass)), (773.0, 0.088, 10.2));

    // Reloading takes three seconds.
    assert_eq!(fire(true, n(1.0), Some(pose()), &ready, &mut reload, &mut barrels), None);
    assert_eq!(v(reload.remaining), 2.0);
    assert_eq!(fire(true, n(1.5), Some(pose()), &ready, &mut reload, &mut barrels), None);
    assert!(fire(true, n(9.0), Some(pose()), &ready, &mut reload, &mut barrels).is_some());
}

#[test]
fn only_a_single_barrel_is_kicked() {
    let mut reload = Reload { remaining: n(0.0) };
    let mut barrels = vec![attach_recoil(origin()), attach_recoil(origin())];
    assert!(fire(true, n(0.1), Some(pose()), &tank(true, true), &mut reload, &mut barrels).is_some());
    assert_eq!(v(barrels[0].velocity), 0.0);
    assert_eq!(v(barrels[1].velocity), 0.0);
}

#[test]
fn recoil_matches_the_hardware() {
    let rest = vector(n(0.1), n(0.2), n(-1.5));
    let mut recoil: Recoil = attach_recoil(rest);
    recoil.velocity = n(14.0);
    let (mut offset, mut velocity) = (0.0f32, 14.0f32);
    let dt = 1.0f32 / 64.0;
    let mut back = 0.0f32;
    for _ in 0..400 {
        let position: Vector3 = apply_recoil(&mut recoil, n(dt));
        let accel = -90.0 * offset - 14.0 * velocity;
        velocity += accel * dt;
        offset += velocity * dt;
        if offset < 0.0 {
            offset = 0.0;
            velocity = 0.0;
        }
        assert_eq!((v(recoil.offset), v(recoil.velocity)), (offset, velocity));
        assert_eq!(v(position.z), -1.5 + 1.0 * offset);
        assert_eq!(v(position.x), 0.1);
        assert!(offset >= 0.0);
        back = back.max(offset);
    }
    assert!(back > 0.3);
    assert_eq!(offset, 0.0);
    assert_eq!(v(apply_recoil(&mut recoil, n(dt)).z), -1.5);
}

#[test]
fn the_orbit_camera_matches_the_hardware() {
    let mut numbers = Numbers(13);
    let mut orbit = OrbitCamera { zoom: n(0.0), target_zoom: n(0.0) };
    let (mut zoom, mut target) = (0.0f32, 0.0f32);
    let limit = FRAC_PI_2 - 0.001;
    for _ in 0..1000 {
        let scroll = numbers.next(-30.0, 30.0);
        let dt = numbers.next(0.0, 0.1);
        orbit_zoom(&mut orbit, n(scroll), n(dt));
        target = (target + scroll * 0.01).clamp(0.0, 1.0);
        let ease = (12.0 * dt).min(1.0);
        zoom += (target - zoom) * ease;
        assert_eq!((v(orbit.zoom), v(orbit.target_zoom)), (zoom, target));
        assert!((0.0..=1.0).contains(&zoom));
        let radius = 18.0 + (5.0 - 18.0) * zoom;
        assert_eq!(v(orbit_radius(n(zoom))), radius);
        assert!((5.0..=18.0).contains(&radius));

        let (yaw, pitch) = (numbers.next(-3.0, 3.0), numbers.next(-1.5, 1.5));
        let (dx, dy) = (numbers.next(-200.0, 200.0), numbers.next(-200.0, 200.0));
        let (new_yaw, new_pitch) = orbit_look(n(yaw), n(pitch), n(dx), n(dy));
        assert_eq!(v(new_yaw), yaw - dx * 0.004);
        assert_eq!(v(new_pitch), (pitch - dy * 0.003).clamp(-limit, limit));
    }
}

#[test]
fn the_pivot_is_captured_once() {
    let mut pivot = TurretPivot(None);
    capture_turret_pivot(&mut pivot, None);
    assert_eq!(pivot.0, None);
    capture_turret_pivot(&mut pivot, Some(axis_z()));
    capture_turret_pivot(&mut pivot, Some(origin()));
    assert_eq!(pivot.0, Some(axis_z()));
}

#[test]
fn the_camera_sits_behind_its_centre() {
    let center = orbit_center(vector(n(1.0), n(2.0), n(3.0)));
    assert_eq!(v(center.y), 4.5);
    let place = orbit_position(center, axis_z(), n(10.0));
    assert_eq!((v(place.x), v(place.y), v(place.z)), (1.0, 4.5, 13.0));
    let pitch = sight_pitch(&Ranging::default());
    assert_eq!(v(pitch), -hardware_superelevation(800.0));
}

#[test]
fn capability_of_a_view_is_its_crewman() {
    assert!(tank(true, false).available(Capability::GunnerSight));
    assert!(!tank(true, false).available(Capability::CommanderView));
}

#[test]
fn a_long_lead_is_brought_back_to_the_margin() {
    let mut intent = GunnerIntent { yaw: n(0.3), pitch: n(0.4) };
    let ranging = Ranging { range: n(0.0) };
    drive_gunner_aim(
        n(0.0),
        n(0.0),
        &ranging,
        &mut intent,
        &tank(true, true),
        &lay(21, 0.0),
        &lay(22, 0.0),
    );
    let length = (v(intent.yaw).powi(2) + v(intent.pitch).powi(2)).sqrt();
    assert!((length - 0.04).abs() < 1e-6);
    assert!((v(intent.yaw) / v(intent.pitch) - 0.75).abs() < 1e-5);
}

#[test]
fn a_direction_has_its_angles() {
    let ahead = local_dir(n(0.0), n(1.0), n(0.0), n(1.0));
    assert_eq!(v(ahead.x), 0.0);
    assert_eq!(v(ahead.y), 0.0);
    assert_eq!(v(ahead.z), -1.0);
    let mut numbers = Numbers(31);
    for _ in 0..2000 {
        let (yaw, pitch) = (numbers.next(-3.1, 3.1), numbers.next(-1.5, 1.5));
        let (sy, cy) = yaw.sin_cos();
        let (sp, cp) = pitch.sin_cos();
        let dir = local_dir(n(sy), n(cy), n(sp), n(cp));
        let (x, y, z) = (v(dir.x) as f64, v(dir.y) as f64, v(dir.z) as f64);
        assert!((x * x + y * y + z * z - 1.0).abs() < 1e-6);
        assert!(((-x).atan2(-z) - yaw as f64).abs() < 1e-5);
        assert!((y.atan2(x.hypot(z)) - pitch as f64).abs() < 1e-5);
    }
}

#[test]
fn a_lead_keeps_to_the_margin() {
    let mut numbers = Numbers(8);
    let ranging = Ranging { range: n(0.0) };
    let tank = tank(true, true);
    for _ in 0..2000 {
        let mut intent = GunnerIntent { yaw: n(numbers.next(-2.0, 2.0)), pitch: n(numbers.next(-0.5, 0.5)) };
        drive_gunner_aim(
            n(0.0),
            n(0.0),
            &ranging,
            &mut intent,
            &tank,
            &lay(21, 0.0),
            &lay(22, 0.0),
        );
        let (yaw, pitch) = (v(intent.yaw) as f64, v(intent.pitch) as f64);
        assert!(yaw.hypot(pitch) <= 0.04f32 as f64 * (1.0 + 32.0 / 16_777_216.0));
    }
}
