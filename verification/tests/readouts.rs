use overmatch::binary32::encoding::Binary32;
use overmatch::damage::{
    ComponentHealth, CrewStation, FunctionRole, Group, KnockoutReason, Part, TankCapabilities,
    TankVolumes, VolumeFacets,
};
use overmatch::debug::{flip, wheel_arrows, xray_opacity, FORCE_VIZ_SCALE, XRAY_ALPHA};
use overmatch::driving::Suspension;
use overmatch::hierarchy::{is_descendant_of, is_under_any};
use overmatch::hud::{
    assign_labels, capability_line, component_hp_text, component_is_lost, status_tint, tank_status,
    tank_status_label, tank_status_text, volume_label, StatusTint, VolumeReadout,
};
use overmatch::sandbox::{
    clear_damage, cursor_locked, fire, fly_look, fly_step, hull_look, is_hull_mesh, layer_status,
    shell_label, spall_outline, spawn_target_when_ready, speed_at, status_line, time_controls,
    toggle_full_pause, toggle_layers, toggle_march_mode, volume_look, FlyKeys, LayerKeys, LayerView,
    MarchMode, MeshState, PauseChange, SandboxClock, TimeKeys, VolumeState, SPEED_COUNT,
};
use overmatch::shooting::{shell, MuzzlePose};
use overmatch::state::{gameplay_runs, toggle_pause, AppState};
use overmatch::tank::SpecLoad;
use overmatch::text::{
    decimal_text, join, same_text, signed_decimal_text, starts_with, without,
};
use overmatch::vector::{axis_x, axis_y, axis_z, origin, vector, Vector3};
use overmatch::world::{ground_distance, ground_height, ramp_angle, ramp_height};
use std::collections::{HashMap, HashSet};
use std::f32::consts::FRAC_PI_2;

fn n(x: f32) -> Binary32 {
    Binary32::from_bits(x.to_bits())
}

fn v(x: Binary32) -> f32 {
    f32::from_bits(x.to_bits())
}

fn vv(a: Vector3) -> [f32; 3] {
    [v(a.x), v(a.y), v(a.z)]
}

fn health(current: f32, max: f32) -> ComponentHealth {
    ComponentHealth { current: n(current), max: n(max) }
}

#[test]
fn text_helpers_agree_with_std() {
    for (a, b) in [("Gun", "Gun"), ("Gun", "Gun_Barrel"), ("", ""), ("Gün", "Gun"), ("a—b", "a—b")] {
        assert_eq!(same_text(a, b), a == b);
        assert_eq!(starts_with(b, a), b.starts_with(a));
        assert_eq!(starts_with(a, b), a.starts_with(b));
    }
    for text in ["Ballistic_Ammo_L_0", "BallBallistic_istic_", "—Ballistic_Ballistic_x", "", "x"] {
        assert_eq!(without(text, "Ballistic_"), text.replace("Ballistic_", ""));
        assert_eq!(without(text, "aa"), text.replace("aa", ""));
    }
    assert_eq!(without("aaaaa", "aa"), "aaaaa".replace("aa", ""));
    for k in [0u64, 7, 10, 42, 999, 1000, 123456789, u64::MAX] {
        assert_eq!(decimal_text(k), k.to_string());
    }
    for k in [0i32, -1, -10, 100, i32::MIN, i32::MAX] {
        assert_eq!(signed_decimal_text(k), k.to_string());
    }
    let parts: Vec<String> = vec!["a".to_string(), "".to_string(), "b—".to_string()];
    assert_eq!(join(&parts, ", "), parts.join(", "));
    assert_eq!(join(&vec![], ", "), "");
    assert_eq!(join(&vec!["x".to_string()], ", "), "x");
}

#[test]
fn components_are_labelled_by_role_or_name() {
    let ammo = Some("Ballistic_Ammo_L_0");
    assert_eq!(volume_label(Some(CrewStation::BowGunner), true, None, ammo), "Bow gunner");
    assert_eq!(volume_label(None, false, Some(FunctionRole::Engine), ammo), "Engine");
    assert_eq!(volume_label(None, true, None, ammo), "Ammo_L_0");
    assert_eq!(volume_label(None, false, None, ammo), "Ammo_L_0");
    assert_eq!(volume_label(None, true, None, None), "Ammo");
    assert_eq!(volume_label(None, false, None, None), "Component");
}

#[test]
fn labels_go_to_damaged_components() {
    let components = vec![health(5.0, 5.0), health(4.0, 5.0), health(0.0, 3.0), health(2.0, 2.0)];
    assert_eq!(assign_labels(&components, 4), vec![Some(1), Some(2), None, None]);
    assert_eq!(assign_labels(&components, 1), vec![Some(1)]);
    assert_eq!(assign_labels(&vec![], 2), vec![None, None]);
    assert_eq!(component_hp_text("Engine", "4.0", "5"), "Engine\n4.0/5 hp");
    assert!(component_is_lost(health(0.0, 3.0)));
    assert!(component_is_lost(health(-1.0, 3.0)));
    assert!(!component_is_lost(health(0.1, 3.0)));
}

fn blank() -> VolumeReadout {
    VolumeReadout {
        crew: None,
        dead: false,
        function: None,
        health: None,
        ammo: false,
        cooked_off: false,
        name: None,
    }
}

fn battered() -> (TankVolumes, HashMap<u64, VolumeReadout>) {
    let mut volumes = HashMap::new();
    let crew = |station| VolumeReadout { crew: Some(station), ..blank() };
    volumes.insert(1, crew(CrewStation::Commander));
    volumes.insert(2, VolumeReadout { dead: true, ..crew(CrewStation::Gunner) });
    volumes.insert(3, VolumeReadout { health: Some(health(0.0, 4.0)), ..crew(CrewStation::Driver) });
    let rack = VolumeReadout { ammo: true, cooked_off: true, ..blank() };
    volumes.insert(4, VolumeReadout { name: Some("Ballistic_Ammo_L_0".to_string()), ..rack.clone() });
    volumes.insert(5, rack);
    volumes.insert(6, VolumeReadout { ammo: true, ..blank() });
    let engine = VolumeReadout { function: Some(FunctionRole::Engine), ..blank() };
    volumes.insert(7, VolumeReadout { health: Some(health(0.0, 8.0)), ..engine.clone() });
    volumes.insert(8, engine);
    (TankVolumes(vec![1, 2, 3, 4, 5, 6, 7, 8, 99]), volumes)
}

fn owned(texts: &[&str]) -> Vec<String> {
    texts.iter().map(|t| t.to_string()).collect()
}

#[test]
fn a_tank_is_summed_up() {
    let (ids, volumes) = battered();
    let status = tank_status(Some(&ids), &volumes);
    assert_eq!((status.crew_living, status.crew_total), (1, 3));
    assert_eq!(status.dead_crew, owned(&["Gunner", "Driver"]));
    assert_eq!(status.cooked_off, owned(&["Ballistic_Ammo_L_0", "ammo"]));
    assert_eq!(status.disabled, owned(&["Engine"]));
    assert_eq!(status.crew_living + status.dead_crew.len(), status.crew_total);
    let empty = tank_status(None, &volumes);
    assert_eq!((empty.crew_living, empty.crew_total), (0, 0));
    assert!(empty.dead_crew.is_empty() && empty.cooked_off.is_empty() && empty.disabled.is_empty());
}

#[test]
fn a_status_is_written_out() {
    let (ids, volumes) = battered();
    let status = tank_status(Some(&ids), &volumes);
    assert_eq!(
        tank_status_text(Some("Tiger I target"), Some(KnockoutReason::Cookoff), &status, None),
        "Tiger I target\nKNOCKED OUT (ammo cookoff)\nCrew 1/3\nDead: Gunner, Driver\n\
         Cookoff: Ballistic_Ammo_L_0, ammo\nDisabled: Engine"
    );
    let empty = tank_status(None, &volumes);
    assert_eq!(
        tank_status_text(None, None, &empty, Some("Drive 60%")),
        "Tiger I\nALIVE\nCrew 0/0\nDead: -\nCookoff: no\nDisabled: -\nCapabilities: Drive 60%"
    );
    assert_eq!(status_tint(Some(KnockoutReason::CrewLoss), &empty), StatusTint::KnockedOut);
    assert_eq!(status_tint(None, &status), StatusTint::Hurt);
    assert_eq!(status_tint(None, &empty), StatusTint::Sound);
}

fn gunner_facets(home: CrewStation) -> HashMap<u64, VolumeFacets> {
    let mut facets = HashMap::new();
    facets.insert(
        1,
        VolumeFacets {
            crew: Some(CrewStation::Gunner),
            crewman: Some(overmatch::damage::Crewman { home }),
            dead: false,
            function: None,
            health: None,
        },
    );
    facets
}

fn gunner_capabilities() -> TankCapabilities {
    TankCapabilities {
        drive: None,
        traverse: Some(vec![Group::Single(Part::Gunner)]),
        fire: Some(vec![Group::Single(Part::Gunner), Group::Single(Part::Breech)]),
        load: None,
        gunner_sight: Some(vec![]),
        commander_view: None,
    }
}

#[test]
fn capabilities_read_in_percent() {
    let ids = TankVolumes(vec![1]);
    let caps = gunner_capabilities();
    assert_eq!(
        capability_line(Some(&ids), Some(&caps), &gunner_facets(CrewStation::Driver)),
        "Drive 0%   Traverse 60%   Fire 0%   Load 0%   Gunner sight 100%   Commander view 0%"
    );
    let label = tank_status_label(
        Some("Tiger I"),
        None,
        Some(&ids),
        Some(&caps),
        &HashMap::new(),
        &gunner_facets(CrewStation::Gunner),
    );
    assert_eq!(
        label.text,
        "Tiger I\nALIVE\nCrew 0/0\nDead: -\nCookoff: no\nDisabled: -\nCapabilities: Drive 0%   \
         Traverse 100%   Fire 0%   Load 0%   Gunner sight 100%   Commander view 0%"
    );
    assert_eq!(label.tint, StatusTint::Sound);
}

#[test]
fn descent_follows_the_parents() {
    let mut parents = HashMap::new();
    parents.insert(3, 2);
    parents.insert(2, 1);
    parents.insert(8, 9);
    parents.insert(9, 8);
    assert!(is_descendant_of(3, 2, &parents));
    assert!(is_descendant_of(3, 1, &parents));
    assert!(!is_descendant_of(1, 3, &parents));
    assert!(!is_descendant_of(3, 3, &parents));
    // A cycle ends the walk, and a node on it descends from itself.
    assert!(is_descendant_of(8, 8, &parents));
    assert!(!is_descendant_of(8, 1, &parents));
    let mut marked = HashSet::new();
    marked.insert(2);
    assert!(is_under_any(3, &marked, &parents));
    assert!(is_under_any(2, &marked, &parents));
    assert!(!is_under_any(1, &marked, &parents));
    assert!(!is_under_any(9, &marked, &parents));
    assert!(is_hull_mesh(1, &marked, &parents));
    assert!(!is_hull_mesh(3, &marked, &parents));
}

#[test]
fn the_pause_key_flips_play_and_pause() {
    assert_eq!(AppState::default(), AppState::Playing);
    assert_eq!(toggle_pause(true, AppState::Playing), Some(AppState::Paused));
    assert_eq!(toggle_pause(true, AppState::Paused), Some(AppState::Playing));
    assert_eq!(toggle_pause(true, AppState::Loading), None);
    assert_eq!(toggle_pause(false, AppState::Playing), None);
    assert!(gameplay_runs(AppState::Playing));
    assert!(!gameplay_runs(AppState::Paused) && !gameplay_runs(AppState::Loading));
}

#[test]
fn layers_go_round() {
    let mut view = LayerView::default();
    assert_eq!(layer_status(&view), "1 mesh: solid\n2 armor: off\n3 components: off");
    let all = LayerKeys { mesh: true, armor: true, components: true };
    toggle_layers(all, &mut view);
    assert_eq!(layer_status(&view), "1 mesh: xray\n2 armor: on top\n3 components: on top");
    toggle_layers(all, &mut view);
    assert_eq!(layer_status(&view), "1 mesh: hidden\n2 armor: solid\n3 components: solid");
    toggle_layers(LayerKeys { mesh: true, armor: true, components: false }, &mut view);
    assert_eq!(layer_status(&view), "1 mesh: solid\n2 armor: xray\n3 components: solid");
    toggle_layers(LayerKeys { mesh: false, armor: true, components: false }, &mut view);
    assert_eq!((view.mesh, view.armor), (MeshState::Solid, VolumeState::Hidden));
}

#[test]
fn looks_follow_the_layers() {
    let mut view = LayerView::default();
    for (mesh, hidden, translucent) in [
        (MeshState::Solid, false, false),
        (MeshState::Xray, false, true),
        (MeshState::Hidden, true, false),
    ] {
        view.mesh = mesh;
        let look = hull_look(&view);
        assert_eq!((look.hidden, look.translucent), (hidden, translucent));
    }
    for (state, hidden, overlay, translucent) in [
        (VolumeState::Hidden, true, false, false),
        (VolumeState::OnTop, false, true, false),
        (VolumeState::Solid, false, false, false),
        (VolumeState::Xray, false, false, true),
    ] {
        view.armor = state;
        view.components = VolumeState::Hidden;
        let look = volume_look(&view, true);
        assert_eq!((look.hidden, look.overlay, look.translucent), (hidden, overlay, translucent));
        assert!(volume_look(&view, false).hidden);
    }
}

fn keys(pressed: &str) -> FlyKeys {
    FlyKeys {
        forward: pressed.contains('W'),
        backward: pressed.contains('S'),
        right: pressed.contains('D'),
        left: pressed.contains('A'),
        up: pressed.contains('U'),
        down: pressed.contains('C'),
    }
}

#[test]
fn flying_follows_the_heading() {
    let forward = vector(n(0.0), n(-0.6), n(-0.8));
    let right = axis_x();
    let step = |pressed: &str| fly_step(keys(pressed), forward, right, n(0.5)).map(vv);
    assert_eq!(step(""), None);
    assert_eq!(step("WS"), None);
    assert_eq!(step("W"), Some([0.0, 0.0, -6.0]));
    assert_eq!(step("S"), Some([0.0, 0.0, 6.0]));
    assert_eq!(step("D"), Some([6.0, 0.0, 0.0]));
    assert_eq!(step("A"), Some([-6.0, 0.0, 0.0]));
    assert_eq!(step("U"), Some([0.0, 6.0, 0.0]));
    assert_eq!(step("C"), Some([0.0, -6.0, 0.0]));
    let diagonal = step("WD").unwrap();
    assert!((diagonal[0] - 4.2426405).abs() < 1e-5 && (diagonal[2] + 4.2426405).abs() < 1e-5);
    // Straight up there is no heading.
    let up = fly_step(keys("W"), axis_y(), right, n(0.5));
    assert_eq!(up, None);
    let limit = FRAC_PI_2 - 0.001;
    let (yaw, pitch) = fly_look(n(0.5), n(1.5), n(10.0), n(-100.0));
    assert_eq!((v(yaw), v(pitch)), (0.5 - 10.0 * 0.003, limit));
}

#[test]
fn the_camera_is_the_gun() {
    let pose = MuzzlePose { origin: origin(), direction: axis_z() };
    assert_eq!(fire(true, pose), Some(shell(pose)));
    assert_eq!(fire(false, pose), None);
    assert!(cursor_locked(Some(true)));
    assert!(!cursor_locked(Some(false)) && !cursor_locked(None));
}

#[test]
fn the_full_pause_frees_the_cursor() {
    assert_eq!(toggle_full_pause(true, Some(true)), PauseChange::Release);
    assert_eq!(toggle_full_pause(true, Some(false)), PauseChange::Capture);
    assert_eq!(toggle_full_pause(true, None), PauseChange::Nothing);
    assert_eq!(toggle_full_pause(false, Some(true)), PauseChange::Nothing);
}

fn time_keys(freeze: bool, faster: bool, slower: bool) -> TimeKeys {
    TimeKeys { freeze, faster, slower }
}

#[test]
fn the_clock_climbs_its_ladder() {
    let speeds = [1.0f32, 0.25, 0.06, 0.015, 0.004, 0.001];
    assert_eq!(SPEED_COUNT, speeds.len());
    for (i, speed) in speeds.iter().enumerate() {
        assert_eq!(speed_at(i).to_bits(), speed.to_bits());
    }
    let mut clock = SandboxClock { paused: false, index: 0 };
    assert_eq!(time_controls(time_keys(true, false, false), &mut clock), None);
    assert!(clock.paused);
    // Already at the fastest: nothing changes, and the clock stays frozen.
    assert_eq!(time_controls(time_keys(false, true, false), &mut clock), None);
    assert!(clock.paused);
    let speed = time_controls(time_keys(false, false, true), &mut clock);
    assert_eq!(speed.map(v), Some(0.25));
    assert_eq!(clock, SandboxClock { paused: false, index: 1 });
    let both = time_controls(time_keys(true, true, true), &mut clock);
    assert_eq!(both.map(v), Some(0.25));
    assert_eq!(clock, SandboxClock { paused: false, index: 1 });
    for _ in 0..9 {
        time_controls(time_keys(false, false, true), &mut clock);
    }
    assert_eq!(clock.index, 5);
    let back = time_controls(time_keys(false, true, false), &mut clock);
    assert_eq!(back.map(v), Some(0.004));
}

#[test]
fn the_march_mode_flips() {
    assert_eq!(toggle_march_mode(true, MarchMode::Real), MarchMode::Demo);
    assert_eq!(toggle_march_mode(true, MarchMode::Demo), MarchMode::Real);
    assert_eq!(toggle_march_mode(false, MarchMode::Demo), MarchMode::Demo);
}

#[test]
fn clearing_heals_every_component() {
    let mut components = vec![health(0.0, 4.0), health(3.0, 3.0), health(-1.0, 2.0)];
    clear_damage(&mut components);
    assert_eq!(components, vec![health(4.0, 4.0), health(3.0, 3.0), health(2.0, 2.0)]);
    assert_eq!(assign_labels(&components, 1), vec![None]);
}

#[test]
fn the_target_waits_for_its_spec_sheet() {
    assert!(spawn_target_when_ready(SpecLoad::Loaded));
    assert!(!spawn_target_when_ready(SpecLoad::OnItsWay));
    assert!(!spawn_target_when_ready(SpecLoad::NotWanted));
    assert!(!spawn_target_when_ready(SpecLoad::Failed));
}

#[test]
fn sandbox_lines_are_written_out() {
    assert_eq!(status_line(true, "0.250", MarchMode::Demo, 3), "time paused [demo]   shells 3");
    assert_eq!(status_line(false, "0.250", MarchMode::Real, 12), "time 0.250x [real]   shells 12");
    assert_eq!(shell_label("773", "165", 2), "773 m/s\n165 mm\n2 crossed");
    let (tip, rim) = spall_outline(origin(), axis_z(), n(0.5));
    assert_eq!(v(tip.z), 1.2);
    assert_eq!(v(rim), 1.2 * 0.5);
}

#[test]
fn the_world_is_built_to_measure() {
    assert_eq!(v(ground_height()), -0.5);
    let angle = 12.0f32.to_radians();
    assert_eq!(v(ramp_angle()), angle);
    let (sin, cos) = angle.sin_cos();
    assert_eq!(v(ramp_height(n(sin), n(cos))), -1.0 - (2.0 / 2.0) * cos + (16.0 / 2.0) * sin);
    assert_eq!(v(ground_distance(Some(n(3.5)), n(18.0))), 3.5);
    assert_eq!(v(ground_distance(None, n(18.0))), 18.0);
    assert_eq!(overmatch::world::GROUND_SIZE, 1000.0f32.to_bits());
    assert_eq!(overmatch::world::GROUND_THICKNESS, 1.0f32.to_bits());
    assert_eq!(overmatch::world::RAMP_ANGLE_DEG, 12.0f32.to_bits());
    assert_eq!(overmatch::world::RAMP_RUN, 16.0f32.to_bits());
    assert_eq!(overmatch::world::RAMP_WIDTH, 12.0f32.to_bits());
    assert_eq!(overmatch::world::RAMP_THICKNESS, 2.0f32.to_bits());
}

#[test]
fn debug_views_switch() {
    assert_eq!(XRAY_ALPHA, 0.2f32.to_bits());
    assert_eq!(FORCE_VIZ_SCALE, (1.0f32 / 20_000.0).to_bits());
    assert!(flip(true, false) && !flip(true, true) && flip(false, true) && !flip(false, false));
    let on = xray_opacity(true);
    assert_eq!((v(on.alpha), on.blended), (0.2, true));
    let off = xray_opacity(false);
    assert_eq!((v(off.alpha), off.blended), (1.0, false));
    assert_eq!(wheel_arrows(axis_y(), &Suspension::default()), None);
    let mut wheel = Suspension::default();
    wheel.contact = Some(origin());
    let idle = wheel_arrows(axis_y(), &wheel).unwrap();
    assert_eq!((idle.load_tip, idle.drive_tip), (None, None));
    wheel.load = n(20000.0);
    wheel.drive_force = vector(n(0.0), n(0.0), n(40000.0));
    let arrows = wheel_arrows(axis_y(), &wheel).unwrap();
    assert_eq!(arrows.load_tip.map(vv), Some([0.0, 1.0, 0.0]));
    assert_eq!(arrows.drive_tip.map(vv), Some([0.0, 0.0, 2.0]));
}

#[test]
fn vectors_normalize() {
    let long = vector(n(3.0), n(0.0), n(4.0));
    let unit = vv(long.normalize());
    assert!((unit[0] - 0.6).abs() < 1e-6 && (unit[2] - 0.8).abs() < 1e-6);
    assert_eq!(vv(origin().normalize_or_zero()), [0.0, 0.0, 0.0]);
    assert_eq!(long.normalize_or_zero(), long.normalize());
    assert!(origin().same(vector(n(-0.0), n(0.0), n(0.0))));
    assert!(!origin().same(axis_x()));
}
