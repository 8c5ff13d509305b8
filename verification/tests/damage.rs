use overmatch::binary32::encoding::Binary32;
use overmatch::binary32::functions::number;
use overmatch::damage::{
    capability_available, capability_effectiveness, competence, evaluate, kill_crew,
    launch_turrets_on_cookoff, mark_dead_tanks, place_occupants, process_cookoffs, tick_swaps,
    AmmoRack, Capability, ComponentHealth, ControlledEntry, ControlledTank, Cookoff, CrewStation,
    CrewVitals, Crewman, FunctionRole, GradedGroup, Group, KnockoutReason, Occupant, Part,
    PartQuality, PendingSwap, TankCapabilities, TankKnockedOut, TankVolumes, TurretPose, Vitals, VolumeFacets,
    VolumeOf, FOREIGN_COMPETENCE, SWAP_SECONDS,
};
use overmatch::tank::Rig;
use overmatch::vector::{axis_x, axis_y, axis_z};
use std::collections::HashMap;

fn n(x: f32) -> Binary32 {
    Binary32::from_bits(x.to_bits())
}

fn v(x: Binary32) -> f32 {
    f32::from_bits(x.to_bits())
}

fn q(pairs: &[(Part, f32)]) -> PartQuality {
    let mut quality = PartQuality::none();
    for (part, value) in pairs {
        quality.set(*part, n(*value));
    }
    quality
}

#[test]
fn single_groups_are_and_all_or_nothing() {
    // Fire = [Gunner, Breech, GunBarrel].
    let req = vec![
        Group::Single(Part::Gunner),
        Group::Single(Part::Breech),
        Group::Single(Part::GunBarrel),
    ];
    let all = q(&[
        (Part::Gunner, 1.0),
        (Part::Breech, 1.0),
        (Part::GunBarrel, 1.0),
    ]);
    assert_eq!(v(evaluate(&req, &all)), 1.0);
    // Without the breech the capability is gone.
    let no_breech = q(&[(Part::Gunner, 1.0), (Part::GunBarrel, 1.0)]);
    assert_eq!(v(evaluate(&req, &no_breech)), 0.0);
}

#[test]
fn pool_is_capped_cooperative_sum() {
    // Two engines at 0.5 each: both give 1.0, one gives 0.5, neither gives 0.
    let req = vec![Group::Graded(GradedGroup::Pool(vec![
        (n(0.5), vec![Part::Engine]),
        (n(0.5), vec![Part::Transmission]),
    ]))];
    assert_eq!(
        v(evaluate(&req, &q(&[(Part::Engine, 1.0), (Part::Transmission, 1.0)]))),
        1.0
    );
    assert_eq!(v(evaluate(&req, &q(&[(Part::Engine, 1.0)]))), 0.5);
    assert_eq!(v(evaluate(&req, &q(&[]))), 0.0);
}

#[test]
fn pool_caps_boolean_redundancy_at_one() {
    // Two members with a full share: any one gives 1.0, and both still do.
    let req = vec![Group::Graded(GradedGroup::Pool(vec![
        (n(1.0), vec![Part::Breech]),
        (n(1.0), vec![Part::GunBarrel]),
    ]))];
    assert_eq!(v(evaluate(&req, &q(&[(Part::Breech, 1.0)]))), 1.0);
    assert_eq!(
        v(evaluate(&req, &q(&[(Part::Breech, 1.0), (Part::GunBarrel, 1.0)]))),
        1.0
    );
}

#[test]
fn backup_takes_the_best_path() {
    // A powered path against a hand crank that depends on nothing.
    let req = vec![Group::Graded(GradedGroup::Backup(vec![
        (n(1.0), vec![Part::Engine]),
        (n(0.1), vec![]),
    ]))];
    assert_eq!(v(evaluate(&req, &q(&[(Part::Engine, 1.0)]))), 1.0);
    assert!((v(evaluate(&req, &q(&[]))) - 0.1).abs() < 1e-6);
}

#[test]
fn member_quality_multiplies_dependencies() {
    // A degraded part scales its member.
    let req = vec![Group::Graded(GradedGroup::Backup(vec![(
        n(1.0),
        vec![Part::Loader],
    )]))];
    assert!((v(evaluate(&req, &q(&[(Part::Loader, 0.6)]))) - 0.6).abs() < 1e-6);
}

#[test]
fn competence_is_native_or_flat_foreign() {
    assert_eq!(v(competence(CrewStation::Loader, CrewStation::Loader)), 1.0);
    assert_eq!(v(competence(CrewStation::Commander, CrewStation::Loader)), 0.6);
}

#[test]
fn empty_requirement_is_fully_met() {
    assert_eq!(v(evaluate(&vec![], &q(&[]))), 1.0);
    let empty_pool = vec![Group::Graded(GradedGroup::Pool(vec![]))];
    assert_eq!(v(evaluate(&empty_pool, &q(&[]))), 0.0);
    let empty_backup = vec![Group::Graded(GradedGroup::Backup(vec![]))];
    assert_eq!(v(evaluate(&empty_backup, &q(&[]))), 0.0);
}

#[test]
fn worst_group_decides_and_scores_grow() {
    let req = vec![
        Group::Single(Part::Driver),
        Group::Graded(GradedGroup::Pool(vec![
            (n(0.3), vec![Part::Engine, Part::Transmission]),
            (n(0.4), vec![Part::Engine]),
        ])),
    ];
    let worse = q(&[(Part::Driver, 0.6), (Part::Engine, 0.5), (Part::Transmission, 0.5)]);
    let better = q(&[(Part::Driver, 0.6), (Part::Engine, 1.0), (Part::Transmission, 1.0)]);
    let low = v(evaluate(&req, &worse));
    let high = v(evaluate(&req, &better));
    assert_eq!(low, 0.3f32 * 0.5 * 0.5 + 0.4f32 * 0.5);
    assert_eq!(high, 0.6);
    assert!(low <= high);
}

#[test]
fn labels_are_written_out() {
    let stations = [
        (CrewStation::Commander, "Commander"),
        (CrewStation::Gunner, "Gunner"),
        (CrewStation::Loader, "Loader"),
        (CrewStation::Driver, "Driver"),
        (CrewStation::BowGunner, "Bow gunner"),
    ];
    for (station, text) in stations {
        assert_eq!(station.label(), text);
    }
    let functions = [
        (FunctionRole::Engine, "Engine"),
        (FunctionRole::Transmission, "Transmission"),
        (FunctionRole::Breech, "Breech"),
        (FunctionRole::GunBarrel, "Gun barrel"),
    ];
    for (function, text) in functions {
        assert_eq!(function.label(), text);
    }
    let capabilities = [
        (Capability::Drive, "Drive"),
        (Capability::Traverse, "Traverse"),
        (Capability::Fire, "Fire"),
        (Capability::Load, "Load"),
        (Capability::GunnerSight, "Gunner sight"),
        (Capability::CommanderView, "Commander view"),
    ];
    for (capability, text) in capabilities {
        assert_eq!(capability.label(), text);
    }
    assert_eq!(KnockoutReason::CrewLoss.label(), "crew loss");
    assert_eq!(KnockoutReason::Cookoff.label(), "ammo cookoff");
    assert!(CrewStation::Commander < CrewStation::BowGunner);
}

#[test]
fn parts_come_from_stations_and_functions() {
    assert_eq!(Part::from(CrewStation::Commander), Part::Commander);
    assert_eq!(Part::from(CrewStation::Gunner), Part::Gunner);
    assert_eq!(Part::from(CrewStation::Loader), Part::Loader);
    assert_eq!(Part::from(CrewStation::Driver), Part::Driver);
    assert_eq!(Part::from(CrewStation::BowGunner), Part::BowGunner);
    assert_eq!(Part::from(FunctionRole::Engine), Part::Engine);
    assert_eq!(Part::from(FunctionRole::Transmission), Part::Transmission);
    assert_eq!(Part::from(FunctionRole::Breech), Part::Breech);
    assert_eq!(Part::from(FunctionRole::GunBarrel), Part::GunBarrel);
}

#[test]
fn damage_constants_are_their_decimals() {
    assert_eq!(FOREIGN_COMPETENCE, 0.6f32.to_bits());
    assert_eq!(SWAP_SECONDS, 4.0f32.to_bits());
    assert_eq!(overmatch::damage::consequence::TURRET_MASS, 8_000.0f32.to_bits());
    assert_eq!(overmatch::damage::consequence::TURRET_WIDTH, 3.0f32.to_bits());
    assert_eq!(overmatch::damage::consequence::TURRET_HEIGHT, 1.2f32.to_bits());
    assert_eq!(overmatch::damage::consequence::TURRET_LENGTH, 2.4f32.to_bits());
    assert_eq!(overmatch::damage::consequence::LAUNCH_LIFT, 14.0f32.to_bits());
    assert_eq!(overmatch::damage::consequence::LAUNCH_PUSH, 3.0f32.to_bits());
    assert_eq!(overmatch::damage::consequence::LAUNCH_TUMBLE, 3.0f32.to_bits());
    assert_eq!(overmatch::damage::consequence::LAUNCH_SPIN, 1.2f32.to_bits());
    assert_eq!(overmatch::damage::requirement::EMPTY_SUM, (-0.0f32).to_bits());
}

fn seat(station: CrewStation, home: Option<CrewStation>, dead: bool) -> VolumeFacets {
    VolumeFacets {
        crew: Some(station),
        crewman: home.map(|home| Crewman { home }),
        dead,
        function: None,
        health: Some(health(5.0, 5.0)),
    }
}

fn module(function: FunctionRole, hp: f32) -> VolumeFacets {
    VolumeFacets {
        crew: None,
        crewman: None,
        dead: false,
        function: Some(function),
        health: Some(health(hp, 8.0)),
    }
}

fn health(current: f32, max: f32) -> ComponentHealth {
    ComponentHealth { current: n(current), max: n(max) }
}

fn fire_and_load() -> TankCapabilities {
    TankCapabilities {
        drive: None,
        traverse: None,
        fire: Some(vec![
            Group::Single(Part::Gunner),
            Group::Single(Part::Breech),
            Group::Single(Part::GunBarrel),
        ]),
        load: Some(vec![Group::Single(Part::Loader)]),
        gunner_sight: Some(vec![Group::Single(Part::Gunner)]),
        commander_view: Some(vec![Group::Single(Part::Commander)]),
    }
}

fn sound_tank() -> (TankVolumes, HashMap<u64, VolumeFacets>) {
    let mut volumes = HashMap::new();
    volumes.insert(1, seat(CrewStation::Gunner, Some(CrewStation::Gunner), false));
    volumes.insert(2, seat(CrewStation::Loader, None, false));
    volumes.insert(3, module(FunctionRole::Breech, 8.0));
    volumes.insert(4, module(FunctionRole::GunBarrel, 8.0));
    (TankVolumes(vec![1, 2, 3, 4, 99]), volumes)
}

#[test]
fn effectiveness_follows_the_live_volumes() {
    let caps = fire_and_load();
    let (ids, mut volumes) = sound_tank();
    let fire = |volumes: &HashMap<u64, VolumeFacets>| {
        v(capability_effectiveness(Some(&ids), Some(&caps), Capability::Fire, volumes))
    };
    assert_eq!(fire(&volumes), 1.0);
    // A broken breech denies the shot.
    volumes.insert(3, module(FunctionRole::Breech, 0.0));
    assert_eq!(fire(&volumes), 0.0);
    assert!(!capability_available(Some(&ids), Some(&caps), Capability::Fire, &volumes));
    volumes.insert(3, module(FunctionRole::Breech, 0.5));
    assert_eq!(fire(&volumes), 1.0);
    // A foreign gunner degrades it.
    volumes.insert(1, seat(CrewStation::Gunner, Some(CrewStation::Driver), false));
    assert_eq!(fire(&volumes), 0.6);
    assert!(capability_available(Some(&ids), Some(&caps), Capability::Fire, &volumes));
    // A second, native gunner's seat is the better one.
    volumes.insert(99, seat(CrewStation::Gunner, Some(CrewStation::Gunner), false));
    assert_eq!(fire(&volumes), 1.0);
    volumes.insert(99, seat(CrewStation::Gunner, Some(CrewStation::Gunner), true));
    assert_eq!(fire(&volumes), 0.6);
    volumes.insert(1, seat(CrewStation::Gunner, Some(CrewStation::Gunner), true));
    assert_eq!(fire(&volumes), 0.0);
}

#[test]
fn effectiveness_is_nothing_without_data() {
    let caps = fire_and_load();
    let (ids, volumes) = sound_tank();
    assert_eq!(v(capability_effectiveness(None, Some(&caps), Capability::Fire, &volumes)), 0.0);
    assert_eq!(v(capability_effectiveness(Some(&ids), None, Capability::Fire, &volumes)), 0.0);
    // The tank has no such capability.
    assert_eq!(
        v(capability_effectiveness(Some(&ids), Some(&caps), Capability::Drive, &volumes)),
        0.0
    );
    // A seat without a named occupant is manned natively.
    assert_eq!(
        v(capability_effectiveness(Some(&ids), Some(&caps), Capability::Load, &volumes)),
        1.0
    );
    assert!(caps.get(Capability::Traverse).is_none());
    assert_eq!(caps.get(Capability::Fire).map(|r| r.len()), Some(3));
}

#[test]
fn a_module_needs_health_to_serve() {
    let caps = fire_and_load();
    let (ids, mut volumes) = sound_tank();
    let mut bare = module(FunctionRole::Breech, 8.0);
    bare.health = None;
    volumes.insert(3, bare);
    assert_eq!(
        v(capability_effectiveness(Some(&ids), Some(&caps), Capability::Fire, &volumes)),
        0.0
    );
}

fn controlled(count: usize) -> ControlledTank {
    let (ids, volumes) = sound_tank();
    let mut tanks = Vec::new();
    for i in 0..count {
        tanks.push(ControlledEntry {
            entity: 40 + i as u64,
            rig: Rig { hull: 50, turret: 51, gun: 52 },
            volumes: Some(ids.clone()),
            capabilities: Some(fire_and_load()),
        });
    }
    ControlledTank { tanks, volumes }
}

#[test]
fn only_a_single_controlled_tank_answers() {
    let one = controlled(1);
    assert_eq!(one.entity(), Some(40));
    assert_eq!(one.rig(), Some(Rig { hull: 50, turret: 51, gun: 52 }));
    assert_eq!(v(one.effectiveness(Capability::Fire)), 1.0);
    assert!(one.available(Capability::Fire));
    assert!(!one.available(Capability::Drive));
    for count in [0, 2] {
        let other = controlled(count);
        assert_eq!(other.entity(), None);
        assert_eq!(other.rig(), None);
        assert_eq!(v(other.effectiveness(Capability::Fire)), 0.0);
        assert!(!other.available(Capability::Fire));
    }
}

#[test]
fn volumes_know_their_tank() {
    assert_eq!(VolumeOf(7).tank(), 7);
    assert_eq!(TankVolumes(vec![3, 1, 2]).iter(), vec![3, 1, 2]);
}

fn occupant(home: CrewStation, hp: f32, dead: bool) -> Occupant {
    Occupant { crewman: Crewman { home }, health: health(hp, 5.0), dead }
}

#[test]
fn a_swap_exchanges_the_occupants_when_it_runs_out() {
    let gunner = occupant(CrewStation::Gunner, 0.0, true);
    let driver = occupant(CrewStation::Driver, 3.0, false);
    let mut seats = HashMap::new();
    seats.insert(1, gunner);
    seats.insert(2, driver);
    let mut swaps = vec![(9, PendingSwap { a: 1, b: 2, remaining: number(SWAP_SECONDS) })];

    let moves = tick_swaps(&mut swaps, &seats, n(1.5));
    assert!(moves.is_empty());
    assert_eq!(swaps.len(), 1);
    assert_eq!(v(swaps[0].1.remaining), 2.5);

    let moves = tick_swaps(&mut swaps, &seats, n(2.5));
    assert!(swaps.is_empty());
    assert_eq!(moves.len(), 2);
    place_occupants(&mut seats, &moves);
    assert_eq!(seats[&1], driver);
    assert_eq!(seats[&2], gunner);

    // The same swap again puts everybody back.
    let mut swaps = vec![(9, PendingSwap { a: 1, b: 2, remaining: n(0.1) })];
    let moves = tick_swaps(&mut swaps, &seats, n(0.2));
    place_occupants(&mut seats, &moves);
    assert_eq!(seats[&1], gunner);
    assert_eq!(seats[&2], driver);
}

#[test]
fn a_swap_with_a_lost_seat_is_dropped() {
    let mut seats = HashMap::new();
    seats.insert(1, occupant(CrewStation::Gunner, 5.0, false));
    let mut swaps = vec![
        (9, PendingSwap { a: 1, b: 2, remaining: n(0.0) }),
        (8, PendingSwap { a: 1, b: 1, remaining: n(1.0) }),
    ];
    let moves = tick_swaps(&mut swaps, &seats, n(0.5));
    assert!(moves.is_empty());
    assert_eq!(swaps.len(), 1);
    assert_eq!(swaps[0].0, 8);
}

#[test]
fn a_cookoff_takes_the_crew_of_its_tank() {
    let racks = vec![
        AmmoRack { entity: 11, tank: 1, health: health(0.0, 4.0) },
        AmmoRack { entity: 12, tank: 2, health: health(0.1, 4.0) },
        AmmoRack { entity: 13, tank: 1, health: health(-1.0, 4.0) },
    ];
    let mut crew = vec![
        CrewVitals { tank: 1, health: health(5.0, 5.0) },
        CrewVitals { tank: 2, health: health(4.0, 5.0) },
        CrewVitals { tank: 1, health: health(2.0, 5.0) },
    ];
    let burning = process_cookoffs(&racks, &mut crew);
    let burned = TankKnockedOut { reason: KnockoutReason::Cookoff };
    assert_eq!(
        burning,
        vec![Cookoff { rack: 11, tank: 1, label: burned }, Cookoff { rack: 13, tank: 1, label: burned }]
    );
    assert_eq!(v(crew[0].health.current), 0.0);
    assert_eq!(v(crew[0].health.max), 5.0);
    assert_eq!(v(crew[1].health.current), 4.0);
    assert_eq!(v(crew[2].health.current), 0.0);
    let again = crew.clone();
    process_cookoffs(&racks, &mut crew);
    assert_eq!(crew, again);
}

#[test]
fn crew_without_hit_points_dies() {
    let crew = vec![
        Vitals { entity: 1, health: health(0.0, 5.0) },
        Vitals { entity: 2, health: health(0.5, 5.0) },
        Vitals { entity: 3, health: health(-2.0, 5.0) },
    ];
    assert_eq!(kill_crew(&crew), vec![1, 3]);
}

#[test]
fn a_tank_is_dead_once_nobody_lives() {
    let mut volumes = HashMap::new();
    volumes.insert(1, seat(CrewStation::Gunner, None, true));
    volumes.insert(2, seat(CrewStation::Driver, None, true));
    volumes.insert(3, seat(CrewStation::Driver, None, false));
    volumes.insert(4, module(FunctionRole::Engine, 0.0));
    let tanks = vec![
        (10, TankVolumes(vec![1, 2, 4, 77])),
        (11, TankVolumes(vec![1, 3])),
        (12, TankVolumes(vec![4])),
        (13, TankVolumes(vec![])),
    ];
    let label = TankKnockedOut { reason: KnockoutReason::CrewLoss };
    assert_eq!(mark_dead_tanks(&tanks, &volumes), vec![(10, label)]);
}

#[test]
fn a_burning_tank_loses_its_turret() {
    let mut parents = HashMap::new();
    parents.insert(5, 4);
    parents.insert(4, 1);
    parents.insert(6, 2);
    let turrets = vec![
        TurretPose { entity: 5, up: axis_y(), right: axis_x(), forward: axis_z() },
        TurretPose { entity: 6, up: axis_y(), right: axis_x(), forward: axis_z() },
    ];
    let flying = launch_turrets_on_cookoff(&vec![1], &turrets, &parents);
    assert_eq!(flying.len(), 1);
    assert_eq!(flying[0].turret, 5);
    assert_eq!(v(flying[0].linear_velocity.y), 14.0);
    assert_eq!(v(flying[0].linear_velocity.z), 3.0);
    assert_eq!(v(flying[0].angular_velocity.x), 3.0);
    assert_eq!(v(flying[0].angular_velocity.y), 1.2);
    assert_eq!(launch_turrets_on_cookoff(&vec![1, 2], &turrets, &parents).len(), 2);
    assert!(launch_turrets_on_cookoff(&vec![], &turrets, &parents).is_empty());
}

#[test]
fn joined_requirements_are_worth_the_lesser() {
    let first = vec![Group::Single(Part::Gunner)];
    let second = vec![Group::Single(Part::Engine), Group::Single(Part::Breech)];
    let joined: Vec<Group> = first.iter().chain(&second).cloned().collect();
    for (gunner, engine, breech) in [(0.6, 1.0, 0.4), (0.2, 1.0, 0.4), (1.0, 1.0, 1.0)] {
        let quality =
            q(&[(Part::Gunner, gunner), (Part::Engine, engine), (Part::Breech, breech)]);
        let lesser = v(evaluate(&first, &quality)).min(v(evaluate(&second, &quality)));
        assert_eq!(v(evaluate(&joined, &quality)), lesser);
    }
}

#[test]
fn a_mandatory_part_is_a_group_of_one() {
    let member = vec![(n(1.0), vec![Part::Loader])];
    for quality in [0.0, 0.6, 1.0] {
        let quality = q(&[(Part::Loader, quality)]);
        let single = evaluate(&vec![Group::Single(Part::Loader)], &quality);
        let pool = Group::Graded(GradedGroup::Pool(member.clone()));
        let backup = Group::Graded(GradedGroup::Backup(member.clone()));
        assert_eq!(evaluate(&vec![pool], &quality), single);
        assert_eq!(evaluate(&vec![backup], &quality), single);
    }
}
