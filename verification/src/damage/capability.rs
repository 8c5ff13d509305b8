//! What a tank can still do: the effectiveness of each capability against its live volumes.

use crate::binary32::encoding::Binary32;
use crate::binary32::functions::{number, one, zero};
use crate::binary32::laws::in_unit_range;
use crate::damage::requirement::{
    evaluate, law_requirement_of_one_group, law_score_grows_with_quality, no_part_worse,
    requirement_score, sound_quality, sound_requirement, Group, PartQuality, Requirement,
};
use crate::damage::role::{
    competence, part_of_function, part_of_station, Capability, CrewStation, Crewman, FunctionRole,
    Part, FOREIGN_COMPETENCE,
};
use crate::tank::rig::Rig;
use std::collections::HashMap;
use vstd::prelude::*;

verus! {

/// The hit points of a damageable volume.
#[derive(Clone, Copy, Debug, PartialEq)]
pub struct ComponentHealth {
    pub current: Binary32,
    pub max: Binary32,
}

/// The tank that a volume belongs to, whatever its place in the model's hierarchy.
#[derive(Clone, Copy, Debug, PartialEq, Eq, Structural)]
pub struct VolumeOf(pub u64);

impl VolumeOf {
    pub fn tank(&self) -> (r: u64)
        ensures
            r == self.0,
    {
        self.0
    }
}

/// The volumes of a tank.
#[derive(Clone, Debug, PartialEq, Eq)]
pub struct TankVolumes(pub Vec<u64>);

impl TankVolumes {
    /// The volumes in order.
    pub fn iter(&self) -> (r: Vec<u64>)
        ensures
            r@ == self.0@,
    {
        self.0.clone()
    }
}

/// What the capabilities read off a volume. A crew seat has `crew` and, once manned, `crewman`; a
/// module has `function` and `health`.
#[derive(Clone, Copy, Debug, PartialEq)]
pub struct VolumeFacets {
    pub crew: Option<CrewStation>,
    pub crewman: Option<Crewman>,
    pub dead: bool,
    pub function: Option<FunctionRole>,
    pub health: Option<ComponentHealth>,
}

impl VolumeFacets {
    /// A living occupant serves the part from this seat.
    pub open spec fn mans(self, part: Part) -> bool {
        !self.dead && match self.crew {
            Some(seat) => part_of_station(seat) == part,
            None => false,
        }
    }

    /// The occupant was trained for this seat. A seat without a named occupant is manned natively.
    pub open spec fn at_home(self) -> bool {
        match (self.crew, self.crewman) {
            (Some(seat), Some(crewman)) => crewman.home == seat,
            _ => true,
        }
    }

    /// An intact module serves the part.
    pub open spec fn works_as(self, part: Part) -> bool {
        match (self.function, self.health) {
            (Some(function), Some(health)) => part_of_function(function) == part && health.current
                > zero(),
            _ => false,
        }
    }

    /// The volume serves the part fully.
    pub open spec fn serves_fully(self, part: Part) -> bool {
        (self.mans(part) && self.at_home()) || self.works_as(part)
    }
}

/// One of the first `n` volumes serves the part fully.
pub open spec fn fully_served(
    ids: Seq<u64>,
    volumes: Map<u64, VolumeFacets>,
    n: int,
    part: Part,
) -> bool {
    exists|i: int|
        0 <= i < n && #[trigger] volumes.contains_key(ids[i]) && volumes[ids[i]].serves_fully(part)
}

/// One of the first `n` volumes is a seat that somebody living mans for the part.
pub open spec fn manned(ids: Seq<u64>, volumes: Map<u64, VolumeFacets>, n: int, part: Part) -> bool {
    exists|i: int|
        0 <= i < n && #[trigger] volumes.contains_key(ids[i]) && volumes[ids[i]].mans(part)
}

/// The live quality of a part: full where a native crewman or an intact module serves it, degraded
/// where only a foreign crewman does, none where nothing does.
pub open spec fn live_part_quality(
    ids: Seq<u64>,
    volumes: Map<u64, VolumeFacets>,
    n: int,
    part: Part,
) -> Binary32 {
    if fully_served(ids, volumes, n, part) {
        one()
    } else if manned(ids, volumes, n, part) {
        number(FOREIGN_COMPETENCE)
    } else {
        zero()
    }
}

/// The live quality of every part of a tank.
pub open spec fn live_quality(ids: Seq<u64>, volumes: Map<u64, VolumeFacets>) -> PartQuality {
    let n = ids.len() as int;
    PartQuality {
        commander: live_part_quality(ids, volumes, n, Part::Commander),
        gunner: live_part_quality(ids, volumes, n, Part::Gunner),
        loader: live_part_quality(ids, volumes, n, Part::Loader),
        driver: live_part_quality(ids, volumes, n, Part::Driver),
        bow_gunner: live_part_quality(ids, volumes, n, Part::BowGunner),
        engine: live_part_quality(ids, volumes, n, Part::Engine),
        transmission: live_part_quality(ids, volumes, n, Part::Transmission),
        breech: live_part_quality(ids, volumes, n, Part::Breech),
        gun_barrel: live_part_quality(ids, volumes, n, Part::GunBarrel),
    }
}

/// What each capability of a tank requires, from its spec sheet. A capability without a requirement is
/// one that the tank does not have.
#[derive(Clone, Debug, PartialEq)]
pub struct TankCapabilities {
    pub drive: Option<Requirement>,
    pub traverse: Option<Requirement>,
    pub fire: Option<Requirement>,
    pub load: Option<Requirement>,
    pub gunner_sight: Option<Requirement>,
    pub commander_view: Option<Requirement>,
}

impl TankCapabilities {
    pub open spec fn requirement(self, capability: Capability) -> Option<Requirement> {
        match capability {
            Capability::Drive => self.drive,
            Capability::Traverse => self.traverse,
            Capability::Fire => self.fire,
            Capability::Load => self.load,
            Capability::GunnerSight => self.gunner_sight,
            Capability::CommanderView => self.commander_view,
        }
    }

    pub fn get(&self, capability: Capability) -> (r: Option<&Requirement>)
        ensures
            r == (match self.requirement(capability) {
                Some(requirement) => Some(&requirement),
                None => None,
            }),
    {
        match capability {
            Capability::Drive => self.drive.as_ref(),
            Capability::Traverse => self.traverse.as_ref(),
            Capability::Fire => self.fire.as_ref(),
            Capability::Load => self.load.as_ref(),
            Capability::GunnerSight => self.gunner_sight.as_ref(),
            Capability::CommanderView => self.commander_view.as_ref(),
        }
    }
}

/// How well a capability is served: the score of its requirement against the live volumes; nothing
/// without volumes, without capabilities, or without a requirement.
pub open spec fn effectiveness_of(
    tank_volumes: Option<&TankVolumes>,
    tank_caps: Option<&TankCapabilities>,
    capability: Capability,
    volumes: Map<u64, VolumeFacets>,
) -> Binary32 {
    match (tank_volumes, tank_caps) {
        (Some(ids), Some(caps)) => match caps.requirement(capability) {
            Some(requirement) => requirement_score(requirement@, live_quality(ids.0@, volumes)),
            None => zero(),
        },
        _ => zero(),
    }
}

fn survey(ids: &Vec<u64>, volumes: &HashMap<u64, VolumeFacets>) -> (quality: PartQuality)
    ensures
        quality == live_quality(ids@, volumes@),
{
    let mut quality = PartQuality::none();
    let mut i: usize = 0;
    while i < ids.len()
        invariant
            i <= ids.len(),
            forall|p: Part|
                #[trigger] quality.of(p) == live_part_quality(ids@, volumes@, i as int, p),
        decreases ids.len() - i,
    {
        let ghost before = quality;
        match volumes.get(&ids[i]) {
            Some(facets) => {
                if let Some(role) = facets.crew {
                    if !facets.dead {
                        let home = match facets.crewman {
                            Some(crewman) => crewman.home,
                            None => role,
                        };
                        let part = Part::from(role);
                        let best = quality.get(part).max(competence(home, role));
                        quality.set(part, best);
                    }
                }
                if let (Some(function), Some(health)) = (facets.function, facets.health) {
                    if health.current > zero() {
                        let part = Part::from(function);
                        let best = quality.get(part).max(one());
                        quality.set(part, best);
                    }
                }
            },
            None => {},
        }
        assert forall|p: Part|
            #[trigger] quality.of(p) == live_part_quality(ids@, volumes@, i + 1, p) by {
            assert(before.of(p) == live_part_quality(ids@, volumes@, i as int, p));
            lemma_served_step(ids@, volumes@, i as int, p);
        }
        i = i + 1;
    }
    assert(quality == live_quality(ids@, volumes@)) by {
        let n = ids@.len() as int;
        assert(quality.of(Part::Commander) == live_part_quality(ids@, volumes@, n, Part::Commander));
        assert(quality.of(Part::Gunner) == live_part_quality(ids@, volumes@, n, Part::Gunner));
        assert(quality.of(Part::Loader) == live_part_quality(ids@, volumes@, n, Part::Loader));
        assert(quality.of(Part::Driver) == live_part_quality(ids@, volumes@, n, Part::Driver));
        assert(quality.of(Part::BowGunner) == live_part_quality(ids@, volumes@, n, Part::BowGunner));
        assert(quality.of(Part::Engine) == live_part_quality(ids@, volumes@, n, Part::Engine));
        assert(quality.of(Part::Transmission) == live_part_quality(
            ids@,
            volumes@,
            n,
            Part::Transmission,
        ));
        assert(quality.of(Part::Breech) == live_part_quality(ids@, volumes@, n, Part::Breech));
        assert(quality.of(Part::GunBarrel) == live_part_quality(ids@, volumes@, n, Part::GunBarrel));
    }
    quality
}

/// What one more volume adds.
proof fn lemma_served_step(ids: Seq<u64>, volumes: Map<u64, VolumeFacets>, n: int, part: Part)
    requires
        0 <= n < ids.len(),
    ensures
        fully_served(ids, volumes, n + 1, part) == (fully_served(ids, volumes, n, part) || (
        volumes.contains_key(ids[n]) && volumes[ids[n]].serves_fully(part))),
        manned(ids, volumes, n + 1, part) == (manned(ids, volumes, n, part) || (
        volumes.contains_key(ids[n]) && volumes[ids[n]].mans(part))),
{
    if fully_served(ids, volumes, n + 1, part) {
        let i = choose|i: int|
            0 <= i < n + 1 && #[trigger] volumes.contains_key(ids[i])
                && volumes[ids[i]].serves_fully(part);
        assert(i < n ==> volumes.contains_key(ids[i]));
    }
    if manned(ids, volumes, n + 1, part) {
        let i = choose|i: int|
            0 <= i < n + 1 && #[trigger] volumes.contains_key(ids[i])
                && volumes[ids[i]].mans(part);
        assert(i < n ==> volumes.contains_key(ids[i]));
    }
}

/// How well a capability of a tank is served right now, from zero (not at all) to one (fully).
pub fn capability_effectiveness(
    tank_volumes: Option<&TankVolumes>,
    tank_caps: Option<&TankCapabilities>,
    capability: Capability,
    volumes: &HashMap<u64, VolumeFacets>,
) -> (r: Binary32)
    ensures
        r == effectiveness_of(tank_volumes, tank_caps, capability, volumes@),
{
    let (ids, caps) = match (tank_volumes, tank_caps) {
        (Some(ids), Some(caps)) => (ids, caps),
        _ => {
            return zero();
        },
    };
    match caps.get(capability) {
        Some(requirement) => {
            let quality = survey(&ids.0, volumes);
            evaluate(requirement, &quality)
        },
        None => zero(),
    }
}

/// Whether a capability is usable at all.
pub fn capability_available(
    tank_volumes: Option<&TankVolumes>,
    tank_caps: Option<&TankCapabilities>,
    capability: Capability,
    volumes: &HashMap<u64, VolumeFacets>,
) -> (r: bool)
    ensures
        r == (effectiveness_of(tank_volumes, tank_caps, capability, volumes@) > zero()),
{
    capability_effectiveness(tank_volumes, tank_caps, capability, volumes) > zero()
}

/// A tank under the player's control: where its parts are and what it can do.
#[derive(Clone, Debug, PartialEq)]
pub struct ControlledEntry {
    pub entity: u64,
    pub rig: Rig,
    pub volumes: Option<TankVolumes>,
    pub capabilities: Option<TankCapabilities>,
}

/// The player's tank, as the control systems read it: the tanks that carry the control mark, and the
/// volumes of the world. It answers only where exactly one tank is controlled.
pub struct ControlledTank {
    pub tanks: Vec<ControlledEntry>,
    pub volumes: HashMap<u64, VolumeFacets>,
}

impl ControlledTank {
    /// The controlled tank, where there is exactly one.
    pub open spec fn single(self) -> Option<ControlledEntry> {
        if self.tanks@.len() == 1 {
            Some(self.tanks@[0])
        } else {
            None
        }
    }

    pub open spec fn degree(self, capability: Capability) -> Binary32 {
        match self.single() {
            Some(tank) => effectiveness_of(
                match tank.volumes {
                    Some(volumes) => Some(&volumes),
                    None => None,
                },
                match tank.capabilities {
                    Some(capabilities) => Some(&capabilities),
                    None => None,
                },
                capability,
                self.volumes@,
            ),
            None => zero(),
        }
    }

    /// The controlled tank's entity.
    pub fn entity(&self) -> (r: Option<u64>)
        ensures
            r == (match self.single() {
                Some(tank) => Some(tank.entity),
                None => None,
            }),
    {
        if self.tanks.len() == 1 {
            Some(self.tanks[0].entity)
        } else {
            None
        }
    }

    /// The controlled tank's rig.
    pub fn rig(&self) -> (r: Option<Rig>)
        ensures
            r == (match self.single() {
                Some(tank) => Some(tank.rig),
                None => None,
            }),
    {
        if self.tanks.len() == 1 {
            Some(self.tanks[0].rig)
        } else {
            None
        }
    }

    /// How well a capability of the controlled tank is served; nothing without such a tank.
    pub fn effectiveness(&self, capability: Capability) -> (r: Binary32)
        ensures
            r == self.degree(capability),
    {
        if self.tanks.len() == 1 {
            let tank = &self.tanks[0];
            capability_effectiveness(
                tank.volumes.as_ref(),
                tank.capabilities.as_ref(),
                capability,
                &self.volumes,
            )
        } else {
            zero()
        }
    }

    /// Whether a capability of the controlled tank is usable at all.
    pub fn available(&self, capability: Capability) -> (r: bool)
        ensures
            r == (self.degree(capability) > zero()),
    {
        self.effectiveness(capability) > zero()
    }
}

/// The live qualities are numbers from zero to one.
proof fn lemma_live_quality_is_sound(ids: Seq<u64>, volumes: Map<u64, VolumeFacets>)
    ensures
        sound_quality(live_quality(ids, volumes)),
        forall|p: Part|
            #[trigger] live_quality(ids, volumes).of(p) == live_part_quality(
                ids,
                volumes,
                ids.len() as int,
                p,
            ),
{
    assert(in_unit_range(zero()) && in_unit_range(one()) && in_unit_range(
        number(FOREIGN_COMPETENCE),
    ));
}

/// Effectiveness is a degree: from zero to one, whatever the state of the tank.
pub proof fn law_effectiveness_is_a_degree(
    ids: &TankVolumes,
    caps: &TankCapabilities,
    capability: Capability,
    volumes: Map<u64, VolumeFacets>,
)
    requires
        caps.requirement(capability) matches Some(r) ==> sound_requirement(r@),
    ensures
        in_unit_range(effectiveness_of(Some(ids), Some(caps), capability, volumes)),
{
    lemma_live_quality_is_sound(ids.0@, volumes);
    let quality = live_quality(ids.0@, volumes);
    assert(no_part_worse(quality, quality)) by {
        assert forall|p: Part| #[trigger] quality.of(p) <= quality.of(p) by {
            assert(in_unit_range(quality.of(p)));
        }
    }
    if let Some(r) = caps.requirement(capability) {
        law_score_grows_with_quality(r@, quality, quality);
    }
}

/// Between the two states volumes may be lost, crewmen may die and modules may fail, but nothing is
/// repaired and no seat gets a better occupant.
pub open spec fn only_losses(
    ids: Seq<u64>,
    before: Map<u64, VolumeFacets>,
    after: Map<u64, VolumeFacets>,
) -> bool {
    &&& forall|i: int, p: Part|
        0 <= i < ids.len() && after.contains_key(ids[i]) && #[trigger] after[ids[i]].mans(p) ==> {
            &&& before.contains_key(ids[i])
            &&& before[ids[i]].mans(p)
            &&& after[ids[i]].at_home() ==> before[ids[i]].at_home()
        }
    &&& forall|i: int, p: Part|
        0 <= i < ids.len() && after.contains_key(ids[i]) && #[trigger] after[ids[i]].works_as(p)
            ==> before.contains_key(ids[i]) && before[ids[i]].works_as(p)
}

/// Losses never help: while volumes only fail, no capability becomes more effective.
pub proof fn law_losses_never_help(
    ids: &TankVolumes,
    caps: &TankCapabilities,
    capability: Capability,
    before: Map<u64, VolumeFacets>,
    after: Map<u64, VolumeFacets>,
)
    requires
        caps.requirement(capability) matches Some(r) ==> sound_requirement(r@),
        only_losses(ids.0@, before, after),
    ensures
        effectiveness_of(Some(ids), Some(caps), capability, after) <= effectiveness_of(
            Some(ids),
            Some(caps),
            capability,
            before,
        ),
{
    let s = ids.0@;
    let n = s.len() as int;
    lemma_live_quality_is_sound(s, before);
    lemma_live_quality_is_sound(s, after);
    assert forall|p: Part|
        #[trigger] live_quality(s, after).of(p) <= live_quality(s, before).of(p) by {
        if fully_served(s, after, n, p) {
            let i = choose|i: int|
                0 <= i < n && #[trigger] after.contains_key(s[i]) && after[s[i]].serves_fully(p);
            assert(after[s[i]].mans(p) || after[s[i]].works_as(p));
            assert(before.contains_key(s[i]) && before[s[i]].serves_fully(p));
        } else if manned(s, after, n, p) {
            let i = choose|i: int|
                0 <= i < n && #[trigger] after.contains_key(s[i]) && after[s[i]].mans(p);
            assert(before.contains_key(s[i]) && before[s[i]].mans(p));
        }
    }
    if let Some(r) = caps.requirement(capability) {
        law_score_grows_with_quality(r@, live_quality(s, after), live_quality(s, before));
    }
}

/// A dead crew serves nothing: where nobody living mans a station, its quality is zero.
pub proof fn law_dead_crew_serves_nothing(
    ids: Seq<u64>,
    volumes: Map<u64, VolumeFacets>,
    station: CrewStation,
)
    requires
        forall|i: int|
            0 <= i < ids.len() && #[trigger] volumes.contains_key(ids[i])
                && volumes[ids[i]].crew is Some ==> volumes[ids[i]].dead,
    ensures
        live_quality(ids, volumes).of(part_of_station(station)) == zero(),
{
    lemma_live_quality_is_sound(ids, volumes);
}

/// One crewman alone in a tank serves their seat: fully at home, in part in a foreign seat, and not at
/// all when dead.
pub proof fn law_lone_crewman_serves_the_seat(
    id: u64,
    volumes: Map<u64, VolumeFacets>,
    seat: CrewStation,
)
    requires
        volumes.contains_key(id),
        volumes[id].crew == Some(seat),
        volumes[id].function is None,
    ensures
        ({
            let facets = volumes[id];
            let quality = live_quality(seq![id], volumes).of(part_of_station(seat));
            &&& facets.dead ==> quality == zero()
            &&& !facets.dead && facets.crewman is None ==> quality == one()
            &&& !facets.dead ==> (facets.crewman matches Some(crewman) ==> quality
                == if crewman.home == seat {
                one()
            } else {
                number(FOREIGN_COMPETENCE)
            })
        }),
        forall|p: Part|
            p != part_of_station(seat) ==> #[trigger] live_quality(seq![id], volumes).of(p)
                == zero(),
{
    let ids = seq![id];
    lemma_live_quality_is_sound(ids, volumes);
    assert(volumes.contains_key(ids[0]));
    assert forall|p: Part| p != part_of_station(seat) implies #[trigger] live_quality(
        ids,
        volumes,
    ).of(p) == zero() by {
        assert(live_quality(ids, volumes).of(p) == live_part_quality(ids, volumes, 1, p));
    }
}

/// One module alone in a tank serves its function while it has hit points, and not without them.
pub proof fn law_lone_module_serves_its_function(
    id: u64,
    volumes: Map<u64, VolumeFacets>,
    function: FunctionRole,
    health: ComponentHealth,
)
    requires
        volumes.contains_key(id),
        volumes[id].crew is None,
        volumes[id].function == Some(function),
        volumes[id].health == Some(health),
    ensures
        health.current > zero() ==> live_quality(seq![id], volumes).of(part_of_function(function))
            == one(),
        !(health.current > zero()) ==> live_quality(seq![id], volumes).of(
            part_of_function(function),
        ) == zero(),
        forall|p: Part|
            p != part_of_function(function) ==> #[trigger] live_quality(seq![id], volumes).of(p)
                == zero(),
{
    let ids = seq![id];
    lemma_live_quality_is_sound(ids, volumes);
    assert(volumes.contains_key(ids[0]));
    assert forall|p: Part| p != part_of_function(function) implies #[trigger] live_quality(
        ids,
        volumes,
    ).of(p) == zero() by {
        assert(live_quality(ids, volumes).of(p) == live_part_quality(ids, volumes, 1, p));
    }
}

/// One more volume in the list serves a part or does not.
proof fn lemma_listed_volume(
    ids: Seq<u64>,
    id: u64,
    volumes: Map<u64, VolumeFacets>,
    part: Part,
)
    ensures
        fully_served(ids.push(id), volumes, (ids.len() + 1) as int, part) == (fully_served(
            ids,
            volumes,
            ids.len() as int,
            part,
        ) || fully_served(seq![id], volumes, 1, part)),
        manned(ids.push(id), volumes, (ids.len() + 1) as int, part) == (manned(
            ids,
            volumes,
            ids.len() as int,
            part,
        ) || manned(seq![id], volumes, 1, part)),
{
    let more = ids.push(id);
    let n = ids.len() as int;
    lemma_served_step(more, volumes, n, part);
    lemma_served_step(seq![id], volumes, 0, part);
    assert(more[n] == id && seq![id][0] == id);
    if fully_served(more, volumes, n, part) {
        let i = choose|i: int|
            0 <= i < n && #[trigger] volumes.contains_key(more[i])
                && volumes[more[i]].serves_fully(part);
        assert(volumes.contains_key(ids[i]));
    }
    if fully_served(ids, volumes, n, part) {
        let i = choose|i: int|
            0 <= i < n && #[trigger] volumes.contains_key(ids[i])
                && volumes[ids[i]].serves_fully(part);
        assert(volumes.contains_key(more[i]));
    }
    if manned(more, volumes, n, part) {
        let i = choose|i: int|
            0 <= i < n && #[trigger] volumes.contains_key(more[i]) && volumes[more[i]].mans(part);
        assert(volumes.contains_key(ids[i]));
    }
    if manned(ids, volumes, n, part) {
        let i = choose|i: int|
            0 <= i < n && #[trigger] volumes.contains_key(ids[i]) && volumes[ids[i]].mans(part);
        assert(volumes.contains_key(more[i]));
    }
}

/// The best volume serves: with one more volume a part is as good as the better of what the others
/// give it and what that one gives it alone.
pub proof fn law_best_volume_serves(
    ids: Seq<u64>,
    id: u64,
    volumes: Map<u64, VolumeFacets>,
    part: Part,
)
    ensures
        live_quality(ids.push(id), volumes).of(part) == live_quality(ids, volumes).of(part).larger(
            live_quality(seq![id], volumes).of(part),
        ),
        live_quality(seq![], volumes).of(part) == zero(),
{
    lemma_live_quality_is_sound(ids.push(id), volumes);
    lemma_live_quality_is_sound(ids, volumes);
    lemma_live_quality_is_sound(seq![id], volumes);
    lemma_live_quality_is_sound(seq![], volumes);
    lemma_listed_volume(ids, id, volumes, part);
}

/// A volume that is gone from the world serves nothing.
pub proof fn law_missing_volume_serves_nothing(
    id: u64,
    volumes: Map<u64, VolumeFacets>,
    part: Part,
)
    requires
        !volumes.contains_key(id),
    ensures
        live_quality(seq![id], volumes).of(part) == zero(),
{
    lemma_live_quality_is_sound(seq![id], volumes);
    assert(live_quality(seq![id], volumes).of(part) == live_part_quality(
        seq![id],
        volumes,
        1,
        part,
    ));
}

/// Each capability has the requirement of its own name.
pub proof fn law_each_capability_has_its_own_requirement(caps: TankCapabilities)
    ensures
        caps.requirement(Capability::Drive) == caps.drive,
        caps.requirement(Capability::Traverse) == caps.traverse,
        caps.requirement(Capability::Fire) == caps.fire,
        caps.requirement(Capability::Load) == caps.load,
        caps.requirement(Capability::GunnerSight) == caps.gunner_sight,
        caps.requirement(Capability::CommanderView) == caps.commander_view,
{
}

/// A tank without volumes, without capabilities or without the requirement cannot do the thing at all.
pub proof fn law_nothing_to_serve_with(
    ids: &TankVolumes,
    caps: &TankCapabilities,
    capability: Capability,
    volumes: Map<u64, VolumeFacets>,
)
    ensures
        effectiveness_of(None, Some(caps), capability, volumes) == zero(),
        effectiveness_of(Some(ids), None, capability, volumes) == zero(),
        caps.requirement(capability) is None ==> effectiveness_of(
            Some(ids),
            Some(caps),
            capability,
            volumes,
        ) == zero(),
{
}

/// A capability that needs one part is as effective as that part is good.
pub proof fn law_capability_of_one_part(
    ids: &TankVolumes,
    caps: &TankCapabilities,
    capability: Capability,
    volumes: Map<u64, VolumeFacets>,
    requirement: Requirement,
    part: Part,
)
    requires
        caps.requirement(capability) == Some(requirement),
        requirement@ == seq![Group::Single(part)],
    ensures
        effectiveness_of(Some(ids), Some(caps), capability, volumes).same_value(
            live_quality(ids.0@, volumes).of(part),
        ),
{
    let quality = live_quality(ids.0@, volumes);
    lemma_live_quality_is_sound(ids.0@, volumes);
    assert(in_unit_range(quality.of(part)));
    law_requirement_of_one_group(Group::Single(part), quality);
}

/// Only one tank can be controlled: with none or with several nothing is, and with one it is that one.
pub proof fn law_control_needs_a_single_tank(controlled: ControlledTank, capability: Capability)
    ensures
        controlled.tanks@.len() != 1 ==> controlled.single() is None && controlled.degree(capability)
            == zero(),
        controlled.tanks@.len() == 1 ==> controlled.single() == Some(controlled.tanks@[0]),
{
}

/// The degree of the controlled tank is that of the one tank under control, for the capability asked
/// for, with its own volumes and requirements.
pub proof fn law_degree_is_the_tanks_own(
    controlled: ControlledTank,
    capability: Capability,
    volumes: TankVolumes,
    caps: TankCapabilities,
)
    requires
        controlled.tanks@.len() == 1,
        controlled.tanks@[0].volumes == Some(volumes),
        controlled.tanks@[0].capabilities == Some(caps),
    ensures
        controlled.degree(capability) == effectiveness_of(
            Some(&volumes),
            Some(&caps),
            capability,
            controlled.volumes@,
        ),
{
}

/// The player's tank is the one tank under control: its entity and its rig are that tank's own, and
/// there is neither with none or several.
pub proof fn law_player_has_the_one_tank(
    controlled: ControlledTank,
    entity: Option<u64>,
    rig: Option<Rig>,
)
    requires
        call_ensures(ControlledTank::entity, (&controlled,), entity),
        call_ensures(ControlledTank::rig, (&controlled,), rig),
    ensures
        controlled.tanks@.len() == 1 ==> entity == Some(controlled.tanks@[0].entity) && rig == Some(
            controlled.tanks@[0].rig,
        ),
        controlled.tanks@.len() != 1 ==> entity is None && rig is None,
{
}

/// A capability is available exactly while its effectiveness is above zero.
pub proof fn law_available_means_effective(
    ids: &TankVolumes,
    caps: &TankCapabilities,
    capability: Capability,
    volumes: &HashMap<u64, VolumeFacets>,
    degree: Binary32,
    available: bool,
)
    requires
        call_ensures(capability_effectiveness, (Some(ids), Some(caps), capability, volumes), degree),
        call_ensures(capability_available, (Some(ids), Some(caps), capability, volumes), available),
    ensures
        available <==> degree > zero(),
{
}

} // verus!
