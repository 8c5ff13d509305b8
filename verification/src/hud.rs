//! The readouts over tanks and their parts. They show what the damage model says and hold no state.

use crate::binary32::arithmetic::UNIT_SCALE;
use crate::binary32::encoding::Binary32;
use crate::binary32::functions::{number, one, zero};
use crate::binary32::laws::{
    in_unit_range, lemma_magnitude_order, lemma_one_is_neutral, lemma_product_grows,
    lemma_whole_number,
};
use crate::damage::capability::{
    capability_effectiveness, effectiveness_of, ComponentHealth, TankCapabilities, TankVolumes,
    VolumeFacets,
};
use crate::damage::role::{Capability, CrewStation, FunctionRole, KnockoutReason};
use crate::text::{
    decimal, decimal_text, join, joined, law_separator_stands_between, removed, signed_decimal,
    signed_decimal_text, views, without,
};
use std::collections::HashMap;
use vstd::arithmetic::div_mod::{lemma_fundamental_div_mod, lemma_mod_bound};
use vstd::arithmetic::power2::{lemma2_to64, lemma_pow2_pos, lemma_pow2_unfold, pow2};
use vstd::prelude::*;

verus! {

/// What a component is called: its station or function, else its node's name without the prefix.
pub open spec fn component_title(
    crew: Option<CrewStation>,
    ammo: bool,
    function: Option<FunctionRole>,
    name: Option<Seq<char>>,
) -> Seq<char> {
    match (crew, function, name) {
        (Some(station), _, _) => station.title(),
        (None, Some(function), _) => function.title(),
        (None, None, Some(name)) => removed(name, "Ballistic_"@),
        (None, None, None) => if ammo {
            "Ammo"@
        } else {
            "Component"@
        },
    }
}

/// The characters of an optional text.
pub open spec fn optional_view(text: Option<&str>) -> Option<Seq<char>> {
    match text {
        Some(text) => Some(text@),
        None => None,
    }
}

pub fn volume_label(
    crew: Option<CrewStation>,
    ammo: bool,
    function: Option<FunctionRole>,
    name: Option<&str>,
) -> (r: String)
    ensures
        r@ == component_title(crew, ammo, function, optional_view(name)),
{
    match (crew, function, name) {
        (Some(station), _, _) => station.label().to_owned(),
        (None, Some(function), _) => function.label().to_owned(),
        (None, None, Some(name)) => without(name, "Ballistic_"),
        (None, None, None) => if ammo {
            "Ammo".to_owned()
        } else {
            "Component".to_owned()
        },
    }
}

/// How many labels float over damaged components.
pub const COMPONENT_LABELS: usize = 12;

/// How many readouts float over tanks.
pub const STATUS_LABELS: usize = 4;

/// A component below its full hit points.
pub open spec fn is_damaged(health: ComponentHealth) -> bool {
    health.current < health.max
}

/// The places of the damaged components, in order.
pub open spec fn damaged_places(components: Seq<ComponentHealth>) -> Seq<usize>
    decreases components.len(),
{
    if components.len() == 0 {
        seq![]
    } else {
        let rest = damaged_places(components.drop_last());
        if is_damaged(components.last()) {
            rest.push((components.len() - 1) as usize)
        } else {
            rest
        }
    }
}

/// Hand out `labels` floating labels to the damaged components, in order. A label without a component
/// stays hidden.
pub fn assign_labels(components: &Vec<ComponentHealth>, labels: usize) -> (r: Vec<Option<usize>>)
    ensures
        r@ == Seq::new(
            labels as nat,
            |k: int|
                if k < damaged_places(components@).len() {
                    Some(damaged_places(components@)[k])
                } else {
                    None
                },
        ),
{
    let mut damaged: Vec<usize> = Vec::new();
    let mut i: usize = 0;
    while i < components.len()
        invariant
            i <= components.len(),
            damaged@ == damaged_places(components@.take(i as int)),
        decreases components.len() - i,
    {
        assert(components@.take(i + 1).drop_last() =~= components@.take(i as int));
        let health = components[i];
        if health.current < health.max {
            damaged.push(i);
        }
        i = i + 1;
    }
    assert(components@.take(i as int) =~= components@);
    let mut slots: Vec<Option<usize>> = Vec::new();
    let mut k: usize = 0;
    while k < labels
        invariant
            k <= labels,
            slots@.len() == k,
            forall|j: int|
                0 <= j < k ==> (#[trigger] slots@[j]) == (if j < damaged@.len() {
                    Some(damaged@[j])
                } else {
                    None
                }),
        decreases labels - k,
    {
        if k < damaged.len() {
            slots.push(Some(damaged[k]));
        } else {
            slots.push(None);
        }
        k = k + 1;
    }
    slots
}

/// The text over a damaged component, with the hit points written out by the caller.
pub fn component_hp_text(label: &str, current: &str, max: &str) -> (r: String)
    ensures
        r@ == label@ + "\n"@ + current@ + "/"@ + max@ + " hp"@,
{
    label.to_owned().concat("\n").concat(current).concat("/").concat(max).concat(" hp")
}

/// Whether a component is out of action: its readout is red.
pub fn component_is_lost(health: ComponentHealth) -> (r: bool)
    ensures
        r == (health.current <= zero()),
{
    health.current <= zero()
}

/// What the status readout reads off a volume.
#[derive(Clone, Debug, PartialEq)]
pub struct VolumeReadout {
    pub crew: Option<CrewStation>,
    pub dead: bool,
    pub function: Option<FunctionRole>,
    pub health: Option<ComponentHealth>,
    pub ammo: bool,
    pub cooked_off: bool,
    pub name: Option<String>,
}

impl VolumeReadout {
    pub open spec fn out_of_action(self) -> bool {
        match self.health {
            Some(health) => health.current <= zero(),
            None => false,
        }
    }

    /// A crew volume whose occupant is dead or about to be.
    pub open spec fn crew_is_dead(self) -> bool {
        self.crew is Some && (self.dead || self.out_of_action())
    }

    pub open spec fn crew_lives(self) -> bool {
        self.crew is Some && !(self.dead || self.out_of_action())
    }

    pub open spec fn burned(self) -> bool {
        self.ammo && self.cooked_off
    }

    pub open spec fn rack_name(self) -> Seq<char> {
        match self.name {
            Some(name) => name@,
            None => "ammo"@,
        }
    }

    pub open spec fn is_disabled(self) -> bool {
        self.function is Some && self.out_of_action()
    }

    fn lost(&self) -> (r: bool)
        ensures
            r == self.out_of_action(),
    {
        match self.health {
            Some(health) => health.current <= zero(),
            None => false,
        }
    }
}

/// What a tank's readout sums up.
#[derive(Clone, Debug, PartialEq, Eq)]
pub struct TankStatus {
    pub crew_total: usize,
    pub crew_living: usize,
    pub dead_crew: Vec<String>,
    pub cooked_off: Vec<String>,
    pub disabled: Vec<String>,
}

/// How many of the listed volumes are there and satisfy the condition.
pub open spec fn tally(
    ids: Seq<u64>,
    volumes: Map<u64, VolumeReadout>,
    counts: spec_fn(VolumeReadout) -> bool,
) -> nat
    decreases ids.len(),
{
    if ids.len() == 0 {
        0
    } else {
        let id = ids.last();
        tally(ids.drop_last(), volumes, counts) + if volumes.contains_key(id) && counts(volumes[id]) {
            1nat
        } else {
            0nat
        }
    }
}

/// The names of the listed volumes that are there and satisfy the condition, in order.
pub open spec fn roll(
    ids: Seq<u64>,
    volumes: Map<u64, VolumeReadout>,
    counts: spec_fn(VolumeReadout) -> bool,
    name: spec_fn(VolumeReadout) -> Seq<char>,
) -> Seq<Seq<char>>
    decreases ids.len(),
{
    if ids.len() == 0 {
        seq![]
    } else {
        let id = ids.last();
        let rest = roll(ids.drop_last(), volumes, counts, name);
        if volumes.contains_key(id) && counts(volumes[id]) {
            rest.push(name(volumes[id]))
        } else {
            rest
        }
    }
}

/// What the status of a tank with these volumes is.
pub open spec fn sums_up(
    status: TankStatus,
    ids: Seq<u64>,
    volumes: Map<u64, VolumeReadout>,
) -> bool {
    &&& status.crew_total == tally(ids, volumes, |v: VolumeReadout| v.crew is Some)
    &&& status.crew_living == tally(ids, volumes, |v: VolumeReadout| v.crew_lives())
    &&& views(status.dead_crew@) == roll(
        ids,
        volumes,
        |v: VolumeReadout| v.crew_is_dead(),
        |v: VolumeReadout| v.crew->0.title(),
    )
    &&& views(status.cooked_off@) == roll(
        ids,
        volumes,
        |v: VolumeReadout| v.burned(),
        |v: VolumeReadout| v.rack_name(),
    )
    &&& views(status.disabled@) == roll(
        ids,
        volumes,
        |v: VolumeReadout| v.is_disabled(),
        |v: VolumeReadout| v.function->0.title(),
    )
}

/// The volumes of a tank; none where it has no list.
pub open spec fn listed(tank_volumes: Option<&TankVolumes>) -> Seq<u64> {
    match tank_volumes {
        Some(ids) => ids.0@,
        None => seq![],
    }
}

fn push_text(list: &mut Vec<String>, text: String)
    ensures
        views(final(list)@) == views(old(list)@).push(text@),
{
    list.push(text);
    assert(views(list@) =~= views(old(list)@).push(text@));
}

/// Sum up a tank: its crew, the racks that burn, and the modules out of action.
pub fn tank_status(
    tank_volumes: Option<&TankVolumes>,
    volumes: &HashMap<u64, VolumeReadout>,
) -> (r: TankStatus)
    ensures
        sums_up(r, listed(tank_volumes), volumes@),
{
    let mut status = TankStatus {
        crew_total: 0,
        crew_living: 0,
        dead_crew: Vec::new(),
        cooked_off: Vec::new(),
        disabled: Vec::new(),
    };
    assert(views(status.dead_crew@) =~= seq![]);
    assert(views(status.cooked_off@) =~= seq![]);
    assert(views(status.disabled@) =~= seq![]);
    let ids: &Vec<u64> = match tank_volumes {
        Some(ids) => &ids.0,
        None => {
            return status;
        },
    };
    let mut i: usize = 0;
    assert(ids@.take(0) =~= seq![]);
    while i < ids.len()
        invariant
            i <= ids.len(),
            status.crew_total <= i,
            status.crew_living <= i,
            sums_up(status, ids@.take(i as int), volumes@),
        decreases ids.len() - i,
    {
        assert(ids@.take(i + 1).drop_last() =~= ids@.take(i as int));
        assert(ids@.take(i + 1).last() == ids@[i as int]);
        if let Some(volume) = volumes.get(&ids[i]) {
            let lost = volume.lost();
            if let Some(station) = volume.crew {
                status.crew_total = status.crew_total + 1;
                if volume.dead || lost {
                    push_text(&mut status.dead_crew, station.label().to_owned());
                } else {
                    status.crew_living = status.crew_living + 1;
                }
            }
            if volume.ammo && volume.cooked_off {
                let name = match &volume.name {
                    Some(name) => name.clone(),
                    None => "ammo".to_owned(),
                };
                push_text(&mut status.cooked_off, name);
            }
            if let Some(function) = volume.function {
                if lost {
                    push_text(&mut status.disabled, function.label().to_owned());
                }
            }
        }
        i = i + 1;
    }
    assert(ids@.take(i as int) =~= ids@);
    status
}

/// A hundred.
pub const HUNDRED: u32 = 0x42c8_0000;

/// An effectiveness as a whole percentage.
pub open spec fn percent(effectiveness: Binary32) -> int {
    (effectiveness * number(HUNDRED)).saturated_whole()
}

/// One capability in the readout.
pub open spec fn capability_reading(capability: Capability, effectiveness: Binary32) -> Seq<char> {
    capability.title() + " "@ + signed_decimal(percent(effectiveness)) + "%"@
}

/// The capabilities in the order of the readout.
pub open spec fn readout_order() -> Seq<Capability> {
    seq![
        Capability::Drive,
        Capability::Traverse,
        Capability::Fire,
        Capability::Load,
        Capability::GunnerSight,
        Capability::CommanderView,
    ]
}

/// The readings of all capabilities of a tank.
pub open spec fn capability_readings(
    tank_volumes: Option<&TankVolumes>,
    tank_caps: Option<&TankCapabilities>,
    volumes: Map<u64, VolumeFacets>,
) -> Seq<Seq<char>> {
    readout_order().map_values(
        |c: Capability|
            capability_reading(c, effectiveness_of(tank_volumes, tank_caps, c, volumes)),
    )
}

fn read_capability(
    readings: &mut Vec<String>,
    capability: Capability,
    tank_volumes: Option<&TankVolumes>,
    tank_caps: Option<&TankCapabilities>,
    volumes: &HashMap<u64, VolumeFacets>,
)
    ensures
        views(final(readings)@) == views(old(readings)@).push(
            capability_reading(
                capability,
                effectiveness_of(tank_volumes, tank_caps, capability, volumes@),
            ),
        ),
{
    let effectiveness = capability_effectiveness(tank_volumes, tank_caps, capability, volumes);
    let whole: i32 = (effectiveness * number(HUNDRED)).round_to_i32();
    let percentage = signed_decimal_text(whole);
    let reading = capability.label().to_owned().concat(" ").concat(percentage.as_str()).concat("%");
    push_text(readings, reading);
}

/// The line of all capabilities, each with its effectiveness in percent.
pub fn capability_line(
    tank_volumes: Option<&TankVolumes>,
    tank_caps: Option<&TankCapabilities>,
    volumes: &HashMap<u64, VolumeFacets>,
) -> (r: String)
    ensures
        r@ == joined(capability_readings(tank_volumes, tank_caps, volumes@), "   "@),
{
    let mut readings: Vec<String> = Vec::new();
    assert(views(readings@) =~= Seq::<Seq<char>>::empty());
    read_capability(&mut readings, Capability::Drive, tank_volumes, tank_caps, volumes);
    read_capability(&mut readings, Capability::Traverse, tank_volumes, tank_caps, volumes);
    read_capability(&mut readings, Capability::Fire, tank_volumes, tank_caps, volumes);
    read_capability(&mut readings, Capability::Load, tank_volumes, tank_caps, volumes);
    read_capability(&mut readings, Capability::GunnerSight, tank_volumes, tank_caps, volumes);
    read_capability(&mut readings, Capability::CommanderView, tank_volumes, tank_caps, volumes);
    assert(views(readings@) =~= capability_readings(tank_volumes, tank_caps, volumes@));
    join(&readings, "   ")
}

/// A list in the readout, or a word where it is empty.
pub open spec fn list_or(items: Seq<Seq<char>>, empty: Seq<char>) -> Seq<char> {
    if items.len() == 0 {
        empty
    } else {
        joined(items, ", "@)
    }
}

fn list_text(items: &Vec<String>, empty: &str) -> (r: String)
    ensures
        r@ == list_or(views(items@), empty@),
{
    if items.len() == 0 {
        empty.to_owned()
    } else {
        join(items, ", ")
    }
}

/// The state of a tank in words.
pub open spec fn state_words(knocked_out: Option<KnockoutReason>) -> Seq<char> {
    match knocked_out {
        Some(reason) => "KNOCKED OUT ("@ + reason.title() + ")"@,
        None => "ALIVE"@,
    }
}

/// The readout over a tank. The line of capabilities is left out where it is not given.
pub open spec fn status_words(
    title: Option<Seq<char>>,
    knocked_out: Option<KnockoutReason>,
    status: TankStatus,
    capabilities: Option<Seq<char>>,
) -> Seq<char> {
    let name = match title {
        Some(title) => title,
        None => "Tiger I"@,
    };
    let tail = match capabilities {
        Some(line) => "\nCapabilities: "@ + line,
        None => seq![],
    };
    name + "\n"@ + state_words(knocked_out) + "\nCrew "@ + decimal(status.crew_living as nat)
        + "/"@ + decimal(status.crew_total as nat) + "\nDead: "@ + list_or(
        views(status.dead_crew@),
        "-"@,
    ) + "\nCookoff: "@ + list_or(views(status.cooked_off@), "no"@) + "\nDisabled: "@ + list_or(
        views(status.disabled@),
        "-"@,
    ) + tail
}

/// Write the readout over a tank.
pub fn tank_status_text(
    title: Option<&str>,
    knocked_out: Option<KnockoutReason>,
    status: &TankStatus,
    capabilities: Option<&str>,
) -> (r: String)
    ensures
        r@ == status_words(optional_view(title), knocked_out, *status, optional_view(capabilities)),
{
    let name = match title {
        Some(title) => title,
        None => "Tiger I",
    };
    let state = match knocked_out {
        Some(reason) => "KNOCKED OUT (".to_owned().concat(reason.label()).concat(")"),
        None => "ALIVE".to_owned(),
    };
    let living = decimal_text(status.crew_living as u64);
    let total = decimal_text(status.crew_total as u64);
    let dead = list_text(&status.dead_crew, "-");
    let cooked = list_text(&status.cooked_off, "no");
    let disabled = list_text(&status.disabled, "-");
    let text = name.to_owned().concat("\n").concat(state.as_str()).concat("\nCrew ").concat(
        living.as_str(),
    ).concat("/").concat(total.as_str()).concat("\nDead: ").concat(dead.as_str()).concat(
        "\nCookoff: ",
    ).concat(cooked.as_str()).concat("\nDisabled: ").concat(disabled.as_str());
    match capabilities {
        Some(line) => {
            let whole = text.concat("\nCapabilities: ").concat(line);
            assert(whole@ =~= status_words(
                optional_view(title),
                knocked_out,
                *status,
                optional_view(capabilities),
            ));
            whole
        },
        None => {
            assert(text@ =~= status_words(
                optional_view(title),
                knocked_out,
                *status,
                optional_view(capabilities),
            ));
            text
        },
    }
}

/// How urgent a tank's readout is.
#[derive(Clone, Copy, Debug, PartialEq, Eq, Structural)]
pub enum StatusTint {
    KnockedOut,
    Hurt,
    Sound,
}

/// The tint that a status calls for.
pub open spec fn tint_for(knocked_out: Option<KnockoutReason>, status: TankStatus) -> StatusTint {
    if knocked_out is Some {
        StatusTint::KnockedOut
    } else if status.dead_crew@.len() > 0 || status.disabled@.len() > 0 {
        StatusTint::Hurt
    } else {
        StatusTint::Sound
    }
}

/// The tint of a tank's readout.
pub fn status_tint(knocked_out: Option<KnockoutReason>, status: &TankStatus) -> (r: StatusTint)
    ensures
        r == tint_for(knocked_out, *status),
{
    if knocked_out.is_some() {
        StatusTint::KnockedOut
    } else if status.dead_crew.len() > 0 || status.disabled.len() > 0 {
        StatusTint::Hurt
    } else {
        StatusTint::Sound
    }
}

/// The readout over a tank: what it says, and how urgent it is.
#[derive(Clone, Debug, PartialEq, Eq)]
pub struct StatusLabel {
    pub text: String,
    pub tint: StatusTint,
}

/// Read a tank out: its state, its crew, its losses, and what it can still do.
pub fn tank_status_label(
    title: Option<&str>,
    knocked_out: Option<KnockoutReason>,
    tank_volumes: Option<&TankVolumes>,
    tank_caps: Option<&TankCapabilities>,
    readouts: &HashMap<u64, VolumeReadout>,
    facets: &HashMap<u64, VolumeFacets>,
) -> (r: StatusLabel)
    ensures
        exists|status: TankStatus| {
            &&& #[trigger] sums_up(status, listed(tank_volumes), readouts@)
            &&& r.text@ == status_words(
                optional_view(title),
                knocked_out,
                status,
                Some(joined(capability_readings(tank_volumes, tank_caps, facets@), "   "@)),
            )
            &&& r.tint == tint_for(knocked_out, status)
        },
{
    let status = tank_status(tank_volumes, readouts);
    let line = capability_line(tank_volumes, tank_caps, facets);
    let text = tank_status_text(title, knocked_out, &status, Some(line.as_str()));
    let tint = status_tint(knocked_out, &status);
    assert(sums_up(status, listed(tank_volumes), readouts@));
    StatusLabel { text, tint }
}

/// Everybody in the crew is either living or listed as dead.
pub proof fn law_crew_adds_up(status: TankStatus, ids: Seq<u64>, volumes: Map<u64, VolumeReadout>)
    requires
        sums_up(status, ids, volumes),
    ensures
        status.crew_living + status.dead_crew@.len() == status.crew_total,
{
    lemma_crew_adds_up(ids, volumes);
    assert(views(status.dead_crew@).len() == status.dead_crew@.len());
}

proof fn lemma_crew_adds_up(ids: Seq<u64>, volumes: Map<u64, VolumeReadout>)
    ensures
        tally(ids, volumes, |v: VolumeReadout| v.crew_lives()) + roll(
            ids,
            volumes,
            |v: VolumeReadout| v.crew_is_dead(),
            |v: VolumeReadout| v.crew->0.title(),
        ).len() == tally(ids, volumes, |v: VolumeReadout| v.crew is Some),
    decreases ids.len(),
{
    if ids.len() > 0 {
        lemma_crew_adds_up(ids.drop_last(), volumes);
    }
}

/// A degree from zero to one reads as a percentage from 0 to 100.
pub proof fn law_percentage_is_a_percentage(effectiveness: Binary32)
    requires
        in_unit_range(effectiveness),
    ensures
        0 <= percent(effectiveness) <= 100,
{
    let hundred = number(HUNDRED);
    let x = effectiveness * hundred;
    let w = pow2(UNIT_SCALE as nat);
    lemma_product_grows(effectiveness, hundred, one(), hundred);
    lemma_one_is_neutral(hundred);
    assert(zero() <= x && x <= hundred);
    lemma2_to64();
    lemma_whole_number(HUNDRED as nat, 100, 17);
    lemma_magnitude_order(x.index(), HUNDRED as nat);
    lemma_pow2_unfold((UNIT_SCALE + 1) as nat);
    lemma_pow2_pos(UNIT_SCALE as nat);
    let top = 2 * x.units() + w;
    assert(x.units() <= 100 * w);
    assert(top / (2 * w) <= 100) by (nonlinear_arith)
        requires
            top <= 201 * w,
            w > 0,
    ;
    if x.negative() {
        assert(x.units() == 0);
        assert(w / (2 * w) == 0) by (nonlinear_arith)
            requires
                w > 0,
        ;
    }
}

/// A component is called by its station before its function, and by its function before its name; a
/// nameless one says only whether it holds ammunition.
pub proof fn law_component_is_called_by_its_role(
    station: CrewStation,
    ammo: bool,
    function: FunctionRole,
    other: Option<FunctionRole>,
    name: Option<Seq<char>>,
    text: Seq<char>,
)
    ensures
        component_title(Some(station), ammo, other, name) == station.title(),
        component_title(None, ammo, Some(function), name) == function.title(),
        component_title(None, ammo, None, Some(text)) == removed(text, "Ballistic_"@),
        component_title(None, true, None, None) == "Ammo"@,
        component_title(None, false, None, None) == "Component"@,
{
}

/// The labels go to the damaged components: every place in the list is one of a damaged component,
/// every damaged component has its place in it, and the places are in order.
pub proof fn law_labels_go_to_damaged_components(components: Seq<ComponentHealth>)
    requires
        components.len() <= usize::MAX,
    ensures
        forall|k: int|
            0 <= k < damaged_places(components).len() ==> {
                let place = (#[trigger] damaged_places(components)[k]) as int;
                0 <= place < components.len() && components[place].current < components[place].max
            },
        forall|i: int|
            0 <= i < components.len() && (#[trigger] components[i]).current < components[i].max
                ==> damaged_places(components).contains(i as usize),
        forall|j: int, k: int|
            0 <= j < k < damaged_places(components).len() ==> (#[trigger] damaged_places(
                components,
            )[j]) < (#[trigger] damaged_places(components)[k]),
    decreases components.len(),
{
    if components.len() > 0 {
        let rest = components.drop_last();
        let n = components.len() - 1;
        let earlier = damaged_places(rest);
        let all = damaged_places(components);
        law_labels_go_to_damaged_components(rest);
        assert forall|k: int| 0 <= k < all.len() implies {
            let place = (#[trigger] all[k]) as int;
            0 <= place < components.len() && components[place].current < components[place].max
        } by {
            if k < earlier.len() {
                assert(all[k] == earlier[k]);
                assert(rest[earlier[k] as int] == components[earlier[k] as int]);
            }
        }
        assert forall|i: int|
            0 <= i < components.len() && (#[trigger] components[i]).current
                < components[i].max implies all.contains(i as usize) by {
            if i < n {
                assert(rest[i] == components[i]);
                let k = choose|k: int| 0 <= k < earlier.len() && earlier[k] == i as usize;
                assert(all[k] == i as usize);
            } else {
                assert(all[earlier.len() as int] == i as usize);
            }
        }
        assert forall|j: int, k: int| 0 <= j < k < all.len() implies (#[trigger] all[j])
            < (#[trigger] all[k]) by {
            assert(all[j] == earlier[j]);
            if k < earlier.len() {
                assert(all[k] == earlier[k]);
            }
        }
    }
}

/// A crew volume is dead where its occupant is or its hit points have run out, and lives otherwise; no
/// other volume is either. A module is disabled, and a rack burned, by its own facets alone.
pub proof fn law_readout_tells_who_is_lost(volume: VolumeReadout)
    ensures
        volume.crew is None ==> !volume.crew_is_dead() && !volume.crew_lives(),
        volume.crew is Some ==> volume.crew_is_dead() != volume.crew_lives(),
        volume.crew is Some && volume.dead ==> volume.crew_is_dead(),
        volume.health matches Some(health) ==> volume.out_of_action() == (health.current <= zero()),
        volume.health is None ==> !volume.out_of_action(),
        volume.crew is Some && !volume.dead ==> volume.crew_is_dead() == volume.out_of_action(),
        volume.is_disabled() <==> volume.function is Some && volume.out_of_action(),
        volume.burned() <==> volume.ammo && volume.cooked_off,
        volume.name matches Some(name) ==> volume.rack_name() == name@,
        volume.name is None ==> volume.rack_name() == "ammo"@,
{
}

/// Counting and listing go volume by volume: one more counts if it is there and meets the condition,
/// and is listed then, by its name, at the end.
pub proof fn law_counting_goes_volume_by_volume(
    ids: Seq<u64>,
    id: u64,
    volumes: Map<u64, VolumeReadout>,
    counts: spec_fn(VolumeReadout) -> bool,
    name: spec_fn(VolumeReadout) -> Seq<char>,
)
    ensures
        tally(seq![], volumes, counts) == 0,
        roll(seq![], volumes, counts, name) == Seq::<Seq<char>>::empty(),
        volumes.contains_key(id) && counts(volumes[id]) ==> {
            &&& tally(ids.push(id), volumes, counts) == tally(ids, volumes, counts) + 1
            &&& roll(ids.push(id), volumes, counts, name) == roll(ids, volumes, counts, name).push(
                name(volumes[id]),
            )
        },
        !(volumes.contains_key(id) && counts(volumes[id])) ==> {
            &&& tally(ids.push(id), volumes, counts) == tally(ids, volumes, counts)
            &&& roll(ids.push(id), volumes, counts, name) == roll(ids, volumes, counts, name)
        },
{
    assert(ids.push(id).drop_last() =~= ids);
}

/// The status of a tank with a single crew volume: one seat, its occupant living or listed as dead by
/// the station's title.
pub proof fn law_status_of_a_lone_crewman(
    status: TankStatus,
    id: u64,
    volumes: Map<u64, VolumeReadout>,
    station: CrewStation,
)
    requires
        sums_up(status, seq![id], volumes),
        volumes.contains_key(id),
        volumes[id].crew == Some(station),
    ensures
        status.crew_total == 1,
        volumes[id].crew_lives() ==> status.crew_living == 1 && status.dead_crew@.len() == 0,
        !volumes[id].crew_lives() ==> status.crew_living == 0 && views(status.dead_crew@)
            == seq![station.title()],
        status.cooked_off@.len() == if volumes[id].burned() {
            1nat
        } else {
            0nat
        },
        status.disabled@.len() == if volumes[id].is_disabled() {
            1nat
        } else {
            0nat
        },
{
    let none = Seq::<u64>::empty();
    assert(none.push(id) =~= seq![id]);
    let title = |v: VolumeReadout| v.crew->0.title();
    law_counting_goes_volume_by_volume(none, id, volumes, |v: VolumeReadout| v.crew is Some, title);
    law_counting_goes_volume_by_volume(
        none,
        id,
        volumes,
        |v: VolumeReadout| v.crew_lives(),
        title,
    );
    law_counting_goes_volume_by_volume(
        none,
        id,
        volumes,
        |v: VolumeReadout| v.crew_is_dead(),
        title,
    );
    law_counting_goes_volume_by_volume(
        none,
        id,
        volumes,
        |v: VolumeReadout| v.burned(),
        |v: VolumeReadout| v.rack_name(),
    );
    law_counting_goes_volume_by_volume(
        none,
        id,
        volumes,
        |v: VolumeReadout| v.is_disabled(),
        |v: VolumeReadout| v.function->0.title(),
    );
    assert(views(status.dead_crew@).len() == status.dead_crew@.len());
    assert(views(status.cooked_off@).len() == status.cooked_off@.len());
    assert(views(status.disabled@).len() == status.disabled@.len());
    assert(volumes[id].crew->0 == station);
    assert(Seq::<Seq<char>>::empty().push(station.title()) =~= seq![station.title()]);
}

/// The readings come in a fixed order, each with its own capability's title and effectiveness.
pub proof fn law_readings_are_in_order(
    tank_volumes: Option<&TankVolumes>,
    tank_caps: Option<&TankCapabilities>,
    volumes: Map<u64, VolumeFacets>,
)
    ensures
        ({
            let line = capability_readings(tank_volumes, tank_caps, volumes);
            let reading = |c: Capability|
                c.title() + " "@ + signed_decimal(
                    (effectiveness_of(tank_volumes, tank_caps, c, volumes) * number(
                        HUNDRED,
                    )).saturated_whole(),
                ) + "%"@;
            &&& line.len() == 6
            &&& line[0] == reading(Capability::Drive)
            &&& line[1] == reading(Capability::Traverse)
            &&& line[2] == reading(Capability::Fire)
            &&& line[3] == reading(Capability::Load)
            &&& line[4] == reading(Capability::GunnerSight)
            &&& line[5] == reading(Capability::CommanderView)
        }),
{
}

/// A whole percentage is the nearest one: no other whole number is closer to a hundred times the
/// effectiveness.
pub proof fn law_percentage_is_the_nearest(effectiveness: Binary32)
    requires
        in_unit_range(effectiveness),
    ensures
        ({
            let units = (effectiveness * number(HUNDRED)).units();
            let w = pow2(UNIT_SCALE as nat);
            (2 * percent(effectiveness) - 1) * w <= 2 * units < (2 * percent(effectiveness) + 1) * w
        }),
{
    let hundred = number(HUNDRED);
    let x = effectiveness * hundred;
    let w = pow2(UNIT_SCALE as nat);
    law_percentage_is_a_percentage(effectiveness);
    lemma_product_grows(effectiveness, hundred, one(), hundred);
    lemma_one_is_neutral(hundred);
    lemma_pow2_unfold((UNIT_SCALE + 1) as nat);
    lemma_pow2_pos(UNIT_SCALE as nat);
    let top = 2 * x.units() + w;
    let whole = top / (2 * w);
    lemma_fundamental_div_mod(top as int, (2 * w) as int);
    lemma_mod_bound(top as int, (2 * w) as int);
    if x.negative() {
        assert(x.units() == 0);
        assert(w / (2 * w) == 0) by (nonlinear_arith)
            requires
                w > 0,
        ;
    }
    assert(percent(effectiveness) == whole);
    assert((2 * whole - 1) * w <= 2 * x.units() < (2 * whole + 1) * w) by (nonlinear_arith)
        requires
            top == 2 * x.units() + w,
            top == (2 * w) * whole + top % (2 * w),
            0 <= top % (2 * w) < 2 * w,
    ;
}

/// An empty list reads as its word, any other as its items with commas between them.
pub proof fn law_lists_in_the_readout(items: Seq<Seq<char>>, item: Seq<char>, empty: Seq<char>)
    ensures
        list_or(seq![], empty) == empty,
        list_or(seq![item], empty) == item,
        items.len() > 0 ==> list_or(items.push(item), empty) == list_or(items, empty) + ", "@
            + item,
{
    law_separator_stands_between(items, item, ", "@);
}

/// A tank reads as alive until it has a label, and then by the label's reason.
pub proof fn law_state_in_words()
    ensures
        state_words(None) == "ALIVE"@,
        state_words(Some(KnockoutReason::CrewLoss)) == "KNOCKED OUT ("@ + "crew loss"@ + ")"@,
        state_words(Some(KnockoutReason::Cookoff)) == "KNOCKED OUT ("@ + "ammo cookoff"@ + ")"@,
{
}

/// The readout over a tank, line by line: its name, its state, its crew count, the dead, the burning
/// racks, the disabled modules, and what it can do where that is given.
pub proof fn law_readout_line_by_line(
    title: Seq<char>,
    knocked_out: Option<KnockoutReason>,
    status: TankStatus,
    line: Seq<char>,
)
    ensures
        status_words(Some(title), knocked_out, status, None) == title + "\n"@ + state_words(
            knocked_out,
        ) + "\nCrew "@ + decimal(status.crew_living as nat) + "/"@ + decimal(
            status.crew_total as nat,
        ) + "\nDead: "@ + list_or(views(status.dead_crew@), "-"@) + "\nCookoff: "@ + list_or(
            views(status.cooked_off@),
            "no"@,
        ) + "\nDisabled: "@ + list_or(views(status.disabled@), "-"@),
        status_words(None, knocked_out, status, Some(line)) == status_words(
            Some("Tiger I"@),
            knocked_out,
            status,
            None,
        ) + "\nCapabilities: "@ + line,
{
    assert(status_words(Some(title), knocked_out, status, None) =~= title + "\n"@ + state_words(
        knocked_out,
    ) + "\nCrew "@ + decimal(status.crew_living as nat) + "/"@ + decimal(status.crew_total as nat)
        + "\nDead: "@ + list_or(views(status.dead_crew@), "-"@) + "\nCookoff: "@ + list_or(
        views(status.cooked_off@),
        "no"@,
    ) + "\nDisabled: "@ + list_or(views(status.disabled@), "-"@));
    assert(status_words(None, knocked_out, status, Some(line)) =~= status_words(
        Some("Tiger I"@),
        knocked_out,
        status,
        None,
    ) + "\nCapabilities: "@ + line);
}

/// A label tints the readout of a wreck; of the others those with dead crew or disabled modules are
/// hurt, and the rest are sound.
pub proof fn law_tint_tells_the_worst(reason: KnockoutReason, status: TankStatus)
    ensures
        tint_for(Some(reason), status) == StatusTint::KnockedOut,
        tint_for(None, status) == StatusTint::Sound <==> status.dead_crew@.len() == 0
            && status.disabled@.len() == 0,
        tint_for(None, status) == StatusTint::Hurt <==> status.dead_crew@.len() > 0
            || status.disabled@.len() > 0,
{
}

/// A component is lost exactly when its hit points have run out.
pub proof fn law_lost_without_hit_points(health: ComponentHealth, lost: bool)
    requires
        call_ensures(component_is_lost, (health,), lost),
    ensures
        health.current <= zero() ==> lost,
        health.current > zero() ==> !lost,
{
}

} // verus!
