//! A tank variant's spec sheet: the numbers that the model does not hold. There are no defaults.

use crate::binary32::encoding::Binary32;
use crate::damage::capability::{ComponentHealth, TankCapabilities};
use crate::damage::role::{CrewStation, FunctionRole};
use crate::driving::parameters::{Drivetrain, SuspensionParams};
use crate::tank::servo::ServoSpec;
use crate::text::same_text;
use vstd::prelude::*;

verus! {

/// One ballistic volume. Its roles are facets that it has or has not; there is no list of kinds.
#[derive(Clone, Copy, Debug, PartialEq)]
pub struct VolumeSpec {
    /// Millimetres of reference armour per metre of material, whatever the role.
    pub material_factor: Binary32,
    /// The hit points of a damageable volume. A volume without them is pure armour.
    pub hp: Option<Binary32>,
    /// The crew station in this volume. It needs `hp`.
    pub crew: Option<CrewStation>,
    /// Ammunition: without hit points left it cooks off. It needs `hp`.
    pub ammo: bool,
    /// The module function that this volume serves.
    pub function: Option<FunctionRole>,
}

impl VolumeSpec {
    /// Some facet says what the loss of hit points means.
    pub open spec fn has_consequence(self) -> bool {
        self.crew is Some || self.ammo || self.function is Some
    }

    /// A volume whose loss means something has hit points to lose.
    pub open spec fn sound(self) -> bool {
        self.hp is Some || !self.has_consequence()
    }

    pub fn is_sound(&self) -> (r: bool)
        ensures
            r == self.sound(),
    {
        self.hp.is_some() || (self.crew.is_none() && !self.ammo && self.function.is_none())
    }

    pub open spec fn full_health(self) -> Option<ComponentHealth> {
        match self.hp {
            Some(hp) => Some(ComponentHealth { current: hp, max: hp }),
            None => None,
        }
    }

    /// The health of an undamaged volume; none for pure armour.
    pub fn health(&self) -> (r: Option<ComponentHealth>)
        ensures
            r == self.full_health(),
    {
        match self.hp {
            Some(hp) => Some(ComponentHealth { current: hp, max: hp }),
            None => None,
        }
    }
}

/// A tank variant.
#[derive(Debug, PartialEq)]
pub struct TankSpec {
    /// Total mass in kilograms.
    pub mass: Binary32,
    /// The box that the angular inertia is taken from, in metres.
    pub inertia_extents: (Binary32, Binary32, Binary32),
    pub drivetrain: Drivetrain,
    pub suspension: SuspensionParams,
    pub turret: ServoSpec,
    pub gun: ServoSpec,
    /// What each capability requires.
    pub capabilities: TankCapabilities,
    /// The ballistic volumes, each with the name of its model node; no name occurs twice. A node is a
    /// volume if and only if it is listed here.
    pub volumes: Vec<(String, VolumeSpec)>,
}

/// The first volume of that name.
pub open spec fn volume_named(
    volumes: Seq<(String, VolumeSpec)>,
    name: Seq<char>,
) -> Option<VolumeSpec>
    decreases volumes.len(),
{
    if volumes.len() == 0 {
        None
    } else {
        match volume_named(volumes.drop_last(), name) {
            Some(volume) => Some(volume),
            None => if volumes.last().0@ == name {
                Some(volumes.last().1)
            } else {
                None
            },
        }
    }
}

/// No two volumes have the same name.
pub open spec fn distinct_names(volumes: Seq<(String, VolumeSpec)>) -> bool {
    forall|i: int, j: int|
        0 <= i < j < volumes.len() ==> #[trigger] volumes[i].0@ != #[trigger] volumes[j].0@
}

/// Declare a volume under a name, in place of any that was declared under it.
pub fn declare_volume(volumes: &mut Vec<(String, VolumeSpec)>, name: String, volume: VolumeSpec)
    requires
        distinct_names(old(volumes)@),
    ensures
        distinct_names(final(volumes)@),
        forall|other: Seq<char>| #[trigger]
            volume_named(final(volumes)@, other) == (if other == name@ {
                Some(volume)
            } else {
                volume_named(old(volumes)@, other)
            }),
{
    let ghost before = volumes@;
    let mut i: usize = 0;
    while i < volumes.len()
        invariant
            i <= volumes.len(),
            volumes@ == before,
            before == old(volumes)@,
            distinct_names(before),
            forall|k: int| 0 <= k < i ==> (#[trigger] before[k]).0@ != name@,
        decreases volumes.len() - i,
    {
        if same_text(volumes[i].0.as_str(), name.as_str()) {
            volumes.set(i, (name, volume));
            proof {
                lemma_names_after(before, volumes@, i as int);
            }
            return;
        }
        i = i + 1;
    }
    volumes.push((name, volume));
    proof {
        lemma_names_after(before, volumes@, i as int);
    }
}

/// Where names are distinct, a name stands for the volume that is declared under it.
proof fn lemma_volume_named(volumes: Seq<(String, VolumeSpec)>, name: Seq<char>)
    requires
        distinct_names(volumes),
    ensures
        volume_named(volumes, name) is None ==> forall|i: int|
            0 <= i < volumes.len() ==> (#[trigger] volumes[i]).0@ != name,
        volume_named(volumes, name) matches Some(volume) ==> exists|i: int|
            0 <= i < volumes.len() && (#[trigger] volumes[i]).0@ == name && volumes[i].1 == volume,
    decreases volumes.len(),
{
    if volumes.len() > 0 {
        let rest = volumes.drop_last();
        let n = volumes.len() - 1;
        assert forall|i: int, j: int| 0 <= i < j < rest.len() implies #[trigger] rest[i].0@
            != #[trigger] rest[j].0@ by {
            assert(rest[i] == volumes[i] && rest[j] == volumes[j]);
        }
        lemma_volume_named(rest, name);
        match volume_named(rest, name) {
            Some(volume) => {
                let i = choose|i: int|
                    0 <= i < rest.len() && (#[trigger] rest[i]).0@ == name && rest[i].1 == volume;
                assert(volumes[i] == rest[i]);
            },
            None => {
                assert forall|i: int| 0 <= i < n implies (#[trigger] volumes[i]).0@ != name by {
                    assert(rest[i] == volumes[i]);
                }
                assert(volumes[n] == volumes.last());
            },
        }
    }
}

/// What changing the volume at one place, or adding one, does to the names.
proof fn lemma_names_after(
    before: Seq<(String, VolumeSpec)>,
    after: Seq<(String, VolumeSpec)>,
    place: int,
)
    requires
        distinct_names(before),
        0 <= place <= before.len(),
        after.len() == before.len() || (place == before.len() && after.len() == before.len() + 1),
        place < after.len(),
        forall|k: int| 0 <= k < after.len() && k != place ==> (#[trigger] after[k]) == before[k],
        place < before.len() ==> before[place].0@ == after[place].0@,
        place == before.len() ==> forall|k: int|
            0 <= k < place ==> (#[trigger] before[k]).0@ != after[place].0@,
    ensures
        distinct_names(after),
        forall|other: Seq<char>| #[trigger]
            volume_named(after, other) == (if other == after[place].0@ {
                Some(after[place].1)
            } else {
                volume_named(before, other)
            }),
{
    assert(forall|k: int| 0 <= k < before.len() && k != place ==> (#[trigger] before[k]) == after[k]);
    assert forall|i: int, j: int| 0 <= i < j < after.len() implies #[trigger] after[i].0@
        != #[trigger] after[j].0@ by {
        if i != place && j != place {
            assert(before[i].0@ != before[j].0@);
        } else if place < before.len() {
            assert(before[i].0@ != before[j].0@);
        } else {
            assert(after[i] == before[i]);
        }
    }
    assert forall|other: Seq<char>| #[trigger]
        volume_named(after, other) == (if other == after[place].0@ {
            Some(after[place].1)
        } else {
            volume_named(before, other)
        }) by {
        lemma_volume_named(after, other);
        lemma_volume_named(before, other);
        if let Some(found) = volume_named(after, other) {
            let i = choose|i: int|
                0 <= i < after.len() && (#[trigger] after[i]).0@ == other && after[i].1 == found;
            if other == after[place].0@ {
                assert(i == place);
            } else {
                assert(after[i] == before[i]);
                if let Some(known) = volume_named(before, other) {
                    let j = choose|j: int|
                        0 <= j < before.len() && (#[trigger] before[j]).0@ == other
                            && before[j].1 == known;
                    assert(i == j) by {
                        if i < j {
                            assert(before[i].0@ != before[j].0@);
                        } else if j < i {
                            assert(before[j].0@ != before[i].0@);
                        }
                    }
                }
            }
        } else {
            assert(after[place].0@ != other);
            if let Some(known) = volume_named(before, other) {
                let j = choose|j: int|
                    0 <= j < before.len() && (#[trigger] before[j]).0@ == other && before[j].1
                        == known;
                assert(j != place);
                assert(after[j] == before[j]);
            }
        }
    }
}

/// The order of the volumes does not matter: two lists with the same entries, each under a name of its
/// own, give every name the same volume.
pub proof fn law_order_of_volumes_does_not_matter(
    first: Seq<(String, VolumeSpec)>,
    second: Seq<(String, VolumeSpec)>,
    name: Seq<char>,
)
    requires
        distinct_names(first),
        distinct_names(second),
        forall|entry: (String, VolumeSpec)| #[trigger]
            first.contains(entry) <==> second.contains(entry),
    ensures
        volume_named(first, name) == volume_named(second, name),
{
    lemma_volume_named(first, name);
    lemma_volume_named(second, name);
    if let Some(volume) = volume_named(first, name) {
        lemma_same_volume(first, second, name, volume);
    } else if let Some(volume) = volume_named(second, name) {
        lemma_same_volume(second, first, name, volume);
    }
}

proof fn lemma_same_volume(
    first: Seq<(String, VolumeSpec)>,
    second: Seq<(String, VolumeSpec)>,
    name: Seq<char>,
    volume: VolumeSpec,
)
    requires
        distinct_names(first),
        distinct_names(second),
        forall|entry: (String, VolumeSpec)| #[trigger]
            first.contains(entry) <==> second.contains(entry),
        volume_named(first, name) == Some(volume),
    ensures
        volume_named(second, name) == Some(volume),
{
    lemma_volume_named(first, name);
    lemma_volume_named(second, name);
    let i = choose|i: int|
        0 <= i < first.len() && (#[trigger] first[i]).0@ == name && first[i].1 == volume;
    assert(first.contains(first[i]));
    let j = choose|j: int| 0 <= j < second.len() && second[j] == first[i];
    assert(second[j].0@ == name);
    if let Some(found) = volume_named(second, name) {
        let k = choose|k: int|
            0 <= k < second.len() && (#[trigger] second[k]).0@ == name && second[k].1 == found;
        if j < k {
            assert(second[j].0@ != second[k].0@);
        } else if k < j {
            assert(second[k].0@ != second[j].0@);
        }
    }
}

impl TankSpec {
    /// Every volume has a name of its own.
    pub open spec fn wf(self) -> bool {
        distinct_names(self.volumes@)
    }

    /// Look a volume up by the name of its node.
    pub fn volume(&self, name: &str) -> (r: Option<VolumeSpec>)
        ensures
            r == volume_named(self.volumes@, name@),
    {
        let mut found: Option<VolumeSpec> = None;
        let mut i: usize = 0;
        while i < self.volumes.len()
            invariant
                i <= self.volumes.len(),
                found == volume_named(self.volumes@.take(i as int), name@),
            decreases self.volumes.len() - i,
        {
            assert(self.volumes@.take(i + 1).drop_last() =~= self.volumes@.take(i as int));
            let entry = &self.volumes[i];
            if found.is_none() && same_text(entry.0.as_str(), name) {
                found = Some(entry.1);
            }
            i = i + 1;
        }
        assert(self.volumes@.take(i as int) =~= self.volumes@);
        found
    }
}

/// What is declared is found: a volume is looked up by its own name, and a name that nothing is
/// declared under finds nothing.
pub proof fn law_declared_volume_is_found(
    volumes: Seq<(String, VolumeSpec)>,
    name: Seq<char>,
    i: int,
)
    requires
        distinct_names(volumes),
    ensures
        0 <= i < volumes.len() ==> volume_named(volumes, volumes[i].0@) == Some(volumes[i].1),
        (forall|k: int| 0 <= k < volumes.len() ==> (#[trigger] volumes[k]).0@ != name)
            ==> volume_named(volumes, name) is None,
{
    lemma_volume_named(volumes, name);
    if 0 <= i < volumes.len() {
        let own = volumes[i].0@;
        lemma_volume_named(volumes, own);
        if let Some(found) = volume_named(volumes, own) {
            let k = choose|k: int|
                0 <= k < volumes.len() && (#[trigger] volumes[k]).0@ == own && volumes[k].1 == found;
            if k < i {
                assert(volumes[k].0@ != volumes[i].0@);
            } else if i < k {
                assert(volumes[i].0@ != volumes[k].0@);
            }
        }
    }
}

/// Of several volumes under one name the first counts: a later entry changes no name that is taken.
pub proof fn law_first_volume_counts(
    volumes: Seq<(String, VolumeSpec)>,
    entry: (String, VolumeSpec),
    name: Seq<char>,
)
    ensures
        volume_named(volumes, name) is Some ==> volume_named(volumes.push(entry), name)
            == volume_named(volumes, name),
        volume_named(volumes, name) is None && entry.0@ == name ==> volume_named(
            volumes.push(entry),
            name,
        ) == Some(entry.1),
        entry.0@ != name ==> volume_named(volumes.push(entry), name) == volume_named(volumes, name),
{
    assert(volumes.push(entry).drop_last() =~= volumes);
}

/// An undamaged volume has all its hit points; pure armour has none to lose.
pub proof fn law_undamaged_is_full(volume: VolumeSpec)
    ensures
        volume.hp is None ==> volume.full_health() is None,
        volume.hp matches Some(hp) ==> {
            &&& volume.full_health() matches Some(health)
            &&& health.current == hp
            &&& health.max == hp
        },
{
}

/// Crew, ammunition and modules need hit points; plain armour does not.
pub proof fn law_consequences_need_hit_points(volume: VolumeSpec)
    ensures
        volume.hp is Some ==> volume.sound(),
        volume.hp is None && volume.crew is Some ==> !volume.sound(),
        volume.hp is None && volume.ammo ==> !volume.sound(),
        volume.hp is None && volume.function is Some ==> !volume.sound(),
        volume.crew is None && !volume.ammo && volume.function is None ==> volume.sound(),
{
}

} // verus!
