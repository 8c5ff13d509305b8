//! Who and what a volume of the tank is: crew stations, module functions, and the one vocabulary of
//! parts that requirements are written in.

use crate::binary32::encoding::Binary32;
use crate::binary32::functions::{number, one};
use vstd::prelude::*;

verus! {

/// The station of a crew volume: which seat it is. The order is the seat order of the crew bar.
#[derive(Clone, Copy, Debug, PartialEq, Eq, PartialOrd, Ord, Hash, Structural)]
pub enum CrewStation {
    Commander,
    Gunner,
    Loader,
    Driver,
    BowGunner,
}

impl CrewStation {
    pub open spec fn title(self) -> Seq<char> {
        match self {
            CrewStation::Commander => "Commander"@,
            CrewStation::Gunner => "Gunner"@,
            CrewStation::Loader => "Loader"@,
            CrewStation::Driver => "Driver"@,
            CrewStation::BowGunner => "Bow gunner"@,
        }
    }

    pub fn label(self) -> (r: &'static str)
        ensures
            r@ == self.title(),
    {
        match self {
            CrewStation::Commander => "Commander",
            CrewStation::Gunner => "Gunner",
            CrewStation::Loader => "Loader",
            CrewStation::Driver => "Driver",
            CrewStation::BowGunner => "Bow gunner",
        }
    }
}

/// The occupant of a seat. `home` is the station that the occupant was trained for; after a swap it
/// may differ from the seat they man.
#[derive(Clone, Copy, Debug, PartialEq, Eq, Structural)]
pub struct Crewman {
    pub home: CrewStation,
}

/// How well a crewman serves a foreign seat: 0.6.
pub const FOREIGN_COMPETENCE: u32 = 0x3f19_999a;

/// How well a crewman serves a seat: fully at home, at a flat penalty anywhere else.
pub fn competence(home: CrewStation, seat: CrewStation) -> (r: Binary32)
    ensures
        r == (if home == seat {
            one()
        } else {
            number(FOREIGN_COMPETENCE)
        }),
{
    if home == seat {
        one()
    } else {
        number(FOREIGN_COMPETENCE)
    }
}

/// A repairable function that a module serves.
#[derive(Clone, Copy, Debug, PartialEq, Eq, Hash, Structural)]
pub enum FunctionRole {
    Engine,
    Transmission,
    Breech,
    GunBarrel,
}

impl FunctionRole {
    pub open spec fn title(self) -> Seq<char> {
        match self {
            FunctionRole::Engine => "Engine"@,
            FunctionRole::Transmission => "Transmission"@,
            FunctionRole::Breech => "Breech"@,
            FunctionRole::GunBarrel => "Gun barrel"@,
        }
    }

    pub fn label(self) -> (r: &'static str)
        ensures
            r@ == self.title(),
    {
        match self {
            FunctionRole::Engine => "Engine",
            FunctionRole::Transmission => "Transmission",
            FunctionRole::Breech => "Breech",
            FunctionRole::GunBarrel => "Gun barrel",
        }
    }
}

/// A verb that the tank can perform.
#[derive(Clone, Copy, Debug, PartialEq, Eq, Hash, Structural)]
pub enum Capability {
    Drive,
    Traverse,
    Fire,
    Load,
    GunnerSight,
    CommanderView,
}

impl Capability {
    pub open spec fn title(self) -> Seq<char> {
        match self {
            Capability::Drive => "Drive"@,
            Capability::Traverse => "Traverse"@,
            Capability::Fire => "Fire"@,
            Capability::Load => "Load"@,
            Capability::GunnerSight => "Gunner sight"@,
            Capability::CommanderView => "Commander view"@,
        }
    }

    pub fn label(self) -> (r: &'static str)
        ensures
            r@ == self.title(),
    {
        match self {
            Capability::Drive => "Drive",
            Capability::Traverse => "Traverse",
            Capability::Fire => "Fire",
            Capability::Load => "Load",
            Capability::GunnerSight => "Gunner sight",
            Capability::CommanderView => "Commander view",
        }
    }
}

/// Anything on the tank that has a quality: a crew station or a module function.
#[derive(Clone, Copy, Debug, PartialEq, Eq, Hash, Structural)]
pub enum Part {
    Commander,
    Gunner,
    Loader,
    Driver,
    BowGunner,
    Engine,
    Transmission,
    Breech,
    GunBarrel,
}

pub open spec fn part_of_station(station: CrewStation) -> Part {
    match station {
        CrewStation::Commander => Part::Commander,
        CrewStation::Gunner => Part::Gunner,
        CrewStation::Loader => Part::Loader,
        CrewStation::Driver => Part::Driver,
        CrewStation::BowGunner => Part::BowGunner,
    }
}

pub open spec fn part_of_function(function: FunctionRole) -> Part {
    match function {
        FunctionRole::Engine => Part::Engine,
        FunctionRole::Transmission => Part::Transmission,
        FunctionRole::Breech => Part::Breech,
        FunctionRole::GunBarrel => Part::GunBarrel,
    }
}

impl From<CrewStation> for Part {
    fn from(s: CrewStation) -> (r: Part) {
        match s {
            CrewStation::Commander => Part::Commander,
            CrewStation::Gunner => Part::Gunner,
            CrewStation::Loader => Part::Loader,
            CrewStation::Driver => Part::Driver,
            CrewStation::BowGunner => Part::BowGunner,
        }
    }
}

impl vstd::std_specs::convert::FromSpecImpl<CrewStation> for Part {
    open spec fn obeys_from_spec() -> bool {
        true
    }

    open spec fn from_spec(s: CrewStation) -> Part {
        part_of_station(s)
    }
}

impl From<FunctionRole> for Part {
    fn from(f: FunctionRole) -> (r: Part) {
        match f {
            FunctionRole::Engine => Part::Engine,
            FunctionRole::Transmission => Part::Transmission,
            FunctionRole::Breech => Part::Breech,
            FunctionRole::GunBarrel => Part::GunBarrel,
        }
    }
}

impl vstd::std_specs::convert::FromSpecImpl<FunctionRole> for Part {
    open spec fn obeys_from_spec() -> bool {
        true
    }

    open spec fn from_spec(f: FunctionRole) -> Part {
        part_of_function(f)
    }
}

/// No part is both a station and a function, and no two stations or functions share a part.
pub proof fn law_parts_name_one_thing(s: CrewStation, t: CrewStation, f: FunctionRole, g: FunctionRole)
    ensures
        part_of_station(s) != part_of_function(f),
        part_of_station(s) == part_of_station(t) ==> s == t,
        part_of_function(f) == part_of_function(g) ==> f == g,
{
}

/// Why a tank carries the knock-out label.
#[derive(Clone, Copy, Debug, PartialEq, Eq, Structural)]
pub enum KnockoutReason {
    CrewLoss,
    Cookoff,
}

impl KnockoutReason {
    pub open spec fn title(self) -> Seq<char> {
        match self {
            KnockoutReason::CrewLoss => "crew loss"@,
            KnockoutReason::Cookoff => "ammo cookoff"@,
        }
    }

    pub fn label(self) -> (r: &'static str)
        ensures
            r@ == self.title(),
    {
        match self {
            KnockoutReason::CrewLoss => "crew loss",
            KnockoutReason::Cookoff => "ammo cookoff",
        }
    }
}

/// The death label of a tank. It says why the tank is dead and gates nothing.
#[derive(Clone, Copy, Debug, PartialEq, Eq, Structural)]
pub struct TankKnockedOut {
    pub reason: KnockoutReason,
}

/// A station is the part of its own name, and a module function is too.
pub proof fn law_parts_keep_their_names()
    ensures
        part_of_station(CrewStation::Commander) == Part::Commander,
        part_of_station(CrewStation::Gunner) == Part::Gunner,
        part_of_station(CrewStation::Loader) == Part::Loader,
        part_of_station(CrewStation::Driver) == Part::Driver,
        part_of_station(CrewStation::BowGunner) == Part::BowGunner,
        part_of_function(FunctionRole::Engine) == Part::Engine,
        part_of_function(FunctionRole::Transmission) == Part::Transmission,
        part_of_function(FunctionRole::Breech) == Part::Breech,
        part_of_function(FunctionRole::GunBarrel) == Part::GunBarrel,
{
}

/// Every part is a station or a module function.
pub proof fn law_every_part_is_something(part: Part)
    ensures
        (exists|s: CrewStation| #[trigger] part_of_station(s) == part) || (exists|f: FunctionRole| #[trigger]
            part_of_function(f) == part),
{
    match part {
        Part::Commander => assert(part_of_station(CrewStation::Commander) == part),
        Part::Gunner => assert(part_of_station(CrewStation::Gunner) == part),
        Part::Loader => assert(part_of_station(CrewStation::Loader) == part),
        Part::Driver => assert(part_of_station(CrewStation::Driver) == part),
        Part::BowGunner => assert(part_of_station(CrewStation::BowGunner) == part),
        Part::Engine => assert(part_of_function(FunctionRole::Engine) == part),
        Part::Transmission => assert(part_of_function(FunctionRole::Transmission) == part),
        Part::Breech => assert(part_of_function(FunctionRole::Breech) == part),
        Part::GunBarrel => assert(part_of_function(FunctionRole::GunBarrel) == part),
    }
}

/// What each thing is called on the screen.
pub proof fn law_titles()
    ensures
        CrewStation::Commander.title() == "Commander"@,
        CrewStation::Gunner.title() == "Gunner"@,
        CrewStation::Loader.title() == "Loader"@,
        CrewStation::Driver.title() == "Driver"@,
        CrewStation::BowGunner.title() == "Bow gunner"@,
        FunctionRole::Engine.title() == "Engine"@,
        FunctionRole::Transmission.title() == "Transmission"@,
        FunctionRole::Breech.title() == "Breech"@,
        FunctionRole::GunBarrel.title() == "Gun barrel"@,
        Capability::Drive.title() == "Drive"@,
        Capability::Traverse.title() == "Traverse"@,
        Capability::Fire.title() == "Fire"@,
        Capability::Load.title() == "Load"@,
        Capability::GunnerSight.title() == "Gunner sight"@,
        Capability::CommanderView.title() == "Commander view"@,
        KnockoutReason::CrewLoss.title() == "crew loss"@,
        KnockoutReason::Cookoff.title() == "ammo cookoff"@,
{
}

/// A crewman is best at home and serves every foreign seat equally, in part.
pub proof fn law_home_seat_is_best(
    home: CrewStation,
    seat: CrewStation,
    native: Binary32,
    r: Binary32,
)
    requires
        call_ensures(competence, (home, home), native),
        call_ensures(competence, (home, seat), r),
    ensures
        native == one(),
        home != seat ==> r == number(FOREIGN_COMPETENCE) && r < native,
{
}

} // verus!
