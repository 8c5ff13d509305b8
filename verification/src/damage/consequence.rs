//! What lost hit points mean: crew swaps, ammunition cookoff, crew death, and the tank death label.

use crate::binary32::encoding::Binary32;
use crate::binary32::functions::{number, zero};
use crate::binary32::laws::{
    lemma_difference_with_itself, lemma_larger_minus_smaller, lemma_negation,
    lemma_opposite_product, lemma_opposite_sum, lemma_sum_is_monotone,
};
use crate::damage::capability::{ComponentHealth, TankVolumes, VolumeFacets};
use crate::damage::role::{Crewman, KnockoutReason, TankKnockedOut};
use crate::hierarchy::{descends_from, is_descendant_of};
use crate::vector::{vector, Vector3};
use std::collections::HashMap;
use vstd::prelude::*;

verus! {

/// Seconds that a crew swap takes: 4.
pub const SWAP_SECONDS: u32 = 0x4080_0000;

/// A crew swap in flight: when `remaining` runs out, the occupants of the seats `a` and `b` exchange.
/// Until then everybody serves the old seat.
#[derive(Clone, Copy, Debug, PartialEq)]
pub struct PendingSwap {
    pub a: u64,
    pub b: u64,
    pub remaining: Binary32,
}

impl PendingSwap {
    pub open spec fn after(self, dt: Binary32) -> PendingSwap {
        PendingSwap { remaining: self.remaining - dt, ..self }
    }

    /// The swap is still in flight after `dt` seconds.
    pub open spec fn waits(self, dt: Binary32) -> bool {
        self.after(dt).remaining > zero()
    }
}

/// The occupant of a seat: body and seat share a volume, so the hit points are the volume's.
#[derive(Clone, Copy, Debug, PartialEq)]
pub struct Occupant {
    pub crewman: Crewman,
    pub health: ComponentHealth,
    pub dead: bool,
}

/// An occupant on the way to a seat.
#[derive(Clone, Copy, Debug, PartialEq)]
pub struct Placement {
    pub seat: u64,
    pub occupant: Occupant,
}

/// What a swap that has run out moves: both occupants, or nobody where a seat is gone.
pub open spec fn exchange(swap: PendingSwap, seats: Map<u64, Occupant>) -> Seq<Placement> {
    if seats.contains_key(swap.a) && seats.contains_key(swap.b) {
        seq![
            Placement { seat: swap.a, occupant: seats[swap.b] },
            Placement { seat: swap.b, occupant: seats[swap.a] },
        ]
    } else {
        seq![]
    }
}

/// The swaps still in flight after `dt` seconds, each with its tank, in order.
pub open spec fn still_waiting(swaps: Seq<(u64, PendingSwap)>, dt: Binary32) -> Seq<(u64, PendingSwap)>
    decreases swaps.len(),
{
    if swaps.len() == 0 {
        seq![]
    } else {
        let rest = still_waiting(swaps.drop_last(), dt);
        let (tank, swap) = swaps.last();
        if swap.waits(dt) {
            rest.push((tank, swap.after(dt)))
        } else {
            rest
        }
    }
}

/// What all swaps that run out within `dt` seconds move, in order.
pub open spec fn completed(
    swaps: Seq<(u64, PendingSwap)>,
    seats: Map<u64, Occupant>,
    dt: Binary32,
) -> Seq<Placement>
    decreases swaps.len(),
{
    if swaps.len() == 0 {
        seq![]
    } else {
        let rest = completed(swaps.drop_last(), seats, dt);
        let (tank, swap) = swaps.last();
        if swap.waits(dt) {
            rest
        } else {
            rest + exchange(swap, seats)
        }
    }
}

/// Let time pass for the swaps of all tanks. Those that run out leave the list and move their
/// occupants; every move is read off the seats as they are before any is carried out.
pub fn tick_swaps(
    swaps: &mut Vec<(u64, PendingSwap)>,
    seats: &HashMap<u64, Occupant>,
    dt: Binary32,
) -> (moves: Vec<Placement>)
    ensures
        final(swaps)@ == still_waiting(old(swaps)@, dt),
        moves@ == completed(old(swaps)@, seats@, dt),
        forall|k: int|
            0 <= k < final(swaps)@.len() ==> (#[trigger] final(swaps)@[k]).1.remaining > zero(),
{
    let ghost before = swaps@;
    let mut waiting: Vec<(u64, PendingSwap)> = Vec::new();
    let mut moves: Vec<Placement> = Vec::new();
    let mut i: usize = 0;
    while i < swaps.len()
        invariant
            i <= swaps.len(),
            swaps@ == before,
            waiting@ == still_waiting(before.take(i as int), dt),
            forall|k: int|
                0 <= k < waiting@.len() ==> (#[trigger] waiting@[k]).1.remaining > zero(),
            moves@ == completed(before.take(i as int), seats@, dt),
        decreases swaps.len() - i,
    {
        assert(before.take(i + 1).drop_last() =~= before.take(i as int));
        let (tank, swap) = swaps[i];
        let remaining = swap.remaining - dt;
        if remaining > zero() {
            waiting.push((tank, PendingSwap { a: swap.a, b: swap.b, remaining }));
        } else {
            if let (Some(a), Some(b)) = (seats.get(&swap.a), seats.get(&swap.b)) {
                moves.push(Placement { seat: swap.a, occupant: *b });
                moves.push(Placement { seat: swap.b, occupant: *a });
            }
            assert(moves@ =~= completed(before.take(i as int), seats@, dt) + exchange(swap, seats@));
        }
        i = i + 1;
    }
    assert(before.take(i as int) =~= before);
    *swaps = waiting;
    moves
}

/// Put an occupant on a seat, in place of whoever was there.
pub fn place_occupant(seats: &mut HashMap<u64, Occupant>, placement: Placement)
    ensures
        final(seats)@ == old(seats)@.insert(placement.seat, placement.occupant),
{
    seats.insert(placement.seat, placement.occupant);
}

/// The seats after moves are carried out in order.
pub open spec fn seated(seats: Map<u64, Occupant>, moves: Seq<Placement>) -> Map<u64, Occupant>
    decreases moves.len(),
{
    if moves.len() == 0 {
        seats
    } else {
        seated(seats, moves.drop_last()).insert(moves.last().seat, moves.last().occupant)
    }
}

/// Carry out moves in order.
pub fn place_occupants(seats: &mut HashMap<u64, Occupant>, moves: &Vec<Placement>)
    ensures
        final(seats)@ == seated(old(seats)@, moves@),
{
    let ghost before = seats@;
    let mut i: usize = 0;
    while i < moves.len()
        invariant
            i <= moves.len(),
            seats@ == seated(before, moves@.take(i as int)),
        decreases moves.len() - i,
    {
        assert(moves@.take(i + 1).drop_last() =~= moves@.take(i as int));
        place_occupant(seats, moves[i]);
        i = i + 1;
    }
    assert(moves@.take(i as int) =~= moves@);
}

/// A swap that runs out moves exactly the two occupants: each seat holds what the other held, and no
/// other seat changes.
pub proof fn law_swap_exchanges_two_seats(
    tank: u64,
    swap: PendingSwap,
    seats: Map<u64, Occupant>,
    dt: Binary32,
)
    requires
        !swap.waits(dt),
        seats.contains_key(swap.a),
        seats.contains_key(swap.b),
    ensures
        still_waiting(seq![(tank, swap)], dt) == Seq::<(u64, PendingSwap)>::empty(),
        ({
            let after = seated(seats, completed(seq![(tank, swap)], seats, dt));
            &&& after.dom() == seats.dom()
            &&& after[swap.a] == seats[swap.b]
            &&& after[swap.b] == seats[swap.a]
            &&& forall|s: u64|
                s != swap.a && s != swap.b && seats.contains_key(s) ==> #[trigger] after[s]
                    == seats[s]
        }),
{
    let one = seq![(tank, swap)];
    assert(one.drop_last() =~= seq![]);
    reveal_with_fuel(still_waiting, 2);
    reveal_with_fuel(completed, 2);
    let moves = exchange(swap, seats);
    assert(completed(one, seats, dt) =~= moves);
    reveal_with_fuel(seated, 3);
    assert(moves.drop_last() =~= seq![moves[0]]);
    assert(seq![moves[0]].drop_last() =~= seq![]);
    let after = seated(seats, moves);
    assert(after =~= seats.insert(swap.a, seats[swap.b]).insert(swap.b, seats[swap.a]));
    assert(after.dom() =~= seats.dom());
}

/// While a swap is in flight nobody moves.
pub proof fn law_nobody_moves_while_a_swap_waits(
    tank: u64,
    swap: PendingSwap,
    seats: Map<u64, Occupant>,
    dt: Binary32,
)
    requires
        swap.waits(dt),
    ensures
        completed(seq![(tank, swap)], seats, dt) == Seq::<Placement>::empty(),
        still_waiting(seq![(tank, swap)], dt) == seq![(tank, swap.after(dt))],
{
    let one = seq![(tank, swap)];
    assert(one.drop_last() =~= seq![]);
    reveal_with_fuel(still_waiting, 2);
    reveal_with_fuel(completed, 2);
    assert(still_waiting(one, dt) =~= seq![(tank, swap.after(dt))]);
}

/// Swapping the same two seats twice puts everybody back.
pub proof fn law_swapping_twice_restores(
    tank: u64,
    swap: PendingSwap,
    seats: Map<u64, Occupant>,
    dt: Binary32,
)
    requires
        !swap.waits(dt),
        seats.contains_key(swap.a),
        seats.contains_key(swap.b),
    ensures
        ({
            let once = seated(seats, completed(seq![(tank, swap)], seats, dt));
            seated(once, completed(seq![(tank, swap)], once, dt)) == seats
        }),
{
    let once = seated(seats, completed(seq![(tank, swap)], seats, dt));
    law_swap_exchanges_two_seats(tank, swap, seats, dt);
    law_swap_exchanges_two_seats(tank, swap, once, dt);
    assert(seated(once, completed(seq![(tank, swap)], once, dt)) =~= seats);
}

/// An ammunition volume that has not cooked off yet.
#[derive(Clone, Copy, Debug, PartialEq)]
pub struct AmmoRack {
    pub entity: u64,
    pub tank: u64,
    pub health: ComponentHealth,
}

impl AmmoRack {
    /// The rack has nothing left to lose.
    pub open spec fn spent(self) -> bool {
        !(self.health.current > zero())
    }
}

/// The hit points of a crew volume, with its tank.
#[derive(Clone, Copy, Debug, PartialEq)]
pub struct CrewVitals {
    pub tank: u64,
    pub health: ComponentHealth,
}

/// A cookoff: the rack that burns, the tank that it knocks out, and the label that the tank gets.
#[derive(Clone, Copy, Debug, PartialEq, Eq, Structural)]
pub struct Cookoff {
    pub rack: u64,
    pub tank: u64,
    pub label: TankKnockedOut,
}

pub open spec fn cookoff_of(rack: AmmoRack) -> Cookoff {
    Cookoff {
        rack: rack.entity,
        tank: rack.tank,
        label: TankKnockedOut { reason: KnockoutReason::Cookoff },
    }
}

/// The cookoffs of the spent racks, in order.
pub open spec fn cookoffs(racks: Seq<AmmoRack>) -> Seq<Cookoff>
    decreases racks.len(),
{
    if racks.len() == 0 {
        seq![]
    } else {
        let rest = cookoffs(racks.drop_last());
        let rack = racks.last();
        if rack.spent() {
            rest.push(cookoff_of(rack))
        } else {
            rest
        }
    }
}

/// One of the racks of the tank is spent.
pub open spec fn burns(racks: Seq<AmmoRack>, tank: u64) -> bool {
    exists|i: int| 0 <= i < racks.len() && (#[trigger] racks[i]).tank == tank && racks[i].spent()
}

/// A crewman's vitals after the racks have been looked at: no hit points are left where the tank
/// burns, and nothing changes elsewhere.
pub open spec fn after_cookoff(vitals: CrewVitals, racks: Seq<AmmoRack>) -> CrewVitals {
    if burns(racks, vitals.tank) {
        CrewVitals { health: ComponentHealth { current: zero(), ..vitals.health }, ..vitals }
    } else {
        vitals
    }
}

/// Cook off every spent rack: all crew of its tank lose their hit points.
pub fn process_cookoffs(racks: &Vec<AmmoRack>, crew: &mut Vec<CrewVitals>) -> (r: Vec<Cookoff>)
    ensures
        r@ == cookoffs(racks@),
        final(crew)@ == old(crew)@.map_values(|v: CrewVitals| after_cookoff(v, racks@)),
        final(crew)@.len() == old(crew)@.len(),
        forall|k: int|
            0 <= k < old(crew)@.len() ==> {
                &&& (#[trigger] final(crew)@[k]).tank == old(crew)@[k].tank
                &&& final(crew)@[k].health.max == old(crew)@[k].health.max
                &&& final(crew)@[k].health.current == if burns(racks@, old(crew)@[k].tank) {
                    zero()
                } else {
                    old(crew)@[k].health.current
                }
            },
{
    let ghost before = crew@;
    let mut burning: Vec<Cookoff> = Vec::new();
    let mut i: usize = 0;
    while i < racks.len()
        invariant
            i <= racks.len(),
            burning@ == cookoffs(racks@.take(i as int)),
            crew@ == before.map_values(|v: CrewVitals| after_cookoff(v, racks@.take(i as int))),
        decreases racks.len() - i,
    {
        let ghost seen = racks@.take(i as int);
        let ghost more = racks@.take(i + 1);
        assert(more.drop_last() =~= seen);
        let rack = racks[i];
        assert forall|tank: u64| #[trigger] burns(more, tank) == (burns(seen, tank) || (rack.tank
            == tank && rack.spent())) by {
            if burns(seen, tank) {
                let k = choose|k: int|
                    0 <= k < seen.len() && (#[trigger] seen[k]).tank == tank && seen[k].spent();
                assert(more[k] == seen[k]);
            }
            if rack.tank == tank && rack.spent() {
                assert(more[i as int] == rack);
            }
            if burns(more, tank) {
                let k = choose|k: int|
                    0 <= k < more.len() && (#[trigger] more[k]).tank == tank && more[k].spent();
                if k < i {
                    assert(seen[k] == more[k]);
                }
            }
        }
        if !(rack.health.current > zero()) {
            let label = TankKnockedOut { reason: KnockoutReason::Cookoff };
            burning.push(Cookoff { rack: rack.entity, tank: rack.tank, label });
            let mut j: usize = 0;
            while j < crew.len()
                invariant
                    j <= crew.len(),
                    crew.len() == before.len(),
                    rack.spent(),
                    forall|tank: u64| #[trigger]
                        burns(more, tank) == (burns(seen, tank) || (rack.tank == tank
                            && rack.spent())),
                    forall|k: int|
                        0 <= k < j ==> #[trigger] crew@[k] == after_cookoff(before[k], more),
                    forall|k: int|
                        j <= k < crew.len() ==> #[trigger] crew@[k] == after_cookoff(
                            before[k],
                            seen,
                        ),
                decreases crew.len() - j,
            {
                let mut vitals = crew[j];
                if vitals.tank == rack.tank {
                    vitals.health.current = zero();
                    crew.set(j, vitals);
                }
                j = j + 1;
            }
        }
        assert(crew@ =~= before.map_values(|v: CrewVitals| after_cookoff(v, more)));
        i = i + 1;
    }
    assert(racks@.take(i as int) =~= racks@);
    burning
}

/// A volume's entity and hit points.
#[derive(Clone, Copy, Debug, PartialEq)]
pub struct Vitals {
    pub entity: u64,
    pub health: ComponentHealth,
}

/// The crew volumes whose hit points have run out, in order.
pub open spec fn casualties(crew: Seq<Vitals>) -> Seq<u64>
    decreases crew.len(),
{
    if crew.len() == 0 {
        seq![]
    } else {
        let rest = casualties(crew.drop_last());
        if crew.last().health.current <= zero() {
            rest.push(crew.last().entity)
        } else {
            rest
        }
    }
}

/// The living crew who die now.
pub fn kill_crew(crew: &Vec<Vitals>) -> (dead: Vec<u64>)
    ensures
        dead@ == casualties(crew@),
{
    let mut dead: Vec<u64> = Vec::new();
    let mut i: usize = 0;
    while i < crew.len()
        invariant
            i <= crew.len(),
            dead@ == casualties(crew@.take(i as int)),
        decreases crew.len() - i,
    {
        assert(crew@.take(i + 1).drop_last() =~= crew@.take(i as int));
        if crew[i].health.current <= zero() {
            dead.push(crew[i].entity);
        }
        i = i + 1;
    }
    assert(crew@.take(i as int) =~= crew@);
    dead
}

/// One of the volumes is a crew volume.
pub open spec fn has_crew(ids: Seq<u64>, volumes: Map<u64, VolumeFacets>) -> bool {
    exists|i: int|
        0 <= i < ids.len() && #[trigger] volumes.contains_key(ids[i])
            && volumes[ids[i]].crew is Some
}

/// One of the volumes is a crew volume whose occupant lives.
pub open spec fn has_living_crew(ids: Seq<u64>, volumes: Map<u64, VolumeFacets>) -> bool {
    exists|i: int|
        0 <= i < ids.len() && #[trigger] volumes.contains_key(ids[i])
            && volumes[ids[i]].crew is Some && !volumes[ids[i]].dead
}

/// A tank with a crew of whom nobody lives.
pub open spec fn lost_its_crew(ids: Seq<u64>, volumes: Map<u64, VolumeFacets>) -> bool {
    has_crew(ids, volumes) && !has_living_crew(ids, volumes)
}

/// The label for the loss of the crew.
pub open spec fn crew_loss() -> TankKnockedOut {
    TankKnockedOut { reason: KnockoutReason::CrewLoss }
}

/// The tanks that have lost their crew, in order, with their label.
pub open spec fn dead_tanks(
    tanks: Seq<(u64, TankVolumes)>,
    volumes: Map<u64, VolumeFacets>,
) -> Seq<(u64, TankKnockedOut)>
    decreases tanks.len(),
{
    if tanks.len() == 0 {
        seq![]
    } else {
        let rest = dead_tanks(tanks.drop_last(), volumes);
        let (tank, ids) = tanks.last();
        if lost_its_crew(ids.0@, volumes) {
            rest.push((tank, crew_loss()))
        } else {
            rest
        }
    }
}

fn crew_is_lost(ids: &Vec<u64>, volumes: &HashMap<u64, VolumeFacets>) -> (r: bool)
    ensures
        r == lost_its_crew(ids@, volumes@),
{
    let mut crewed: bool = false;
    let mut i: usize = 0;
    while i < ids.len()
        invariant
            i <= ids.len(),
            crewed == (exists|k: int|
                0 <= k < i && #[trigger] volumes@.contains_key(ids@[k])
                    && volumes@[ids@[k]].crew is Some),
            forall|k: int|
                0 <= k < i && #[trigger] volumes@.contains_key(ids@[k])
                    && volumes@[ids@[k]].crew is Some ==> volumes@[ids@[k]].dead,
        decreases ids.len() - i,
    {
        if let Some(facets) = volumes.get(&ids[i]) {
            if facets.crew.is_some() {
                crewed = true;
                if !facets.dead {
                    assert(volumes@.contains_key(ids@[i as int]));
                    return false;
                }
            }
        }
        i = i + 1;
    }
    crewed
}

/// The tanks, of those without the death label yet, that get it now for the loss of their crew. A tank
/// that has a label keeps it with its reason.
pub fn mark_dead_tanks(
    tanks: &Vec<(u64, TankVolumes)>,
    volumes: &HashMap<u64, VolumeFacets>,
) -> (r: Vec<(u64, TankKnockedOut)>)
    ensures
        r@ == dead_tanks(tanks@, volumes@),
{
    let mut dead: Vec<(u64, TankKnockedOut)> = Vec::new();
    let mut i: usize = 0;
    while i < tanks.len()
        invariant
            i <= tanks.len(),
            dead@ == dead_tanks(tanks@.take(i as int), volumes@),
        decreases tanks.len() - i,
    {
        assert(tanks@.take(i + 1).drop_last() =~= tanks@.take(i as int));
        let tank = &tanks[i];
        if crew_is_lost(&tank.1.0, volumes) {
            dead.push((tank.0, TankKnockedOut { reason: KnockoutReason::CrewLoss }));
        }
        i = i + 1;
    }
    assert(tanks@.take(i as int) =~= tanks@);
    dead
}

/// Nobody survives a cookoff: whoever sits in a burning tank is a casualty.
pub proof fn law_cookoff_kills_the_crew(
    racks: Seq<AmmoRack>,
    vitals: CrewVitals,
    entity: u64,
    rack: int,
)
    requires
        0 <= rack < racks.len(),
        racks[rack].spent(),
        racks[rack].tank == vitals.tank,
    ensures
        cookoffs(racks).contains(cookoff_of(racks[rack])),
        casualties(seq![Vitals { entity, health: after_cookoff(vitals, racks).health }]) == seq![
            entity,
        ],
    decreases racks.len(),
{
    let one = seq![Vitals { entity, health: after_cookoff(vitals, racks).health }];
    assert(one.drop_last() =~= seq![]);
    reveal_with_fuel(casualties, 2);
    assert(burns(racks, vitals.tank));
    assert(casualties(one) =~= seq![entity]);
    let wanted = cookoff_of(racks[rack]);
    let rest = racks.drop_last();
    if rack < racks.len() - 1 {
        assert(rest[rack] == racks[rack]);
        law_cookoff_kills_the_crew(rest, vitals, entity, rack);
        let k = choose|k: int| 0 <= k < cookoffs(rest).len() && cookoffs(rest)[k] == wanted;
        assert(cookoffs(racks)[k] == wanted);
    } else {
        assert(cookoffs(racks)[cookoffs(rest).len() as int] == wanted);
    }
}

/// A tank is dead exactly when nobody of its crew lives: it gets the label then, and only then.
pub proof fn law_tank_dies_with_its_last_crewman(
    tanks: Seq<(u64, TankVolumes)>,
    volumes: Map<u64, VolumeFacets>,
    i: int,
)
    requires
        0 <= i < tanks.len(),
        forall|j: int|
            0 <= j < tanks.len() && j != i ==> (#[trigger] tanks[j]).0 != tanks[i].0,
    ensures
        dead_tanks(tanks, volumes).contains((tanks[i].0, crew_loss())) <==> lost_its_crew(
            tanks[i].1.0@,
            volumes,
        ),
    decreases tanks.len(),
{
    let label = (tanks[i].0, crew_loss());
    let rest = tanks.drop_last();
    let earlier = dead_tanks(rest, volumes);
    let all = dead_tanks(tanks, volumes);
    let n = tanks.len() - 1;
    if i < n {
        assert forall|j: int| 0 <= j < rest.len() && j != i implies (#[trigger] rest[j]).0
            != rest[i].0 by {
            assert(rest[j] == tanks[j]);
        }
        law_tank_dies_with_its_last_crewman(rest, volumes, i);
        assert(tanks[n].0 != tanks[i].0);
        if earlier.contains(label) {
            let k = choose|k: int| 0 <= k < earlier.len() && earlier[k] == label;
            assert(all[k] == label);
        }
        if all.contains(label) {
            let k = choose|k: int| 0 <= k < all.len() && all[k] == label;
            assert(k < earlier.len());
            assert(earlier[k] == label);
        }
    } else {
        lemma_no_label_for(rest, volumes, tanks[i].0);
        if lost_its_crew(tanks[i].1.0@, volumes) {
            assert(all[earlier.len() as int] == label);
        } else {
            assert(all == earlier);
        }
    }
}

/// Nobody else's label goes to a tank.
proof fn lemma_no_label_for(
    tanks: Seq<(u64, TankVolumes)>,
    volumes: Map<u64, VolumeFacets>,
    tank: u64,
)
    requires
        forall|j: int| 0 <= j < tanks.len() ==> (#[trigger] tanks[j]).0 != tank,
    ensures
        !dead_tanks(tanks, volumes).contains((tank, crew_loss())),
    decreases tanks.len(),
{
    if tanks.len() > 0 {
        let rest = tanks.drop_last();
        assert forall|j: int| 0 <= j < rest.len() implies (#[trigger] rest[j]).0 != tank by {
            assert(rest[j] == tanks[j]);
        }
        assert(tanks[tanks.len() - 1].0 != tank);
        lemma_no_label_for(rest, volumes, tank);
        let all = dead_tanks(tanks, volumes);
        if all.contains((tank, crew_loss())) {
            let k = choose|k: int| 0 <= k < all.len() && all[k] == (tank, crew_loss());
            assert(dead_tanks(rest, volumes)[k] == (tank, crew_loss()));
        }
    }
}

/// A cookoff stays within its tank: crews of tanks that do not burn keep their hit points.
pub proof fn law_cookoff_spares_other_tanks(racks: Seq<AmmoRack>, vitals: CrewVitals)
    requires
        forall|i: int| 0 <= i < racks.len() && (#[trigger] racks[i]).spent() ==> racks[i].tank
            != vitals.tank,
    ensures
        after_cookoff(vitals, racks) == vitals,
{
}

/// Cooking off is settled at once: looking at the same racks again changes no crew.
pub proof fn law_cookoff_is_settled(racks: Seq<AmmoRack>, vitals: CrewVitals)
    ensures
        after_cookoff(after_cookoff(vitals, racks), racks) == after_cookoff(vitals, racks),
{
}

/// The mass of a launched turret in kilograms: 8000.
pub const TURRET_MASS: u32 = 0x45fa_0000;

/// The box that a launched turret's inertia is taken from, in metres: 3.0 by 1.2 by 2.4.
pub const TURRET_WIDTH: u32 = 0x4040_0000;

pub const TURRET_HEIGHT: u32 = 0x3f99_999a;

pub const TURRET_LENGTH: u32 = 0x4019_999a;

/// Upward launch speed in metres per second: 14.
pub const LAUNCH_LIFT: u32 = 0x4160_0000;

/// Forward launch speed in metres per second: 3.
pub const LAUNCH_PUSH: u32 = 0x4040_0000;

/// Tumble rate about the right axis in radians per second: 3.
pub const LAUNCH_TUMBLE: u32 = 0x4040_0000;

/// Spin rate about the up axis in radians per second: 1.2.
pub const LAUNCH_SPIN: u32 = 0x3f99_999a;

/// A turret that still sits on its ring, with its directions in the world.
#[derive(Clone, Copy, Debug, PartialEq)]
pub struct TurretPose {
    pub entity: u64,
    pub up: Vector3,
    pub right: Vector3,
    pub forward: Vector3,
}

/// A turret in flight.
#[derive(Clone, Copy, Debug, PartialEq)]
pub struct TurretLaunch {
    pub turret: u64,
    pub linear_velocity: Vector3,
    pub angular_velocity: Vector3,
}

pub open spec fn launch_of(pose: TurretPose) -> TurretLaunch {
    TurretLaunch {
        turret: pose.entity,
        linear_velocity: pose.up.scaled(number(LAUNCH_LIFT)).plus(
            pose.forward.scaled(number(LAUNCH_PUSH)),
        ),
        angular_velocity: pose.right.scaled(number(LAUNCH_TUMBLE)).plus(
            pose.up.scaled(number(LAUNCH_SPIN)),
        ),
    }
}

/// A flight is the launch of a turret: 14 metres per second along the turret's own up and 3 along its
/// own forward, tumbling at 3 radians per second about its own right and spinning at 1.2 about its up.
pub open spec fn flies_from(launch: TurretLaunch, pose: TurretPose) -> bool {
    &&& launch.turret == pose.entity
    &&& launch.linear_velocity.x == pose.up.x * number(LAUNCH_LIFT) + pose.forward.x * number(
        LAUNCH_PUSH,
    )
    &&& launch.linear_velocity.y == pose.up.y * number(LAUNCH_LIFT) + pose.forward.y * number(
        LAUNCH_PUSH,
    )
    &&& launch.linear_velocity.z == pose.up.z * number(LAUNCH_LIFT) + pose.forward.z * number(
        LAUNCH_PUSH,
    )
    &&& launch.angular_velocity.x == pose.right.x * number(LAUNCH_TUMBLE) + pose.up.x * number(
        LAUNCH_SPIN,
    )
    &&& launch.angular_velocity.y == pose.right.y * number(LAUNCH_TUMBLE) + pose.up.y * number(
        LAUNCH_SPIN,
    )
    &&& launch.angular_velocity.z == pose.right.z * number(LAUNCH_TUMBLE) + pose.up.z * number(
        LAUNCH_SPIN,
    )
}

/// The launches of the turrets that sit on one tank, in order.
pub open spec fn launches_of(
    tank: u64,
    turrets: Seq<TurretPose>,
    parents: Map<u64, u64>,
) -> Seq<TurretLaunch>
    decreases turrets.len(),
{
    if turrets.len() == 0 {
        seq![]
    } else {
        let rest = launches_of(tank, turrets.drop_last(), parents);
        if descends_from(turrets.last().entity, tank, parents) {
            rest.push(launch_of(turrets.last()))
        } else {
            rest
        }
    }
}

/// The launches of the turrets of all tanks that just cooked off, in order.
pub open spec fn launches(
    tanks: Seq<u64>,
    turrets: Seq<TurretPose>,
    parents: Map<u64, u64>,
) -> Seq<TurretLaunch>
    decreases tanks.len(),
{
    if tanks.len() == 0 {
        seq![]
    } else {
        launches(tanks.drop_last(), turrets, parents) + launches_of(tanks.last(), turrets, parents)
    }
}

/// Launch the turrets of the tanks that just cooked off: up and forward, tumbling.
pub fn launch_turrets_on_cookoff(
    tanks: &Vec<u64>,
    turrets: &Vec<TurretPose>,
    parents: &HashMap<u64, u64>,
) -> (r: Vec<TurretLaunch>)
    ensures
        r@ == launches(tanks@, turrets@, parents@),
        forall|k: int|
            0 <= k < r@.len() ==> exists|j: int|
                0 <= j < turrets@.len() && flies_from(#[trigger] r@[k], #[trigger] turrets@[j]),
{
    let mut flying: Vec<TurretLaunch> = Vec::new();
    let mut i: usize = 0;
    while i < tanks.len()
        invariant
            i <= tanks.len(),
            flying@ == launches(tanks@.take(i as int), turrets@, parents@),
        decreases tanks.len() - i,
    {
        assert(tanks@.take(i + 1).drop_last() =~= tanks@.take(i as int));
        let ghost before = flying@;
        let tank: u64 = tanks[i];
        let mut j: usize = 0;
        while j < turrets.len()
            invariant
                j <= turrets.len(),
                flying@ == before + launches_of(tank, turrets@.take(j as int), parents@),
            decreases turrets.len() - j,
        {
            assert(turrets@.take(j + 1).drop_last() =~= turrets@.take(j as int));
            let pose = turrets[j];
            if is_descendant_of(pose.entity, tank, parents) {
                flying.push(
                    TurretLaunch {
                        turret: pose.entity,
                        linear_velocity: pose.up.scaled(number(LAUNCH_LIFT)).plus(
                            pose.forward.scaled(number(LAUNCH_PUSH)),
                        ),
                        angular_velocity: pose.right.scaled(number(LAUNCH_TUMBLE)).plus(
                            pose.up.scaled(number(LAUNCH_SPIN)),
                        ),
                    },
                );
            }
            j = j + 1;
        }
        assert(turrets@.take(j as int) =~= turrets@);
        i = i + 1;
    }
    assert(tanks@.take(i as int) =~= tanks@);
    proof {
        assert forall|k: int| 0 <= k < flying@.len() implies exists|j: int|
            0 <= j < turrets@.len() && flies_from(#[trigger] flying@[k], #[trigger] turrets@[j]) by {
            law_turret_flies_by_its_own_axes(tanks@, turrets@, parents@, k);
        }
    }
    flying
}

/// A tank that cooks off loses every turret that sits on it.
pub proof fn law_burning_tank_loses_its_turret(
    tanks: Seq<u64>,
    turrets: Seq<TurretPose>,
    parents: Map<u64, u64>,
    i: int,
    j: int,
)
    requires
        0 <= i < tanks.len(),
        0 <= j < turrets.len(),
        descends_from(turrets[j].entity, tanks[i], parents),
    ensures
        launches(tanks, turrets, parents).contains(launch_of(turrets[j])),
    decreases tanks.len(),
{
    let wanted = launch_of(turrets[j]);
    let rest = launches(tanks.drop_last(), turrets, parents);
    let last = launches_of(tanks.last(), turrets, parents);
    let all = launches(tanks, turrets, parents);
    if i < tanks.len() - 1 {
        law_burning_tank_loses_its_turret(tanks.drop_last(), turrets, parents, i, j);
        let k = choose|k: int| 0 <= k < rest.len() && rest[k] == wanted;
        assert(all[k] == wanted);
    } else {
        lemma_turret_is_launched(tanks[i], turrets, parents, j);
        let k = choose|k: int| 0 <= k < last.len() && last[k] == wanted;
        assert(all[rest.len() + k] == wanted);
    }
}

proof fn lemma_turret_is_launched(
    tank: u64,
    turrets: Seq<TurretPose>,
    parents: Map<u64, u64>,
    j: int,
)
    requires
        0 <= j < turrets.len(),
        descends_from(turrets[j].entity, tank, parents),
    ensures
        launches_of(tank, turrets, parents).contains(launch_of(turrets[j])),
    decreases turrets.len(),
{
    let wanted = launch_of(turrets[j]);
    let rest = launches_of(tank, turrets.drop_last(), parents);
    let all = launches_of(tank, turrets, parents);
    if j < turrets.len() - 1 {
        lemma_turret_is_launched(tank, turrets.drop_last(), parents, j);
        let k = choose|k: int| 0 <= k < rest.len() && rest[k] == wanted;
        assert(all[k] == wanted);
    } else {
        assert(all[rest.len() as int] == wanted);
    }
}

/// Only turrets of tanks that cook off are launched.
pub proof fn law_only_turrets_of_burning_tanks_fly(
    tanks: Seq<u64>,
    turrets: Seq<TurretPose>,
    parents: Map<u64, u64>,
    k: int,
)
    requires
        0 <= k < launches(tanks, turrets, parents).len(),
    ensures
        exists|i: int|
            0 <= i < tanks.len() && descends_from(
                launches(tanks, turrets, parents)[k].turret,
                #[trigger] tanks[i],
                parents,
            ),
    decreases tanks.len(),
{
    let rest = tanks.drop_last();
    let earlier = launches(rest, turrets, parents);
    let n = tanks.len() - 1;
    if k < earlier.len() {
        law_only_turrets_of_burning_tanks_fly(rest, turrets, parents, k);
        let i = choose|i: int|
            0 <= i < rest.len() && descends_from(earlier[k].turret, #[trigger] rest[i], parents);
        assert(descends_from(earlier[k].turret, tanks[i], parents));
    } else {
        lemma_launched_turret_sits_on(tanks.last(), turrets, parents, k - earlier.len());
        assert(descends_from(launches(tanks, turrets, parents)[k].turret, tanks[n], parents));
    }
}

proof fn lemma_launched_turret_sits_on(
    tank: u64,
    turrets: Seq<TurretPose>,
    parents: Map<u64, u64>,
    k: int,
)
    requires
        0 <= k < launches_of(tank, turrets, parents).len(),
    ensures
        descends_from(launches_of(tank, turrets, parents)[k].turret, tank, parents),
    decreases turrets.len(),
{
    let earlier = launches_of(tank, turrets.drop_last(), parents);
    if k < earlier.len() {
        lemma_launched_turret_sits_on(tank, turrets.drop_last(), parents, k);
    }
}

/// Every launched turret flies by its own axes, whatever its pose and whichever tank burns.
pub proof fn law_turret_flies_by_its_own_axes(
    tanks: Seq<u64>,
    turrets: Seq<TurretPose>,
    parents: Map<u64, u64>,
    k: int,
)
    requires
        0 <= k < launches(tanks, turrets, parents).len(),
    ensures
        exists|j: int|
            0 <= j < turrets.len() && flies_from(
                launches(tanks, turrets, parents)[k],
                #[trigger] turrets[j],
            ),
    decreases tanks.len(),
{
    let earlier = launches(tanks.drop_last(), turrets, parents);
    if k < earlier.len() {
        law_turret_flies_by_its_own_axes(tanks.drop_last(), turrets, parents, k);
    } else {
        lemma_one_tank_launches_by_its_axes(tanks.last(), turrets, parents, k - earlier.len());
    }
}

proof fn lemma_one_tank_launches_by_its_axes(
    tank: u64,
    turrets: Seq<TurretPose>,
    parents: Map<u64, u64>,
    k: int,
)
    requires
        0 <= k < launches_of(tank, turrets, parents).len(),
    ensures
        exists|j: int|
            0 <= j < turrets.len() && flies_from(
                launches_of(tank, turrets, parents)[k],
                #[trigger] turrets[j],
            ),
    decreases turrets.len(),
{
    let rest = turrets.drop_last();
    let earlier = launches_of(tank, rest, parents);
    if k < earlier.len() {
        lemma_one_tank_launches_by_its_axes(tank, rest, parents, k);
        let j = choose|j: int|
            0 <= j < rest.len() && flies_from(earlier[k], #[trigger] rest[j]);
        assert(flies_from(earlier[k], turrets[j]));
    } else {
        assert(flies_from(
            launches_of(tank, turrets, parents)[k],
            turrets[turrets.len() - 1],
        ));
    }
}

/// A vector turned by a third of a turn about the diagonal: its components move on by one place.
pub open spec fn turned_about_diagonal(v: Vector3) -> Vector3 {
    vector(v.z, v.x, v.y)
}

/// A vector turned by a quarter turn about the vertical.
pub open spec fn turned_about_vertical(v: Vector3) -> Vector3 {
    vector(v.z, v.y, -v.x)
}

/// Turning the pose turns the launch with it: no direction of the world is singled out.
pub proof fn law_launch_turns_with_the_pose(pose: TurretPose, turned: TurretPose)
    requires
        turned.up == turned_about_diagonal(pose.up),
        turned.right == turned_about_diagonal(pose.right),
        turned.forward == turned_about_diagonal(pose.forward),
    ensures
        launch_of(turned).linear_velocity == turned_about_diagonal(launch_of(pose).linear_velocity),
        launch_of(turned).angular_velocity == turned_about_diagonal(
            launch_of(pose).angular_velocity,
        ),
{
}

/// The opposite of a weighted sum.
proof fn lemma_opposite_weighted_sum(a: Binary32, s: Binary32, b: Binary32, t: Binary32)
    requires
        a.is_finite(),
        b.is_finite(),
        s.is_finite(),
        t.is_finite(),
        (a * s).is_finite(),
        (b * t).is_finite(),
    ensures
        ((-a) * s + (-b) * t).same_value(-(a * s + b * t)),
{
    lemma_opposite_product(a, s);
    lemma_opposite_product(b, t);
    lemma_opposite_sum(a * s, b * t);
}

/// A quarter turn of the pose about the vertical turns the launch by a quarter turn.
pub proof fn law_launch_turns_about_the_vertical(pose: TurretPose, turned: TurretPose)
    requires
        pose.up.is_finite(),
        pose.right.is_finite(),
        pose.forward.is_finite(),
        (pose.up.x * number(LAUNCH_LIFT)).is_finite(),
        (pose.forward.x * number(LAUNCH_PUSH)).is_finite(),
        (pose.right.x * number(LAUNCH_TUMBLE)).is_finite(),
        (pose.up.x * number(LAUNCH_SPIN)).is_finite(),
        turned.up == turned_about_vertical(pose.up),
        turned.right == turned_about_vertical(pose.right),
        turned.forward == turned_about_vertical(pose.forward),
    ensures
        ({
            let linear = turned_about_vertical(launch_of(pose).linear_velocity);
            let angular = turned_about_vertical(launch_of(pose).angular_velocity);
            &&& launch_of(turned).linear_velocity.x == linear.x
            &&& launch_of(turned).linear_velocity.y == linear.y
            &&& launch_of(turned).linear_velocity.z.same_value(linear.z)
            &&& launch_of(turned).angular_velocity.x == angular.x
            &&& launch_of(turned).angular_velocity.y == angular.y
            &&& launch_of(turned).angular_velocity.z.same_value(angular.z)
        }),
{
    lemma_opposite_weighted_sum(
        pose.up.x,
        number(LAUNCH_LIFT),
        pose.forward.x,
        number(LAUNCH_PUSH),
    );
    lemma_opposite_weighted_sum(
        pose.right.x,
        number(LAUNCH_TUMBLE),
        pose.up.x,
        number(LAUNCH_SPIN),
    );
}

/// A launched turret leaves at 14 metres per second along its own up and 3 along its own forward,
/// turning at 3 radians per second about its own right and 1.2 about its own up: component by
/// component, for every pose.
pub proof fn law_launch_is_14_up_and_3_forward(pose: TurretPose)
    ensures
        ({
            let launch = launch_of(pose);
            let (up, right, forward) = (pose.up, pose.right, pose.forward);
            let lift = number(0x4160_0000);
            let three = number(0x4040_0000);
            let spin = number(0x3f99_999a);
            &&& launch.turret == pose.entity
            &&& launch.linear_velocity.x == up.x * lift + forward.x * three
            &&& launch.linear_velocity.y == up.y * lift + forward.y * three
            &&& launch.linear_velocity.z == up.z * lift + forward.z * three
            &&& launch.angular_velocity.x == right.x * three + up.x * spin
            &&& launch.angular_velocity.y == right.y * three + up.y * spin
            &&& launch.angular_velocity.z == right.z * three + up.z * spin
        }),
{
}

/// Turrets of one tank are launched one by one, in order.
pub proof fn law_turrets_launch_one_by_one(
    tank: u64,
    first: Seq<TurretPose>,
    second: Seq<TurretPose>,
    parents: Map<u64, u64>,
)
    ensures
        launches_of(tank, first + second, parents) == launches_of(tank, first, parents)
            + launches_of(tank, second, parents),
    decreases second.len(),
{
    let all = first + second;
    if second.len() == 0 {
        assert(all =~= first);
    } else {
        law_turrets_launch_one_by_one(tank, first, second.drop_last(), parents);
        assert(all.drop_last() =~= first + second.drop_last());
        assert(all.last() == second.last());
    }
    assert(launches_of(tank, all, parents) =~= launches_of(tank, first, parents) + launches_of(
        tank,
        second,
        parents,
    ));
}

/// Tanks burn apart: the launches of two lists of tanks are those of the one and then of the other.
pub proof fn law_launches_add_up(
    first: Seq<u64>,
    second: Seq<u64>,
    turrets: Seq<TurretPose>,
    parents: Map<u64, u64>,
)
    ensures
        launches(first + second, turrets, parents) == launches(first, turrets, parents) + launches(
            second,
            turrets,
            parents,
        ),
    decreases second.len(),
{
    if second.len() == 0 {
        assert(first + second =~= first);
        assert(launches(first, turrets, parents) + launches(second, turrets, parents) =~= launches(
            first,
            turrets,
            parents,
        ));
    } else {
        law_launches_add_up(first, second.drop_last(), turrets, parents);
        assert((first + second).drop_last() =~= first + second.drop_last());
        assert((first + second).last() == second.last());
    }
}

/// A swap counts down by the time that passes and keeps its seats; it waits exactly while less time
/// has passed than it takes.
pub proof fn law_swap_takes_its_time(swap: PendingSwap, dt: Binary32)
    requires
        swap.remaining.is_finite(),
        dt.is_finite(),
    ensures
        swap.waits(dt) <==> dt < swap.remaining,
        swap.after(dt).a == swap.a,
        swap.after(dt).b == swap.b,
        swap.after(dt).remaining == swap.remaining - dt,
{
    if dt < swap.remaining {
        lemma_larger_minus_smaller(swap.remaining, dt);
    } else {
        lemma_negation(dt);
        lemma_difference_with_itself(dt);
        lemma_sum_is_monotone(swap.remaining, -dt, dt, -dt);
    }
}

/// Swaps do not disturb each other: time passes for two lists of swaps as it does for each alone.
pub proof fn law_swaps_run_side_by_side(
    first: Seq<(u64, PendingSwap)>,
    second: Seq<(u64, PendingSwap)>,
    seats: Map<u64, Occupant>,
    dt: Binary32,
)
    ensures
        still_waiting(first + second, dt) == still_waiting(first, dt) + still_waiting(second, dt),
        completed(first + second, seats, dt) == completed(first, seats, dt) + completed(
            second,
            seats,
            dt,
        ),
    decreases second.len(),
{
    let all = first + second;
    if second.len() == 0 {
        assert(all =~= first);
    } else {
        law_swaps_run_side_by_side(first, second.drop_last(), seats, dt);
        assert(all.drop_last() =~= first + second.drop_last());
        assert(all.last() == second.last());
    }
    assert(still_waiting(all, dt) =~= still_waiting(first, dt) + still_waiting(second, dt));
    assert(completed(all, seats, dt) =~= completed(first, seats, dt) + completed(
        second,
        seats,
        dt,
    ));
}

/// A swap with a seat that is gone moves nobody.
pub proof fn law_swap_needs_both_seats(swap: PendingSwap, seats: Map<u64, Occupant>)
    requires
        !seats.contains_key(swap.a) || !seats.contains_key(swap.b),
    ensures
        exchange(swap, seats) == Seq::<Placement>::empty(),
{
}

/// The last move onto a seat decides who sits there, and a seat that no move names keeps its occupant.
pub proof fn law_last_move_decides(
    seats: Map<u64, Occupant>,
    moves: Seq<Placement>,
    last: Placement,
    seat: u64,
)
    ensures
        seated(seats, moves.push(last)).contains_key(last.seat),
        seated(seats, moves.push(last))[last.seat] == last.occupant,
        (forall|i: int| 0 <= i < moves.len() ==> (#[trigger] moves[i]).seat != seat) ==> {
            &&& seated(seats, moves).contains_key(seat) <==> seats.contains_key(seat)
            &&& seated(seats, moves)[seat] == seats[seat]
        },
    decreases moves.len(),
{
    assert(moves.push(last).drop_last() =~= moves);
    if moves.len() > 0 {
        let rest = moves.drop_last();
        law_last_move_decides(seats, rest, last, seat);
        if forall|i: int| 0 <= i < moves.len() ==> (#[trigger] moves[i]).seat != seat {
            assert forall|i: int| 0 <= i < rest.len() implies (#[trigger] rest[i]).seat != seat by {
                assert(rest[i] == moves[i]);
            }
            assert(moves[moves.len() - 1].seat != seat);
        }
    }
}

/// A rack burns once it has no hit points left, and not before; what burns is that rack, on its own
/// tank, and the tank's label says so.
pub proof fn law_spent_rack_names_its_tank(rack: AmmoRack)
    ensures
        rack.health.current <= zero() ==> rack.spent(),
        rack.health.current > zero() ==> !rack.spent(),
        cookoff_of(rack).rack == rack.entity,
        cookoff_of(rack).tank == rack.tank,
        cookoff_of(rack).label.reason == KnockoutReason::Cookoff,
{
}

/// Every cookoff is that of a spent rack.
pub proof fn law_only_spent_racks_burn(racks: Seq<AmmoRack>, k: int)
    requires
        0 <= k < cookoffs(racks).len(),
    ensures
        exists|i: int|
            0 <= i < racks.len() && (#[trigger] racks[i]).spent() && cookoffs(racks)[k].rack
                == racks[i].entity && cookoffs(racks)[k].tank == racks[i].tank,
        cookoffs(racks)[k].label.reason == KnockoutReason::Cookoff,
    decreases racks.len(),
{
    let rest = racks.drop_last();
    if k < cookoffs(rest).len() {
        law_only_spent_racks_burn(rest, k);
        let i = choose|i: int|
            0 <= i < rest.len() && (#[trigger] rest[i]).spent() && cookoffs(rest)[k].rack
                == rest[i].entity && cookoffs(rest)[k].tank == rest[i].tank;
        assert(racks[i] == rest[i]);
    } else {
        assert(racks[racks.len() - 1].spent());
    }
}

/// Cookoffs are found rack by rack, in order: two lists of racks give the cookoffs of the one and then
/// of the other.
pub proof fn law_cookoffs_add_up(first: Seq<AmmoRack>, second: Seq<AmmoRack>)
    ensures
        cookoffs(first + second) == cookoffs(first) + cookoffs(second),
    decreases second.len(),
{
    let all = first + second;
    if second.len() == 0 {
        assert(all =~= first);
    } else {
        law_cookoffs_add_up(first, second.drop_last());
        assert(all.drop_last() =~= first + second.drop_last());
        assert(all.last() == second.last());
    }
    assert(cookoffs(all) =~= cookoffs(first) + cookoffs(second));
}

/// A cookoff takes all hit points of the crew of its tank and changes nothing else of them.
pub proof fn law_cookoff_takes_hit_points_only(racks: Seq<AmmoRack>, vitals: CrewVitals, i: int)
    requires
        0 <= i < racks.len(),
        racks[i].tank == vitals.tank,
        racks[i].health.current <= zero(),
    ensures
        after_cookoff(vitals, racks).health.current == zero(),
        after_cookoff(vitals, racks).health.max == vitals.health.max,
        after_cookoff(vitals, racks).tank == vitals.tank,
{
    assert(racks[i].spent());
}

/// Exactly those die whose hit points have run out, and each is named by its own volume.
pub proof fn law_casualties_are_those_without_hit_points(crew: Seq<Vitals>, entity: u64)
    ensures
        casualties(crew).contains(entity) <==> exists|i: int|
            0 <= i < crew.len() && (#[trigger] crew[i]).entity == entity && crew[i].health.current
                <= zero(),
        casualties(crew).len() <= crew.len(),
    decreases crew.len(),
{
    if crew.len() > 0 {
        let rest = crew.drop_last();
        let n = crew.len() - 1;
        let all = casualties(crew);
        let earlier = casualties(rest);
        law_casualties_are_those_without_hit_points(rest, entity);
        if all.contains(entity) {
            let k = choose|k: int| 0 <= k < all.len() && all[k] == entity;
            if k < earlier.len() {
                assert(earlier[k] == entity);
                let i = choose|i: int|
                    0 <= i < rest.len() && (#[trigger] rest[i]).entity == entity
                        && rest[i].health.current <= zero();
                assert(crew[i] == rest[i]);
            } else {
                assert(crew[n].health.current <= zero());
            }
        }
        if exists|i: int|
            0 <= i < crew.len() && (#[trigger] crew[i]).entity == entity && crew[i].health.current
                <= zero() {
            let i = choose|i: int|
                0 <= i < crew.len() && (#[trigger] crew[i]).entity == entity
                    && crew[i].health.current <= zero();
            if i < n {
                assert(rest[i] == crew[i]);
                let k = choose|k: int| 0 <= k < earlier.len() && earlier[k] == entity;
                assert(all[k] == entity);
            } else {
                assert(all[earlier.len() as int] == entity);
            }
        }
    }
}

/// Casualties are found volume by volume, in order.
pub proof fn law_casualties_add_up(first: Seq<Vitals>, second: Seq<Vitals>)
    ensures
        casualties(first + second) == casualties(first) + casualties(second),
    decreases second.len(),
{
    let all = first + second;
    if second.len() == 0 {
        assert(all =~= first);
    } else {
        law_casualties_add_up(first, second.drop_last());
        assert(all.drop_last() =~= first + second.drop_last());
        assert(all.last() == second.last());
    }
    assert(casualties(all) =~= casualties(first) + casualties(second));
}

/// One living crewman keeps the tank alive, a tank without any crew volume is never lost, and one
/// whose crew are all dead is.
pub proof fn law_one_survivor_saves_the_tank(
    ids: Seq<u64>,
    volumes: Map<u64, VolumeFacets>,
    i: int,
)
    requires
        0 <= i < ids.len(),
        volumes.contains_key(ids[i]),
        volumes[ids[i]].crew is Some,
    ensures
        !volumes[ids[i]].dead ==> !lost_its_crew(ids, volumes),
        (forall|k: int|
            0 <= k < ids.len() && #[trigger] volumes.contains_key(ids[k])
                && volumes[ids[k]].crew is Some ==> volumes[ids[k]].dead) ==> lost_its_crew(
            ids,
            volumes,
        ),
{
}

/// A tank without a crew volume is no wreck.
pub proof fn law_tank_without_crew_is_not_lost(ids: Seq<u64>, volumes: Map<u64, VolumeFacets>)
    requires
        forall|k: int|
            0 <= k < ids.len() && #[trigger] volumes.contains_key(ids[k]) ==> volumes[ids[k]].crew
                is None,
    ensures
        !lost_its_crew(ids, volumes),
{
}

/// Every label for the loss of a crew goes to a tank of the list that lost its crew.
pub proof fn law_labels_go_to_lost_tanks(
    tanks: Seq<(u64, TankVolumes)>,
    volumes: Map<u64, VolumeFacets>,
    k: int,
)
    requires
        0 <= k < dead_tanks(tanks, volumes).len(),
    ensures
        dead_tanks(tanks, volumes)[k].1.reason == KnockoutReason::CrewLoss,
        exists|i: int|
            0 <= i < tanks.len() && (#[trigger] tanks[i]).0 == dead_tanks(tanks, volumes)[k].0
                && lost_its_crew(tanks[i].1.0@, volumes),
    decreases tanks.len(),
{
    let rest = tanks.drop_last();
    if k < dead_tanks(rest, volumes).len() {
        law_labels_go_to_lost_tanks(rest, volumes, k);
        let i = choose|i: int|
            0 <= i < rest.len() && (#[trigger] rest[i]).0 == dead_tanks(rest, volumes)[k].0
                && lost_its_crew(rest[i].1.0@, volumes);
        assert(tanks[i] == rest[i]);
    } else {
        assert(lost_its_crew(tanks[tanks.len() - 1].1.0@, volumes));
    }
}

} // verus!
