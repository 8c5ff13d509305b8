//! The gunner's sight: a second view along the gun, aimed by position, with a range dial.

pub mod direction;
pub mod margin;

use crate::binary32::encoding::Binary32;
use crate::binary32::functions::{number, zero, TWO_BITS};
use crate::binary32::laws::{
    at_least_zero, in_unit_range, lemma_adding_zero, lemma_difference_of_equals,
    lemma_difference_with_itself, lemma_negation, lemma_opposite_product, lemma_product_commutes,
    lemma_product_grows, lemma_quotient_grows, lemma_scaling_keeps_order,
    lemma_scaling_never_lengthens, lemma_share, lemma_sum, lemma_sum_commutes,
    lemma_sum_is_monotone, lemma_whole_number, lemma_whole_product, lemma_zero_product,
};
use crate::damage::capability::ControlledTank;
use crate::damage::role::Capability;
use crate::shooting::MUZZLE_SPEED;
use crate::tank::rig::Rig;
use crate::tank::servo::{lemma_no_turn, shortest, shortest_angle, ServoState};
use crate::vector::{vector, Vector3};
use std::collections::HashMap;
use vstd::prelude::*;

verus! {

/// The view that the player is in.
#[derive(Clone, Copy, Debug, PartialEq, Eq, Structural)]
pub enum SightMode {
    ThirdPerson,
    Gunner,
}

impl Default for SightMode {
    fn default() -> (r: SightMode)
        ensures
            r == SightMode::ThirdPerson,
    {
        SightMode::ThirdPerson
    }
}

/// Whether the gunner's optic works: it is the view, and its capability is available.
pub fn in_gunner(mode: SightMode, gunner_sight: bool) -> (r: bool)
    ensures
        r == (mode == SightMode::Gunner && gunner_sight),
{
    mode == SightMode::Gunner && gunner_sight
}

/// Whether the third-person view works: it is the view, and its capability is available.
pub fn in_third_person(mode: SightMode, commander_view: bool) -> (r: bool)
    ensures
        r == (mode == SightMode::ThirdPerson && commander_view),
{
    mode == SightMode::ThirdPerson && commander_view
}

/// The capability that a view needs.
pub open spec fn view_capability(mode: SightMode) -> Capability {
    match mode {
        SightMode::ThirdPerson => Capability::CommanderView,
        SightMode::Gunner => Capability::GunnerSight,
    }
}

/// The view is the player's, and the crewman it needs can serve it.
pub open spec fn view_works(view: SightMode, mode: SightMode, controlled: ControlledTank) -> bool {
    mode == view && controlled.degree(view_capability(view)) > zero()
}

/// Whether the player looks through the gunner's optic, and the gunner of their tank can serve it.
pub fn optic_works(mode: SightMode, controlled: &ControlledTank) -> (r: bool)
    ensures
        r == view_works(SightMode::Gunner, mode, *controlled),
{
    in_gunner(mode, controlled.available(Capability::GunnerSight))
}

/// Whether the player is in the third-person view, and the commander of their tank can serve it.
pub fn third_person_works(mode: SightMode, controlled: &ControlledTank) -> (r: bool)
    ensures
        r == view_works(SightMode::ThirdPerson, mode, *controlled),
{
    in_third_person(mode, controlled.available(Capability::CommanderView))
}

/// The range that a fresh dial shows, in metres: 800.
pub const DEFAULT_RANGE: u32 = 0x4448_0000;

/// The dialed range in metres.
#[derive(Clone, Copy, Debug, PartialEq)]
pub struct Ranging {
    pub range: Binary32,
}

impl Default for Ranging {
    fn default() -> (r: Ranging)
        ensures
            r.range == number(DEFAULT_RANGE),
    {
        Ranging { range: number(DEFAULT_RANGE) }
    }
}

/// Gravity in metres per second squared: 9.81.
pub const GRAVITY: u32 = 0x411c_f5c3;

/// The elevation above the line of sight for a flat shot without drag: gravity times range over twice
/// the muzzle speed squared, in radians.
pub open spec fn elevation_for(range: Binary32) -> Binary32 {
    number(GRAVITY) * range / (number(TWO_BITS) * number(MUZZLE_SPEED) * number(MUZZLE_SPEED))
}

pub fn superelevation(range: Binary32) -> (r: Binary32)
    ensures
        r == elevation_for(range),
{
    number(GRAVITY) * range / (number(TWO_BITS) * number(MUZZLE_SPEED) * number(MUZZLE_SPEED))
}

/// The direction that the gunner has asked for, in the hull's frame: what the gun chases, not where
/// it points.
#[derive(Clone, Copy, Debug, PartialEq)]
pub struct GunnerIntent {
    pub yaw: Binary32,
    pub pitch: Binary32,
}

impl Default for GunnerIntent {
    fn default() -> (r: GunnerIntent)
        ensures
            r == (GunnerIntent { yaw: zero(), pitch: zero() }),
    {
        GunnerIntent { yaw: zero(), pitch: zero() }
    }
}

/// The direction in the hull's frame for the given sines and cosines of yaw and pitch.
pub open spec fn direction_of(
    yaw_sin: Binary32,
    yaw_cos: Binary32,
    pitch_sin: Binary32,
    pitch_cos: Binary32,
) -> Vector3 {
    vector((-yaw_sin) * pitch_cos, pitch_sin, (-yaw_cos) * pitch_cos)
}

pub fn local_dir(
    yaw_sin: Binary32,
    yaw_cos: Binary32,
    pitch_sin: Binary32,
    pitch_cos: Binary32,
) -> (r: Vector3)
    ensures
        r == direction_of(yaw_sin, yaw_cos, pitch_sin, pitch_cos),
{
    vector(yaw_sin.negated() * pitch_cos, pitch_sin, yaw_cos.negated() * pitch_cos)
}

/// What switching the view does to the tank's own model.
#[derive(Clone, Copy, Debug, PartialEq, Eq, Structural)]
pub struct ModelVisibility {
    pub tank: u64,
    pub hidden: bool,
}

pub open spec fn other_view(mode: SightMode) -> SightMode {
    match mode {
        SightMode::ThirdPerson => SightMode::Gunner,
        SightMode::Gunner => SightMode::ThirdPerson,
    }
}

/// The switch key takes effect: there is a controlled tank, and the other view's crewman can serve.
pub open spec fn switches(pressed: bool, mode: SightMode, controlled: ControlledTank) -> bool {
    pressed && controlled.single() is Some && controlled.degree(view_capability(other_view(mode)))
        > zero()
}

/// The intent on entering the optic: the gun's present lay, less the elevation for the range.
pub open spec fn seeded(
    intent: GunnerIntent,
    range: Binary32,
    rig: Rig,
    turrets: Map<u64, ServoState>,
    guns: Map<u64, ServoState>,
) -> GunnerIntent {
    if turrets.contains_key(rig.turret) && guns.contains_key(rig.gun) {
        GunnerIntent {
            yaw: turrets[rig.turret].motion.current,
            pitch: guns[rig.gun].motion.current - elevation_for(range),
        }
    } else {
        intent
    }
}

/// Handle the switch key. Entering the optic seeds the intent from the gun's present lay and hides
/// the tank's own model; leaving it shows the model again.
pub fn toggle_sight(
    pressed: bool,
    mode: &mut SightMode,
    intent: &mut GunnerIntent,
    ranging: &Ranging,
    controlled: &ControlledTank,
    turrets: &HashMap<u64, ServoState>,
    guns: &HashMap<u64, ServoState>,
) -> (r: Option<ModelVisibility>)
    ensures
        if switches(pressed, *old(mode), *controlled) {
            let tank = controlled.single()->0;
            &&& *final(mode) == other_view(*old(mode))
            &&& *final(intent) == (if *old(mode) == SightMode::ThirdPerson {
                seeded(*old(intent), ranging.range, tank.rig, turrets@, guns@)
            } else {
                *old(intent)
            })
            &&& r == Some(
                ModelVisibility { tank: tank.entity, hidden: *old(mode) == SightMode::ThirdPerson },
            )
        } else {
            &&& *final(mode) == *old(mode)
            &&& *final(intent) == *old(intent)
            &&& r is None
        },
{
    if !pressed {
        return None;
    }
    let (tank, rig) = match (controlled.entity(), controlled.rig()) {
        (Some(tank), Some(rig)) => (tank, rig),
        _ => {
            return None;
        },
    };
    match *mode {
        SightMode::ThirdPerson => {
            if !controlled.available(Capability::GunnerSight) {
                return None;
            }
            if let (Some(turret), Some(gun)) = (turrets.get(&rig.turret), guns.get(&rig.gun)) {
                intent.yaw = turret.current();
                intent.pitch = gun.current() - superelevation(ranging.range);
            }
            *mode = SightMode::Gunner;
            Some(ModelVisibility { tank, hidden: true })
        },
        SightMode::Gunner => {
            if !controlled.available(Capability::CommanderView) {
                return None;
            }
            *mode = SightMode::ThirdPerson;
            Some(ModelVisibility { tank, hidden: false })
        },
    }
}

/// Radians of aim per count of the mouse: 0.0005.
pub const SENSITIVITY: u32 = 0x3a03_126f;

/// How far the intent may lead the gun, in radians: 0.04.
pub const LEAD_MARGIN: u32 = 0x3d23_d70a;

/// The intent moved by the mouse.
pub open spec fn pushed_intent(intent: GunnerIntent, dx: Binary32, dy: Binary32) -> GunnerIntent {
    GunnerIntent {
        yaw: intent.yaw - dx * number(SENSITIVITY),
        pitch: intent.pitch - dy * number(SENSITIVITY),
    }
}

/// How far the intent leads the gun's line of sight: the short way round in yaw, and in pitch.
pub open spec fn lead_of(
    intent: GunnerIntent,
    turret: Binary32,
    sight: Binary32,
) -> (Binary32, Binary32) {
    (shortest(intent.yaw - turret), intent.pitch - sight)
}

/// The length of a lead.
pub open spec fn lead_length(lead: (Binary32, Binary32)) -> Binary32 {
    (lead.0 * lead.0 + lead.1 * lead.1).root()
}

/// The intent brought back to the margin where it leads too far, in the same direction.
pub open spec fn restrained(
    intent: GunnerIntent,
    turret: Binary32,
    sight: Binary32,
) -> GunnerIntent {
    let lead = lead_of(intent, turret, sight);
    let length = lead_length(lead);
    if length > number(LEAD_MARGIN) {
        let scale = number(LEAD_MARGIN) / length;
        GunnerIntent { yaw: turret + lead.0 * scale, pitch: sight + lead.1 * scale }
    } else {
        intent
    }
}

/// The angles that the turret and the gun are told to take.
#[derive(Clone, Copy, Debug, PartialEq)]
pub struct AimCommands {
    pub turret: Binary32,
    pub gun: Binary32,
}

/// What the turret and the gun are told for an intent: the gun rides above the line of sight.
pub open spec fn commands_for(intent: GunnerIntent, elevation: Binary32) -> AimCommands {
    AimCommands { turret: intent.yaw, gun: intent.pitch + elevation }
}

/// Aim with the mouse. The intent follows the mouse within the margin, and the turret and the gun are
/// told to chase it; the gun rides above the line of sight by the elevation for the range. A tank
/// that cannot traverse keeps its last commands.
pub fn drive_gunner_aim(
    dx: Binary32,
    dy: Binary32,
    ranging: &Ranging,
    intent: &mut GunnerIntent,
    controlled: &ControlledTank,
    turrets: &HashMap<u64, ServoState>,
    guns: &HashMap<u64, ServoState>,
) -> (r: Option<AimCommands>)
    ensures
        match controlled.single() {
            Some(tank) if controlled.degree(Capability::Traverse) > zero() => {
                let moved = pushed_intent(*old(intent), dx, dy);
                if turrets@.contains_key(tank.rig.turret) && guns@.contains_key(tank.rig.gun) {
                    let elevation = elevation_for(ranging.range);
                    let turret = turrets@[tank.rig.turret].motion.current;
                    let sight = guns@[tank.rig.gun].motion.current - elevation;
                    &&& *final(intent) == restrained(moved, turret, sight)
                    &&& r == Some(
                        AimCommands {
                            turret: final(intent).yaw,
                            gun: final(intent).pitch + elevation,
                        },
                    )
                } else {
                    *final(intent) == moved && r is None
                }
            },
            _ => *final(intent) == *old(intent) && r is None,
        },
        r matches Some(commands) ==> commands == commands_for(
            *final(intent),
            elevation_for(ranging.range),
        ),
{
    if !controlled.available(Capability::Traverse) {
        return None;
    }
    let rig = match controlled.rig() {
        Some(rig) => rig,
        None => {
            return None;
        },
    };
    intent.yaw = intent.yaw - dx * number(SENSITIVITY);
    intent.pitch = intent.pitch - dy * number(SENSITIVITY);
    let elevation = superelevation(ranging.range);
    let (turret, gun) = match (turrets.get(&rig.turret), guns.get(&rig.gun)) {
        (Some(turret), Some(gun)) => (turret.current(), gun.current()),
        _ => {
            return None;
        },
    };
    let yaw_offset = shortest_angle(intent.yaw - turret);
    let sight_now = gun - elevation;
    let pitch_offset = intent.pitch - sight_now;
    let length = (yaw_offset * yaw_offset + pitch_offset * pitch_offset).sqrt();
    if length > number(LEAD_MARGIN) {
        let scale = number(LEAD_MARGIN) / length;
        intent.yaw = turret + yaw_offset * scale;
        intent.pitch = sight_now + pitch_offset * scale;
    }
    Some(AimCommands { turret: intent.yaw, gun: intent.pitch + elevation })
}

/// What to do with the overlay that covers a view whose crewman is dead.
#[derive(Clone, Debug, PartialEq, Eq)]
pub enum OverlayChange {
    Keep,
    Hide,
    /// Cover the view with this prompt.
    Show(String),
}

/// The prompt over a dark view: the way to the other view if that one works.
pub open spec fn prompt_for(mode: SightMode, other_works: bool) -> Seq<char> {
    if other_works {
        "Crewman down — [Lshift] for "@ + match mode {
            SightMode::ThirdPerson => "gunner optic"@,
            SightMode::Gunner => "third-person"@,
        }
    } else {
        "All view crew down"@
    }
}

/// Cover the view while its crewman is dead. Without a controlled tank nothing changes.
pub fn update_view_death_overlay(mode: SightMode, controlled: &ControlledTank) -> (r: OverlayChange)
    ensures
        match controlled.single() {
            None => r == OverlayChange::Keep,
            Some(tank) => if controlled.degree(view_capability(mode)) > zero() {
                r == OverlayChange::Hide
            } else {
                let other_works = controlled.degree(view_capability(other_view(mode))) > zero();
                r matches OverlayChange::Show(text) && text@ == prompt_for(mode, other_works)
            },
        },
{
    if controlled.entity().is_none() {
        return OverlayChange::Keep;
    }
    let (active, other, label) = match mode {
        SightMode::ThirdPerson => (
            Capability::CommanderView,
            Capability::GunnerSight,
            "gunner optic",
        ),
        SightMode::Gunner => (Capability::GunnerSight, Capability::CommanderView, "third-person"),
    };
    if controlled.available(active) {
        return OverlayChange::Hide;
    }
    if controlled.available(other) {
        OverlayChange::Show("Crewman down — [Lshift] for ".to_owned().concat(label))
    } else {
        OverlayChange::Show("All view crew down".to_owned())
    }
}

/// Metres of range per step of the wheel, and the least range on the dial: 50.
pub const RANGE_STEP: u32 = 0x4248_0000;

pub const RANGE_MIN: u32 = 0x4248_0000;

/// The largest range on the dial: 4000.
pub const RANGE_MAX: u32 = 0x457a_0000;

/// The range after turning the dial.
pub open spec fn dialed(range: Binary32, scroll: Binary32) -> Binary32 {
    (range + scroll * number(RANGE_STEP)).clamped(number(RANGE_MIN), number(RANGE_MAX))
}

/// Turn the range dial.
pub fn adjust_range(scroll: Binary32, ranging: &mut Ranging)
    ensures
        final(ranging).range == dialed(old(ranging).range, scroll),
{
    ranging.range = (ranging.range + scroll * number(RANGE_STEP)).clamp(
        number(RANGE_MIN),
        number(RANGE_MAX),
    );
}

/// What to do with the cursor that marks the intent.
#[derive(Clone, Copy, Debug, PartialEq, Eq, Structural)]
pub enum ReticleStep {
    Hide,
    Keep,
    /// Show it where the intent's direction appears.
    Project,
}

/// The cursor shows only in the optic, for a controlled tank whose hull is known.
pub fn update_intent_reticle(mode: SightMode, controlled: bool, hull_known: bool) -> (r: ReticleStep)
    ensures
        r == (if mode != SightMode::Gunner || !controlled {
            ReticleStep::Hide
        } else if !hull_known {
            ReticleStep::Keep
        } else {
            ReticleStep::Project
        }),
{
    if mode != SightMode::Gunner || !controlled {
        ReticleStep::Hide
    } else if !hull_known {
        ReticleStep::Keep
    } else {
        ReticleStep::Project
    }
}

/// The dial stays between its ends.
pub proof fn law_range_stays_on_the_dial(range: Binary32, scroll: Binary32)
    requires
        !(range + scroll * number(RANGE_STEP)).is_nan(),
    ensures
        number(RANGE_MIN) <= dialed(range, scroll),
        dialed(range, scroll) <= number(RANGE_MAX),
{
}

/// A longer range asks for at least as much elevation, and never for a negative one.
pub proof fn law_elevation_grows_with_range(near: Binary32, far: Binary32)
    requires
        at_least_zero(near),
        near <= far,
        (number(GRAVITY) * far).is_finite(),
        far.is_finite(),
    ensures
        at_least_zero(elevation_for(near)),
        elevation_for(near) <= elevation_for(far),
{
    let speed = number(MUZZLE_SPEED);
    let divisor = number(TWO_BITS) * speed * speed;
    lemma_divisor();
    lemma_product_grows(number(GRAVITY), near, number(GRAVITY), far);
    lemma_quotient_grows(number(GRAVITY) * near, number(GRAVITY) * far, divisor);
}

/// Twice the square of the muzzle speed is 1195058.
proof fn lemma_divisor()
    ensures
        number(TWO_BITS) * number(MUZZLE_SPEED) * number(MUZZLE_SPEED) == number(0x4991_e190),
{
    vstd::arithmetic::power2::lemma2_to64();
    lemma_whole_number(TWO_BITS as nat, 2, 22);
    lemma_whole_number(MUZZLE_SPEED as nat, 773, 14);
    lemma_whole_number(0x44c1_4000, 1546, 13);
    lemma_whole_number(0x4991_e190, 1195058, 3);
    lemma_whole_product(number(TWO_BITS), number(MUZZLE_SPEED), 2, 773, 0x44c1_4000);
    lemma_whole_product(number(0x44c1_4000), number(MUZZLE_SPEED), 1546, 773, 0x4991_e190);
}

/// While the intent leads by no more than the margin, the mouse alone moves it.
pub proof fn law_small_leads_are_kept(intent: GunnerIntent, turret: Binary32, sight: Binary32)
    requires
        !(lead_length(lead_of(intent, turret, sight)) > number(LEAD_MARGIN)),
    ensures
        restrained(intent, turret, sight) == intent,
{
}

/// The margin only shortens a lead that is too long, and keeps its direction: yaw and pitch shrink by
/// the same share.
pub proof fn law_margin_never_lengthens_a_lead(
    intent: GunnerIntent,
    turret: Binary32,
    sight: Binary32,
)
    requires
        ({
            let lead = lead_of(intent, turret, sight);
            &&& lead.0.is_finite()
            &&& lead.1.is_finite()
            &&& lead_length(lead) > number(LEAD_MARGIN)
        }),
    ensures
        ({
            let lead = lead_of(intent, turret, sight);
            let share = number(LEAD_MARGIN) / lead_length(lead);
            let after = restrained(intent, turret, sight);
            &&& in_unit_range(share)
            &&& after.yaw == turret + lead.0 * share
            &&& after.pitch == sight + lead.1 * share
            &&& (lead.0 * share).absolute() <= lead.0.absolute()
            &&& (lead.1 * share).absolute() <= lead.1.absolute()
        }),
{
    let lead = lead_of(intent, turret, sight);
    lemma_shortened(lead.0, lead_length(lead));
    lemma_shortened(lead.1, lead_length(lead));
}

/// A part of a lead shrinks with it.
proof fn lemma_shortened(part: Binary32, length: Binary32)
    requires
        part.is_finite(),
        length > number(LEAD_MARGIN),
    ensures
        in_unit_range(number(LEAD_MARGIN) / length),
        (part * (number(LEAD_MARGIN) / length)).absolute() <= part.absolute(),
{
    lemma_share(number(LEAD_MARGIN), length);
    lemma_scaling_never_lengthens(part, number(LEAD_MARGIN) / length);
}

/// Entering the optic does not jump: with the mouse at rest the seeded intent stays where it is.
pub proof fn law_handover_does_not_jump(turret: Binary32, sight: Binary32)
    requires
        turret.is_finite(),
        sight.is_finite(),
    ensures
        ({
            let moved = pushed_intent(GunnerIntent { yaw: turret, pitch: sight }, zero(), zero());
            &&& moved.yaw.same_value(turret)
            &&& moved.pitch.same_value(sight)
            &&& restrained(moved, turret, sight) == moved
        }),
{
    let moved = pushed_intent(GunnerIntent { yaw: turret, pitch: sight }, zero(), zero());
    lemma_still_mouse(turret);
    lemma_still_mouse(sight);
    lemma_no_turn();
    lemma_no_lead();
    assert(lead_of(moved, turret, sight) == (zero(), zero()));
}

/// A mouse at rest moves nothing.
proof fn lemma_still_mouse(angle: Binary32)
    requires
        angle.is_finite(),
    ensures
        (angle - zero() * number(SENSITIVITY)).same_value(angle),
        (angle - zero() * number(SENSITIVITY)) - angle == zero(),
{
    let still = zero() * number(SENSITIVITY);
    lemma_zero_product(number(SENSITIVITY), zero());
    lemma_adding_zero(angle, still);
    lemma_difference_of_equals(angle - still, angle);
}

/// No lead has no length.
proof fn lemma_no_lead()
    ensures
        !(lead_length((zero(), zero())) > number(LEAD_MARGIN)),
{
    lemma_zero_product(zero(), zero());
    lemma_adding_zero(zero() * zero(), zero() * zero());
}

/// One view at a time, and none without its crewman: the two views never work together, and neither
/// works where its capability is gone.
pub proof fn law_a_dark_view_does_not_work(mode: SightMode, controlled: ControlledTank)
    ensures
        !(view_works(SightMode::Gunner, mode, controlled) && view_works(
            SightMode::ThirdPerson,
            mode,
            controlled,
        )),
        !(controlled.degree(view_capability(mode)) > zero()) ==> !view_works(
            mode,
            mode,
            controlled,
        ),
        controlled.single() is None ==> !view_works(mode, mode, controlled),
{
}

/// The switch key never leads into a dark view.
pub proof fn law_no_switch_into_a_dark_view(
    pressed: bool,
    mode: SightMode,
    controlled: ControlledTank,
)
    requires
        !(controlled.degree(view_capability(other_view(mode))) > zero()),
    ensures
        !switches(pressed, mode, controlled),
{
}

/// Where both views work, the switch key pressed twice leads back.
pub proof fn law_switching_twice_leads_back(mode: SightMode, controlled: ControlledTank)
    requires
        controlled.single() is Some,
        controlled.degree(Capability::GunnerSight) > zero(),
        controlled.degree(Capability::CommanderView) > zero(),
    ensures
        switches(true, mode, controlled),
        switches(true, other_view(mode), controlled),
        other_view(other_view(mode)) == mode,
{
}

/// The elevation is gravity times the range over twice the square of the muzzle speed: 9.81 times the
/// range, divided by 1195058.
pub proof fn law_elevation_is_the_flat_shot(range: Binary32)
    ensures
        elevation_for(range) == (number(0x411c_f5c3) * range) / number(0x4991_e190),
{
    lemma_divisor();
}

/// Each view has its own crewman, and the switch key goes from each to the other.
pub proof fn law_two_views()
    ensures
        view_capability(SightMode::ThirdPerson) == Capability::CommanderView,
        view_capability(SightMode::Gunner) == Capability::GunnerSight,
        other_view(SightMode::ThirdPerson) == SightMode::Gunner,
        other_view(SightMode::Gunner) == SightMode::ThirdPerson,
{
}

/// A view works exactly while the player is in it and its crewman can serve.
pub proof fn law_view_works_with_its_crewman(mode: SightMode, controlled: ControlledTank)
    ensures
        view_works(SightMode::Gunner, mode, controlled) <==> mode == SightMode::Gunner
            && controlled.degree(Capability::GunnerSight) > zero(),
        view_works(SightMode::ThirdPerson, mode, controlled) <==> mode == SightMode::ThirdPerson
            && controlled.degree(Capability::CommanderView) > zero(),
{
}

/// The switch key works exactly when it is pressed, one tank is controlled, and the crewman of the
/// view that it leads to can serve.
pub proof fn law_switch_needs_the_other_crewman(
    pressed: bool,
    mode: SightMode,
    controlled: ControlledTank,
)
    ensures
        switches(pressed, mode, controlled) ==> pressed && controlled.single() is Some,
        mode == SightMode::ThirdPerson ==> (switches(pressed, mode, controlled) <==> pressed
            && controlled.single() is Some && controlled.degree(Capability::GunnerSight) > zero()),
        mode == SightMode::Gunner ==> (switches(pressed, mode, controlled) <==> pressed
            && controlled.single() is Some && controlled.degree(Capability::CommanderView)
            > zero()),
{
}

/// Entering the optic takes up the gun's present lay: the yaw of the turret, and the pitch of the gun
/// less the elevation for the range. Without a turret or a gun the intent stays.
pub proof fn law_optic_takes_up_the_lay(
    intent: GunnerIntent,
    range: Binary32,
    rig: Rig,
    turrets: Map<u64, ServoState>,
    guns: Map<u64, ServoState>,
)
    ensures
        ({
            let seed = seeded(intent, range, rig, turrets, guns);
            let known = turrets.contains_key(rig.turret) && guns.contains_key(rig.gun);
            &&& known ==> seed.yaw == turrets[rig.turret].motion.current
            &&& known ==> seed.pitch == guns[rig.gun].motion.current - elevation_for(range)
            &&& !known ==> seed == intent
        }),
{
}

/// The mouse moves the intent: to the right it lowers the yaw, downwards it lowers the pitch, and each
/// motion moves its own angle alone.
pub proof fn law_mouse_moves_the_intent(
    intent: GunnerIntent,
    dx: Binary32,
    dy: Binary32,
    other: Binary32,
)
    requires
        intent.yaw.is_finite(),
        intent.pitch.is_finite(),
        dx.is_finite(),
        dy.is_finite(),
    ensures
        pushed_intent(intent, dx, dy).yaw == pushed_intent(intent, dx, other).yaw,
        pushed_intent(intent, dx, dy).pitch == pushed_intent(intent, other, dy).pitch,
        pushed_intent(intent, dx, dy).yaw == intent.yaw - dx * number(SENSITIVITY),
        pushed_intent(intent, dx, dy).pitch == intent.pitch - dy * number(SENSITIVITY),
        dx >= zero() ==> pushed_intent(intent, dx, dy).yaw <= intent.yaw,
        dx <= zero() ==> pushed_intent(intent, dx, dy).yaw >= intent.yaw,
        dy >= zero() ==> pushed_intent(intent, dx, dy).pitch <= intent.pitch,
        dy <= zero() ==> pushed_intent(intent, dx, dy).pitch >= intent.pitch,
{
    lemma_moved_by_the_mouse(intent.yaw, dx);
    lemma_moved_by_the_mouse(intent.pitch, dy);
}

/// An angle moved by the mouse goes against the motion.
proof fn lemma_moved_by_the_mouse(angle: Binary32, motion: Binary32)
    requires
        angle.is_finite(),
        motion.is_finite(),
    ensures
        motion >= zero() ==> angle - motion * number(SENSITIVITY) <= angle,
        motion <= zero() ==> angle - motion * number(SENSITIVITY) >= angle,
{
    let s = number(SENSITIVITY);
    let d = motion * s;
    assert(in_unit_range(s));
    lemma_scaling_never_lengthens(motion, s);
    lemma_zero_product(s, zero());
    lemma_product_commutes(s, motion);
    lemma_negation(d);
    lemma_negation(s * zero());
    lemma_adding_zero(angle, -(s * zero()));
    if motion >= zero() {
        lemma_scaling_keeps_order(s, zero(), motion);
        lemma_sum_is_monotone(angle, -d, angle, -(s * zero()));
    }
    if motion <= zero() {
        lemma_scaling_keeps_order(s, motion, zero());
        lemma_sum_is_monotone(angle, -(s * zero()), angle, -d);
    }
}

/// The lead is how far the intent is ahead of the gun: the short way round in yaw, and upwards in
/// pitch; an intent on the line of sight has none.
pub proof fn law_lead_is_intent_less_gun(intent: GunnerIntent, turret: Binary32, sight: Binary32)
    ensures
        lead_of(intent, turret, sight).0 == shortest(intent.yaw - turret),
        lead_of(intent, turret, sight).1 == intent.pitch - sight,
        intent.yaw == turret && intent.pitch == sight && turret.is_finite() && sight.is_finite()
            ==> lead_of(intent, turret, sight) == (zero(), zero()),
{
    if turret.is_finite() && sight.is_finite() {
        lemma_difference_with_itself(turret);
        lemma_difference_with_itself(sight);
        lemma_no_turn();
    }
}

/// The dial turns up with the wheel and down against it, by 50 metres per step, and stops at its ends.
pub proof fn law_dial_turns_with_the_wheel(range: Binary32, scroll: Binary32)
    requires
        number(RANGE_MIN) <= range,
        range <= number(RANGE_MAX),
        scroll.is_finite(),
        (scroll * number(RANGE_STEP)).is_finite(),
    ensures
        scroll >= zero() ==> range <= dialed(range, scroll),
        scroll <= zero() ==> dialed(range, scroll) <= range,
        ({
            let wanted = range + scroll * number(0x4248_0000);
            number(RANGE_MIN) <= wanted && wanted <= number(RANGE_MAX) ==> dialed(range, scroll)
                == wanted
        }),
        range + scroll * number(RANGE_STEP) > number(RANGE_MAX) ==> dialed(range, scroll) == number(
            RANGE_MAX,
        ),
        range + scroll * number(RANGE_STEP) < number(RANGE_MIN) ==> dialed(range, scroll) == number(
            RANGE_MIN,
        ),
{
    let s = number(RANGE_STEP);
    let d = scroll * s;
    lemma_zero_product(s, zero());
    lemma_product_commutes(s, scroll);
    lemma_adding_zero(range, s * zero());
    lemma_sum(range, d);
    if scroll >= zero() {
        lemma_scaling_keeps_order(s, zero(), scroll);
        lemma_sum_is_monotone(range, s * zero(), range, d);
    }
    if scroll <= zero() {
        lemma_scaling_keeps_order(s, scroll, zero());
        lemma_sum_is_monotone(range, d, range, s * zero());
    }
}

/// The prompt over a dark view names the other view, if that one works.
pub proof fn law_prompt_names_the_way_out(mode: SightMode)
    ensures
        prompt_for(mode, false) == "All view crew down"@,
        prompt_for(SightMode::ThirdPerson, true) == "Crewman down — [Lshift] for "@
            + "gunner optic"@,
        prompt_for(SightMode::Gunner, true) == "Crewman down — [Lshift] for "@ + "third-person"@,
{
}

/// Sines and cosines of the opposite yaw give the mirrored direction, and those of the opposite pitch
/// the direction with the opposite height.
pub proof fn law_direction_is_symmetric(
    yaw_sin: Binary32,
    yaw_cos: Binary32,
    pitch_sin: Binary32,
    pitch_cos: Binary32,
)
    requires
        yaw_sin.is_finite(),
        pitch_cos.is_finite(),
    ensures
        ({
            let d = direction_of(yaw_sin, yaw_cos, pitch_sin, pitch_cos);
            let mirrored = direction_of(-yaw_sin, yaw_cos, pitch_sin, pitch_cos);
            let lowered = direction_of(yaw_sin, yaw_cos, -pitch_sin, pitch_cos);
            &&& mirrored == vector(-d.x, d.y, d.z)
            &&& lowered == vector(d.x, -d.y, d.z)
        }),
{
    lemma_opposite_product(yaw_sin, pitch_cos);
    lemma_negation(yaw_sin);
    lemma_negation(yaw_sin * pitch_cos);
}

/// The optic works in its own view and the third-person view in its own, each only with its crewman.
pub proof fn law_views_exclude_each_other(
    mode: SightMode,
    gunner_sight: bool,
    commander_view: bool,
    optic: bool,
    outside: bool,
)
    requires
        call_ensures(in_gunner, (mode, gunner_sight), optic),
        call_ensures(in_third_person, (mode, commander_view), outside),
    ensures
        optic <==> mode == SightMode::Gunner && gunner_sight,
        outside <==> mode == SightMode::ThirdPerson && commander_view,
        !(optic && outside),
{
}

/// The cursor of the intent shows only in the optic: outside of it, or without a tank, it is hidden,
/// and it waits for the hull.
pub proof fn law_cursor_shows_in_the_optic(
    mode: SightMode,
    controlled: bool,
    hull_known: bool,
    r: ReticleStep,
)
    requires
        call_ensures(update_intent_reticle, (mode, controlled, hull_known), r),
    ensures
        r == ReticleStep::Project <==> mode == SightMode::Gunner && controlled && hull_known,
        r == ReticleStep::Keep <==> mode == SightMode::Gunner && controlled && !hull_known,
        r == ReticleStep::Hide <==> mode != SightMode::Gunner || !controlled,
{
}

/// The turret is told the yaw of the intent, and the gun its pitch raised by the elevation: a longer
/// range never lowers the gun.
pub proof fn law_gun_rides_above_the_line_of_sight(
    intent: GunnerIntent,
    low: Binary32,
    high: Binary32,
)
    requires
        intent.pitch.is_finite(),
        low.is_finite(),
        high.is_finite(),
        low <= high,
    ensures
        commands_for(intent, low).turret == intent.yaw,
        commands_for(intent, low).gun == intent.pitch + low,
        commands_for(intent, low).gun <= commands_for(intent, high).gun,
        commands_for(intent, zero()).gun.same_value(intent.pitch),
{
    lemma_sum_is_monotone(intent.pitch, low, intent.pitch, high);
    lemma_adding_zero(intent.pitch, zero());
}

/// The overlay covers a view exactly while its crewman is down, and leaves everything as it is without
/// a controlled tank.
pub proof fn law_overlay_covers_a_dark_view(
    mode: SightMode,
    controlled: ControlledTank,
    r: OverlayChange,
)
    requires
        call_ensures(update_view_death_overlay, (mode, &controlled), r),
    ensures
        r is Keep <==> controlled.single() is None,
        controlled.single() is Some && mode == SightMode::Gunner ==> (r is Hide
            <==> controlled.degree(Capability::GunnerSight) > zero()),
        controlled.single() is Some && mode == SightMode::ThirdPerson ==> (r is Hide
            <==> controlled.degree(Capability::CommanderView) > zero()),
{
}

/// The length of a lead is the root of the sum of the squares of its two parts, in either order and
/// whichever their signs.
pub proof fn law_lead_has_a_length(yaw: Binary32, pitch: Binary32)
    requires
        yaw.is_finite(),
        pitch.is_finite(),
        (yaw * yaw).is_finite(),
        (pitch * pitch).is_finite(),
    ensures
        lead_length((yaw, pitch)) == (yaw * yaw + pitch * pitch).root(),
        lead_length((yaw, pitch)) == lead_length((pitch, yaw)),
        lead_length((-yaw, pitch)) == lead_length((yaw, pitch)),
{
    lemma_sum_commutes(yaw * yaw, pitch * pitch);
    lemma_negation(yaw);
    lemma_opposite_product(yaw, -yaw);
    lemma_opposite_product(yaw, yaw);
    lemma_product_commutes(yaw, -yaw);
    lemma_negation(yaw * yaw);
}

} // verus!
