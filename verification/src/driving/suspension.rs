//! The suspension: each grounded wheel pushes the hull up with a damped spring.

use crate::binary32::encoding::Binary32;
use crate::binary32::functions::zero;
use crate::binary32::laws::{
    at_least_zero, lemma_adding_zero, lemma_negation, lemma_product_grows,
    lemma_scaling_keeps_order, lemma_sum_is_monotone, lemma_zero_product,
};
use crate::driving::parameters::SuspensionParams;
use crate::vector::{origin, vector, Vector3};
use vstd::prelude::*;

verus! {

/// What a roadwheel carries over from one tick to the next.
#[derive(Clone, Copy, Debug, PartialEq)]
pub struct Suspension {
    /// The ground contact of this tick in the world; none while airborne.
    pub contact: Option<Vector3>,
    /// The spring force of this tick in newtons: the wheel's normal load.
    pub load: Binary32,
    /// The ground force of this tick.
    pub drive_force: Vector3,
    /// The point that the contact gripped while near rest; none while slipping or airborne.
    pub anchor: Option<Vector3>,
}

/// A wheel off the ground.
pub open spec fn airborne() -> Suspension {
    Suspension { contact: None, load: zero(), drive_force: origin(), anchor: None }
}

impl Default for Suspension {
    fn default() -> (r: Suspension)
        ensures
            r == airborne(),
    {
        Suspension { contact: None, load: zero(), drive_force: origin(), anchor: None }
    }
}

/// A suspension ray that found the ground within the spring's length.
#[derive(Clone, Copy, Debug, PartialEq)]
pub struct GroundProbe {
    pub contact: Vector3,
    /// The way that the spring pushes.
    pub up: Vector3,
    pub compression: Binary32,
}

pub open spec fn probed(
    params: SuspensionParams,
    ray_origin: Vector3,
    ray_direction: Vector3,
    hit_distance: Option<Binary32>,
) -> Option<GroundProbe> {
    match hit_distance {
        Some(distance) => {
            let compression = params.rest_length - distance;
            if compression <= zero() {
                None
            } else {
                Some(
                    GroundProbe {
                        contact: ray_origin.plus(ray_direction.scaled(distance)),
                        up: ray_direction.reverse(),
                        compression,
                    },
                )
            }
        },
        None => None,
    }
}

/// Where a wheel touches the ground, from the nearest hit of its ray: none without a hit, and none
/// where the spring is not compressed.
pub fn probe_ground(
    params: &SuspensionParams,
    ray_origin: Vector3,
    ray_direction: Vector3,
    hit_distance: Option<Binary32>,
) -> (r: Option<GroundProbe>)
    ensures
        r == probed(*params, ray_origin, ray_direction, hit_distance),
        r matches Some(probe) ==> {
            &&& hit_distance matches Some(distance) && probe.compression == params.rest_length
                - distance
            &&& probe.up == vector(-ray_direction.x, -ray_direction.y, -ray_direction.z)
        },
{
    match hit_distance {
        Some(distance) => {
            let compression = params.rest_length - distance;
            if compression <= zero() {
                return None;
            }
            Some(
                GroundProbe {
                    contact: ray_origin.plus(ray_direction.scaled(distance)),
                    up: ray_direction.reversed(),
                    compression,
                },
            )
        },
        None => None,
    }
}

/// The force of the damped spring; it never pulls. `velocity` is the hull's at the contact.
pub open spec fn spring_load(
    params: SuspensionParams,
    probe: GroundProbe,
    velocity: Vector3,
) -> Binary32 {
    (params.stiffness * probe.compression - params.damping * velocity.dot(probe.up)).larger(zero())
}

/// Settle a wheel for this tick. The result is the force on the hull at the contact; there is none
/// for a wheel off the ground, and `velocity` does not matter then.
pub fn apply_suspension(
    params: &SuspensionParams,
    probe: Option<GroundProbe>,
    velocity: Vector3,
    suspension: &mut Suspension,
) -> (force: Option<Vector3>)
    ensures
        probe matches Some(probe) ==> {
            let axial = velocity.x * probe.up.x + velocity.y * probe.up.y + velocity.z * probe.up.z;
            final(suspension).load == (params.stiffness * probe.compression - params.damping
                * axial).larger(zero())
        },
        probe matches Some(probe) ==> {
            let load = final(suspension).load;
            force == Some(vector(probe.up.x * load, probe.up.y * load, probe.up.z * load))
        },
        match probe {
            Some(probe) => {
                let load = spring_load(*params, probe, velocity);
                &&& *final(suspension) == (Suspension {
                    contact: Some(probe.contact),
                    load,
                    ..*old(suspension)
                })
                &&& force == Some(probe.up.scaled(load))
            },
            None => *final(suspension) == airborne() && force is None,
        },
{
    match probe {
        Some(probe) => {
            let spring_speed = velocity.dot(probe.up);
            let load = (params.stiffness * probe.compression - params.damping * spring_speed).max(
                zero(),
            );
            suspension.contact = Some(probe.contact);
            suspension.load = load;
            Some(probe.up.scaled(load))
        },
        None => {
            *suspension = Suspension::default();
            None
        },
    }
}

/// The spring only pushes: no wheel pulls the hull down.
pub proof fn law_spring_never_pulls(
    params: SuspensionParams,
    probe: GroundProbe,
    velocity: Vector3,
)
    ensures
        at_least_zero(spring_load(params, probe, velocity)),
{
}

/// A wheel touches the ground only where the spring is compressed.
pub proof fn law_contact_needs_compression(
    params: SuspensionParams,
    ray_origin: Vector3,
    ray_direction: Vector3,
    distance: Binary32,
)
    requires
        !(params.rest_length - distance).is_nan(),
    ensures
        probed(params, ray_origin, ray_direction, Some(distance)) is Some <==> params.rest_length
            - distance > zero(),
{
}

/// The part of a velocity along an axis, component by component.
pub open spec fn along_axis(velocity: Vector3, axis: Vector3) -> Binary32 {
    velocity.x * axis.x + velocity.y * axis.y + velocity.z * axis.z
}

/// The damping acts along the suspension axis alone: whichever way the spring points, a velocity at a
/// right angle to it leaves the load of the spring at rest.
pub proof fn law_sideways_motion_is_not_damped(
    params: SuspensionParams,
    probe: GroundProbe,
    velocity: Vector3,
)
    requires
        along_axis(velocity, probe.up).is_zero(),
        params.damping.is_finite(),
        (params.stiffness * probe.compression).is_finite(),
    ensures
        spring_load(params, probe, velocity).same_value(
            (params.stiffness * probe.compression).larger(zero()),
        ),
{
    let axial = along_axis(velocity, probe.up);
    lemma_zero_product(params.damping, axial);
    lemma_adding_zero(params.stiffness * probe.compression, params.damping * axial);
}

/// The load depends on the velocity only through its part along the suspension axis.
pub proof fn law_load_sees_only_axial_velocity(
    params: SuspensionParams,
    probe: GroundProbe,
    first: Vector3,
    second: Vector3,
)
    requires
        along_axis(first, probe.up) == along_axis(second, probe.up),
    ensures
        spring_load(params, probe, first) == spring_load(params, probe, second),
{
}

/// The damper works against the motion along the axis: a hull that moves faster along the way that
/// the spring pushes is pushed less, and one that sinks is held up more.
pub proof fn law_damper_opposes_axial_motion(
    params: SuspensionParams,
    probe: GroundProbe,
    slower: Vector3,
    faster: Vector3,
)
    requires
        at_least_zero(params.damping),
        (params.stiffness * probe.compression).is_finite(),
        params.damping.is_finite(),
        along_axis(slower, probe.up).is_finite(),
        along_axis(faster, probe.up).is_finite(),
        (params.damping * along_axis(slower, probe.up)).is_finite(),
        (params.damping * along_axis(faster, probe.up)).is_finite(),
        along_axis(slower, probe.up) <= along_axis(faster, probe.up),
    ensures
        spring_load(params, probe, faster) <= spring_load(params, probe, slower),
{
    let push = params.stiffness * probe.compression;
    let slow = params.damping * along_axis(slower, probe.up);
    let fast = params.damping * along_axis(faster, probe.up);
    lemma_scaling_keeps_order(
        params.damping,
        along_axis(slower, probe.up),
        along_axis(faster, probe.up),
    );
    lemma_negation(slow);
    lemma_negation(fast);
    lemma_sum_is_monotone(push, -fast, push, -slow);
}

/// A spring that is pressed further pushes at least as hard.
pub proof fn law_load_grows_with_compression(
    params: SuspensionParams,
    shallow: GroundProbe,
    deep: GroundProbe,
    velocity: Vector3,
)
    requires
        shallow.up == deep.up,
        at_least_zero(params.stiffness),
        at_least_zero(shallow.compression),
        shallow.compression <= deep.compression,
        params.stiffness.is_finite(),
        deep.compression.is_finite(),
        (params.stiffness * shallow.compression).is_finite(),
        (params.stiffness * deep.compression).is_finite(),
        (params.damping * along_axis(velocity, deep.up)).is_finite(),
    ensures
        spring_load(params, shallow, velocity) <= spring_load(params, deep, velocity),
{
    let damped = params.damping * along_axis(velocity, deep.up);
    lemma_product_grows(params.stiffness, shallow.compression, params.stiffness, deep.compression);
    lemma_negation(damped);
    lemma_sum_is_monotone(
        params.stiffness * shallow.compression,
        -damped,
        params.stiffness * deep.compression,
        -damped,
    );
}

/// The contact is the hit of the ray, the spring pushes against the ray, and what the hit leaves of
/// the free length is the compression.
pub proof fn law_probe_reads_the_hit(
    params: SuspensionParams,
    ray_origin: Vector3,
    ray_direction: Vector3,
    distance: Binary32,
    probe: GroundProbe,
)
    requires
        probed(params, ray_origin, ray_direction, Some(distance)) == Some(probe),
    ensures
        probe.contact.x == ray_origin.x + ray_direction.x * distance,
        probe.contact.y == ray_origin.y + ray_direction.y * distance,
        probe.contact.z == ray_origin.z + ray_direction.z * distance,
        probe.up.x == -ray_direction.x,
        probe.up.y == -ray_direction.y,
        probe.up.z == -ray_direction.z,
        probe.compression == params.rest_length - distance,
{
}

/// Turning the ray round turns the way that the spring pushes round.
pub proof fn law_reversed_ray_pushes_the_other_way(
    params: SuspensionParams,
    ray_origin: Vector3,
    ray_direction: Vector3,
    distance: Binary32,
)
    requires
        params.rest_length - distance > zero(),
    ensures
        probed(params, ray_origin, ray_direction.reverse(), Some(distance)) matches Some(probe)
            && probe.up == ray_direction,
{
    lemma_negation(ray_direction.x);
    lemma_negation(ray_direction.y);
    lemma_negation(ray_direction.z);
}

/// Nothing holds a wheel up whose ray finds no ground.
pub proof fn law_no_hit_no_contact(
    params: SuspensionParams,
    ray_origin: Vector3,
    ray_direction: Vector3,
)
    ensures
        probed(params, ray_origin, ray_direction, None) is None,
        airborne().contact is None,
        airborne().anchor is None,
        airborne().load == zero(),
        airborne().drive_force == vector(zero(), zero(), zero()),
{
}

} // verus!
