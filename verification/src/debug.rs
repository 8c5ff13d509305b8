//! Helpers for looking at the physics: switches, the translucent tank, and the force arrows.

use crate::binary32::encoding::Binary32;
use crate::binary32::functions::{number, one, zero};
use crate::driving::suspension::Suspension;
use crate::vector::{origin, vector, Vector3};
use vstd::prelude::*;

verus! {

/// How opaque the tank is while it is translucent: 0.2.
pub const XRAY_ALPHA: u32 = 0x3e4c_cccd;

/// Metres of arrow per newton: 1 over 20000.
pub const FORCE_VIZ_SCALE: u32 = 0x3851_b717;

/// Flip a switch when its key is pressed.
pub fn flip(pressed: bool, on: bool) -> (r: bool)
    ensures
        r == (on != pressed),
{
    if pressed {
        !on
    } else {
        on
    }
}

/// How the tank's materials are drawn.
#[derive(Clone, Copy, Debug, PartialEq)]
pub struct TankOpacity {
    pub alpha: Binary32,
    /// Blended with what lies behind.
    pub blended: bool,
}

/// The look of the tank with the x-ray switch on or off.
pub fn xray_opacity(on: bool) -> (r: TankOpacity)
    ensures
        r == (if on {
            TankOpacity { alpha: number(XRAY_ALPHA), blended: true }
        } else {
            TankOpacity { alpha: one(), blended: false }
        }),
{
    if on {
        TankOpacity { alpha: number(XRAY_ALPHA), blended: true }
    } else {
        TankOpacity { alpha: one(), blended: false }
    }
}

/// What is drawn at a grounded wheel: the contact, and the tips of the arrows from it.
#[derive(Clone, Copy, Debug, PartialEq)]
pub struct WheelArrows {
    pub contact: Vector3,
    pub load_tip: Option<Vector3>,
    pub drive_tip: Option<Vector3>,
}

/// The arrows of a wheel: its load along the hull's up, and its drive force. A wheel off the ground
/// has none, and neither is drawn where there is no force.
pub fn wheel_arrows(up: Vector3, suspension: &Suspension) -> (r: Option<WheelArrows>)
    ensures
        match suspension.contact {
            None => r is None,
            Some(contact) => r == Some(
                WheelArrows {
                    contact,
                    load_tip: if suspension.load > zero() {
                        Some(contact.plus(up.scaled(suspension.load * number(FORCE_VIZ_SCALE))))
                    } else {
                        None
                    },
                    drive_tip: if suspension.drive_force.same_value(origin()) {
                        None
                    } else {
                        Some(contact.plus(suspension.drive_force.scaled(number(FORCE_VIZ_SCALE))))
                    },
                },
            ),
        },
{
    match suspension.contact {
        None => None,
        Some(contact) => {
            let load_tip: Option<Vector3> = if suspension.load > zero() {
                Some(contact.plus(up.scaled(suspension.load * number(FORCE_VIZ_SCALE))))
            } else {
                None
            };
            let drive_tip: Option<Vector3> = if suspension.drive_force.same(origin()) {
                None
            } else {
                Some(contact.plus(suspension.drive_force.scaled(number(FORCE_VIZ_SCALE))))
            };
            Some(WheelArrows { contact, load_tip, drive_tip })
        },
    }
}

/// A switch flips with its key and stays without it.
pub proof fn law_switch_flips_with_its_key(on: bool, flipped: bool, kept: bool)
    requires
        call_ensures(flip, (true, on), flipped),
        call_ensures(flip, (false, on), kept),
    ensures
        flipped == !on,
        kept == on,
{
}

/// Seen through, the tank is blended at a fifth; else it is opaque.
pub proof fn law_xray_shows_the_inside(through: TankOpacity, solid: TankOpacity)
    requires
        call_ensures(xray_opacity, (true,), through),
        call_ensures(xray_opacity, (false,), solid),
    ensures
        through.blended && through.alpha == number(XRAY_ALPHA),
        !solid.blended && solid.alpha == one(),
        through.alpha < solid.alpha,
{
}

/// The arrows of a grounded wheel start at its contact: the load points along the hull's up, the drive
/// force along itself, both at the same scale. A wheel off the ground has none.
pub proof fn law_arrows_start_at_the_contact(
    up: Vector3,
    suspension: Suspension,
    r: Option<WheelArrows>,
)
    requires
        call_ensures(wheel_arrows, (up, &suspension), r),
    ensures
        r is Some <==> suspension.contact is Some,
        r matches Some(arrows) ==> {
            let c = arrows.contact;
            let s = number(FORCE_VIZ_SCALE);
            let f = suspension.drive_force;
            &&& suspension.contact == Some(c)
            &&& arrows.load_tip is Some <==> suspension.load > zero()
            &&& arrows.load_tip matches Some(tip) ==> tip == vector(
                c.x + up.x * (suspension.load * s),
                c.y + up.y * (suspension.load * s),
                c.z + up.z * (suspension.load * s),
            )
            &&& arrows.drive_tip matches Some(tip) ==> tip == vector(
                c.x + f.x * s,
                c.y + f.y * s,
                c.z + f.z * s,
            )
            &&& arrows.drive_tip is None <==> f.x.is_zero() && f.y.is_zero() && f.z.is_zero()
        },
{
}

} // verus!
