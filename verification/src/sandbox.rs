//! The armour sandbox: a flying camera that is the gun, layers to look through, and control of time.

use crate::binary32::encoding::Binary32;
use crate::binary32::functions::{number, one, zero};
use crate::binary32::laws::{
    lemma_adding_zero, lemma_difference_with_itself, lemma_negation, lemma_one_is_neutral,
    lemma_root_of_one, lemma_sum_commutes, lemma_zero_product,
};
use crate::camera::{turn, turned, PITCH_LIMIT};
use crate::damage::capability::ComponentHealth;
use crate::driving::thrust::{law_heading_follows_the_hull, law_level_heading_is_kept};
use crate::driving::traction::ground_basis;
use crate::hierarchy::{is_under_any, under_any};
use crate::hud::is_damaged;
use crate::shooting::{shell, shell_from, FireShell, MuzzlePose};
use crate::tank::spawn::SpecLoad;
use crate::text::{decimal, decimal_text};
use crate::vector::{axis_y, origin, vector, Vector3};
use std::collections::{HashMap, HashSet};
use vstd::prelude::*;

verus! {

/// How the hull is shown.
#[derive(Clone, Copy, Debug, PartialEq, Eq, Structural)]
pub enum MeshState {
    Solid,
    Xray,
    Hidden,
}

impl Default for MeshState {
    fn default() -> (r: MeshState)
        ensures
            r == MeshState::Solid,
    {
        MeshState::Solid
    }
}

impl MeshState {
    pub open spec fn successor(self) -> MeshState {
        match self {
            MeshState::Solid => MeshState::Xray,
            MeshState::Xray => MeshState::Hidden,
            MeshState::Hidden => MeshState::Solid,
        }
    }

    pub fn next(self) -> (r: MeshState)
        ensures
            r == self.successor(),
    {
        match self {
            MeshState::Solid => MeshState::Xray,
            MeshState::Xray => MeshState::Hidden,
            MeshState::Hidden => MeshState::Solid,
        }
    }

    pub open spec fn title(self) -> Seq<char> {
        match self {
            MeshState::Solid => "solid"@,
            MeshState::Xray => "xray"@,
            MeshState::Hidden => "hidden"@,
        }
    }

    pub fn label(self) -> (r: &'static str)
        ensures
            r@ == self.title(),
    {
        match self {
            MeshState::Solid => "solid",
            MeshState::Xray => "xray",
            MeshState::Hidden => "hidden",
        }
    }
}

/// How a layer of volumes is shown.
#[derive(Clone, Copy, Debug, PartialEq, Eq, Structural)]
pub enum VolumeState {
    Hidden,
    OnTop,
    Solid,
    Xray,
}

impl Default for VolumeState {
    fn default() -> (r: VolumeState)
        ensures
            r == VolumeState::Hidden,
    {
        VolumeState::Hidden
    }
}

impl VolumeState {
    pub open spec fn successor(self) -> VolumeState {
        match self {
            VolumeState::Hidden => VolumeState::OnTop,
            VolumeState::OnTop => VolumeState::Solid,
            VolumeState::Solid => VolumeState::Xray,
            VolumeState::Xray => VolumeState::Hidden,
        }
    }

    pub fn next(self) -> (r: VolumeState)
        ensures
            r == self.successor(),
    {
        match self {
            VolumeState::Hidden => VolumeState::OnTop,
            VolumeState::OnTop => VolumeState::Solid,
            VolumeState::Solid => VolumeState::Xray,
            VolumeState::Xray => VolumeState::Hidden,
        }
    }

    pub open spec fn title(self) -> Seq<char> {
        match self {
            VolumeState::Hidden => "off"@,
            VolumeState::OnTop => "on top"@,
            VolumeState::Solid => "solid"@,
            VolumeState::Xray => "xray"@,
        }
    }

    pub fn label(self) -> (r: &'static str)
        ensures
            r@ == self.title(),
    {
        match self {
            VolumeState::Hidden => "off",
            VolumeState::OnTop => "on top",
            VolumeState::Solid => "solid",
            VolumeState::Xray => "xray",
        }
    }
}

/// How each layer of the target is shown.
#[derive(Clone, Copy, Debug, PartialEq, Eq, Structural)]
pub struct LayerView {
    pub mesh: MeshState,
    pub armor: VolumeState,
    pub components: VolumeState,
}

impl Default for LayerView {
    fn default() -> (r: LayerView)
        ensures
            r == (LayerView {
                mesh: MeshState::Solid,
                armor: VolumeState::Hidden,
                components: VolumeState::Hidden,
            }),
    {
        LayerView {
            mesh: MeshState::Solid,
            armor: VolumeState::Hidden,
            components: VolumeState::Hidden,
        }
    }
}

/// The layer keys that were just pressed.
#[derive(Clone, Copy, Debug, PartialEq, Eq, Structural)]
pub struct LayerKeys {
    pub mesh: bool,
    pub armor: bool,
    pub components: bool,
}

/// The view after the layer keys: each pressed one moves its layer on.
pub open spec fn stepped_view(view: LayerView, keys: LayerKeys) -> LayerView {
    LayerView {
        mesh: if keys.mesh {
            view.mesh.successor()
        } else {
            view.mesh
        },
        armor: if keys.armor {
            view.armor.successor()
        } else {
            view.armor
        },
        components: if keys.components {
            view.components.successor()
        } else {
            view.components
        },
    }
}

/// Handle the layer keys.
pub fn toggle_layers(keys: LayerKeys, view: &mut LayerView)
    ensures
        *final(view) == stepped_view(*old(view), keys),
{
    if keys.mesh {
        view.mesh = view.mesh.next();
    }
    if keys.armor {
        view.armor = view.armor.next();
    }
    if keys.components {
        view.components = view.components.next();
    }
}

/// The readout of the layers.
pub fn layer_status(view: &LayerView) -> (r: String)
    ensures
        r@ == "1 mesh: "@ + view.mesh.title() + "\n2 armor: "@ + view.armor.title()
            + "\n3 components: "@ + view.components.title(),
{
    "1 mesh: ".to_owned().concat(view.mesh.label()).concat("\n2 armor: ").concat(
        view.armor.label(),
    ).concat("\n3 components: ").concat(view.components.label())
}

/// How a hull mesh is drawn.
#[derive(Clone, Copy, Debug, PartialEq, Eq, Structural)]
pub struct HullLook {
    pub hidden: bool,
    /// In the translucent material; else in its own.
    pub translucent: bool,
}

/// The look of the hull's meshes.
pub fn hull_look(view: &LayerView) -> (r: HullLook)
    ensures
        r.hidden == (view.mesh == MeshState::Hidden),
        r.translucent == (view.mesh == MeshState::Xray),
{
    match view.mesh {
        MeshState::Solid => HullLook { hidden: false, translucent: false },
        MeshState::Xray => HullLook { hidden: false, translucent: true },
        MeshState::Hidden => HullLook { hidden: true, translucent: false },
    }
}

/// How the mesh of a volume is drawn.
#[derive(Clone, Copy, Debug, PartialEq, Eq, Structural)]
pub struct VolumeLook {
    pub hidden: bool,
    /// On the layer that is drawn over everything else.
    pub overlay: bool,
    /// In the translucent material of its layer; else in the opaque one.
    pub translucent: bool,
}

/// The state of the layer that a volume belongs to.
pub open spec fn layer_of(view: LayerView, armor: bool) -> VolumeState {
    if armor {
        view.armor
    } else {
        view.components
    }
}

/// The look of the meshes of armour or of components.
pub fn volume_look(view: &LayerView, armor: bool) -> (r: VolumeLook)
    ensures
        r.hidden == (layer_of(*view, armor) == VolumeState::Hidden),
        r.overlay == (layer_of(*view, armor) == VolumeState::OnTop),
        r.translucent == (layer_of(*view, armor) == VolumeState::Xray),
{
    let state = if armor {
        view.armor
    } else {
        view.components
    };
    match state {
        VolumeState::Hidden => VolumeLook { hidden: true, overlay: false, translucent: false },
        VolumeState::OnTop => VolumeLook { hidden: false, overlay: true, translucent: false },
        VolumeState::Solid => VolumeLook { hidden: false, overlay: false, translucent: false },
        VolumeState::Xray => VolumeLook { hidden: false, overlay: false, translucent: true },
    }
}

/// Whether a mesh belongs to the visible hull: neither it nor anything above it is a volume or a
/// collider.
pub fn is_hull_mesh(
    mesh: u64,
    volumes_and_colliders: &HashSet<u64>,
    parents: &HashMap<u64, u64>,
) -> (r: bool)
    ensures
        r == !under_any(mesh, volumes_and_colliders@, parents@),
{
    !is_under_any(mesh, volumes_and_colliders, parents)
}

/// Radians of look per count of the mouse: 0.003.
pub const FLY_SENSITIVITY: u32 = 0x3b44_9ba6;

/// Flying speed in metres per second: 12.
pub const FLY_SPEED: u32 = 0x4140_0000;

/// The flying keys that are held down.
#[derive(Clone, Copy, Debug, PartialEq, Eq, Structural)]
pub struct FlyKeys {
    pub forward: bool,
    pub backward: bool,
    pub right: bool,
    pub left: bool,
    pub up: bool,
    pub down: bool,
}

/// Turn the flying camera's look.
pub fn fly_look(yaw: Binary32, pitch: Binary32, dx: Binary32, dy: Binary32) -> (r: (
    Binary32,
    Binary32,
))
    ensures
        r == turned(yaw, pitch, dx, dy, number(FLY_SENSITIVITY), number(FLY_SENSITIVITY)),
{
    turn(yaw, pitch, dx, dy, number(FLY_SENSITIVITY), number(FLY_SENSITIVITY))
}

/// A direction laid flat, or zero where it points straight up or down.
pub open spec fn heading(direction: Vector3) -> Vector3 {
    vector(direction.x, zero(), direction.z).unit_or_zero()
}

/// A direction with a step added or taken away for a key.
pub open spec fn pushed(dir: Vector3, positive: bool, negative: bool, step: Vector3) -> Vector3 {
    let raised = if positive {
        dir.plus(step)
    } else {
        dir
    };
    if negative {
        raised.minus(step)
    } else {
        raised
    }
}

/// The way that the keys ask for: over the ground in the camera's heading, and up or down.
pub open spec fn fly_direction(keys: FlyKeys, forward: Vector3, right: Vector3) -> Vector3 {
    let along = pushed(origin(), keys.forward, keys.backward, heading(forward));
    let across = pushed(along, keys.right, keys.left, heading(right));
    pushed(across, keys.up, keys.down, axis_y())
}

fn push(dir: Vector3, positive: bool, negative: bool, step: Vector3) -> (r: Vector3)
    ensures
        r == pushed(dir, positive, negative, step),
{
    let mut moved = dir;
    if positive {
        moved = moved.plus(step);
    }
    if negative {
        moved = moved.minus(step);
    }
    moved
}

/// How far the camera flies in `dt` seconds.
pub fn fly_step(keys: FlyKeys, forward: Vector3, right: Vector3, dt: Binary32) -> (r: Option<Vector3>)
    ensures
        ({
            let dir = fly_direction(keys, forward, right);
            r == (if dir.same_value(origin()) {
                None
            } else {
                Some(dir.unit().scaled(number(FLY_SPEED)).scaled(dt))
            })
        }),
{
    let ahead = vector(forward.x, zero(), forward.z).normalize_or_zero();
    let aside = vector(right.x, zero(), right.z).normalize_or_zero();
    let along = push(origin(), keys.forward, keys.backward, ahead);
    let across = push(along, keys.right, keys.left, aside);
    let dir = push(across, keys.up, keys.down, axis_y());
    if dir.same(origin()) {
        None
    } else {
        Some(dir.normalize().scaled(number(FLY_SPEED)).scaled(dt))
    }
}

/// The shell that the trigger fires down the view axis.
pub fn fire(trigger: bool, pose: MuzzlePose) -> (r: Option<FireShell>)
    ensures
        r == (if trigger {
            Some(shell_from(pose))
        } else {
            None
        }),
        r is Some == trigger,
        r matches Some(fired) ==> fired.origin == pose.origin && fired.direction == pose.direction,
{
    if trigger {
        Some(shell(pose))
    } else {
        None
    }
}

/// Whether the mouse steers: the one cursor is captured.
pub fn cursor_locked(cursor: Option<bool>) -> (r: bool)
    ensures
        r == (cursor == Some(true)),
{
    match cursor {
        Some(locked) => locked,
        None => false,
    }
}

/// What the full pause does.
#[derive(Clone, Copy, Debug, PartialEq, Eq, Structural)]
pub enum PauseChange {
    Nothing,
    /// Let the cursor go and stop the clock.
    Release,
    /// Capture the cursor and let the clock run.
    Capture,
}

/// Handle the pause key, for a window whose cursor is captured or not.
pub fn toggle_full_pause(pressed: bool, cursor: Option<bool>) -> (r: PauseChange)
    ensures
        r == (match cursor {
            Some(locked) if pressed => if locked {
                PauseChange::Release
            } else {
                PauseChange::Capture
            },
            _ => PauseChange::Nothing,
        }),
{
    if !pressed {
        return PauseChange::Nothing;
    }
    match cursor {
        Some(locked) => if locked {
            PauseChange::Release
        } else {
            PauseChange::Capture
        },
        None => PauseChange::Nothing,
    }
}

/// The speeds of the clock: 1, 0.25, 0.06, 0.015, 0.004 and 0.001.
pub const SPEED_COUNT: usize = 6;

pub open spec fn ladder(index: usize) -> Binary32 {
    if index == 0 {
        one()
    } else if index == 1 {
        number(0x3e80_0000)
    } else if index == 2 {
        number(0x3d75_c28f)
    } else if index == 3 {
        number(0x3c75_c28f)
    } else if index == 4 {
        number(0x3b83_126f)
    } else {
        number(0x3a83_126f)
    }
}

/// A speed of the clock.
pub fn speed_at(index: usize) -> (r: Binary32)
    requires
        index < SPEED_COUNT,
    ensures
        r == ladder(index),
{
    if index == 0 {
        one()
    } else if index == 1 {
        number(0x3e80_0000)
    } else if index == 2 {
        number(0x3d75_c28f)
    } else if index == 3 {
        number(0x3c75_c28f)
    } else if index == 4 {
        number(0x3b83_126f)
    } else {
        number(0x3a83_126f)
    }
}

/// The clock of the simulation: paused or not, and the rung of its speed.
#[derive(Clone, Copy, Debug, PartialEq, Eq, Structural)]
pub struct SandboxClock {
    pub paused: bool,
    pub index: usize,
}

impl SandboxClock {
    /// The rung is on the ladder.
    pub open spec fn wf(self) -> bool {
        self.index < SPEED_COUNT
    }
}

/// The time keys that were just pressed.
#[derive(Clone, Copy, Debug, PartialEq, Eq, Structural)]
pub struct TimeKeys {
    pub freeze: bool,
    pub faster: bool,
    pub slower: bool,
}

/// The rung after the faster and slower keys.
pub open spec fn rung_after(index: usize, keys: TimeKeys) -> usize {
    let up = if keys.faster && index > 0 {
        (index - 1) as usize
    } else {
        index
    };
    if keys.slower && up + 1 < SPEED_COUNT {
        (up + 1) as usize
    } else {
        up
    }
}

/// One of the keys moves the rung, if only there and back.
pub open spec fn rung_moves(index: usize, keys: TimeKeys) -> bool {
    let up = keys.faster && index > 0;
    let from = if up {
        index - 1
    } else {
        index as int
    };
    up || (keys.slower && from + 1 < SPEED_COUNT)
}

/// Whether the clock stands after the time keys.
pub open spec fn paused_after(clock: SandboxClock, keys: TimeKeys) -> bool {
    if rung_moves(clock.index, keys) {
        false
    } else {
        clock.paused != keys.freeze
    }
}

/// Handle the time keys. The freeze key stops the clock and starts it; a change of speed starts it.
/// The result is the new speed, if it is to be set.
pub fn time_controls(keys: TimeKeys, clock: &mut SandboxClock) -> (speed: Option<Binary32>)
    requires
        old(clock).wf(),
    ensures
        final(clock).wf(),
        final(clock).index == rung_after(old(clock).index, keys),
        final(clock).paused == paused_after(*old(clock), keys),
        final(clock).paused == (if rung_moves(old(clock).index, keys) {
            false
        } else {
            old(clock).paused != keys.freeze
        }),
        speed == (if rung_moves(old(clock).index, keys) {
            Some(ladder(final(clock).index))
        } else {
            None
        }),
{
    if keys.freeze {
        clock.paused = !clock.paused;
    }
    let mut changed: bool = false;
    if keys.faster && clock.index > 0 {
        clock.index = clock.index - 1;
        changed = true;
    }
    if keys.slower && clock.index + 1 < SPEED_COUNT {
        clock.index = clock.index + 1;
        changed = true;
    }
    if changed {
        clock.paused = false;
        Some(speed_at(clock.index))
    } else {
        None
    }
}

/// How shells advance.
#[derive(Clone, Copy, Debug, PartialEq, Eq, Structural)]
pub enum MarchMode {
    /// At the fixed rate of a server.
    Real,
    /// Smoothly, every frame.
    Demo,
}

impl MarchMode {
    pub open spec fn title(self) -> Seq<char> {
        match self {
            MarchMode::Real => "real"@,
            MarchMode::Demo => "demo"@,
        }
    }

    pub fn label(self) -> (r: &'static str)
        ensures
            r@ == self.title(),
    {
        match self {
            MarchMode::Real => "real",
            MarchMode::Demo => "demo",
        }
    }
}

/// The other mode, where the key is pressed.
pub open spec fn march_after(pressed: bool, mode: MarchMode) -> MarchMode {
    match mode {
        MarchMode::Real if pressed => MarchMode::Demo,
        MarchMode::Demo if pressed => MarchMode::Real,
        same => same,
    }
}

pub fn toggle_march_mode(pressed: bool, mode: MarchMode) -> (r: MarchMode)
    ensures
        r == march_after(pressed, mode),
{
    if !pressed {
        return mode;
    }
    match mode {
        MarchMode::Real => MarchMode::Demo,
        MarchMode::Demo => MarchMode::Real,
    }
}

pub open spec fn healed(health: ComponentHealth) -> ComponentHealth {
    ComponentHealth { current: health.max, ..health }
}

/// Undo all damage to the components.
pub fn clear_damage(components: &mut Vec<ComponentHealth>)
    ensures
        final(components)@ == old(components)@.map_values(|h: ComponentHealth| healed(h)),
        final(components)@.len() == old(components)@.len(),
        forall|k: int|
            0 <= k < old(components)@.len() ==> {
                &&& (#[trigger] final(components)@[k]).current == old(components)@[k].max
                &&& final(components)@[k].max == old(components)@[k].max
            },
{
    let ghost before = components@;
    let mut i: usize = 0;
    while i < components.len()
        invariant
            i <= components.len(),
            components@.len() == before.len(),
            forall|k: int| 0 <= k < i ==> (#[trigger] components@[k]) == healed(before[k]),
            forall|k: int| i <= k < components@.len() ==> (#[trigger] components@[k]) == before[k],
        decreases components.len() - i,
    {
        let mut health = components[i];
        health.current = health.max;
        components.set(i, health);
        i = i + 1;
    }
    assert(components@ =~= before.map_values(|h: ComponentHealth| healed(h)));
}

/// Whether the target may appear: its spec sheet is there.
pub fn spawn_target_when_ready(load: SpecLoad) -> (r: bool)
    ensures
        r == (load == SpecLoad::Loaded),
{
    load == SpecLoad::Loaded
}

/// The status line: the clock, with its speed written out by the caller, and the shells.
pub fn status_line(paused: bool, speed: &str, mode: MarchMode, shells: usize) -> (r: String)
    ensures
        r@ == "time "@ + (if paused {
            "paused"@
        } else {
            speed@ + "x"@
        }) + " ["@ + mode.title() + "]   shells "@ + decimal(shells as nat),
{
    let rate = if paused {
        "paused".to_owned()
    } else {
        speed.to_owned().concat("x")
    };
    let count = decimal_text(shells as u64);
    "time ".to_owned().concat(rate.as_str()).concat(" [").concat(mode.label()).concat(
        "]   shells ",
    ).concat(count.as_str())
}

/// The label beside a shell, with the numbers written out by the caller.
pub fn shell_label(speed: &str, capability: &str, crossed: usize) -> (r: String)
    ensures
        r@ == speed@ + " m/s\n"@ + capability@ + " mm\n"@ + decimal(crossed as nat) + " crossed"@,
{
    let count = decimal_text(crossed as u64);
    speed.to_owned().concat(" m/s\n").concat(capability).concat(" mm\n").concat(
        count.as_str(),
    ).concat(" crossed")
}

/// Length of the outline of a spall cone in metres: 1.2.
pub const SPALL_OUTLINE: u32 = 0x3f99_999a;

/// The tip and the rim radius of a spall cone's outline, for the tangent of its half angle.
pub fn spall_outline(start: Vector3, axis: Vector3, tangent: Binary32) -> (r: (Vector3, Binary32))
    ensures
        r.0 == start.plus(axis.scaled(number(SPALL_OUTLINE))),
        r.1 == number(SPALL_OUTLINE) * tangent,
        r.0.x == start.x + axis.x * number(SPALL_OUTLINE),
        r.0.y == start.y + axis.y * number(SPALL_OUTLINE),
        r.0.z == start.z + axis.z * number(SPALL_OUTLINE),
{
    (start.plus(axis.scaled(number(SPALL_OUTLINE))), number(SPALL_OUTLINE) * tangent)
}

/// The layer keys go round: three presses bring the hull back, four a layer of volumes.
pub proof fn law_layers_go_round(mesh: MeshState, volumes: VolumeState)
    ensures
        mesh.successor().successor().successor() == mesh,
        volumes.successor().successor().successor().successor() == volumes,
{
}

/// A cleared component is not damaged.
pub proof fn law_cleared_is_undamaged(health: ComponentHealth)
    ensures
        !is_damaged(healed(health)),
        healed(healed(health)) == healed(health),
{
}

/// The ladder only slows down, and its speeds are positive.
pub proof fn law_ladder_slows_down(index: usize)
    requires
        index + 1 < SPEED_COUNT,
    ensures
        ladder((index + 1) as usize) < ladder(index),
        zero() < ladder((index + 1) as usize),
{
}

/// Slower and then faster leads back to the same speed.
pub proof fn law_slower_then_faster_leads_back(index: usize)
    requires
        index + 1 < SPEED_COUNT,
    ensures
        ({
            let slower = TimeKeys { freeze: false, faster: false, slower: true };
            let faster = TimeKeys { freeze: false, faster: true, slower: false };
            rung_after(rung_after(index, slower), faster) == index
        }),
{
}

/// The march key pressed twice leads back.
pub proof fn law_march_mode_leads_back(mode: MarchMode)
    ensures
        march_after(true, march_after(true, mode)) == mode,
        march_after(true, mode) != mode,
{
}

/// The order in which the layer keys go round, and what each state is called.
pub proof fn law_layer_order_and_titles()
    ensures
        MeshState::Solid.successor() == MeshState::Xray,
        MeshState::Xray.successor() == MeshState::Hidden,
        MeshState::Hidden.successor() == MeshState::Solid,
        VolumeState::Hidden.successor() == VolumeState::OnTop,
        VolumeState::OnTop.successor() == VolumeState::Solid,
        VolumeState::Solid.successor() == VolumeState::Xray,
        VolumeState::Xray.successor() == VolumeState::Hidden,
        MeshState::Solid.title() == "solid"@,
        MeshState::Xray.title() == "xray"@,
        MeshState::Hidden.title() == "hidden"@,
        VolumeState::Hidden.title() == "off"@,
        VolumeState::OnTop.title() == "on top"@,
        VolumeState::Solid.title() == "solid"@,
        VolumeState::Xray.title() == "xray"@,
        MarchMode::Real.title() == "real"@,
        MarchMode::Demo.title() == "demo"@,
{
}

/// Each layer key moves its own layer and no other.
pub proof fn law_each_key_moves_its_layer(view: LayerView, keys: LayerKeys)
    ensures
        keys.mesh ==> stepped_view(view, keys).mesh == view.mesh.successor(),
        !keys.mesh ==> stepped_view(view, keys).mesh == view.mesh,
        keys.armor ==> stepped_view(view, keys).armor == view.armor.successor(),
        !keys.armor ==> stepped_view(view, keys).armor == view.armor,
        keys.components ==> stepped_view(view, keys).components == view.components.successor(),
        !keys.components ==> stepped_view(view, keys).components == view.components,
        layer_of(view, true) == view.armor,
        layer_of(view, false) == view.components,
{
}

/// Clearing the damage fills the hit points up and changes nothing else.
pub proof fn law_clearing_fills_up(health: ComponentHealth)
    ensures
        healed(health).current == health.max,
        healed(health).max == health.max,
{
}

/// The ladder starts at full speed; its rungs are 1, 0.25, 0.06, 0.015, 0.004 and 0.001.
pub proof fn law_ladder_rungs()
    ensures
        ladder(0) == one(),
        ladder(1) == number(0x3e80_0000),
        ladder(2) == number(0x3d75_c28f),
        ladder(3) == number(0x3c75_c28f),
        ladder(4) == number(0x3b83_126f),
        ladder(5) == number(0x3a83_126f),
{
}

/// Faster goes one rung up and slower one rung down, each as far as the ladder reaches, and the rung
/// stays on the ladder. A rung moves exactly when one of the keys finds room.
pub proof fn law_time_keys_move_by_one_rung(index: usize, freeze: bool)
    requires
        index < SPEED_COUNT,
    ensures
        ({
            let none = TimeKeys { freeze, faster: false, slower: false };
            let faster = TimeKeys { freeze, faster: true, slower: false };
            let slower = TimeKeys { freeze, faster: false, slower: true };
            &&& rung_after(index, none) == index && !rung_moves(index, none)
            &&& index > 0 ==> rung_after(index, faster) == index - 1 && rung_moves(index, faster)
            &&& index == 0 ==> rung_after(index, faster) == index && !rung_moves(index, faster)
            &&& index + 1 < SPEED_COUNT ==> rung_after(index, slower) == index + 1 && rung_moves(
                index,
                slower,
            )
            &&& index + 1 == SPEED_COUNT ==> rung_after(index, slower) == index && !rung_moves(
                index,
                slower,
            )
        }),
{
}

/// The march mode changes only with the key, and there are two of them.
pub proof fn law_march_mode_needs_the_key(mode: MarchMode)
    ensures
        march_after(false, mode) == mode,
        march_after(true, MarchMode::Real) == MarchMode::Demo,
        march_after(true, MarchMode::Demo) == MarchMode::Real,
{
}

/// A key adds its step, the opposite key takes it away, and together or released they leave the way
/// as it is.
pub proof fn law_opposite_keys_cancel(dir: Vector3, step: Vector3)
    requires
        step.is_finite(),
    ensures
        pushed(dir, false, false, step) == dir,
        pushed(dir, true, false, step) == vector(dir.x + step.x, dir.y + step.y, dir.z + step.z),
        pushed(dir, false, true, step) == vector(dir.x - step.x, dir.y - step.y, dir.z - step.z),
        pushed(origin(), true, true, step).is_zero(),
{
    lemma_there_and_back(step.x);
    lemma_there_and_back(step.y);
    lemma_there_and_back(step.z);
}

proof fn lemma_there_and_back(step: Binary32)
    requires
        step.is_finite(),
    ensures
        (zero() + step - step).is_zero(),
{
    lemma_adding_zero(step, zero());
    lemma_sum_commutes(step, zero());
    if step.is_zero() {
        lemma_adding_zero(zero() + step, step);
    } else {
        lemma_difference_with_itself(step);
    }
}

/// Each flying key flies its own way: forward and back along the camera's heading, right and left
/// across it, up and down along the vertical. Without keys there is no way to fly.
pub proof fn law_each_key_flies_its_way(forward: Vector3, right: Vector3)
    requires
        heading(forward).is_finite(),
        heading(right).is_finite(),
    ensures
        ({
            let none = FlyKeys {
                forward: false,
                backward: false,
                right: false,
                left: false,
                up: false,
                down: false,
            };
            &&& fly_direction(none, forward, right) == origin()
            &&& fly_direction(FlyKeys { forward: true, ..none }, forward, right).same_value(
                heading(forward),
            )
            &&& fly_direction(FlyKeys { backward: true, ..none }, forward, right).same_value(
                heading(forward).reverse(),
            )
            &&& fly_direction(FlyKeys { right: true, ..none }, forward, right).same_value(
                heading(right),
            )
            &&& fly_direction(FlyKeys { left: true, ..none }, forward, right).same_value(
                heading(right).reverse(),
            )
            &&& fly_direction(FlyKeys { up: true, ..none }, forward, right).same_value(axis_y())
            &&& fly_direction(FlyKeys { down: true, ..none }, forward, right).same_value(
                axis_y().reverse(),
            )
        }),
{
    let none = FlyKeys {
        forward: false,
        backward: false,
        right: false,
        left: false,
        up: false,
        down: false,
    };
    let (f, r, u) = (heading(forward), heading(right), axis_y());
    assert(fly_direction(FlyKeys { forward: true, ..none }, forward, right) == origin().plus(f));
    assert(fly_direction(FlyKeys { backward: true, ..none }, forward, right) == origin().minus(f));
    assert(fly_direction(FlyKeys { right: true, ..none }, forward, right) == origin().plus(r));
    assert(fly_direction(FlyKeys { left: true, ..none }, forward, right) == origin().minus(r));
    assert(fly_direction(FlyKeys { up: true, ..none }, forward, right) == origin().plus(u));
    assert(fly_direction(FlyKeys { down: true, ..none }, forward, right) == origin().minus(u));
    lemma_from_rest(f);
    lemma_from_rest(r);
    lemma_from_rest(u);
}

/// A step from the origin is the step.
proof fn lemma_from_rest(step: Vector3)
    requires
        step.is_finite(),
    ensures
        origin().plus(step).same_value(step),
        origin().minus(step).same_value(step.reverse()),
{
    lemma_negation(step.x);
    lemma_negation(step.y);
    lemma_negation(step.z);
    lemma_adding_zero(step.x, zero());
    lemma_adding_zero(step.y, zero());
    lemma_adding_zero(step.z, zero());
    lemma_adding_zero(-step.x, zero());
    lemma_adding_zero(-step.y, zero());
    lemma_adding_zero(-step.z, zero());
}

/// The heading is level, keeps its side of zero in each component, and is exactly the direction seen
/// from above where that has length one already.
pub proof fn law_heading_is_the_direction_laid_flat(direction: Vector3)
    requires
        direction.is_finite(),
    ensures
        heading(direction) == ground_basis(direction).forward,
        heading(direction).y.is_zero(),
        direction.x >= zero() ==> heading(direction).x >= zero(),
        direction.x <= zero() ==> heading(direction).x <= zero(),
        direction.z >= zero() ==> heading(direction).z >= zero(),
        direction.z <= zero() ==> heading(direction).z <= zero(),
        direction.x * direction.x + zero() * zero() + direction.z * direction.z == one() ==> heading(
            direction,
        ) == vector(direction.x, zero(), direction.z),
{
    law_heading_follows_the_hull(direction);
    if direction.x * direction.x + zero() * zero() + direction.z * direction.z == one() {
        law_level_heading_is_kept(direction);
    }
}

/// The layers look as their states say: a hidden one is hidden, a translucent one translucent, one on
/// top is drawn over everything, and armour and components have each their own.
pub proof fn law_layers_look_as_they_are_set(
    view: LayerView,
    hull: HullLook,
    armor: VolumeLook,
    components: VolumeLook,
)
    requires
        call_ensures(hull_look, (&view,), hull),
        call_ensures(volume_look, (&view, true), armor),
        call_ensures(volume_look, (&view, false), components),
    ensures
        hull.hidden <==> view.mesh == MeshState::Hidden,
        hull.translucent <==> view.mesh == MeshState::Xray,
        armor.hidden <==> view.armor == VolumeState::Hidden,
        armor.overlay <==> view.armor == VolumeState::OnTop,
        armor.translucent <==> view.armor == VolumeState::Xray,
        components.hidden <==> view.components == VolumeState::Hidden,
        components.overlay <==> view.components == VolumeState::OnTop,
        components.translucent <==> view.components == VolumeState::Xray,
{
}

/// The pause key lets a captured cursor go and captures a free one; without the key or a window
/// nothing happens.
pub proof fn law_pause_key_frees_the_cursor(
    locked: bool,
    pressed: PauseChange,
    released: PauseChange,
    windowless: PauseChange,
)
    requires
        call_ensures(toggle_full_pause, (true, Some(locked)), pressed),
        call_ensures(toggle_full_pause, (false, Some(locked)), released),
        call_ensures(toggle_full_pause, (true, None::<bool>), windowless),
    ensures
        pressed == if locked {
            PauseChange::Release
        } else {
            PauseChange::Capture
        },
        released == PauseChange::Nothing,
        windowless == PauseChange::Nothing,
{
}

/// The flying camera fires down its own axis, from where it is, and only on the trigger.
pub proof fn law_sandbox_fires_down_the_axis(
    pose: MuzzlePose,
    fired: Option<FireShell>,
    held: Option<FireShell>,
)
    requires
        call_ensures(fire, (true, pose), fired),
        call_ensures(fire, (false, pose), held),
    ensures
        fired matches Some(shell) && shell.origin == pose.origin && shell.direction
            == pose.direction,
        held is None,
{
}

/// Up is straight up at 12 metres per second: whichever way the camera looks, the up key alone flies
/// along the vertical.
pub proof fn law_up_key_flies_straight_up(
    forward: Vector3,
    right: Vector3,
    dt: Binary32,
    r: Option<Vector3>,
)
    requires
        call_ensures(
            fly_step,
            (
                FlyKeys {
                    forward: false,
                    backward: false,
                    right: false,
                    left: false,
                    up: true,
                    down: false,
                },
                forward,
                right,
                dt,
            ),
            r,
        ),
        dt.is_finite(),
    ensures
        r matches Some(step) && step.x.is_zero() && step.z.is_zero() && step.y == number(0x4140_0000)
            * dt,
{
    let keys = FlyKeys {
        forward: false,
        backward: false,
        right: false,
        left: false,
        up: true,
        down: false,
    };
    let dir = origin().plus(axis_y());
    assert(fly_direction(keys, forward, right) == dir);
    assert(dir.x.is_zero() && dir.y == one() && dir.z.is_zero()) by {
        lemma_adding_zero(zero(), zero());
        lemma_adding_zero(one(), zero());
        lemma_sum_commutes(one(), zero());
    }
    assert(!dir.same_value(origin()));
    assert(dir.unit() == dir) by {
        lemma_unit_up(dir);
    }
    lemma_flown(dir, dt);
}

/// What one step straight up is.
proof fn lemma_flown(dir: Vector3, dt: Binary32)
    requires
        dir.x.is_zero(),
        dir.y == one(),
        dir.z.is_zero(),
        dt.is_finite(),
    ensures
        ({
            let step = dir.scaled(number(FLY_SPEED)).scaled(dt);
            step.x.is_zero() && step.z.is_zero() && step.y == number(FLY_SPEED) * dt
        }),
{
    let speed = number(FLY_SPEED);
    lemma_one_is_neutral(speed);
    lemma_zero_product(speed, dir.x);
    lemma_zero_product(speed, dir.z);
    lemma_zero_product(dt, dir.x * speed);
    lemma_zero_product(dt, dir.z * speed);
}

/// A vector of height one and no other part is its own direction.
proof fn lemma_unit_up(dir: Vector3)
    requires
        dir.x.is_zero(),
        dir.y == one(),
        dir.z.is_zero(),
    ensures
        dir.unit() == dir,
{
    lemma_zero_product(dir.x, dir.x);
    lemma_zero_product(dir.z, dir.z);
    lemma_one_is_neutral(one());
    lemma_adding_zero(one(), dir.x * dir.x);
    lemma_sum_commutes(one(), dir.x * dir.x);
    lemma_adding_zero(one(), dir.z * dir.z);
    lemma_root_of_one();
    lemma_one_is_neutral(dir.x);
    lemma_one_is_neutral(dir.z);
}

/// The freeze key alone stops a running clock and starts a standing one; a change of speed starts it
/// in any case, and without keys it goes on as it was.
pub proof fn law_speed_change_starts_the_clock(clock: SandboxClock, keys: TimeKeys)
    requires
        clock.wf(),
    ensures
        !keys.faster && !keys.slower && keys.freeze ==> paused_after(clock, keys) == !clock.paused,
        !keys.faster && !keys.slower && !keys.freeze ==> paused_after(clock, keys) == clock.paused,
        keys.faster && clock.index > 0 ==> !paused_after(clock, keys),
        keys.slower && clock.index + 1 < SPEED_COUNT ==> !paused_after(clock, keys),
{
}

/// The mouse steers only while the cursor is captured, and the target appears only with its sheet.
pub proof fn law_cursor_and_sheet(
    locked: bool,
    steers: bool,
    windowless: bool,
    load: SpecLoad,
    appears: bool,
)
    requires
        call_ensures(cursor_locked, (Some(locked),), steers),
        call_ensures(cursor_locked, (None::<bool>,), windowless),
        call_ensures(spawn_target_when_ready, (load,), appears),
    ensures
        steers == locked,
        !windowless,
        appears <==> load == SpecLoad::Loaded,
{
}

/// The flying camera turns at the same rate both ways: 0.003 radians per count.
pub proof fn law_fly_rates(
    yaw: Binary32,
    pitch: Binary32,
    dx: Binary32,
    dy: Binary32,
    r: (Binary32, Binary32),
)
    requires
        call_ensures(fly_look, (yaw, pitch, dx, dy), r),
    ensures
        r.0 == yaw - dx * number(0x3b44_9ba6),
        -number(PITCH_LIMIT) <= pitch - dy * number(0x3b44_9ba6) && pitch - dy * number(0x3b44_9ba6)
            <= number(PITCH_LIMIT) ==> r.1 == pitch - dy * number(0x3b44_9ba6),
{
}

/// The outline of a spall cone goes 1.2 metres along its axis and widens with the tangent.
pub proof fn law_spall_goes_along_its_axis(
    start: Vector3,
    axis: Vector3,
    tangent: Binary32,
    r: (Vector3, Binary32),
)
    requires
        call_ensures(spall_outline, (start, axis, tangent), r),
    ensures
        r.0.x == start.x + axis.x * number(0x3f99_999a),
        r.0.y == start.y + axis.y * number(0x3f99_999a),
        r.0.z == start.z + axis.z * number(0x3f99_999a),
        r.1 == number(0x3f99_999a) * tangent,
{
}

} // verus!
