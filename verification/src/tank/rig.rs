//! The rig: the nodes of the model that behaviour is bound to. A node's name is the contract between
//! the model and the code.

use crate::spec::{
    distinct_names, law_order_of_volumes_does_not_matter, volume_named, TankSpec, VolumeSpec,
};
use crate::text::{same_text, starts_with, views};
use vstd::prelude::*;

verus! {

/// The nodes of a tank that the control systems reach for.
#[derive(Clone, Copy, Debug, PartialEq, Eq, Structural)]
pub struct Rig {
    pub hull: u64,
    pub turret: u64,
    pub gun: u64,
}

/// The track that a roadwheel drives.
#[derive(Clone, Copy, Debug, PartialEq, Eq, Structural)]
pub enum TrackSide {
    Left,
    Right,
}

/// A node of the loaded model. Most nodes have no name.
#[derive(Clone, Debug, PartialEq, Eq)]
pub struct ModelNode {
    pub entity: u64,
    pub name: Option<String>,
}

/// What a node is to the simulation.
#[derive(Clone, Copy, Debug, PartialEq)]
pub enum NodeRole {
    Turret,
    Gun,
    Hull,
    Muzzle,
    GunBarrel,
    CenterOfMass,
    Roadwheel(TrackSide),
    /// A proxy for collisions.
    Collider,
    /// A ballistic volume that the spec sheet declares.
    Volume(VolumeSpec),
    /// Named like a ballistic volume, but not declared: ignored, with a warning.
    Undeclared,
    /// Nothing to the simulation.
    Plain,
}

/// What a name makes of a node. The fixed names come first, then wheels and colliders by their
/// prefixes, then the declared volumes.
pub open spec fn role_of(name: Seq<char>, volumes: Seq<(String, VolumeSpec)>) -> NodeRole {
    if name == "Turret"@ {
        NodeRole::Turret
    } else if name == "Gun"@ {
        NodeRole::Gun
    } else if name == "Hull"@ {
        NodeRole::Hull
    } else if name == "Muzzle"@ {
        NodeRole::Muzzle
    } else if name == "Gun_Barrel"@ {
        NodeRole::GunBarrel
    } else if name == "Center_Of_Mass"@ {
        NodeRole::CenterOfMass
    } else if "Wheel_"@.is_prefix_of(name) {
        NodeRole::Roadwheel(
            if "Wheel_L"@.is_prefix_of(name) {
                TrackSide::Left
            } else {
                TrackSide::Right
            },
        )
    } else if "Collider_"@.is_prefix_of(name) {
        NodeRole::Collider
    } else {
        match volume_named(volumes, name) {
            Some(volume) => NodeRole::Volume(volume),
            None => if "Ballistic_"@.is_prefix_of(name) {
                NodeRole::Undeclared
            } else {
                NodeRole::Plain
            },
        }
    }
}

/// What a node is; one without a name is nothing.
pub open spec fn node_role(node: ModelNode, volumes: Seq<(String, VolumeSpec)>) -> NodeRole {
    match node.name {
        Some(name) => role_of(name@, volumes),
        None => NodeRole::Plain,
    }
}

/// Some node has the role.
pub open spec fn some_node_is(
    nodes: Seq<ModelNode>,
    volumes: Seq<(String, VolumeSpec)>,
    role: NodeRole,
) -> bool {
    exists|i: int| 0 <= i < nodes.len() && node_role(#[trigger] nodes[i], volumes) == role
}

pub open spec fn is_named(node: ModelNode, name: Seq<char>) -> bool {
    match node.name {
        Some(own) => own@ == name,
        None => false,
    }
}

/// A node with that name is bound as a volume.
pub open spec fn volume_is_bound(
    nodes: Seq<ModelNode>,
    volumes: Seq<(String, VolumeSpec)>,
    name: Seq<char>,
) -> bool {
    exists|i: int|
        0 <= i < nodes.len() && is_named(#[trigger] nodes[i], name) && node_role(
            nodes[i],
            volumes,
        ) is Volume
}

/// The node is a volume with a consequence but without hit points.
pub open spec fn offends(node: ModelNode, volumes: Seq<(String, VolumeSpec)>) -> bool {
    match node_role(node, volumes) {
        NodeRole::Volume(volume) => !volume.sound(),
        _ => false,
    }
}

/// A label where something is absent.
pub open spec fn lack(label: Seq<char>, present: bool) -> Seq<Seq<char>> {
    if present {
        seq![]
    } else {
        seq![label]
    }
}

/// What the rig lacks: the six single nodes, a collider, and a roadwheel on each side.
pub open spec fn missing_nodes(
    nodes: Seq<ModelNode>,
    volumes: Seq<(String, VolumeSpec)>,
) -> Seq<Seq<char>> {
    lack("Hull"@, some_node_is(nodes, volumes, NodeRole::Hull)) + lack(
        "Turret"@,
        some_node_is(nodes, volumes, NodeRole::Turret),
    ) + lack("Gun"@, some_node_is(nodes, volumes, NodeRole::Gun)) + lack(
        "Gun_Barrel"@,
        some_node_is(nodes, volumes, NodeRole::GunBarrel),
    ) + lack("Muzzle"@, some_node_is(nodes, volumes, NodeRole::Muzzle)) + lack(
        "Center_Of_Mass"@,
        some_node_is(nodes, volumes, NodeRole::CenterOfMass),
    ) + lack("*Collider_"@, some_node_is(nodes, volumes, NodeRole::Collider)) + lack(
        "Wheel_L*"@,
        some_node_is(nodes, volumes, NodeRole::Roadwheel(TrackSide::Left)),
    ) + lack("Wheel_R*"@, some_node_is(nodes, volumes, NodeRole::Roadwheel(TrackSide::Right)))
}

/// The names of the first `n` declared volumes that no node is bound to.
pub open spec fn missing_volumes(
    nodes: Seq<ModelNode>,
    volumes: Seq<(String, VolumeSpec)>,
    n: nat,
) -> Seq<Seq<char>>
    decreases n,
{
    if n == 0 {
        seq![]
    } else {
        let name = volumes[n - 1].0@;
        missing_volumes(nodes, volumes, (n - 1) as nat) + lack(
            name,
            volume_is_bound(nodes, volumes, name),
        )
    }
}

/// The nodes that are something to the simulation, in order.
pub open spec fn bound_nodes(
    nodes: Seq<ModelNode>,
    volumes: Seq<(String, VolumeSpec)>,
) -> Seq<(u64, NodeRole)>
    decreases nodes.len(),
{
    if nodes.len() == 0 {
        seq![]
    } else {
        let rest = bound_nodes(nodes.drop_last(), volumes);
        let node = nodes.last();
        match node_role(node, volumes) {
            NodeRole::Plain => rest,
            role => rest.push((node.entity, role)),
        }
    }
}

/// The last node with the role.
pub open spec fn last_with(
    nodes: Seq<ModelNode>,
    volumes: Seq<(String, VolumeSpec)>,
    role: NodeRole,
) -> Option<u64>
    decreases nodes.len(),
{
    if nodes.len() == 0 {
        None
    } else if node_role(nodes.last(), volumes) == role {
        Some(nodes.last().entity)
    } else {
        last_with(nodes.drop_last(), volumes, role)
    }
}

/// Why a model cannot be bound.
#[derive(Clone, Debug, PartialEq, Eq)]
pub enum RigError {
    /// This volume declares a consequence but has no hit points.
    FacetWithoutHealth(String),
    /// The model lacks these nodes.
    MissingNodes(Vec<String>),
    /// The spec sheet declares these volumes, but the model has no node for them.
    MissingVolumes(Vec<String>),
}

/// A bound model: what each node is, and the nodes that the control systems reach for.
#[derive(Debug, PartialEq)]
pub struct BoundRig {
    pub nodes: Vec<(u64, NodeRole)>,
    pub rig: Rig,
}

/// What `on_tank_ready` makes of a model, for every model and every spec sheet.
pub open spec fn binding_outcome(
    nodes: Seq<ModelNode>,
    volumes: Seq<(String, VolumeSpec)>,
    outcome: Result<BoundRig, RigError>,
) -> bool {
    let sound = forall|i: int| 0 <= i < nodes.len() ==> !offends(#[trigger] nodes[i], volumes);
    let lacking = missing_nodes(nodes, volumes);
    let unbound = missing_volumes(nodes, volumes, volumes.len());
    match outcome {
        Err(RigError::FacetWithoutHealth(name)) => exists|i: int|
            0 <= i < nodes.len() && offends(#[trigger] nodes[i], volumes) && is_named(nodes[i], name@)
                && forall|k: int| 0 <= k < i ==> !offends(#[trigger] nodes[k], volumes),
        Err(RigError::MissingNodes(labels)) => {
            &&& sound
            &&& lacking.len() > 0
            &&& views(labels@) == lacking
        },
        Err(RigError::MissingVolumes(names)) => {
            &&& sound
            &&& lacking.len() == 0
            &&& unbound.len() > 0
            &&& views(names@) == unbound
        },
        Ok(bound) => {
            &&& sound
            &&& lacking.len() == 0
            &&& unbound.len() == 0
            &&& bound.nodes@ == bound_nodes(nodes, volumes)
            &&& last_with(nodes, volumes, NodeRole::Hull) == Some(bound.rig.hull)
            &&& last_with(nodes, volumes, NodeRole::Turret) == Some(bound.rig.turret)
            &&& last_with(nodes, volumes, NodeRole::Gun) == Some(bound.rig.gun)
        },
    }
}

fn classify(node: &ModelNode, spec: &TankSpec) -> (r: NodeRole)
    ensures
        r == node_role(*node, spec.volumes@),
{
    let name: &str = match &node.name {
        Some(name) => name.as_str(),
        None => {
            return NodeRole::Plain;
        },
    };
    if same_text(name, "Turret") {
        NodeRole::Turret
    } else if same_text(name, "Gun") {
        NodeRole::Gun
    } else if same_text(name, "Hull") {
        NodeRole::Hull
    } else if same_text(name, "Muzzle") {
        NodeRole::Muzzle
    } else if same_text(name, "Gun_Barrel") {
        NodeRole::GunBarrel
    } else if same_text(name, "Center_Of_Mass") {
        NodeRole::CenterOfMass
    } else if starts_with(name, "Wheel_") {
        NodeRole::Roadwheel(
            if starts_with(name, "Wheel_L") {
                TrackSide::Left
            } else {
                TrackSide::Right
            },
        )
    } else if starts_with(name, "Collider_") {
        NodeRole::Collider
    } else {
        match spec.volume(name) {
            Some(volume) => NodeRole::Volume(volume),
            None => if starts_with(name, "Ballistic_") {
                NodeRole::Undeclared
            } else {
                NodeRole::Plain
            },
        }
    }
}

/// What one more node adds.
proof fn lemma_some_node_step(
    nodes: Seq<ModelNode>,
    volumes: Seq<(String, VolumeSpec)>,
    i: int,
    role: NodeRole,
)
    requires
        0 <= i < nodes.len(),
    ensures
        some_node_is(nodes.take(i + 1), volumes, role) == (some_node_is(
            nodes.take(i),
            volumes,
            role,
        ) || node_role(nodes[i], volumes) == role),
        last_with(nodes.take(i + 1), volumes, role) == (if node_role(nodes[i], volumes) == role {
            Some(nodes[i].entity)
        } else {
            last_with(nodes.take(i), volumes, role)
        }),
{
    let more = nodes.take(i + 1);
    let seen = nodes.take(i);
    assert(more.drop_last() =~= seen);
    if some_node_is(seen, volumes, role) {
        let k = choose|k: int| 0 <= k < seen.len() && node_role(#[trigger] seen[k], volumes) == role;
        assert(more[k] == seen[k]);
    }
    if node_role(nodes[i], volumes) == role {
        assert(more[i] == nodes[i]);
    }
    if some_node_is(more, volumes, role) {
        let k = choose|k: int| 0 <= k < more.len() && node_role(#[trigger] more[k], volumes) == role;
        if k < i {
            assert(seen[k] == more[k]);
        }
    }
}

fn note_lack(missing: &mut Vec<String>, label: &str, present: bool)
    ensures
        views(final(missing)@) == views(old(missing)@) + lack(label@, present),
{
    if !present {
        missing.push(label.to_owned());
    }
    assert(views(missing@) =~= views(old(missing)@) + lack(label@, present));
}

fn node_binds_volume(nodes: &Vec<ModelNode>, spec: &TankSpec, name: &str) -> (r: bool)
    ensures
        r == volume_is_bound(nodes@, spec.volumes@, name@),
{
    let mut i: usize = 0;
    while i < nodes.len()
        invariant
            i <= nodes.len(),
            forall|k: int|
                0 <= k < i ==> !(is_named(#[trigger] nodes@[k], name@) && node_role(
                    nodes@[k],
                    spec.volumes@,
                ) is Volume),
        decreases nodes.len() - i,
    {
        let node = &nodes[i];
        if let Some(own) = &node.name {
            if same_text(own.as_str(), name) {
                if let NodeRole::Volume(_) = classify(node, spec) {
                    return true;
                }
            }
        }
        i = i + 1;
    }
    false
}

/// Bind a loaded model: say what each node is, and hold the model to the contract. Every node that
/// behaviour is bound to must be there, and every declared volume must have its node.
pub fn on_tank_ready(nodes: &Vec<ModelNode>, spec: &TankSpec) -> (r: Result<BoundRig, RigError>)
    ensures
        binding_outcome(nodes@, spec.volumes@, r),
{
    let ghost volumes = spec.volumes@;
    let mut bound: Vec<(u64, NodeRole)> = Vec::new();
    let mut hull: Option<u64> = None;
    let mut turret: Option<u64> = None;
    let mut gun: Option<u64> = None;
    let mut barrel: bool = false;
    let mut muzzle: bool = false;
    let mut center: bool = false;
    let mut collider: bool = false;
    let mut left: bool = false;
    let mut right: bool = false;
    let mut i: usize = 0;
    while i < nodes.len()
        invariant
            i <= nodes.len(),
            volumes == spec.volumes@,
            forall|k: int| 0 <= k < i ==> !offends(#[trigger] nodes@[k], volumes),
            bound@ == bound_nodes(nodes@.take(i as int), volumes),
            hull == last_with(nodes@.take(i as int), volumes, NodeRole::Hull),
            turret == last_with(nodes@.take(i as int), volumes, NodeRole::Turret),
            gun == last_with(nodes@.take(i as int), volumes, NodeRole::Gun),
            hull is Some == some_node_is(nodes@.take(i as int), volumes, NodeRole::Hull),
            turret is Some == some_node_is(nodes@.take(i as int), volumes, NodeRole::Turret),
            gun is Some == some_node_is(nodes@.take(i as int), volumes, NodeRole::Gun),
            barrel == some_node_is(nodes@.take(i as int), volumes, NodeRole::GunBarrel),
            muzzle == some_node_is(nodes@.take(i as int), volumes, NodeRole::Muzzle),
            center == some_node_is(nodes@.take(i as int), volumes, NodeRole::CenterOfMass),
            collider == some_node_is(nodes@.take(i as int), volumes, NodeRole::Collider),
            left == some_node_is(
                nodes@.take(i as int),
                volumes,
                NodeRole::Roadwheel(TrackSide::Left),
            ),
            right == some_node_is(
                nodes@.take(i as int),
                volumes,
                NodeRole::Roadwheel(TrackSide::Right),
            ),
        decreases nodes.len() - i,
    {
        let node = &nodes[i];
        let role = classify(node, spec);
        proof {
            assert(nodes@.take(i + 1).drop_last() =~= nodes@.take(i as int));
            lemma_some_node_step(nodes@, volumes, i as int, NodeRole::Hull);
            lemma_some_node_step(nodes@, volumes, i as int, NodeRole::Turret);
            lemma_some_node_step(nodes@, volumes, i as int, NodeRole::Gun);
            lemma_some_node_step(nodes@, volumes, i as int, NodeRole::GunBarrel);
            lemma_some_node_step(nodes@, volumes, i as int, NodeRole::Muzzle);
            lemma_some_node_step(nodes@, volumes, i as int, NodeRole::CenterOfMass);
            lemma_some_node_step(nodes@, volumes, i as int, NodeRole::Collider);
            lemma_some_node_step(nodes@, volumes, i as int, NodeRole::Roadwheel(TrackSide::Left));
            lemma_some_node_step(nodes@, volumes, i as int, NodeRole::Roadwheel(TrackSide::Right));
        }
        match role {
            NodeRole::Turret => turret = Some(node.entity),
            NodeRole::Gun => gun = Some(node.entity),
            NodeRole::Hull => hull = Some(node.entity),
            NodeRole::Muzzle => muzzle = true,
            NodeRole::GunBarrel => barrel = true,
            NodeRole::CenterOfMass => center = true,
            NodeRole::Roadwheel(TrackSide::Left) => left = true,
            NodeRole::Roadwheel(TrackSide::Right) => right = true,
            NodeRole::Collider => collider = true,
            NodeRole::Volume(volume) => {
                if !volume.is_sound() {
                    if let Some(name) = &node.name {
                        return Err(RigError::FacetWithoutHealth(name.clone()));
                    }
                }
            },
            NodeRole::Undeclared => {},
            NodeRole::Plain => {},
        }
        match role {
            NodeRole::Plain => {},
            _ => bound.push((node.entity, role)),
        }
        i = i + 1;
    }
    assert(nodes@.take(i as int) =~= nodes@);

    let mut missing: Vec<String> = Vec::new();
    assert(views(missing@) =~= Seq::<Seq<char>>::empty());
    note_lack(&mut missing, "Hull", hull.is_some());
    note_lack(&mut missing, "Turret", turret.is_some());
    note_lack(&mut missing, "Gun", gun.is_some());
    note_lack(&mut missing, "Gun_Barrel", barrel);
    note_lack(&mut missing, "Muzzle", muzzle);
    note_lack(&mut missing, "Center_Of_Mass", center);
    note_lack(&mut missing, "*Collider_", collider);
    note_lack(&mut missing, "Wheel_L*", left);
    note_lack(&mut missing, "Wheel_R*", right);
    assert(views(missing@) =~= missing_nodes(nodes@, volumes));
    if missing.len() > 0 {
        return Err(RigError::MissingNodes(missing));
    }
    let ghost lacking = missing_nodes(nodes@, volumes);
    assert(lacking.len() == 0);
    let mut unbound: Vec<String> = Vec::new();
    let mut j: usize = 0;
    assert(views(unbound@) =~= Seq::<Seq<char>>::empty());
    while j < spec.volumes.len()
        invariant
            j <= spec.volumes.len(),
            volumes == spec.volumes@,
            views(unbound@) == missing_volumes(nodes@, volumes, j as nat),
        decreases spec.volumes.len() - j,
    {
        let name: &str = spec.volumes[j].0.as_str();
        let present = node_binds_volume(nodes, spec, name);
        note_lack(&mut unbound, name, present);
        j = j + 1;
    }
    if unbound.len() > 0 {
        return Err(RigError::MissingVolumes(unbound));
    }
    assert(missing_volumes(nodes@, volumes, volumes.len()).len() == 0);
    match (hull, turret, gun) {
        (Some(hull), Some(turret), Some(gun)) => Ok(
            BoundRig { nodes: bound, rig: Rig { hull, turret, gun } },
        ),
        _ => Err(RigError::MissingNodes(missing)),
    }
}

/// Everything that the contract asks for is in the model.
pub open spec fn complete(nodes: Seq<ModelNode>, volumes: Seq<(String, VolumeSpec)>) -> bool {
    &&& some_node_is(nodes, volumes, NodeRole::Hull)
    &&& some_node_is(nodes, volumes, NodeRole::Turret)
    &&& some_node_is(nodes, volumes, NodeRole::Gun)
    &&& some_node_is(nodes, volumes, NodeRole::GunBarrel)
    &&& some_node_is(nodes, volumes, NodeRole::Muzzle)
    &&& some_node_is(nodes, volumes, NodeRole::CenterOfMass)
    &&& some_node_is(nodes, volumes, NodeRole::Collider)
    &&& some_node_is(nodes, volumes, NodeRole::Roadwheel(TrackSide::Left))
    &&& some_node_is(nodes, volumes, NodeRole::Roadwheel(TrackSide::Right))
    &&& forall|j: int|
        0 <= j < volumes.len() ==> volume_is_bound(nodes, volumes, #[trigger] volumes[j].0@)
    &&& forall|i: int| 0 <= i < nodes.len() ==> !offends(#[trigger] nodes[i], volumes)
}

proof fn lemma_no_volume_is_missing(
    nodes: Seq<ModelNode>,
    volumes: Seq<(String, VolumeSpec)>,
    n: nat,
)
    requires
        n <= volumes.len(),
    ensures
        missing_volumes(nodes, volumes, n).len() == 0 <==> forall|j: int|
            0 <= j < n ==> volume_is_bound(nodes, volumes, #[trigger] volumes[j].0@),
    decreases n,
{
    if n > 0 {
        lemma_no_volume_is_missing(nodes, volumes, (n - 1) as nat);
        if missing_volumes(nodes, volumes, n).len() == 0 {
            assert(volume_is_bound(nodes, volumes, volumes[n - 1].0@));
        }
    }
}

/// A model binds exactly when it is complete: then no error is possible, and nothing less is bound.
pub proof fn law_complete_models_bind(
    nodes: Seq<ModelNode>,
    volumes: Seq<(String, VolumeSpec)>,
    outcome: Result<BoundRig, RigError>,
)
    requires
        binding_outcome(nodes, volumes, outcome),
    ensures
        outcome is Ok <==> complete(nodes, volumes),
{
    lemma_no_volume_is_missing(nodes, volumes, volumes.len());
    if complete(nodes, volumes) {
        assert(missing_nodes(nodes, volumes).len() == 0);
    }
}

/// A name that means something to the rig itself.
pub open spec fn is_reserved(name: Seq<char>) -> bool {
    ||| name == "Turret"@
    ||| name == "Gun"@
    ||| name == "Hull"@
    ||| name == "Muzzle"@
    ||| name == "Gun_Barrel"@
    ||| name == "Center_Of_Mass"@
    ||| "Wheel_"@.is_prefix_of(name)
    ||| "Collider_"@.is_prefix_of(name)
}

/// A node with a name of its own is a ballistic volume if and only if the spec sheet declares it, and
/// then with the data declared there. A reserved name is never a volume.
pub proof fn law_the_spec_sheet_says_what_is_a_volume(
    node: ModelNode,
    volumes: Seq<(String, VolumeSpec)>,
    name: Seq<char>,
)
    requires
        is_named(node, name),
    ensures
        is_reserved(name) ==> !(node_role(node, volumes) is Volume),
        !is_reserved(name) ==> (node_role(node, volumes) is Volume <==> volume_named(volumes, name)
            is Some),
        node_role(node, volumes) matches NodeRole::Volume(volume) ==> volume_named(volumes, name)
            == Some(volume),
{
}

/// What a node is does not depend on the order in which the spec sheet lists its volumes.
pub proof fn law_roles_ignore_the_order_of_volumes(
    node: ModelNode,
    first: Seq<(String, VolumeSpec)>,
    second: Seq<(String, VolumeSpec)>,
)
    requires
        distinct_names(first),
        distinct_names(second),
        forall|entry: (String, VolumeSpec)| #[trigger]
            first.contains(entry) <==> second.contains(entry),
    ensures
        node_role(node, first) == node_role(node, second),
{
    if let Some(name) = node.name {
        law_order_of_volumes_does_not_matter(first, second, name@);
    }
}

/// A name decides what a node is to the rig, and each role has its name: whatever the spec sheet
/// declares, only the node called "Hull" is the hull, and so on for every fixed name; a wheel is what
/// is named like one, with its side in the name.
pub proof fn law_names_decide_the_roles(name: Seq<char>, volumes: Seq<(String, VolumeSpec)>)
    ensures
        role_of(name, volumes) == NodeRole::Hull <==> name == "Hull"@,
        role_of(name, volumes) == NodeRole::Turret <==> name == "Turret"@,
        role_of(name, volumes) == NodeRole::Gun <==> name == "Gun"@,
        role_of(name, volumes) == NodeRole::Muzzle <==> name == "Muzzle"@,
        role_of(name, volumes) == NodeRole::GunBarrel <==> name == "Gun_Barrel"@,
        role_of(name, volumes) == NodeRole::CenterOfMass <==> name == "Center_Of_Mass"@,
        role_of(name, volumes) == NodeRole::Roadwheel(TrackSide::Left) <==> "Wheel_L"@.is_prefix_of(
            name,
        ),
        role_of(name, volumes) is Roadwheel <==> "Wheel_"@.is_prefix_of(name),
        role_of(name, volumes) == NodeRole::Collider <==> "Collider_"@.is_prefix_of(name),
{
    reveal_strlit("Hull");
    reveal_strlit("Turret");
    reveal_strlit("Gun");
    reveal_strlit("Muzzle");
    reveal_strlit("Gun_Barrel");
    reveal_strlit("Center_Of_Mass");
    reveal_strlit("Wheel_");
    reveal_strlit("Wheel_L");
    reveal_strlit("Collider_");
    assert("Hull"@[0] == 'H' && "Turret"@[0] == 'T' && "Muzzle"@[0] == 'M');
    assert("Gun"@.len() == 3 && "Gun_Barrel"@.len() == 10 && "Gun"@[0] == 'G');
    assert("Gun_Barrel"@[0] == 'G');
    assert("Center_Of_Mass"@[0] == 'C' && "Center_Of_Mass"@[1] == 'e');
    assert("Collider_"@[0] == 'C' && "Collider_"@[1] == 'o');
    assert("Wheel_"@[0] == 'W' && "Wheel_L"@[0] == 'W');
    assert("Wheel_"@ =~= "Wheel_L"@.take(6));
    if "Wheel_L"@.is_prefix_of(name) {
        assert("Wheel_"@.is_prefix_of(name)) by {
            assert(name.subrange(0, 7) == "Wheel_L"@);
            assert(name.subrange(0, 6) =~= name.subrange(0, 7).take(6));
        }
    }
    if "Wheel_"@.is_prefix_of(name) {
        assert(name.subrange(0, 6)[0] == name[0]);
    }
    if "Collider_"@.is_prefix_of(name) {
        assert(name.subrange(0, 9)[0] == name[0]);
        assert(name.subrange(0, 9)[1] == name[1]);
    }
}

/// The last node of a role comes from the model and has that role.
proof fn lemma_last_with(
    nodes: Seq<ModelNode>,
    volumes: Seq<(String, VolumeSpec)>,
    role: NodeRole,
    entity: u64,
)
    requires
        last_with(nodes, volumes, role) == Some(entity),
    ensures
        exists|i: int|
            0 <= i < nodes.len() && (#[trigger] nodes[i]).entity == entity && node_role(
                nodes[i],
                volumes,
            ) == role && forall|k: int|
                i < k < nodes.len() ==> node_role(#[trigger] nodes[k], volumes) != role,
    decreases nodes.len(),
{
    let n = nodes.len() - 1;
    if node_role(nodes.last(), volumes) == role {
        assert(nodes[n].entity == entity);
    } else {
        let rest = nodes.drop_last();
        lemma_last_with(rest, volumes, role, entity);
        let i = choose|i: int|
            0 <= i < rest.len() && (#[trigger] rest[i]).entity == entity && node_role(
                rest[i],
                volumes,
            ) == role && forall|k: int|
                i < k < rest.len() ==> node_role(#[trigger] rest[k], volumes) != role;
        assert(nodes[i] == rest[i]);
        assert forall|k: int| i < k < nodes.len() implies node_role(#[trigger] nodes[k], volumes)
            != role by {
            if k < n {
                assert(rest[k] == nodes[k]);
            }
        }
    }
}

/// A bound model reaches for the nodes of the right names: the hull of the rig is a node called
/// "Hull", the turret one called "Turret", the gun one called "Gun".
pub proof fn law_rig_points_at_the_named_nodes(
    nodes: Seq<ModelNode>,
    volumes: Seq<(String, VolumeSpec)>,
    bound: BoundRig,
)
    requires
        binding_outcome(nodes, volumes, Ok(bound)),
    ensures
        exists|i: int|
            0 <= i < nodes.len() && is_named(#[trigger] nodes[i], "Hull"@) && nodes[i].entity
                == bound.rig.hull,
        exists|i: int|
            0 <= i < nodes.len() && is_named(#[trigger] nodes[i], "Turret"@) && nodes[i].entity
                == bound.rig.turret,
        exists|i: int|
            0 <= i < nodes.len() && is_named(#[trigger] nodes[i], "Gun"@) && nodes[i].entity
                == bound.rig.gun,
{
    lemma_named_node(nodes, volumes, NodeRole::Hull, bound.rig.hull, "Hull"@);
    lemma_named_node(nodes, volumes, NodeRole::Turret, bound.rig.turret, "Turret"@);
    lemma_named_node(nodes, volumes, NodeRole::Gun, bound.rig.gun, "Gun"@);
}

proof fn lemma_named_node(
    nodes: Seq<ModelNode>,
    volumes: Seq<(String, VolumeSpec)>,
    role: NodeRole,
    entity: u64,
    name: Seq<char>,
)
    requires
        last_with(nodes, volumes, role) == Some(entity),
        role == NodeRole::Hull && name == "Hull"@ || role == NodeRole::Turret && name == "Turret"@
            || role == NodeRole::Gun && name == "Gun"@,
    ensures
        exists|i: int|
            0 <= i < nodes.len() && is_named(#[trigger] nodes[i], name) && nodes[i].entity == entity,
{
    lemma_last_with(nodes, volumes, role, entity);
    let i = choose|i: int|
        0 <= i < nodes.len() && (#[trigger] nodes[i]).entity == entity && node_role(
            nodes[i],
            volumes,
        ) == role && forall|k: int|
            i < k < nodes.len() ==> node_role(#[trigger] nodes[k], volumes) != role;
    match nodes[i].name {
        Some(own) => {
            law_names_decide_the_roles(own@, volumes);
            assert(is_named(nodes[i], name));
        },
        None => {},
    }
}

/// Every node that is something to the simulation is bound, as what it is, and nothing else is: two
/// lists of nodes are bound the one after the other, and a node alone gives its own entity and role.
pub proof fn law_each_node_is_bound_as_what_it_is(
    first: Seq<ModelNode>,
    second: Seq<ModelNode>,
    node: ModelNode,
    volumes: Seq<(String, VolumeSpec)>,
)
    ensures
        bound_nodes(first + second, volumes) == bound_nodes(first, volumes) + bound_nodes(
            second,
            volumes,
        ),
        bound_nodes(seq![node], volumes) == (if node_role(node, volumes) is Plain {
            seq![]
        } else {
            seq![(node.entity, node_role(node, volumes))]
        }),
    decreases second.len(),
{
    reveal_with_fuel(bound_nodes, 2);
    assert(seq![node].drop_last() =~= seq![]);
    assert(bound_nodes(seq![node], volumes) =~= (if node_role(node, volumes) is Plain {
        seq![]
    } else {
        seq![(node.entity, node_role(node, volumes))]
    }));
    let all = first + second;
    if second.len() == 0 {
        assert(all =~= first);
    } else {
        law_each_node_is_bound_as_what_it_is(first, second.drop_last(), node, volumes);
        assert(all.drop_last() =~= first + second.drop_last());
        assert(all.last() == second.last());
    }
    assert(bound_nodes(all, volumes) =~= bound_nodes(first, volumes) + bound_nodes(second, volumes));
}

/// What two lists contain together.
proof fn lemma_either_contains(first: Seq<Seq<char>>, second: Seq<Seq<char>>, label: Seq<char>)
    ensures
        (first + second).contains(label) <==> first.contains(label) || second.contains(label),
{
    let all = first + second;
    if first.contains(label) {
        let i = choose|i: int| 0 <= i < first.len() && first[i] == label;
        assert(all[i] == label);
    }
    if second.contains(label) {
        let i = choose|i: int| 0 <= i < second.len() && second[i] == label;
        assert(all[first.len() + i] == label);
    }
    if all.contains(label) {
        let i = choose|i: int| 0 <= i < all.len() && all[i] == label;
        if i < first.len() {
            assert(first[i] == label);
        } else {
            assert(second[i - first.len()] == label);
        }
    }
}

/// A lack lists its own label and no other.
proof fn lemma_lack(own: Seq<char>, present: bool, label: Seq<char>)
    ensures
        lack(own, present).contains(label) <==> !present && own == label,
{
    if !present {
        assert(lack(own, present)[0] == own);
    }
}

/// The labels that stand in the list of what is missing.
proof fn lemma_missing_label(
    nodes: Seq<ModelNode>,
    volumes: Seq<(String, VolumeSpec)>,
    label: Seq<char>,
)
    ensures
        missing_nodes(nodes, volumes).contains(label) <==> {
            ||| label == "Hull"@ && !some_node_is(nodes, volumes, NodeRole::Hull)
            ||| label == "Turret"@ && !some_node_is(nodes, volumes, NodeRole::Turret)
            ||| label == "Gun"@ && !some_node_is(nodes, volumes, NodeRole::Gun)
            ||| label == "Gun_Barrel"@ && !some_node_is(nodes, volumes, NodeRole::GunBarrel)
            ||| label == "Muzzle"@ && !some_node_is(nodes, volumes, NodeRole::Muzzle)
            ||| label == "Center_Of_Mass"@ && !some_node_is(nodes, volumes, NodeRole::CenterOfMass)
            ||| label == "*Collider_"@ && !some_node_is(nodes, volumes, NodeRole::Collider)
            ||| label == "Wheel_L*"@ && !some_node_is(
                nodes,
                volumes,
                NodeRole::Roadwheel(TrackSide::Left),
            )
            ||| label == "Wheel_R*"@ && !some_node_is(
                nodes,
                volumes,
                NodeRole::Roadwheel(TrackSide::Right),
            )
        },
{
    let hull = lack("Hull"@, some_node_is(nodes, volumes, NodeRole::Hull));
    let turret = lack("Turret"@, some_node_is(nodes, volumes, NodeRole::Turret));
    let gun = lack("Gun"@, some_node_is(nodes, volumes, NodeRole::Gun));
    let barrel = lack("Gun_Barrel"@, some_node_is(nodes, volumes, NodeRole::GunBarrel));
    let muzzle = lack("Muzzle"@, some_node_is(nodes, volumes, NodeRole::Muzzle));
    let center = lack("Center_Of_Mass"@, some_node_is(nodes, volumes, NodeRole::CenterOfMass));
    let collider = lack("*Collider_"@, some_node_is(nodes, volumes, NodeRole::Collider));
    let left = lack(
        "Wheel_L*"@,
        some_node_is(nodes, volumes, NodeRole::Roadwheel(TrackSide::Left)),
    );
    let right = lack(
        "Wheel_R*"@,
        some_node_is(nodes, volumes, NodeRole::Roadwheel(TrackSide::Right)),
    );
    lemma_lack("Hull"@, some_node_is(nodes, volumes, NodeRole::Hull), label);
    lemma_lack("Turret"@, some_node_is(nodes, volumes, NodeRole::Turret), label);
    lemma_lack("Gun"@, some_node_is(nodes, volumes, NodeRole::Gun), label);
    lemma_lack("Gun_Barrel"@, some_node_is(nodes, volumes, NodeRole::GunBarrel), label);
    lemma_lack("Muzzle"@, some_node_is(nodes, volumes, NodeRole::Muzzle), label);
    lemma_lack("Center_Of_Mass"@, some_node_is(nodes, volumes, NodeRole::CenterOfMass), label);
    lemma_lack("*Collider_"@, some_node_is(nodes, volumes, NodeRole::Collider), label);
    lemma_lack(
        "Wheel_L*"@,
        some_node_is(nodes, volumes, NodeRole::Roadwheel(TrackSide::Left)),
        label,
    );
    lemma_lack(
        "Wheel_R*"@,
        some_node_is(nodes, volumes, NodeRole::Roadwheel(TrackSide::Right)),
        label,
    );
    lemma_either_contains(hull, turret, label);
    lemma_either_contains(hull + turret, gun, label);
    lemma_either_contains(hull + turret + gun, barrel, label);
    lemma_either_contains(hull + turret + gun + barrel, muzzle, label);
    lemma_either_contains(hull + turret + gun + barrel + muzzle, center, label);
    lemma_either_contains(hull + turret + gun + barrel + muzzle + center, collider, label);
    lemma_either_contains(hull + turret + gun + barrel + muzzle + center + collider, left, label);
    lemma_either_contains(
        hull + turret + gun + barrel + muzzle + center + collider + left,
        right,
        label,
    );
}

/// What the rig lacks is named: a label stands in the list exactly when no node has its role.
pub proof fn law_missing_nodes_are_named(
    nodes: Seq<ModelNode>,
    volumes: Seq<(String, VolumeSpec)>,
)
    ensures
        ({
            let missing = missing_nodes(nodes, volumes);
            let left = NodeRole::Roadwheel(TrackSide::Left);
            let right = NodeRole::Roadwheel(TrackSide::Right);
            &&& missing.contains("Hull"@) <==> !some_node_is(nodes, volumes, NodeRole::Hull)
            &&& missing.contains("Turret"@) <==> !some_node_is(nodes, volumes, NodeRole::Turret)
            &&& missing.contains("Gun"@) <==> !some_node_is(nodes, volumes, NodeRole::Gun)
            &&& missing.contains("Gun_Barrel"@) <==> !some_node_is(
                nodes,
                volumes,
                NodeRole::GunBarrel,
            )
            &&& missing.contains("Muzzle"@) <==> !some_node_is(nodes, volumes, NodeRole::Muzzle)
            &&& missing.contains("Center_Of_Mass"@) <==> !some_node_is(
                nodes,
                volumes,
                NodeRole::CenterOfMass,
            )
            &&& missing.contains("*Collider_"@) <==> !some_node_is(
                nodes,
                volumes,
                NodeRole::Collider,
            )
            &&& missing.contains("Wheel_L*"@) <==> !some_node_is(nodes, volumes, left)
            &&& missing.contains("Wheel_R*"@) <==> !some_node_is(nodes, volumes, right)
        }),
{
    reveal_strlit("Hull");
    reveal_strlit("Turret");
    reveal_strlit("Gun");
    reveal_strlit("Gun_Barrel");
    reveal_strlit("Muzzle");
    reveal_strlit("Center_Of_Mass");
    reveal_strlit("*Collider_");
    reveal_strlit("Wheel_L*");
    reveal_strlit("Wheel_R*");
    assert("Hull"@[0] == 'H' && "Turret"@[0] == 'T' && "Gun"@[0] == 'G' && "Muzzle"@[0] == 'M');
    assert("Gun"@.len() == 3 && "Gun_Barrel"@.len() == 10 && "Gun_Barrel"@[0] == 'G');
    assert("Center_Of_Mass"@[0] == 'C' && "*Collider_"@[0] == '*');
    assert("Wheel_L*"@[0] == 'W' && "Wheel_R*"@[0] == 'W');
    assert("Wheel_L*"@[6] == 'L' && "Wheel_R*"@[6] == 'R');
    lemma_missing_label(nodes, volumes, "Hull"@);
    lemma_missing_label(nodes, volumes, "Turret"@);
    lemma_missing_label(nodes, volumes, "Gun"@);
    lemma_missing_label(nodes, volumes, "Gun_Barrel"@);
    lemma_missing_label(nodes, volumes, "Muzzle"@);
    lemma_missing_label(nodes, volumes, "Center_Of_Mass"@);
    lemma_missing_label(nodes, volumes, "*Collider_"@);
    lemma_missing_label(nodes, volumes, "Wheel_L*"@);
    lemma_missing_label(nodes, volumes, "Wheel_R*"@);
}

/// A declared volume is reported as missing exactly when no node is bound to its name.
pub proof fn law_missing_volumes_are_named(
    nodes: Seq<ModelNode>,
    volumes: Seq<(String, VolumeSpec)>,
    n: nat,
    name: Seq<char>,
)
    requires
        n <= volumes.len(),
    ensures
        missing_volumes(nodes, volumes, n).contains(name) <==> !volume_is_bound(nodes, volumes, name)
            && exists|j: int| 0 <= j < n && #[trigger] volumes[j].0@ == name,
    decreases n,
{
    if n > 0 {
        let own = volumes[n - 1].0@;
        let rest = missing_volumes(nodes, volumes, (n - 1) as nat);
        let present = volume_is_bound(nodes, volumes, own);
        law_missing_volumes_are_named(nodes, volumes, (n - 1) as nat, name);
        lemma_either_contains(rest, lack(own, present), name);
        lemma_lack(own, present, name);
        if exists|j: int| 0 <= j < n && #[trigger] volumes[j].0@ == name {
            let j = choose|j: int| 0 <= j < n && #[trigger] volumes[j].0@ == name;
            assert(j < n - 1 ==> volumes[j].0@ == name);
        }
        if own == name {
            assert(volumes[n - 1].0@ == name);
        }
    }
}

/// A role is found in the model exactly when a node carries its name.
pub proof fn law_roles_are_found_by_name(nodes: Seq<ModelNode>, volumes: Seq<(String, VolumeSpec)>)
    ensures
        some_node_is(nodes, volumes, NodeRole::Hull) <==> exists|i: int|
            0 <= i < nodes.len() && is_named(#[trigger] nodes[i], "Hull"@),
        some_node_is(nodes, volumes, NodeRole::Turret) <==> exists|i: int|
            0 <= i < nodes.len() && is_named(#[trigger] nodes[i], "Turret"@),
        some_node_is(nodes, volumes, NodeRole::Gun) <==> exists|i: int|
            0 <= i < nodes.len() && is_named(#[trigger] nodes[i], "Gun"@),
        some_node_is(nodes, volumes, NodeRole::Muzzle) <==> exists|i: int|
            0 <= i < nodes.len() && is_named(#[trigger] nodes[i], "Muzzle"@),
        some_node_is(nodes, volumes, NodeRole::GunBarrel) <==> exists|i: int|
            0 <= i < nodes.len() && is_named(#[trigger] nodes[i], "Gun_Barrel"@),
        some_node_is(nodes, volumes, NodeRole::CenterOfMass) <==> exists|i: int|
            0 <= i < nodes.len() && is_named(#[trigger] nodes[i], "Center_Of_Mass"@),
{
    lemma_found_by_name(nodes, volumes, NodeRole::Hull, "Hull"@);
    lemma_found_by_name(nodes, volumes, NodeRole::Turret, "Turret"@);
    lemma_found_by_name(nodes, volumes, NodeRole::Gun, "Gun"@);
    lemma_found_by_name(nodes, volumes, NodeRole::Muzzle, "Muzzle"@);
    lemma_found_by_name(nodes, volumes, NodeRole::GunBarrel, "Gun_Barrel"@);
    lemma_found_by_name(nodes, volumes, NodeRole::CenterOfMass, "Center_Of_Mass"@);
}

/// The role is one of the fixed ones, and the name is its.
pub open spec fn names_role(role: NodeRole, name: Seq<char>) -> bool {
    ||| role == NodeRole::Hull && name == "Hull"@
    ||| role == NodeRole::Turret && name == "Turret"@
    ||| role == NodeRole::Gun && name == "Gun"@
    ||| role == NodeRole::Muzzle && name == "Muzzle"@
    ||| role == NodeRole::GunBarrel && name == "Gun_Barrel"@
    ||| role == NodeRole::CenterOfMass && name == "Center_Of_Mass"@
}

proof fn lemma_found_by_name(
    nodes: Seq<ModelNode>,
    volumes: Seq<(String, VolumeSpec)>,
    role: NodeRole,
    name: Seq<char>,
)
    requires
        names_role(role, name),
    ensures
        some_node_is(nodes, volumes, role) <==> exists|i: int|
            0 <= i < nodes.len() && is_named(#[trigger] nodes[i], name),
{
    assert forall|i: int| 0 <= i < nodes.len() implies (node_role(#[trigger] nodes[i], volumes)
        == role <==> is_named(nodes[i], name)) by {
        if let Some(own) = nodes[i].name {
            law_names_decide_the_roles(own@, volumes);
        }
    }
    if some_node_is(nodes, volumes, role) {
        let i = choose|i: int|
            0 <= i < nodes.len() && node_role(#[trigger] nodes[i], volumes) == role;
        assert(is_named(nodes[i], name));
    }
    if exists|i: int| 0 <= i < nodes.len() && is_named(#[trigger] nodes[i], name) {
        let i = choose|i: int| 0 <= i < nodes.len() && is_named(#[trigger] nodes[i], name);
        assert(node_role(nodes[i], volumes) == role);
    }
}

/// A declared volume is bound exactly when a node carries its name, unless the name means something to
/// the rig itself: then no node is a volume under it.
pub proof fn law_volumes_are_bound_by_name(
    nodes: Seq<ModelNode>,
    volumes: Seq<(String, VolumeSpec)>,
    name: Seq<char>,
)
    requires
        volume_named(volumes, name) is Some,
    ensures
        !is_reserved(name) ==> (volume_is_bound(nodes, volumes, name) <==> exists|i: int|
            0 <= i < nodes.len() && is_named(#[trigger] nodes[i], name)),
        is_reserved(name) ==> !volume_is_bound(nodes, volumes, name),
{
    assert forall|i: int| 0 <= i < nodes.len() && is_named(#[trigger] nodes[i], name) implies (
    node_role(nodes[i], volumes) is Volume <==> !is_reserved(name)) by {
        law_the_spec_sheet_says_what_is_a_volume(nodes[i], volumes, name);
    }
    if volume_is_bound(nodes, volumes, name) {
        let i = choose|i: int|
            0 <= i < nodes.len() && is_named(#[trigger] nodes[i], name) && node_role(
                nodes[i],
                volumes,
            ) is Volume;
        assert(is_named(nodes[i], name));
    }
}

/// What is wrong with a model is told in a fixed order: first a volume that has a consequence but no
/// hit points, by the name of the first node that is one; then the nodes that are missing; then the
/// volumes that are.
pub proof fn law_faults_are_told_in_order(
    nodes: Seq<ModelNode>,
    volumes: Seq<(String, VolumeSpec)>,
    outcome: Result<BoundRig, RigError>,
)
    requires
        binding_outcome(nodes, volumes, outcome),
    ensures
        ({
            let offence = exists|i: int| 0 <= i < nodes.len() && offends(#[trigger] nodes[i], volumes);
            let lacking = missing_nodes(nodes, volumes);
            let unbound = missing_volumes(nodes, volumes, volumes.len());
            &&& offence <==> (outcome is Err && outcome->Err_0 is FacetWithoutHealth)
            &&& !offence && lacking.len() > 0 <==> (outcome is Err && outcome->Err_0 is MissingNodes)
            &&& !offence && lacking.len() == 0 && unbound.len() > 0 <==> (outcome is Err
                && outcome->Err_0 is MissingVolumes)
            &&& outcome matches Err(RigError::MissingNodes(labels)) ==> views(labels@) == lacking
            &&& outcome matches Err(RigError::MissingVolumes(names)) ==> views(names@) == unbound
            &&& outcome matches Err(RigError::FacetWithoutHealth(name)) ==> exists|i: int|
                0 <= i < nodes.len() && offends(#[trigger] nodes[i], volumes) && is_named(
                    nodes[i],
                    name@,
                ) && forall|k: int| 0 <= k < i ==> !offends(#[trigger] nodes[k], volumes)
            &&& outcome matches Ok(bound) ==> bound.nodes@ == bound_nodes(nodes, volumes)
        }),
{
}

} // verus!
