//! What a capability requires, and the score of a requirement against the live qualities of the parts.

use crate::binary32::encoding::Binary32;
use crate::binary32::functions::{number, one, zero};
use crate::binary32::laws::{
    at_least_zero, in_unit_range, lemma_adding_zero, lemma_one_is_neutral, lemma_scaled_down,
    lemma_sum_grows, lemma_unit_range_units, lemma_zero_product,
};
use crate::damage::role::Part;
use vstd::prelude::*;

verus! {

/// One contributor of a graded group: its share or ceiling, and the parts it depends on. The
/// qualities of the parts multiply into the coefficient; without parts it stands as it is.
pub type Member = (Binary32, Vec<Part>);

/// A requirement group. All groups of a capability are needed, and the worst one decides.
#[derive(Clone, Debug, PartialEq)]
pub enum Group {
    /// One mandatory part.
    Single(Part),
    /// A group with several ways to be served.
    Graded(GradedGroup),
}

#[derive(Clone, Debug, PartialEq)]
pub enum GradedGroup {
    /// Members that work together: their contributions add up, to one at most.
    Pool(Vec<Member>),
    /// Members that stand in for each other: the best one counts.
    Backup(Vec<Member>),
}

/// A capability's requirement.
pub type Requirement = Vec<Group>;

/// The live quality of each part. A part that nothing serves has quality zero.
#[derive(Clone, Copy, Debug, PartialEq)]
pub struct PartQuality {
    pub commander: Binary32,
    pub gunner: Binary32,
    pub loader: Binary32,
    pub driver: Binary32,
    pub bow_gunner: Binary32,
    pub engine: Binary32,
    pub transmission: Binary32,
    pub breech: Binary32,
    pub gun_barrel: Binary32,
}

impl PartQuality {
    pub open spec fn of(self, part: Part) -> Binary32 {
        match part {
            Part::Commander => self.commander,
            Part::Gunner => self.gunner,
            Part::Loader => self.loader,
            Part::Driver => self.driver,
            Part::BowGunner => self.bow_gunner,
            Part::Engine => self.engine,
            Part::Transmission => self.transmission,
            Part::Breech => self.breech,
            Part::GunBarrel => self.gun_barrel,
        }
    }

    /// No part is served.
    pub fn none() -> (r: PartQuality)
        ensures
            forall|p: Part| #[trigger] r.of(p) == zero(),
    {
        PartQuality {
            commander: zero(),
            gunner: zero(),
            loader: zero(),
            driver: zero(),
            bow_gunner: zero(),
            engine: zero(),
            transmission: zero(),
            breech: zero(),
            gun_barrel: zero(),
        }
    }

    pub fn get(&self, part: Part) -> (r: Binary32)
        ensures
            r == self.of(part),
    {
        match part {
            Part::Commander => self.commander,
            Part::Gunner => self.gunner,
            Part::Loader => self.loader,
            Part::Driver => self.driver,
            Part::BowGunner => self.bow_gunner,
            Part::Engine => self.engine,
            Part::Transmission => self.transmission,
            Part::Breech => self.breech,
            Part::GunBarrel => self.gun_barrel,
        }
    }

    pub fn set(&mut self, part: Part, quality: Binary32)
        ensures
            final(self).of(part) == quality,
            forall|p: Part| p != part ==> #[trigger] final(self).of(p) == old(self).of(p),
    {
        match part {
            Part::Commander => self.commander = quality,
            Part::Gunner => self.gunner = quality,
            Part::Loader => self.loader = quality,
            Part::Driver => self.driver = quality,
            Part::BowGunner => self.bow_gunner = quality,
            Part::Engine => self.engine = quality,
            Part::Transmission => self.transmission = quality,
            Part::Breech => self.breech = quality,
            Part::GunBarrel => self.gun_barrel = quality,
        }
    }
}

/// The coefficient times the qualities of the parts, in order.
pub open spec fn member_score(coefficient: Binary32, parts: Seq<Part>, quality: PartQuality) -> Binary32
    decreases parts.len(),
{
    if parts.len() == 0 {
        coefficient
    } else {
        member_score(coefficient, parts.drop_last(), quality) * quality.of(parts.last())
    }
}

/// The pattern of the zero that a sum starts from: adding it changes no number.
pub const EMPTY_SUM: u32 = 0x8000_0000;

/// The sum of the members' scores, in order.
pub open spec fn pool_sum(members: Seq<Member>, quality: PartQuality) -> Binary32
    decreases members.len(),
{
    if members.len() == 0 {
        number(EMPTY_SUM)
    } else {
        let last = members.last();
        pool_sum(members.drop_last(), quality) + member_score(last.0, last.1@, quality)
    }
}

/// The best of the members' scores, zero at least.
pub open spec fn best_score(members: Seq<Member>, quality: PartQuality) -> Binary32
    decreases members.len(),
{
    if members.len() == 0 {
        zero()
    } else {
        let last = members.last();
        best_score(members.drop_last(), quality).larger(member_score(last.0, last.1@, quality))
    }
}

pub open spec fn group_score(group: Group, quality: PartQuality) -> Binary32 {
    match group {
        Group::Single(part) => quality.of(part),
        Group::Graded(GradedGroup::Pool(members)) => pool_sum(members@, quality).smaller(one()),
        Group::Graded(GradedGroup::Backup(members)) => best_score(members@, quality),
    }
}

/// The score of the worst group, one at most.
pub open spec fn requirement_score(groups: Seq<Group>, quality: PartQuality) -> Binary32
    decreases groups.len(),
{
    if groups.len() == 0 {
        one()
    } else {
        requirement_score(groups.drop_last(), quality).smaller(group_score(groups.last(), quality))
    }
}

fn evaluate_member(member: &Member, quality: &PartQuality) -> (r: Binary32)
    ensures
        r == member_score(member.0, member.1@, *quality),
{
    let parts = &member.1;
    let mut score = member.0;
    let mut i: usize = 0;
    while i < parts.len()
        invariant
            i <= parts.len(),
            score == member_score(member.0, parts@.take(i as int), *quality),
        decreases parts.len() - i,
    {
        assert(parts@.take(i + 1).drop_last() =~= parts@.take(i as int));
        score = score * quality.get(parts[i]);
        i = i + 1;
    }
    assert(parts@.take(i as int) =~= parts@);
    score
}

fn evaluate_group(group: &Group, quality: &PartQuality) -> (r: Binary32)
    ensures
        r == group_score(*group, *quality),
{
    match group {
        Group::Single(part) => quality.get(*part),
        Group::Graded(GradedGroup::Pool(members)) => {
            let mut sum = number(EMPTY_SUM);
            let mut i: usize = 0;
            while i < members.len()
                invariant
                    i <= members.len(),
                    sum == pool_sum(members@.take(i as int), *quality),
                decreases members.len() - i,
            {
                assert(members@.take(i + 1).drop_last() =~= members@.take(i as int));
                sum = sum + evaluate_member(&members[i], quality);
                i = i + 1;
            }
            assert(members@.take(i as int) =~= members@);
            sum.min(one())
        },
        Group::Graded(GradedGroup::Backup(members)) => {
            let mut best = zero();
            let mut i: usize = 0;
            while i < members.len()
                invariant
                    i <= members.len(),
                    best == best_score(members@.take(i as int), *quality),
                decreases members.len() - i,
            {
                assert(members@.take(i + 1).drop_last() =~= members@.take(i as int));
                best = best.max(evaluate_member(&members[i], quality));
                i = i + 1;
            }
            assert(members@.take(i as int) =~= members@);
            best
        },
    }
}

/// The score of a requirement: the worst of its groups.
pub fn evaluate(requirement: &Requirement, quality: &PartQuality) -> (r: Binary32)
    ensures
        r == requirement_score(requirement@, *quality),
        r <= one(),
{
    let mut score = one();
    let mut i: usize = 0;
    while i < requirement.len()
        invariant
            i <= requirement.len(),
            score == requirement_score(requirement@.take(i as int), *quality),
            score <= one(),
        decreases requirement.len() - i,
    {
        assert(requirement@.take(i + 1).drop_last() =~= requirement@.take(i as int));
        score = score.min(evaluate_group(&requirement[i], quality));
        i = i + 1;
    }
    assert(requirement@.take(i as int) =~= requirement@);
    score
}

/// The members' coefficients are numbers that are not below zero.
pub open spec fn sound_members(members: Seq<Member>) -> bool {
    forall|i: int|
        0 <= i < members.len() ==> at_least_zero(#[trigger] members[i].0) && members[i].0.is_finite()
}

pub open spec fn sound_group(group: Group) -> bool {
    match group {
        Group::Single(part) => true,
        Group::Graded(GradedGroup::Pool(members)) => sound_members(members@),
        Group::Graded(GradedGroup::Backup(members)) => sound_members(members@),
    }
}

/// A requirement that a spec sheet may state: no negative and no infinite coefficient.
pub open spec fn sound_requirement(groups: Seq<Group>) -> bool {
    forall|i: int| 0 <= i < groups.len() ==> sound_group(#[trigger] groups[i])
}

/// Qualities from zero to one.
pub open spec fn sound_quality(quality: PartQuality) -> bool {
    forall|p: Part| in_unit_range(#[trigger] quality.of(p))
}

/// No part is of lower quality in `better` than in `worse`.
pub open spec fn no_part_worse(worse: PartQuality, better: PartQuality) -> bool {
    forall|p: Part| #[trigger] worse.of(p) <= better.of(p)
}

proof fn lemma_member_grows(c: Binary32, parts: Seq<Part>, worse: PartQuality, better: PartQuality)
    requires
        at_least_zero(c),
        c.is_finite(),
        sound_quality(worse),
        sound_quality(better),
        no_part_worse(worse, better),
    ensures
        at_least_zero(member_score(c, parts, worse)),
        member_score(c, parts, worse) <= c,
        member_score(c, parts, worse) <= member_score(c, parts, better),
        member_score(c, parts, better) <= c,
    decreases parts.len(),
{
    if parts.len() > 0 {
        let rest = parts.drop_last();
        let p = parts.last();
        lemma_member_grows(c, rest, worse, better);
        lemma_member_grows(c, rest, better, better);
        lemma_scaled_down(
            member_score(c, rest, worse),
            worse.of(p),
            member_score(c, rest, better),
            better.of(p),
        );
        lemma_scaled_down(
            member_score(c, rest, better),
            better.of(p),
            member_score(c, rest, better),
            better.of(p),
        );
    }
}

proof fn lemma_members_grow(members: Seq<Member>, worse: PartQuality, better: PartQuality)
    requires
        sound_members(members),
        sound_quality(worse),
        sound_quality(better),
        no_part_worse(worse, better),
    ensures
        at_least_zero(pool_sum(members, worse)),
        pool_sum(members, worse) <= pool_sum(members, better),
        at_least_zero(best_score(members, worse)),
        best_score(members, worse) <= best_score(members, better),
    decreases members.len(),
{
    if members.len() > 0 {
        let rest = members.drop_last();
        let last = members.last();
        assert(sound_members(rest)) by {
            assert forall|i: int| 0 <= i < rest.len() implies at_least_zero(#[trigger] rest[i].0)
                && rest[i].0.is_finite() by {
                assert(rest[i] == members[i]);
            }
        }
        assert(at_least_zero(members[members.len() - 1].0));
        lemma_members_grow(rest, worse, better);
        lemma_member_grows(last.0, last.1@, worse, better);
        lemma_sum_grows(
            pool_sum(rest, worse),
            member_score(last.0, last.1@, worse),
            pool_sum(rest, better),
            member_score(last.0, last.1@, better),
        );
    }
}

proof fn lemma_group_grows(group: Group, worse: PartQuality, better: PartQuality)
    requires
        sound_group(group),
        sound_quality(worse),
        sound_quality(better),
        no_part_worse(worse, better),
    ensures
        at_least_zero(group_score(group, worse)),
        group_score(group, worse) <= group_score(group, better),
{
    match group {
        Group::Single(part) => {
            assert(in_unit_range(worse.of(part)));
        },
        Group::Graded(GradedGroup::Pool(members)) => {
            lemma_members_grow(members@, worse, better);
        },
        Group::Graded(GradedGroup::Backup(members)) => {
            lemma_members_grow(members@, worse, better);
        },
    }
}

/// A sound requirement scores between zero and one, and no repair or better crewman lowers the score:
/// it grows with the quality of the parts.
pub proof fn law_score_grows_with_quality(
    groups: Seq<Group>,
    worse: PartQuality,
    better: PartQuality,
)
    requires
        sound_requirement(groups),
        sound_quality(worse),
        sound_quality(better),
        no_part_worse(worse, better),
    ensures
        in_unit_range(requirement_score(groups, worse)),
        in_unit_range(requirement_score(groups, better)),
        requirement_score(groups, worse) <= requirement_score(groups, better),
    decreases groups.len(),
{
    if groups.len() > 0 {
        let rest = groups.drop_last();
        assert(sound_requirement(rest)) by {
            assert forall|i: int| 0 <= i < rest.len() implies sound_group(#[trigger] rest[i]) by {
                assert(rest[i] == groups[i]);
            }
        }
        assert(sound_group(groups[groups.len() - 1]));
        law_score_grows_with_quality(rest, worse, better);
        lemma_group_grows(groups.last(), worse, better);
        lemma_group_grows(groups.last(), better, better);
    }
}

/// The worst group decides: the score is never above the score of any group.
pub proof fn law_worst_group_decides(groups: Seq<Group>, quality: PartQuality, i: int)
    requires
        sound_requirement(groups),
        sound_quality(quality),
        0 <= i < groups.len(),
    ensures
        requirement_score(groups, quality) <= group_score(groups[i], quality),
    decreases groups.len(),
{
    let rest = groups.drop_last();
    assert(sound_requirement(rest)) by {
        assert forall|j: int| 0 <= j < rest.len() implies sound_group(#[trigger] rest[j]) by {
            assert(rest[j] == groups[j]);
        }
    }
    assert(sound_group(groups[groups.len() - 1]));
    law_score_grows_with_quality(rest, quality, quality);
    lemma_group_grows(groups.last(), quality, quality);
    if i < groups.len() - 1 {
        assert(rest[i] == groups[i]);
        law_worst_group_decides(rest, quality, i);
    }
}

/// A mandatory part that nothing serves takes the capability away.
pub proof fn law_missing_part_denies(groups: Seq<Group>, quality: PartQuality, i: int, part: Part)
    requires
        sound_requirement(groups),
        sound_quality(quality),
        0 <= i < groups.len(),
        groups[i] == Group::Single(part),
        quality.of(part) == zero(),
    ensures
        requirement_score(groups, quality).same_value(zero()),
{
    law_worst_group_decides(groups, quality, i);
    law_score_grows_with_quality(groups, quality, quality);
}

/// Cooperating members never score above one together.
pub proof fn law_pool_is_capped(members: Vec<Member>, quality: PartQuality)
    ensures
        group_score(Group::Graded(GradedGroup::Pool(members)), quality) <= one(),
{
}

/// A backup group is as good as its best path: at least as good as every path.
pub proof fn law_backup_takes_the_best(members: Seq<Member>, quality: PartQuality, i: int)
    requires
        sound_members(members),
        sound_quality(quality),
        0 <= i < members.len(),
    ensures
        member_score(members[i].0, members[i].1@, quality) <= best_score(members, quality),
        exists|j: int|
            0 <= j < members.len() && best_score(members, quality).same_value(
                #[trigger] member_score(members[j].0, members[j].1@, quality),
            ),
    decreases members.len(),
{
    let rest = members.drop_last();
    let last = members.last();
    let n = members.len() - 1;
    assert forall|j: int| 0 <= j < rest.len() implies at_least_zero(#[trigger] rest[j].0)
        && rest[j].0.is_finite() by {
        assert(rest[j] == members[j]);
    }
    assert(at_least_zero(members[n].0));
    lemma_members_grow(rest, quality, quality);
    lemma_member_grows(last.0, last.1@, quality, quality);
    let last_score = member_score(members[n].0, members[n].1@, quality);
    if rest.len() > 0 {
        let k = if i < n { i } else { 0 };
        law_backup_takes_the_best(rest, quality, k);
        let j = choose|j: int|
            0 <= j < rest.len() && best_score(rest, quality).same_value(
                #[trigger] member_score(rest[j].0, rest[j].1@, quality),
            );
        assert(rest[j] == members[j]);
        assert(rest[k] == members[k]);
        if !(best_score(rest, quality) < last_score) {
            assert(best_score(members, quality).same_value(
                member_score(members[j].0, members[j].1@, quality),
            ));
        } else {
            assert(best_score(members, quality).same_value(last_score));
        }
    } else {
        assert(best_score(members, quality).same_value(last_score));
    }
}

/// A score is a number, one at most.
proof fn lemma_score_is_at_most_one(groups: Seq<Group>, quality: PartQuality)
    ensures
        requirement_score(groups, quality) <= one(),
    decreases groups.len(),
{
    if groups.len() > 0 {
        lemma_score_is_at_most_one(groups.drop_last(), quality);
    }
}

/// All groups are needed: two requirements joined are worth the lesser of the two.
pub proof fn law_joined_requirement_is_the_lesser(
    first: Seq<Group>,
    second: Seq<Group>,
    quality: PartQuality,
)
    ensures
        requirement_score(first + second, quality) == requirement_score(first, quality).smaller(
            requirement_score(second, quality),
        ),
    decreases second.len(),
{
    lemma_score_is_at_most_one(first, quality);
    if second.len() == 0 {
        assert(first + second =~= first);
    } else {
        let rest = second.drop_last();
        law_joined_requirement_is_the_lesser(first, rest, quality);
        lemma_score_is_at_most_one(rest, quality);
        assert((first + second).drop_last() =~= first + rest);
        assert((first + second).last() == second.last());
    }
}

/// A mandatory part is worth the same as a group of that one member at full coefficient.
pub proof fn law_single_is_a_group_of_one(members: Vec<Member>, part: Part, quality: PartQuality)
    requires
        members@.len() == 1,
        members@[0].0 == one(),
        members@[0].1@ == seq![part],
        sound_quality(quality),
    ensures
        group_score(Group::Graded(GradedGroup::Pool(members)), quality).same_value(
            group_score(Group::Single(part), quality),
        ),
        group_score(Group::Graded(GradedGroup::Backup(members)), quality).same_value(
            group_score(Group::Single(part), quality),
        ),
{
    let q = quality.of(part);
    assert(in_unit_range(q));
    reveal_with_fuel(member_score, 2);
    reveal_with_fuel(pool_sum, 2);
    reveal_with_fuel(best_score, 2);
    assert(seq![part].drop_last() =~= seq![]);
    assert(members@.drop_last() =~= seq![]);
    lemma_one_is_neutral(q);
    assert(member_score(one(), seq![part], quality) == q);
    lemma_adding_zero(q, number(EMPTY_SUM));
}

/// A member without parts stands as it is; one more part multiplies the score by that part's quality,
/// whichever parts came before.
pub proof fn law_each_part_multiplies(
    coefficient: Binary32,
    parts: Seq<Part>,
    part: Part,
    quality: PartQuality,
)
    ensures
        member_score(coefficient, seq![], quality) == coefficient,
        member_score(coefficient, parts.push(part), quality) == member_score(
            coefficient,
            parts,
            quality,
        ) * quality.of(part),
{
    assert(parts.push(part).drop_last() =~= parts);
    assert(parts.push(part).last() == part);
}

/// A member of two parts scores its coefficient times both qualities.
pub proof fn law_two_parts_multiply(
    coefficient: Binary32,
    first: Part,
    second: Part,
    quality: PartQuality,
)
    ensures
        member_score(coefficient, seq![first], quality) == coefficient * quality.of(first),
        member_score(coefficient, seq![first, second], quality) == (coefficient * quality.of(first))
            * quality.of(second),
{
    let none = Seq::<Part>::empty();
    law_each_part_multiplies(coefficient, none, first, quality);
    law_each_part_multiplies(coefficient, seq![first], second, quality);
    assert(none.push(first) =~= seq![first]);
    assert(seq![first].push(second) =~= seq![first, second]);
}

/// A zero quality anywhere makes a finite score zero.
proof fn lemma_zero_part(c: Binary32, parts: Seq<Part>, quality: PartQuality, i: int)
    requires
        at_least_zero(c),
        c.is_finite(),
        sound_quality(quality),
        0 <= i < parts.len(),
        quality.of(parts[i]).is_zero(),
    ensures
        member_score(c, parts, quality).is_zero(),
    decreases parts.len(),
{
    let rest = parts.drop_last();
    let p = parts[parts.len() - 1];
    lemma_member_grows(c, rest, quality, quality);
    assert(in_unit_range(quality.of(p)));
    if i < parts.len() - 1 {
        assert(rest[i] == parts[i]);
        lemma_zero_part(c, rest, quality, i);
        lemma_unit_range_units(quality.of(p));
        lemma_zero_product(quality.of(p), member_score(c, rest, quality));
    } else {
        lemma_zero_product(member_score(c, rest, quality), quality.of(p));
    }
}

/// One dead part takes a member away: wherever in the member it stands, a part of quality zero makes
/// the member's score zero.
pub proof fn law_dead_part_takes_the_member_away(
    coefficient: Binary32,
    parts: Seq<Part>,
    quality: PartQuality,
    i: int,
)
    requires
        at_least_zero(coefficient),
        coefficient.is_finite(),
        sound_quality(quality),
        0 <= i < parts.len(),
        quality.of(parts[i]).is_zero(),
    ensures
        member_score(coefficient, parts, quality).same_value(zero()),
{
    lemma_zero_part(coefficient, parts, quality, i);
}

/// A member is no better than its coefficient, and worth exactly that while all its parts are whole.
pub proof fn law_whole_parts_give_the_coefficient(
    coefficient: Binary32,
    parts: Seq<Part>,
    quality: PartQuality,
)
    requires
        coefficient.is_finite(),
        forall|i: int| 0 <= i < parts.len() ==> quality.of(#[trigger] parts[i]) == one(),
    ensures
        member_score(coefficient, parts, quality) == coefficient,
    decreases parts.len(),
{
    if parts.len() > 0 {
        let rest = parts.drop_last();
        assert forall|i: int| 0 <= i < rest.len() implies quality.of(#[trigger] rest[i]) == one() by {
            assert(rest[i] == parts[i]);
        }
        assert(quality.of(parts[parts.len() - 1]) == one());
        law_whole_parts_give_the_coefficient(coefficient, rest, quality);
        lemma_one_is_neutral(coefficient);
    }
}

/// The score of a member depends on the qualities of its own parts alone.
pub proof fn law_member_sees_only_its_parts(
    coefficient: Binary32,
    parts: Seq<Part>,
    first: PartQuality,
    second: PartQuality,
)
    requires
        forall|i: int|
            0 <= i < parts.len() ==> first.of(#[trigger] parts[i]) == second.of(parts[i]),
    ensures
        member_score(coefficient, parts, first) == member_score(coefficient, parts, second),
    decreases parts.len(),
{
    if parts.len() > 0 {
        let rest = parts.drop_last();
        assert forall|i: int| 0 <= i < rest.len() implies first.of(#[trigger] rest[i])
            == second.of(rest[i]) by {
            assert(rest[i] == parts[i]);
        }
        assert(first.of(parts[parts.len() - 1]) == second.of(parts[parts.len() - 1]));
        law_member_sees_only_its_parts(coefficient, rest, first, second);
    }
}

/// The contributions of a pool add up: one more member adds its own score.
pub proof fn law_pool_adds_up(members: Seq<Member>, member: Member, quality: PartQuality)
    ensures
        pool_sum(members.push(member), quality) == pool_sum(members, quality) + member_score(
            member.0,
            member.1@,
            quality,
        ),
        pool_sum(seq![], quality).is_zero(),
{
    assert(members.push(member).drop_last() =~= members);
}

/// A pool of two is worth the sum of both, one at most.
pub proof fn law_pool_of_two(members: Vec<Member>, quality: PartQuality)
    requires
        members@.len() == 2,
        sound_members(members@),
        sound_quality(quality),
    ensures
        ({
            let a = member_score(members@[0].0, members@[0].1@, quality);
            let b = member_score(members@[1].0, members@[1].1@, quality);
            group_score(Group::Graded(GradedGroup::Pool(members)), quality).same_value(
                if a + b <= one() {
                    a + b
                } else {
                    one()
                },
            )
        }),
{
    let (m, n) = (members@[0], members@[1]);
    let none = Seq::<Member>::empty();
    let a = member_score(m.0, m.1@, quality);
    let b = member_score(n.0, n.1@, quality);
    law_pool_adds_up(none, m, quality);
    law_pool_adds_up(none.push(m), n, quality);
    assert(none.push(m).push(n) =~= members@);
    lemma_member_grows(m.0, m.1@, quality, quality);
    lemma_member_grows(n.0, n.1@, quality, quality);
    lemma_adding_zero(a, number(EMPTY_SUM));
    let s = number(EMPTY_SUM) + a;
    lemma_sum_grows(s, b, a, b);
    lemma_sum_grows(a, b, s, b);
}

/// A backup group adds members by taking the better, and is worth nothing without any.
pub proof fn law_backup_adds_the_better(members: Seq<Member>, member: Member, quality: PartQuality)
    ensures
        best_score(members.push(member), quality) == best_score(members, quality).larger(
            member_score(member.0, member.1@, quality),
        ),
        best_score(seq![], quality) == zero(),
{
    assert(members.push(member).drop_last() =~= members);
}

/// A requirement of one group is worth that group, one at most; without any group it is met.
pub proof fn law_requirement_of_one_group(group: Group, quality: PartQuality)
    requires
        group_score(group, quality) <= one(),
    ensures
        requirement_score(seq![group], quality).same_value(group_score(group, quality)),
        requirement_score(seq![], quality) == one(),
{
    reveal_with_fuel(requirement_score, 2);
    assert(seq![group].drop_last() =~= seq![]);
}

/// The score of a requirement is the score of one of its groups, or one.
pub proof fn law_score_is_some_groups_score(groups: Seq<Group>, quality: PartQuality)
    requires
        sound_requirement(groups),
        sound_quality(quality),
    ensures
        requirement_score(groups, quality) == one() || exists|i: int|
            0 <= i < groups.len() && requirement_score(groups, quality) == group_score(
                #[trigger] groups[i],
                quality,
            ),
    decreases groups.len(),
{
    if groups.len() > 0 {
        let rest = groups.drop_last();
        let n = groups.len() - 1;
        assert forall|i: int| 0 <= i < rest.len() implies sound_group(#[trigger] rest[i]) by {
            assert(rest[i] == groups[i]);
        }
        assert(sound_group(groups[n]));
        law_score_grows_with_quality(rest, quality, quality);
        law_score_is_some_groups_score(rest, quality);
        if requirement_score(groups, quality) == requirement_score(rest, quality) {
            if requirement_score(rest, quality) != one() {
                let i = choose|i: int|
                    0 <= i < rest.len() && requirement_score(rest, quality) == group_score(
                        #[trigger] rest[i],
                        quality,
                    );
                assert(groups[i] == rest[i]);
            }
        } else {
            assert(requirement_score(groups, quality) == group_score(groups[n], quality));
        }
    }
}

/// The quality of a part is kept in the field of its name.
pub proof fn law_each_part_has_its_own_quality(quality: PartQuality)
    ensures
        quality.of(Part::Commander) == quality.commander,
        quality.of(Part::Gunner) == quality.gunner,
        quality.of(Part::Loader) == quality.loader,
        quality.of(Part::Driver) == quality.driver,
        quality.of(Part::BowGunner) == quality.bow_gunner,
        quality.of(Part::Engine) == quality.engine,
        quality.of(Part::Transmission) == quality.transmission,
        quality.of(Part::Breech) == quality.breech,
        quality.of(Part::GunBarrel) == quality.gun_barrel,
{
}

} // verus!
