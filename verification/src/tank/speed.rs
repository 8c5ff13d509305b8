//! The speed limit of a servo, and how well rounded steps keep it.

use crate::binary32::encoding::Binary32;
use crate::binary32::error::{
    eps, lemma_exact, lemma_exact_one, lemma_exact_order, lemma_ratio, lemma_root_error,
    lemma_scale, lemma_sum_error, length, near, scale, tiny,
};
use crate::binary32::functions::{number, one, zero, TWO_BITS};
use crate::binary32::laws::{
    at_least_zero, lemma_magnitude_order, lemma_negation, lemma_number_rounds_to_itself,
    lemma_one_is_neutral, lemma_opposite_product, lemma_rounded_rank_is_monotone, lemma_sum,
    lemma_sum_grows, lemma_sum_within,
};
use crate::binary32::precision::{lemma_negated, lemma_small};
use crate::tank::servo::{Motion, ServoSpec};
use vstd::prelude::*;

verus! {

impl ServoSpec {
    /// The velocity is within the speed limit, up to four roundings and four of the least positive
    /// numbers.
    pub open spec fn within_speed(self, velocity: Binary32) -> bool {
        velocity.is_finite() && velocity.size() <= self.speed().size() * (1real + 4real * eps())
            + 8real * tiny()
    }
}

/// The speed limit is kept by every step: a servo that turns within it still does after the step, so it
/// does after any number of steps. A servo that turns no faster than the limit is within it.
pub proof fn law_speed_limit_is_kept(
    spec: ServoSpec,
    motion: Motion,
    target: Binary32,
    dt: Binary32,
)
    requires
        spec.steppable(motion, target, dt),
        at_least_zero(spec.speed()),
        (spec.speed() + spec.speed()).is_finite(),
        (spec.acceleration() * dt).is_finite(),
        !spec.lead(motion, target).is_nan(),
        motion.velocity.absolute() <= spec.speed() || spec.within_speed(motion.velocity),
    ensures
        spec.within_speed(spec.stepped(motion, target, dt).velocity),
{
    lemma_next_velocity(spec, motion, target, dt);
    lemma_finite_speed(spec.speed());
    lemma_wanted_speed(spec, motion, target);
    lemma_kept(
        spec,
        motion.velocity,
        spec.wanted_velocity(motion, target),
        spec.acceleration() * dt,
        spec.stepped(motion, target, dt).velocity,
        spec.arrives(motion, target, dt),
    );
}

/// A step stops the servo, or adds the change to its velocity.
proof fn lemma_next_velocity(spec: ServoSpec, motion: Motion, target: Binary32, dt: Binary32)
    ensures
        ({
            let next = spec.stepped(motion, target, dt).velocity;
            let most = spec.acceleration() * dt;
            let w = spec.wanted_velocity(motion, target);
            let slewed = motion.velocity + (w - motion.velocity).clamped(-most, most);
            next == zero() || (next == slewed && !spec.arrives(motion, target, dt))
        }),
{
}

proof fn lemma_kept(
    spec: ServoSpec,
    v: Binary32,
    w: Binary32,
    most: Binary32,
    next: Binary32,
    arrives: bool,
)
    requires
        at_least_zero(spec.speed()),
        (spec.speed() + spec.speed()).is_finite(),
        spec.speed().is_finite(),
        most.is_finite(),
        arrives || -most <= most,
        v.absolute() <= spec.speed() || spec.within_speed(v),
        w.is_finite(),
        w.size() <= spec.speed().size(),
        next == zero() || (next == v + (w - v).clamped(-most, most) && !arrives),
    ensures
        spec.within_speed(next),
{
    let s = spec.speed();
    lemma_small();
    lemma_exact(s);
    lemma_exact(zero());
    lemma_slack(s.size());
    if next != zero() {
        if v.absolute() <= s {
            lemma_within_limit(v, s);
        }
        lemma_slewed(spec, v, w, most);
    }
}

/// A velocity whose size is at most the limit.
proof fn lemma_within_limit(v: Binary32, s: Binary32)
    requires
        s.is_finite(),
        at_least_zero(s),
        v.absolute() <= s,
    ensures
        v.is_finite(),
        v.size() <= s.size(),
{
    lemma_magnitude_order(v.index(), s.index());
    lemma_sizes(v, s);
}

/// A limit that can be doubled is finite.
proof fn lemma_finite_speed(s: Binary32)
    requires
        at_least_zero(s),
        (s + s).is_finite(),
    ensures
        s.is_finite(),
{
}

proof fn lemma_slack(s: real)
    requires
        s >= 0real,
    ensures
        s <= s * (1real + 4real * eps()),
{
    let e = eps();
    assert(s <= s * (1real + 4real * e)) by (nonlinear_arith)
        requires
            s >= 0real,
            e == 1real / 16777216real,
    ;
}

/// The wanted velocity is within the limit.
proof fn lemma_wanted_speed(spec: ServoSpec, motion: Motion, target: Binary32)
    requires
        at_least_zero(spec.speed()),
        spec.speed().is_finite(),
        !spec.lead(motion, target).is_nan(),
    ensures
        spec.wanted_velocity(motion, target).is_finite(),
        spec.wanted_velocity(motion, target).size() <= spec.speed().size(),
{
    let lead = spec.lead(motion, target);
    let braking = number(TWO_BITS) * spec.acceleration() * lead.absolute();
    lemma_root_is_not_negative(braking);
    lemma_signed_speed(lead, braking.root(), spec.speed());
}

/// A speed held to the limit, with a sign.
proof fn lemma_signed_speed(lead: Binary32, root: Binary32, limit: Binary32)
    requires
        !lead.is_nan(),
        root.is_nan() || at_least_zero(root),
        at_least_zero(limit),
        limit.is_finite(),
    ensures
        (lead.sign() * root.smaller(limit)).is_finite(),
        (lead.sign() * root.smaller(limit)).size() <= limit.size(),
{
    let speed = root.smaller(limit);
    assert(speed.is_finite() && at_least_zero(speed) && speed <= limit);
    lemma_magnitude_order(speed.index(), limit.index());
    lemma_sizes(speed, limit);
    lemma_signed(lead, speed);
}

proof fn lemma_signed(lead: Binary32, speed: Binary32)
    requires
        !lead.is_nan(),
        speed.is_finite(),
    ensures
        lead.sign() * speed == speed || lead.sign() * speed == -speed,
        (-speed).is_finite(),
{
    lemma_one_is_neutral(speed);
    lemma_opposite_product(one(), speed);
    lemma_negation(speed);
    assert(lead.sign() == one() || lead.sign() == -one());
}

proof fn lemma_sizes(a: Binary32, b: Binary32)
    requires
        a.units() <= b.units(),
    ensures
        a.size() <= b.size(),
        (-a).size() <= b.size(),
{
    lemma_scale();
    lemma_negation(a);
    let x = a.units() as real;
    let y = b.units() as real;
    let w = scale();
    assert(x / w <= y / w) by (nonlinear_arith)
        requires
            x <= y,
            w > 0real,
    ;
}

/// A root is not below zero.
pub proof fn lemma_root_is_not_negative(x: Binary32)
    ensures
        x.root().is_nan() || at_least_zero(x.root()),
{
    if x.is_finite() && (x.is_zero() || !x.negative()) {
        lemma_root_error(x);
    }
}

/// A velocity after the change towards a wanted one.
proof fn lemma_slewed(spec: ServoSpec, v: Binary32, w: Binary32, most: Binary32)
    requires
        at_least_zero(spec.speed()),
        (spec.speed() + spec.speed()).is_finite(),
        spec.within_speed(v),
        w.is_finite(),
        w.size() <= spec.speed().size(),
        most.is_finite(),
        -most <= most,
    ensures
        spec.within_speed(v + (w - v).clamped(-most, most)),
{
    let s = spec.speed();
    let c = (w - v).clamped(-most, most);
    lemma_small();
    lemma_finite_speed(s);
    lemma_exact(s);
    lemma_exact(v);
    lemma_exact(w);
    lemma_change(v, w, most);
    lemma_exact(c);
    let sum = v.exact() + c.exact();
    lemma_between(v.exact(), w.exact(), c.exact(), s.size(), eps(), tiny());
    if length(sum) <= v.size() {
        lemma_sum_stays(v, c);
    } else {
        lemma_modest_sum(v, c, s);
        lemma_sum_error(v, c);
        lemma_exact(v + c);
        lemma_rounded_bound((v + c).size(), length(sum), s.size(), eps(), tiny());
    }
}

/// The change is a finite number that leads from the velocity towards the wanted one, no further than
/// the rounded difference.
proof fn lemma_change(v: Binary32, w: Binary32, most: Binary32)
    requires
        v.is_finite(),
        w.is_finite(),
        most.is_finite(),
        -most <= most,
    ensures
        ({
            let c = (w - v).clamped(-most, most);
            &&& c.is_finite()
            &&& toward(v.exact(), w.exact(), c.exact())
        }),
{
    let d = w - v;
    let c = d.clamped(-most, most);
    lemma_small();
    lemma_negated(v);
    lemma_negated(most);
    lemma_sum(w, -v);
    lemma_exact_order(-most, most);
    lemma_exact(most);
    if d.is_finite() {
        lemma_sum_error(w, -v);
        lemma_exact_order(d, -most);
        lemma_exact_order(most, d);
        lemma_exact(d);
        assert(near(d.exact(), w.exact() - v.exact()));
    } else {
        lemma_overflow(w, v, most);
    }
}

/// The change is part of the rounded way from `v` to `w`, or does not lead past `w`.
spec fn toward(v: real, w: real, c: real) -> bool {
    ||| exists|d: real|
        #[trigger] near(d, w - v) && (0real <= c <= d || d <= c <= 0real)
    ||| 0real <= c <= w - v
    ||| w - v <= c <= 0real
}

/// A difference that overflows is larger than any finite number.
proof fn lemma_overflow(w: Binary32, v: Binary32, most: Binary32)
    requires
        w.is_finite(),
        v.is_finite(),
        most.is_finite(),
        (w - v).is_infinite(),
    ensures
        (w - v).negative() ==> w.exact() - v.exact() <= -most.exact(),
        !(w - v).negative() ==> most.exact() <= w.exact() - v.exact(),
{
    let x = w.value() - v.value();
    let m = most.value();
    lemma_negation(v);
    lemma_negation(most);
    lemma_sum(w, -v);
    lemma_number_rounds_to_itself(most);
    lemma_number_rounds_to_itself(-most);
    if x <= m {
        lemma_rounded_rank_is_monotone(x, m);
    }
    if x >= -m {
        lemma_rounded_rank_is_monotone(-m, x);
    }
    lemma_scale();
    lemma_differences(w.value(), v.value(), m);
}

proof fn lemma_differences(w: int, v: int, m: int)
    ensures
        m <= w - v ==> m as real / scale() <= w as real / scale() - v as real / scale(),
        w - v <= -m ==> w as real / scale() - v as real / scale() <= -(m as real / scale()),
{
    lemma_scale();
    let a = w as real;
    let b = v as real;
    let c = m as real;
    let s = scale();
    let x = a / s;
    let y = b / s;
    let z = c / s;
    lemma_ratio(a, s);
    lemma_ratio(b, s);
    lemma_ratio(c, s);
    if m <= w - v {
        assert(z <= x - y) by (nonlinear_arith)
            requires
                z * s <= x * s - y * s,
                s > 0real,
        ;
    }
    if w - v <= -m {
        assert(x - y <= -z) by (nonlinear_arith)
            requires
                x * s - y * s <= -(z * s),
                s > 0real,
        ;
    }
}

/// A velocity with part of the way to a wanted one added is no larger than it was, or hardly larger
/// than the limit.
proof fn lemma_between(v: real, w: real, c: real, s: real, e: real, t: real)
    requires
        toward(v, w, c),
        length(v) <= s * (1real + 4real * e) + 8real * t,
        length(w) <= s,
        e == eps(),
        t == tiny(),
        t > 0real,
    ensures
        length(v + c) <= length(v) || length(v + c) <= s * (1real + 5real / 2real * e) + 2real * t,
{
    lemma_slack(s);
    assert(s <= s * (1real + 5real / 2real * e)) by (nonlinear_arith)
        requires
            s >= 0real,
            e == 1real / 16777216real,
    ;
    if exists|d: real| #[trigger] near(d, w - v) && (0real <= c <= d || d <= c <= 0real) {
        let d = choose|d: real|
            #[trigger] near(d, w - v) && (0real <= c <= d || d <= c <= 0real);
        let y = length(d);
        let off = length(d - (w - v));
        assert(s * (1real + 4real * e) == s + 4real * e * s) by (nonlinear_arith);
        assert(off <= 5real / 2real * e * s + 2real * t) by (nonlinear_arith)
            requires
                off <= e * y + t,
                y <= off + 2real * s + 4real * e * s + 8real * t,
                s >= 0real,
                t > 0real,
                e == 1real / 16777216real,
        ;
        assert(s * (1real + 5real / 2real * e) == s + 5real / 2real * e * s) by (nonlinear_arith);
    }
}

/// A sum that is no larger than its first term does not become so by rounding.
proof fn lemma_sum_stays(v: Binary32, c: Binary32)
    requires
        v.is_finite(),
        c.is_finite(),
        length(v.exact() + c.exact()) <= v.size(),
    ensures
        (v + c).is_finite(),
        (v + c).size() <= v.size(),
{
    let a = v.absolute();
    lemma_exact(v);
    lemma_exact(a);
    assert(a.units() == v.units());
    lemma_bounded_sum(v, c, a);
}

/// A sum whose size is at most that of a finite number.
proof fn lemma_bounded_sum(v: Binary32, c: Binary32, a: Binary32)
    requires
        v.is_finite(),
        c.is_finite(),
        a.is_finite(),
        !a.negative(),
        length(v.exact() + c.exact()) <= a.size(),
    ensures
        (v + c).is_finite(),
        (v + c).size() <= a.size(),
{
    lemma_exact(a);
    lemma_negated(a);
    lemma_sum_in_units(v.value(), c.value(), a.value());
    lemma_negation(a);
    lemma_sum_within(v, c, -a, a);
    lemma_exact_order(v + c, a);
    lemma_exact_order(-a, v + c);
    lemma_exact(v + c);
}

proof fn lemma_sum_in_units(v: int, c: int, a: int)
    requires
        length(v as real / scale() + c as real / scale()) <= a as real / scale(),
    ensures
        -a <= v + c <= a,
{
    lemma_scale();
    let s = scale();
    let x = v as real / s;
    let y = c as real / s;
    let z = a as real / s;
    lemma_ratio(v as real, s);
    lemma_ratio(c as real, s);
    lemma_ratio(a as real, s);
    assert(x * s + y * s <= z * s && -(z * s) <= x * s + y * s) by (nonlinear_arith)
        requires
            x + y <= z,
            -z <= x + y,
            s > 0real,
    ;
}

/// A sum that is hardly larger than the limit does not overflow.
proof fn lemma_modest_sum(v: Binary32, c: Binary32, s: Binary32)
    requires
        v.is_finite(),
        c.is_finite(),
        at_least_zero(s),
        (s + s).is_finite(),
        length(v.exact() + c.exact()) <= s.size() * (1real + 5real / 2real * eps()) + 2real * tiny(),
    ensures
        (v + c).is_finite(),
{
    lemma_small();
    lemma_finite_speed(s);
    lemma_exact(s);
    lemma_exact_one();
    lemma_sum_error(s, s);
    lemma_exact(s + s);
    lemma_sum_grows(s, s, s, s);
    let e = eps();
    let t = tiny();
    let x = s.size();
    let y = (s + s).size();
    let b = x * (1real + 5real / 2real * e) + 2real * t;
    let double = s + s;
    if x >= 1real / 2real {
        assert(s.exact() == x);
        assert(!double.negative()) by {
            lemma_exact_order(zero(), double);
        }
        assert(b <= y) by (nonlinear_arith)
            requires
                b == x * (1real + 5real / 2real * e) + 2real * t,
                2real * x - y <= e * y + t,
                x >= 1real / 2real,
                e == 1real / 16777216real,
                0real < t <= e * e,
        ;
        lemma_bounded_sum(v, c, double);
    } else {
        assert(b <= 1real) by (nonlinear_arith)
            requires
                b == x * (1real + 5real / 2real * e) + 2real * t,
                0real <= x < 1real / 2real,
                e == 1real / 16777216real,
                0real < t <= e * e,
        ;
        lemma_bounded_sum(v, c, one());
    }
}

/// What rounding adds to a sum that is hardly larger than the limit.
proof fn lemma_rounded_bound(r: real, x: real, s: real, e: real, t: real)
    requires
        r - x <= e * r + t,
        x <= s * (1real + 5real / 2real * e) + 2real * t,
        s >= 0real,
        e == 1real / 16777216real,
        t > 0real,
    ensures
        r <= s * (1real + 4real * e) + 8real * t,
{
    assert(r <= s * (1real + 4real * e) + 8real * t) by (nonlinear_arith)
        requires
            r - x <= e * r + t,
            x <= s * (1real + 5real / 2real * e) + 2real * t,
            s >= 0real,
            e == 1real / 16777216real,
            t > 0real,
    ;
}

} // verus!
