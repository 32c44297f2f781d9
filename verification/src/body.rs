//! Point masses: construction, distance, pairwise gravitational force, and
//! per-body diagnostics.
//!
//! Every executable method is specified against spec-level fixed-point
//! formulas (`dist`, `force_x`, `force_y`, `ke`, ...) so that callers reason
//! about exact integer values.

use vstd::prelude::*;
use crate::fixed::{
    mag, div_t, sqrt_t, is_isqrt, div_trunc, isqrt, lemma_div_t_neg, lemma_div_t_facts,
    lemma_mul_mag, lemma_sqrt_t_is, SCALE, MIN_DIST, MAX_MASS, MAX_G, MAX_VEL, MAX_DT, MAX_ACC,
    MAX_COORD, FORCE_NUM_MAX, FORCE_COMP_MAX, SQRT_IN_MAX, DIST_MAX,
};

verus! {

/// Why a body could not be built.
#[derive(Clone, Copy, Debug, PartialEq, Eq)]
pub enum SimError {
    /// The mass handed to `Body::new` was zero or negative.
    NonPositiveMass,
}

/// A point mass. All scalars are fixed-point: `i128` counts of `1 / SCALE`.
#[derive(Clone, Copy, Debug)]
pub struct Body {
    /// Mass; positive for every constructed body.
    pub mass: i128,
    /// Position components.
    pub position: (i128, i128),
    /// Velocity components.
    pub velocity: (i128, i128),
    /// Display radius; fixed at one whole unit, never used in the physics.
    pub radius: i128,
}

impl Body {
    /// The mass is positive and within the admissible fixed-point range.
    pub open spec fn mass_in_range(self) -> bool {
        1 <= self.mass <= MAX_MASS
    }

    /// Both position components are within the admissible range.
    pub open spec fn pos_in_range(self) -> bool {
        mag(self.position.0 as int) <= MAX_COORD && mag(self.position.1 as int) <= MAX_COORD
    }

    /// Both velocity components are within the admissible range.
    pub open spec fn vel_in_range(self) -> bool {
        mag(self.velocity.0 as int) <= MAX_VEL && mag(self.velocity.1 as int) <= MAX_VEL
    }

    /// The body's scalars lie in the admissible fixed-point ranges.
    pub open spec fn wf(self) -> bool {
        self.mass_in_range() && self.pos_in_range() && self.vel_in_range()
    }
}

/// Position difference, first component, pointing from `a` toward `b`.
pub open spec fn delta_x(a: Body, b: Body) -> int {
    b.position.0 - a.position.0
}

/// Position difference, second component.
pub open spec fn delta_y(a: Body, b: Body) -> int {
    b.position.1 - a.position.1
}

/// Squared distance between the positions of `a` and `b`.
pub open spec fn dist_sq(a: Body, b: Body) -> int {
    delta_x(a, b) * delta_x(a, b) + delta_y(a, b) * delta_y(a, b)
}

/// Distance between `a` and `b`, rounded down to a fixed-point unit.
pub open spec fn dist(a: Body, b: Body) -> int {
    sqrt_t(dist_sq(a, b))
}

/// Distance as used by force evaluation: never below `MIN_DIST`, so the
/// division it enters is always defined.
pub open spec fn dist_clamped(a: Body, b: Body) -> int {
    if dist(a, b) < MIN_DIST {
        MIN_DIST as int
    } else {
        dist(a, b)
    }
}

/// Numerator of Newton's law for the pair: `g * m_a * m_b`.
pub open spec fn force_num(a: Body, b: Body, g: int) -> int {
    g * a.mass * b.mass
}

/// Magnitude of the pairwise force: `g * m_a * m_b / d^2`, truncated.
pub open spec fn force_mag(a: Body, b: Body, g: int) -> int {
    div_t(force_num(a, b, g), dist_clamped(a, b) * dist_clamped(a, b))
}

/// First component of the force on `a` from `b`: the magnitude projected on
/// the unit vector from `a` toward `b`, truncated.
pub open spec fn force_x(a: Body, b: Body, g: int) -> int {
    div_t(force_mag(a, b, g) * delta_x(a, b), dist_clamped(a, b))
}

/// Second component of the force on `a` from `b`.
pub open spec fn force_y(a: Body, b: Body, g: int) -> int {
    div_t(force_mag(a, b, g) * delta_y(a, b), dist_clamped(a, b))
}

/// Kinetic energy of one body: `m * |v|^2 / 2`, truncated to a fixed-point
/// unit.
pub open spec fn ke(b: Body) -> int {
    div_t(
        b.mass * (b.velocity.0 * b.velocity.0 + b.velocity.1 * b.velocity.1),
        2 * SCALE * SCALE,
    )
}

/// First component of one body's linear momentum: `m * v`, truncated.
pub open spec fn momentum_x(b: Body) -> int {
    div_t(b.mass * b.velocity.0, SCALE as int)
}

/// Second component of one body's linear momentum.
pub open spec fn momentum_y(b: Body) -> int {
    div_t(b.mass * b.velocity.1, SCALE as int)
}

/// Facts about pair distances under admissible coordinates: the squared
/// distance is in `isqrt` range, the rounded distance is a true rounded
/// square root, and no single coordinate difference exceeds the clamped
/// distance.
pub proof fn lemma_dist_facts(a: Body, b: Body)
    requires
        a.pos_in_range(),
        b.pos_in_range(),
    ensures
        0 <= dist_sq(a, b) <= SQRT_IN_MAX,
        is_isqrt(dist_sq(a, b), dist(a, b)),
        0 <= dist(a, b) <= DIST_MAX,
        MIN_DIST <= dist_clamped(a, b) <= DIST_MAX,
        mag(delta_x(a, b)) <= dist_clamped(a, b),
        mag(delta_y(a, b)) <= dist_clamped(a, b),
{
    let dx = delta_x(a, b);
    let dy = delta_y(a, b);
    assert(mag(dx) <= 2 * MAX_COORD && mag(dy) <= 2 * MAX_COORD);
    assert(0 <= dx * dx + dy * dy <= SQRT_IN_MAX) by (nonlinear_arith)
        requires
            mag(dx) <= 2 * MAX_COORD,
            mag(dy) <= 2 * MAX_COORD,
    ;
    lemma_sqrt_t_is(dist_sq(a, b));
    let d = dist(a, b);
    assert(d <= DIST_MAX) by (nonlinear_arith)
        requires
            0 <= d,
            d * d <= dist_sq(a, b),
            dist_sq(a, b) <= SQRT_IN_MAX,
    ;
    assert(mag(dx) <= d && mag(dy) <= d) by (nonlinear_arith)
        requires
            dist_sq(a, b) == dx * dx + dy * dy,
            dist_sq(a, b) < (d + 1) * (d + 1),
            0 <= d,
    ;
}

/// The gravitational force obeys Newton's third law exactly: evaluating the
/// pair the other way round negates both components, with no rounding slack.
pub proof fn lemma_force_antisymmetric(a: Body, b: Body, g: int)
    ensures
        force_x(b, a, g) == -force_x(a, b, g),
        force_y(b, a, g) == -force_y(a, b, g),
{
    assert(dist_sq(b, a) == dist_sq(a, b)) by (nonlinear_arith);
    assert(force_num(b, a, g) == force_num(a, b, g)) by (nonlinear_arith);
    let dc = dist_clamped(a, b);
    assert(dist_clamped(b, a) == dc);
    let fm = force_mag(a, b, g);
    assert(force_mag(b, a, g) == fm);
    assert(fm * delta_x(b, a) == -(fm * delta_x(a, b))) by (nonlinear_arith)
        requires
            delta_x(b, a) == -delta_x(a, b),
    ;
    assert(fm * delta_y(b, a) == -(fm * delta_y(a, b))) by (nonlinear_arith)
        requires
            delta_y(b, a) == -delta_y(a, b),
    ;
    lemma_div_t_neg(fm * delta_x(a, b), dc);
    lemma_div_t_neg(fm * delta_y(a, b), dc);
}

/// Bounds on the force terms of an admissible pair, tight enough for every
/// intermediate product to stay far inside `i128`.
pub proof fn lemma_force_bounds(a: Body, b: Body, g: int)
    requires
        a.mass_in_range(),
        b.mass_in_range(),
        a.pos_in_range(),
        b.pos_in_range(),
        mag(g) <= MAX_G,
    ensures
        mag(force_num(a, b, g)) <= FORCE_NUM_MAX,
        mag(force_mag(a, b, g)) <= FORCE_COMP_MAX,
        mag(force_mag(a, b, g) * delta_x(a, b)) <= FORCE_NUM_MAX,
        mag(force_mag(a, b, g) * delta_y(a, b)) <= FORCE_NUM_MAX,
        mag(force_x(a, b, g)) <= FORCE_COMP_MAX,
        mag(force_y(a, b, g)) <= FORCE_COMP_MAX,
        mag(force_x(a, b, g)) * (dist_clamped(a, b) * dist_clamped(a, b)) <= mag(g) * a.mass
            * b.mass,
        mag(force_y(a, b, g)) * (dist_clamped(a, b) * dist_clamped(a, b)) <= mag(g) * a.mass
            * b.mass,
{
    lemma_dist_facts(a, b);
    let dc = dist_clamped(a, b);
    let num = force_num(a, b, g);
    lemma_mul_mag(g, a.mass as int, MAX_G as int, MAX_MASS as int);
    lemma_mul_mag(g * a.mass, b.mass as int, MAX_G * MAX_MASS, MAX_MASS as int);
    assert(mag(num) <= FORCE_NUM_MAX);
    assert(1 <= dc * dc <= DIST_MAX * DIST_MAX) by (nonlinear_arith)
        requires
            MIN_DIST <= dc <= DIST_MAX,
    ;
    let fm = force_mag(a, b, g);
    lemma_div_t_facts(num, dc * dc);
    let mfm = mag(fm);
    assert(mfm <= FORCE_COMP_MAX) by (nonlinear_arith)
        requires
            mfm * (dc * dc) <= mag(num),
            mag(num) <= FORCE_NUM_MAX,
            dc >= MIN_DIST,
            mfm >= 0,
    ;
    lemma_mul_mag(fm, delta_x(a, b), mfm, dc);
    lemma_mul_mag(fm, delta_y(a, b), mfm, dc);
    assert(mfm * dc <= FORCE_NUM_MAX) by (nonlinear_arith)
        requires
            mfm * (dc * dc) <= FORCE_NUM_MAX,
            dc >= 1,
            mfm >= 0,
    ;
    lemma_div_t_facts(fm * delta_x(a, b), dc);
    lemma_div_t_facts(fm * delta_y(a, b), dc);
    let fx = mag(force_x(a, b, g));
    let fy = mag(force_y(a, b, g));
    assert(fx <= mfm && fy <= mfm) by (nonlinear_arith)
        requires
            fx * dc <= mag(fm * delta_x(a, b)),
            fy * dc <= mag(fm * delta_y(a, b)),
            mag(fm * delta_x(a, b)) <= mfm * dc,
            mag(fm * delta_y(a, b)) <= mfm * dc,
            dc >= 1,
    ;
    assert(mag(num) <= mag(g) * a.mass * b.mass) by (nonlinear_arith)
        requires
            num == g * a.mass * b.mass,
            a.mass >= 1,
            b.mass >= 1,
    ;
    assert(fx * (dc * dc) <= mag(g) * a.mass * b.mass && fy * (dc * dc) <= mag(g) * a.mass
        * b.mass) by (nonlinear_arith)
        requires
            fx <= mfm,
            fy <= mfm,
            mfm * (dc * dc) <= mag(num),
            mag(num) <= mag(g) * a.mass * b.mass,
            dc >= 1,
            fx >= 0,
            fy >= 0,
    ;
}

impl Body {
    /// Builds a point mass, rejecting any mass that is zero or negative:
    /// such a body would make the acceleration `F / m` undefined.
    pub fn new(mass: i128, position: (i128, i128), velocity: (i128, i128)) -> (r: Result<
        Body,
        SimError,
    >)
        requires
            mag(mass as int) <= MAX_MASS,
            mag(position.0 as int) <= MAX_COORD,
            mag(position.1 as int) <= MAX_COORD,
            mag(velocity.0 as int) <= MAX_VEL,
            mag(velocity.1 as int) <= MAX_VEL,
        ensures
            (r is Ok <==> mass >= 1),
            r is Ok ==> r->Ok_0 == (Body { mass, position, velocity, radius: SCALE }),
            r is Ok ==> r->Ok_0.wf(),
            r is Err ==> r->Err_0 == SimError::NonPositiveMass,
    {
        if mass <= 0 {
            Err(SimError::NonPositiveMass)
        } else {
            Ok(Body { mass, position, velocity, radius: SCALE })
        }
    }

    /// Euclidean distance to `other`, rounded down to a fixed-point unit.
    pub fn distance_to(&self, other: &Body) -> (r: i128)
        requires
            self.pos_in_range(),
            other.pos_in_range(),
        ensures
            r == dist(*self, *other),
            is_isqrt(dist_sq(*self, *other), r as int),
            0 <= r <= DIST_MAX,
    {
        proof {
            lemma_dist_facts(*self, *other);
        }
        let dx = other.position.0 - self.position.0;
        let dy = other.position.1 - self.position.1;
        proof {
            lemma_mul_mag(dx as int, dx as int, 2 * MAX_COORD, 2 * MAX_COORD);
            lemma_mul_mag(dy as int, dy as int, 2 * MAX_COORD, 2 * MAX_COORD);
        }
        let d2 = dx * dx + dy * dy;
        isqrt(d2)
    }

    /// The gravitational force this body feels from `other`: magnitude
    /// `g * m_self * m_other / d^2` along the direction from `self` toward
    /// `other`, each component truncated to a fixed-point unit. The distance
    /// is clamped to `MIN_DIST`, so the result is defined for coincident
    /// positions too.
    pub fn gravitational_force(&self, other: &Body, gravity: i128) -> (f: (i128, i128))
        requires
            self.mass_in_range(),
            other.mass_in_range(),
            self.pos_in_range(),
            other.pos_in_range(),
            mag(gravity as int) <= MAX_G,
        ensures
            f.0 == force_x(*self, *other, gravity as int),
            f.1 == force_y(*self, *other, gravity as int),
            mag(f.0 as int) <= FORCE_COMP_MAX,
            mag(f.1 as int) <= FORCE_COMP_MAX,
    {
        proof {
            lemma_dist_facts(*self, *other);
            lemma_force_bounds(*self, *other, gravity as int);
            lemma_mul_mag(gravity as int, self.mass as int, MAX_G as int, MAX_MASS as int);
            lemma_mul_mag(
                gravity * self.mass,
                other.mass as int,
                MAX_G * MAX_MASS,
                MAX_MASS as int,
            );
        }
        let d = self.distance_to(other);
        let dc = if d < MIN_DIST {
            MIN_DIST
        } else {
            d
        };
        proof {
            assert(1 <= dc * dc <= DIST_MAX * DIST_MAX) by (nonlinear_arith)
                requires
                    MIN_DIST <= dc <= DIST_MAX,
            ;
        }
        let num = gravity * self.mass * other.mass;
        let fm = div_trunc(num, dc * dc);
        let dx = other.position.0 - self.position.0;
        let dy = other.position.1 - self.position.1;
        let fx = div_trunc(fm * dx, dc);
        let fy = div_trunc(fm * dy, dc);
        (fx, fy)
    }

    /// Semi-implicit Euler update of this single body: the velocity absorbs
    /// the given acceleration over `dt`, then the position advances with the
    /// new velocity.
    pub fn update(&mut self, acceleration: (i128, i128), dt: i128)
        requires
            old(self).pos_in_range(),
            old(self).vel_in_range(),
            mag(acceleration.0 as int) <= MAX_ACC,
            mag(acceleration.1 as int) <= MAX_ACC,
            1 <= dt <= MAX_DT,
        ensures
            final(self).mass == old(self).mass,
            final(self).radius == old(self).radius,
            final(self).velocity.0 == old(self).velocity.0 + div_t(
                acceleration.0 * dt,
                SCALE as int,
            ),
            final(self).velocity.1 == old(self).velocity.1 + div_t(
                acceleration.1 * dt,
                SCALE as int,
            ),
            final(self).position.0 == old(self).position.0 + div_t(
                final(self).velocity.0 * dt,
                SCALE as int,
            ),
            final(self).position.1 == old(self).position.1 + div_t(
                final(self).velocity.1 * dt,
                SCALE as int,
            ),
    {
        proof {
            lemma_mul_mag(acceleration.0 as int, dt as int, MAX_ACC as int, MAX_DT as int);
            lemma_mul_mag(acceleration.1 as int, dt as int, MAX_ACC as int, MAX_DT as int);
            lemma_div_t_facts(acceleration.0 * dt, SCALE as int);
            lemma_div_t_facts(acceleration.1 * dt, SCALE as int);
        }
        self.velocity.0 = self.velocity.0 + div_trunc(acceleration.0 * dt, SCALE);
        self.velocity.1 = self.velocity.1 + div_trunc(acceleration.1 * dt, SCALE);
        proof {
            lemma_mul_mag(
                self.velocity.0 as int,
                dt as int,
                MAX_VEL + (MAX_ACC as int) * (MAX_DT as int) / (SCALE as int),
                MAX_DT as int,
            );
            lemma_mul_mag(
                self.velocity.1 as int,
                dt as int,
                MAX_VEL + (MAX_ACC as int) * (MAX_DT as int) / (SCALE as int),
                MAX_DT as int,
            );
            lemma_div_t_facts(self.velocity.0 * dt, SCALE as int);
            lemma_div_t_facts(self.velocity.1 * dt, SCALE as int);
        }
        self.position.0 = self.position.0 + div_trunc(self.velocity.0 * dt, SCALE);
        self.position.1 = self.position.1 + div_trunc(self.velocity.1 * dt, SCALE);
    }

    /// Kinetic energy `m * |v|^2 / 2`, truncated to a fixed-point unit.
    pub fn get_kinetic_energy(&self) -> (r: i128)
        requires
            self.mass_in_range(),
            self.vel_in_range(),
        ensures
            r == ke(*self),
    {
        proof {
            lemma_mul_mag(self.velocity.0 as int, self.velocity.0 as int, MAX_VEL as int, MAX_VEL as int);
            lemma_mul_mag(self.velocity.1 as int, self.velocity.1 as int, MAX_VEL as int, MAX_VEL as int);
            lemma_mul_mag(
                self.mass as int,
                self.velocity.0 * self.velocity.0 + self.velocity.1 * self.velocity.1,
                MAX_MASS as int,
                2 * MAX_VEL * MAX_VEL,
            );
        }
        div_trunc(
            self.mass * (self.velocity.0 * self.velocity.0 + self.velocity.1 * self.velocity.1),
            2 * SCALE * SCALE,
        )
    }

    /// Linear momentum `m * v`, each component truncated to a fixed-point
    /// unit.
    pub fn get_linear_momentum(&self) -> (p: (i128, i128))
        requires
            self.mass_in_range(),
            self.vel_in_range(),
        ensures
            p.0 == momentum_x(*self),
            p.1 == momentum_y(*self),
    {
        proof {
            lemma_mul_mag(self.mass as int, self.velocity.0 as int, MAX_MASS as int, MAX_VEL as int);
            lemma_mul_mag(self.mass as int, self.velocity.1 as int, MAX_MASS as int, MAX_VEL as int);
        }
        (
            div_trunc(self.mass * self.velocity.0, SCALE),
            div_trunc(self.mass * self.velocity.1, SCALE),
        )
    }
}

} // verus!
