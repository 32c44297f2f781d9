//! The simulation state: an ordered collection of bodies plus the global
//! constants, advanced by velocity-Verlet integration, with energy and
//! momentum diagnostics.

use vstd::prelude::*;
use crate::fixed::{
    mag, div_t, div_trunc, lemma_div_t_neg, lemma_div_t_facts, lemma_div_t_le, lemma_mul_mag,
    SCALE, MIN_DIST, MAX_MASS, MAX_G, MAX_VEL, MAX_DT, MAX_COORD, MAX_BODIES, FORCE_NUM_MAX,
    FORCE_COMP_MAX, PAIR_ACCEL_MAX, ACCEL_MAX, KE_MAX, PE_PAIR_MAX, DIST_MAX,
};
use crate::body::{
    Body, ke, force_num, force_x, force_y, dist_clamped, lemma_dist_facts,
    lemma_force_bounds, lemma_force_antisymmetric,
};

verus! {

/// Every body of the sequence is admissible.
pub open spec fn all_wf(bodies: Seq<Body>) -> bool {
    forall|i: int| 0 <= i < bodies.len() ==> (#[trigger] bodies[i]).wf()
}

/// Acceleration contribution of `b` on `a`, first component: the force
/// component scaled to an acceleration, `F_x * SCALE / m_a`, truncated.
pub open spec fn pair_ax(a: Body, b: Body, g: int) -> int {
    div_t(force_x(a, b, g) * SCALE, a.mass as int)
}

/// Acceleration contribution of `b` on `a`, second component.
pub open spec fn pair_ay(a: Body, b: Body, g: int) -> int {
    div_t(force_y(a, b, g) * SCALE, a.mass as int)
}

/// Partial net acceleration on body `k`: contributions of the bodies with
/// index below `j`, skipping `k` itself. First component.
pub open spec fn accel_x_prefix(bodies: Seq<Body>, g: int, k: int, j: int) -> int
    decreases j,
{
    if j <= 0 {
        0
    } else if j - 1 == k {
        accel_x_prefix(bodies, g, k, j - 1)
    } else {
        accel_x_prefix(bodies, g, k, j - 1) + pair_ax(bodies[k], bodies[j - 1], g)
    }
}

/// Partial net acceleration on body `k`, second component.
pub open spec fn accel_y_prefix(bodies: Seq<Body>, g: int, k: int, j: int) -> int
    decreases j,
{
    if j <= 0 {
        0
    } else if j - 1 == k {
        accel_y_prefix(bodies, g, k, j - 1)
    } else {
        accel_y_prefix(bodies, g, k, j - 1) + pair_ay(bodies[k], bodies[j - 1], g)
    }
}

/// Net acceleration on body `k` from every other body, first component.
pub open spec fn accel_x(bodies: Seq<Body>, g: int, k: int) -> int {
    accel_x_prefix(bodies, g, k, bodies.len() as int)
}

/// Net acceleration on body `k`, second component.
pub open spec fn accel_y(bodies: Seq<Body>, g: int, k: int) -> int {
    accel_y_prefix(bodies, g, k, bodies.len() as int)
}

/// One position component after half a Verlet step:
/// `x + v*dt + a*dt^2/2`, each product truncated to a fixed-point unit.
pub open spec fn pos_step(x: int, v: int, a: int, dt: int) -> int {
    x + div_t(v * dt, SCALE as int) + div_t(div_t(a * dt, SCALE as int) * dt, 2 * SCALE)
}

/// One velocity component after a full Verlet step:
/// `v + (a_old + a_new)*dt/2`, truncated.
pub open spec fn vel_step(v: int, a1: int, a2: int, dt: int) -> int {
    v + div_t((a1 + a2) * dt, 2 * SCALE)
}

/// First position component of body `i` after the position phase of a step.
pub open spec fn moved_pos_x(bodies: Seq<Body>, g: int, dt: int, i: int) -> int {
    pos_step(
        bodies[i].position.0 as int,
        bodies[i].velocity.0 as int,
        accel_x(bodies, g, i),
        dt,
    )
}

/// Second position component of body `i` after the position phase.
pub open spec fn moved_pos_y(bodies: Seq<Body>, g: int, dt: int, i: int) -> int {
    pos_step(
        bodies[i].position.1 as int,
        bodies[i].velocity.1 as int,
        accel_y(bodies, g, i),
        dt,
    )
}

/// Body `i` after the position phase: position advanced, velocity and mass
/// untouched.
pub open spec fn moved_body(bodies: Seq<Body>, g: int, dt: int, i: int) -> Body {
    Body {
        position: (
            moved_pos_x(bodies, g, dt, i) as i128,
            moved_pos_y(bodies, g, dt, i) as i128,
        ),
        ..bodies[i]
    }
}

/// The whole collection after the position phase.
pub open spec fn moved_seq(bodies: Seq<Body>, g: int, dt: int) -> Seq<Body> {
    Seq::new(bodies.len(), |i: int| moved_body(bodies, g, dt, i))
}

/// The positions reached inside one step stay within the admissible
/// coordinate range, so the second force evaluation of the step operates on
/// admissible bodies. This is the one machine limit `step` asks its caller
/// for.
pub open spec fn step_in_range(bodies: Seq<Body>, g: int, dt: int) -> bool {
    forall|i: int|
        0 <= i < bodies.len() ==> mag(#[trigger] moved_pos_x(bodies, g, dt, i)) <= MAX_COORD
            && mag(#[trigger] moved_pos_y(bodies, g, dt, i)) <= MAX_COORD
}

/// First velocity component of body `i` after a full step: the average of
/// the accelerations before and after the position phase, applied over `dt`.
pub open spec fn stepped_vx(bodies: Seq<Body>, g: int, dt: int, i: int) -> int {
    vel_step(
        bodies[i].velocity.0 as int,
        accel_x(bodies, g, i),
        accel_x(moved_seq(bodies, g, dt), g, i),
        dt,
    )
}

/// Second velocity component of body `i` after a full step.
pub open spec fn stepped_vy(bodies: Seq<Body>, g: int, dt: int, i: int) -> int {
    vel_step(
        bodies[i].velocity.1 as int,
        accel_y(bodies, g, i),
        accel_y(moved_seq(bodies, g, dt), g, i),
        dt,
    )
}

/// Sum of the kinetic energies of the bodies with index below `i`.
pub open spec fn ke_prefix(bodies: Seq<Body>, i: int) -> int
    decreases i,
{
    if i <= 0 {
        0
    } else {
        ke_prefix(bodies, i - 1) + ke(bodies[i - 1])
    }
}

/// Total kinetic energy of the collection.
pub open spec fn total_ke(bodies: Seq<Body>) -> int {
    ke_prefix(bodies, bodies.len() as int)
}

/// Potential energy of one unordered pair: `-g * m_a * m_b / d`, truncated,
/// with the distance clamped exactly as in force evaluation.
pub open spec fn pe_pair(a: Body, b: Body, g: int) -> int {
    -div_t(force_num(a, b, g), SCALE * dist_clamped(a, b))
}

/// Sum of `pe_pair(bodies[i], bodies[q], g)` for `i < q < j`.
pub open spec fn pe_inner(bodies: Seq<Body>, g: int, i: int, j: int) -> int
    decreases j - i,
{
    if j <= i + 1 {
        0
    } else {
        pe_inner(bodies, g, i, j - 1) + pe_pair(bodies[i], bodies[j - 1], g)
    }
}

/// Sum of the pair potentials of all pairs whose lower index is below `i`.
pub open spec fn pe_outer(bodies: Seq<Body>, g: int, i: int) -> int
    decreases i,
{
    if i <= 0 {
        0
    } else {
        pe_outer(bodies, g, i - 1) + pe_inner(bodies, g, i - 1, bodies.len() as int)
    }
}

/// Total potential energy: the sum over all unordered pairs.
pub open spec fn total_pe(bodies: Seq<Body>, g: int) -> int {
    pe_outer(bodies, g, bodies.len() as int)
}

/// Total energy: kinetic plus potential.
pub open spec fn total_energy_spec(bodies: Seq<Body>, g: int) -> int {
    total_ke(bodies) + total_pe(bodies, g)
}

/// One pairwise acceleration contribution of an admissible pair is bounded
/// by `PAIR_ACCEL_MAX`.
pub proof fn lemma_pair_accel_bound(a: Body, b: Body, g: int)
    requires
        a.wf(),
        b.wf(),
        mag(g) <= MAX_G,
    ensures
        mag(pair_ax(a, b, g)) <= PAIR_ACCEL_MAX,
        mag(pair_ay(a, b, g)) <= PAIR_ACCEL_MAX,
{
    lemma_dist_facts(a, b);
    lemma_force_bounds(a, b, g);
    let dc = dist_clamped(a, b);
    let fx = force_x(a, b, g);
    let fy = force_y(a, b, g);
    lemma_mul_mag(fx, SCALE as int, mag(fx), SCALE as int);
    lemma_mul_mag(fy, SCALE as int, mag(fy), SCALE as int);
    lemma_div_t_facts(fx * SCALE, a.mass as int);
    lemma_div_t_facts(fy * SCALE, a.mass as int);
    let pax = mag(pair_ax(a, b, g));
    let pay = mag(pair_ay(a, b, g));
    assert(pax <= PAIR_ACCEL_MAX && pay <= PAIR_ACCEL_MAX) by (nonlinear_arith)
        requires
            pax * a.mass <= mag(fx) * SCALE,
            pay * a.mass <= mag(fy) * SCALE,
            mag(fx) * (dc * dc) <= mag(g) * a.mass * b.mass,
            mag(fy) * (dc * dc) <= mag(g) * a.mass * b.mass,
            mag(g) <= MAX_G,
            1 <= a.mass,
            b.mass <= MAX_MASS,
            b.mass >= 1,
            dc >= MIN_DIST,
            pax >= 0,
            pay >= 0,
            mag(fx) >= 0,
            mag(fy) >= 0,
            mag(g) >= 0,
    ;
}

/// Partial net accelerations of an admissible collection are bounded by
/// `j * PAIR_ACCEL_MAX`, hence by `ACCEL_MAX`.
pub proof fn lemma_accel_prefix_bound(bodies: Seq<Body>, g: int, k: int, j: int)
    requires
        all_wf(bodies),
        bodies.len() <= MAX_BODIES,
        mag(g) <= MAX_G,
        0 <= k < bodies.len(),
        0 <= j <= bodies.len(),
    ensures
        mag(accel_x_prefix(bodies, g, k, j)) <= j * PAIR_ACCEL_MAX,
        mag(accel_y_prefix(bodies, g, k, j)) <= j * PAIR_ACCEL_MAX,
        mag(accel_x_prefix(bodies, g, k, j)) <= ACCEL_MAX,
        mag(accel_y_prefix(bodies, g, k, j)) <= ACCEL_MAX,
    decreases j,
{
    if j <= 0 {
    } else {
        lemma_accel_prefix_bound(bodies, g, k, j - 1);
        if j - 1 != k {
            lemma_pair_accel_bound(bodies[k], bodies[j - 1], g);
        }
    }
}

/// One body's kinetic energy is nonnegative and bounded by `KE_MAX`.
pub proof fn lemma_ke_bound(b: Body)
    requires
        b.wf(),
    ensures
        0 <= ke(b) <= KE_MAX,
{
    let v2 = b.velocity.0 * b.velocity.0 + b.velocity.1 * b.velocity.1;
    lemma_mul_mag(b.velocity.0 as int, b.velocity.0 as int, MAX_VEL as int, MAX_VEL as int);
    lemma_mul_mag(b.velocity.1 as int, b.velocity.1 as int, MAX_VEL as int, MAX_VEL as int);
    assert(b.velocity.0 * b.velocity.0 + b.velocity.1 * b.velocity.1 >= 0) by (nonlinear_arith);
    lemma_mul_mag(b.mass as int, v2, MAX_MASS as int, 2 * MAX_VEL * MAX_VEL);
    lemma_div_t_le(b.mass * v2, 2 * SCALE * SCALE, KE_MAX as int);
    assert(b.mass * v2 >= 0) by (nonlinear_arith)
        requires
            b.mass >= 1,
            v2 >= 0,
    ;
    lemma_div_t_facts(b.mass * v2, 2 * SCALE * SCALE);
    vstd::arithmetic::div_mod::lemma_div_pos_is_pos(b.mass * v2, 2 * SCALE * SCALE);
}

/// Kinetic-energy prefix sums are nonnegative and bounded.
pub proof fn lemma_ke_prefix_bound(bodies: Seq<Body>, i: int)
    requires
        all_wf(bodies),
        0 <= i <= bodies.len(),
    ensures
        0 <= ke_prefix(bodies, i) <= i * KE_MAX,
    decreases i,
{
    if i > 0 {
        lemma_ke_prefix_bound(bodies, i - 1);
        lemma_ke_bound(bodies[i - 1]);
    }
}

/// One pair's potential energy is bounded by `PE_PAIR_MAX` in magnitude.
pub proof fn lemma_pe_pair_bound(a: Body, b: Body, g: int)
    requires
        a.wf(),
        b.wf(),
        mag(g) <= MAX_G,
    ensures
        mag(pe_pair(a, b, g)) <= PE_PAIR_MAX,
{
    lemma_dist_facts(a, b);
    let dc = dist_clamped(a, b);
    let num = force_num(a, b, g);
    lemma_mul_mag(g, a.mass as int, MAX_G as int, MAX_MASS as int);
    lemma_mul_mag(g * a.mass, b.mass as int, MAX_G * MAX_MASS, MAX_MASS as int);
    assert(mag(num) <= PE_PAIR_MAX * (SCALE * dc) && SCALE * dc >= 1) by (nonlinear_arith)
        requires
            mag(num) <= FORCE_NUM_MAX,
            dc >= MIN_DIST,
    ;
    lemma_div_t_le(num, SCALE * dc, PE_PAIR_MAX as int);
}

/// Inner potential-energy sums are bounded by one `PE_PAIR_MAX` per term.
pub proof fn lemma_pe_inner_bound(bodies: Seq<Body>, g: int, i: int, j: int)
    requires
        all_wf(bodies),
        bodies.len() <= MAX_BODIES,
        mag(g) <= MAX_G,
        0 <= i < bodies.len(),
        j <= bodies.len(),
    ensures
        mag(pe_inner(bodies, g, i, j)) <= MAX_BODIES * PE_PAIR_MAX,
        j > i + 1 ==> mag(pe_inner(bodies, g, i, j)) <= (j - i - 1) * PE_PAIR_MAX,
    decreases j,
{
    if j <= i + 1 {
    } else {
        lemma_pe_inner_bound(bodies, g, i, j - 1);
        lemma_pe_pair_bound(bodies[i], bodies[j - 1], g);
    }
}

/// Outer potential-energy sums are bounded by `MAX_BODIES * PE_PAIR_MAX`
/// per processed lower index.
pub proof fn lemma_pe_outer_bound(bodies: Seq<Body>, g: int, i: int)
    requires
        all_wf(bodies),
        bodies.len() <= MAX_BODIES,
        mag(g) <= MAX_G,
        0 <= i <= bodies.len(),
    ensures
        mag(pe_outer(bodies, g, i)) <= i * MAX_BODIES * PE_PAIR_MAX,
    decreases i,
{
    if i > 0 {
        lemma_pe_outer_bound(bodies, g, i - 1);
        lemma_pe_inner_bound(bodies, g, i - 1, bodies.len() as int);
    }
}

/// How much of the acceleration prefix of body `k` the pair loop has
/// accumulated when it stands at outer index `i`, inner index `j`: bodies
/// below `i` are complete, body `i` has seen partners below `j`, a body
/// above `i` has seen the partners below `i`, plus `i` itself once the
/// inner index has passed it.
spec fn cutoff(k: int, i: int, j: int, n: int) -> int {
    if k < i {
        n
    } else if k == i {
        j
    } else if k < j {
        i + 1
    } else {
        i
    }
}

/// Net accelerations of every body of the collection, by one force
/// evaluation per unordered pair: the force on `i` from `j` is computed
/// once, scaled by each mass, and applied to `j` with the opposite sign
/// (Newton's third law, exact here by `lemma_force_antisymmetric`).
fn accel_table(bodies: &Vec<Body>, g: i128) -> (r: (Vec<i128>, Vec<i128>))
    requires
        all_wf(bodies@),
        bodies@.len() <= MAX_BODIES,
        mag(g as int) <= MAX_G,
    ensures
        r.0@.len() == bodies@.len(),
        r.1@.len() == bodies@.len(),
        forall|k: int| 0 <= k < bodies@.len() ==> #[trigger] r.0@[k] == accel_x(bodies@, g as int, k),
        forall|k: int| 0 <= k < bodies@.len() ==> #[trigger] r.1@[k] == accel_y(bodies@, g as int, k),
{
    let n = bodies.len();
    let ghost bs = bodies@;
    let ghost gi = g as int;
    let mut ax: Vec<i128> = Vec::new();
    let mut ay: Vec<i128> = Vec::new();
    let mut z: usize = 0;
    while z < n
        invariant
            0 <= z <= n,
            ax@.len() == z,
            ay@.len() == z,
            forall|k: int| 0 <= k < z ==> #[trigger] ax@[k] == 0,
            forall|k: int| 0 <= k < z ==> #[trigger] ay@[k] == 0,
        decreases n - z,
    {
        ax.push(0);
        ay.push(0);
        z = z + 1;
    }
    let mut i: usize = 0;
    while i < n
        invariant
            bodies@ == bs,
            bs.len() == n,
            all_wf(bs),
            n <= MAX_BODIES,
            mag(gi) <= MAX_G,
            gi == g as int,
            ax@.len() == n,
            ay@.len() == n,
            0 <= i <= n,
            forall|k: int|
                0 <= k < n ==> #[trigger] ax@[k] == accel_x_prefix(
                    bs,
                    gi,
                    k,
                    if k < i { n as int } else { i as int },
                ),
            forall|k: int|
                0 <= k < n ==> #[trigger] ay@[k] == accel_y_prefix(
                    bs,
                    gi,
                    k,
                    if k < i { n as int } else { i as int },
                ),
        decreases n - i,
    {
        let mut j: usize = i + 1;
        proof {
            assert(accel_x_prefix(bs, gi, i as int, i + 1) == accel_x_prefix(bs, gi, i as int, i as int));
            assert(accel_y_prefix(bs, gi, i as int, i + 1) == accel_y_prefix(bs, gi, i as int, i as int));
        }
        while j < n
            invariant
                bodies@ == bs,
                bs.len() == n,
                all_wf(bs),
                n <= MAX_BODIES,
                mag(gi) <= MAX_G,
                gi == g as int,
                ax@.len() == n,
                ay@.len() == n,
                0 <= i < n,
                i + 1 <= j <= n,
                forall|k: int|
                    0 <= k < n ==> #[trigger] ax@[k] == accel_x_prefix(
                        bs,
                        gi,
                        k,
                        cutoff(k, i as int, j as int, n as int),
                    ),
                forall|k: int|
                    0 <= k < n ==> #[trigger] ay@[k] == accel_y_prefix(
                        bs,
                        gi,
                        k,
                        cutoff(k, i as int, j as int, n as int),
                    ),
            decreases n - j,
        {
            let bi = bodies[i];
            let bj = bodies[j];
            proof {
                assert(bs[i as int].wf());
                assert(bs[j as int].wf());
            }
            let f = bi.gravitational_force(&bj, g);
            proof {
                lemma_force_antisymmetric(bs[i as int], bs[j as int], gi);
                lemma_mul_mag(f.0 as int, SCALE as int, FORCE_COMP_MAX as int, SCALE as int);
                lemma_mul_mag(f.1 as int, SCALE as int, FORCE_COMP_MAX as int, SCALE as int);
                lemma_pair_accel_bound(bs[i as int], bs[j as int], gi);
                lemma_pair_accel_bound(bs[j as int], bs[i as int], gi);
                lemma_accel_prefix_bound(bs, gi, i as int, j as int);
                lemma_accel_prefix_bound(bs, gi, j as int, i as int);
                lemma_div_t_neg(f.0 * SCALE, bs[j as int].mass as int);
                lemma_div_t_neg(f.1 * SCALE, bs[j as int].mass as int);
            }
            let cxi = div_trunc(f.0 * SCALE, bi.mass);
            let cyi = div_trunc(f.1 * SCALE, bi.mass);
            let cxj = div_trunc(f.0 * SCALE, bj.mass);
            let cyj = div_trunc(f.1 * SCALE, bj.mass);
            proof {
                assert(cxi == pair_ax(bs[i as int], bs[j as int], gi));
                assert(cyi == pair_ay(bs[i as int], bs[j as int], gi));
                assert((-f.0) * SCALE == -(f.0 * SCALE)) by (nonlinear_arith);
                assert((-f.1) * SCALE == -(f.1 * SCALE)) by (nonlinear_arith);
                assert(-cxj == pair_ax(bs[j as int], bs[i as int], gi));
                assert(-cyj == pair_ay(bs[j as int], bs[i as int], gi));
            }
            ax[i] = ax[i] + cxi;
            ay[i] = ay[i] + cyi;
            ax[j] = ax[j] - cxj;
            ay[j] = ay[j] - cyj;
            proof {
                assert(accel_x_prefix(bs, gi, i as int, j + 1) == accel_x_prefix(
                    bs,
                    gi,
                    i as int,
                    j as int,
                ) + pair_ax(bs[i as int], bs[j as int], gi));
                assert(accel_y_prefix(bs, gi, i as int, j + 1) == accel_y_prefix(
                    bs,
                    gi,
                    i as int,
                    j as int,
                ) + pair_ay(bs[i as int], bs[j as int], gi));
                assert(accel_x_prefix(bs, gi, j as int, i + 1) == accel_x_prefix(
                    bs,
                    gi,
                    j as int,
                    i as int,
                ) + pair_ax(bs[j as int], bs[i as int], gi));
                assert(accel_y_prefix(bs, gi, j as int, i + 1) == accel_y_prefix(
                    bs,
                    gi,
                    j as int,
                    i as int,
                ) + pair_ay(bs[j as int], bs[i as int], gi));
                assert forall|k: int| 0 <= k < n implies #[trigger] ax@[k] == accel_x_prefix(
                    bs,
                    gi,
                    k,
                    cutoff(k, i as int, j + 1, n as int),
                ) by {
                    if k != i && k != j {
                        assert(cutoff(k, i as int, j + 1, n as int) == cutoff(
                            k,
                            i as int,
                            j as int,
                            n as int,
                        ));
                    }
                }
                assert forall|k: int| 0 <= k < n implies #[trigger] ay@[k] == accel_y_prefix(
                    bs,
                    gi,
                    k,
                    cutoff(k, i as int, j + 1, n as int),
                ) by {
                    if k != i && k != j {
                        assert(cutoff(k, i as int, j + 1, n as int) == cutoff(
                            k,
                            i as int,
                            j as int,
                            n as int,
                        ));
                    }
                }
            }
            j = j + 1;
        }
        proof {
            assert forall|k: int| 0 <= k < n implies #[trigger] ax@[k] == accel_x_prefix(
                bs,
                gi,
                k,
                if k < i + 1 { n as int } else { i + 1 },
            ) by {
                assert(ax@[k] == accel_x_prefix(bs, gi, k, cutoff(k, i as int, n as int, n as int)));
            }
            assert forall|k: int| 0 <= k < n implies #[trigger] ay@[k] == accel_y_prefix(
                bs,
                gi,
                k,
                if k < i + 1 { n as int } else { i + 1 },
            ) by {
                assert(ay@[k] == accel_y_prefix(bs, gi, k, cutoff(k, i as int, n as int, n as int)));
            }
        }
        i = i + 1;
    }
    (ax, ay)
}

/// The simulation: an ordered collection of point masses, the gravitational
/// constant, and the fixed integration interval.
pub struct State {
    /// The bodies, in a stable order.
    pub bodies: Vec<Body>,
    /// Gravitational constant, fixed-point.
    pub g_constant: i128,
    /// Integration interval, fixed-point, positive.
    pub time_step: i128,
}

impl State {
    /// The state is admissible: few enough bodies, every body admissible,
    /// constants in range.
    pub open spec fn wf(self) -> bool {
        &&& self.bodies@.len() <= MAX_BODIES
        &&& all_wf(self.bodies@)
        &&& mag(self.g_constant as int) <= MAX_G
        &&& 1 <= self.time_step <= MAX_DT
    }

    /// Builds a simulation over the given bodies and constants.
    pub fn new(bodies: Vec<Body>, g_constant: i128, time_step: i128) -> (r: State)
        requires
            bodies@.len() <= MAX_BODIES,
            all_wf(bodies@),
            mag(g_constant as int) <= MAX_G,
            1 <= time_step <= MAX_DT,
        ensures
            r.bodies@ == bodies@,
            r.g_constant == g_constant,
            r.time_step == time_step,
            r.wf(),
    {
        State { bodies, g_constant, time_step }
    }

    /// The default two-body scenario: two equal masses of `100` whole units
    /// at `(-1, 0)` and `(1, 0)`, with opposite unit velocities along the
    /// second axis, `g = 1` and `dt = 1/10000` — a symmetric binary orbit.
    pub fn default_scenario() -> (r: State)
        ensures
            r.wf(),
            r.bodies@.len() == 2,
            r.bodies@[0] == (Body {
                mass: 100_000_000_000i128,
                position: (-1_000_000_000i128, 0i128),
                velocity: (0i128, 1_000_000_000i128),
                radius: 1_000_000_000i128,
            }),
            r.bodies@[1] == (Body {
                mass: 100_000_000_000i128,
                position: (1_000_000_000i128, 0i128),
                velocity: (0i128, -1_000_000_000i128),
                radius: 1_000_000_000i128,
            }),
            r.g_constant == SCALE,
            r.time_step == 100_000i128,
    {
        let mut bodies: Vec<Body> = Vec::new();
        let b0 = match Body::new(100 * SCALE, (-SCALE, 0), (0, SCALE)) {
            Ok(b) => b,
            Err(_) => vstd::pervasive::unreached(),
        };
        let b1 = match Body::new(100 * SCALE, (SCALE, 0), (0, -SCALE)) {
            Ok(b) => b,
            Err(_) => vstd::pervasive::unreached(),
        };
        bodies.push(b0);
        bodies.push(b1);
        State { bodies, g_constant: SCALE, time_step: 100_000 }
    }

    /// Read-only view of the bodies, for a presentation layer.
    pub fn bodies(&self) -> (r: &Vec<Body>)
        ensures
            r@ == self.bodies@,
    {
        &self.bodies
    }

    /// Sum of the kinetic energies of all bodies.
    pub fn total_kinetic_energy(&self) -> (r: i128)
        requires
            self.wf(),
        ensures
            r == total_ke(self.bodies@),
            0 <= r <= MAX_BODIES * KE_MAX,
    {
        let n = self.bodies.len();
        let mut sum: i128 = 0;
        let mut i: usize = 0;
        while i < n
            invariant
                self.wf(),
                n == self.bodies@.len(),
                0 <= i <= n,
                sum == ke_prefix(self.bodies@, i as int),
                0 <= sum <= i * KE_MAX,
            decreases n - i,
        {
            let b = self.bodies[i];
            proof {
                assert(b.wf());
                lemma_ke_bound(b);
            }
            let k = b.get_kinetic_energy();
            sum = sum + k;
            i = i + 1;
        }
        proof {
            lemma_ke_prefix_bound(self.bodies@, n as int);
        }
        sum
    }

    /// Sum of `-g * m_i * m_j / d_ij` over all unordered pairs, with the
    /// same distance clamp as force evaluation.
    pub fn total_potential_energy(&self) -> (r: i128)
        requires
            self.wf(),
        ensures
            r == total_pe(self.bodies@, self.g_constant as int),
            mag(r as int) <= MAX_BODIES * MAX_BODIES * PE_PAIR_MAX,
    {
        let n = self.bodies.len();
        let g = self.g_constant;
        let ghost gi = g as int;
        let mut pe: i128 = 0;
        let mut i: usize = 0;
        while i < n
            invariant
                self.wf(),
                n == self.bodies@.len(),
                g == self.g_constant,
                0 <= i <= n,
                pe == pe_outer(self.bodies@, gi, i as int),
                gi == g as int,
                mag(pe as int) <= i * MAX_BODIES * PE_PAIR_MAX,
            decreases n - i,
        {
            let mut j: usize = i + 1;
            while j < n
                invariant
                    self.wf(),
                    n == self.bodies@.len(),
                    g == self.g_constant,
                    gi == g as int,
                    0 <= i < n,
                    i + 1 <= j <= n,
                    pe == pe_outer(self.bodies@, gi, i as int) + pe_inner(
                        self.bodies@,
                        gi,
                        i as int,
                        j as int,
                    ),
                decreases n - j,
            {
                let bi = self.bodies[i];
                let bj = self.bodies[j];
                proof {
                    assert(bi.wf());
                    assert(bj.wf());
                    lemma_dist_facts(bi, bj);
                    lemma_mul_mag(gi, bi.mass as int, MAX_G as int, MAX_MASS as int);
                    lemma_mul_mag(gi * bi.mass, bj.mass as int, MAX_G * MAX_MASS, MAX_MASS as int);
                    lemma_pe_pair_bound(bi, bj, gi);
                    lemma_mul_mag(SCALE as int, dist_clamped(bi, bj), SCALE as int, DIST_MAX as int);
                    lemma_div_t_facts(force_num(bi, bj, gi), SCALE * dist_clamped(bi, bj));
                    lemma_pe_outer_bound(self.bodies@, gi, i as int);
                    lemma_pe_inner_bound(self.bodies@, gi, i as int, j as int);
                }
                let d = bi.distance_to(&bj);
                let dc = if d < MIN_DIST {
                    MIN_DIST
                } else {
                    d
                };
                let num = g * bi.mass * bj.mass;
                let term = div_trunc(num, SCALE * dc);
                pe = pe - term;
                j = j + 1;
            }
            proof {
                lemma_pe_outer_bound(self.bodies@, gi, i as int);
                lemma_pe_inner_bound(self.bodies@, gi, i as int, n as int);
            }
            i = i + 1;
        }
        proof {
            lemma_pe_outer_bound(self.bodies@, gi, n as int);
        }
        pe
    }

    /// Advances the whole system by one `time_step` of velocity-Verlet
    /// integration: accelerations at the current positions, then all
    /// positions (`x += v*dt + a*dt^2/2`), then accelerations at the new
    /// positions, then all velocities with the averaged acceleration
    /// (`v += (a_old + a_new)*dt/2`). Every position update completes
    /// before the second force evaluation begins.
    pub fn step(&mut self)
        requires
            old(self).wf(),
            step_in_range(
                old(self).bodies@,
                old(self).g_constant as int,
                old(self).time_step as int,
            ),
        ensures
            final(self).g_constant == old(self).g_constant,
            final(self).time_step == old(self).time_step,
            final(self).bodies@.len() == old(self).bodies@.len(),
            forall|i: int|
                0 <= i < old(self).bodies@.len() ==> {
                    let nb = #[trigger] final(self).bodies@[i];
                    let ob = old(self).bodies@[i];
                    let g = old(self).g_constant as int;
                    let dt = old(self).time_step as int;
                    nb.mass == ob.mass && nb.radius == ob.radius && nb.position.0 == moved_pos_x(
                        old(self).bodies@,
                        g,
                        dt,
                        i,
                    ) && nb.position.1 == moved_pos_y(old(self).bodies@, g, dt, i)
                        && nb.velocity.0 == stepped_vx(old(self).bodies@, g, dt, i)
                        && nb.velocity.1 == stepped_vy(old(self).bodies@, g, dt, i)
                },
    {
        let n = self.bodies.len();
        let g = self.g_constant;
        let dt = self.time_step;
        let ghost bs0 = self.bodies@;
        let ghost gi = g as int;
        let ghost dti = dt as int;
        let (ax, ay) = accel_table(&self.bodies, g);
        let mut i: usize = 0;
        while i < n
            invariant
                bs0.len() == n,
                self.bodies@.len() == n,
                all_wf(bs0),
                n <= MAX_BODIES,
                mag(gi) <= MAX_G,
                1 <= dt <= MAX_DT,
                gi == g as int,
                dti == dt as int,
                step_in_range(bs0, gi, dti),
                self.g_constant == g,
                self.time_step == dt,
                ax@.len() == n,
                ay@.len() == n,
                0 <= i <= n,
                forall|k: int| 0 <= k < n ==> #[trigger] ax@[k] == accel_x(bs0, gi, k),
                forall|k: int| 0 <= k < n ==> #[trigger] ay@[k] == accel_y(bs0, gi, k),
                forall|k: int|
                    0 <= k < i ==> #[trigger] self.bodies@[k] == moved_body(bs0, gi, dti, k),
                forall|k: int| i <= k < n ==> #[trigger] self.bodies@[k] == bs0[k],
            decreases n - i,
        {
            let b = self.bodies[i];
            proof {
                assert(bs0[i as int].wf());
                lemma_accel_prefix_bound(bs0, gi, i as int, n as int);
                lemma_mul_mag(b.velocity.0 as int, dti, MAX_VEL as int, MAX_DT as int);
                lemma_mul_mag(b.velocity.1 as int, dti, MAX_VEL as int, MAX_DT as int);
                lemma_div_t_facts(b.velocity.0 * dt, SCALE as int);
                lemma_div_t_facts(b.velocity.1 * dt, SCALE as int);
                lemma_mul_mag(ax@[i as int] as int, dti, ACCEL_MAX as int, MAX_DT as int);
                lemma_mul_mag(ay@[i as int] as int, dti, ACCEL_MAX as int, MAX_DT as int);
                lemma_div_t_le(
                    ax@[i as int] * dt,
                    SCALE as int,
                    64_000_000_000_000_000_000_000_000int,
                );
                lemma_div_t_le(
                    ay@[i as int] * dt,
                    SCALE as int,
                    64_000_000_000_000_000_000_000_000int,
                );
            }
            let t1x = div_trunc(b.velocity.0 * dt, SCALE);
            let t1y = div_trunc(b.velocity.1 * dt, SCALE);
            let sx = div_trunc(ax[i] * dt, SCALE);
            let sy = div_trunc(ay[i] * dt, SCALE);
            proof {
                lemma_mul_mag(
                    sx as int,
                    dti,
                    64_000_000_000_000_000_000_000_000int,
                    MAX_DT as int,
                );
                lemma_mul_mag(
                    sy as int,
                    dti,
                    64_000_000_000_000_000_000_000_000int,
                    MAX_DT as int,
                );
                lemma_div_t_facts(sx * dt, 2 * SCALE);
                lemma_div_t_facts(sy * dt, 2 * SCALE);
            }
            let t2x = div_trunc(sx * dt, 2 * SCALE);
            let t2y = div_trunc(sy * dt, 2 * SCALE);
            let nx = b.position.0 + t1x + t2x;
            let ny = b.position.1 + t1y + t2y;
            self.bodies[i] = Body {
                mass: b.mass,
                position: (nx, ny),
                velocity: b.velocity,
                radius: b.radius,
            };
            proof {
                assert(nx as int == moved_pos_x(bs0, gi, dti, i as int));
                assert(ny as int == moved_pos_y(bs0, gi, dti, i as int));
                assert(self.bodies@[i as int] == moved_body(bs0, gi, dti, i as int));
            }
            i = i + 1;
        }
        let ghost moved = moved_seq(bs0, gi, dti);
        proof {
            assert forall|k: int| 0 <= k < n implies #[trigger] self.bodies@[k] == moved[k] by {
                assert(self.bodies@[k] == moved_body(bs0, gi, dti, k));
            }
            assert(self.bodies@ =~= moved);
            assert forall|k: int| 0 <= k < n implies (#[trigger] moved[k]).wf() by {
                assert(moved[k] == moved_body(bs0, gi, dti, k));
                assert(bs0[k].wf());
                assert(mag(moved_pos_x(bs0, gi, dti, k)) <= MAX_COORD);
                assert(mag(moved_pos_y(bs0, gi, dti, k)) <= MAX_COORD);
            }
        }
        let (ax2, ay2) = accel_table(&self.bodies, g);
        let mut i2: usize = 0;
        while i2 < n
            invariant
                bs0.len() == n,
                self.bodies@.len() == n,
                all_wf(bs0),
                all_wf(moved),
                moved == moved_seq(bs0, gi, dti),
                moved.len() == n,
                n <= MAX_BODIES,
                mag(gi) <= MAX_G,
                1 <= dt <= MAX_DT,
                gi == g as int,
                dti == dt as int,
                self.g_constant == g,
                self.time_step == dt,
                ax@.len() == n,
                ay@.len() == n,
                ax2@.len() == n,
                ay2@.len() == n,
                0 <= i2 <= n,
                forall|k: int| 0 <= k < n ==> #[trigger] ax@[k] == accel_x(bs0, gi, k),
                forall|k: int| 0 <= k < n ==> #[trigger] ay@[k] == accel_y(bs0, gi, k),
                forall|k: int| 0 <= k < n ==> #[trigger] ax2@[k] == accel_x(moved, gi, k),
                forall|k: int| 0 <= k < n ==> #[trigger] ay2@[k] == accel_y(moved, gi, k),
                forall|k: int|
                    0 <= k < i2 ==> {
                        let nb = #[trigger] self.bodies@[k];
                        nb.mass == moved[k].mass && nb.radius == moved[k].radius && nb.position
                            == moved[k].position && nb.velocity.0 as int == stepped_vx(
                            bs0,
                            gi,
                            dti,
                            k,
                        ) && nb.velocity.1 as int == stepped_vy(bs0, gi, dti, k)
                    },
                forall|k: int| i2 <= k < n ==> #[trigger] self.bodies@[k] == moved[k],
            decreases n - i2,
        {
            let b = self.bodies[i2];
            proof {
                assert(b == moved[i2 as int]);
                lemma_accel_prefix_bound(bs0, gi, i2 as int, n as int);
                lemma_accel_prefix_bound(moved, gi, i2 as int, n as int);
                lemma_mul_mag(
                    (ax@[i2 as int] + ax2@[i2 as int]) as int,
                    dti,
                    2 * ACCEL_MAX,
                    MAX_DT as int,
                );
                lemma_mul_mag(
                    (ay@[i2 as int] + ay2@[i2 as int]) as int,
                    dti,
                    2 * ACCEL_MAX,
                    MAX_DT as int,
                );
            }
            let sumx = ax[i2] + ax2[i2];
            let sumy = ay[i2] + ay2[i2];
            proof {
                lemma_div_t_facts(sumx * dt, 2 * SCALE);
                lemma_div_t_facts(sumy * dt, 2 * SCALE);
            }
            let vtx = div_trunc(sumx * dt, 2 * SCALE);
            let vty = div_trunc(sumy * dt, 2 * SCALE);
            let nvx = b.velocity.0 + vtx;
            let nvy = b.velocity.1 + vty;
            self.bodies[i2] = Body {
                mass: b.mass,
                position: b.position,
                velocity: (nvx, nvy),
                radius: b.radius,
            };
            proof {
                assert(moved[i2 as int].velocity == bs0[i2 as int].velocity);
                assert(nvx as int == stepped_vx(bs0, gi, dti, i2 as int));
                assert(nvy as int == stepped_vy(bs0, gi, dti, i2 as int));
            }
            i2 = i2 + 1;
        }
        proof {
            assert forall|k: int|
                0 <= k < n implies {
                    let nb = #[trigger] self.bodies@[k];
                    nb.mass == bs0[k].mass && nb.radius == bs0[k].radius && nb.position.0
                        == moved_pos_x(bs0, gi, dti, k) && nb.position.1 == moved_pos_y(
                        bs0,
                        gi,
                        dti,
                        k,
                    ) && nb.velocity.0 == stepped_vx(bs0, gi, dti, k) && nb.velocity.1 == stepped_vy(
                        bs0,
                        gi,
                        dti,
                        k,
                    )
                } by {
                assert(moved[k] == moved_body(bs0, gi, dti, k));
                assert(mag(moved_pos_x(bs0, gi, dti, k)) <= MAX_COORD);
                assert(mag(moved_pos_y(bs0, gi, dti, k)) <= MAX_COORD);
            }
        }
    }

    /// Total energy: kinetic plus potential, the conserved diagnostic of the
    /// integrator.
    pub fn total_energy(&self) -> (r: i128)
        requires
            self.wf(),
        ensures
            r == total_energy_spec(self.bodies@, self.g_constant as int),
    {
        let k = self.total_kinetic_energy();
        let p = self.total_potential_energy();
        k + p
    }
}

/// The diagnostics are pure: two reads of the total energy of one state,
/// with no `step` between them, return the same value.
pub proof fn lemma_diagnostics_idempotent(s: State, r1: i128, r2: i128)
    requires
        r1 == total_energy_spec(s.bodies@, s.g_constant as int),
        r2 == total_energy_spec(s.bodies@, s.g_constant as int),
    ensures
        r1 == r2,
{
}

} // verus!

