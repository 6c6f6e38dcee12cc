//! The scattering rules: which rays leave a surface that a ray has struck.
use vstd::prelude::*;
use rand::Rng;
use crate::color::Color;
use crate::geometry::{LatticePoint, Ray, ScatterRule, Vector};

verus! {

/// The number of lattice steps that make up the radius of the unit ball.
pub const LATTICE_RADIUS: i32 = 8_388_608;

/// How many points of the cube are drawn before the sampler settles for the
/// center of the ball. A draw lands in the ball with probability above one
/// half, so the cap is reached with probability below `2^-64`.
pub const MAX_DRAWS: u32 = 64;

/// The point lies in the cube `[-1, 1)^3`.
pub open spec fn in_unit_cube(p: LatticePoint) -> bool {
    &&& -LATTICE_RADIUS <= p.x < LATTICE_RADIUS
    &&& -LATTICE_RADIUS <= p.y < LATTICE_RADIUS
    &&& -LATTICE_RADIUS <= p.z < LATTICE_RADIUS
}

/// The point lies strictly inside the unit ball: the offset `u` that it
/// stands for has `|u|^2 < 1`.
pub open spec fn in_unit_ball(p: LatticePoint) -> bool {
    p.x * p.x + p.y * p.y + p.z * p.z < LATTICE_RADIUS * LATTICE_RADIUS
}

/// The number of rays that leave a surface of the given rule when a ray of
/// the given branching budget strikes it.
pub open spec fn child_count(rule: ScatterRule, scatter_potential: int) -> int {
    match rule {
        ScatterRule::Diffuse => if scatter_potential > 0 { scatter_potential } else { 0 },
        ScatterRule::Specular => if scatter_potential < 1 { 0 } else { 1 },
    }
}

/// The branching budget of each ray that leaves a surface of the given rule:
/// one after a diffuse bounce, the incoming ray's own behind a mirror.
pub open spec fn child_potential(rule: ScatterRule, scatter_potential: int) -> int {
    match rule {
        ScatterRule::Diffuse => 1,
        ScatterRule::Specular => scatter_potential,
    }
}

/// A ray without branching budget is scattered by no rule, and a ray with
/// budget is scattered by both.
pub proof fn lemma_children_iff_budget(rule: ScatterRule, scatter_potential: int)
    ensures
        child_count(rule, scatter_potential) >= 0,
        child_count(rule, scatter_potential) > 0 <==> scatter_potential >= 1,
{
}

/// One draw of `rand::Rng::gen_range` on the generator of
/// `rand::thread_rng`, over the half-open range from `low` to `high`. The
/// contract claims only that the draw lies in the range; `gen_range` panics
/// on an empty range, which `requires` leaves out.
#[verifier::external_body]
fn random_in_range(low: i32, high: i32) -> (c: i32)
    requires
        low < high,
    ensures
        low <= c < high,
{
    rand::thread_rng().gen_range(low..high)
}

/// Whether a point of the cube lies strictly inside the unit ball.
pub fn inside_unit_ball(p: &LatticePoint) -> (inside: bool)
    ensures
        inside == in_unit_ball(*p),
{
    let x: i128 = p.x as i128;
    let y: i128 = p.y as i128;
    let z: i128 = p.z as i128;
    let radius: i128 = LATTICE_RADIUS as i128;
    assert(0 <= x * x <= 0x4000_0000_0000_0000) by (nonlinear_arith)
        requires -0x8000_0000 <= x <= 0x8000_0000;
    assert(0 <= y * y <= 0x4000_0000_0000_0000) by (nonlinear_arith)
        requires -0x8000_0000 <= y <= 0x8000_0000;
    assert(0 <= z * z <= 0x4000_0000_0000_0000) by (nonlinear_arith)
        requires -0x8000_0000 <= z <= 0x8000_0000;
    x * x + y * y + z * z < radius * radius
}

/// A random point strictly inside the unit ball, by rejection: points of the
/// cube are drawn until one lies in the ball. After [`MAX_DRAWS`] rejected
/// draws the center of the ball is returned. The draws are random, so the
/// contract states what holds of every outcome; [`settle`] states what the
/// sampler makes of each draw.
pub fn sample_unit_ball() -> (p: LatticePoint)
    ensures
        in_unit_cube(p),
        in_unit_ball(p),
{
    let mut rejected: u32 = 0;
    let mut outcome: Option<LatticePoint> = settle(draw_in_cube(), rejected);
    while outcome.is_none()
        invariant
            rejected < MAX_DRAWS,
            outcome is None ==> rejected + 1 < MAX_DRAWS,
            outcome matches Some(p) ==> in_unit_cube(p) && in_unit_ball(p),
        decreases MAX_DRAWS - rejected,
    {
        rejected = rejected + 1;
        outcome = settle(draw_in_cube(), rejected);
    }
    outcome.unwrap()
}

/// The center of the unit ball.
pub open spec fn center() -> LatticePoint {
    LatticePoint { x: 0, y: 0, z: 0 }
}

/// What the sampler makes of a draw that follows `rejected` rejected draws:
/// the draw itself where it lies in the ball; the center of the ball where it
/// does not and it is the last of [`MAX_DRAWS`] draws; and otherwise nothing,
/// so that another point is drawn.
pub open spec fn settled(candidate: LatticePoint, rejected: int) -> Option<LatticePoint> {
    if in_unit_ball(candidate) {
        Some(candidate)
    } else if rejected + 1 >= MAX_DRAWS {
        Some(center())
    } else {
        None
    }
}

/// What the sampler makes of the draw `candidate` after `rejected` rejected
/// draws: see [`settled`].
pub fn settle(candidate: LatticePoint, rejected: u32) -> (outcome: Option<LatticePoint>)
    ensures
        outcome == settled(candidate, rejected as int),
{
    if inside_unit_ball(&candidate) {
        Some(candidate)
    } else if rejected >= MAX_DRAWS - 1 {
        Some(LatticePoint { x: 0, y: 0, z: 0 })
    } else {
        None
    }
}

/// One random point of the cube: three draws, one for each coordinate.
fn draw_in_cube() -> (p: LatticePoint)
    ensures
        in_unit_cube(p),
{
    LatticePoint {
        x: random_in_range(-LATTICE_RADIUS, LATTICE_RADIUS),
        y: random_in_range(-LATTICE_RADIUS, LATTICE_RADIUS),
        z: random_in_range(-LATTICE_RADIUS, LATTICE_RADIUS),
    }
}

/// `d` is the direction `normal` jittered by some point strictly inside the
/// unit ball.
pub open spec fn is_jittered<V: Vector>(d: V, normal: V) -> bool {
    exists|u: LatticePoint| in_unit_cube(u) && in_unit_ball(u) && d == #[trigger] normal.jittered_spec(&u)
}

/// The direction of a ray that leaves a surface of rule `rule` with unit
/// normal `normal`, after a ray of direction `incoming` struck it: the normal
/// jittered by a point of the unit ball where the surface is diffuse, the
/// mirror image of `incoming` about the normal where it is specular.
pub open spec fn is_child_direction<V: Vector>(d: V, rule: ScatterRule, incoming: V, normal: V) -> bool {
    match rule {
        ScatterRule::Diffuse => is_jittered(d, normal),
        ScatterRule::Specular => d == incoming.reflected_spec(&normal),
    }
}

/// What holds of every ray that a scattering rule sends out from `at`, where
/// the unit normal is `normal`, after `r` struck a surface of rule `rule`.
pub open spec fn is_child<V: Vector>(child: Ray<V>, rule: ScatterRule, r: &Ray<V>, at: V, normal: V) -> bool {
    &&& child.origin == at
    &&& is_child_direction(child.direction, rule, r.direction, normal)
    &&& child.color == Color::full()
    &&& child.scatter_potential == child_potential(rule, r.scatter_potential as int)
}

/// Diffuse scattering: as many rays as `r` has branching budget, each from
/// `at` in the direction of the normal jittered by a fresh random point of
/// the unit ball; none where the budget is not positive.
pub fn matt_texture_scatter_ray<V: Vector>(r: &Ray<V>, at: &V, normal: &V) -> (rays: Vec<Ray<V>>)
    ensures
        rays.len() == child_count(ScatterRule::Diffuse, r.scatter_potential as int),
        forall|i: int| 0 <= i < rays.len() ==> is_child(#[trigger] rays[i], ScatterRule::Diffuse, r, *at, *normal),
{
    let mut reflected_rays: Vec<Ray<V>> = Vec::new();
    let mut i: i32 = 0;
    while i < r.scatter_potential
        invariant
            0 <= i,
            i <= r.scatter_potential || i == 0,
            reflected_rays.len() == i,
            forall|j: int| 0 <= j < reflected_rays.len() ==> is_child(
                #[trigger] reflected_rays[j], ScatterRule::Diffuse, r, *at, *normal),
        decreases r.scatter_potential - i,
    {
        let rand_direction = sample_unit_ball();
        let reflected_ray = Ray::new(*at, normal.jittered(&rand_direction), Color::white(), 1);
        reflected_rays.push(reflected_ray);
        i = i + 1;
    }
    reflected_rays
}

/// Specular scattering: one ray from `at`, the mirror image of `r` about the
/// normal; none where `r` has no branching budget left.
pub fn metal_texture_scatter_ray<V: Vector>(r: &Ray<V>, at: &V, normal: &V) -> (rays: Vec<Ray<V>>)
    ensures
        rays.len() == child_count(ScatterRule::Specular, r.scatter_potential as int),
        forall|i: int| 0 <= i < rays.len() ==> is_child(#[trigger] rays[i], ScatterRule::Specular, r, *at, *normal),
{
    let mut rays: Vec<Ray<V>> = Vec::new();
    if r.scatter_potential < 1 {
        return rays;
    }
    rays.push(r.reflection(*normal, *at, Color::white()));
    rays
}

/// The rays that leave a surface of rule `rule` at the point `at`, where the
/// ray `r` struck it and the unit normal is `normal`.
pub fn scatter<V: Vector>(rule: ScatterRule, r: &Ray<V>, at: &V, normal: &V) -> (rays: Vec<Ray<V>>)
    ensures
        rays.len() == child_count(rule, r.scatter_potential as int),
        forall|i: int| 0 <= i < rays.len() ==> is_child(#[trigger] rays[i], rule, r, *at, *normal),
{
    match rule {
        ScatterRule::Diffuse => matt_texture_scatter_ray(r, at, normal),
        ScatterRule::Specular => metal_texture_scatter_ray(r, at, normal),
    }
}

} // verus!
