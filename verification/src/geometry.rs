//! Rays, hit records and the interface to the caller's geometry.
//!
//! The crate does no vector arithmetic of its own. A vector type `V` comes
//! from the caller, who implements [`Vector`] for it and [`Hittable`] for
//! each kind of surface. Ray parameters cross that boundary as keys: the bit
//! pattern of the parameter as a single-precision number. Among the
//! non-negative numbers the bit patterns compare as the numbers do, and a
//! negative number, an infinity or a not-a-number has a bit pattern above
//! that of every finite positive number: so a key lies between the keys of
//! two positive bounds exactly when the parameter lies between the bounds.
use vstd::prelude::*;
use crate::color::Color;

verus! {

/// The key of the smallest ray parameter at which a hit counts: the bit
/// pattern of 0.001 in single precision. A small positive bound keeps a
/// scattered ray from striking the surface that it leaves.
pub const T_MIN: u32 = 0x3A83_126F;

/// The key of the largest ray parameter at which a hit counts: the bit
/// pattern of 100000 in single precision.
pub const T_MAX: u32 = 0x47C3_5000;

/// How a surface turns an incoming ray into outgoing rays.
#[derive(Clone, Copy, Debug, PartialEq, Eq, Structural)]
pub enum ScatterRule {
    /// A matt surface: many rays, each jittered around the normal.
    Diffuse,
    /// A mirror: one ray, reflected about the normal.
    Specular,
}

/// A surface's way with light: the color by which it attenuates and the rule
/// by which it scatters.
#[derive(Clone, Copy, Debug)]
pub struct Texture {
    pub base_color: Color,
    pub scatter_rule: ScatterRule,
}

/// A point of the integer lattice that stands for the offset
/// `(x, y, z) / LATTICE_RADIUS`.
#[derive(Clone, Copy, Debug, PartialEq, Eq, Structural)]
pub struct LatticePoint {
    pub x: i32,
    pub y: i32,
    pub z: i32,
}

/// What the estimator asks of a vector type. The methods are the caller's
/// arithmetic. Each is a function of its arguments alone, and a name ending
/// in `_spec` names what it returns: contracts speak of the caller's vectors
/// through those names. Nothing holds an implementation to this; one written
/// in unverified code gives each name the body of its method.
pub trait Vector: Copy {
    /// What [`Vector::jittered`] returns for these arguments.
    spec fn jittered_spec(&self, offset: &LatticePoint) -> Self;

    /// What [`Vector::reflected`] returns for these arguments.
    spec fn reflected_spec(&self, normal: &Self) -> Self;

    /// What [`Vector::points_up`] returns for this vector.
    spec fn points_up_spec(&self) -> bool;

    /// Taken as a surface normal, the direction `self + 0.5 * u`, where `u` is
    /// the offset that `offset` stands for.
    fn jittered(&self, offset: &LatticePoint) -> (d: Self)
        ensures
            d == self.jittered_spec(offset),
    ;

    /// Taken as a direction `d`, its mirror image about the unit normal `n`:
    /// `d - 2 (n . d) n`.
    fn reflected(&self, normal: &Self) -> (d: Self)
        ensures
            d == self.reflected_spec(normal),
    ;

    /// Whether the vector points above the horizon: whether, normalized, it
    /// has a positive dot product with the up vector `(0, 1, 0)`.
    fn points_up(&self) -> (up: bool)
        ensures
            up == self.points_up_spec(),
    ;
}

/// A half-line with the attenuation gathered along it and the number of
/// child rays that a diffuse surface may still spawn from it.
#[derive(Clone, Copy, Debug)]
pub struct Ray<V> {
    pub origin: V,
    pub direction: V,
    pub color: Color,
    pub scatter_potential: i32,
}

/// Where a ray struck a surface.
#[derive(Clone, Copy, Debug)]
pub struct HitRecord<V> {
    /// The point of the hit.
    pub p: V,
    /// The unit normal at that point, outward from the surface.
    pub normal: V,
    /// The key of the ray parameter at the hit.
    pub t: u32,
    /// The texture of the surface that was struck.
    pub texture: Texture,
}

/// A surface that a ray can strike. `hit` is a function of its arguments
/// alone, and `hit_spec` names what it returns: contracts speak of a scene
/// through that name. Nothing holds an implementation to this; one written
/// in unverified code gives `hit_spec` the body of `hit`.
pub trait Hittable<V> {
    /// The hit that [`Hittable::hit`] reports for these arguments.
    spec fn hit_spec(&self, r: &Ray<V>, t_min: u32, t_max: u32) -> Option<HitRecord<V>>;

    /// The nearest point at which `r` strikes the surface with a ray
    /// parameter between `t_min` and `t_max`, both given as keys; `None`
    /// where there is no such point.
    fn hit(&self, r: &Ray<V>, t_min: u32, t_max: u32) -> (res: Option<HitRecord<V>>)
        ensures
            res == self.hit_spec(r, t_min, t_max),
    ;
}

impl<V: Vector> Ray<V> {
    /// A ray from its four parts.
    pub fn new(origin: V, direction: V, color: Color, scatter_potential: i32) -> (r: Ray<V>)
        ensures
            r == (Ray { origin, direction, color, scatter_potential }),
    {
        Ray { origin, direction, color, scatter_potential }
    }

    /// The direction of the ray.
    pub fn direction(&self) -> (d: V)
        ensures
            d == self.direction,
    {
        self.direction
    }

    /// The origin of the ray.
    pub fn origin(&self) -> (o: V)
        ensures
            o == self.origin,
    {
        self.origin
    }

    /// The mirror image of the ray about `normal`, leaving from `origin`
    /// with the given color. The branching budget passes through the mirror
    /// unchanged.
    pub fn reflection(&self, normal: V, origin: V, color: Color) -> (r: Ray<V>)
        ensures
            r == (Ray {
                origin,
                direction: self.direction.reflected_spec(&normal),
                color,
                scatter_potential: self.scatter_potential,
            }),
    {
        Ray {
            origin,
            direction: self.direction.reflected(&normal),
            color,
            scatter_potential: self.scatter_potential,
        }
    }
}

/// A reported hit counts only with a ray parameter inside the window from
/// `t_min` to `t_max`; any other is taken for a miss.
pub open spec fn accepted<V>(found: Option<HitRecord<V>>, t_min: u32, t_max: u32) -> Option<HitRecord<V>> {
    match found {
        Some(hit) => if t_min <= hit.t <= t_max {
            Some(hit)
        } else {
            None
        },
        None => None,
    }
}

/// The hits of the ray `r` on each surface of `hittables`, in scene order:
/// what the surface reports for the estimator's window of ray parameters,
/// where that lies inside the window.
pub open spec fn hit_results<V, H: Hittable<V>>(hittables: Seq<H>, r: &Ray<V>) -> Seq<Option<HitRecord<V>>> {
    Seq::new(hittables.len(), |i: int| accepted(hittables[i].hit_spec(r, T_MIN, T_MAX), T_MIN, T_MAX))
}

/// Every hit of `hits` has its ray parameter inside the estimator's window.
pub open spec fn all_in_window<V>(hits: Seq<Option<HitRecord<V>>>) -> bool {
    forall|j: int| 0 <= j < hits.len() && (#[trigger] hits[j]) is Some ==> T_MIN <= hits[j].unwrap().t <= T_MAX
}

/// No surface is ever struck outside the estimator's window of ray
/// parameters, whatever the surfaces report.
pub proof fn lemma_hits_in_window<V, H: Hittable<V>>(hittables: Seq<H>, r: &Ray<V>)
    ensures
        all_in_window(hit_results(hittables, r)),
{
}

/// Holds a reported hit to the window of ray parameters.
pub fn accept<V: Vector>(found: Option<HitRecord<V>>, t_min: u32, t_max: u32) -> (res: Option<HitRecord<V>>)
    ensures
        res == accepted(found, t_min, t_max),
{
    match found {
        Some(hit) => if t_min <= hit.t && hit.t <= t_max {
            Some(hit)
        } else {
            None
        },
        None => None,
    }
}

/// None of `hits` is a hit.
pub open spec fn all_miss<V>(hits: Seq<Option<HitRecord<V>>>) -> bool {
    forall|j: int| 0 <= j < hits.len() ==> (#[trigger] hits[j]) is None
}

/// `hits[i]` is the nearest hit of `hits`: no hit has a smaller ray
/// parameter, and every hit before it has a larger one.
pub open spec fn is_nearest<V>(hits: Seq<Option<HitRecord<V>>>, i: int) -> bool {
    &&& 0 <= i < hits.len()
    &&& hits[i] is Some
    &&& forall|j: int| 0 <= j < hits.len() && (#[trigger] hits[j]) is Some
            ==> hits[i].unwrap().t <= hits[j].unwrap().t
    &&& forall|j: int| 0 <= j < i && (#[trigger] hits[j]) is Some
            ==> hits[i].unwrap().t < hits[j].unwrap().t
}

/// A sequence of hits has at most one nearest hit, and has one exactly
/// when some entry is a hit: so selecting the nearest hit in one scan agrees
/// with taking, over the hits computed one by one, the first of least ray
/// parameter.
pub proof fn lemma_nearest_unique<V>(hits: Seq<Option<HitRecord<V>>>, i: int, j: int)
    requires
        is_nearest(hits, i),
        is_nearest(hits, j),
    ensures
        i == j,
        !all_miss(hits),
{
}

/// Where some entry of `hits` is a hit, one of them is the nearest.
pub proof fn lemma_nearest_exists<V>(hits: Seq<Option<HitRecord<V>>>)
    requires
        !all_miss(hits),
    ensures
        exists|i: int| is_nearest(hits, i),
    decreases hits.len(),
{
    let last = hits.len() - 1;
    let before = hits.drop_last();
    assert(forall|j: int| 0 <= j < last ==> before[j] == hits[j]);
    if all_miss(before) {
        assert(is_nearest(hits, last));
    } else {
        lemma_nearest_exists(before);
        let i = choose|i: int| is_nearest(before, i);
        if hits[last] is Some && hits[last].unwrap().t < hits[i].unwrap().t {
            assert(is_nearest(hits, last));
        } else {
            assert(is_nearest(hits, i));
        }
    }
}

/// The nearest surface of the scene that `r` strikes with a ray parameter
/// between [`T_MIN`] and [`T_MAX`]; of several at the same parameter, the
/// first in scene order. `None` where `r` strikes nothing. A hit that a
/// surface reports outside the window is passed over.
pub fn fetch_hittable<V: Vector, H: Hittable<V>>(r: &Ray<V>, hittables: &[H]) -> (res: Option<HitRecord<V>>)
    ensures
        res is None <==> all_miss(hit_results(hittables@, r)),
        res is Some ==> exists|i: int|
            is_nearest(hit_results(hittables@, r), i) && (#[trigger] hit_results(hittables@, r)[i]) == res,
        res matches Some(hit) ==> T_MIN <= hit.t <= T_MAX,
{
    let ghost hits = hit_results(hittables@, r);
    let ghost mut best: int = 0;
    let mut maybe_hit_record: Option<HitRecord<V>> = None;
    let n: usize = hittables.len();
    let mut k: usize = 0;
    while k < n
        invariant
            n == hittables.len(),
            k <= n,
            hits == hit_results(hittables@, r),
            hits.len() == n,
            maybe_hit_record is None ==> all_miss(hits.take(k as int)),
            maybe_hit_record is Some ==> is_nearest(hits.take(k as int), best) && hits[best]
                == maybe_hit_record,
        decreases n - k,
    {
        let found: Option<HitRecord<V>> = accept(hittables[k].hit(r, T_MIN, T_MAX), T_MIN, T_MAX);
        match found {
            None => {},
            Some(new_hit_record) => match maybe_hit_record {
                None => {
                    maybe_hit_record = Some(new_hit_record);
                    proof {
                        best = k as int;
                    }
                },
                Some(HitRecord { t: t_min, .. }) => {
                    if new_hit_record.t < t_min {
                        maybe_hit_record = Some(new_hit_record);
                        proof {
                            best = k as int;
                        }
                    }
                },
            },
        }
        k = k + 1;
    }
    assert(hits.take(n as int) == hits);
    maybe_hit_record
}

} // verus!
