//! The recursive radiance estimator.
use vstd::prelude::*;
use crate::color::{attenuated, lemma_attenuated_bounded, mean_of, Color, Rgb};
use crate::geometry::{
    all_miss, fetch_hittable, hit_results, is_nearest, lemma_nearest_unique, HitRecord, Hittable, Ray, Vector,
};
use crate::scatter::{child_count, is_child, scatter};

verus! {

/// The color of the background for a ray that strikes nothing: the sky
/// lights a ray that points above the horizon with the ray's own carried
/// color, and the ground below the horizon is black.
pub open spec fn background_of(carried: Rgb, points_up: bool) -> Rgb {
    if points_up {
        carried
    } else {
        Rgb { r: 0, g: 0, b: 0 }
    }
}

/// The channel-wise product of two colors.
pub open spec fn product(a: Rgb, b: Rgb) -> Rgb {
    Rgb { r: attenuated(a.r, b.r), g: attenuated(a.g, b.g), b: attenuated(a.b, b.b) }
}

/// The color of a ray that struck a surface: the carried color, attenuated
/// by the surface's base color and then by the mean of the light that the
/// child rays brought back.
pub open spec fn shaded(carried: Rgb, base: Rgb, light: Seq<Color>) -> Rgb {
    product(product(carried, base), mean_of(light))
}

/// No channel of `a` is brighter than the same channel of `b`.
pub open spec fn no_brighter(a: Rgb, b: Rgb) -> bool {
    a.r <= b.r && a.g <= b.g && a.b <= b.b
}

/// A bound on the height of the tree of rays below a ray of the given depth
/// budget and branching budget. With depth left, each bounce spends one unit
/// of it; with none left, a ray that still has branching budget scatters
/// once more, into rays that have none and scatter no further.
pub open spec fn bounces_left(max_rebounds: int, scatter_potential: int) -> nat {
    if max_rebounds > 0 {
        (max_rebounds + 1) as nat
    } else if scatter_potential >= 1 {
        1
    } else {
        0
    }
}

/// The depth budget of a child ray: one less than its parent's, or the
/// parent's own where that is the least budget there is.
pub open spec fn next_rebounds(max_rebounds: int) -> int {
    if max_rebounds > i32::MIN {
        max_rebounds - 1
    } else {
        max_rebounds
    }
}

/// The branching budget with which a child ray is followed: its own while
/// the parent has depth budget left, none after that.
pub open spec fn followed_potential(max_rebounds: int, scatter_potential: int) -> int {
    if max_rebounds <= 0 {
        0
    } else {
        scatter_potential
    }
}

/// Every child ray is followed on a strictly smaller bound than its parent,
/// whatever the budgets: the recursion of the estimator ends.
pub proof fn lemma_bounces_decrease(max_rebounds: int, scatter_potential: int, child_potential: int)
    requires
        max_rebounds > 0 || scatter_potential >= 1,
    ensures
        bounces_left(next_rebounds(max_rebounds), followed_potential(max_rebounds, child_potential))
            < bounces_left(max_rebounds, scatter_potential),
{
}

/// A child ray as the estimator follows it: with its own branching budget
/// while the parent has depth budget left, with none after that.
pub open spec fn followed<V>(child: Ray<V>, max_rebounds: int) -> Ray<V> {
    Ray {
        origin: child.origin,
        direction: child.direction,
        color: child.color,
        scatter_potential: if max_rebounds <= 0 {
            0i32
        } else {
            child.scatter_potential
        },
    }
}

/// The nearest hit of `hits`, where there is one.
pub open spec fn nearest_hit<V>(hits: Seq<Option<HitRecord<V>>>) -> HitRecord<V> {
    hits[choose|i: int| is_nearest(hits, i)].unwrap()
}

/// `light` holds one color for each ray of `children`.
pub open spec fn lights<V>(children: Seq<Ray<V>>, light: Seq<Color>) -> bool {
    children.len() == light.len()
}

/// `c` is a color that the ray `r` may bring back from the scene with the
/// depth budget `max_rebounds`.
///
/// Where `r` strikes nothing, `c` is the background color of its direction.
/// Where it strikes a surface, the surface's rule scatters it into child
/// rays; each child is followed with one unit less of depth budget, and
/// brings back a color of its own; and `c` is the carried color of `r`
/// attenuated by the surface's base color and by the mean of those colors.
/// Only the random offsets of diffuse scattering are left open.
pub open spec fn is_radiance<V: Vector, H: Hittable<V>>(
    r: Ray<V>,
    hittables: Seq<H>,
    max_rebounds: int,
    c: Rgb,
) -> bool
    decreases bounces_left(max_rebounds, r.scatter_potential as int),
{
    let hits = hit_results(hittables, &r);
    if all_miss(hits) {
        c == background_of(r.color@, r.direction.points_up_spec())
    } else {
        let hit = nearest_hit(hits);
        exists|children: Seq<Ray<V>>, light: Seq<Color>|
            {
                &&& #[trigger] lights(children, light)
                &&& children.len() == child_count(hit.texture.scatter_rule, r.scatter_potential as int)
                &&& forall|k: int|
                    0 <= k < children.len() ==> is_child(
                        #[trigger] children[k],
                        hit.texture.scatter_rule,
                        &r,
                        hit.p,
                        hit.normal,
                    )
                &&& forall|k: int|
                    0 <= k < children.len() && (max_rebounds > 0 || r.scatter_potential >= 1) ==> is_radiance(
                        followed(children[k], max_rebounds),
                        hittables,
                        next_rebounds(max_rebounds),
                        (#[trigger] light[k])@,
                    )
                &&& c == shaded(r.color@, hit.texture.base_color@, light)
            }
    }
}

/// A ray that strikes nothing brings back the background color of its
/// direction and no other: its carried color where it points above the
/// horizon, black where it does not. So it is for every ray in an empty
/// scene.
pub proof fn lemma_radiance_of_a_miss<V: Vector, H: Hittable<V>>(
    r: Ray<V>,
    hittables: Seq<H>,
    max_rebounds: int,
    c: Rgb,
)
    requires
        all_miss(hit_results(hittables, &r)) || hittables.len() == 0,
        is_radiance(r, hittables, max_rebounds, c),
    ensures
        c == background_of(r.color@, r.direction.points_up_spec()),
{
}

/// The background color for a ray of carried color `carried`.
pub fn background(carried: Color, points_up: bool) -> (c: Color)
    ensures
        c@ == background_of(carried@, points_up),
        c@.in_unit(),
{
    proof {
        use_type_invariant(&carried);
    }
    if points_up {
        carried
    } else {
        Color::black()
    }
}

/// The color of a ray of carried color `carried` that struck a surface of
/// base color `base`, given the colors that its child rays brought back.
pub fn shade(carried: Color, base: Color, light: &Vec<Color>) -> (c: Color)
    ensures
        c@ == shaded(carried@, base@, light@),
        c@.in_unit(),
        no_brighter(c@, product(carried@, base@)),
        no_brighter(c@, carried@),
        light@.len() == 0 ==> c@ == (Rgb { r: 0, g: 0, b: 0 }),
{
    let surface = carried.mul(base);
    let mean = Color::mean(light);
    let c = surface.mul(mean);
    proof {
        use_type_invariant(&carried);
        use_type_invariant(&base);
        lemma_attenuated_bounded(carried@.r, base@.r);
        lemma_attenuated_bounded(carried@.g, base@.g);
        lemma_attenuated_bounded(carried@.b, base@.b);
        lemma_attenuated_bounded(surface@.r, mean@.r);
        lemma_attenuated_bounded(surface@.g, mean@.g);
        lemma_attenuated_bounded(surface@.b, mean@.b);
    }
    c
}

/// The color that the ray `r` brings back from the scene.
///
/// A ray that strikes nothing takes the background color. A ray that strikes
/// a surface has its carried color attenuated by the surface's base color;
/// the surface's rule scatters child rays, each is followed with one unit
/// less of depth budget, and without branching budget once the depth
/// budget is spent; the mean of what they bring back attenuates the color
/// once more. [`is_radiance`] says so exactly; the clauses after it are
/// what follows for every outcome of the random scattering.
pub fn ray_color<V: Vector, H: Hittable<V>>(r: Ray<V>, hittables: &[H], max_rebounds: i32) -> (c: Color)
    ensures
        is_radiance(r, hittables@, max_rebounds as int, c@),
        c@.in_unit(),
        no_brighter(c@, r.color@),
        all_miss(hit_results(hittables@, &r)) ==> c@ == background_of(r.color@, r.direction.points_up_spec()),
        forall|i: int| is_nearest(hit_results(hittables@, &r), i) ==> {
            let hit = (#[trigger] hit_results(hittables@, &r)[i]).unwrap();
            &&& no_brighter(c@, product(r.color@, hit.texture.base_color@))
            &&& child_count(hit.texture.scatter_rule, r.scatter_potential as int) == 0 ==> c@ == (Rgb {
                r: 0,
                g: 0,
                b: 0,
            })
        },
    decreases bounces_left(max_rebounds as int, r.scatter_potential as int),
{
    let ghost hits = hit_results(hittables@, &r);
    match fetch_hittable(&r, hittables) {
        None => {
            let c = background(r.color, r.direction().points_up());
            proof {
                use_type_invariant(&r.color);
            }
            c
        },
        Some(hit_record) => {
            let scattered_rays = scatter(hit_record.texture.scatter_rule, &r, &hit_record.p, &hit_record.normal);
            let child_rebounds: i32 = if max_rebounds > i32::MIN {
                max_rebounds - 1
            } else {
                max_rebounds
            };
            let mut light: Vec<Color> = Vec::new();
            let mut k: usize = 0;
            while k < scattered_rays.len()
                invariant
                    k <= scattered_rays.len(),
                    light.len() == k,
                    scattered_rays.len() == child_count(
                        hit_record.texture.scatter_rule,
                        r.scatter_potential as int,
                    ),
                    child_rebounds == next_rebounds(max_rebounds as int),
                    scattered_rays.len() > 0 ==> max_rebounds > 0 || r.scatter_potential >= 1,
                    forall|j: int|
                        0 <= j < k ==> is_radiance(
                            followed(scattered_rays@[j], max_rebounds as int),
                            hittables@,
                            next_rebounds(max_rebounds as int),
                            (#[trigger] light@[j])@,
                        ),
                decreases scattered_rays.len() - k,
            {
                let scattered: Ray<V> = scattered_rays[k];
                let potential: i32 = if max_rebounds <= 0 {
                    0
                } else {
                    scattered.scatter_potential
                };
                let ray = Ray::new(scattered.origin, scattered.direction, scattered.color, potential);
                assert(ray == followed(scattered, max_rebounds as int));
                proof {
                    lemma_bounces_decrease(
                        max_rebounds as int,
                        r.scatter_potential as int,
                        scattered.scatter_potential as int,
                    );
                }
                light.push(ray_color(ray, hittables, child_rebounds));
                k = k + 1;
            }
            let c = shade(r.color, hit_record.texture.base_color, &light);
            proof {
                let found = choose|i: int| is_nearest(hits, i) && (#[trigger] hits[i]) == Some(hit_record);
                assert forall|i: int| is_nearest(hits, i) implies i == found by {
                    lemma_nearest_unique(hits, i, found);
                }
                assert(nearest_hit(hits) == hit_record);
                assert(lights(scattered_rays@, light@));
            }
            c
        },
    }
}

} // verus!
