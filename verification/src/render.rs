//! The render entry point: one color per pixel, from a grid of primary rays.
use vstd::prelude::*;
use vstd::arithmetic::div_mod::lemma_fundamental_div_mod_converse;
use crate::color::{mean_of, Color, Rgb};
use crate::estimator::{is_radiance, ray_color};
use crate::geometry::{Hittable, Ray, Vector};

verus! {

/// The largest side of the grid of samples in a pixel: the number of
/// samples, its square, is the branching budget of each primary ray.
pub const MAX_SAMPLES_SQRT: u32 = 46_340;

/// Where the primary rays come from. The methods are the caller's
/// arithmetic. Each is a function of its arguments alone, and a name ending
/// in `_spec` names what it returns. Nothing holds an implementation to
/// this; one written in unverified code gives each name the body of its
/// method.
pub trait Camera<V> {
    /// What [`Camera::origin`] returns.
    spec fn origin_spec(&self) -> V;

    /// What [`Camera::direction`] returns for these arguments.
    spec fn direction_spec(&self, row: u32, col: u32, k: u32, l: u32, samples_sqrt: u32) -> V;

    /// The point from which every primary ray leaves.
    fn origin(&self) -> (o: V)
        ensures
            o == self.origin_spec(),
    ;

    /// The direction of the primary ray through the sample `(k, l)` of the
    /// pixel in row `row` and column `col`, where each pixel holds a grid of
    /// `samples_sqrt` by `samples_sqrt` samples.
    fn direction(&self, row: u32, col: u32, k: u32, l: u32, samples_sqrt: u32) -> (d: V)
        ensures
            d == self.direction_spec(row, col, k, l, samples_sqrt),
    ;
}

/// The primary ray through the sample `(k, l)` of the pixel `(row, col)`: it
/// leaves the camera with the color of full intensity, and with the number
/// of samples in a pixel as its branching budget.
pub open spec fn primary_ray<V, C: Camera<V>>(
    camera: &C,
    row: u32,
    col: u32,
    k: u32,
    l: u32,
    samples_sqrt: u32,
) -> Ray<V> {
    Ray {
        origin: camera.origin_spec(),
        direction: camera.direction_spec(row, col, k, l, samples_sqrt),
        color: Color::full(),
        scatter_potential: (samples_sqrt * samples_sqrt) as i32,
    }
}

/// `light` holds, for each sample of the pixel `(row, col)`, a color that
/// the sample's primary ray may bring back from the scene. The samples stand
/// in the order of the grid: sample `(k, l)` is entry `k * samples_sqrt + l`.
pub open spec fn is_sampling<V: Vector, H: Hittable<V>, C: Camera<V>>(
    light: Seq<Color>,
    camera: &C,
    hittables: Seq<H>,
    row: u32,
    col: u32,
    samples_sqrt: u32,
    max_rebounds: int,
) -> bool {
    &&& light.len() == samples_sqrt * samples_sqrt
    &&& forall|i: int|
        0 <= i < light.len() ==> is_radiance(
            primary_ray(
                camera,
                row,
                col,
                (i / (samples_sqrt as int)) as u32,
                (i % (samples_sqrt as int)) as u32,
                samples_sqrt,
            ),
            hittables,
            max_rebounds,
            (#[trigger] light[i])@,
        )
}

/// `c` is a color of the pixel `(row, col)`: the mean of the colors that
/// the primary rays of its samples bring back.
pub open spec fn is_pixel<V: Vector, H: Hittable<V>, C: Camera<V>>(
    c: Rgb,
    camera: &C,
    hittables: Seq<H>,
    row: u32,
    col: u32,
    samples_sqrt: u32,
    max_rebounds: int,
) -> bool {
    exists|light: Seq<Color>|
        #[trigger] is_sampling(light, camera, hittables, row, col, samples_sqrt, max_rebounds) && mean_of(light)
            == c
}

/// The color of one pixel: a primary ray of neutral color is followed
/// through each sample of the pixel's grid, with the number of samples as
/// its branching budget, and the colors that come back are averaged.
pub fn pixel_color<V: Vector, H: Hittable<V>, C: Camera<V>>(
    camera: &C,
    hittables: &[H],
    row: u32,
    col: u32,
    samples_sqrt: u32,
    max_rebounds: i32,
) -> (c: Color)
    requires
        1 <= samples_sqrt <= MAX_SAMPLES_SQRT,
    ensures
        c@.in_unit(),
        is_pixel(c@, camera, hittables@, row, col, samples_sqrt, max_rebounds as int),
{
    assert(1 <= samples_sqrt * samples_sqrt <= 46_340 * 46_340) by (nonlinear_arith)
        requires 1 <= samples_sqrt <= 46_340;
    let samples: i32 = (samples_sqrt * samples_sqrt) as i32;
    let mut light: Vec<Color> = Vec::new();
    let mut k: u32 = 0;
    while k < samples_sqrt
        invariant
            k <= samples_sqrt,
            1 <= samples_sqrt <= MAX_SAMPLES_SQRT,
            samples == samples_sqrt * samples_sqrt,
            light.len() == k * samples_sqrt,
            forall|i: int|
                0 <= i < light.len() ==> is_radiance(
                    primary_ray(
                        camera,
                        row,
                        col,
                        (i / (samples_sqrt as int)) as u32,
                        (i % (samples_sqrt as int)) as u32,
                        samples_sqrt,
                    ),
                    hittables@,
                    max_rebounds as int,
                    (#[trigger] light[i])@,
                ),
        decreases samples_sqrt - k,
    {
        let mut l: u32 = 0;
        while l < samples_sqrt
            invariant
                k < samples_sqrt,
                l <= samples_sqrt,
                1 <= samples_sqrt <= MAX_SAMPLES_SQRT,
                samples == samples_sqrt * samples_sqrt,
                light.len() == k * samples_sqrt + l,
                forall|i: int|
                    0 <= i < light.len() ==> is_radiance(
                        primary_ray(
                            camera,
                            row,
                            col,
                            (i / (samples_sqrt as int)) as u32,
                            (i % (samples_sqrt as int)) as u32,
                            samples_sqrt,
                        ),
                        hittables@,
                        max_rebounds as int,
                        (#[trigger] light[i])@,
                    ),
            decreases samples_sqrt - l,
        {
            let direction = camera.direction(row, col, k, l, samples_sqrt);
            let r = Ray::new(camera.origin(), direction, Color::white(), samples);
            let sample = ray_color(r, hittables, max_rebounds);
            proof {
                let i = light.len() as int;
                lemma_fundamental_div_mod_converse(i, samples_sqrt as int, k as int, l as int);
                assert(r == primary_ray(camera, row, col, k, l, samples_sqrt));
            }
            light.push(sample);
            l = l + 1;
        }
        assert((k + 1) * samples_sqrt == k * samples_sqrt + samples_sqrt) by (nonlinear_arith);
        k = k + 1;
    }
    let c = Color::mean(&light);
    assert(is_sampling(light@, camera, hittables@, row, col, samples_sqrt, max_rebounds as int));
    c
}

/// One row of the image: the color of each of its `width` pixels, from the
/// left.
pub fn render_row<V: Vector, H: Hittable<V>, C: Camera<V>>(
    camera: &C,
    hittables: &[H],
    row: u32,
    width: u32,
    samples_sqrt: u32,
    max_rebounds: i32,
) -> (pixels: Vec<Color>)
    requires
        1 <= samples_sqrt <= MAX_SAMPLES_SQRT,
    ensures
        pixels.len() == width,
        forall|col: int|
            0 <= col < width ==> is_pixel(
                (#[trigger] pixels[col])@,
                camera,
                hittables@,
                row,
                col as u32,
                samples_sqrt,
                max_rebounds as int,
            ),
{
    let mut pixels: Vec<Color> = Vec::new();
    let mut col: u32 = 0;
    while col < width
        invariant
            col <= width,
            1 <= samples_sqrt <= MAX_SAMPLES_SQRT,
            pixels.len() == col,
            forall|j: int|
                0 <= j < col ==> is_pixel(
                    (#[trigger] pixels[j])@,
                    camera,
                    hittables@,
                    row,
                    j as u32,
                    samples_sqrt,
                    max_rebounds as int,
                ),
        decreases width - col,
    {
        let c = pixel_color(camera, hittables, row, col, samples_sqrt, max_rebounds);
        pixels.push(c);
        col = col + 1;
    }
    pixels
}

/// The image, row by row from the top: the color of every pixel of a grid of
/// `height` rows and `width` columns. The pixel in row `row` and column `col`
/// is entry `row * width + col`.
pub fn render<V: Vector, H: Hittable<V>, C: Camera<V>>(
    camera: &C,
    hittables: &[H],
    width: u32,
    height: u32,
    samples_sqrt: u32,
    max_rebounds: i32,
) -> (pixels: Vec<Color>)
    requires
        1 <= samples_sqrt <= MAX_SAMPLES_SQRT,
    ensures
        pixels.len() == width * height,
        forall|i: int|
            0 <= i < pixels.len() ==> is_pixel(
                (#[trigger] pixels[i])@,
                camera,
                hittables@,
                (i / (width as int)) as u32,
                (i % (width as int)) as u32,
                samples_sqrt,
                max_rebounds as int,
            ),
{
    let mut pixels: Vec<Color> = Vec::new();
    let mut row: u32 = 0;
    while row < height
        invariant
            row <= height,
            1 <= samples_sqrt <= MAX_SAMPLES_SQRT,
            pixels.len() == row * width,
            forall|i: int|
                0 <= i < pixels.len() ==> is_pixel(
                    (#[trigger] pixels[i])@,
                    camera,
                    hittables@,
                    (i / (width as int)) as u32,
                    (i % (width as int)) as u32,
                    samples_sqrt,
                    max_rebounds as int,
                ),
        decreases height - row,
    {
        let line = render_row(camera, hittables, row, width, samples_sqrt, max_rebounds);
        let mut col: u32 = 0;
        while col < width
            invariant
                row < height,
                col <= width,
                line.len() == width,
                pixels.len() == row * width + col,
                forall|j: int|
                    0 <= j < width ==> is_pixel(
                        (#[trigger] line[j])@,
                        camera,
                        hittables@,
                        row,
                        j as u32,
                        samples_sqrt,
                        max_rebounds as int,
                    ),
                forall|i: int|
                    0 <= i < pixels.len() ==> is_pixel(
                        (#[trigger] pixels[i])@,
                        camera,
                        hittables@,
                        (i / (width as int)) as u32,
                        (i % (width as int)) as u32,
                        samples_sqrt,
                        max_rebounds as int,
                    ),
            decreases width - col,
        {
            proof {
                lemma_fundamental_div_mod_converse(pixels.len() as int, width as int, row as int, col as int);
            }
            pixels.push(line[col as usize]);
            col = col + 1;
        }
        assert((row + 1) * width == row * width + width) by (nonlinear_arith);
        row = row + 1;
    }
    pixels
}

} // verus!
