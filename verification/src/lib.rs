//! A small offline path tracer: spheres, a pinhole camera, a recursive
//! diffuse integrator, and a render driver that turns a scene into a
//! row-major RGB byte buffer.
//!
//! All values are carried in saturating fixed-point arithmetic (see
//! [`fixed`]), so a render is an exact mathematical function of the
//! scene, the camera, the image geometry and the sampling seed.

use vstd::prelude::*;

pub mod camera;
pub mod fixed;
pub mod hittable;
pub mod ray;
pub mod rng;
pub mod sphere;
pub mod vector3;

use crate::camera::{spec_camera, spec_get_ray, Camera, CameraV, ASPECT_RATIO, FOCAL_LENGTH, VIEWPORT_HEIGHT};
use crate::fixed::{tdiv, FP};
use crate::hittable::{HittableList, HittableV};
use crate::ray::{ray_color, spec_background, spec_ray_color, Ray};
use crate::rng::{pixel_seed, rng_next_state, rng_unit, Rng};
use crate::vector3::{v3_add, v3_length, v3_unit, v3_zero, Color3, Vector3, V3};

verus! {

/// Channels are clamped to this value (0.999 in fixed-point form)
/// before scaling, so that a full-intensity channel maps to byte 255
/// rather than overflowing to 256.
pub const CLAMP_MAX: i64 = 65470;

/// What went wrong before a render could start.
#[derive(Clone, Copy, Debug, PartialEq, Eq, Structural)]
pub enum RenderError {
    /// The requested image is smaller than two pixels in some direction.
    InvalidDimensions,
    /// Zero samples per pixel were requested.
    InvalidSampleCount,
}

/// The text of a render error.
pub open spec fn spec_error_message(e: RenderError) -> Seq<char> {
    match e {
        RenderError::InvalidDimensions => "image dimensions must be at least 2 by 2"@,
        RenderError::InvalidSampleCount => "samples per pixel must be at least 1"@,
    }
}

impl RenderError {
    /// A human-readable description of the error.
    pub fn message(&self) -> (m: &'static str)
        ensures
            m@ == spec_error_message(*self),
    {
        match self {
            RenderError::InvalidDimensions => "image dimensions must be at least 2 by 2",
            RenderError::InvalidSampleCount => "samples per pixel must be at least 1",
        }
    }
}

/// How sample positions are jittered inside each pixel: not at all
/// (every sample at the pixel corner, for exact reference renders), or
/// by a pseudo-random stream derived from a seed.
#[derive(Clone, Copy, Debug, PartialEq, Eq, Structural)]
pub enum Jitter {
    Zero,
    Seeded(u64),
}

/// The seed a jitter mode contributes to the per-pixel streams.
pub open spec fn spec_jitter_seed(jitter: Jitter) -> u64 {
    match jitter {
        Jitter::Zero => 0,
        Jitter::Seeded(s) => s,
    }
}

/// `x` forced into `[min, max]`.
pub open spec fn spec_clamp(x: int, min: int, max: int) -> int {
    if x < min {
        min
    } else if x > max {
        max
    } else {
        x
    }
}

/// Forces `x` into `[min, max]`.
pub fn clamp(x: i64, min: i64, max: i64) -> (r: i64)
    ensures
        r as int == spec_clamp(x as int, min as int, max as int),
{
    if x < min {
        min
    } else if x > max {
        max
    } else {
        x
    }
}

/// The byte stored for one color channel: the accumulated channel
/// averaged over the samples, clamped to `[0, 0.999]`, scaled by 256
/// and truncated.
pub open spec fn quantize_channel(sum: int, samples: int) -> int {
    tdiv(256 * spec_clamp(tdiv(sum, samples), 0, CLAMP_MAX as int), FP as int)
}

/// Quantizes one accumulated color channel to a byte. An average at or
/// above the clamp ceiling reads 255; one at or below zero reads 0.
pub fn quantize(sum: i64, samples: u32) -> (b: u8)
    requires
        samples >= 1,
    ensures
        b as int == quantize_channel(sum as int, samples as int),
        tdiv(sum as int, samples as int) >= CLAMP_MAX ==> b == 255,
        tdiv(sum as int, samples as int) <= 0 ==> b == 0,
{
    let avg_wide: i128 = crate::fixed::tdiv_i128(sum as i128, samples as i128);
    let avg: i64 = avg_wide as i64;
    let cl: i64 = clamp(avg, 0, CLAMP_MAX);
    let q: i128 = crate::fixed::tdiv_i128((256 * cl) as i128, FP as i128);
    proof {
        vstd::arithmetic::div_mod::lemma_div_is_ordered(256 * (cl as int), 16760320, FP as int);
    }
    q as u8
}

/// Writes the three quantized channel bytes of an accumulated pixel
/// color at `index`, leaving every other byte of the buffer alone.
pub fn write_color(pixels: &mut Vec<u8>, pixel_color: Color3, index: usize, samples_per_pixel: u32)
    requires
        samples_per_pixel >= 1,
        index + 2 < old(pixels).len(),
    ensures
        final(pixels).len() == old(pixels).len(),
        final(pixels)@[index as int] as int == quantize_channel(
            pixel_color@.x,
            samples_per_pixel as int,
        ),
        final(pixels)@[index + 1] as int == quantize_channel(
            pixel_color@.y,
            samples_per_pixel as int,
        ),
        final(pixels)@[index + 2] as int == quantize_channel(
            pixel_color@.z,
            samples_per_pixel as int,
        ),
        forall|j: int|
            0 <= j < old(pixels).len() && j != index && j != index + 1 && j != index + 2
                ==> final(pixels)@[j] == old(pixels)@[j],
{
    let r: u8 = quantize(pixel_color.x(), samples_per_pixel);
    let g: u8 = quantize(pixel_color.y(), samples_per_pixel);
    let b: u8 = quantize(pixel_color.z(), samples_per_pixel);
    pixels.set(index, r);
    pixels.set(index + 1, g);
    pixels.set(index + 2, b);
}

/// The jitter offsets drawn for one sample from stream state `s`, and
/// the state that remains: zero offsets (and an untouched stream) when
/// jitter is off, two draws otherwise.
pub open spec fn spec_jitter_draw(jitter: Jitter, s: u64) -> (int, int, u64) {
    match jitter {
        Jitter::Zero => (0, 0, s),
        Jitter::Seeded(_) => (
            rng_unit(s),
            rng_unit(rng_next_state(s)),
            rng_next_state(rng_next_state(s)),
        ),
    }
}

/// One sample added onto the accumulator `st`: jitter the viewport
/// position of pixel `(row, col)`, cast the camera ray, and add the
/// color it sees.
pub open spec fn spec_sample_step(
    cam: CameraV,
    objs: Seq<HittableV>,
    width: u32,
    height: u32,
    row: u32,
    col: u32,
    max_depth: u32,
    jitter: Jitter,
    st: (V3, u64),
) -> (V3, u64) {
    let draw = spec_jitter_draw(jitter, st.1);
    let u = crate::fixed::fx_div(col * FP + draw.0, (width - 1) * FP);
    let v = crate::fixed::fx_div((height - row) * FP + draw.1, (height - 1) * FP);
    let rc = spec_ray_color(spec_get_ray(cam, u, v), objs, max_depth as nat, draw.2);
    (v3_add(st.0, rc.0), rc.1)
}

/// The accumulated color of pixel `(row, col)` after `n` samples, and
/// the stream state left behind. The stream starts from the pixel's own
/// seed, so pixels and rows are independent of one another.
pub open spec fn spec_pixel_sum(
    cam: CameraV,
    objs: Seq<HittableV>,
    width: u32,
    height: u32,
    row: u32,
    col: u32,
    max_depth: u32,
    jitter: Jitter,
    n: nat,
) -> (V3, u64)
    decreases n,
{
    if n == 0 {
        (v3_zero(), pixel_seed(spec_jitter_seed(jitter), row, col))
    } else {
        spec_sample_step(
            cam,
            objs,
            width,
            height,
            row,
            col,
            max_depth,
            jitter,
            spec_pixel_sum(cam, objs, width, height, row, col, max_depth, jitter, (n - 1) as nat),
        )
    }
}

/// The three bytes of pixel `(row, col)`.
pub open spec fn spec_pixel_bytes(
    cam: CameraV,
    objs: Seq<HittableV>,
    width: u32,
    height: u32,
    row: u32,
    col: u32,
    samples_per_pixel: u32,
    max_depth: u32,
    jitter: Jitter,
) -> Seq<u8> {
    let st = spec_pixel_sum(
        cam,
        objs,
        width,
        height,
        row,
        col,
        max_depth,
        jitter,
        samples_per_pixel as nat,
    );
    seq![
        quantize_channel(st.0.x, samples_per_pixel as int) as u8,
        quantize_channel(st.0.y, samples_per_pixel as int) as u8,
        quantize_channel(st.0.z, samples_per_pixel as int) as u8,
    ]
}

/// The bytes of the first `ncols` pixels of a row.
pub open spec fn spec_render_cols(
    cam: CameraV,
    objs: Seq<HittableV>,
    width: u32,
    height: u32,
    row: u32,
    samples_per_pixel: u32,
    max_depth: u32,
    jitter: Jitter,
    ncols: int,
) -> Seq<u8>
    decreases ncols,
{
    if ncols <= 0 {
        Seq::empty()
    } else {
        spec_render_cols(
            cam,
            objs,
            width,
            height,
            row,
            samples_per_pixel,
            max_depth,
            jitter,
            ncols - 1,
        ) + spec_pixel_bytes(
            cam,
            objs,
            width,
            height,
            row,
            (ncols - 1) as u32,
            samples_per_pixel,
            max_depth,
            jitter,
        )
    }
}

/// The bytes of one full row of the image.
pub open spec fn spec_render_line(
    cam: CameraV,
    objs: Seq<HittableV>,
    width: u32,
    height: u32,
    row: u32,
    samples_per_pixel: u32,
    max_depth: u32,
    jitter: Jitter,
) -> Seq<u8> {
    spec_render_cols(
        cam,
        objs,
        width,
        height,
        row,
        samples_per_pixel,
        max_depth,
        jitter,
        width as int,
    )
}

/// The bytes of the first `nrows` rows of the image, top row first.
pub open spec fn spec_render_rows(
    cam: CameraV,
    objs: Seq<HittableV>,
    width: u32,
    height: u32,
    samples_per_pixel: u32,
    max_depth: u32,
    jitter: Jitter,
    nrows: int,
) -> Seq<u8>
    decreases nrows,
{
    if nrows <= 0 {
        Seq::empty()
    } else {
        spec_render_rows(
            cam,
            objs,
            width,
            height,
            samples_per_pixel,
            max_depth,
            jitter,
            nrows - 1,
        ) + spec_render_line(
            cam,
            objs,
            width,
            height,
            (nrows - 1) as u32,
            samples_per_pixel,
            max_depth,
            jitter,
        )
    }
}

/// The whole image: row-major RGB bytes, top row first.
pub open spec fn spec_render(
    cam: CameraV,
    objs: Seq<HittableV>,
    width: u32,
    height: u32,
    samples_per_pixel: u32,
    max_depth: u32,
    jitter: Jitter,
) -> Seq<u8> {
    spec_render_rows(
        cam,
        objs,
        width,
        height,
        samples_per_pixel,
        max_depth,
        jitter,
        height as int,
    )
}

pub proof fn lemma_render_cols_len(
    cam: CameraV,
    objs: Seq<HittableV>,
    width: u32,
    height: u32,
    row: u32,
    samples_per_pixel: u32,
    max_depth: u32,
    jitter: Jitter,
    ncols: int,
)
    requires
        ncols >= 0,
    ensures
        spec_render_cols(
            cam,
            objs,
            width,
            height,
            row,
            samples_per_pixel,
            max_depth,
            jitter,
            ncols,
        ).len() == 3 * ncols,
    decreases ncols,
{
    if ncols > 0 {
        lemma_render_cols_len(
            cam,
            objs,
            width,
            height,
            row,
            samples_per_pixel,
            max_depth,
            jitter,
            ncols - 1,
        );
    }
}

pub proof fn lemma_render_rows_len(
    cam: CameraV,
    objs: Seq<HittableV>,
    width: u32,
    height: u32,
    samples_per_pixel: u32,
    max_depth: u32,
    jitter: Jitter,
    nrows: int,
)
    requires
        nrows >= 0,
    ensures
        spec_render_rows(
            cam,
            objs,
            width,
            height,
            samples_per_pixel,
            max_depth,
            jitter,
            nrows,
        ).len() == 3 * width * nrows,
    decreases nrows,
{
    if nrows <= 0 {
        assert(3 * width * nrows <= 0) by (nonlinear_arith)
            requires
                nrows <= 0,
                0 <= width,
        ;
    } else {
        assert(3 * width * nrows == 3 * width * (nrows - 1) + 3 * width) by (nonlinear_arith);
        lemma_render_rows_len(
            cam,
            objs,
            width,
            height,
            samples_per_pixel,
            max_depth,
            jitter,
            nrows - 1,
        );
        lemma_render_cols_len(
            cam,
            objs,
            width,
            height,
            (nrows - 1) as u32,
            samples_per_pixel,
            max_depth,
            jitter,
            width as int,
        );
    }
}

/// Renders one row of the image: for each pixel, accumulates the given
/// number of samples and quantizes the average to three bytes.
#[verifier::rlimit(60)]
#[verifier::loop_isolation(false)]
pub fn render_line(
    camera: &Camera,
    scene: &HittableList,
    width: u32,
    height: u32,
    row: u32,
    samples_per_pixel: u32,
    max_depth: u32,
    jitter: Jitter,
) -> (line: Vec<u8>)
    requires
        width >= 2,
        height >= 2,
        row < height,
        samples_per_pixel >= 1,
        3 * width <= usize::MAX,
    ensures
        line@ == spec_render_line(
            camera@,
            scene@,
            width,
            height,
            row,
            samples_per_pixel,
            max_depth,
            jitter,
        ),
        line.len() == 3 * width,
{
    let seed: u64 = match jitter {
        Jitter::Zero => 0,
        Jitter::Seeded(s) => s,
    };
    let mut line: Vec<u8> = Vec::new();
    let mut col: u32 = 0;
    while col < width
        invariant
            col <= width,
            line@ == spec_render_cols(
                camera@,
                scene@,
                width,
                height,
                row,
                samples_per_pixel,
                max_depth,
                jitter,
                col as int,
            ),
            line.len() == 3 * col,
        decreases width - col,
    {
        let mut prng: Rng = Rng::seeded(seed, row, col);
        let mut pixel_color: Color3 = Vector3::zero();
        let mut s: u32 = 0;
        while s < samples_per_pixel
            invariant
                s <= samples_per_pixel,
                (pixel_color@, prng.state) == spec_pixel_sum(
                    camera@,
                    scene@,
                    width,
                    height,
                    row,
                    col,
                    max_depth,
                    jitter,
                    s as nat,
                ),
            decreases samples_per_pixel - s,
        {
            let du: i64;
            let dv: i64;
            match jitter {
                Jitter::Zero => {
                    du = 0;
                    dv = 0;
                },
                Jitter::Seeded(_) => {
                    du = prng.next_unit();
                    dv = prng.next_unit();
                },
            }
            let u: i64 = crate::fixed::div_fx((col as i64) * FP + du, ((width - 1) as i64) * FP);
            let v: i64 = crate::fixed::div_fx(
                ((height - row) as i64) * FP + dv,
                ((height - 1) as i64) * FP,
            );
            let r: Ray = camera.get_ray(u, v);
            let c: Color3 = ray_color(r, scene, max_depth, &mut prng);
            pixel_color = pixel_color.add(c);
            s = s + 1;
        }
        let b0: u8 = quantize(pixel_color.x(), samples_per_pixel);
        let b1: u8 = quantize(pixel_color.y(), samples_per_pixel);
        let b2: u8 = quantize(pixel_color.z(), samples_per_pixel);
        line.push(b0);
        line.push(b1);
        line.push(b2);
        proof {
            assert(line@ =~= spec_render_cols(
                camera@,
                scene@,
                width,
                height,
                row,
                samples_per_pixel,
                max_depth,
                jitter,
                col as int,
            ) + spec_pixel_bytes(
                camera@,
                scene@,
                width,
                height,
                row,
                col,
                samples_per_pixel,
                max_depth,
                jitter,
            ));
        }
        col = col + 1;
    }
    line
}

/// Renders the image row by row into one flat buffer: row-major RGB
/// bytes, top row first. Fails fast, before any work, when the image
/// would be smaller than 2 by 2 pixels or no samples were requested.
/// The result is a function of the arguments alone: the same scene,
/// camera, geometry and jitter seed always give the same bytes.
#[verifier::loop_isolation(false)]
pub fn render(
    camera: &Camera,
    scene: &HittableList,
    width: u32,
    height: u32,
    samples_per_pixel: u32,
    max_depth: u32,
    jitter: Jitter,
) -> (result: Result<Vec<u8>, RenderError>)
    requires
        3 * width * height <= usize::MAX,
    ensures
        match result {
            Ok(buf) => {
                &&& width >= 2
                &&& height >= 2
                &&& samples_per_pixel >= 1
                &&& buf@ == spec_render(
                    camera@,
                    scene@,
                    width,
                    height,
                    samples_per_pixel,
                    max_depth,
                    jitter,
                )
                &&& buf.len() == 3 * width * height
            },
            Err(e) => {
                &&& (width < 2 || height < 2 || samples_per_pixel == 0)
                &&& e == (if width < 2 || height < 2 {
                    RenderError::InvalidDimensions
                } else {
                    RenderError::InvalidSampleCount
                })
            },
        },
{
    if width < 2 || height < 2 {
        return Err(RenderError::InvalidDimensions);
    }
    if samples_per_pixel == 0 {
        return Err(RenderError::InvalidSampleCount);
    }
    let mut buf: Vec<u8> = Vec::new();
    let mut row: u32 = 0;
    while row < height
        invariant
            row <= height,
            buf@ == spec_render_rows(
                camera@,
                scene@,
                width,
                height,
                samples_per_pixel,
                max_depth,
                jitter,
                row as int,
            ),
            buf.len() == 3 * width * row,
        decreases height - row,
    {
        proof {
            assert(3 * width * (row + 1) <= 3 * width * height) by (nonlinear_arith)
                requires
                    0 <= width,
                    0 <= row,
                    row < height,
            ;
            assert(3 * width <= 3 * width * height) by (nonlinear_arith)
                requires
                    2 <= width,
                    2 <= height,
            ;
            assert(3 * width * (row + 1) == 3 * width * row + 3 * width) by (nonlinear_arith);
        }
        let mut line: Vec<u8> = render_line(
            camera,
            scene,
            width,
            height,
            row,
            samples_per_pixel,
            max_depth,
            jitter,
        );
        buf.append(&mut line);
        row = row + 1;
    }
    Ok(buf)
}

/// Rendering is deterministic: two result buffers of the same scene,
/// camera, image geometry and jitter mode are byte-identical, because
/// the rendered bytes are a function of those inputs alone.
pub proof fn lemma_render_deterministic(
    b1: Seq<u8>,
    b2: Seq<u8>,
    cam: CameraV,
    objs: Seq<HittableV>,
    width: u32,
    height: u32,
    samples_per_pixel: u32,
    max_depth: u32,
    jitter: Jitter,
)
    requires
        b1 == spec_render(cam, objs, width, height, samples_per_pixel, max_depth, jitter),
        b2 == spec_render(cam, objs, width, height, samples_per_pixel, max_depth, jitter),
    ensures
        b1 == b2,
{
}


/// The background color of the two corner directions of the top
/// row of a 2 by 2 zero-jitter render, evaluated outright.
proof fn lemma_p6_background_row0(x: int)
    requires
        x * x == 13574114064,
    ensures
        spec_background(V3 { x: x, y: 196608, z: -65536 }) == (V3 { x: 35603, y: 47576, z: 65536 }),
{
    let d = V3 { x: x, y: 196608, z: -65536 };
    assert(196608 * 196608 == 38654705664) by (nonlinear_arith);
    assert((-65536) * (-65536) == 4294967296) by (nonlinear_arith);
    assert(crate::vector3::v3_sq_sum(d) == 56523787024);
    assert(237747 * 237747 == 56523636009) by (nonlinear_arith);
    assert(237748 * 237748 == 56524111504) by (nonlinear_arith);
    crate::fixed::lemma_isqrt_unique(56523787024, 237747);
    assert(v3_length(d) == 237747);
    assert(196608 * 65536 == 12884901888) by (nonlinear_arith);
    assert(54195 * 237747 + 203223 == 12884901888) by (nonlinear_arith);
    crate::fixed::lemma_tdiv_eval(196608int * 65536, 237747, 54195, 203223);  // the unit direction's y component
    assert(v3_unit(d).y == 54195);
    assert(32768 * 119731 == 3923345408) by (nonlinear_arith);
    assert(59865 * 65536 + 32768 == 3923345408) by (nonlinear_arith);
    crate::fixed::lemma_tdiv_eval(32768int * 119731, 65536, 59865, 32768);  // t, the gradient blend weight
    assert(65536 * 5671 == 371654656) by (nonlinear_arith);
    assert(5671 * 65536 + 0 == 371654656) by (nonlinear_arith);
    crate::fixed::lemma_tdiv_eval(65536int * 5671, 65536, 5671, 0);
    assert(32768 * 59865 == 1961656320) by (nonlinear_arith);
    assert(29932 * 65536 + 32768 == 1961656320) by (nonlinear_arith);
    crate::fixed::lemma_tdiv_eval(32768int * 59865, 65536, 29932, 32768);
    assert(45875 * 59865 == 2746306875) by (nonlinear_arith);
    assert(41905 * 65536 + 20795 == 2746306875) by (nonlinear_arith);
    crate::fixed::lemma_tdiv_eval(45875int * 59865, 65536, 41905, 20795);
    assert(65536 * 59865 == 3923312640) by (nonlinear_arith);
    assert(59865 * 65536 + 0 == 3923312640) by (nonlinear_arith);
    crate::fixed::lemma_tdiv_eval(65536int * 59865, 65536, 59865, 0);
}

/// The background color of the two corner directions of the bottom
/// row of a 2 by 2 zero-jitter render, evaluated outright.
proof fn lemma_p6_background_row1(x: int)
    requires
        x * x == 13574114064,
    ensures
        spec_background(V3 { x: x, y: 65536, z: -65536 }) == (V3 { x: 41940, y: 51378, z: 65536 }),
{
    let d = V3 { x: x, y: 65536, z: -65536 };
    assert(65536 * 65536 == 4294967296) by (nonlinear_arith);
    assert((-65536) * (-65536) == 4294967296) by (nonlinear_arith);
    assert(crate::vector3::v3_sq_sum(d) == 22164048656);
    assert(148875 * 148875 == 22163765625) by (nonlinear_arith);
    assert(148876 * 148876 == 22164063376) by (nonlinear_arith);
    crate::fixed::lemma_isqrt_unique(22164048656, 148875);
    assert(v3_length(d) == 148875);
    assert(65536 * 65536 == 4294967296) by (nonlinear_arith);
    assert(28849 * 148875 + 72421 == 4294967296) by (nonlinear_arith);
    crate::fixed::lemma_tdiv_eval(65536int * 65536, 148875, 28849, 72421);  // the unit direction's y component
    assert(v3_unit(d).y == 28849);
    assert(32768 * 94385 == 3092807680) by (nonlinear_arith);
    assert(47192 * 65536 + 32768 == 3092807680) by (nonlinear_arith);
    crate::fixed::lemma_tdiv_eval(32768int * 94385, 65536, 47192, 32768);  // t, the gradient blend weight
    assert(65536 * 18344 == 1202192384) by (nonlinear_arith);
    assert(18344 * 65536 + 0 == 1202192384) by (nonlinear_arith);
    crate::fixed::lemma_tdiv_eval(65536int * 18344, 65536, 18344, 0);
    assert(32768 * 47192 == 1546387456) by (nonlinear_arith);
    assert(23596 * 65536 + 0 == 1546387456) by (nonlinear_arith);
    crate::fixed::lemma_tdiv_eval(32768int * 47192, 65536, 23596, 0);
    assert(45875 * 47192 == 2164933000) by (nonlinear_arith);
    assert(33034 * 65536 + 16776 == 2164933000) by (nonlinear_arith);
    crate::fixed::lemma_tdiv_eval(45875int * 47192, 65536, 33034, 16776);
    assert(65536 * 47192 == 3092774912) by (nonlinear_arith);
    assert(47192 * 65536 + 0 == 3092774912) by (nonlinear_arith);
    crate::fixed::lemma_tdiv_eval(65536int * 47192, 65536, 47192, 0);
}


/// A 2 by 2 render of an empty scene with zero jitter and one sample
/// per pixel reproduces the exact background gradient at the four
/// viewport corners, byte for byte, whatever the bounce budget.
pub proof fn lemma_two_by_two_empty_render(max_depth: u32)
    requires
        max_depth >= 1,
    ensures
        spec_render(
            spec_camera(ASPECT_RATIO as int, VIEWPORT_HEIGHT as int, FOCAL_LENGTH as int),
            Seq::<HittableV>::empty(),
            2,
            2,
            1,
            max_depth,
            Jitter::Zero,
        ) == seq![139u8, 185u8, 255u8, 139u8, 185u8, 255u8, 163u8, 200u8, 255u8, 163u8, 200u8, 255u8],
{
    reveal_with_fuel(spec_render_rows, 3);
    reveal_with_fuel(spec_render_cols, 3);
    reveal_with_fuel(spec_pixel_sum, 2);
    let cam = spec_camera(ASPECT_RATIO as int, VIEWPORT_HEIGHT as int, FOCAL_LENGTH as int);
    let objs = Seq::<HittableV>::empty();

    // The derived camera fields.
    assert(116508 * 131072 == 15270936576) by (nonlinear_arith);
    assert(233016 * 65536 + 0 == 15270936576) by (nonlinear_arith);
    crate::fixed::lemma_tdiv_eval(116508int * 131072, 65536, 233016, 0);
    assert(233016 * 65536 == 15270936576) by (nonlinear_arith);
    assert(116508 * 131072 + 0 == 15270936576) by (nonlinear_arith);
    crate::fixed::lemma_tdiv_eval(233016int * 65536, 131072, 116508, 0);
    assert(131072 * 65536 == 8589934592) by (nonlinear_arith);
    assert(65536 * 131072 + 0 == 8589934592) by (nonlinear_arith);
    crate::fixed::lemma_tdiv_eval(131072int * 65536, 131072, 65536, 0);
    assert(0 * 65536 == 0) by (nonlinear_arith);
    assert(0 * 131072 + 0 == 0) by (nonlinear_arith);
    crate::fixed::lemma_tdiv_eval(0int * 65536, 131072, 0, 0);
    assert(cam == (CameraV {
        origin: V3 { x: 0, y: 0, z: 0 },
        lower_left_corner: V3 { x: -116508, y: -65536, z: -65536 },
        horizontal: V3 { x: 233016, y: 0, z: 0 },
        vertical: V3 { x: 0, y: 131072, z: 0 },
    }));

    // The four corner viewport positions and their rays.
    assert(0 * 65536 == 0) by (nonlinear_arith);
    assert(0 * 65536 + 0 == 0) by (nonlinear_arith);
    crate::fixed::lemma_tdiv_eval(0int * 65536, 65536, 0, 0);
    assert(65536 * 65536 == 4294967296) by (nonlinear_arith);
    assert(65536 * 65536 + 0 == 4294967296) by (nonlinear_arith);
    crate::fixed::lemma_tdiv_eval(65536int * 65536, 65536, 65536, 0);
    assert(131072 * 65536 == 8589934592) by (nonlinear_arith);
    assert(131072 * 65536 + 0 == 8589934592) by (nonlinear_arith);
    crate::fixed::lemma_tdiv_eval(131072int * 65536, 65536, 131072, 0);
    // The scaled viewport offsets of those positions.
    assert(233016 * 65536 == 15270936576) by (nonlinear_arith);
    assert(233016 * 65536 + 0 == 15270936576) by (nonlinear_arith);
    crate::fixed::lemma_tdiv_eval(233016int * 65536, 65536, 233016, 0);
    assert(233016 * 0 == 0) by (nonlinear_arith);
    assert(0 * 65536 + 0 == 0) by (nonlinear_arith);
    crate::fixed::lemma_tdiv_eval(233016int * 0, 65536, 0, 0);
    assert(131072 * 131072 == 17179869184) by (nonlinear_arith);
    assert(262144 * 65536 + 0 == 17179869184) by (nonlinear_arith);
    crate::fixed::lemma_tdiv_eval(131072int * 131072, 65536, 262144, 0);
    assert(0 * 131072 == 0) by (nonlinear_arith);
    assert(0 * 65536 + 0 == 0) by (nonlinear_arith);
    crate::fixed::lemma_tdiv_eval(0int * 131072, 65536, 0, 0);
    assert(0 * 65536 == 0) by (nonlinear_arith);
    assert(0 * 65536 + 0 == 0) by (nonlinear_arith);
    crate::fixed::lemma_tdiv_eval(0int * 65536, 65536, 0, 0);
    assert(spec_get_ray(cam, 0, 131072).direction == (V3 { x: -116508, y: 196608, z: -65536 }));
    assert(spec_get_ray(cam, 65536, 131072).direction == (V3 { x: 116508, y: 196608, z: -65536 }));
    assert(spec_get_ray(cam, 0, 65536).direction == (V3 { x: -116508, y: 65536, z: -65536 }));
    assert(spec_get_ray(cam, 65536, 65536).direction == (V3 { x: 116508, y: 65536, z: -65536 }));

    // Each pixel sees the background of its corner direction.
    assert((-116508) * (-116508) == 13574114064) by (nonlinear_arith);
    assert(116508 * 116508 == 13574114064) by (nonlinear_arith);
    lemma_p6_background_row0(-116508);
    lemma_p6_background_row0(116508);
    lemma_p6_background_row1(-116508);
    lemma_p6_background_row1(116508);

    // Quantize the two distinct colors.
    assert(35603 * 1 + 0 == 35603) by (nonlinear_arith);
    crate::fixed::lemma_tdiv_eval(35603int, 1, 35603, 0);
    assert(256 * 35603 == 9114368) by (nonlinear_arith);
    assert(139 * 65536 + 4864 == 9114368) by (nonlinear_arith);
    crate::fixed::lemma_tdiv_eval(256int * 35603, 65536, 139, 4864);
    assert(47576 * 1 + 0 == 47576) by (nonlinear_arith);
    crate::fixed::lemma_tdiv_eval(47576int, 1, 47576, 0);
    assert(256 * 47576 == 12179456) by (nonlinear_arith);
    assert(185 * 65536 + 55296 == 12179456) by (nonlinear_arith);
    crate::fixed::lemma_tdiv_eval(256int * 47576, 65536, 185, 55296);
    assert(41940 * 1 + 0 == 41940) by (nonlinear_arith);
    crate::fixed::lemma_tdiv_eval(41940int, 1, 41940, 0);
    assert(256 * 41940 == 10736640) by (nonlinear_arith);
    assert(163 * 65536 + 54272 == 10736640) by (nonlinear_arith);
    crate::fixed::lemma_tdiv_eval(256int * 41940, 65536, 163, 54272);
    assert(51378 * 1 + 0 == 51378) by (nonlinear_arith);
    crate::fixed::lemma_tdiv_eval(51378int, 1, 51378, 0);
    assert(256 * 51378 == 13152768) by (nonlinear_arith);
    assert(200 * 65536 + 45568 == 13152768) by (nonlinear_arith);
    crate::fixed::lemma_tdiv_eval(256int * 51378, 65536, 200, 45568);
    assert(65536 * 1 + 0 == 65536) by (nonlinear_arith);
    crate::fixed::lemma_tdiv_eval(65536int, 1, 65536, 0);
    assert(256 * 65470 == 16760320) by (nonlinear_arith);
    assert(255 * 65536 + 48640 == 16760320) by (nonlinear_arith);
    crate::fixed::lemma_tdiv_eval(256int * 65470, 65536, 255, 48640);

    // Assemble the four pixels, row-major, top row first.
    assert(spec_render_rows(cam, objs, 2, 2, 1, max_depth, Jitter::Zero, 2) =~= seq![
        139u8, 185u8, 255u8, 139u8, 185u8, 255u8, 163u8, 200u8, 255u8, 163u8, 200u8, 255u8,
    ]);
}


/// Relies on `rand::random`: draws a value from the thread-local
/// generator. Nothing is promised of the result; the caller states what
/// holds of every outcome. One caveat to the library's no-panic story:
/// rand aborts if the operating system's entropy source fails when the
/// thread-local generator is first seeded or reseeded, an environmental
/// failure (like allocation failure) that no precondition can exclude.
pub assume_specification<T>[ rand::random::<T> ]() -> (r: T)
    where
        rand::distr::StandardUniform: rand::distr::Distribution<T>,
;

/// Renders with a freshly drawn random seed, and returns the seed next
/// to the bytes: whatever seed comes out, the bytes are exactly the
/// deterministic render for that seed.
pub fn render_random(
    camera: &Camera,
    scene: &HittableList,
    width: u32,
    height: u32,
    samples_per_pixel: u32,
    max_depth: u32,
) -> (result: Result<(u64, Vec<u8>), RenderError>)
    requires
        3 * width * height <= usize::MAX,
    ensures
        match result {
            Ok(sb) => {
                &&& width >= 2
                &&& height >= 2
                &&& samples_per_pixel >= 1
                &&& sb.1@ == spec_render(
                    camera@,
                    scene@,
                    width,
                    height,
                    samples_per_pixel,
                    max_depth,
                    Jitter::Seeded(sb.0),
                )
            },
            Err(e) => {
                &&& (width < 2 || height < 2 || samples_per_pixel == 0)
                &&& e == (if width < 2 || height < 2 {
                    RenderError::InvalidDimensions
                } else {
                    RenderError::InvalidSampleCount
                })
            },
        },
{
    let seed: u64 = rand::random::<u64>();
    match render(camera, scene, width, height, samples_per_pixel, max_depth, Jitter::Seeded(seed)) {
        Ok(buf) => Ok((seed, buf)),
        Err(e) => Err(e),
    }
}

} // verus!
