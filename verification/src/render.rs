//! The render driver: image geometry, per-pixel sampling, gamma
//! correction and quantization, and the scan over the pixel grid.
//!
//! Pixels are mutually independent: `render_pixel` reads only shared
//! immutable scene and camera state, so a caller may map it over the grid
//! in any order, or in parallel, and `render` is the plain row-major
//! scan, top row first.

use vstd::prelude::*;
use crate::camera::{Camera, camera_wf, camera_offset3, camera_ray_dir3};
use crate::fixed::{SCALE, tdiv, ssqrt, fsqrt, lemma_tdiv_le, lemma_tdiv_quot};
use crate::hittable::{HittableList, scene_wf, DEPTH_MAX, OCAP, STEP};
use crate::ray_color;
use crate::{ray_color_rel, black3};
use crate::rng::in_unit_disk;
use crate::shapes::Sphere;
use crate::vec3::{Vec3, V3, add3, normsq3, NSQ_MIN};

verus! {

/// The fixed-point aspect ratio sixteen to nine.
pub const ASPECT_16_9: i64 = 1_777_777;

/// Image geometry: width, fixed-point aspect ratio, and the height
/// derived from them.
pub struct ImageSettings {
    pub aspect_ratio: i64,
    pub img_width: u64,
    pub img_height: u64,
}

/// Image dimensions the renderer accepts: at least two pixels along each
/// axis, and capped so that every index computation stays in range.
pub open spec fn image_wf(s: ImageSettings) -> bool {
    &&& 2 <= s.img_width <= 100_000
    &&& 2 <= s.img_height <= 1_000_000
}

impl ImageSettings {
    /// Derives the height as the width over the aspect ratio, rounded
    /// toward zero.
    pub fn new(img_width: u64, aspect_ratio: i64) -> (r: ImageSettings)
        requires
            2 <= img_width <= 100_000,
            100_000 <= aspect_ratio <= 10_000_000,
            ((img_width * (SCALE as u64)) as int) / (aspect_ratio as int) >= 2,
        ensures
            r.img_width == img_width,
            r.aspect_ratio == aspect_ratio,
            r.img_height == ((img_width * (SCALE as u64)) as int) / (aspect_ratio as int),
            image_wf(r),
    {
        proof {
            assert(img_width * (SCALE as u64) <= 100_000_000_000int) by (nonlinear_arith)
                requires img_width <= 100_000u64, SCALE == 1_000_000i64;
        }
        let img_height = (img_width * (SCALE as u64)) / (aspect_ratio as u64);
        proof {
            assert(img_width * (SCALE as u64) <= (aspect_ratio as int) * 1_000_000)
                by (nonlinear_arith)
                requires img_width <= 100_000u64, aspect_ratio >= 100_000i64,
                    SCALE == 1_000_000i64;
            vstd::arithmetic::div_mod::lemma_multiply_divide_le(
                (img_width * (SCALE as u64)) as int,
                aspect_ratio as int,
                1_000_000int,
            );
        }
        ImageSettings { aspect_ratio, img_width, img_height }
    }

    /// An image with the aspect ratio sixteen to nine and the given
    /// width.
    pub fn from_width(width: u64) -> (r: ImageSettings)
        requires
            4 <= width <= 100_000,
        ensures
            r.img_width == width,
            r.aspect_ratio == ASPECT_16_9,
            r.img_height == ((width * (SCALE as u64)) as int) / (ASPECT_16_9 as int),
            image_wf(r),
    {
        proof {
            assert(width * (SCALE as u64) >= 4_000_000) by (nonlinear_arith)
                requires width >= 4u64, SCALE == 1_000_000i64;
            vstd::arithmetic::div_mod::lemma_div_is_ordered(
                4_000_000int,
                (width * (SCALE as u64)) as int,
                ASPECT_16_9 as int,
            );
        }
        ImageSettings::new(width, ASPECT_16_9)
    }

    pub fn num_pixels(&self) -> (r: u64)
        requires
            image_wf(*self),
        ensures
            r == self.img_width * self.img_height,
    {
        proof {
            assert(self.img_width * self.img_height <= 100_000_000_000int) by (nonlinear_arith)
                requires self.img_width <= 100_000u64, self.img_height <= 1_000_000u64;
        }
        self.img_width * self.img_height
    }
}

/// The final value of one color channel: the sample average, clamped to
/// nonnegative, gamma-corrected by the fixed-point square root, clamped
/// below one, and scaled into a byte.
pub open spec fn quantize3(sum: int, samples: int) -> int {
    let avg = tdiv(sum, samples);
    let avg_c = if avg < 0 {
        0
    } else {
        avg
    };
    let g = ssqrt(avg_c);
    let g_c = if g > 999_000 {
        999_000
    } else {
        g
    };
    tdiv(g_c * 256, SCALE as int)
}

/// Quantize one channel's sample sum into a byte; exactly `quantize3`,
/// and never above 255.
pub fn finalize_channel(sum: i64, samples: i64) -> (b: u8)
    requires
        1 <= samples <= 1_000_000,
        -(3 * (SCALE as int) * samples) <= sum <= 3 * (SCALE as int) * samples,
    ensures
        b as int == quantize3(sum as int, samples as int),
        b <= 255,
{
    proof {
        assert(-((samples as int) * 3_000_000) <= sum <= (samples as int) * 3_000_000)
            by (nonlinear_arith)
            requires
                -(3 * (SCALE as int) * samples) <= sum <= 3 * (SCALE as int) * samples,
                SCALE == 1_000_000i64;
        lemma_tdiv_quot(sum as int, samples as int, 3_000_000int);
    }
    let avg = sum / samples;
    let avg_c = if avg < 0 {
        0
    } else {
        avg
    };
    let g = fsqrt(avg_c);
    proof {
        // g * g <= avg_c * SCALE <= 3 * SCALE^2 < (2 * SCALE)^2.
        if g >= 2 * SCALE {
            assert((g as int) * (g as int) >= (2 * (SCALE as int)) * (2 * (SCALE as int)))
                by (nonlinear_arith)
                requires g >= 2 * SCALE, SCALE == 1_000_000i64;
            assert((avg_c as int) * (SCALE as int) <= 3_000_000_000_000int) by (nonlinear_arith)
                requires 0 <= avg_c <= 3_000_000i64, SCALE == 1_000_000i64;
        }
    }
    let g_c = if g > 999_000 {
        999_000
    } else {
        g
    };
    proof {
        lemma_tdiv_le(g_c * 256, SCALE as int, 255_744_000int);
        crate::fixed::lemma_tdiv_mono(g_c * 256, 255_744_000int, SCALE as int);
        assert(tdiv(255_744_000int, SCALE as int) == 255);
    }
    let b = (g_c * 256) / SCALE;
    b as u8
}

/// Sum of the first components of a sample sequence.
pub open spec fn sum_x3(cs: Seq<V3>) -> int
    decreases cs.len(),
{
    if cs.len() == 0 {
        0
    } else {
        sum_x3(cs.drop_last()) + cs.last().x
    }
}

/// Sum of the second components of a sample sequence.
pub open spec fn sum_y3(cs: Seq<V3>) -> int
    decreases cs.len(),
{
    if cs.len() == 0 {
        0
    } else {
        sum_y3(cs.drop_last()) + cs.last().y
    }
}

/// Sum of the third components of a sample sequence.
pub open spec fn sum_z3(cs: Seq<V3>) -> int
    decreases cs.len(),
{
    if cs.len() == 0 {
        0
    } else {
        sum_z3(cs.drop_last()) + cs.last().z
    }
}

/// One admissible pixel sample: a color the tracer's relation admits for
/// a camera ray through some viewport point and lens draw — or black,
/// when the drawn direction falls below the grid's resolution.
pub open spec fn pixel_sample_ok(items: Seq<Sphere>, cam: Camera, depth: int, c: V3) -> bool {
    exists|w: (int, int, V3)|
        {
            &&& 0 <= w.0 <= SCALE as int
            &&& 0 <= w.1 <= SCALE as int
            &&& in_unit_disk(w.2)
            &&& {
                let off = camera_offset3(cam, w.2);
                let ro = add3(cam.origin@, off);
                let rd = camera_ray_dir3(cam, w.0, w.1, off);
                if normsq3(rd) >= NSQ_MIN as int {
                    ray_color_rel(items, ro, rd, depth, c)
                } else {
                    c == black3()
                }
            }
        }
}

/// How a finished pixel relates to the scene and camera: its bytes are
/// the quantized averages of some sequence of per-sample colors, each
/// admissible under the tracer's ray-color relation.
pub open spec fn pixel_ok3(
    items: Seq<Sphere>,
    cam: Camera,
    samples: int,
    depth: int,
    rgb: (u8, u8, u8),
) -> bool {
    exists|cs: Seq<V3>|
        {
            &&& cs.len() == samples
            &&& (forall|k: int|
                0 <= k < cs.len() ==> pixel_sample_ok(items, cam, depth, #[trigger] cs[k]))
            &&& rgb.0 == quantize3(sum_x3(cs), samples)
            &&& rgb.1 == quantize3(sum_y3(cs), samples)
            &&& rgb.2 == quantize3(sum_z3(cs), samples)
        }
}

/// One pixel of the image: `samples_per_pixel` jittered camera rays
/// through pixel `(i, j)` (column, row from the bottom), resolved
/// recursively against the scene, averaged, gamma-corrected and
/// quantized into a byte per channel.
pub fn render_pixel(
    world: &HittableList,
    camera: &Camera,
    image: &ImageSettings,
    i: u64,
    j: u64,
    samples_per_pixel: u64,
    max_depth: usize,
) -> (rgb: (u8, u8, u8))
    requires
        scene_wf(world@),
        camera_wf(*camera),
        image_wf(*image),
        i < image.img_width,
        j < image.img_height,
        1 <= samples_per_pixel <= 1_000_000,
        max_depth <= DEPTH_MAX,
    ensures
        pixel_ok3(world@, *camera, samples_per_pixel as int, max_depth as int, rgb),
{
    let denominator_u = (image.img_width - 1) as i64;
    let denominator_v = (image.img_height - 1) as i64;
    proof {
        lemma_base_frac(i as int, image.img_width as int);
        lemma_base_frac(j as int, image.img_height as int);
    }
    let u_base = ((i as i64) * SCALE) / denominator_u;
    let v_base = ((j as i64) * SCALE) / denominator_v;

    let mut sum_x: i64 = 0;
    let mut sum_y: i64 = 0;
    let mut sum_z: i64 = 0;
    let mut sample: u64 = 0;
    let ghost mut cs = Seq::<V3>::empty();
    while sample < samples_per_pixel
        invariant
            scene_wf(world@),
            camera_wf(*camera),
            sample <= samples_per_pixel,
            samples_per_pixel <= 1_000_000,
            0 <= u_base <= SCALE,
            0 <= v_base <= SCALE,
            1 <= denominator_u,
            1 <= denominator_v,
            -(3 * (SCALE as int) * sample) <= sum_x <= 3 * (SCALE as int) * sample,
            -(3 * (SCALE as int) * sample) <= sum_y <= 3 * (SCALE as int) * sample,
            -(3 * (SCALE as int) * sample) <= sum_z <= 3 * (SCALE as int) * sample,
            max_depth <= DEPTH_MAX,
            cs.len() == sample,
            sum_x == sum_x3(cs),
            sum_y == sum_y3(cs),
            sum_z == sum_z3(cs),
            forall|k: int|
                0 <= k < cs.len() ==> pixel_sample_ok(world@, *camera, max_depth as int,
                    #[trigger] cs[k]),
        decreases samples_per_pixel - sample,
    {
        let ju = crate::rng::random_range(-SCALE, SCALE);
        let jv = crate::rng::random_range(-SCALE, SCALE);
        proof {
            crate::fixed::lemma_tdiv_le(ju as int, denominator_u as int, SCALE as int);
            crate::fixed::lemma_tdiv_le(jv as int, denominator_v as int, SCALE as int);
        }
        let u_extra = ju / denominator_u;
        let v_extra = jv / denominator_v;
        let s_raw = u_base + u_extra;
        let t_raw = v_base + v_extra;
        let s_val = if s_raw < 0 {
            0
        } else if s_raw > SCALE {
            SCALE
        } else {
            s_raw
        };
        let t_val = if t_raw < 0 {
            0
        } else if t_raw > SCALE {
            SCALE
        } else {
            t_raw
        };

        let ray = camera.get_ray(s_val, t_val);
        let nsq = ray.direction.norm_squared();
        let color = if nsq >= NSQ_MIN {
            proof {
                assert(OCAP - (max_depth as int) * (STEP as int) >= 110_000_000) by {
                    assert((max_depth as int) * (STEP as int) <= 64 * (STEP as int))
                        by (nonlinear_arith)
                        requires 0 <= max_depth <= 64, STEP == 20_000_000_000_000i64;
                }
            }
            ray_color(&ray, world, max_depth)
        } else {
            // A ray the grid cannot resolve contributes no light.
            Vec3::from_element(0)
        };

        proof {
            assert(3 * (SCALE as int) * sample <= 3_000_000_000_000int) by (nonlinear_arith)
                requires sample <= 1_000_000u64, SCALE == 1_000_000i64;
            assert(3 * (SCALE as int) * (sample + 1) == 3 * (SCALE as int) * sample + 3 * (
            SCALE as int)) by (nonlinear_arith);
            // This sample is admissible: witness the viewport point and
            // the lens draw behind the camera ray.
            let rd = choose|rd: V3|
                in_unit_disk(rd) && ray.origin@ == add3(
                    camera.origin@,
                    camera_offset3(*camera, rd),
                ) && ray.direction@ == camera_ray_dir3(*camera, s_val as int, t_val as int,
                    camera_offset3(*camera, rd));
            let w = (s_val as int, t_val as int, rd);
            assert(camera_ray_dir3(*camera, w.0, w.1, camera_offset3(*camera, w.2))
                == ray.direction@);
            assert(pixel_sample_ok(world@, *camera, max_depth as int, color@));
            let cs2 = cs.push(color@);
            assert(cs2.drop_last() =~= cs);
            assert(sum_x3(cs2) == sum_x3(cs) + color@.x);
            assert(sum_y3(cs2) == sum_y3(cs) + color@.y);
            assert(sum_z3(cs2) == sum_z3(cs) + color@.z);
            assert forall|k: int|
                0 <= k < cs2.len() implies pixel_sample_ok(world@, *camera, max_depth as int,
                    #[trigger] cs2[k]) by {
                if k < cs.len() {
                    assert(cs2[k] == cs[k]);
                } else {
                    assert(cs2[k] == color@);
                }
            }
            cs = cs2;
        }
        sum_x = sum_x + color.x;
        sum_y = sum_y + color.y;
        sum_z = sum_z + color.z;
        sample = sample + 1;
    }

    let rgb = (
        finalize_channel(sum_x, samples_per_pixel as i64),
        finalize_channel(sum_y, samples_per_pixel as i64),
        finalize_channel(sum_z, samples_per_pixel as i64),
    );
    proof {
        assert({
            &&& cs.len() == samples_per_pixel
            &&& (forall|k: int|
                0 <= k < cs.len() ==> pixel_sample_ok(world@, *camera, max_depth as int,
                    #[trigger] cs[k]))
            &&& rgb.0 == quantize3(sum_x3(cs), samples_per_pixel as int)
            &&& rgb.1 == quantize3(sum_y3(cs), samples_per_pixel as int)
            &&& rgb.2 == quantize3(sum_z3(cs), samples_per_pixel as int)
        });
    }
    rgb
}

/// The pixel fraction `i / (n - 1)` lies in the unit interval.
proof fn lemma_base_frac(i: int, n: int)
    requires
        0 <= i < n,
        2 <= n <= 1_000_000,
    ensures
        0 <= (i * (SCALE as int)) / (n - 1) <= SCALE as int,
{
    vstd::arithmetic::mul::lemma_mul_nonnegative(i, SCALE as int);
    vstd::arithmetic::div_mod::lemma_div_pos_is_pos(i * (SCALE as int), n - 1);
    vstd::arithmetic::div_mod::lemma_multiply_divide_le(i * (SCALE as int), n - 1, SCALE as int);
    assert(i * (SCALE as int) <= (n - 1) * (SCALE as int)) by (nonlinear_arith)
        requires 0 <= i <= n - 1;
}

/// One row of the image, left to right, for row index `j` counted from
/// the bottom of the picture.
pub fn render_row(
    world: &HittableList,
    camera: &Camera,
    image: &ImageSettings,
    j: u64,
    samples_per_pixel: u64,
    max_depth: usize,
) -> (row: Vec<(u8, u8, u8)>)
    requires
        scene_wf(world@),
        camera_wf(*camera),
        image_wf(*image),
        j < image.img_height,
        1 <= samples_per_pixel <= 1_000_000,
        max_depth <= DEPTH_MAX,
    ensures
        row@.len() == image.img_width,
        forall|k: int|
            0 <= k < row@.len() ==> pixel_ok3(world@, *camera, samples_per_pixel as int,
                max_depth as int, #[trigger] row@[k]),
{
    let mut row: Vec<(u8, u8, u8)> = Vec::new();
    let mut i: u64 = 0;
    while i < image.img_width
        invariant
            scene_wf(world@),
            camera_wf(*camera),
            image_wf(*image),
            j < image.img_height,
            1 <= samples_per_pixel <= 1_000_000,
            max_depth <= DEPTH_MAX,
            i <= image.img_width,
            row@.len() == i,
            forall|k: int|
                0 <= k < row@.len() ==> pixel_ok3(world@, *camera, samples_per_pixel as int,
                    max_depth as int, #[trigger] row@[k]),
        decreases image.img_width - i,
    {
        let pixel = render_pixel(world, camera, image, i, j, samples_per_pixel, max_depth);
        row.push(pixel);
        i = i + 1;
    }
    row
}

/// The whole image in row-major order, top row first: the pixel at image
/// row `r` (from the top) and column `c` sits at index
/// `r * img_width + c`.
pub fn render(
    world: &HittableList,
    camera: &Camera,
    image: &ImageSettings,
    samples_per_pixel: u64,
    max_depth: usize,
) -> (pixels: Vec<(u8, u8, u8)>)
    requires
        scene_wf(world@),
        camera_wf(*camera),
        image_wf(*image),
        1 <= samples_per_pixel <= 1_000_000,
        max_depth <= DEPTH_MAX,
    ensures
        pixels@.len() == image.img_width * image.img_height,
        forall|k: int|
            0 <= k < pixels@.len() ==> pixel_ok3(world@, *camera, samples_per_pixel as int,
                max_depth as int, #[trigger] pixels@[k]),
{
    let mut pixels: Vec<(u8, u8, u8)> = Vec::new();
    let mut done: u64 = 0;
    while done < image.img_height
        invariant
            scene_wf(world@),
            camera_wf(*camera),
            image_wf(*image),
            1 <= samples_per_pixel <= 1_000_000,
            max_depth <= DEPTH_MAX,
            done <= image.img_height,
            pixels@.len() == image.img_width * done,
            forall|k: int|
                0 <= k < pixels@.len() ==> pixel_ok3(world@, *camera, samples_per_pixel as int,
                    max_depth as int, #[trigger] pixels@[k]),
        decreases image.img_height - done,
    {
        let j = image.img_height - 1 - done;
        let row = render_row(world, camera, image, j, samples_per_pixel, max_depth);
        let mut k: usize = 0;
        let row_len = row.len();
        while k < row_len
            invariant
                row_len == row@.len(),
                k <= row_len,
                pixels@.len() == image.img_width * done + k,
                row_len == image.img_width,
                scene_wf(world@),
                camera_wf(*camera),
                1 <= samples_per_pixel <= 1_000_000,
                max_depth <= DEPTH_MAX,
                forall|m: int|
                    0 <= m < row@.len() ==> pixel_ok3(world@, *camera, samples_per_pixel as int,
                        max_depth as int, #[trigger] row@[m]),
                forall|m: int|
                    0 <= m < pixels@.len() ==> pixel_ok3(world@, *camera,
                        samples_per_pixel as int, max_depth as int, #[trigger] pixels@[m]),
            decreases row_len - k,
        {
            let pixel = row[k];
            pixels.push(pixel);
            k = k + 1;
        }
        proof {
            assert(image.img_width * (done + 1) == image.img_width * done + image.img_width)
                by (nonlinear_arith);
        }
        done = done + 1;
    }
    pixels
}

} // verus!
