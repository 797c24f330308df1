//! Image preprocessing ahead of detection: bounded working resolution,
//! optional denoising, contrast enhancement and adaptive binarization, and
//! corner search over simplified contours.

use vstd::prelude::*;
use crate::gray::{Gray, GrayV};

verus! {

/// Configuration of the preprocessor.
#[derive(Debug, Clone)]
pub struct ProcessingConfig {
    /// Apply adaptive binarization.
    pub adaptive_threshold: bool,
    /// Block size of the adaptive binarization, in pixels.
    pub block_size: u32,
    /// Apply blur denoising.
    pub denoise: bool,
    /// Radius of the denoising blur, in whole pixels.
    pub denoise_strength: u32,
    /// Apply contrast stretching.
    pub enhance_contrast: bool,
}

impl Default for ProcessingConfig {
    /// The stock configuration.
    fn default() -> (r: Self)
        ensures
            r.adaptive_threshold,
            r.block_size == 51,
            r.denoise,
            r.denoise_strength == 1,
            r.enhance_contrast,
    {
        ProcessingConfig {
            adaptive_threshold: true,
            block_size: 51,
            denoise: true,
            denoise_strength: 1,
            enhance_contrast: true,
        }
    }
}

/// What box blurring returns: a function of the samples and radius alone.
pub uninterp spec fn box_blurred(data: Seq<u8>, w: int, h: int, radius: int) -> Seq<u8>;

/// Relies on `imageproc::filter::box_filter`: same dimensions, and the
/// result depends on the samples and the radius alone. The radius is
/// bounded by the pixel range so the filter's `u32` window and row-buffer
/// arithmetic cannot overflow.
#[verifier::external_body]
fn blur_exec(img: &Gray, radius: u32) -> (r: Gray)
    requires
        img.wf(),
        1 <= radius <= 0xffff,
    ensures
        r@.width == img@.width,
        r@.height == img@.height,
        r@.data == box_blurred(img@.data, img@.width, img@.height, radius as int),
        r@.data.len() == img@.data.len(),
{
    let buf = image::GrayImage::from_raw(img.width as u32, img.height as u32, img.data.clone())
        .unwrap();
    let out = imageproc::filter::box_filter(&buf, radius, radius);
    Gray { width: img.width, height: img.height, data: out.into_raw() }
}

/// What adaptive binarization returns: a function of the samples and the
/// block radius alone.
pub uninterp spec fn adaptive_thresholded(data: Seq<u8>, w: int, h: int, radius: int) -> Seq<u8>;

/// Relies on `imageproc::contrast::adaptive_threshold`: same dimensions,
/// each output sample 0 or 255 (a pixel at least as bright as its block
/// mean becomes white), as a function of samples and radius alone. The
/// filter accumulates total brightness in a `u32` integral image, so the
/// image area is bounded to keep that sum in range.
#[verifier::external_body]
fn adaptive_threshold_exec(img: &Gray, radius: u32) -> (r: Gray)
    requires
        img.wf(),
        radius >= 1,
        2 * radius + 1 <= img@.width,
        2 * radius + 1 <= img@.height,
        255 * (img@.width * img@.height) <= 0xffffffff,
    ensures
        r@.width == img@.width,
        r@.height == img@.height,
        r@.data == adaptive_thresholded(img@.data, img@.width, img@.height, radius as int),
        r@.data.len() == img@.data.len(),
        forall|i: int| 0 <= i < r@.data.len() ==> r@.data[i] == 0 || r@.data[i] == 255,
{
    let buf = image::GrayImage::from_raw(img.width as u32, img.height as u32, img.data.clone())
        .unwrap();
    let out = imageproc::contrast::adaptive_threshold(&buf, radius, 0);
    Gray { width: img.width, height: img.height, data: out.into_raw() }
}

/// What the median filter returns: a function of the samples alone.
pub uninterp spec fn median_filtered(data: Seq<u8>, w: int, h: int) -> Seq<u8>;

/// Relies on `imageproc::filter::median_filter` with a 3x3 window: same
/// dimensions, a function of the samples alone.
#[verifier::external_body]
fn median_filter_exec(img: &Gray) -> (r: Gray)
    requires
        img.wf(),
        img@.width > 0,
        img@.height > 0,
    ensures
        r@.width == img@.width,
        r@.height == img@.height,
        r@.data == median_filtered(img@.data, img@.width, img@.height),
        r@.data.len() == img@.data.len(),
{
    let buf = image::GrayImage::from_raw(img.width as u32, img.height as u32, img.data.clone())
        .unwrap();
    let out = imageproc::filter::median_filter(&buf, 1, 1);
    Gray { width: img.width, height: img.height, data: out.into_raw() }
}

/// What triangle-filter resampling returns: a function of the samples and
/// the target dimensions alone.
pub uninterp spec fn resized(data: Seq<u8>, w: int, h: int, nw: int, nh: int) -> Seq<u8>;

/// Relies on `image::imageops::resize` with the triangle filter: the
/// result has exactly the requested dimensions and depends on the samples
/// and dimensions alone.
#[verifier::external_body]
fn resize_exec(img: &Gray, nw: usize, nh: usize) -> (r: Gray)
    requires
        img.wf(),
        1 <= nw <= 0xffff,
        1 <= nh <= 0xffff,
    ensures
        r@.width == nw,
        r@.height == nh,
        r@.data == resized(img@.data, img@.width, img@.height, nw as int, nh as int),
        r@.data.len() == nw * nh,
{
    let buf = image::GrayImage::from_raw(img.width as u32, img.height as u32, img.data.clone())
        .unwrap();
    let out = image::imageops::resize(
        &buf,
        nw as u32,
        nh as u32,
        image::imageops::FilterType::Triangle,
    );
    Gray { width: nw, height: nh, data: out.into_raw() }
}

/// What contour tracing returns: the border points of each connected
/// foreground region, a function of the samples alone.
pub uninterp spec fn contours_of(data: Seq<u8>, w: int, h: int) -> Seq<Seq<(i64, i64)>>;

/// Relies on `imageproc::contours::find_contours`: the traced contours
/// are a function of the samples alone.
#[verifier::external_body]
fn find_contours_exec(img: &Gray) -> (r: Vec<Vec<(i64, i64)>>)
    requires
        img.wf(),
    ensures
        r@.len() == contours_of(img@.data, img@.width, img@.height).len(),
        forall|i: int| 0 <= i < r@.len() ==> (#[trigger] r@[i])@ == contours_of(
            img@.data,
            img@.width,
            img@.height,
        )[i],
        forall|i: int, j: int|
            0 <= i < r@.len() && 0 <= j < r@[i]@.len() ==> {
                let p = #[trigger] r@[i]@[j];
                0 <= p.0 < img@.width && 0 <= p.1 < img@.height
            },
{
    let buf = image::GrayImage::from_raw(img.width as u32, img.height as u32, img.data.clone())
        .unwrap();
    let contours: Vec<imageproc::contours::Contour<i32>> = imageproc::contours::find_contours(
        &buf,
    );
    contours
        .into_iter()
        .map(|c| c.points.into_iter().map(|p| (p.x as i64, p.y as i64)).collect())
        .collect()
}

/// The target dimensions of the bounded working resolution: images beyond
/// `max_dim` on a side are scaled down proportionally (at least one pixel
/// per side).
pub open spec fn resize_dims(w: int, h: int, max_dim: int) -> (int, int) {
    if w <= max_dim && h <= max_dim {
        (w, h)
    } else {
        let nw = if w > h {
            max_dim
        } else {
            if w * max_dim / h > 0 {
                w * max_dim / h
            } else {
                1
            }
        };
        let nh = if w > h {
            if h * max_dim / w > 0 {
                h * max_dim / w
            } else {
                1
            }
        } else {
            max_dim
        };
        (nw, nh)
    }
}

/// The resolution-bounding stage as a whole image: unchanged when both
/// sides are within `md`, else resampled to `resize_dims`.
pub open spec fn resize_stage(v: GrayV, md: int) -> GrayV {
    if v.width <= md && v.height <= md {
        v
    } else {
        let d = resize_dims(v.width, v.height, md);
        GrayV { width: d.0, height: d.1, data: resized(v.data, v.width, v.height, d.0, d.1) }
    }
}

/// The contrast-stretching stage: the sample range mapped linearly onto
/// the full dynamic range, a flat image unchanged.
pub open spec fn contrast_stage(v: GrayV) -> GrayV {
    crate::gray::stretch_spec(v)
}

/// The preprocessor.
pub struct ImageProcessor {
    /// Its configuration.
    pub config: ProcessingConfig,
}

impl ImageProcessor {
    /// A preprocessor with the given configuration.
    pub fn new(config: ProcessingConfig) -> (r: Self)
        ensures
            r.config == config,
    {
        ImageProcessor { config }
    }

    /// Scale the image down so neither side exceeds `max_dimension`,
    /// keeping proportions; smaller images are returned unchanged.
    pub fn resize(&self, img: &Gray, max_dimension: u32) -> (r: Gray)
        requires
            img.wf(),
            1 <= max_dimension <= 0xffff,
        ensures
            r.wf(),
            r@ == resize_stage(img@, max_dimension as int),
            r@.width == resize_dims(img@.width, img@.height, max_dimension as int).0,
            r@.height == resize_dims(img@.width, img@.height, max_dimension as int).1,
    {
        let w = img.width;
        let h = img.height;
        let md = max_dimension as usize;
        if w <= md && h <= md {
            return img.clone();
        }
        let nw: usize;
        let nh: usize;
        if w > h {
            nw = md;
            proof {
                vstd::arithmetic::mul::lemma_mul_upper_bound(h as int, 0xffff, md as int, 0xffff);
                vstd::arithmetic::mul::lemma_mul_nonnegative(h as int, md as int);
                lemma_scaled_dim(h as int, w as int, md as int);
            }
            let t: usize = h * md / w;
            nh = if t > 0 {
                t
            } else {
                1
            };
        } else {
            nh = md;
            proof {
                vstd::arithmetic::mul::lemma_mul_upper_bound(w as int, 0xffff, md as int, 0xffff);
                vstd::arithmetic::mul::lemma_mul_nonnegative(w as int, md as int);
                lemma_scaled_dim(w as int, h as int, md as int);
            }
            let t: usize = w * md / h;
            nw = if t > 0 {
                t
            } else {
                1
            };
        }
        let r = resize_exec(img, nw, nh);
        proof {
            assert(r@ == resize_stage(img@, max_dimension as int));
        }
        r
    }

    /// The effective denoising radius: the configured strength, clamped
    /// to the supported pixel range.
    pub open spec fn denoise_radius_spec(&self) -> int {
        if self.config.denoise_strength <= 0xffff {
            self.config.denoise_strength as int
        } else {
            0xffff
        }
    }

    /// The denoising stage as a whole image: box-blurred at the clamped
    /// strength, unchanged for a zero strength.
    pub open spec fn denoise_stage(&self, v: GrayV) -> GrayV {
        if self.config.denoise_strength >= 1 {
            GrayV {
                width: v.width,
                height: v.height,
                data: box_blurred(v.data, v.width, v.height, self.denoise_radius_spec()),
            }
        } else {
            v
        }
    }

    /// Blur denoising at the configured strength, clamped to the
    /// supported pixel range; a zero strength returns the image
    /// unchanged.
    pub fn denoise(&self, img: &Gray) -> (r: Gray)
        requires
            img.wf(),
        ensures
            r.wf(),
            r@ == self.denoise_stage(img@),
    {
        if self.config.denoise_strength >= 1 {
            let radius: u32 = if self.config.denoise_strength <= 0xffff {
                self.config.denoise_strength
            } else {
                0xffff
            };
            let r = blur_exec(img, radius);
            proof {
                assert(r@ == self.denoise_stage(img@));
            }
            r
        } else {
            img.clone()
        }
    }

    /// Median filtering with a 3x3 window.
    pub fn median_denoise(&self, img: &Gray) -> (r: Gray)
        requires
            img.wf(),
        ensures
            r.wf(),
            r@.width == img@.width,
            r@.height == img@.height,
            (img@.width > 0 && img@.height > 0) ==> r@.data == median_filtered(
                img@.data,
                img@.width,
                img@.height,
            ),
    {
        if img.width > 0 && img.height > 0 {
            median_filter_exec(img)
        } else {
            img.clone()
        }
    }

    /// Contrast stretching over the full dynamic range.
    pub fn enhance_contrast(&self, img: &Gray) -> (r: Gray)
        requires
            img.wf(),
        ensures
            r.wf(),
            r@ == contrast_stage(img@),
    {
        img.contrast_stretch()
    }

    /// The effective adaptive-binarization block radius for an image:
    /// the configured block size, clamped to the image and made odd, then
    /// halved.
    pub open spec fn block_radius_spec(&self, w: int, h: int) -> int {
        let max_block = (if w <= h {
            w
        } else {
            h
        }) - 1;
        let clamped = if self.config.block_size <= max_block {
            self.config.block_size as int
        } else {
            max_block
        };
        let odd = if clamped % 2 == 0 {
            if clamped - 1 >= 3 {
                clamped - 1
            } else {
                3
            }
        } else {
            clamped
        };
        let sz = if odd < 3 {
            3
        } else {
            odd
        };
        sz / 2
    }

    /// Adaptive binarization; an image with a side shorter than four
    /// pixels holds no block and is returned unchanged. `block_size`
    /// names the full window width; the underlying filter takes a radius,
    /// so half the clamped odd window is handed down. The image area is
    /// bounded by the filter's `u32` brightness accumulator.
    pub fn adaptive_threshold(&self, img: &Gray) -> (r: Gray)
        requires
            img.wf(),
            255 * (img@.width * img@.height) <= 0xffffffff,
        ensures
            r.wf(),
            r@ == self.threshold_stage(img@),
            (img@.width >= 4 && img@.height >= 4) ==> forall|i: int|
                0 <= i < r@.data.len() ==> r@.data[i] == 0 || r@.data[i] == 255,
    {
        let w = img.width;
        let h = img.height;
        if w < 4 || h < 4 {
            return img.clone();
        }
        let max_block: usize = (if w <= h {
            w
        } else {
            h
        }) - 1;
        let mut block_size: usize = if (self.config.block_size as usize) <= max_block {
            self.config.block_size as usize
        } else {
            max_block
        };
        if block_size % 2 == 0 {
            block_size = if block_size >= 4 {
                block_size - 1
            } else {
                3
            };
        }
        if block_size < 3 {
            block_size = 3;
        }
        let radius: usize = block_size / 2;
        let r = adaptive_threshold_exec(img, radius as u32);
        proof {
            assert(r@ == self.threshold_stage(img@));
        }
        r
    }

    /// Pixel inversion, for light-on-dark codes.
    pub fn invert(&self, img: &Gray) -> (r: Gray)
        requires
            img.wf(),
        ensures
            r@ == crate::gray::invert_spec(img@),
            r.wf(),
    {
        img.invert()
    }

    /// Lighting normalization: subtract a wide local mean and recenter at
    /// mid-gray.
    pub fn normalize_lighting(&self, img: &Gray) -> (r: Gray)
        requires
            img.wf(),
        ensures
            r.wf(),
            r@.width == img@.width,
            r@.height == img@.height,
            ({
                let blurred = box_blurred(img@.data, img@.width, img@.height, 20);
                blurred.len() == img@.data.len() ==> r@.data == Seq::new(
                    img@.data.len(),
                    |i: int| crate::gray::clamp_u8(img@.data[i] - blurred[i] + 128),
                )
            }),
    {
        let blurred = blur_exec(img, 20);
        let n = img.data.len();
        let mut data: Vec<u8> = Vec::new();
        let mut i: usize = 0;
        while i < n
            invariant
                i <= n,
                n == img@.data.len(),
                blurred@.data.len() == n,
                blurred@.data == box_blurred(img@.data, img@.width, img@.height, 20),
                data@.len() == i,
                forall|j: int| 0 <= j < i ==> data@[j] == crate::gray::clamp_u8(
                    img@.data[j] - blurred@.data[j] + 128,
                ),
            decreases n - i,
        {
            let v: i32 = img.data[i] as i32 - blurred.data[i] as i32 + 128;
            let c: u8 = if v < 0 {
                0
            } else if v > 255 {
                255
            } else {
                v as u8
            };
            data.push(c);
            i = i + 1;
        }
        let r = Gray { width: img.width, height: img.height, data };
        proof {
            assert(r@.data =~= Seq::new(
                img@.data.len(),
                |i: int| crate::gray::clamp_u8(
                    img@.data[i] - box_blurred(img@.data, img@.width, img@.height, 20)[i] + 128,
                ),
            ));
        }
        r
    }

    /// The whole pipeline as a function of the image and the
    /// configuration: the resolution bounded at a thousand pixels a side,
    /// then the configured denoising, contrast and binarization stages
    /// composed in that order.
    pub open spec fn process_spec(&self, v: GrayV) -> GrayV {
        let a = resize_stage(v, 1000);
        let b = if self.config.denoise {
            self.denoise_stage(a)
        } else {
            a
        };
        let c = if self.config.enhance_contrast {
            contrast_stage(b)
        } else {
            b
        };
        if self.config.adaptive_threshold {
            self.threshold_stage(c)
        } else {
            c
        }
    }

    /// The full preprocessing pipeline: bound the resolution, then apply
    /// the configured denoising, contrast and binarization steps in turn.
    pub fn process(&self, img: &Gray) -> (r: Gray)
        requires
            img.wf(),
        ensures
            r.wf(),
            r@ == self.process_spec(img@),
            r@.width == resize_dims(img@.width, img@.height, 1000).0,
            r@.height == resize_dims(img@.width, img@.height, 1000).1,
            ({
                let d = resize_dims(img@.width, img@.height, 1000);
                (self.config.adaptive_threshold && d.0 >= 4 && d.1 >= 4) ==> forall|i: int|
                    0 <= i < r@.data.len() ==> r@.data[i] == 0 || r@.data[i] == 255
            }),
    {
        proof {
            lemma_resize_dims_le(img@.width, img@.height, 1000);
        }
        let mut result = self.resize(img, 1000);
        if self.config.denoise {
            result = self.denoise(&result);
        }
        if self.config.enhance_contrast {
            result = self.enhance_contrast(&result);
        }
        if self.config.adaptive_threshold {
            proof {
                vstd::arithmetic::mul::lemma_mul_upper_bound(
                    result@.width,
                    1000,
                    result@.height,
                    1000,
                );
                vstd::arithmetic::mul::lemma_mul_nonnegative(result@.width, result@.height);
            }
            result = self.adaptive_threshold(&result);
        }
        result
    }
}

/// Both sides of the bounded working resolution stay within the bound.
proof fn lemma_resize_dims_le(w: int, h: int, md: int)
    requires
        1 <= md,
        0 <= w,
        0 <= h,
    ensures
        resize_dims(w, h, md).0 <= md,
        resize_dims(w, h, md).1 <= md,
        0 <= resize_dims(w, h, md).0,
        0 <= resize_dims(w, h, md).1,
{
    if w <= md && h <= md {
    } else if w > h {
        lemma_scaled_dim(h, w, md);
    } else {
        lemma_scaled_dim(w, h, md);
    }
}

/// Twice the signed shoelace sum of a closed polygon.
pub open spec fn shoelace2(pts: Seq<(i64, i64)>, k: int) -> int
    decreases pts.len() - k,
{
    if k < 0 || k >= pts.len() {
        0
    } else {
        let a = pts[k];
        let b = pts[(k + 1) % (pts.len() as int)];
        a.0 * b.1 - b.0 * a.1 + shoelace2(pts, k + 1)
    }
}

/// Whether `p` is one of the points of `pts`.
pub open spec fn point_in(pts: Seq<(i64, i64)>, p: (i64, i64)) -> bool {
    exists|j: int| 0 <= j < pts.len() && pts[j] == p
}

/// Every coordinate lies in the supported pixel range.
pub open spec fn coords_bounded(pts: Seq<(i64, i64)>) -> bool {
    forall|j: int| 0 <= j < pts.len() ==> {
        let p = #[trigger] pts[j];
        0 <= p.0 <= 0xffff && 0 <= p.1 <= 0xffff
    }
}

/// The squared numerator that ranks a point against the chord from `a`
/// to `b`: the squared cross product with the chord, or the squared
/// distance from `a` when the chord is degenerate.
pub open spec fn dp_num(a: (i64, i64), b: (i64, i64), p: (i64, i64)) -> int {
    let dx = b.0 - a.0;
    let dy = b.1 - a.1;
    if dx == 0 && dy == 0 {
        (p.0 - a.0) * (p.0 - a.0) + (p.1 - a.1) * (p.1 - a.1)
    } else {
        let c = dy * p.0 - dx * p.1 + b.0 * a.1 - b.1 * a.0;
        c * c
    }
}

/// The index and numerator of the point ranking highest against the chord
/// from `lo` to `hi`, among the points strictly between `lo` and `i`; the
/// earliest index wins ties, and `(lo, 0)` stands for none.
pub open spec fn dp_best(pts: Seq<(i64, i64)>, lo: int, hi: int, i: int) -> (int, int)
    decreases i - lo,
{
    if i <= lo + 1 {
        (lo, 0)
    } else {
        let p = dp_best(pts, lo, hi, i - 1);
        let num = dp_num(pts[lo], pts[hi], pts[i - 1]);
        if num > p.1 {
            (i - 1, num)
        } else {
            p
        }
    }
}

/// The best index lies between `lo` and `i`, and the numerator is never
/// negative.
pub proof fn lemma_dp_best_bounds(pts: Seq<(i64, i64)>, lo: int, hi: int, i: int)
    requires
        lo < i,
    ensures
        lo <= dp_best(pts, lo, hi, i).0 < i,
        0 <= dp_best(pts, lo, hi, i).1,
        dp_best(pts, lo, hi, i).1 > 0 ==> lo < dp_best(pts, lo, hi, i).0,
    decreases i - lo,
{
    if i > lo + 1 {
        lemma_dp_best_bounds(pts, lo, hi, i - 1);
        let p = dp_best(pts, lo, hi, i - 1);
        let x = pts[i - 1];
        let a = pts[lo];
        let b = pts[hi];
        let dx = b.0 - a.0;
        let dy = b.1 - a.1;
        if dx == 0 && dy == 0 {
            lemma_sq_nonneg(x.0 - a.0);
            lemma_sq_nonneg(x.1 - a.1);
        } else {
            lemma_sq_nonneg(dy * x.0 - dx * x.1 + b.0 * a.1 - b.1 * a.0);
        }
    }
}

/// A square is never negative.
proof fn lemma_sq_nonneg(x: int)
    ensures
        0 <= x * x,
{
    if x >= 0 {
        vstd::arithmetic::mul::lemma_mul_nonnegative(x, x);
    } else {
        vstd::arithmetic::mul::lemma_mul_cancels_negatives(x, x);
        vstd::arithmetic::mul::lemma_mul_nonnegative(-x, -x);
    }
}

/// The points the endpoint-distance reduction keeps between `lo` and
/// `hi`, the point at `hi` itself excluded: while the highest-ranking
/// interior point exceeds the five-pixel tolerance, compared exactly on
/// squared cross products, the range splits at that point.
pub open spec fn dp_seq(pts: Seq<(i64, i64)>, lo: int, hi: int) -> Seq<(i64, i64)>
    decreases hi - lo,
{
    if lo < 0 || hi - lo < 2 {
        seq![pts[lo]]
    } else {
        let b = dp_best(pts, lo, hi, hi);
        let dx = pts[hi].0 - pts[lo].0;
        let dy = pts[hi].1 - pts[lo].1;
        let over = if dx == 0 && dy == 0 {
            b.1 > 25
        } else {
            b.1 > 25 * (dx * dx + dy * dy)
        };
        if over && b.0 > lo {
            proof {
                lemma_dp_best_bounds(pts, lo, hi, hi);
            }
            dp_seq(pts, lo, b.0) + dp_seq(pts, b.0, hi)
        } else {
            seq![pts[lo]]
        }
    }
}

/// Iterative endpoint-distance reduction (Ramer-Douglas-Peucker) of the
/// points between `lo` and `hi`, appending every kept point except the
/// last: exactly `dp_seq`. The kept point farthest from the chord splits
/// the range while its perpendicular distance exceeds the tolerance of
/// five pixels, compared exactly on cross products.
fn dp_append(pts: &Vec<(i64, i64)>, lo: usize, hi: usize, out: &mut Vec<(i64, i64)>)
    requires
        lo <= hi < pts@.len(),
        coords_bounded(pts@),
        forall|j: int| 0 <= j < old(out)@.len() ==> point_in(pts@, #[trigger] old(out)@[j]),
    ensures
        final(out)@ == old(out)@ + dp_seq(pts@, lo as int, hi as int),
        forall|j: int| 0 <= j < final(out)@.len() ==> point_in(pts@, #[trigger] final(out)@[j]),
    decreases hi - lo,
{
    if hi - lo < 2 {
        let p = pts[lo];
        proof {
            assert(point_in(pts@, pts@[lo as int]));
        }
        out.push(p);
        return ;
    }
    let (x1, y1) = pts[lo];
    let (x2, y2) = pts[hi];
    let dx: i128 = x2 as i128 - x1 as i128;
    let dy: i128 = y2 as i128 - y1 as i128;
    let mut best: usize = lo;
    let mut best_num: i128 = 0;
    let mut i: usize = lo + 1;
    while i < hi
        invariant
            lo + 1 <= i <= hi < pts@.len(),
            lo <= best < hi,
            coords_bounded(pts@),
            x1 == pts@[lo as int].0,
            y1 == pts@[lo as int].1,
            x2 == pts@[hi as int].0,
            y2 == pts@[hi as int].1,
            dx == pts@[hi as int].0 - pts@[lo as int].0,
            dy == pts@[hi as int].1 - pts@[lo as int].1,
            0 <= best_num <= 0x100000000000000000,
            best as int == dp_best(pts@, lo as int, hi as int, i as int).0,
            best_num as int == dp_best(pts@, lo as int, hi as int, i as int).1,
        decreases hi - i,
    {
        let (px, py) = pts[i];
        proof {
            let pi = pts@[i as int];
            let plo = pts@[lo as int];
            let phi = pts@[hi as int];
            assert(0 <= pi.0 <= 0xffff && 0 <= pi.1 <= 0xffff);
            assert(0 <= plo.0 <= 0xffff && 0 <= plo.1 <= 0xffff);
            assert(0 <= phi.0 <= 0xffff && 0 <= phi.1 <= 0xffff);
        }
        let num: i128 = if dx == 0 && dy == 0 {
            let ex: i128 = px as i128 - x1 as i128;
            let ey: i128 = py as i128 - y1 as i128;
            proof {
                lemma_sq128(ex as int, 0x10000);
                lemma_sq128(ey as int, 0x10000);
            }
            ex * ex + ey * ey
        } else {
            proof {
                lemma_cross_bound(
                    dy as int,
                    px as int,
                    dx as int,
                    py as int,
                    x2 as int,
                    y1 as int,
                    y2 as int,
                    x1 as int,
                );
            }
            let c: i128 = dy * (px as i128) - dx * (py as i128) + (x2 as i128) * (y1 as i128) - (
            y2 as i128) * (x1 as i128);
            proof {
                lemma_sq128(c as int, 0x400000000);
            }
            c * c
        };
        proof {
            assert(num as int == dp_num(pts@[lo as int], pts@[hi as int], pts@[i as int]));
        }
        if num > best_num {
            best_num = num;
            best = i;
        }
        i = i + 1;
    }
    proof {
        assert(best as int == dp_best(pts@, lo as int, hi as int, hi as int).0);
        assert(best_num as int == dp_best(pts@, lo as int, hi as int, hi as int).1);
    }
    let over = if dx == 0 && dy == 0 {
        best_num > 25
    } else {
        proof {
            lemma_sq128(dx as int, 0x10000);
            lemma_sq128(dy as int, 0x10000);
        }
        let den: i128 = dx * dx + dy * dy;
        best_num > 25 * den
    };
    let ghost base = out@;
    if over && best > lo {
        dp_append(pts, lo, best, out);
        dp_append(pts, best, hi, out);
        proof {
            assert(dp_seq(pts@, lo as int, hi as int) =~= dp_seq(pts@, lo as int, best as int)
                + dp_seq(pts@, best as int, hi as int));
            assert(out@ =~= base + dp_seq(pts@, lo as int, hi as int));
        }
    } else {
        let p = pts[lo];
        proof {
            assert(point_in(pts@, pts@[lo as int]));
        }
        out.push(p);
        proof {
            assert(dp_seq(pts@, lo as int, hi as int) =~= seq![pts@[lo as int]]);
            assert(out@ =~= base + dp_seq(pts@, lo as int, hi as int));
        }
    }
}

/// Twice the signed turn at one vertex of a four-point polygon.
fn quad_cross_exec(v: &Vec<(i64, i64)>, k: usize) -> (r: i128)
    requires
        v@.len() == 4,
        coords_bounded(v@),
        k < 4,
    ensures
        r == quad_cross(v@, k as int),
{
    let a = v[k];
    let b = v[(k + 1) % 4];
    let c = v[(k + 2) % 4];
    proof {
        assert(0 <= v@[k as int].0 <= 0xffff && 0 <= v@[k as int].1 <= 0xffff);
        assert(0 <= v@[((k + 1) % 4) as int].0 <= 0xffff && 0 <= v@[((k + 1) % 4) as int].1
            <= 0xffff);
        assert(0 <= v@[((k + 2) % 4) as int].0 <= 0xffff && 0 <= v@[((k + 2) % 4) as int].1
            <= 0xffff);
        lemma_signed_prod(
            v@[((k + 1) % 4) as int].0 - v@[k as int].0,
            v@[((k + 2) % 4) as int].1 - v@[((k + 1) % 4) as int].1,
        );
        lemma_signed_prod(
            v@[((k + 1) % 4) as int].1 - v@[k as int].1,
            v@[((k + 2) % 4) as int].0 - v@[((k + 1) % 4) as int].0,
        );
    }
    (b.0 as i128 - a.0 as i128) * (c.1 as i128 - b.1 as i128) - (b.1 as i128 - a.1 as i128) * (
    c.0 as i128 - b.0 as i128)
}

/// Whether four bounded vertices form a convex polygon.
fn convex4_exec(v: &Vec<(i64, i64)>) -> (r: bool)
    requires
        v@.len() == 4,
        coords_bounded(v@),
    ensures
        r == convex4(v@),
{
    let c0 = quad_cross_exec(v, 0);
    let c1 = quad_cross_exec(v, 1);
    let c2 = quad_cross_exec(v, 2);
    let c3 = quad_cross_exec(v, 3);
    (c0 >= 0 && c1 >= 0 && c2 >= 0 && c3 >= 0) || (c0 <= 0 && c1 <= 0 && c2 <= 0 && c3 <= 0)
}

/// Twice the absolute shoelace area of a four-point polygon.
fn shoelace4_abs(v: &Vec<(i64, i64)>) -> (r: i128)
    requires
        v@.len() == 4,
        coords_bounded(v@),
    ensures
        r == if shoelace2(v@, 0) >= 0 {
            shoelace2(v@, 0)
        } else {
            -shoelace2(v@, 0)
        },
        0 <= r <= 0x800000000,
{
    let (x0, y0) = v[0];
    let (x1, y1) = v[1];
    let (x2, y2) = v[2];
    let (x3, y3) = v[3];
    proof {
        assert(0 <= v@[0].0 <= 0xffff && 0 <= v@[0].1 <= 0xffff);
        assert(0 <= v@[1].0 <= 0xffff && 0 <= v@[1].1 <= 0xffff);
        assert(0 <= v@[2].0 <= 0xffff && 0 <= v@[2].1 <= 0xffff);
        assert(0 <= v@[3].0 <= 0xffff && 0 <= v@[3].1 <= 0xffff);
        lemma_signed_prod(v@[0].0 as int, v@[1].1 as int);
        lemma_signed_prod(v@[1].0 as int, v@[0].1 as int);
        lemma_signed_prod(v@[1].0 as int, v@[2].1 as int);
        lemma_signed_prod(v@[2].0 as int, v@[1].1 as int);
        lemma_signed_prod(v@[2].0 as int, v@[3].1 as int);
        lemma_signed_prod(v@[3].0 as int, v@[2].1 as int);
        lemma_signed_prod(v@[3].0 as int, v@[0].1 as int);
        lemma_signed_prod(v@[0].0 as int, v@[3].1 as int);
    }
    let t0: i128 = (x0 as i128) * (y1 as i128) - (x1 as i128) * (y0 as i128);
    let t1: i128 = (x1 as i128) * (y2 as i128) - (x2 as i128) * (y1 as i128);
    let t2: i128 = (x2 as i128) * (y3 as i128) - (x3 as i128) * (y2 as i128);
    let t3: i128 = (x3 as i128) * (y0 as i128) - (x0 as i128) * (y3 as i128);
    let s: i128 = t0 + t1 + t2 + t3;
    proof {
        assert(shoelace2(v@, 4) == 0);
        assert(shoelace2(v@, 3) == v@[3].0 * v@[0].1 - v@[0].0 * v@[3].1);
        assert(shoelace2(v@, 2) == v@[2].0 * v@[3].1 - v@[3].0 * v@[2].1 + shoelace2(v@, 3));
        assert(shoelace2(v@, 1) == v@[1].0 * v@[2].1 - v@[2].0 * v@[1].1 + shoelace2(v@, 2));
        assert(shoelace2(v@, 0) == v@[0].0 * v@[1].1 - v@[1].0 * v@[0].1 + shoelace2(v@, 1));
    }
    if s >= 0 {
        s
    } else {
        -s
    }
}

/// The four corners stand in display order: top-left, top-right,
/// bottom-right, bottom-left — the two upper points left to right above
/// the two lower ones, those right ordered by x as well.
pub open spec fn corners_ordered(r: Seq<(i64, i64)>) -> bool {
    &&& r[0].0 <= r[1].0
    &&& r[3].0 <= r[2].0
    &&& r[0].1 <= r[2].1 && r[0].1 <= r[3].1
    &&& r[1].1 <= r[2].1 && r[1].1 <= r[3].1
}

/// Order four quad vertices as top-left, top-right, bottom-right,
/// bottom-left: the two points of smaller y left to right, then the two
/// of larger y by x.
fn sort_corners4(v: &Vec<(i64, i64)>) -> (r: [(i64, i64); 4])
    requires
        v@.len() == 4,
    ensures
        forall|m: int| 0 <= m < 4 ==> point_in(v@, r@[m]),
        corners_ordered(r@),
{
    let mut a = v[0];
    let mut b = v[1];
    let mut c = v[2];
    let mut d = v[3];
    proof {
        assert(point_in(v@, v@[0]));
        assert(point_in(v@, v@[1]));
        assert(point_in(v@, v@[2]));
        assert(point_in(v@, v@[3]));
    }
    if b.1 < a.1 {
        let t = a;
        a = b;
        b = t;
    }
    if d.1 < c.1 {
        let t = c;
        c = d;
        d = t;
    }
    if c.1 < a.1 {
        let t = a;
        a = c;
        c = t;
    }
    if d.1 < b.1 {
        let t = b;
        b = d;
        d = t;
    }
    if c.1 < b.1 {
        let t = b;
        b = c;
        c = t;
    }
    let (tl, tr) = if a.0 <= b.0 {
        (a, b)
    } else {
        (b, a)
    };
    let (bl, br) = if c.0 <= d.0 {
        (c, d)
    } else {
        (d, c)
    };
    [tl, tr, br, bl]
}

/// The simplified polygon of a traced contour: contours of fewer than
/// three points stay as they are; longer ones are reduced between their
/// endpoints, the final point kept.
pub open spec fn simplified_of(pts: Seq<(i64, i64)>) -> Seq<(i64, i64)> {
    if pts.len() < 3 {
        pts
    } else {
        dp_seq(pts, 0, pts.len() - 1) + seq![pts[pts.len() - 1]]
    }
}

/// Twice the signed turn at vertex `k` of a four-vertex polygon: the
/// cross product of the edges into and out of it.
pub open spec fn quad_cross(s: Seq<(i64, i64)>, k: int) -> int {
    let a = s[k];
    let b = s[(k + 1) % 4];
    let c = s[(k + 2) % 4];
    (b.0 - a.0) * (c.1 - b.1) - (b.1 - a.1) * (c.0 - b.0)
}

/// A four-vertex polygon is convex: the turns at its four vertices all
/// have the same orientation (straight corners allowed).
pub open spec fn convex4(s: Seq<(i64, i64)>) -> bool {
    ||| (quad_cross(s, 0) >= 0 && quad_cross(s, 1) >= 0 && quad_cross(s, 2) >= 0 && quad_cross(
        s,
        3,
    ) >= 0)
    ||| (quad_cross(s, 0) <= 0 && quad_cross(s, 1) <= 0 && quad_cross(s, 2) <= 0 && quad_cross(
        s,
        3,
    ) <= 0)
}

/// Whether a traced contour passes the corner search's test: its
/// simplification is a convex quadrilateral whose doubled shoelace area
/// exceeds a fifth of the doubled image area, that is a tenth of the
/// image.
pub open spec fn quad_accepted(pts: Seq<(i64, i64)>, w: int, h: int) -> bool {
    let s = simplified_of(pts);
    let a2 = if shoelace2(s, 0) >= 0 {
        shoelace2(s, 0)
    } else {
        -shoelace2(s, 0)
    };
    s.len() == 4 && convex4(s) && 5 * a2 > w * h
}

/// The contour at `k` is the first accepted one.
pub open spec fn first_quad_at(cs: Seq<Seq<(i64, i64)>>, w: int, h: int, k: int) -> bool {
    &&& 0 <= k < cs.len()
    &&& quad_accepted(cs[k], w, h)
    &&& forall|q: int| 0 <= q < k ==> !quad_accepted(#[trigger] cs[q], w, h)
}

/// The four corners come from the first accepted contour: each is one of
/// its points.
pub open spec fn corners_from(
    cs: Seq<Seq<(i64, i64)>>,
    w: int,
    h: int,
    c: Seq<(i64, i64)>,
    k: int,
) -> bool {
    &&& first_quad_at(cs, w, h, k)
    &&& forall|m: int| 0 <= m < 4 ==> point_in(cs[k], #[trigger] c[m])
}

impl ImageProcessor {
    /// The samples adaptive binarization yields: thresholded at the
    /// effective block radius, or untouched for an image with a side
    /// shorter than four pixels.
    pub open spec fn binarized_spec(&self, v: GrayV) -> Seq<u8> {
        if v.width >= 4 && v.height >= 4 {
            adaptive_thresholded(
                v.data,
                v.width,
                v.height,
                self.block_radius_spec(v.width, v.height),
            )
        } else {
            v.data
        }
    }

    /// The adaptive-binarization stage as a whole image.
    pub open spec fn threshold_stage(&self, v: GrayV) -> GrayV {
        GrayV { width: v.width, height: v.height, data: self.binarized_spec(v) }
    }

    /// Search the binarized image for a quadrilateral region: the first
    /// traced contour whose simplification has exactly four vertices,
    /// turns the same way at all of them, and covers more than a tenth of
    /// the image yields the corners, ordered top-left, top-right,
    /// bottom-right, bottom-left, each a point of that contour; when no
    /// contour passes, nothing.
    pub fn find_corners(&self, img: &Gray) -> (r: Option<[(i64, i64); 4]>)
        requires
            img.wf(),
            255 * (img@.width * img@.height) <= 0xffffffff,
        ensures
            match r {
                Some(c) => corners_ordered(c@) && exists|k: int|
                    corners_from(
                        contours_of(self.binarized_spec(img@), img@.width, img@.height),
                        img@.width,
                        img@.height,
                        c@,
                        k,
                    ),
                None => forall|k: int|
                    0 <= k < contours_of(
                        self.binarized_spec(img@),
                        img@.width,
                        img@.height,
                    ).len() ==> !quad_accepted(
                        #[trigger] contours_of(self.binarized_spec(img@), img@.width, img@.height)[k],
                        img@.width,
                        img@.height,
                    ),
            },
    {
        let binary = self.adaptive_threshold(img);
        let contours = find_contours_exec(&binary);
        let ghost cspec = contours_of(self.binarized_spec(img@), img@.width, img@.height);
        proof {
            assert(binary@.data == self.binarized_spec(img@));
        }
        let cn = contours.len();
        let mut ci: usize = 0;
        while ci < cn
            invariant
                ci <= cn,
                img.wf(),
                binary@.width == img@.width,
                binary@.height == img@.height,
                cn == contours@.len(),
                cspec == contours_of(self.binarized_spec(img@), img@.width, img@.height),
                contours@.len() == cspec.len(),
                forall|i: int| 0 <= i < contours@.len() ==> (#[trigger] contours@[i])@ == cspec[i],
                forall|i: int, j: int|
                    0 <= i < contours@.len() && 0 <= j < contours@[i]@.len() ==> {
                        let p = #[trigger] contours@[i]@[j];
                        0 <= p.0 < img@.width && 0 <= p.1 < img@.height
                    },
                forall|q: int| 0 <= q < ci ==> !quad_accepted(
                    #[trigger] cspec[q],
                    img@.width,
                    img@.height,
                ),
            decreases cn - ci,
        {
            let pts = &contours[ci];
            let pn = pts.len();
            if pn >= 1 {
                proof {
                    assert forall|j: int| 0 <= j < pts@.len() implies {
                        let p = #[trigger] pts@[j];
                        0 <= p.0 <= 0xffff && 0 <= p.1 <= 0xffff
                    } by {
                        assert(contours@[ci as int]@[j] == pts@[j]);
                    }
                }
                let mut simplified: Vec<(i64, i64)> = Vec::new();
                if pn < 3 {
                    let mut q: usize = 0;
                    while q < pn
                        invariant
                            q <= pn,
                            pn == pts@.len(),
                            simplified@.len() == q,
                            simplified@ == pts@.take(q as int),
                            forall|j: int| 0 <= j < q ==> point_in(
                                pts@,
                                #[trigger] simplified@[j],
                            ),
                        decreases pn - q,
                    {
                        let p = pts[q];
                        proof {
                            assert(point_in(pts@, pts@[q as int]));
                            assert(simplified@.push(pts@[q as int]) =~= pts@.take(q + 1));
                        }
                        simplified.push(p);
                        q = q + 1;
                    }
                    proof {
                        assert(pts@.take(pn as int) =~= pts@);
                        assert(simplified@ == simplified_of(cspec[ci as int]));
                    }
                } else {
                    dp_append(pts, 0, pn - 1, &mut simplified);
                    let p = pts[pn - 1];
                    proof {
                        assert(point_in(pts@, pts@[pn - 1]));
                    }
                    simplified.push(p);
                    proof {
                        assert(simplified@ =~= dp_seq(pts@, 0, pn - 1) + seq![pts@[pn - 1]]);
                        assert(simplified@ == simplified_of(cspec[ci as int]));
                    }
                }
                if simplified.len() == 4 {
                    proof {
                        assert(coords_bounded(simplified@)) by {
                            assert forall|j: int| 0 <= j < simplified@.len() implies {
                                let p = #[trigger] simplified@[j];
                                0 <= p.0 <= 0xffff && 0 <= p.1 <= 0xffff
                            } by {
                                assert(point_in(pts@, simplified@[j]));
                                let w = choose|w: int|
                                    0 <= w < pts@.len() && pts@[w] == simplified@[j];
                                assert(0 <= pts@[w].0 <= 0xffff && 0 <= pts@[w].1 <= 0xffff);
                            }
                        }
                    }
                    let is_convex = convex4_exec(&simplified);
                    let a2 = shoelace4_abs(&simplified);
                    proof {
                        vstd::arithmetic::mul::lemma_mul_upper_bound(
                            binary@.width,
                            0xffff,
                            binary@.height,
                            0xffff,
                        );
                        vstd::arithmetic::mul::lemma_mul_nonnegative(
                            binary@.width,
                            binary@.height,
                        );
                    }
                    let area_bound: i128 = (binary.width as i128) * (binary.height as i128);
                    if is_convex && 5 * a2 > area_bound {
                        let c = sort_corners4(&simplified);
                        proof {
                            assert forall|m: int| 0 <= m < 4 implies point_in(
                                cspec[ci as int],
                                c@[m],
                            ) by {
                                assert(point_in(simplified@, c@[m]));
                                let w = choose|w: int|
                                    0 <= w < simplified@.len() && simplified@[w] == c@[m];
                                assert(point_in(pts@, simplified@[w]));
                                let u = choose|u: int|
                                    0 <= u < pts@.len() && pts@[u] == simplified@[w];
                                assert(cspec[ci as int][u] == c@[m]);
                            }
                            assert(quad_accepted(cspec[ci as int], img@.width, img@.height));
                            assert(first_quad_at(cspec, img@.width, img@.height, ci as int));
                            assert(corners_from(
                                cspec,
                                img@.width,
                                img@.height,
                                c@,
                                ci as int,
                            ));
                        }
                        return Some(c);
                    } else {
                        proof {
                            assert(!quad_accepted(cspec[ci as int], img@.width, img@.height));
                        }
                    }
                } else {
                    proof {
                        assert(!quad_accepted(cspec[ci as int], img@.width, img@.height));
                    }
                }
            } else {
                proof {
                    assert(cspec[ci as int] =~= contours@[ci as int]@);
                    assert(simplified_of(cspec[ci as int]).len() == 0);
                    assert(!quad_accepted(cspec[ci as int], img@.width, img@.height));
                }
            }
            ci = ci + 1;
        }
        None
    }
}

/// A square of a bounded value stays within `i128`.
proof fn lemma_sq128(x: int, b: int)
    requires
        -b <= x <= b,
        0 <= b,
    ensures
        0 <= x * x <= b * b,
{
    vstd::arithmetic::mul::lemma_mul_cancels_negatives(x, x);
    if x >= 0 {
        vstd::arithmetic::mul::lemma_mul_upper_bound(x, b, x, b);
        vstd::arithmetic::mul::lemma_mul_nonnegative(x, x);
    } else {
        vstd::arithmetic::mul::lemma_mul_upper_bound(-x, b, -x, b);
        vstd::arithmetic::mul::lemma_mul_nonnegative(-x, -x);
    }
}

/// A cross-product term over bounded coordinates stays within bounds.
proof fn lemma_cross_bound(
    dy: int,
    px: int,
    dx: int,
    py: int,
    x2: int,
    y1: int,
    y2: int,
    x1: int,
)
    requires
        -0x10000 <= dy <= 0x10000,
        -0x10000 <= dx <= 0x10000,
        0 <= px <= 0xffff,
        0 <= py <= 0xffff,
        0 <= x1 <= 0xffff,
        0 <= y1 <= 0xffff,
        0 <= x2 <= 0xffff,
        0 <= y2 <= 0xffff,
    ensures
        -0x100000000 <= dy * px <= 0x100000000,
        -0x100000000 <= dx * py <= 0x100000000,
        -0x100000000 <= x2 * y1 <= 0x100000000,
        -0x100000000 <= y2 * x1 <= 0x100000000,
        -0x400000000 <= dy * px - dx * py + x2 * y1 - y2 * x1 <= 0x400000000,
{
    lemma_signed_prod(dy, px);
    lemma_signed_prod(dx, py);
    lemma_signed_prod(x2, y1);
    lemma_signed_prod(y2, x1);
}

/// A product of two values bounded by the pixel range is bounded.
proof fn lemma_signed_prod(a: int, b: int)
    requires
        -0x10000 <= a <= 0x10000,
        -0x10000 <= b <= 0x10000,
    ensures
        -0x100000000 <= a * b <= 0x100000000,
{
    vstd::arithmetic::mul::lemma_mul_cancels_negatives(a, b);
    vstd::arithmetic::mul::lemma_mul_unary_negation(a, b);
    if a >= 0 && b >= 0 {
        vstd::arithmetic::mul::lemma_mul_upper_bound(a, 0x10000, b, 0x10000);
        vstd::arithmetic::mul::lemma_mul_nonnegative(a, b);
    } else if a < 0 && b < 0 {
        vstd::arithmetic::mul::lemma_mul_upper_bound(-a, 0x10000, -b, 0x10000);
        vstd::arithmetic::mul::lemma_mul_nonnegative(-a, -b);
    } else if a < 0 {
        vstd::arithmetic::mul::lemma_mul_upper_bound(-a, 0x10000, b, 0x10000);
        vstd::arithmetic::mul::lemma_mul_nonnegative(-a, b);
    } else {
        vstd::arithmetic::mul::lemma_mul_upper_bound(a, 0x10000, -b, 0x10000);
        vstd::arithmetic::mul::lemma_mul_nonnegative(a, -b);
    }
}

/// A proportionally scaled side stays within the bound.
proof fn lemma_scaled_dim(a: int, b: int, md: int)
    requires
        1 <= md,
        0 <= a,
        1 <= b,
    ensures
        a * md / b >= 0,
        b >= a ==> a * md / b <= md,
{
    vstd::arithmetic::mul::lemma_mul_nonnegative(a, md);
    vstd::arithmetic::div_mod::lemma_div_pos_is_pos(a * md, b);
    if b >= a {
        vstd::arithmetic::mul::lemma_mul_inequality(a, b, md);
        vstd::arithmetic::mul::lemma_mul_is_commutative(b, md);
        vstd::arithmetic::div_mod::lemma_div_is_ordered(a * md, b * md, b);
        vstd::arithmetic::div_mod::lemma_div_by_multiple(md, b);
        vstd::arithmetic::mul::lemma_mul_is_commutative(md, b);
    }
}

} // verus!
