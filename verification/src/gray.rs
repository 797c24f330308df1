//! The grayscale image model: a width x height grid of 8-bit intensity
//! samples in row-major order, together with the pure pixel transforms the
//! decode ladder and the detector work on.

use vstd::prelude::*;

verus! {

/// Mathematical value of a grayscale image.
pub ghost struct GrayV {
    pub width: int,
    pub height: int,
    pub data: Seq<u8>,
}

impl GrayV {
    /// The image is internally consistent and small enough that pixel
    /// arithmetic on counts and coordinates cannot overflow.
    pub open spec fn wf(self) -> bool {
        &&& self.data.len() == self.width * self.height
        &&& 0 <= self.width <= 0xffff
        &&& 0 <= self.height <= 0xffff
    }

    /// Sample at column `x`, row `y`.
    pub open spec fn at(self, x: int, y: int) -> u8 {
        self.data[y * self.width + x]
    }
}

/// A grayscale image; every transform returns a new image.
#[derive(Debug)]
pub struct Gray {
    pub width: usize,
    pub height: usize,
    pub data: Vec<u8>,
}

impl View for Gray {
    type V = GrayV;

    open spec fn view(&self) -> GrayV {
        GrayV { width: self.width as int, height: self.height as int, data: self.data@ }
    }
}

impl Clone for Gray {
    fn clone(&self) -> (r: Self)
        ensures
            r@ == self@,
    {
        let r = Gray { width: self.width, height: self.height, data: self.data.clone() };
        proof {
            assert(r@.data =~= self@.data);
        }
        r
    }
}

proof fn lemma_mul_bounds(x: int, y: int, bx: int, by: int)
    requires
        0 <= x <= bx,
        0 <= y <= by,
    ensures
        x * y <= bx * by,
{
    vstd::arithmetic::mul::lemma_mul_upper_bound(x, bx, y, by);
}

proof fn lemma_row_major_index(w: int, h: int, x: int, y: int)
    requires
        0 <= x < w,
        0 <= y < h,
    ensures
        0 <= y * w + x < w * h,
        y * w + x <= (h - 1) * w + (w - 1),
{
    broadcast use vstd::arithmetic::mul::group_mul_properties;

    assert(y * w <= (h - 1) * w);
}

impl Gray {
    /// Same well-formedness as the view's.
    pub open spec fn wf(&self) -> bool {
        self@.wf()
    }

    /// A `width` x `height` image with every sample equal to `fill`.
    pub fn filled(width: usize, height: usize, fill: u8) -> (r: Gray)
        requires
            width <= 0xffff,
            height <= 0xffff,
        ensures
            r@.wf(),
            r@.width == width,
            r@.height == height,
            r@.data == Seq::new((width * height) as nat, |i: int| fill),
    {
        proof {
            lemma_mul_bounds(width as int, height as int, 0xffff, 0xffff);
        }
        let n: usize = width * height;
        let mut data: Vec<u8> = Vec::new();
        let mut i: usize = 0;
        while i < n
            invariant
                i <= n,
                data@ =~= Seq::new(i as nat, |j: int| fill),
            decreases n - i,
        {
            data.push(fill);
            i = i + 1;
        }
        let r = Gray { width, height, data };
        proof {
            assert(r@.data =~= Seq::new((width * height) as nat, |i: int| fill));
        }
        r
    }

    /// Build an image from a row-major sample buffer.
    pub fn from_samples(width: usize, height: usize, data: Vec<u8>) -> (r: Option<Gray>)
        ensures
            match r {
                Some(g) => {
                    &&& g@.wf()
                    &&& g@.width == width
                    &&& g@.height == height
                    &&& g@.data == data@
                    &&& width <= 0xffff
                    &&& height <= 0xffff
                    &&& data@.len() == width * height
                },
                None => width > 0xffff || height > 0xffff || data@.len() != width * height,
            },
    {
        if width > 0xffff || height > 0xffff {
            return None;
        }
        proof {
            lemma_mul_bounds(width as int, height as int, 0xffff, 0xffff);
        }
        let n: usize = width * height;
        if data.len() != n {
            return None;
        }
        Some(Gray { width, height, data })
    }

    /// Sample at column `x`, row `y`.
    pub fn get(&self, x: usize, y: usize) -> (r: u8)
        requires
            self.wf(),
            x < self@.width,
            y < self@.height,
        ensures
            r == self@.at(x as int, y as int),
    {
        proof {
            lemma_row_major_index(self@.width, self@.height, x as int, y as int);
            lemma_mul_bounds(self@.width, self@.height, 0xffff, 0xffff);
            assert(y * self@.width + x < self@.data.len());
        }
        self.data[y * self.width + x]
    }
}

/// Pixel-inverted image: light and dark swapped.
pub open spec fn invert_spec(g: GrayV) -> GrayV {
    GrayV {
        width: g.width,
        height: g.height,
        data: Seq::new(g.data.len(), |i: int| (255 - g.data[i]) as u8),
    }
}

/// Hard binarization: samples below `t` become 0, the rest 255.
pub open spec fn threshold_spec(g: GrayV, t: u8) -> GrayV {
    GrayV {
        width: g.width,
        height: g.height,
        data: Seq::new(g.data.len(), |i: int| if g.data[i] < t { 0u8 } else { 255u8 }),
    }
}

/// One pixel of the white-padded image: the source shifted by `p`, white
/// outside it.
pub open spec fn pad_px(g: GrayV, p: int, i: int) -> u8 {
    let nw = g.width + 2 * p;
    let x = i % nw;
    let y = i / nw;
    if p <= x < p + g.width && p <= y < p + g.height {
        g.at(x - p, y - p)
    } else {
        255u8
    }
}

/// The image surrounded by a white quiet-zone border of `p` pixels.
pub open spec fn pad_spec(g: GrayV, p: int) -> GrayV {
    GrayV {
        width: g.width + 2 * p,
        height: g.height + 2 * p,
        data: Seq::new(((g.width + 2 * p) * (g.height + 2 * p)) as nat, |i: int| pad_px(g, p, i)),
    }
}

/// Clamp an integer to the 8-bit sample range.
pub open spec fn clamp_u8(v: int) -> u8 {
    if v < 0 {
        0u8
    } else if v > 255 {
        255u8
    } else {
        v as u8
    }
}

/// One pixel of the sharpened image: the 3x3 Laplacian kernel
/// (5 at the center, -1 at the four direct neighbours), borders kept.
pub open spec fn sharpen_px(g: GrayV, i: int) -> u8 {
    let x = i % g.width;
    let y = i / g.width;
    if 1 <= x < g.width - 1 && 1 <= y < g.height - 1 {
        clamp_u8(
            5 * g.at(x, y) - g.at(x, y - 1) - g.at(x, y + 1) - g.at(x - 1, y) - g.at(x + 1, y),
        )
    } else {
        g.data[i]
    }
}

/// The sharpened image.
pub open spec fn sharpen_spec(g: GrayV) -> GrayV {
    GrayV { width: g.width, height: g.height, data: Seq::new(g.data.len(), |i: int| sharpen_px(g, i)) }
}

/// Least sample of `s`, or 255 when `s` is empty.
pub open spec fn min_of(s: Seq<u8>) -> int
    decreases s.len(),
{
    if s.len() == 0 {
        255
    } else if s.last() < min_of(s.drop_last()) {
        s.last() as int
    } else {
        min_of(s.drop_last())
    }
}

/// Greatest sample of `s`, or 0 when `s` is empty.
pub open spec fn max_of(s: Seq<u8>) -> int
    decreases s.len(),
{
    if s.len() == 0 {
        0
    } else if s.last() > max_of(s.drop_last()) {
        s.last() as int
    } else {
        max_of(s.drop_last())
    }
}

/// One pixel of the contrast-stretched image: the sample range
/// [min, max] mapped linearly onto [0, 255].
pub open spec fn stretch_px(v: u8, lo: int, hi: int) -> u8 {
    (((v - lo) * 255) / (hi - lo)) as u8
}

/// Contrast stretch over the full dynamic range; an image with a single
/// intensity is returned unchanged.
pub open spec fn stretch_spec(g: GrayV) -> GrayV {
    let lo = min_of(g.data);
    let hi = max_of(g.data);
    if lo >= hi {
        g
    } else {
        GrayV {
            width: g.width,
            height: g.height,
            data: Seq::new(g.data.len(), |i: int| stretch_px(g.data[i], lo, hi)),
        }
    }
}

/// Contrast stretch followed by sharpening: the aggressive enhancement rung
/// of the decode ladder.
pub open spec fn enhance_spec(g: GrayV) -> GrayV {
    sharpen_spec(stretch_spec(g))
}

/// One pixel of the half-scale image: the average of its 2x2 source block.
pub open spec fn downscale_px(g: GrayV, i: int) -> u8 {
    let nw = g.width / 2;
    let x = 2 * (i % nw);
    let y = 2 * (i / nw);
    (((g.at(x, y) + g.at(x + 1, y) + g.at(x, y + 1) + g.at(x + 1, y + 1)) as int / 4) as u8)
}

/// The image box-averaged down to half size in each dimension.
pub open spec fn downscale_spec(g: GrayV) -> GrayV {
    GrayV {
        width: g.width / 2,
        height: g.height / 2,
        data: Seq::new(((g.width / 2) * (g.height / 2)) as nat, |i: int| downscale_px(g, i)),
    }
}

/// One pixel of `crop_spec`.
pub open spec fn crop_px(g: GrayV, x0: int, y0: int, cw: int, i: int) -> u8 {
    g.at(x0 + i % cw, y0 + i / cw)
}

/// The `cw` x `ch` sub-image whose top-left corner is (`x0`, `y0`).
pub open spec fn crop_spec(g: GrayV, x0: int, y0: int, cw: int, ch: int) -> GrayV {
    GrayV { width: cw, height: ch, data: Seq::new((cw * ch) as nat, |i: int| crop_px(g, x0, y0, cw, i)) }
}

/// Unit of the Q16 fixed-point trigonometric constants: 65536 stands for 1.
pub const TRIG_ONE: i64 = 65536;

/// Width of the canvas that holds the rotated image: ceil(w cos + h sin).
pub open spec fn rot_dim(a: int, b: int, cq: int, sq: int) -> int {
    (a * cq + b * sq + 65535) / 65536
}

/// One pixel of the rotated image. `cq`/`sq` are cosine and sine in Q16.
/// The source location is found by the inverse rotation about the image
/// center, computed exactly in doubled Q16 so no intermediate division is
/// needed, and rounded to the nearest source pixel; locations outside the
/// source are white.
pub open spec fn rotate_px(g: GrayV, cq: int, sq: int, i: int) -> u8 {
    let nw = rot_dim(g.width, g.height, cq, sq);
    let nh = rot_dim(g.width, g.height, sq, cq);
    let x = i % nw;
    let y = i / nw;
    let dx2 = 2 * x - nw;
    let dy2 = 2 * y - nh;
    let sx2 = dx2 * cq + dy2 * sq + g.width * 65536;
    let sy2 = dy2 * cq - dx2 * sq + g.height * 65536;
    if 0 <= sx2 < (2 * g.width - 1) * 65536 && 0 <= sy2 < (2 * g.height - 1) * 65536 {
        let sx = (sx2 + 65536) / 131072;
        let sy = (sy2 + 65536) / 131072;
        if sx < g.width && sy < g.height {
            g.at(sx, sy)
        } else {
            255u8
        }
    } else {
        255u8
    }
}

/// One pixel of the horizontally mirrored image.
pub open spec fn mirror_px(g: GrayV, i: int) -> u8 {
    g.at(g.width - 1 - i % g.width, i / g.width)
}

/// The image flipped about its vertical axis: each row reversed.
pub open spec fn mirror_spec(g: GrayV) -> GrayV {
    GrayV { width: g.width, height: g.height, data: Seq::new(g.data.len(), |i: int| mirror_px(g, i)) }
}

/// The image rotated about its center onto an enlarged white canvas.
pub open spec fn rotate_spec(g: GrayV, cq: int, sq: int) -> GrayV {
    let nw = rot_dim(g.width, g.height, cq, sq);
    let nh = rot_dim(g.width, g.height, sq, cq);
    GrayV { width: nw, height: nh, data: Seq::new((nw * nh) as nat, |i: int| rotate_px(g, cq, sq, i)) }
}

impl Gray {
    /// Pixel inversion; swaps light-on-dark and dark-on-light.
    pub fn invert(&self) -> (r: Gray)
        requires
            self.wf(),
        ensures
            r@ == invert_spec(self@),
            r.wf(),
    {
        let n = self.data.len();
        let mut data: Vec<u8> = Vec::new();
        let mut i: usize = 0;
        while i < n
            invariant
                i <= n,
                n == self@.data.len(),
                data@.len() == i,
                forall|j: int| 0 <= j < i ==> data@[j] == 255 - self@.data[j],
            decreases n - i,
        {
            data.push(255 - self.data[i]);
            i = i + 1;
        }
        let r = Gray { width: self.width, height: self.height, data };
        proof {
            assert(r@.data =~= invert_spec(self@).data);
        }
        r
    }

    /// Hard binarization at threshold `t`.
    pub fn threshold_at(&self, t: u8) -> (r: Gray)
        requires
            self.wf(),
        ensures
            r@ == threshold_spec(self@, t),
            r.wf(),
    {
        let n = self.data.len();
        let mut data: Vec<u8> = Vec::new();
        let mut i: usize = 0;
        while i < n
            invariant
                i <= n,
                n == self@.data.len(),
                data@.len() == i,
                forall|j: int| 0 <= j < i ==> data@[j] == (if self@.data[j] < t {
                    0u8
                } else {
                    255u8
                }),
            decreases n - i,
        {
            data.push(if self.data[i] < t { 0 } else { 255 });
            i = i + 1;
        }
        let r = Gray { width: self.width, height: self.height, data };
        proof {
            assert(r@.data =~= threshold_spec(self@, t).data);
        }
        r
    }

    /// Surround the image with a white quiet-zone border `p` pixels wide.
    pub fn pad_white(&self, p: usize) -> (r: Gray)
        requires
            self.wf(),
            self@.width + 2 * p <= 0xffff,
            self@.height + 2 * p <= 0xffff,
        ensures
            r@ == pad_spec(self@, p as int),
            r.wf(),
    {
        let nw: usize = self.width + 2 * p;
        let nh: usize = self.height + 2 * p;
        proof {
            lemma_mul_bounds(nw as int, nh as int, 0xffff, 0xffff);
        }
        let n: usize = nw * nh;
        let mut data: Vec<u8> = Vec::new();
        let mut i: usize = 0;
        while i < n
            invariant
                i <= n,
                self.wf(),
                nw == self@.width + 2 * p,
                nh == self@.height + 2 * p,
                nw <= 0xffff,
                nh <= 0xffff,
                n == nw * nh,
                data@.len() == i,
                forall|j: int| 0 <= j < i ==> data@[j] == pad_px(self@, p as int, j),
            decreases n - i,
        {
            proof {
                lemma_row_major_bound(i as int, nw as int, nh as int);
            }
            let x: usize = i % nw;
            let y: usize = i / nw;
            let v: u8 = if x >= p && x < p + self.width && y >= p && y < p + self.height {
                self.get(x - p, y - p)
            } else {
                255
            };
            data.push(v);
            i = i + 1;
        }
        let r = Gray { width: nw, height: nh, data };
        proof {
            assert(r@.data =~= pad_spec(self@, p as int).data);
        }
        r
    }
}

impl Gray {
    /// Least and greatest sample of the image.
    pub fn sample_range(&self) -> (r: (u8, u8))
        requires
            self.wf(),
        ensures
            r.0 == min_of(self@.data),
            r.1 == max_of(self@.data),
    {
        let n = self.data.len();
        let mut lo: u8 = 255;
        let mut hi: u8 = 0;
        let mut i: usize = 0;
        while i < n
            invariant
                i <= n,
                n == self@.data.len(),
                lo == min_of(self@.data.take(i as int)),
                hi == max_of(self@.data.take(i as int)),
            decreases n - i,
        {
            let v = self.data[i];
            proof {
                assert(self@.data.take(i + 1).drop_last() =~= self@.data.take(i as int));
            }
            if v < lo {
                lo = v;
            }
            if v > hi {
                hi = v;
            }
            i = i + 1;
        }
        proof {
            assert(self@.data.take(n as int) =~= self@.data);
        }
        (lo, hi)
    }

    /// Contrast stretch onto the full dynamic range; a flat image is
    /// returned unchanged.
    pub fn contrast_stretch(&self) -> (r: Gray)
        requires
            self.wf(),
        ensures
            r@ == stretch_spec(self@),
            r.wf(),
    {
        let (lo, hi) = self.sample_range();
        if lo >= hi {
            return self.clone();
        }
        let range: u32 = (hi - lo) as u32;
        let n = self.data.len();
        let mut data: Vec<u8> = Vec::new();
        let mut i: usize = 0;
        while i < n
            invariant
                i <= n,
                n == self@.data.len(),
                lo == min_of(self@.data),
                hi == max_of(self@.data),
                lo < hi,
                range == hi - lo,
                data@.len() == i,
                forall|j: int| 0 <= j < i ==> #[trigger] data@[j] == stretch_px(
                    self@.data[j],
                    lo as int,
                    hi as int,
                ),
            decreases n - i,
        {
            let v = self.data[i];
            proof {
                lemma_min_le_all(self@.data, i as int);
            }
            let scaled: u32 = ((v - lo) as u32 * 255) / range;
            proof {
                let num = (v - lo) as int * 255;
                vstd::arithmetic::mul::lemma_mul_inequality((v - lo) as int, range as int, 255);
                vstd::arithmetic::div_mod::lemma_div_is_ordered(num, range as int * 255, range as int);
                vstd::arithmetic::div_mod::lemma_div_multiples_vanish(255, range as int);
                assert(scaled <= 255);
            }
            data.push(scaled as u8);
            i = i + 1;
        }
        let r = Gray { width: self.width, height: self.height, data };
        proof {
            assert(r@.data =~= stretch_spec(self@).data);
        }
        r
    }

    /// Sharpen with the 3x3 Laplacian kernel, borders kept.
    pub fn sharpen(&self) -> (r: Gray)
        requires
            self.wf(),
        ensures
            r@ == sharpen_spec(self@),
            r.wf(),
    {
        let w = self.width;
        let n = self.data.len();
        let mut data: Vec<u8> = Vec::new();
        let mut i: usize = 0;
        while i < n
            invariant
                i <= n,
                self.wf(),
                w == self@.width,
                n == self@.data.len(),
                data@.len() == i,
                forall|j: int| 0 <= j < i ==> #[trigger] data@[j] == sharpen_px(self@, j),
            decreases n - i,
        {
            proof {
                lemma_row_major_bound(i as int, w as int, self@.height);
                lemma_mul_bounds(w as int, self@.height, 0xffff, 0xffff);
            }
            let x: usize = i % w;
            let y: usize = i / w;
            let v: u8 = if x >= 1 && x < w - 1 && y >= 1 && y < self.height - 1 {
                let c: i64 = 5 * (self.get(x, y) as i64) - (self.get(x, y - 1) as i64) - (self.get(
                    x,
                    y + 1,
                ) as i64) - (self.get(x - 1, y) as i64) - (self.get(x + 1, y) as i64);
                if c < 0 {
                    0
                } else if c > 255 {
                    255
                } else {
                    c as u8
                }
            } else {
                self.data[i]
            };
            data.push(v);
            i = i + 1;
        }
        let r = Gray { width: self.width, height: self.height, data };
        proof {
            assert(r@.data =~= sharpen_spec(self@).data);
        }
        r
    }

    /// Contrast stretch followed by sharpening.
    pub fn enhance(&self) -> (r: Gray)
        requires
            self.wf(),
        ensures
            r@ == enhance_spec(self@),
            r.wf(),
    {
        self.contrast_stretch().sharpen()
    }

    /// Box-average the image down to half size in each dimension.
    pub fn downscale_half(&self) -> (r: Gray)
        requires
            self.wf(),
        ensures
            r@ == downscale_spec(self@),
            r.wf(),
    {
        let nw: usize = self.width / 2;
        let nh: usize = self.height / 2;
        proof {
            lemma_mul_bounds(nw as int, nh as int, 0xffff, 0xffff);
        }
        let n: usize = nw * nh;
        let mut data: Vec<u8> = Vec::new();
        let mut i: usize = 0;
        while i < n
            invariant
                i <= n,
                self.wf(),
                nw == self@.width / 2,
                nh == self@.height / 2,
                n == nw * nh,
                data@.len() == i,
                forall|j: int| 0 <= j < i ==> #[trigger] data@[j] == downscale_px(self@, j),
            decreases n - i,
        {
            proof {
                lemma_row_major_bound(i as int, nw as int, nh as int);
            }
            let x: usize = 2 * (i % nw);
            let y: usize = 2 * (i / nw);
            let sum: u32 = self.get(x, y) as u32 + self.get(x + 1, y) as u32 + self.get(
                x,
                y + 1,
            ) as u32 + self.get(x + 1, y + 1) as u32;
            data.push((sum / 4) as u8);
            i = i + 1;
        }
        let r = Gray { width: nw, height: nh, data };
        proof {
            assert(r@.data =~= downscale_spec(self@).data);
        }
        r
    }

    /// Cut out the `cw` x `ch` sub-image whose top-left corner is
    /// (`x0`, `y0`).
    pub fn crop(&self, x0: usize, y0: usize, cw: usize, ch: usize) -> (r: Gray)
        requires
            self.wf(),
            x0 + cw <= self@.width,
            y0 + ch <= self@.height,
            cw > 0,
        ensures
            r@ == crop_spec(self@, x0 as int, y0 as int, cw as int, ch as int),
            r.wf(),
    {
        proof {
            lemma_mul_bounds(cw as int, ch as int, 0xffff, 0xffff);
        }
        let n: usize = cw * ch;
        let mut data: Vec<u8> = Vec::new();
        let mut i: usize = 0;
        while i < n
            invariant
                i <= n,
                self.wf(),
                x0 + cw <= self@.width,
                y0 + ch <= self@.height,
                cw > 0,
                n == cw * ch,
                data@.len() == i,
                forall|j: int| 0 <= j < i ==> #[trigger] data@[j] == crop_px(
                    self@,
                    x0 as int,
                    y0 as int,
                    cw as int,
                    j,
                ),
            decreases n - i,
        {
            proof {
                lemma_row_major_bound(i as int, cw as int, ch as int);
            }
            data.push(self.get(x0 + i % cw, y0 + i / cw));
            i = i + 1;
        }
        let r = Gray { width: cw, height: ch, data };
        proof {
            assert(r@.data =~= crop_spec(self@, x0 as int, y0 as int, cw as int, ch as int).data);
        }
        r
    }

    /// Flip the image about its vertical axis, reversing each row.
    pub fn mirror_x(&self) -> (r: Gray)
        requires
            self.wf(),
        ensures
            r@ == mirror_spec(self@),
            r.wf(),
    {
        let w = self.width;
        let n = self.data.len();
        let mut data: Vec<u8> = Vec::new();
        let mut i: usize = 0;
        while i < n
            invariant
                i <= n,
                self.wf(),
                w == self@.width,
                n == self@.data.len(),
                data@.len() == i,
                forall|j: int| 0 <= j < i ==> #[trigger] data@[j] == mirror_px(self@, j),
            decreases n - i,
        {
            proof {
                vstd::arithmetic::mul::lemma_mul_nonzero(w as int, self@.height);
                lemma_row_major_bound(i as int, w as int, self@.height);
                lemma_row_major_index(w as int, self@.height, w - 1 - (i as int) % (w as int), (
                i as int) / (w as int));
            }
            data.push(self.get(w - 1 - i % w, i / w));
            i = i + 1;
        }
        let r = Gray { width: self.width, height: self.height, data };
        proof {
            assert(r@.data =~= mirror_spec(self@).data);
        }
        r
    }

    /// Rotate about the image center onto an enlarged white canvas.
    /// `cq` and `sq` are the cosine and sine of the angle in Q16 fixed
    /// point; the angle must lie in the first quadrant.
    pub fn rotate_q16(&self, cq: i64, sq: i64) -> (r: Gray)
        requires
            self.wf(),
            0 <= cq <= TRIG_ONE,
            0 <= sq <= TRIG_ONE,
            self@.width + self@.height <= 0xfffe,
        ensures
            r@ == rotate_spec(self@, cq as int, sq as int),
            r.wf(),
    {
        let w = self.width as i64;
        let h = self.height as i64;
        proof {
            vstd::arithmetic::mul::lemma_mul_upper_bound(w as int, 0xffff, cq as int, 65536);
            vstd::arithmetic::mul::lemma_mul_upper_bound(h as int, 0xffff, sq as int, 65536);
            vstd::arithmetic::mul::lemma_mul_upper_bound(w as int, 0xffff, sq as int, 65536);
            vstd::arithmetic::mul::lemma_mul_upper_bound(h as int, 0xffff, cq as int, 65536);
            vstd::arithmetic::mul::lemma_mul_nonnegative(w as int, cq as int);
            vstd::arithmetic::mul::lemma_mul_nonnegative(h as int, sq as int);
            vstd::arithmetic::mul::lemma_mul_nonnegative(w as int, sq as int);
            vstd::arithmetic::mul::lemma_mul_nonnegative(h as int, cq as int);
        }
        let nw64: i64 = (w * cq + h * sq + 65535) / 65536;
        let nh64: i64 = (w * sq + h * cq + 65535) / 65536;
        proof {
            lemma_rot_dim_bound(w as int, h as int, cq as int, sq as int);
            lemma_rot_dim_bound(w as int, h as int, sq as int, cq as int);
        }
        let nw: usize = nw64 as usize;
        let nh: usize = nh64 as usize;
        proof {
            lemma_mul_bounds(nw as int, nh as int, 0xffff, 0xffff);
        }
        let n: usize = nw * nh;
        let mut data: Vec<u8> = Vec::new();
        let mut i: usize = 0;
        while i < n
            invariant
                i <= n,
                self.wf(),
                w == self@.width,
                h == self@.height,
                0 <= cq <= TRIG_ONE,
                0 <= sq <= TRIG_ONE,
                nw == rot_dim(w as int, h as int, cq as int, sq as int),
                nh == rot_dim(w as int, h as int, sq as int, cq as int),
                nw <= 0xffff,
                nh <= 0xffff,
                n == nw * nh,
                data@.len() == i,
                forall|j: int| 0 <= j < i ==> #[trigger] data@[j] == rotate_px(
                    self@,
                    cq as int,
                    sq as int,
                    j,
                ),
            decreases n - i,
        {
            proof {
                lemma_row_major_bound(i as int, nw as int, nh as int);
            }
            let x = (i % nw) as i64;
            let y = (i / nw) as i64;
            let dx2: i64 = 2 * x - nw as i64;
            let dy2: i64 = 2 * y - nh as i64;
            proof {
                lemma_mul_signed_bound(dx2 as int, 0x20000, cq as int, 65536);
                lemma_mul_signed_bound(dy2 as int, 0x20000, sq as int, 65536);
                lemma_mul_signed_bound(dx2 as int, 0x20000, sq as int, 65536);
                lemma_mul_signed_bound(dy2 as int, 0x20000, cq as int, 65536);
            }
            let sx2: i64 = dx2 * cq + dy2 * sq + w * 65536;
            let sy2: i64 = dy2 * cq - dx2 * sq + h * 65536;
            let v: u8 = if 0 <= sx2 && sx2 < (2 * w - 1) * 65536 && 0 <= sy2 && sy2 < (2 * h - 1)
                * 65536 {
                let sx: i64 = (sx2 + 65536) / 131072;
                let sy: i64 = (sy2 + 65536) / 131072;
                if sx < w && sy < h {
                    proof {
                        vstd::arithmetic::div_mod::lemma_div_pos_is_pos(sx2 + 65536, 131072);
                        vstd::arithmetic::div_mod::lemma_div_pos_is_pos(sy2 + 65536, 131072);
                    }
                    self.get(sx as usize, sy as usize)
                } else {
                    255
                }
            } else {
                255
            };
            data.push(v);
            i = i + 1;
        }
        let r = Gray { width: nw, height: nh, data };
        proof {
            assert(r@.data =~= rotate_spec(self@, cq as int, sq as int).data);
        }
        r
    }
}

/// How many samples of `s` equal `v`.
pub open spec fn cnt_eq(s: Seq<u8>, v: int) -> int
    decreases s.len(),
{
    if s.len() == 0 {
        0
    } else {
        cnt_eq(s.drop_last(), v) + if s.last() as int == v {
            1int
        } else {
            0int
        }
    }
}

/// How many samples of `s` are at most `t`.
pub open spec fn cnt_le(s: Seq<u8>, t: int) -> int
    decreases s.len(),
{
    if s.len() == 0 {
        0
    } else {
        cnt_le(s.drop_last(), t) + if s.last() <= t {
            1int
        } else {
            0int
        }
    }
}

/// Sum of the samples of `s` that are at most `t`.
pub open spec fn sum_le(s: Seq<u8>, t: int) -> int
    decreases s.len(),
{
    if s.len() == 0 {
        0
    } else {
        sum_le(s.drop_last(), t) + if s.last() <= t {
            s.last() as int
        } else {
            0int
        }
    }
}

/// Between-class variance at threshold `t`, with class means in fixed point
/// (scaled by 1024). Zero when either class is empty.
pub open spec fn otsu_objective(s: Seq<u8>, t: int) -> int {
    let wb = cnt_le(s, t);
    let wf_ = s.len() - wb;
    if wb == 0 || wf_ == 0 {
        0
    } else {
        let mb = (sum_le(s, t) * 1024) / wb;
        let mf = ((sum_le(s, 255) - sum_le(s, t)) * 1024) / wf_;
        let d = if mb >= mf {
            mb - mf
        } else {
            mf - mb
        };
        (wb * wf_) * (d * d)
    }
}

/// The running maximum of the objective over thresholds below `upto`:
/// (best threshold, best objective), starting from the default (128, 0)
/// and improving only on a strict increase, so the smallest maximizer wins.
pub open spec fn otsu_scan(s: Seq<u8>, upto: int) -> (int, int)
    decreases upto,
{
    if upto <= 0 {
        (128, 0)
    } else {
        let p = otsu_scan(s, upto - 1);
        let o = otsu_objective(s, upto - 1);
        if o > p.1 {
            (upto - 1, o)
        } else {
            p
        }
    }
}

/// Otsu's automatically computed binarization threshold.
pub open spec fn otsu_of(s: Seq<u8>) -> int {
    otsu_scan(s, 256).0
}

proof fn lemma_cnt_eq_push(s: Seq<u8>, x: u8)
    ensures
        forall|v: int| #[trigger] cnt_eq(s.push(x), v) == cnt_eq(s, v) + if x as int == v {
            1int
        } else {
            0int
        },
{
    assert forall|v: int| #[trigger] cnt_eq(s.push(x), v) == cnt_eq(s, v) + if x as int == v {
        1int
    } else {
        0int
    } by {
        assert(s.push(x).drop_last() =~= s);
        assert(s.push(x).last() == x);
    }
}

proof fn lemma_cnt_eq_le_len(s: Seq<u8>, v: int)
    ensures
        0 <= cnt_eq(s, v) <= s.len(),
    decreases s.len(),
{
    if s.len() > 0 {
        lemma_cnt_eq_le_len(s.drop_last(), v);
    }
}

proof fn lemma_cnt_le_bounds(s: Seq<u8>, t: int)
    ensures
        0 <= cnt_le(s, t) <= s.len(),
    decreases s.len(),
{
    if s.len() > 0 {
        lemma_cnt_le_bounds(s.drop_last(), t);
    }
}

proof fn lemma_sum_le_bounds(s: Seq<u8>, t: int)
    ensures
        0 <= sum_le(s, t) <= 255 * s.len(),
    decreases s.len(),
{
    if s.len() > 0 {
        lemma_sum_le_bounds(s.drop_last(), t);
    }
}

proof fn lemma_cnt_le_neg(s: Seq<u8>, t: int)
    requires
        t < 0,
    ensures
        cnt_le(s, t) == 0,
        sum_le(s, t) == 0,
    decreases s.len(),
{
    if s.len() > 0 {
        lemma_cnt_le_neg(s.drop_last(), t);
    }
}

proof fn lemma_cnt_le_step(s: Seq<u8>, t: int)
    requires
        0 <= t,
    ensures
        cnt_le(s, t) == cnt_le(s, t - 1) + cnt_eq(s, t),
        sum_le(s, t) == sum_le(s, t - 1) + t * cnt_eq(s, t),
    decreases s.len(),
{
    if s.len() == 0 {
        assert(t * 0 == 0) by {
            vstd::arithmetic::mul::lemma_mul_by_zero_is_zero(t);
        }
    } else {
        lemma_cnt_le_step(s.drop_last(), t);
        let c = cnt_eq(s.drop_last(), t);
        if s.last() as int == t {
            assert(t * (c + 1) == t * c + t) by {
                vstd::arithmetic::mul::lemma_mul_is_distributive_add(t, c, 1);
                vstd::arithmetic::mul::lemma_mul_basics_3(t);
            }
        }
    }
}

proof fn lemma_cnt_le_mono(s: Seq<u8>, t1: int, t2: int)
    requires
        t1 <= t2,
    ensures
        cnt_le(s, t1) <= cnt_le(s, t2),
        sum_le(s, t1) <= sum_le(s, t2),
    decreases s.len(),
{
    if s.len() > 0 {
        lemma_cnt_le_mono(s.drop_last(), t1, t2);
    }
}

proof fn lemma_cnt_le_all(s: Seq<u8>)
    ensures
        cnt_le(s, 255) == s.len(),
    decreases s.len(),
{
    if s.len() > 0 {
        lemma_cnt_le_all(s.drop_last());
    }
}

proof fn lemma_obj_nonneg(s: Seq<u8>, t: int)
    ensures
        otsu_objective(s, t) >= 0,
{
    let wb = cnt_le(s, t);
    let wf_ = s.len() - wb;
    if !(wb == 0 || wf_ == 0) {
        let mb = (sum_le(s, t) * 1024) / wb;
        let mf = ((sum_le(s, 255) - sum_le(s, t)) * 1024) / wf_;
        let d = if mb >= mf {
            mb - mf
        } else {
            mf - mb
        };
        lemma_cnt_le_bounds(s, t);
        vstd::arithmetic::mul::lemma_mul_nonnegative(wb, wf_);
        vstd::arithmetic::mul::lemma_mul_nonnegative(d, d);
        vstd::arithmetic::mul::lemma_mul_nonnegative(wb * wf_, d * d);
    }
}

proof fn lemma_scan_nonneg(s: Seq<u8>, upto: int)
    ensures
        otsu_scan(s, upto).1 >= 0,
    decreases upto,
{
    if upto > 0 {
        lemma_scan_nonneg(s, upto - 1);
    }
}

/// Once the background class swallows every sample, later thresholds add
/// nothing to the scan.
proof fn lemma_scan_stable(s: Seq<u8>, a: int, b: int)
    requires
        0 <= a <= b,
        cnt_le(s, a - 1) == s.len(),
    ensures
        otsu_scan(s, b) == otsu_scan(s, a),
    decreases b - a,
{
    if b > a {
        lemma_scan_stable(s, a, b - 1);
        lemma_cnt_le_mono(s, a - 1, b - 1);
        lemma_cnt_le_bounds(s, b - 1);
        assert(otsu_objective(s, b - 1) == 0);
        lemma_scan_nonneg(s, b - 1);
    }
}

/// Samples counted by `cnt_le` contribute at most 255 each to the sums on
/// either side of the threshold.
proof fn lemma_sum_cnt_rel(s: Seq<u8>, t: int)
    ensures
        sum_le(s, t) <= 255 * cnt_le(s, t),
        sum_le(s, 255) - sum_le(s, t) <= 255 * (s.len() - cnt_le(s, t)),
        sum_le(s, t) <= sum_le(s, 255),
    decreases s.len(),
{
    if s.len() > 0 {
        lemma_sum_cnt_rel(s.drop_last(), t);
    }
}

impl Gray {
    /// Otsu's automatically computed threshold: the smallest intensity
    /// maximizing the between-class variance, 128 when no split separates
    /// two non-empty classes.
    pub fn otsu_threshold(&self) -> (t: u8)
        requires
            self.wf(),
        ensures
            t as int == otsu_of(self@.data),
    {
        proof {
            lemma_mul_bounds(self@.width, self@.height, 0xffff, 0xffff);
        }
        let ghost data = self@.data;
        let data_len = self.data.len();
        let mut hist: Vec<u32> = Vec::new();
        let mut v: usize = 0;
        while v < 256
            invariant
                v <= 256,
                hist@.len() == v,
                forall|u: int| 0 <= u < v ==> hist@[u] == 0,
            decreases 256 - v,
        {
            hist.push(0);
            v = v + 1;
        }
        let mut i: usize = 0;
        while i < data_len
            invariant
                i <= data_len,
                data == self@.data,
                data_len == data.len() <= 0xfffe0001,
                hist@.len() == 256,
                forall|u: int| 0 <= u < 256 ==> hist@[u] as int == cnt_eq(data.take(i as int), u),
            decreases data_len - i,
        {
            let p = self.data[i] as usize;
            proof {
                lemma_cnt_eq_push(data.take(i as int), data[i as int]);
                assert(data.take(i + 1) =~= data.take(i as int).push(data[i as int]));
                lemma_cnt_eq_le_len(data.take(i as int), p as int);
            }
            let c = hist[p];
            hist.set(p, c + 1);
            i = i + 1;
        }
        proof {
            assert(data.take(data_len as int) =~= data);
            lemma_cnt_le_neg(data, -1);
        }
        let mut sum_all: u64 = 0;
        let mut t0: usize = 0;
        while t0 < 256
            invariant
                t0 <= 256,
                data == self@.data,
                data_len == data.len() <= 0xfffe0001,
                hist@.len() == 256,
                forall|u: int| 0 <= u < 256 ==> hist@[u] as int == cnt_eq(data, u),
                sum_all == sum_le(data, t0 as int - 1),
            decreases 256 - t0,
        {
            proof {
                lemma_cnt_le_step(data, t0 as int);
                lemma_cnt_eq_le_len(data, t0 as int);
                lemma_sum_le_bounds(data, t0 as int - 1);
                lemma_sum_le_bounds(data, t0 as int);
                vstd::arithmetic::mul::lemma_mul_upper_bound(
                    t0 as int,
                    255,
                    cnt_eq(data, t0 as int),
                    0xfffe0001,
                );
                vstd::arithmetic::mul::lemma_mul_nonnegative(t0 as int, cnt_eq(data, t0 as int));
            }
            sum_all = sum_all + (t0 as u64) * (hist[t0] as u64);
            t0 = t0 + 1;
        }
        proof {
            lemma_cnt_le_neg(data, -1);
        }
        let mut w_b: u64 = 0;
        let mut sum_b: u64 = 0;
        let mut best_t: u8 = 128;
        let mut best_obj: u128 = 0;
        let mut t: usize = 0;
        while t < 256
            invariant
                t <= 256,
                data == self@.data,
                data_len == data.len() <= 0xfffe0001,
                hist@.len() == 256,
                forall|u: int| 0 <= u < 256 ==> hist@[u] as int == cnt_eq(data, u),
                sum_all == sum_le(data, 255),
                w_b == cnt_le(data, t as int - 1),
                sum_b == sum_le(data, t as int - 1),
                best_t as int == otsu_scan(data, t as int).0,
                best_obj as int == otsu_scan(data, t as int).1,
            decreases 256 - t,
        {
            proof {
                lemma_cnt_le_step(data, t as int);
                lemma_cnt_eq_le_len(data, t as int);
                lemma_cnt_le_bounds(data, t as int);
                lemma_cnt_le_bounds(data, t as int - 1);
                lemma_sum_le_bounds(data, t as int);
                lemma_sum_le_bounds(data, t as int - 1);
                lemma_sum_cnt_rel(data, t as int);
                lemma_scan_nonneg(data, t as int);
                lemma_obj_nonneg(data, t as int);
                vstd::arithmetic::mul::lemma_mul_upper_bound(
                    t as int,
                    255,
                    cnt_eq(data, t as int),
                    0xfffe0001,
                );
                vstd::arithmetic::mul::lemma_mul_nonnegative(t as int, cnt_eq(data, t as int));
            }
            let cnt = hist[t] as u64;
            w_b = w_b + cnt;
            if w_b > 0 {
                let w_f = data_len as u64 - w_b;
                if w_f == 0 {
                    proof {
                        lemma_scan_stable(data, t as int + 1, 256);
                    }
                    return best_t;
                }
                sum_b = sum_b + (t as u64) * cnt;
                let m_b: u64 = sum_b * 1024 / w_b;
                let m_f: u64 = (sum_all - sum_b) * 1024 / w_f;
                proof {
                    lemma_mean_bound(sum_b as int, w_b as int);
                    lemma_mean_bound(sum_all as int - sum_b as int, w_f as int);
                }
                let d: u64 = if m_b >= m_f {
                    m_b - m_f
                } else {
                    m_f - m_b
                };
                proof {
                    vstd::arithmetic::mul::lemma_mul_upper_bound(
                        w_b as int,
                        0x100000000,
                        w_f as int,
                        0x100000000,
                    );
                    vstd::arithmetic::mul::lemma_mul_upper_bound(d as int, 0x3fc00, d as int, 0x3fc00);
                    vstd::arithmetic::mul::lemma_mul_upper_bound(
                        w_b as int * w_f as int,
                        0x10000000000000000,
                        d as int * d as int,
                        0xfe010000000,
                    );
                    vstd::arithmetic::mul::lemma_mul_nonnegative(w_b as int, w_f as int);
                    vstd::arithmetic::mul::lemma_mul_nonnegative(d as int, d as int);
                }
                let var: u128 = ((w_b as u128) * (w_f as u128)) * ((d as u128) * (d as u128));
                if var > best_obj {
                    best_obj = var;
                    best_t = t as u8;
                }
            }
            t = t + 1;
        }
        best_t
    }
}

/// Luma of one RGBA pixel by the ITU-R BT.601 weights, in thousandths.
pub open spec fn luma_px(rgba: Seq<u8>, i: int) -> u8 {
    (((299 * rgba[4 * i] + 587 * rgba[4 * i + 1] + 114 * rgba[4 * i + 2]) as int / 1000) as u8)
}

/// Convert a packed RGBA buffer to grayscale samples.
pub fn rgba_to_gray(rgba: &Vec<u8>, pixel_count: usize) -> (r: Vec<u8>)
    requires
        rgba@.len() == 4 * pixel_count,
    ensures
        r@ == Seq::new(pixel_count as nat, |i: int| luma_px(rgba@, i)),
{
    let total = rgba.len();
    let mut out: Vec<u8> = Vec::new();
    let mut i: usize = 0;
    while i < pixel_count
        invariant
            i <= pixel_count,
            rgba@.len() == 4 * pixel_count,
            total == 4 * pixel_count,
            out@.len() == i,
            forall|j: int| 0 <= j < i ==> out@[j] == luma_px(rgba@, j),
        decreases pixel_count - i,
    {
        let off: usize = 4 * i;
        let lum: u32 = (299 * rgba[off] as u32 + 587 * rgba[off + 1] as u32 + 114 * rgba[off
            + 2] as u32) / 1000;
        out.push(lum as u8);
        i = i + 1;
    }
    proof {
        assert(out@ =~= Seq::new(pixel_count as nat, |i: int| luma_px(rgba@, i)));
    }
    out
}

/// A mean over `w` samples bounded by 255, in 1024ths, is at most 255 * 1024.
proof fn lemma_mean_bound(s: int, w: int)
    requires
        0 < w,
        0 <= s <= 255 * w,
    ensures
        0 <= (s * 1024) / w <= 255 * 1024,
{
    vstd::arithmetic::mul::lemma_mul_inequality(s, 255 * w, 1024);
    vstd::arithmetic::mul::lemma_mul_is_commutative(255 * w, 1024);
    vstd::arithmetic::mul::lemma_mul_is_associative(1024, 255, w);
    assert(s * 1024 <= (1024 * 255) * w);
    vstd::arithmetic::div_mod::lemma_div_is_ordered(s * 1024, (1024 * 255) * w, w);
    vstd::arithmetic::div_mod::lemma_div_by_multiple(1024int * 255, w);
    vstd::arithmetic::mul::lemma_mul_nonnegative(s, 1024);
    vstd::arithmetic::div_mod::lemma_div_pos_is_pos(s * 1024, w);
}

/// A product of a bounded signed factor and a bounded nonnegative factor is
/// bounded on both sides.
proof fn lemma_mul_signed_bound(x: int, b: int, c: int, cb: int)
    requires
        -b <= x <= b,
        0 <= c <= cb,
        0 <= b,
    ensures
        -(b * cb) <= x * c <= b * cb,
{
    vstd::arithmetic::mul::lemma_mul_inequality(x, b, c);
    vstd::arithmetic::mul::lemma_mul_inequality(-b, x, c);
    vstd::arithmetic::mul::lemma_mul_inequality(c, cb, b);
    vstd::arithmetic::mul::lemma_mul_is_commutative(b, c);
    vstd::arithmetic::mul::lemma_mul_is_commutative(b, cb);
    vstd::arithmetic::mul::lemma_mul_is_distributive_sub_other_way(c, 0, b);
}

/// The rotated canvas is no larger than the sum of the source dimensions.
proof fn lemma_rot_dim_bound(a: int, b: int, cq: int, sq: int)
    requires
        0 <= a,
        0 <= b,
        a + b <= 0xfffe,
        0 <= cq <= 65536,
        0 <= sq <= 65536,
    ensures
        0 <= rot_dim(a, b, cq, sq) <= a + b,
{
    vstd::arithmetic::mul::lemma_mul_inequality(cq, 65536, a);
    vstd::arithmetic::mul::lemma_mul_is_commutative(a, cq);
    vstd::arithmetic::mul::lemma_mul_is_commutative(b, sq);
    vstd::arithmetic::mul::lemma_mul_inequality(sq, 65536, b);
    assert(a * cq + b * sq + 65535 <= a * 65536 + b * 65536 + 65535);
    vstd::arithmetic::div_mod::lemma_div_is_ordered(
        a * cq + b * sq + 65535,
        a * 65536 + b * 65536 + 65535,
        65536,
    );
    assert((a * 65536 + b * 65536 + 65535) / 65536 == a + b) by {
        vstd::arithmetic::div_mod::lemma_fundamental_div_mod_converse(
            a * 65536 + b * 65536 + 65535,
            65536,
            a + b,
            65535,
        );
    }
    vstd::arithmetic::div_mod::lemma_div_pos_is_pos(a * cq + b * sq + 65535, 65536);
}

/// The least sample is a lower bound on every sample.
proof fn lemma_min_le_all(s: Seq<u8>, i: int)
    requires
        0 <= i < s.len(),
    ensures
        min_of(s) <= s[i] <= max_of(s),
    decreases s.len(),
{
    if i == s.len() - 1 {
    } else {
        lemma_min_le_all(s.drop_last(), i);
    }
}

/// For a flat index `i` within an `nw` x `nh` grid, its column and row are
/// within the grid.
proof fn lemma_row_major_bound(i: int, nw: int, nh: int)
    requires
        0 <= i < nw * nh,
        0 < nw,
    ensures
        0 <= i % nw < nw,
        0 <= i / nw < nh,
{
    vstd::arithmetic::div_mod::lemma_fundamental_div_mod(i, nw);
    vstd::arithmetic::div_mod::lemma_mod_bound(i, nw);
    vstd::arithmetic::div_mod::lemma_div_pos_is_pos(i, nw);
    if i / nw >= nh {
        vstd::arithmetic::mul::lemma_mul_inequality(nh, i / nw, nw);
        assert(nh * nw <= (i / nw) * nw);
        vstd::arithmetic::mul::lemma_mul_is_commutative(nh, nw);
        vstd::arithmetic::mul::lemma_mul_is_commutative(i / nw, nw);
        assert(i < nw * nh);
        assert(nw * (i / nw) <= i);
        assert(false);
    }
    if i / nw < 0 {
        vstd::arithmetic::div_mod::lemma_div_is_ordered(0, i, nw);
        assert(false);
    }
}

} // verus!

