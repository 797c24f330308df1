//! Finder-pattern detection: scan rows for the 1:1:3:1:1 run-length
//! signature, verify candidates vertically, merge near-duplicates, group
//! them into L-shaped triples, and cut out candidate QR regions.

use vstd::prelude::*;
use crate::gray::{crop_spec, Gray, GrayV};

verus! {

/// Configuration of the finder-pattern detector.
#[derive(Debug, Clone)]
pub struct DetectorConfig {
    /// Smallest accepted region side, in pixels.
    pub min_size: u32,
    /// Largest accepted region side, in pixels.
    pub max_size: u32,
    /// Binarization threshold for the run-length scan.
    pub threshold: u8,
    /// Tolerance of the 1:1:3:1:1 ratio test, in percent of a module.
    pub ratio_tolerance: u32,
}

impl Default for DetectorConfig {
    /// The stock configuration.
    fn default() -> (r: Self)
        ensures
            r.min_size == 20,
            r.max_size == 2000,
            r.threshold == 128,
            r.ratio_tolerance == 50,
    {
        DetectorConfig { min_size: 20, max_size: 2000, threshold: 128, ratio_tolerance: 50 }
    }
}

/// A candidate finder-pattern location. `total` is the width of the whole
/// five-run window, that is seven modules.
#[derive(Debug, Clone, Copy)]
pub struct FinderPattern {
    pub center_x: u32,
    pub center_y: u32,
    pub total: u32,
}

/// A detected candidate QR region.
#[derive(Debug, Clone)]
pub struct DetectedQR {
    /// Bounding box x, y, width, height.
    pub bbox: [u32; 4],
    /// Corners: top-left, top-right, bottom-right, bottom-left.
    pub corners: [(u32, u32); 4],
    /// The cropped candidate region.
    pub image: Gray,
    /// Detection confidence in percent.
    pub confidence: u8,
}

/// One run of the window approximates `e` modules: the distance between
/// the run and `e` sevenths of the window is within the tolerance, all
/// scaled by 700 to stay in integers.
pub open spec fn seg_ok(c: int, e: int, total: int, tol_pct: int) -> bool {
    let d = 700 * c - 100 * e * total;
    -(tol_pct * total) <= d && d <= tol_pct * total
}

/// The five run lengths approximate the 1:1:3:1:1 finder signature.
pub open spec fn ratio_ok(c0: int, c1: int, c2: int, c3: int, c4: int, tol_pct: int) -> bool {
    let total = c0 + c1 + c2 + c3 + c4;
    &&& total >= 7
    &&& seg_ok(c0, 1, total, tol_pct)
    &&& seg_ok(c1, 1, total, tol_pct)
    &&& seg_ok(c2, 3, total, tol_pct)
    &&& seg_ok(c3, 1, total, tol_pct)
    &&& seg_ok(c4, 1, total, tol_pct)
}

/// A pattern lies within the image and spans at least one module per run.
pub open spec fn pattern_wf(p: FinderPattern, v: GrayV) -> bool {
    &&& p.center_x < v.width
    &&& p.center_y < v.height
    &&& 7 <= p.total
    &&& p.total <= v.width
}

/// A recorded candidate is well-formed and passed the vertical
/// cross-check at the detector's threshold and tolerance.
pub open spec fn pattern_sound(p: FinderPattern, v: GrayV, th: u8, tol: int) -> bool {
    &&& pattern_wf(p, v)
    &&& vertical_ok(v, p.center_x as int, p.center_y as int, p.total as int, th, tol)
}

/// The five window counts as mathematical integers.
pub open spec fn counts5(c: [u32; 5]) -> Seq<int> {
    seq![c[0] as int, c[1] as int, c[2] as int, c[3] as int, c[4] as int]
}

/// One step of the five-run scanner on a pixel: runs alternate black and
/// white starting black; a matching pixel extends the current run, a
/// mismatch opens the next, and a completed window freezes the state.
pub open spec fn scan_step(counts: Seq<int>, state: int, black: bool) -> (Seq<int>, int) {
    if state >= 5 {
        (counts, state)
    } else if black == (state % 2 == 0) {
        (counts.update(state, counts[state] + 1), state)
    } else if state + 1 >= 5 {
        (counts, 5)
    } else {
        (counts.update(state + 1, 1), state + 1)
    }
}

/// The run counts and state of the five-run scanner after walking rows
/// `y0` up to (excluding) `y` of the column `x`.
pub open spec fn vscan(v: GrayV, x: int, th: u8, y0: int, y: int) -> (Seq<int>, int)
    decreases y - y0,
{
    if y <= y0 {
        (seq![0, 0, 0, 0, 0], 0)
    } else {
        let p = vscan(v, x, th, y0, y - 1);
        scan_step(p.0, p.1, v.at(x, y - 1) < th)
    }
}

/// The scanner's counts stay bounded by the number of rows walked.
proof fn lemma_vscan_bounds(v: GrayV, x: int, th: u8, y0: int, y: int)
    requires
        y0 <= y,
    ensures
        ({
            let p = vscan(v, x, th, y0, y);
            &&& p.0.len() == 5
            &&& 0 <= p.1 <= 5
            &&& forall|q: int| 0 <= q < 5 ==> 0 <= #[trigger] p.0[q] <= y - y0
        }),
    decreases y - y0,
{
    if y > y0 {
        lemma_vscan_bounds(v, x, th, y0, y - 1);
    }
}

/// Once the scanner has frozen, walking further rows changes nothing.
proof fn lemma_vscan_stable(v: GrayV, x: int, th: u8, y0: int, a: int, b: int)
    requires
        y0 <= a <= b,
        vscan(v, x, th, y0, a).1 == 5,
    ensures
        vscan(v, x, th, y0, b) == vscan(v, x, th, y0, a),
    decreases b - a,
{
    if b > a {
        lemma_vscan_stable(v, x, th, y0, a, b - 1);
    }
}

/// The vertical cross-check of a candidate: the five vertical runs through
/// its center, over a window of half the candidate's width to each side,
/// pass the ratio test.
pub open spec fn vertical_ok(v: GrayV, cx: int, cy: int, total: int, th: u8, tol: int) -> bool {
    let cr = total / 2;
    let y0 = if cy > cr {
        cy - cr
    } else {
        0
    };
    let ye = if cy + cr > v.height - 1 {
        v.height - 1
    } else {
        cy + cr
    };
    let c = vscan(v, cx, th, y0, ye + 1).0;
    ratio_ok(c[0], c[1], c[2], c[3], c[4], tol)
}

/// The candidate a completed five-run window yields, if any: the window
/// of counts `c` ends just before column `x_end` of row `y`, and the
/// candidate is kept exactly when the ratio test and the vertical
/// cross-check through its center both pass.
pub open spec fn recorded_at(v: GrayV, c: Seq<int>, x_end: int, y: int, th: u8, tol: int) -> Seq<
    FinderPattern,
> {
    let total = c[0] + c[1] + c[2] + c[3] + c[4];
    let cx = x_end - 1 - total / 2;
    if ratio_ok(c[0], c[1], c[2], c[3], c[4], tol) && vertical_ok(v, cx, y, total, th, tol) {
        seq![
            FinderPattern { center_x: cx as u32, center_y: y as u32, total: total as u32 },
        ]
    } else {
        Seq::empty()
    }
}

/// One step of the horizontal scanner on the pixel at column `x` of row
/// `y`: black pixels extend or open runs; a white pixel after a complete
/// five-run window records the candidate and slides the window by one
/// black-white pair; leading white pixels are skipped.
pub open spec fn hstep(
    v: GrayV,
    y: int,
    th: u8,
    tol: int,
    st: (Seq<int>, int, Seq<FinderPattern>),
    x: int,
) -> (Seq<int>, int, Seq<FinderPattern>) {
    let c = st.0;
    let s = st.1;
    let rec = st.2;
    let black = v.at(x, y) < th;
    if black {
        if s % 2 == 0 {
            (c.update(s, c[s] + 1), s, rec)
        } else {
            (c.update(s + 1, c[s + 1] + 1), s + 1, rec)
        }
    } else {
        if s % 2 == 1 {
            (c.update(s, c[s] + 1), s, rec)
        } else if s == 4 {
            (seq![c[2], c[3], c[4], 1, 0], 3, rec + recorded_at(v, c, x, y, th, tol))
        } else if s == 0 && c[0] == 0 {
            (c, s, rec)
        } else {
            (c.update(s + 1, c[s + 1] + 1), s + 1, rec)
        }
    }
}

/// The horizontal scanner's counts, state and recorded candidates after
/// walking columns 0 up to (excluding) `x` of row `y`.
pub open spec fn hscan(v: GrayV, y: int, th: u8, tol: int, x: int) -> (
    Seq<int>,
    int,
    Seq<FinderPattern>,
)
    decreases x,
{
    if x <= 0 {
        (seq![0, 0, 0, 0, 0], 0, Seq::empty())
    } else {
        hstep(v, y, th, tol, hscan(v, y, th, tol, x - 1), x - 1)
    }
}

/// The candidates one row contributes: those its scan records, and the
/// window still open at the row's end when it is complete.
pub open spec fn row_patterns(v: GrayV, y: int, th: u8, tol: int) -> Seq<FinderPattern> {
    let p = hscan(v, y, th, tol, v.width);
    p.2 + if p.1 == 4 {
        recorded_at(v, p.0, v.width, y, th, tol)
    } else {
        Seq::empty()
    }
}

/// The candidates of rows 0 up to (excluding) `y`, in scan order.
pub open spec fn scan_patterns(v: GrayV, th: u8, tol: int, y: int) -> Seq<FinderPattern>
    decreases y,
{
    if y <= 0 {
        Seq::empty()
    } else {
        scan_patterns(v, th, tol, y - 1) + row_patterns(v, y - 1, th, tol)
    }
}

/// An image without columns yields no candidates in any row.
proof fn lemma_scan_patterns_empty(v: GrayV, th: u8, tol: int, y: int)
    requires
        v.width <= 0,
        0 <= y,
    ensures
        scan_patterns(v, th, tol, y).len() == 0,
    decreases y,
{
    if y > 0 {
        lemma_scan_patterns_empty(v, th, tol, y - 1);
    }
}

/// The three window widths agree within half their average: scaled by 6,
/// each must be within one average of twice the sum.
pub open spec fn sizes_agree(t1: int, t2: int, t3: int) -> bool {
    let s = t1 + t2 + t3;
    &&& -(s) <= 6 * t1 - 2 * s && 6 * t1 - 2 * s <= s
    &&& -(s) <= 6 * t2 - 2 * s && 6 * t2 - 2 * s <= s
    &&& -(s) <= 6 * t3 - 2 * s && 6 * t3 - 2 * s <= s
}

/// Squared distance between two pattern centers.
pub open spec fn dist_sq(a: FinderPattern, b: FinderPattern) -> int {
    (a.center_x - b.center_x) * (a.center_x - b.center_x) + (a.center_y - b.center_y) * (
    a.center_y - b.center_y)
}

/// The geometric signature of an L-shaped marker arrangement, on squared
/// distances: the two short sides agree within 30 percent, and the longest
/// distance is the diagonal, within 30 percent of side times sqrt(2)
/// (1.414 exactly, squared and scaled to integers).
pub open spec fn l_shape_ok(q1: int, q2: int, q3: int) -> bool {
    &&& 100 * q2 < 169 * q1
    &&& 100000000 * q3 < 169 * 1999396 * q1
    &&& 100000000 * q3 > 49 * 1999396 * q1
}

/// The least of three values.
pub open spec fn min3(a: int, b: int, c: int) -> int {
    if a <= b && a <= c {
        a
    } else if b <= c {
        b
    } else {
        c
    }
}

/// The greatest of three values.
pub open spec fn max3(a: int, b: int, c: int) -> int {
    if a >= b && a >= c {
        a
    } else if b >= c {
        b
    } else {
        c
    }
}

/// Whether three patterns form a valid QR placement: agreeing module
/// sizes and the L-shape distance signature on the sorted squared
/// distances.
pub open spec fn group_ok(p1: FinderPattern, p2: FinderPattern, p3: FinderPattern) -> bool {
    let d12 = dist_sq(p1, p2);
    let d23 = dist_sq(p2, p3);
    let d13 = dist_sq(p1, p3);
    let lo = min3(d12, d23, d13);
    let hi = max3(d12, d23, d13);
    let mid = d12 + d23 + d13 - lo - hi;
    &&& sizes_agree(p1.total as int, p2.total as int, p3.total as int)
    &&& l_shape_ok(lo, mid, hi)
}

/// The triple `g` is the patterns at indices `a < b < c`, and those
/// three pass the placement test.
pub open spec fn triple_at(ps: Seq<FinderPattern>, g: [FinderPattern; 3], a: int, b: int, c: int) -> bool {
    &&& 0 <= a < b && b < c && c < ps.len()
    &&& g[0] == ps[a]
    &&& g[1] == ps[b]
    &&& g[2] == ps[c]
    &&& group_ok(ps[a], ps[b], ps[c])
}

/// The cluster state after the scan of candidates `i+1` up to
/// (excluding) `j` around a seed: running coordinate and width sums, the
/// cluster size, and the used flags. A candidate is absorbed when it is
/// unused and its center lies within two of the seed's modules, compared
/// on squared distances scaled to integers.
pub open spec fn absorb(
    ps: Seq<FinderPattern>,
    used: Seq<bool>,
    seed: FinderPattern,
    j: int,
    sx: int,
    sy: int,
    st: int,
    c: int,
) -> (int, int, int, int, Seq<bool>)
    decreases ps.len() - j,
{
    if j < 0 || j >= ps.len() {
        (sx, sy, st, c, used)
    } else if !used[j] && 49 * dist_sq(seed, ps[j]) < 4 * (seed.total * seed.total) {
        absorb(
            ps,
            used.update(j, true),
            seed,
            j + 1,
            sx + ps[j].center_x,
            sy + ps[j].center_y,
            st + ps[j].total,
            c + 1,
        )
    } else {
        absorb(ps, used, seed, j + 1, sx, sy, st, c)
    }
}

/// The merged clusters from index `i` on: each unused pattern in turn
/// seeds a cluster, absorbs every later unused pattern within two of its
/// modules, and yields the arithmetic mean of the cluster's centers and
/// window widths.
pub open spec fn merge_from(ps: Seq<FinderPattern>, used: Seq<bool>, i: int) -> Seq<FinderPattern>
    decreases ps.len() - i,
{
    if i < 0 || i >= ps.len() {
        Seq::empty()
    } else if used[i] {
        merge_from(ps, used, i + 1)
    } else {
        let a = absorb(
            ps,
            used,
            ps[i],
            i + 1,
            ps[i].center_x as int,
            ps[i].center_y as int,
            ps[i].total as int,
            1,
        );
        seq![
            FinderPattern {
                center_x: (a.0 / a.3) as u32,
                center_y: (a.1 / a.3) as u32,
                total: (a.2 / a.3) as u32,
            },
        ] + merge_from(ps, a.4.update(i, true), i + 1)
    }
}

/// The triple `g` is some index triple of `ps` that passes the
/// placement test.
pub open spec fn some_triple(ps: Seq<FinderPattern>, g: [FinderPattern; 3]) -> bool {
    exists|a: int, b: int, c: int| triple_at(ps, g, a, b, c)
}

/// The margin-padded bounding box a pattern triple expands to, clamped
/// to the image and filtered by the configured size range: nothing when a
/// side leaves the range, else (x, y, width, height).
pub open spec fn extract_box(
    config: DetectorConfig,
    w_img: int,
    h_img: int,
    p1: FinderPattern,
    p2: FinderPattern,
    p3: FinderPattern,
) -> Option<(int, int, int, int)> {
    let min_x = min3(p1.center_x as int, p2.center_x as int, p3.center_x as int) - 20;
    let max_x = max3(p1.center_x as int, p2.center_x as int, p3.center_x as int) + 20;
    let min_y = min3(p1.center_y as int, p2.center_y as int, p3.center_y as int) - 20;
    let max_y = max3(p1.center_y as int, p2.center_y as int, p3.center_y as int) + 20;
    let x = if min_x > 0 {
        min_x
    } else {
        0
    };
    let y = if min_y > 0 {
        min_y
    } else {
        0
    };
    let bw = if max_x - min_x < w_img - x {
        max_x - min_x
    } else {
        w_img - x
    };
    let bh = if max_y - min_y < h_img - y {
        max_y - min_y
    } else {
        h_img - y
    };
    if bw < config.min_size || bh < config.min_size || bw > config.max_size || bh
        > config.max_size {
        None
    } else {
        Some((x, y, bw, bh))
    }
}

/// A detected region is structurally sound for the source image: its box
/// lies within bounds, its corners are the box corners, and its image is
/// exactly the cropped region.
pub open spec fn valid_detected(v: GrayV, d: DetectedQR) -> bool {
    &&& d.image@.wf()
    &&& d.bbox[0] + d.bbox[2] <= v.width
    &&& d.bbox[1] + d.bbox[3] <= v.height
    &&& d.image@ == crop_spec(v, d.bbox[0] as int, d.bbox[1] as int, d.bbox[2] as int, d.bbox[3] as int)
    &&& d.corners[0] == ((d.bbox[0], d.bbox[1]))
    &&& d.corners[1] == (((d.bbox[0] + d.bbox[2]) as u32, d.bbox[1]))
    &&& d.corners[2] == (((d.bbox[0] + d.bbox[2]) as u32, (d.bbox[1] + d.bbox[3]) as u32))
    &&& d.corners[3] == ((d.bbox[0], (d.bbox[1] + d.bbox[3]) as u32))
    &&& (d.confidence == 80 || d.confidence == 50)
}

/// The finder-pattern detector.
pub struct QRDetector {
    /// Its configuration.
    pub config: DetectorConfig,
}

impl QRDetector {
    /// A detector with the given configuration.
    pub fn new(config: DetectorConfig) -> (r: Self)
        ensures
            r.config == config,
    {
        QRDetector { config }
    }

    /// The 1:1:3:1:1 ratio test on five run lengths.
    pub fn check_ratio(&self, counts: &[u32; 5]) -> (r: bool)
        ensures
            r == ratio_ok(
                counts[0] as int,
                counts[1] as int,
                counts[2] as int,
                counts[3] as int,
                counts[4] as int,
                self.config.ratio_tolerance as int,
            ),
    {
        let c0 = counts[0] as i128;
        let c1 = counts[1] as i128;
        let c2 = counts[2] as i128;
        let c3 = counts[3] as i128;
        let c4 = counts[4] as i128;
        let total: i128 = c0 + c1 + c2 + c3 + c4;
        if total < 7 {
            return false;
        }
        proof {
            lemma_ratio_products(c0 as int, c1 as int, c2 as int, c3 as int, c4 as int, total as int,
                self.config.ratio_tolerance as int);
        }
        let tol: i128 = self.config.ratio_tolerance as i128 * total;
        let d0: i128 = 700 * c0 - 100 * total;
        let d1: i128 = 700 * c1 - 100 * total;
        let d2: i128 = 700 * c2 - 300 * total;
        let d3: i128 = 700 * c3 - 100 * total;
        let d4: i128 = 700 * c4 - 100 * total;
        -tol <= d0 && d0 <= tol && -tol <= d1 && d1 <= tol && -tol <= d2 && d2 <= tol && -tol <= d3
            && d3 <= tol && -tol <= d4 && d4 <= tol
    }

    /// Vertical cross-check: rescan the column through the candidate
    /// center and apply the same ratio test to the vertical runs.
    fn verify_vertical(&self, img: &Gray, center_x: usize, center_y: usize, total_h: u32) -> (r:
        bool)
        requires
            img.wf(),
            center_x < img@.width,
            center_y < img@.height,
        ensures
            r == vertical_ok(
                img@,
                center_x as int,
                center_y as int,
                total_h as int,
                self.config.threshold,
                self.config.ratio_tolerance as int,
            ),
    {
        let h = img.height;
        let check_range = (total_h / 2) as usize;
        let start_y = if center_y > check_range {
            center_y - check_range
        } else {
            0
        };
        let mut end_y = center_y + check_range;
        if end_y > h - 1 {
            end_y = h - 1;
        }
        let ghost cx = center_x as int;
        let ghost th = self.config.threshold;
        let ghost y0 = start_y as int;
        let mut v_counts: [u32; 5] = [0, 0, 0, 0, 0];
        let mut state: usize = 0;
        let mut y = start_y;
        proof {
            assert(counts5(v_counts) =~= vscan(img@, cx, th, y0, y as int).0);
        }
        while y <= end_y
            invariant_except_break
                img.wf(),
                center_x < img@.width,
                cx == center_x as int,
                th == self.config.threshold,
                y0 == start_y as int,
                start_y <= y <= end_y + 1,
                end_y < img@.height,
                img@.height <= 0xffff,
                state < 5,
                counts5(v_counts) == vscan(img@, cx, th, y0, y as int).0,
                state as int == vscan(img@, cx, th, y0, y as int).1,
            ensures
                counts5(v_counts) == vscan(img@, cx, th, y0, end_y as int + 1).0,
            decreases end_y + 1 - y,
        {
            let pixel = img.get(center_x, y);
            let is_black = pixel < self.config.threshold;
            let expected_black = state % 2 == 0;
            let ghost pre = vscan(img@, cx, th, y0, y as int);
            proof {
                lemma_vscan_bounds(img@, cx, th, y0, y as int);
                assert(vscan(img@, cx, th, y0, y as int + 1) == scan_step(
                    pre.0,
                    pre.1,
                    img@.at(cx, y as int) < th,
                ));
            }
            if is_black == expected_black {
                v_counts[state] = v_counts[state] + 1;
                proof {
                    assert(counts5(v_counts) =~= scan_step(pre.0, pre.1, is_black).0);
                }
            } else {
                state = state + 1;
                if state >= 5 {
                    proof {
                        lemma_vscan_stable(img@, cx, th, y0, y as int + 1, end_y as int + 1);
                        assert(counts5(v_counts) =~= scan_step(pre.0, pre.1, is_black).0);
                    }
                    break ;
                }
                v_counts[state] = 1;
                proof {
                    assert(counts5(v_counts) =~= scan_step(pre.0, pre.1, is_black).0);
                }
            }
            y = y + 1;
        }
        let r = self.check_ratio(&v_counts);
        proof {
            let c = vscan(img@, cx, th, y0, end_y as int + 1).0;
            assert(v_counts[0] as int == c[0] && v_counts[1] as int == c[1] && v_counts[2] as int
                == c[2] && v_counts[3] as int == c[3] && v_counts[4] as int == c[4]);
        }
        r
    }

    /// Scan every row for the five-run finder signature; a horizontal hit
    /// is kept only when the vertical rescan through its center also
    /// matches, so every returned candidate passed the vertical ratio
    /// test.
    fn find_finder_patterns(&self, img: &Gray) -> (r: Vec<FinderPattern>)
        requires
            img.wf(),
        ensures
            forall|j: int| 0 <= j < r@.len() ==> pattern_sound(
                #[trigger] r@[j],
                img@,
                self.config.threshold,
                self.config.ratio_tolerance as int,
            ),
            r@.len() <= 0xffffffff,
            r@ == scan_patterns(
                img@,
                self.config.threshold,
                self.config.ratio_tolerance as int,
                img@.height as int,
            ),
    {
        let ghost th = self.config.threshold;
        let ghost tol = self.config.ratio_tolerance as int;
        let w = img.width;
        let h = img.height;
        let mut patterns: Vec<FinderPattern> = Vec::new();
        if w == 0 || h == 0 {
            proof {
                if w == 0 {
                    lemma_scan_patterns_empty(img@, th, tol, h as int);
                }
                assert(patterns@ =~= scan_patterns(img@, th, tol, img@.height as int));
            }
            return patterns;
        }
        let mut y: usize = 0;
        while y < h
            invariant
                img.wf(),
                w == img@.width,
                h == img@.height,
                0 < w <= 0xffff,
                0 < h <= 0xffff,
                y <= h,
                th == self.config.threshold,
                tol == self.config.ratio_tolerance as int,
                patterns@.len() <= y * (w + 1),
                patterns@ == scan_patterns(img@, th, tol, y as int),
                forall|j: int| 0 <= j < patterns@.len() ==> pattern_sound(
                    #[trigger] patterns@[j],
                    img@,
                    self.config.threshold,
                    self.config.ratio_tolerance as int,
                ),
            decreases h - y,
        {
            let mut counts: [u32; 5] = [0, 0, 0, 0, 0];
            let mut state: usize = 0;
            let mut x: usize = 0;
            proof {
                assert(counts5(counts) =~= hscan(img@, y as int, th, tol, 0).0);
                assert(patterns@ =~= scan_patterns(img@, th, tol, y as int) + hscan(
                    img@,
                    y as int,
                    th,
                    tol,
                    0,
                ).2);
            }
            while x < w
                invariant
                    img.wf(),
                    w == img@.width,
                    h == img@.height,
                    0 < w <= 0xffff,
                    0 < h <= 0xffff,
                    y < h,
                    x <= w,
                    state < 5,
                    th == self.config.threshold,
                    tol == self.config.ratio_tolerance as int,
                    counts[0] + counts[1] + counts[2] + counts[3] + counts[4] <= x,
                    patterns@.len() <= y * (w + 1) + x,
                    counts5(counts) == hscan(img@, y as int, th, tol, x as int).0,
                    state as int == hscan(img@, y as int, th, tol, x as int).1,
                    patterns@ == scan_patterns(img@, th, tol, y as int) + hscan(
                        img@,
                        y as int,
                        th,
                        tol,
                        x as int,
                    ).2,
                    forall|j: int| 0 <= j < patterns@.len() ==> pattern_sound(
                        #[trigger] patterns@[j],
                        img@,
                        self.config.threshold,
                        self.config.ratio_tolerance as int,
                    ),
                decreases w - x,
            {
                let ghost pre = hscan(img@, y as int, th, tol, x as int);
                proof {
                    assert(hscan(img@, y as int, th, tol, x as int + 1) == hstep(
                        img@,
                        y as int,
                        th,
                        tol,
                        pre,
                        x as int,
                    ));
                }
                let black = img.get(x, y) < self.config.threshold;
                if black {
                    if state % 2 == 0 {
                        counts[state] = counts[state] + 1;
                        proof {
                            assert(counts5(counts) =~= hstep(
                                img@,
                                y as int,
                                th,
                                tol,
                                pre,
                                x as int,
                            ).0);
                        }
                    } else {
                        state = state + 1;
                        counts[state] = counts[state] + 1;
                        proof {
                            assert(counts5(counts) =~= hstep(
                                img@,
                                y as int,
                                th,
                                tol,
                                pre,
                                x as int,
                            ).0);
                        }
                    }
                } else {
                    if state % 2 == 1 {
                        counts[state] = counts[state] + 1;
                        proof {
                            assert(counts5(counts) =~= hstep(
                                img@,
                                y as int,
                                th,
                                tol,
                                pre,
                                x as int,
                            ).0);
                        }
                    } else if state == 4 {
                        self.record_candidate(img, &counts, x, y, &mut patterns);
                        let c2 = counts[2];
                        let c3 = counts[3];
                        let c4 = counts[4];
                        counts = [c2, c3, c4, 1, 0];
                        state = 3;
                        proof {
                            assert(counts5(counts) =~= hstep(
                                img@,
                                y as int,
                                th,
                                tol,
                                pre,
                                x as int,
                            ).0);
                            assert(patterns@ =~= scan_patterns(img@, th, tol, y as int) + hstep(
                                img@,
                                y as int,
                                th,
                                tol,
                                pre,
                                x as int,
                            ).2);
                        }
                    } else if state == 0 && counts[0] == 0 {
                    } else {
                        state = state + 1;
                        counts[state] = counts[state] + 1;
                        proof {
                            assert(counts5(counts) =~= hstep(
                                img@,
                                y as int,
                                th,
                                tol,
                                pre,
                                x as int,
                            ).0);
                        }
                    }
                }
                x = x + 1;
            }
            let ghost rowend = hscan(img@, y as int, th, tol, w as int);
            if state == 4 {
                self.record_candidate(img, &counts, w, y, &mut patterns);
                proof {
                    assert(patterns@ =~= scan_patterns(img@, th, tol, y as int) + row_patterns(
                        img@,
                        y as int,
                        th,
                        tol,
                    ));
                }
            } else {
                proof {
                    assert(row_patterns(img@, y as int, th, tol) =~= rowend.2);
                }
            }
            proof {
                vstd::arithmetic::mul::lemma_mul_is_distributive_add_other_way(
                    w as int + 1,
                    y as int,
                    1,
                );
                assert(patterns@ =~= scan_patterns(img@, th, tol, y as int + 1));
            }
            y = y + 1;
        }
        proof {
            vstd::arithmetic::mul::lemma_mul_upper_bound(h as int, 0xffff, w as int + 1, 0x10000);
        }
        patterns
    }

    /// Test a completed five-run window ending just before column `x_end`
    /// and record it as a pattern when both scans match.
    fn record_candidate(
        &self,
        img: &Gray,
        counts: &[u32; 5],
        x_end: usize,
        y: usize,
        patterns: &mut Vec<FinderPattern>,
    )
        requires
            img.wf(),
            y < img@.height,
            x_end <= img@.width,
            counts[0] + counts[1] + counts[2] + counts[3] + counts[4] <= x_end,
            forall|j: int| 0 <= j < old(patterns)@.len() ==> pattern_sound(
                #[trigger] old(patterns)@[j],
                img@,
                self.config.threshold,
                self.config.ratio_tolerance as int,
            ),
        ensures
            forall|j: int| 0 <= j < final(patterns)@.len() ==> pattern_sound(
                #[trigger] final(patterns)@[j],
                img@,
                self.config.threshold,
                self.config.ratio_tolerance as int,
            ),
            final(patterns)@ == old(patterns)@ + recorded_at(
                img@,
                counts5(*counts),
                x_end as int,
                y as int,
                self.config.threshold,
                self.config.ratio_tolerance as int,
            ),
    {
        let ghost rec = recorded_at(
            img@,
            counts5(*counts),
            x_end as int,
            y as int,
            self.config.threshold,
            self.config.ratio_tolerance as int,
        );
        if !self.check_ratio(counts) {
            proof {
                assert(patterns@ =~= old(patterns)@ + rec);
            }
            return ;
        }
        let total: u32 = counts[0] + counts[1] + counts[2] + counts[3] + counts[4];
        let center_x: usize = x_end - 1 - (total / 2) as usize;
        if self.verify_vertical(img, center_x, y, total) {
            patterns.push(
                FinderPattern { center_x: center_x as u32, center_y: y as u32, total },
            );
            proof {
                assert(patterns@ =~= old(patterns)@ + rec);
            }
        } else {
            proof {
                assert(patterns@ =~= old(patterns)@ + rec);
            }
        }
    }

    /// Merge patterns whose centers lie within two modules of a cluster
    /// seed, averaging centers and window widths; the first unmerged
    /// pattern seeds each cluster. The result is exactly `merge_from`
    /// over the inputs.
    fn merge_patterns(&self, patterns: &Vec<FinderPattern>, img: &Gray) -> (r: Vec<FinderPattern>)
        requires
            img.wf(),
            img@.width > 0,
            img@.height > 0,
            patterns@.len() <= 0xffffffff,
            forall|j: int| 0 <= j < patterns@.len() ==> pattern_wf(#[trigger] patterns@[j], img@),
        ensures
            forall|j: int| 0 <= j < r@.len() ==> pattern_wf(#[trigger] r@[j], img@),
            r@.len() <= patterns@.len(),
            r@ == merge_from(
                patterns@,
                Seq::new(patterns@.len(), |q: int| false),
                0,
            ),
    {
        let ghost gw = img@.width;
        let ghost gh = img@.height;
        let n = patterns.len();
        let ghost used0 = Seq::new(patterns@.len(), |q: int| false);
        let mut merged: Vec<FinderPattern> = Vec::new();
        let mut used: Vec<bool> = Vec::new();
        let mut t: usize = 0;
        while t < n
            invariant
                t <= n,
                used@.len() == t,
                forall|q: int| 0 <= q < t ==> !(#[trigger] used@[q]),
            decreases n - t,
        {
            used.push(false);
            t = t + 1;
        }
        proof {
            assert(used@ =~= used0);
            assert(merged@ + merge_from(patterns@, used@, 0) =~= merge_from(
                patterns@,
                used0,
                0,
            ));
        }
        let mut i: usize = 0;
        while i < n
            invariant
                i <= n,
                n == patterns@.len(),
                used@.len() == n,
                img.wf(),
                gw == img@.width,
                gh == img@.height,
                0 < gw <= 0xffff,
                0 < gh <= 0xffff,
                used0 == Seq::new(patterns@.len(), |q: int| false),
                forall|j: int| 0 <= j < patterns@.len() ==> pattern_wf(
                    #[trigger] patterns@[j],
                    img@,
                ),
                forall|j: int| 0 <= j < merged@.len() ==> pattern_wf(#[trigger] merged@[j], img@),
                merged@.len() <= i,
                n <= 0xffffffff,
                merged@ + merge_from(patterns@, used@, i as int) == merge_from(
                    patterns@,
                    used0,
                    0,
                ),
            decreases n - i,
        {
            if used[i] {
                i = i + 1;
            } else {
                let p1 = patterns[i];
                let ghost used_entry = used@;
                let mut sum_x: u64 = p1.center_x as u64;
                let mut sum_y: u64 = p1.center_y as u64;
                let mut sum_t: u64 = p1.total as u64;
                let mut count: u64 = 1;
                let mut j: usize = i + 1;
                while j < n
                    invariant
                        j <= n,
                        n == patterns@.len() <= 0xffffffff,
                        used@.len() == n,
                        img.wf(),
                        gw == img@.width,
                        gh == img@.height,
                        0 < gw <= 0xffff,
                        0 < gh <= 0xffff,
                        forall|q: int| 0 <= q < patterns@.len() ==> pattern_wf(
                            #[trigger] patterns@[q],
                            img@,
                        ),
                        pattern_wf(p1, img@),
                        i < n,
                        i < j,
                        p1 == patterns@[i as int],
                        !used_entry[i as int],
                        1 <= count,
                        count <= 1 + j,
                        sum_x <= count * (gw - 1),
                        sum_y <= count * (gh - 1),
                        7 * count <= sum_t,
                        sum_t <= count * gw,
                        absorb(
                            patterns@,
                            used@,
                            p1,
                            j as int,
                            sum_x as int,
                            sum_y as int,
                            sum_t as int,
                            count as int,
                        ) == absorb(
                            patterns@,
                            used_entry,
                            p1,
                            i as int + 1,
                            p1.center_x as int,
                            p1.center_y as int,
                            p1.total as int,
                            1,
                        ),
                    decreases n - j,
                {
                    if !used[j] {
                        let p2 = patterns[j];
                        let dx: i64 = p1.center_x as i64 - p2.center_x as i64;
                        let dy: i64 = p1.center_y as i64 - p2.center_y as i64;
                        proof {
                            lemma_square_bound(dx as int, 0x10000);
                            lemma_square_bound(dy as int, 0x10000);
                            lemma_square_bound(p1.total as int, 0x10000);
                        }
                        let d2: i64 = dx * dx + dy * dy;
                        let t2: i64 = (p1.total as i64) * (p1.total as i64);
                        if 49 * d2 < 4 * t2 {
                            proof {
                                vstd::arithmetic::mul::lemma_mul_upper_bound(
                                    count as int,
                                    0x100000001,
                                    gw - 1,
                                    0xfffe,
                                );
                                vstd::arithmetic::mul::lemma_mul_upper_bound(
                                    count as int,
                                    0x100000001,
                                    gh - 1,
                                    0xfffe,
                                );
                                vstd::arithmetic::mul::lemma_mul_upper_bound(
                                    count as int,
                                    0x100000001,
                                    gw,
                                    0xffff,
                                );
                                vstd::arithmetic::mul::lemma_mul_is_distributive_add_other_way(
                                    gw - 1,
                                    count as int,
                                    1,
                                );
                                vstd::arithmetic::mul::lemma_mul_is_distributive_add_other_way(
                                    gh - 1,
                                    count as int,
                                    1,
                                );
                                vstd::arithmetic::mul::lemma_mul_is_distributive_add_other_way(
                                    gw,
                                    count as int,
                                    1,
                                );
                                vstd::arithmetic::mul::lemma_mul_upper_bound(
                                    count as int + 1,
                                    0x20000000000,
                                    gw,
                                    0xffff,
                                );
                                vstd::arithmetic::mul::lemma_mul_is_commutative(
                                    count as int + 1,
                                    gw,
                                );
                            }
                            sum_x = sum_x + p2.center_x as u64;
                            sum_y = sum_y + p2.center_y as u64;
                            sum_t = sum_t + p2.total as u64;
                            count = count + 1;
                            used.set(j, true);
                        }
                    }
                    j = j + 1;
                }
                let ghost used_inner = used@;
                let ghost old_merged = merged@;
                proof {
                    lemma_avg_bound(sum_x as int, count as int, gw - 1);
                    lemma_avg_bound(sum_y as int, count as int, gh - 1);
                    lemma_avg_bound(sum_t as int, count as int, gw);
                    lemma_avg_lower(sum_t as int, count as int, 7);
                    assert(absorb(
                        patterns@,
                        used_inner,
                        p1,
                        n as int,
                        sum_x as int,
                        sum_y as int,
                        sum_t as int,
                        count as int,
                    ) == (sum_x as int, sum_y as int, sum_t as int, count as int, used_inner));
                }
                merged.push(
                    FinderPattern {
                        center_x: (sum_x / count) as u32,
                        center_y: (sum_y / count) as u32,
                        total: (sum_t / count) as u32,
                    },
                );
                used.set(i, true);
                proof {
                    let a = absorb(
                        patterns@,
                        used_entry,
                        p1,
                        i as int + 1,
                        p1.center_x as int,
                        p1.center_y as int,
                        p1.total as int,
                        1,
                    );
                    assert(a == (sum_x as int, sum_y as int, sum_t as int, count as int,
                    used_inner));
                    assert(used@ =~= used_inner.update(i as int, true));
                    assert(merged@.last() == (FinderPattern {
                        center_x: (a.0 / a.3) as u32,
                        center_y: (a.1 / a.3) as u32,
                        total: (a.2 / a.3) as u32,
                    }));
                    assert(merge_from(patterns@, used_entry, i as int) =~= seq![merged@.last()]
                        + merge_from(patterns@, used@, i as int + 1));
                    assert(merged@ =~= old_merged + seq![merged@.last()]);
                    assert(merged@ + merge_from(patterns@, used@, i as int + 1) =~= old_merged
                        + merge_from(patterns@, used_entry, i as int));
                }
                i = i + 1;
            }
        }
        proof {
            assert(merged@ + merge_from(patterns@, used@, n as int) =~= merged@);
        }
        merged
    }

    /// Whether three merged patterns form a valid QR placement.
    pub fn is_valid_qr_group(
        &self,
        p1: &FinderPattern,
        p2: &FinderPattern,
        p3: &FinderPattern,
    ) -> (r: bool)
        ensures
            r == group_ok(*p1, *p2, *p3),
    {
        let t1 = p1.total as i128;
        let t2 = p2.total as i128;
        let t3 = p3.total as i128;
        let s: i128 = t1 + t2 + t3;
        let e1: i128 = 6 * t1 - 2 * s;
        let e2: i128 = 6 * t2 - 2 * s;
        let e3: i128 = 6 * t3 - 2 * s;
        if !(-s <= e1 && e1 <= s && -s <= e2 && e2 <= s && -s <= e3 && e3 <= s) {
            return false;
        }
        let d12 = Self::dist2(p1, p2);
        let d23 = Self::dist2(p2, p3);
        let d13 = Self::dist2(p1, p3);
        let lo: i128 = if d12 <= d23 && d12 <= d13 {
            d12
        } else if d23 <= d13 {
            d23
        } else {
            d13
        };
        let hi: i128 = if d12 >= d23 && d12 >= d13 {
            d12
        } else if d23 >= d13 {
            d23
        } else {
            d13
        };
        let mid: i128 = d12 + d23 + d13 - lo - hi;
        proof {
            assert(0 <= lo <= 0x20000000000000000);
            assert(0 <= hi <= 0x20000000000000000);
            assert(0 <= mid <= 0x60000000000000000);
        }
        100 * mid < 169 * lo && 100000000 * hi < 337897924 * lo && 100000000 * hi > 97970404 * lo
    }

    /// Squared distance between two pattern centers.
    fn dist2(a: &FinderPattern, b: &FinderPattern) -> (r: i128)
        ensures
            r == dist_sq(*a, *b),
            0 <= r <= 0x20000000000000000,
    {
        let dx: i128 = a.center_x as i128 - b.center_x as i128;
        let dy: i128 = a.center_y as i128 - b.center_y as i128;
        proof {
            lemma_square_bound(dx as int, 0x100000000);
            lemma_square_bound(dy as int, 0x100000000);
        }
        dx * dx + dy * dy
    }

    /// All unordered triples of merged patterns that pass the placement
    /// test: every returned triple is three input patterns at increasing
    /// indices passing the test, and every index triple passing the test
    /// is returned.
    #[verifier::rlimit(60)]
    fn group_patterns(&self, patterns: &Vec<FinderPattern>) -> (r: Vec<[FinderPattern; 3]>)
        ensures
            forall|t: int| 0 <= t < r@.len() ==> some_triple(patterns@, #[trigger] r@[t]),
            forall|a: int, b: int, c: int|
                0 <= a < b && b < c && c < patterns@.len() && #[trigger] group_ok(
                    patterns@[a],
                    patterns@[b],
                    patterns@[c],
                ) ==> exists|t: int| 0 <= t < r@.len() && triple_at(patterns@, #[trigger] r@[t], a, b, c),
    {
        let n = patterns.len();
        let mut groups: Vec<[FinderPattern; 3]> = Vec::new();
        if n < 3 {
            return groups;
        }
        let mut i: usize = 0;
        while i < n
            invariant
                n == patterns@.len(),
                i <= n,
                forall|t: int|
                    0 <= t < groups@.len() ==> some_triple(patterns@, #[trigger] groups@[t]),
                forall|a: int, b: int, c: int|
                    0 <= a < i && a < b && b < c && c < n && #[trigger] group_ok(
                        patterns@[a],
                        patterns@[b],
                        patterns@[c],
                    ) ==> exists|t: int|
                        0 <= t < groups@.len() && triple_at(patterns@, #[trigger] groups@[t], a, b, c),
            decreases n - i,
        {
            let mut j: usize = i + 1;
            while j < n
                invariant
                    n == patterns@.len(),
                    i < n,
                    i + 1 <= j <= n,
                    forall|t: int|
                        0 <= t < groups@.len() ==> some_triple(patterns@, #[trigger] groups@[t]),
                    forall|a: int, b: int, c: int|
                        0 <= a < i && a < b && b < c && c < n && #[trigger] group_ok(
                            patterns@[a],
                            patterns@[b],
                            patterns@[c],
                        ) ==> exists|t: int|
                            0 <= t < groups@.len() && triple_at(patterns@, #[trigger] groups@[t], a, b, c),
                    forall|b: int, c: int|
                        i < b < j && b < c && c < n && #[trigger] group_ok(
                            patterns@[i as int],
                            patterns@[b],
                            patterns@[c],
                        ) ==> exists|t: int|
                            0 <= t < groups@.len() && triple_at(patterns@, #[trigger] groups@[t], i as int, b, c),
                decreases n - j,
            {
                let mut k: usize = j + 1;
                while k < n
                    invariant
                        n == patterns@.len(),
                        i < n,
                        i < j < n,
                        j + 1 <= k <= n,
                        forall|t: int|
                            0 <= t < groups@.len() ==> some_triple(patterns@, #[trigger] groups@[t]),
                        forall|a: int, b: int, c: int|
                            0 <= a < i && a < b && b < c && c < n && #[trigger] group_ok(
                                patterns@[a],
                                patterns@[b],
                                patterns@[c],
                            ) ==> exists|t: int|
                                0 <= t < groups@.len() && triple_at(patterns@, #[trigger] groups@[t], a, b, c),
                        forall|b: int, c: int|
                            i < b < j && b < c && c < n && #[trigger] group_ok(
                                patterns@[i as int],
                                patterns@[b],
                                patterns@[c],
                            ) ==> exists|t: int|
                                0 <= t < groups@.len() && triple_at(patterns@, #[trigger] groups@[t], i as int, b, c),
                        forall|c: int|
                            j < c < k && #[trigger] group_ok(
                                patterns@[i as int],
                                patterns@[j as int],
                                patterns@[c],
                            ) ==> exists|t: int|
                                0 <= t < groups@.len() && triple_at(patterns@, #[trigger] groups@[t], i as int, j as int, c),
                    decreases n - k,
                {
                    let p1 = patterns[i];
                    let p2 = patterns[j];
                    let p3 = patterns[k];
                    let ghost old_groups = groups@;
                    if self.is_valid_qr_group(&p1, &p2, &p3) {
                        groups.push([p1, p2, p3]);
                        proof {
                            assert(triple_at(
                                patterns@,
                                groups@[groups@.len() - 1],
                                i as int,
                                j as int,
                                k as int,
                            ));
                            assert(some_triple(patterns@, groups@[groups@.len() - 1]));
                            assert(forall|t: int|
                                0 <= t < old_groups.len() ==> groups@[t] == #[trigger] old_groups[t]);
                        }
                    }
                    k = k + 1;
                }
                j = j + 1;
            }
            i = i + 1;
        }
        groups
    }

    /// Expand a pattern triple to a margin-padded bounding box, clamp it
    /// to the image, filter it by the configured size range, and cut the
    /// region out.
    fn extract_qr(&self, img: &Gray, group: &[FinderPattern; 3]) -> (r: Option<DetectedQR>)
        requires
            img.wf(),
            img@.width > 0,
            img@.height > 0,
            pattern_wf(group[0], img@),
            pattern_wf(group[1], img@),
            pattern_wf(group[2], img@),
        ensures
            match r {
                Some(d) => {
                    &&& valid_detected(img@, d)
                    &&& d.confidence == 80
                    &&& self.config.min_size <= d.bbox[2] <= self.config.max_size
                    &&& self.config.min_size <= d.bbox[3] <= self.config.max_size
                    &&& {
                        let bx = extract_box(
                            self.config,
                            img@.width,
                            img@.height,
                            group[0],
                            group[1],
                            group[2],
                        );
                        &&& bx is Some
                        &&& d.bbox[0] == bx->Some_0.0
                        &&& d.bbox[1] == bx->Some_0.1
                        &&& d.bbox[2] == bx->Some_0.2
                        &&& d.bbox[3] == bx->Some_0.3
                    }
                },
                None => extract_box(
                    self.config,
                    img@.width,
                    img@.height,
                    group[0],
                    group[1],
                    group[2],
                ) is None,
            },
    {
        let w_img = img.width;
        let h_img = img.height;
        let cx0 = group[0].center_x as i64;
        let cx1 = group[1].center_x as i64;
        let cx2 = group[2].center_x as i64;
        let cy0 = group[0].center_y as i64;
        let cy1 = group[1].center_y as i64;
        let cy2 = group[2].center_y as i64;
        let min_x: i64 = min3_i64(cx0, cx1, cx2) - 20;
        let max_x: i64 = max3_i64(cx0, cx1, cx2) + 20;
        let min_y: i64 = min3_i64(cy0, cy1, cy2) - 20;
        let max_y: i64 = max3_i64(cy0, cy1, cy2) + 20;
        let x: usize = if min_x > 0 {
            min_x as usize
        } else {
            0
        };
        let y: usize = if min_y > 0 {
            min_y as usize
        } else {
            0
        };
        let span_x: usize = (max_x - min_x) as usize;
        let span_y: usize = (max_y - min_y) as usize;
        let w: usize = if span_x < w_img - x {
            span_x
        } else {
            w_img - x
        };
        let h: usize = if span_y < h_img - y {
            span_y
        } else {
            h_img - y
        };
        if (w as u32) < self.config.min_size || (h as u32) < self.config.min_size || (w as u32)
            > self.config.max_size || (h as u32) > self.config.max_size {
            return None;
        }
        let cropped = img.crop(x, y, w, h);
        Some(
            DetectedQR {
                bbox: [x as u32, y as u32, w as u32, h as u32],
                corners: [
                    (x as u32, y as u32),
                    ((x + w) as u32, y as u32),
                    ((x + w) as u32, (y + h) as u32),
                    (x as u32, (y + h) as u32),
                ],
                image: cropped,
                confidence: 80,
            },
        )
    }

    /// Detect candidate QR regions: scan for finder patterns, merge and
    /// group them, and cut out each accepted placement; when nothing is
    /// found the whole image is returned as a single low-confidence
    /// candidate, so the decode ladder still sees it.
    pub fn detect(&self, img: &Gray) -> (r: Vec<DetectedQR>)
        requires
            img.wf(),
        ensures
            r@.len() >= 1,
            forall|j: int| 0 <= j < r@.len() ==> valid_detected(img@, #[trigger] r@[j]),
            detect_post(img@, self.config, r@),
    {
        let mut results: Vec<DetectedQR> = Vec::new();
        if img.width > 0 && img.height > 0 {
            let patterns = self.find_finder_patterns(img);
            proof {
                assert forall|t: int| 0 <= t < patterns@.len() implies pattern_wf(
                    #[trigger] patterns@[t],
                    img@,
                ) by {
                    assert(pattern_sound(
                        patterns@[t],
                        img@,
                        self.config.threshold,
                        self.config.ratio_tolerance as int,
                    ));
                }
            }
            let merged = self.merge_patterns(&patterns, img);
            let groups = self.group_patterns(&merged);
            let gn = groups.len();
            let mut gi: usize = 0;
            while gi < gn
                invariant
                    img.wf(),
                    img@.width > 0,
                    img@.height > 0,
                    gn == groups@.len(),
                    gi <= gn,
                    forall|t: int| 0 <= t < merged@.len() ==> pattern_wf(
                        #[trigger] merged@[t],
                        img@,
                    ),
                    forall|j: int| 0 <= j < results@.len() ==> valid_detected(
                        img@,
                        #[trigger] results@[j],
                    ),
                    forall|j: int|
                        0 <= j < results@.len() ==> {
                            &&& (#[trigger] results@[j]).confidence == 80
                            &&& self.config.min_size <= results@[j].bbox[2]
                                <= self.config.max_size
                            &&& self.config.min_size <= results@[j].bbox[3]
                                <= self.config.max_size
                        },
                decreases gn - gi,
            {
                let g = &groups[gi];
                if pattern_in_bounds(&g[0], img) && pattern_in_bounds(&g[1], img)
                    && pattern_in_bounds(&g[2], img) {
                    match self.extract_qr(img, g) {
                        Some(d) => {
                            results.push(d);
                        },
                        None => {},
                    }
                }
                gi = gi + 1;
            }
        }
        if results.len() == 0 {
            let whole = img.clone();
            proof {
                lemma_crop_full(img@);
            }
            results.push(
                DetectedQR {
                    bbox: [0, 0, img.width as u32, img.height as u32],
                    corners: [
                        (0, 0),
                        (img.width as u32, 0),
                        (img.width as u32, img.height as u32),
                        (0, img.height as u32),
                    ],
                    image: whole,
                    confidence: 50,
                },
            );
        }
        results
    }
}

/// What region detection guarantees of its result: at least one entry,
/// each structurally sound for the image; every pattern-derived entry
/// (confidence 80) respects the configured size range; and a fallback
/// entry (confidence 50) stands alone and frames the whole image.
pub open spec fn detect_post(v: GrayV, config: DetectorConfig, ds: Seq<DetectedQR>) -> bool {
    &&& ds.len() >= 1
    &&& forall|j: int| 0 <= j < ds.len() ==> valid_detected(v, #[trigger] ds[j])
    &&& forall|j: int|
        0 <= j < ds.len() && (#[trigger] ds[j]).confidence == 80 ==> {
            &&& config.min_size <= ds[j].bbox[2] <= config.max_size
            &&& config.min_size <= ds[j].bbox[3] <= config.max_size
        }
    &&& (exists|j: int| 0 <= j < ds.len() && (#[trigger] ds[j]).confidence == 50) ==> {
        &&& ds.len() == 1
        &&& ds[0].confidence == 50
        &&& ds[0].bbox[0] == 0
        &&& ds[0].bbox[1] == 0
        &&& ds[0].bbox[2] == v.width
        &&& ds[0].bbox[3] == v.height
    }
}

/// Whether a pattern's recorded location lies within the image.
fn pattern_in_bounds(p: &FinderPattern, img: &Gray) -> (r: bool)
    requires
        img.wf(),
    ensures
        r == pattern_wf(*p, img@),
{
    (p.center_x as usize) < img.width && (p.center_y as usize) < img.height && 7 <= p.total
        && (p.total as usize) <= img.width
}

/// The least of three machine values.
fn min3_i64(a: i64, b: i64, c: i64) -> (r: i64)
    ensures
        r == min3(a as int, b as int, c as int),
{
    if a <= b && a <= c {
        a
    } else if b <= c {
        b
    } else {
        c
    }
}

/// The greatest of three machine values.
fn max3_i64(a: i64, b: i64, c: i64) -> (r: i64)
    ensures
        r == max3(a as int, b as int, c as int),
{
    if a >= b && a >= c {
        a
    } else if b >= c {
        b
    } else {
        c
    }
}

/// Cropping an image at its full extent yields the image itself.
proof fn lemma_crop_full(v: GrayV)
    requires
        v.wf(),
    ensures
        crop_spec(v, 0, 0, v.width, v.height).data =~= v.data,
{
    let c = crop_spec(v, 0, 0, v.width, v.height);
    assert forall|i: int| 0 <= i < v.data.len() implies c.data[i] == v.data[i] by {
        vstd::arithmetic::div_mod::lemma_fundamental_div_mod(i, v.width);
        vstd::arithmetic::div_mod::lemma_mod_bound(i, v.width);
        vstd::arithmetic::div_mod::lemma_div_pos_is_pos(i, v.width);
        vstd::arithmetic::mul::lemma_mul_is_commutative(v.width, i / v.width);
    }
}

/// Products of window counts stay within machine range.
proof fn lemma_ratio_products(c0: int, c1: int, c2: int, c3: int, c4: int, total: int, tol: int)
    requires
        0 <= c0 <= 0xffffffff,
        0 <= c1 <= 0xffffffff,
        0 <= c2 <= 0xffffffff,
        0 <= c3 <= 0xffffffff,
        0 <= c4 <= 0xffffffff,
        total == c0 + c1 + c2 + c3 + c4,
        0 <= tol <= 0xffffffff,
    ensures
        700 * c0 <= 0x2bc00000000,
        tol * total <= 0x4fffffffa00000000,
        0 <= tol * total,
{
    vstd::arithmetic::mul::lemma_mul_upper_bound(tol, 0xffffffff, total, 0x4fffffffb);
    vstd::arithmetic::mul::lemma_mul_nonnegative(tol, total);
}

/// The square of a bounded value is bounded.
proof fn lemma_square_bound(x: int, b: int)
    requires
        -b <= x <= b,
        0 <= b,
    ensures
        0 <= x * x <= b * b,
{
    if x >= 0 {
        vstd::arithmetic::mul::lemma_mul_upper_bound(x, b, x, b);
        vstd::arithmetic::mul::lemma_mul_nonnegative(x, x);
    } else {
        assert(x * x == (-x) * (-x)) by {
            vstd::arithmetic::mul::lemma_mul_is_distributive_sub_other_way(x, 0, x);
            vstd::arithmetic::mul::lemma_mul_is_distributive_sub(-x, 0, x);
        }
        vstd::arithmetic::mul::lemma_mul_upper_bound(-x, b, -x, b);
        vstd::arithmetic::mul::lemma_mul_nonnegative(-x, -x);
    }
}

/// An average of values each at least `b` is at least `b`.
proof fn lemma_avg_lower(s: int, c: int, b: int)
    requires
        0 < c,
        0 <= b,
        b * c <= s,
    ensures
        b <= s / c,
{
    vstd::arithmetic::div_mod::lemma_div_is_ordered(b * c, s, c);
    vstd::arithmetic::div_mod::lemma_div_by_multiple(b, c);
}

/// An average of values bounded by `b` is bounded by `b`.
proof fn lemma_avg_bound(s: int, c: int, b: int)
    requires
        0 < c,
        0 <= s <= c * b,
        0 <= b,
    ensures
        0 <= s / c <= b,
{
    vstd::arithmetic::div_mod::lemma_div_pos_is_pos(s, c);
    vstd::arithmetic::mul::lemma_mul_is_commutative(c, b);
    vstd::arithmetic::div_mod::lemma_div_is_ordered(s, b * c, c);
    vstd::arithmetic::div_mod::lemma_div_by_multiple(b, c);
}

} // verus!
