//! Post-processing of a learned detector's raw output: confidence
//! filtering, greedy non-maximum suppression, and mapping boxes from model
//! space back to source-image coordinates. All geometry is carried in
//! integer fixed point (model coordinates in half-thousandths of a pixel,
//! scores in thousandths), so the selection logic is exact.

use vstd::prelude::*;

verus! {

/// A candidate box in model space: corner coordinates in half-thousandths
/// of a model pixel, confidence score in thousandths.
#[derive(Debug, Clone, Copy)]
pub struct BBox {
    pub x1: i64,
    pub y1: i64,
    pub x2: i64,
    pub y2: i64,
    pub score: u32,
    pub class: usize,
}

/// A box has ordered corners and stays within the supported coordinate
/// range.
pub open spec fn box_wf(b: BBox) -> bool {
    &&& b.x1 <= b.x2
    &&& b.y1 <= b.y2
    &&& -0x2000000 <= b.x1 && b.x2 <= 0x2000000
    &&& -0x2000000 <= b.y1 && b.y2 <= 0x2000000
}

/// Area of a box.
pub open spec fn box_area(b: BBox) -> int {
    (b.x2 - b.x1) * (b.y2 - b.y1)
}

/// Intersection area of two boxes.
pub open spec fn inter_area(a: BBox, b: BBox) -> int {
    let w = if a.x2 <= b.x2 {
        a.x2
    } else {
        b.x2
    } - (if a.x1 >= b.x1 {
        a.x1
    } else {
        b.x1
    });
    let h = if a.y2 <= b.y2 {
        a.y2
    } else {
        b.y2
    } - (if a.y1 >= b.y1 {
        a.y1
    } else {
        b.y1
    });
    if w > 0 && h > 0 {
        w * h
    } else {
        0
    }
}

/// The boxes overlap by more than `t` thousandths, by
/// intersection-over-union; an empty union never overlaps.
pub open spec fn iou_over(a: BBox, b: BBox, t: int) -> bool {
    1000 * inter_area(a, b) > t * (box_area(a) + box_area(b) - inter_area(a, b))
}

/// The anchors that pass the confidence threshold, in order.
pub open spec fn filter_scored(s: Seq<BBox>, conf: u32) -> Seq<BBox>
    decreases s.len(),
{
    if s.len() == 0 {
        Seq::empty()
    } else {
        filter_scored(s.drop_last(), conf) + if s.last().score > conf {
            seq![s.last()]
        } else {
            Seq::empty()
        }
    }
}

/// The sequence is sorted by descending score.
pub open spec fn sorted_desc(s: Seq<BBox>) -> bool {
    forall|i: int, j: int| 0 <= i < j < s.len() ==> s[i].score >= s[j].score
}

/// Keep the anchors scoring above the confidence threshold.
pub fn filter_by_score(anchors: &Vec<BBox>, conf: u32) -> (r: Vec<BBox>)
    ensures
        r@ == filter_scored(anchors@, conf),
{
    let n = anchors.len();
    let mut r: Vec<BBox> = Vec::new();
    let mut i: usize = 0;
    while i < n
        invariant
            i <= n,
            n == anchors@.len(),
            r@ == filter_scored(anchors@.take(i as int), conf),
        decreases n - i,
    {
        proof {
            assert(anchors@.take(i + 1).drop_last() =~= anchors@.take(i as int));
            assert(anchors@.take(i + 1).last() == anchors@[i as int]);
        }
        let a = anchors[i];
        if a.score > conf {
            r.push(a);
            proof {
                assert(r@ =~= filter_scored(anchors@.take(i + 1), conf));
            }
        } else {
            proof {
                assert(r@ =~= filter_scored(anchors@.take(i + 1), conf));
            }
        }
        i = i + 1;
    }
    proof {
        assert(anchors@.take(n as int) =~= anchors@);
    }
    r
}

/// Sort boxes by descending score, by repeatedly extracting a maximum;
/// the result holds the same boxes.
pub fn sort_by_score_desc(boxes: Vec<BBox>) -> (r: Vec<BBox>)
    ensures
        r@.len() == boxes@.len(),
        r@.to_multiset() == boxes@.to_multiset(),
        sorted_desc(r@),
{
    broadcast use vstd::seq_lib::group_to_multiset_ensures;

    let mut rest = boxes;
    let ghost orig = rest@;
    let mut out: Vec<BBox> = Vec::new();
    while rest.len() > 0
        invariant
            out@.to_multiset().add(rest@.to_multiset()) =~= orig.to_multiset(),
            out@.len() + rest@.len() == orig.len(),
            sorted_desc(out@),
            forall|i: int, j: int|
                0 <= i < out@.len() && 0 <= j < rest@.len() ==> (#[trigger] out@[i]).score
                    >= (#[trigger] rest@[j]).score,
        decreases rest@.len(),
    {
        let n = rest.len();
        let mut best: usize = 0;
        let mut bi: usize = 1;
        while bi < n
            invariant
                n == rest@.len(),
                best < bi <= n || (bi <= n && best == 0),
                best < n,
                forall|j: int| 0 <= j < bi ==> rest@[best as int].score
                    >= (#[trigger] rest@[j]).score,
            decreases n - bi,
        {
            if rest[bi].score > rest[best].score {
                best = bi;
            }
            bi = bi + 1;
        }
        let ghost old_out = out@;
        let ghost old_rest = rest@;
        let m = rest.remove(best);
        out.push(m);
        proof {
            broadcast use vstd::multiset::group_multiset_axioms;
            broadcast use vstd::seq_lib::group_to_multiset_ensures;

            vstd::seq_lib::to_multiset_remove(old_rest, best as int);
            vstd::seq_lib::to_multiset_build(old_out, m);
            assert(old_rest.contains(old_rest[best as int]));
            assert(old_rest.to_multiset().count(m) > 0);
            assert(out@.to_multiset().add(rest@.to_multiset()) =~= orig.to_multiset());
            assert forall|i: int, j: int|
                0 <= i < out@.len() && 0 <= j < rest@.len() implies (#[trigger] out@[i]).score
                >= (#[trigger] rest@[j]).score by {
                if j < best {
                    assert(rest@[j] == old_rest[j]);
                } else {
                    assert(rest@[j] == old_rest[j + 1]);
                }
            }
        }
    }
    out
}

/// Whether two boxes overlap by more than `t` thousandths.
fn iou_over_exec(a: &BBox, b: &BBox, t: u32) -> (r: bool)
    requires
        box_wf(*a),
        box_wf(*b),
        t <= 1000,
    ensures
        r == iou_over(*a, *b, t as int),
{
    proof {
        lemma_box_products(*a, *b);
    }
    let ix1: i64 = if a.x1 >= b.x1 {
        a.x1
    } else {
        b.x1
    };
    let ix2: i64 = if a.x2 <= b.x2 {
        a.x2
    } else {
        b.x2
    };
    let iy1: i64 = if a.y1 >= b.y1 {
        a.y1
    } else {
        b.y1
    };
    let iy2: i64 = if a.y2 <= b.y2 {
        a.y2
    } else {
        b.y2
    };
    let w: i64 = ix2 - ix1;
    let h: i64 = iy2 - iy1;
    let mut inter: i64 = 0;
    if w > 0 && h > 0 {
        proof {
            vstd::arithmetic::mul::lemma_mul_upper_bound(w as int, 0x4000000, h as int, 0x4000000);
            vstd::arithmetic::mul::lemma_mul_nonnegative(w as int, h as int);
        }
        inter = w * h;
    }
    proof {
        vstd::arithmetic::mul::lemma_mul_upper_bound(
            a.x2 - a.x1 as int,
            0x4000000,
            a.y2 - a.y1 as int,
            0x4000000,
        );
        vstd::arithmetic::mul::lemma_mul_nonnegative(a.x2 - a.x1 as int, a.y2 - a.y1 as int);
        vstd::arithmetic::mul::lemma_mul_upper_bound(
            b.x2 - b.x1 as int,
            0x4000000,
            b.y2 - b.y1 as int,
            0x4000000,
        );
        vstd::arithmetic::mul::lemma_mul_nonnegative(b.x2 - b.x1 as int, b.y2 - b.y1 as int);
    }
    let area_a: i64 = (a.x2 - a.x1) * (a.y2 - a.y1);
    let area_b: i64 = (b.x2 - b.x1) * (b.y2 - b.y1);
    let denom_area: i64 = area_a + area_b - inter;
    proof {
        vstd::arithmetic::mul::lemma_mul_upper_bound(
            t as int,
            1000,
            denom_area as int,
            0x20000000000000,
        );
        vstd::arithmetic::mul::lemma_mul_nonnegative(t as int, denom_area as int);
    }
    1000 * (inter as i128) > (t as i128) * (denom_area as i128)
}

/// Products of box extents stay within bounds.
proof fn lemma_box_products(a: BBox, b: BBox)
    requires
        box_wf(a),
        box_wf(b),
    ensures
        0 <= box_area(a) <= 0x10000000000000,
        0 <= box_area(b) <= 0x10000000000000,
        0 <= inter_area(a, b) <= box_area(a) + box_area(b),
        ({
            let w = if a.x2 <= b.x2 {
                a.x2
            } else {
                b.x2
            } - (if a.x1 >= b.x1 {
                a.x1
            } else {
                b.x1
            });
            let h = if a.y2 <= b.y2 {
                a.y2
            } else {
                b.y2
            } - (if a.y1 >= b.y1 {
                a.y1
            } else {
                b.y1
            });
            (w > 0 && h > 0) ==> (0 <= w * h <= 0x10000000000000)
        }),
{
    vstd::arithmetic::mul::lemma_mul_upper_bound(a.x2 - a.x1, 0x4000000, a.y2 - a.y1, 0x4000000);
    vstd::arithmetic::mul::lemma_mul_nonnegative(a.x2 - a.x1, a.y2 - a.y1);
    vstd::arithmetic::mul::lemma_mul_upper_bound(b.x2 - b.x1, 0x4000000, b.y2 - b.y1, 0x4000000);
    vstd::arithmetic::mul::lemma_mul_nonnegative(b.x2 - b.x1, b.y2 - b.y1);
    let w = if a.x2 <= b.x2 {
        a.x2
    } else {
        b.x2
    } - (if a.x1 >= b.x1 {
        a.x1
    } else {
        b.x1
    });
    let h = if a.y2 <= b.y2 {
        a.y2
    } else {
        b.y2
    } - (if a.y1 >= b.y1 {
        a.y1
    } else {
        b.y1
    });
    if w > 0 && h > 0 {
        vstd::arithmetic::mul::lemma_mul_upper_bound(w, 0x4000000, h, 0x4000000);
        vstd::arithmetic::mul::lemma_mul_nonnegative(w, h);
        vstd::arithmetic::mul::lemma_mul_inequality(w, a.x2 - a.x1, h);
        vstd::arithmetic::mul::lemma_mul_inequality(h, a.y2 - a.y1, a.x2 - a.x1);
        vstd::arithmetic::mul::lemma_mul_is_commutative(w, h);
        vstd::arithmetic::mul::lemma_mul_is_commutative(h, a.x2 - a.x1);
        vstd::arithmetic::mul::lemma_mul_inequality(w, b.x2 - b.x1, h);
        vstd::arithmetic::mul::lemma_mul_is_commutative(h, b.x2 - b.x1);
        vstd::arithmetic::mul::lemma_mul_inequality(h, b.y2 - b.y1, b.x2 - b.x1);
    }
}

/// Greedy non-maximum suppression over boxes sorted by descending score:
/// every kept box is one of the inputs; the kept boxes keep the descending
/// score order; no two kept boxes overlap beyond the threshold; and every
/// input box is either kept or overlaps some kept box of at least its
/// score.
pub fn nms(sorted: &Vec<BBox>, iou_milli: u32) -> (kept: Vec<BBox>)
    requires
        iou_milli <= 1000,
        sorted_desc(sorted@),
        forall|i: int| 0 <= i < sorted@.len() ==> box_wf(#[trigger] sorted@[i]),
    ensures
        forall|k: int| 0 <= k < kept@.len() ==> sorted@.contains(#[trigger] kept@[k]),
        sorted_desc(kept@),
        forall|x: int, y: int|
            0 <= x < y < kept@.len() ==> !iou_over(
                #[trigger] kept@[x],
                #[trigger] kept@[y],
                iou_milli as int,
            ),
        forall|i: int|
            0 <= i < sorted@.len() ==> kept@.contains(#[trigger] sorted@[i]) || exists|k: int|
                0 <= k < kept@.len() && iou_over(kept@[k], sorted@[i], iou_milli as int)
                    && kept@[k].score >= sorted@[i].score,
{
    let n = sorted.len();
    let mut kept: Vec<BBox> = Vec::new();
    let mut i: usize = 0;
    while i < n
        invariant
            i <= n,
            n == sorted@.len(),
            iou_milli <= 1000,
            sorted_desc(sorted@),
            forall|q: int| 0 <= q < sorted@.len() ==> box_wf(#[trigger] sorted@[q]),
            forall|k: int| 0 <= k < kept@.len() ==> sorted@.contains(#[trigger] kept@[k]),
            forall|k: int| 0 <= k < kept@.len() ==> box_wf(#[trigger] kept@[k]),
            sorted_desc(kept@),
            forall|k: int, q: int|
                0 <= k < kept@.len() && i <= q < n ==> (#[trigger] kept@[k]).score
                    >= (#[trigger] sorted@[q]).score,
            forall|x: int, y: int|
                0 <= x < y < kept@.len() ==> !iou_over(
                    #[trigger] kept@[x],
                    #[trigger] kept@[y],
                    iou_milli as int,
                ),
            forall|q: int|
                0 <= q < i ==> kept@.contains(#[trigger] sorted@[q]) || exists|k: int|
                    0 <= k < kept@.len() && iou_over(kept@[k], sorted@[q], iou_milli as int)
                        && kept@[k].score >= sorted@[q].score,
        decreases n - i,
    {
        let cand = sorted[i];
        let kn = kept.len();
        let mut suppressed = false;
        let mut k: usize = 0;
        while k < kn
            invariant
                k <= kn,
                kn == kept@.len(),
                iou_milli <= 1000,
                box_wf(cand),
                cand == sorted@[i as int],
                i < n == sorted@.len(),
                forall|q: int| 0 <= q < kept@.len() ==> box_wf(#[trigger] kept@[q]),
                suppressed ==> exists|q: int|
                    0 <= q < kept@.len() && iou_over(kept@[q], cand, iou_milli as int),
                !suppressed ==> forall|q: int| 0 <= q < k ==> !iou_over(
                    #[trigger] kept@[q],
                    cand,
                    iou_milli as int,
                ),
            decreases kn - k,
        {
            if !suppressed {
                let hit = {
                    let kb = &kept[k];
                    iou_over_exec(kb, &cand, iou_milli)
                };
                if hit {
                    suppressed = true;
                }
            }
            k = k + 1;
        }
        let ghost old_kept = kept@;
        if !suppressed {
            kept.push(cand);
            proof {
                assert(kept@.last() == sorted@[i as int]);
                assert(sorted@.contains(sorted@[i as int]));
                assert forall|x: int, y: int|
                    0 <= x < y < kept@.len() implies !iou_over(
                    #[trigger] kept@[x],
                    #[trigger] kept@[y],
                    iou_milli as int,
                ) by {
                    if y == kept@.len() - 1 {
                        assert(kept@[x] == old_kept[x]);
                        assert(kept@[y] == cand);
                    } else {
                        assert(kept@[x] == old_kept[x]);
                        assert(kept@[y] == old_kept[y]);
                    }
                }
                assert forall|x: int, y: int|
                    0 <= x < y < kept@.len() implies (#[trigger] kept@[x]).score
                    >= (#[trigger] kept@[y]).score by {
                    if y == kept@.len() - 1 {
                        assert(old_kept[x].score >= sorted@[i as int].score);
                    }
                }
            }
        }
        proof {
            assert forall|q: int|
                0 <= q < i + 1 implies kept@.contains(#[trigger] sorted@[q]) || exists|k: int|
                0 <= k < kept@.len() && iou_over(kept@[k], sorted@[q], iou_milli as int)
                    && kept@[k].score >= sorted@[q].score by {
                if q == i {
                    if suppressed {
                        let k0 = choose|k0: int|
                            0 <= k0 < old_kept.len() && iou_over(
                                old_kept[k0],
                                cand,
                                iou_milli as int,
                            );
                        assert(kept@[k0] == old_kept[k0]);
                        assert(old_kept[k0].score >= sorted@[i as int].score);
                        assert(iou_over(kept@[k0], sorted@[q], iou_milli as int));
                    } else {
                        assert(kept@[kept@.len() - 1] == sorted@[q]);
                        assert(kept@.contains(sorted@[q]));
                    }
                } else {
                    if old_kept.contains(sorted@[q]) {
                        let w = choose|w: int|
                            0 <= w < old_kept.len() && old_kept[w] == sorted@[q];
                        assert(kept@[w] == sorted@[q]);
                        assert(kept@.contains(sorted@[q]));
                    } else {
                        let k0 = choose|k0: int|
                            0 <= k0 < old_kept.len() && iou_over(
                                old_kept[k0],
                                sorted@[q],
                                iou_milli as int,
                            ) && old_kept[k0].score >= sorted@[q].score;
                        assert(kept@[k0] == old_kept[k0]);
                        assert(iou_over(kept@[k0], sorted@[q], iou_milli as int));
                    }
                }
            }
        }
        i = i + 1;
    }
    kept
}

/// A box mapped from model space to source pixels: scaled by the source
/// size over the model size, clamped at zero, with a width and height of
/// at least one source pixel.
pub open spec fn mapped_box(b: BBox, ow: int, oh: int, denom: int) -> (int, int, int, int) {
    let x = if b.x1 > 0 {
        (b.x1 * ow) / denom
    } else {
        0
    };
    let y = if b.y1 > 0 {
        (b.y1 * oh) / denom
    } else {
        0
    };
    let w = if (b.x2 - b.x1) * ow / denom > 1 {
        (b.x2 - b.x1) * ow / denom
    } else {
        1
    };
    let h = if (b.y2 - b.y1) * oh / denom > 1 {
        (b.y2 - b.y1) * oh / denom
    } else {
        1
    };
    (x, y, w, h)
}

/// Whether a model box, once mapped, still lies within the source image.
pub open spec fn map_in_frame(b: BBox, ow: int, oh: int, denom: int) -> bool {
    let m = mapped_box(b, ow, oh, denom);
    m.0 + m.2 <= ow && m.1 + m.3 <= oh
}

/// The in-order mapping of the boxes whose image lies within the source
/// frame, each with its score; the rest are dropped.
pub open spec fn map_filtered(s: Seq<BBox>, ow: int, oh: int, denom: int) -> Seq<
    ((int, int, int, int), int),
>
    decreases s.len(),
{
    if s.len() == 0 {
        Seq::empty()
    } else {
        map_filtered(s.drop_last(), ow, oh, denom) + if map_in_frame(s.last(), ow, oh, denom) {
            seq![(mapped_box(s.last(), ow, oh, denom), s.last().score as int)]
        } else {
            Seq::empty()
        }
    }
}

/// The output entries spell exactly the given mapped coordinates and
/// scores.
pub open spec fn boxes_match(r: Seq<([u32; 4], u32)>, m: Seq<((int, int, int, int), int)>) -> bool {
    &&& r.len() == m.len()
    &&& forall|i: int|
        0 <= i < r.len() ==> (#[trigger] r[i]).0[0] == m[i].0.0 && r[i].0[1] == m[i].0.1
            && r[i].0[2] == m[i].0.2 && r[i].0[3] == m[i].0.3 && r[i].1 == m[i].1
}

/// Map the kept boxes back to source-image coordinates: each surviving box
/// is its `mapped_box` image with its anchor score, in order; boxes that
/// fall outside the source image are dropped, and every returned box lies
/// within it.
pub fn map_to_source(kept: &Vec<BBox>, orig_w: u32, orig_h: u32, model_side: u32) -> (r: Vec<
    ([u32; 4], u32),
>)
    requires
        1 <= orig_w <= 0xffff,
        1 <= orig_h <= 0xffff,
        1 <= model_side <= 0xffff,
        forall|i: int| 0 <= i < kept@.len() ==> box_wf(#[trigger] kept@[i]),
    ensures
        boxes_match(
            r@,
            map_filtered(kept@, orig_w as int, orig_h as int, 2000 * model_side as int),
        ),
        forall|i: int|
            0 <= i < r@.len() ==> {
                let b = (#[trigger] r@[i]).0;
                b[0] + b[2] <= orig_w && b[1] + b[3] <= orig_h && b[2] >= 1 && b[3] >= 1
            },
{
    let denom: i64 = 2000 * model_side as i64;
    let n = kept.len();
    let mut out: Vec<([u32; 4], u32)> = Vec::new();
    let mut i: usize = 0;
    while i < n
        invariant
            i <= n,
            n == kept@.len(),
            denom == 2000 * model_side as int,
            1 <= model_side <= 0xffff,
            1 <= orig_w <= 0xffff,
            1 <= orig_h <= 0xffff,
            forall|q: int| 0 <= q < kept@.len() ==> box_wf(#[trigger] kept@[q]),
            boxes_match(
                out@,
                map_filtered(
                    kept@.take(i as int),
                    orig_w as int,
                    orig_h as int,
                    denom as int,
                ),
            ),
            forall|q: int|
                0 <= q < out@.len() ==> {
                    let b = (#[trigger] out@[q]).0;
                    b[0] + b[2] <= orig_w && b[1] + b[3] <= orig_h && b[2] >= 1 && b[3] >= 1
                },
        decreases n - i,
    {
        let b = kept[i];
        proof {
            lemma_map_products(kept@[i as int], orig_w as int, orig_h as int);
            assert(kept@.take(i + 1).drop_last() =~= kept@.take(i as int));
            assert(kept@.take(i + 1).last() == kept@[i as int]);
        }
        let x64: i64 = if b.x1 > 0 {
            (b.x1 * orig_w as i64) / denom
        } else {
            0
        };
        let y64: i64 = if b.y1 > 0 {
            (b.y1 * orig_h as i64) / denom
        } else {
            0
        };
        let tw: i64 = (b.x2 - b.x1) * orig_w as i64 / denom;
        let th: i64 = (b.y2 - b.y1) * orig_h as i64 / denom;
        let w64: i64 = if tw > 1 {
            tw
        } else {
            1
        };
        let h64: i64 = if th > 1 {
            th
        } else {
            1
        };
        proof {
            let m = mapped_box(kept@[i as int], orig_w as int, orig_h as int, denom as int);
            assert(x64 == m.0 && y64 == m.1 && w64 == m.2 && h64 == m.3);
        }
        if x64 + w64 <= orig_w as i64 && y64 + h64 <= orig_h as i64 {
            out.push(([x64 as u32, y64 as u32, w64 as u32, h64 as u32], b.score));
            proof {
                assert(map_in_frame(kept@[i as int], orig_w as int, orig_h as int, denom as int));
                assert(out@.last().0[0] == mapped_box(
                    kept@[i as int],
                    orig_w as int,
                    orig_h as int,
                    denom as int,
                ).0);
            }
        } else {
            proof {
                assert(!map_in_frame(kept@[i as int], orig_w as int, orig_h as int, denom as int));
            }
        }
        i = i + 1;
    }
    proof {
        assert(kept@.take(n as int) =~= kept@);
    }
    out
}

/// Products in the source mapping stay within bounds and keep their sign.
proof fn lemma_map_products(b: BBox, ow: int, oh: int)
    requires
        box_wf(b),
        1 <= ow <= 0xffff,
        1 <= oh <= 0xffff,
    ensures
        -0x20000000000 <= b.x1 * ow <= 0x20000000000,
        -0x20000000000 <= b.y1 * oh <= 0x20000000000,
        0 <= (b.x2 - b.x1) * ow <= 0x40000000000,
        0 <= (b.y2 - b.y1) * oh <= 0x40000000000,
        b.x1 > 0 ==> b.x1 * ow >= 0,
        b.y1 > 0 ==> b.y1 * oh >= 0,
{
    vstd::arithmetic::mul::lemma_mul_cancels_negatives(b.x1 as int, ow);
    vstd::arithmetic::mul::lemma_mul_unary_negation(b.x1 as int, ow);
    if b.x1 >= 0 {
        vstd::arithmetic::mul::lemma_mul_upper_bound(b.x1 as int, 0x2000000, ow, 0x10000);
        vstd::arithmetic::mul::lemma_mul_nonnegative(b.x1 as int, ow);
    } else {
        vstd::arithmetic::mul::lemma_mul_upper_bound(-(b.x1 as int), 0x2000000, ow, 0x10000);
        vstd::arithmetic::mul::lemma_mul_nonnegative(-(b.x1 as int), ow);
    }
    vstd::arithmetic::mul::lemma_mul_cancels_negatives(b.y1 as int, oh);
    vstd::arithmetic::mul::lemma_mul_unary_negation(b.y1 as int, oh);
    if b.y1 >= 0 {
        vstd::arithmetic::mul::lemma_mul_upper_bound(b.y1 as int, 0x2000000, oh, 0x10000);
        vstd::arithmetic::mul::lemma_mul_nonnegative(b.y1 as int, oh);
    } else {
        vstd::arithmetic::mul::lemma_mul_upper_bound(-(b.y1 as int), 0x2000000, oh, 0x10000);
        vstd::arithmetic::mul::lemma_mul_nonnegative(-(b.y1 as int), oh);
    }
    vstd::arithmetic::mul::lemma_mul_upper_bound(b.x2 - b.x1 as int, 0x4000000, ow, 0x10000);
    vstd::arithmetic::mul::lemma_mul_nonnegative(b.x2 - b.x1 as int, ow);
    vstd::arithmetic::mul::lemma_mul_upper_bound(b.y2 - b.y1 as int, 0x4000000, oh, 0x10000);
    vstd::arithmetic::mul::lemma_mul_nonnegative(b.y2 - b.y1 as int, oh);
}

/// The suppression relation between candidate boxes and survivors: every
/// survivor is a candidate; survivors hold descending score order and are
/// pairwise non-overlapping; and every candidate is itself a survivor or
/// overlaps a survivor of at least its score.
pub open spec fn nms_rel(cands: Seq<BBox>, kept: Seq<BBox>, iou: int) -> bool {
    &&& forall|k: int| 0 <= k < kept.len() ==> cands.contains(#[trigger] kept[k])
    &&& sorted_desc(kept)
    &&& forall|x: int, y: int|
        0 <= x < y < kept.len() ==> !iou_over(#[trigger] kept[x], #[trigger] kept[y], iou)
    &&& forall|i: int|
        0 <= i < cands.len() ==> kept.contains(#[trigger] cands[i]) || exists|k: int|
            0 <= k < kept.len() && iou_over(kept[k], cands[i], iou) && kept[k].score
                >= cands[i].score
}

/// The whole selection pipeline on a detector's converted anchors: keep
/// those above the confidence threshold, sort by descending score,
/// suppress overlaps greedily, and map the survivors to source
/// coordinates. The result is the in-order `mapped_box` image of a
/// suppression of the score-filtered anchors, each box carrying its
/// anchor score, dropping boxes that leave the source frame; every
/// returned box lies within the source image.
pub fn select_detections(
    anchors: &Vec<BBox>,
    conf_milli: u32,
    iou_milli: u32,
    orig_w: u32,
    orig_h: u32,
    model_side: u32,
) -> (r: Vec<([u32; 4], u32)>)
    requires
        iou_milli <= 1000,
        1 <= orig_w <= 0xffff,
        1 <= orig_h <= 0xffff,
        1 <= model_side <= 0xffff,
        forall|i: int| 0 <= i < anchors@.len() ==> box_wf(#[trigger] anchors@[i]),
    ensures
        exists|kept: Seq<BBox>|
            #[trigger] nms_rel(filter_scored(anchors@, conf_milli), kept, iou_milli as int)
                && boxes_match(
                r@,
                map_filtered(kept, orig_w as int, orig_h as int, 2000 * model_side as int),
            ),
        forall|i: int|
            0 <= i < r@.len() ==> {
                let b = (#[trigger] r@[i]).0;
                b[0] + b[2] <= orig_w && b[1] + b[3] <= orig_h && b[2] >= 1 && b[3] >= 1
            },
{
    broadcast use vstd::seq_lib::group_to_multiset_ensures;

    let passing = filter_by_score(anchors, conf_milli);
    proof {
        lemma_filter_scored_wf(anchors@, conf_milli);
    }
    let sorted = sort_by_score_desc(passing);
    proof {
        assert forall|i: int| 0 <= i < sorted@.len() implies box_wf(#[trigger] sorted@[i]) by {
            assert(sorted@.to_multiset().contains(sorted@[i]));
            lemma_multiset_member(sorted@[i], filter_scored(anchors@, conf_milli));
        }
    }
    let kept = nms(&sorted, iou_milli);
    proof {
        assert forall|i: int| 0 <= i < kept@.len() implies box_wf(#[trigger] kept@[i]) by {
            let w = choose|w: int| 0 <= w < sorted@.len() && sorted@[w] == kept@[i];
        }
    }
    let r = map_to_source(&kept, orig_w, orig_h, model_side);
    proof {
        let cands = filter_scored(anchors@, conf_milli);
        assert forall|k: int| 0 <= k < kept@.len() implies cands.contains(#[trigger] kept@[k]) by {
            assert(sorted@.contains(kept@[k]));
            assert(sorted@.to_multiset().contains(kept@[k]));
            assert(cands.to_multiset().contains(kept@[k]));
        }
        assert forall|i: int|
            0 <= i < cands.len() implies kept@.contains(#[trigger] cands[i]) || exists|k: int|
            0 <= k < kept@.len() && iou_over(kept@[k], cands[i], iou_milli as int)
                && kept@[k].score >= cands[i].score by {
            assert(cands.contains(cands[i]));
            assert(cands.to_multiset().contains(cands[i]));
            assert(sorted@.to_multiset().contains(cands[i]));
            assert(sorted@.contains(cands[i]));
            let idx = choose|idx: int| 0 <= idx < sorted@.len() && sorted@[idx] == cands[i];
            assert(kept@.contains(sorted@[idx]) || exists|k: int|
                0 <= k < kept@.len() && iou_over(kept@[k], sorted@[idx], iou_milli as int)
                    && kept@[k].score >= sorted@[idx].score);
        }
        assert(nms_rel(cands, kept@, iou_milli as int));
    }
    r
}

/// Every box passing the filter is one of the input boxes, so it inherits
/// their well-formedness.
proof fn lemma_filter_scored_wf(s: Seq<BBox>, conf: u32)
    requires
        forall|i: int| 0 <= i < s.len() ==> box_wf(#[trigger] s[i]),
    ensures
        forall|i: int| 0 <= i < filter_scored(s, conf).len() ==> box_wf(
            #[trigger] filter_scored(s, conf)[i],
        ),
    decreases s.len(),
{
    if s.len() > 0 {
        assert(forall|i: int| 0 <= i < s.drop_last().len() ==> box_wf(
            #[trigger] s.drop_last()[i],
        ));
        lemma_filter_scored_wf(s.drop_last(), conf);
        let f = filter_scored(s, conf);
        let fp = filter_scored(s.drop_last(), conf);
        assert forall|i: int| 0 <= i < f.len() implies box_wf(#[trigger] f[i]) by {
            if i < fp.len() {
                assert(f[i] == fp[i]);
            } else {
                assert(f[i] == s.last());
                assert(box_wf(s[s.len() - 1]));
            }
        }
    }
}

/// A member of a sequence's multiset is a member of the sequence, so it is
/// well-formed when all elements are.
proof fn lemma_multiset_member(b: BBox, s: Seq<BBox>)
    requires
        s.to_multiset().contains(b),
        forall|i: int| 0 <= i < s.len() ==> box_wf(#[trigger] s[i]),
    ensures
        box_wf(b),
{
    broadcast use vstd::seq_lib::group_to_multiset_ensures;

    assert(s.contains(b));
    let w = choose|w: int| 0 <= w < s.len() && s[w] == b;
}

} // verus!
