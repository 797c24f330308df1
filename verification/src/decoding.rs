//! The decode orchestrator: a deterministic ladder of image transforms,
//! each handed to two external QR symbol decoders until one succeeds.

use vstd::prelude::*;
use rxing::Reader;
use crate::gray::{
    downscale_spec, enhance_spec, invert_spec, mirror_spec, pad_spec, rotate_spec, threshold_spec,
    otsu_of, Gray, GrayV,
};

verus! {

/// Decoding failures.
#[derive(Debug)]
pub enum DecodeError {
    /// No decodable symbol was found after exhausting the ladder.
    NotFound,
    /// A symbol grid was recognized but could not be decoded.
    DecodeFailed(String),
    /// The input image could not be used.
    InvalidImage(String),
    /// Error correction rejected the symbol.
    ChecksumError,
}

/// The error-correction level of a decoded symbol.
#[derive(Debug, Clone, Copy, PartialEq, Eq, Structural)]
pub enum ErrorCorrectionLevel {
    L,
    M,
    Q,
    H,
    Unknown,
}

/// A decoded QR payload.
#[derive(Debug, Clone)]
pub struct DecodedQR {
    /// The decoded text.
    pub content: String,
    /// The error-correction level, where the decoder reports one.
    pub error_correction: ErrorCorrectionLevel,
    /// The symbol version, where the decoder reports one.
    pub version: Option<u8>,
    /// The data encoding as the decoder names it.
    pub encoding: String,
}

/// Mathematical value of a decoded payload.
pub ghost struct DecodedView {
    pub content: Seq<char>,
    pub ecc: ErrorCorrectionLevel,
    pub version: Option<u8>,
    pub encoding: Seq<char>,
}

impl View for DecodedQR {
    type V = DecodedView;

    open spec fn view(&self) -> DecodedView {
        DecodedView {
            content: self.content@,
            ecc: self.error_correction,
            version: self.version,
            encoding: self.encoding@,
        }
    }
}

/// What the first symbol decoder returns on a grayscale image: the text,
/// the error-correction code and the version of the first grid found, or
/// nothing. A function of the samples alone.
pub uninterp spec fn rqrr_decoding(data: Seq<u8>, w: int, h: int) -> Option<(Seq<char>, u8, u8)>;

/// What the second symbol decoder returns on packed ARGB pixels under its
/// hybrid binarizer: the text and the format name, or nothing. A function
/// of the pixels alone.
pub uninterp spec fn rxing_hybrid_decoding(pix: Seq<u32>, w: int, h: int) -> Option<
    (Seq<char>, Seq<char>),
>;

/// The same decoder under its global-histogram binarizer.
pub uninterp spec fn rxing_global_decoding(pix: Seq<u32>, w: int, h: int) -> Option<
    (Seq<char>, Seq<char>),
>;

/// Relies on `rqrr`: `PreparedImage::prepare`, `detect_grids` and
/// `Grid::decode` detect and decode deterministically; the first grid's
/// payload is returned. `Err(None)` stands for no grid, `Err(Some(d))` for
/// a grid whose decode failed.
#[verifier::external_body]
fn rqrr_decode(img: &Gray) -> (r: Result<(String, u8, u8), Option<String>>)
    requires
        img.wf(),
    ensures
        match r {
            Ok(t) => rqrr_decoding(img@.data, img@.width, img@.height) == Some((t.0@, t.1, t.2)),
            Err(_) => rqrr_decoding(img@.data, img@.width, img@.height) is None,
        },
{
    let buf = match image::GrayImage::from_raw(img.width as u32, img.height as u32, img.data.clone()) {
        Some(b) => b,
        None => return Err(None),
    };
    let mut prepared = rqrr::PreparedImage::prepare(buf);
    let grids = prepared.detect_grids();
    if grids.is_empty() {
        return Err(None);
    }
    match grids[0].decode() {
        Ok((meta, content)) => Ok((content, meta.ecc_level as u8, meta.version.0 as u8)),
        Err(e) => Err(Some(format!("{:?}", e))),
    }
}

/// Relies on `rxing`'s `QRCodeReader` over a `HybridBinarizer` on an RGB
/// luminance source, restricted to the QR format with the try-harder hint:
/// decoding is a function of the pixels alone.
#[verifier::external_body]
fn rxing_decode_hybrid(pixels: &Vec<u32>, w: usize, h: usize) -> (r: Option<(String, String)>)
    requires
        pixels@.len() == w * h,
    ensures
        match r {
            Some(t) => rxing_hybrid_decoding(pixels@, w as int, h as int) == Some((t.0@, t.1@)),
            None => rxing_hybrid_decoding(pixels@, w as int, h as int) is None,
        },
{
    let src = rxing::RGBLuminanceSource::new_with_width_height_pixels(w, h, pixels.as_slice());
    let mut bitmap = rxing::BinaryBitmap::new(rxing::common::HybridBinarizer::new(src));
    let formats = std::collections::HashSet::from([rxing::BarcodeFormat::QR_CODE]);
    let hints = rxing::DecodeHints::default().with(
        rxing::DecodeHintValue::PossibleFormats(formats),
    ).with(rxing::DecodeHintValue::TryHarder(true));
    let mut reader = rxing::qrcode::QRCodeReader::new();
    match reader.decode_with_hints(&mut bitmap, &hints) {
        Ok(res) => Some((res.getText().to_string(), format!("{:?}", res.getBarcodeFormat()))),
        Err(_) => None,
    }
}

/// Relies on `rxing`'s `QRCodeReader` over a `GlobalHistogramBinarizer`,
/// with the same hints: decoding is a function of the pixels alone.
#[verifier::external_body]
fn rxing_decode_global(pixels: &Vec<u32>, w: usize, h: usize) -> (r: Option<(String, String)>)
    requires
        pixels@.len() == w * h,
    ensures
        match r {
            Some(t) => rxing_global_decoding(pixels@, w as int, h as int) == Some((t.0@, t.1@)),
            None => rxing_global_decoding(pixels@, w as int, h as int) is None,
        },
{
    let src = rxing::RGBLuminanceSource::new_with_width_height_pixels(w, h, pixels.as_slice());
    let mut bitmap = rxing::BinaryBitmap::new(rxing::common::GlobalHistogramBinarizer::new(src));
    let formats = std::collections::HashSet::from([rxing::BarcodeFormat::QR_CODE]);
    let hints = rxing::DecodeHints::default().with(
        rxing::DecodeHintValue::PossibleFormats(formats),
    ).with(rxing::DecodeHintValue::TryHarder(true));
    let mut reader = rxing::qrcode::QRCodeReader::new();
    match reader.decode_with_hints(&mut bitmap, &hints) {
        Ok(res) => Some((res.getText().to_string(), format!("{:?}", res.getBarcodeFormat()))),
        Err(_) => None,
    }
}

/// A grayscale sample packed as an opaque ARGB pixel.
pub open spec fn pack_argb(g: u8) -> u32 {
    (0xFF000000 + (g as int) * 0x10101) as u32
}

/// The image's samples packed as ARGB pixels.
pub open spec fn argb_of(data: Seq<u8>) -> Seq<u32> {
    Seq::new(data.len(), |i: int| pack_argb(data[i]))
}

/// Pack the image's samples as ARGB pixels for the second decoder.
fn gray_to_argb(img: &Gray) -> (r: Vec<u32>)
    requires
        img.wf(),
    ensures
        r@ == argb_of(img@.data),
{
    let n = img.data.len();
    let mut r: Vec<u32> = Vec::new();
    let mut i: usize = 0;
    while i < n
        invariant
            i <= n,
            n == img@.data.len(),
            r@.len() == i,
            forall|j: int| 0 <= j < i ==> r@[j] == pack_argb(img@.data[j]),
        decreases n - i,
    {
        r.push(0xFF000000u32 + (img.data[i] as u32) * 0x10101);
        i = i + 1;
    }
    proof {
        assert(r@ =~= argb_of(img@.data));
    }
    r
}

/// The error-correction level named by a decoder's numeric code.
pub open spec fn ecc_of_code(c: u8) -> ErrorCorrectionLevel {
    if c == 0 {
        ErrorCorrectionLevel::L
    } else if c == 1 {
        ErrorCorrectionLevel::M
    } else if c == 2 {
        ErrorCorrectionLevel::Q
    } else if c == 3 {
        ErrorCorrectionLevel::H
    } else {
        ErrorCorrectionLevel::Unknown
    }
}

fn ecc_from_code(c: u8) -> (r: ErrorCorrectionLevel)
    ensures
        r == ecc_of_code(c),
{
    if c == 0 {
        ErrorCorrectionLevel::L
    } else if c == 1 {
        ErrorCorrectionLevel::M
    } else if c == 2 {
        ErrorCorrectionLevel::Q
    } else if c == 3 {
        ErrorCorrectionLevel::H
    } else {
        ErrorCorrectionLevel::Unknown
    }
}

/// What one rung of the ladder yields on an image: the first decoder, then
/// the second under each of its two binarizers.
pub open spec fn img_attempt(v: GrayV) -> Option<DecodedView> {
    match rqrr_decoding(v.data, v.width, v.height) {
        Some(t) => Some(
            DecodedView { content: t.0, ecc: ecc_of_code(t.1), version: Some(t.2), encoding: "Byte"@ },
        ),
        None => match rxing_hybrid_decoding(argb_of(v.data), v.width, v.height) {
            Some(t) => Some(
                DecodedView {
                    content: t.0,
                    ecc: ErrorCorrectionLevel::Unknown,
                    version: None,
                    encoding: t.1,
                },
            ),
            None => match rxing_global_decoding(argb_of(v.data), v.width, v.height) {
                Some(t) => Some(
                    DecodedView {
                        content: t.0,
                        ecc: ErrorCorrectionLevel::Unknown,
                        version: None,
                        encoding: t.1,
                    },
                ),
                None => None,
            },
        },
    }
}

/// Cosine of 30 degrees in Q16 fixed point.
pub const COS30_Q16: i64 = 56756;

/// Sine of 30 degrees in Q16 fixed point.
pub const SIN30_Q16: i64 = 32768;

/// Cosine and sine of 45 degrees in Q16 fixed point.
pub const COS45_Q16: i64 = 46341;

/// Cosine of 60 degrees in Q16 fixed point.
pub const COS60_Q16: i64 = 32768;

/// Sine of 60 degrees in Q16 fixed point.
pub const SIN60_Q16: i64 = 56756;

/// The ladder: the image as-is, inverted, enhanced (and inverted), with a
/// white quiet zone added (and inverted), rotated by 30, 45 and 60
/// degrees in both directions, binarized at the automatically computed
/// threshold and at a fixed ladder of thresholds, and box-downscaled when
/// large. The inverted rungs appear only when `inv` is set. Rungs whose
/// canvas would overflow the supported image size are left out. A turn of
/// the opposite sign is realized as the mirror image of the rotation of
/// the mirrored image, which is the same map on pixels.
pub open spec fn ladder_images(v: GrayV, inv: bool) -> Seq<GrayV> {
    let base = if inv {
        seq![v, invert_spec(v), enhance_spec(v), invert_spec(enhance_spec(v))]
    } else {
        seq![v, enhance_spec(v)]
    };
    let pads = if v.width + 40 <= 0xffff && v.height + 40 <= 0xffff {
        if inv {
            seq![pad_spec(v, 20), pad_spec(invert_spec(v), 20)]
        } else {
            seq![pad_spec(v, 20)]
        }
    } else {
        Seq::empty()
    };
    let rots = if v.width + v.height <= 0xfffe {
        seq![
            rotate_spec(v, COS30_Q16 as int, SIN30_Q16 as int),
            mirror_spec(rotate_spec(mirror_spec(v), COS30_Q16 as int, SIN30_Q16 as int)),
            rotate_spec(v, COS45_Q16 as int, COS45_Q16 as int),
            mirror_spec(rotate_spec(mirror_spec(v), COS45_Q16 as int, COS45_Q16 as int)),
            rotate_spec(v, COS60_Q16 as int, SIN60_Q16 as int),
            mirror_spec(rotate_spec(mirror_spec(v), COS60_Q16 as int, SIN60_Q16 as int)),
        ]
    } else {
        Seq::empty()
    };
    let ths = seq![
        threshold_spec(v, otsu_of(v.data) as u8),
        threshold_spec(v, 64),
        threshold_spec(v, 96),
        threshold_spec(v, 128),
        threshold_spec(v, 160),
        threshold_spec(v, 192),
    ];
    let down = if v.width > 400 || v.height > 400 {
        seq![downscale_spec(v)]
    } else {
        Seq::empty()
    };
    base + pads + rots + ths + down
}

/// The payload of the first rung that decodes, if any.
pub open spec fn first_success(s: Seq<GrayV>) -> Option<DecodedView>
    decreases s.len(),
{
    if s.len() == 0 {
        None
    } else {
        match img_attempt(s[0]) {
            Some(d) => Some(d),
            None => first_success(s.skip(1)),
        }
    }
}

/// Try both decoders on one image.
fn try_attempt(img: &Gray) -> (r: Option<DecodedQR>)
    requires
        img.wf(),
    ensures
        match r {
            Some(d) => img_attempt(img@) == Some(d@),
            None => img_attempt(img@) is None,
        },
{
    match rqrr_decode(img) {
        Ok(t) => {
            let (content, ecc, version) = t;
            return Some(
                DecodedQR {
                    content,
                    error_correction: ecc_from_code(ecc),
                    version: Some(version),
                    encoding: "Byte".to_owned(),
                },
            );
        },
        Err(_) => {},
    }
    let pixels = gray_to_argb(img);
    match rxing_decode_hybrid(&pixels, img.width, img.height) {
        Some(t) => {
            let (text, fmt) = t;
            return Some(
                DecodedQR {
                    content: text,
                    error_correction: ErrorCorrectionLevel::Unknown,
                    version: None,
                    encoding: fmt,
                },
            );
        },
        None => {},
    }
    match rxing_decode_global(&pixels, img.width, img.height) {
        Some(t) => {
            let (text, fmt) = t;
            Some(
                DecodedQR {
                    content: text,
                    error_correction: ErrorCorrectionLevel::Unknown,
                    version: None,
                    encoding: fmt,
                },
            )
        },
        None => None,
    }
}

/// Once an attempt at index `i` succeeds and all before it fail, it is the
/// first success.
proof fn lemma_first_success_at(s: Seq<GrayV>, i: int, d: DecodedView)
    requires
        0 <= i < s.len(),
        img_attempt(s[i]) == Some(d),
        forall|j: int| 0 <= j < i ==> img_attempt(#[trigger] s[j]) is None,
    ensures
        first_success(s) == Some(d),
    decreases i,
{
    if i == 0 {
    } else {
        assert(img_attempt(s[0]) is None);
        assert(s.skip(1)[i - 1] == s[i]);
        assert(forall|j: int| 0 <= j < i - 1 ==> #[trigger] s.skip(1)[j] == s[j + 1]);
        lemma_first_success_at(s.skip(1), i - 1, d);
    }
}

/// When every attempt fails there is no first success.
proof fn lemma_first_success_none(s: Seq<GrayV>)
    requires
        forall|j: int| 0 <= j < s.len() ==> img_attempt(#[trigger] s[j]) is None,
    ensures
        first_success(s) is None,
    decreases s.len(),
{
    if s.len() > 0 {
        assert(forall|j: int| 0 <= j < s.len() - 1 ==> #[trigger] s.skip(1)[j] == s[j + 1]);
        lemma_first_success_none(s.skip(1));
    }
}

/// Decoder over the two external symbol decoders, with the transform
/// ladder as fallback.
pub struct QRDecoder {
    /// Whether inverted variants are tried; set by construction.
    pub try_inverted: bool,
}

impl Default for QRDecoder {
    /// Same as `new`.
    fn default() -> (r: Self)
        ensures
            r.try_inverted,
    {
        QRDecoder { try_inverted: true }
    }
}

impl QRDecoder {
    /// A decoder that tries inverted variants.
    pub fn new() -> (r: Self)
        ensures
            r.try_inverted,
    {
        QRDecoder { try_inverted: true }
    }

    /// Walk the ladder: return the first rung's payload that decodes, or
    /// `NotFound` after exhausting every rung.
    pub fn decode(&self, img: &Gray) -> (r: Result<DecodedQR, DecodeError>)
        requires
            img.wf(),
        ensures
            match r {
                Ok(d) => first_success(ladder_images(img@, self.try_inverted)) == Some(d@),
                Err(e) => e is NotFound && first_success(ladder_images(img@, self.try_inverted))
                    is None,
            },
    {
        let mut attempts: Vec<Gray> = Vec::new();
        attempts.push(img.clone());
        if self.try_inverted {
            attempts.push(img.invert());
        }
        let enhanced = img.enhance();
        attempts.push(enhanced.clone());
        if self.try_inverted {
            attempts.push(enhanced.invert());
        }
        if img.width <= 0xffff - 40 && img.height <= 0xffff - 40 {
            attempts.push(img.pad_white(20));
            if self.try_inverted {
                attempts.push(img.invert().pad_white(20));
            }
        }
        if img.width + img.height <= 0xfffe {
            let mirrored = img.mirror_x();
            attempts.push(img.rotate_q16(COS30_Q16, SIN30_Q16));
            attempts.push(mirrored.rotate_q16(COS30_Q16, SIN30_Q16).mirror_x());
            attempts.push(img.rotate_q16(COS45_Q16, COS45_Q16));
            attempts.push(mirrored.rotate_q16(COS45_Q16, COS45_Q16).mirror_x());
            attempts.push(img.rotate_q16(COS60_Q16, SIN60_Q16));
            attempts.push(mirrored.rotate_q16(COS60_Q16, SIN60_Q16).mirror_x());
        }
        attempts.push(img.threshold_at(img.otsu_threshold()));
        attempts.push(img.threshold_at(64));
        attempts.push(img.threshold_at(96));
        attempts.push(img.threshold_at(128));
        attempts.push(img.threshold_at(160));
        attempts.push(img.threshold_at(192));
        if img.width > 400 || img.height > 400 {
            attempts.push(img.downscale_half());
        }
        let ghost ladder = ladder_images(img@, self.try_inverted);
        proof {
            assert(Seq::new(attempts@.len(), |i: int| attempts@[i]@) =~= ladder);
        }
        let n = attempts.len();
        let mut i: usize = 0;
        while i < n
            invariant
                i <= n,
                n == attempts@.len(),
                ladder == ladder_images(img@, self.try_inverted),
                Seq::new(attempts@.len(), |k: int| attempts@[k]@) == ladder,
                forall|k: int| 0 <= k < n ==> (#[trigger] attempts@[k]).wf(),
                forall|j: int| 0 <= j < i ==> img_attempt(#[trigger] ladder[j]) is None,
            decreases n - i,
        {
            match try_attempt(&attempts[i]) {
                Some(d) => {
                    proof {
                        lemma_first_success_at(ladder, i as int, d@);
                    }
                    return Ok(d);
                },
                None => {},
            }
            i = i + 1;
        }
        proof {
            lemma_first_success_none(ladder);
        }
        Err(DecodeError::NotFound)
    }

    /// Decode a batch of images independently.
    pub fn decode_batch(&self, images: &Vec<Gray>) -> (r: Vec<Result<DecodedQR, DecodeError>>)
        requires
            forall|j: int| 0 <= j < images@.len() ==> (#[trigger] images@[j]).wf(),
        ensures
            r@.len() == images@.len(),
            forall|j: int| 0 <= j < images@.len() ==> (match #[trigger] r@[j] {
                Ok(d) => first_success(ladder_images(images@[j]@, self.try_inverted)) == Some(d@),
                Err(e) => e is NotFound && first_success(ladder_images(images@[j]@, self.try_inverted)) is None,
            }),
    {
        let n = images.len();
        let mut out: Vec<Result<DecodedQR, DecodeError>> = Vec::new();
        let mut i: usize = 0;
        while i < n
            invariant
                i <= n,
                n == images@.len(),
                forall|j: int| 0 <= j < images@.len() ==> (#[trigger] images@[j]).wf(),
                out@.len() == i,
                forall|j: int| 0 <= j < i ==> (match #[trigger] out@[j] {
                    Ok(d) => first_success(ladder_images(images@[j]@, self.try_inverted)) == Some(d@),
                    Err(e) => e is NotFound && first_success(ladder_images(images@[j]@, self.try_inverted)) is None,
                }),
            decreases n - i,
        {
            out.push(self.decode(&images[i]));
            i = i + 1;
        }
        out
    }
}

/// Inversion symmetry of the ladder: if an image decodes on its first,
/// untransformed rung, then its pixel-inverted copy also decodes — the
/// inverted rung of the inverted image is the original image again.
pub proof fn lemma_inversion_symmetry(v: GrayV)
    requires
        v.wf(),
        img_attempt(v) is Some,
    ensures
        first_success(ladder_images(invert_spec(v), true)) is Some,
{
    let w = invert_spec(v);
    let ladder = ladder_images(w, true);
    assert(invert_spec(w) =~~= v) by {
        assert(invert_spec(w).data =~= v.data);
    }
    assert(ladder[1] == invert_spec(w));
    if img_attempt(ladder[0]) is Some {
        assert(first_success(ladder) is Some);
    } else {
        assert(ladder.skip(1)[0] == ladder[1]);
        assert(first_success(ladder) == first_success(ladder.skip(1)));
        assert(img_attempt(v) is Some);
        assert(first_success(ladder.skip(1)) is Some);
    }
}

} // verus!
