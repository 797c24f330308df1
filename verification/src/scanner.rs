//! The scan pipeline: preprocess the image, detect candidate regions,
//! decode each through the transform ladder, classify the decoded text,
//! and parse payment payloads.

use vstd::prelude::*;
use crate::classify::{content_type_spec, lower_of, ContentType};
use crate::decoding::{first_success, ladder_images, DecodeError, DecodedView, QRDecoder};
use crate::detection::{detect_post, valid_detected, DetectedQR, DetectorConfig, QRDetector};
use crate::gray::{Gray, GrayV};
use crate::payment::{parse_result_ok, relevance_spec, PaymentInfo, PaymentParser};
use crate::preprocessing::{ImageProcessor, ProcessingConfig};

verus! {

/// Top-level failures of a scan.
#[derive(Debug)]
pub enum QRError {
    /// The image could not be prepared.
    ImageProcessing(String),
    /// Region detection failed.
    Detection(String),
    /// Decoding failed.
    Decode(DecodeError),
    /// The input container could not be read.
    InvalidFormat(String),
}

/// One decoded region of the scan output.
#[derive(Debug, Clone)]
pub struct QRResult {
    /// The decoded text.
    pub content: String,
    /// Bounding box x, y, width, height in the processed image.
    pub bbox: [u32; 4],
    /// The classified kind of the content.
    pub content_type: ContentType,
    /// Parsed payment fields, for payment-classified content.
    pub payment: Option<PaymentInfo>,
    /// Detection confidence in percent.
    pub confidence: u8,
}

/// The scan output: decoded regions in detection order, and the most
/// payment-relevant entry, if any entry is payment-classified.
#[derive(Debug, Clone)]
pub struct ScanResult {
    /// All decoded regions.
    pub qr_codes: Vec<QRResult>,
    /// Index of the best payment candidate; always a payment-classified
    /// entry.
    pub best_payment: Option<usize>,
    /// Processing time, filled in by the embedding caller.
    pub processing_time_ms: u64,
}

/// A scan entry is internally consistent: the kind is the classification
/// of the content, and payment fields are parsed exactly for
/// payment-classified content.
pub open spec fn entry_ok(e: QRResult) -> bool {
    &&& e.content_type == content_type_spec(lower_of(e.content@), e.content@)
    &&& (e.content_type is Payment ==> parse_result_ok(e.content@, e.payment))
    &&& (!(e.content_type is Payment) ==> e.payment is None)
}

/// A scan result is sound: every entry is consistent, and the best-payment
/// index, when present, points at a payment-classified entry.
pub open spec fn scan_ok(s: ScanResult) -> bool {
    &&& forall|j: int| 0 <= j < s.qr_codes@.len() ==> entry_ok(#[trigger] s.qr_codes@[j])
    &&& (match s.best_payment {
        Some(b) => b < s.qr_codes@.len() && s.qr_codes@[b as int].content_type is Payment,
        None => true,
    })
}

/// The successful ladder decodes of the detected regions, in order: each
/// region whose ladder yields a payload contributes that payload together
/// with the region's box and confidence; the rest contribute nothing.
pub open spec fn region_successes(ds: Seq<DetectedQR>, inv: bool) -> Seq<
    (DecodedView, [u32; 4], u8),
>
    decreases ds.len(),
{
    if ds.len() == 0 {
        Seq::empty()
    } else {
        region_successes(ds.drop_last(), inv) + match first_success(
            ladder_images(ds.last().image@, inv),
        ) {
            Some(d) => seq![(d, ds.last().bbox, ds.last().confidence)],
            None => Seq::empty(),
        }
    }
}

/// The relevance of a scan entry's content.
pub open spec fn entry_score(e: QRResult) -> u32 {
    relevance_spec(lower_of(e.content@), e.content@)
}

/// A scan entry presents a decoded payload: its content, box and
/// confidence are the payload's, and the entry is internally consistent.
pub open spec fn entry_matches(e: QRResult, d: DecodedView, bbox: [u32; 4], conf: u8) -> bool {
    &&& e.content@ == d.content
    &&& e.bbox == bbox
    &&& e.confidence == conf
    &&& entry_ok(e)
}

/// The best-payment choice over the region entries: the earliest
/// payment-classified entry of maximal positive relevance, or nothing
/// when no payment-classified entry has positive relevance.
pub open spec fn best_rel(out: Seq<QRResult>, b: Option<usize>) -> bool {
    match b {
        Some(i) => {
            &&& i < out.len()
            &&& out[i as int].content_type is Payment
            &&& entry_score(out[i as int]) > 0
            &&& forall|j: int|
                0 <= j < out.len() && (#[trigger] out[j]).content_type is Payment ==> entry_score(
                    out[j],
                ) <= entry_score(out[i as int])
            &&& forall|j: int|
                0 <= j < i && (#[trigger] out[j]).content_type is Payment ==> entry_score(out[j])
                    < entry_score(out[i as int])
        },
        None => forall|j: int|
            0 <= j < out.len() ==> !((#[trigger] out[j]).content_type is Payment) || entry_score(
                out[j],
            ) == 0,
    }
}

/// The running best-payment state while entries are gathered: the chosen
/// index, when set, names the earliest payment-classified entry whose
/// relevance equals the running score, which every other payment entry
/// stays at or under; when unset, no payment entry has positive
/// relevance.
pub open spec fn best_run(out: Seq<QRResult>, b: Option<usize>, score: u32) -> bool {
    match b {
        Some(i) => {
            &&& i < out.len()
            &&& out[i as int].content_type is Payment
            &&& entry_score(out[i as int]) == score
            &&& score > 0
            &&& forall|j: int|
                0 <= j < out.len() && (#[trigger] out[j]).content_type is Payment ==> entry_score(
                    out[j],
                ) <= score
            &&& forall|j: int|
                0 <= j < i && (#[trigger] out[j]).content_type is Payment ==> entry_score(out[j])
                    < score
        },
        None => score == 0 && forall|j: int|
            0 <= j < out.len() ==> !((#[trigger] out[j]).content_type is Payment) || entry_score(
                out[j],
            ) == 0,
    }
}

/// How a scan result arises from the preprocessed image and the detected
/// regions: the entries correspond in order to the regions whose ladder
/// decode succeeds, with the best-payment choice over them; when no
/// region decodes, the whole preprocessed image is offered as a last
/// resort, yielding at most one full-frame entry of full confidence whose
/// best-payment choice follows its classification alone.
pub open spec fn scan_rel(processed: GrayV, ds: Seq<DetectedQR>, inv: bool, s: ScanResult) -> bool {
    let succ = region_successes(ds, inv);
    if succ.len() > 0 {
        &&& s.qr_codes@.len() == succ.len()
        &&& forall|i: int|
            0 <= i < succ.len() ==> entry_matches(
                #[trigger] s.qr_codes@[i],
                succ[i].0,
                succ[i].1,
                succ[i].2,
            )
        &&& best_rel(s.qr_codes@, s.best_payment)
    } else {
        match first_success(ladder_images(processed, inv)) {
            Some(d) => {
                &&& s.qr_codes@.len() == 1
                &&& s.qr_codes@[0].content@ == d.content
                &&& s.qr_codes@[0].bbox[0] == 0
                &&& s.qr_codes@[0].bbox[1] == 0
                &&& s.qr_codes@[0].bbox[2] == processed.width
                &&& s.qr_codes@[0].bbox[3] == processed.height
                &&& s.qr_codes@[0].confidence == 100
                &&& entry_ok(s.qr_codes@[0])
                &&& s.best_payment == (if s.qr_codes@[0].content_type is Payment {
                    Some(0usize)
                } else {
                    None::<usize>
                })
            },
            None => s.qr_codes@.len() == 0 && s.best_payment is None,
        }
    }
}

/// What a successful scan guarantees: the result is sound, and it arises,
/// as `scan_rel` says, from the preprocessed image and some sequence of
/// regions that region detection can return for it.
pub open spec fn scan_post(scanner: QRScanner, v: GrayV, s: ScanResult) -> bool {
    &&& scan_ok(s)
    &&& exists|ds: Seq<DetectedQR>|
        #[trigger] detect_post(scanner.processor.process_spec(v), scanner.detector.config, ds)
            && scan_rel(scanner.processor.process_spec(v), ds, scanner.decoder.try_inverted, s)
}

/// The full scanner.
pub struct QRScanner {
    /// The preprocessor.
    pub processor: ImageProcessor,
    /// The region detector.
    pub detector: QRDetector,
    /// The decode orchestrator.
    pub decoder: QRDecoder,
    /// The payment parser.
    pub payment_parser: PaymentParser,
}

impl Default for QRScanner {
    /// Same as `new`.
    fn default() -> (r: Self) {
        QRScanner {
            processor: ImageProcessor::new(ProcessingConfig::default()),
            detector: QRDetector::new(DetectorConfig::default()),
            decoder: QRDecoder::new(),
            payment_parser: PaymentParser::new(),
        }
    }
}

impl QRScanner {
    /// A scanner with the stock configuration.
    pub fn new() -> (r: Self)
        ensures
            r.processor.config.adaptive_threshold,
            r.processor.config.block_size == 51,
            r.detector.config.min_size == 20,
            r.detector.config.max_size == 2000,
            r.detector.config.threshold == 128,
            r.decoder.try_inverted,
    {
        QRScanner {
            processor: ImageProcessor::new(ProcessingConfig::default()),
            detector: QRDetector::new(DetectorConfig::default()),
            decoder: QRDecoder::new(),
            payment_parser: PaymentParser::new(),
        }
    }

    /// A scanner with the given preprocessing and detection
    /// configurations.
    pub fn with_config(processing: ProcessingConfig, detection: DetectorConfig) -> (r: Self)
        ensures
            r.processor.config == processing,
            r.detector.config == detection,
    {
        QRScanner {
            processor: ImageProcessor::new(processing),
            detector: QRDetector::new(detection),
            decoder: QRDecoder::new(),
            payment_parser: PaymentParser::new(),
        }
    }

    /// Scan a grayscale image: preprocess it, decode every detected
    /// region through the ladder, classify each payload, and pick the
    /// most payment-relevant entry. An image without a recognizable code
    /// is a successful scan with no entries.
    pub fn scan_image(&self, gray: &Gray) -> (r: Result<ScanResult, QRError>)
        requires
            gray.wf(),
        ensures
            match r {
                Ok(s) => scan_post(*self, gray@, s),
                Err(_) => false,
            },
    {
        let processed = self.processor.process(gray);
        let detected = self.detector.detect(&processed);
        let ghost pv = self.processor.process_spec(gray@);
        let ghost inv = self.decoder.try_inverted;
        let mut qr_codes: Vec<QRResult> = Vec::new();
        let mut best_idx: Option<usize> = None;
        let mut best_score: u32 = 0;
        let dn = detected.len();
        let mut di: usize = 0;
        proof {
            assert(detected@.take(0) =~= Seq::<DetectedQR>::empty());
        }
        while di < dn
            invariant
                di <= dn,
                dn == detected@.len(),
                pv == self.processor.process_spec(gray@),
                inv == self.decoder.try_inverted,
                detect_post(pv, self.detector.config, detected@),
                forall|j: int| 0 <= j < detected@.len() ==> valid_detected(
                    pv,
                    #[trigger] detected@[j],
                ),
                ({
                    let succ = region_successes(detected@.take(di as int), inv);
                    &&& qr_codes@.len() == succ.len()
                    &&& forall|i: int|
                        0 <= i < succ.len() ==> entry_matches(
                            #[trigger] qr_codes@[i],
                            succ[i].0,
                            succ[i].1,
                            succ[i].2,
                        )
                }),
                best_run(qr_codes@, best_idx, best_score),
            decreases dn - di,
        {
            let ghost pre_succ = region_successes(detected@.take(di as int), inv);
            let ghost pre_codes = qr_codes@;
            proof {
                assert(detected@.take(di + 1).drop_last() =~= detected@.take(di as int));
                assert(detected@.take(di + 1).last() == detected@[di as int]);
            }
            let detection = &detected[di];
            match self.decoder.decode(&detection.image) {
                Ok(decoded) => {
                    let ghost dv = decoded@;
                    let content_type = ContentType::detect(decoded.content.as_str());
                    let payment: Option<PaymentInfo> = if content_type == ContentType::Payment {
                        self.payment_parser.parse(decoded.content.as_str())
                    } else {
                        None
                    };
                    let payment_score = self.payment_parser.relevance_score(
                        decoded.content.as_str(),
                    );
                    let is_payment = content_type == ContentType::Payment;
                    qr_codes.push(
                        QRResult {
                            content: decoded.content,
                            bbox: detection.bbox,
                            content_type,
                            payment,
                            confidence: detection.confidence,
                        },
                    );
                    let ghost e = qr_codes@.last();
                    proof {
                        let succ = region_successes(detected@.take(di + 1), inv);
                        assert(succ =~= pre_succ + seq![
                            (dv, detected@[di as int].bbox, detected@[di as int].confidence),
                        ]);
                        assert(entry_matches(e, dv, detection.bbox, detection.confidence));
                        assert(entry_score(e) == payment_score);
                        assert forall|i: int| 0 <= i < succ.len() implies entry_matches(
                            #[trigger] qr_codes@[i],
                            succ[i].0,
                            succ[i].1,
                            succ[i].2,
                        ) by {
                            if i < pre_succ.len() {
                                assert(qr_codes@[i] == pre_codes[i]);
                            }
                        }
                    }
                    if is_payment && payment_score > best_score {
                        best_score = payment_score;
                        best_idx = Some(qr_codes.len() - 1);
                        proof {
                            assert forall|j: int|
                                0 <= j < qr_codes@.len() && (#[trigger] qr_codes@[j]).content_type
                                    is Payment implies entry_score(qr_codes@[j]) <= entry_score(
                                qr_codes@[qr_codes@.len() - 1],
                            ) by {
                                if j < qr_codes@.len() - 1 {
                                    assert(qr_codes@[j] == pre_codes[j]);
                                }
                            }
                            assert(best_run(qr_codes@, best_idx, best_score));
                        }
                    } else {
                        proof {
                            match best_idx {
                                Some(b) => {
                                    assert(qr_codes@[b as int] == pre_codes[b as int]);
                                },
                                None => {},
                            }
                            assert(best_run(qr_codes@, best_idx, best_score));
                        }
                    }
                },
                Err(_) => {
                    proof {
                        assert(region_successes(detected@.take(di + 1), inv) =~= pre_succ);
                    }
                },
            }
            di = di + 1;
        }
        proof {
            assert(detected@.take(dn as int) =~= detected@);
        }
        if qr_codes.len() == 0 {
            match self.decoder.decode(&processed) {
                Ok(decoded) => {
                    let ghost dv = decoded@;
                    let content_type = ContentType::detect(decoded.content.as_str());
                    let payment: Option<PaymentInfo> = if content_type == ContentType::Payment {
                        self.payment_parser.parse(decoded.content.as_str())
                    } else {
                        None
                    };
                    let is_payment = content_type == ContentType::Payment;
                    qr_codes.push(
                        QRResult {
                            content: decoded.content,
                            bbox: [0, 0, processed.width as u32, processed.height as u32],
                            content_type,
                            payment,
                            confidence: 100,
                        },
                    );
                    if best_idx.is_none() && is_payment {
                        best_idx = Some(0);
                    }
                },
                Err(_) => {},
            }
        }
        let s = ScanResult { qr_codes, best_payment: best_idx, processing_time_ms: 0 };
        proof {
            assert(scan_rel(pv, detected@, inv, s));
            assert(scan_ok(s));
            assert(detect_post(pv, self.detector.config, detected@) && scan_rel(
                pv,
                detected@,
                inv,
                s,
            ));
        }
        Ok(s)
    }

    /// Scan and return the parsed fields of the most payment-relevant
    /// entry, if any.
    pub fn scan_for_payment(&self, gray: &Gray) -> (r: Result<Option<PaymentInfo>, QRError>)
        requires
            gray.wf(),
        ensures
            match r {
                Ok(p) => exists|s: ScanResult|
                    #[trigger] scan_post(*self, gray@, s) && (match s.best_payment {
                        Some(i) => i < s.qr_codes@.len() && p == s.qr_codes@[i as int].payment,
                        None => p is None,
                    }),
                Err(_) => false,
            },
    {
        let mut result = match self.scan_image(gray) {
            Ok(s) => s,
            Err(e) => {
                return Err(e);
            },
        };
        let ghost gs = result;
        match result.best_payment {
            Some(idx) => {
                let entry = result.qr_codes.remove(idx);
                Ok(entry.payment)
            },
            None => Ok(None),
        }
    }
}

} // verus!
