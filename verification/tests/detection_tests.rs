//! The finder-pattern detector's ratio test and region extraction.

use qr_core::detection::FinderPattern;
use qr_core::{DetectorConfig, Gray, QRDetector};

#[test]
fn test_detector_creation() {
    let config = DetectorConfig::default();
    let _detector = QRDetector::new(config);
}

#[test]
fn test_ratio_check() {
    let detector = QRDetector::new(DetectorConfig::default());

    // The exact 1:1:3:1:1 signature.
    assert!(detector.check_ratio(&[10, 10, 30, 10, 10]));

    // A small deviation within tolerance.
    assert!(detector.check_ratio(&[9, 11, 29, 10, 11]));

    // Uniform runs are not a finder signature.
    assert!(!detector.check_ratio(&[10, 10, 10, 10, 10]));
}

#[test]
fn test_detector_ratio_check() {
    let _detector = QRDetector::new(DetectorConfig::default());
}

#[test]
fn ratio_rejects_tiny_windows() {
    let detector = QRDetector::new(DetectorConfig::default());
    assert!(!detector.check_ratio(&[1, 1, 1, 1, 1]));
    assert!(!detector.check_ratio(&[0, 0, 0, 0, 0]));
    assert!(detector.check_ratio(&[1, 1, 3, 1, 1]));
}

#[test]
fn uniform_image_falls_back_to_whole_frame() {
    let detector = QRDetector::new(DetectorConfig::default());
    let img = Gray::filled(64, 48, 180);
    let regions = detector.detect(&img);
    assert_eq!(regions.len(), 1);
    assert_eq!(regions[0].bbox, [0, 0, 64, 48]);
    assert_eq!(regions[0].confidence, 50);
    assert_eq!(regions[0].corners[2], (64, 48));
}

#[test]
fn synthetic_finder_pattern_is_located() {
    // Draw one ideal finder pattern (a 7x7-module concentric square,
    // 4 pixels per module) on a white canvas, twice more to form an
    // L-shaped arrangement, and expect a detected region.
    let side: usize = 200;
    let mut data = vec![255u8; side * side];
    let module = 4usize;
    let mut draw_finder = |ox: usize, oy: usize, data: &mut Vec<u8>| {
        for my in 0..7 {
            for mx in 0..7 {
                let dark = my == 0 || my == 6 || mx == 0 || mx == 6
                    || (2..=4).contains(&my) && (2..=4).contains(&mx);
                if dark {
                    for py in 0..module {
                        for px in 0..module {
                            let x = ox + mx * module + px;
                            let y = oy + my * module + py;
                            data[y * side + x] = 0;
                        }
                    }
                }
            }
        }
    };
    draw_finder(20, 20, &mut data);
    draw_finder(140, 20, &mut data);
    draw_finder(20, 140, &mut data);
    let img = Gray::from_samples(side, side, data).unwrap();
    let detector = QRDetector::new(DetectorConfig::default());
    let regions = detector.detect(&img);
    assert!(!regions.is_empty());
    // A true triple detection (confidence 80) is expected here, not the
    // whole-frame fallback.
    assert!(regions.iter().any(|r| r.confidence == 80));
}

#[test]
fn l_shaped_triples_are_recognized() {
    let detector = QRDetector::new(DetectorConfig::default());
    let p = |x: u32, y: u32| FinderPattern { center_x: x, center_y: y, total: 28 };

    // A right-angle arrangement with equal sides: two sides of 100 and a
    // diagonal near 141.
    assert!(detector.is_valid_qr_group(&p(0, 0), &p(100, 0), &p(0, 100)));

    // Collinear points have no diagonal of side times sqrt(2).
    assert!(!detector.is_valid_qr_group(&p(0, 0), &p(50, 0), &p(100, 0)));

    // Wildly different module sizes are rejected.
    let big = FinderPattern { center_x: 100, center_y: 0, total: 280 };
    assert!(!detector.is_valid_qr_group(&p(0, 0), &big, &p(0, 100)));
}
