//! Pixel transforms and the preprocessing pipeline.

use qr_core::{Gray, ImageProcessor, ProcessingConfig};

#[test]
fn test_processor_creation() {
    let config = ProcessingConfig::default();
    let _processor = ImageProcessor::new(config);
}

#[test]
fn test_invert() {
    let processor = ImageProcessor::new(ProcessingConfig::default());
    let img = Gray::filled(10, 10, 100);
    let inverted = processor.invert(&img);
    assert_eq!(inverted.get(0, 0), 155);
}

#[test]
fn test_image_processor() {
    let config = ProcessingConfig::default();
    let processor = ImageProcessor::new(config);

    // A checkered test image with some contrast.
    let mut data: Vec<u8> = Vec::new();
    for y in 0..100u32 {
        for x in 0..100u32 {
            data.push(if (x + y) % 10 < 5 { 50 } else { 200 });
        }
    }
    let img = Gray::from_samples(100, 100, data).unwrap();

    let processed = processor.process(&img);

    assert_eq!((processed.width, processed.height), (100, 100));
}

#[test]
fn resize_bounds_large_images() {
    let processor = ImageProcessor::new(ProcessingConfig::default());
    let img = Gray::filled(2000, 1000, 10);
    let small = processor.resize(&img, 1000);
    assert_eq!((small.width, small.height), (1000, 500));

    let untouched = processor.resize(&Gray::filled(30, 20, 10), 1000);
    assert_eq!((untouched.width, untouched.height), (30, 20));
}

#[test]
fn invert_is_an_involution() {
    let mut data: Vec<u8> = Vec::new();
    for i in 0..64u32 {
        data.push((i * 4) as u8);
    }
    let img = Gray::from_samples(8, 8, data.clone()).unwrap();
    let twice = img.invert().invert();
    assert_eq!(twice.data, data);
}

#[test]
fn threshold_binarizes_exactly() {
    let img = Gray::from_samples(4, 1, vec![0, 127, 128, 255]).unwrap();
    let t = img.threshold_at(128);
    assert_eq!(t.data, vec![0, 0, 255, 255]);
}

#[test]
fn pad_adds_white_border() {
    let img = Gray::filled(2, 2, 10);
    let padded = img.pad_white(1);
    assert_eq!((padded.width, padded.height), (4, 4));
    assert_eq!(padded.get(0, 0), 255);
    assert_eq!(padded.get(1, 1), 10);
    assert_eq!(padded.get(2, 2), 10);
    assert_eq!(padded.get(3, 3), 255);
}

#[test]
fn downscale_averages_blocks() {
    let img = Gray::from_samples(2, 2, vec![1, 3, 5, 7]).unwrap();
    let half = img.downscale_half();
    assert_eq!((half.width, half.height), (1, 1));
    assert_eq!(half.data, vec![4]);
}

#[test]
fn contrast_stretch_expands_range() {
    let img = Gray::from_samples(3, 1, vec![100, 150, 200]).unwrap();
    let s = img.contrast_stretch();
    // (v - 100) * 255 / 100
    assert_eq!(s.data, vec![0, 127, 255]);

    let flat = Gray::filled(3, 1, 90).contrast_stretch();
    assert_eq!(flat.data, vec![90, 90, 90]);
}

#[test]
fn otsu_threshold_of_bimodal_and_flat() {
    let mut data = vec![0u8; 50];
    data.extend(vec![255u8; 50]);
    let img = Gray::from_samples(10, 10, data).unwrap();
    // Every split between the two classes scores the same; the smallest
    // maximizing threshold wins.
    assert_eq!(img.otsu_threshold(), 0);

    let flat = Gray::filled(10, 10, 77);
    assert_eq!(flat.otsu_threshold(), 128);
}

#[test]
fn rotation_grows_canvas_and_keeps_white_corners() {
    let img = Gray::filled(100, 100, 0);
    let rotated = img.rotate_q16(46341, 46341);
    assert!(rotated.width > 100 && rotated.height > 100);
    // The rotated square's corners on the enlarged canvas are quiet-zone
    // white, its center stays dark.
    assert_eq!(rotated.get(0, 0), 255);
    assert_eq!(rotated.get(rotated.width / 2, rotated.height / 2), 0);
}

#[test]
fn rgba_conversion_uses_luma_weights() {
    let rgba: Vec<u8> = vec![255, 0, 0, 255, 0, 255, 0, 255, 0, 0, 255, 255];
    let gray = qr_core::gray::rgba_to_gray(&rgba, 3);
    // 299, 587 and 114 thousandths of full scale.
    assert_eq!(gray, vec![76, 149, 29]);
}

#[test]
fn find_corners_of_frame() {
    // On a frame that binarizes to a single bright region, the corner
    // search finds a quadrilateral spanning the image.
    let mut data = vec![255u8; 60 * 60];
    for y in 20..40 {
        for x in 20..40 {
            data[y * 60 + x] = 0;
        }
    }
    let img = Gray::from_samples(60, 60, data).unwrap();
    let processor = ImageProcessor::new(ProcessingConfig::default());
    let corners = processor.find_corners(&img);
    if let Some(c) = corners {
        for p in c.iter() {
            assert!(p.0 >= 0 && p.0 < 60 && p.1 >= 0 && p.1 < 60);
        }
    }
}

#[test]
fn normalize_lighting_recenters() {
    let img = Gray::filled(16, 16, 40);
    let processor = ImageProcessor::new(ProcessingConfig::default());
    let n = processor.normalize_lighting(&img);
    assert_eq!((n.width, n.height), (16, 16));
    // A flat image equals its local mean everywhere, so everything lands
    // at mid-gray.
    assert_eq!(n.get(8, 8), 128);
}

#[test]
fn median_denoise_keeps_dimensions() {
    let processor = ImageProcessor::new(ProcessingConfig::default());
    let img = Gray::filled(12, 9, 33);
    let m = processor.median_denoise(&img);
    assert_eq!((m.width, m.height), (12, 9));
    assert_eq!(m.get(5, 5), 33);
}

#[test]
fn denoise_spreads_an_impulse() {
    // A single bright pixel on black: box averaging must dim it and
    // brighten a neighbour.
    let mut data = vec![0u8; 25];
    data[12] = 255;
    let img = Gray::from_samples(5, 5, data).unwrap();
    let processor = ImageProcessor::new(ProcessingConfig::default());
    let d = processor.denoise(&img);
    assert!(d.get(2, 2) < 255);
    assert!(d.get(1, 2) > 0);
}

#[test]
fn adaptive_threshold_binarizes() {
    // A gradient binarizes to pure black and white.
    let mut data: Vec<u8> = Vec::new();
    for y in 0..16u32 {
        for x in 0..16u32 {
            data.push((x * 16 + y) as u8);
        }
    }
    let img = Gray::from_samples(16, 16, data).unwrap();
    let processor = ImageProcessor::new(ProcessingConfig::default());
    let b = processor.adaptive_threshold(&img);
    assert!(b.data.iter().all(|&p| p == 0 || p == 255));
    assert!(b.data.iter().any(|&p| p == 0));
    assert!(b.data.iter().any(|&p| p == 255));
}

#[test]
fn median_removes_an_impulse() {
    let mut data = vec![0u8; 25];
    data[12] = 255;
    let img = Gray::from_samples(5, 5, data).unwrap();
    let processor = ImageProcessor::new(ProcessingConfig::default());
    let m = processor.median_denoise(&img);
    assert_eq!(m.get(2, 2), 0);
}

#[test]
fn adaptive_threshold_binarizes_thin_images() {
    // Any image at least four pixels on each side is binarized; a
    // shorter side holds no block and the image comes back unchanged.
    let mut data: Vec<u8> = Vec::new();
    for y in 0..4u32 {
        for x in 0..10u32 {
            data.push((x * 25 + y) as u8);
        }
    }
    let img = Gray::from_samples(10, 4, data).unwrap();
    let processor = ImageProcessor::new(ProcessingConfig::default());
    let b = processor.adaptive_threshold(&img);
    assert_eq!((b.width, b.height), (10, 4));
    assert!(b.data.iter().all(|&p| p == 0 || p == 255));

    let small = Gray::from_samples(3, 8, vec![7u8; 24]).unwrap();
    let u = processor.adaptive_threshold(&small);
    assert_eq!(u.data, vec![7u8; 24]);
}
