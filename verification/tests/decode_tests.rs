//! The decode ladder against rendered QR codes, and the scan pipeline.

use qr_core::{ContentType, Gray, QRDecoder, QRScanner};
use rxing::Writer;

/// Render a QR code for `text` as a grayscale image of the given side.
fn render_qr(text: &str, side: u32) -> Gray {
    let writer = rxing::qrcode::QRCodeWriter;
    let bm = writer
        .encode(text, &rxing::BarcodeFormat::QR_CODE, side as i32, side as i32)
        .expect("encoding failed");
    let mut data: Vec<u8> = Vec::new();
    for y in 0..side {
        for x in 0..side {
            data.push(if bm.get(x, y) { 0 } else { 255 });
        }
    }
    Gray::from_samples(side as usize, side as usize, data).expect("bad buffer")
}

#[test]
fn decoding_test_decoder_creation() {
    let _decoder = QRDecoder::new();
}

#[test]
fn integration_test_decoder_creation() {
    let decoder = QRDecoder::new();

    // A plain gray image holds no code: the ladder must be exhausted
    // without panicking.
    let img = Gray::filled(50, 50, 128);
    let result = decoder.decode(&img);
    assert!(result.is_err());
}

#[test]
fn round_trip_unmodified() {
    // A noise-free rendered code decodes to the exact source text on the
    // first, untransformed rung.
    let decoder = QRDecoder::new();
    for text in ["HELLO QR", "https://qr.nspk.ru/AS1?sum=10000&cur=RUB"] {
        let img = render_qr(text, 232);
        let decoded = decoder.decode(&img).expect("should decode");
        assert_eq!(decoded.content, text);
    }
}

#[test]
fn inverted_render_still_decodes() {
    // Decoding succeeds on the pixel-inverted render of an image that
    // succeeds unmodified: the ladder's inverted rung restores it.
    let decoder = QRDecoder::new();
    let img = render_qr("INVERSION CHECK", 232);
    assert!(decoder.decode(&img).is_ok());

    let inverted = img.invert();
    let decoded = decoder.decode(&inverted).expect("inverted should decode");
    assert_eq!(decoded.content, "INVERSION CHECK");
}

#[test]
fn rotated_render_still_decodes() {
    // A render rotated by 45 degrees onto an enlarged white canvas is
    // repaired by the rotation rungs.
    let decoder = QRDecoder::new();
    let img = render_qr("ROTATION CHECK", 232);
    let rotated = img.rotate_q16(46341, 46341);
    let decoded = decoder.decode(&rotated).expect("rotated should decode");
    assert_eq!(decoded.content, "ROTATION CHECK");
}

#[test]
fn test_scanner_creation() {
    let scanner = QRScanner::new();
    let _ = scanner;
}

#[test]
fn test_empty_image_scan() {
    let scanner = QRScanner::new();
    let img = Gray::filled(100, 100, 200);

    let result = scanner.scan_image(&img);

    assert!(result.is_ok());
    let scan_result = result.unwrap();
    assert!(scan_result.qr_codes.is_empty());
    assert!(scan_result.best_payment.is_none());
}

#[test]
fn scan_finds_payment() {
    let scanner = QRScanner::new();
    let img = render_qr("https://qr.nspk.ru/AS1?sum=10000&cur=RUB", 232);
    let scan = scanner.scan_image(&img).unwrap();
    assert!(!scan.qr_codes.is_empty());
    let best = scan.best_payment.expect("payment entry expected");
    let entry = &scan.qr_codes[best];
    assert_eq!(entry.content_type, ContentType::Payment);
    let payment = entry.payment.as_ref().expect("parsed payment expected");
    assert_eq!(payment.amount.map(|a| a as f64 / 100.0), Some(100.0));
    assert_eq!(payment.currency, Some("RUB".to_string()));
}

#[test]
fn scan_for_payment_forwards_fields() {
    let scanner = QRScanner::new();
    let img = render_qr("https://qr.nspk.ru/AS1?sum=7700&cur=RUB", 232);
    let payment = scanner
        .scan_for_payment(&img)
        .unwrap()
        .expect("payment expected");
    assert_eq!(payment.amount, Some(7700));
}

#[test]
fn decode_batch_matches_single() {
    let decoder = QRDecoder::new();
    let good = render_qr("BATCH", 232);
    let bad = Gray::filled(40, 40, 90);
    let batch = decoder.decode_batch(&vec![good, bad]);
    assert_eq!(batch.len(), 2);
    assert_eq!(batch[0].as_ref().unwrap().content, "BATCH");
    assert!(batch[1].is_err());
}

#[test]
fn opposite_turn_render_still_decodes() {
    // A render turned 45 degrees the other way (the mirror image of the
    // rotation of the mirrored render) is recovered by the ladder's
    // opposite-turn rung.
    let decoder = QRDecoder::new();
    let img = render_qr("NEGATIVE TURN", 232);
    let turned = img.mirror_x().rotate_q16(46341, 46341).mirror_x();
    let decoded = decoder.decode(&turned).expect("opposite turn should decode");
    assert_eq!(decoded.content, "NEGATIVE TURN");
}
