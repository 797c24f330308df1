//! Content classification of decoded payload text.

use qr_core::ContentType;

#[test]
fn lib_test_content_type_detection() {
    assert_eq!(ContentType::detect("https://example.com"), ContentType::Url);
    assert_eq!(ContentType::detect("https://qr.nspk.ru/123"), ContentType::Payment);
    assert_eq!(ContentType::detect("BEGIN:VCARD\nVERSION:3.0"), ContentType::VCard);
    assert_eq!(ContentType::detect("WIFI:T:WPA;S:MyNetwork;P:pass;;"), ContentType::WiFi);
    assert_eq!(ContentType::detect("Hello World"), ContentType::Text);
}

#[test]
fn integration_test_content_type_detection() {
    // URL
    assert_eq!(ContentType::detect("https://example.com"), ContentType::Url);
    assert_eq!(ContentType::detect("http://test.ru/page"), ContentType::Url);

    // Payment URLs
    assert_eq!(ContentType::detect("https://qr.nspk.ru/123"), ContentType::Payment);

    // VCard
    assert_eq!(ContentType::detect("BEGIN:VCARD\nVERSION:3.0\nN:Test"), ContentType::VCard);

    // WiFi
    assert_eq!(ContentType::detect("WIFI:T:WPA;S:Network;P:password;;"), ContentType::WiFi);

    // Email
    assert_eq!(ContentType::detect("mailto:test@example.com"), ContentType::Email);

    // Phone
    assert_eq!(ContentType::detect("tel:+79001234567"), ContentType::Phone);

    // SMS
    assert_eq!(ContentType::detect("sms:+79001234567?body=Hello"), ContentType::Sms);

    // Geo
    assert_eq!(ContentType::detect("geo:55.7558,37.6173"), ContentType::Geo);

    // Plain text
    assert_eq!(ContentType::detect("Hello World"), ContentType::Text);
}

#[test]
fn classification_is_stable() {
    // Re-running classification on the same decoded text always returns
    // the same kind.
    for text in [
        "https://qr.nspk.ru/abc",
        "WIFI:T:WPA;S:N;P:p;;",
        "geo:1,2",
        "smsto:123",
        "ST.00012|Name=A",
        "random words",
    ] {
        let first = ContentType::detect(text);
        let second = ContentType::detect(text);
        assert_eq!(first, second);
    }
}

#[test]
fn classification_folds_case() {
    assert_eq!(ContentType::detect("HTTPS://EXAMPLE.COM"), ContentType::Url);
    assert_eq!(ContentType::detect("MAILTO:A@B.C"), ContentType::Email);
    assert_eq!(ContentType::detect("St.00012|Name=A"), ContentType::Payment);
}

#[test]
fn emv_shaped_text_is_payment() {
    let long_emv = "000201530364354052000059094123456781234567890123456";
    assert!(long_emv.starts_with("00") && long_emv.len() > 50);
    assert_eq!(ContentType::detect(long_emv), ContentType::Payment);

    // The same prefix on a short payload stays plain text.
    assert_eq!(ContentType::detect("0042"), ContentType::Text);
}
