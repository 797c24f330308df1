//! EMV TLV parsing and checksum validation.

use qr_core::emv::crc16_ccitt_kermit;
use qr_core::{EmvData, EmvError};

#[test]
fn test_valid_emv() {
    let payload_body = "0002015909SomeMerch6304";
    let crc = crc16_ccitt_kermit(payload_body.as_bytes());
    let full_payload = format!("{}{:04X}", payload_body, crc);

    let parsed = EmvData::parse(&full_payload).expect("Should parse");
    assert_eq!(parsed.pfi, "01");
    assert_eq!(parsed.merchant_name, Some("SomeMerch".to_string()));
}

#[test]
fn crc_round_trip_concrete() {
    // Appending the uppercase hexadecimal CRC of a payload ending in the
    // checksum tag always validates.
    for body in ["0002016304", "00020159045Srg6304", "6304"] {
        let crc = crc16_ccitt_kermit(body.as_bytes());
        let full = format!("{}{:04X}", body, crc);
        assert!(EmvData::validate_crc(&full).is_ok());
    }
}

#[test]
fn crc_flip_fails() {
    let body = "0002015909SomeMerch6304";
    let crc = crc16_ccitt_kermit(body.as_bytes());
    let full = format!("{}{:04X}", body, crc);
    let n = full.len();
    for k in 0..4 {
        let mut bytes = full.clone().into_bytes();
        let old = bytes[n - 4 + k];
        // flip each checksum character to a different digit
        bytes[n - 4 + k] = if old == b'0' { b'1' } else { b'0' };
        let tampered = String::from_utf8(bytes).unwrap();
        match EmvData::parse(&tampered) {
            Err(EmvError::InvalidCrc { .. }) => {}
            other => panic!("expected a checksum mismatch, got {:?}", other),
        }
    }
}

#[test]
fn missing_checksum_tag() {
    match EmvData::validate_crc("000201ABCDXXXX") {
        Err(EmvError::MissingChecksum) => {}
        other => panic!("expected a missing checksum, got {:?}", other),
    }
}

#[test]
fn short_payload_is_malformed() {
    match EmvData::validate_crc("6304") {
        Err(EmvError::MalformedData) => {}
        other => panic!("expected malformed data, got {:?}", other),
    }
}

#[test]
fn bad_tlv_length_is_malformed() {
    // Valid checksum over a body whose second record has a non-numeric
    // length.
    let body = "00A16304";
    let crc = crc16_ccitt_kermit(body.as_bytes());
    let full = format!("{}{:04X}", body, crc);
    match EmvData::parse(&full) {
        Err(EmvError::MalformedData) => {}
        other => panic!("expected malformed data, got {:?}", other),
    }
}

#[test]
fn tag_maps_are_routed() {
    // 26: merchant account information; 62: additional data; 81: unparsed.
    let body = "000201260345162020181020x6304";
    let crc = crc16_ccitt_kermit(body.as_bytes());
    let full = format!("{}{:04X}", body, crc);
    let parsed = EmvData::parse(&full).expect("Should parse");
    assert_eq!(
        parsed
            .merchant_account_information
            .iter()
            .find(|kv| kv.0 == "26")
            .map(|kv| kv.1.clone()),
        Some("451".to_string())
    );
    assert_eq!(
        parsed.additional_data.iter().find(|kv| kv.0 == "62").map(|kv| kv.1.clone()),
        Some("01".to_string())
    );
    assert_eq!(
        parsed.unparsed_tags.iter().find(|kv| kv.0 == "81").map(|kv| kv.1.clone()),
        Some("0x".to_string())
    );
}

#[test]
fn crc_known_value() {
    // CRC-16/Kermit-with-0xFFFF-init of the bytes "123456789".
    assert_eq!(crc16_ccitt_kermit(b"123456789"), 0x29B1);
    assert_eq!(crc16_ccitt_kermit(b""), 0xFFFF);
}

#[test]
fn repeated_tag_takes_last_value() {
    let body = "0002015904AAAA5904BBBB6304";
    let crc = crc16_ccitt_kermit(body.as_bytes());
    let full = format!("{}{:04X}", body, crc);
    let parsed = EmvData::parse(&full).expect("Should parse");
    assert_eq!(parsed.merchant_name, Some("BBBB".to_string()));
}

#[test]
fn crc_case_flip_fails() {
    // The checksum is compared exactly: replacing an uppercase hex digit
    // of the checksum with its lowercase form is a mismatch.
    let mut tested = 0;
    for body in [
        "0002016304",
        "0002015909SomeMerch6304",
        "00020159045Srg6304",
        "000201520441116304",
    ] {
        let crc = crc16_ccitt_kermit(body.as_bytes());
        let full = format!("{}{:04X}", body, crc);
        let n = full.len();
        let bytes = full.as_bytes();
        for k in 0..4 {
            let c = bytes[n - 4 + k];
            if c.is_ascii_uppercase() {
                let mut t = bytes.to_vec();
                t[n - 4 + k] = c.to_ascii_lowercase();
                let tampered = String::from_utf8(t).unwrap();
                match EmvData::validate_crc(&tampered) {
                    Err(EmvError::InvalidCrc { .. }) => tested += 1,
                    other => panic!("expected a checksum mismatch, got {:?}", other),
                }
            }
        }
    }
    assert!(tested > 0);
}
