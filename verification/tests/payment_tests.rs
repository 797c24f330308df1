//! Payment parsing over the URL, pipe-delimited and EMV grammars.

use qr_core::{ContentType, PaymentFormat, PaymentParser};

#[test]
fn test_sbp_parsing() {
    let parser = PaymentParser::new();
    let content = "https://qr.nspk.ru/AS10001234567890ABCDEF?type=02&bank=100000000001&sum=10000&cur=RUB";

    let result = parser.parse(content).unwrap();
    assert_eq!(result.format, PaymentFormat::SbpRussia);
    assert_eq!(result.amount.map(|a| a as f64 / 100.0), Some(100.0));
    assert_eq!(result.currency, Some("RUB".to_string()));
}

#[test]
fn test_st_parsing() {
    let parser = PaymentParser::new();
    let content = "ST.00012|Name=ООО Тест|PersonalAcc=40817810099910004312|BIC=044525225|Sum=100000";

    let result = parser.parse(content).unwrap();
    assert_eq!(result.format, PaymentFormat::StRussia);
    assert_eq!(result.payee_name, Some("ООО Тест".to_string()));
    assert_eq!(result.amount.map(|a| a as f64 / 100.0), Some(1000.0));
}

#[test]
fn payment_test_relevance_score() {
    let parser = PaymentParser::new();

    assert_eq!(parser.relevance_score("https://qr.nspk.ru/test") as f64 / 100.0, 1.0);
    assert!((parser.relevance_score("Hello World") as f64 / 100.0) < 0.1);
    assert!((parser.relevance_score("Оплата заказа") as f64 / 100.0) > 0.5);
}

#[test]
fn integration_test_relevance_score() {
    let parser = PaymentParser::new();

    assert_eq!(parser.relevance_score("https://qr.nspk.ru/test") as f64 / 100.0, 1.0);
    assert!((parser.relevance_score("https://google.com") as f64 / 100.0) < 0.1);
    assert!((parser.relevance_score("Оплата заказа #123") as f64 / 100.0) > 0.5);
    assert!((parser.relevance_score("Привет мир!") as f64 / 100.0) < 0.1);
}

#[test]
fn test_sbp_payment_parsing() {
    let parser = PaymentParser::new();

    let sbp_url = "https://qr.nspk.ru/AS10001234567890?type=02&bank=100000000001&sum=15000&cur=RUB";
    let result = parser.parse(sbp_url);

    assert!(result.is_some());
    let payment = result.unwrap();

    assert_eq!(payment.format, PaymentFormat::SbpRussia);
    assert_eq!(payment.amount.map(|a| a as f64 / 100.0), Some(150.0));
    assert_eq!(payment.currency, Some("RUB".to_string()));
}

#[test]
fn test_st_payment_parsing() {
    let parser = PaymentParser::new();

    let st_content = "ST.00012|Name=ООО Рога и Копыта|PersonalAcc=40702810099990001234|BankName=ПАО Сбербанк|BIC=044525225|Sum=250000|Purpose=Оплата по счёту 123";
    let result = parser.parse(st_content);

    assert!(result.is_some());
    let payment = result.unwrap();

    assert_eq!(payment.format, PaymentFormat::StRussia);
    assert_eq!(payment.payee_name, Some("ООО Рога и Копыта".to_string()));
    assert_eq!(payment.account, Some("40702810099990001234".to_string()));
    assert_eq!(payment.bic, Some("044525225".to_string()));
    assert_eq!(payment.amount.map(|a| a as f64 / 100.0), Some(2500.0));
    assert_eq!(payment.purpose, Some("Оплата по счёту 123".to_string()));
}

#[test]
fn sbp_scenario_classify_and_amount() {
    let text = "https://qr.nspk.ru/AS1?sum=10000&cur=RUB";
    assert_eq!(ContentType::detect(text), ContentType::Payment);

    let parser = PaymentParser::new();
    let payment = parser.parse(text).unwrap();
    assert_eq!(payment.amount.map(|a| a as f64 / 100.0), Some(100.0));
    assert_eq!(payment.currency, Some("RUB".to_string()));
}

#[test]
fn st_scenario_fields() {
    let parser = PaymentParser::new();
    let payment = parser
        .parse("ST.00012|Name=Acme|PersonalAcc=123|BIC=044525225|Sum=250000")
        .unwrap();
    assert_eq!(payment.payee_name, Some("Acme".to_string()));
    assert_eq!(payment.amount.map(|a| a as f64 / 100.0), Some(2500.0));
    assert_eq!(payment.account, Some("123".to_string()));
    assert_eq!(payment.bic, Some("044525225".to_string()));
}

#[test]
fn sbp_url_decoded_name() {
    let parser = PaymentParser::new();
    let payment = parser
        .parse("https://qr.nspk.ru/AS1?name=Acme%20Inc&sum=5000")
        .unwrap();
    assert_eq!(payment.payee_name, Some("Acme Inc".to_string()));
    assert_eq!(payment.amount, Some(5000));
    assert_eq!(payment.payee_id, Some("AS1".to_string()));
}

#[test]
fn sbp_extra_and_invalid_sum() {
    let parser = PaymentParser::new();
    let payment = parser
        .parse("https://qr.nspk.ru/AS1?foo=bar&sum=notanumber")
        .unwrap();
    assert_eq!(payment.amount, None);
    assert_eq!(
        payment.extra.iter().find(|kv| kv.0 == "foo").map(|kv| kv.1.clone()),
        Some("bar".to_string())
    );
}

#[test]
fn emv_payment_fields() {
    let parser = PaymentParser::new();
    // Tag 00 (format indicator), 53 (currency 643 = RUB), 54 (amount in
    // minor units), 59 (merchant name), 62 (additional data, padding the
    // payload past the EMV length gate).
    let content = format!(
        "{}{}{}{}{}",
        "000201", "5303643", "540520000", "5909SomeMerch", "621400000000000000"
    );
    assert!(content.starts_with("00") && content.len() > 50);
    let payment = parser.parse(&content).unwrap();
    assert_eq!(payment.format, PaymentFormat::EmvQR);
    assert_eq!(payment.currency, Some("RUB".to_string()));
    assert_eq!(payment.amount, Some(20000));
    assert_eq!(payment.payee_name, Some("SomeMerch".to_string()));
}

#[test]
fn currency_code_mapping() {
    let parser = PaymentParser::new();
    assert_eq!(parser.currency_code_to_string("643"), "RUB");
    assert_eq!(parser.currency_code_to_string("840"), "USD");
    assert_eq!(parser.currency_code_to_string("978"), "EUR");
    assert_eq!(parser.currency_code_to_string("156"), "CNY");
    assert_eq!(parser.currency_code_to_string("392"), "JPY");
    assert_eq!(parser.currency_code_to_string("826"), "GBP");
    assert_eq!(parser.currency_code_to_string("999"), "999");
}

#[test]
fn non_payment_text_yields_nothing() {
    let parser = PaymentParser::new();
    assert!(parser.parse("just some text").is_none());
    assert!(parser.parse("https://example.com/?sum=100").is_none());
}

#[test]
fn st_keys_are_case_sensitive() {
    let parser = PaymentParser::new();
    let payment = parser.parse("ST.00012|name=lower|Name=Exact").unwrap();
    assert_eq!(payment.payee_name, Some("Exact".to_string()));
    assert_eq!(
        payment.extra.iter().find(|kv| kv.0 == "name").map(|kv| kv.1.clone()),
        Some("lower".to_string())
    );
}

#[test]
fn sbp_repeated_param_takes_last() {
    let parser = PaymentParser::new();
    let payment = parser
        .parse("https://qr.nspk.ru/AS1?sum=100&sum=200&cur=USD&cur=KZT")
        .unwrap();
    assert_eq!(payment.amount, Some(200));
    assert_eq!(payment.currency, Some("KZT".to_string()));
}
