use mps_orders::config::GatewayConfig;
use mps_orders::decode::decode_root;
use mps_orders::decimal::Decimal;
use mps_orders::decimal::parse_decimal;
use mps_orders::payload::Root;
use mps_orders::payload::build_root;
use mps_orders::payload::encode_root;
use mps_orders::timestamp::Timestamp;

fn sample_config() -> GatewayConfig {
    GatewayConfig {
        mps_api_base_uri: "https://api.example.test/".to_string(),
        mps_coempr: "E77".to_string(),
        mps_cuenta: "C42".to_string(),
        mps_access_token: "tok123".to_string(),
        mp_url_base: "https://gw.example.test".to_string(),
        mp_user_id: "U1".to_string(),
        mp_external_pos_id: "POS9".to_string(),
        mp_external_store_id: "S3".to_string(),
    }
}

fn noon() -> Timestamp {
    Timestamp { year: 2024, month: 6, day: 15, hour: 12, minute: 0, second: 0 }
}

fn sample_root() -> Root {
    let ta = parse_decimal("100.00").unwrap();
    let ca = parse_decimal("10.00").unwrap();
    build_root(&sample_config(), "ABC123", ta, ca, noon())
}

fn decimal_value(d: Decimal) -> f64 {
    d.mantissa as f64 / 10f64.powi(d.scale as i32)
}

#[test]
fn built_payload_totals_and_notification() {
    let r = sample_root();
    assert_eq!(r.total_amount, Decimal { mantissa: 11000, scale: 2 });
    assert_eq!(r.total_amount.format(), "110.00");
    assert!(r.notification_url.ends_with("&docid=ABC123"));
    assert_eq!(r.external_reference, "ABC123");
    assert_eq!(r.items.len(), 1);
    assert_eq!(r.items[0].unit_price.format(), "100.00");
    assert_eq!(r.items[0].total_amount.format(), "100.00");
    assert_eq!(r.items[0].quantity, 1);
    assert_eq!(r.cash_out.amount.format(), "10.00");
    assert_eq!(r.expiration_date, "2024-06-15T13:00:00.000-04:00");
}

#[test]
fn encoded_payload_is_the_expected_json() {
    let r = sample_root();
    let s = encode_root(&r);
    let expected = "{\"external_reference\":\"ABC123\",\"notification_url\":\"https://api.example.test/ipn?coempr=E77&cuenta=C42&docid=ABC123\",\"title\":\"Orden Crear\",\"description\":\"Orden Crear\",\"expiration_date\":\"2024-06-15T13:00:00.000-04:00\",\"total_amount\":110.00,\"items\":[{\"sku_number\":\"SKU123456\",\"category\":\"FOOD\",\"title\":\"Item1\",\"description\":\"Item1 Mercado Pago\",\"unit_price\":100.00,\"quantity\":1,\"unit_measure\":\"unit\",\"total_amount\":100.00}],\"cash_out\":{\"amount\":10.00}}";
    assert_eq!(s, expected);
}

#[test]
fn payload_round_trips_through_a_json_parser() {
    let r = sample_root();
    let s = encode_root(&r);
    let v: serde_json::Value = serde_json::from_str(&s).expect("payload is valid JSON");
    assert_eq!(v["external_reference"].as_str().unwrap(), r.external_reference);
    assert_eq!(v["notification_url"].as_str().unwrap(), r.notification_url);
    assert_eq!(v["title"].as_str().unwrap(), r.title);
    assert_eq!(v["description"].as_str().unwrap(), r.description);
    assert_eq!(v["expiration_date"].as_str().unwrap(), r.expiration_date);
    assert_eq!(v["total_amount"].as_f64().unwrap(), decimal_value(r.total_amount));
    let items = v["items"].as_array().unwrap();
    assert_eq!(items.len(), r.items.len());
    let it = &items[0];
    let orig = &r.items[0];
    assert_eq!(it["sku_number"].as_str().unwrap(), orig.sku_number);
    assert_eq!(it["category"].as_str().unwrap(), orig.category);
    assert_eq!(it["title"].as_str().unwrap(), orig.title);
    assert_eq!(it["description"].as_str().unwrap(), orig.description);
    assert_eq!(it["unit_price"].as_f64().unwrap(), decimal_value(orig.unit_price));
    assert_eq!(it["quantity"].as_i64().unwrap(), orig.quantity as i64);
    assert_eq!(it["unit_measure"].as_str().unwrap(), orig.unit_measure);
    assert_eq!(it["total_amount"].as_f64().unwrap(), decimal_value(orig.total_amount));
    assert_eq!(v["cash_out"]["amount"].as_f64().unwrap(), decimal_value(r.cash_out.amount));
}

#[test]
fn payload_round_trips_through_the_library_decoder() {
    let r = sample_root();
    let s = encode_root(&r);
    let back = decode_root(&s).expect("own encoding is accepted");
    assert_eq!(back, r);
}

#[test]
fn tricky_payload_round_trips_through_the_library_decoder() {
    let ta = parse_decimal("0.01").unwrap();
    let ca = parse_decimal("3").unwrap();
    let tricky = "a\"b\\c\u{1f}d\u{0}";
    let r = build_root(&sample_config(), tricky, ta, ca, noon());
    let s = encode_root(&r);
    let back = decode_root(&s).expect("escaped encoding is accepted");
    assert_eq!(back, r);
    assert_eq!(back.external_reference, tricky);
}

#[test]
fn decoder_rejects_foreign_renderings() {
    // a reordered or reformatted document is not this library's encoding
    assert!(decode_root("{}").is_none());
    let r = sample_root();
    let s = encode_root(&r);
    let padded = s.replace("110.00", "0110.00");
    assert!(decode_root(&padded).is_none());
    let truncated = &s[..s.len() - 1];
    assert!(decode_root(truncated).is_none());
}

#[test]
fn payload_equality_is_field_by_field() {
    let a = sample_root();
    let b = sample_root();
    assert_eq!(a, b);
    let mut c = sample_root();
    c.cash_out.amount = parse_decimal("10.01").unwrap();
    assert_ne!(a, c);
    let mut d = sample_root();
    d.items[0].quantity = 2;
    assert_ne!(a, d);
}

#[test]
fn escaping_survives_a_json_parser() {
    let ta = parse_decimal("1.00").unwrap();
    let ca = parse_decimal("0.00").unwrap();
    let tricky = "he said \"hi\\there\"\u{1}\ttail";
    let r = build_root(&sample_config(), tricky, ta, ca, noon());
    let s = encode_root(&r);
    let v: serde_json::Value = serde_json::from_str(&s).expect("escaped payload is valid JSON");
    assert_eq!(v["external_reference"].as_str().unwrap(), tricky);
}
