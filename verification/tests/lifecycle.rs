use mps_orders::config::GatewayConfig;
use mps_orders::config::PendingOrder;
use mps_orders::dispatch::Command;
use mps_orders::dispatch::dispatch;
use mps_orders::errors::OrderError;
use mps_orders::plan::Method;
use mps_orders::plan::plan_cancel;
use mps_orders::plan::plan_create;
use mps_orders::plan::plan_search;
use mps_orders::plan::plan_status;
use mps_orders::plan::response_outcome;
use mps_orders::timestamp::Timestamp;
use mps_orders::urls::notification_url;
use mps_orders::urls::status_url;

fn sample_config() -> GatewayConfig {
    GatewayConfig {
        mps_api_base_uri: "https://api.example.test/".to_string(),
        mps_coempr: "E77".to_string(),
        mps_cuenta: "C42".to_string(),
        mps_access_token: "tok123".to_string(),
        mp_url_base: "https://gw.example.test".to_string(),
        mp_user_id: "U1".to_string(),
        mp_external_pos_id: "POS9".to_string(),
        mp_external_store_id: "S3".to_string(),
    }
}

fn sample_order() -> PendingOrder {
    PendingOrder {
        external_reference: "ABC123".to_string(),
        total_amount: "100.00".to_string(),
        cash_out: "10.00".to_string(),
    }
}

fn noon() -> Timestamp {
    Timestamp { year: 2024, month: 6, day: 15, hour: 12, minute: 0, second: 0 }
}

fn args(list: &[&str]) -> Vec<String> {
    list.iter().map(|s| s.to_string()).collect()
}

#[test]
fn status_url_is_byte_exact() {
    let url = status_url(&sample_config(), "ABC123");
    assert_eq!(
        url,
        "https://api.example.test/boser?&coempr=E77&cuenta=C42&er=ABC123"
    );
}

#[test]
fn status_plan_removes_artifact_before_the_call() {
    let p = plan_status(&sample_config(), "ABC123").unwrap();
    // the prior artifact is removed before any network effect, and the fresh
    // response lands under the same name
    assert_eq!(p.pre_delete.as_deref(), Some("OrdenGetStatus.json"));
    assert_eq!(p.response_artifact.as_deref(), Some("OrdenGetStatus.json"));
    assert!(p.pre_write.is_none());
    assert_eq!(p.request.method, Method::Get);
    assert!(p.request.body.is_none());
    assert_eq!(p.request.headers.len(), 1);
    assert_eq!(p.request.headers[0].0, "Authorization");
    assert_eq!(p.request.headers[0].1, "Bearer tok123");
}

#[test]
fn status_plan_needs_its_fields() {
    let mut cfg = sample_config();
    cfg.mps_cuenta = String::new();
    assert_eq!(
        plan_status(&cfg, "ABC123").unwrap_err(),
        OrderError::MissingConfigField
    );
}

#[test]
fn cancel_plan_is_a_bare_delete() {
    let p = plan_cancel(&sample_config()).unwrap();
    assert_eq!(p.request.method, Method::Delete);
    assert_eq!(
        p.request.url,
        "https://gw.example.test/instore/qr/seller/collectors/U1/pos/POS9/orders"
    );
    assert_eq!(p.request.headers[0].0, "Accept");
    assert_eq!(p.request.headers[0].1, "application/json");
    assert_eq!(p.request.headers[1].1, "Bearer tok123");
    assert!(p.pre_delete.is_none());
    assert!(p.pre_write.is_none());
    assert!(p.response_artifact.is_none());
}

#[test]
fn search_url_without_filter() {
    let p = plan_search(&sample_config(), "").unwrap();
    assert_eq!(p.request.url, "https://gw.example.test/merchant_orders/search");
    assert_eq!(p.response_artifact.as_deref(), Some("ordenbuscar.json"));
}

#[test]
fn search_url_with_filter_is_verbatim() {
    let p = plan_search(&sample_config(), "status=closed").unwrap();
    assert_eq!(
        p.request.url,
        "https://gw.example.test/merchant_orders/search/?status=closed"
    );
}

#[test]
fn create_plan_shape() {
    let p = plan_create(&sample_config(), &sample_order(), noon()).unwrap();
    assert_eq!(p.request.method, Method::Put);
    assert_eq!(
        p.request.url,
        "https://gw.example.test/instore/qr/seller/collectors/U1/stores/S3/pos/POS9/orders"
    );
    assert_eq!(p.request.headers[0].0, "Content-Type");
    assert_eq!(p.request.headers[0].1, "application/json");
    assert_eq!(p.request.headers[1].1, "Bearer tok123");
    let body = p.request.body.as_deref().unwrap();
    let (name, written) = p.pre_write.as_ref().unwrap();
    // the outbound payload is landed, byte for byte, before transmission
    assert_eq!(name, "oc.json");
    assert_eq!(written, body);
    assert_eq!(p.response_artifact.as_deref(), Some("response.json"));
    assert!(p.pre_delete.is_none());
}

#[test]
fn create_is_idempotent_at_one_instant() {
    let cfg = sample_config();
    let order = sample_order();
    let a = plan_create(&cfg, &order, noon()).unwrap();
    let b = plan_create(&cfg, &order, noon()).unwrap();
    assert_eq!(a.request.url, b.request.url);
    assert_eq!(a.request.body, b.request.body);
    assert_eq!(a.request.headers, b.request.headers);
}

#[test]
fn create_bodies_differ_only_in_expiration() {
    let cfg = sample_config();
    let order = sample_order();
    let t2 = Timestamp { hour: 13, ..noon() };
    let a = plan_create(&cfg, &order, noon()).unwrap().request.body.unwrap();
    let b = plan_create(&cfg, &order, t2).unwrap().request.body.unwrap();
    assert_ne!(a, b);
    let a_sub = a.replace("2024-06-15T13:00:00.000-04:00", "X");
    let b_sub = b.replace("2024-06-15T14:00:00.000-04:00", "X");
    assert_eq!(a_sub, b_sub);
}

#[test]
fn create_rejects_bad_amounts_first() {
    let mut order = sample_order();
    order.cash_out = "ten".to_string();
    let mut cfg = sample_config();
    cfg.mp_user_id = String::new();
    // amounts are checked before configuration fields
    assert_eq!(
        plan_create(&cfg, &order, noon()).unwrap_err(),
        OrderError::InvalidAmount
    );
    assert_eq!(
        plan_create(&cfg, &sample_order(), noon()).unwrap_err(),
        OrderError::MissingConfigField
    );
}

#[test]
fn notification_url_carries_the_reference() {
    let url = notification_url(&sample_config(), "ABC123");
    assert_eq!(
        url,
        "https://api.example.test/ipn?coempr=E77&cuenta=C42&docid=ABC123"
    );
    assert!(url.ends_with("&docid=ABC123"));
}

#[test]
fn dispatch_rejects_wrong_argument_counts() {
    assert_eq!(dispatch(&args(&[])).unwrap_err(), OrderError::UsageError);
    assert_eq!(
        dispatch(&args(&["ORDENBUSCAR", "a", "b"])).unwrap_err(),
        OrderError::UsageError
    );
}

#[test]
fn dispatch_rejects_unknown_keyword() {
    assert_eq!(
        dispatch(&args(&["ORDENFOO"])).unwrap_err(),
        OrderError::UsageError
    );
}

#[test]
fn dispatch_status_needs_its_reference() {
    assert_eq!(
        dispatch(&args(&["ORDENSTATUSER"])).unwrap_err(),
        OrderError::UsageError
    );
    let c = dispatch(&args(&["ORDENSTATUSER", "ABC123"])).unwrap();
    assert!(matches!(c, Command::Status { external_reference } if external_reference == "ABC123"));
}

#[test]
fn dispatch_cancel_and_create() {
    assert!(matches!(
        dispatch(&args(&["ORDENELIMINAR"])).unwrap(),
        Command::Cancel
    ));
    assert!(matches!(
        dispatch(&args(&["ORDENCREAR"])).unwrap(),
        Command::Create
    ));
    assert_eq!(
        dispatch(&args(&["ORDENCREAR", "extra"])).unwrap_err(),
        OrderError::UsageError
    );
}

#[test]
fn dispatch_tolerates_an_empty_second_argument() {
    assert!(matches!(
        dispatch(&args(&["ORDENELIMINAR", ""])).unwrap(),
        Command::Cancel
    ));
    assert!(matches!(
        dispatch(&args(&["ORDENCREAR", ""])).unwrap(),
        Command::Create
    ));
    // an empty reference is no reference
    assert_eq!(
        dispatch(&args(&["ORDENSTATUSER", ""])).unwrap_err(),
        OrderError::UsageError
    );
}

#[test]
fn search_with_empty_filter_argument_uses_the_bare_url() {
    let c = dispatch(&args(&["ORDENBUSCAR", ""])).unwrap();
    let filter = match c {
        Command::Search { filter } => filter,
        _ => panic!("expected a search command"),
    };
    let p = plan_search(&sample_config(), &filter).unwrap();
    assert_eq!(p.request.url, "https://gw.example.test/merchant_orders/search");
}

#[test]
fn dispatch_search_filter_is_optional() {
    let c = dispatch(&args(&["ORDENBUSCAR"])).unwrap();
    assert!(matches!(c, Command::Search { filter } if filter.is_empty()));
    let c = dispatch(&args(&["ORDENBUSCAR", "status=closed"])).unwrap();
    assert!(matches!(c, Command::Search { filter } if filter == "status=closed"));
}

#[test]
fn gateway_reply_classification() {
    assert!(response_outcome(true).is_ok());
    assert_eq!(response_outcome(false).unwrap_err(), OrderError::GatewayError);
}

#[test]
fn error_messages_name_each_failure() {
    assert_eq!(OrderError::UsageError.message(), "usage error");
    assert_eq!(OrderError::InvalidAmount.message(), "amount is not a non-negative decimal");
    assert_eq!(
        OrderError::MissingConfigField.message(),
        "required configuration field is empty"
    );
}
