use crate::config::GatewayConfig;
use crate::config::PendingOrder;
use crate::config::cancel_fields_present;
use crate::config::create_fields_present;
use crate::config::search_fields_present;
use crate::config::status_fields_present;
use crate::decimal::Decimal;
use crate::decimal::parse_decimal;
use crate::decimal::spec_add;
use crate::decimal::spec_parse_decimal;
use crate::errors::OrderError;
use crate::payload::Root;
use crate::payload::build_root;
use crate::payload::encode_root;
use crate::payload::json_escape;
use crate::payload::spec_item_json;
use crate::payload::spec_items_json;
use crate::payload::spec_root_json;
use crate::timestamp::Timestamp;
use crate::urls::bearer;
use crate::urls::cancel_url;
use crate::urls::create_url;
use crate::urls::search_url;
use crate::urls::spec_bearer;
use crate::urls::spec_cancel_url;
use crate::urls::spec_create_url;
use crate::urls::spec_notification_url;
use crate::urls::spec_search_url;
use crate::urls::spec_status_url;
use crate::urls::status_url;
use vstd::prelude::*;

verus! {

/// The HTTP verb of an operation's single exchange.
#[derive(Clone, Copy, Debug, PartialEq, Eq, Structural)]
pub enum Method {
    Get,
    Delete,
    Put,
}

/// One fully-formed outbound request: verb, URL, headers and optional body.
#[derive(Debug)]
pub struct HttpRequest {
    pub method: Method,
    pub url: String,
    pub headers: Vec<(String, String)>,
    pub body: Option<String>,
}

/// Everything one operation does, decided before any side effect happens:
/// which artifact to remove beforehand, which artifact to write before the
/// exchange, the request itself, and where to land the response.
#[derive(Debug)]
pub struct Plan {
    /// Artifact removed before the network call, so a failed call never
    /// leaves stale output.
    pub pre_delete: Option<String>,
    /// Artifact (name, contents) written before transmission.
    pub pre_write: Option<(String, String)>,
    pub request: HttpRequest,
    /// Artifact the response body is written to, when the operation
    /// persists it.
    pub response_artifact: Option<String>,
}

/// Whether both pending-order amounts parse and their sum is representable.
pub open spec fn create_amounts_ok(o: PendingOrder) -> bool {
    &&& spec_parse_decimal(o.total_amount@) is Some
    &&& spec_parse_decimal(o.cash_out@) is Some
    &&& spec_add(
        spec_parse_decimal(o.total_amount@)->Some_0,
        spec_parse_decimal(o.cash_out@)->Some_0,
    ) is Some
}

/// The create payload's text before the expiration timestamp.
pub open spec fn spec_body_before_exp(er: Seq<char>, notif: Seq<char>) -> Seq<char> {
    "{\"external_reference\":\""@ + json_escape(er) + "\",\"notification_url\":\""@ + json_escape(
        notif,
    ) + "\",\"title\":\""@ + json_escape("Orden Crear"@) + "\",\"description\":\""@ + json_escape(
        "Orden Crear"@,
    ) + "\",\"expiration_date\":\""@
}

/// The create payload's text after the expiration timestamp: the derived
/// total, the one synthetic item, and the cash-out sub-object.
pub open spec fn spec_body_after_exp(ta: Decimal, ca: Decimal, total: Decimal) -> Seq<char> {
    "\",\"total_amount\":"@ + total.spec_format() + ",\"items\":["@ + ("{\"sku_number\":\""@
        + json_escape("SKU123456"@) + "\",\"category\":\""@ + json_escape("FOOD"@)
        + "\",\"title\":\""@ + json_escape("Item1"@) + "\",\"description\":\""@ + json_escape(
        "Item1 Mercado Pago"@,
    ) + "\",\"unit_price\":"@ + ta.spec_format() + ",\"quantity\":"@ + crate::digits::dec_str(1)
        + ",\"unit_measure\":\""@ + json_escape("unit"@) + "\",\"total_amount\":"@
        + ta.spec_format() + "}"@) + "],\"cash_out\":{\"amount\":"@ + ca.spec_format() + "}}"@
}

/// The entire create payload for the given configuration, pending order and
/// instant: only the expiration timestamp depends on the instant.
pub open spec fn spec_create_body(c: GatewayConfig, o: PendingOrder, now: Timestamp) -> Seq<
    char,
> {
    let ta = spec_parse_decimal(o.total_amount@)->Some_0;
    let ca = spec_parse_decimal(o.cash_out@)->Some_0;
    let total = spec_add(ta, ca)->Some_0;
    spec_body_before_exp(o.external_reference@, spec_notification_url(c, o.external_reference@))
        + json_escape(now.spec_plus_one_hour().spec_format()) + spec_body_after_exp(
        ta,
        ca,
        total,
    )
}

/// A payload of the synthetic create shape serializes to exactly the parts
/// `spec_create_body` assembles.
proof fn lemma_root_json_is_body_parts(r: Root, c: GatewayConfig, o: PendingOrder, ta: Decimal, ca: Decimal, now: Timestamp)
    requires
        r.external_reference@ == o.external_reference@,
        r.notification_url@ == spec_notification_url(c, o.external_reference@),
        r.title@ == "Orden Crear"@,
        r.description@ == "Orden Crear"@,
        r.expiration_date@ == now.spec_plus_one_hour().spec_format(),
        Some(r.total_amount) == spec_add(ta, ca),
        r.items@.len() == 1,
        r.items@[0].sku_number@ == "SKU123456"@,
        r.items@[0].category@ == "FOOD"@,
        r.items@[0].title@ == "Item1"@,
        r.items@[0].description@ == "Item1 Mercado Pago"@,
        r.items@[0].unit_price == ta,
        r.items@[0].quantity == 1,
        r.items@[0].unit_measure@ == "unit"@,
        r.items@[0].total_amount == ta,
        r.cash_out.amount == ca,
        spec_parse_decimal(o.total_amount@) is Some,
        spec_parse_decimal(o.cash_out@) is Some,
        ta == spec_parse_decimal(o.total_amount@)->Some_0,
        ca == spec_parse_decimal(o.cash_out@)->Some_0,
    ensures
        spec_root_json(r) == spec_create_body(c, o, now),
{
    assert(spec_items_json(r.items@) == spec_item_json(r.items@[0]));
    assert(spec_item_json(r.items@[0]) == "{\"sku_number\":\""@ + json_escape("SKU123456"@)
        + "\",\"category\":\""@ + json_escape("FOOD"@) + "\",\"title\":\""@ + json_escape("Item1"@)
        + "\",\"description\":\""@ + json_escape("Item1 Mercado Pago"@) + "\",\"unit_price\":"@
        + ta.spec_format() + ",\"quantity\":"@ + crate::digits::dec_str(1) + ",\"unit_measure\":\""@
        + json_escape("unit"@) + "\",\"total_amount\":"@ + ta.spec_format() + "}"@);
    assert(spec_root_json(r) =~= spec_create_body(c, o, now));
}

/// Builds the status-query plan: removes the prior artifact first, then a
/// GET with bearer authorization, and the response landed to the artifact.
pub fn plan_status(cfg: &GatewayConfig, er: &str) -> (r: Result<Plan, OrderError>)
    ensures
        r is Ok <==> status_fields_present(*cfg),
        r is Err ==> r->Err_0 == OrderError::MissingConfigField,
        r is Ok ==> ({
            let p = r->Ok_0;
            &&& p.request.method == Method::Get
            &&& p.request.url@ == spec_status_url(*cfg, er@)
            &&& p.request.headers@.len() == 1
            &&& p.request.headers@[0].0@ == "Authorization"@
            &&& p.request.headers@[0].1@ == spec_bearer(cfg.mps_access_token@)
            &&& p.request.body is None
            &&& p.pre_delete matches Some(d) && d@ == "OrdenGetStatus.json"@
            &&& p.pre_write is None
            &&& p.response_artifact matches Some(a) && a@ == "OrdenGetStatus.json"@
        }),
{
    if !cfg.has_status_fields() {
        return Err(OrderError::MissingConfigField);
    }
    let url = status_url(cfg, er);
    let auth = bearer(cfg.mps_access_token.as_str());
    let mut headers: Vec<(String, String)> = Vec::new();
    headers.push((String::from_str("Authorization"), auth));
    Ok(
        Plan {
            pre_delete: Some(String::from_str("OrdenGetStatus.json")),
            pre_write: None,
            request: HttpRequest { method: Method::Get, url, headers, body: None },
            response_artifact: Some(String::from_str("OrdenGetStatus.json")),
        },
    )
}

/// Builds the cancel plan: a DELETE with Accept and bearer headers; the
/// response is not persisted.
pub fn plan_cancel(cfg: &GatewayConfig) -> (r: Result<Plan, OrderError>)
    ensures
        r is Ok <==> cancel_fields_present(*cfg),
        r is Err ==> r->Err_0 == OrderError::MissingConfigField,
        r is Ok ==> ({
            let p = r->Ok_0;
            &&& p.request.method == Method::Delete
            &&& p.request.url@ == spec_cancel_url(*cfg)
            &&& p.request.headers@.len() == 2
            &&& p.request.headers@[0].0@ == "Accept"@
            &&& p.request.headers@[0].1@ == "application/json"@
            &&& p.request.headers@[1].0@ == "Authorization"@
            &&& p.request.headers@[1].1@ == spec_bearer(cfg.mps_access_token@)
            &&& p.request.body is None
            &&& p.pre_delete is None
            &&& p.pre_write is None
            &&& p.response_artifact is None
        }),
{
    if !cfg.has_cancel_fields() {
        return Err(OrderError::MissingConfigField);
    }
    let url = cancel_url(cfg);
    let auth = bearer(cfg.mps_access_token.as_str());
    let mut headers: Vec<(String, String)> = Vec::new();
    headers.push((String::from_str("Accept"), String::from_str("application/json")));
    headers.push((String::from_str("Authorization"), auth));
    Ok(
        Plan {
            pre_delete: None,
            pre_write: None,
            request: HttpRequest { method: Method::Delete, url, headers, body: None },
            response_artifact: None,
        },
    )
}

/// Builds the search plan: a GET whose URL carries the filter verbatim, and
/// the response landed to the search artifact.
pub fn plan_search(cfg: &GatewayConfig, filter: &str) -> (r: Result<Plan, OrderError>)
    ensures
        r is Ok <==> search_fields_present(*cfg),
        r is Err ==> r->Err_0 == OrderError::MissingConfigField,
        r is Ok ==> ({
            let p = r->Ok_0;
            &&& p.request.method == Method::Get
            &&& p.request.url@ == spec_search_url(*cfg, filter@)
            &&& p.request.headers@.len() == 2
            &&& p.request.headers@[0].0@ == "Content-Type"@
            &&& p.request.headers@[0].1@ == "application/json"@
            &&& p.request.headers@[1].0@ == "Authorization"@
            &&& p.request.headers@[1].1@ == spec_bearer(cfg.mps_access_token@)
            &&& p.request.body is None
            &&& p.pre_delete is None
            &&& p.pre_write is None
            &&& p.response_artifact matches Some(a) && a@ == "ordenbuscar.json"@
        }),
{
    if !cfg.has_search_fields() {
        return Err(OrderError::MissingConfigField);
    }
    let url = search_url(cfg, filter);
    let auth = bearer(cfg.mps_access_token.as_str());
    let mut headers: Vec<(String, String)> = Vec::new();
    headers.push((String::from_str("Content-Type"), String::from_str("application/json")));
    headers.push((String::from_str("Authorization"), auth));
    Ok(
        Plan {
            pre_delete: None,
            pre_write: None,
            request: HttpRequest { method: Method::Get, url, headers, body: None },
            response_artifact: Some(String::from_str("ordenbuscar.json")),
        },
    )
}

/// Builds the create plan: the serialized payload is written to the outbound
/// artifact before transmission, sent by an idempotent PUT, and the response
/// landed to its own artifact. Amounts are checked before configuration
/// fields, as the loaders run in that order.
pub fn plan_create(cfg: &GatewayConfig, order: &PendingOrder, now: Timestamp) -> (r: Result<
    Plan,
    OrderError,
>)
    requires
        now.wf(),
        now.year <= 9998,
    ensures
        r is Ok <==> create_amounts_ok(*order) && create_fields_present(*cfg),
        r is Err ==> (r->Err_0 == OrderError::InvalidAmount <==> !create_amounts_ok(*order)),
        r is Err ==> (r->Err_0 == OrderError::MissingConfigField <==> (create_amounts_ok(*order)
            && !create_fields_present(*cfg))),
        r is Ok ==> ({
            let p = r->Ok_0;
            &&& p.request.method == Method::Put
            &&& p.request.url@ == spec_create_url(*cfg)
            &&& p.request.headers@.len() == 2
            &&& p.request.headers@[0].0@ == "Content-Type"@
            &&& p.request.headers@[0].1@ == "application/json"@
            &&& p.request.headers@[1].0@ == "Authorization"@
            &&& p.request.headers@[1].1@ == spec_bearer(cfg.mps_access_token@)
            &&& p.request.body matches Some(b) && b@ == spec_create_body(*cfg, *order, now)
            &&& p.pre_write matches Some(w) && w.0@ == "oc.json"@ && w.1@ == spec_create_body(
                *cfg,
                *order,
                now,
            )
            &&& p.pre_delete is None
            &&& p.response_artifact matches Some(a) && a@ == "response.json"@
        }),
{
    let ta = match parse_decimal(order.total_amount.as_str()) {
        Some(d) => d,
        None => {
            return Err(OrderError::InvalidAmount);
        },
    };
    let ca = match parse_decimal(order.cash_out.as_str()) {
        Some(d) => d,
        None => {
            return Err(OrderError::InvalidAmount);
        },
    };
    if ta.add_exact(ca).is_none() {
        return Err(OrderError::InvalidAmount);
    }
    if !cfg.has_create_fields() {
        return Err(OrderError::MissingConfigField);
    }
    let root = build_root(cfg, order.external_reference.as_str(), ta, ca, now);
    let body = encode_root(&root);
    proof {
        lemma_root_json_is_body_parts(root, *cfg, *order, ta, ca, now);
    }
    let body_copy = body.clone();
    let url = create_url(cfg);
    let auth = bearer(cfg.mps_access_token.as_str());
    let mut headers: Vec<(String, String)> = Vec::new();
    headers.push((String::from_str("Content-Type"), String::from_str("application/json")));
    headers.push((String::from_str("Authorization"), auth));
    Ok(
        Plan {
            pre_delete: None,
            pre_write: Some((String::from_str("oc.json"), body_copy)),
            request: HttpRequest { method: Method::Put, url, headers, body: Some(body) },
            response_artifact: Some(String::from_str("response.json")),
        },
    )
}

/// Classifies the gateway's reply once its body has been landed: a
/// non-success status is surfaced as `GatewayError`, the body itself is
/// never reinterpreted.
pub fn response_outcome(status_ok: bool) -> (r: Result<(), OrderError>)
    ensures
        r is Ok <==> status_ok,
        !status_ok ==> r->Err_0 == OrderError::GatewayError,
{
    if status_ok {
        Ok(())
    } else {
        Err(OrderError::GatewayError)
    }
}

/// Two create payloads built from the same configuration and pending order
/// differ at most in the expiration timestamp: both are the same prefix, then
/// the escaped timestamp, then the same suffix. Built at the same instant,
/// they are byte-identical.
pub proof fn lemma_create_body_varies_only_in_expiration(c: GatewayConfig, o: PendingOrder, t1: Timestamp, t2: Timestamp)
    ensures
        ({
            let ta = spec_parse_decimal(o.total_amount@)->Some_0;
            let ca = spec_parse_decimal(o.cash_out@)->Some_0;
            let total = spec_add(ta, ca)->Some_0;
            let before = spec_body_before_exp(
                o.external_reference@,
                spec_notification_url(c, o.external_reference@),
            );
            let after = spec_body_after_exp(ta, ca, total);
            &&& spec_create_body(c, o, t1) == before + json_escape(
                t1.spec_plus_one_hour().spec_format(),
            ) + after
            &&& spec_create_body(c, o, t2) == before + json_escape(
                t2.spec_plus_one_hour().spec_format(),
            ) + after
        }),
        t1 == t2 ==> spec_create_body(c, o, t1) == spec_create_body(c, o, t2),
{
}

} // verus!
