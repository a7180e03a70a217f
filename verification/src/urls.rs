use crate::config::GatewayConfig;
use vstd::prelude::*;

verus! {

/// The status-query URL: the base URI, then the fields substituted verbatim.
pub open spec fn spec_status_url(c: GatewayConfig, er: Seq<char>) -> Seq<char> {
    c.mps_api_base_uri@ + "boser?&coempr="@ + c.mps_coempr@ + "&cuenta="@ + c.mps_cuenta@ + "&er="@
        + er
}

/// The cancel URL under the secondary base.
pub open spec fn spec_cancel_url(c: GatewayConfig) -> Seq<char> {
    c.mp_url_base@ + "/instore/qr/seller/collectors/"@ + c.mp_user_id@ + "/pos/"@
        + c.mp_external_pos_id@ + "/orders"@
}

/// The create URL under the secondary base.
pub open spec fn spec_create_url(c: GatewayConfig) -> Seq<char> {
    c.mp_url_base@ + "/instore/qr/seller/collectors/"@ + c.mp_user_id@ + "/stores/"@
        + c.mp_external_store_id@ + "/pos/"@ + c.mp_external_pos_id@ + "/orders"@
}

/// The search URL: bare when no filter is supplied, else the filter passed
/// through verbatim and unescaped as the query string.
pub open spec fn spec_search_url(c: GatewayConfig, filter: Seq<char>) -> Seq<char> {
    if filter.len() == 0 {
        c.mp_url_base@ + "/merchant_orders/search"@
    } else {
        c.mp_url_base@ + "/merchant_orders/search/?"@ + filter
    }
}

/// The notification URL embedded in the create payload.
pub open spec fn spec_notification_url(c: GatewayConfig, er: Seq<char>) -> Seq<char> {
    c.mps_api_base_uri@ + "ipn?coempr="@ + c.mps_coempr@ + "&cuenta="@ + c.mps_cuenta@ + "&docid="@
        + er
}

/// The bearer authorization header value.
pub open spec fn spec_bearer(token: Seq<char>) -> Seq<char> {
    "Bearer "@ + token
}

pub fn status_url(c: &GatewayConfig, er: &str) -> (r: String)
    ensures
        r@ == spec_status_url(*c, er@),
{
    let mut r = String::new();
    r.append(c.mps_api_base_uri.as_str());
    r.append("boser?&coempr=");
    r.append(c.mps_coempr.as_str());
    r.append("&cuenta=");
    r.append(c.mps_cuenta.as_str());
    r.append("&er=");
    r.append(er);
    proof {
        assert(r@ =~= spec_status_url(*c, er@));
    }
    r
}

pub fn cancel_url(c: &GatewayConfig) -> (r: String)
    ensures
        r@ == spec_cancel_url(*c),
{
    let mut r = String::new();
    r.append(c.mp_url_base.as_str());
    r.append("/instore/qr/seller/collectors/");
    r.append(c.mp_user_id.as_str());
    r.append("/pos/");
    r.append(c.mp_external_pos_id.as_str());
    r.append("/orders");
    proof {
        assert(r@ =~= spec_cancel_url(*c));
    }
    r
}

pub fn create_url(c: &GatewayConfig) -> (r: String)
    ensures
        r@ == spec_create_url(*c),
{
    let mut r = String::new();
    r.append(c.mp_url_base.as_str());
    r.append("/instore/qr/seller/collectors/");
    r.append(c.mp_user_id.as_str());
    r.append("/stores/");
    r.append(c.mp_external_store_id.as_str());
    r.append("/pos/");
    r.append(c.mp_external_pos_id.as_str());
    r.append("/orders");
    proof {
        assert(r@ =~= spec_create_url(*c));
    }
    r
}

pub fn search_url(c: &GatewayConfig, filter: &str) -> (r: String)
    ensures
        r@ == spec_search_url(*c, filter@),
{
    let mut r = String::new();
    r.append(c.mp_url_base.as_str());
    if filter.unicode_len() == 0 {
        r.append("/merchant_orders/search");
    } else {
        r.append("/merchant_orders/search/?");
        r.append(filter);
    }
    proof {
        assert(r@ =~= spec_search_url(*c, filter@));
    }
    r
}

pub fn notification_url(c: &GatewayConfig, er: &str) -> (r: String)
    ensures
        r@ == spec_notification_url(*c, er@),
{
    let mut r = String::new();
    r.append(c.mps_api_base_uri.as_str());
    r.append("ipn?coempr=");
    r.append(c.mps_coempr.as_str());
    r.append("&cuenta=");
    r.append(c.mps_cuenta.as_str());
    r.append("&docid=");
    r.append(er);
    proof {
        assert(r@ =~= spec_notification_url(*c, er@));
    }
    r
}

pub fn bearer(token: &str) -> (r: String)
    ensures
        r@ == spec_bearer(token@),
{
    let mut r = String::new();
    r.append("Bearer ");
    r.append(token);
    proof {
        assert(r@ =~= spec_bearer(token@));
    }
    r
}

} // verus!
