use vstd::prelude::*;

verus! {

/// The gateway credentials and endpoint descriptor, loaded once per
/// invocation from the well-known configuration file. Every field an
/// operation interpolates must be non-empty; the operation builders report
/// `MissingConfigField` otherwise.
pub struct GatewayConfig {
    pub mps_api_base_uri: String,
    pub mps_coempr: String,
    pub mps_cuenta: String,
    pub mps_access_token: String,
    pub mp_url_base: String,
    pub mp_user_id: String,
    pub mp_external_pos_id: String,
    pub mp_external_store_id: String,
}

/// The order-to-create descriptor, loaded from the well-known pending-order
/// file for the create operation only. Both amount fields must be
/// non-negative decimal strings.
pub struct PendingOrder {
    pub external_reference: String,
    pub total_amount: String,
    pub cash_out: String,
}

/// The fields the status query interpolates: base URI, enterprise, account
/// and the access token.
pub open spec fn status_fields_present(c: GatewayConfig) -> bool {
    &&& c.mps_api_base_uri@.len() > 0
    &&& c.mps_coempr@.len() > 0
    &&& c.mps_cuenta@.len() > 0
    &&& c.mps_access_token@.len() > 0
}

/// The fields the cancel operation interpolates: secondary base, user, POS
/// and the access token.
pub open spec fn cancel_fields_present(c: GatewayConfig) -> bool {
    &&& c.mp_url_base@.len() > 0
    &&& c.mp_user_id@.len() > 0
    &&& c.mp_external_pos_id@.len() > 0
    &&& c.mps_access_token@.len() > 0
}

/// The create operation interpolates every configuration field.
pub open spec fn create_fields_present(c: GatewayConfig) -> bool {
    &&& c.mps_api_base_uri@.len() > 0
    &&& c.mps_coempr@.len() > 0
    &&& c.mps_cuenta@.len() > 0
    &&& c.mps_access_token@.len() > 0
    &&& c.mp_url_base@.len() > 0
    &&& c.mp_user_id@.len() > 0
    &&& c.mp_external_pos_id@.len() > 0
    &&& c.mp_external_store_id@.len() > 0
}

/// The fields the search operation interpolates: secondary base and token.
pub open spec fn search_fields_present(c: GatewayConfig) -> bool {
    &&& c.mp_url_base@.len() > 0
    &&& c.mps_access_token@.len() > 0
}

impl GatewayConfig {
    pub fn has_status_fields(&self) -> (r: bool)
        ensures
            r == status_fields_present(*self),
    {
        !self.mps_api_base_uri.as_str().is_empty() && !self.mps_coempr.as_str().is_empty()
            && !self.mps_cuenta.as_str().is_empty() && !self.mps_access_token.as_str().is_empty()
    }

    pub fn has_cancel_fields(&self) -> (r: bool)
        ensures
            r == cancel_fields_present(*self),
    {
        !self.mp_url_base.as_str().is_empty() && !self.mp_user_id.as_str().is_empty()
            && !self.mp_external_pos_id.as_str().is_empty()
            && !self.mps_access_token.as_str().is_empty()
    }

    pub fn has_create_fields(&self) -> (r: bool)
        ensures
            r == create_fields_present(*self),
    {
        self.has_status_fields() && !self.mp_url_base.as_str().is_empty()
            && !self.mp_user_id.as_str().is_empty() && !self.mp_external_pos_id.as_str().is_empty()
            && !self.mp_external_store_id.as_str().is_empty()
    }

    pub fn has_search_fields(&self) -> (r: bool)
        ensures
            r == search_fields_present(*self),
    {
        !self.mp_url_base.as_str().is_empty() && !self.mps_access_token.as_str().is_empty()
    }
}

/// The well-known path of the gateway configuration file.
pub fn config_file_name() -> (r: &'static str)
    ensures
        r@ == "mpsconfig.json"@,
{
    "mpsconfig.json"
}

/// The well-known path of the pending-order file.
pub fn pending_order_file_name() -> (r: &'static str)
    ensures
        r@ == "ordencrear.json"@,
{
    "ordencrear.json"
}

} // verus!
