//! Data types exchanged with the DNS provider's HTTP API.
//!
//! The update decision interprets only `content`, `record_type`, `locked`
//! and `id` of a record; the remaining fields are carried through
//! unchanged, so that a record can be written back exactly as it was
//! fetched.

use vstd::prelude::*;

verus! {

/// One DNS record of a provider-side zone.
pub struct DnsRecord {
    pub content: String,
    pub name: String,
    pub proxied: bool,
    pub record_type: String,
    pub created_on: String,
    pub id: String,
    pub locked: bool,
    pub modified_on: String,
    pub proxiable: bool,
    pub tags: Vec<String>,
    pub ttl: u32,
    pub zone_id: String,
    pub zone_name: String,
}

/// The envelope of a record-list response from the provider.
pub struct ApiResponse {
    pub errors: Vec<String>,
    pub messages: Vec<String>,
    pub success: bool,
    pub result: Vec<DnsRecord>,
    pub result_info: ResultInfo,
}

/// Paging counters of a record-list response.
pub struct ResultInfo {
    pub count: u32,
    pub page: u32,
    pub per_page: u32,
    pub total_count: u32,
}

} // verus!
