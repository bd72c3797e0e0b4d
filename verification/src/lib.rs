//! Core logic for a dynamic-DNS updater.
//!
//! The crate keeps selected DNS address records in step with a changing
//! public IPv4 address.  It provides zone identifiers with a canonical
//! hexadecimal text form, an IPv4 value type with strict dotted-quad text,
//! a watcher that tracks the last confirmed public IP across polling
//! cycles, and the per-record decision of whether a record must be
//! updated, left alone, or reported as an error.  All network traffic is
//! left to the caller: the functions here take fetched text and record
//! lists as plain values and say exactly what they decide about them.

pub mod cf_types;
pub mod digits;
pub mod dynamic_dns;
pub mod ip_change_watcher;
pub mod ipv4;
pub mod zone_id;
