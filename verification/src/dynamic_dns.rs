//! The per-record update decision and its application to a zone's records.
//!
//! `maybe_update_dns_record` is the heart of the updater: it looks at one
//! DNS record and the current public IP and decides whether the record
//! must be rewritten, left alone, or reported as unreadable.  Only address
//! records that are not locked are ever touched, and the one mutation is
//! writing the current IP's dotted-quad text into `content`.

use crate::cf_types::DnsRecord;
use crate::ipv4::{ipv4_text, is_ipv4_text, lemma_ipv4_text_injective, parse_ipv4, Ipv4};
use vstd::prelude::*;
use vstd::string::StringExecFns;

verus! {

/// What the decision said about one record.
#[derive(PartialEq, Eq, Structural, Debug)]
pub enum DnsRecordAction {
    /// The record was stale and its content was rewritten to the target IP.
    Updated,
    /// The record needs no change, or must not be changed.
    Noop,
    /// The record's content could not be read as an IPv4 address.
    Error,
}

/// True when the two records agree on every field except `content`.
pub open spec fn same_but_content(pre: DnsRecord, post: DnsRecord) -> bool {
    &&& post.name == pre.name
    &&& post.proxied == pre.proxied
    &&& post.record_type == pre.record_type
    &&& post.created_on == pre.created_on
    &&& post.id == pre.id
    &&& post.locked == pre.locked
    &&& post.modified_on == pre.modified_on
    &&& post.proxiable == pre.proxiable
    &&& post.tags == pre.tags
    &&& post.ttl == pre.ttl
    &&& post.zone_id == pre.zone_id
    &&& post.zone_name == pre.zone_name
}

/// The decision for one record against the target IP, checked in order:
/// records that are not address records are ignored, locked records are
/// never mutated even if stale, unreadable content is an error, content
/// already equal to the target needs nothing, and everything else is
/// updated.
pub open spec fn decide_action(r: DnsRecord, target: Ipv4) -> DnsRecordAction {
    if r.record_type@ != "A"@ {
        DnsRecordAction::Noop
    } else if r.locked {
        DnsRecordAction::Noop
    } else if !is_ipv4_text(r.content@) {
        DnsRecordAction::Error
    } else if r.content@ == ipv4_text(target) {
        DnsRecordAction::Noop
    } else {
        DnsRecordAction::Updated
    }
}

/// How a record looks after the decision: rewritten to the target's
/// dotted-quad text when the decision is `Updated`, untouched otherwise.
pub open spec fn decided(pre: DnsRecord, target: Ipv4, post: DnsRecord) -> bool {
    if decide_action(pre, target) is Updated {
        same_but_content(pre, post) && post.content@ == ipv4_text(target)
    } else {
        post == pre
    }
}

/// Decides whether one record must follow the current public IP, and
/// rewrites its content exactly when the decision is `Updated`.
pub fn maybe_update_dns_record(record: &mut DnsRecord, current_ip: Ipv4) -> (r: DnsRecordAction)
    ensures
        r == decide_action(*old(record), current_ip),
        decided(*old(record), current_ip, *final(record)),
{
    let a_tag = String::from_str("A");
    if !(record.record_type == a_tag) {
        return DnsRecordAction::Noop;
    }
    if record.locked {
        return DnsRecordAction::Noop;
    }
    match parse_ipv4(record.content.as_str()) {
        None => DnsRecordAction::Error,
        Some(record_ip) => {
            if record_ip == current_ip {
                DnsRecordAction::Noop
            } else {
                proof {
                    if old(record).content@ == ipv4_text(current_ip) {
                        lemma_ipv4_text_injective(record_ip, current_ip);
                    }
                }
                record.content = current_ip.render();
                DnsRecordAction::Updated
            }
        },
    }
}

/// Applies the decision to every record of one zone, in order.  Returns
/// the indices of the records that were updated and must be written back
/// to the provider, and the indices of the records whose content could
/// not be read, for diagnostics.
pub fn process_zone_records(records: &mut Vec<DnsRecord>, current_ip: Ipv4) -> (r: (
    Vec<usize>,
    Vec<usize>,
))
    ensures
        final(records)@.len() == old(records)@.len(),
        forall|j: int|
            0 <= j < old(records)@.len() ==> decided(
                old(records)@[j],
                current_ip,
                #[trigger] final(records)@[j],
            ),
        forall|k: int|
            0 <= k < r.0@.len() ==> #[trigger] r.0@[k] < old(records)@.len() && decide_action(
                old(records)@[r.0@[k] as int],
                current_ip,
            ) is Updated,
        forall|k1: int, k2: int| 0 <= k1 < k2 < r.0@.len() ==> r.0@[k1] < r.0@[k2],
        forall|j: int|
            0 <= j < old(records)@.len() && decide_action(
                #[trigger] old(records)@[j],
                current_ip,
            ) is Updated ==> r.0@.contains(j as usize),
        forall|k: int|
            0 <= k < r.1@.len() ==> #[trigger] r.1@[k] < old(records)@.len() && decide_action(
                old(records)@[r.1@[k] as int],
                current_ip,
            ) is Error,
        forall|j: int|
            0 <= j < old(records)@.len() && decide_action(
                #[trigger] old(records)@[j],
                current_ip,
            ) is Error ==> r.1@.contains(j as usize),
{
    let mut updated: Vec<usize> = Vec::new();
    let mut errors: Vec<usize> = Vec::new();
    let n = records.len();
    let mut i: usize = 0;
    while i < n
        invariant
            n == old(records)@.len(),
            records@.len() == n,
            i <= n,
            forall|j: int|
                0 <= j < i ==> decided(old(records)@[j], current_ip, #[trigger] records@[j]),
            forall|j: int| i <= j < n ==> #[trigger] records@[j] == old(records)@[j],
            forall|k: int|
                0 <= k < updated@.len() ==> #[trigger] updated@[k] < i && decide_action(
                    old(records)@[updated@[k] as int],
                    current_ip,
                ) is Updated,
            forall|k1: int, k2: int| 0 <= k1 < k2 < updated@.len() ==> updated@[k1] < updated@[k2],
            forall|j: int|
                0 <= j < i && decide_action(
                    #[trigger] old(records)@[j],
                    current_ip,
                ) is Updated ==> updated@.contains(j as usize),
            forall|k: int|
                0 <= k < errors@.len() ==> #[trigger] errors@[k] < i && decide_action(
                    old(records)@[errors@[k] as int],
                    current_ip,
                ) is Error,
            forall|j: int|
                0 <= j < i && decide_action(
                    #[trigger] old(records)@[j],
                    current_ip,
                ) is Error ==> errors@.contains(j as usize),
        decreases n - i,
    {
        let ghost prev = updated@;
        let ghost prev_err = errors@;
        let action = maybe_update_dns_record(&mut records[i], current_ip);
        if action == DnsRecordAction::Updated {
            updated.push(i);
        }
        if action == DnsRecordAction::Error {
            errors.push(i);
        }
        proof {
            assert forall|j: int|
                0 <= j <= i && decide_action(
                    #[trigger] old(records)@[j],
                    current_ip,
                ) is Updated implies updated@.contains(j as usize) by {
                if j == i {
                    assert(updated@[updated@.len() - 1] == j as usize);
                } else {
                    assert(prev.contains(j as usize));
                    let k = choose|k: int| 0 <= k < prev.len() && prev[k] == j as usize;
                    assert(updated@[k] == j as usize);
                }
            };
            assert forall|j: int|
                0 <= j <= i && decide_action(
                    #[trigger] old(records)@[j],
                    current_ip,
                ) is Error implies errors@.contains(j as usize) by {
                if j == i {
                    assert(errors@[errors@.len() - 1] == j as usize);
                } else {
                    assert(prev_err.contains(j as usize));
                    let k = choose|k: int| 0 <= k < prev_err.len() && prev_err[k] == j as usize;
                    assert(errors@[k] == j as usize);
                }
            };
        }
        i = i + 1;
    }
    (updated, errors)
}

} // verus!
