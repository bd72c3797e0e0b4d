//! Watches the public IP address across polling cycles.
//!
//! The watcher owns two values: the IP most recently fetched, and the IP
//! last confirmed as synchronized.  The confirmed IP is absent exactly
//! until the first commit, and a watcher without one always reports a
//! change, so that the first cycle is forced to synchronize.  Fetching the
//! text of the current IP is the caller's business; the watcher takes the
//! fetched text as a plain value, trims it, and parses it strictly as a
//! dotted quad.

use crate::ipv4::{ipv4_text, is_ipv4_text, parse_ipv4_trimmed, trim_spec, Ipv4};
use vstd::prelude::*;

verus! {

/// The error of a construction or refresh whose fetched text is not,
/// after trimming, the dotted-quad text of an IPv4 address.
#[derive(Debug)]
pub struct IpParseError;

/// Tracks the current public IP and the one last confirmed.
pub struct IPChangeWatcher {
    old_ip: Option<Ipv4>,
    current_ip: Ipv4,
    public_ip_provider_service_url: String,
}

impl IPChangeWatcher {
    /// The IP last committed as confirmed, absent until the first commit.
    pub closed spec fn spec_old_ip(&self) -> Option<Ipv4> {
        self.old_ip
    }

    /// The most recently fetched public IP.
    pub closed spec fn spec_current_ip(&self) -> Ipv4 {
        self.current_ip
    }

    /// The configured IP-provider endpoint.
    pub closed spec fn spec_url(&self) -> Seq<char> {
        self.public_ip_provider_service_url@
    }

    /// True when a change must be reported: always before the first
    /// commit, afterwards exactly when the current IP differs from the
    /// confirmed one.
    pub open spec fn spec_did_change(&self) -> bool {
        match self.spec_old_ip() {
            None => true,
            Some(o) => o != self.spec_current_ip(),
        }
    }

    /// Constructs a watcher from the provider endpoint and the first
    /// fetched text.  On success the watcher starts unconfirmed: no IP
    /// has been committed yet.
    pub fn new(public_ip_provider_service_url: String, fetched_ip_text: &str) -> (r: Result<
        IPChangeWatcher,
        IpParseError,
    >)
        ensures
            match r {
                Ok(w) => {
                    &&& w.spec_old_ip() is None
                    &&& trim_spec(fetched_ip_text@) == ipv4_text(w.spec_current_ip())
                    &&& w.spec_url() == public_ip_provider_service_url@
                },
                Err(_) => !is_ipv4_text(trim_spec(fetched_ip_text@)),
            },
    {
        match parse_ipv4_trimmed(fetched_ip_text) {
            Some(ip) => Ok(
                IPChangeWatcher { old_ip: None, current_ip: ip, public_ip_provider_service_url },
            ),
            None => Err(IpParseError),
        }
    }

    /// Parses a newly fetched text and overwrites the current IP.  The
    /// confirmed IP and the endpoint are untouched; on failure the whole
    /// watcher is unchanged.
    pub fn refresh_context(&mut self, fetched_ip_text: &str) -> (r: Result<(), IpParseError>)
        ensures
            match r {
                Ok(_) => {
                    &&& trim_spec(fetched_ip_text@) == ipv4_text(final(self).spec_current_ip())
                    &&& final(self).spec_old_ip() == old(self).spec_old_ip()
                    &&& final(self).spec_url() == old(self).spec_url()
                },
                Err(_) => *final(self) == *old(self) && !is_ipv4_text(trim_spec(fetched_ip_text@)),
            },
    {
        match parse_ipv4_trimmed(fetched_ip_text) {
            Some(ip) => {
                self.current_ip = ip;
                Ok(())
            },
            None => Err(IpParseError),
        }
    }

    /// True when the current IP differs from the confirmed one, or when
    /// none has been confirmed yet.
    pub fn did_public_ip_change(&self) -> (r: bool)
        ensures
            r == self.spec_did_change(),
    {
        match self.old_ip {
            None => true,
            Some(o) => !(o == self.current_ip),
        }
    }

    /// Commits the current IP as confirmed.
    pub fn persist_current_ip(&mut self)
        ensures
            final(self).spec_old_ip() == Some(old(self).spec_current_ip()),
            final(self).spec_current_ip() == old(self).spec_current_ip(),
            final(self).spec_url() == old(self).spec_url(),
    {
        self.old_ip = Some(self.current_ip);
    }

    /// The current public IP.
    pub fn get_public_ip(&self) -> (r: Ipv4)
        ensures
            r == self.spec_current_ip(),
    {
        self.current_ip
    }

    /// The endpoint the caller must fetch the public IP text from.
    pub fn provider_url(&self) -> (r: &str)
        ensures
            r@ == self.spec_url(),
    {
        self.public_ip_provider_service_url.as_str()
    }
}

/// A watcher that has confirmed no IP yet always reports a change,
/// whatever its current IP is.
pub proof fn lemma_unconfirmed_watcher_reports_change(w: &IPChangeWatcher)
    requires
        w.spec_old_ip() is None,
    ensures
        w.spec_did_change(),
{
}

/// After a commit, a refresh that finds the same IP again reports no
/// change: `w2` is `w1` after a commit, `w3` is `w2` after a refresh
/// whose fetched IP equals the one committed, and `w3` reports nothing.
pub proof fn lemma_unchanged_ip_after_commit(
    w1: &IPChangeWatcher,
    w2: &IPChangeWatcher,
    w3: &IPChangeWatcher,
)
    requires
        w2.spec_old_ip() == Some(w1.spec_current_ip()),
        w2.spec_current_ip() == w1.spec_current_ip(),
        w3.spec_old_ip() == w2.spec_old_ip(),
        w3.spec_current_ip() == w1.spec_current_ip(),
    ensures
        !w3.spec_did_change(),
{
}

} // verus!
