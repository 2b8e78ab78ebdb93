//! Request counters of the gateway.

use vstd::prelude::*;

verus! {

/// `n + 1` in 64-bit wrapping arithmetic.
pub open spec fn bump(n: u64) -> u64 {
    if n == u64::MAX {
        0
    } else {
        (n + 1) as u64
    }
}

/// Five 64-bit counters that only count up (wrapping at 2^64).
pub struct Metrics {
    pub total_requests: u64,
    pub successful_requests: u64,
    pub failed_requests: u64,
    pub rate_limited_requests: u64,
    pub unauthorized_requests: u64,
}

impl Metrics {
    /// All counters at zero.
    pub fn new() -> (r: Metrics)
        ensures
            r.total_requests == 0,
            r.successful_requests == 0,
            r.failed_requests == 0,
            r.rate_limited_requests == 0,
            r.unauthorized_requests == 0,
    {
        Metrics {
            total_requests: 0,
            successful_requests: 0,
            failed_requests: 0,
            rate_limited_requests: 0,
            unauthorized_requests: 0,
        }
    }

    pub fn increment_total(&mut self)
        ensures
            *final(self) == (Metrics { total_requests: bump(old(self).total_requests), ..*old(self) }),
    {
        self.total_requests = self.total_requests.wrapping_add(1);
    }

    pub fn increment_successful(&mut self)
        ensures
            *final(self) == (Metrics {
                successful_requests: bump(old(self).successful_requests),
                ..*old(self)
            }),
    {
        self.successful_requests = self.successful_requests.wrapping_add(1);
    }

    pub fn increment_failed(&mut self)
        ensures
            *final(self) == (Metrics { failed_requests: bump(old(self).failed_requests), ..*old(self) }),
    {
        self.failed_requests = self.failed_requests.wrapping_add(1);
    }

    pub fn increment_rate_limited(&mut self)
        ensures
            *final(self) == (Metrics {
                rate_limited_requests: bump(old(self).rate_limited_requests),
                ..*old(self)
            }),
    {
        self.rate_limited_requests = self.rate_limited_requests.wrapping_add(1);
    }

    pub fn increment_unauthorized(&mut self)
        ensures
            *final(self) == (Metrics {
                unauthorized_requests: bump(old(self).unauthorized_requests),
                ..*old(self)
            }),
    {
        self.unauthorized_requests = self.unauthorized_requests.wrapping_add(1);
    }

    /// The counters under their published names, in a fixed order:
    /// `total`, `successful`, `failed`, `rate-limited`, `unauthorized`.
    pub fn snapshot(&self) -> (r: Vec<(String, u64)>)
        ensures
            r@.len() == 5,
            r@[0].0@ == "total"@ && r@[0].1 == self.total_requests,
            r@[1].0@ == "successful"@ && r@[1].1 == self.successful_requests,
            r@[2].0@ == "failed"@ && r@[2].1 == self.failed_requests,
            r@[3].0@ == "rate-limited"@ && r@[3].1 == self.rate_limited_requests,
            r@[4].0@ == "unauthorized"@ && r@[4].1 == self.unauthorized_requests,
    {
        let mut r: Vec<(String, u64)> = Vec::new();
        r.push((String::from_str("total"), self.total_requests));
        r.push((String::from_str("successful"), self.successful_requests));
        r.push((String::from_str("failed"), self.failed_requests));
        r.push((String::from_str("rate-limited"), self.rate_limited_requests));
        r.push((String::from_str("unauthorized"), self.unauthorized_requests));
        r
    }
}

} // verus!
