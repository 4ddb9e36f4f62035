//! The shared Docker status observation.
//!
//! A storage mutation can change the container runtime's state, so the
//! pruning paths invalidate the observation: the next read fetches instead of
//! answering from before the mutation.
use vstd::prelude::*;
use crate::models::clone_opt_string;

verus! {

/// What the container runtime reported.
pub struct DockerStatus {
    pub is_available: bool,
    pub is_running: bool,
    pub version: Option<String>,
    pub error_message: Option<String>,
}

impl Clone for DockerStatus {
    fn clone(&self) -> (r: Self)
        ensures
            r == *self,
    {
        DockerStatus {
            is_available: self.is_available,
            is_running: self.is_running,
            version: clone_opt_string(&self.version),
            error_message: clone_opt_string(&self.error_message),
        }
    }
}

/// How long a Docker status observation answers before it is re-read, in
/// milliseconds.
pub const DOCKER_STATUS_TTL_MILLIS: u64 = 3000;

/// The shared Docker status observation.
pub struct DockerStatusCache {
    entry: Option<(DockerStatus, u64)>,
}

/// An observation taken at `fetched_at` still answers at `now` under `ttl`:
/// less than `ttl` has elapsed (a clock that went back counts as no time).
pub open spec fn answers(fetched_at: u64, now: u64, ttl: u64) -> bool {
    (if now >= fetched_at { now - fetched_at } else { 0 }) < ttl
}

impl DockerStatusCache {
    /// The observation and when it was taken, in milliseconds since the
    /// epoch.
    pub closed spec fn observation(&self) -> Option<(DockerStatus, u64)> {
        self.entry
    }

    /// An empty cache.
    pub fn new() -> (r: Self)
        ensures
            r.observation() is None,
    {
        DockerStatusCache { entry: None }
    }

    /// The observation, when it was taken less than `ttl` milliseconds
    /// before `now`.
    pub fn fresh_at(&self, now: u64, ttl: u64) -> (r: Option<DockerStatus>)
        ensures
            match self.observation() {
                Some((status, fetched_at)) => if answers(fetched_at, now, ttl) {
                    r == Some(status)
                } else {
                    r is None
                },
                None => r is None,
            },
    {
        match &self.entry {
            Some((status, fetched_at)) => {
                if now.saturating_sub(*fetched_at) < ttl {
                    Some(status.clone())
                } else {
                    None
                }
            },
            None => None,
        }
    }

    /// The observation, when it was taken less than `ttl` milliseconds ago.
    pub fn fresh(&self, ttl: u64) -> (r: Option<DockerStatus>)
        ensures
            exists|now: u64|
                #![trigger answers(self.observation()->Some_0.1, now, ttl)]
                match self.observation() {
                    Some((status, fetched_at)) => if answers(fetched_at, now, ttl) {
                        r == Some(status)
                    } else {
                        r is None
                    },
                    None => r is None,
                },
    {
        let now = crate::clock::unix_millis();
        let r = self.fresh_at(now, ttl);
        proof {
            let _ = answers(self.observation()->Some_0.1, now, ttl);
        }
        r
    }

    /// Records an observation taken at `now`.
    pub fn publish_at(&mut self, status: DockerStatus, now: u64)
        ensures
            final(self).observation() == Some((status, now)),
    {
        self.entry = Some((status, now));
    }

    /// Records an observation taken now.
    pub fn publish(&mut self, status: DockerStatus)
        ensures
            final(self).observation() is Some,
            final(self).observation()->Some_0.0 == status,
    {
        let now = crate::clock::unix_millis();
        self.publish_at(status, now);
    }

    /// Drops the observation, so the next read cannot answer from a state
    /// the caller may have just changed.
    pub fn invalidate(&mut self)
        ensures
            final(self).observation() is None,
    {
        self.entry = None;
    }
}

/// A published observation answers every read within its lifetime.
pub proof fn law_published_status_answers(cache: DockerStatusCache, status: DockerStatus, now: u64, later: u64, ttl: u64)
    requires
        cache.observation() == Some((status, now)),
        now <= later,
        later - now < ttl,
    ensures
        answers(cache.observation()->Some_0.1, later, ttl),
{
}

} // verus!
