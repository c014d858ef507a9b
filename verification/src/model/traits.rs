//! Behaviour contracts across subsystems.

use vstd::prelude::*;
use vstd::string::*;

use crate::model::error::LeviathanError;
use crate::text::owned;

verus! {

/// A persistent store for cluster state.
pub trait StateStore {
    /// The keys and values currently held.
    spec fn contents(&self) -> Map<Seq<char>, Seq<u8>>;

    /// Persist a key-value pair as raw bytes.
    fn put(&mut self, key: &str, value: &[u8]) -> (r: Result<(), LeviathanError>)
        ensures
            r is Ok ==> final(self).contents() == old(self).contents().insert(key@, value@),
    ;

    /// Retrieve a value by key.
    fn get(&self, key: &str) -> (r: Result<Option<Vec<u8>>, LeviathanError>)
        ensures
            match r {
                Ok(Some(v)) => self.contents().contains_key(key@) && self.contents()[key@] == v@,
                Ok(None) => !self.contents().contains_key(key@),
                Err(_) => true,
            },
    ;

    /// Delete a key from the store.
    fn delete(&mut self, key: &str) -> (r: Result<(), LeviathanError>)
        ensures
            r is Ok ==> final(self).contents() == old(self).contents().remove(key@),
    ;

    /// List all keys currently held in the store.
    fn list_keys(&self) -> (r: Result<Vec<String>, LeviathanError>)
        ensures
            r matches Ok(keys) ==> forall|k: Seq<char>|
                self.contents().contains_key(k) <==> exists|i: int|
                    0 <= i < keys.len() && (#[trigger] keys[i])@ == k,
    ;
}

/// The health status reported by a subsystem.
#[derive(Debug, Clone, PartialEq, Eq)]
pub enum HealthStatus {
    /// The component is fully operational.
    Healthy,
    /// The component is operational but experiencing issues.
    Degraded {
        /// Human-readable reason for the degraded state.
        reason: String,
    },
    /// The component is not operational.
    Unhealthy {
        /// Human-readable reason for the unhealthy state.
        reason: String,
    },
}

impl HealthStatus {
    /// The rendered form.
    pub open spec fn text(&self) -> Seq<char> {
        match *self {
            HealthStatus::Healthy => "Healthy"@,
            HealthStatus::Degraded { reason } => "Degraded: "@ + reason@,
            HealthStatus::Unhealthy { reason } => "Unhealthy: "@ + reason@,
        }
    }

    /// Render the status.
    pub fn to_string(&self) -> (s: String)
        ensures
            s@ == self.text(),
    {
        match self {
            HealthStatus::Healthy => owned("Healthy"),
            HealthStatus::Degraded { reason } => {
                let mut s = owned("Degraded: ");
                s.append(reason.as_str());
                s
            },
            HealthStatus::Unhealthy { reason } => {
                let mut s = owned("Unhealthy: ");
                s.append(reason.as_str());
                s
            },
        }
    }
}

} // verus!
