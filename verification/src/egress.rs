//! The way out: nothing leaves without passing a policy.

use crate::label::Label;
use vstd::prelude::*;

verus! {

/// What a policy decides.
#[derive(Debug, PartialEq, Eq)]
pub enum EgressDecision {
    Deny(String),
    Allow,
}

/// Decides whether data with a label may go to a destination.
pub trait EgressPolicy {
    fn check(&self, destination: &str, payload_label: &Label) -> (d: EgressDecision);
}

/// Nothing leaves.
#[derive(Debug)]
pub struct DenyAll;

impl EgressPolicy for DenyAll {
    fn check(&self, destination: &str, payload_label: &Label) -> (d: EgressDecision)
        ensures
            d matches EgressDecision::Deny(t) && t@ == "M0 egress is deny-all (dest: "@
                + destination@ + ")"@,
    {
        let mut t: String = "M0 egress is deny-all (dest: ".to_owned();
        t.append(destination);
        t.append(")");
        EgressDecision::Deny(t)
    }
}

} // verus!
