//! Membership core of a SWIM-style gossip protocol: the member record, its
//! state machine, the rule that reconciles two views of one member, the
//! ranking of members, and the cluster configuration.

pub mod constants;
pub mod epidemic;
