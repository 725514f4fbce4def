//! Lifecycle manager for ephemeral multi-member party sessions.
//!
//! A party is created with a capacity and a title, gains and loses members
//! through discrete membership-intent signals, is mirrored into a persisted
//! store keyed by (group, owner), and is reclaimed by a timer-driven loop
//! once it stays under the survival occupancy for too long.  This crate holds
//! the verified core: the session entity, the store model with its
//! one-party-per-owner invariant, the membership state machine, and the
//! reclamation step.  Transport, the chat platform, and the document store
//! itself live outside and talk to this core through plain values.

pub mod commands;
pub mod db;
pub mod party_groups;
pub mod signals;
pub mod timer;
