//! Control-plane logic: which requests the API admits, media URL admission,
//! the registry of clients, groups and streams, announcement arbitration and
//! the scheduling of the active announcement of each group, user accounts,
//! the package commands the system API may run, and the hosts a subnet scan
//! probes.

pub mod access;
pub mod media;
pub mod packages;
pub mod discovery;
pub mod announcements;
pub mod scheduler;
pub mod state;
pub mod users;
