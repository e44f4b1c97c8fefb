//! Peer discovery on a local segment by multicast announcements, and a
//! registry that links each discovered peer exactly once, with a fixed rule
//! for which side dials and which side listens.
pub mod address;
pub mod discovery;
pub mod identity;
pub mod registry;
