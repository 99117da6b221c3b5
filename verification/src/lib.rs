//! Verified core of a tool that keeps a project's files in sync between two
//! machines: it compares hash packages, plans and checks the transfer of
//! files in chunks, and encodes the address that a puller connects to.
pub mod packages;
pub mod diff;
pub mod transfer;
pub mod receiver;
pub mod address;
pub mod hashing;
pub mod text;
pub mod config;
pub mod cli;
pub mod local;
pub mod merge;
