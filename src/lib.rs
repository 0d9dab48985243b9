//! Planning and supervision for an unprivileged chroot that mirrors the host
//! root and substitutes the package store at `/nix`.
//!
//! Everything here works on plain values: byte paths, ids, and the events a
//! supervisor observes. The side effects themselves (mounts, namespaces,
//! `fork`, `waitpid`) are carried out by the caller, step by step, following
//! the plans and actions computed here.
pub mod bytes;
pub mod identity;
pub mod invocation;
pub mod setup;
pub mod supervisor;
