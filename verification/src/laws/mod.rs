//! What the builder promises, as relations between what its functions are given
//! and what they give back.
//!
//! Each law speaks of a call through the function's own contract
//! (`call_ensures`), and of its arguments and result as plain texts, numbers and
//! collections.
pub mod adds;
pub mod aid;
pub mod bootable;
pub mod cache_keys;
pub mod container;
pub mod guest;
pub mod host;
pub mod initramfs;
pub mod moves;
pub mod paths;
pub mod scripts;
pub mod search;
pub mod stages;
pub mod steps;
pub mod substitution;
pub mod system;
pub mod texts;
pub mod walks;
