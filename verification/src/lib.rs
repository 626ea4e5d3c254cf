//! Sentinel for the 0patch / LSA Protection conflict: the host collects three
//! signals about a Windows machine, and the classifier decides whether
//! 0patch's lsass-targeted micropatch coverage is live, silently inert, or moot.
pub mod classify;
pub mod collectors;
pub mod model;
pub mod report;
pub mod text;
pub mod utf16;

pub use classify::classify;
pub use model::{LoaderPresence, LsaProtection, PatchStatus, Signals, Verdict};
