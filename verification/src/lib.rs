//! Core of a keystroke-driven application launcher: building a catalog of
//! launchable entries, ranking the catalog against a live text query (fuzzy
//! matching fused with an arithmetic evaluator), and planning the safe
//! execution of a chosen entry.

pub mod config;
pub mod entry;
pub mod calc;
pub mod dispatch;
pub mod search;
pub mod session;
