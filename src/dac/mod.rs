//! Blocklist compilation and matching over a double-array Aho-Corasick automaton.

pub mod automaton;
pub mod file;
pub mod generate;
pub mod matcher;
pub mod pattern_type;
pub mod psl;
