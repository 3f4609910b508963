//! Content-rewriting intercepting proxy, its verified core:
//!
//! - `dac`: the blocklist compiler (Adblock rules to patterns with kind
//!   tags, overlap pruning, the automaton file) and the URL matcher;
//! - `processors`: the JavaScript URL extractor, the HTML element policies
//!   and the choice of content coding;
//! - `proxy`: a header map and the header rules for requests and responses
//!   (hygiene, Cache-Control, ETag marker, CSP), the body buffer and the
//!   pipeline's decisions;
//! - `highway_semaphore`: the two-line priority semaphore's state;
//! - `cancellation`: the worker's cancellation flag;
//! - `resettable_lazy`: a value computed on first use, until reset;
//! - `cli`: parsing of command-line values;
//! - `bytes`: byte-string helpers and their specifications.
pub mod bytes;
pub mod cancellation;
pub mod cli;
pub mod dac;
pub mod highway_semaphore;
pub mod processors;
pub mod proxy;
pub mod resettable_lazy;
