//! A verified core for a breakpoint debugger: word-granular byte patching,
//! breakpoint bookkeeping, wait-status classification, and frame-pointer
//! unwinding, all stated over a model of the traced process's memory and
//! registers. Platform glue (spawning, ptrace, the command loop) lives
//! outside the library and hands it plain values.

pub mod breakpoints;
pub mod debugger;
pub mod inferior;
pub mod laws;
pub mod linked_list;
pub mod machine;
pub mod memory;
pub mod par;
pub mod proxy;
pub mod status;
pub mod textstats;
pub mod unwind;
pub mod warmup;
pub mod word;

pub use word::align_addr_to_word;
