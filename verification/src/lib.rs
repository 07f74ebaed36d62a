//! Core of an interactive Unix command shell: a pipeline parser, a macro
//! expander, an environment/directory-stack store, a job table, and the
//! decision logic of the pipeline executor.
//!
//! Everything here is pure state and computation; the surrounding binary
//! performs the actual process spawning, waiting, terminal hand-off and file
//! system work, feeding the results back in as plain values.

pub mod assoc;
pub mod env;
pub mod executor;
pub mod jobs;
pub mod macros;
pub mod page;
pub mod parser;
pub mod prompt;
pub mod text;
