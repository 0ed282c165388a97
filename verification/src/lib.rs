//! An interactive command-line shell built around a verified pipeline
//! engine: a tokenizer, a builder that turns one line's tokens into a chain
//! of stages wired through pipes and file redirections, and an orchestrator
//! schedule that spawns one process per stage and reconciles every pipe
//! descriptor the shell allocated.

pub mod shell;
