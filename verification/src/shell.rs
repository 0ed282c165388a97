pub mod builder;
pub mod command;
pub mod line_parser;
pub mod orchestrator;
pub mod tokenizer;
mod sys;

use vstd::prelude::*;

verus! {

/// The top-level shell context: the input history and the two ambient
/// directory paths that the pipeline builder reads.
pub struct Shell {
    pub history: Vec<String>,
    pub home_directory: String,
    pub current_directory: String,
}

impl Shell {
    /// Makes a shell context from the ambient home and current directory
    /// paths, with an empty history.
    pub fn new(home_directory: String, current_directory: String) -> (s: Shell)
        ensures
            s.history@.len() == 0,
            s.home_directory == home_directory,
            s.current_directory == current_directory,
    {
        Shell { history: Vec::new(), home_directory, current_directory }
    }

    /// Replaces the recorded current directory with a freshly read one.
    pub fn set_current_directory(&mut self, current_directory: String)
        ensures
            final(self).current_directory == current_directory,
            final(self).home_directory == old(self).home_directory,
            final(self).history == old(self).history,
    {
        self.current_directory = current_directory;
    }
}

} // verus!
