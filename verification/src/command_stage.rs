//! One stage of a one-shot command: the shell text plus how its output is
//! presented.
use vstd::prelude::*;
use crate::color::Color;
use crate::config::SortRules;

verus! {

/// One stage of a one-shot command.
#[derive(Debug, Clone)]
pub struct Stage {
    /// The command to run.
    pub command: String,
    /// The color to use for the output.
    pub color: Color,
    /// How to sort and group the output, if at all.
    pub sorted: Option<SortRules>,
}

impl Stage {
    pub fn new(command: String, color: Color, sorted: Option<SortRules>) -> (s: Stage)
        ensures
            s.command == command,
            s.color == color,
            s.sorted == sorted,
    {
        Stage { command, color, sorted }
    }
}

} // verus!
