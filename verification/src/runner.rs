//! Runners: a command bound to a key, with the text drawn while it runs and
//! after it ends.

use vstd::prelude::*;

verus! {

/// What a [`Runner`] holds.
pub struct RunnerView {
    pub active_tui: Seq<char>,
    pub inactive_tui: Seq<char>,
    pub command: Seq<char>,
    pub args: Seq<Seq<char>>,
}

/// A command to start, with the text to draw while it runs
/// (`active_tui`) and once it has ended (`inactive_tui`).
#[derive(Clone)]
pub struct Runner {
    active_tui: String,
    inactive_tui: String,
    command: String,
    args: Vec<String>,
}

/// The texts of a list of strings.
pub open spec fn string_views(v: Seq<String>) -> Seq<Seq<char>> {
    v.map_values(|s: String| s@)
}

impl View for Runner {
    type V = RunnerView;

    closed spec fn view(&self) -> RunnerView {
        RunnerView {
            active_tui: self.active_tui@,
            inactive_tui: self.inactive_tui@,
            command: self.command@,
            args: string_views(self.args@),
        }
    }
}

impl Runner {
    pub fn new(active_tui: String, inactive_tui: String, command: String, args: Vec<String>) -> (r:
        Runner)
        ensures
            r@ == (RunnerView {
                active_tui: active_tui@,
                inactive_tui: inactive_tui@,
                command: command@,
                args: string_views(args@),
            }),
    {
        Runner { active_tui, inactive_tui, command, args }
    }

    /// The text drawn while the command runs.
    pub fn active_tui(&self) -> (r: &String)
        ensures
            r@ == self@.active_tui,
    {
        &self.active_tui
    }

    /// The text drawn once the command has ended.
    pub fn inactive_tui(&self) -> (r: &String)
        ensures
            r@ == self@.inactive_tui,
    {
        &self.inactive_tui
    }

    /// The program to start.
    pub fn command(&self) -> (r: &String)
        ensures
            r@ == self@.command,
    {
        &self.command
    }

    /// Its arguments.
    pub fn args(&self) -> (r: &Vec<String>)
        ensures
            string_views(r@) == self@.args,
    {
        &self.args
    }
}

} // verus!
