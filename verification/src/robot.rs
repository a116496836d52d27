//! Canned reply lines for direct mentions: loaded once from outside, then
//! sampled at random per mention.

use vstd::prelude::*;

use crate::rng::fresh_rng;
use crate::rng::rng_below;

verus! {

/// The reply lines, absent until installed.
pub struct RobotQuotes {
    lines: Option<Vec<String>>,
}

impl RobotQuotes {
    /// The lines as installed, or nothing before any were.
    pub closed spec fn loaded_lines(&self) -> Option<Seq<String>> {
        match self.lines {
            Some(v) => Some(v@),
            None => None,
        }
    }

    /// No lines installed yet.
    pub fn new() -> (r: RobotQuotes)
        ensures
            r.loaded_lines() is None,
    {
        RobotQuotes { lines: None }
    }

    /// Whether the lines still have to be read in.
    pub fn needs_loading(&self) -> (r: bool)
        ensures
            r == (self.loaded_lines() is None),
    {
        match &self.lines {
            None => true,
            Some(_) => false,
        }
    }

    /// Installs the reply lines.
    pub fn install_lines(&mut self, lines: Vec<String>)
        ensures
            final(self).loaded_lines() == Some(lines@),
    {
        self.lines = Some(lines);
    }

    /// One of the installed lines, picked at random with a fresh generator;
    /// nothing when no lines are installed, none exist, or the randomness
    /// source fails.
    pub fn get_quote(&self) -> (r: Option<String>)
        ensures
            r is Some ==> self.loaded_lines() is Some && self.loaded_lines().unwrap().contains(
                r.unwrap(),
            ),
            self.loaded_lines() is None ==> r is None,
            self.loaded_lines() == Some(Seq::<String>::empty()) ==> r is None,
    {
        match &self.lines {
            None => None,
            Some(lines) => {
                if lines.len() == 0 {
                    return None;
                }
                match fresh_rng() {
                    None => None,
                    Some(mut rng) => {
                        let idx = rng_below(&mut rng, lines.len());
                        proof {
                            assert(lines@.contains(lines@[idx as int]));
                        }
                        Some(lines[idx].clone())
                    },
                }
            },
        }
    }
}

} // verus!
