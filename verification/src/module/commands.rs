//! The first home of the `/hi` command, which now lives in `general`.

use vstd::prelude::*;
use super::general::{command, GeneralCommand};

verus! {

pub struct Commands {}

impl Commands {
    pub fn new() -> Self {
        Commands {}
    }

    /// Whether a chat line is the greeting that this module answers (and
    /// does not forward).
    pub fn is_greeting(text: &str) -> (r: bool)
        ensures
            r == ("/hi"@.is_prefix_of(text@) || "/rotmguard"@.is_prefix_of(text@)),
    {
        command(text) == GeneralCommand::Hi
    }
}

} // verus!
