//! The command line.

use vstd::prelude::*;
use vstd::string::*;

use crate::numbers::{all_digits, decimal_text, law_decimals_read_back};
use crate::text::{chars_of, is_digit};

verus! {

/// What is asked for on the command line.
#[derive(Debug, Clone, PartialEq, Eq)]
pub struct Cli {
    pub command: Commands,
    /// The workspace folder; the current directory by default.
    pub workspace_folder: Option<String>,
    /// The configuration file, where it is not the one in the workspace.
    pub config: Option<String>,
}

#[derive(Debug, Clone, PartialEq, Eq)]
pub enum Commands {
    /// Build the image.
    Build { no_cache: bool },
    /// Create and start the container.
    Up { remove_existing_container: bool, no_build: bool, no_cache: bool },
    /// Stop and remove the container.
    Down,
    /// Run a command in the container.
    Exec { user: Option<String>, workdir: Option<String>, command: Vec<String> },
    /// Start an interactive shell in the container.
    Shell,
    /// Show the logs of the container.
    Logs { follow: bool, tail: Option<String> },
    /// Check the configuration and print it.
    ReadConfiguration { include_merged_configuration: bool },
}

impl Commands {
    /// Whether the command talks to Docker: all do but the one that reads the configuration.
    pub fn needs_docker(&self) -> (res: bool)
        ensures
            res == !(self is ReadConfiguration),
    {
        match self {
            Commands::ReadConfiguration { .. } => false,
            _ => true,
        }
    }
}

/// Whether a text is a number of lines: one or more decimal digits.
pub open spec fn is_tail(s: Seq<char>) -> bool {
    s.len() > 0 && all_digits(s)
}

/// A number of lines for `--tail`: one or more decimal digits.
pub fn parse_tail(s: &str) -> (res: Result<String, String>)
    ensures
        match res {
            Ok(t) => t@ == s@ && is_tail(s@),
            Err(e) => e@ == "'"@ + s@ + "' is not a number of lines"@ && !is_tail(s@),
        },
{
    let v = chars_of(s);
    let mut numeric: bool = v.len() > 0;
    let mut i: usize = 0;
    while i < v.len()
        invariant
            v@ == s@,
            i <= v@.len(),
            v@.len() > 0 ==> numeric == (forall|k: int| 0 <= k < i ==> is_digit(#[trigger] s@[k])),
            v@.len() == 0 ==> !numeric,
        decreases v@.len() - i,
    {
        if !(v[i] >= '0' && v[i] <= '9') {
            assert(!is_digit(s@[i as int]));
            numeric = false;
        }
        i = i + 1;
    }
    if numeric {
        Ok(s.to_owned())
    } else {
        Err("'".to_owned().concat(s).concat("' is not a number of lines"))
    }
}

/// Every number in decimal notation is a number of lines; nothing with another character in it is, nor
/// is nothing at all.
pub proof fn law_tails(n: nat, s: Seq<char>, i: int)
    ensures
        is_tail(decimal_text(n)),
        !is_tail(Seq::empty()),
        0 <= i < s.len() && !('0' <= s[i] <= '9') ==> !is_tail(s),
{
    law_decimals_read_back(n, n);
    if 0 <= i < s.len() && all_digits(s) {
        assert(is_digit(s[i]));
    }
}

} // verus!
