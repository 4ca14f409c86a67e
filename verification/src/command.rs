//! The tool's subcommands: which one the command line names, and what running it does first.
use vstd::prelude::*;
use crate::text::{contains_seq, lemma_replace_absent, replace_all, replace_spec, str_eq};

verus! {

/// The subcommand named on the command line.
#[derive(Debug, Clone, Copy, PartialEq, Eq, Structural)]
pub enum Config {
    Check,
    Crawl,
    Ponder,
    Compare,
    Merge,
}

/// What the tool runs.
#[derive(Debug, Clone, Copy, PartialEq, Eq, Structural)]
pub enum Command {
    /// Read the plan and check its references.
    Check,
    /// Crawl the plan's tracking links and store what is learned.
    Crawl,
    /// Report on the campaigns from what the crawl learned.
    Ponder,
}

/// The subcommand that a name selects; an unknown name, or none, selects `check`.
pub open spec fn config_for(name: Option<Seq<char>>) -> Config {
    match name {
        Some(n) => if n == "check"@ {
            Config::Check
        } else if n == "crawl"@ {
            Config::Crawl
        } else if n == "ponder"@ {
            Config::Ponder
        } else if n == "compare"@ {
            Config::Compare
        } else if n == "merge"@ {
            Config::Merge
        } else {
            Config::Check
        },
        None => Config::Check,
    }
}

/// The subcommand that the command line names.
pub fn read_args(subcommand: Option<&str>) -> (r: Config)
    ensures
        r == config_for(
            match subcommand {
                Some(s) => Some(s@),
                None => None,
            },
        ),
{
    match subcommand {
        Some(s) => if str_eq(s, "check") {
            Config::Check
        } else if str_eq(s, "crawl") {
            Config::Crawl
        } else if str_eq(s, "ponder") {
            Config::Ponder
        } else if str_eq(s, "compare") {
            Config::Compare
        } else if str_eq(s, "merge") {
            Config::Merge
        } else {
            Config::Check
        },
        None => Config::Check,
    }
}

/// What the tool runs for a subcommand; `compare` and `merge` run nothing and are left out.
pub fn main_(config: Config) -> (r: Command)
    requires
        config != Config::Compare,
        config != Config::Merge,
    ensures
        config == Config::Check ==> r == Command::Check,
        config == Config::Crawl ==> r == Command::Crawl,
        config == Config::Ponder ==> r == Command::Ponder,
{
    match config {
        Config::Crawl => Command::Crawl,
        Config::Ponder => Command::Ponder,
        _ => Command::Check,
    }
}

/// The text of a generated data file made readable for the YAML reader, which takes
/// ` ... ` for a document marker: every ` ... ` becomes ` .. `.
pub fn load_yaml_text(text: &str) -> (r: String)
    ensures
        r@ == replace_spec(text@, " ... "@, " .. "@),
{
    proof { reveal_strlit(" ... "); }
    assert(" ... "@.len() == 5);
    replace_all(text, " ... ", " .. ")
}

/// A generated file that holds no ` ... ` is read back as it was written.
pub proof fn lemma_load_yaml_text_keeps_clean_text(text: Seq<char>)
    requires
        !contains_seq(text, " ... "@),
    ensures
        replace_spec(text, " ... "@, " .. "@) == text,
{
    lemma_replace_absent(text, " ... "@, " .. "@);
}

} // verus!
