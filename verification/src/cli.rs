//! The command surface of the printing press.
use vstd::prelude::*;

use crate::text::copy_str;

verus! {

/// A pipeline verb and the target it acts on.
#[derive(Debug)]
pub enum Command {
    /// Research an API or website before generation
    Research { target: String },
    /// Generate a printed CLI from a named API, spec, or URL
    Generate { target: String },
    /// Run deterministic checks against generated output
    Verify { target: String },
    /// Score a generated CLI against structural rules
    Scorecard { target: String },
    /// Run structural CLI self-tests
    Dogfood { target: String },
    /// Publish a validated CLI artifact
    Publish { target: String },
    /// Discover undocumented API behavior from a site capture path or URL
    Sniff { target: String },
}

/// The parsed command line.
#[derive(Debug)]
pub struct Cli {
    pub command: Command,
}

/// The name of a command's verb.
pub open spec fn verb_of(c: Command) -> Seq<char> {
    match c {
        Command::Research { .. } => "research"@,
        Command::Generate { .. } => "generate"@,
        Command::Verify { .. } => "verify"@,
        Command::Scorecard { .. } => "scorecard"@,
        Command::Dogfood { .. } => "dogfood"@,
        Command::Publish { .. } => "publish"@,
        Command::Sniff { .. } => "sniff"@,
    }
}

/// The target a command acts on.
pub open spec fn target_of(c: Command) -> Seq<char> {
    match c {
        Command::Research { target } => target@,
        Command::Generate { target } => target@,
        Command::Verify { target } => target@,
        Command::Scorecard { target } => target@,
        Command::Dogfood { target } => target@,
        Command::Publish { target } => target@,
        Command::Sniff { target } => target@,
    }
}

impl Command {
    /// The name of the verb.
    pub fn verb(&self) -> (v: String)
        ensures
            v@ == verb_of(*self),
    {
        match self {
            Command::Research { .. } => copy_str("research"),
            Command::Generate { .. } => copy_str("generate"),
            Command::Verify { .. } => copy_str("verify"),
            Command::Scorecard { .. } => copy_str("scorecard"),
            Command::Dogfood { .. } => copy_str("dogfood"),
            Command::Publish { .. } => copy_str("publish"),
            Command::Sniff { .. } => copy_str("sniff"),
        }
    }

    /// The target.
    pub fn target(&self) -> (t: &String)
        ensures
            t@ == target_of(*self),
    {
        match self {
            Command::Research { target } => target,
            Command::Generate { target } => target,
            Command::Verify { target } => target,
            Command::Scorecard { target } => target,
            Command::Dogfood { target } => target,
            Command::Publish { target } => target,
            Command::Sniff { target } => target,
        }
    }
}

/// The first line a not yet implemented verb prints:
/// `printing-press-rs: <verb> for <target>`.
pub fn placeholder_message(command: &Command) -> (line: String)
    ensures
        line@ == "printing-press-rs: "@ + verb_of(*command) + " for "@ + target_of(*command),
{
    let mut line = copy_str("printing-press-rs: ");
    let verb = command.verb();
    line.append(verb.as_str());
    line.append(" for ");
    line.append(command.target().as_str());
    line
}

} // verus!
