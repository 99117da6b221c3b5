//! The command line: which mode to enter and what it needs.
use vstd::prelude::*;

use crate::address::{spec_decode_addr, try_decode_addr};
use crate::text::concat_str;

verus! {

/// The mode that the command line asks for.
#[derive(Debug)]
pub enum Command {
    /// No mode was given.
    MissingMode,
    Init,
    Push,
    Pull,
    /// A word that names no mode.
    Unknown { mode: String },
}

/// The mode named at position `shift` of the arguments, written as an
/// option (`--init`, `--push`, `--pull`) or as a bare word.
pub fn parse_command(args: &Vec<String>, shift: usize) -> (r: Command)
    ensures
        shift >= args@.len() ==> r is MissingMode,
        shift < args@.len() ==> {
            let word = args@[shift as int]@;
            if word == "--init"@ || word == "init"@ {
                r is Init
            } else if word == "--push"@ || word == "push"@ {
                r is Push
            } else if word == "--pull"@ || word == "pull"@ {
                r is Pull
            } else {
                r matches Command::Unknown { mode } && mode@ == word
            }
        },
{
    if shift >= args.len() {
        return Command::MissingMode;
    }
    let word = &args[shift];
    if *word == "--init".to_owned() || *word == "init".to_owned() {
        Command::Init
    } else if *word == "--push".to_owned() || *word == "push".to_owned() {
        Command::Push
    } else if *word == "--pull".to_owned() || *word == "pull".to_owned() {
        Command::Pull
    } else {
        Command::Unknown { mode: word.clone() }
    }
}

/// The mode of the merge context named at position `shift`.
#[derive(Debug)]
pub enum MergeCommand {
    MissingMode,
    Pull,
    Push,
    Unknown { mode: String },
}

/// The merge mode named at position `shift` of the arguments.
pub fn parse_merge_command(args: &Vec<String>, shift: usize) -> (r: MergeCommand)
    ensures
        shift >= args@.len() ==> r is MissingMode,
        shift < args@.len() ==> {
            let word = args@[shift as int]@;
            if word == "pull"@ {
                r is Pull
            } else if word == "push"@ {
                r is Push
            } else {
                r matches MergeCommand::Unknown { mode } && mode@ == word
            }
        },
{
    if shift >= args.len() {
        return MergeCommand::MissingMode;
    }
    let word = &args[shift];
    if *word == "pull".to_owned() {
        MergeCommand::Pull
    } else if *word == "push".to_owned() {
        MergeCommand::Push
    } else {
        MergeCommand::Unknown { mode: word.clone() }
    }
}

/// Where a puller connects.
#[derive(Debug)]
pub enum PullTarget {
    /// No credentials were given.
    MissingAddress,
    /// The credentials do not decode to an address.
    InvalidCredentials,
    /// The WebSocket URL of the pusher.
    Url(String),
}

/// The WebSocket URL `ws://ip:port` of the pusher whose credentials stand at
/// position `shift` of the arguments.
pub fn pull_target(args: &Vec<String>, shift: usize) -> (r: PullTarget)
    ensures
        shift >= args@.len() ==> r is MissingAddress,
        shift < args@.len() ==> match spec_decode_addr(args@[shift as int]@) {
            Some(addr) => r matches PullTarget::Url(url) && url@ == "ws://"@ + addr,
            None => r is InvalidCredentials,
        },
{
    if shift >= args.len() {
        return PullTarget::MissingAddress;
    }
    match try_decode_addr(args[shift].as_str()) {
        Some(addr) => PullTarget::Url(concat_str("ws://", addr.as_str())),
        None => PullTarget::InvalidCredentials,
    }
}

/// The address at position `shift` that a merge push connects to, if any.
pub fn merge_push_target(args: &Vec<String>, shift: usize) -> (r: Option<String>)
    ensures
        shift >= args@.len() ==> r is None,
        shift < args@.len() ==> (r matches Some(a) && a@ == args@[shift as int]@),
{
    if shift >= args.len() {
        None
    } else {
        Some(args[shift].clone())
    }
}

/// What `init` does, given whether `.webcrane` and `.webcrane/.webcraneignore`
/// exist.
#[derive(Debug, Clone, Copy, PartialEq, Eq, Structural)]
pub enum InitPlan {
    /// Report that the project is already initialized, and stop.
    AlreadyInitialized,
    /// Create the directory and the ignore file where they are missing.
    Create { create_dir: bool, create_ignore_file: bool },
}

/// The plan of `init`: unless both the directory and the ignore file exist,
/// it reports the project as already initialized; otherwise it creates
/// whichever of the two is missing. The test is inverted: `init` proceeds
/// only where both exist, so it never creates either, and it reports a
/// project that has not been set up as already initialized.
pub fn init_plan(dir_exists: bool, ignore_exists: bool) -> (r: InitPlan)
    ensures
        !(dir_exists && ignore_exists) ==> r == InitPlan::AlreadyInitialized,
        dir_exists && ignore_exists ==> r == (InitPlan::Create {
            create_dir: !dir_exists,
            create_ignore_file: !ignore_exists,
        }),
{
    if !(dir_exists && ignore_exists) {
        return InitPlan::AlreadyInitialized;
    }
    InitPlan::Create { create_dir: !dir_exists, create_ignore_file: !ignore_exists }
}

} // verus!
