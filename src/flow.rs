//! The tool's decisions between its outside steps: the command line, the
//! privilege gate, the menu choice and the stage that comes next.
use vstd::prelude::*;
use crate::device::Platform;

verus! {

/// What the command line asks for.
#[derive(Clone, Copy, Debug, PartialEq, Eq, Structural)]
pub enum CliAction {
    ShowVersion,
    ShowUsage,
    Run,
}

pub open spec fn cli_action(args: Seq<Seq<char>>) -> CliAction {
    if args.len() > 1 {
        if args[1] == "-v"@ || args[1] == "--version"@ {
            CliAction::ShowVersion
        } else {
            CliAction::ShowUsage
        }
    } else {
        CliAction::Run
    }
}

/// Reads the command line; `args[0]` is the program's own name.
pub fn parse_cli(args: &Vec<String>) -> (r: CliAction)
    ensures
        r == cli_action(args@.map_values(|a: String| a@)),
{
    let ghost v = args@.map_values(|a: String| a@);
    if args.len() > 1 {
        let short = String::from_str("-v");
        let long = String::from_str("--version");
        assert(v[1] == args@[1]@);
        if args[1] == short || args[1] == long {
            CliAction::ShowVersion
        } else {
            CliAction::ShowUsage
        }
    } else {
        CliAction::Run
    }
}

/// The process may change the boot order: it is the init process or runs
/// with effective user id 0.
pub fn is_privileged(pid: u32, euid: u32) -> (r: bool)
    ensures
        r == (pid == 1 || euid == 0),
{
    pid == 1 || euid == 0
}

/// What the operator picked from the menu.
#[derive(Clone, Copy, Debug, PartialEq, Eq, Structural)]
pub enum Selection {
    Exit,
    Device(usize),
}

/// The menu lists the `count` devices, then an exit entry last.
pub fn classify_selection(selection: usize, count: usize) -> (r: Selection)
    requires
        selection <= count,
    ensures
        selection == count ==> r == Selection::Exit,
        selection < count ==> r == Selection::Device(selection),
{
    if selection == count {
        Selection::Exit
    } else {
        Selection::Device(selection)
    }
}

/// The stages of one run.
#[derive(Clone, Copy, Debug, PartialEq, Eq, Structural)]
pub enum Stage {
    Discovering,
    Filtering,
    AwaitingSelection,
    Resolving,
    Mutating,
    Rebooting,
    Done,
    NoDevicesFound,
    ExitRequested,
}

/// What the outside step of a stage reported.
#[derive(Clone, Copy, Debug, PartialEq, Eq, Structural)]
pub enum Event {
    /// The inventory was read and parsed.
    Listed,
    /// The partition filter left `count` devices.
    Filtered { count: usize },
    /// The operator chose the exit entry.
    ChoseExit,
    /// The operator chose a device.
    ChoseDevice,
    /// The boot-entry resolver found an entry, or not.
    Resolved { found: bool },
    /// The boot-order change took effect, or not.
    Mutated { ok: bool },
    /// The reboot was issued.
    RebootIssued,
}

pub open spec fn next_stage(platform: Platform, stage: Stage, event: Event) -> Stage {
    match (stage, event) {
        (Stage::Discovering, Event::Listed) => Stage::Filtering,
        (Stage::Filtering, Event::Filtered { count }) => if count == 0 {
            Stage::NoDevicesFound
        } else {
            Stage::AwaitingSelection
        },
        (Stage::AwaitingSelection, Event::ChoseExit) => Stage::ExitRequested,
        (Stage::AwaitingSelection, Event::ChoseDevice) => if platform == Platform::Linux {
            Stage::Resolving
        } else {
            Stage::Mutating
        },
        (Stage::Resolving, Event::Resolved { found }) => if found {
            Stage::Mutating
        } else {
            Stage::Rebooting
        },
        (Stage::Mutating, Event::Mutated { ok: _ }) => Stage::Rebooting,
        (Stage::Rebooting, Event::RebootIssued) => Stage::Done,
        _ => stage,
    }
}

pub open spec fn is_terminal(stage: Stage) -> bool {
    stage == Stage::Done || stage == Stage::NoDevicesFound || stage == Stage::ExitRequested
}

/// The stage after `stage` once its outside step reported `event`. An event
/// that does not belong to the stage leaves it where it is.
pub fn step(platform: Platform, stage: Stage, event: Event) -> (r: Stage)
    ensures
        r == next_stage(platform, stage, event),
{
    match (stage, event) {
        (Stage::Discovering, Event::Listed) => Stage::Filtering,
        (Stage::Filtering, Event::Filtered { count }) => {
            if count == 0 {
                Stage::NoDevicesFound
            } else {
                Stage::AwaitingSelection
            }
        },
        (Stage::AwaitingSelection, Event::ChoseExit) => Stage::ExitRequested,
        (Stage::AwaitingSelection, Event::ChoseDevice) => {
            if platform == Platform::Linux {
                Stage::Resolving
            } else {
                Stage::Mutating
            }
        },
        (Stage::Resolving, Event::Resolved { found }) => {
            if found {
                Stage::Mutating
            } else {
                Stage::Rebooting
            }
        },
        (Stage::Mutating, Event::Mutated { ok: _ }) => Stage::Rebooting,
        (Stage::Rebooting, Event::RebootIssued) => Stage::Done,
        _ => stage,
    }
}

/// Whatever the resolver and the boot-order change report, a run that
/// reaches resolution goes on to reboot.
pub proof fn lemma_resolution_reaches_reboot(platform: Platform, found: bool, ok: bool)
    ensures
        ({
            let s = next_stage(platform, Stage::Resolving, Event::Resolved { found });
            s == Stage::Rebooting || (s == Stage::Mutating && next_stage(
                platform,
                s,
                Event::Mutated { ok },
            ) == Stage::Rebooting)
        }),
{
}

/// An empty device list ends the run: no event leads out of it, so no
/// selection, resolution or boot-order change follows.
pub proof fn lemma_no_devices_ends_run(platform: Platform, event: Event)
    ensures
        next_stage(platform, Stage::Filtering, Event::Filtered { count: 0 })
            == Stage::NoDevicesFound,
        next_stage(platform, Stage::NoDevicesFound, event) == Stage::NoDevicesFound,
{
}

/// The terminal stages have no way out.
pub proof fn lemma_terminal_stays(platform: Platform, stage: Stage, event: Event)
    requires
        is_terminal(stage),
    ensures
        next_stage(platform, stage, event) == stage,
{
}

} // verus!
