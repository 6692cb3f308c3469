use root_boot::commands::{
    device_set_invocation, elevation_invocation, entry_listing_invocation, entry_set_invocation,
    inventory_invocation, partition_query_invocation, partition_target_exec, reboot_invocation,
    Invocation,
};
use root_boot::device::Platform;
use root_boot::flow::{
    classify_selection, is_privileged, parse_cli, step, CliAction, Event, Selection, Stage,
};

fn owned(v: &[&str]) -> Vec<String> {
    v.iter().map(|s| s.to_string()).collect()
}

fn parts(i: &Invocation) -> (String, Vec<String>) {
    (i.program.clone(), i.args.clone())
}

#[test]
fn end_to_end_scenario_c() {
    let s = step(Platform::Linux, Stage::Filtering, Event::Filtered { count: 0 });
    assert_eq!(s, Stage::NoDevicesFound);
    for e in [Event::ChoseDevice, Event::Resolved { found: true }, Event::Mutated { ok: true }, Event::RebootIssued] {
        assert_eq!(step(Platform::Linux, s, e), Stage::NoDevicesFound);
    }
}

#[test]
fn a_full_run_reaches_done() {
    let mut s = Stage::Discovering;
    for e in [
        Event::Listed,
        Event::Filtered { count: 2 },
        Event::ChoseDevice,
        Event::Resolved { found: true },
        Event::Mutated { ok: false },
        Event::RebootIssued,
    ] {
        s = step(Platform::Linux, s, e);
    }
    assert_eq!(s, Stage::Done);
}

#[test]
fn unresolved_entry_still_reboots() {
    assert_eq!(
        step(Platform::Linux, Stage::Resolving, Event::Resolved { found: false }),
        Stage::Rebooting
    );
    assert_eq!(step(Platform::Windows, Stage::AwaitingSelection, Event::ChoseDevice), Stage::Mutating);
    assert_eq!(step(Platform::Linux, Stage::AwaitingSelection, Event::ChoseDevice), Stage::Resolving);
    assert_eq!(step(Platform::Linux, Stage::AwaitingSelection, Event::ChoseExit), Stage::ExitRequested);
    assert_eq!(step(Platform::Linux, Stage::Discovering, Event::RebootIssued), Stage::Discovering);
}

#[test]
fn command_line_is_read() {
    assert_eq!(parse_cli(&owned(&["root_boot"])), CliAction::Run);
    assert_eq!(parse_cli(&owned(&["root_boot", "-v"])), CliAction::ShowVersion);
    assert_eq!(parse_cli(&owned(&["root_boot", "--version"])), CliAction::ShowVersion);
    assert_eq!(parse_cli(&owned(&["root_boot", "--help"])), CliAction::ShowUsage);
}

#[test]
fn privilege_gate() {
    assert!(is_privileged(1, 1000));
    assert!(is_privileged(4242, 0));
    assert!(!is_privileged(4242, 1000));
}

#[test]
fn last_menu_entry_exits() {
    assert_eq!(classify_selection(2, 2), Selection::Exit);
    assert_eq!(classify_selection(0, 2), Selection::Device(0));
    assert_eq!(classify_selection(0, 0), Selection::Exit);
}

#[test]
fn invocations_carry_their_arguments() {
    assert_eq!(
        parts(&inventory_invocation(Platform::Linux)),
        ("lsblk".to_string(), owned(&["-d", "-o", "NAME,MODEL,SIZE"]))
    );
    assert_eq!(
        parts(&inventory_invocation(Platform::Windows)),
        ("wmic".to_string(), owned(&["diskdrive", "get", "DeviceID,Model,Size"]))
    );
    assert_eq!(
        parts(&partition_query_invocation("/dev/sda")),
        ("lsblk".to_string(), owned(&["/dev/sda", "-o", "TYPE"]))
    );
    assert_eq!(parts(&entry_listing_invocation()), ("efibootmgr".to_string(), vec![]));
    assert_eq!(parts(&entry_set_invocation("0001")), ("efibootmgr".to_string(), owned(&["-o", "0001"])));
    assert_eq!(
        parts(&device_set_invocation("\\\\.\\PHYSICALDRIVE1")),
        ("bcdedit".to_string(), owned(&["/set", "{bootmgr}", "device", "partition=1:"]))
    );
    assert_eq!(parts(&reboot_invocation(Platform::Linux)), ("sudo".to_string(), owned(&["reboot"])));
    assert_eq!(
        parts(&reboot_invocation(Platform::Windows)),
        ("shutdown".to_string(), owned(&["/r", "/t", "0"]))
    );
    assert_eq!(
        parts(&elevation_invocation("/usr/bin/root_boot", &owned(&["-x", "y"]))),
        ("sudo".to_string(), owned(&["-S", "/usr/bin/root_boot", "-x", "y"]))
    );
}

#[test]
fn partition_target_uses_last_character() {
    assert_eq!(partition_target_exec("D"), "partition=D:");
    assert_eq!(partition_target_exec(""), "partition=C:");
}
