//! The utility invocations that the tool issues, built as plain values.
use vstd::prelude::*;
use crate::device::Platform;
use crate::text::views;

verus! {

/// A program to run and its arguments.
pub struct Invocation {
    pub program: String,
    pub args: Vec<String>,
}

pub open spec fn invokes(r: Invocation, program: Seq<char>, args: Seq<Seq<char>>) -> bool {
    r.program@ == program && views(r.args@) == args
}

fn owned(s: &str) -> (r: String)
    ensures
        r@ == s@,
{
    String::from_str(s)
}

/// The device-listing utility, asked for name, model and size columns.
pub fn inventory_invocation(platform: Platform) -> (r: Invocation)
    ensures
        platform == Platform::Linux ==> invokes(
            r,
            "lsblk"@,
            seq!["-d"@, "-o"@, "NAME,MODEL,SIZE"@],
        ),
        platform == Platform::Windows ==> invokes(
            r,
            "wmic"@,
            seq!["diskdrive"@, "get"@, "DeviceID,Model,Size"@],
        ),
{
    match platform {
        Platform::Linux => {
            let r = Invocation {
                program: owned("lsblk"),
                args: vec![owned("-d"), owned("-o"), owned("NAME,MODEL,SIZE")],
            };
            assert(views(r.args@) =~= seq!["-d"@, "-o"@, "NAME,MODEL,SIZE"@]);
            r
        },
        Platform::Windows => {
            let r = Invocation {
                program: owned("wmic"),
                args: vec![owned("diskdrive"), owned("get"), owned("DeviceID,Model,Size")],
            };
            assert(views(r.args@) =~= seq!["diskdrive"@, "get"@, "DeviceID,Model,Size"@]);
            r
        },
    }
}

/// The per-device partition query, asked for the type column.
pub fn partition_query_invocation(path: &str) -> (r: Invocation)
    ensures
        invokes(r, "lsblk"@, seq![path@, "-o"@, "TYPE"@]),
{
    let r = Invocation { program: owned("lsblk"), args: vec![owned(path), owned("-o"), owned("TYPE")] };
    assert(views(r.args@) =~= seq![path@, "-o"@, "TYPE"@]);
    r
}

/// The boot-entry listing.
pub fn entry_listing_invocation() -> (r: Invocation)
    ensures
        invokes(r, "efibootmgr"@, seq![]),
{
    let r = Invocation { program: owned("efibootmgr"), args: Vec::new() };
    assert(views(r.args@) =~= Seq::<Seq<char>>::empty());
    r
}

/// Sets the boot order to the single entry `entry`.
pub fn entry_set_invocation(entry: &str) -> (r: Invocation)
    ensures
        invokes(r, "efibootmgr"@, seq!["-o"@, entry@]),
{
    let r = Invocation { program: owned("efibootmgr"), args: vec![owned("-o"), owned(entry)] };
    assert(views(r.args@) =~= seq!["-o"@, entry@]);
    r
}

/// The partition that a device path designates: its last character, or `C`
/// for an empty path.
pub open spec fn drive_letter(path: Seq<char>) -> Seq<char> {
    if path.len() > 0 {
        seq![path.last()]
    } else {
        seq!['C']
    }
}

/// The boot manager's device argument for the partition of `path`.
pub open spec fn partition_target(path: Seq<char>) -> Seq<char> {
    "partition="@ + drive_letter(path) + seq![':']
}

pub fn partition_target_exec(path: &str) -> (r: String)
    ensures
        r@ == partition_target(path@),
{
    let n = path.unicode_len();
    let letter = if n > 0 {
        path.substring_char(n - 1, n)
    } else {
        "C"
    };
    proof {
        reveal_strlit("C");
        if n > 0 {
            assert(letter@ =~= seq![path@.last()]);
        } else {
            assert(letter@ =~= seq!['C']);
        }
    }
    let mut r = owned("partition=");
    r.append(letter);
    r.append(":");
    proof {
        reveal_strlit(":");
        assert(r@ =~= partition_target(path@));
    }
    r
}

/// Points the boot manager at the partition of the device at `path`.
pub fn device_set_invocation(path: &str) -> (r: Invocation)
    ensures
        invokes(r, "bcdedit"@, seq!["/set"@, "{bootmgr}"@, "device"@, partition_target(path@)]),
{
    let r = Invocation {
        program: owned("bcdedit"),
        args: vec![owned("/set"), owned("{bootmgr}"), owned("device"), partition_target_exec(path)],
    };
    assert(views(r.args@) =~= seq!["/set"@, "{bootmgr}"@, "device"@, partition_target(path@)]);
    r
}

/// Reboots the machine.
pub fn reboot_invocation(platform: Platform) -> (r: Invocation)
    ensures
        platform == Platform::Linux ==> invokes(r, "sudo"@, seq!["reboot"@]),
        platform == Platform::Windows ==> invokes(r, "shutdown"@, seq!["/r"@, "/t"@, "0"@]),
{
    match platform {
        Platform::Linux => {
            let r = Invocation { program: owned("sudo"), args: vec![owned("reboot")] };
            assert(views(r.args@) =~= seq!["reboot"@]);
            r
        },
        Platform::Windows => {
            let r = Invocation {
                program: owned("shutdown"),
                args: vec![owned("/r"), owned("/t"), owned("0")],
            };
            assert(views(r.args@) =~= seq!["/r"@, "/t"@, "0"@]);
            r
        },
    }
}

/// Relaunches the program at `exe` with `args` through sudo, reading the
/// password from standard input.
pub fn elevation_invocation(exe: &str, args: &Vec<String>) -> (r: Invocation)
    ensures
        invokes(r, "sudo"@, seq!["-S"@, exe@] + views(args@)),
{
    let mut out: Vec<String> = vec![owned("-S"), owned(exe)];
    let mut i: usize = 0;
    proof {
        assert(views(out@) =~= seq!["-S"@, exe@] + views(args@).subrange(0, 0));
    }
    while i < args.len()
        invariant
            i <= args@.len(),
            views(out@) == seq!["-S"@, exe@] + views(args@).subrange(0, i as int),
        decreases args@.len() - i,
    {
        let ghost before = out@;
        out.push(args[i].clone());
        proof {
            assert(views(out@) =~= views(before).push(args@[i as int]@));
            assert(views(args@).subrange(0, i + 1) =~= views(args@).subrange(0, i as int).push(
                args@[i as int]@,
            ));
            assert(views(out@) =~= seq!["-S"@, exe@] + views(args@).subrange(0, i + 1));
        }
        i = i + 1;
    }
    proof {
        assert(views(args@).subrange(0, i as int) =~= views(args@));
    }
    Invocation { program: owned("sudo"), args: out }
}

} // verus!
