//! The partition filter: keeps only the disks that hold a partition.
use vstd::prelude::*;
use crate::device::{device_views, BootDevice, DeviceView};
use crate::text::{chars_of, contains, contains_exec, lines, split_lines, views};

verus! {

/// The partition query's marker for a partition-type row.
pub open spec fn partition_marker() -> Seq<char> {
    seq!['p', 'a', 'r', 't']
}

/// Some line of the partition query's output names a partition.
pub open spec fn lists_partition(text: Seq<char>) -> bool {
    exists|i: int| 0 <= i < lines(text).len() && contains(lines(text)[i], partition_marker())
}

/// Whether the partition query's output `text` shows a partition row.
pub fn has_partition_row(text: &str) -> (r: bool)
    ensures
        r == lists_partition(text@),
{
    let marker = chars_of("part");
    proof {
        reveal_strlit("part");
        assert(marker@ =~= partition_marker());
    }
    let ls = split_lines(text);
    let mut i: usize = 0;
    while i < ls.len()
        invariant
            i <= ls@.len(),
            views(ls@) == lines(text@),
            marker@ == partition_marker(),
            forall|j: int| 0 <= j < i ==> !contains(lines(text@)[j], partition_marker()),
        decreases ls@.len() - i,
    {
        let cs = chars_of(ls[i].as_str());
        assert(views(ls@)[i as int] == ls@[i as int]@);
        if contains_exec(&cs, &marker) {
            return true;
        }
        i = i + 1;
    }
    false
}

/// The devices of `ds` whose flag in `flags` is set, in order.
pub open spec fn keep_flagged(ds: Seq<DeviceView>, flags: Seq<bool>) -> Seq<DeviceView>
    decreases ds.len(),
{
    if ds.len() == 0 || flags.len() == 0 {
        Seq::empty()
    } else {
        let before = keep_flagged(ds.drop_last(), flags.drop_last());
        if flags.last() {
            before.push(ds.last())
        } else {
            before
        }
    }
}

/// Keeps the devices whose partition query found a partition;
/// `has_partitions[i]` is that answer for `devices[i]`, false where the query
/// could not be run.
pub fn keep_partitioned(devices: &Vec<BootDevice>, has_partitions: &Vec<bool>) -> (r: Vec<
    BootDevice,
>)
    requires
        devices@.len() == has_partitions@.len(),
    ensures
        device_views(r@) == keep_flagged(device_views(devices@), has_partitions@),
{
    let mut out: Vec<BootDevice> = Vec::new();
    let mut i: usize = 0;
    proof {
        assert(device_views(out@) =~= keep_flagged(
            device_views(devices@).subrange(0, 0),
            has_partitions@.subrange(0, 0),
        ));
    }
    while i < devices.len()
        invariant
            i <= devices@.len() == has_partitions@.len(),
            device_views(out@) == keep_flagged(
                device_views(devices@).subrange(0, i as int),
                has_partitions@.subrange(0, i as int),
            ),
        decreases devices@.len() - i,
    {
        let ghost before = out@;
        proof {
            assert(device_views(devices@).subrange(0, i + 1).drop_last() =~= device_views(
                devices@,
            ).subrange(0, i as int));
            assert(has_partitions@.subrange(0, i + 1).drop_last() =~= has_partitions@.subrange(
                0,
                i as int,
            ));
        }
        if has_partitions[i] {
            out.push(devices[i].duplicate());
            proof {
                assert(device_views(out@) =~= device_views(before).push(devices@[i as int]@));
            }
        }
        i = i + 1;
    }
    proof {
        assert(device_views(devices@).subrange(0, i as int) =~= device_views(devices@));
        assert(has_partitions@.subrange(0, i as int) =~= has_partitions@);
    }
    out
}

/// The filter never adds a device: what it keeps is no longer than what it
/// was given.
pub proof fn lemma_filter_never_grows(ds: Seq<DeviceView>, flags: Seq<bool>)
    requires
        ds.len() == flags.len(),
    ensures
        keep_flagged(ds, flags).len() <= ds.len(),
    decreases ds.len(),
{
    if ds.len() > 0 {
        lemma_filter_never_grows(ds.drop_last(), flags.drop_last());
    }
}

} // verus!
