//! The boot-entry resolver: finds the boot-table entry of a chosen device.
use vstd::prelude::*;
use crate::device::{path_prefix, Platform};
use crate::text::{
    chars_of, contains, contains_exec, find, find_from, lemma_find_from, lines, remove_all,
    remove_all_exec, split_lines, views,
};

verus! {

/// The descriptor that marks a hard-disk boot entry.
pub open spec fn disk_marker() -> Seq<char> {
    seq!['H', 'D', '(']
}

/// The word that stands before an entry's number.
pub open spec fn boot_marker() -> Seq<char> {
    seq!['B', 'o', 'o', 't']
}

/// A device's bare name: its path with the device directory taken out.
pub open spec fn bare_name(path: Seq<char>) -> Seq<char> {
    remove_all(path, path_prefix(Platform::Linux))
}

/// A line up to its first `*`, or the whole line where it has none.
pub open spec fn before_star(l: Seq<char>) -> Seq<char> {
    match find_from(l, seq!['*'], 0) {
        Some(k) => l.subrange(0, k),
        None => l,
    }
}

/// The entry number of a listing line: in the part before the first `*`, what
/// follows the first `Boot`, up to the next `Boot` or the end.
pub open spec fn entry_number(l: Seq<char>) -> Option<Seq<char>> {
    let p = before_star(l);
    match find_from(p, boot_marker(), 0) {
        None => None,
        Some(i) => match find_from(p, boot_marker(), i + 4) {
            Some(j) => Some(p.subrange(i + 4, j)),
            None => Some(p.subrange(i + 4, p.len() as int)),
        },
    }
}

/// The line describes a disk entry and mentions the device's bare name.
pub open spec fn names_device(l: Seq<char>, name: Seq<char>) -> bool {
    contains(l, disk_marker()) && contains(l, name)
}

/// The entry number of the first line that names the device and carries one.
pub open spec fn resolve_entry(ls: Seq<Seq<char>>, name: Seq<char>) -> Option<Seq<char>>
    decreases ls.len(),
{
    if ls.len() == 0 {
        None
    } else if names_device(ls[0], name) && entry_number(ls[0]) is Some {
        entry_number(ls[0])
    } else {
        resolve_entry(ls.drop_first(), name)
    }
}

pub open spec fn opt_view(r: Option<String>) -> Option<Seq<char>> {
    match r {
        Some(s) => Some(s@),
        None => None,
    }
}

/// The bare name of the device at `path`.
pub fn bare_name_exec(path: &str) -> (r: String)
    ensures
        r@ == bare_name(path@),
{
    proof {
        reveal_strlit("/dev/");
        assert("/dev/"@ =~= path_prefix(Platform::Linux));
    }
    remove_all_exec(path, "/dev/")
}

/// The entry number that a boot-table line carries, if any.
pub fn entry_number_exec(line: &str) -> (r: Option<String>)
    ensures
        opt_view(r) == entry_number(line@),
{
    let cs = chars_of(line);
    let star = chars_of("*");
    let boot = chars_of("Boot");
    proof {
        reveal_strlit("*");
        reveal_strlit("Boot");
        assert(star@ =~= seq!['*']);
        assert(boot@ =~= boot_marker());
        lemma_find_from(cs@, star@, 0);
    }
    let end = match find(&cs, &star, 0) {
        Some(k) => k,
        None => cs.len(),
    };
    let p = line.substring_char(0, end);
    let pcs = chars_of(p);
    proof {
        assert(p@ == before_star(line@)) by {
            if end == cs@.len() {
                assert(cs@.subrange(0, end as int) =~= cs@);
            }
        }
        lemma_find_from(pcs@, boot@, 0);
    }
    match find(&pcs, &boot, 0) {
        None => None,
        Some(i) => {
            let from = i + 4;
            proof {
                lemma_find_from(pcs@, boot@, from as int);
            }
            let to = match find(&pcs, &boot, from) {
                Some(j) => j,
                None => pcs.len(),
            };
            Some(String::from_str(p.substring_char(from, to)))
        },
    }
}

/// Whether a boot-table line describes a disk and mentions `name`.
pub fn names_device_exec(line: &str, name: &str) -> (r: bool)
    ensures
        r == names_device(line@, name@),
{
    let cs = chars_of(line);
    let marker = chars_of("HD(");
    proof {
        reveal_strlit("HD(");
        assert(marker@ =~= disk_marker());
    }
    let ns = chars_of(name);
    contains_exec(&cs, &marker) && contains_exec(&cs, &ns)
}

/// The boot-table entry of the device at `device_path`, from the listing that
/// the boot-configuration utility printed: the entry number of the first line
/// that describes a disk, mentions the device's bare name and carries a
/// number. None where no line does.
pub fn resolve_boot_entry(listing: &str, device_path: &str) -> (r: Option<String>)
    ensures
        opt_view(r) == resolve_entry(lines(listing@), bare_name(device_path@)),
{
    let name = bare_name_exec(device_path);
    let ls = split_lines(listing);
    let ghost all = views(ls@);
    let mut i: usize = 0;
    proof {
        assert(all.skip(0) =~= all);
    }
    while i < ls.len()
        invariant
            i <= ls@.len(),
            all == views(ls@),
            all == lines(listing@),
            name@ == bare_name(device_path@),
            resolve_entry(all.skip(i as int), name@) == resolve_entry(all, name@),
        decreases ls@.len() - i,
    {
        proof {
            assert(all.skip(i as int).drop_first() =~= all.skip(i + 1));
            assert(all.skip(i as int)[0] == ls@[i as int]@);
        }
        let line = ls[i].as_str();
        if names_device_exec(line, name.as_str()) {
            let e = entry_number_exec(line);
            if e.is_some() {
                return e;
            }
        }
        i = i + 1;
    }
    proof {
        assert(all.skip(i as int).len() == 0);
    }
    None
}

/// The first line that names the device and carries an entry number decides:
/// no later line does.
pub proof fn lemma_first_match_wins(ls: Seq<Seq<char>>, name: Seq<char>, i: int)
    requires
        0 <= i < ls.len(),
        names_device(ls[i], name),
        entry_number(ls[i]) is Some,
        forall|j: int|
            0 <= j < i ==> !(names_device(#[trigger] ls[j], name) && entry_number(ls[j]) is Some),
    ensures
        resolve_entry(ls, name) == entry_number(ls[i]),
    decreases i,
{
    if i > 0 {
        let rest = ls.drop_first();
        assert forall|j: int|
            0 <= j < i - 1 implies !(names_device(#[trigger] rest[j], name) && entry_number(
            rest[j],
        ) is Some) by {
            assert(rest[j] == ls[j + 1]);
        }
        assert(!(names_device(ls[0], name) && entry_number(ls[0]) is Some));
        lemma_first_match_wins(rest, name, i - 1);
    }
}

/// A listing in which no line holds the disk descriptor resolves to nothing.
pub proof fn lemma_no_disk_line_not_found(ls: Seq<Seq<char>>, name: Seq<char>)
    requires
        forall|i: int| 0 <= i < ls.len() ==> !contains(#[trigger] ls[i], disk_marker()),
    ensures
        resolve_entry(ls, name) is None,
    decreases ls.len(),
{
    if ls.len() > 0 {
        let rest = ls.drop_first();
        assert forall|i: int| 0 <= i < rest.len() implies !contains(
            #[trigger] rest[i],
            disk_marker(),
        ) by {
            assert(rest[i] == ls[i + 1]);
        }
        assert(!contains(ls[0], disk_marker()));
        lemma_no_disk_line_not_found(rest, name);
    }
}

} // verus!
