use root_boot::boot_entry::{bare_name_exec, entry_number_exec, names_device_exec, resolve_boot_entry};
use root_boot::text::{remove_all_exec, split_lines, split_whitespace};

#[test]
fn end_to_end_scenario_b() {
    let listing = "Boot0001* HD(1,GPT,...)sda...\nBoot0002  HD(1,GPT,...)sdb...\n";
    assert_eq!(resolve_boot_entry(listing, "/dev/sda"), Some("0001".to_string()));
}

#[test]
fn first_matching_line_decides() {
    let listing = "BootCurrent: 0003\nBoot0003* HD(1,GPT,x)sda part one\nBoot0004* HD(2,GPT,y)sda part two\n";
    assert_eq!(resolve_boot_entry(listing, "/dev/sda"), Some("0003".to_string()));
}

#[test]
fn line_without_entry_number_is_passed_over() {
    let listing = "* HD(1,GPT)sda\nBoot0007* HD(1,GPT)sda\n";
    assert_eq!(resolve_boot_entry(listing, "/dev/sda"), Some("0007".to_string()));
}

#[test]
fn no_disk_line_means_not_found() {
    let listing = "BootCurrent: 0001\nBootOrder: 0001,0002\nBoot0001* Windows Boot Manager\n";
    assert_eq!(resolve_boot_entry(listing, "/dev/sda"), None);
    assert_eq!(resolve_boot_entry("", "/dev/sda"), None);
    assert_eq!(resolve_boot_entry("Boot0001* HD(1,GPT)sdb\n", "/dev/sda"), None);
}

#[test]
fn entry_numbers_are_cut_between_boot_and_star() {
    assert_eq!(entry_number_exec("Boot0001* HD(1,GPT,...)sda..."), Some("0001".to_string()));
    assert_eq!(
        entry_number_exec("Boot0002  HD(1,GPT,...)sdb..."),
        Some("0002  HD(1,GPT,...)sdb...".to_string())
    );
    assert_eq!(entry_number_exec("xBoot12Boot34*"), Some("12".to_string()));
    assert_eq!(entry_number_exec("HD(1)*Boot0001"), None);
    assert_eq!(entry_number_exec(""), None);
}

#[test]
fn disk_lines_name_the_device() {
    assert!(names_device_exec("Boot0001* HD(1,GPT)sda", "sda"));
    assert!(!names_device_exec("Boot0001* PciRoot sda", "sda"));
    assert!(!names_device_exec("Boot0001* HD(1,GPT)sdb", "sda"));
}

#[test]
fn bare_names_drop_the_device_directory() {
    assert_eq!(bare_name_exec("/dev/sda"), "sda");
    assert_eq!(bare_name_exec("/dev/nvme0n1"), "nvme0n1");
    assert_eq!(bare_name_exec("sda"), "sda");
    assert_eq!(remove_all_exec("a/dev/b/dev/c", "/dev/"), "abc");
    assert_eq!(remove_all_exec("aaa", "aa"), "a");
}

#[test]
fn lines_follow_line_endings() {
    assert_eq!(split_lines("a\r\nb\n\nc"), vec!["a", "b", "", "c"]);
    assert_eq!(split_lines("a\n"), vec!["a"]);
    assert_eq!(split_lines("a\r"), vec!["a\r"]);
    assert!(split_lines("").is_empty());
}

#[test]
fn tokens_are_runs_of_non_whitespace() {
    assert_eq!(split_whitespace("  a  bc\td \n"), vec!["a", "bc", "d"]);
    assert!(split_whitespace(" \t ").is_empty());
}
