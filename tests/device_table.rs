use root_boot::device::{model_of_parts, parse_device_table, parse_row, BootDevice, Platform};
use root_boot::partition::{has_partition_row, keep_partitioned};

fn fields(d: &BootDevice) -> (String, String, String) {
    (d.path().to_string(), d.model().to_string(), d.size().to_string())
}

fn owned(v: &[&str]) -> Vec<String> {
    v.iter().map(|s| s.to_string()).collect()
}

#[test]
fn end_to_end_scenario_a() {
    // "sdb  1T" holds two tokens only, so the table parser passes over it.
    let devices = parse_device_table(Platform::Linux, "NAME MODEL SIZE\nsda SamsungSSD 500G\nsdb  1T\n");
    assert_eq!(devices.len(), 1);
    assert_eq!(
        fields(&devices[0]),
        ("/dev/sda".to_string(), "SamsungSSD".to_string(), "500G".to_string())
    );
}

#[test]
fn well_formed_rows_give_one_device_each_in_order() {
    let text = "NAME MODEL SIZE\nsda Disk A 500G\nnvme0n1 Samsung SSD 970 EVO 1T\nsdc X 2T\n";
    let devices = parse_device_table(Platform::Linux, text);
    assert_eq!(devices.len(), 3);
    assert_eq!(
        fields(&devices[0]),
        ("/dev/sda".to_string(), "Disk A".to_string(), "500G".to_string())
    );
    assert_eq!(
        fields(&devices[1]),
        ("/dev/nvme0n1".to_string(), "Samsung SSD 970 EVO".to_string(), "1T".to_string())
    );
    assert_eq!(fields(&devices[2]), ("/dev/sdc".to_string(), "X".to_string(), "2T".to_string()));
    assert!(devices.iter().all(|d| !d.path().is_empty()));
}

#[test]
fn short_row_is_skipped_without_disturbing_later_rows() {
    let text = "NAME MODEL SIZE\nsda A 1G\nbroken\n\nsdb  2G\nsdc C 3G";
    let devices = parse_device_table(Platform::Linux, text);
    assert_eq!(devices.len(), 2);
    assert_eq!(fields(&devices[0]).0, "/dev/sda");
    assert_eq!(fields(&devices[1]), ("/dev/sdc".to_string(), "C".to_string(), "3G".to_string()));
}

#[test]
fn header_only_and_empty_tables_have_no_devices() {
    assert!(parse_device_table(Platform::Linux, "NAME MODEL SIZE\n").is_empty());
    assert!(parse_device_table(Platform::Linux, "").is_empty());
    assert!(parse_device_table(Platform::Linux, "sda A 1G\n").is_empty());
}

#[test]
fn windows_table_keeps_identifiers_as_they_are() {
    let text = "DeviceID  Model  Size\r\n\\\\.\\PHYSICALDRIVE0  WDC WD10EZEX  1000202273280\r\n\r\n";
    let devices = parse_device_table(Platform::Windows, text);
    assert_eq!(devices.len(), 1);
    assert_eq!(
        fields(&devices[0]),
        (
            "\\\\.\\PHYSICALDRIVE0".to_string(),
            "WDC WD10EZEX".to_string(),
            "1000202273280".to_string()
        )
    );
}

#[test]
fn tabs_and_unicode_spaces_separate_tokens() {
    let d = parse_row("sda\tFast\u{a0}Disk \u{3000} 8G\r", "/dev/").unwrap();
    assert_eq!(fields(&d), ("/dev/sda".to_string(), "Fast Disk".to_string(), "8G".to_string()));
    assert!(parse_row("  sda   8G  ", "/dev/").is_none());
}

#[test]
fn blank_model_reads_unknown() {
    let parts = owned(&["sdb", "1T"]);
    assert_eq!(model_of_parts(&parts, 1, 1), "Unknown");
    let parts = owned(&["sda", "Samsung", "SSD", "1T"]);
    assert_eq!(model_of_parts(&parts, 1, 3), "Samsung SSD");
}

#[test]
fn display_shows_model_size_and_path() {
    let d = BootDevice::new("/dev/sda".to_string(), "SamsungSSD".to_string(), "500G".to_string());
    assert_eq!(d.display(), "SamsungSSD 500G (/dev/sda)");
    let c = d.duplicate();
    assert_eq!(fields(&c), fields(&d));
}

#[test]
fn partition_rows_are_recognised() {
    assert!(has_partition_row("TYPE\ndisk\npart\npart\n"));
    assert!(!has_partition_row("TYPE\ndisk\n"));
    assert!(!has_partition_row(""));
    assert!(!has_partition_row("TYPE\ndisk\npa\nrt\n"));
}

#[test]
fn partition_filter_keeps_flagged_devices_in_order() {
    let devices = parse_device_table(Platform::Linux, "NAME MODEL SIZE\nsda A 1G\nsdb B 2G\nsdc C 3G\n");
    let kept = keep_partitioned(&devices, &vec![true, false, true]);
    assert_eq!(kept.len(), 2);
    assert!(kept.len() <= devices.len());
    assert_eq!(kept[0].path(), "/dev/sda");
    assert_eq!(kept[1].path(), "/dev/sdc");
    assert!(keep_partitioned(&devices, &vec![false, false, false]).is_empty());
    assert_eq!(keep_partitioned(&devices, &vec![true, true, true]).len(), 3);
}
