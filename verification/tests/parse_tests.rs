use simboot::parser::parse_devices;

#[test]
fn one_section_yields_one_record_per_line() {
    let text = "== Devices ==\n\
                -- iOS 17.0 --\n\
                \u{20}   iPhone 15 (AAAA-1111) (Shutdown)\n\
                \u{20}   iPhone 15 Pro (BBBB-2222) (Booted)\n";
    let devices = parse_devices(text);
    assert_eq!(devices.len(), 2);
    assert_eq!(devices[0].name, "iPhone 15");
    assert_eq!(devices[0].udid, "AAAA-1111");
    assert_eq!(devices[0].ios_version, "iOS 17.0");
    assert_eq!(devices[0].status, "Shutdown");
    assert_eq!(devices[1].name, "iPhone 15 Pro");
    assert_eq!(devices[1].udid, "BBBB-2222");
    assert_eq!(devices[1].ios_version, "iOS 17.0");
    assert_eq!(devices[1].status, "Booted");
}

#[test]
fn versions_come_from_the_most_recent_header() {
    let text = "-- iOS 16.4 --\n\
                iPad Air (CCCC) (Shutdown)\n\
                -- iOS 17.0 --\n\
                iPhone 15 (DDDD) (Booted)\n";
    let devices = parse_devices(text);
    assert_eq!(devices.len(), 2);
    assert_eq!(devices[0].ios_version, "iOS 16.4");
    assert_eq!(devices[1].ios_version, "iOS 17.0");
}

#[test]
fn device_before_any_header_gets_empty_version() {
    let devices = parse_devices("iPhone 15 (AAAA) (Booted)");
    assert_eq!(devices.len(), 1);
    assert_eq!(devices[0].ios_version, "");
}

#[test]
fn line_with_one_group_is_dropped_entirely() {
    let text = "-- iOS 17.0 --\n\
                iPhone 15 (OnlyOneField)\n\
                iPad (CCCC) (Booted)\n";
    let devices = parse_devices(text);
    assert_eq!(devices.len(), 1);
    assert_eq!(devices[0].name, "iPad");
    assert_eq!(devices[0].udid, "CCCC");
}

#[test]
fn line_with_three_groups_is_dropped() {
    let devices = parse_devices("A (B) (C) (D)");
    assert_eq!(devices.len(), 0);
}

#[test]
fn empty_text_yields_no_devices() {
    assert_eq!(parse_devices("").len(), 0);
}

#[test]
fn unrelated_lines_are_ignored() {
    let text = "== Devices ==\nrandom noise\n\n-- iOS 17.0 --\nno parens here\n";
    assert_eq!(parse_devices(text).len(), 0);
}

#[test]
fn header_with_extra_dashes_is_trimmed() {
    let text = "---- iOS 17.2 ----\niPhone 15 (EEEE) (Shutdown)\n";
    let devices = parse_devices(text);
    assert_eq!(devices.len(), 1);
    assert_eq!(devices[0].ios_version, "iOS 17.2");
}

#[test]
fn status_keeps_inner_text_and_loses_trailing_parens() {
    let devices = parse_devices("X (U) (Shutdown (unavailable))");
    assert_eq!(devices.len(), 1);
    assert_eq!(devices[0].udid, "U");
    assert_eq!(devices[0].status, "Shutdown (unavailable");
}

#[test]
fn windows_line_endings_are_tolerated() {
    let text = "-- iOS 17.0 --\r\niPhone 15 (AAAA) (Booted)\r\n";
    let devices = parse_devices(text);
    assert_eq!(devices.len(), 1);
    assert_eq!(devices[0].ios_version, "iOS 17.0");
    assert_eq!(devices[0].status, "Booted");
}
