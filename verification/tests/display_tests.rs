use simboot::device::Device;
use simboot::listing::{filtered_display_lines, find_by_display};
use simboot::parser::parse_devices;

const SAMPLE: &str = "== Devices ==\n\
    -- iOS 17.0 --\n\
    \u{20}   iPhone 15 (AAAA-1111) (Shutdown)\n\
    \u{20}   iPhone 15 Pro (BBBB-2222) (Booted)\n\
    -- iOS 16.4 --\n\
    \u{20}   iPad Air (CCCC-3333) (Sleeping)\n";

#[test]
fn round_trip_keeps_name_version_and_status() {
    let devices = parse_devices(SAMPLE);
    let lines = filtered_display_lines(&devices, None);
    assert_eq!(lines.len(), devices.len());
    for d in &devices {
        let shown = d.display_string();
        assert!(shown.contains(&d.name));
        assert!(shown.contains(&d.ios_version));
        assert!(shown.contains(&d.status));
    }
    assert_eq!(devices[0].display_string(), "iPhone 15 (iOS 17.0) (Shutdown)");
    assert_eq!(devices[1].display_string(), "iPhone 15 Pro (iOS 17.0) (Booted)");
    assert_eq!(devices[2].display_string(), "iPad Air (iOS 16.4) (Sleeping)");
}

#[test]
fn listing_lines_use_the_status_label() {
    let devices = parse_devices(SAMPLE);
    let lines = filtered_display_lines(&devices, None);
    assert_eq!(lines[0], "iPhone 15 (iOS 17.0) (Shutdown)");
    assert_eq!(lines[1], "iPhone 15 Pro (iOS 17.0) (Booted)");
    assert_eq!(lines[2], "iPad Air (iOS 16.4) (Unknown)");
}

#[test]
fn filtered_listing_keeps_only_matching_names_in_order() {
    let devices = parse_devices(SAMPLE);
    let f = String::from("iphone");
    let lines = filtered_display_lines(&devices, Some(&f));
    assert_eq!(lines.len(), 2);
    assert_eq!(lines[0], "iPhone 15 (iOS 17.0) (Shutdown)");
    assert_eq!(lines[1], "iPhone 15 Pro (iOS 17.0) (Booted)");
}

#[test]
fn status_label_recognizes_known_words() {
    let devices = parse_devices(SAMPLE);
    assert_eq!(devices[0].status_label_string(), "Shutdown");
    assert_eq!(devices[1].status_label_string(), "Booted");
    assert_eq!(devices[2].status_label_string(), "Unknown");
}

#[test]
fn selection_maps_back_to_the_right_device() {
    let devices = parse_devices(SAMPLE);
    let lines = filtered_display_lines(&devices, None);
    assert_eq!(find_by_display(&devices, &lines[1]), Some(1));
    assert_eq!(find_by_display(&devices, &lines[2]), Some(2));
    assert_eq!(find_by_display(&devices, "no such line"), None);
}

#[test]
fn selection_picks_the_first_of_equal_lines() {
    let d = Device {
        name: String::from("iPhone 15"),
        udid: String::from("AAAA"),
        ios_version: String::from("iOS 17.0"),
        status: String::from("Shutdown"),
    };
    let twin = Device {
        name: String::from("iPhone 15"),
        udid: String::from("BBBB"),
        ios_version: String::from("iOS 17.0"),
        status: String::from("Shutdown"),
    };
    let line = d.listing_line_string();
    let devices = vec![d, twin];
    assert_eq!(find_by_display(&devices, &line), Some(0));
}
