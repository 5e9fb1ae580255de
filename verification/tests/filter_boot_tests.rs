use simboot::boot::{plan_boot, boot_follow_up, BootFollowUp, BootPlan};
use simboot::device::Device;
use simboot::filter::should_display_device;

fn sample_devices() -> Vec<Device> {
    vec![
        Device {
            name: String::from("iPhone 15"),
            udid: String::from("AAAA-1111"),
            ios_version: String::from("iOS 17.0"),
            status: String::from("Shutdown"),
        },
        Device {
            name: String::from("iPhone 15 Pro"),
            udid: String::from("BBBB-2222"),
            ios_version: String::from("iOS 17.0"),
            status: String::from("Booted"),
        },
        Device {
            name: String::from("iPad Air"),
            udid: String::from("CCCC-3333"),
            ios_version: String::from("iOS 16.4"),
            status: String::from("Shutdown"),
        },
    ]
}

#[test]
fn filtering_is_case_insensitive_and_substring() {
    let f = String::from("iphone");
    assert!(should_display_device("iPhone 15 Pro", Some(&f)));
    let upper = String::from("IPHONE");
    assert!(should_display_device("iPhone 15 Pro", Some(&upper)));
    let mid = String::from("15 pro");
    assert!(should_display_device("iPhone 15 Pro", Some(&mid)));
    let other = String::from("ipad");
    assert!(!should_display_device("iPhone 15 Pro", Some(&other)));
}

#[test]
fn absent_filter_matches_everything() {
    assert!(should_display_device("anything at all", None));
    assert!(should_display_device("", None));
}

#[test]
fn empty_filter_matches_everything_too() {
    let f = String::new();
    assert!(should_display_device("iPad Air", Some(&f)));
}

#[test]
fn boot_on_booted_device_is_a_reported_no_op() {
    let devices = sample_devices();
    let plan = plan_boot("iphone 15 pro", &devices);
    assert_eq!(plan, BootPlan::AlreadyBooted { index: 1 });
}

#[test]
fn boot_on_unknown_name_is_not_found() {
    let devices = sample_devices();
    assert_eq!(plan_boot("iPhone 99", &devices), BootPlan::NotFound);
}

#[test]
fn boot_name_match_is_exact_not_substring() {
    let devices = sample_devices();
    assert_eq!(plan_boot("iphone", &devices), BootPlan::NotFound);
}

#[test]
fn boot_on_shutdown_device_names_its_index() {
    let devices = sample_devices();
    assert_eq!(plan_boot("IPAD AIR", &devices), BootPlan::Boot { index: 2 });
    assert_eq!(devices[2].udid, "CCCC-3333");
}

#[test]
fn boot_finds_the_first_matching_name() {
    let mut devices = sample_devices();
    devices.push(Device {
        name: String::from("iphone 15"),
        udid: String::from("DDDD-4444"),
        ios_version: String::from("iOS 17.0"),
        status: String::from("Shutdown"),
    });
    assert_eq!(plan_boot("IPHONE 15", &devices), BootPlan::Boot { index: 0 });
}

#[test]
fn follow_up_opens_app_only_on_success() {
    assert_eq!(boot_follow_up(true), BootFollowUp::OpenSimulatorApp);
    assert_eq!(boot_follow_up(false), BootFollowUp::ReportFailure);
}
