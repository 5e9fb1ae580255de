//! Deciding what a boot request does.
//!
//! The library only decides; running the external boot command and opening
//! the simulator application are left to the caller, who reports the
//! command's exit back through [`boot_follow_up`].

use vstd::prelude::*;
use crate::device::{Device, DeviceView};
use crate::filter::{lower_of, lowercase};
use crate::text::contains_sub;

verus! {

/// What a boot request resolves to: no device of that name, a device that
/// is already booted (success, nothing to run), or a device that the
/// external boot command must be run for, addressed by index into the list.
#[derive(PartialEq, Eq, Structural, Debug, Clone, Copy)]
pub enum BootPlan {
    NotFound,
    AlreadyBooted { index: usize },
    Boot { index: usize },
}

/// What follows the external boot command: open the simulator application
/// on success, report the failure otherwise.
#[derive(PartialEq, Eq, Structural, Debug, Clone, Copy)]
pub enum BootFollowUp {
    OpenSimulatorApp,
    ReportFailure,
}

/// Index of the first device whose name equals `name` up to case, or -1
/// when there is none.
pub open spec fn device_index(ds: Seq<DeviceView>, name: Seq<char>) -> int
    decreases ds.len(),
{
    if ds.len() == 0 {
        -1
    } else if lower_of(ds[0].name) == lower_of(name) {
        0
    } else if device_index(ds.drop_first(), name) < 0 {
        -1
    } else {
        device_index(ds.drop_first(), name) + 1
    }
}

/// `device_index` returns the position of the first case-insensitive name
/// match, or -1 when no position matches.
pub proof fn lemma_device_index(ds: Seq<DeviceView>, name: Seq<char>)
    ensures
        device_index(ds, name) == -1 || 0 <= device_index(ds, name) < ds.len(),
        device_index(ds, name) >= 0 ==> lower_of(ds[device_index(ds, name)].name) == lower_of(
            name,
        ),
        forall|k: int|
            0 <= k < device_index(ds, name) ==> lower_of(ds[k].name) != lower_of(name),
        device_index(ds, name) == -1 ==> forall|k: int|
            0 <= k < ds.len() ==> lower_of(ds[k].name) != lower_of(name),
    decreases ds.len(),
{
    if ds.len() == 0 {
    } else if lower_of(ds[0].name) == lower_of(name) {
    } else {
        let d1 = ds.drop_first();
        lemma_device_index(d1, name);
        assert forall|k: int| 1 <= k < ds.len() implies ds[k] == d1[k - 1] by {}
    }
}

/// Resolve a boot request against the parsed list: find the first device
/// whose name matches `device_name` up to case; report it as already booted
/// when its status says so, as needing the boot command otherwise, and as
/// not found when no name matches. No external action is decided for an
/// unknown name.
pub fn plan_boot(device_name: &str, devices: &Vec<Device>) -> (p: BootPlan)
    ensures
        ({
            let i = device_index(devices.deep_view(), device_name@);
            &&& i == -1 ==> p == BootPlan::NotFound
            &&& i >= 0 && contains_sub(devices.deep_view()[i].status, "Booted"@) ==> p == (
            BootPlan::AlreadyBooted { index: i as usize })
            &&& i >= 0 && !contains_sub(devices.deep_view()[i].status, "Booted"@) ==> p == (
            BootPlan::Boot { index: i as usize })
        }),
{
    let ghost ds = devices.deep_view();
    let target = lowercase(device_name);
    let mut i: usize = 0;
    while i < devices.len()
        invariant
            i <= devices@.len(),
            ds == devices.deep_view(),
            target@ == lower_of(device_name@),
            forall|k: int| 0 <= k < i ==> lower_of(ds[k].name) != lower_of(device_name@),
        decreases devices@.len() - i,
    {
        let dn = lowercase(devices[i].name.as_str());
        if dn == target {
            proof {
                lemma_device_index(ds, device_name@);
                let f = device_index(ds, device_name@);
                if f == -1 {
                    assert(lower_of(ds[i as int].name) != lower_of(device_name@));
                }
                if f > i {
                    assert(lower_of(ds[i as int].name) != lower_of(device_name@));
                }
            }
            if devices[i].is_booted() {
                return BootPlan::AlreadyBooted { index: i };
            } else {
                return BootPlan::Boot { index: i };
            }
        }
        i += 1;
    }
    proof {
        lemma_device_index(ds, device_name@);
        let f = device_index(ds, device_name@);
        if f >= 0 {
            assert(lower_of(ds[f].name) == lower_of(device_name@));
            assert(false);
        }
    }
    BootPlan::NotFound
}

/// Decide what follows the external boot command, from its exit status:
/// open the simulator application when it succeeded, report the failure
/// when it did not.
pub fn boot_follow_up(boot_succeeded: bool) -> (r: BootFollowUp)
    ensures
        r == (if boot_succeeded {
            BootFollowUp::OpenSimulatorApp
        } else {
            BootFollowUp::ReportFailure
        }),
{
    if boot_succeeded {
        BootFollowUp::OpenSimulatorApp
    } else {
        BootFollowUp::ReportFailure
    }
}

} // verus!
