//! The displayed catalogue: filtered listing lines, and mapping a picked
//! line back to its device.

use vstd::prelude::*;
use crate::device::{Device, DeviceView, listing_line};
use crate::filter::{filter_matches, should_display_device};

verus! {

/// The listing lines of the devices that pass the filter, in input order.
pub open spec fn display_lines_spec(ds: Seq<DeviceView>, filter: Option<Seq<char>>) -> Seq<
    Seq<char>,
>
    decreases ds.len(),
{
    if ds.len() == 0 {
        Seq::empty()
    } else {
        let rest = display_lines_spec(ds.drop_first(), filter);
        if filter_matches(ds[0].name, filter) {
            seq![listing_line(ds[0])] + rest
        } else {
            rest
        }
    }
}

/// Format the devices that pass the filter, one line each, in input order.
pub fn filtered_display_lines(devices: &Vec<Device>, filter: Option<&String>) -> (r: Vec<String>)
    ensures
        r.deep_view() == display_lines_spec(devices.deep_view(), filter.deep_view()),
{
    let ghost ds = devices.deep_view();
    let mut acc: Vec<String> = Vec::new();
    let mut i: usize = 0;
    proof {
        assert(acc.deep_view() =~= Seq::<Seq<char>>::empty());
        assert(ds.skip(0) =~= ds);
    }
    while i < devices.len()
        invariant
            i <= devices@.len(),
            ds == devices.deep_view(),
            display_lines_spec(ds, filter.deep_view()) == acc.deep_view() + display_lines_spec(
                ds.skip(i as int),
                filter.deep_view(),
            ),
        decreases devices@.len() - i,
    {
        proof {
            assert(ds.skip(i as int)[0] == ds[i as int]);
            assert(ds.skip(i as int).drop_first() =~= ds.skip(i as int + 1));
        }
        let ghost prev = acc.deep_view();
        if should_display_device(devices[i].name.as_str(), filter) {
            let line = devices[i].listing_line_string();
            let ghost lv = line@;
            acc.push(line);
            proof {
                assert(acc.deep_view() =~= prev.push(lv));
                assert(prev.push(lv) + display_lines_spec(ds.skip(i as int + 1), filter.deep_view())
                    =~= prev + display_lines_spec(ds.skip(i as int), filter.deep_view()));
            }
        }
        i += 1;
    }
    proof {
        assert(ds.skip(ds.len() as int) =~= Seq::<DeviceView>::empty());
        assert(acc.deep_view() + display_lines_spec(ds.skip(ds.len() as int), filter.deep_view())
            =~= acc.deep_view());
    }
    acc
}

/// Find the first device whose listing line is exactly the chosen string.
pub fn find_by_display(devices: &Vec<Device>, selection: &str) -> (r: Option<usize>)
    ensures
        match r {
            Option::Some(i) => i < devices@.len() && listing_line(devices.deep_view()[i as int])
                == selection@ && forall|k: int|
                0 <= k < i ==> listing_line(devices.deep_view()[k]) != selection@,
            Option::None => forall|k: int|
                0 <= k < devices@.len() ==> listing_line(devices.deep_view()[k]) != selection@,
        },
{
    let ghost ds = devices.deep_view();
    let sel = String::from_str(selection);
    let mut i: usize = 0;
    while i < devices.len()
        invariant
            i <= devices@.len(),
            ds == devices.deep_view(),
            sel@ == selection@,
            forall|k: int| 0 <= k < i ==> listing_line(ds[k]) != selection@,
        decreases devices@.len() - i,
    {
        let line = devices[i].listing_line_string();
        if line == sel {
            return Some(i);
        }
        i += 1;
    }
    None
}

} // verus!
