//! The device record and its display forms.

use vstd::prelude::*;
use crate::text::{contains_sub, contains_sub_str, is_match_at, lemma_find_sub};

verus! {

/// One simulated device from the listing: its name, the opaque identifier
/// the external command addresses it by, the OS version of the section it
/// was listed under, and its textual status.
pub struct Device {
    pub name: String,
    pub udid: String,
    pub ios_version: String,
    pub status: String,
}

/// Mathematical image of a `Device`: the same four fields as character
/// sequences.
pub struct DeviceView {
    pub name: Seq<char>,
    pub udid: Seq<char>,
    pub ios_version: Seq<char>,
    pub status: Seq<char>,
}

impl View for Device {
    type V = DeviceView;

    open spec fn view(&self) -> DeviceView {
        DeviceView {
            name: self.name@,
            udid: self.udid@,
            ios_version: self.ios_version@,
            status: self.status@,
        }
    }
}

impl DeepView for Device {
    type V = DeviceView;

    open spec fn deep_view(&self) -> DeviceView {
        self.view()
    }
}

impl Clone for Device {
    fn clone(&self) -> (r: Self)
        ensures
            r == *self,
    {
        Device {
            name: self.name.clone(),
            udid: self.udid.clone(),
            ios_version: self.ios_version.clone(),
            status: self.status.clone(),
        }
    }
}

/// The display form of a device: `name (version) (status)`, with the status
/// exactly as the listing reported it.
pub open spec fn display_spec(d: DeviceView) -> Seq<char> {
    d.name + " ("@ + d.ios_version + ") ("@ + d.status + ")"@
}

/// The one-word label a status is shown under: its own word when it speaks
/// of being shut down or booted, and a placeholder otherwise.
pub open spec fn status_label(status: Seq<char>) -> Seq<char> {
    if contains_sub(status, "Shutdown"@) {
        "Shutdown"@
    } else if contains_sub(status, "Booted"@) {
        "Booted"@
    } else {
        "Unknown"@
    }
}

/// The line a device is listed under in the catalogue and the picker:
/// `name (version) (label)`.
pub open spec fn listing_line(d: DeviceView) -> Seq<char> {
    d.name + " ("@ + d.ios_version + ") ("@ + status_label(d.status) + ")"@
}

impl Device {
    /// Format the device with its raw status.
    pub fn display_string(&self) -> (r: String)
        ensures
            r@ == display_spec(self@),
    {
        let mut r = String::from_str(self.name.as_str());
        r.append(" (");
        r.append(self.ios_version.as_str());
        r.append(") (");
        r.append(self.status.as_str());
        r.append(")");
        proof {
            assert(r@ =~= display_spec(self@));
        }
        r
    }

    /// The one-word status label.
    pub fn status_label_string(&self) -> (r: String)
        ensures
            r@ == status_label(self@.status),
    {
        if contains_sub_str(self.status.as_str(), "Shutdown") {
            String::from_str("Shutdown")
        } else if contains_sub_str(self.status.as_str(), "Booted") {
            String::from_str("Booted")
        } else {
            String::from_str("Unknown")
        }
    }

    /// Format the device with its status label.
    pub fn listing_line_string(&self) -> (r: String)
        ensures
            r@ == listing_line(self@),
    {
        let label = self.status_label_string();
        let mut r = String::from_str(self.name.as_str());
        r.append(" (");
        r.append(self.ios_version.as_str());
        r.append(") (");
        r.append(label.as_str());
        r.append(")");
        proof {
            assert(r@ =~= listing_line(self@));
        }
        r
    }

    /// Whether the listing reported this device as booted.
    pub fn is_booted(&self) -> (r: bool)
        ensures
            r == contains_sub(self@.status, "Booted"@),
    {
        contains_sub_str(self.status.as_str(), "Booted")
    }
}

/// An occurrence anywhere in `s` makes `contains_sub` true.
pub proof fn lemma_contains_sub_at(s: Seq<char>, p: Seq<char>, i: int)
    requires
        is_match_at(s, p, i),
    ensures
        contains_sub(s, p),
{
    lemma_find_sub(s, p);
}

/// A device's display form carries its name, version and status unchanged,
/// as contiguous substrings.
pub proof fn lemma_display_has_fields(d: DeviceView)
    ensures
        contains_sub(display_spec(d), d.name),
        contains_sub(display_spec(d), d.ios_version),
        contains_sub(display_spec(d), d.status),
{
    reveal_strlit(" (");
    reveal_strlit(") (");
    reveal_strlit(")");
    let s = display_spec(d);
    let nl = d.name.len() as int;
    let vl = d.ios_version.len() as int;
    let sl = d.status.len() as int;
    assert(s.subrange(0, nl) =~= d.name);
    lemma_contains_sub_at(s, d.name, 0);
    assert(s.subrange(nl + 2, nl + 2 + vl) =~= d.ios_version);
    lemma_contains_sub_at(s, d.ios_version, nl + 2);
    assert(s.subrange(nl + vl + 5, nl + vl + 5 + sl) =~= d.status);
    lemma_contains_sub_at(s, d.status, nl + vl + 5);
}

} // verus!
