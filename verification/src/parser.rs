//! Parsing the device listing.
//!
//! The listing is line oriented. A line that carries the version-section
//! marker `-- iOS` opens a section and names the OS version that the devices
//! after it belong to. A line holding a name followed by exactly two
//! parenthesized fields is a device entry; every other line, including a
//! device entry with the wrong number of fields, is ignored.

use vstd::prelude::*;
use crate::device::{Device, DeviceView};
use crate::text::{
    contains_char_str, contains_sub, contains_sub_str, find_sub, find_sub_str, lemma_find_sub,
    lemma_split_sub_len, split_lines, split_sub, strip_leading_dashes, strip_trailing_char,
    strip_trailing_char_str, strip_trailing_dashes, strip_dashes_str, trim, trim_str,
};

verus! {

/// A line that opens a version section.
pub open spec fn is_header_line(line: Seq<char>) -> bool {
    contains_sub(line, "-- iOS"@)
}

/// The OS version a section header names: the line without surrounding
/// whitespace and without its `--` markers.
pub open spec fn header_version(line: Seq<char>) -> Seq<char> {
    trim(strip_trailing_dashes(strip_leading_dashes(trim(line))))
}

/// The name, identifier and status of a device line, or `None` when the
/// line does not have the shape `name (identifier) (status)` — in
/// particular when one of the two parenthesized fields is missing, or when
/// there are more than two.
pub open spec fn device_line_fields(line: Seq<char>) -> Option<(Seq<char>, Seq<char>, Seq<char>)> {
    if !(line.contains('(') && line.contains(')')) {
        None
    } else {
        let t = trim(line);
        let i = find_sub(t, " ("@);
        if i < 0 {
            None
        } else {
            let rest = t.subrange(i + 2, t.len() as int);
            let parts = split_sub(rest, ") ("@);
            if parts.len() == 2 {
                Some((t.subrange(0, i), parts[0], strip_trailing_char(parts[1], ')')))
            } else {
                None
            }
        }
    }
}

/// The record a well-formed device line yields under the current section
/// version.
pub open spec fn device_of_fields(f: (Seq<char>, Seq<char>, Seq<char>), ver: Seq<char>) -> DeviceView {
    DeviceView { name: f.0, udid: f.1, ios_version: ver, status: f.2 }
}

/// The records of a sequence of lines, scanned in order while `cur` is the
/// version of the most recent section header.
pub open spec fn parse_lines(ls: Seq<Seq<char>>, cur: Seq<char>) -> Seq<DeviceView>
    decreases ls.len(),
{
    if ls.len() == 0 {
        Seq::empty()
    } else if is_header_line(ls[0]) {
        parse_lines(ls.drop_first(), header_version(ls[0]))
    } else {
        match device_line_fields(ls[0]) {
            Option::Some(f) => seq![device_of_fields(f, cur)] + parse_lines(ls.drop_first(), cur),
            Option::None => parse_lines(ls.drop_first(), cur),
        }
    }
}

/// The records of a whole listing text, in input order. Before the first
/// section header the current version is empty.
pub open spec fn parse_devices_spec(text: Seq<char>) -> Seq<DeviceView> {
    parse_lines(split_sub(text, "\n"@), Seq::empty())
}

/// Parse one line as a device entry under the version `ver`.
fn parse_device_line(line: &str, ver: &String) -> (r: Option<Device>)
    ensures
        r is Some <==> device_line_fields(line@) is Some,
        r is Some ==> r->Some_0@ == device_of_fields(device_line_fields(line@)->Some_0, ver@),
{
    proof {
        reveal_strlit(" (");
        reveal_strlit(") (");
    }
    if !contains_char_str(line, '(') || !contains_char_str(line, ')') {
        return None;
    }
    let t = trim_str(line);
    let tn: usize = t.unicode_len();
    match find_sub_str(t, " (") {
        Option::None => None,
        Option::Some(i) => {
            proof {
                lemma_find_sub(t@, " ("@);
            }
            let name = t.substring_char(0, i);
            let rest = t.substring_char(i + 2, tn);
            let rn: usize = rest.unicode_len();
            match find_sub_str(rest, ") (") {
                Option::None => {
                    proof {
                        assert(split_sub(rest@, ") ("@) =~= seq![rest@]);
                    }
                    None
                },
                Option::Some(j) => {
                    proof {
                        lemma_find_sub(rest@, ") ("@);
                    }
                    let udid = rest.substring_char(0, j);
                    let tail = rest.substring_char(j + 3, rn);
                    proof {
                        assert(split_sub(rest@, ") ("@) =~= seq![udid@] + split_sub(
                            tail@,
                            ") ("@,
                        ));
                    }
                    match find_sub_str(tail, ") (") {
                        Option::Some(_) => {
                            proof {
                                let after = tail@.subrange(
                                    find_sub(tail@, ") ("@) + 3,
                                    tail@.len() as int,
                                );
                                lemma_find_sub(tail@, ") ("@);
                                lemma_split_sub_len(after, ") ("@);
                                assert(split_sub(tail@, ") ("@).len() >= 2);
                            }
                            None
                        },
                        Option::None => {
                            proof {
                                assert(split_sub(tail@, ") ("@) =~= seq![tail@]);
                                assert(split_sub(rest@, ") ("@) =~= seq![udid@, tail@]);
                            }
                            let status = strip_trailing_char_str(tail, ')');
                            Some(
                                Device {
                                    name: String::from_str(name),
                                    udid: String::from_str(udid),
                                    ios_version: ver.clone(),
                                    status: String::from_str(status),
                                },
                            )
                        },
                    }
                },
            }
        },
    }
}

/// Parse a whole listing into its device records, in input order.
pub fn parse_devices(output: &str) -> (r: Vec<Device>)
    ensures
        r.deep_view() == parse_devices_spec(output@),
{
    let lines = split_lines(output);
    let ghost ls = lines.deep_view();
    let mut devices: Vec<Device> = Vec::new();
    let mut cur: String = String::new();
    let mut li: usize = 0;
    proof {
        assert(devices.deep_view() =~= Seq::<DeviceView>::empty());
        assert(ls.skip(0) =~= ls);
    }
    while li < lines.len()
        invariant
            li <= lines.len(),
            ls == lines.deep_view(),
            parse_devices_spec(output@) == devices.deep_view() + parse_lines(
                ls.skip(li as int),
                cur@,
            ),
        decreases lines.len() - li,
    {
        let line: &str = lines[li].as_str();
        proof {
            assert(line@ == ls[li as int]);
            assert(ls.skip(li as int)[0] == ls[li as int]);
            assert(ls.skip(li as int).drop_first() =~= ls.skip(li as int + 1));
        }
        let ghost prev_dev = devices.deep_view();
        let ghost remaining = ls.skip(li as int);
        if contains_sub_str(line, "-- iOS") {
            let t1 = trim_str(line);
            let t2 = strip_dashes_str(t1);
            let t3 = trim_str(t2);
            cur = String::from_str(t3);
            proof {
                assert(cur@ == header_version(ls[li as int]));
                assert(parse_lines(remaining, cur@) == parse_lines(
                    ls.skip(li as int + 1),
                    cur@,
                ));
            }
        } else {
            match parse_device_line(line, &cur) {
                Option::Some(d) => {
                    proof {
                        let f = device_line_fields(ls[li as int])->Some_0;
                        assert(parse_lines(remaining, cur@) == seq![
                            device_of_fields(f, cur@),
                        ] + parse_lines(ls.skip(li as int + 1), cur@));
                    }
                    let ghost dv = d@;
                    devices.push(d);
                    proof {
                        assert(devices.deep_view() =~= prev_dev.push(dv));
                        assert(prev_dev.push(dv) + parse_lines(ls.skip(li as int + 1), cur@)
                            =~= prev_dev + parse_lines(remaining, cur@));
                    }
                },
                Option::None => {
                    proof {
                        assert(parse_lines(remaining, cur@) == parse_lines(
                            ls.skip(li as int + 1),
                            cur@,
                        ));
                    }
                },
            }
        }
        li += 1;
    }
    proof {
        assert(ls.skip(lines@.len() as int) =~= Seq::<Seq<char>>::empty());
        assert(devices.deep_view() + parse_lines(ls.skip(lines@.len() as int), cur@)
            =~= devices.deep_view());
    }
    devices
}

proof fn lemma_parse_all_device_lines(ls: Seq<Seq<char>>, cur: Seq<char>)
    requires
        forall|i: int|
            0 <= i < ls.len() ==> !is_header_line(ls[i]) && device_line_fields(ls[i]) is Some,
    ensures
        parse_lines(ls, cur).len() == ls.len(),
        forall|i: int|
            0 <= i < ls.len() ==> parse_lines(ls, cur)[i] == device_of_fields(
                device_line_fields(ls[i])->Some_0,
                cur,
            ),
    decreases ls.len(),
{
    if ls.len() > 0 {
        let d1 = ls.drop_first();
        assert forall|k: int| 0 <= k < d1.len() implies d1[k] == ls[k + 1] by {}
        lemma_parse_all_device_lines(d1, cur);
    }
}

/// One section parses to one record per device line. A sequence of lines
/// that opens with a version header and continues with well-formed device
/// lines yields exactly as many records as device lines, in order, each
/// tagged with the header's version.
pub proof fn lemma_section_parse(ls: Seq<Seq<char>>, cur: Seq<char>)
    requires
        ls.len() >= 1,
        is_header_line(ls[0]),
        forall|i: int|
            1 <= i < ls.len() ==> !is_header_line(ls[i]) && device_line_fields(ls[i]) is Some,
    ensures
        parse_lines(ls, cur).len() == ls.len() - 1,
        forall|i: int|
            1 <= i < ls.len() ==> parse_lines(ls, cur)[i - 1] == device_of_fields(
                device_line_fields(ls[i])->Some_0,
                header_version(ls[0]),
            ),
        forall|i: int|
            1 <= i < ls.len() ==> #[trigger] parse_lines(ls, cur)[i - 1].ios_version
                == header_version(ls[0]),
{
    let d1 = ls.drop_first();
    assert forall|k: int| 0 <= k < d1.len() implies d1[k] == ls[k + 1] by {}
    lemma_parse_all_device_lines(d1, header_version(ls[0]));
}

/// A line that is neither a section header nor a well-formed device entry —
/// in particular a device line with only one parenthesized field — leaves
/// no trace: the listing parses exactly as if the line were absent.
pub proof fn lemma_ignored_line_dropped(ls: Seq<Seq<char>>, i: int, cur: Seq<char>)
    requires
        0 <= i < ls.len(),
        !is_header_line(ls[i]),
        device_line_fields(ls[i]) is None,
    ensures
        parse_lines(ls, cur) == parse_lines(ls.remove(i), cur),
    decreases ls.len(),
{
    if i == 0 {
        assert(ls.remove(0) =~= ls.drop_first());
    } else {
        let d1 = ls.drop_first();
        assert(d1[i - 1] == ls[i]);
        let v = if is_header_line(ls[0]) {
            header_version(ls[0])
        } else {
            cur
        };
        lemma_ignored_line_dropped(d1, i - 1, v);
        assert(ls.remove(i)[0] == ls[0]);
        assert(ls.remove(i).drop_first() =~= d1.remove(i - 1));
    }
}

} // verus!
