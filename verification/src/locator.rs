//! Locating the device: the first line of an enumeration report that names
//! it, the bus and address fields of that line, and the mount path that the
//! template gives for them.

use crate::text::{
    contains, contains_text, lines_of, replace, replace_all, split_lines, texts,
};
use vstd::prelude::*;
use vstd::string::*;

verus! {

/// What one poll learned of the device.
pub struct DeviceRecord {
    pub name: String,
    pub bus: String,
    pub address: String,
    pub mount_path: String,
}

/// The number of characters a line must have to hold both fields.
pub const FIELDS_END: usize = 18;

/// The bus field of a line: its characters 4 to 6.
pub open spec fn bus_field(line: Seq<char>) -> Seq<char> {
    line.subrange(4, 7)
}

/// The address field of a line: its characters 15 to 17.
pub open spec fn address_field(line: Seq<char>) -> Seq<char> {
    line.subrange(15, 18)
}

/// The template with `__BUS__` replaced by the bus field and then
/// `__DEVICE__` by the address field. The rest of the template stays as it is.
pub open spec fn mount_path_of(
    template: Seq<char>,
    bus: Seq<char>,
    address: Seq<char>,
) -> Seq<char> {
    replace_all(replace_all(template, "__BUS__"@, bus), "__DEVICE__"@, address)
}

/// The index of the first line from `start` on that holds `name`.
pub open spec fn first_match_from(
    lines: Seq<Seq<char>>,
    name: Seq<char>,
    start: int,
) -> Option<int>
    decreases lines.len() - start,
{
    if start < 0 || start >= lines.len() {
        None
    } else if contains_text(lines[start], name) {
        Some(start)
    } else {
        first_match_from(lines, name, start + 1)
    }
}

/// The mount path that a report gives for the device called `name`: that of
/// the first line that holds `name`, if that line is long enough to hold both
/// fields. Later lines are not looked at.
pub open spec fn located(
    report: Seq<char>,
    name: Seq<char>,
    template: Seq<char>,
) -> Option<Seq<char>> {
    let lines = lines_of(report);
    match first_match_from(lines, name, 0) {
        None => None,
        Some(k) => if lines[k].len() < FIELDS_END {
            None
        } else {
            Some(mount_path_of(template, bus_field(lines[k]), address_field(lines[k])))
        },
    }
}

/// `first_match_from` finds the least index of a line that holds `name`, and
/// finds none exactly if no line from `start` on holds it.
pub proof fn lemma_first_match(lines: Seq<Seq<char>>, name: Seq<char>, start: int)
    requires
        0 <= start,
    ensures
        match first_match_from(lines, name, start) {
            Some(k) => {
                &&& start <= k < lines.len()
                &&& contains_text(lines[k], name)
                &&& forall|j: int| start <= j < k ==> !contains_text(#[trigger] lines[j], name)
            },
            None => forall|j: int|
                start <= j < lines.len() ==> !contains_text(#[trigger] lines[j], name),
        },
    decreases lines.len() - start,
{
    if start < lines.len() && !contains_text(lines[start], name) {
        lemma_first_match(lines, name, start + 1);
    }
}

/// A report without a line that holds the device's name locates nothing.
pub proof fn unnamed_device_is_not_located(
    report: Seq<char>,
    name: Seq<char>,
    template: Seq<char>,
)
    requires
        forall|j: int|
            0 <= j < lines_of(report).len() ==> !contains_text(
                #[trigger] lines_of(report)[j],
                name,
            ),
    ensures
        located(report, name, template) is None,
{
    lemma_first_match(lines_of(report), name, 0);
}

/// The index of the first of `lines` that holds `device_name`.
pub fn find_device_line(lines: &Vec<String>, device_name: &str) -> (found: Option<usize>)
    ensures
        match found {
            Some(k) => first_match_from(texts(lines@), device_name@, 0) == Some(k as int),
            None => first_match_from(texts(lines@), device_name@, 0) is None,
        },
{
    let mut i: usize = 0;
    while i < lines.len()
        invariant
            i <= lines.len(),
            first_match_from(texts(lines@), device_name@, 0) == first_match_from(
                texts(lines@),
                device_name@,
                i as int,
            ),
        decreases lines.len() - i,
    {
        if contains(lines[i].as_str(), device_name) {
            return Some(i);
        }
        i += 1;
    }
    None
}

/// Reads the bus and address fields of `line` and fills them into `template`.
/// A line too short to hold both fields gives nothing.
pub fn parse_device(
    line: &str,
    device_name: &str,
    template: &str,
) -> (record: Option<DeviceRecord>)
    ensures
        record is Some <==> line@.len() >= FIELDS_END,
        record matches Some(r) ==> {
            &&& r.name@ == device_name@
            &&& r.bus@ == bus_field(line@)
            &&& r.address@ == address_field(line@)
            &&& r.mount_path@ == mount_path_of(template@, bus_field(line@), address_field(line@))
        },
{
    if line.unicode_len() < FIELDS_END {
        return None;
    }
    let bus = String::from_str(line.substring_char(4, 7));
    let address = String::from_str(line.substring_char(15, 18));
    let with_bus = replace(template, "__BUS__", bus.as_str());
    let mount_path = replace(with_bus.as_str(), "__DEVICE__", address.as_str());
    Some(DeviceRecord { name: String::from_str(device_name), bus, address, mount_path })
}

/// The device that `report` shows under `device_name`, with the mount path
/// that `template` gives for it. Whether that path can be reached is not
/// looked at here.
pub fn candidate_device(
    report: &str,
    device_name: &str,
    template: &str,
) -> (record: Option<DeviceRecord>)
    ensures
        record is Some <==> located(report@, device_name@, template@) is Some,
        record matches Some(r) ==> {
            &&& r.name@ == device_name@
            &&& located(report@, device_name@, template@) == Some(r.mount_path@)
            &&& exists|k: int|
                {
                    &&& first_match_from(lines_of(report@), device_name@, 0) == Some(k)
                    &&& r.bus@ == bus_field(lines_of(report@)[k])
                    &&& r.address@ == address_field(lines_of(report@)[k])
                }
        },
{
    let lines = split_lines(report);
    proof {
        lemma_first_match(texts(lines@), device_name@, 0);
    }
    match find_device_line(&lines, device_name) {
        None => None,
        Some(k) => {
            assert(texts(lines@)[k as int] == lines@[k as int]@);
            parse_device(lines[k].as_str(), device_name, template)
        },
    }
}

/// Tells whether something stands at `path` in the file system, by
/// `std::path::Path::exists`. Nothing is claimed of the answer: it depends on
/// the file system at the time of the call.
#[verifier::external_body]
pub fn path_exists(path: &str) -> (found: bool) {
    std::path::Path::new(path).exists()
}

/// The mount path of a device that was seen: its path if it can be reached,
/// nothing if it cannot.
pub fn mounted(record: DeviceRecord, reachable: bool) -> (mount: Option<String>)
    ensures
        mount == if reachable {
            Some(record.mount_path)
        } else {
            None::<String>
        },
{
    if reachable {
        Some(record.mount_path)
    } else {
        None
    }
}

/// The mount path of the device called `device_name`, if `report` shows it and
/// its mount path can be reached now. A device that is shown but cannot be
/// reached gives nothing, and so does a report that does not show it.
pub fn device_is_connected(
    report: &str,
    device_name: &str,
    source_dir_template: &str,
) -> (mount: Option<String>)
    ensures
        located(report@, device_name@, source_dir_template@) is None ==> mount is None,
        mount matches Some(path) ==> located(report@, device_name@, source_dir_template@) == Some(
            path@,
        ),
{
    match candidate_device(report, device_name, source_dir_template) {
        None => None,
        Some(record) => {
            let reachable = path_exists(record.mount_path.as_str());
            mounted(record, reachable)
        },
    }
}

} // verus!
