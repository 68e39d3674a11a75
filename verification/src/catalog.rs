//! The device catalog: turns the raw listing records of the bridge tool into
//! normalized `Device` values, deciding transport kind, status, model and
//! display name, and maintains the saved-device list (add-or-replace by id,
//! remove by id).

use vstd::prelude::*;
use crate::adb::{AdbDevice, AdbDeviceView, opt_string_view};
use crate::text::{spec_find_char, lemma_find_char_characterizes, find_char, eq_str, concat_str};

verus! {

/// How a device is attached: over a cable or over the network.
#[derive(Debug, Clone, Copy, PartialEq, Eq, Structural)]
pub enum ConnectionType {
    USB,
    Wireless,
}

/// The bridge-reported connection state of a device.
#[derive(Debug, Clone, Copy, PartialEq, Eq, Structural)]
pub enum DeviceStatus {
    Connected,
    Disconnected,
    Unauthorized,
    Offline,
}

/// A normalized device, derived from one listing record.
#[derive(Debug, Clone, PartialEq, Eq)]
pub struct Device {
    pub id: String,
    pub name: String,
    pub model: String,
    pub connection_type: ConnectionType,
    pub status: DeviceStatus,
    pub ip_address: Option<String>,
}

/// Mathematical image of a `Device`.
pub struct DeviceView {
    pub id: Seq<char>,
    pub name: Seq<char>,
    pub model: Seq<char>,
    pub connection_type: ConnectionType,
    pub status: DeviceStatus,
    pub ip_address: Option<Seq<char>>,
}

impl View for Device {
    type V = DeviceView;

    open spec fn view(&self) -> DeviceView {
        DeviceView {
            id: self.id@,
            name: self.name@,
            model: self.model@,
            connection_type: self.connection_type,
            status: self.status,
            ip_address: opt_string_view(self.ip_address),
        }
    }
}

/// The status a reported state string maps to; anything unrecognized counts
/// as disconnected.
pub open spec fn spec_status(state: Seq<char>) -> DeviceStatus {
    if state == "device"@ {
        DeviceStatus::Connected
    } else if state == "unauthorized"@ {
        DeviceStatus::Unauthorized
    } else if state == "offline"@ {
        DeviceStatus::Offline
    } else {
        DeviceStatus::Disconnected
    }
}

/// A serial containing a colon is a network address, so the device is
/// wireless; any other serial is a cable attachment.
pub open spec fn spec_is_wireless(serial: Seq<char>) -> bool {
    spec_find_char(serial, ':') >= 0
}

/// The host part of a wireless serial: everything before the first colon.
pub open spec fn spec_ip_of_serial(serial: Seq<char>) -> Seq<char> {
    serial.take(spec_find_char(serial, ':'))
}

/// The resolved model of a record: the reported `model` field, else the
/// `product` field, else the device codename, else — only for a connected
/// device — the value a one-time property lookup returned (`None` meaning
/// the lookup failed), else a fixed unknown marker.  A device that is not
/// connected cannot answer a property lookup, so it is skipped and the
/// unknown-device marker used directly.
pub open spec fn spec_resolve_model(d: AdbDeviceView, lookup: Option<Seq<char>>) -> Seq<char> {
    if d.model is Some {
        d.model->Some_0
    } else if d.product is Some {
        d.product->Some_0
    } else if d.device is Some {
        d.device->Some_0
    } else if spec_status(d.state) == DeviceStatus::Connected {
        match lookup {
            Some(m) => m,
            None => "Unknown"@,
        }
    } else {
        "Unknown Device"@
    }
}

/// Only a connected record lacking every model-ish field warrants the
/// blocking property lookup.
pub open spec fn spec_needs_lookup(d: AdbDeviceView) -> bool {
    d.model is None && d.product is None && d.device is None && spec_status(d.state)
        == DeviceStatus::Connected
}

pub open spec fn spec_underscores_to_spaces(s: Seq<char>) -> Seq<char> {
    s.map_values(
        |c: char|
            if c == '_' {
                ' '
            } else {
                c
            },
    )
}

/// The name shown for a device: its resolved model with underscores rendered
/// as spaces, or the unknown-device marker when no real model is known.
pub open spec fn spec_display_name(model: Seq<char>) -> Seq<char> {
    if model == "Unknown"@ || model == "Unknown Device"@ {
        "Unknown Device"@
    } else {
        spec_underscores_to_spaces(model)
    }
}

/// The normalized device a record maps to, given the result of the property
/// lookup if one was made.
pub open spec fn spec_build_device(d: AdbDeviceView, lookup: Option<Seq<char>>) -> DeviceView {
    let model = spec_resolve_model(d, lookup);
    DeviceView {
        id: d.serial,
        name: spec_display_name(model),
        model: model,
        connection_type: if spec_is_wireless(d.serial) {
            ConnectionType::Wireless
        } else {
            ConnectionType::USB
        },
        status: spec_status(d.state),
        ip_address: if spec_is_wireless(d.serial) {
            Some(spec_ip_of_serial(d.serial))
        } else {
            None
        },
    }
}

pub fn device_status_of(state: &str) -> (r: DeviceStatus)
    ensures
        r == spec_status(state@),
{
    if eq_str(state, "device") {
        DeviceStatus::Connected
    } else if eq_str(state, "unauthorized") {
        DeviceStatus::Unauthorized
    } else if eq_str(state, "offline") {
        DeviceStatus::Offline
    } else {
        DeviceStatus::Disconnected
    }
}

/// Whether mapping this record will consult the property lookup; callers use
/// it to avoid blocking calls against devices that cannot answer them.
pub fn needs_model_lookup(record: &AdbDevice) -> (r: bool)
    ensures
        r == spec_needs_lookup(record@),
{
    record.model.is_none() && record.product.is_none() && record.device.is_none() && eq_str(
        record.state.as_str(),
        "device",
    )
}

fn replace_underscores(s: &str) -> (r: String)
    ensures
        r@ == spec_underscores_to_spaces(s@),
    decreases s@.len(),
{
    proof {
        lemma_find_char_characterizes(s@, '_');
    }
    match find_char(s, '_') {
        None => {
            let r = String::from_str(s);
            proof {
                assert(r@ =~= spec_underscores_to_spaces(s@));
            }
            r
        },
        Some(i) => {
            let n = s.unicode_len();
            let mut r = concat_str(s.substring_char(0, i), " ");
            let rest = s.substring_char(i + 1, n);
            proof {
                assert(rest@ =~= s@.skip(i + 1));
            }
            let tail = replace_underscores(rest);
            r.append(tail.as_str());
            proof {
                reveal_strlit(" ");
                assert forall|j: int| 0 <= j < s@.len() implies r@[j]
                    == spec_underscores_to_spaces(s@)[j] by {
                    if j < i {
                        assert(r@[j] == s@.take(i as int)[j]);
                    } else if j > i {
                        assert(r@[j] == spec_underscores_to_spaces(s@.skip(i + 1))[j - i - 1]);
                        assert(s@.skip(i + 1)[j - i - 1] == s@[j]);
                    }
                }
                assert(r@ =~= spec_underscores_to_spaces(s@));
            }
            r
        },
    }
}

fn copy_opt_string(o: &Option<String>) -> (r: Option<String>)
    ensures
        r == *o,
{
    match o {
        Some(s) => Some(s.clone()),
        None => None,
    }
}

/// Maps one listing record to a normalized device.  `looked_up_model` is the
/// trimmed result of the one-time property lookup when the caller made one
/// (`None` when it failed or was skipped); it only matters for records that
/// need it, as `needs_model_lookup` says.
pub fn build_device(record: &AdbDevice, looked_up_model: Option<String>) -> (r: Device)
    ensures
        r@ == spec_build_device(record@, opt_string_view(looked_up_model)),
{
    let status = device_status_of(record.state.as_str());
    let model: String = if let Some(m) = &record.model {
        m.clone()
    } else if let Some(p) = &record.product {
        p.clone()
    } else if let Some(d) = &record.device {
        d.clone()
    } else if matches!(status, DeviceStatus::Connected) {
        match looked_up_model {
            Some(m) => m,
            None => String::from_str("Unknown"),
        }
    } else {
        String::from_str("Unknown Device")
    };
    let name: String = if eq_str(model.as_str(), "Unknown") || eq_str(
        model.as_str(),
        "Unknown Device",
    ) {
        String::from_str("Unknown Device")
    } else {
        replace_underscores(model.as_str())
    };
    proof {
        lemma_find_char_characterizes(record.serial@, ':');
    }
    let (connection_type, ip_address) = match find_char(record.serial.as_str(), ':') {
        Some(i) => {
            let host = String::from_str(record.serial.as_str().substring_char(0, i));
            proof {
                assert(host@ =~= spec_ip_of_serial(record.serial@));
            }
            (ConnectionType::Wireless, Some(host))
        },
        None => (ConnectionType::USB, None),
    };
    Device { id: record.serial.clone(), name, model, connection_type, status, ip_address }
}

/// The devices a whole listing snapshot maps to, record by record.
pub open spec fn spec_enumerate(
    records: Seq<AdbDeviceView>,
    lookups: Seq<Option<Seq<char>>>,
) -> Seq<DeviceView> {
    Seq::new(records.len(), |i: int| spec_build_device(records[i], lookups[i]))
}

/// Maps a listing snapshot to devices.  `lookups[i]` is the property-lookup
/// result for `records[i]`, gathered by the caller beforehand (and only
/// consulted where `needs_model_lookup` holds).
pub fn enumerate(records: &Vec<AdbDevice>, lookups: &Vec<Option<String>>) -> (r: Vec<Device>)
    requires
        lookups@.len() == records@.len(),
    ensures
        r@.len() == records@.len(),
        forall|i: int| 0 <= i < records@.len() ==> r@[i]@ == spec_enumerate(
            records@.map_values(|d: AdbDevice| d@),
            lookups@.map_values(|o: Option<String>| opt_string_view(o)),
        )[i],
{
    let mut out: Vec<Device> = Vec::new();
    let mut i: usize = 0;
    while i < records.len()
        invariant
            0 <= i <= records@.len(),
            lookups@.len() == records@.len(),
            out@.len() == i,
            forall|j: int| 0 <= j < i ==> out@[j]@ == spec_build_device(
                records@[j]@,
                opt_string_view(lookups@[j]),
            ),
        decreases records@.len() - i,
    {
        let lookup = copy_opt_string(&lookups[i]);
        let d = build_device(&records[i], lookup);
        out.push(d);
        i += 1;
    }
    out
}

/// Mapping a snapshot is deterministic: two runs over the same records and
/// the same lookup results give exactly the same devices.  With the record
/// count pinned by the listing parser, this is the sense in which
/// enumeration is idempotent on one snapshot.
pub proof fn lemma_enumerate_deterministic(
    records: Seq<AdbDeviceView>,
    lookups: Seq<Option<Seq<char>>>,
    r1: Seq<DeviceView>,
    r2: Seq<DeviceView>,
)
    requires
        r1 == spec_enumerate(records, lookups),
        r2 == spec_enumerate(records, lookups),
    ensures
        r1 == r2,
{
}

/// A record reported as unauthorized maps to the unauthorized status, and
/// never warrants the blocking property lookup.
pub proof fn lemma_unauthorized_skips_lookup(d: AdbDeviceView)
    requires
        d.state == "unauthorized"@,
    ensures
        spec_status(d.state) == DeviceStatus::Unauthorized,
        !spec_needs_lookup(d),
{
    reveal_strlit("device");
    reveal_strlit("unauthorized");
    assert("unauthorized"@.len() == 12);
    assert("device"@.len() == 6);
    assert(d.state != "device"@);
}

/// Index of the first entry with the given id, or -1 when absent.
pub open spec fn spec_device_index(list: Seq<Device>, id: Seq<char>) -> int
    decreases list.len(),
{
    if list.len() == 0 {
        -1
    } else if list.first()@.id == id {
        0
    } else if spec_device_index(list.drop_first(), id) == -1 {
        -1
    } else {
        spec_device_index(list.drop_first(), id) + 1
    }
}

pub proof fn lemma_device_index_characterizes(list: Seq<Device>, id: Seq<char>)
    ensures
        spec_device_index(list, id) >= -1,
        spec_device_index(list, id) == -1 <==> (forall|j: int|
            0 <= j < list.len() ==> (#[trigger] list[j])@.id != id),
        spec_device_index(list, id) >= 0 ==> spec_device_index(list, id) < list.len()
            && list[spec_device_index(list, id)]@.id == id && forall|j: int|
            0 <= j < spec_device_index(list, id) ==> (#[trigger] list[j])@.id != id,
    decreases list.len(),
{
    if list.len() > 0 && list.first()@.id != id {
        let rest = list.drop_first();
        lemma_device_index_characterizes(rest, id);
        let f = spec_device_index(rest, id);
        if f == -1 {
            assert forall|j: int| 0 <= j < list.len() implies (#[trigger] list[j])@.id != id by {
                if j > 0 {
                    assert(list[j] == rest[j - 1]);
                }
            }
        } else {
            assert(list[f + 1] == rest[f]);
            assert forall|j: int| 0 <= j < f + 1 implies (#[trigger] list[j])@.id != id by {
                if j > 0 {
                    assert(list[j] == rest[j - 1]);
                }
            }
        }
    }
}

/// Adds a device to the saved list, replacing the first entry that already
/// carries its id, or appending when none does.
pub fn upsert_device(list: &mut Vec<Device>, device: Device)
    ensures
        ({
            let f = spec_device_index(old(list)@, device@.id);
            if f == -1 {
                final (list)@ == old(list)@.push(device)
            } else {
                final (list)@ == old(list)@.update(f, device)
            }
        }),
{
    proof {
        lemma_device_index_characterizes(old(list)@, device@.id);
    }
    let ghost orig = list@;
    let n = list.len();
    let mut i: usize = 0;
    while i < n
        invariant
            0 <= i <= n,
            n == list@.len(),
            list@ == orig,
            old(list)@ == orig,
            forall|j: int| 0 <= j < i ==> (#[trigger] orig[j])@.id != device@.id,
        decreases n - i,
    {
        if eq_str(list[i].id.as_str(), device.id.as_str()) {
            proof {
                lemma_device_index_characterizes(orig, device@.id);
                assert(spec_device_index(orig, device@.id) == i as int);
            }
            list.remove(i);
            list.insert(i, device);
            proof {
                assert(list@ =~= orig.update(i as int, device));
            }
            return ;
        }
        i += 1;
    }
    list.push(device);
}

/// Removes every saved entry with the given id; reports whether anything was
/// removed.
pub fn remove_device(list: &mut Vec<Device>, id: &str) -> (removed: bool)
    ensures
        final (list)@ == old(list)@.filter(|d: Device| d@.id != id@),
        removed == (final (list)@.len() != old(list)@.len()),
{
    let ghost orig = list@;
    let mut kept: Vec<Device> = Vec::new();
    let mut i: usize = 0;
    proof {
        reveal(Seq::filter);
        assert(orig.take(0) =~= Seq::<Device>::empty());
        assert(orig.take(0).filter(|d: Device| d@.id != id@) =~= Seq::<Device>::empty());
    }
    while i < list.len()
        invariant
            0 <= i <= list@.len(),
            list@ == orig,
            kept@ == orig.take(i as int).filter(|d: Device| d@.id != id@),
        decreases list@.len() - i,
    {
        let d = &list[i];
        proof {
            reveal(Seq::filter);
            assert(orig.take(i + 1).drop_last() =~= orig.take(i as int));
            assert(orig.take(i + 1).last() == orig[i as int]);
        }
        if !eq_str(d.id.as_str(), id) {
            let copy = Device {
                id: d.id.clone(),
                name: d.name.clone(),
                model: d.model.clone(),
                connection_type: d.connection_type,
                status: d.status,
                ip_address: copy_opt_string(&d.ip_address),
            };
            proof {
                assert(copy == orig[i as int]);
            }
            kept.push(copy);
        }
        i += 1;
    }
    proof {
        assert(orig.take(orig.len() as int) =~= orig);
    }
    let removed = kept.len() != list.len();
    *list = kept;
    removed
}

} // verus!
