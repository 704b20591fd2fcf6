//! Shared domain types and verified logic for Android Hub clients.
use vstd::prelude::*;

pub mod adb;
pub mod cli;
pub mod protocol;
pub mod session;
pub mod text;

use crate::text::same_chars;

verus! {

/// An Android device as `adb devices -l` reports it.
#[derive(Debug, Clone, PartialEq, Eq)]
pub struct Device {
    pub serial: String,
    pub state: String,
    pub model: Option<String>,
    pub android_version: Option<u32>,
}

/// The abstract contents of a [`Device`].
pub struct DeviceView {
    pub serial: Seq<char>,
    pub state: Seq<char>,
    pub model: Option<Seq<char>>,
    pub android_version: Option<u32>,
}

impl View for Device {
    type V = DeviceView;

    open spec fn view(&self) -> DeviceView {
        DeviceView {
            serial: self.serial@,
            state: self.state@,
            model: match self.model {
                Some(m) => Some(m@),
                None => None,
            },
            android_version: self.android_version,
        }
    }
}

/// The state that adb reports for an authorized, usable device.
pub open spec fn ready_state() -> Seq<char> {
    seq!['d', 'e', 'v', 'i', 'c', 'e']
}

/// Whether a device is authorized and usable.
pub open spec fn is_ready(d: DeviceView) -> bool {
    d.state == ready_state()
}

impl Device {
    /// Whether adb reports this device as authorized and usable.
    pub fn ready(&self) -> (r: bool)
        ensures
            r == is_ready(self@),
    {
        proof {
            reveal_strlit("device");
        }
        let r = same_chars(self.state.as_str(), "device");
        assert("device"@ =~= ready_state());
        r
    }

    /// A copy of this device with the same contents.
    pub fn duplicate(&self) -> (r: Device)
        ensures
            r@ == self@,
    {
        let model = match &self.model {
            Some(m) => Some(m.clone()),
            None => None,
        };
        Device {
            serial: self.serial.clone(),
            state: self.state.clone(),
            model,
            android_version: self.android_version,
        }
    }
}

/// The views of a list of devices.
pub open spec fn views(ds: Seq<Device>) -> Seq<DeviceView> {
    ds.map_values(|d: Device| d@)
}

/// The first device with the given serial, if any.
pub open spec fn find_serial(ds: Seq<DeviceView>, serial: Seq<char>) -> Option<DeviceView>
    decreases ds.len(),
{
    if ds.len() == 0 {
        None
    } else if ds[0].serial == serial {
        Some(ds[0])
    } else {
        find_serial(ds.drop_first(), serial)
    }
}

/// The ready devices, in order.
pub open spec fn ready_devices(ds: Seq<DeviceView>) -> Seq<DeviceView>
    decreases ds.len(),
{
    if ds.len() == 0 {
        Seq::empty()
    } else if is_ready(ds.last()) {
        ready_devices(ds.drop_last()).push(ds.last())
    } else {
        ready_devices(ds.drop_last())
    }
}

/// Why no device could be selected.
#[derive(Debug, Clone, PartialEq, Eq)]
pub enum SelectError {
    /// The requested serial is not among the devices.
    NotFound(String),
    /// No device was requested and none is ready.
    NoAuthorizedDevice,
    /// No device was requested and more than one is ready.
    MultipleDevices,
}

/// The text of the message for a missing requested device.
pub open spec fn not_found_message(serial: Seq<char>) -> Seq<char> {
    "Android device '"@ + serial + "' was not found"@
}

impl SelectError {
    /// The message that explains this error to a user.
    pub fn message(&self) -> (r: String)
        ensures
            match self {
                SelectError::NotFound(s) => r@ == not_found_message(s@),
                SelectError::NoAuthorizedDevice => r@
                    == "No authorized Android device found. Enable USB debugging and accept the RSA prompt."@,
                SelectError::MultipleDevices => r@
                    == "More than one Android device is connected. Pass --device SERIAL."@,
            },
    {
        match self {
            SelectError::NotFound(s) => {
                let mut m = "Android device '".to_owned();
                m.append(s.as_str());
                m.append("' was not found");
                m
            },
            SelectError::NoAuthorizedDevice => {
                "No authorized Android device found. Enable USB debugging and accept the RSA prompt.".to_owned()
            },
            SelectError::MultipleDevices => {
                "More than one Android device is connected. Pass --device SERIAL.".to_owned()
            },
        }
    }
}

/// Picks the device to work with: the one with the requested serial, or,
/// when none is requested, the only ready device.
pub fn select_device(devices: &[Device], requested: Option<&str>) -> (r: Result<
    Device,
    SelectError,
>)
    ensures
        match requested {
            Some(s) => match find_serial(views(devices@), s@) {
                Some(d) => r matches Ok(x) && x@ == d,
                None => r matches Err(SelectError::NotFound(e)) && e@ == s@,
            },
            None => {
                let ready = ready_devices(views(devices@));
                if ready.len() == 0 {
                    r matches Err(SelectError::NoAuthorizedDevice)
                } else if ready.len() == 1 {
                    r matches Ok(x) && x@ == ready[0]
                } else {
                    r matches Err(SelectError::MultipleDevices)
                }
            },
        },
{
    let n = devices.len();
    let ghost all = views(devices@);
    if let Some(serial) = requested {
        let mut i: usize = 0;
        assert(all.subrange(0, n as int) =~= all);
        while i < n
            invariant
                i <= n == devices@.len(),
                all == views(devices@),
                requested == Some(serial),
                find_serial(all, serial@) == find_serial(all.subrange(i as int, n as int), serial@),
            decreases n - i,
        {
            let ghost rest = all.subrange(i as int, n as int);
            assert(rest[0] == devices@[i as int]@);
            if same_chars(devices[i].serial.as_str(), serial) {
                assert(find_serial(rest, serial@) == Some(rest[0]));
                return Ok(devices[i].duplicate());
            }
            assert(rest.drop_first() =~= all.subrange(i + 1, n as int));
            i = i + 1;
        }
        return Err(SelectError::NotFound(serial.to_owned()));
    }
    let mut count: usize = 0;
    let mut first: usize = 0;
    let mut i: usize = 0;
    while i < n
        invariant
            i <= n == devices@.len(),
            all == views(devices@),
            count == ready_devices(all.take(i as int)).len(),
            count <= i,
            count > 0 ==> first < i && all[first as int] == ready_devices(all.take(i as int))[0],
        decreases n - i,
    {
        let ghost pre = all.take(i as int);
        let ghost next = all.take(i + 1);
        assert(next.drop_last() =~= pre);
        assert(next.last() == devices@[i as int]@);
        if devices[i].ready() {
            if count == 0 {
                first = i;
            }
            count = count + 1;
        }
        i = i + 1;
    }
    assert(all.take(n as int) =~= all);
    if count == 0 {
        Err(SelectError::NoAuthorizedDevice)
    } else if count == 1 {
        Ok(devices[first].duplicate())
    } else {
        Err(SelectError::MultipleDevices)
    }
}

/// Every ready device is ready and is one of the devices.
pub proof fn lemma_ready_devices_are_listed_and_ready(ds: Seq<DeviceView>)
    ensures
        forall|i: int|
            0 <= i < ready_devices(ds).len() ==> is_ready(#[trigger] ready_devices(ds)[i])
                && ds.contains(ready_devices(ds)[i]),
    decreases ds.len(),
{
    if ds.len() > 0 {
        lemma_ready_devices_are_listed_and_ready(ds.drop_last());
        let r = ready_devices(ds.drop_last());
        assert forall|i: int| 0 <= i < ready_devices(ds).len() implies is_ready(
            #[trigger] ready_devices(ds)[i],
        ) && ds.contains(ready_devices(ds)[i]) by {
            if i < r.len() {
                assert(ready_devices(ds)[i] == r[i]);
                let j = choose|j: int| 0 <= j < ds.drop_last().len() && ds.drop_last()[j] == r[i];
                assert(ds[j] == r[i]);
            } else {
                assert(ds[ds.len() - 1] == ds.last());
            }
        }
    }
}

/// A requested device is found only by its serial, and is one of the devices.
pub proof fn lemma_found_device_has_serial(ds: Seq<DeviceView>, serial: Seq<char>)
    ensures
        find_serial(ds, serial) matches Some(d) ==> d.serial == serial && ds.contains(d),
        find_serial(ds, serial) is None ==> forall|i: int|
            0 <= i < ds.len() ==> #[trigger] ds[i].serial != serial,
    decreases ds.len(),
{
    if ds.len() > 0 {
        lemma_found_device_has_serial(ds.drop_first(), serial);
        if ds[0].serial != serial {
            if let Some(d) = find_serial(ds, serial) {
                let j = choose|j: int| 0 <= j < ds.drop_first().len() && ds.drop_first()[j] == d;
                assert(ds[j + 1] == d);
            }
            assert forall|i: int| 0 <= i < ds.len() && find_serial(ds, serial) is None implies #[trigger] ds[i].serial != serial by {
                if i > 0 {
                    assert(ds[i] == ds.drop_first()[i - 1]);
                }
            }
        }
    }
}

/// Without a requested serial, a device is selected only when it is the
/// one ready device; it is then ready and one of the given devices.
pub proof fn lemma_unrequested_selection_is_ready(ds: Seq<DeviceView>)
    ensures
        ready_devices(ds).len() == 1 ==> is_ready(ready_devices(ds)[0]) && ds.contains(
            ready_devices(ds)[0],
        ),
{
    lemma_ready_devices_are_listed_and_ready(ds);
}

/// The ready devices are exactly the devices that are ready, in their
/// order (`devices.iter().filter(|d| d.ready())`).
pub proof fn lemma_ready_devices_are_the_filter(ds: Seq<DeviceView>)
    ensures
        ready_devices(ds) == ds.filter(|d: DeviceView| is_ready(d)),
    decreases ds.len(),
{
    reveal_with_fuel(Seq::<DeviceView>::filter, 1);
    if ds.len() > 0 {
        lemma_ready_devices_are_the_filter(ds.drop_last());
    }
}

/// No ready device is left out of the ready devices.
pub proof fn lemma_ready_devices_complete(ds: Seq<DeviceView>, i: int)
    requires
        0 <= i < ds.len(),
        is_ready(ds[i]),
    ensures
        ready_devices(ds).contains(ds[i]),
    decreases ds.len(),
{
    let r = ready_devices(ds.drop_last());
    if i == ds.len() - 1 {
        assert(ready_devices(ds)[r.len() as int] == ds[i]);
    } else {
        assert(ds.drop_last()[i] == ds[i]);
        lemma_ready_devices_complete(ds.drop_last(), i);
        let k = choose|k: int| 0 <= k < r.len() && r[k] == ds[i];
        assert(ready_devices(ds)[k] == ds[i]);
    }
}

/// Two ready devices at different places make at least two ready devices.
pub proof fn lemma_two_ready_devices(ds: Seq<DeviceView>, i: int, j: int)
    requires
        0 <= i < j < ds.len(),
        is_ready(ds[i]),
        is_ready(ds[j]),
    ensures
        ready_devices(ds).len() >= 2,
    decreases ds.len(),
{
    let d = ds.drop_last();
    assert(d[i] == ds[i]);
    if j == ds.len() - 1 {
        lemma_ready_devices_complete(d, i);
        assert(ready_devices(d).len() >= 1);
    } else {
        assert(d[j] == ds[j]);
        lemma_two_ready_devices(d, i, j);
    }
}

/// Without a requested serial, a device is selected exactly when one
/// device of the list is ready, and it is that device; no ready device
/// gives the "no authorized device" error, several give the "more than
/// one" error.
pub proof fn lemma_unrequested_selection_counts_ready(ds: Seq<DeviceView>)
    ensures
        ready_devices(ds).len() == 0 <==> (forall|i: int| 0 <= i < ds.len() ==> !is_ready(
            #[trigger] ds[i],
        )),
        ready_devices(ds).len() == 1 ==> exists|i: int|
            0 <= i < ds.len() && ds[i] == ready_devices(ds)[0] && is_ready(ds[i]) && forall|
                j: int,
            |
                0 <= j < ds.len() && j != i ==> !is_ready(#[trigger] ds[j]),
        ready_devices(ds).len() >= 2 ==> exists|i: int, j: int|
            0 <= i < j < ds.len() && is_ready(#[trigger] ds[i]) && is_ready(#[trigger] ds[j]),
{
    lemma_ready_devices_are_listed_and_ready(ds);
    let r = ready_devices(ds);
    if r.len() == 0 {
        assert forall|i: int| 0 <= i < ds.len() implies !is_ready(#[trigger] ds[i]) by {
            if is_ready(ds[i]) {
                lemma_ready_devices_complete(ds, i);
            }
        }
    } else {
        assert(is_ready(r[0]));
        assert(ds.contains(r[0]));
    }
    if r.len() == 1 {
        let i = choose|i: int| 0 <= i < ds.len() && ds[i] == r[0];
        assert forall|j: int| 0 <= j < ds.len() && j != i implies !is_ready(#[trigger] ds[j]) by {
            if is_ready(ds[j]) {
                if i < j {
                    lemma_two_ready_devices(ds, i, j);
                } else {
                    lemma_two_ready_devices(ds, j, i);
                }
            }
        }
    }
    if r.len() >= 2 {
        lemma_ready_devices_first_two(ds);
    }
}

/// Two ready devices in the ready list come from two places in the list.
proof fn lemma_ready_devices_first_two(ds: Seq<DeviceView>)
    requires
        ready_devices(ds).len() >= 2,
    ensures
        exists|i: int, j: int|
            0 <= i < j < ds.len() && is_ready(#[trigger] ds[i]) && is_ready(#[trigger] ds[j]),
    decreases ds.len(),
{
    let d = ds.drop_last();
    let r = ready_devices(d);
    if r.len() >= 2 {
        lemma_ready_devices_first_two(d);
        let (i, j) = choose|i: int, j: int|
            0 <= i < j < d.len() && is_ready(#[trigger] d[i]) && is_ready(#[trigger] d[j]);
        assert(ds[i] == d[i] && ds[j] == d[j]);
    } else {
        assert(is_ready(ds.last()));
        lemma_ready_devices_are_listed_and_ready(d);
        assert(is_ready(r[0]) && d.contains(r[0]));
        let i = choose|i: int| 0 <= i < d.len() && d[i] == r[0];
        assert(ds[i] == d[i]);
        assert(ds[ds.len() - 1] == ds.last());
    }
}

/// A requested serial selects the first device that has it.
pub proof fn lemma_found_device_is_first(ds: Seq<DeviceView>, serial: Seq<char>)
    ensures
        find_serial(ds, serial) matches Some(d) ==> exists|i: int|
            0 <= i < ds.len() && ds[i] == d && d.serial == serial && forall|j: int|
                0 <= j < i ==> (#[trigger] ds[j]).serial != serial,
    decreases ds.len(),
{
    if ds.len() > 0 && ds[0].serial != serial {
        let t = ds.drop_first();
        lemma_found_device_is_first(t, serial);
        if let Some(d) = find_serial(ds, serial) {
            let i = choose|i: int|
                0 <= i < t.len() && t[i] == d && d.serial == serial && forall|j: int|
                    0 <= j < i ==> (#[trigger] t[j]).serial != serial;
            assert(ds[i + 1] == d);
            assert forall|j: int| 0 <= j < i + 1 implies (#[trigger] ds[j]).serial != serial by {
                if j > 0 {
                    assert(ds[j] == t[j - 1]);
                }
            }
        }
    }
}

} // verus!
