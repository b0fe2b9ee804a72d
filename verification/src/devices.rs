//! Naming and choosing capture devices: the rules, applied to what the
//! platform reports.

use vstd::prelude::*;

verus! {

/// A device as it is offered to the user.
#[derive(Clone, Debug)]
pub struct AudioDeviceInfo {
    pub id: String,
    pub name: String,
}

/// An output device as the platform reports it.
#[derive(Clone, Debug)]
pub struct OutputDevice {
    /// The unique identifier; empty when the platform gave none.
    pub uid: String,
    /// The display name; empty when the platform gave none.
    pub name: String,
    /// The number of output buffers; zero for a device that plays nothing.
    pub output_buffers: usize,
}

/// What a device entry says, as text.
pub struct DeviceEntry {
    pub id: Seq<char>,
    pub name: Seq<char>,
}

impl View for AudioDeviceInfo {
    type V = DeviceEntry;

    open spec fn view(&self) -> DeviceEntry {
        DeviceEntry { id: self.id@, name: self.name@ }
    }
}

/// The entries of a list, as text.
pub open spec fn entries(list: Seq<AudioDeviceInfo>) -> Seq<DeviceEntry> {
    Seq::new(list.len(), |i: int| list[i]@)
}

/// The entry that stands for whatever microphone the system prefers.
pub open spec fn default_input_entry() -> DeviceEntry {
    DeviceEntry { id: "default"@, name: "Default Microphone"@ }
}

/// The entry of a microphone: its name serves as its identifier.
pub open spec fn input_entry(name: String) -> DeviceEntry {
    DeviceEntry { id: name@, name: name@ }
}

/// Whether an output device is offered: it has output buffers and an
/// identifier.
pub open spec fn offered(device: OutputDevice) -> bool {
    device.output_buffers > 0 && device.uid@.len() > 0
}

/// The entries of the output devices that are offered, in the platform's
/// order.
pub open spec fn output_entries(devices: Seq<OutputDevice>) -> Seq<DeviceEntry>
    decreases devices.len(),
{
    if devices.len() == 0 {
        Seq::empty()
    } else if offered(devices.last()) {
        output_entries(devices.drop_last()).push(
            DeviceEntry { id: devices.last().uid@, name: devices.last().name@ },
        )
    } else {
        output_entries(devices.drop_last())
    }
}

/// Whether the device at `index` can be captured under the identifier
/// `uid`.
pub open spec fn matches_uid(devices: Seq<OutputDevice>, index: int, uid: Seq<char>) -> bool {
    0 <= index < devices.len() && devices[index].output_buffers > 0 && devices[index].uid@ == uid
}

/// The microphone to look for by name, or `None` for the system's default:
/// no identifier and the identifier `default` both mean the default.
pub fn requested_input(device_id: Option<String>) -> (wanted: Option<String>)
    ensures
        wanted == match device_id {
            Some(id) if id@ != "default"@ => Some(id),
            _ => None,
        },
{
    match device_id {
        Some(id) => {
            if id == "default".to_owned() {
                None
            } else {
                Some(id)
            }
        },
        None => None,
    }
}

/// The output device to look for by identifier, or `None` for the system's
/// default: no identifier, an empty one and the identifier `default` all
/// mean the default.
pub fn requested_output(device_id: Option<String>) -> (wanted: Option<String>)
    ensures
        wanted == match device_id {
            Some(id) if id@.len() > 0 && id@ != "default"@ => Some(id),
            _ => None,
        },
{
    match device_id {
        Some(id) => {
            if id.as_str().is_empty() || id == "default".to_owned() {
                None
            } else {
                Some(id)
            }
        },
        None => None,
    }
}

/// The list of microphones: the default entry first, then one entry for
/// each name, in order.
pub fn list_input_devices(names: &Vec<String>) -> (list: Vec<AudioDeviceInfo>)
    ensures
        entries(list@) == seq![default_input_entry()] + Seq::new(
            names@.len(),
            |i: int| input_entry(names@[i]),
        ),
{
    let mut list: Vec<AudioDeviceInfo> = Vec::new();
    list.push(
        AudioDeviceInfo { id: "default".to_owned(), name: "Default Microphone".to_owned() },
    );
    let mut i: usize = 0;
    while i < names.len()
        invariant
            i <= names@.len(),
            list@.len() == i + 1,
            list@[0]@ == default_input_entry(),
            forall|j: int| 0 <= j < i ==> (#[trigger] list@[j + 1])@ == input_entry(names@[j]),
        decreases names@.len() - i,
    {
        list.push(AudioDeviceInfo { id: names[i].clone(), name: names[i].clone() });
        i = i + 1;
    }
    assert(entries(list@) =~= seq![default_input_entry()] + Seq::new(
        names@.len(),
        |i: int| input_entry(names@[i]),
    )) by {
        assert forall|k: int| 0 <= k < list@.len() implies entries(list@)[k] == (seq![
            default_input_entry(),
        ] + Seq::new(names@.len(), |i: int| input_entry(names@[i])))[k] by {
            if k > 0 {
                assert(list@[(k - 1) + 1]@ == input_entry(names@[k - 1]));
            }
        }
    }
    list
}

/// The list of output devices: one entry for each device that is offered,
/// in the platform's order.
pub fn list_output_devices(devices: &Vec<OutputDevice>) -> (list: Vec<AudioDeviceInfo>)
    ensures
        entries(list@) == output_entries(devices@),
{
    let mut list: Vec<AudioDeviceInfo> = Vec::new();
    let mut i: usize = 0;
    assert(devices@.take(0) =~= Seq::<OutputDevice>::empty());
    assert(entries(list@) =~= output_entries(devices@.take(0)));
    while i < devices.len()
        invariant
            i <= devices@.len(),
            entries(list@) == output_entries(devices@.take(i as int)),
        decreases devices@.len() - i,
    {
        let ghost before = entries(list@);
        let device = &devices[i];
        if device.output_buffers > 0 && !device.uid.as_str().is_empty() {
            list.push(AudioDeviceInfo { id: device.uid.clone(), name: device.name.clone() });
        }
        i = i + 1;
        proof {
            let prefix = devices@.take(i as int);
            assert(prefix.drop_last() =~= devices@.take(i - 1));
            assert(prefix.last() == devices@[i - 1]);
            if offered(devices@[i - 1]) {
                assert(entries(list@) =~= before.push(
                    DeviceEntry { id: devices@[i - 1].uid@, name: devices@[i - 1].name@ },
                ));
            }
        }
    }
    assert(devices@.take(i as int) =~= devices@);
    list
}

/// The first output device that can be captured under the identifier
/// `uid`, by its position, or `None` when there is none.
pub fn find_output_device_by_uid(devices: &Vec<OutputDevice>, uid: &String) -> (found: Option<usize>)
    ensures
        match found {
            Some(index) => matches_uid(devices@, index as int, uid@) && forall|j: int|
                0 <= j < index ==> !matches_uid(devices@, j, uid@),
            None => forall|j: int| !matches_uid(devices@, j, uid@),
        },
{
    let mut i: usize = 0;
    while i < devices.len()
        invariant
            i <= devices@.len(),
            forall|j: int| 0 <= j < i ==> !matches_uid(devices@, j, uid@),
        decreases devices@.len() - i,
    {
        if devices[i].output_buffers > 0 && devices[i].uid == *uid {
            return Some(i);
        }
        i = i + 1;
    }
    None
}

} // verus!
