//! The devices that the backend offers.

use vstd::prelude::*;

verus! {

/// How many devices there are.
pub fn count<T>(devices: &[T]) -> (count: usize)
    ensures
        count == devices@.len(),
{
    devices.len()
}

/// The device with the number `index`, where there is one.
pub fn get<T>(devices: &[T], index: usize) -> (device: Option<&T>)
    ensures
        match device {
            Some(device) => index < devices@.len() && *device == devices@[index as int],
            None => index >= devices@.len(),
        },
{
    if index < devices.len() {
        Some(&devices[index])
    } else {
        None
    }
}

/// What a device can do beyond computing.
#[derive(Clone, Copy, Debug, PartialEq, Eq)]
pub struct DeviceCaps {
    pub async_: bool,
    pub host_buffer: bool,
    pub buffer_from_host_ptr: bool,
    pub events: bool,
}

/// What a device says of itself. The texts end in a zero character.
pub struct DeviceProps {
    pub name: String,
    pub description: String,
    pub caps: DeviceCaps,
    pub memory_free: usize,
    pub memory_total: usize,
}

/// What the device `chip` says of itself.
pub fn props(chip: &str) -> (props: DeviceProps)
    ensures
        props.name@ == chip@ + "\0"@,
        props.description@ == "ttx-rs\0"@,
        props.caps == (DeviceCaps {
            async_: false,
            host_buffer: false,
            buffer_from_host_ptr: false,
            events: false,
        }),
        props.memory_free == 0,
        props.memory_total == 0,
{
    let mut name = chip.to_string();
    name.append("\0");
    DeviceProps {
        name,
        description: "ttx-rs\0".to_string(),
        caps: DeviceCaps {
            async_: false,
            host_buffer: false,
            buffer_from_host_ptr: false,
            events: false,
        },
        memory_free: 0,
        memory_total: 0,
    }
}

} // verus!
