//! Audio: sample buffers, containers, mixing and capture.

pub mod capture;
pub mod files;
pub mod mixer;
pub mod mp3;
pub mod opus_enc;
pub mod pcm;
pub mod system_tap;
pub mod wav;

use vstd::prelude::*;

verus! {

/// An audio input device.
#[derive(Debug)]
pub struct Device {
    pub index: i32,
    pub name: String,
}

/// The contents of a [`Device`].
pub struct DeviceView {
    pub index: int,
    pub name: Seq<char>,
}

impl View for Device {
    type V = DeviceView;

    open spec fn view(&self) -> DeviceView {
        DeviceView { index: self.index as int, name: self.name@ }
    }
}

/// The contents of a list of devices.
pub open spec fn device_views(v: Seq<Device>) -> Seq<DeviceView> {
    v.map_values(|d: Device| d@)
}

} // verus!
