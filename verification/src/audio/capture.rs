//! Microphone capture and the permission for it.

use super::{device_views, Device, DeviceView};
use crate::text::owned;
use vstd::prelude::*;

verus! {

broadcast use vstd::string::group_string_axioms;

/// A running capture.
#[derive(Debug)]
pub struct Capture {}

impl Capture {
    /// Starts capturing from a device. No capture backend is part of this
    /// library, so it always fails.
    pub fn start(device_index: i32, sample_rate: u32) -> (r: Result<Capture, String>)
        ensures
            r matches Err(e) && e@ == "audio capture not yet implemented (M2)"@,
    {
        Err(owned("audio capture not yet implemented (M2)"))
    }

    /// Pauses the capture.
    pub fn pause(&self) -> (r: ())
        ensures
            r == (),
    {
    }

    /// Resumes the capture.
    pub fn resume(&self) -> (r: ())
        ensures
            r == (),
    {
    }
}

/// The audio input devices.
pub fn list_devices() -> (r: Vec<Device>)
    ensures
        device_views(r@) == Seq::<DeviceView>::empty(),
{
    let v: Vec<Device> = Vec::new();
    assert(device_views(v@) =~= Seq::<DeviceView>::empty());
    v
}

/// What the system says of the permission to capture.
#[derive(Debug, Clone, Copy, PartialEq, Eq, Structural)]
pub enum Permission {
    Granted,
    Denied,
    /// It is still to be asked for.
    Ask,
}

/// The status of the permission to capture: 3 = authorized, 2 = denied, 1 =
/// restricted, 0 = not determined.
pub fn authorization_status() -> (r: i32)
    ensures
        r == 0,
{
    0
}

/// What a status of the permission means.
pub fn permission_of(status: i32) -> (r: Permission)
    ensures
        r == (if status == 2 {
            Permission::Denied
        } else if status == 3 {
            Permission::Granted
        } else {
            Permission::Ask
        }),
{
    if status == 2 {
        Permission::Denied
    } else if status == 3 {
        Permission::Granted
    } else {
        Permission::Ask
    }
}

/// Asks for the permission to capture. No capture backend is part of this
/// library, so it always fails.
pub fn request_permission() -> (r: Result<(), String>)
    ensures
        r matches Err(e) && e@ == "permission request not yet implemented (M2)"@,
{
    Err(owned("permission request not yet implemented (M2)"))
}

} // verus!
