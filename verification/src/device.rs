use vstd::prelude::*;

verus! {

/// Backend-kind-plus-index discriminator returned by a device's
/// `location`; callers branch on it without downcasting the device.
#[derive(Clone, Copy, Debug, PartialEq, Eq, Structural)]
pub enum DeviceLocation {
    Cpu,
    Cuda { gpu_id: usize },
    Metal { gpu_id: usize },
}

} // verus!
