use vstd::prelude::*;

verus! {

/// Execution target of a tensor. Only the CPU is actually usable; CUDA is a
/// recognized placeholder whose allocation and copy paths always fail.
#[derive(Debug, Clone, Copy, PartialEq, Eq, Hash, Structural)]
pub enum DeviceType {
    CPU,
    CUDA,
}

pub type DeviceIndex = i8;

/// A device descriptor: a device type together with an ordinal index.
#[derive(Debug, Clone, Copy, PartialEq, Eq, Hash, Structural)]
pub struct Device {
    pub device_type: DeviceType,
    pub index: DeviceIndex,
}

impl Device {
    pub fn new(device_type: DeviceType, index: DeviceIndex) -> (r: Self)
        ensures
            r == (Device { device_type, index }),
    {
        Self { device_type, index }
    }

    pub fn cpu() -> (r: Self)
        ensures
            r == (Device { device_type: DeviceType::CPU, index: 0 as i8 }),
    {
        Self::new(DeviceType::CPU, 0)
    }

    pub fn cuda(index: DeviceIndex) -> (r: Self)
        ensures
            r == (Device { device_type: DeviceType::CUDA, index }),
    {
        Self::new(DeviceType::CUDA, index)
    }

    pub open spec fn spec_is_cpu(&self) -> bool {
        self.device_type == DeviceType::CPU
    }

    pub fn is_cpu(&self) -> (r: bool)
        ensures
            r == self.spec_is_cpu(),
    {
        matches!(self.device_type, DeviceType::CPU)
    }

    pub fn is_cuda(&self) -> (r: bool)
        ensures
            r == !self.spec_is_cpu(),
    {
        matches!(self.device_type, DeviceType::CUDA)
    }
}

impl Default for Device {
    fn default() -> (r: Self)
        ensures
            r == (Device { device_type: DeviceType::CPU, index: 0 as i8 }),
    {
        Self::cpu()
    }
}

} // verus!
