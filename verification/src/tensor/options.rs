use vstd::prelude::*;
use crate::tensor::device::{Device, DeviceType};
use crate::tensor::dtype::DType;

verus! {

/// Immutable construction configuration carried by every tensor: target
/// device, element type, gradient-tracking flag and pinned-memory flag.
/// The chained `with`-style builders return updated copies.
#[derive(Debug, Clone, Copy)]
pub struct Options {
    pub device: Device,
    pub dtype: DType,
    pub requires_grad: bool,
    pub pinned_memory: bool,
}

/// The configuration every constructor starts from: CPU, Float32, no
/// gradient tracking, not pinned.
pub open spec fn default_options() -> Options {
    Options {
        device: Device { device_type: DeviceType::CPU, index: 0 as i8 },
        dtype: DType::Float32,
        requires_grad: false,
        pinned_memory: false,
    }
}

impl Default for Options {
    fn default() -> (r: Self)
        ensures
            r == default_options(),
    {
        Self {
            device: Device::cpu(),
            dtype: DType::Float32,
            requires_grad: false,
            pinned_memory: false,
        }
    }
}

impl Options {
    pub fn new() -> (r: Self)
        ensures
            r == default_options(),
    {
        Self::default()
    }

    pub fn device(self, device: Device) -> (r: Self)
        ensures
            r == (Options { device, ..self }),
    {
        Self { device, ..self }
    }

    pub fn dtype(self, dtype: DType) -> (r: Self)
        ensures
            r == (Options { dtype, ..self }),
    {
        Self { dtype, ..self }
    }

    pub fn requires_grad(self, requires_grad: bool) -> (r: Self)
        ensures
            r == (Options { requires_grad, ..self }),
    {
        Self { requires_grad, ..self }
    }

    pub fn requires_grad_value(&self) -> (r: bool)
        ensures
            r == self.requires_grad,
    {
        self.requires_grad
    }

    pub fn pinned_memory(self, pinned_memory: bool) -> (r: Self)
        ensures
            r == (Options { pinned_memory, ..self }),
    {
        Self { pinned_memory, ..self }
    }

    pub fn no_grad(&self) -> (r: Self)
        ensures
            r == (Options { requires_grad: false, ..*self }),
    {
        Self { requires_grad: false, ..*self }
    }

    pub fn indices(&self) -> (r: Self)
        ensures
            r == (Options { dtype: DType::Int64, ..*self }),
    {
        Self { dtype: DType::Int64, ..*self }
    }
}

/// Builds an option bundle for the given device type and index.
pub fn device(kind: DeviceType, index: i8) -> (r: Options)
    ensures
        r == (Options { device: Device { device_type: kind, index }, ..default_options() }),
{
    Options::new().device(Device::new(kind, index))
}

/// Builds an option bundle for the given device.
pub fn device_from(target: Device) -> (r: Options)
    ensures
        r == (Options { device: target, ..default_options() }),
{
    Options::new().device(target)
}

/// Builds an option bundle with the given element type.
pub fn dtype(element_type: DType) -> (r: Options)
    ensures
        r == (Options { dtype: element_type, ..default_options() }),
{
    Options::new().dtype(element_type)
}

/// Builds an option bundle with the given gradient-tracking flag.
pub fn requires_grad(track: bool) -> (r: Options)
    ensures
        r == (Options { requires_grad: track, ..default_options() }),
{
    Options::new().requires_grad(track)
}

/// Builds an option bundle with the given pinned-memory flag.
pub fn pinned_memory(pinned: bool) -> (r: Options)
    ensures
        r == (Options { pinned_memory: pinned, ..default_options() }),
{
    Options::new().pinned_memory(pinned)
}

} // verus!
