//! An address-space router for emulated hardware: byte-addressable devices,
//! multi-byte region access built on single-byte access, two fixed-capacity
//! stores, and a router that maps address ranges to the devices it owns and
//! is itself a device.

pub mod interface;
pub mod mapping;

pub use interface::{BusDevice, BusDeviceError, ConfigError, Device, Memory, ReadOnlyMemory, RegionBusDevice};
pub use mapping::{AddressRange, MemoryMap};
