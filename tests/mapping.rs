use mem::{AddressRange, BusDevice, BusDeviceError, ConfigError, Device, Memory, MemoryMap, ReadOnlyMemory, RegionBusDevice};

const TEST_ADDRESSES: &[usize] = &[
    0, 1, 2, 3, 4, 5, 7, 8, 9, 15, 16, 17, 31, 32, 33, 63, 64, 65, 127, 128, 129, 255, 256, 257, 511, 512, 513, 1023,
    1024, 1025, 2047, 2048, 2049, 4095, 4096, 4097,
];

#[test]
fn test_memory_map_creation() {
    let mut memory_map: MemoryMap<Memory> = MemoryMap::new();

    for addr in TEST_ADDRESSES {
        assert_eq!(memory_map.read(*addr), Err(BusDeviceError::AddressNotMapped { address: *addr }));
        assert_eq!(memory_map.write(*addr, 0), Err(BusDeviceError::AddressNotMapped { address: *addr }));
    }
}

#[test]
fn test_memory_map_single_at_start() {
    let memory_map = MemoryMap::new()
        .with_range(AddressRange::new(0, 7), Memory::filled(vec![0, 1, 2, 3, 4, 5, 6, 7]))
        .unwrap();

    for addr in TEST_ADDRESSES {
        if *addr < 8 {
            assert_eq!(memory_map.read(*addr), Ok((*addr % 256) as u8));
        } else {
            assert_eq!(memory_map.read(*addr), Err(BusDeviceError::AddressNotMapped { address: *addr }));
        }
    }
}

#[test]
fn test_memory_map_single_in_middle_start() {
    let memory_map = MemoryMap::new()
        .with_range(AddressRange::new(4, 11), Memory::filled(vec![0, 1, 2, 3, 4, 5, 6, 7]))
        .unwrap();

    for addr in 0..16usize {
        if addr >= 4 && addr < 12 {
            assert_eq!(memory_map.read(addr), Ok(((addr - 4) % 256) as u8));
        } else {
            assert_eq!(memory_map.read(addr), Err(BusDeviceError::AddressNotMapped { address: addr }));
        }
    }
}

#[test]
fn test_memory_map_multiple_continuous() {
    let memory_map = MemoryMap::new()
        .with_range(AddressRange::new(0, 3), Memory::filled(vec![0, 1, 2, 3]))
        .unwrap()
        .with_range(AddressRange::new(4, 7), Memory::filled(vec![4, 5, 6, 7]))
        .unwrap();

    for addr in 0..16usize {
        if addr < 8 {
            assert_eq!(memory_map.read(addr), Ok((addr % 256) as u8));
        } else {
            assert_eq!(memory_map.read(addr), Err(BusDeviceError::AddressNotMapped { address: addr }));
        }
    }
}

#[test]
fn test_memory_map_multiple_discontinuous() {
    let memory_map = MemoryMap::new()
        .with_range(AddressRange::new(0, 3), Memory::filled(vec![0, 1, 2, 3]))
        .unwrap()
        .with_range(AddressRange::new(6, 7), Memory::filled(vec![6, 7]))
        .unwrap();

    for addr in 0..16usize {
        if addr < 4 || (addr >= 6 && addr < 8) {
            assert_eq!(memory_map.read(addr), Ok((addr % 256) as u8));
        } else {
            assert_eq!(memory_map.read(addr), Err(BusDeviceError::AddressNotMapped { address: addr }));
        }
    }
}

#[test]
fn discontinuous_router_scenario() {
    let memory_map = MemoryMap::new()
        .with_range(AddressRange::new(0, 3), Memory::populated(&[0, 1, 2, 3], 4).unwrap())
        .unwrap()
        .with_range(AddressRange::new(6, 7), Memory::populated(&[6, 7], 2).unwrap())
        .unwrap();
    assert_eq!(memory_map.read(4), Err(BusDeviceError::AddressNotMapped { address: 4 }));
    assert_eq!(memory_map.read(5), Err(BusDeviceError::AddressNotMapped { address: 5 }));
    assert_eq!(memory_map.read(6), Ok(6));
    assert_eq!(memory_map.read(7), Ok(7));
}

#[test]
fn overlapping_endpoint_is_refused() {
    let mut memory_map = MemoryMap::new();
    assert_eq!(memory_map.add_range(AddressRange::new(4, 7), Memory::empty(4)), Ok(()));
    assert_eq!(
        memory_map.add_range(AddressRange::new(6, 9), Memory::empty(4)),
        Err(ConfigError::RangeOverlaps { start: 6, end: 9, mapped_start: 4, mapped_end: 7 })
    );
    assert_eq!(
        memory_map.add_range(AddressRange::new(0, 4), Memory::empty(5)),
        Err(ConfigError::RangeOverlaps { start: 0, end: 4, mapped_start: 4, mapped_end: 7 })
    );
    assert!(MemoryMap::new()
        .with_range(AddressRange::new(0, 3), Memory::empty(4))
        .unwrap()
        .with_range(AddressRange::new(3, 3), Memory::empty(1))
        .is_err());
    assert_eq!(memory_map.read(8), Err(BusDeviceError::AddressNotMapped { address: 8 }));
}

#[test]
fn enclosing_range_passes_the_endpoint_check() {
    let mut memory_map = MemoryMap::new();
    assert_eq!(memory_map.add_range(AddressRange::new(4, 5), Memory::filled(vec![1, 1])), Ok(()));
    assert_eq!(memory_map.add_range(AddressRange::new(0, 9), Memory::filled(vec![2; 10])), Ok(()));
    // The first entry inserted answers for the addresses both hold.
    assert_eq!(memory_map.read(4), Ok(1));
    assert_eq!(memory_map.read(3), Ok(2));
}

#[test]
fn router_write_translates_and_keeps_other_entries() {
    let mut memory_map = MemoryMap::new()
        .with_range(AddressRange::new(0, 3), Memory::empty(4))
        .unwrap()
        .with_range(AddressRange::new(10, 13), Memory::empty(4))
        .unwrap();
    assert_eq!(memory_map.write(11, 5), Ok(()));
    assert_eq!(memory_map.read(11), Ok(5));
    assert_eq!(memory_map.mapping(11).unwrap().1.contents(), &[0, 5, 0, 0]);
    assert_eq!(memory_map.mapping(1).unwrap().1.contents(), &[0, 0, 0, 0]);
    assert_eq!(memory_map.write(20, 5), Err(BusDeviceError::AddressNotMapped { address: 20 }));
}

#[test]
fn device_errors_come_back_in_local_addresses() {
    let mut memory_map = MemoryMap::new()
        .with_range(AddressRange::new(100, 199), Memory::empty(10))
        .unwrap();
    assert_eq!(memory_map.read(150), Err(BusDeviceError::AddressOutOfBounds { address: 50, size: 10 }));
    assert_eq!(memory_map.write(150, 1), Err(BusDeviceError::AddressOutOfBounds { address: 50, size: 10 }));
    let mut rom_map = MemoryMap::new()
        .with_range(AddressRange::new(8, 15), ReadOnlyMemory::filled(vec![3; 8]))
        .unwrap();
    assert_eq!(rom_map.read(9), Ok(3));
    assert_eq!(rom_map.write(9, 1), Err(BusDeviceError::AddressNotWritable { address: 1 }));
}

#[test]
fn routers_nest() {
    let inner = MemoryMap::new()
        .with_range(AddressRange::new(2, 3), Memory::filled(vec![7, 8]))
        .unwrap();
    let mut outer = MemoryMap::new().with_range(AddressRange::new(100, 109), inner).unwrap();
    assert_eq!(outer.read(102), Ok(7));
    assert_eq!(outer.read(103), Ok(8));
    assert_eq!(outer.read(100), Err(BusDeviceError::AddressNotMapped { address: 0 }));
    assert_eq!(outer.write(103, 9), Ok(()));
    assert_eq!(outer.read_region(102, 2), Ok(vec![7, 9]));
}

#[test]
fn mapping_lookup_and_mutation() {
    let mut memory_map = MemoryMap::new()
        .with_range(AddressRange::new(4, 7), Memory::empty(4))
        .unwrap();
    assert!(memory_map.mapping(3).is_none());
    let (range, device) = memory_map.mapping(5).unwrap();
    assert_eq!(*range, AddressRange::new(4, 7));
    assert_eq!(device.size(), 4);
    {
        let (range, device) = memory_map.mut_mapping(6).unwrap();
        assert_eq!(range.start, 4);
        assert_eq!(device.write(0, 77), Ok(()));
    }
    assert_eq!(memory_map.read(4), Ok(77));
    assert!(memory_map.mut_mapping(8).is_none());
}

#[test]
fn region_write_through_router_is_not_atomic() {
    let mut memory_map = MemoryMap::new()
        .with_range(AddressRange::new(0, 1), Memory::empty(2))
        .unwrap();
    assert_eq!(memory_map.write_region(0, &[1, 2, 3]), Err(BusDeviceError::AddressNotMapped { address: 2 }));
    assert_eq!(memory_map.read_region(0, 2), Ok(vec![1, 2]));
}

#[test]
fn default_router_is_empty() {
    let memory_map: MemoryMap<Memory> = MemoryMap::default();
    assert_eq!(memory_map.read(0), Err(BusDeviceError::AddressNotMapped { address: 0 }));
}

#[test]
fn router_over_mixed_devices() {
    let mut bus = MemoryMap::new()
        .with_range(AddressRange::new(0, 3), Device::ReadOnlyMemory(ReadOnlyMemory::filled(vec![9, 8, 7, 6])))
        .unwrap()
        .with_range(AddressRange::new(4, 7), Device::Memory(Memory::empty(4)))
        .unwrap();
    assert_eq!(bus.write(1, 0), Err(BusDeviceError::AddressNotWritable { address: 1 }));
    assert_eq!(bus.write(5, 42), Ok(()));
    assert_eq!(bus.read_region(0, 8), Ok(vec![9, 8, 7, 6, 0, 42, 0, 0]));
}
