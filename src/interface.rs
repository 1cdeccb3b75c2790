use vstd::prelude::*;

verus! {

/// An error reported by a single byte access.
#[derive(Debug, Clone, Copy, PartialEq, Eq, Structural)]
pub enum BusDeviceError {
    /// The address lies at or beyond the device's addressable size.
    AddressOutOfBounds { address: usize, size: usize },
    /// The device does not accept writes at this address.
    AddressNotWritable { address: usize },
    /// No router entry covers this address.
    AddressNotMapped { address: usize },
}

/// An error in how a store or a router is set up.
#[derive(Debug, Clone, Copy, PartialEq, Eq, Structural)]
pub enum ConfigError {
    /// The initial data is longer than the store's capacity.
    DataExceedsCapacity { length: usize, capacity: usize },
    /// An endpoint of a new range lies inside a range that is already mapped.
    RangeOverlaps { start: usize, end: usize, mapped_start: usize, mapped_end: usize },
}

/// A byte-addressable device.
///
/// A read is a function of the device's state. A write returns a result that
/// is a function of the state before it, and leaves a state that
/// `spec_written` relates to the state before it.
pub trait BusDevice {
    /// What a read at `address` returns.
    spec fn spec_read(&self, address: usize) -> Result<u8, BusDeviceError>;

    /// What a write of `data` at `address` returns.
    spec fn spec_write(&self, address: usize, data: u8) -> Result<(), BusDeviceError>;

    /// Whether `after` is a state that a write of `data` at `address` may leave.
    spec fn spec_written(&self, address: usize, data: u8, after: &Self) -> bool;

    /// Reads the byte at `address`.
    fn read(&self, address: usize) -> (r: Result<u8, BusDeviceError>)
        ensures
            r == self.spec_read(address),
    ;

    /// Writes `data` to the byte at `address`.
    fn write(&mut self, address: usize, data: u8) -> (r: Result<(), BusDeviceError>)
        ensures
            r == old(self).spec_write(address, data),
            old(self).spec_written(address, data, final(self)),
    ;
}

/// The error that a store of `size` bytes reports for an access at `address`.
pub open spec fn out_of_bounds(address: usize, size: nat) -> BusDeviceError {
    BusDeviceError::AddressOutOfBounds { address, size: size as usize }
}

/// What a read at `address` returns from a store holding `bytes`.
pub open spec fn store_read(bytes: Seq<u8>, address: usize) -> Result<u8, BusDeviceError> {
    if address < bytes.len() {
        Ok(bytes[address as int])
    } else {
        Err(out_of_bounds(address, bytes.len()))
    }
}

/// `len` zero bytes.
pub open spec fn zeros(len: nat) -> Seq<u8> {
    Seq::new(len, |i: int| 0u8)
}

/// `data` followed by zero bytes up to `len` bytes.
pub open spec fn zero_padded(data: Seq<u8>, len: nat) -> Seq<u8> {
    Seq::new(len, |i: int| if i < data.len() { data[i] } else { 0u8 })
}

fn zeroed_bytes(size: usize) -> (r: Vec<u8>)
    ensures
        r@ == zeros(size as nat),
{
    let mut v: Vec<u8> = Vec::with_capacity(size);
    let mut i: usize = 0;
    while i < size
        invariant
            i <= size,
            v@ == zeros(i as nat),
        decreases size - i,
    {
        v.push(0u8);
        i = i + 1;
        assert(v@ =~= zeros(i as nat));
    }
    v
}

fn padded_bytes(data: &[u8], size: usize) -> (r: Result<Vec<u8>, ConfigError>)
    ensures
        data@.len() <= size <==> r is Ok,
        r matches Ok(v) ==> v@ == zero_padded(data@, size as nat),
        r matches Err(e) ==> e == (ConfigError::DataExceedsCapacity { length: data@.len() as usize, capacity: size }),
{
    if data.len() > size {
        return Err(ConfigError::DataExceedsCapacity { length: data.len(), capacity: size });
    }
    let mut v: Vec<u8> = Vec::with_capacity(size);
    let mut i: usize = 0;
    while i < size
        invariant
            i <= size,
            data@.len() <= size,
            v@ == zero_padded(data@, i as nat),
        decreases size - i,
    {
        if i < data.len() {
            v.push(data[i]);
        } else {
            v.push(0u8);
        }
        i = i + 1;
        assert(v@ =~= zero_padded(data@, i as nat));
    }
    Ok(v)
}

/// A fixed-capacity store that can be read and written.
pub struct Memory {
    bytes: Vec<u8>,
}

impl View for Memory {
    type V = Seq<u8>;

    closed spec fn view(&self) -> Seq<u8> {
        self.bytes@
    }
}

impl Memory {
    /// A store of `size` zero bytes.
    pub fn empty(size: usize) -> (r: Self)
        ensures
            r@ == zeros(size as nat),
    {
        Memory { bytes: zeroed_bytes(size) }
    }

    /// A store that holds `data`; its capacity is `data`'s length.
    pub fn filled(data: Vec<u8>) -> (r: Self)
        ensures
            r@ == data@,
    {
        Memory { bytes: data }
    }

    /// A store of `size` bytes that starts with `data` and is zero after it.
    /// Fails when `data` is longer than `size`.
    pub fn populated(data: &[u8], size: usize) -> (r: Result<Self, ConfigError>)
        ensures
            data@.len() <= size <==> r is Ok,
            r matches Ok(m) ==> m@ == zero_padded(data@, size as nat),
            r matches Err(e) ==> e == (ConfigError::DataExceedsCapacity { length: data@.len() as usize, capacity: size }),
    {
        match padded_bytes(data, size) {
            Ok(bytes) => Ok(Memory { bytes }),
            Err(e) => Err(e),
        }
    }

    /// The number of bytes the store holds.
    pub fn size(&self) -> (r: usize)
        ensures
            r == self@.len(),
    {
        self.bytes.len()
    }

    /// The bytes the store holds.
    pub fn contents(&self) -> (r: &[u8])
        ensures
            r@ == self@,
    {
        self.bytes.as_slice()
    }
}

impl BusDevice for Memory {
    open spec fn spec_read(&self, address: usize) -> Result<u8, BusDeviceError> {
        store_read(self@, address)
    }

    open spec fn spec_write(&self, address: usize, data: u8) -> Result<(), BusDeviceError> {
        if address < self@.len() {
            Ok(())
        } else {
            Err(out_of_bounds(address, self@.len()))
        }
    }

    open spec fn spec_written(&self, address: usize, data: u8, after: &Self) -> bool {
        after@ == if address < self@.len() {
            self@.update(address as int, data)
        } else {
            self@
        }
    }

    fn read(&self, address: usize) -> (r: Result<u8, BusDeviceError>) {
        if address < self.bytes.len() {
            Ok(self.bytes[address])
        } else {
            Err(BusDeviceError::AddressOutOfBounds { address, size: self.bytes.len() })
        }
    }

    fn write(&mut self, address: usize, data: u8) -> (r: Result<(), BusDeviceError>) {
        let size = self.bytes.len();
        if address < size {
            self.bytes.set(address, data);
            Ok(())
        } else {
            Err(BusDeviceError::AddressOutOfBounds { address, size })
        }
    }
}


/// A fixed-capacity store that can be read but never written.
pub struct ReadOnlyMemory {
    bytes: Vec<u8>,
}

impl View for ReadOnlyMemory {
    type V = Seq<u8>;

    closed spec fn view(&self) -> Seq<u8> {
        self.bytes@
    }
}

impl ReadOnlyMemory {
    /// A read-only store of `size` zero bytes.
    pub fn empty(size: usize) -> (r: Self)
        ensures
            r@ == zeros(size as nat),
    {
        ReadOnlyMemory { bytes: zeroed_bytes(size) }
    }

    /// A read-only store that holds `data`; its capacity is `data`'s length.
    pub fn filled(data: Vec<u8>) -> (r: Self)
        ensures
            r@ == data@,
    {
        ReadOnlyMemory { bytes: data }
    }

    /// A read-only store of `size` bytes that starts with `data` and is zero
    /// after it. Fails when `data` is longer than `size`.
    pub fn populated(data: &[u8], size: usize) -> (r: Result<Self, ConfigError>)
        ensures
            data@.len() <= size <==> r is Ok,
            r matches Ok(m) ==> m@ == zero_padded(data@, size as nat),
            r matches Err(e) ==> e == (ConfigError::DataExceedsCapacity { length: data@.len() as usize, capacity: size }),
    {
        match padded_bytes(data, size) {
            Ok(bytes) => Ok(ReadOnlyMemory { bytes }),
            Err(e) => Err(e),
        }
    }

    /// The number of bytes the store holds.
    pub fn size(&self) -> (r: usize)
        ensures
            r == self@.len(),
    {
        self.bytes.len()
    }

    /// The bytes the store holds.
    pub fn contents(&self) -> (r: &[u8])
        ensures
            r@ == self@,
    {
        self.bytes.as_slice()
    }
}

impl BusDevice for ReadOnlyMemory {
    open spec fn spec_read(&self, address: usize) -> Result<u8, BusDeviceError> {
        store_read(self@, address)
    }

    /// Writes are refused at every address, before any bounds check.
    open spec fn spec_write(&self, address: usize, data: u8) -> Result<(), BusDeviceError> {
        Err(BusDeviceError::AddressNotWritable { address })
    }

    open spec fn spec_written(&self, address: usize, data: u8, after: &Self) -> bool {
        after@ == self@
    }

    fn read(&self, address: usize) -> (r: Result<u8, BusDeviceError>) {
        if address < self.bytes.len() {
            Ok(self.bytes[address])
        } else {
            Err(BusDeviceError::AddressOutOfBounds { address, size: self.bytes.len() })
        }
    }

    fn write(&mut self, address: usize, data: u8) -> (r: Result<(), BusDeviceError>) {
        Err(BusDeviceError::AddressNotWritable { address })
    }
}

/// A store of either kind, so that one router can hold both.
pub enum Device {
    Memory(Memory),
    ReadOnlyMemory(ReadOnlyMemory),
}

impl BusDevice for Device {
    open spec fn spec_read(&self, address: usize) -> Result<u8, BusDeviceError> {
        match self {
            Device::Memory(m) => m.spec_read(address),
            Device::ReadOnlyMemory(m) => m.spec_read(address),
        }
    }

    open spec fn spec_write(&self, address: usize, data: u8) -> Result<(), BusDeviceError> {
        match self {
            Device::Memory(m) => m.spec_write(address, data),
            Device::ReadOnlyMemory(m) => m.spec_write(address, data),
        }
    }

    open spec fn spec_written(&self, address: usize, data: u8, after: &Self) -> bool {
        match (self, after) {
            (Device::Memory(m), Device::Memory(n)) => m.spec_written(address, data, n),
            (Device::ReadOnlyMemory(m), Device::ReadOnlyMemory(n)) => m.spec_written(address, data, n),
            _ => false,
        }
    }

    fn read(&self, address: usize) -> (r: Result<u8, BusDeviceError>) {
        match self {
            Device::Memory(m) => m.read(address),
            Device::ReadOnlyMemory(m) => m.read(address),
        }
    }

    fn write(&mut self, address: usize, data: u8) -> (r: Result<(), BusDeviceError>) {
        match self {
            Device::Memory(m) => m.write(address, data),
            Device::ReadOnlyMemory(m) => m.write(address, data),
        }
    }
}

/// What a read of `count` bytes from `address` returns: the bytes in order,
/// or the error of the first byte that cannot be read.
pub open spec fn region_read<D: BusDevice>(d: &D, address: int, count: nat) -> Result<Seq<u8>, BusDeviceError>
    decreases count,
{
    if count == 0 {
        Ok(Seq::empty())
    } else {
        match region_read(d, address, (count - 1) as nat) {
            Ok(s) => match d.spec_read((address + count - 1) as usize) {
                Ok(b) => Ok(s.push(b)),
                Err(e) => Err(e),
            },
            Err(e) => Err(e),
        }
    }
}

/// Whether a write of `data` from `address` that returned `r` went through
/// the device states `states`: `states[k]` is the device before byte `k` is
/// written, and the last state is the device after the last byte tried.
/// Bytes are written in order; every byte tried but the last succeeded, and
/// the write stops at the first byte that fails, with that byte's error.
pub open spec fn region_written<D: BusDevice>(
    states: Seq<D>,
    address: int,
    data: Seq<u8>,
    r: Result<(), BusDeviceError>,
) -> bool {
    let n = states.len() - 1;
    &&& 1 <= states.len() <= data.len() + 1
    &&& forall|k: int|
        0 <= k < n ==> #[trigger] states[k].spec_written((address + k) as usize, data[k], &states[k + 1])
    &&& forall|k: int|
        0 <= k < n - 1 ==> (#[trigger] states[k].spec_write((address + k) as usize, data[k])) is Ok
    &&& match r {
        Ok(_) => n == data.len() && (n > 0 ==> states[n - 1].spec_write((address + (n - 1)) as usize, data[n - 1]) is Ok),
        Err(e) => n >= 1 && states[n - 1].spec_write((address + (n - 1)) as usize, data[n - 1]) == Err::<(), BusDeviceError>(e),
    }
}

/// Once a region read fails, reading further bytes fails with the same error.
pub proof fn lemma_region_read_failure_extends<D: BusDevice>(d: &D, address: int, m: nat, n: nat)
    requires
        m <= n,
        region_read(d, address, m) is Err,
    ensures
        region_read(d, address, n) == region_read(d, address, m),
    decreases n - m,
{
    if m < n {
        lemma_region_read_failure_extends(d, address, m, (n - 1) as nat);
    }
}

/// Multi-byte access built from single-byte reads and writes.
pub trait RegionBusDevice: BusDevice + Sized {
    /// Reads `count` bytes from `address` on, one at a time and in order,
    /// stopping at the first byte that fails.
    fn read_region(&self, address: usize, count: usize) -> (r: Result<Vec<u8>, BusDeviceError>)
        requires
            address + count <= usize::MAX + 1,
        ensures
            r matches Ok(v) ==> region_read(self, address as int, count as nat) == Ok::<Seq<u8>, BusDeviceError>(v@),
            r matches Err(e) ==> region_read(self, address as int, count as nat) == Err::<Seq<u8>, BusDeviceError>(e),
    {
        let mut v: Vec<u8> = Vec::with_capacity(count);
        let mut i: usize = 0;
        while i < count
            invariant
                i <= count,
                address + count <= usize::MAX + 1,
                region_read(self, address as int, i as nat) == Ok::<Seq<u8>, BusDeviceError>(v@),
            decreases count - i,
        {
            let b = self.read(address + i);
            match b {
                Ok(b) => v.push(b),
                Err(e) => {
                    assert(region_read(self, address as int, (i + 1) as nat) == Err::<Seq<u8>, BusDeviceError>(e));
                    proof {
                        lemma_region_read_failure_extends(self, address as int, (i + 1) as nat, count as nat);
                    }
                    return Err(e);
                },
            }
            i = i + 1;
        }
        Ok(v)
    }

    /// Writes `data` from `address` on, one byte at a time and in order. Not
    /// atomic: on a failure the bytes before the failing one stay written, and
    /// the first error is returned.
    fn write_region(&mut self, address: usize, data: &[u8]) -> (r: Result<(), BusDeviceError>)
        requires
            address + data@.len() <= usize::MAX + 1,
        ensures
            exists|states: Seq<Self>|
                {
                    &&& region_written(states, address as int, data@, r)
                    &&& states[0] == *old(self)
                    &&& states.last() == *final(self)
                },
    {
        let ghost mut states: Seq<Self> = seq![*self];
        let mut i: usize = 0;
        while i < data.len()
            invariant
                i <= data@.len(),
                address + data@.len() <= usize::MAX + 1,
                states.len() == i + 1,
                states[0] == *old(self),
                states.last() == *self,
                forall|k: int|
                    0 <= k < i ==> #[trigger] states[k].spec_written((address + k) as usize, data@[k], &states[k + 1]),
                forall|k: int|
                    0 <= k < i ==> (#[trigger] states[k].spec_write((address + k) as usize, data@[k])) is Ok,
            decreases data@.len() - i,
        {
            let ghost before = *self;
            let res = self.write(address + i, data[i]);
            proof {
                states = states.push(*self);
                assert(states[i as int] == before);
                assert(((address + i) as int) as usize == address + i);
                assert forall|k: int| 0 <= k < i + 1 implies #[trigger] states[k].spec_written(
                    (address + k) as usize,
                    data@[k],
                    &states[k + 1],
                ) by {
                    if k == i {
                        assert(states[k + 1] == *self);
                    }
                }
            }
            match res {
                Ok(_) => {},
                Err(e) => {
                    assert(states[i as int].spec_write((address + i) as usize, data@[i as int]) == Err::<(), BusDeviceError>(e));
                    assert(region_written(states, address as int, data@, Err::<(), BusDeviceError>(e)));
                    assert(states[0] == *old(self) && states.last() == *self);
                    return Err(e);
                },
            }
            i = i + 1;
        }
        assert(region_written(states, address as int, data@, Ok::<(), BusDeviceError>(())));
        Ok(())
    }
}

impl<T: BusDevice> RegionBusDevice for T {}


/// A read from a store succeeds exactly below its capacity, with the byte
/// held there; at or above it, it fails with `AddressOutOfBounds` naming the
/// address and the capacity.
pub proof fn lemma_memory_read_bounds(m: &Memory, address: usize)
    ensures
        m.spec_read(address) is Ok <==> address < m@.len(),
        address < m@.len() ==> m.spec_read(address) == Ok::<u8, BusDeviceError>(m@[address as int]),
        address >= m@.len() ==> m.spec_read(address) == Err::<u8, BusDeviceError>(
            BusDeviceError::AddressOutOfBounds { address, size: m@.len() as usize },
        ),
{
}

/// A read from a read-only store succeeds exactly below its capacity, with
/// the byte held there; at or above it, it fails with `AddressOutOfBounds`
/// naming the address and the capacity.
pub proof fn lemma_read_only_memory_read_bounds(m: &ReadOnlyMemory, address: usize)
    ensures
        m.spec_read(address) is Ok <==> address < m@.len(),
        address < m@.len() ==> m.spec_read(address) == Ok::<u8, BusDeviceError>(m@[address as int]),
        address >= m@.len() ==> m.spec_read(address) == Err::<u8, BusDeviceError>(
            BusDeviceError::AddressOutOfBounds { address, size: m@.len() as usize },
        ),
{
}

/// After a write of `data` below a store's capacity, a read there returns
/// `data`. At or above the capacity the write fails with `AddressOutOfBounds`
/// and the contents stay as they were.
pub proof fn lemma_memory_write_then_read(m: &Memory, address: usize, data: u8, after: &Memory)
    requires
        m.spec_written(address, data, after),
    ensures
        address < m@.len() ==> m.spec_write(address, data) is Ok && after.spec_read(address) == Ok::<
            u8,
            BusDeviceError,
        >(data),
        address >= m@.len() ==> after@ == m@ && m.spec_write(address, data) == Err::<(), BusDeviceError>(
            BusDeviceError::AddressOutOfBounds { address, size: m@.len() as usize },
        ),
{
}

/// A write to a read-only store fails with `AddressNotWritable` at every
/// address, within the capacity or not, and changes nothing.
pub proof fn lemma_read_only_memory_write(m: &ReadOnlyMemory, address: usize, data: u8, after: &ReadOnlyMemory)
    requires
        m.spec_written(address, data, after),
    ensures
        m.spec_write(address, data) == Err::<(), BusDeviceError>(BusDeviceError::AddressNotWritable { address }),
        after@ == m@,
{
}

/// A region of no bytes is read as no bytes, and written without touching
/// the device, on any device and at any address.
pub proof fn lemma_empty_region<D: BusDevice>(
    d: &D,
    address: int,
    states: Seq<D>,
    r: Result<(), BusDeviceError>,
)
    ensures
        region_read(d, address, 0) == Ok::<Seq<u8>, BusDeviceError>(Seq::empty()),
        region_written(states, address, Seq::empty(), r) ==> r is Ok && states.len() == 1,
{
}

/// On a store of no bytes, reading a region of one byte or more fails with
/// `AddressOutOfBounds` at the start address and size 0; so does writing one.
pub proof fn lemma_memory_zero_capacity_region(
    m: &Memory,
    address: usize,
    count: nat,
    data: Seq<u8>,
    states: Seq<Memory>,
    r: Result<(), BusDeviceError>,
)
    requires
        m@.len() == 0,
    ensures
        count > 0 ==> region_read(m, address as int, count) == Err::<Seq<u8>, BusDeviceError>(
            BusDeviceError::AddressOutOfBounds { address, size: 0 },
        ),
        data.len() > 0 && region_written(states, address as int, data, r) && states[0] == *m ==> r
            == Err::<(), BusDeviceError>(BusDeviceError::AddressOutOfBounds { address, size: 0 }),
{
    if count > 0 {
        assert(region_read(m, address as int, 0) == Ok::<Seq<u8>, BusDeviceError>(Seq::empty()));
        assert(((address as int + 1) - 1) as usize == address);
        assert(region_read(m, address as int, 1) == Err::<Seq<u8>, BusDeviceError>(
            BusDeviceError::AddressOutOfBounds { address, size: 0 },
        ));
        lemma_region_read_failure_extends(m, address as int, 1, count);
    }
    if data.len() > 0 && region_written(states, address as int, data, r) && states[0] == *m {
        assert(states[0].spec_write((address + 0) as usize, data[0]) is Err);
    }
}

/// On a read-only store of no bytes, reading a region of one byte or more
/// fails with `AddressOutOfBounds` at the start address and size 0.
pub proof fn lemma_read_only_memory_zero_capacity_region(m: &ReadOnlyMemory, address: usize, count: nat)
    requires
        m@.len() == 0,
    ensures
        count > 0 ==> region_read(m, address as int, count) == Err::<Seq<u8>, BusDeviceError>(
            BusDeviceError::AddressOutOfBounds { address, size: 0 },
        ),
{
    if count > 0 {
        assert(region_read(m, address as int, 0) == Ok::<Seq<u8>, BusDeviceError>(Seq::empty()));
        assert(((address as int + 1) - 1) as usize == address);
        assert(region_read(m, address as int, 1) == Err::<Seq<u8>, BusDeviceError>(
            BusDeviceError::AddressOutOfBounds { address, size: 0 },
        ));
        lemma_region_read_failure_extends(m, address as int, 1, count);
    }
}


/// What a region read of `count` bytes from `address` returns on a store
/// holding `bytes`: the bytes, when the whole region lies below the
/// capacity; else the error of the first byte at or above it.
pub open spec fn store_region_read(bytes: Seq<u8>, address: int, count: nat) -> Result<Seq<u8>, BusDeviceError> {
    if count == 0 {
        Ok(Seq::empty())
    } else if address + count <= bytes.len() {
        Ok(bytes.subrange(address, address + count))
    } else {
        Err(out_of_bounds((if address < bytes.len() { bytes.len() as int } else { address }) as usize, bytes.len()))
    }
}

/// `bytes` with `data` written from `address` on, as far as the capacity.
pub open spec fn store_region_written(bytes: Seq<u8>, address: int, data: Seq<u8>) -> Seq<u8> {
    Seq::new(bytes.len(), |i: int| if address <= i < address + data.len() { data[i - address] } else { bytes[i] })
}

proof fn lemma_store_region_read<D: BusDevice>(d: &D, bytes: Seq<u8>, address: int, count: nat)
    requires
        0 <= address,
        address + count <= usize::MAX + 1,
        forall|a: usize| #[trigger] d.spec_read(a) == store_read(bytes, a),
    ensures
        region_read(d, address, count) == store_region_read(bytes, address, count),
    decreases count,
{
    if count > 0 {
        let c = (count - 1) as nat;
        lemma_store_region_read(d, bytes, address, c);
        assert(d.spec_read((address + count - 1) as usize) == store_read(bytes, (address + count - 1) as usize));
        if c > 0 && address + c <= bytes.len() && address + count <= bytes.len() {
            assert(bytes.subrange(address, address + c).push(bytes[address + c]) =~= bytes.subrange(
                address,
                address + count,
            ));
        }
        if c == 0 && address < bytes.len() {
            assert(Seq::<u8>::empty().push(bytes[address]) =~= bytes.subrange(address, address + 1));
        }
    }
}

/// A region read from a store returns the bytes of the region when it lies
/// below the capacity, and otherwise fails at the first byte at or above it.
pub proof fn lemma_memory_region_read(m: &Memory, address: usize, count: nat)
    requires
        address + count <= usize::MAX + 1,
    ensures
        region_read(m, address as int, count) == store_region_read(m@, address as int, count),
{
    lemma_store_region_read(m, m@, address as int, count);
}

/// A region read from a read-only store returns the bytes of the region when
/// it lies below the capacity, and otherwise fails at the first byte at or
/// above it.
pub proof fn lemma_read_only_memory_region_read(m: &ReadOnlyMemory, address: usize, count: nat)
    requires
        address + count <= usize::MAX + 1,
    ensures
        region_read(m, address as int, count) == store_region_read(m@, address as int, count),
{
    lemma_store_region_read(m, m@, address as int, count);
}

proof fn lemma_memory_region_states(m: &Memory, address: int, data: Seq<u8>, states: Seq<Memory>, r: Result<(), BusDeviceError>, k: int)
    requires
        0 <= address,
        address + data.len() <= usize::MAX + 1,
        region_written(states, address, data, r),
        states[0] == *m,
        0 <= k < states.len(),
    ensures
        states[k]@ == store_region_written(m@, address, data.take(k)),
    decreases k,
{
    if k == 0 {
        assert(store_region_written(m@, address, data.take(0)) =~= m@);
    } else {
        lemma_memory_region_states(m, address, data, states, r, k - 1);
        assert(states[k - 1].spec_written((address + (k - 1)) as usize, data[k - 1], &states[(k - 1) + 1]));
        assert(states[k]@ =~= store_region_written(m@, address, data.take(k)));
    }
}

/// A region write to a store succeeds exactly when the region is empty or
/// lies below the capacity, and otherwise fails at the first byte at or above
/// it. Either way every byte of the region below the capacity is written,
/// and nothing else changes.
pub proof fn lemma_memory_region_write(
    m: &Memory,
    address: usize,
    data: Seq<u8>,
    states: Seq<Memory>,
    r: Result<(), BusDeviceError>,
)
    requires
        address + data.len() <= usize::MAX + 1,
        region_written(states, address as int, data, r),
        states[0] == *m,
    ensures
        r is Ok <==> data.len() == 0 || address + data.len() <= m@.len(),
        r matches Err(e) ==> e == out_of_bounds(
            (if address < m@.len() { m@.len() as int } else { address as int }) as usize,
            m@.len(),
        ),
        states.last()@ == store_region_written(m@, address as int, data),
{
    let n = states.len() - 1;
    lemma_memory_region_states(m, address as int, data, states, r, n);
    assert forall|k: int| 0 <= k < states.len() implies #[trigger] states[k]@.len() == m@.len() by {
        lemma_memory_region_states(m, address as int, data, states, r, k);
    }
    if n >= 1 {
        assert(states[n - 1].spec_write((address + (n - 1)) as usize, data[n - 1]) is Ok ==> address + (n - 1)
            < m@.len());
    }
    if n >= 2 {
        assert(states[n - 2].spec_write((address + (n - 2)) as usize, data[n - 2]) is Ok);
    }
    if r is Ok {
        assert(data.take(n) =~= data);
    } else {
        assert(store_region_written(m@, address as int, data.take(n)) =~= store_region_written(
            m@,
            address as int,
            data,
        ));
    }
}

/// A region write to a read-only store of one byte or more fails with
/// `AddressNotWritable` at the start address; no write changes the store.
pub proof fn lemma_read_only_memory_region_write(
    m: &ReadOnlyMemory,
    address: usize,
    data: Seq<u8>,
    states: Seq<ReadOnlyMemory>,
    r: Result<(), BusDeviceError>,
)
    requires
        region_written(states, address as int, data, r),
        states[0] == *m,
    ensures
        r is Ok <==> data.len() == 0,
        r matches Err(e) ==> e == (BusDeviceError::AddressNotWritable { address }),
        states.last()@ == m@,
{
    if states.len() == 2 {
        assert(states[0].spec_written((address + 0) as usize, data[0], &states[0int + 1]));
    }
    if data.len() > 0 {
        assert(states[0].spec_write((address + 0) as usize, data[0]) is Err);
    }
}

} // verus!
