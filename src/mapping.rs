use vstd::prelude::*;

use crate::interface::{BusDevice, BusDeviceError, ConfigError};

verus! {

/// An inclusive range of addresses, `start..=end`. A range whose `start` is
/// above its `end` holds no address.
#[derive(Debug, Clone, Copy, PartialEq, Eq, Structural)]
pub struct AddressRange {
    pub start: usize,
    pub end: usize,
}

impl AddressRange {
    /// The range `start..=end`.
    pub fn new(start: usize, end: usize) -> (r: Self)
        ensures
            r == (AddressRange { start, end }),
    {
        AddressRange { start, end }
    }

    /// Whether `address` lies in this range.
    pub open spec fn spec_contains(self, address: usize) -> bool {
        self.start <= address <= self.end
    }

    /// Whether `address` lies in this range.
    pub fn contains(&self, address: usize) -> (r: bool)
        ensures
            r == self.spec_contains(address),
    {
        self.start <= address && address <= self.end
    }
}

/// A router: an ordered list of address ranges, each backed by a device that
/// it owns. It is itself a device, so routers nest.
pub struct MemoryMap<D> {
    entries: Vec<(AddressRange, D)>,
}

impl<D> View for MemoryMap<D> {
    type V = Seq<(AddressRange, D)>;

    closed spec fn view(&self) -> Seq<(AddressRange, D)> {
        self.entries@
    }
}

impl<D: BusDevice> MemoryMap<D> {
    /// The rule that insertion keeps: no endpoint of an entry's range lies in
    /// the range of an entry before it. A larger range added around a smaller
    /// one passes this rule, so ranges may still share addresses; lookups then
    /// go to the entry added first.
    pub open spec fn wf(&self) -> bool {
        forall|i: int, j: int|
            #![trigger self@[i], self@[j]]
            0 <= i < j < self@.len() ==> !self@[i].0.spec_contains(self@[j].0.start) && !self@[i].0.spec_contains(
                self@[j].0.end,
            )
    }

    /// Whether entry `i` is the first entry whose range holds `address`.
    pub open spec fn is_first_match(&self, i: int, address: usize) -> bool {
        &&& 0 <= i < self@.len()
        &&& self@[i].0.spec_contains(address)
        &&& forall|j: int| 0 <= j < i ==> !(#[trigger] self@[j].0.spec_contains(address))
    }

    /// Whether some entry's range holds `address`.
    pub open spec fn is_mapped(&self, address: usize) -> bool {
        exists|i: int| 0 <= i < self@.len() && #[trigger] self@[i].0.spec_contains(address)
    }

    /// The index of the first entry whose range holds `address`, where
    /// `is_mapped(address)`.
    pub open spec fn first_match(&self, address: usize) -> int {
        choose|i: int| self.is_first_match(i, address)
    }

    /// The address that entry `i`'s device sees for the router's `address`.
    pub open spec fn local_address(&self, i: int, address: usize) -> usize {
        (address - self@[i].0.start) as usize
    }

    /// Whether a range may be added: neither of its endpoints lies in a range
    /// already mapped.
    pub open spec fn admits(&self, range: AddressRange) -> bool {
        forall|i: int|
            0 <= i < self@.len() ==> !(#[trigger] self@[i].0.spec_contains(range.start))
                && !self@[i].0.spec_contains(range.end)
    }

    /// The index of the first entry whose range holds `range`'s start or end.
    pub open spec fn first_conflict(&self, range: AddressRange) -> int {
        choose|i: int|
            {
                &&& 0 <= i < self@.len()
                &&& (self@[i].0.spec_contains(range.start) || self@[i].0.spec_contains(range.end))
                &&& forall|j: int|
                    0 <= j < i ==> !(#[trigger] self@[j].0.spec_contains(range.start))
                        && !self@[j].0.spec_contains(range.end)
            }
    }

    /// An empty router.
    pub fn new() -> (r: Self)
        ensures
            r@ == Seq::<(AddressRange, D)>::empty(),
            r.wf(),
    {
        MemoryMap { entries: Vec::new() }
    }

    /// Adds `range`, backed by `bus_device`, after the entries already there.
    /// Fails, and leaves the router as it was, when an endpoint of `range`
    /// lies in a range already mapped; the error names the first such range.
    pub fn add_range(&mut self, range: AddressRange, bus_device: D) -> (r: Result<(), ConfigError>)
        ensures
            old(self).admits(range) <==> r is Ok,
            old(self).wf() ==> final(self).wf(),
            r is Ok ==> final(self)@ == old(self)@.push((range, bus_device)),
            r matches Err(e) ==> {
                &&& final(self)@ == old(self)@
                &&& e == (ConfigError::RangeOverlaps {
                    start: range.start,
                    end: range.end,
                    mapped_start: old(self)@[old(self).first_conflict(range)].0.start,
                    mapped_end: old(self)@[old(self).first_conflict(range)].0.end,
                })
            },
    {
        let mut i: usize = 0;
        while i < self.entries.len()
            invariant
                i <= self@.len(),
                forall|j: int|
                    0 <= j < i ==> !(#[trigger] self@[j].0.spec_contains(range.start))
                        && !self@[j].0.spec_contains(range.end),
            decreases self@.len() - i,
        {
            let r = self.entries[i].0;
            assert(r == self@[i as int].0);
            if r.contains(range.start) || r.contains(range.end) {
                proof {
                    let k = self.first_conflict(range);
                    assert(0 <= i < self@.len() && (self@[i as int].0.spec_contains(range.start)
                        || self@[i as int].0.spec_contains(range.end)));
                    if k < i {
                        assert(!self@[k].0.spec_contains(range.start));
                    } else if k > i {
                        assert(!self@[i as int].0.spec_contains(range.start));
                    }
                }
                return Err(
                    ConfigError::RangeOverlaps {
                        start: range.start,
                        end: range.end,
                        mapped_start: r.start,
                        mapped_end: r.end,
                    },
                );
            }
            i = i + 1;
        }
        self.entries.push((range, bus_device));
        Ok(())
    }

    /// Chained form of `add_range`: the router with `range` added.
    pub fn with_range(self, range: AddressRange, bus_device: D) -> (r: Result<Self, ConfigError>)
        ensures
            self.admits(range) <==> r is Ok,
            r matches Ok(m) ==> (self.wf() ==> m.wf()),
            r matches Ok(m) ==> m@ == self@.push((range, bus_device)),
            r matches Err(e) ==> e == (ConfigError::RangeOverlaps {
                start: range.start,
                end: range.end,
                mapped_start: self@[self.first_conflict(range)].0.start,
                mapped_end: self@[self.first_conflict(range)].0.end,
            }),
    {
        let mut m = self;
        match m.add_range(range, bus_device) {
            Ok(()) => Ok(m),
            Err(e) => Err(e),
        }
    }

    fn find(&self, address: usize) -> (r: Option<usize>)
        ensures
            r is None <==> !self.is_mapped(address),
            r matches Some(i) ==> self.is_first_match(i as int, address) && i == self.first_match(address),
    {
        let mut i: usize = 0;
        while i < self.entries.len()
            invariant
                i <= self@.len(),
                forall|j: int| 0 <= j < i ==> !(#[trigger] self@[j].0.spec_contains(address)),
            decreases self@.len() - i,
        {
            if self.entries[i].0.contains(address) {
                proof {
                    assert(self.is_first_match(i as int, address));
                    let k = self.first_match(address);
                    if k < i {
                        assert(!self@[k].0.spec_contains(address));
                    } else if k > i {
                        assert(!self@[i as int].0.spec_contains(address));
                    }
                }
                return Some(i);
            }
            i = i + 1;
        }
        None
    }

    /// The first entry whose range holds `address`, if any.
    pub fn mapping(&self, address: usize) -> (r: Option<(&AddressRange, &D)>)
        ensures
            r is None <==> !self.is_mapped(address),
            r is Some ==> self.is_first_match(self.first_match(address), address),
            r matches Some(p) ==> *p.0 == self@[self.first_match(address)].0 && *p.1 == self@[self.first_match(
                address,
            )].1,
    {
        match self.find(address) {
            Some(i) => {
                let e = &self.entries[i];
                Some((&e.0, &e.1))
            },
            None => None,
        }
    }
    /// The first entry whose range holds `address`, if any, with its device
    /// open to change. The ranges and the other entries stay as they are.
    pub fn mut_mapping(&mut self, address: usize) -> (r: Option<(&AddressRange, &mut D)>)
        ensures
            r is None <==> !old(self).is_mapped(address),
            r is None ==> final(self)@ == old(self)@,
            old(self).wf() ==> final(self).wf(),
            r matches Some(p) ==> {
                let i = old(self).first_match(address);
                &&& old(self).is_first_match(i, address)
                &&& *p.0 == old(self)@[i].0
                &&& *p.1 == old(self)@[i].1
                &&& final(self)@ == old(self)@.update(i, (old(self)@[i].0, *final(p.1)))
            },
    {
        match self.find(address) {
            Some(i) => {
                let e = &mut self.entries[i];
                Some((&e.0, &mut e.1))
            },
            None => None,
        }
    }
}

impl<D: BusDevice> Default for MemoryMap<D> {
    fn default() -> (r: Self)
        ensures
            r@ == Seq::<(AddressRange, D)>::empty(),
            r.wf(),
    {
        Self::new()
    }
}

impl<D: BusDevice> BusDevice for MemoryMap<D> {
    /// The first entry that holds `address` answers, at the local address;
    /// its error comes back as it is.
    open spec fn spec_read(&self, address: usize) -> Result<u8, BusDeviceError> {
        if self.is_mapped(address) {
            let i = self.first_match(address);
            self@[i].1.spec_read(self.local_address(i, address))
        } else {
            Err(BusDeviceError::AddressNotMapped { address })
        }
    }

    open spec fn spec_write(&self, address: usize, data: u8) -> Result<(), BusDeviceError> {
        if self.is_mapped(address) {
            let i = self.first_match(address);
            self@[i].1.spec_write(self.local_address(i, address), data)
        } else {
            Err(BusDeviceError::AddressNotMapped { address })
        }
    }

    /// Only the device of the first entry that holds `address` changes, as a
    /// write at the local address changes it.
    open spec fn spec_written(&self, address: usize, data: u8, after: &Self) -> bool {
        if self.is_mapped(address) {
            let i = self.first_match(address);
            &&& after@ == self@.update(i, (self@[i].0, after@[i].1))
            &&& self@[i].1.spec_written(self.local_address(i, address), data, &after@[i].1)
        } else {
            after@ == self@
        }
    }

    fn read(&self, address: usize) -> (r: Result<u8, BusDeviceError>) {
        match self.mapping(address) {
            Some((range, device)) => device.read(address - range.start),
            None => Err(BusDeviceError::AddressNotMapped { address }),
        }
    }

    fn write(&mut self, address: usize, data: u8) -> (r: Result<(), BusDeviceError>) {
        match self.mut_mapping(address) {
            Some((range, device)) => device.write(address - range.start, data),
            None => Err(BusDeviceError::AddressNotMapped { address }),
        }
    }
}


/// When some entry holds `address`, a first such entry exists, and
/// `first_match` names it.
pub proof fn lemma_first_match<D: BusDevice>(m: &MemoryMap<D>, address: usize, i: int)
    requires
        0 <= i < m@.len(),
        m@[i].0.spec_contains(address),
    ensures
        m.is_mapped(address),
        m.is_first_match(m.first_match(address), address),
    decreases i,
{
    if exists|j: int| 0 <= j < i && #[trigger] m@[j].0.spec_contains(address) {
        let j = choose|j: int| 0 <= j < i && #[trigger] m@[j].0.spec_contains(address);
        lemma_first_match(m, address, j);
    } else {
        assert(m.is_first_match(i, address));
    }
}

/// A router with no entries maps nothing: every read and every write fails
/// with `AddressNotMapped` at the address asked for.
pub proof fn lemma_empty_router<D: BusDevice>(m: &MemoryMap<D>, address: usize, data: u8)
    requires
        m@.len() == 0,
    ensures
        m.spec_read(address) == Err::<u8, BusDeviceError>(BusDeviceError::AddressNotMapped { address }),
        m.spec_write(address, data) == Err::<(), BusDeviceError>(BusDeviceError::AddressNotMapped { address }),
{
}

/// With one entry `lo..=hi` backed by a device, a read at an address in the
/// range is that device's read at the address less `lo`; a read elsewhere
/// fails with `AddressNotMapped`.
pub proof fn lemma_single_entry<D: BusDevice>(m: &MemoryMap<D>, address: usize)
    requires
        m@.len() == 1,
    ensures
        m@[0].0.spec_contains(address) ==> m.spec_read(address) == m@[0].1.spec_read(
            (address - m@[0].0.start) as usize,
        ),
        !m@[0].0.spec_contains(address) ==> m.spec_read(address) == Err::<u8, BusDeviceError>(
            BusDeviceError::AddressNotMapped { address },
        ),
{
    if m@[0].0.spec_contains(address) {
        lemma_first_match(m, address, 0);
    }
}

/// A write through the router changes no range, and no entry whose range
/// does not hold the address written.
pub proof fn lemma_write_keeps_other_entries<D: BusDevice>(
    m: &MemoryMap<D>,
    address: usize,
    data: u8,
    after: &MemoryMap<D>,
)
    requires
        m.spec_written(address, data, after),
    ensures
        after@.len() == m@.len(),
        m.wf() ==> after.wf(),
        forall|j: int| 0 <= j < m@.len() ==> (#[trigger] after@[j]).0 == m@[j].0,
        forall|j: int| 0 <= j < m@.len() && !m@[j].0.spec_contains(address) ==> #[trigger] after@[j] == m@[j],
{
    if m.is_mapped(address) {
        let i = choose|i: int| 0 <= i < m@.len() && #[trigger] m@[i].0.spec_contains(address);
        lemma_first_match(m, address, i);
    }
}

} // verus!
