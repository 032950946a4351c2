//! The register map: a named aggregate of declared registers over one
//! region, built atomically from a declaration table.
//!
//! Each entry declares a byte offset, a capability tag and a width.  The
//! map exists only if every declared window lies within the region: there
//! is no partially built map.  Thereafter each entry is addressed by its
//! index; reads and writes are granted exactly as the entry's tag declares.

use crate::devmem::{DevMem, DevMemView};
use crate::value::RegValue;
use vstd::prelude::*;

verus! {

/// Capability tag of one declared register.
#[derive(Debug, Clone, Copy, PartialEq, Eq, Structural)]
pub enum Access {
    /// The register grants only reads.
    ReadOnly,
    /// The register grants only writes.
    WriteOnly,
    /// The register grants reads and writes.
    ReadWrite,
}

impl Access {
    /// Whether this tag grants reads.
    pub open spec fn readable(self) -> bool {
        self is ReadOnly || self is ReadWrite
    }

    /// Whether this tag grants writes.
    pub open spec fn writable(self) -> bool {
        self is WriteOnly || self is ReadWrite
    }

    /// Whether this tag grants reads.
    pub fn grants_read(self) -> (r: bool)
        ensures
            r == self.readable(),
    {
        match self {
            Access::ReadOnly | Access::ReadWrite => true,
            Access::WriteOnly => false,
        }
    }

    /// Whether this tag grants writes.
    pub fn grants_write(self) -> (r: bool)
        ensures
            r == self.writable(),
    {
        match self {
            Access::WriteOnly | Access::ReadWrite => true,
            Access::ReadOnly => false,
        }
    }
}

/// One declared register of a map.
#[derive(Debug, Clone, Copy, PartialEq, Eq, Structural)]
pub struct MapEntry {
    /// Byte offset of the register inside the region.
    pub offset: usize,
    /// Capability tag of the register.
    pub access: Access,
    /// Width of the register in bytes.
    pub width: usize,
}

impl MapEntry {
    /// Whether the entry's byte window lies within a region of `len` bytes.
    pub open spec fn fits(self, len: int) -> bool {
        self.offset + self.width <= len
    }
}

/// The model of a register map: the region it owns and the declarations it
/// was built from.
pub struct RegMapView {
    /// The owned region.
    pub region: DevMemView,
    /// The declared registers, in declaration order.
    pub entries: Seq<MapEntry>,
}

/// A register map: one mapped region and a table of declared registers over
/// it, each validated against the region at construction.
pub struct RegMap {
    devmem: DevMem,
    entries: Vec<MapEntry>,
}

impl View for RegMap {
    type V = RegMapView;

    closed spec fn view(&self) -> RegMapView {
        RegMapView { region: self.devmem@, entries: self.entries@ }
    }
}

impl RegMap {
    /// Map invariant: the region is well formed and every declared window
    /// lies within it.
    pub open spec fn wf(&self) -> bool {
        &&& self@.region.wf()
        &&& forall|i: int|
            0 <= i < self@.entries.len() ==> #[trigger] self@.entries[i].fits(
                self@.region.bytes.len() as int,
            )
    }

    /// Builds a map over `devmem` from the declarations in `entries`,
    /// atomically: the map is absent if any single declared window runs
    /// past the end of the region, and no partial map exists.
    pub fn new(devmem: DevMem, entries: Vec<MapEntry>) -> (r: Option<RegMap>)
        requires
            devmem@.wf(),
        ensures
            (r is Some) <==> (forall|i: int|
                0 <= i < entries@.len() ==> #[trigger] entries@[i].fits(
                    devmem@.bytes.len() as int,
                )),
            r matches Some(m) ==> {
                &&& m@.region == devmem@
                &&& m@.entries == entries@
                &&& m.wf()
            },
    {
        let n: usize = devmem.len();
        let total: usize = entries.len();
        let mut i: usize = 0;
        while i < total
            invariant
                i <= total,
                total == entries@.len(),
                n == devmem@.bytes.len(),
                forall|k: int| 0 <= k < i ==> #[trigger] entries@[k].fits(n as int),
            decreases total - i,
        {
            let e: MapEntry = entries[i];
            if e.width > n || e.offset > n - e.width {
                proof {
                    assert(!entries@[i as int].fits(n as int));
                }
                return None;
            }
            i += 1;
        }
        Some(RegMap { devmem, entries })
    }

    /// The number of declared registers.
    pub fn entry_count(&self) -> (r: usize)
        ensures
            r == self@.entries.len(),
    {
        self.entries.len()
    }

    /// The `index`-th declaration.
    pub fn entry(&self, index: usize) -> (r: MapEntry)
        requires
            index < self@.entries.len(),
        ensures
            r == self@.entries[index as int],
    {
        self.entries[index]
    }

    /// The region the map was built over.
    pub fn region(&self) -> (r: &DevMem)
        ensures
            r@ == self@.region,
    {
        &self.devmem
    }

    /// Releases the map and hands its region back.
    pub fn into_region(self) -> (r: DevMem)
        ensures
            r@ == self@.region,
    {
        self.devmem
    }

    /// The byte offset of the `index`-th register.
    pub fn offset_of(&self, index: usize) -> (r: usize)
        requires
            index < self@.entries.len(),
        ensures
            r == self@.entries[index as int].offset,
    {
        self.entries[index].offset
    }

    /// The address of the `index`-th register: the region's base address
    /// plus the declared offset.
    pub fn address_of(&self, index: usize) -> (r: usize)
        requires
            self.wf(),
            index < self@.entries.len(),
        ensures
            r == self@.region.address + self@.entries[index as int].offset,
    {
        proof {
            assert(self@.entries[index as int].fits(self@.region.bytes.len() as int));
        }
        self.devmem.address() + self.entries[index].offset
    }

    /// Reads the `index`-th register as a `T`, or reports absence when the
    /// entry's tag does not grant reads or its declared width is not `T`'s.
    pub fn read<T: RegValue>(&self, index: usize) -> (r: Option<T>)
        requires
            self.wf(),
            index < self@.entries.len(),
        ensures
            (r is Some) <==> (self@.entries[index as int].access.readable()
                && self@.entries[index as int].width == T::width_spec()),
            r matches Some(v) ==> v == T::from_bytes_spec(
                self@.region.window(
                    self@.entries[index as int].offset as int,
                    T::width_spec() as int,
                ),
            ),
    {
        let e: MapEntry = self.entries[index];
        let w: usize = T::width();
        proof {
            assert(self@.entries[index as int].fits(self@.region.bytes.len() as int));
        }
        if e.access.grants_read() && e.width == w {
            let v: Option<T> = self.devmem.get(e.offset);
            Some(v.unwrap())
        } else {
            None
        }
    }

    /// Writes the `index`-th register and reports whether the write
    /// happened: it does exactly when the entry's tag grants writes and its
    /// declared width is `T`'s.  On success no byte outside the entry's
    /// window changes; on failure nothing changes.
    pub fn write<T: RegValue>(&mut self, index: usize, value: T) -> (r: bool)
        requires
            old(self).wf(),
            index < old(self)@.entries.len(),
        ensures
            final(self).wf(),
            final(self)@.entries == old(self)@.entries,
            final(self)@.region.address == old(self)@.region.address,
            final(self)@.region.bytes.len() == old(self)@.region.bytes.len(),
            r <==> (old(self)@.entries[index as int].access.writable() && old(
                self,
            )@.entries[index as int].width == T::width_spec()),
            r ==> final(self)@.region.window(
                old(self)@.entries[index as int].offset as int,
                T::width_spec() as int,
            ) == T::to_bytes_spec(value),
            r ==> forall|i: int|
                0 <= i < old(self)@.region.bytes.len() && !(old(
                    self,
                )@.entries[index as int].offset <= i < old(self)@.entries[index as int].offset
                    + T::width_spec()) ==> final(self)@.region.bytes[i] == old(
                    self,
                )@.region.bytes[i],
            !r ==> final(self)@.region.bytes == old(self)@.region.bytes,
    {
        let e: MapEntry = self.entries[index];
        let w: usize = T::width();
        proof {
            assert(old(self)@.entries[index as int].fits(old(self)@.region.bytes.len() as int));
        }
        if e.access.grants_write() && e.width == w {
            self.devmem.set(e.offset, value)
        } else {
            false
        }
    }
}

} // verus!
