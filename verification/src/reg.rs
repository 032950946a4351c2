//! Register handles: fixed-offset, fixed-type views into a mapped region,
//! tagged at compile time with whether they may write.
//!
//! A handle's byte window is validated once, at construction, and assumed
//! valid for the handle's whole lifetime; the region never shrinks.  The
//! write operation exists only on handles whose capability parameter is
//! `true`: a read-only handle exposes no way to mutate the region, and that
//! absence is checked by the compiler, not at run time.
//!
//! Ownership follows the capability.  A read-only handle holds a shared
//! reference to its region, so the region stays alive as long as any such
//! handle does, however many there are.  A write-capable handle takes the
//! region over whole: it is the region's sole owner, which is what lets its
//! writes be unconditional and exactly specified.  To carve several
//! writable registers out of one region, or to mix writable and read-only
//! registers over one region, build a [`RegMap`](crate::RegMap), which owns
//! the region the same way and grants access entry by entry.

use crate::devmem::{DevMem, DevMemView};
use crate::value::RegValue;
use core::marker::PhantomData;
use std::sync::Arc;
use vstd::prelude::*;

verus! {

use vstd::arithmetic::mul::{
    lemma_mul_basics, lemma_mul_inequality, lemma_mul_is_distributive_add_other_way,
    lemma_mul_nonnegative,
};

/// A read-only register handle.
pub type ReadOnlyReg<T> = Reg<T, false>;

/// A read-only slice register handle.
pub type ReadOnlySliceReg<T> = SliceReg<T, false>;

/// A read-write register handle.
pub type ReadWriteReg<T> = Reg<T, true>;

/// A read-write slice register handle.
pub type ReadWriteSliceReg<T> = SliceReg<T, true>;

/// How a handle holds its region: shared with other read-only holders, or
/// owned outright by this handle.
enum RegionHold {
    Shared(Arc<DevMem>),
    Owned(DevMem),
}

impl RegionHold {
    /// The model of the held region, however it is held.
    spec fn region(&self) -> DevMemView {
        match self {
            RegionHold::Shared(a) => a@,
            RegionHold::Owned(m) => m@,
        }
    }

    /// Whether the region is owned outright.
    spec fn is_owned(&self) -> bool {
        self is Owned
    }

    /// The held region, for reading.
    fn region_ref(&self) -> (r: &DevMem)
        ensures
            r@ == self.region(),
    {
        match self {
            RegionHold::Shared(a) => &**a,
            RegionHold::Owned(m) => m,
        }
    }
}

/// The model of a scalar register handle: the region it holds and its byte
/// offset inside that region.
pub struct RegView {
    /// The held region.
    pub region: DevMemView,
    /// Byte offset of the handle's window inside the region.
    pub offset: int,
}

/// A scalar register: a typed view over `T::width()` bytes at a fixed
/// offset of a mapped region.  `WRITE` grants the write operation.
pub struct Reg<T, const WRITE: bool> {
    hold: RegionHold,
    offset: usize,
    value: PhantomData<T>,
}

impl<T, const WRITE: bool> View for Reg<T, WRITE> {
    type V = RegView;

    closed spec fn view(&self) -> RegView {
        RegView { region: self.hold.region(), offset: self.offset as int }
    }
}

impl<T: RegValue, const WRITE: bool> Reg<T, WRITE> {
    /// Whether the handle owns its region outright, as every write-capable
    /// handle does.
    pub closed spec fn owns_region(&self) -> bool {
        self.hold.is_owned()
    }

    /// Handle invariant: the region is well formed, the handle's byte
    /// window lies within it, and a write-capable handle owns the region.
    pub open spec fn wf(&self) -> bool {
        &&& self@.region.wf()
        &&& self@.offset + T::width_spec() <= self@.region.bytes.len()
        &&& (WRITE ==> self.owns_region())
    }

    /// The value the handle's byte window currently denotes.
    pub open spec fn value_spec(&self) -> T {
        T::from_bytes_spec(self@.region.window(self@.offset, T::width_spec() as int))
    }

    /// The handle's byte offset inside its region.
    pub fn offset(&self) -> (r: usize)
        ensures
            r == self@.offset,
    {
        self.offset
    }

    /// The handle's address: the region's base address plus the offset.
    pub fn address(&self) -> (r: usize)
        requires
            self.wf(),
        ensures
            r == self@.region.address + self@.offset,
    {
        proof {
            T::lemma_width_positive();
        }
        self.hold.region_ref().address() + self.offset
    }

    /// Reads the register's current value.
    pub fn read(&self) -> (r: T)
        requires
            self.wf(),
        ensures
            r == self.value_spec(),
    {
        let v: Option<T> = self.hold.region_ref().get(self.offset);
        v.unwrap()
    }
}

impl<T: RegValue> Reg<T, false> {
    /// Creates a read-only register over `T::width()` bytes at `offset` of
    /// the shared region, or reports absence when that window runs past the
    /// end of the region.  Bounds are checked here, once, not on each
    /// access.
    pub fn new(devmem: Arc<DevMem>, offset: usize) -> (r: Option<Self>)
        requires
            devmem@.wf(),
        ensures
            (r is Some) <==> offset + T::width_spec() <= devmem@.bytes.len(),
            r matches Some(reg) ==> {
                &&& reg@.region == devmem@
                &&& reg@.offset == offset
                &&& reg.wf()
            },
    {
        let w: usize = T::width();
        let n: usize = devmem.len();
        if w <= n && offset <= n - w {
            Some(Reg { hold: RegionHold::Shared(devmem), offset, value: PhantomData })
        } else {
            None
        }
    }
}

impl<T: RegValue> Reg<T, true> {
    /// Creates a write-capable register over `T::width()` bytes at `offset`
    /// of the region, or reports absence when that window runs past the end
    /// of the region.  The handle takes the region over whole, which is
    /// what makes its writes unconditional.  Bounds are checked here, once,
    /// not on each access.
    pub fn new(devmem: DevMem, offset: usize) -> (r: Option<Self>)
        requires
            devmem@.wf(),
        ensures
            (r is Some) <==> offset + T::width_spec() <= devmem@.bytes.len(),
            r matches Some(reg) ==> {
                &&& reg@.region == devmem@
                &&& reg@.offset == offset
                &&& reg.wf()
            },
    {
        let w: usize = T::width();
        let n: usize = devmem.len();
        if w <= n && offset <= n - w {
            Some(Reg { hold: RegionHold::Owned(devmem), offset, value: PhantomData })
        } else {
            None
        }
    }

    /// Writes `value` into the register's byte window.  The write always
    /// happens, and no byte outside the window changes.
    pub fn write(&mut self, value: T)
        requires
            old(self).wf(),
        ensures
            final(self).wf(),
            final(self)@.offset == old(self)@.offset,
            final(self)@.region.address == old(self)@.region.address,
            final(self)@.region.bytes.len() == old(self)@.region.bytes.len(),
            final(self)@.region.window(old(self)@.offset, T::width_spec() as int)
                == T::to_bytes_spec(value),
            final(self).value_spec() == value,
            forall|i: int|
                0 <= i < old(self)@.region.bytes.len() && !(old(self)@.offset <= i < old(
                    self,
                )@.offset + T::width_spec()) ==> final(self)@.region.bytes[i] == old(
                    self,
                )@.region.bytes[i],
    {
        match &mut self.hold {
            RegionHold::Owned(m) => {
                let ok: bool = m.set(self.offset, value);
                proof {
                    T::lemma_load_store(value);
                }
            },
            RegionHold::Shared(_) => {
                proof {
                    assert(false);
                }
            },
        }
    }

    /// Releases the handle and hands its region back.
    pub fn into_region(self) -> (r: DevMem)
        requires
            self.wf(),
        ensures
            r@ == self@.region,
    {
        match self.hold {
            RegionHold::Owned(m) => m,
            RegionHold::Shared(_) => {
                proof {
                    assert(false);
                }
                vstd::pervasive::unreached()
            },
        }
    }
}

/// The model of a slice register handle: the region it holds, its byte
/// offset and its element count.
pub struct SliceRegView {
    /// The held region.
    pub region: DevMemView,
    /// Byte offset of the handle's window inside the region.
    pub offset: int,
    /// Number of elements the handle covers.
    pub count: int,
}

/// A slice register: a typed view over `count` consecutive elements of
/// `T::width()` bytes each at a fixed offset of a mapped region.  `WRITE`
/// grants the write operation.
pub struct SliceReg<T, const WRITE: bool> {
    hold: RegionHold,
    offset: usize,
    count: usize,
    data: PhantomData<T>,
}

impl<T, const WRITE: bool> View for SliceReg<T, WRITE> {
    type V = SliceRegView;

    closed spec fn view(&self) -> SliceRegView {
        SliceRegView {
            region: self.hold.region(),
            offset: self.offset as int,
            count: self.count as int,
        }
    }
}

impl<T: RegValue, const WRITE: bool> SliceReg<T, WRITE> {
    /// Whether the handle owns its region outright, as every write-capable
    /// handle does.
    pub closed spec fn owns_region(&self) -> bool {
        self.hold.is_owned()
    }

    /// Handle invariant: the region is well formed, the handle's byte
    /// range lies within it, and a write-capable handle owns the region.
    pub open spec fn wf(&self) -> bool {
        &&& self@.region.wf()
        &&& self@.offset + self@.count * T::width_spec() <= self@.region.bytes.len()
        &&& (WRITE ==> self.owns_region())
    }

    /// The value the `k`-th element's byte window currently denotes.
    pub open spec fn element_spec(&self, k: int) -> T {
        T::from_bytes_spec(
            self@.region.window(self@.offset + k * T::width_spec(), T::width_spec() as int),
        )
    }

    /// The handle's byte offset inside its region.
    pub fn offset(&self) -> (r: usize)
        ensures
            r == self@.offset,
    {
        self.offset
    }

    /// The handle's address: the region's base address plus the offset.
    pub fn address(&self) -> (r: usize)
        requires
            self.wf(),
        ensures
            r == self@.region.address + self@.offset,
    {
        proof {
            lemma_mul_nonnegative(self@.count, T::width_spec() as int);
        }
        self.hold.region_ref().address() + self.offset
    }

    /// The number of elements the handle covers.
    pub fn len(&self) -> (r: usize)
        ensures
            r == self@.count,
    {
        self.count
    }

    /// Reads the `index`-th element.
    pub fn read(&self, index: usize) -> (r: T)
        requires
            self.wf(),
            index < self@.count,
        ensures
            r == self.element_spec(index as int),
    {
        let w: usize = T::width();
        proof {
            let wi: int = T::width_spec() as int;
            lemma_mul_basics(wi);
            lemma_mul_nonnegative(index as int, wi);
            lemma_mul_inequality(index as int + 1, self@.count, wi);
            lemma_mul_is_distributive_add_other_way(wi, index as int, 1);
        }
        let v: Option<T> = self.hold.region_ref().get(self.offset + index * w);
        v.unwrap()
    }

    /// Reads all elements, in offset order.
    pub fn read_all(&self) -> (r: Vec<T>)
        requires
            self.wf(),
        ensures
            r@.len() == self@.count,
            forall|k: int| 0 <= k < self@.count ==> r@[k] == self.element_spec(k),
    {
        let v: Option<Vec<T>> = self.hold.region_ref().get_slice(self.offset, self.count);
        v.unwrap()
    }
}

impl<T: RegValue> SliceReg<T, false> {
    /// Creates a read-only slice register over `count` elements starting at
    /// byte `offset` of the shared region, or reports absence when that
    /// range runs past the end of the region.  Bounds are checked here,
    /// once, not on each access.
    pub fn new(devmem: Arc<DevMem>, offset: usize, count: usize) -> (r: Option<Self>)
        requires
            devmem@.wf(),
        ensures
            (r is Some) <==> offset + count * T::width_spec() <= devmem@.bytes.len(),
            r matches Some(reg) ==> {
                &&& reg@.region == devmem@
                &&& reg@.offset == offset
                &&& reg@.count == count
                &&& reg.wf()
            },
    {
        let w: usize = T::width();
        let n: usize = devmem.len();
        proof {
            vstd::arithmetic::mul::lemma_mul_is_commutative(w as int, count as int);
        }
        if crate::devmem::span_fits(n, offset, w, count) {
            Some(SliceReg { hold: RegionHold::Shared(devmem), offset, count, data: PhantomData })
        } else {
            None
        }
    }
}

impl<T: RegValue> SliceReg<T, true> {
    /// Creates a write-capable slice register over `count` elements
    /// starting at byte `offset` of the region, or reports absence when
    /// that range runs past the end of the region.  The handle takes the
    /// region over whole, which is what makes its writes unconditional.
    /// Bounds are checked here, once, not on each access.
    pub fn new(devmem: DevMem, offset: usize, count: usize) -> (r: Option<Self>)
        requires
            devmem@.wf(),
        ensures
            (r is Some) <==> offset + count * T::width_spec() <= devmem@.bytes.len(),
            r matches Some(reg) ==> {
                &&& reg@.region == devmem@
                &&& reg@.offset == offset
                &&& reg@.count == count
                &&& reg.wf()
            },
    {
        let w: usize = T::width();
        let n: usize = devmem.len();
        proof {
            vstd::arithmetic::mul::lemma_mul_is_commutative(w as int, count as int);
        }
        if crate::devmem::span_fits(n, offset, w, count) {
            Some(SliceReg { hold: RegionHold::Owned(devmem), offset, count, data: PhantomData })
        } else {
            None
        }
    }

    /// Writes `value` into the `index`-th element's byte window.  The write
    /// always happens; no byte outside that element's window changes, and
    /// every other element keeps its value.
    pub fn write(&mut self, index: usize, value: T)
        requires
            old(self).wf(),
            index < old(self)@.count,
        ensures
            final(self).wf(),
            final(self)@.offset == old(self)@.offset,
            final(self)@.count == old(self)@.count,
            final(self)@.region.address == old(self)@.region.address,
            final(self)@.region.bytes.len() == old(self)@.region.bytes.len(),
            final(self).element_spec(index as int) == value,
            forall|i: int|
                0 <= i < old(self)@.region.bytes.len() && !(old(self)@.offset + index
                    * T::width_spec() <= i < old(self)@.offset + index * T::width_spec()
                    + T::width_spec()) ==> final(self)@.region.bytes[i] == old(
                    self,
                )@.region.bytes[i],
            forall|k: int|
                0 <= k < old(self)@.count && k != index ==> final(self).element_spec(k) == old(
                    self,
                ).element_spec(k),
    {
        let w: usize = T::width();
        let offset: usize = self.offset;
        proof {
            let wi: int = T::width_spec() as int;
            lemma_mul_basics(wi);
            lemma_mul_nonnegative(index as int, wi);
            lemma_mul_inequality(index as int + 1, old(self)@.count, wi);
            lemma_mul_is_distributive_add_other_way(wi, index as int, 1);
        }
        match &mut self.hold {
            RegionHold::Owned(m) => {
                let ghost prev: Seq<u8> = m@.bytes;
                let ok: bool = m.set(offset + index * w, value);
                proof {
                    T::lemma_load_store(value);
                    let wi: int = T::width_spec() as int;
                    assert forall|k: int|
                        0 <= k < old(self)@.count && k != index implies m@.bytes.subrange(
                        offset + #[trigger] (k * wi),
                        offset + k * wi + wi,
                    ) == prev.subrange(offset + k * wi, offset + k * wi + wi) by {
                        lemma_mul_nonnegative(k, wi);
                        lemma_mul_inequality(k + 1, old(self)@.count, wi);
                        lemma_mul_is_distributive_add_other_way(wi, k, 1);
                        if k < index {
                            lemma_mul_inequality(k + 1, index as int, wi);
                        } else {
                            lemma_mul_inequality(index as int + 1, k, wi);
                        }
                        assert(m@.bytes.subrange(offset + k * wi, offset + k * wi + wi)
                            =~= prev.subrange(offset + k * wi, offset + k * wi + wi));
                    }
                }
            },
            RegionHold::Shared(_) => {
                proof {
                    assert(false);
                }
            },
        }
    }

    /// Releases the handle and hands its region back.
    pub fn into_region(self) -> (r: DevMem)
        requires
            self.wf(),
        ensures
            r@ == self@.region,
    {
        match self.hold {
            RegionHold::Owned(m) => m,
            RegionHold::Shared(_) => {
                proof {
                    assert(false);
                }
                vstd::pervasive::unreached()
            },
        }
    }
}

} // verus!
