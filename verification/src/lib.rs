//! Typed, bounds-checked access to a mapped memory region carved into
//! capability-tagged register handles.
//!
//! A [`DevMem`] owns a contiguous byte range at a base address and offers
//! typed reads and writes at arbitrary byte offsets, each checked against
//! the region's length: an out-of-range access reports absence, never
//! panics.  A [`Reg`] or [`SliceReg`] is a narrower view pinned to one
//! offset of a mapped region, typed to a fixed value type and tagged at
//! compile time with whether it may write: a read-only handle shares its
//! region, a write-capable handle owns it outright and writes
//! unconditionally.  A [`RegMap`] aggregates several declared registers
//! over one region and is built atomically: it exists only if every
//! declared offset is valid for that region.

mod devmem;
mod reg;
mod regmap;
mod value;

pub use devmem::{
    hex_digit, hex_digits, lemma_write_then_read, span_fits, span_text, DevMem, DevMemView, Error,
};
pub use reg::{
    ReadOnlyReg, ReadOnlySliceReg, ReadWriteReg, ReadWriteSliceReg, Reg, RegView, SliceReg,
    SliceRegView,
};
pub use regmap::{Access, MapEntry, RegMap, RegMapView};
pub use value::RegValue;
