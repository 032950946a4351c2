//! The mapped region: an owned, bounds-known byte range at a base address.
//!
//! A [`DevMem`] owns its backing buffer and offers typed reads and writes at
//! arbitrary byte offsets.  Every typed access is checked against the
//! region's length: an out-of-range request never touches memory and never
//! panics, it reports absence.

use crate::value::RegValue;
use vstd::prelude::*;

verus! {

use vstd::arithmetic::mul::{
    lemma_mul_basics, lemma_mul_inequality, lemma_mul_is_commutative,
    lemma_mul_is_distributive_add_other_way, lemma_mul_nonnegative,
};

/// Why constructing a mapped region failed.
#[derive(Debug, Clone, Copy, PartialEq, Eq, Structural)]
pub enum Error {
    /// The backing device or file could not be opened.
    CentOpenFile,
    /// The mapping itself failed: a zero length, or a range whose end does
    /// not fit in the address space.
    CentMmapFile,
}

/// The mathematical model of a mapped region: its base address and the bytes
/// it holds.
pub struct DevMemView {
    /// Base address of the region.
    pub address: int,
    /// The bytes the region holds.
    pub bytes: Seq<u8>,
}

impl DevMemView {
    /// Region invariant: at least one byte, and a byte range that ends
    /// within the address space.
    pub open spec fn wf(self) -> bool {
        &&& 0 <= self.address
        &&& 0 < self.bytes.len()
        &&& self.address + self.bytes.len() <= usize::MAX
    }

    /// The bytes that an access of `width` bytes at `offset` covers.
    pub open spec fn window(self, offset: int, width: int) -> Seq<u8> {
        self.bytes.subrange(offset, offset + width)
    }
}

/// A mapped region of device memory: a contiguous byte range at a base
/// address, owned by this value and shared read-only through handles.
#[derive(Debug)]
pub struct DevMem {
    mmap: Vec<u8>,
    address: usize,
}

impl View for DevMem {
    type V = DevMemView;

    closed spec fn view(&self) -> DevMemView {
        DevMemView { address: self.address as int, bytes: self.mmap@ }
    }
}

/// Whether an access of `count` elements of `width` bytes each, starting at
/// byte `offset`, stays within a region of `len` bytes.
pub fn span_fits(len: usize, offset: usize, width: usize, count: usize) -> (r: bool)
    ensures
        r <==> offset + width * count <= len,
{
    match width.checked_mul(count) {
        Some(span) => match offset.checked_add(span) {
            Some(end) => end <= len,
            None => false,
        },
        None => {
            proof {
                assert(offset + width * count > usize::MAX >= len);
            }
            false
        },
    }
}

/// A write is observed immediately: when a window of a region holds the
/// bytes of a written value, as [`DevMem::set`] leaves it, then reading
/// that window back, as [`DevMem::get`] does, yields the written value.
pub proof fn lemma_write_then_read<T: RegValue>(region: DevMemView, offset: int, value: T)
    requires
        region.window(offset, T::width_spec() as int) == T::to_bytes_spec(value),
    ensures
        T::from_bytes_spec(region.window(offset, T::width_spec() as int)) == value,
{
    T::lemma_load_store(value);
}

/// The character of one hexadecimal digit, upper case.
pub open spec fn hex_digit(d: nat) -> char {
    if d == 0 {
        '0'
    } else if d == 1 {
        '1'
    } else if d == 2 {
        '2'
    } else if d == 3 {
        '3'
    } else if d == 4 {
        '4'
    } else if d == 5 {
        '5'
    } else if d == 6 {
        '6'
    } else if d == 7 {
        '7'
    } else if d == 8 {
        '8'
    } else if d == 9 {
        '9'
    } else if d == 10 {
        'A'
    } else if d == 11 {
        'B'
    } else if d == 12 {
        'C'
    } else if d == 13 {
        'D'
    } else if d == 14 {
        'E'
    } else {
        'F'
    }
}

/// The hexadecimal digits of `n`, most significant first, without leading
/// zeros.
pub open spec fn hex_digits(n: nat) -> Seq<char>
    decreases n,
{
    if n < 16 {
        seq![hex_digit(n)]
    } else {
        hex_digits(n / 16).push(hex_digit(n % 16))
    }
}

/// The text a region describes itself with: its address span, each bound
/// written as `0x` and upper-case hexadecimal digits.
pub open spec fn span_text(address: nat, end: nat) -> Seq<char> {
    "DevMem(0x"@ + hex_digits(address) + "..0x"@ + hex_digits(end) + ")"@
}

/// Relies on the std `format!` macro: `{:#X}` renders an integer as `0x`
/// followed by its upper-case hexadecimal digits without leading zeros,
/// which is what `span_text` states digit by digit.
#[verifier::external_body]
fn format_span(address: usize, end: usize) -> (r: String)
    ensures
        r@ == span_text(address as nat, end as nat),
{
    format!("DevMem({:#X}..{:#X})", address, end)
}

/// Relies on page_size::get: the system's memory page size.  Every
/// platform arm of it returns a positive size.
#[verifier::external_body]
fn os_page_size() -> (r: usize)
    ensures
        0 < r,
{
    page_size::get()
}

impl DevMem {
    /// Creates a mapped region of `size` bytes (the platform page size when
    /// `size` is absent) at base `address`, zero-initialized.
    ///
    /// Fails with [`Error::CentMmapFile`] when the requested length is zero
    /// or the byte range would run past the end of the address space.
    pub fn new(address: usize, size: Option<usize>) -> (r: Result<DevMem, Error>)
        ensures
            size matches Some(s) ==> ((r is Ok) <==> (0 < s && address + s <= usize::MAX)),
            r matches Ok(m) ==> {
                &&& m@.wf()
                &&& m@.address == address
                &&& m@.bytes =~= Seq::new(m@.bytes.len(), |i: int| 0u8)
            },
            size matches Some(s) ==> (r matches Ok(m) ==> m@.bytes.len() == s),
            size is None && address == 0 ==> r is Ok,
            r matches Err(e) ==> e == Error::CentMmapFile,
    {
        let len: usize = match size {
            Some(s) => s,
            None => os_page_size(),
        };
        if len == 0 {
            return Err(Error::CentMmapFile);
        }
        if address > usize::MAX - len {
            return Err(Error::CentMmapFile);
        }
        let mut mmap: Vec<u8> = Vec::new();
        while mmap.len() < len
            invariant
                mmap@.len() <= len,
                forall|i: int| 0 <= i < mmap@.len() ==> mmap@[i] == 0u8,
            decreases len - mmap@.len(),
        {
            mmap.push(0u8);
        }
        Ok(DevMem { mmap, address })
    }

    /// The base address of the region.
    pub fn address(&self) -> (r: usize)
        ensures
            r == self@.address,
    {
        self.address
    }

    /// The byte length of the region.
    pub fn len(&self) -> (r: usize)
        ensures
            r == self@.bytes.len(),
    {
        self.mmap.len()
    }

    /// The whole region as bytes.
    pub fn data(&self) -> (r: &[u8])
        ensures
            r@ == self@.bytes,
    {
        self.mmap.as_slice()
    }

    /// The region's address span as text: `DevMem(` and the base and end
    /// addresses in hexadecimal.
    pub fn describe(&self) -> (r: String)
        requires
            self@.wf(),
        ensures
            r@ == span_text(self@.address as nat, (self@.address + self@.bytes.len()) as nat),
    {
        format_span(self.address, self.address + self.mmap.len())
    }

    /// The whole region as mutable bytes.
    pub fn data_mut(&mut self) -> (r: &mut [u8])
        ensures
            r@ == old(self)@.bytes,
            final(self)@.bytes == final(r)@,
            final(self)@.address == old(self)@.address,
    {
        self.mmap.as_mut_slice()
    }

    /// Reads the value of type `T` stored at `offset`, or reports absence
    /// when the window of `T::width()` bytes at `offset` runs past the end
    /// of the region.
    pub fn get<T: RegValue>(&self, offset: usize) -> (r: Option<T>)
        ensures
            (r is Some) <==> offset + T::width_spec() <= self@.bytes.len(),
            r matches Some(v) ==> v == T::from_bytes_spec(
                self@.window(offset as int, T::width_spec() as int),
            ),
    {
        let w: usize = T::width();
        let n: usize = self.mmap.len();
        if w <= n && offset <= n - w {
            Some(T::load_at(&self.mmap, offset))
        } else {
            None
        }
    }

    /// Writes `value` at `offset` and reports whether the write happened:
    /// it does exactly when the window of `T::width()` bytes at `offset`
    /// lies within the region.  No byte outside the window changes.
    pub fn set<T: RegValue>(&mut self, offset: usize, value: T) -> (r: bool)
        ensures
            r <==> offset + T::width_spec() <= old(self)@.bytes.len(),
            final(self)@.address == old(self)@.address,
            final(self)@.bytes.len() == old(self)@.bytes.len(),
            r ==> final(self)@.window(offset as int, T::width_spec() as int)
                == T::to_bytes_spec(value),
            forall|i: int|
                0 <= i < old(self)@.bytes.len() && !(offset <= i < offset + T::width_spec())
                    ==> final(self)@.bytes[i] == old(self)@.bytes[i],
            !r ==> final(self)@.bytes == old(self)@.bytes,
    {
        let w: usize = T::width();
        let n: usize = self.mmap.len();
        if w <= n && offset <= n - w {
            T::store_at(&mut self.mmap, offset, value);
            true
        } else {
            false
        }
    }

    /// Reads `count` consecutive values of type `T` starting at byte
    /// `offset`, or reports absence when the covered byte range runs past
    /// the end of the region.
    pub fn get_slice<T: RegValue>(&self, offset: usize, count: usize) -> (r: Option<Vec<T>>)
        ensures
            (r is Some) <==> offset + count * T::width_spec() <= self@.bytes.len(),
            r matches Some(v) ==> {
                &&& v@.len() == count
                &&& forall|k: int|
                    0 <= k < count ==> v@[k] == T::from_bytes_spec(
                        self@.window(offset + k * T::width_spec(), T::width_spec() as int),
                    )
            },
    {
        let w: usize = T::width();
        let n: usize = self.mmap.len();
        proof {
            lemma_mul_is_commutative(w as int, count as int);
        }
        if !span_fits(n, offset, w, count) {
            return None;
        }
        let mut out: Vec<T> = Vec::new();
        let mut j: usize = 0;
        let ghost wi: int = T::width_spec() as int;
        while j < count
            invariant
                w == T::width_spec(),
                wi == T::width_spec() as int,
                j <= count,
                offset + count * wi <= self@.bytes.len(),
                self@.bytes.len() <= usize::MAX,
                out@.len() == j,
                forall|k: int|
                    0 <= k < j ==> out@[k] == T::from_bytes_spec(
                        self@.window(offset + k * wi, wi),
                    ),
            decreases count - j,
        {
            proof {
                lemma_mul_basics(wi);
                lemma_mul_nonnegative(j as int, wi);
                lemma_mul_inequality(j as int, count as int, wi);
                lemma_mul_inequality(j as int + 1, count as int, wi);
                lemma_mul_is_distributive_add_other_way(wi, j as int, 1);
            }
            let v: T = T::load_at(&self.mmap, offset + j * w);
            out.push(v);
            j += 1;
        }
        Some(out)
    }

    /// Writes the values in `values` consecutively starting at byte `offset`
    /// and reports whether the write happened: it does exactly when the
    /// covered byte range lies within the region.  No byte outside that
    /// range changes.
    pub fn set_slice<T: RegValue>(&mut self, offset: usize, values: &Vec<T>) -> (r: bool)
        ensures
            r <==> offset + values@.len() * T::width_spec() <= old(self)@.bytes.len(),
            final(self)@.address == old(self)@.address,
            final(self)@.bytes.len() == old(self)@.bytes.len(),
            r ==> forall|k: int|
                0 <= k < values@.len() ==> final(self)@.window(
                    offset + k * T::width_spec(),
                    T::width_spec() as int,
                ) == T::to_bytes_spec(values@[k]),
            forall|i: int|
                0 <= i < old(self)@.bytes.len() && !(offset <= i < offset + values@.len()
                    * T::width_spec()) ==> final(self)@.bytes[i] == old(self)@.bytes[i],
            !r ==> final(self)@.bytes == old(self)@.bytes,
    {
        let w: usize = T::width();
        let count: usize = values.len();
        let n: usize = self.mmap.len();
        proof {
            lemma_mul_is_commutative(w as int, count as int);
        }
        if !span_fits(n, offset, w, count) {
            return false;
        }
        let mut j: usize = 0;
        let ghost wi: int = T::width_spec() as int;
        while j < count
            invariant
                w == T::width_spec(),
                wi == T::width_spec() as int,
                j <= count,
                count == values@.len(),
                offset + count * wi <= old(self)@.bytes.len(),
                old(self)@.bytes.len() <= usize::MAX,
                self@.address == old(self)@.address,
                self@.bytes.len() == old(self)@.bytes.len(),
                forall|k: int|
                    0 <= k < j ==> self@.window(offset + k * wi, wi) == T::to_bytes_spec(
                        values@[k],
                    ),
                forall|i: int|
                    0 <= i < old(self)@.bytes.len() && !(offset <= i < offset + j * wi)
                        ==> self@.bytes[i] == old(self)@.bytes[i],
            decreases count - j,
        {
            proof {
                lemma_mul_basics(wi);
                lemma_mul_nonnegative(j as int, wi);
                lemma_mul_inequality(j as int, count as int, wi);
                lemma_mul_inequality(j as int + 1, count as int, wi);
                lemma_mul_is_distributive_add_other_way(wi, j as int, 1);
            }
            let ghost prev: Seq<u8> = self@.bytes;
            let v: T = values[j];
            T::store_at(&mut self.mmap, offset + j * w, v);
            proof {
                assert forall|k: int| 0 <= k < j + 1 implies self@.window(offset + k * wi, wi)
                    == T::to_bytes_spec(values@[k]) by {
                    lemma_mul_nonnegative(k, wi);
                    if k < j {
                        lemma_mul_inequality(k + 1, j as int, wi);
                        lemma_mul_is_distributive_add_other_way(wi, k, 1);
                        assert(self@.bytes.subrange(offset + k * wi, offset + k * wi + wi)
                            =~= prev.subrange(offset + k * wi, offset + k * wi + wi));
                    }
                }
            }
            j += 1;
        }
        true
    }
}

} // verus!
