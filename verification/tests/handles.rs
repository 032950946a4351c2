use devmem::{DevMem, ReadOnlyReg, ReadOnlySliceReg, ReadWriteReg, ReadWriteSliceReg, Reg, SliceReg};
use std::sync::Arc;

#[test]
fn handle_reports_offset_and_address() {
    let m = DevMem::new(0xD0DE_0000, Some(16)).unwrap();
    let region = Arc::new(m);
    let reg: ReadOnlyReg<u32> = ReadOnlyReg::new(region.clone(), 4).unwrap();
    assert_eq!(reg.offset(), 4);
    assert_eq!(reg.address(), 0xD0DE_0004);
}

#[test]
fn read_only_handle_out_of_bounds_is_absent() {
    let region = Arc::new(DevMem::new(0, Some(16)).unwrap());
    assert!(Reg::<u32, false>::new(region.clone(), 12).is_some());
    assert!(Reg::<u32, false>::new(region.clone(), 13).is_none());
    assert!(Reg::<u64, false>::new(region.clone(), 9).is_none());
}

#[test]
fn write_capable_handle_out_of_bounds_is_absent() {
    let m = DevMem::new(0, Some(16)).unwrap();
    assert!(Reg::<u32, true>::new(m, 13).is_none());
    let m = DevMem::new(0, Some(16)).unwrap();
    assert!(Reg::<u32, true>::new(m, 12).is_some());
}

#[test]
fn write_then_read_observes_written_value() {
    let m = DevMem::new(0, Some(4)).unwrap();
    let mut reg: ReadWriteReg<u32> = ReadWriteReg::new(m, 0).unwrap();
    reg.write(0xDEAD_BEEF);
    assert_eq!(reg.read(), 0xDEAD_BEEF);
}

#[test]
fn writes_keep_offset_and_address_and_other_bytes() {
    let m = DevMem::new(0x4000, Some(12)).unwrap();
    let mut reg: ReadWriteReg<u32> = ReadWriteReg::new(m, 4).unwrap();
    reg.write(0x0403_0201);
    assert_eq!(reg.offset(), 4);
    assert_eq!(reg.address(), 0x4004);
    let back = reg.into_region();
    assert_eq!(back.data(), &[0, 0, 0, 0, 0x01, 0x02, 0x03, 0x04, 0, 0, 0, 0]);
    assert_eq!(back.address(), 0x4000);
}

#[test]
fn read_only_handle_interface_is_read_only() {
    // A `Reg<T, false>` has no write operation in its interface: only
    // `Reg<T, true>` carries one, so misuse is rejected when this file is
    // compiled, not at run time.
    let region = Arc::new(DevMem::new(0x100, Some(8)).unwrap());
    let reg: ReadOnlyReg<u32> = ReadOnlyReg::new(region.clone(), 0).unwrap();
    assert_eq!(reg.read(), 0);
    assert_eq!(reg.offset(), 0);
    assert_eq!(reg.address(), 0x100);
}

#[test]
fn surviving_handle_keeps_region_alive() {
    let creator = Arc::new(DevMem::new(0, Some(8)).unwrap());
    let reg: ReadOnlyReg<u32> = ReadOnlyReg::new(creator.clone(), 4).unwrap();
    drop(creator);
    assert_eq!(reg.read(), 0);
    assert_eq!(reg.offset(), 4);
}

#[test]
fn many_read_only_handles_share_one_region() {
    let mut m = DevMem::new(0, Some(8)).unwrap();
    assert!(m.set(0, 0x1111_2222u32));
    assert!(m.set(4, 0x3333_4444u32));
    let region = Arc::new(m);
    let lo: ReadOnlyReg<u32> = ReadOnlyReg::new(region.clone(), 0).unwrap();
    let hi: ReadOnlyReg<u32> = ReadOnlyReg::new(region.clone(), 4).unwrap();
    drop(region);
    assert_eq!(lo.read(), 0x1111_2222);
    assert_eq!(hi.read(), 0x3333_4444);
}

#[test]
fn slice_handle_bounds_are_checked_at_construction() {
    let region = Arc::new(DevMem::new(0, Some(16)).unwrap());
    assert!(SliceReg::<u32, false>::new(region.clone(), 0, 4).is_some());
    assert!(SliceReg::<u32, false>::new(region.clone(), 0, 5).is_none());
    assert!(SliceReg::<u32, false>::new(region.clone(), 4, 4).is_none());
}

#[test]
fn slice_handle_reads_and_writes_elements() {
    let m = DevMem::new(0x2000, Some(16)).unwrap();
    let mut sl: ReadWriteSliceReg<u32> = ReadWriteSliceReg::new(m, 4, 3).unwrap();
    assert_eq!(sl.len(), 3);
    assert_eq!(sl.offset(), 4);
    assert_eq!(sl.address(), 0x2004);
    sl.write(0, 10);
    sl.write(2, 30);
    assert_eq!(sl.read(0), 10);
    assert_eq!(sl.read(1), 0);
    assert_eq!(sl.read(2), 30);
    assert_eq!(sl.read_all(), vec![10, 0, 30]);
    let back = sl.into_region();
    assert_eq!(back.get::<u32>(4), Some(10));
}

#[test]
fn read_only_slice_handle_reads() {
    let creator = Arc::new(DevMem::new(0, Some(12)).unwrap());
    let sl: ReadOnlySliceReg<u16> = ReadOnlySliceReg::new(creator.clone(), 2, 4).unwrap();
    drop(creator);
    assert_eq!(sl.read_all(), vec![0, 0, 0, 0]);
}
