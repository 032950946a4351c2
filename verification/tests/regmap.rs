use devmem::{Access, DevMem, MapEntry, RegMap};

fn three_registers() -> Vec<MapEntry> {
    vec![
        MapEntry { offset: 0x00, access: Access::ReadWrite, width: 4 },
        MapEntry { offset: 0x04, access: Access::ReadOnly, width: 4 },
        MapEntry { offset: 0x08, access: Access::WriteOnly, width: 4 },
    ]
}

#[test]
fn map_over_large_enough_region_is_built_whole() {
    let m = DevMem::new(0xD0DE_0000, Some(12)).unwrap();
    let mut map = RegMap::new(m, three_registers()).unwrap();
    assert_eq!(map.entry_count(), 3);
    assert_eq!(map.offset_of(2), 0x08);
    assert_eq!(map.address_of(1), 0xD0DE_0004);

    // Entry 0 is read-write: both accessors work.
    assert!(map.write(0, 0xCAFE_F00Du32));
    assert_eq!(map.read::<u32>(0), Some(0xCAFE_F00D));

    // Entry 1 is read-only: reads work, writes are refused.
    assert_eq!(map.read::<u32>(1), Some(0));
    assert!(!map.write(1, 1u32));
    assert_eq!(map.read::<u32>(1), Some(0));

    // Entry 2 is write-only: writes work, reads are refused.
    assert!(map.write(2, 0x5555_AAAAu32));
    assert_eq!(map.read::<u32>(2), None);
    assert_eq!(map.region().get::<u32>(0x08), Some(0x5555_AAAA));
}

#[test]
fn map_over_too_short_region_fails_as_a_whole() {
    let m = DevMem::new(0xD0DE_0000, Some(8)).unwrap();
    assert!(RegMap::new(m, three_registers()).is_none());
}

#[test]
fn map_access_with_wrong_width_is_refused() {
    let m = DevMem::new(0, Some(12)).unwrap();
    let mut map = RegMap::new(m, three_registers()).unwrap();
    assert_eq!(map.read::<u16>(0), None);
    assert!(!map.write(0, 1u8));
    assert_eq!(map.read::<u32>(0), Some(0));
}

#[test]
fn empty_map_is_built() {
    let m = DevMem::new(0, Some(4)).unwrap();
    let map = RegMap::new(m, Vec::new()).unwrap();
    assert_eq!(map.entry_count(), 0);
    assert_eq!(map.into_region().len(), 4);
}

#[test]
fn map_entry_views_are_kept() {
    let m = DevMem::new(0, Some(12)).unwrap();
    let map = RegMap::new(m, three_registers()).unwrap();
    let e = map.entry(1);
    assert_eq!(e.offset, 0x04);
    assert_eq!(e.access, Access::ReadOnly);
    assert_eq!(e.width, 4);
    assert!(e.access.grants_read());
    assert!(!e.access.grants_write());
    assert!(map.entry(2).access.grants_write());
    assert!(!map.entry(2).access.grants_read());
}

#[test]
fn zero_width_entry_at_end_fits() {
    let m = DevMem::new(0, Some(4)).unwrap();
    let entries = vec![MapEntry { offset: 4, access: Access::ReadOnly, width: 0 }];
    let map = RegMap::new(m, entries).unwrap();
    assert_eq!(map.offset_of(0), 4);
    let m2 = DevMem::new(0, Some(4)).unwrap();
    let entries2 = vec![MapEntry { offset: 5, access: Access::ReadOnly, width: 0 }];
    assert!(RegMap::new(m2, entries2).is_none());
}
