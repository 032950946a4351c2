use devmem::{DevMem, Error};

#[test]
fn construct_with_explicit_size() {
    let m = DevMem::new(0xD0DE_0000, Some(64)).unwrap();
    assert_eq!(m.address(), 0xD0DE_0000);
    assert_eq!(m.len(), 64);
    assert!(m.data().iter().all(|&b| b == 0));
}

#[test]
fn construct_with_default_size_uses_page_size() {
    let m = DevMem::new(0, None).unwrap();
    assert_eq!(m.len(), page_size::get());
    assert!(m.len() > 0);
}

#[test]
fn construct_with_zero_size_fails() {
    let r = DevMem::new(0x1000, Some(0));
    assert_eq!(r.unwrap_err(), Error::CentMmapFile);
}

#[test]
fn construct_past_end_of_address_space_fails() {
    let r = DevMem::new(usize::MAX - 3, Some(8));
    assert_eq!(r.unwrap_err(), Error::CentMmapFile);
}

#[test]
fn typed_access_in_bounds_is_present() {
    let mut m = DevMem::new(0, Some(16)).unwrap();
    assert!(m.set(12, 0x1122_3344u32));
    assert_eq!(m.get::<u32>(12), Some(0x1122_3344));
    assert_eq!(m.get::<u8>(15), Some(0x11));
}

#[test]
fn typed_access_out_of_bounds_is_absent() {
    let mut m = DevMem::new(0, Some(16)).unwrap();
    assert_eq!(m.get::<u32>(13), None);
    assert_eq!(m.get::<u32>(16), None);
    assert_eq!(m.get::<u8>(16), None);
    assert_eq!(m.get::<u64>(9), None);
    assert!(!m.set(13, 0u32));
    assert!(m.data().iter().all(|&b| b == 0));
}

#[test]
fn typed_write_is_little_endian_and_window_exact() {
    let mut m = DevMem::new(0, Some(8)).unwrap();
    assert!(m.set(2, 0x0403_0201u32));
    assert_eq!(m.data(), &[0, 0, 0x01, 0x02, 0x03, 0x04, 0, 0]);
    assert_eq!(m.get::<u16>(3), Some(0x0302));
}

#[test]
fn widths_round_trip() {
    let mut m = DevMem::new(0, Some(32)).unwrap();
    assert!(m.set(0, 0xABu8));
    assert!(m.set(1, 0xBEEFu16));
    assert!(m.set(3, 0xDEAD_BEEFu32));
    assert!(m.set(7, 0x0123_4567_89AB_CDEFu64));
    assert_eq!(m.get::<u8>(0), Some(0xAB));
    assert_eq!(m.get::<u16>(1), Some(0xBEEF));
    assert_eq!(m.get::<u32>(3), Some(0xDEAD_BEEF));
    assert_eq!(m.get::<u64>(7), Some(0x0123_4567_89AB_CDEF));
}

#[test]
fn slice_access_reads_and_writes_elementwise() {
    let mut m = DevMem::new(0, Some(16)).unwrap();
    let values: Vec<u32> = vec![1, 2, 3, 4];
    assert!(m.set_slice(0, &values));
    assert_eq!(m.get_slice::<u32>(0, 4), Some(vec![1, 2, 3, 4]));
    assert_eq!(m.get_slice::<u16>(0, 8).unwrap(), vec![1, 0, 2, 0, 3, 0, 4, 0]);
    assert_eq!(m.get::<u32>(8), Some(3));
}

#[test]
fn slice_access_out_of_bounds_is_absent() {
    let mut m = DevMem::new(0, Some(16)).unwrap();
    assert_eq!(m.get_slice::<u32>(0, 5), None);
    assert_eq!(m.get_slice::<u32>(4, 4), None);
    let five: Vec<u32> = vec![0; 5];
    assert!(!m.set_slice(0, &five));
    assert!(m.data().iter().all(|&b| b == 0));
}

#[test]
fn span_fits_matches_the_bounds_rule() {
    assert!(devmem::span_fits(16, 0, 4, 4));
    assert!(!devmem::span_fits(16, 0, 4, 5));
    assert!(!devmem::span_fits(16, 1, 4, 4));
    assert!(devmem::span_fits(16, 16, 4, 0));
    assert!(!devmem::span_fits(16, usize::MAX, 1, 1));
    assert!(!devmem::span_fits(usize::MAX, 1, usize::MAX, 2));
}

#[test]
fn whole_region_views_share_the_buffer() {
    let mut m = DevMem::new(0, Some(4)).unwrap();
    m.data_mut()[0] = 0x2A;
    assert_eq!(m.get::<u8>(0), Some(0x2A));
    assert_eq!(m.data(), &[0x2A, 0, 0, 0]);
}

#[test]
fn describe_renders_the_address_span() {
    let m = DevMem::new(0xD0DE_0000, Some(0x40)).unwrap();
    assert_eq!(m.describe(), "DevMem(0xD0DE0000..0xD0DE0040)");
    let m = DevMem::new(0, Some(1)).unwrap();
    assert_eq!(m.describe(), "DevMem(0x0..0x1)");
}
