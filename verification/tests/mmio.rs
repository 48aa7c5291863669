use monolith::mmio::{OffsetAddrRW, hash_request, hash_response, read_u32_at, write_u32_at};

#[test]
fn write_then_read_gives_back_the_value() {
    let mut buf = vec![0u8; 16];
    assert_eq!(write_u32_at(&mut buf, 4, 0xdead_beef), Some(()));
    assert_eq!(read_u32_at(&buf, 4), Some(0xdead_beef));
    assert_eq!(&buf[4..8], &0xdead_beefu32.to_ne_bytes());
    assert!(buf[..4].iter().all(|b| *b == 0));
    assert!(buf[8..].iter().all(|b| *b == 0));
}

#[test]
fn access_out_of_range_is_refused() {
    let mut buf = vec![7u8; 16];
    assert_eq!(write_u32_at(&mut buf, 13, 1), None);
    assert_eq!(write_u32_at(&mut buf, usize::MAX - 1, 1), None);
    assert!(buf.iter().all(|b| *b == 7));
    assert_eq!(read_u32_at(&buf, 13), None);
    assert_eq!(read_u32_at(&buf, usize::MAX), None);
    assert_eq!(write_u32_at(&mut buf, 12, 1), Some(()));
    assert_eq!(read_u32_at(&buf, 12), Some(1));
}

#[test]
fn registers_of_a_mapping() {
    let mut map = memmap2::MmapMut::map_anon(16).unwrap();
    assert_eq!(map.write_u32(0, 0x1234_5678), Some(()));
    assert_eq!(map.read_u32(0), Some(0x1234_5678));
    assert_eq!(map.write_u32(8, 42), Some(()));
    assert_eq!(map.read_u32(8), Some(42));
    assert_eq!(map.write_u32(13, 1), None);
    assert_eq!(map.read_u32(16), None);
}

#[test]
fn accelerator_protocol() {
    assert_eq!(hash_request(0x36), 0x6d);
    assert_eq!(hash_request(0x8000_0001), 3);
    assert_eq!(hash_response(0x6d), Some(0x36));
    assert_eq!(hash_response(0x6c), None);
    assert_eq!(hash_response(u32::MAX), Some(0x7fff_ffff));
}
