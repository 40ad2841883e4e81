use switch_drivers::gpu::block_linear::byte_offset;

#[test]
fn gob_sectors_and_block_boundaries() {
    assert_eq!(byte_offset(0, 0, 128), 0);
    assert_eq!(byte_offset(16, 0, 128), 32);
    assert_eq!(byte_offset(32, 0, 128), 256);
    assert_eq!(byte_offset(0, 1, 128), 16);
    assert_eq!(byte_offset(0, 2, 128), 64);
    assert_eq!(byte_offset(0, 8, 128), 512);
    assert_eq!(byte_offset(64, 0, 128), 8192);
    assert_eq!(byte_offset(0, 128, 128), 16384);
}

#[test]
fn every_byte_is_unique_across_multiple_blocks() {
    let mut seen = [false; 3 * 64 * 256];
    for y in 0..256 {
        for x in 0..192 {
            let offset = byte_offset(x, y, 192);
            assert!(!seen[offset]);
            seen[offset] = true;
        }
    }
    assert!(seen.into_iter().all(|value| value));
}

#[test]
fn sectors_of_sixteen_bytes_are_contiguous() {
    for y in 0..256 {
        for sector in 0..8 {
            let start = byte_offset(16 * sector, y, 128);
            for x in 0..16 {
                assert_eq!(byte_offset(16 * sector + x, y, 128), start + x);
            }
        }
    }
}
