use bench_harness::source::{pattern_chunk, source_is_ready, source_size_bytes, BYTES_PER_MIB};

#[test]
fn size_in_bytes() {
    assert_eq!(BYTES_PER_MIB, 1024 * 1024);
    assert_eq!(source_size_bytes(0), Some(0));
    assert_eq!(source_size_bytes(1), Some(1048576));
    assert_eq!(source_size_bytes(4000), Some(4194304000));
}

#[test]
fn size_that_does_not_fit() {
    assert_eq!(source_size_bytes(usize::MAX), None);
    assert_eq!(source_size_bytes(usize::MAX / BYTES_PER_MIB + 1), None);
    assert_eq!(
        source_size_bytes(usize::MAX / BYTES_PER_MIB),
        Some(usize::MAX / BYTES_PER_MIB * BYTES_PER_MIB)
    );
}

#[test]
fn file_of_the_right_size_is_ready() {
    assert!(source_is_ready(Some(1048576), 1048576));
    assert!(source_is_ready(Some(0), 0));
}

#[test]
fn missing_or_wrong_sized_file_is_not_ready() {
    assert!(!source_is_ready(None, 1048576));
    assert!(!source_is_ready(None, 0));
    assert!(!source_is_ready(Some(1048575), 1048576));
    assert!(!source_is_ready(Some(1048577), 1048576));
}

#[test]
fn pattern_counts_through_the_bytes() {
    assert_eq!(pattern_chunk(0), Vec::<u8>::new());
    assert_eq!(pattern_chunk(4), vec![0, 1, 2, 3]);
    let chunk = pattern_chunk(600);
    assert_eq!(chunk.len(), 600);
    assert_eq!(chunk[255], 255);
    assert_eq!(chunk[256], 0);
    assert_eq!(chunk[599], 87);
    for (i, b) in chunk.iter().enumerate() {
        assert_eq!(*b as usize, i % 256);
    }
}
