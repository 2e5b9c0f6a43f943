use bench_harness::digest::ChunkDigest;

const EMPTY_DIGEST: &str = "e3b0c44298fc1c149afbf4c8996fb92427ae41e4649b934ca495991b7852b855";
const ABC_DIGEST: &str = "ba7816bf8f01cfea414140de5dae2223b00361a396177a9cb410ff61f20015ad";

fn digest_in_chunks(data: &[u8], chunk_len: usize) -> (String, usize) {
    let mut state = ChunkDigest::new();
    let mut buffer = vec![0u8; chunk_len];
    let mut offset = 0usize;
    loop {
        let n = chunk_len.min(data.len() - offset);
        buffer[..n].copy_from_slice(&data[offset..offset + n]);
        offset += n;
        assert!(state.has_room_for(n));
        let (next, read_on) = state.accept(&buffer, n);
        state = next;
        if !read_on {
            break;
        }
    }
    state.finish()
}

#[test]
fn empty_source_gives_the_digest_of_nothing() {
    let state = ChunkDigest::new();
    assert_eq!(state.total_bytes(), 0);
    let (state, read_on) = state.accept(&[0u8; 16], 0);
    assert!(!read_on);
    let (hash, total) = state.finish();
    assert_eq!(total, 0);
    assert_eq!(hash, EMPTY_DIGEST);
}

#[test]
fn finishing_at_once_gives_the_digest_of_nothing() {
    assert_eq!(ChunkDigest::new().finish(), (EMPTY_DIGEST.to_string(), 0));
}

#[test]
fn digest_of_abc() {
    let (state, read_on) = ChunkDigest::new().accept(b"abc", 3);
    assert!(read_on);
    assert_eq!(state.total_bytes(), 3);
    assert_eq!(state.finish(), (ABC_DIGEST.to_string(), 3));
}

#[test]
fn only_the_bytes_read_are_hashed() {
    let (state, read_on) = ChunkDigest::new().accept(b"abcdefgh", 3);
    assert!(read_on);
    assert_eq!(state.finish(), (ABC_DIGEST.to_string(), 3));
}

#[test]
fn chunking_does_not_change_the_digest() {
    let data: Vec<u8> = (0..5000usize).map(|i| (i % 256) as u8).collect();
    let whole = digest_in_chunks(&data, 8192);
    assert_eq!(whole.1, 5000);
    assert_eq!(whole.0.len(), 64);
    for chunk_len in [1usize, 7, 64, 1000, 4999, 5000] {
        assert_eq!(digest_in_chunks(&data, chunk_len), whole);
    }
    assert_eq!(digest_in_chunks(b"abc", 1), (ABC_DIGEST.to_string(), 3));
}

#[test]
fn digest_is_lower_case_hexadecimal() {
    let (hash, _) = digest_in_chunks(b"The quick brown fox jumps over the lazy dog", 10);
    assert_eq!(hash, "d7a8fbb307d7809469ca9abcb0082e4f8d5651e46d3cdb762d02d0bf37c9e592");
    assert!(hash.chars().all(|c| c.is_ascii_digit() || ('a'..='f').contains(&c)));
}

#[test]
fn room_is_counted_from_the_bytes_taken() {
    let (state, _) = ChunkDigest::new().accept(b"abc", 3);
    assert!(state.has_room_for(0));
    assert!(state.has_room_for(usize::MAX - 3));
    assert!(!state.has_room_for(usize::MAX - 2));
    assert!(!state.has_room_for(usize::MAX));
}
