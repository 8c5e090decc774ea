use proxy_programs::payload::{body, chunk, BODY_LEN, CHUNK_LEN};

#[test]
fn body_is_a_megabyte_of_steps() {
    let bytes = body();
    assert_eq!(bytes.len(), 1024 * 1024);
    assert_eq!(bytes[..4], [251, 246, 241, 236]);
    let mut n = 0u8;
    for byte in &bytes {
        n = n.wrapping_add(251);
        assert_eq!(*byte, n);
    }
}

#[test]
fn chunks_agree_with_the_standard_library() {
    let bytes: Vec<u8> = body().into_iter().take(3 * CHUNK_LEN + 5).collect();
    let mut from = 0;
    for expected in bytes.chunks(16 * 1024) {
        let found = chunk(&bytes, from);
        assert_eq!(found, expected);
        from += found.len();
    }
    assert_eq!(from, bytes.len());
    assert_eq!(chunk(&bytes, from), Vec::<u8>::new());
}

#[test]
fn body_is_sixty_four_whole_chunks() {
    let bytes = body();
    for i in 0..64 {
        assert_eq!(chunk(&bytes, i * CHUNK_LEN).len(), CHUNK_LEN);
    }
    assert_eq!(64 * CHUNK_LEN, BODY_LEN);
}
