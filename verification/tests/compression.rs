use stargazer::gossip::compression::{compress, decompress, EXPANSION_LIMIT, MAX_PAYLOAD};
use stargazer::gossip::wire::{copy_bytes, get_be, put_be, same_bytes, slice_bytes, WireError};

#[test]
fn runs_are_written_as_length_and_byte() {
    let body = compress(&vec![7, 7, 7, 1, 2, 2]).unwrap();
    assert_eq!(body, vec![0, 0, 0, 6, 3, 7, 1, 1, 2, 2]);
}

#[test]
fn the_empty_payload_is_its_length_alone() {
    assert_eq!(compress(&vec![]).unwrap(), vec![0, 0, 0, 0]);
    assert_eq!(decompress(&vec![0, 0, 0, 0]).unwrap(), Vec::<u8>::new());
}

#[test]
fn a_run_longer_than_255_is_cut() {
    let payload = vec![9u8; 600];
    let body = compress(&payload).unwrap();
    assert_eq!(body, vec![0, 0, 2, 88, 255, 9, 255, 9, 90, 9]);
    assert_eq!(decompress(&body).unwrap(), payload);
}

#[test]
fn compress_then_decompress_gives_the_payload_back() {
    let mut payloads: Vec<Vec<u8>> = vec![
        vec![],
        vec![0],
        vec![255; 255],
        vec![255; 256],
        (0..=255u8).collect(),
        b"aaaaabbbbbbbbbbbbcdddddddddddddddddddddddddddddde".to_vec(),
    ];
    let mut mixed = Vec::new();
    let mut x: u32 = 12345;
    for _ in 0..5000 {
        x = x.wrapping_mul(1103515245).wrapping_add(12345);
        let run = 1 + (x >> 16) % 7;
        for _ in 0..run {
            mixed.push((x >> 24) as u8 % 5);
        }
    }
    payloads.push(mixed);
    for payload in payloads {
        let body = compress(&payload).unwrap();
        assert!(body.len() <= 4 + 2 * payload.len());
        assert_eq!(decompress(&body).unwrap(), payload);
    }
}

#[test]
fn a_payload_at_the_size_cap_passes_and_one_over_it_does_not() {
    let at_cap = vec![3u8; MAX_PAYLOAD];
    let body = compress(&at_cap).unwrap();
    assert_eq!(decompress(&body).unwrap().len(), MAX_PAYLOAD);
    let over = vec![3u8; MAX_PAYLOAD + 1];
    assert_eq!(compress(&over), Err(WireError::FrameTooLarge));
}

#[test]
fn a_body_that_claims_too_much_for_its_size_is_a_bomb() {
    // 2 bytes of stream can justify at most 2 * EXPANSION_LIMIT bytes.
    assert_eq!(EXPANSION_LIMIT, 128);
    assert_eq!(decompress(&vec![0, 0, 1, 1, 255, 0]), Err(WireError::CompressionBombRejected));
    assert_eq!(decompress(&vec![0, 0, 1, 0, 255, 0]), Err(WireError::MalformedEnvelope));
    assert_eq!(decompress(&vec![0, 0, 0, 1]), Err(WireError::CompressionBombRejected));
}

#[test]
fn a_body_that_claims_more_than_the_cap_is_a_bomb() {
    let mut body = vec![1, 0, 0, 1];
    body.extend(std::iter::repeat([255u8, 0u8]).take(200_000).flatten());
    assert_eq!(decompress(&body), Err(WireError::CompressionBombRejected));
    assert_eq!(
        decompress(&vec![255, 255, 255, 255, 1, 1]),
        Err(WireError::CompressionBombRejected)
    );
}

#[test]
fn an_ill_formed_body_is_malformed() {
    assert_eq!(decompress(&vec![]), Err(WireError::MalformedEnvelope));
    assert_eq!(decompress(&vec![0, 0, 0]), Err(WireError::MalformedEnvelope));
    // odd stream
    assert_eq!(decompress(&vec![0, 0, 0, 2, 2, 5, 1]), Err(WireError::MalformedEnvelope));
    // run of length zero
    assert_eq!(decompress(&vec![0, 0, 0, 2, 0, 5, 2, 5]), Err(WireError::MalformedEnvelope));
    // fewer bytes than claimed
    assert_eq!(decompress(&vec![0, 0, 0, 3, 2, 5]), Err(WireError::MalformedEnvelope));
    // more bytes than claimed
    assert_eq!(decompress(&vec![0, 0, 0, 1, 2, 5]), Err(WireError::MalformedEnvelope));
    // trailing stream after the claimed bytes
    assert_eq!(decompress(&vec![0, 0, 0, 2, 2, 5, 1, 6]), Err(WireError::MalformedEnvelope));
}

#[test]
fn a_stream_need_not_be_the_shortest_to_be_read() {
    assert_eq!(decompress(&vec![0, 0, 0, 3, 1, 5, 2, 5]).unwrap(), vec![5, 5, 5]);
}

#[test]
fn integers_are_written_most_significant_byte_first() {
    let mut out = vec![0xAA];
    put_be(&mut out, 0x0102_0304, 4);
    put_be(&mut out, 0x0102_0304, 2);
    put_be(&mut out, 5, 0);
    put_be(&mut out, u128::MAX, 16);
    let mut expected = vec![0xAA, 1, 2, 3, 4, 3, 4];
    expected.extend([0xFF; 16]);
    assert_eq!(out, expected);
    assert_eq!(get_be(&out, 1, 4), 0x0102_0304);
    assert_eq!(get_be(&out, 5, 2), 0x0304);
    assert_eq!(get_be(&out, 3, 0), 0);
    assert_eq!(get_be(&out, 7, 16), u128::MAX);
}

#[test]
fn byte_helpers_copy_compare_and_cut() {
    let bytes = vec![1u8, 2, 3, 4];
    assert_eq!(copy_bytes(&bytes), bytes);
    assert!(same_bytes(&bytes, &vec![1, 2, 3, 4]));
    assert!(!same_bytes(&bytes, &vec![1, 2, 3]));
    assert!(!same_bytes(&bytes, &vec![1, 2, 3, 5]));
    assert_eq!(slice_bytes(&bytes, 1, 3), vec![2, 3]);
    assert_eq!(slice_bytes(&bytes, 4, 4), Vec::<u8>::new());
}
