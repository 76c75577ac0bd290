use stargazer::gossip::compression::MAX_PAYLOAD;
use stargazer::gossip::ident::ID;
use stargazer::gossip::pool::ConnectionPool;
use stargazer::gossip::runtime::flood::{Envelope, MessageKind};
use stargazer::gossip::transport::{
    body_length, decode_frame, encode_frame, parse, DialPolicy, DialStep, HEADER_LEN, MAX_BODY,
};
use stargazer::gossip::wire::WireError;
use stargazer::uuid::Uuid;

fn envelope(kind: MessageKind, payload: Vec<u8>, signature: Vec<u8>) -> Envelope {
    let mut e = Envelope::originate(
        ID::new(0x0A0B),
        Uuid::from_u128(0x0C0D),
        kind,
        payload,
        signature,
    );
    e.hop_count = 2;
    e
}

fn same(a: &Envelope, b: &Envelope) -> bool {
    a.origin == b.origin
        && a.message_id == b.message_id
        && a.kind == b.kind
        && a.hop_count == b.hop_count
        && a.payload == b.payload
        && a.signature == b.signature
}

#[test]
fn a_small_frame_is_laid_out_byte_by_byte() {
    let frame = encode_frame(&envelope(MessageKind::Publish, vec![7, 8], vec![9]), 1000).unwrap();
    let mut expected = vec![5u8, 0, 0, 0, 0, 39];
    expected.extend([0u8; 14]);
    expected.extend([0x0A, 0x0B]);
    expected.extend([0u8; 14]);
    expected.extend([0x0C, 0x0D]);
    expected.extend([5, 2, 0, 1, 9, 7, 8]);
    assert_eq!(frame, expected);
    assert_eq!(body_length(&frame), Ok(39));
    assert_eq!(frame.len(), HEADER_LEN + 39);
}

#[test]
fn every_kind_of_frame_comes_back_raw_or_compressed() {
    let kinds = [
        MessageKind::Ping,
        MessageKind::Ack,
        MessageKind::IndirectProbeRequest,
        MessageKind::SyncDigest,
        MessageKind::SyncResponse,
        MessageKind::Publish,
    ];
    for kind in kinds {
        for (payload, signature) in [
            (vec![], vec![]),
            (vec![1, 2, 3], vec![4; 64]),
            (vec![0; 5000], vec![1; 300]),
            ((0..2000u32).map(|i| (i % 251) as u8).collect(), vec![]),
        ] {
            let sent = envelope(kind, payload, signature);
            for threshold in [0usize, 64, 1 << 30] {
                let frame = encode_frame(&sent, threshold).unwrap();
                let got = decode_frame(&frame).unwrap();
                assert!(same(&sent, &got));
                let length = 36 + sent.signature.len() + sent.payload.len();
                assert_eq!(got.compressed, length >= threshold);
                assert_eq!(frame[1] == 1, length >= threshold);
            }
        }
    }
}

#[test]
fn payloads_at_or_above_the_threshold_are_compressed() {
    let sent = envelope(MessageKind::Publish, vec![0; 64], vec![]);
    let raw = encode_frame(&sent, 101).unwrap();
    let squeezed = encode_frame(&sent, 100).unwrap();
    assert_eq!(raw[1], 0);
    assert_eq!(squeezed[1], 1);
    assert_eq!(raw.len(), 6 + 100);
    assert!(squeezed.len() < raw.len());
}

#[test]
fn an_envelope_over_the_limits_has_no_frame() {
    let long_signature = envelope(MessageKind::Publish, vec![], vec![0; 65536]);
    assert_eq!(encode_frame(&long_signature, 0), Err(WireError::FrameTooLarge));
    let at_limit = envelope(MessageKind::Publish, vec![], vec![0; 65535]);
    assert!(encode_frame(&at_limit, 0).is_ok());
    let too_long = envelope(MessageKind::Publish, vec![0; MAX_PAYLOAD - 35], vec![]);
    assert_eq!(encode_frame(&too_long, usize::MAX), Err(WireError::FrameTooLarge));
    let just_fits = envelope(MessageKind::Publish, vec![0; MAX_PAYLOAD - 36], vec![]);
    let frame = encode_frame(&just_fits, usize::MAX).unwrap();
    assert!(same(&decode_frame(&frame).unwrap(), &just_fits));
}

#[test]
fn a_header_that_announces_too_much_is_refused_at_once() {
    assert_eq!(body_length(&vec![5, 0, 0, 0]), Err(WireError::MalformedEnvelope));
    assert_eq!(body_length(&vec![5, 0, 2, 0, 0, 5]), Err(WireError::FrameTooLarge));
    assert_eq!(body_length(&vec![5, 0, 2, 0, 0, 4]), Ok(MAX_BODY));
    assert_eq!(decode_frame(&vec![5, 0, 255, 255, 255, 255]), Err(WireError::FrameTooLarge));
}

#[test]
fn a_broken_frame_is_malformed() {
    let good = encode_frame(&envelope(MessageKind::Ack, vec![1], vec![2]), 1000).unwrap();
    assert!(decode_frame(&good).is_ok());

    let mut short = good.clone();
    short.pop();
    assert_eq!(decode_frame(&short), Err(WireError::MalformedEnvelope));

    let mut long = good.clone();
    long.push(0);
    assert_eq!(decode_frame(&long), Err(WireError::MalformedEnvelope));

    let mut flag = good.clone();
    flag[1] = 2;
    assert_eq!(decode_frame(&flag), Err(WireError::MalformedEnvelope));

    let mut kind = good.clone();
    kind[0] = 0;
    assert_eq!(decode_frame(&kind), Err(WireError::MalformedEnvelope));

    let mut inner_kind = good.clone();
    inner_kind[6 + 32] = 9;
    assert_eq!(decode_frame(&inner_kind), Err(WireError::MalformedEnvelope));

    let mut signature = good.clone();
    signature[6 + 35] = 200;
    assert_eq!(decode_frame(&signature), Err(WireError::MalformedEnvelope));

    assert_eq!(decode_frame(&vec![0, 0, 0, 0, 0, 0]), Err(WireError::MalformedEnvelope));
    assert_eq!(parse(&vec![0; 35], false).err(), Some(WireError::MalformedEnvelope));
    assert!(parse(&vec![0; 36], false).is_ok());
}

#[test]
fn a_frame_that_fails_to_decompress_is_a_protocol_violation() {
    assert_eq!(
        decode_frame(&vec![5, 1, 0, 0, 0, 6, 0, 1, 0, 0, 255, 0]),
        Err(WireError::CompressionBombRejected)
    );
    assert_eq!(
        decode_frame(&vec![5, 1, 0, 0, 0, 6, 0, 0, 0, 40, 3, 0]),
        Err(WireError::MalformedEnvelope)
    );
}

#[test]
fn dials_back_off_exponentially_up_to_a_bound() {
    let policy = DialPolicy { base_delay: 100, max_delay: 1000, max_attempts: 6 };
    let delays: Vec<u64> = (0..6).map(|retry| policy.delay(retry)).collect();
    assert_eq!(delays, vec![100, 200, 400, 800, 1000, 1000]);
    assert_eq!(policy.next_step(0), DialStep::Retry { delay: 0 });
    assert_eq!(policy.next_step(1), DialStep::Retry { delay: 100 });
    assert_eq!(policy.next_step(4), DialStep::Retry { delay: 800 });
    assert_eq!(policy.next_step(5), DialStep::Retry { delay: 1000 });
    assert_eq!(policy.next_step(6), DialStep::GiveUp);
    assert_eq!(policy.next_step(7), DialStep::GiveUp);
}

#[test]
fn the_base_delay_is_capped_too() {
    let policy = DialPolicy { base_delay: 5000, max_delay: 1000, max_attempts: 3 };
    assert_eq!(policy.delay(0), 1000);
    assert_eq!(policy.delay(40), 1000);
    let huge = DialPolicy { base_delay: u64::MAX / 2 + 1, max_delay: u64::MAX, max_attempts: 3 };
    assert_eq!(huge.delay(1), u64::MAX);
    let none = DialPolicy { base_delay: 1, max_delay: 1, max_attempts: 0 };
    assert_eq!(none.next_step(0), DialStep::GiveUp);
}

#[test]
fn connections_are_shared_counted_and_swept_when_idle() {
    let mut pool = ConnectionPool::new(100);
    let (a, b, c) = (ID::new(1), ID::new(2), ID::new(3));
    assert!(!pool.acquire(a, 0));
    assert!(pool.acquire(a, 5));
    assert!(!pool.acquire(b, 10));
    assert!(!pool.acquire(c, 10));
    pool.release(a, 20);
    pool.release(b, 30);
    assert_eq!(pool.sweep(125), Vec::<ID>::new());
    assert_eq!(pool.sweep(130), vec![b]);
    assert!(!pool.acquire(b, 131));
    pool.release(a, 140);
    pool.release(a, 141);
    pool.release(b, 150);
    assert_eq!(pool.sweep(240), Vec::<ID>::new());
    assert_eq!(pool.sweep(250), vec![a, b]);
    assert_eq!(pool.sweep(100_000), Vec::<ID>::new());
    pool.discard(c);
    pool.discard(c);
    assert!(!pool.acquire(c, 100_001));
    pool.release(ID::new(9), 0);
    assert!(!pool.acquire(ID::new(9), 1));
}
