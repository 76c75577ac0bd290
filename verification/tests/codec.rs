use stargazer::gossip::codec::{
    certificate_length, decode_certificate, decode_digest, decode_records, decode_target,
    encode_certificate, encode_digest, encode_records, encode_target, frame_certificate,
    MAX_CERTIFICATE,
};
use stargazer::gossip::ident::{Certificate, Issuer, ID};
use stargazer::gossip::resolver::Address;
use stargazer::gossip::runtime::membership::{PeerRecord, PeerState};
use stargazer::gossip::runtime::sync::Digest;
use stargazer::gossip::wire::WireError;

#[test]
fn a_digest_is_written_entry_by_entry() {
    let mut digest = Digest::new();
    digest.insert(ID::new(0x0102), 3);
    digest.insert(ID::new(u128::MAX), u64::MAX);
    let payload = encode_digest(&digest);
    let mut expected = vec![0u8; 14];
    expected.extend([1, 2]);
    expected.extend([0, 0, 0, 0, 0, 0, 0, 3]);
    expected.extend([0xFF; 24]);
    assert_eq!(payload, expected);
    assert_eq!(encode_digest(&Digest::new()), Vec::<u8>::new());
}

#[test]
fn a_digest_comes_back_from_its_payload() {
    let mut digest = Digest::new();
    for (id, incarnation) in [(5u128, 0u64), (1, 7), (1 << 100, u64::MAX), (2, 1)] {
        digest.insert(ID::new(id), incarnation);
    }
    let read = decode_digest(&encode_digest(&digest)).ok().unwrap();
    assert_eq!(read.len(), 4);
    for i in 0..4 {
        assert_eq!(read.entry_at(i), digest.entry_at(i));
    }
    assert_eq!(decode_digest(&vec![]).ok().unwrap().len(), 0);
}

#[test]
fn of_two_digest_entries_for_one_peer_the_later_counts() {
    let mut payload = Vec::new();
    for incarnation in [4u8, 9] {
        payload.extend([0u8; 15]);
        payload.push(1);
        payload.extend([0u8; 7]);
        payload.push(incarnation);
    }
    let read = decode_digest(&payload).ok().unwrap();
    assert_eq!(read.len(), 1);
    assert_eq!(read.get(ID::new(1)), Some(9));
}

#[test]
fn a_digest_payload_must_be_whole_entries() {
    assert_eq!(decode_digest(&vec![0; 23]).err(), Some(WireError::MalformedEnvelope));
    assert_eq!(decode_digest(&vec![0; 25]).err(), Some(WireError::MalformedEnvelope));
    assert!(decode_digest(&vec![0; 48]).is_ok());
}

fn records() -> Vec<PeerRecord> {
    vec![
        PeerRecord {
            id: ID::new(0x0A),
            addresses: vec![
                Address { host: 0x7F00_0001, port: 7000 },
                Address { host: u128::MAX, port: u16::MAX },
            ],
            incarnation: 3,
            state: PeerState::Suspect,
            last_seen: 99,
        },
        PeerRecord {
            id: ID::new(0x0B),
            addresses: vec![],
            incarnation: u64::MAX,
            state: PeerState::Dead,
            last_seen: 0,
        },
        PeerRecord {
            id: ID::new(0x0C),
            addresses: vec![Address { host: 1, port: 2 }],
            incarnation: 0,
            state: PeerState::Alive,
            last_seen: u64::MAX,
        },
        PeerRecord {
            id: ID::new(0x0D),
            addresses: vec![],
            incarnation: 1,
            state: PeerState::Joining,
            last_seen: 1,
        },
    ]
}

#[test]
fn a_record_is_written_field_by_field() {
    let payload = encode_records(&records()[2..3].to_vec()).unwrap();
    let mut expected = vec![0u8; 15];
    expected.push(0x0C);
    expected.extend([0u8; 8]);
    expected.push(1);
    expected.extend([0xFF; 8]);
    expected.extend([0, 1]);
    expected.extend([0u8; 15]);
    expected.push(1);
    expected.extend([0, 2]);
    assert_eq!(payload, expected);
}

#[test]
fn records_come_back_from_their_payload() {
    let sent = records();
    let payload = encode_records(&sent).unwrap();
    assert_eq!(payload.len(), 4 * 35 + 3 * 18);
    assert_eq!(decode_records(&payload), Ok(sent));
    assert_eq!(decode_records(&vec![]), Ok(vec![]));
    assert_eq!(encode_records(&vec![]), Ok(vec![]));
}

#[test]
fn a_broken_record_payload_is_malformed() {
    let good = encode_records(&records()).unwrap();
    let mut short = good.clone();
    short.pop();
    assert_eq!(decode_records(&short), Err(WireError::MalformedEnvelope));
    let mut long = good.clone();
    long.push(0);
    assert_eq!(decode_records(&long), Err(WireError::MalformedEnvelope));
    let mut state = good.clone();
    state[24] = 4;
    assert_eq!(decode_records(&state), Err(WireError::MalformedEnvelope));
    let mut count = good.clone();
    count[33] = 0xFF;
    assert_eq!(decode_records(&count), Err(WireError::MalformedEnvelope));
    assert_eq!(decode_records(&vec![0; 34]), Err(WireError::MalformedEnvelope));
}

#[test]
fn a_record_with_too_many_addresses_cannot_be_written() {
    let mut record = records().remove(1);
    record.addresses = vec![Address { host: 0, port: 0 }; 65535];
    assert!(encode_records(&vec![record.clone()]).is_ok());
    record.addresses.push(Address { host: 0, port: 0 });
    assert_eq!(encode_records(&vec![record]), Err(WireError::FrameTooLarge));
}

#[test]
fn the_target_of_an_indirect_probe_is_sixteen_bytes() {
    let payload = encode_target(ID::new(0x0102_0304));
    assert_eq!(payload.len(), 16);
    assert_eq!(&payload[12..], &[1, 2, 3, 4]);
    assert_eq!(decode_target(&payload), Ok(ID::new(0x0102_0304)));
    assert_eq!(decode_target(&vec![0; 15]), Err(WireError::MalformedEnvelope));
    assert_eq!(decode_target(&vec![0; 17]), Err(WireError::MalformedEnvelope));
}

#[test]
fn a_certificate_comes_back_from_its_bytes() {
    for issuer in [Issuer::SelfIssued, Issuer::Chain(ID::new(0xABCD))] {
        for (key, signature) in [(vec![], vec![]), (vec![1, 2, 3], vec![9; 64]), (vec![7; 300], vec![1])] {
            let cert = Certificate::issue(ID::new(42), key, issuer, 100, 50).with_signature(signature);
            let bytes = encode_certificate(&cert).unwrap();
            let mut expected = cert.signing_input();
            expected.extend([(cert.signature.len() >> 8) as u8, cert.signature.len() as u8]);
            expected.extend(cert.signature.iter());
            assert_eq!(bytes, expected);
            assert_eq!(decode_certificate(&bytes), Ok(cert));
        }
    }
}

#[test]
fn broken_certificate_bytes_are_malformed() {
    let cert = Certificate::issue(ID::new(42), vec![1, 2, 3], Issuer::Chain(ID::new(5)), 100, 50)
        .with_signature(vec![4, 5]);
    let good = encode_certificate(&cert).unwrap();
    let mut short = good.clone();
    short.pop();
    assert_eq!(decode_certificate(&short), Err(WireError::MalformedEnvelope));
    let mut long = good.clone();
    long.push(0);
    assert_eq!(decode_certificate(&long), Err(WireError::MalformedEnvelope));
    let mut tag = good.clone();
    tag[32] = 2;
    assert_eq!(decode_certificate(&tag), Err(WireError::MalformedEnvelope));
    let mut key = good.clone();
    key[49] = 0xFF;
    assert_eq!(decode_certificate(&key), Err(WireError::MalformedEnvelope));
    assert_eq!(decode_certificate(&vec![]), Err(WireError::MalformedEnvelope));
    assert_eq!(decode_certificate(&vec![0; 38]), Err(WireError::MalformedEnvelope));
    assert!(decode_certificate(&vec![0; 39]).is_ok());

    let long_key = Certificate::issue(ID::new(1), vec![0; 65536], Issuer::SelfIssued, 0, 0);
    assert_eq!(encode_certificate(&long_key), Err(WireError::FrameTooLarge));
    let long_signature = Certificate::issue(ID::new(1), vec![], Issuer::SelfIssued, 0, 0)
        .with_signature(vec![0; 65536]);
    assert_eq!(encode_certificate(&long_signature), Err(WireError::FrameTooLarge));
}

#[test]
fn a_certificate_is_announced_by_its_length() {
    let cert = Certificate::issue(ID::new(42), vec![1, 2, 3], Issuer::SelfIssued, 100, 50)
        .with_signature(vec![4, 5]);
    let bytes = encode_certificate(&cert).unwrap();
    let framed = frame_certificate(&cert).unwrap();
    assert_eq!(framed[..4], (bytes.len() as u32).to_be_bytes());
    assert_eq!(framed[4..], bytes[..]);
    assert_eq!(certificate_length(&framed[..4].to_vec()), Ok(bytes.len()));
    assert_eq!(decode_certificate(&framed[4..].to_vec()), Ok(cert));
}

#[test]
fn a_prefix_that_announces_too_much_is_refused_at_once() {
    assert_eq!(MAX_CERTIFICATE, 33 + 16 + 4 + 65535 + 2 + 65535);
    assert_eq!(certificate_length(&vec![0, 2, 0, 53]), Ok(MAX_CERTIFICATE));
    assert_eq!(certificate_length(&vec![0, 2, 0, 54]), Err(WireError::FrameTooLarge));
    assert_eq!(certificate_length(&vec![255; 4]), Err(WireError::FrameTooLarge));
    assert_eq!(certificate_length(&vec![0; 3]), Err(WireError::MalformedEnvelope));
    assert_eq!(certificate_length(&vec![0; 5]), Err(WireError::MalformedEnvelope));
    assert_eq!(certificate_length(&vec![0; 4]), Ok(0));

    let longest = Certificate::issue(ID::new(1), vec![0; 65535], Issuer::Chain(ID::new(2)), 0, 0)
        .with_signature(vec![0; 65535]);
    assert_eq!(frame_certificate(&longest).unwrap().len(), 4 + MAX_CERTIFICATE);
    let too_long = Certificate::issue(ID::new(1), vec![0; 65536], Issuer::SelfIssued, 0, 0);
    assert_eq!(frame_certificate(&too_long), Err(WireError::FrameTooLarge));
}
