use std::cell::RefCell;

use stargazer::gossip::ident::{validate, CertError, Certificate, Issuer, KeyAuthority, ID};
use stargazer::gossip::table::IdMap;
use stargazer::gossip::transport::Certificates;

/// A stand-in for real cryptography: the fingerprint is a sum over the key,
/// and a signature is the message reversed, followed by the key.
struct Toy;

fn toy_fingerprint(key: &[u8]) -> ID {
    ID::new(key.iter().fold(17u128, |acc, b| acc.wrapping_mul(31).wrapping_add(*b as u128)))
}

fn toy_sign(key: &[u8], message: &[u8]) -> Vec<u8> {
    let mut signature: Vec<u8> = message.iter().rev().copied().collect();
    signature.extend_from_slice(key);
    signature
}

impl KeyAuthority for Toy {
    fn fingerprint(&self, public_key: &Vec<u8>) -> ID {
        toy_fingerprint(public_key)
    }

    fn verify(&self, public_key: &Vec<u8>, message: &Vec<u8>, signature: &Vec<u8>) -> bool {
        *signature == toy_sign(public_key, message)
    }
}

fn self_issued(key: &[u8], now: u64, validity: u64) -> Certificate {
    let cert =
        Certificate::issue(toy_fingerprint(key), key.to_vec(), Issuer::SelfIssued, now, validity);
    let signature = toy_sign(key, &cert.signing_input());
    cert.with_signature(signature)
}

#[test]
fn a_valid_certificate_yields_the_fingerprint_of_its_key() {
    let cert = self_issued(b"key of node one", 100, 50);
    let anchors: IdMap<Vec<u8>> = IdMap::new();
    for now in [100, 125, 150] {
        assert_eq!(validate(&cert, now, &anchors, &Toy), Ok(toy_fingerprint(b"key of node one")));
    }
    assert!(cert.is_current(100) && cert.is_current(150));
}

#[test]
fn a_certificate_is_refused_outside_its_window() {
    let cert = self_issued(b"key", 100, 50);
    let anchors: IdMap<Vec<u8>> = IdMap::new();
    assert_eq!(validate(&cert, 99, &anchors, &Toy), Err(CertError::CertExpired));
    assert_eq!(validate(&cert, 151, &anchors, &Toy), Err(CertError::CertExpired));
    assert!(!cert.is_current(99) && !cert.is_current(151));
}

#[test]
fn a_tampered_signature_is_refused() {
    let mut cert = self_issued(b"key", 100, 50);
    cert.signature[0] ^= 1;
    let anchors: IdMap<Vec<u8>> = IdMap::new();
    assert_eq!(validate(&cert, 120, &anchors, &Toy), Err(CertError::CertInvalid));
    // the signature is judged before the window
    assert_eq!(validate(&cert, 999, &anchors, &Toy), Err(CertError::CertInvalid));
}

#[test]
fn a_change_to_any_signed_field_breaks_the_signature() {
    let anchors: IdMap<Vec<u8>> = IdMap::new();
    let mut later = self_issued(b"key", 100, 50);
    later.not_after = 10_000;
    assert_eq!(validate(&later, 120, &anchors, &Toy), Err(CertError::CertInvalid));
    let mut other = self_issued(b"key", 100, 50);
    other.id = ID::new(5);
    assert_eq!(validate(&other, 120, &anchors, &Toy), Err(CertError::CertInvalid));
}

#[test]
fn an_identifier_that_is_not_the_fingerprint_is_refused() {
    let key = b"key".to_vec();
    let cert = Certificate::issue(ID::new(12345), key.clone(), Issuer::SelfIssued, 100, 50);
    let signature = toy_sign(&key, &cert.signing_input());
    let cert = cert.with_signature(signature);
    let anchors: IdMap<Vec<u8>> = IdMap::new();
    assert_eq!(validate(&cert, 120, &anchors, &Toy), Err(CertError::IdentityMismatch));
    // the window is judged before the identity
    assert_eq!(validate(&cert, 99, &anchors, &Toy), Err(CertError::CertExpired));
}

#[test]
fn the_verdict_reports_the_first_check_that_fails() {
    let cert = Certificate::issue(ID::new(7), vec![1], Issuer::SelfIssued, 10, 10);
    assert_eq!(cert.verdict(15, true, ID::new(7)), Ok(ID::new(7)));
    assert_eq!(cert.verdict(15, false, ID::new(7)), Err(CertError::CertInvalid));
    assert_eq!(cert.verdict(25, false, ID::new(8)), Err(CertError::CertInvalid));
    assert_eq!(cert.verdict(25, true, ID::new(8)), Err(CertError::CertExpired));
    assert_eq!(cert.verdict(9, true, ID::new(7)), Err(CertError::CertExpired));
    assert_eq!(cert.verdict(15, true, ID::new(8)), Err(CertError::IdentityMismatch));
}

#[test]
fn a_chained_certificate_needs_a_trusted_issuer() {
    let issuer_key = b"issuer key".to_vec();
    let issuer = toy_fingerprint(&issuer_key);
    let key = b"leaf key".to_vec();
    let cert = Certificate::issue(toy_fingerprint(&key), key, Issuer::Chain(issuer), 0, 100);
    let signature = toy_sign(&issuer_key, &cert.signing_input());
    let cert = cert.with_signature(signature);

    let mut anchors: IdMap<Vec<u8>> = IdMap::new();
    assert_eq!(validate(&cert, 50, &anchors, &Toy), Err(CertError::CertInvalid));
    anchors.put(ID::new(1), b"some other key".to_vec());
    assert_eq!(validate(&cert, 50, &anchors, &Toy), Err(CertError::CertInvalid));
    anchors.put(issuer, b"a wrong key".to_vec());
    assert_eq!(validate(&cert, 50, &anchors, &Toy), Err(CertError::CertInvalid));
    anchors.put(issuer, issuer_key);
    assert_eq!(validate(&cert, 50, &anchors, &Toy), Ok(toy_fingerprint(b"leaf key")));
}

#[test]
fn what_is_signed_is_laid_out_field_by_field() {
    let cert = Certificate::issue(ID::new(0x0102), vec![0xAA, 0xBB], Issuer::SelfIssued, 3, 4);
    let mut expected = vec![0u8; 14];
    expected.extend([1, 2]);
    expected.extend([0, 0, 0, 0, 0, 0, 0, 3]);
    expected.extend([0, 0, 0, 0, 0, 0, 0, 7]);
    expected.push(0);
    expected.extend([0, 0, 0, 2, 0xAA, 0xBB]);
    assert_eq!(cert.signing_input(), expected);

    let chained = Certificate::issue(ID::new(1), vec![], Issuer::Chain(ID::new(0xFF)), 0, 0);
    let bytes = chained.signing_input();
    assert_eq!(bytes.len(), 16 + 8 + 8 + 1 + 16 + 4);
    assert_eq!(bytes[32], 1);
    assert_eq!(bytes[48], 0xFF);
}

#[test]
fn the_window_ends_at_the_end_of_time_at_the_latest() {
    let cert = Certificate::issue(ID::new(1), vec![], Issuer::SelfIssued, u64::MAX - 5, 100);
    assert_eq!(cert.not_before, u64::MAX - 5);
    assert_eq!(cert.not_after, u64::MAX);
    assert!(cert.signature.is_empty());
}

#[test]
fn rotation_keeps_the_identity_and_needs_a_current_certificate() {
    let old = self_issued(b"key", 100, 50);
    assert_eq!(old.rotate(151, 50).err(), Some(CertError::CertExpired));
    assert_eq!(old.rotate(99, 50).err(), Some(CertError::CertExpired));
    let renewal = old.rotate(140, 50).unwrap();
    assert_eq!(renewal.id, old.id);
    assert_eq!(renewal.public_key, old.public_key);
    assert_eq!(renewal.issuer, old.issuer);
    assert_eq!((renewal.not_before, renewal.not_after), (140, 190));
    assert!(renewal.signature.is_empty());
    let signature = toy_sign(b"key", &renewal.signing_input());
    let renewal = renewal.with_signature(signature);
    let anchors: IdMap<Vec<u8>> = IdMap::new();
    assert_eq!(validate(&renewal, 180, &anchors, &Toy), validate(&old, 120, &anchors, &Toy));
    assert_eq!(validate(&renewal, 180, &anchors, &Toy), Ok(old.id));
}

#[test]
fn the_handshake_admits_only_the_holder_of_the_certified_key() {
    let mut store = Certificates::new(self_issued(b"my key", 0, 1000));
    assert_eq!(store.certificate().id, toy_fingerprint(b"my key"));
    let peer = self_issued(b"peer key", 0, 1000);
    assert_eq!(
        store.accept(&peer, &b"peer key".to_vec(), 10, &Toy),
        Ok(toy_fingerprint(b"peer key"))
    );
    assert_eq!(
        store.accept(&peer, &b"another key".to_vec(), 10, &Toy),
        Err(CertError::IdentityMismatch)
    );
    assert_eq!(
        store.accept(&peer, &b"peer key".to_vec(), 1001, &Toy),
        Err(CertError::CertExpired)
    );

    let issuer_key = b"issuer".to_vec();
    let issuer = toy_fingerprint(&issuer_key);
    let leaf_key = b"leaf".to_vec();
    let leaf =
        Certificate::issue(toy_fingerprint(&leaf_key), leaf_key.clone(), Issuer::Chain(issuer), 0, 9);
    let signature = toy_sign(&issuer_key, &leaf.signing_input());
    let leaf = leaf.with_signature(signature);
    assert_eq!(store.accept(&leaf, &leaf_key, 5, &Toy), Err(CertError::CertInvalid));
    store.trust(issuer, issuer_key);
    assert_eq!(store.accept(&leaf, &leaf_key, 5, &Toy), Ok(toy_fingerprint(b"leaf")));
    store.install(self_issued(b"my next key", 0, 1000));
    assert_eq!(store.certificate().id, toy_fingerprint(b"my next key"));
    assert_eq!(store.accept(&leaf, &leaf_key, 5, &Toy), Ok(toy_fingerprint(b"leaf")));
}

#[test]
fn the_id_map_keeps_insertion_order_and_one_value_per_key() {
    let mut map: IdMap<u64> = IdMap::new();
    assert_eq!(map.len(), 0);
    map.put(ID::new(3), 30);
    map.put(ID::new(1), 10);
    map.put(ID::new(3), 33);
    assert_eq!(map.len(), 2);
    assert_eq!(map.key_at(0), ID::new(3));
    assert_eq!(*map.value_at(0), 33);
    assert_eq!(map.position(ID::new(1)), Some(1));
    assert_eq!(map.position(ID::new(2)), None);
    assert!(map.contains(ID::new(1)) && !map.contains(ID::new(2)));
    assert_eq!(map.get(ID::new(1)), Some(&10));
    assert_eq!(map.get(ID::new(2)), None);
    map.put(ID::new(9), 90);
    assert_eq!(map.key_at(2), ID::new(9));
}

/// An authority that says yes to everything and writes down what it was
/// asked.
struct Recording {
    asked: RefCell<Vec<(Vec<u8>, Vec<u8>, Vec<u8>)>>,
    hashed: RefCell<Vec<Vec<u8>>>,
    fingerprint: ID,
}

impl KeyAuthority for Recording {
    fn fingerprint(&self, public_key: &Vec<u8>) -> ID {
        self.hashed.borrow_mut().push(public_key.clone());
        self.fingerprint
    }

    fn verify(&self, public_key: &Vec<u8>, message: &Vec<u8>, signature: &Vec<u8>) -> bool {
        self.asked.borrow_mut().push((public_key.clone(), message.clone(), signature.clone()));
        true
    }
}

#[test]
fn the_authority_is_asked_about_the_issuers_key_and_the_signing_bytes() {
    let recording = |fingerprint: u128| Recording {
        asked: RefCell::new(vec![]),
        hashed: RefCell::new(vec![]),
        fingerprint: ID::new(fingerprint),
    };
    let own = Certificate::issue(ID::new(7), vec![1, 2], Issuer::SelfIssued, 0, 10)
        .with_signature(vec![9]);
    let authority = recording(7);
    let anchors: IdMap<Vec<u8>> = IdMap::new();
    assert_eq!(validate(&own, 5, &anchors, &authority), Ok(ID::new(7)));
    assert_eq!(*authority.asked.borrow(), vec![(vec![1, 2], own.signing_input(), vec![9])]);
    assert_eq!(*authority.hashed.borrow(), vec![vec![1, 2]]);

    let chained = Certificate::issue(ID::new(7), vec![1, 2], Issuer::Chain(ID::new(3)), 0, 10)
        .with_signature(vec![8]);
    let authority = recording(7);
    let mut anchors: IdMap<Vec<u8>> = IdMap::new();
    assert_eq!(validate(&chained, 5, &anchors, &authority), Err(CertError::CertInvalid));
    assert!(authority.asked.borrow().is_empty());
    anchors.put(ID::new(3), vec![6, 6, 6]);
    assert_eq!(validate(&chained, 5, &anchors, &authority), Ok(ID::new(7)));
    assert_eq!(*authority.asked.borrow(), vec![(vec![6, 6, 6], chained.signing_input(), vec![8])]);
    assert_eq!(*authority.hashed.borrow(), vec![vec![1, 2]]);

    // the fingerprint that the authority gives decides the identity
    assert_eq!(validate(&chained, 5, &anchors, &recording(8)), Err(CertError::IdentityMismatch));
}
