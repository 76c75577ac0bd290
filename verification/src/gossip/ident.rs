//! Node identity and the certificates that prove it.
//!
//! The cryptography itself (hashing a key into a fingerprint, checking a
//! signature) is the business of a `KeyAuthority` that the embedding
//! supplies; what is decided here is what is signed, in which order a
//! certificate is checked, and which failure is reported.

use super::table::IdMap;
use super::wire::{be, copy_bytes, put_be, put_bytes};
use vstd::prelude::*;

verus! {

/// The stable identifier of a node: the fingerprint of its public key.
#[derive(Clone, Copy, Debug, PartialEq, Eq, Structural, Hash)]
pub struct ID {
    pub value: u128,
}

impl ID {
    /// The identifier with the given fingerprint.
    pub fn new(value: u128) -> (id: Self)
        ensures
            id.value == value,
    {
        ID { value }
    }
}

/// Who vouches for a certificate.
#[derive(Clone, Copy, Debug, PartialEq, Eq, Structural)]
pub enum Issuer {
    /// The certificate is signed with the key that it certifies.
    SelfIssued,
    /// The certificate is signed by the named issuer, whose key the
    /// verifier must already trust.
    Chain(ID),
}

/// Why a certificate was refused.
#[derive(Clone, Copy, Debug, PartialEq, Eq, Structural)]
pub enum CertError {
    /// The signature does not verify, or the issuer is not trusted.
    CertInvalid,
    /// The time of the check is outside the validity window.
    CertExpired,
    /// The embedded identifier is not the fingerprint of the embedded key.
    IdentityMismatch,
}

/// A certificate: it binds an identifier to a public key for a window of
/// time, under an issuer's signature.
#[derive(Clone, Debug, PartialEq, Eq)]
pub struct Certificate {
    pub id: ID,
    pub public_key: Vec<u8>,
    pub not_before: u64,
    pub not_after: u64,
    pub issuer: Issuer,
    pub signature: Vec<u8>,
}

/// A certificate as a mathematical value.
pub struct CertificateModel {
    pub id: ID,
    pub public_key: Seq<u8>,
    pub not_before: u64,
    pub not_after: u64,
    pub issuer: Issuer,
    pub signature: Seq<u8>,
}

impl View for Certificate {
    type V = CertificateModel;

    open spec fn view(&self) -> CertificateModel {
        CertificateModel {
            id: self.id,
            public_key: self.public_key@,
            not_before: self.not_before,
            not_after: self.not_after,
            issuer: self.issuer,
            signature: self.signature@,
        }
    }
}

/// The capability to hash keys and to check signatures. Nothing is taken
/// for granted of an implementation: every contract that rests on its
/// answers says what holds for each answer it may give.
pub trait KeyAuthority {
    /// The fingerprint of a public key.
    fn fingerprint(&self, public_key: &Vec<u8>) -> ID;

    /// Whether `signature` signs `message` under `public_key`.
    fn verify(&self, public_key: &Vec<u8>, message: &Vec<u8>, signature: &Vec<u8>) -> bool;
}

/// Whether `now` lies in the validity window, both ends included.
pub open spec fn within_validity(cert: CertificateModel, now: u64) -> bool {
    cert.not_before <= now <= cert.not_after
}

/// The issuer as signed: a tag byte, and for a chained certificate the
/// issuer's identifier.
pub open spec fn issuer_bytes(issuer: Issuer) -> Seq<u8> {
    match issuer {
        Issuer::SelfIssued => seq![0u8],
        Issuer::Chain(id) => seq![1u8] + be(id.value as nat, 16),
    }
}

/// The bytes that a certificate's signature covers: identifier, window,
/// issuer, and the key with its length before it.
pub open spec fn signing_bytes(cert: CertificateModel) -> Seq<u8> {
    be(cert.id.value as nat, 16) + be(cert.not_before as nat, 8) + be(cert.not_after as nat, 8)
        + issuer_bytes(cert.issuer) + be(cert.public_key.len(), 4) + cert.public_key
}

/// The key under which a certificate's signature is to be checked: its own
/// key if it is self-issued, else the trusted key of its issuer, if any.
pub open spec fn issuer_key(cert: CertificateModel, anchors: Map<ID, Seq<u8>>) -> Option<Seq<u8>> {
    match cert.issuer {
        Issuer::SelfIssued => Some(cert.public_key),
        Issuer::Chain(issuer) => if anchors.contains_key(issuer) {
            Some(anchors[issuer])
        } else {
            None
        },
    }
}

/// The verdict on a certificate at time `now`, given whether its signature
/// verified and what the fingerprint of its key is. The signature is judged
/// first, then the window, then the identity.
pub open spec fn validated(
    cert: CertificateModel,
    now: u64,
    signature_ok: bool,
    fingerprint: ID,
) -> Result<ID, CertError> {
    if !signature_ok {
        Err(CertError::CertInvalid)
    } else if !within_validity(cert, now) {
        Err(CertError::CertExpired)
    } else if fingerprint != cert.id {
        Err(CertError::IdentityMismatch)
    } else {
        Ok(cert.id)
    }
}

/// A certificate is accepted exactly when its signature verifies, the time
/// is within its window and its identifier is the fingerprint of its key;
/// the identifier returned is then that fingerprint. Every other
/// certificate is refused with the error of the first check that it fails,
/// and yields no identifier.
pub proof fn lemma_validated(cert: CertificateModel, now: u64, signature_ok: bool, fingerprint: ID)
    ensures
        validated(cert, now, signature_ok, fingerprint) is Ok <==> (signature_ok
            && within_validity(cert, now) && fingerprint == cert.id),
        validated(cert, now, signature_ok, fingerprint) is Ok ==> validated(
            cert,
            now,
            signature_ok,
            fingerprint,
        ) == Ok::<ID, CertError>(fingerprint),
        !signature_ok <==> validated(cert, now, signature_ok, fingerprint) == Err::<ID, CertError>(
            CertError::CertInvalid,
        ),
        (signature_ok && !within_validity(cert, now)) <==> validated(
            cert,
            now,
            signature_ok,
            fingerprint,
        ) == Err::<ID, CertError>(CertError::CertExpired),
        (signature_ok && within_validity(cert, now) && fingerprint != cert.id) <==> validated(
            cert,
            now,
            signature_ok,
            fingerprint,
        ) == Err::<ID, CertError>(CertError::IdentityMismatch),
{
}

/// The certificate that renews `cert` at time `now` for `validity` ticks:
/// the same identifier, key and issuer, a window that starts at `now`, and
/// no signature yet. An expired certificate cannot be renewed.
pub open spec fn renewed(cert: CertificateModel, now: u64, validity: u64) -> Result<
    CertificateModel,
    CertError,
> {
    if !within_validity(cert, now) {
        Err(CertError::CertExpired)
    } else {
        Ok(
            CertificateModel {
                not_before: now,
                not_after: if now + validity > u64::MAX {
                    u64::MAX
                } else {
                    (now + validity) as u64
                },
                signature: Seq::empty(),
                ..cert
            },
        )
    }
}

/// Rotation keeps the identity: whatever a certificate validates to, its
/// renewal validates to the same identifier at any time within the new
/// window, once it is signed.
pub proof fn lemma_rotation_keeps_identity(
    cert: CertificateModel,
    now: u64,
    validity: u64,
    signature: Seq<u8>,
    later: u64,
    fingerprint: ID,
)
    requires
        renewed(cert, now, validity) is Ok,
        within_validity(renewed(cert, now, validity)->Ok_0, later),
    ensures
        renewed(cert, now, validity)->Ok_0.id == cert.id,
        renewed(cert, now, validity)->Ok_0.public_key == cert.public_key,
        validated(cert, now, true, fingerprint) == validated(
            CertificateModel { signature, ..renewed(cert, now, validity)->Ok_0 },
            later,
            true,
            fingerprint,
        ),
{
}

impl Certificate {
    /// An unsigned certificate for `id` and `public_key`, valid from `now`
    /// for `validity` ticks.
    pub fn issue(id: ID, public_key: Vec<u8>, issuer: Issuer, now: u64, validity: u64) -> (cert:
        Certificate)
        ensures
            cert@ == (CertificateModel {
                id,
                public_key: public_key@,
                not_before: now,
                not_after: if now + validity > u64::MAX {
                    u64::MAX
                } else {
                    (now + validity) as u64
                },
                issuer,
                signature: Seq::empty(),
            }),
    {
        Certificate {
            id,
            public_key,
            not_before: now,
            not_after: now.saturating_add(validity),
            issuer,
            signature: Vec::new(),
        }
    }

    /// The certificate with `signature` in place of its own.
    pub fn with_signature(self, signature: Vec<u8>) -> (cert: Certificate)
        ensures
            cert@ == (CertificateModel { signature: signature@, ..self@ }),
    {
        Certificate {
            id: self.id,
            public_key: self.public_key,
            not_before: self.not_before,
            not_after: self.not_after,
            issuer: self.issuer,
            signature,
        }
    }

    /// Whether `now` lies in the validity window.
    pub fn is_current(&self, now: u64) -> (yes: bool)
        ensures
            yes == within_validity(self@, now),
    {
        self.not_before <= now && now <= self.not_after
    }

    /// The bytes that the signature covers.
    pub fn signing_input(&self) -> (bytes: Vec<u8>)
        ensures
            bytes@ == signing_bytes(self@),
    {
        let mut bytes: Vec<u8> = Vec::new();
        put_be(&mut bytes, self.id.value, 16);
        put_be(&mut bytes, self.not_before as u128, 8);
        put_be(&mut bytes, self.not_after as u128, 8);
        match self.issuer {
            Issuer::SelfIssued => {
                bytes.push(0u8);
            },
            Issuer::Chain(issuer) => {
                bytes.push(1u8);
                put_be(&mut bytes, issuer.value, 16);
            },
        }
        put_be(&mut bytes, self.public_key.len() as u128, 4);
        put_bytes(&mut bytes, &self.public_key);
        bytes
    }

    /// The verdict on the certificate at time `now`, given whether its
    /// signature verified and what the fingerprint of its key is.
    pub fn verdict(&self, now: u64, signature_ok: bool, fingerprint: ID) -> (result: Result<
        ID,
        CertError,
    >)
        ensures
            result == validated(self@, now, signature_ok, fingerprint),
    {
        if !signature_ok {
            Err(CertError::CertInvalid)
        } else if !self.is_current(now) {
            Err(CertError::CertExpired)
        } else if fingerprint != self.id {
            Err(CertError::IdentityMismatch)
        } else {
            Ok(self.id)
        }
    }

    /// The unsigned renewal of the certificate at time `now`.
    pub fn rotate(&self, now: u64, validity: u64) -> (result: Result<Certificate, CertError>)
        ensures
            match result {
                Ok(cert) => renewed(self@, now, validity) == Ok::<CertificateModel, CertError>(
                    cert@,
                ),
                Err(error) => renewed(self@, now, validity) == Err::<CertificateModel, CertError>(
                    error,
                ),
            },
    {
        if !self.is_current(now) {
            Err(CertError::CertExpired)
        } else {
            Ok(
                Certificate {
                    id: self.id,
                    public_key: copy_bytes(&self.public_key),
                    not_before: now,
                    not_after: now.saturating_add(validity),
                    issuer: self.issuer,
                    signature: Vec::new(),
                },
            )
        }
    }
}

/// Whether `signature_ok` and `fingerprint` are what `authority` answered
/// to the two questions that validating `cert` puts to it: whether the
/// certificate's signature signs its signing bytes under the issuer's key,
/// and what the fingerprint of the certificate's key is.
pub open spec fn answered<A: KeyAuthority>(
    authority: &A,
    cert: &Certificate,
    anchors: Map<ID, Seq<u8>>,
    signature_ok: bool,
    fingerprint: ID,
) -> bool {
    &&& exists|key: &Vec<u8>, message: &Vec<u8>|
        {
            &&& key@ == issuer_key(cert@, anchors)->Some_0
            &&& message@ == signing_bytes(cert@)
            &&& #[trigger] call_ensures(
                A::verify,
                (authority, key, message, &cert.signature),
                signature_ok,
            )
        }
    &&& call_ensures(A::fingerprint, (authority, &cert.public_key), fingerprint)
}

/// Validates a certificate at time `now`: checks its signature under the
/// issuer's key, its window, and that its identifier is the fingerprint of
/// its key. The issuer of a chained certificate must be among `anchors`.
/// Where the issuer's key is known, the result is the verdict of `validated`
/// on what the authority answered.
pub fn validate<A: KeyAuthority>(
    cert: &Certificate,
    now: u64,
    anchors: &IdMap<Vec<u8>>,
    authority: &A,
) -> (result: Result<ID, CertError>)
    requires
        anchors.wf(),
    ensures
        issuer_key(cert@, anchors.model()) is None ==> result == Err::<ID, CertError>(
            CertError::CertInvalid,
        ),
        issuer_key(cert@, anchors.model()) is Some ==> exists|signature_ok: bool, fingerprint: ID|
            #[trigger] answered(authority, cert, anchors.model(), signature_ok, fingerprint)
                && result == validated(cert@, now, signature_ok, fingerprint),
        result is Ok ==> result == Ok::<ID, CertError>(cert.id) && within_validity(cert@, now),
        !within_validity(cert@, now) ==> result is Err && result != Err::<ID, CertError>(
            CertError::IdentityMismatch,
        ),
{
    let message = cert.signing_input();
    let signature_ok = match cert.issuer {
        Issuer::SelfIssued => authority.verify(&cert.public_key, &message, &cert.signature),
        Issuer::Chain(issuer) => match anchors.get(issuer) {
            Some(key) => authority.verify(key, &message, &cert.signature),
            None => {
                return Err(CertError::CertInvalid);
            },
        },
    };
    let fingerprint = authority.fingerprint(&cert.public_key);
    assert(answered(authority, cert, anchors.model(), signature_ok, fingerprint));
    cert.verdict(now, signature_ok, fingerprint)
}

} // verus!
