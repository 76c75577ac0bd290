//! The payloads of the membership messages (a digest as a list of
//! identifiers with their incarnations, a sync response as a list of peer
//! records, an indirect probe request as the identifier of its target) and
//! the bytes of a certificate at the handshake.

use super::ident::{signing_bytes, Certificate, CertificateModel, Issuer, ID};
use super::resolver::Address;
use super::runtime::membership::{PeerModel, PeerRecord, PeerState};
use super::runtime::sync::{models, Digest};
use super::table::{assoc, lemma_assoc_push};
use super::wire::{be, from_be, get_be, put_be, put_bytes, slice_bytes, WireError};
use super::wire::{lemma_be_len, lemma_be_round_trip, lemma_from_be_bound, lemma_pow256_widths};
use vstd::prelude::*;

verus! {

/// The length of one digest entry on the wire.
pub const DIGEST_ENTRY: usize = 24;

/// The length of one address on the wire.
pub const ADDRESS_LEN: usize = 18;

/// The length of a record on the wire without its addresses.
pub const RECORD_FIXED: usize = 35;

/// The most addresses that a record can carry on the wire.
pub const MAX_ADDRESSES: usize = 65535;

/// One digest entry: the identifier in sixteen bytes, the incarnation in
/// eight.
pub open spec fn digest_entry(id: ID, incarnation: u64) -> Seq<u8> {
    be(id.value as nat, 16) + be(incarnation as nat, 8)
}

/// The payload of a digest: its entries one after the other.
pub open spec fn digest_payload(ids: Seq<ID>, incarnations: Seq<u64>) -> Seq<u8>
    decreases ids.len(),
{
    if ids.len() == 0 {
        Seq::empty()
    } else {
        digest_payload(ids.drop_last(), incarnations.drop_last()) + digest_entry(
            ids.last(),
            incarnations.last(),
        )
    }
}

/// The identifier of entry `k` of a digest payload.
pub open spec fn digest_id_at(payload: Seq<u8>, k: int) -> ID {
    ID { value: from_be(payload.subrange(DIGEST_ENTRY * k, DIGEST_ENTRY * k + 16)) as u128 }
}

/// The incarnation of entry `k` of a digest payload.
pub open spec fn digest_incarnation_at(payload: Seq<u8>, k: int) -> u64 {
    from_be(payload.subrange(DIGEST_ENTRY * k + 16, DIGEST_ENTRY * k + 24)) as u64
}

/// What the first `count` entries of a digest payload list; of two entries
/// for one peer the later counts.
pub open spec fn digest_read(payload: Seq<u8>, count: nat) -> Map<ID, u64>
    decreases count,
{
    if count == 0 {
        Map::empty()
    } else {
        digest_read(payload, (count - 1) as nat).insert(
            digest_id_at(payload, count - 1),
            digest_incarnation_at(payload, count - 1),
        )
    }
}

/// The digest that a payload spells: a payload that is not a whole number
/// of entries spells none.
pub open spec fn digest_parsed(payload: Seq<u8>) -> Result<Map<ID, u64>, WireError> {
    if payload.len() % DIGEST_ENTRY as nat != 0 {
        Err(WireError::MalformedEnvelope)
    } else {
        Ok(digest_read(payload, payload.len() / DIGEST_ENTRY as nat))
    }
}

/// A digest payload has twenty-four bytes for each entry.
pub proof fn lemma_digest_payload_len(ids: Seq<ID>, incarnations: Seq<u64>)
    requires
        ids.len() == incarnations.len(),
    ensures
        digest_payload(ids, incarnations).len() == DIGEST_ENTRY * ids.len(),
    decreases ids.len(),
{
    if ids.len() > 0 {
        lemma_digest_payload_len(ids.drop_last(), incarnations.drop_last());
        lemma_be_len(ids.last().value as nat, 16);
        lemma_be_len(incarnations.last() as nat, 8);
    }
}

/// What the first entries of a payload list does not depend on what
/// follows them.
pub proof fn lemma_digest_read_prefix(payload: Seq<u8>, more: Seq<u8>, count: nat)
    requires
        DIGEST_ENTRY * count <= payload.len(),
    ensures
        digest_read(payload + more, count) == digest_read(payload, count),
    decreases count,
{
    if count > 0 {
        lemma_digest_read_prefix(payload, more, (count - 1) as nat);
        let k = count - 1;
        assert((payload + more).subrange(DIGEST_ENTRY * k, DIGEST_ENTRY * k + 16)
            =~= payload.subrange(DIGEST_ENTRY * k, DIGEST_ENTRY * k + 16));
        assert((payload + more).subrange(DIGEST_ENTRY * k + 16, DIGEST_ENTRY * k + 24)
            =~= payload.subrange(DIGEST_ENTRY * k + 16, DIGEST_ENTRY * k + 24));
    }
}

/// Digest round trip: the payload of a digest spells that digest.
pub proof fn lemma_digest_round_trip(ids: Seq<ID>, incarnations: Seq<u64>)
    requires
        ids.no_duplicates(),
        ids.len() == incarnations.len(),
    ensures
        digest_parsed(digest_payload(ids, incarnations)) == Ok::<Map<ID, u64>, WireError>(
            assoc(ids, incarnations),
        ),
    decreases ids.len(),
{
    let payload = digest_payload(ids, incarnations);
    lemma_digest_payload_len(ids, incarnations);
    if ids.len() == 0 {
        assert(assoc(ids, incarnations) =~= Map::<ID, u64>::empty());
    } else {
        let head_ids = ids.drop_last();
        let head_incarnations = incarnations.drop_last();
        let head = digest_payload(head_ids, head_incarnations);
        let entry = digest_entry(ids.last(), incarnations.last());
        let k = ids.len() - 1;
        lemma_digest_round_trip(head_ids, head_incarnations);
        lemma_digest_payload_len(head_ids, head_incarnations);
        lemma_digest_read_prefix(head, entry, k as nat);
        lemma_be_len(ids.last().value as nat, 16);
        lemma_pow256_widths();
        lemma_be_round_trip(ids.last().value as nat, 16);
        lemma_be_round_trip(incarnations.last() as nat, 8);
        assert(payload.subrange(DIGEST_ENTRY * k, DIGEST_ENTRY * k + 16) =~= be(
            ids.last().value as nat,
            16,
        ));
        assert(payload.subrange(DIGEST_ENTRY * k + 16, DIGEST_ENTRY * k + 24) =~= be(
            incarnations.last() as nat,
            8,
        ));
        lemma_assoc_push(head_ids, head_incarnations, ids.last(), incarnations.last());
        assert(head_ids.push(ids.last()) =~= ids);
        assert(head_incarnations.push(incarnations.last()) =~= incarnations);
    }
}

/// Writes the payload of a digest.
pub fn encode_digest(digest: &Digest) -> (payload: Vec<u8>)
    ensures
        payload@ == digest_payload(digest.ids(), digest.incarnations()),
{
    let mut payload: Vec<u8> = Vec::new();
    let n = digest.len();
    let mut i: usize = 0;
    while i < n
        invariant
            n == digest.ids().len(),
            n == digest.incarnations().len(),
            i <= n,
            payload@ == digest_payload(
                digest.ids().take(i as int),
                digest.incarnations().take(i as int),
            ),
        decreases n - i,
    {
        let (id, incarnation) = digest.entry_at(i);
        proof {
            let ids = digest.ids().take(i + 1);
            let incarnations = digest.incarnations().take(i + 1);
            assert(ids.drop_last() =~= digest.ids().take(i as int));
            assert(incarnations.drop_last() =~= digest.incarnations().take(i as int));
        }
        put_be(&mut payload, id.value, 16);
        put_be(&mut payload, incarnation as u128, 8);
        i += 1;
    }
    proof {
        assert(digest.ids().take(n as int) =~= digest.ids());
        assert(digest.incarnations().take(n as int) =~= digest.incarnations());
    }
    payload
}

/// Reads a digest from its payload.
pub fn decode_digest(payload: &Vec<u8>) -> (result: Result<Digest, WireError>)
    ensures
        match result {
            Ok(digest) => digest.wf() && digest_parsed(payload@) == Ok::<Map<ID, u64>, WireError>(
                digest@,
            ),
            Err(error) => digest_parsed(payload@) == Err::<Map<ID, u64>, WireError>(error),
        },
{
    if payload.len() % DIGEST_ENTRY != 0 {
        return Err(WireError::MalformedEnvelope);
    }
    let count = payload.len() / DIGEST_ENTRY;
    let mut digest = Digest::new();
    let mut k: usize = 0;
    while k < count
        invariant
            count == payload@.len() / DIGEST_ENTRY as nat,
            payload@.len() % DIGEST_ENTRY as nat == 0,
            k <= count,
            digest.wf(),
            digest@ == digest_read(payload@, k as nat),
        decreases count - k,
    {
        assert(DIGEST_ENTRY * k + DIGEST_ENTRY <= payload.len()) by {}
        let id = get_be(payload, DIGEST_ENTRY * k, 16);
        let incarnation = get_be(payload, DIGEST_ENTRY * k + 16, 8);
        digest.insert(ID { value: id }, incarnation as u64);
        k += 1;
    }
    Ok(digest)
}

/// The byte that stands for a peer state.
pub open spec fn state_byte(state: PeerState) -> u8 {
    match state {
        PeerState::Joining => 0,
        PeerState::Alive => 1,
        PeerState::Suspect => 2,
        PeerState::Dead => 3,
    }
}

/// The peer state that a byte stands for, if any.
pub open spec fn state_of(byte: u8) -> Option<PeerState> {
    if byte == 0 {
        Some(PeerState::Joining)
    } else if byte == 1 {
        Some(PeerState::Alive)
    } else if byte == 2 {
        Some(PeerState::Suspect)
    } else if byte == 3 {
        Some(PeerState::Dead)
    } else {
        None
    }
}

/// One address: the host in sixteen bytes, the port in two.
pub open spec fn address_bytes(address: Address) -> Seq<u8> {
    be(address.host as nat, 16) + be(address.port as nat, 2)
}

/// Addresses one after the other.
pub open spec fn addresses_bytes(addresses: Seq<Address>) -> Seq<u8>
    decreases addresses.len(),
{
    if addresses.len() == 0 {
        Seq::empty()
    } else {
        addresses_bytes(addresses.drop_last()) + address_bytes(addresses.last())
    }
}

/// The address at place `k` of a run of addresses.
pub open spec fn address_at(bytes: Seq<u8>, k: int) -> Address {
    Address {
        host: from_be(bytes.subrange(ADDRESS_LEN * k, ADDRESS_LEN * k + 16)) as u128,
        port: from_be(bytes.subrange(ADDRESS_LEN * k + 16, ADDRESS_LEN * k + 18)) as u16,
    }
}

/// The first `count` addresses of a run.
pub open spec fn addresses_read(bytes: Seq<u8>, count: nat) -> Seq<Address> {
    Seq::new(count, |k: int| address_at(bytes, k))
}

/// The bytes of a record: identifier, incarnation, state, time last seen,
/// the number of addresses in two bytes, and the addresses.
pub open spec fn record_bytes(record: PeerModel) -> Seq<u8> {
    be(record.id.value as nat, 16) + be(record.incarnation as nat, 8) + seq![
        state_byte(record.state),
    ] + be(record.last_seen as nat, 8) + be(record.addresses.len(), 2) + addresses_bytes(
        record.addresses,
    )
}

/// The payload of a sync response: its records one after the other.
pub open spec fn records_payload(records: Seq<PeerModel>) -> Seq<u8>
    decreases records.len(),
{
    if records.len() == 0 {
        Seq::empty()
    } else {
        record_bytes(records[0]) + records_payload(records.drop_first())
    }
}

/// The record at the head of `bytes` and the number of bytes that it
/// takes, if a whole record is there.
pub open spec fn record_parsed(bytes: Seq<u8>) -> Option<(PeerModel, nat)> {
    if bytes.len() < RECORD_FIXED {
        None
    } else {
        match state_of(bytes[24]) {
            None => None,
            Some(state) => {
                let count = from_be(bytes.subrange(33, 35));
                let used = RECORD_FIXED + ADDRESS_LEN * count;
                if bytes.len() < used {
                    None
                } else {
                    Some(
                        (
                            PeerModel {
                                id: ID { value: from_be(bytes.subrange(0, 16)) as u128 },
                                addresses: addresses_read(
                                    bytes.subrange(RECORD_FIXED as int, used as int),
                                    count,
                                ),
                                incarnation: from_be(bytes.subrange(16, 24)) as u64,
                                state,
                                last_seen: from_be(bytes.subrange(25, 33)) as u64,
                            },
                            used as nat,
                        ),
                    )
                }
            },
        }
    }
}

/// The records that a payload spells, if it is made of whole records.
pub open spec fn records_parsed(bytes: Seq<u8>) -> Option<Seq<PeerModel>>
    decreases bytes.len(),
{
    if bytes.len() == 0 {
        Some(Seq::empty())
    } else {
        match record_parsed(bytes) {
            None => None,
            Some((record, used)) => match records_parsed(bytes.skip(used as int)) {
                None => None,
                Some(rest) => Some(seq![record] + rest),
            },
        }
    }
}

/// A run of addresses has eighteen bytes for each, and each is read back
/// from its place.
pub proof fn lemma_addresses_bytes(addresses: Seq<Address>)
    ensures
        addresses_bytes(addresses).len() == ADDRESS_LEN * addresses.len(),
        addresses_read(addresses_bytes(addresses), addresses.len()) == addresses,
    decreases addresses.len(),
{
    let bytes = addresses_bytes(addresses);
    if addresses.len() > 0 {
        let head = addresses.drop_last();
        let last = addresses.last();
        let n = addresses.len() - 1;
        lemma_addresses_bytes(head);
        lemma_be_len(last.host as nat, 16);
        lemma_be_len(last.port as nat, 2);
        lemma_pow256_widths();
        lemma_be_round_trip(last.host as nat, 16);
        lemma_be_round_trip(last.port as nat, 2);
        let head_bytes = addresses_bytes(head);
        assert forall|k: int| 0 <= k < addresses.len() implies address_at(bytes, k)
            == addresses[k] by {
            if k < n {
                assert(bytes.subrange(ADDRESS_LEN * k, ADDRESS_LEN * k + 16)
                    =~= head_bytes.subrange(ADDRESS_LEN * k, ADDRESS_LEN * k + 16));
                assert(bytes.subrange(ADDRESS_LEN * k + 16, ADDRESS_LEN * k + 18)
                    =~= head_bytes.subrange(ADDRESS_LEN * k + 16, ADDRESS_LEN * k + 18));
                assert(addresses_read(head_bytes, head.len())[k] == head[k]);
            } else {
                assert(bytes.subrange(ADDRESS_LEN * k, ADDRESS_LEN * k + 16) =~= be(
                    last.host as nat,
                    16,
                ));
                assert(bytes.subrange(ADDRESS_LEN * k + 16, ADDRESS_LEN * k + 18) =~= be(
                    last.port as nat,
                    2,
                ));
            }
        }
    }
}

/// A record is read back from the head of whatever starts with its bytes.
pub proof fn lemma_record_round_trip(record: PeerModel, more: Seq<u8>)
    requires
        record.addresses.len() <= MAX_ADDRESSES,
    ensures
        record_bytes(record).len() == RECORD_FIXED + ADDRESS_LEN * record.addresses.len(),
        record_parsed(record_bytes(record) + more) == Some(
            (record, record_bytes(record).len()),
        ),
{
    let own = record_bytes(record);
    let bytes = own + more;
    let run = addresses_bytes(record.addresses);
    lemma_addresses_bytes(record.addresses);
    lemma_be_len(record.id.value as nat, 16);
    lemma_be_len(record.incarnation as nat, 8);
    lemma_be_len(record.last_seen as nat, 8);
    lemma_be_len(record.addresses.len(), 2);
    lemma_pow256_widths();
    lemma_be_round_trip(record.id.value as nat, 16);
    lemma_be_round_trip(record.incarnation as nat, 8);
    lemma_be_round_trip(record.last_seen as nat, 8);
    lemma_be_round_trip(record.addresses.len(), 2);
    assert(bytes.subrange(0, 16) =~= be(record.id.value as nat, 16));
    assert(bytes.subrange(16, 24) =~= be(record.incarnation as nat, 8));
    assert(bytes.subrange(25, 33) =~= be(record.last_seen as nat, 8));
    assert(bytes.subrange(33, 35) =~= be(record.addresses.len(), 2));
    assert(bytes.subrange(RECORD_FIXED as int, RECORD_FIXED + ADDRESS_LEN * record.addresses.len())
        =~= run);
}

/// Sync response round trip: the payload of a list of records spells that
/// list.
pub proof fn lemma_records_round_trip(records: Seq<PeerModel>)
    requires
        forall|i: int| 0 <= i < records.len() ==> (#[trigger] records[i]).addresses.len()
            <= MAX_ADDRESSES,
    ensures
        records_parsed(records_payload(records)) == Some(records),
    decreases records.len(),
{
    if records.len() > 0 {
        let rest = records.drop_first();
        let tail = records_payload(rest);
        lemma_records_round_trip(rest);
        lemma_record_round_trip(records[0], tail);
        let bytes = records_payload(records);
        assert(bytes.skip(record_bytes(records[0]).len() as int) =~= tail);
    }
}

fn state_to_byte(state: PeerState) -> (byte: u8)
    ensures
        byte == state_byte(state),
{
    match state {
        PeerState::Joining => 0,
        PeerState::Alive => 1,
        PeerState::Suspect => 2,
        PeerState::Dead => 3,
    }
}

fn state_from_byte(byte: u8) -> (state: Option<PeerState>)
    ensures
        state == state_of(byte),
{
    if byte == 0 {
        Some(PeerState::Joining)
    } else if byte == 1 {
        Some(PeerState::Alive)
    } else if byte == 2 {
        Some(PeerState::Suspect)
    } else if byte == 3 {
        Some(PeerState::Dead)
    } else {
        None
    }
}

fn put_record(out: &mut Vec<u8>, record: &PeerRecord)
    requires
        record.addresses@.len() <= MAX_ADDRESSES,
    ensures
        final(out)@ == old(out)@ + record_bytes(record@),
{
    put_be(out, record.id.value, 16);
    put_be(out, record.incarnation as u128, 8);
    out.push(state_to_byte(record.state));
    put_be(out, record.last_seen as u128, 8);
    put_be(out, record.addresses.len() as u128, 2);
    let ghost fixed = out@;
    let mut k: usize = 0;
    while k < record.addresses.len()
        invariant
            k <= record.addresses@.len(),
            out@ == fixed + addresses_bytes(record.addresses@.take(k as int)),
        decreases record.addresses@.len() - k,
    {
        let address = record.addresses[k];
        proof {
            let upto = record.addresses@.take(k + 1);
            assert(upto.drop_last() =~= record.addresses@.take(k as int));
        }
        put_be(out, address.host, 16);
        put_be(out, address.port as u128, 2);
        k += 1;
    }
    assert(record.addresses@.take(k as int) =~= record.addresses@);
}

/// Whether every record of a list can be written: none has more addresses
/// than the wire format can count.
pub open spec fn writable(records: Seq<PeerModel>) -> bool {
    forall|i: int| 0 <= i < records.len() ==> (#[trigger] records[i]).addresses.len()
        <= MAX_ADDRESSES
}

/// The payload of `records` from place `from` on.
pub proof fn lemma_payload_step(records: Seq<PeerModel>, i: int)
    requires
        0 <= i < records.len(),
    ensures
        records_payload(records.take(i + 1)) == records_payload(records.take(i)) + record_bytes(
            records[i],
        ),
    decreases i,
{
    let upto = records.take(i + 1);
    if i == 0 {
        assert(upto.drop_first() =~= Seq::<PeerModel>::empty());
        assert(records.take(0) =~= Seq::<PeerModel>::empty());
    } else {
        let tail = records.drop_first();
        lemma_payload_step(tail, i - 1);
        assert(upto.drop_first() =~= tail.take(i));
        assert(records.take(i).drop_first() =~= tail.take(i - 1));
    }
}

/// Writes the payload of a sync response. A record with more addresses
/// than the format can count cannot be written.
pub fn encode_records(records: &Vec<PeerRecord>) -> (result: Result<Vec<u8>, WireError>)
    ensures
        match result {
            Ok(payload) => writable(models(records@)) && payload@ == records_payload(
                models(records@),
            ),
            Err(error) => !writable(models(records@)) && error == WireError::FrameTooLarge,
        },
{
    let ghost all = models(records@);
    let mut payload: Vec<u8> = Vec::new();
    let mut i: usize = 0;
    while i < records.len()
        invariant
            all == models(records@),
            i <= records@.len(),
            writable(all.take(i as int)),
            payload@ == records_payload(all.take(i as int)),
        decreases records@.len() - i,
    {
        if records[i].addresses.len() > MAX_ADDRESSES {
            assert(all[i as int].addresses.len() > MAX_ADDRESSES);
            return Err(WireError::FrameTooLarge);
        }
        proof {
            lemma_payload_step(all, i as int);
        }
        put_record(&mut payload, &records[i]);
        i += 1;
    }
    assert(all.take(i as int) =~= all);
    Ok(payload)
}

fn get_record(bytes: &Vec<u8>, at: usize) -> (result: Option<(PeerRecord, usize)>)
    requires
        at <= bytes.len(),
    ensures
        match result {
            Some((record, next)) => at < next <= bytes.len() && record_parsed(
                bytes@.skip(at as int),
            ) == Some((record@, (next - at) as nat)),
            None => record_parsed(bytes@.skip(at as int)) is None,
        },
{
    let ghost here = bytes@.skip(at as int);
    let left = bytes.len() - at;
    if left < RECORD_FIXED {
        return None;
    }
    proof {
        assert(here.subrange(0, 16) =~= bytes@.subrange(at as int, at + 16));
        assert(here.subrange(16, 24) =~= bytes@.subrange(at + 16, at + 24));
        assert(here.subrange(25, 33) =~= bytes@.subrange(at + 25, at + 33));
        assert(here.subrange(33, 35) =~= bytes@.subrange(at + 33, at + 35));
        lemma_from_be_bound(here.subrange(33, 35));
        lemma_pow256_widths();
    }
    let state = match state_from_byte(bytes[at + 24]) {
        Some(state) => state,
        None => {
            return None;
        },
    };
    let count = get_be(bytes, at + 33, 2) as usize;
    if (left - RECORD_FIXED) / ADDRESS_LEN < count {
        return None;
    }
    let id = get_be(bytes, at, 16);
    let incarnation = get_be(bytes, at + 16, 8) as u64;
    let last_seen = get_be(bytes, at + 25, 8) as u64;
    let start = at + RECORD_FIXED;
    let ghost run = here.subrange(RECORD_FIXED as int, RECORD_FIXED + ADDRESS_LEN * count);
    let mut addresses: Vec<Address> = Vec::new();
    let mut k: usize = 0;
    while k < count
        invariant
            k <= count,
            count <= MAX_ADDRESSES,
            start == at + RECORD_FIXED,
            start + ADDRESS_LEN * count <= bytes.len(),
            here == bytes@.skip(at as int),
            run == here.subrange(RECORD_FIXED as int, RECORD_FIXED + ADDRESS_LEN * count),
            addresses@ == addresses_read(run, k as nat),
        decreases count - k,
    {
        let host = get_be(bytes, start + ADDRESS_LEN * k, 16);
        let port = get_be(bytes, start + ADDRESS_LEN * k + 16, 2);
        proof {
            assert(run.subrange(ADDRESS_LEN * k, ADDRESS_LEN * k + 16) =~= bytes@.subrange(
                start + ADDRESS_LEN * k,
                start + ADDRESS_LEN * k + 16,
            ));
            assert(run.subrange(ADDRESS_LEN * k + 16, ADDRESS_LEN * k + 18) =~= bytes@.subrange(
                start + ADDRESS_LEN * k + 16,
                start + ADDRESS_LEN * k + 18,
            ));
        }
        addresses.push(Address { host, port: port as u16 });
        k += 1;
    }
    Some(
        (
            PeerRecord { id: ID { value: id }, addresses, incarnation, state, last_seen },
            start + ADDRESS_LEN * count,
        ),
    )
}

/// Reads the records of a sync response from its payload.
pub fn decode_records(payload: &Vec<u8>) -> (result: Result<Vec<PeerRecord>, WireError>)
    ensures
        match result {
            Ok(records) => records_parsed(payload@) == Some(models(records@)),
            Err(error) => records_parsed(payload@) is None && error
                == WireError::MalformedEnvelope,
        },
{
    let mut records: Vec<PeerRecord> = Vec::new();
    let mut at: usize = 0;
    assert(payload@.skip(0) =~= payload@);
    while at < payload.len()
        invariant
            at <= payload.len(),
            records_parsed(payload@) == match records_parsed(payload@.skip(at as int)) {
                Some(rest) => Some(models(records@) + rest),
                None => None,
            },
        decreases payload.len() - at,
    {
        let ghost here = payload@.skip(at as int);
        match get_record(payload, at) {
            None => {
                return Err(WireError::MalformedEnvelope);
            },
            Some((record, next)) => {
                proof {
                    assert(here.skip(next - at) =~= payload@.skip(next as int));
                }
                records.push(record);
                at = next;
            },
        }
    }
    Ok(records)
}

/// The payload of an indirect probe request: the identifier of the peer
/// to probe.
pub fn encode_target(target: ID) -> (payload: Vec<u8>)
    ensures
        payload@ == be(target.value as nat, 16),
{
    let mut payload: Vec<u8> = Vec::new();
    put_be(&mut payload, target.value, 16);
    payload
}

/// The peer to probe that a payload names: exactly sixteen bytes.
pub fn decode_target(payload: &Vec<u8>) -> (result: Result<ID, WireError>)
    ensures
        payload@.len() == 16 ==> result == Ok::<ID, WireError>(
            ID { value: from_be(payload@) as u128 },
        ),
        payload@.len() != 16 ==> result == Err::<ID, WireError>(WireError::MalformedEnvelope),
{
    if payload.len() != 16 {
        return Err(WireError::MalformedEnvelope);
    }
    let value = get_be(payload, 0, 16);
    assert(payload@.subrange(0, 16) =~= payload@);
    Ok(ID { value })
}

/// The target of an indirect probe request comes back from its payload.
pub proof fn lemma_target_round_trip(target: ID)
    ensures
        be(target.value as nat, 16).len() == 16,
        from_be(be(target.value as nat, 16)) as u128 == target.value,
{
    lemma_be_len(target.value as nat, 16);
    lemma_pow256_widths();
    lemma_be_round_trip(target.value as nat, 16);
}

/// The longest key or signature that a certificate can carry on the wire.
pub const MAX_CERT_FIELD: usize = 65535;

/// The bytes of a certificate as it is presented at the handshake: what its
/// signature covers, then the length of the signature in two bytes and the
/// signature.
pub open spec fn certificate_bytes(cert: CertificateModel) -> Seq<u8> {
    signing_bytes(cert) + be(cert.signature.len(), 2) + cert.signature
}

/// Where the key length stands in the bytes of a certificate with the given
/// issuer tag.
pub open spec fn key_offset(tag: u8) -> int {
    if tag == 1 {
        49
    } else {
        33
    }
}

/// The certificate that bytes spell, if they spell one and nothing more.
pub open spec fn certificate_parsed(bytes: Seq<u8>) -> Option<CertificateModel> {
    if bytes.len() < 33 || bytes[32] > 1 {
        None
    } else {
        let off = key_offset(bytes[32]);
        if bytes.len() < off + 4 {
            None
        } else {
            let key_len = from_be(bytes.subrange(off, off + 4));
            let key_end = off + 4 + key_len;
            if bytes.len() < key_end + 2 {
                None
            } else {
                let signed = from_be(bytes.subrange(key_end, key_end + 2));
                if bytes.len() != key_end + 2 + signed {
                    None
                } else {
                    Some(
                        CertificateModel {
                            id: ID { value: from_be(bytes.subrange(0, 16)) as u128 },
                            public_key: bytes.subrange(off + 4, key_end),
                            not_before: from_be(bytes.subrange(16, 24)) as u64,
                            not_after: from_be(bytes.subrange(24, 32)) as u64,
                            issuer: if bytes[32] == 1 {
                                Issuer::Chain(
                                    ID { value: from_be(bytes.subrange(33, 49)) as u128 },
                                )
                            } else {
                                Issuer::SelfIssued
                            },
                            signature: bytes.subrange(key_end + 2, bytes.len() as int),
                        },
                    )
                }
            }
        }
    }
}

/// Certificate round trip: the bytes of a certificate spell that
/// certificate.
pub proof fn lemma_certificate_round_trip(cert: CertificateModel)
    requires
        cert.public_key.len() <= MAX_CERT_FIELD,
        cert.signature.len() <= MAX_CERT_FIELD,
    ensures
        certificate_parsed(certificate_bytes(cert)) == Some(cert),
{
    let bytes = certificate_bytes(cert);
    let tag: u8 = match cert.issuer {
        Issuer::SelfIssued => 0,
        Issuer::Chain(_) => 1,
    };
    let off = key_offset(tag);
    lemma_be_len(cert.id.value as nat, 16);
    lemma_be_len(cert.not_before as nat, 8);
    lemma_be_len(cert.not_after as nat, 8);
    lemma_be_len(cert.public_key.len(), 4);
    lemma_be_len(cert.signature.len(), 2);
    lemma_pow256_widths();
    lemma_be_round_trip(cert.id.value as nat, 16);
    lemma_be_round_trip(cert.not_before as nat, 8);
    lemma_be_round_trip(cert.not_after as nat, 8);
    lemma_be_round_trip(cert.public_key.len(), 4);
    lemma_be_round_trip(cert.signature.len(), 2);
    match cert.issuer {
        Issuer::SelfIssued => {},
        Issuer::Chain(issuer) => {
            lemma_be_len(issuer.value as nat, 16);
            lemma_be_round_trip(issuer.value as nat, 16);
            assert(bytes.subrange(33, 49) =~= be(issuer.value as nat, 16));
        },
    }
    assert(bytes.subrange(0, 16) =~= be(cert.id.value as nat, 16));
    assert(bytes.subrange(16, 24) =~= be(cert.not_before as nat, 8));
    assert(bytes.subrange(24, 32) =~= be(cert.not_after as nat, 8));
    assert(bytes.subrange(off, off + 4) =~= be(cert.public_key.len(), 4));
    let key_end = off + 4 + cert.public_key.len();
    assert(bytes.subrange(off + 4, key_end) =~= cert.public_key);
    assert(bytes.subrange(key_end, key_end + 2) =~= be(cert.signature.len(), 2));
    assert(bytes.subrange(key_end + 2, bytes.len() as int) =~= cert.signature);
}

/// The longest certificate that can be written: a chained one whose key and
/// signature are both as long as they can be.
pub const MAX_CERTIFICATE: usize = 131125;

/// The length of the prefix that announces a certificate at the handshake.
pub const CERTIFICATE_PREFIX: usize = 4;

/// The length of the certificate that a prefix announces.
pub open spec fn certificate_announced(prefix: Seq<u8>) -> Result<nat, WireError> {
    if prefix.len() != CERTIFICATE_PREFIX {
        Err(WireError::MalformedEnvelope)
    } else if from_be(prefix) > MAX_CERTIFICATE {
        Err(WireError::FrameTooLarge)
    } else {
        Ok(from_be(prefix))
    }
}

/// A certificate as it is sent at the handshake: the length of its bytes in
/// four bytes, then its bytes.
pub open spec fn certificate_framed(cert: CertificateModel) -> Seq<u8> {
    be(certificate_bytes(cert).len(), 4) + certificate_bytes(cert)
}

/// What a sender announces is read back, and is within the bound, for every
/// certificate that can be written.
pub proof fn lemma_certificate_prefix(cert: CertificateModel)
    requires
        cert.public_key.len() <= MAX_CERT_FIELD,
        cert.signature.len() <= MAX_CERT_FIELD,
    ensures
        certificate_announced(certificate_framed(cert).take(CERTIFICATE_PREFIX as int)) == Ok::<
            nat,
            WireError,
        >(certificate_bytes(cert).len()),
        certificate_framed(cert).skip(CERTIFICATE_PREFIX as int) == certificate_bytes(cert),
{
    let bytes = certificate_bytes(cert);
    lemma_be_len(cert.id.value as nat, 16);
    lemma_be_len(cert.not_before as nat, 8);
    lemma_be_len(cert.not_after as nat, 8);
    lemma_be_len(cert.public_key.len(), 4);
    lemma_be_len(cert.signature.len(), 2);
    match cert.issuer {
        Issuer::SelfIssued => {},
        Issuer::Chain(issuer) => {
            lemma_be_len(issuer.value as nat, 16);
        },
    }
    assert(bytes.len() <= MAX_CERTIFICATE);
    lemma_be_len(bytes.len(), 4);
    lemma_pow256_widths();
    lemma_be_round_trip(bytes.len(), 4);
    assert(certificate_framed(cert).take(CERTIFICATE_PREFIX as int) =~= be(bytes.len(), 4));
    assert(certificate_framed(cert).skip(CERTIFICATE_PREFIX as int) =~= bytes);
}

/// Writes a certificate as it is sent at the handshake, its length before
/// it.
pub fn frame_certificate(cert: &Certificate) -> (result: Result<Vec<u8>, WireError>)
    ensures
        (cert.public_key@.len() > MAX_CERT_FIELD || cert.signature@.len() > MAX_CERT_FIELD)
            ==> result == Err::<Vec<u8>, WireError>(WireError::FrameTooLarge),
        (cert.public_key@.len() <= MAX_CERT_FIELD && cert.signature@.len() <= MAX_CERT_FIELD)
            ==> result is Ok && result->Ok_0@ == certificate_framed(cert@),
{
    match encode_certificate(cert) {
        Ok(bytes) => {
            let mut framed: Vec<u8> = Vec::new();
            put_be(&mut framed, bytes.len() as u128, 4);
            put_bytes(&mut framed, &bytes);
            Ok(framed)
        },
        Err(error) => Err(error),
    }
}

/// The length of the certificate that follows a prefix, so that a reader
/// knows how many bytes to wait for. A prefix that announces more than a
/// certificate can hold is refused before anything is read.
pub fn certificate_length(prefix: &Vec<u8>) -> (result: Result<usize, WireError>)
    ensures
        match result {
            Ok(length) => certificate_announced(prefix@) == Ok::<nat, WireError>(length as nat),
            Err(error) => certificate_announced(prefix@) == Err::<nat, WireError>(error),
        },
{
    if prefix.len() != CERTIFICATE_PREFIX {
        return Err(WireError::MalformedEnvelope);
    }
    let length = get_be(prefix, 0, 4);
    assert(prefix@.subrange(0, 4) =~= prefix@);
    if length > MAX_CERTIFICATE as u128 {
        return Err(WireError::FrameTooLarge);
    }
    Ok(length as usize)
}

/// Writes a certificate for the handshake. A certificate whose key or
/// signature is longer than the format can count cannot be written.
pub fn encode_certificate(cert: &Certificate) -> (result: Result<Vec<u8>, WireError>)
    ensures
        (cert.public_key@.len() > MAX_CERT_FIELD || cert.signature@.len() > MAX_CERT_FIELD)
            ==> result == Err::<Vec<u8>, WireError>(WireError::FrameTooLarge),
        (cert.public_key@.len() <= MAX_CERT_FIELD && cert.signature@.len() <= MAX_CERT_FIELD)
            ==> result is Ok && result->Ok_0@ == certificate_bytes(cert@),
{
    if cert.public_key.len() > MAX_CERT_FIELD || cert.signature.len() > MAX_CERT_FIELD {
        return Err(WireError::FrameTooLarge);
    }
    let mut bytes = cert.signing_input();
    put_be(&mut bytes, cert.signature.len() as u128, 2);
    put_bytes(&mut bytes, &cert.signature);
    Ok(bytes)
}

/// Reads the certificate that a peer presented.
pub fn decode_certificate(bytes: &Vec<u8>) -> (result: Result<Certificate, WireError>)
    ensures
        match result {
            Ok(cert) => certificate_parsed(bytes@) == Some(cert@),
            Err(error) => certificate_parsed(bytes@) is None && error
                == WireError::MalformedEnvelope,
        },
{
    let n = bytes.len();
    if n < 33 || bytes[32] > 1 {
        return Err(WireError::MalformedEnvelope);
    }
    let tag = bytes[32];
    let off: usize = if tag == 1 {
        49
    } else {
        33
    };
    if n < off + 4 {
        return Err(WireError::MalformedEnvelope);
    }
    let key_len = get_be(bytes, off, 4);
    if key_len > (n - off - 4) as u128 {
        return Err(WireError::MalformedEnvelope);
    }
    let key_end = off + 4 + key_len as usize;
    if n - key_end < 2 {
        return Err(WireError::MalformedEnvelope);
    }
    let signed = get_be(bytes, key_end, 2);
    if signed != (n - key_end - 2) as u128 {
        return Err(WireError::MalformedEnvelope);
    }
    let id = get_be(bytes, 0, 16);
    let not_before = get_be(bytes, 16, 8) as u64;
    let not_after = get_be(bytes, 24, 8) as u64;
    let issuer = if tag == 1 {
        Issuer::Chain(ID { value: get_be(bytes, 33, 16) })
    } else {
        Issuer::SelfIssued
    };
    let public_key = slice_bytes(bytes, off + 4, key_end);
    let signature = slice_bytes(bytes, key_end + 2, n);
    Ok(Certificate { id: ID { value: id }, public_key, not_before, not_after, issuer, signature })
}

} // verus!
