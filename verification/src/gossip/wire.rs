//! Big-endian integers on the wire, and the errors of the wire protocol.

use vstd::prelude::*;

verus! {

/// A violation of the wire protocol. The connection on which it occurs is
/// closed; the peer is not thereby held to be dead.
#[derive(Clone, Copy, Debug, PartialEq, Eq, Structural)]
pub enum WireError {
    /// A frame or payload is larger than the protocol allows.
    FrameTooLarge,
    /// A compressed body claims to expand beyond what its size can justify.
    CompressionBombRejected,
    /// The bytes do not spell what the protocol expects at that place.
    MalformedEnvelope,
}

/// 256 to the power `k`.
pub open spec fn pow256(k: nat) -> nat
    decreases k,
{
    if k == 0 {
        1
    } else {
        256 * pow256((k - 1) as nat)
    }
}

/// The `width` low-order bytes of `value`, most significant first.
pub open spec fn be(value: nat, width: nat) -> Seq<u8>
    decreases width,
{
    if width == 0 {
        Seq::empty()
    } else {
        be(value / 256, (width - 1) as nat).push((value % 256) as u8)
    }
}

/// The number that `bytes` spell, most significant first.
pub open spec fn from_be(bytes: Seq<u8>) -> nat
    decreases bytes.len(),
{
    if bytes.len() == 0 {
        0
    } else {
        from_be(bytes.drop_last()) * 256 + bytes.last() as nat
    }
}

/// An encoding has the width asked for.
pub proof fn lemma_be_len(value: nat, width: nat)
    ensures
        be(value, width).len() == width,
    decreases width,
{
    if width > 0 {
        lemma_be_len(value / 256, (width - 1) as nat);
    }
}

/// `k` bytes spell a number below 256 to the `k`.
pub proof fn lemma_from_be_bound(bytes: Seq<u8>)
    ensures
        from_be(bytes) < pow256(bytes.len()),
    decreases bytes.len(),
{
    if bytes.len() > 0 {
        lemma_from_be_bound(bytes.drop_last());
    }
}

/// Decoding an encoding gives the number back, if the width was enough.
pub proof fn lemma_be_round_trip(value: nat, width: nat)
    requires
        value < pow256(width),
    ensures
        from_be(be(value, width)) == value,
    decreases width,
{
    if width > 0 {
        let head = be(value / 256, (width - 1) as nat);
        lemma_be_round_trip(value / 256, (width - 1) as nat);
        assert(be(value, width).drop_last() =~= head);
    }
}

/// Encoding what bytes spell, at their own width, gives the bytes back.
pub proof fn lemma_from_be_round_trip(bytes: Seq<u8>)
    ensures
        be(from_be(bytes), bytes.len()) == bytes,
    decreases bytes.len(),
{
    if bytes.len() > 0 {
        lemma_from_be_round_trip(bytes.drop_last());
    }
}

/// The powers of 256 at the widths of the machine integers.
pub proof fn lemma_pow256_widths()
    ensures
        pow256(1) == 0x100,
        pow256(2) == 0x1_0000,
        pow256(4) == 0x1_0000_0000,
        pow256(8) == 0x1_0000_0000_0000_0000,
        pow256(15) == 0x1_0000_0000_0000_0000_0000_0000_0000_00,
        pow256(16) == 0x1_0000_0000_0000_0000_0000_0000_0000_0000,
{
    reveal_with_fuel(pow256, 17);
}

/// The powers of 256 grow with the exponent.
pub proof fn lemma_pow256_monotone(j: nat, k: nat)
    requires
        j <= k,
    ensures
        pow256(j) <= pow256(k),
        pow256(j) >= 1,
    decreases k,
{
    if j < k {
        lemma_pow256_monotone(j, (k - 1) as nat);
    } else if k > 0 {
        lemma_pow256_monotone((j - 1) as nat, (k - 1) as nat);
    }
}

/// Appends the `width` low-order bytes of `value`, most significant first.
pub fn put_be(out: &mut Vec<u8>, value: u128, width: usize)
    ensures
        final(out)@ == old(out)@ + be(value as nat, width as nat),
    decreases width,
{
    if width > 0 {
        put_be(out, value / 256, width - 1);
        out.push((value % 256) as u8);
    }
}

/// Reads the number that the `width` bytes from position `at` spell.
pub fn get_be(input: &Vec<u8>, at: usize, width: usize) -> (value: u128)
    requires
        width <= 16,
        at + width <= input.len(),
    ensures
        value == from_be(input@.subrange(at as int, at + width)),
    decreases width,
{
    if width == 0 {
        0
    } else {
        let head = get_be(input, at, width - 1);
        let ghost bytes = input@.subrange(at as int, at + width);
        proof {
            assert(bytes.drop_last() =~= input@.subrange(at as int, at + width - 1));
            lemma_from_be_bound(bytes.drop_last());
            lemma_pow256_monotone((width - 1) as nat, 15);
            lemma_pow256_widths();
        }
        head * 256 + input[at + width - 1] as u128
    }
}

/// A copy of the bytes.
pub fn copy_bytes(bytes: &Vec<u8>) -> (copy: Vec<u8>)
    ensures
        copy@ == bytes@,
{
    let mut copy: Vec<u8> = Vec::new();
    let mut i: usize = 0;
    while i < bytes.len()
        invariant
            i <= bytes@.len(),
            copy@ == bytes@.take(i as int),
        decreases bytes@.len() - i,
    {
        copy.push(bytes[i]);
        i += 1;
    }
    copy
}

/// Appends all of `bytes`.
pub fn put_bytes(out: &mut Vec<u8>, bytes: &Vec<u8>)
    ensures
        final(out)@ == old(out)@ + bytes@,
{
    let mut i: usize = 0;
    while i < bytes.len()
        invariant
            i <= bytes@.len(),
            out@ == old(out)@ + bytes@.take(i as int),
        decreases bytes@.len() - i,
    {
        out.push(bytes[i]);
        i += 1;
    }
}

/// Whether two byte strings are the same.
pub fn same_bytes(a: &Vec<u8>, b: &Vec<u8>) -> (same: bool)
    ensures
        same == (a@ == b@),
{
    if a.len() != b.len() {
        return false;
    }
    let mut i: usize = 0;
    while i < a.len()
        invariant
            a@.len() == b@.len(),
            i <= a@.len(),
            a@.take(i as int) == b@.take(i as int),
        decreases a@.len() - i,
    {
        if a[i] != b[i] {
            return false;
        }
        i += 1;
    }
    assert(a@.take(i as int) =~= a@);
    assert(b@.take(i as int) =~= b@);
    true
}

/// The bytes from position `from` up to position `to`.
pub fn slice_bytes(bytes: &Vec<u8>, from: usize, to: usize) -> (part: Vec<u8>)
    requires
        from <= to <= bytes.len(),
    ensures
        part@ == bytes@.subrange(from as int, to as int),
{
    let mut part: Vec<u8> = Vec::new();
    let mut i: usize = from;
    while i < to
        invariant
            from <= i <= to <= bytes.len(),
            part@ == bytes@.subrange(from as int, i as int),
        decreases to - i,
    {
        part.push(bytes[i]);
        i += 1;
    }
    part
}

} // verus!
