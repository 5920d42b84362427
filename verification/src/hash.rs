//! The 64-bit FNV-1a hash and the length-delimited encoding that it is fed with.
use vstd::prelude::*;

verus! {

/// The hash of no bytes.
pub const FNV_OFFSET_BASIS: u64 = 0xcbf2_9ce4_8422_2325;

/// The multiplier.
pub const FNV_PRIME: u64 = 0x0000_0100_0000_01b3;

/// The hash of a sequence of bytes: for each byte, exclusive or, then multiply modulo 2^64.
pub open spec fn fnv(bytes: Seq<u8>) -> u64
    decreases bytes.len(),
{
    if bytes.len() == 0 {
        FNV_OFFSET_BASIS
    } else {
        let mixed = fnv(bytes.drop_last()) ^ (bytes.last() as u64);
        ((mixed * FNV_PRIME) % 0x1_0000_0000_0000_0000) as u64
    }
}

/// The FNV-1a hash of a sequence of bytes.
pub fn fnv1a64(bytes: &[u8]) -> (h: u64)
    ensures
        h == fnv(bytes@),
{
    let mut hash: u64 = FNV_OFFSET_BASIS;
    let mut i: usize = 0;
    assert(bytes@.take(0) =~= Seq::<u8>::empty());
    while i < bytes.len()
        invariant
            0 <= i <= bytes.len(),
            hash == fnv(bytes@.take(i as int)),
        decreases bytes.len() - i,
    {
        assert(bytes@.take(i + 1).drop_last() =~= bytes@.take(i as int));
        assert(bytes@.take(i + 1).last() == bytes@[i as int]);
        let mixed: u64 = hash ^ (bytes[i] as u64);
        hash = mixed.wrapping_mul(FNV_PRIME);
        i = i + 1;
    }
    assert(bytes@.take(i as int) =~= bytes@);
    hash
}

/// The `k` low bytes of a number, the lowest first.
pub open spec fn le_bytes(n: nat, k: nat) -> Seq<u8>
    decreases k,
{
    if k == 0 {
        Seq::empty()
    } else {
        seq![(n % 256) as u8] + le_bytes(n / 256, (k - 1) as nat)
    }
}

/// Appends the eight bytes of a number, the lowest first.
pub fn push_le(buf: &mut Vec<u8>, n: u64)
    ensures
        final(buf)@ == old(buf)@ + le_bytes(n as nat, 8),
{
    let ghost start = buf@;
    let mut rest: u64 = n;
    let mut k: usize = 0;
    assert(start + le_bytes(n as nat, 8) =~= buf@ + le_bytes(rest as nat, 8));
    while k < 8
        invariant
            0 <= k <= 8,
            start + le_bytes(n as nat, 8) == buf@ + le_bytes(rest as nat, (8 - k) as nat),
        decreases 8 - k,
    {
        let ghost before = buf@;
        buf.push((rest % 256) as u8);
        assert(before + le_bytes(rest as nat, (8 - k) as nat) =~= buf@ + le_bytes(
            (rest / 256) as nat,
            (8 - k - 1) as nat,
        ));
        rest = rest / 256;
        k = k + 1;
    }
    assert(buf@ + le_bytes(rest as nat, 0) =~= buf@);
}

/// Fields one after the other, each preceded by its length in eight bytes.
pub open spec fn encoded(fields: Seq<Seq<u8>>) -> Seq<u8>
    decreases fields.len(),
{
    if fields.len() == 0 {
        Seq::empty()
    } else {
        encoded(fields.drop_last()) + le_bytes(fields.last().len(), 8) + fields.last()
    }
}

/// The contents of a list of byte strings.
pub open spec fn byte_fields(fields: Seq<Vec<u8>>) -> Seq<Seq<u8>> {
    Seq::new(fields.len(), |i: int| fields[i]@)
}

/// Encodes fields, each preceded by its length in eight bytes.
pub fn encode_fields(fields: &Vec<Vec<u8>>) -> (buf: Vec<u8>)
    ensures
        buf@ == encoded(byte_fields(fields@)),
{
    let mut buf: Vec<u8> = Vec::new();
    let mut i: usize = 0;
    let ghost all = byte_fields(fields@);
    assert(all.take(0) =~= Seq::<Seq<u8>>::empty());
    while i < fields.len()
        invariant
            0 <= i <= fields.len(),
            all == byte_fields(fields@),
            buf@ == encoded(all.take(i as int)),
        decreases fields.len() - i,
    {
        assert(all.take(i + 1).drop_last() =~= all.take(i as int));
        assert(all.take(i + 1).last() == fields@[i as int]@);
        push_le(&mut buf, fields[i].len() as u64);
        push_bytes(&mut buf, &fields[i]);
        i = i + 1;
    }
    assert(all.take(i as int) =~= all);
    buf
}

/// Appends bytes.
pub fn push_bytes(buf: &mut Vec<u8>, bytes: &Vec<u8>)
    ensures
        final(buf)@ == old(buf)@ + bytes@,
{
    let ghost start = buf@;
    let mut i: usize = 0;
    assert(start + bytes@.take(0) =~= buf@);
    while i < bytes.len()
        invariant
            0 <= i <= bytes.len(),
            buf@ == start + bytes@.take(i as int),
        decreases bytes.len() - i,
    {
        buf.push(bytes[i]);
        assert(buf@ =~= start + bytes@.take(i + 1));
        i = i + 1;
    }
    assert(bytes@.take(i as int) =~= bytes@);
}

/// The number that bytes denote, the lowest first.
pub open spec fn le_value(s: Seq<u8>) -> nat
    decreases s.len(),
{
    if s.len() == 0 {
        0
    } else {
        s[0] as nat + 256 * le_value(s.skip(1))
    }
}

/// 256 to the power of `k`.
pub open spec fn pow256(k: nat) -> nat
    decreases k,
{
    if k == 0 {
        1
    } else {
        256 * pow256((k - 1) as nat)
    }
}

/// Eight bytes hold exactly the numbers of 64 bits.
pub proof fn lemma_pow256_8()
    ensures
        pow256(8) == 0x1_0000_0000_0000_0000,
{
    reveal_with_fuel(pow256, 9);
}

/// The low bytes of a number that fits denote the number.
pub proof fn lemma_le(n: nat, k: nat)
    requires
        n < pow256(k),
    ensures
        le_bytes(n, k).len() == k,
        le_value(le_bytes(n, k)) == n,
    decreases k,
{
    if k > 0 {
        assert(n / 256 < pow256((k - 1) as nat)) by (nonlinear_arith)
            requires
                n < 256 * pow256((k - 1) as nat),
        ;
        lemma_le(n / 256, (k - 1) as nat);
        let b = le_bytes(n, k);
        assert(b.skip(1) =~= le_bytes(n / 256, (k - 1) as nat));
    }
}

/// The encoding from the front: the first field, then the others.
proof fn lemma_encoded_front(fields: Seq<Seq<u8>>)
    requires
        fields.len() > 0,
    ensures
        encoded(fields) == le_bytes(fields[0].len(), 8) + fields[0] + encoded(fields.skip(1)),
    decreases fields.len(),
{
    if fields.len() == 1 {
        assert(fields.drop_last() =~= Seq::<Seq<u8>>::empty());
        assert(fields.skip(1) =~= Seq::<Seq<u8>>::empty());
        assert(encoded(fields) =~= le_bytes(fields[0].len(), 8) + fields[0] + encoded(
            fields.skip(1),
        ));
    } else {
        lemma_encoded_front(fields.drop_last());
        assert(fields.drop_last()[0] == fields[0]);
        assert(fields.drop_last().skip(1) =~= fields.skip(1).drop_last());
        assert(fields.skip(1).last() == fields.last());
        assert(encoded(fields) =~= le_bytes(fields[0].len(), 8) + fields[0] + encoded(
            fields.skip(1),
        ));
    }
}

/// Different lists of fields have different encodings, however many fields they have: no byte can
/// move from one field to its neighbour unnoticed.
pub proof fn encoding_is_injective(a: Seq<Seq<u8>>, b: Seq<Seq<u8>>)
    requires
        forall|i: int| 0 <= i < a.len() ==> (#[trigger] a[i]).len() < pow256(8),
        forall|i: int| 0 <= i < b.len() ==> (#[trigger] b[i]).len() < pow256(8),
        encoded(a) == encoded(b),
    ensures
        a == b,
    decreases a.len(),
{
    if a.len() > 0 {
        lemma_encoded_front(a);
        assert(a[0].len() < pow256(8));
        lemma_le(a[0].len(), 8);
        assert(encoded(a).len() >= 8);
    }
    if b.len() > 0 {
        lemma_encoded_front(b);
        assert(b[0].len() < pow256(8));
        lemma_le(b[0].len(), 8);
        assert(encoded(b).len() >= 8);
    }
    if a.len() == 0 || b.len() == 0 {
        assert(a =~= b);
    } else {
        let s = encoded(a);
        assert(s.take(8) =~= le_bytes(a[0].len(), 8));
        assert(encoded(b).take(8) =~= le_bytes(b[0].len(), 8));
        assert(a[0].len() == b[0].len());
        let n = a[0].len() as int;
        assert(s.subrange(8, 8 + n) =~= a[0]);
        assert(encoded(b).subrange(8, 8 + n) =~= b[0]);
        assert(s.skip(8 + n) =~= encoded(a.skip(1)));
        assert(encoded(b).skip(8 + n) =~= encoded(b.skip(1)));
        assert forall|i: int| 0 <= i < a.skip(1).len() implies (#[trigger] a.skip(1)[i]).len()
            < pow256(8) by {
            assert(a.skip(1)[i] == a[i + 1]);
        }
        assert forall|i: int| 0 <= i < b.skip(1).len() implies (#[trigger] b.skip(1)[i]).len()
            < pow256(8) by {
            assert(b.skip(1)[i] == b[i + 1]);
        }
        encoding_is_injective(a.skip(1), b.skip(1));
        assert(a =~= seq![a[0]] + a.skip(1));
        assert(b =~= seq![b[0]] + b.skip(1));
    }
}

} // verus!
