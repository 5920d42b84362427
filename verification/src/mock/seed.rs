//! Seeded draws: the stream for a completion follows from the seed, who asks and the number of the
//! call.
use crate::hash::{byte_fields, encode_fields, encoded, fnv, fnv1a64, le_bytes, push_le};
use rand::{RngExt, SeedableRng};
use rand_chacha::ChaCha8Rng;
use vstd::prelude::*;

verus! {

// ---------------------------------------------------------------------------
// Outside calls that are believed.
// ---------------------------------------------------------------------------

/// What `random_range` draws from an inclusive range of 64-bit numbers, and the position after it,
/// in the stream of `ChaCha8Rng` for a seed, at a position.
pub uninterp spec fn range_draw(key: u64, position: u128, low: u64, high: u64) -> (u64, u128);

/// What `random_range` draws from the indices below a length, and the position after it.
pub uninterp spec fn index_draw(key: u64, position: u128, len: usize) -> (usize, u128);

/// What `random_range` draws from the sizes from one up to a bound, and the position after it.
pub uninterp spec fn size_draw(key: u64, position: u128, bound: usize) -> (usize, u128);

/// What `random_ratio` draws, and the position after it.
pub uninterp spec fn ratio_draw(key: u64, position: u128, part: u32, whole: u32) -> (bool, u128);

/// What `random` draws from all 64-bit numbers, and the position after it.
pub uninterp spec fn word_draw(key: u64, position: u128) -> (u64, u128);

/// `RngExt::random_range` on `ChaCha8Rng::seed_from_u64`, set to a position by `set_word_pos`, with
/// the position after the draw from `get_word_pos`. The generator is portable and its state is the
/// seed and the position, so both results depend on the arguments alone; the drawn number lies in
/// the range. An empty range would panic.
#[verifier::external_body]
fn range_at(key: u64, position: u128, low: u64, high: u64) -> (r: (u64, u128))
    requires
        low <= high,
    ensures
        r == range_draw(key, position, low, high),
        low <= r.0 <= high,
{
    let mut rng = ChaCha8Rng::seed_from_u64(key);
    rng.set_word_pos(position);
    let v = rng.random_range(low..=high);
    (v, rng.get_word_pos())
}

/// `RngExt::random_range` over the indices `0..len`, at a position of the same stream. The drawn
/// index is below the length. No length would panic.
#[verifier::external_body]
fn index_at(key: u64, position: u128, len: usize) -> (r: (usize, u128))
    requires
        len > 0,
    ensures
        r == index_draw(key, position, len),
        r.0 < len,
{
    let mut rng = ChaCha8Rng::seed_from_u64(key);
    rng.set_word_pos(position);
    let v = rng.random_range(0..len);
    (v, rng.get_word_pos())
}

/// `RngExt::random_range` over the sizes `1..=bound`, at a position of the same stream. The drawn
/// size is in the range. A bound of zero would panic.
#[verifier::external_body]
fn size_at(key: u64, position: u128, bound: usize) -> (r: (usize, u128))
    requires
        bound > 0,
    ensures
        r == size_draw(key, position, bound),
        1 <= r.0 <= bound,
{
    let mut rng = ChaCha8Rng::seed_from_u64(key);
    rng.set_word_pos(position);
    let v = rng.random_range(1..=bound);
    (v, rng.get_word_pos())
}

/// `RngExt::random_ratio` at a position of the same stream: `part` in `whole` chances of `true`. A
/// part above the whole, or no whole, would panic.
#[verifier::external_body]
fn ratio_at(key: u64, position: u128, part: u32, whole: u32) -> (r: (bool, u128))
    requires
        part <= whole,
        whole > 0,
    ensures
        r == ratio_draw(key, position, part, whole),
{
    let mut rng = ChaCha8Rng::seed_from_u64(key);
    rng.set_word_pos(position);
    let v = rng.random_ratio(part, whole);
    (v, rng.get_word_pos())
}

/// `RngExt::random` for a 64-bit number, at a position of the same stream.
#[verifier::external_body]
fn word_at(key: u64, position: u128) -> (r: (u64, u128))
    ensures
        r == word_draw(key, position),
{
    let mut rng = ChaCha8Rng::seed_from_u64(key);
    rng.set_word_pos(position);
    let v = rng.random::<u64>();
    (v, rng.get_word_pos())
}

// ---------------------------------------------------------------------------
// Streams.
// ---------------------------------------------------------------------------

/// A stream of draws: the seed of the generator and how far it has been read.
#[derive(Clone, Copy, PartialEq, Eq, Structural, Debug)]
pub struct Draws {
    /// The seed of the generator.
    pub key: u64,
    /// How many 32-bit words have been read.
    pub position: u128,
}

impl Draws {
    /// The stream further on.
    pub open spec fn at(self, position: u128) -> Draws {
        Draws { key: self.key, position }
    }

    /// A number from an inclusive range, and the stream after it.
    pub open spec fn range(self, low: u64, high: u64) -> (u64, Draws) {
        let (v, p) = range_draw(self.key, self.position, low, high);
        (v, self.at(p))
    }

    /// An index below a length, and the stream after it.
    pub open spec fn index(self, len: usize) -> (usize, Draws) {
        let (v, p) = index_draw(self.key, self.position, len);
        (v, self.at(p))
    }

    /// A size from one up to a bound, and the stream after it.
    pub open spec fn size(self, bound: usize) -> (usize, Draws) {
        let (v, p) = size_draw(self.key, self.position, bound);
        (v, self.at(p))
    }

    /// A chance of `part` in `whole`, and the stream after it.
    pub open spec fn ratio(self, part: u32, whole: u32) -> (bool, Draws) {
        let (v, p) = ratio_draw(self.key, self.position, part, whole);
        (v, self.at(p))
    }

    /// A number of 64 bits, and the stream after it.
    pub open spec fn word(self) -> (u64, Draws) {
        let (v, p) = word_draw(self.key, self.position);
        (v, self.at(p))
    }

    /// Draws a number from an inclusive range.
    pub fn random_range(&mut self, low: u64, high: u64) -> (v: u64)
        requires
            low <= high,
        ensures
            (v, *final(self)) == old(self).range(low, high),
            low <= v <= high,
    {
        let (v, p) = range_at(self.key, self.position, low, high);
        self.position = p;
        v
    }

    /// Draws an index below a length.
    pub fn random_index(&mut self, len: usize) -> (v: usize)
        requires
            len > 0,
        ensures
            (v, *final(self)) == old(self).index(len),
            v < len,
    {
        let (v, p) = index_at(self.key, self.position, len);
        self.position = p;
        v
    }

    /// Draws a size from one up to a bound.
    pub fn random_size(&mut self, bound: usize) -> (v: usize)
        requires
            bound > 0,
        ensures
            (v, *final(self)) == old(self).size(bound),
            1 <= v <= bound,
    {
        let (v, p) = size_at(self.key, self.position, bound);
        self.position = p;
        v
    }

    /// Draws `true` with `part` in `whole` chances.
    pub fn random_ratio(&mut self, part: u32, whole: u32) -> (v: bool)
        requires
            part <= whole,
            whole > 0,
        ensures
            (v, *final(self)) == old(self).ratio(part, whole),
    {
        let (v, p) = ratio_at(self.key, self.position, part, whole);
        self.position = p;
        v
    }

    /// Draws a number of 64 bits.
    pub fn random(&mut self) -> (v: u64)
        ensures
            (v, *final(self)) == old(self).word(),
    {
        let (v, p) = word_at(self.key, self.position);
        self.position = p;
        v
    }
}

/// The fields that decide a stream: the seed, who asks, and the number of the call.
pub open spec fn stream_fields(seed: u64, user: Seq<char>, call_seq: u64) -> Seq<Seq<u8>> {
    seq![le_bytes(seed as nat, 8), vstd::utf8::encode_utf8(user), le_bytes(call_seq as nat, 8)]
}

/// The stream of a completion.
pub open spec fn stream(seed: u64, user: Seq<char>, call_seq: u64) -> Draws {
    Draws { key: fnv(encoded(stream_fields(seed, user, call_seq))), position: 0 }
}

/// The eight bytes of a number, the lowest first.
fn le_field(n: u64) -> (buf: Vec<u8>)
    ensures
        buf@ == le_bytes(n as nat, 8),
{
    let mut buf: Vec<u8> = Vec::new();
    push_le(&mut buf, n);
    assert(Seq::<u8>::empty() + le_bytes(n as nat, 8) =~= le_bytes(n as nat, 8));
    buf
}

/// Derives the stream of a completion.
pub fn derive_rng(seed: u64, user: &str, call_seq: u64) -> (d: Draws)
    ensures
        d == stream(seed, user@, call_seq),
{
    let mut fields: Vec<Vec<u8>> = Vec::new();
    fields.push(le_field(seed));
    let bytes = user.as_bytes();
    let mut text: Vec<u8> = Vec::new();
    let mut i: usize = 0;
    while i < bytes.len()
        invariant
            0 <= i <= bytes.len(),
            text@ =~= bytes@.take(i as int),
        decreases bytes.len() - i,
    {
        text.push(bytes[i]);
        i = i + 1;
    }
    assert(text@ =~= vstd::utf8::encode_utf8(user@));
    fields.push(text);
    fields.push(le_field(call_seq));
    assert(byte_fields(fields@) =~= stream_fields(seed, user@, call_seq));
    let buf = encode_fields(&fields);
    Draws { key: fnv1a64(buf.as_slice()), position: 0 }
}

/// Two completions that differ in the seed, in who asks or in the number of the call differ in the
/// bytes that their streams are derived from.
pub proof fn streams_have_different_fields(
    seed: u64,
    user: Seq<char>,
    call_seq: u64,
    other_seed: u64,
    other_user: Seq<char>,
    other_call_seq: u64,
)
    requires
        encoded(stream_fields(seed, user, call_seq)) == encoded(
            stream_fields(other_seed, other_user, other_call_seq),
        ),
        vstd::utf8::encode_utf8(user).len() <= u64::MAX,
        vstd::utf8::encode_utf8(other_user).len() <= u64::MAX,
    ensures
        seed == other_seed,
        user == other_user,
        call_seq == other_call_seq,
{
    let a = stream_fields(seed, user, call_seq);
    let b = stream_fields(other_seed, other_user, other_call_seq);
    crate::hash::lemma_pow256_8();
    crate::hash::lemma_le(seed as nat, 8);
    crate::hash::lemma_le(call_seq as nat, 8);
    crate::hash::lemma_le(other_seed as nat, 8);
    crate::hash::lemma_le(other_call_seq as nat, 8);
    assert forall|i: int| 0 <= i < a.len() implies (#[trigger] a[i]).len()
        < crate::hash::pow256(8) by {}
    assert forall|i: int| 0 <= i < b.len() implies (#[trigger] b[i]).len()
        < crate::hash::pow256(8) by {}
    crate::hash::encoding_is_injective(a, b);
    assert(a[0] == b[0] && a[1] == b[1] && a[2] == b[2]);
    vstd::utf8::encode_utf8_decode_utf8(user);
    vstd::utf8::encode_utf8_decode_utf8(other_user);
}

} // verus!
