//! FNV-1a, 64 bit: the hash behind every information key.

use vstd::prelude::*;

verus! {

/// The state before any byte.
pub const FNV_OFFSET: u64 = 0xcbf2_9ce4_8422_2325;

/// The multiplier of each step.
pub const FNV_PRIME: u64 = 0x0000_0100_0000_01b3;

/// The state after one more byte.
pub open spec fn fnv_step(state: u64, byte: u8) -> u64 {
    (state ^ (byte as u64)).wrapping_mul(FNV_PRIME)
}

/// The state after `bytes`, in order.
pub open spec fn fnv_fold(state: u64, bytes: Seq<u8>) -> u64
    decreases bytes.len(),
{
    if bytes.len() == 0 {
        state
    } else {
        fnv_step(fnv_fold(state, bytes.drop_last()), bytes.last())
    }
}

/// The hash of a byte string.
pub open spec fn fnv_hash(bytes: Seq<u8>) -> u64 {
    fnv_fold(FNV_OFFSET, bytes)
}

/// A hash in progress; the view is the bytes written so far.
pub struct Fnv1a {
    state: u64,
    written: Ghost<Seq<u8>>,
}

impl View for Fnv1a {
    type V = Seq<u8>;

    closed spec fn view(&self) -> Seq<u8> {
        self.written@
    }
}

impl Fnv1a {
    /// The state is the hash of the bytes written.
    pub closed spec fn wf(&self) -> bool {
        self.state == fnv_hash(self.written@)
    }

    /// Start a hash.
    pub fn new() -> (h: Fnv1a)
        ensures
            h.wf(),
            h@ == Seq::<u8>::empty(),
    {
        Fnv1a { state: FNV_OFFSET, written: Ghost(Seq::empty()) }
    }

    /// Write one byte.
    pub fn write(&mut self, byte: u8)
        requires
            old(self).wf(),
        ensures
            final(self).wf(),
            final(self)@ == old(self)@.push(byte),
    {
        let ghost before = self.written@;
        self.state = (self.state ^ (byte as u64)).wrapping_mul(FNV_PRIME);
        self.written = Ghost(before.push(byte));
        assert(before.push(byte).drop_last() =~= before);
    }

    /// Write every byte of a slice.
    pub fn write_all(&mut self, bytes: &[u8])
        requires
            old(self).wf(),
        ensures
            final(self).wf(),
            final(self)@ == old(self)@ + bytes@,
    {
        let ghost before = self@;
        let mut i: usize = 0;
        assert(before + bytes@.take(0) =~= before);
        while i < bytes.len()
            invariant
                i <= bytes@.len(),
                self.wf(),
                self@ == before + bytes@.take(i as int),
            decreases bytes@.len() - i,
        {
            self.write(bytes[i]);
            i += 1;
            assert(before + bytes@.take(i as int) =~= (before + bytes@.take(i - 1)).push(
                bytes@[i - 1],
            ));
        }
        assert(bytes@.take(i as int) =~= bytes@);
    }

    /// Write the eight bytes of `value`, least significant first.
    pub fn write_u64(&mut self, value: u64)
        requires
            old(self).wf(),
        ensures
            final(self).wf(),
            final(self)@ == old(self)@ + le_bytes(value),
    {
        let ghost before = self@;
        self.write((value & 0xff) as u8);
        self.write(((value >> 8) & 0xff) as u8);
        self.write(((value >> 16) & 0xff) as u8);
        self.write(((value >> 24) & 0xff) as u8);
        self.write(((value >> 32) & 0xff) as u8);
        self.write(((value >> 40) & 0xff) as u8);
        self.write(((value >> 48) & 0xff) as u8);
        self.write(((value >> 56) & 0xff) as u8);
        assert(self@ =~= before + le_bytes(value));
    }

    /// The hash of the bytes written.
    pub fn finish(&self) -> (hash: u64)
        requires
            self.wf(),
        ensures
            hash == fnv_hash(self@),
    {
        self.state
    }
}

/// The eight bytes of `value`, least significant first.
pub open spec fn le_bytes(value: u64) -> Seq<u8> {
    seq![
        (value & 0xff) as u8,
        ((value >> 8) & 0xff) as u8,
        ((value >> 16) & 0xff) as u8,
        ((value >> 24) & 0xff) as u8,
        ((value >> 32) & 0xff) as u8,
        ((value >> 40) & 0xff) as u8,
        ((value >> 48) & 0xff) as u8,
        ((value >> 56) & 0xff) as u8,
    ]
}

/// The little-endian bytes determine the number.
pub proof fn lemma_le_bytes_injective(a: u64, b: u64)
    requires
        le_bytes(a) == le_bytes(b),
    ensures
        a == b,
{
    let x = le_bytes(a);
    let y = le_bytes(b);
    assert(x[0] == y[0] && x[1] == y[1] && x[2] == y[2] && x[3] == y[3] && x[4] == y[4] && x[5]
        == y[5] && x[6] == y[6] && x[7] == y[7]);
    assert(a == b) by (bit_vector)
        requires
            (a & 0xff) as u8 == (b & 0xff) as u8,
            ((a >> 8) & 0xff) as u8 == ((b >> 8) & 0xff) as u8,
            ((a >> 16) & 0xff) as u8 == ((b >> 16) & 0xff) as u8,
            ((a >> 24) & 0xff) as u8 == ((b >> 24) & 0xff) as u8,
            ((a >> 32) & 0xff) as u8 == ((b >> 32) & 0xff) as u8,
            ((a >> 40) & 0xff) as u8 == ((b >> 40) & 0xff) as u8,
            ((a >> 48) & 0xff) as u8 == ((b >> 48) & 0xff) as u8,
            ((a >> 56) & 0xff) as u8 == ((b >> 56) & 0xff) as u8,
    ;
}

/// The hash of a byte string.
pub fn fnv1a(bytes: &[u8]) -> (hash: u64)
    ensures
        hash == fnv_hash(bytes@),
{
    let mut h = Fnv1a::new();
    h.write_all(bytes);
    assert(Seq::<u8>::empty() + bytes@ =~= bytes@);
    h.finish()
}

/// The hash starts from the FNV-1a offset, and each byte in turn is mixed into
/// the low bits and spread by the FNV prime, in 64 bits.
pub proof fn law_bytes_are_mixed_in_turn(bytes: Seq<u8>, byte: u8)
    ensures
        fnv_hash(Seq::<u8>::empty()) == 14_695_981_039_346_656_037,
        fnv_hash(bytes.push(byte)) == ((fnv_hash(bytes) ^ (byte as u64)) * 1_099_511_628_211)
            % 0x1_0000_0000_0000_0000,
{
    assert(bytes.push(byte).drop_last() =~= bytes);
}

/// Hashing in two parts is hashing the whole: the second part goes on from where
/// the first left off.
pub proof fn law_hashing_goes_on(state: u64, first: Seq<u8>, second: Seq<u8>)
    ensures
        fnv_fold(state, first + second) == fnv_fold(fnv_fold(state, first), second),
    decreases second.len(),
{
    if second.len() == 0 {
        assert(first + second =~= first);
    } else {
        law_hashing_goes_on(state, first, second.drop_last());
        assert((first + second).drop_last() =~= first + second.drop_last());
    }
}

/// The bytes of a number are its digits in base 256, the units first.
pub proof fn law_bytes_write_the_number(value: u64)
    ensures
        ({
            let b = le_bytes(value);
            &&& b.len() == 8
            &&& value == b[0] + 0x100 * b[1] + 0x1_0000 * b[2] + 0x100_0000 * b[3] + 0x1_0000_0000
                * b[4] + 0x100_0000_0000 * b[5] + 0x1_0000_0000_0000 * b[6] + 0x100_0000_0000_0000
                * b[7]
        }),
{
    assert(value == (value & 0xff) as u8 + 0x100 * (((value >> 8) & 0xff) as u8) + 0x1_0000 * (((
    value >> 16) & 0xff) as u8) + 0x100_0000 * (((value >> 24) & 0xff) as u8) + 0x1_0000_0000 * (((
    value >> 32) & 0xff) as u8) + 0x100_0000_0000 * (((value >> 40) & 0xff) as u8)
        + 0x1_0000_0000_0000 * (((value >> 48) & 0xff) as u8) + 0x100_0000_0000_0000 * (((value
        >> 56) & 0xff) as u8)) by (bit_vector);
}

} // verus!
