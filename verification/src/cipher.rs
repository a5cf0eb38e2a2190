//! The reversible byte transforms and the ordered chain a cipher spec selects.
//!
//! Every transform, applied in the encode direction and then in the decode
//! direction at the same stream position, is the identity; the same holds for
//! a whole chain, which decodes by running the inverse transforms in reverse
//! order. Those two laws are [`lemma_operation_round_trip`] and
//! [`lemma_cipher_round_trip`].

use vstd::prelude::*;

verus! {

/// Why a cipher spec is rejected.
#[derive(Clone, Copy, Debug, PartialEq, Eq, Structural)]
pub enum CipherError {
    /// An opcode outside the recognized set appeared in the spec.
    InvalidOperation,
    /// The spec terminator was the very first byte: zero operations.
    EmptySpec,
    /// The parsed chain has no observable effect on the probe byte.
    NoOpCipher,
}

/// One reversible byte transform, position-aware for the `Xorpos` and
/// `Addpos` variants.
#[derive(Clone, Copy, Debug, PartialEq, Eq, Structural)]
pub enum Operation {
    /// Reverse the bit order of the byte; self-inverse.
    ReverseBits,
    /// XOR with a fixed constant; self-inverse.
    Xor(u8),
    /// XOR with the stream position modulo 256; self-inverse.
    Xorpos,
    /// Add a fixed constant modulo 256 on encode; subtract it on decode.
    Add(u8),
    /// Add the stream position modulo 256 on encode; subtract it on decode.
    Addpos,
}

/// The byte with its eight bits in reverse order.
pub open spec fn reverse_bits_byte(b: u8) -> u8 {
    ((b & 0x01) << 7) | ((b & 0x02) << 5) | ((b & 0x04) << 3) | ((b & 0x08) << 1)
        | ((b & 0x10) >> 1) | ((b & 0x20) >> 3) | ((b & 0x40) >> 5) | ((b & 0x80) >> 7)
}

/// The modulo-256 sum of two bytes.
pub open spec fn add_mod(a: u8, b: u8) -> u8 {
    ((a + b) % 256) as u8
}

/// The modulo-256 difference of two bytes.
pub open spec fn sub_mod(a: u8, b: u8) -> u8 {
    ((a - b + 256) % 256) as u8
}

/// What one operation does to a byte in the encode direction, at stream
/// position `p` (the position already reduced modulo 256).
pub open spec fn op_encode(op: Operation, b: u8, p: u8) -> u8 {
    match op {
        Operation::ReverseBits => reverse_bits_byte(b),
        Operation::Xor(k) => b ^ k,
        Operation::Xorpos => b ^ p,
        Operation::Add(k) => add_mod(b, k),
        Operation::Addpos => add_mod(b, p),
    }
}

/// What one operation does to a byte in the decode direction, at stream
/// position `p` (the position already reduced modulo 256).
pub open spec fn op_decode(op: Operation, b: u8, p: u8) -> u8 {
    match op {
        Operation::ReverseBits => reverse_bits_byte(b),
        Operation::Xor(k) => b ^ k,
        Operation::Xorpos => b ^ p,
        Operation::Add(k) => sub_mod(b, k),
        Operation::Addpos => sub_mod(b, p),
    }
}

/// Reverse the bit order of a byte.
fn reverse_bits_exec(b: u8) -> (r: u8)
    ensures
        r == reverse_bits_byte(b),
{
    ((b & 0x01) << 7) | ((b & 0x02) << 5) | ((b & 0x04) << 3) | ((b & 0x08) << 1)
        | ((b & 0x10) >> 1) | ((b & 0x20) >> 3) | ((b & 0x40) >> 5) | ((b & 0x80) >> 7)
}

impl Operation {
    /// Apply the operation in the encode direction to `byte`, which stands at
    /// stream position `pos` in its traffic direction.
    pub fn encode(&self, byte: u8, pos: usize) -> (r: u8)
        ensures
            r == op_encode(*self, byte, (pos % 256) as u8),
    {
        let p = (pos % 256) as u8;
        match self {
            Operation::ReverseBits => reverse_bits_exec(byte),
            Operation::Xor(k) => byte ^ *k,
            Operation::Xorpos => byte ^ p,
            Operation::Add(k) => byte.wrapping_add(*k),
            Operation::Addpos => byte.wrapping_add(p),
        }
    }

    /// Apply the operation in the decode direction to `byte`, which stands at
    /// stream position `pos` in its traffic direction.
    pub fn decode(&self, byte: u8, pos: usize) -> (r: u8)
        ensures
            r == op_decode(*self, byte, (pos % 256) as u8),
    {
        let p = (pos % 256) as u8;
        match self {
            Operation::ReverseBits => reverse_bits_exec(byte),
            Operation::Xor(k) => byte ^ *k,
            Operation::Xorpos => byte ^ p,
            Operation::Add(k) => byte.wrapping_sub(*k),
            Operation::Addpos => byte.wrapping_sub(p),
        }
    }
}

proof fn lemma_xor_cancel(b: u8, k: u8)
    ensures
        (b ^ k) ^ k == b,
{
    assert((b ^ k) ^ k == b) by (bit_vector);
}

proof fn lemma_add_sub_cancel(b: u8, k: u8)
    ensures
        sub_mod(add_mod(b, k), k) == b,
{
    if b + k < 256 {
        assert(add_mod(b, k) == b + k);
    } else {
        assert(add_mod(b, k) == b + k - 256);
    }
}

/// Reversing the bits of a byte twice returns the byte.
proof fn lemma_reverse_bits_involutive(b: u8)
    ensures
        reverse_bits_byte(reverse_bits_byte(b)) == b,
{
    assert(reverse_bits_byte(reverse_bits_byte(b)) == b) by (bit_vector);
}

/// Law: every operation, encoded and then decoded at the same position,
/// returns the original byte.
pub proof fn lemma_operation_round_trip(op: Operation, b: u8, p: u8)
    ensures
        op_decode(op, op_encode(op, b, p), p) == b,
{
    match op {
        Operation::ReverseBits => lemma_reverse_bits_involutive(b),
        Operation::Xor(k) => lemma_xor_cancel(b, k),
        Operation::Xorpos => lemma_xor_cancel(b, p),
        Operation::Add(k) => lemma_add_sub_cancel(b, k),
        Operation::Addpos => lemma_add_sub_cancel(b, p),
    }
}

/// The whole chain applied to `b` in spec order, left to right, every
/// operation seeing the same position `p`.
pub open spec fn chain_encode(ops: Seq<Operation>, b: u8, p: u8) -> u8
    decreases ops.len(),
{
    if ops.len() == 0 {
        b
    } else {
        chain_encode(ops.drop_first(), op_encode(ops[0], b, p), p)
    }
}

/// The decode form of every operation, applied in reverse spec order, every
/// operation seeing the same position `p`.
pub open spec fn chain_decode(ops: Seq<Operation>, b: u8, p: u8) -> u8
    decreases ops.len(),
{
    if ops.len() == 0 {
        b
    } else {
        chain_decode(ops.drop_last(), op_decode(ops.last(), b, p), p)
    }
}

/// Appending an operation to the chain composes its encode step after the
/// shorter chain's.
proof fn lemma_chain_encode_push(ops: Seq<Operation>, op: Operation, b: u8, p: u8)
    ensures
        chain_encode(ops.push(op), b, p) == op_encode(op, chain_encode(ops, b, p), p),
    decreases ops.len(),
{
    let whole = ops.push(op);
    assert(whole.len() > 0);
    assert(chain_encode(whole, b, p) == chain_encode(whole.drop_first(), op_encode(whole[0], b, p), p));
    if ops.len() == 0 {
        assert(whole[0] == op);
        assert(whole.drop_first() =~= Seq::<Operation>::empty());
        assert(chain_encode(whole.drop_first(), op_encode(op, b, p), p) == op_encode(op, b, p));
        assert(chain_encode(ops, b, p) == b);
    } else {
        assert(whole[0] == ops[0]);
        assert(whole.drop_first() =~= ops.drop_first().push(op));
        lemma_chain_encode_push(ops.drop_first(), op, op_encode(ops[0], b, p), p);
    }
}

/// Law: any chain, encoded and then decoded at the same position, returns the
/// original byte.
pub proof fn lemma_cipher_round_trip(ops: Seq<Operation>, b: u8, p: u8)
    ensures
        chain_decode(ops, chain_encode(ops, b, p), p) == b,
    decreases ops.len(),
{
    if ops.len() > 0 {
        let front = ops.drop_last();
        let op = ops.last();
        assert(ops =~= front.push(op));
        lemma_chain_encode_push(front, op, b, p);
        lemma_operation_round_trip(op, chain_encode(front, b, p), p);
        lemma_cipher_round_trip(front, b, p);
    }
}

/// The chain applied to every byte of a stream, the positions counting up
/// from `start`.
pub open spec fn encode_stream(ops: Seq<Operation>, bytes: Seq<u8>, start: nat) -> Seq<u8> {
    Seq::new(bytes.len(), |i: int| chain_encode(ops, bytes[i], ((start + i) % 256) as u8))
}

/// The decode form of the chain applied to every byte of a stream, the
/// positions counting up from `start`.
pub open spec fn decode_stream(ops: Seq<Operation>, bytes: Seq<u8>, start: nat) -> Seq<u8> {
    Seq::new(bytes.len(), |i: int| chain_decode(ops, bytes[i], ((start + i) % 256) as u8))
}

/// Law: a stream encoded from some starting position and then decoded from
/// the same starting position is returned byte for byte.
pub proof fn lemma_stream_round_trip(ops: Seq<Operation>, bytes: Seq<u8>, start: nat)
    ensures
        decode_stream(ops, encode_stream(ops, bytes, start), start) == bytes,
{
    let enc = encode_stream(ops, bytes, start);
    assert forall|i: int| 0 <= i < bytes.len() implies decode_stream(ops, enc, start)[i]
        == bytes[i] by {
        lemma_cipher_round_trip(ops, bytes[i], ((start + i) % 256) as u8);
    }
    assert(decode_stream(ops, enc, start) =~= bytes);
}

/// An ordered, non-empty chain of operations, fixed for the lifetime of one
/// connection once its spec has been parsed.
#[derive(Debug)]
pub struct Cipher {
    operations: Vec<Operation>,
}

impl View for Cipher {
    type V = Seq<Operation>;

    closed spec fn view(&self) -> Seq<Operation> {
        self.operations@
    }
}

/// The probe byte of the no-op guard: the ASCII value of `'h'`.
pub const PROBE: u8 = 104;

impl Cipher {
    /// Build a cipher from an already decoded operation list; a list of
    /// length zero is invalid and rejected here, never at use time.
    pub fn new(operations: Vec<Operation>) -> (r: Result<Cipher, CipherError>)
        ensures
            operations@.len() == 0 ==> r == Err::<Cipher, CipherError>(CipherError::EmptySpec),
            operations@.len() > 0 ==> (r matches Ok(c) && c@ == operations@),
    {
        if operations.len() == 0 {
            Err(CipherError::EmptySpec)
        } else {
            Ok(Cipher { operations })
        }
    }

    /// The no-op probe of the guard: true exactly when the chain, in the
    /// encode direction at position 0, leaves the probe byte unchanged.
    pub fn is_no_op(&self) -> (r: bool)
        ensures
            r == (chain_encode(self@, PROBE, 0) == PROBE),
    {
        self.encode(PROBE, 0) == PROBE
    }

    /// Encode one byte standing at stream position `pos`: apply every
    /// operation in spec order.
    pub fn encode(&self, byte: u8, pos: usize) -> (r: u8)
        ensures
            r == chain_encode(self@, byte, (pos % 256) as u8),
    {
        let ghost p = (pos % 256) as u8;
        let len = self.operations.len();
        let mut b = byte;
        let mut i: usize = 0;
        proof {
            assert(self.operations@.subrange(0, len as int) =~= self.operations@);
        }
        while i < len
            invariant
                i <= len,
                len == self.operations@.len(),
                p == (pos % 256) as u8,
                chain_encode(self@, byte, p) == chain_encode(
                    self.operations@.subrange(i as int, len as int),
                    b,
                    p,
                ),
            decreases len - i,
        {
            proof {
                assert(self.operations@.subrange(i as int, len as int).drop_first()
                    =~= self.operations@.subrange(i as int + 1, len as int));
            }
            b = self.operations[i].encode(b, pos);
            i = i + 1;
        }
        proof {
            assert(self.operations@.subrange(len as int, len as int)
                =~= Seq::<Operation>::empty());
        }
        b
    }

    /// Decode one byte standing at stream position `pos`: apply the decode
    /// form of every operation in reverse spec order.
    pub fn decode(&self, byte: u8, pos: usize) -> (r: u8)
        ensures
            r == chain_decode(self@, byte, (pos % 256) as u8),
    {
        let ghost p = (pos % 256) as u8;
        let mut b = byte;
        let mut i: usize = self.operations.len();
        proof {
            assert(self.operations@.subrange(0, i as int) =~= self.operations@);
        }
        while i > 0
            invariant
                i <= self.operations@.len(),
                p == (pos % 256) as u8,
                chain_decode(self@, byte, p) == chain_decode(
                    self.operations@.subrange(0, i as int),
                    b,
                    p,
                ),
            decreases i,
        {
            proof {
                assert(self.operations@.subrange(0, i as int).drop_last()
                    =~= self.operations@.subrange(0, i as int - 1));
            }
            i = i - 1;
            b = self.operations[i].decode(b, pos);
        }
        proof {
            assert(self.operations@.subrange(0, 0) =~= Seq::<Operation>::empty());
        }
        b
    }
}

} // verus!
