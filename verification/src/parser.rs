//! The incremental parser for the wire cipher spec.
//!
//! The spec is a self-describing prefix of the stream: a sequence of opcode
//! bytes, two of them followed by one constant byte, terminated by the
//! sentinel `0x00`. The parser consumes the stream's leading bytes one at a
//! time; its contract states the transition table byte for byte: which
//! opcodes extend the chain, which await a constant byte, and which reject
//! the spec outright.

use vstd::prelude::*;

use crate::cipher::Cipher;
use crate::cipher::CipherError;
use crate::cipher::Operation;

verus! {

/// What the parser is waiting for next.
#[derive(Clone, Copy, Debug, PartialEq, Eq, Structural)]
pub enum ParserMode {
    /// The next byte is an opcode, or the sentinel.
    Opcode,
    /// An `0x02` opcode was read; the next byte is the xor constant.
    XorConstant,
    /// An `0x04` opcode was read; the next byte is the add constant.
    AddConstant,
    /// The sentinel has been read; the spec is complete.
    Complete,
}

/// What one fed byte did to the parse.
#[derive(Clone, Copy, Debug, PartialEq, Eq, Structural)]
pub enum FeedOutcome {
    /// The spec is not finished yet; feed the next byte of the stream.
    NeedMore,
    /// The sentinel was reached; `into_cipher` yields the cipher.
    Done,
    /// The spec is invalid; the connection must be torn down unserved.
    Rejected(CipherError),
}

/// Parses the cipher spec off the stream's leading edge, one byte per call.
pub struct SpecParser {
    operations: Vec<Operation>,
    mode: ParserMode,
}

impl SpecParser {
    /// The operations decoded so far, in wire order.
    pub closed spec fn parsed(self) -> Seq<Operation> {
        self.operations@
    }

    /// What the parser awaits next.
    pub closed spec fn mode(self) -> ParserMode {
        self.mode
    }

    /// A reachable parser state: a complete parse holds at least one
    /// operation, since an empty spec is rejected at the sentinel.
    pub open spec fn wf(self) -> bool {
        self.mode() == ParserMode::Complete ==> self.parsed().len() > 0
    }

    /// A parser that has consumed nothing.
    pub fn new() -> (r: SpecParser)
        ensures
            r.wf(),
            r.parsed().len() == 0,
            r.mode() == ParserMode::Opcode,
    {
        SpecParser { operations: Vec::new(), mode: ParserMode::Opcode }
    }

    /// True once the sentinel has been read and the spec accepted.
    pub fn is_complete(&self) -> (r: bool)
        ensures
            r == (self.mode() == ParserMode::Complete),
    {
        match self.mode {
            ParserMode::Complete => true,
            _ => false,
        }
    }

    /// Consume the next byte of the stream.
    ///
    /// An awaited constant always extends the chain; otherwise the byte is an
    /// opcode: `0x00` ends the spec (rejecting a spec of zero operations),
    /// `0x01`/`0x03`/`0x05` append `ReverseBits`/`Xorpos`/`Addpos`,
    /// `0x02`/`0x04` leave the parser awaiting the constant, and anything
    /// above `0x05` rejects the spec, consuming nothing.
    pub fn feed(&mut self, byte: u8) -> (r: FeedOutcome)
        requires
            old(self).wf(),
            old(self).mode() != ParserMode::Complete,
        ensures
            final(self).wf(),
            old(self).mode() == ParserMode::XorConstant ==> final(self).parsed()
                == old(self).parsed().push(Operation::Xor(byte))
                && final(self).mode() == ParserMode::Opcode
                && r == FeedOutcome::NeedMore,
            old(self).mode() == ParserMode::AddConstant ==> final(self).parsed()
                == old(self).parsed().push(Operation::Add(byte))
                && final(self).mode() == ParserMode::Opcode
                && r == FeedOutcome::NeedMore,
            old(self).mode() == ParserMode::Opcode && byte == 0x00 && old(self).parsed().len() == 0
                ==> r == FeedOutcome::Rejected(CipherError::EmptySpec)
                && *final(self) == *old(self),
            old(self).mode() == ParserMode::Opcode && byte == 0x00 && old(self).parsed().len() > 0
                ==> r == FeedOutcome::Done
                && final(self).parsed() == old(self).parsed()
                && final(self).mode() == ParserMode::Complete,
            old(self).mode() == ParserMode::Opcode && byte == 0x01 ==> r == FeedOutcome::NeedMore
                && final(self).parsed() == old(self).parsed().push(Operation::ReverseBits)
                && final(self).mode() == ParserMode::Opcode,
            old(self).mode() == ParserMode::Opcode && byte == 0x02 ==> r == FeedOutcome::NeedMore
                && final(self).parsed() == old(self).parsed()
                && final(self).mode() == ParserMode::XorConstant,
            old(self).mode() == ParserMode::Opcode && byte == 0x03 ==> r == FeedOutcome::NeedMore
                && final(self).parsed() == old(self).parsed().push(Operation::Xorpos)
                && final(self).mode() == ParserMode::Opcode,
            old(self).mode() == ParserMode::Opcode && byte == 0x04 ==> r == FeedOutcome::NeedMore
                && final(self).parsed() == old(self).parsed()
                && final(self).mode() == ParserMode::AddConstant,
            old(self).mode() == ParserMode::Opcode && byte == 0x05 ==> r == FeedOutcome::NeedMore
                && final(self).parsed() == old(self).parsed().push(Operation::Addpos)
                && final(self).mode() == ParserMode::Opcode,
            old(self).mode() == ParserMode::Opcode && byte > 0x05
                ==> r == FeedOutcome::Rejected(CipherError::InvalidOperation)
                && *final(self) == *old(self),
    {
        match self.mode {
            ParserMode::XorConstant => {
                self.operations.push(Operation::Xor(byte));
                self.mode = ParserMode::Opcode;
                FeedOutcome::NeedMore
            }
            ParserMode::AddConstant => {
                self.operations.push(Operation::Add(byte));
                self.mode = ParserMode::Opcode;
                FeedOutcome::NeedMore
            }
            _ => {
                if byte == 0x00 {
                    if self.operations.len() == 0 {
                        FeedOutcome::Rejected(CipherError::EmptySpec)
                    } else {
                        self.mode = ParserMode::Complete;
                        FeedOutcome::Done
                    }
                } else if byte == 0x01 {
                    self.operations.push(Operation::ReverseBits);
                    FeedOutcome::NeedMore
                } else if byte == 0x02 {
                    self.mode = ParserMode::XorConstant;
                    FeedOutcome::NeedMore
                } else if byte == 0x03 {
                    self.operations.push(Operation::Xorpos);
                    FeedOutcome::NeedMore
                } else if byte == 0x04 {
                    self.mode = ParserMode::AddConstant;
                    FeedOutcome::NeedMore
                } else if byte == 0x05 {
                    self.operations.push(Operation::Addpos);
                    FeedOutcome::NeedMore
                } else {
                    FeedOutcome::Rejected(CipherError::InvalidOperation)
                }
            }
        }
    }

    /// The incremental state as the whole-prefix model sees it: parsing the
    /// rest of the bytes from this state ends as parsing the whole prefix
    /// does.
    pub open spec fn models(self, bytes: Seq<u8>, i: int) -> bool {
        parse_spec_bytes(bytes) == parse_from(bytes, i, self.parsed(), self.mode())
    }

    /// Consume the parser; yields the cipher once the spec is complete.
    pub fn into_cipher(self) -> (r: Option<Cipher>)
        ensures
            self.wf() && self.mode() == ParserMode::Complete ==> (r matches Some(c) && c@
                == self.parsed()),
            self.mode() != ParserMode::Complete ==> r is None,
    {
        match self.mode {
            ParserMode::Complete => match Cipher::new(self.operations) {
                Ok(c) => Some(c),
                Err(_) => None,
            },
            _ => None,
        }
    }
}

/// What the spec model says of a byte string's leading bytes, carried over
/// the operations parsed and the mode reached so far.
pub enum SpecOutcome {
    /// The prefix holds a complete, accepted spec: the chain, and how many
    /// bytes it occupied, sentinel included.
    Parsed(Seq<Operation>, int),
    /// The bytes end before the sentinel: more of the stream is needed.
    Incomplete,
    /// The spec is invalid and the connection must be torn down.
    Rejected(CipherError),
}

/// The wire format itself, as a function of the bytes: what parsing from
/// index `i` onward yields, having parsed `ops` and reached `mode`.
pub open spec fn parse_from(bytes: Seq<u8>, i: int, ops: Seq<Operation>, mode: ParserMode) -> SpecOutcome
    decreases bytes.len() - i,
    when 0 <= i <= bytes.len()
{
    if i >= bytes.len() {
        SpecOutcome::Incomplete
    } else {
        let b = bytes[i];
        match mode {
            ParserMode::XorConstant => parse_from(
                bytes,
                i + 1,
                ops.push(Operation::Xor(b)),
                ParserMode::Opcode,
            ),
            ParserMode::AddConstant => parse_from(
                bytes,
                i + 1,
                ops.push(Operation::Add(b)),
                ParserMode::Opcode,
            ),
            _ => {
                if b == 0x00 {
                    if ops.len() == 0 {
                        SpecOutcome::Rejected(CipherError::EmptySpec)
                    } else {
                        SpecOutcome::Parsed(ops, i + 1)
                    }
                } else if b == 0x01 {
                    parse_from(bytes, i + 1, ops.push(Operation::ReverseBits), ParserMode::Opcode)
                } else if b == 0x02 {
                    parse_from(bytes, i + 1, ops, ParserMode::XorConstant)
                } else if b == 0x03 {
                    parse_from(bytes, i + 1, ops.push(Operation::Xorpos), ParserMode::Opcode)
                } else if b == 0x04 {
                    parse_from(bytes, i + 1, ops, ParserMode::AddConstant)
                } else if b == 0x05 {
                    parse_from(bytes, i + 1, ops.push(Operation::Addpos), ParserMode::Opcode)
                } else {
                    SpecOutcome::Rejected(CipherError::InvalidOperation)
                }
            }
        }
    }
}

/// What the leading bytes of `bytes` hold: a complete spec, too few bytes,
/// or an invalid one.
pub open spec fn parse_spec_bytes(bytes: Seq<u8>) -> SpecOutcome {
    parse_from(bytes, 0, Seq::empty(), ParserMode::Opcode)
}

/// What parsing an in-memory stream prefix yields.
#[derive(Debug)]
pub enum ParseOutcome {
    /// A complete, accepted spec: the cipher, and how many of the leading
    /// bytes it occupied, sentinel included.
    Parsed(Cipher, usize),
    /// The bytes end before the sentinel: more of the stream is needed.
    Incomplete,
    /// The spec is invalid and the connection must be torn down.
    Rejected(CipherError),
}

/// Parse a cipher spec off the leading bytes of `bytes`: the loop a serving
/// task runs against the stream, on an in-memory prefix. Exactly the bytes
/// up to and including the first sentinel are consumed; a stream whose very
/// first byte is the sentinel is rejected as empty, and an unrecognized
/// opcode rejects the spec outright.
pub fn parse_spec(bytes: &[u8]) -> (r: ParseOutcome)
    ensures
        ({
            match parse_spec_bytes(bytes@) {
                SpecOutcome::Parsed(ops, used) => r matches ParseOutcome::Parsed(c, u) && c@ == ops
                    && u as int == used,
                SpecOutcome::Incomplete => r is Incomplete,
                SpecOutcome::Rejected(e) => (r matches ParseOutcome::Rejected(err) && err == e),
            }
        }),
{
    let mut parser = SpecParser::new();
    let mut i: usize = 0;
    proof {
        assert(parser.parsed() =~= Seq::<Operation>::empty());
    }
    while i < bytes.len()
        invariant
            i <= bytes@.len(),
            parser.wf(),
            parser.mode() != ParserMode::Complete,
            parser.models(bytes@, i as int),
        decreases bytes@.len() - i,
    {
        let b = bytes[i];
        match parser.feed(b) {
            FeedOutcome::NeedMore => {
                i = i + 1;
            }
            FeedOutcome::Done => {
                match parser.into_cipher() {
                    Some(c) => {
                        return ParseOutcome::Parsed(c, i + 1);
                    }
                    None => {
                        // a completed parse always yields its cipher
                        proof {
                            assert(false);
                        }
                        return ParseOutcome::Incomplete;
                    }
                }
            }
            FeedOutcome::Rejected(e) => {
                return ParseOutcome::Rejected(e);
            }
        }
    }
    ParseOutcome::Incomplete
}

} // verus!
