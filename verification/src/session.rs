//! The per-connection transform state.
//!
//! A session owns the cipher and two independent position counters, one per
//! traffic direction; the counters never interact and are never reset. The
//! transport itself stays outside: the caller hands in raw client bytes one
//! at a time and receives the decoded line when its newline arrives, and
//! hands in a plaintext line to receive the obfuscated bytes to put on the
//! wire.

use vstd::prelude::*;

use crate::cipher::chain_decode;
use crate::cipher::chain_encode;
use crate::cipher::encode_stream;
use crate::cipher::Cipher;
use crate::cipher::CipherError;
use crate::cipher::Operation;
use crate::cipher::PROBE;

verus! {

/// The newline byte that terminates a line in both directions.
pub const NEWLINE: u8 = 10;

/// One connection's cipher, position counters and partially decoded line.
#[derive(Debug)]
pub struct InsecureSocketLayer {
    cipher: Cipher,
    client_pos: usize,
    server_pos: usize,
    line: Vec<u8>,
}

impl InsecureSocketLayer {
    /// The operation chain in force for this session.
    pub closed spec fn ops(self) -> Seq<Operation> {
        self.cipher@
    }

    /// Bytes consumed so far in the client-to-server direction.
    pub closed spec fn client_pos(self) -> int {
        self.client_pos as int
    }

    /// Bytes produced so far in the server-to-client direction.
    pub closed spec fn server_pos(self) -> int {
        self.server_pos as int
    }

    /// The decoded bytes of the current, not yet terminated client line.
    pub closed spec fn pending(self) -> Seq<u8> {
        self.line@
    }

    /// No accumulated byte is a newline: the line is handed out the moment
    /// one is decoded.
    pub open spec fn wf(self) -> bool {
        forall|i: int| 0 <= i < self.pending().len() ==> self.pending()[i] != NEWLINE
    }

    /// Run the no-op guard over the parsed cipher and open a session with
    /// fresh position counters. A chain whose encode transform leaves the
    /// probe byte unchanged at position 0 provides no obfuscation and is
    /// rejected, even though it is structurally valid.
    pub fn new(cipher: Cipher) -> (r: Result<InsecureSocketLayer, CipherError>)
        ensures
            chain_encode(cipher@, PROBE, 0) == PROBE ==> r == Err::<
                InsecureSocketLayer,
                CipherError,
            >(CipherError::NoOpCipher),
            chain_encode(cipher@, PROBE, 0) != PROBE ==> (r matches Ok(s) && s.ops() == cipher@
                && s.client_pos() == 0 && s.server_pos() == 0 && s.pending().len() == 0 && s.wf()),
    {
        if cipher.is_no_op() {
            Err(CipherError::NoOpCipher)
        } else {
            Ok(InsecureSocketLayer { cipher, client_pos: 0, server_pos: 0, line: Vec::new() })
        }
    }

    /// The client-direction position counter.
    pub fn client_position(&self) -> (r: usize)
        ensures
            r as int == self.client_pos(),
    {
        self.client_pos
    }

    /// The server-direction position counter.
    pub fn server_position(&self) -> (r: usize)
        ensures
            r as int == self.server_pos(),
    {
        self.server_pos
    }

    /// Consume one raw byte of the client-to-server direction: decode it at
    /// the current client position, advance that counter by exactly one, and
    /// hand back the accumulated line as soon as the decoded byte is the
    /// newline. The returned line always ends with its only newline.
    pub fn read(&mut self, byte: u8) -> (r: Option<Vec<u8>>)
        requires
            old(self).wf(),
            old(self).client_pos() < usize::MAX,
        ensures
            final(self).wf(),
            final(self).ops() == old(self).ops(),
            final(self).client_pos() == old(self).client_pos() + 1,
            final(self).server_pos() == old(self).server_pos(),
            ({
                let d = chain_decode(old(self).ops(), byte, (old(self).client_pos() % 256) as u8);
                if d == NEWLINE {
                    r matches Some(line) && line@ == old(self).pending().push(NEWLINE)
                        && final(self).pending().len() == 0
                } else {
                    r is None && final(self).pending() == old(self).pending().push(d)
                }
            }),
            r matches Some(line) ==> line@.len() > 0 && line@.last() == NEWLINE && (forall|i: int|
                0 <= i < line@.len() - 1 ==> line@[i] != NEWLINE),
    {
        let d = self.cipher.decode(byte, self.client_pos);
        self.client_pos = self.client_pos + 1;
        self.line.push(d);
        if d == NEWLINE {
            let mut out: Vec<u8> = Vec::new();
            core::mem::swap(&mut out, &mut self.line);
            proof {
                let lp = old(self).pending();
                assert(out@ == lp.push(NEWLINE));
                assert(out@.last() == NEWLINE);
                assert forall|i: int| 0 <= i < out@.len() - 1 implies out@[i] != NEWLINE by {
                    assert(out@[i] == lp[i]);
                }
            }
            Some(out)
        } else {
            None
        }
    }

    /// Encode one outgoing line: transform every byte at the current server
    /// position, advancing that counter by exactly one per byte, and return
    /// the obfuscated bytes to put on the wire, in order.
    pub fn write(&mut self, data: &[u8]) -> (r: Vec<u8>)
        requires
            old(self).wf(),
            old(self).server_pos() + data@.len() <= usize::MAX,
        ensures
            final(self).wf(),
            final(self).ops() == old(self).ops(),
            final(self).client_pos() == old(self).client_pos(),
            final(self).pending() == old(self).pending(),
            final(self).server_pos() == old(self).server_pos() + data@.len(),
            r@ == encode_stream(old(self).ops(), data@, old(self).server_pos() as nat),
    {
        let ghost start = old(self).server_pos() as nat;
        let mut out: Vec<u8> = Vec::new();
        let mut i: usize = 0;
        while i < data.len()
            invariant
                i <= data@.len(),
                self.cipher@ == old(self).cipher@,
                self.line@ == old(self).line@,
                self.client_pos == old(self).client_pos,
                start == old(self).server_pos() as nat,
                start + data@.len() <= usize::MAX,
                self.server_pos == start + i,
                out@.len() == i,
                forall|j: int|
                    0 <= j < i ==> out@[j] == chain_encode(
                        self.cipher@,
                        data@[j],
                        ((start + j) % 256) as u8,
                    ),
            decreases data@.len() - i,
        {
            let e = self.cipher.encode(data[i], self.server_pos);
            out.push(e);
            self.server_pos = self.server_pos + 1;
            i = i + 1;
        }
        proof {
            assert(out@ =~= encode_stream(old(self).ops(), data@, start));
            assert forall|k: int| 0 <= k < self.pending().len() implies self.pending()[k]
                != NEWLINE by {
                assert(self.pending()[k] == old(self).pending()[k]);
            }
        }
        out
    }
}

} // verus!
