//! The framed reader's buffering logic. One logical message is expected per
//! connection: every chunk a read returns is buffered raw, and only once the
//! peer has closed is the whole buffer decoded as UTF-8, so a multi-byte
//! sequence split across chunk boundaries is never broken. If the assembled
//! bytes contain a NUL, the logical message ends at that byte.

use vstd::prelude::*;
use vstd::utf8::{decode_utf8, valid_utf8};
use crate::data::DecodeError;

verus! {

/// Position of the first NUL byte, or the length when there is none: the
/// logical message ends there.
pub open spec fn nul_cut(bytes: Seq<u8>) -> int
    decreases bytes.len(),
{
    if bytes.len() == 0 {
        0
    } else if bytes[0] == 0 {
        0
    } else {
        1 + nul_cut(bytes.subrange(1, bytes.len() as int))
    }
}

/// `nul_cut` is the position with no NUL before it and a NUL (or the end) at it.
proof fn lemma_nul_cut_at(bytes: Seq<u8>, i: int)
    requires
        0 <= i <= bytes.len(),
        forall|j: int| 0 <= j < i ==> bytes[j] != 0,
        i == bytes.len() || bytes[i] == 0,
    ensures
        nul_cut(bytes) == i,
    decreases bytes.len(),
{
    if i == 0 {
    } else {
        let tail = bytes.subrange(1, bytes.len() as int);
        assert(bytes[0] != 0);
        assert(forall|j: int| 0 <= j < i - 1 ==> tail[j] == bytes[j + 1] && bytes[j + 1] != 0);
        lemma_nul_cut_at(tail, i - 1);
    }
}

/// Finds the position of the first NUL byte, or the length when there is none.
fn find_nul(bytes: &Vec<u8>) -> (r: usize)
    ensures
        r == nul_cut(bytes@),
        r <= bytes@.len(),
{
    let n = bytes.len();
    let mut i: usize = 0;
    while i < n
        invariant
            i <= n,
            n == bytes@.len(),
            forall|j: int| 0 <= j < i ==> bytes@[j] != 0,
        decreases n - i,
    {
        if bytes[i] == 0 {
            proof {
                lemma_nul_cut_at(bytes@, i as int);
            }
            return i;
        }
        i = i + 1;
    }
    proof {
        lemma_nul_cut_at(bytes@, n as int);
    }
    n
}

/// Relies on String::from_utf8: it returns the string decoded from the given
/// bytes exactly when they are valid UTF-8, as vstd's UTF-8 model states it.
#[verifier::external_body]
fn utf8_to_string(bytes: Vec<u8>) -> (r: Option<String>)
    ensures
        r is Some <==> valid_utf8(bytes@),
        r matches Some(s) ==> s@ == decode_utf8(bytes@),
{
    match String::from_utf8(bytes) {
        Ok(s) => Some(s),
        Err(_) => None,
    }
}

/// Accumulates the raw bytes of one connection until the peer closes.
pub struct FrameBuffer {
    bytes: Vec<u8>,
}

impl View for FrameBuffer {
    type V = Seq<u8>;

    closed spec fn view(&self) -> Seq<u8> {
        self.bytes@
    }
}

impl FrameBuffer {
    /// An empty buffer for a fresh connection.
    pub fn new() -> (r: FrameBuffer)
        ensures
            r@ == Seq::<u8>::empty(),
    {
        FrameBuffer { bytes: Vec::new() }
    }

    /// Appends the first `n` bytes of a chunk, as one read returned it.
    pub fn push_chunk(&mut self, chunk: &[u8], n: usize)
        requires
            n <= chunk@.len(),
        ensures
            final(self)@ == old(self)@ + chunk@.subrange(0, n as int),
    {
        let mut j: usize = 0;
        while j < n
            invariant
                j <= n <= chunk@.len(),
                self.bytes@ == old(self)@ + chunk@.subrange(0, j as int),
            decreases n - j,
        {
            self.bytes.push(chunk[j]);
            proof {
                assert(self.bytes@ =~= old(self)@ + chunk@.subrange(0, j + 1 as int));
            }
            j = j + 1;
        }
    }

    /// Closes the message: the bytes up to the first NUL are decoded as
    /// UTF-8; anything after a NUL is discarded; bytes that are not valid
    /// UTF-8 are malformed input.
    pub fn finish(self) -> (r: Result<String, DecodeError>)
        ensures
            ({
                let kept = self@.subrange(0, nul_cut(self@));
                match r {
                    Ok(s) => valid_utf8(kept) && s@ == decode_utf8(kept),
                    Err(e) => !valid_utf8(kept) && e == DecodeError::MalformedInput,
                }
            }),
    {
        let mut bytes = self.bytes;
        let cut = find_nul(&bytes);
        bytes.truncate(cut);
        match utf8_to_string(bytes) {
            Some(s) => Ok(s),
            None => Err(DecodeError::MalformedInput),
        }
    }
}

} // verus!
