//! Body chunks, stream errors, and the bookkeeping of bounded bodies.

use vstd::prelude::*;
use vstd::utf8::encode_utf8;
use std::sync::Arc;
use crate::text::{chars_of, string_of, push_str, push_all, decimal, decimal_text};
use crate::response::{Response, IntoResponse};

verus! {

/// The bytes behind a chunk: owned, or shared with other holders.
#[derive(Debug)]
pub enum ChunkBytes {
    Owned(Vec<u8>),
    Shared(Arc<Vec<u8>>),
}

/// A chunk of a response body, read from `position` on.
#[derive(Debug)]
pub struct Chunk {
    bytes: ChunkBytes,
    position: usize,
}

/// `Arc::try_unwrap`: the vector when this is its only holder, else the
/// shared handle back.
#[verifier::external_body]
fn unwrap_shared(bytes: Arc<Vec<u8>>) -> (r: Result<Vec<u8>, Arc<Vec<u8>>>)
    ensures
        match r {
            Ok(v) => v@ == (*bytes)@,
            Err(a) => (*a)@ == (*bytes)@,
        },
{
    Arc::try_unwrap(bytes)
}

impl Chunk {
    /// All the bytes behind the chunk, read or not.
    pub closed spec fn all_bytes(&self) -> Seq<u8> {
        match self.bytes {
            ChunkBytes::Owned(v) => v@,
            ChunkBytes::Shared(a) => (*a)@,
        }
    }

    pub closed spec fn spec_position(&self) -> nat {
        self.position as nat
    }

    pub open spec fn wf(&self) -> bool {
        self.spec_position() <= self.all_bytes().len()
    }

    /// The bytes not yet read.
    pub open spec fn rest(&self) -> Seq<u8> {
        self.all_bytes().skip(self.spec_position() as int)
    }

    /// A chunk over bytes shared with other holders.
    pub fn shared(bytes: Arc<Vec<u8>>) -> (r: Chunk)
        ensures
            r.wf(),
            r.rest() == (*bytes)@,
    {
        let r = Chunk { bytes: ChunkBytes::Shared(bytes), position: 0 };
        assert(r.rest() =~= r.all_bytes());
        r
    }

    /// A chunk owning `bytes`.
    pub fn from_vec(bytes: Vec<u8>) -> (r: Chunk)
        ensures
            r.wf(),
            r.rest() == bytes@,
    {
        let r = Chunk { bytes: ChunkBytes::Owned(bytes), position: 0 };
        assert(r.rest() =~= r.all_bytes());
        r
    }

    fn all(&self) -> (r: &[u8])
        ensures
            r@ == self.all_bytes(),
    {
        match &self.bytes {
            ChunkBytes::Owned(v) => v.as_slice(),
            ChunkBytes::Shared(a) => a.as_slice(),
        }
    }

    /// The number of bytes not yet read.
    pub fn remaining(&self) -> (n: usize)
        requires
            self.wf(),
        ensures
            n == self.rest().len(),
    {
        self.all().len() - self.position
    }

    /// The bytes not yet read.
    pub fn bytes(&self) -> (r: &[u8])
        requires
            self.wf(),
        ensures
            r@ == self.rest(),
    {
        let all = self.all();
        let r = vstd::slice::slice_subrange(all, self.position, all.len());
        assert(all@.subrange(self.position as int, all@.len() as int) =~= all@.skip(self.position as int));
        r
    }

    /// Marks `count` more bytes as read.
    pub fn advance(&mut self, count: usize)
        requires
            old(self).wf(),
            count <= old(self).rest().len(),
        ensures
            final(self).wf(),
            final(self).all_bytes() == old(self).all_bytes(),
            final(self).spec_position() == old(self).spec_position() + count,
            final(self).rest() == old(self).rest().skip(count as int),
    {
        let total = self.all().len();
        self.position = self.position + count;
        assert(final(self).rest() =~= old(self).rest().skip(count as int));
    }

    /// The unread bytes as a vector: owned bytes are moved (shifted in place
    /// when some were read); shared bytes are taken over when this is their
    /// only holder and copied otherwise.
    pub fn into_vec(self) -> (r: Vec<u8>)
        requires
            self.wf(),
        ensures
            r@ == self.rest(),
    {
        let ghost rest = self.rest();
        let position = self.position;
        let mut bytes = match self.bytes {
            ChunkBytes::Owned(v) => v,
            ChunkBytes::Shared(a) => match unwrap_shared(a) {
                Ok(v) => v,
                Err(a) => {
                    let c = Chunk { bytes: ChunkBytes::Shared(a), position };
                    return vstd::slice::slice_to_vec(c.bytes());
                },
            },
        };
        if position != 0 {
            let ghost original = bytes@;
            let n = bytes.len();
            let remaining = n - position;
            let mut i: usize = 0;
            while i < remaining
                invariant
                    remaining + position == original.len(),
                    n == original.len(),
                    bytes@.len() == original.len(),
                    i <= remaining,
                    forall|k: int| 0 <= k < i ==> #[trigger] bytes@[k] == original[k + position],
                    forall|k: int| i <= k < original.len() ==> #[trigger] bytes@[k] == original[k],
                decreases remaining - i,
            {
                let b = bytes[i + position];
                bytes.set(i, b);
                i += 1;
            }
            bytes.truncate(remaining);
            assert(bytes@ =~= original.skip(position as int));
        } else {
            assert(bytes@ =~= bytes@.skip(0));
        }
        bytes
    }
}

impl From<Vec<u8>> for Chunk {
    fn from(bytes: Vec<u8>) -> (r: Chunk) {
        Chunk { bytes: ChunkBytes::Owned(bytes), position: 0 }
    }
}

impl vstd::std_specs::convert::FromSpecImpl<Vec<u8>> for Chunk {
    open spec fn obeys_from_spec() -> bool {
        true
    }

    closed spec fn from_spec(v: Vec<u8>) -> Chunk {
        Chunk { bytes: ChunkBytes::Owned(v), position: 0 }
    }
}

/// A failure while reading or producing a body, with the status it is
/// answered with.
#[derive(Debug)]
pub struct StreamError {
    status: u16,
    message: String,
}

/// The message for a body over `limit` bytes.
pub open spec fn too_large_message(limit: nat) -> Seq<char> {
    "request body exceeds the "@ + decimal(limit) + "-byte limit"@
}

impl StreamError {
    pub closed spec fn spec_status(&self) -> u16 {
        self.status
    }

    pub closed spec fn spec_message(&self) -> Seq<char> {
        self.message@
    }

    /// A `400` error with `message`.
    pub fn new(message: String) -> (r: StreamError)
        ensures
            r.spec_status() == 400,
            r.spec_message() == message@,
    {
        StreamError { status: 400, message }
    }

    /// The `413` error for a body over `limit` bytes.
    pub fn payload_too_large(limit: usize) -> (r: StreamError)
        ensures
            r.spec_status() == 413,
            r.spec_message() == too_large_message(limit as nat),
    {
        let mut text = chars_of("request body exceeds the ");
        let digits = decimal_text(limit as u128);
        push_all(&mut text, digits.as_slice());
        push_str(&mut text, "-byte limit");
        StreamError { status: 413, message: string_of(text.as_slice()) }
    }

    pub fn message(&self) -> (r: &str)
        ensures
            r@ == self.spec_message(),
    {
        self.message.as_str()
    }

    pub fn status(&self) -> (r: u16)
        ensures
            r == self.spec_status(),
    {
        self.status
    }
}

impl IntoResponse for StreamError {
    open spec fn response_for(self, r: Response) -> bool {
        &&& (r.spec_status() == self.spec_status())
        &&& (r.spec_headers() == Response::typed("text/plain; charset=utf-8"@))
        &&& (r.spec_body().spec_buffered() == Some(encode_utf8(self.spec_message())))
    }

    /// A plain-text response with the error's status and message.
    fn into_response(self) -> (r: Response)
        ensures
            r.spec_status() == self.spec_status(),
            r.spec_headers() == Response::typed("text/plain; charset=utf-8"@),
            r.spec_body().spec_buffered() == Some(encode_utf8(self.spec_message())),
    {
        Response::error(self.status, self.message)
    }
}

/// Appends a chunk to a buffered body unless the body would then exceed
/// `limit` bytes.
pub fn append_within_limit(buffered: &mut Vec<u8>, chunk: &[u8], limit: Option<usize>) -> (r: Result<(), StreamError>)
    ensures
        match limit {
            Some(l) => if old(buffered)@.len() + chunk@.len() > l {
                r matches Err(e) && e.spec_status() == 413 && e.spec_message() == too_large_message(l as nat)
                    && final(buffered)@ == old(buffered)@
            } else {
                r is Ok && final(buffered)@ == old(buffered)@ + chunk@
            },
            None => r is Ok && final(buffered)@ == old(buffered)@ + chunk@,
        },
        limit matches Some(l) ==> (old(buffered)@.len() <= l ==> final(buffered)@.len() <= l),
{
    match limit {
        Some(l) => {
            if buffered.len() > l || chunk.len() > l - buffered.len() {
                return Err(StreamError::payload_too_large(l));
            }
        },
        None => {},
    }
    let mut i: usize = 0;
    let ghost start = buffered@;
    while i < chunk.len()
        invariant
            i <= chunk@.len(),
            buffered@ == start + chunk@.take(i as int),
        decreases chunk@.len() - i,
    {
        buffered.push(chunk[i]);
        i += 1;
        assert(buffered@ =~= start + chunk@.take(i as int));
    }
    assert(chunk@.take(chunk@.len() as int) =~= chunk@);
    Ok(())
}

/// The count of a body stream read so far against its limit.
#[derive(Debug, Clone, Copy)]
pub struct StreamLimit {
    limit: usize,
    read: usize,
    exhausted: bool,
}

impl StreamLimit {
    pub closed spec fn spec_limit(&self) -> usize {
        self.limit
    }

    pub closed spec fn spec_read(&self) -> usize {
        self.read
    }

    pub closed spec fn spec_exhausted(&self) -> bool {
        self.exhausted
    }

    pub fn new(limit: usize) -> (r: StreamLimit)
        ensures
            r.spec_limit() == limit,
            r.spec_read() == 0,
            !r.spec_exhausted(),
    {
        StreamLimit { limit, read: 0, exhausted: false }
    }

    /// Whether the stream has ended, failed, or gone over the limit; it then
    /// yields nothing more.
    pub fn is_exhausted(&self) -> (r: bool)
        ensures
            r == self.spec_exhausted(),
    {
        self.exhausted
    }

    /// Counts a chunk of `len` bytes (saturating); going over the limit
    /// exhausts the stream and gives the `413` error.
    pub fn accept(&mut self, len: usize) -> (r: Option<StreamError>)
        ensures
            final(self).spec_limit() == old(self).spec_limit(),
            final(self).spec_read() == if old(self).spec_read() + len > usize::MAX { usize::MAX as int } else {
                old(self).spec_read() + len
            },
            final(self).spec_read() > old(self).spec_limit() ==> (r matches Some(e) && e.spec_status() == 413
                && e.spec_message() == too_large_message(old(self).spec_limit() as nat)) && final(self).spec_exhausted(),
            final(self).spec_read() <= old(self).spec_limit() ==> r is None && final(self).spec_exhausted() == old(self).spec_exhausted(),
    {
        self.read = self.read.saturating_add(len);
        if self.read > self.limit {
            self.exhausted = true;
            Some(StreamError::payload_too_large(self.limit))
        } else {
            None
        }
    }

    /// Records that the stream ended or failed.
    pub fn finish(&mut self)
        ensures
            final(self).spec_exhausted(),
            final(self).spec_limit() == old(self).spec_limit(),
            final(self).spec_read() == old(self).spec_read(),
    {
        self.exhausted = true;
    }
}

/// A body already read into memory, handed out as one chunk.
#[derive(Debug)]
pub struct BufferedRequestStream {
    buffered: Vec<u8>,
    consumed: bool,
}

impl BufferedRequestStream {
    pub closed spec fn spec_buffered(&self) -> Seq<u8> {
        self.buffered@
    }

    pub closed spec fn spec_consumed(&self) -> bool {
        self.consumed
    }

    pub fn new(buffered: Vec<u8>) -> (r: BufferedRequestStream)
        ensures
            r.spec_buffered() == buffered@,
            !r.spec_consumed(),
    {
        BufferedRequestStream { buffered, consumed: false }
    }

    /// Advances to the chunk: there is one, the whole body, when the body is
    /// not empty and was not handed out yet.
    pub fn advance(&mut self) -> (r: bool)
        ensures
            r == (!old(self).spec_consumed() && old(self).spec_buffered().len() > 0),
            final(self).spec_buffered() == old(self).spec_buffered(),
            final(self).spec_consumed() == (old(self).spec_consumed() || r),
    {
        if self.consumed || self.buffered.len() == 0 {
            return false;
        }
        self.consumed = true;
        true
    }

    pub fn chunk(&self) -> (r: &[u8])
        ensures
            r@ == self.spec_buffered(),
    {
        self.buffered.as_slice()
    }
}

} // verus!
