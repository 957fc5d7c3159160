//! A response body sent with chunked transfer coding: each chunk of the
//! request body that arrives is written out as a chunk frame, and the end
//! of the stream as the last, empty chunk.
use vstd::prelude::*;
use vstd::slice::SliceAdditionalExecFns;
use crate::request::Chunk;
use crate::text::{hex_ascii, hex_digits_value, lemma_hex_ascii, push_hex};
use crate::BUF_LEN;
use futures::channel::mpsc::Receiver;

verus! {

/// The end of a chunked body: "\r\n" after a chunk of size zero.
const LAST_BIT: [u8; 5] = [48u8, 13u8, 10u8, 13u8, 10u8];

/// A line end, "\r\n".
const CRLF: [u8; 2] = [13u8, 10u8];

/// The bytes "0\r\n\r\n" that end a chunked body.
pub open spec fn last_chunk() -> Seq<u8> {
    seq![48u8, 13u8, 10u8, 13u8, 10u8]
}

/// "\r\n".
pub open spec fn crlf() -> Seq<u8> {
    seq![13u8, 10u8]
}

/// The frame of one chunk: its size in hexadecimal, a line end, its bytes,
/// a line end.
pub open spec fn chunk_frame(data: Seq<u8>) -> Seq<u8> {
    hex_ascii(data.len()) + crlf() + data + crlf()
}

/// Law: a chunk's frame is its size as a hexadecimal numeral, CR LF, its
/// bytes, CR LF; the frame that ends a body is "0", CR LF, CR LF, which is
/// the frame of a chunk of no bytes.
pub proof fn lemma_chunk_frame(data: Seq<u8>)
    ensures
        chunk_frame(data) == hex_ascii(data.len()) + seq![13u8, 10u8] + data + seq![13u8, 10u8],
        hex_digits_value(hex_ascii(data.len())) == data.len(),
        chunk_frame(data).len() == hex_ascii(data.len()).len() + data.len() + 4,
        last_chunk() == seq![48u8, 13u8, 10u8, 13u8, 10u8],
        last_chunk() == chunk_frame(Seq::<u8>::empty()),
{
    lemma_hex_ascii(data.len());
    assert(hex_ascii(0) =~= seq![48u8]);
    assert(chunk_frame(Seq::<u8>::empty()) =~= seq![48u8, 13u8, 10u8, 13u8, 10u8]);
}

/// A body that reads chunks from a channel and frames them.
pub struct ChunkedBody {
    receiver: Receiver<Chunk>,
    last_bit: Option<[u8; 5]>,
    extend: Vec<u8>,
}

impl ChunkedBody {
    /// The channel the chunks come from.
    pub closed spec fn spec_receiver(&self) -> Receiver<Chunk> {
        self.receiver
    }

    /// Whether the last chunk has been written.
    pub closed spec fn spec_finished(&self) -> bool {
        self.last_bit is None
    }

    /// The end marker that is still to be written is the right one.
    pub closed spec fn wf(&self) -> bool {
        self.last_bit matches Some(b) ==> b@ == last_chunk()
    }

    /// A body that has written nothing yet.
    pub fn new(receiver: Receiver<Chunk>) -> (res: ChunkedBody)
        ensures
            res.wf(),
            res.spec_receiver() == receiver,
            !res.spec_finished(),
    {
        let res = ChunkedBody { receiver, last_bit: Some(LAST_BIT), extend: Vec::new() };
        assert(LAST_BIT@ =~= last_chunk());
        res
    }

    /// Whether the last chunk has been written, so that reading gives nothing more.
    pub fn finished(&self) -> (res: bool)
        ensures
            res == self.spec_finished(),
    {
        self.last_bit.is_none()
    }

    /// The channel the chunks come from, to wait on it.
    pub fn receiver_mut(&mut self) -> (res: &mut Receiver<Chunk>)
        ensures
            *res == old(self).spec_receiver(),
            final(self).spec_receiver() == *final(res),
            final(self).spec_finished() == old(self).spec_finished(),
            old(self).wf() ==> final(self).wf(),
    {
        &mut self.receiver
    }

    /// Writes `buf` into `poll_buf` at `offset`.
    fn copy_to_buf(&mut self, poll_buf: &mut [u8], buf: &[u8], offset: usize) -> (res: usize)
        requires
            offset + buf@.len() <= old(poll_buf)@.len(),
        ensures
            res == buf@.len(),
            final(poll_buf)@ == old(poll_buf)@.take(offset as int) + buf@ + old(poll_buf)@.skip(
                offset + buf@.len(),
            ),
            *final(self) == *old(self),
    {
        let mut i: usize = 0;
        while i < buf.len()
            invariant
                i <= buf@.len(),
                offset + buf.len() <= poll_buf.len(),
                poll_buf@.len() == old(poll_buf)@.len(),
                poll_buf@ == old(poll_buf)@.take(offset as int) + buf@.take(i as int) + old(
                    poll_buf,
                )@.skip(offset + i),
            decreases buf@.len() - i,
        {
            poll_buf[offset + i] = buf[i];
            i = i + 1;
            assert(poll_buf@ =~= old(poll_buf)@.take(offset as int) + buf@.take(i as int) + old(
                poll_buf,
            )@.skip(offset + i));
        }
        assert(buf@.take(buf@.len() as int) =~= buf@);
        buf.len()
    }

    /// Writes out what the channel gave: a body chunk as its frame; the
    /// trailers or the end of the channel as the last chunk. Once the last
    /// chunk is written, nothing more is, whatever comes. Returns how many
    /// bytes were written at the start of `poll_buf`.
    pub fn write_chunk(&mut self, chunk: Option<Chunk>, poll_buf: &mut [u8]) -> (res: usize)
        requires
            old(self).wf(),
            !old(self).spec_finished() ==> match chunk {
                Some(Chunk::Body { size, .. }) => {
                    &&& size <= BUF_LEN
                    &&& hex_ascii(size as nat).len() + size + 4 <= old(poll_buf)@.len()
                },
                _ => 5 <= old(poll_buf)@.len(),
            },
        ensures
            final(self).wf(),
            final(self).spec_receiver() == old(self).spec_receiver(),
            old(self).spec_finished() ==> {
                &&& res == 0
                &&& final(poll_buf)@ == old(poll_buf)@
                &&& final(self).spec_finished()
            },
            !old(self).spec_finished() ==> match chunk {
                Some(Chunk::Body { buf, size }) => {
                    let frame = chunk_frame(buf@.take(size as int));
                    &&& res == frame.len()
                    &&& final(poll_buf)@ == frame + old(poll_buf)@.skip(frame.len() as int)
                    &&& !final(self).spec_finished()
                },
                _ => {
                    &&& res == 5
                    &&& final(poll_buf)@ == last_chunk() + old(poll_buf)@.skip(5)
                    &&& final(self).spec_finished()
                },
            },
    {
        if self.last_bit.is_none() {
            return 0;
        }
        match chunk {
            Some(Chunk::Body { buf, size }) => {
                let ghost data = buf@.take(size as int);
                let mut sz: Vec<u8> = Vec::new();
                push_hex(&mut sz, size);
                assert(sz@ =~= hex_ascii(size as nat));
                let ghost p0 = poll_buf@;
                let cap = poll_buf.len();
                assert(sz@.len() + size + 4 <= cap);
                let mut offset: usize = 0;
                offset = offset + self.copy_to_buf(poll_buf, sz.as_slice(), offset);
                assert(offset == sz@.len());
                offset = offset + self.copy_to_buf(poll_buf, CRLF.as_slice(), offset);
                assert(offset == sz@.len() + 2);
                let body = vstd::slice::slice_subrange(buf.as_slice(), 0, size);
                offset = offset + self.copy_to_buf(poll_buf, body, offset);
                assert(offset == sz@.len() + 2 + size);
                offset = offset + self.copy_to_buf(poll_buf, CRLF.as_slice(), offset);
                proof {
                    assert(CRLF@ =~= crlf());
                    assert(body@ =~= data);
                    assert(poll_buf@ =~= chunk_frame(data) + p0.skip(chunk_frame(data).len() as int));
                }
                offset
            },
            _ => {
                match self.last_bit {
                    Some(last_bit) => {
                        let ghost p0 = poll_buf@;
                        let n = self.copy_to_buf(poll_buf, last_bit.as_slice(), 0);
                        self.last_bit = None;
                        assert(poll_buf@ =~= last_chunk() + p0.skip(5));
                        n
                    },
                    None => 0,
                }
            },
        }
    }
}

} // verus!
