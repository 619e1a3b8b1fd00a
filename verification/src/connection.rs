//! One accepted connection's decoding state: a growable byte buffer that
//! accumulates what was read so far. Extraction of one frame takes exactly
//! the frame's bytes off the buffer's front and leaves every trailing byte
//! in place and in order; a zero-byte read is classified by whether a
//! partial frame was pending.

use vstd::prelude::*;

use crate::bytebuf::{
    bm_as_slice, bm_capacity, bm_extend, bm_freeze, bm_len, bm_reserve, bm_split_to, bm_view,
    bm_with_capacity, bytes_view,
};
use crate::codec::{
    decode_incomplete, decode_malformed, decode_yields_frame, frame_len, DecodeError, LengthScan,
    scan_length,
};
use crate::config::Config;

verus! {

/// How a peer's zero-byte read is to be understood.
#[derive(Debug, Clone, Copy, PartialEq, Eq)]
pub enum CloseKind {
    /// The peer closed with no partial frame pending.
    Clean,
    /// The peer closed while a frame was only partially received.
    Reset,
}

/// The buffer of bytes received on one connection and not yet consumed.
pub struct Connection {
    buffer: bytes::BytesMut,
}

impl View for Connection {
    type V = Seq<u8>;

    closed spec fn view(&self) -> Seq<u8> {
        bm_view(self.buffer)
    }
}

impl Connection {
    /// A fresh connection with an empty buffer, pre-sized from the
    /// configuration's receive-buffer hint.
    pub fn new(config: &Config) -> (c: Connection)
        ensures
            c@ == Seq::<u8>::empty(),
    {
        Connection { buffer: bm_with_capacity(config.tcp_recv_buf_size) }
    }

    /// The number of unconsumed bytes held.
    pub fn len(&self) -> (n: usize)
        ensures
            n == self@.len(),
    {
        bm_len(&self.buffer)
    }

    /// A copy of the unconsumed bytes, front to back.
    pub fn buffered(&self) -> (v: Vec<u8>)
        ensures
            v@ == self@,
    {
        let s = bm_as_slice(&self.buffer);
        vstd::slice::slice_to_vec(s)
    }

    /// Append freshly read bytes to the back of the buffer.
    pub fn feed(&mut self, data: &[u8])
        requires
            old(self)@.len() + data@.len() <= usize::MAX,
        ensures
            final(self)@ == old(self)@ + data@,
    {
        bm_extend(&mut self.buffer, data)
    }

    /// Grow the buffer when its spare capacity has fallen under 1024 bytes,
    /// so that reads are amortized rather than reallocating every time; the
    /// contents are untouched.
    pub fn ensure_spare(&mut self)
        requires
            old(self)@.len() + 1024 <= usize::MAX,
        ensures
            final(self)@ == old(self)@,
    {
        let len = bm_len(&self.buffer);
        let cap = bm_capacity(&self.buffer);
        if cap - len < 1024 {
            bm_reserve(&mut self.buffer, 1024);
        }
    }

    /// Classify a zero-byte read: clean closure on an empty buffer, a
    /// connection reset when bytes of an unfinished frame are pending.
    pub fn on_zero_read(&self) -> (k: CloseKind)
        ensures
            k == (if self@.len() == 0 {
                CloseKind::Clean
            } else {
                CloseKind::Reset
            }),
    {
        if bm_len(&self.buffer) == 0 {
            CloseKind::Clean
        } else {
            CloseKind::Reset
        }
    }

    /// Try to extract one frame from the buffer's front. A complete frame is
    /// split off exactly — header byte, length field, declared payload —
    /// leaving the trailing bytes in place and in order; a buffer that is
    /// merely too short is left untouched, as is a malformed one.
    pub fn parse_frame(&mut self) -> (r: Result<Option<bytes::Bytes>, DecodeError>)
        ensures
            match r {
                Ok(Some(frame)) => {
                    &&& decode_yields_frame(old(self)@)
                    &&& bytes_view(frame) == old(self)@.take(frame_len(old(self)@))
                    &&& final(self)@ == old(self)@.skip(frame_len(old(self)@))
                },
                Ok(None) => decode_incomplete(old(self)@) && final(self)@ == old(self)@,
                Err(e) => {
                    &&& e == DecodeError::Malformed
                    &&& decode_malformed(old(self)@)
                    &&& final(self)@ == old(self)@
                },
            },
    {
        let scan = {
            let s = bm_as_slice(&self.buffer);
            scan_length(s)
        };
        match scan {
            LengthScan::NeedMore => Ok(None),
            LengthScan::TooLong => Err(DecodeError::Malformed),
            LengthScan::Done { len_bytes, value } => {
                let total = 1 + len_bytes + value;
                let held = bm_len(&self.buffer);
                if held < total {
                    return Ok(None);
                }
                let front = bm_split_to(&mut self.buffer, total);
                Ok(Some(bm_freeze(front)))
            },
        }
    }
}

} // verus!
