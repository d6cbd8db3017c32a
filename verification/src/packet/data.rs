//! DATA chunks: user data of one stream.
use vstd::prelude::*;

use crate::packet::param::{padding_for, padding_needed};
use crate::packet::{Sequence, Tsn};
use crate::wire::{
    be16, be32, copy_range, lemma_be16, lemma_be32, put_slice, put_u16, put_u32, put_u8,
    put_zeros, read_u16, read_u32, u16_at, u32_at, zeros,
};

verus! {

/// A DATA chunk: a piece of a user message with its TSN, stream, sequence number and flags.
#[derive(Debug, PartialEq, Eq)]
pub struct DataChunk {
    pub tsn: Tsn,
    pub stream_id: u16,
    pub stream_seq_num: Sequence,
    pub ppid: u32,
    pub buf: Vec<u8>,
    pub immediate: bool,
    pub unordered: bool,
    pub begin: bool,
    pub end: bool,
}

/// The value of a [`DataChunk`].
pub struct DataChunkView {
    pub tsn: Tsn,
    pub stream_id: u16,
    pub stream_seq_num: Sequence,
    pub ppid: u32,
    pub buf: Seq<u8>,
    pub immediate: bool,
    pub unordered: bool,
    pub begin: bool,
    pub end: bool,
}

impl View for DataChunk {
    type V = DataChunkView;

    open spec fn view(&self) -> DataChunkView {
        DataChunkView {
            tsn: self.tsn,
            stream_id: self.stream_id,
            stream_seq_num: self.stream_seq_num,
            ppid: self.ppid,
            buf: self.buf@,
            immediate: self.immediate,
            unordered: self.unordered,
            begin: self.begin,
            end: self.end,
        }
    }
}

/// The flags byte: bit 3 immediate, bit 2 unordered, bit 1 beginning, bit 0 end.
pub open spec fn spec_flags(immediate: bool, unordered: bool, begin: bool, end: bool) -> u8 {
    ((if immediate {
        8int
    } else {
        0
    }) + (if unordered {
        4int
    } else {
        0
    }) + (if begin {
        2int
    } else {
        0
    }) + (if end {
        1int
    } else {
        0
    })) as u8
}

/// What `DataChunk::parse` reads from the flags and the value of a DATA chunk.
pub open spec fn spec_parse_data(flags: u8, d: Seq<u8>) -> Option<DataChunkView> {
    if d.len() < 13 {
        None
    } else {
        Some(
            DataChunkView {
                tsn: Tsn(u32_at(d, 0)),
                stream_id: u16_at(d, 4),
                stream_seq_num: Sequence(u16_at(d, 6)),
                ppid: u32_at(d, 8),
                buf: d.skip(12),
                immediate: flags & 8 == 8,
                unordered: flags & 4 == 4,
                begin: flags & 2 == 2,
                end: flags & 1 == 1,
            },
        )
    }
}

impl DataChunkView {
    /// The value of the length field: header, fields and payload.
    pub open spec fn spec_size(self) -> nat {
        16 + self.buf.len()
    }

    /// The bytes that `serialize` writes: nothing for an empty payload, else the padded
    /// chunk.
    pub open spec fn spec_encode(self) -> Seq<u8> {
        if self.buf.len() == 0 {
            seq![]
        } else {
            seq![0u8, spec_flags(self.immediate, self.unordered, self.begin, self.end)] + be16(
                self.spec_size() as u16,
            ) + be32(self.tsn.0) + be16(self.stream_id) + be16(self.stream_seq_num.0) + be32(
                self.ppid,
            ) + self.buf + zeros(padding_for(self.spec_size()))
        }
    }
}

impl DataChunk {
    pub open spec fn wf(&self) -> bool {
        self.buf@.len() + 32 <= usize::MAX
    }

    /// Reads a DATA chunk from its flags and value; needs the twelve bytes of fields and at
    /// least one byte of payload.
    pub fn parse(flags: u8, data: &[u8]) -> (r: Option<Self>)
        ensures
            match r {
                Some(c) => spec_parse_data(flags, data@) == Some(c@),
                None => spec_parse_data(flags, data@) is None,
            },
    {
        if data.len() < 13 {
            return None;
        }
        let tsn = read_u32(data, 0);
        let stream_id = read_u16(data, 4);
        let stream_seq_num = read_u16(data, 6);
        let ppid = read_u32(data, 8);
        let buf = copy_range(data, 12, data.len());
        assert(buf@ =~= data@.skip(12));
        Some(
            DataChunk {
                tsn: Tsn(tsn),
                stream_id,
                stream_seq_num: Sequence(stream_seq_num),
                ppid,
                buf,
                immediate: flags & 8 == 8,
                unordered: flags & 4 == 4,
                begin: flags & 2 == 2,
                end: flags & 1 == 1,
            },
        )
    }

    /// The value of the length field.
    pub fn serialized_size(&self) -> (n: usize)
        requires
            self.wf(),
        ensures
            n == self@.spec_size(),
    {
        16 + self.buf.len()
    }

    /// Appends the chunk, padded; writes nothing if the payload is empty.
    pub fn serialize(&self, buf: &mut Vec<u8>)
        requires
            self.wf(),
        ensures
            final(buf)@ == old(buf)@ + self@.spec_encode(),
    {
        if self.buf.len() > 0 {
            put_u8(buf, 0);
            put_u8(buf, self.serialize_flags());
            let size = self.serialized_size();
            put_u16(buf, size as u16);
            put_u32(buf, self.tsn.0);
            put_u16(buf, self.stream_id);
            put_u16(buf, self.stream_seq_num.0);
            put_u32(buf, self.ppid);
            put_slice(buf, self.buf.as_slice());
            put_zeros(buf, padding_needed(size));
            assert(buf@ =~= old(buf)@ + self@.spec_encode());
        } else {
            assert(buf@ =~= old(buf)@ + self@.spec_encode());
        }
    }

    /// The flags byte of the chunk.
    pub fn serialize_flags(&self) -> (r: u8)
        ensures
            r == spec_flags(self.immediate, self.unordered, self.begin, self.end),
    {
        let mut flags: u8 = 0;
        if self.immediate {
            flags = flags + 8;
        }
        if self.unordered {
            flags = flags + 4;
        }
        if self.begin {
            flags = flags + 2;
        }
        if self.end {
            flags = flags + 1;
        }
        flags
    }

    /// A copy of the chunk.
    pub fn clone_chunk(&self) -> (r: Self)
        ensures
            r@ == self@,
    {
        let buf = copy_range(self.buf.as_slice(), 0, self.buf.len());
        assert(buf@ =~= self.buf@);
        DataChunk {
            tsn: self.tsn,
            stream_id: self.stream_id,
            stream_seq_num: self.stream_seq_num,
            ppid: self.ppid,
            buf,
            immediate: self.immediate,
            unordered: self.unordered,
            begin: self.begin,
            end: self.end,
        }
    }
}

/// The flags read back from the flags byte are the flags written.
pub proof fn lemma_flags_roundtrip(immediate: bool, unordered: bool, begin: bool, end: bool)
    ensures
        ({
            let f = spec_flags(immediate, unordered, begin, end);
            &&& (f & 8 == 8) == immediate
            &&& (f & 4 == 4) == unordered
            &&& (f & 2 == 2) == begin
            &&& (f & 1 == 1) == end
        }),
{
    let f = spec_flags(immediate, unordered, begin, end);
    let i: u8 = if immediate { 8 } else { 0 };
    let u: u8 = if unordered { 4 } else { 0 };
    let b: u8 = if begin { 2 } else { 0 };
    let e: u8 = if end { 1 } else { 0 };
    assert(f == i + u + b + e);
    assert((i == 8 || i == 0) && (u == 4 || u == 0) && (b == 2 || b == 0) && (e == 1 || e == 0)
        ==> {
        let g = (i + u + b + e) as u8;
        &&& (g & 8 == 8) == (i == 8)
        &&& (g & 4 == 4) == (u == 4)
        &&& (g & 2 == 2) == (b == 2)
        &&& (g & 1 == 1) == (e == 1)
    }) by (bit_vector);
}

/// A DATA chunk with a payload reads back from its encoding: the type, the flags, the
/// length field and the value.
pub proof fn lemma_data_roundtrip(c: DataChunkView)
    requires
        c.buf.len() > 0,
        c.spec_size() <= u16::MAX,
    ensures
        ({
            let e = c.spec_encode();
            &&& e.len() == 4 + 12 + c.buf.len() + padding_for(c.spec_size())
            &&& e[0] == 0
            &&& u16_at(e, 2) == c.spec_size()
            &&& spec_parse_data(e[1], e.subrange(4, c.spec_size() as int)) == Some(c)
        }),
{
    let e = c.spec_encode();
    let size = c.spec_size();
    lemma_be16(size as u16);
    lemma_be32(c.tsn.0);
    lemma_be16(c.stream_id);
    lemma_be16(c.stream_seq_num.0);
    lemma_be32(c.ppid);
    lemma_flags_roundtrip(c.immediate, c.unordered, c.begin, c.end);
    let v = e.subrange(4, size as int);
    assert(e.subrange(2, 4) =~= be16(size as u16));
    assert(v.subrange(0, 4) =~= be32(c.tsn.0));
    assert(v.subrange(4, 6) =~= be16(c.stream_id));
    assert(v.subrange(6, 8) =~= be16(c.stream_seq_num.0));
    assert(v.subrange(8, 12) =~= be32(c.ppid));
    assert(v.skip(12) =~= c.buf);
}

} // verus!
