//! SACK chunks: the cumulative TSN acknowledged, the receive window, gap blocks and
//! duplicate TSNs.
use vstd::prelude::*;

use crate::packet::param::{padding_for, padding_needed};
use crate::packet::Tsn;
use crate::wire::{
    be16, be32, lemma_be16, lemma_be32, put_u16, put_u32, put_u8, put_zeros, read_u16, read_u32,
    u16_at, u32_at, zeros,
};

verus! {

/// A SACK chunk. Gap blocks are offsets from the cumulative TSN.
#[derive(Debug, PartialEq, Eq)]
pub struct SelectiveAck {
    pub cum_tsn: Tsn,
    pub a_rwnd: u32,
    pub blocks: Vec<(u16, u16)>,
    pub duplicated_tsn: Vec<u32>,
}

/// The value of a [`SelectiveAck`].
pub struct SelectiveAckView {
    pub cum_tsn: Tsn,
    pub a_rwnd: u32,
    pub blocks: Seq<(u16, u16)>,
    pub duplicated_tsn: Seq<u32>,
}

impl View for SelectiveAck {
    type V = SelectiveAckView;

    open spec fn view(&self) -> SelectiveAckView {
        SelectiveAckView {
            cum_tsn: self.cum_tsn,
            a_rwnd: self.a_rwnd,
            blocks: self.blocks@,
            duplicated_tsn: self.duplicated_tsn@,
        }
    }
}

/// The encoding of gap blocks: start and end of each.
pub open spec fn blocks_encoding(s: Seq<(u16, u16)>) -> Seq<u8>
    decreases s.len(),
{
    if s.len() == 0 {
        seq![]
    } else {
        blocks_encoding(s.drop_last()) + be16(s.last().0) + be16(s.last().1)
    }
}

/// The encoding of duplicate TSNs.
pub open spec fn dups_encoding(s: Seq<u32>) -> Seq<u8>
    decreases s.len(),
{
    if s.len() == 0 {
        seq![]
    } else {
        dups_encoding(s.drop_last()) + be32(s.last())
    }
}

/// What `SelectiveAck::parse` reads from the value of a SACK chunk.
pub open spec fn spec_parse_sack(d: Seq<u8>) -> Option<SelectiveAckView> {
    if d.len() < 12 {
        None
    } else {
        let nb = u16_at(d, 8) as int;
        let nd = u16_at(d, 10) as int;
        if d.len() - 12 < 4 * (nb + nd) {
            None
        } else {
            Some(
                SelectiveAckView {
                    cum_tsn: Tsn(u32_at(d, 0)),
                    a_rwnd: u32_at(d, 4),
                    blocks: Seq::new(
                        nb as nat,
                        |i: int| (u16_at(d, 12 + 4 * i), u16_at(d, 14 + 4 * i)),
                    ),
                    duplicated_tsn: Seq::new(nd as nat, |i: int| u32_at(d, 12 + 4 * nb + 4 * i)),
                },
            )
        }
    }
}

impl SelectiveAckView {
    /// The value of the length field.
    pub open spec fn spec_size(self) -> nat {
        16 + self.blocks.len() * 4 + self.duplicated_tsn.len() * 4
    }

    /// The bytes that `serialize` writes.
    pub open spec fn spec_encode(self) -> Seq<u8> {
        seq![3u8, 0u8] + be16(self.spec_size() as u16) + be32(self.cum_tsn.0) + be32(self.a_rwnd)
            + be16(self.blocks.len() as u16) + be16(self.duplicated_tsn.len() as u16)
            + blocks_encoding(self.blocks) + dups_encoding(self.duplicated_tsn) + zeros(
            padding_for(self.spec_size()),
        )
    }
}

pub proof fn lemma_blocks_encoding(s: Seq<(u16, u16)>)
    ensures
        blocks_encoding(s).len() == 4 * s.len(),
        forall|i: int|
            0 <= i < s.len() ==> #[trigger] blocks_encoding(s).subrange(4 * i, 4 * i + 4) == be16(
                s[i].0,
            ) + be16(s[i].1),
    decreases s.len(),
{
    if s.len() > 0 {
        let p = s.drop_last();
        lemma_blocks_encoding(p);
        lemma_be16(s.last().0);
        lemma_be16(s.last().1);
        let e = blocks_encoding(s);
        assert forall|i: int| 0 <= i < s.len() implies #[trigger] e.subrange(4 * i, 4 * i + 4)
            == be16(s[i].0) + be16(s[i].1) by {
            if i < p.len() {
                assert(e.subrange(4 * i, 4 * i + 4) =~= blocks_encoding(p).subrange(4 * i, 4 * i + 4));
            } else {
                assert(e.subrange(4 * i, 4 * i + 4) =~= be16(s[i].0) + be16(s[i].1));
            }
        }
    }
}

pub proof fn lemma_dups_encoding(s: Seq<u32>)
    ensures
        dups_encoding(s).len() == 4 * s.len(),
        forall|i: int|
            0 <= i < s.len() ==> #[trigger] dups_encoding(s).subrange(4 * i, 4 * i + 4) == be32(s[i]),
    decreases s.len(),
{
    if s.len() > 0 {
        let p = s.drop_last();
        lemma_dups_encoding(p);
        lemma_be32(s.last());
        let e = dups_encoding(s);
        assert forall|i: int| 0 <= i < s.len() implies #[trigger] e.subrange(4 * i, 4 * i + 4)
            == be32(s[i]) by {
            if i < p.len() {
                assert(e.subrange(4 * i, 4 * i + 4) =~= dups_encoding(p).subrange(4 * i, 4 * i + 4));
            } else {
                assert(e.subrange(4 * i, 4 * i + 4) =~= be32(s[i]));
            }
        }
    }
}

impl SelectiveAck {
    pub open spec fn wf(&self) -> bool {
        self@.spec_size() + 4 <= usize::MAX
    }

    /// Reads a SACK from the value of the chunk; `None` when it is shorter than the counts
    /// of blocks and duplicates say.
    pub fn parse(data: &[u8]) -> (r: Option<Self>)
        ensures
            match r {
                Some(s) => spec_parse_sack(data@) == Some(s@),
                None => spec_parse_sack(data@) is None,
            },
    {
        if data.len() < 12 {
            return None;
        }
        let cum_tsn = read_u32(data, 0);
        let a_rwnd = read_u32(data, 4);
        let n_blocks = read_u16(data, 8);
        let n_dups = read_u16(data, 10);
        let nb: usize = n_blocks as usize;
        let nd: usize = n_dups as usize;
        if data.len() - 12 < 4 * (nb + nd) {
            return None;
        }
        let ghost spec = spec_parse_sack(data@).unwrap();
        let mut blocks: Vec<(u16, u16)> = Vec::new();
        let mut i: usize = 0;
        while i < nb
            invariant
                i <= nb,
                nb == u16_at(data@, 8),
                nd == u16_at(data@, 10),
                12 + 4 * (nb + nd) <= data@.len(),
                spec == spec_parse_sack(data@).unwrap(),
                spec_parse_sack(data@) is Some,
                blocks@ =~= spec.blocks.take(i as int),
            decreases nb - i,
        {
            let start = read_u16(data, 12 + 4 * i);
            let end = read_u16(data, 14 + 4 * i);
            blocks.push((start, end));
            i = i + 1;
        }
        let mut duplicated_tsn: Vec<u32> = Vec::new();
        let mut j: usize = 0;
        while j < nd
            invariant
                j <= nd,
                nb == u16_at(data@, 8),
                nd == u16_at(data@, 10),
                12 + 4 * (nb + nd) <= data@.len(),
                spec == spec_parse_sack(data@).unwrap(),
                spec_parse_sack(data@) is Some,
                duplicated_tsn@ =~= spec.duplicated_tsn.take(j as int),
            decreases nd - j,
        {
            let t = read_u32(data, 12 + 4 * nb + 4 * j);
            duplicated_tsn.push(t);
            j = j + 1;
        }
        assert(blocks@ =~= spec.blocks);
        assert(duplicated_tsn@ =~= spec.duplicated_tsn);
        Some(SelectiveAck { cum_tsn: Tsn(cum_tsn), a_rwnd, blocks, duplicated_tsn })
    }

    /// The value of the length field.
    pub fn serialized_size(&self) -> (n: usize)
        requires
            self.wf(),
        ensures
            n == self@.spec_size(),
    {
        4 + 4 + 4 + 2 + 2 + self.blocks.len() * 4 + self.duplicated_tsn.len() * 4
    }

    /// Appends the chunk.
    pub fn serialize(&self, buf: &mut Vec<u8>)
        requires
            self.wf(),
        ensures
            final(buf)@ == old(buf)@ + self@.spec_encode(),
    {
        put_u8(buf, 3);
        put_u8(buf, 0);
        let size = self.serialized_size();
        put_u16(buf, size as u16);
        put_u32(buf, self.cum_tsn.0);
        put_u32(buf, self.a_rwnd);
        put_u16(buf, self.blocks.len() as u16);
        put_u16(buf, self.duplicated_tsn.len() as u16);
        let ghost head = buf@;
        let mut i: usize = 0;
        assert(self.blocks@.take(0) =~= seq![]);
        assert(head + blocks_encoding(self.blocks@.take(0)) =~= head);
        while i < self.blocks.len()
            invariant
                i <= self.blocks@.len(),
                buf@ == head + blocks_encoding(self.blocks@.take(i as int)),
            decreases self.blocks@.len() - i,
        {
            let block = self.blocks[i];
            put_u16(buf, block.0);
            put_u16(buf, block.1);
            i = i + 1;
            assert(self.blocks@.take(i as int).drop_last() =~= self.blocks@.take(i - 1));
            assert(buf@ =~= head + blocks_encoding(self.blocks@.take(i as int)));
        }
        assert(self.blocks@.take(i as int) =~= self.blocks@);
        let ghost mid = buf@;
        let mut j: usize = 0;
        assert(self.duplicated_tsn@.take(0) =~= seq![]);
        assert(mid + dups_encoding(self.duplicated_tsn@.take(0)) =~= mid);
        while j < self.duplicated_tsn.len()
            invariant
                j <= self.duplicated_tsn@.len(),
                buf@ == mid + dups_encoding(self.duplicated_tsn@.take(j as int)),
            decreases self.duplicated_tsn@.len() - j,
        {
            put_u32(buf, self.duplicated_tsn[j]);
            j = j + 1;
            assert(self.duplicated_tsn@.take(j as int).drop_last() =~= self.duplicated_tsn@.take(
                j - 1,
            ));
            assert(buf@ =~= mid + dups_encoding(self.duplicated_tsn@.take(j as int)));
        }
        assert(self.duplicated_tsn@.take(j as int) =~= self.duplicated_tsn@);
        put_zeros(buf, padding_needed(size));
        assert(buf@ =~= old(buf)@ + self@.spec_encode());
    }
}

/// A SACK reads back from its encoding, when the counts and the length fit their fields.
pub proof fn lemma_sack_roundtrip(s: SelectiveAckView)
    requires
        s.spec_size() <= u16::MAX,
    ensures
        ({
            let e = s.spec_encode();
            &&& e.len() == s.spec_size()
            &&& e[0] == 3
            &&& u16_at(e, 2) == s.spec_size()
            &&& spec_parse_sack(e.subrange(4, s.spec_size() as int)) == Some(s)
        }),
{
    let e = s.spec_encode();
    let size = s.spec_size();
    let nb = s.blocks.len() as int;
    let nd = s.duplicated_tsn.len() as int;
    lemma_be16(size as u16);
    lemma_be32(s.cum_tsn.0);
    lemma_be32(s.a_rwnd);
    lemma_be16(nb as u16);
    lemma_be16(nd as u16);
    lemma_blocks_encoding(s.blocks);
    lemma_dups_encoding(s.duplicated_tsn);
    assert(padding_for(size) == 0);
    let v = e.subrange(4, size as int);
    let be = blocks_encoding(s.blocks);
    let de = dups_encoding(s.duplicated_tsn);
    assert(e.subrange(2, 4) =~= be16(size as u16));
    assert(v.subrange(0, 4) =~= be32(s.cum_tsn.0));
    assert(v.subrange(4, 8) =~= be32(s.a_rwnd));
    assert(v.subrange(8, 10) =~= be16(nb as u16));
    assert(v.subrange(10, 12) =~= be16(nd as u16));
    let p = spec_parse_sack(v).unwrap();
    assert(v.subrange(12, 12 + 4 * nb) =~= be);
    assert(v.subrange(12 + 4 * nb, 12 + 4 * nb + 4 * nd) =~= de);
    assert forall|i: int| 0 <= i < nb implies p.blocks[i] == s.blocks[i] by {
        assert(v.subrange(12 + 4 * i, 14 + 4 * i) =~= be.subrange(4 * i, 4 * i + 4).subrange(0, 2));
        assert(v.subrange(14 + 4 * i, 16 + 4 * i) =~= be.subrange(4 * i, 4 * i + 4).subrange(2, 4));
        lemma_be16(s.blocks[i].0);
        lemma_be16(s.blocks[i].1);
        assert((be16(s.blocks[i].0) + be16(s.blocks[i].1)).subrange(0, 2) =~= be16(s.blocks[i].0));
        assert((be16(s.blocks[i].0) + be16(s.blocks[i].1)).subrange(2, 4) =~= be16(s.blocks[i].1));
    }
    assert forall|i: int| 0 <= i < nd implies p.duplicated_tsn[i] == s.duplicated_tsn[i] by {
        assert(v.subrange(12 + 4 * nb + 4 * i, 12 + 4 * nb + 4 * i + 4) =~= de.subrange(
            4 * i,
            4 * i + 4,
        ));
        lemma_be32(s.duplicated_tsn[i]);
    }
    assert(p.blocks =~= s.blocks);
    assert(p.duplicated_tsn =~= s.duplicated_tsn);
}

} // verus!
