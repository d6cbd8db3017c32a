//! Serial numbers that wrap around: stream sequence numbers and transmission sequence numbers.
use std::cmp::Ordering;
use vstd::prelude::*;

verus! {

/// The order of two serial numbers `a` and `b` that range over `0..=max`, with wrap radius
/// `rad`: a number just past zero (below `rad`) counts as greater than one just below the
/// top (above `max - rad`), and otherwise the numbers compare as integers.
/// -1 means less, 0 equal, 1 greater.
pub open spec fn wrap_order(a: int, b: int, max: int, rad: int) -> int {
    if a < rad && b > max - rad {
        1
    } else if b < rad && a > max - rad {
        -1
    } else if a < b {
        -1
    } else if a == b {
        0
    } else {
        1
    }
}

pub open spec fn wrap_order_u32(a: u32, b: u32, max: u32, rad: u32) -> int {
    wrap_order(a as int, b as int, max as int, rad as int)
}

/// The wrap radius of stream sequence numbers: `u16::MAX / 128`.
pub open spec fn seq_rad() -> int {
    511
}

/// The wrap radius of TSNs: `u32::MAX / 128`.
pub open spec fn tsn_rad() -> int {
    33554431
}

pub open spec fn order_of(o: Ordering) -> int {
    match o {
        Ordering::Less => -1,
        Ordering::Equal => 0,
        Ordering::Greater => 1,
    }
}

/// The order of stream sequence numbers.
pub open spec fn seq_order(a: u16, b: u16) -> int {
    wrap_order(a as int, b as int, 65535, seq_rad())
}

/// The order of TSNs.
pub open spec fn tsn_order(a: u32, b: u32) -> int {
    wrap_order(a as int, b as int, 4294967295, tsn_rad())
}

/// A stream sequence number.
#[derive(Clone, Copy, PartialEq, Eq, Structural, Debug)]
pub struct Sequence(pub u16);

/// A transmission sequence number.
#[derive(Clone, Copy, PartialEq, Eq, Structural, Debug)]
pub struct Tsn(pub u32);

fn wrap_compare(a: u32, b: u32, max: u32, rad: u32) -> (r: Ordering)
    requires
        rad <= max,
    ensures
        order_of(r) == wrap_order_u32(a, b, max, rad),
{
    let hi = max - rad;
    if a < rad && b > hi {
        Ordering::Greater
    } else if b < rad && a > hi {
        Ordering::Less
    } else if a < b {
        Ordering::Less
    } else if a == b {
        Ordering::Equal
    } else {
        Ordering::Greater
    }
}

impl Sequence {
    /// The next sequence number, wrapping at the top.
    pub fn increase(self) -> (r: Self)
        ensures
            r.0 as int == (self.0 as int + 1) % 65536,
    {
        Sequence(self.0.wrapping_add(1))
    }

    /// The previous sequence number, wrapping at zero.
    pub fn decrease(self) -> (r: Self)
        ensures
            r.0 as int == (self.0 as int + 65535) % 65536,
    {
        Sequence(self.0.wrapping_sub(1))
    }

    /// Compares with wrap around: see [`wrap_order`].
    pub fn cmp(&self, other: &Self) -> (r: Ordering)
        ensures
            order_of(r) == seq_order(self.0, other.0),
    {
        let a: u32 = self.0.into();
        let b: u32 = other.0.into();
        wrap_compare(a, b, 65535, 511)
    }
}

impl Tsn {
    /// The next TSN, wrapping at the top.
    pub fn increase(self) -> (r: Self)
        ensures
            r.0 as int == (self.0 as int + 1) % 4294967296,
    {
        Tsn(self.0.wrapping_add(1))
    }

    /// The previous TSN, wrapping at zero.
    pub fn decrease(self) -> (r: Self)
        ensures
            r.0 as int == (self.0 as int + 4294967295) % 4294967296,
    {
        Tsn(self.0.wrapping_sub(1))
    }

    /// Compares with wrap around: see [`wrap_order`].
    pub fn cmp(&self, other: &Self) -> (r: Ordering)
        ensures
            order_of(r) == tsn_order(self.0, other.0),
    {
        wrap_compare(self.0, other.0, 4294967295, 33554431)
    }

    /// `self < other` in the wrapping order.
    pub fn lt(&self, other: &Self) -> (r: bool)
        ensures
            r == (tsn_order(self.0, other.0) == -1),
    {
        match self.cmp(other) {
            Ordering::Less => true,
            _ => false,
        }
    }

    /// `self <= other` in the wrapping order.
    pub fn le(&self, other: &Self) -> (r: bool)
        ensures
            r == (tsn_order(self.0, other.0) != 1),
    {
        match self.cmp(other) {
            Ordering::Greater => false,
            _ => true,
        }
    }
}

/// The wrapping order is antisymmetric, and only equal numbers are equal in it.
pub proof fn lemma_wrap_order_antisymmetric(a: int, b: int, max: int, rad: int)
    requires
        0 <= rad,
        2 * rad < max,
        0 <= a <= max,
        0 <= b <= max,
    ensures
        wrap_order(a, b, max, rad) == -wrap_order(b, a, max, rad),
        wrap_order(a, b, max, rad) == 0 <==> a == b,
{
}

/// A sequence number comes before its successor, and `decrease` undoes `increase`.
pub proof fn lemma_sequence_successor(s: Sequence)
    ensures
        seq_order(s.0, ((s.0 as int + 1) % 65536) as u16) == -1,
        ((((s.0 as int + 1) % 65536) + 65535) % 65536) == s.0,
        seq_order(s.0, s.0) == 0,
{
}

/// A TSN comes before its successor, and `decrease` undoes `increase`.
pub proof fn lemma_tsn_successor(t: Tsn)
    ensures
        tsn_order(t.0, ((t.0 as int + 1) % 4294967296) as u32) == -1,
        ((((t.0 as int + 1) % 4294967296) + 4294967295) % 4294967296) == t.0,
        tsn_order(t.0, t.0) == 0,
{
}

/// The order of sequence numbers is antisymmetric.
pub proof fn lemma_sequence_order_antisymmetric(a: Sequence, b: Sequence)
    ensures
        seq_order(a.0, b.0) == -seq_order(b.0, a.0),
        seq_order(a.0, b.0) == 0 <==> a == b,
{
    lemma_wrap_order_antisymmetric(a.0 as int, b.0 as int, 65535, seq_rad());
}

/// The order of TSNs is antisymmetric.
pub proof fn lemma_tsn_order_antisymmetric(a: Tsn, b: Tsn)
    ensures
        tsn_order(a.0, b.0) == -tsn_order(b.0, a.0),
        tsn_order(a.0, b.0) == 0 <==> a == b,
{
    lemma_wrap_order_antisymmetric(a.0 as int, b.0 as int, 4294967295, tsn_rad());
}

} // verus!
