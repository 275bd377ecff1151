//! Directions and per-tile bounding masks.
//!
//! A tile stores, in the low four bits of one byte, which of its edges block
//! movement. The bit layout is shared with the map file format.

use vstd::prelude::*;

verus! {

pub const UP_VALUE: u8 = 0b1000;

pub const DOWN_VALUE: u8 = 0b0100;

pub const LEFT_VALUE: u8 = 0b0010;

pub const RIGHT_VALUE: u8 = 0b0001;

/// One of the four edges of a tile.
#[derive(Debug, Copy, Clone, PartialEq, Eq, Structural)]
pub enum Direction {
    Left,
    Right,
    Up,
    Down,
}

/// Which edges of a tile block: one variant for every subset of the four
/// directions. The `*Pass` variants are open on the named side only.
#[derive(Debug, Copy, Clone, PartialEq, Eq, Structural)]
pub enum Bounding {
    No,
    Left,
    Right,
    Up,
    Down,
    LeftUp,
    RightUp,
    LeftDown,
    RightDown,
    UpDown,
    LeftRight,
    UpPass,
    LeftPass,
    RightPass,
    DownPass,
    AllBlock,
}

impl Direction {
    /// The single bit that stands for this direction.
    pub open spec fn spec_bit(self) -> u8 {
        match self {
            Direction::Left => 0b0010u8,
            Direction::Right => 0b0001u8,
            Direction::Up => 0b1000u8,
            Direction::Down => 0b0100u8,
        }
    }

    #[verifier::when_used_as_spec(spec_bit)]
    pub fn bit(self) -> (r: u8)
        ensures
            r == self.spec_bit(),
    {
        match self {
            Direction::Left => LEFT_VALUE,
            Direction::Right => RIGHT_VALUE,
            Direction::Up => UP_VALUE,
            Direction::Down => DOWN_VALUE,
        }
    }
}

impl Bounding {
    /// The mask as it is stored in a map file.
    pub open spec fn spec_bits(self) -> u8 {
        match self {
            Bounding::No => 0b0000u8,
            Bounding::Left => 0b0010u8,
            Bounding::Right => 0b0001u8,
            Bounding::Up => 0b1000u8,
            Bounding::Down => 0b0100u8,
            Bounding::LeftUp => 0b1010u8,
            Bounding::RightUp => 0b1001u8,
            Bounding::LeftDown => 0b0110u8,
            Bounding::RightDown => 0b0101u8,
            Bounding::UpDown => 0b1100u8,
            Bounding::LeftRight => 0b0011u8,
            Bounding::UpPass => 0b0111u8,
            Bounding::LeftPass => 0b1101u8,
            Bounding::RightPass => 0b1110u8,
            Bounding::DownPass => 0b1011u8,
            Bounding::AllBlock => 0b1111u8,
        }
    }

    /// Whether the edge towards `to` is one of the blocking edges.
    pub open spec fn blocks(self, to: Direction) -> bool {
        self.spec_bits() & to.spec_bit() != 0
    }

    #[verifier::when_used_as_spec(spec_bits)]
    pub fn bits(self) -> (r: u8)
        ensures
            r == self.spec_bits(),
    {
        match self {
            Bounding::No => 0b0000,
            Bounding::Left => 0b0010,
            Bounding::Right => 0b0001,
            Bounding::Up => 0b1000,
            Bounding::Down => 0b0100,
            Bounding::LeftUp => 0b1010,
            Bounding::RightUp => 0b1001,
            Bounding::LeftDown => 0b0110,
            Bounding::RightDown => 0b0101,
            Bounding::UpDown => 0b1100,
            Bounding::LeftRight => 0b0011,
            Bounding::UpPass => 0b0111,
            Bounding::LeftPass => 0b1101,
            Bounding::RightPass => 0b1110,
            Bounding::DownPass => 0b1011,
            Bounding::AllBlock => 0b1111,
        }
    }

    /// The bounding that a map file stores as `bits`, if it is one: the
    /// masks are the numbers below 16.
    pub fn from_bits(bits: u8) -> (r: Option<Bounding>)
        ensures
            match r {
                Some(b) => b.spec_bits() == bits,
                None => bits >= 16,
            },
    {
        match bits {
            0b0000 => Some(Bounding::No),
            0b0010 => Some(Bounding::Left),
            0b0001 => Some(Bounding::Right),
            0b1000 => Some(Bounding::Up),
            0b0100 => Some(Bounding::Down),
            0b1010 => Some(Bounding::LeftUp),
            0b1001 => Some(Bounding::RightUp),
            0b0110 => Some(Bounding::LeftDown),
            0b0101 => Some(Bounding::RightDown),
            0b1100 => Some(Bounding::UpDown),
            0b0011 => Some(Bounding::LeftRight),
            0b0111 => Some(Bounding::UpPass),
            0b1101 => Some(Bounding::LeftPass),
            0b1110 => Some(Bounding::RightPass),
            0b1011 => Some(Bounding::DownPass),
            0b1111 => Some(Bounding::AllBlock),
            _ => None,
        }
    }

    /// Check the bound towards `to`: true if that edge blocks.
    pub fn check_bound(self, to: Direction) -> (r: bool)
        ensures
            r == self.blocks(to),
    {
        (self.bits() & to.bit()) != 0
    }
}

/// Two boundings with the same bits are the same bounding.
pub proof fn lemma_bits_are_injective(a: Bounding, b: Bounding)
    requires
        a.spec_bits() == b.spec_bits(),
    ensures
        a == b,
{
}

/// Every mask is the bits of a bounding.
pub proof fn lemma_every_mask_is_a_bounding(mask: u8)
    requires
        mask < 16,
    ensures
        exists|b: Bounding| b.spec_bits() == mask,
{
    let all = seq![
        Bounding::No,
        Bounding::Right,
        Bounding::Left,
        Bounding::LeftRight,
        Bounding::Down,
        Bounding::RightDown,
        Bounding::LeftDown,
        Bounding::UpPass,
        Bounding::Up,
        Bounding::RightUp,
        Bounding::LeftUp,
        Bounding::DownPass,
        Bounding::UpDown,
        Bounding::LeftPass,
        Bounding::RightPass,
        Bounding::AllBlock,
    ];
    assert(all[mask as int].spec_bits() == mask);
}

/// A bounding blocks towards a direction exactly where the direction's bit
/// is set in its mask: whatever the mask, each of the four bits decides for
/// its own direction.
pub proof fn lemma_blocks_by_bit(b: Bounding)
    ensures
        b.blocks(Direction::Right) <==> b.spec_bits() % 2 == 1,
        b.blocks(Direction::Left) <==> (b.spec_bits() / 2) % 2 == 1,
        b.blocks(Direction::Down) <==> (b.spec_bits() / 4) % 2 == 1,
        b.blocks(Direction::Up) <==> (b.spec_bits() / 8) % 2 == 1,
{
    let m = b.spec_bits();
    assert(m & 1 != 0 <==> m % 2 == 1) by (bit_vector);
    assert(m & 2 != 0 <==> (m / 2) % 2 == 1) by (bit_vector);
    assert(m & 4 != 0 <==> (m / 4) % 2 == 1) by (bit_vector);
    assert(m & 8 != 0 <==> (m / 8) % 2 == 1) by (bit_vector);
}

} // verus!
