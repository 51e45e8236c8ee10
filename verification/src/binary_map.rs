//! A per-board bitmap packed into wide words, used as scratch state when
//! scanning rows for free cells next to occupied ones.

use vstd::prelude::*;
use crate::coord::{self, Coord};

verus! {

/// How many board cells the largest board holds.
pub const MAX_NB_OF_BIT: usize = 288;

/// How many segments the largest supported bitmap needs.
pub const MAX_NB_SEGEMENTS: usize = 3;

pub struct BinaryMap {
    bits: Vec<u128>,
    width: u8,
    height: u8,
    nb_segement: usize,
    nb_bit_per_segement: usize,
    bit_per_segement: usize,
}

impl BinaryMap {
    /// The bitmap's packed words.
    pub closed spec fn spec_bits(&self) -> Seq<u128> {
        self.bits@
    }

    /// The board width the bitmap was created for.
    pub closed spec fn spec_width(&self) -> int {
        self.width as int
    }

    /// The board height the bitmap was created for.
    pub closed spec fn spec_height(&self) -> int {
        self.height as int
    }

    /// How many bits each segment holds.
    pub closed spec fn spec_bps(&self) -> int {
        self.bit_per_segement as int
    }

    /// The bitmap's structural invariant: a small board whose area fits one
    /// packed word, and a full set of segments.
    pub closed spec fn inv(&self) -> bool {
        &&& self.bits@.len() == MAX_NB_SEGEMENTS
        &&& 1 <= self.width <= 24
        &&& 1 <= self.height <= 12
        &&& self.width * self.height <= 128
        &&& self.bit_per_segement == self.width * self.height
    }

    /// A bitmap that satisfies its invariant stores its full set of
    /// segments, with each lane at most one word wide: the facts a caller
    /// needs to read bit positions back out of the packed words.
    pub proof fn lemma_capacity(&self)
        requires
            self.inv(),
        ensures
            self.spec_bits().len() == MAX_NB_SEGEMENTS,
            self.spec_bps() == self.spec_width() * self.spec_height(),
            1 <= self.spec_bps() <= 128,
            1 <= self.spec_width() <= 24,
            1 <= self.spec_height() <= 12,
    {
        assert(1 <= self.spec_width() * self.spec_height()) by (nonlinear_arith)
            requires
                self.spec_width() >= 1,
                self.spec_height() >= 1,
        ;
    }

    /// Whether the bit at `index` is set.
    pub open spec fn spec_bit(&self, index: int) -> bool {
        (self.spec_bits()[index / self.spec_bps()] & (1u128 << ((index % self.spec_bps()) as u128)))
            != 0
    }

    /// Creates a cleared bitmap for a board of the given size. A board whose
    /// area does not fit one packed word is a caller error, excluded up
    /// front.
    pub fn new(width: u8, height: u8) -> (m: BinaryMap)
        requires
            1 <= width <= 24,
            1 <= height <= 12,
            width * height <= 128,
        ensures
            m.inv(),
            m.spec_width() == width,
            m.spec_height() == height,
            m.spec_bps() == width * height,
            m.spec_bits().len() == MAX_NB_SEGEMENTS,
            1 <= m.spec_bps() <= 128,
            forall|i: int| 0 <= i < MAX_NB_SEGEMENTS ==> m.spec_bits()[i] == 0,
    {
        let mut bits: Vec<u128> = Vec::new();
        bits.push(0);
        bits.push(0);
        bits.push(0);
        proof {
            assert(bits@[0] == 0 && bits@[1] == 0 && bits@[2] == 0);
            assert(1 <= (width as usize) * (height as usize)) by (nonlinear_arith)
                requires
                    width >= 1,
                    height >= 1,
            ;
        }
        let area = (width as usize) * (height as usize);
        let per_segment = 128 - (128 % area);
        let segments = (MAX_NB_OF_BIT + (per_segment - 1)) / per_segment;
        BinaryMap {
            bits,
            width,
            height,
            nb_segement: segments,
            nb_bit_per_segement: per_segment,
            bit_per_segement: area,
        }
    }

    /// An index below three segments' worth of bits lands in a stored
    /// segment, at a bit position the word width allows.
    proof fn lemma_seg_bounds(index: int, bps: int)
        requires
            1 <= bps <= 128,
            0 <= index < 3 * bps,
        ensures
            0 <= index / bps < 3,
            0 <= index % bps < 128,
    {
        assert(0 <= index / bps < 3 && 0 <= index % bps < bps) by (nonlinear_arith)
            requires
                1 <= bps,
                0 <= index < 3 * bps,
        ;
    }

    /// Sets or clears the bit at `index`. An index beyond the segments'
    /// capacity is a caller error, excluded up front.
    pub fn set_bit(&mut self, index: usize, value: bool)
        requires
            old(self).inv(),
            index < 3 * old(self).spec_bps(),
        ensures
            final(self).inv(),
            final(self).spec_width() == old(self).spec_width(),
            final(self).spec_height() == old(self).spec_height(),
            final(self).spec_bps() == old(self).spec_bps(),
            final(self).spec_bits() == old(self).spec_bits().update(
                index as int / old(self).spec_bps(),
                if value {
                    old(self).spec_bits()[index as int / old(self).spec_bps()] | (1u128 << ((
                    index as int % old(self).spec_bps()) as u128))
                } else {
                    old(self).spec_bits()[index as int / old(self).spec_bps()] & !(1u128 << ((
                    index as int % old(self).spec_bps()) as u128))
                },
            ),
    {
        proof {
            Self::lemma_seg_bounds(index as int, self.spec_bps());
        }
        let segment_index = index / self.bit_per_segement;
        let bit_index = index % self.bit_per_segement;
        let old_word = self.bits[segment_index];
        if value {
            self.bits.set(segment_index, old_word | (1u128 << bit_index));
        } else {
            self.bits.set(segment_index, old_word & !(1u128 << bit_index));
        }
    }

    /// Reads the bit at `index`. An index beyond the segments' capacity is a
    /// caller error, excluded up front.
    pub fn get_bit(&self, index: usize) -> (r: bool)
        requires
            self.inv(),
            index < 3 * self.spec_bps(),
        ensures
            r == self.spec_bit(index as int),
    {
        proof {
            Self::lemma_seg_bounds(index as int, self.spec_bps());
        }
        let segment_index = index / self.bit_per_segement;
        let bit_index = index % self.bit_per_segement;
        (self.bits[segment_index] & (1u128 << bit_index)) != 0
    }

    /// Clears every segment.
    pub fn clear(&mut self)
        requires
            old(self).inv(),
        ensures
            final(self).inv(),
            final(self).spec_width() == old(self).spec_width(),
            final(self).spec_height() == old(self).spec_height(),
            final(self).spec_bps() == old(self).spec_bps(),
            forall|i: int| 0 <= i < MAX_NB_SEGEMENTS ==> final(self).spec_bits()[i] == 0,
    {
        self.bits.set(0, 0);
        self.bits.set(1, 0);
        self.bits.set(2, 0);
    }

    /// The row's bits, lowest bit first. A row beyond the board is a caller
    /// error, excluded up front.
    pub fn get_row(&self, row: usize) -> (r: u32)
        requires
            self.inv(),
            row < self.spec_height(),
        ensures
            r == self.spec_row(row as int),
    {
        proof {
            self.lemma_row_in_first_segment(row as int);
        }
        let shift = row * (self.width as usize);
        ((self.bits[0] >> shift) as u32) & Self::mask_row(self.width)
    }

    /// The row's bits as a spec value.
    pub open spec fn spec_row(&self, row: int) -> u32 {
        ((self.spec_bits()[0] >> ((row * self.spec_width()) as u128)) as u32) & (((1u32 << (
        self.spec_width() as u32)) - 1) as u32)
    }

    /// A whole row of a small board sits inside the first segment.
    proof fn lemma_row_in_first_segment(&self, row: int)
        requires
            self.inv(),
            0 <= row < self.spec_height(),
        ensures
            row * self.spec_width() < 128,
    {
        assert(row * self.spec_width() < 128) by (nonlinear_arith)
            requires
                0 <= row < self.spec_height(),
                self.spec_width() >= 1,
                self.spec_width() * self.spec_height() <= 128,
        ;
    }

    /// The mask selecting one row's bits.
    fn mask_row(width: u8) -> (r: u32)
        requires
            1 <= width <= 24,
        ensures
            r == (1u32 << (width as u32)) - 1,
    {
        proof {
            assert((1u32 << (width as u32)) >= 1) by (bit_vector)
                requires
                    width <= 24,
            ;
        }
        (1u32 << width) - 1
    }

    /// The cells of a row that sit horizontally next to an occupied cell but
    /// are free themselves.
    pub open spec fn spec_row_openings(&self, row: int) -> u32 {
        let current_row = self.spec_row(row);
        (((current_row << 1u32) | (current_row >> 1u32) | current_row) ^ current_row) as u32
    }

    /// Searches for a free cell next to an occupied one: first along the row
    /// `y_coord`, then up and down the column `x_coord`. A start position off
    /// the board is a caller error, excluded up front.
    pub fn get_next_coord(&self, y_coord: usize, x_coord: usize) -> (r: Option<Coord>)
        requires
            self.inv(),
            y_coord < self.spec_height(),
            x_coord < self.spec_width(),
        ensures
            match r {
                Some(c) => {
                    ||| (exists|x: int|
                        0 <= x < self.spec_width() && (self.spec_row_openings(y_coord as int) & (
                        1u32 << (x as u32))) != 0 && c == #[trigger] coord::encode(
                            x as u8,
                            y_coord as u8,
                        ) && (forall|xx: int|
                            0 <= xx < x ==> (self.spec_row_openings(y_coord as int) & (#[trigger] (
                            1u32 << (xx as u32)))) == 0))
                    ||| ((forall|x: int|
                        0 <= x < self.spec_width() ==> (self.spec_row_openings(y_coord as int) & (
                        #[trigger] (1u32 << (x as u32)))) == 0) && (exists|y: int|
                        0 <= y < self.spec_height() && #[trigger] self.spec_col_opening(
                            x_coord as int,
                            y,
                        ) && c == coord::encode(x_coord as u8, y as u8) && (forall|yy: int|
                            0 <= yy < y ==> !self.spec_col_opening(x_coord as int, yy))))
                },
                None => {
                    &&& forall|x: int|
                        0 <= x < self.spec_width() ==> (self.spec_row_openings(y_coord as int) & (
                        #[trigger] (1u32 << (x as u32)))) == 0
                    &&& forall|y: int|
                        0 <= y < self.spec_height() ==> !#[trigger] self.spec_col_opening(
                            x_coord as int,
                            y,
                        )
                },
            },
    {
        let current_row = self.get_row(y_coord);
        let adding = (current_row << 1u32) | (current_row >> 1u32) | current_row;
        let available_x = adding ^ current_row;
        let mut x: usize = 0;
        while x < self.width as usize
            invariant
                self.inv(),
                y_coord < self.spec_height(),
                x <= self.spec_width(),
                available_x == self.spec_row_openings(y_coord as int),
                forall|xx: int|
                    0 <= xx < x ==> (self.spec_row_openings(y_coord as int) & (#[trigger] (1u32
                        << (xx as u32)))) == 0,
            decreases self.spec_width() - x,
        {
            if available_x & (1u32 << (x as u32)) != 0 {
                return Some(coord::new(x as u8, y_coord as u8));
            }
            x = x + 1;
        }
        let mut y: usize = 0;
        while y < self.height as usize
            invariant
                self.inv(),
                y_coord < self.spec_height(),
                x_coord < self.spec_width(),
                y <= self.spec_height(),
                forall|xx: int|
                    0 <= xx < self.spec_width() ==> (self.spec_row_openings(y_coord as int) & (
                    #[trigger] (1u32 << (xx as u32)))) == 0,
                forall|yy: int|
                    0 <= yy < y ==> !#[trigger] self.spec_col_opening(x_coord as int, yy),
            decreases self.spec_height() - y,
        {
            proof {
                self.lemma_col_index_in_range(x_coord as int, y as int);
            }
            if y > 0 && !self.get_bit((y - 1) * (self.width as usize) + x_coord) {
                proof {
                    assert(self.spec_col_opening(x_coord as int, y as int));
                }
                return Some(coord::new(x_coord as u8, y as u8));
            }
            if (y < (self.height as usize) - 1) && !self.get_bit(
                (y + 1) * (self.width as usize) + x_coord,
            ) {
                proof {
                    assert(self.spec_col_opening(x_coord as int, y as int));
                }
                return Some(coord::new(x_coord as u8, y as u8));
            }
            y = y + 1;
        }
        None
    }

    /// Whether the cell above or below (`x`, `y`) is free.
    pub open spec fn spec_col_opening(&self, x: int, y: int) -> bool {
        ||| (y > 0 && !self.spec_bit((y - 1) * self.spec_width() + x))
        ||| (y < self.spec_height() - 1 && !self.spec_bit((y + 1) * self.spec_width() + x))
    }

    /// Column probes around an on-board position index within the segments.
    proof fn lemma_col_index_in_range(&self, x: int, y: int)
        requires
            self.inv(),
            0 <= x < self.spec_width(),
            0 <= y < self.spec_height(),
        ensures
            y > 0 ==> 0 <= (y - 1) * self.spec_width() + x < 3 * self.spec_bps(),
            y < self.spec_height() - 1 ==> 0 <= (y + 1) * self.spec_width() + x < 3
                * self.spec_bps(),
    {
        assert(y > 0 ==> 0 <= (y - 1) * self.spec_width() + x < self.spec_width()
            * self.spec_height()) by (nonlinear_arith)
            requires
                0 <= x < self.spec_width(),
                0 <= y < self.spec_height(),
                self.spec_width() >= 1,
        ;
        assert(y < self.spec_height() - 1 ==> 0 <= (y + 1) * self.spec_width() + x
            < self.spec_width() * self.spec_height()) by (nonlinear_arith)
            requires
                0 <= x < self.spec_width(),
                0 <= y < self.spec_height(),
                self.spec_width() >= 1,
        ;
    }
}

} // verus!
