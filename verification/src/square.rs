use vstd::prelude::*;

use crate::file::{file_index, File};
use crate::rank::{rank_index, Rank};

verus! {

/// One of the 64 board squares, indexed 0 (a1) to 63 (h8): the rank is
/// `index / 8`, the file is `index % 8`.
#[derive(Copy, Clone, Debug, PartialEq, Eq, Hash, Structural)]
pub struct Square(u8);

pub const NUM_SQUARES: usize = 64;

impl View for Square {
    type V = u64;

    closed spec fn view(&self) -> u64 {
        self.0 as u64
    }
}

#[verifier::type_invariant]
pub closed spec fn square_in_range(sq: Square) -> bool {
    sq.0 < 64
}

impl Square {
    /// Builds the square with the given index; indices above 63 are wrapped
    /// into range by keeping the low six bits.
    pub fn new(square: u8) -> (r: Square)
        ensures
            r@ == square & 63,
            r@ < 64,
    {
        proof {
            crate::bits::lemma_low6(square);
        }
        Square(square & 63)
    }

    pub fn create_square(rank: Rank, file: File) -> (r: Square)
        ensures
            r@ == rank_index(rank) * 8 + file_index(file),
    {
        let ri = rank.to_index() as u8;
        let fi = file.to_index() as u8;
        let bits = (ri << 3) ^ fi;
        proof {
            assert(ri < 8 && fi < 8 ==> ((ri << 3) ^ fi) == ri * 8 + fi && ((ri << 3) ^ fi) & 63
                == ((ri << 3) ^ fi)) by (bit_vector);
        }
        Square::new(bits)
    }

    pub fn get_rank(&self) -> (r: Rank)
        ensures
            rank_index(r) == self@ / 8,
    {
        proof {
            use_type_invariant(self);
            crate::bits::lemma_rank_file_split(self.0);
        }
        Rank::from_index((self.0 >> 3) as usize)
    }

    pub fn get_file(&self) -> (f: File)
        ensures
            file_index(f) == self@ % 8,
    {
        proof {
            use_type_invariant(self);
            crate::bits::lemma_rank_file_split(self.0);
        }
        File::from_index((self.0 & 7) as usize)
    }

    /// The square one rank up, unless this square is on the eighth rank.
    pub fn up(&self) -> (r: Option<Square>)
        ensures
            self@ / 8 < 7 ==> (r matches Some(s) && s@ == self@ + 8),
            self@ / 8 == 7 ==> r is None,
    {
        proof {
            use_type_invariant(self);
        }
        if self.0 / 8 != 7 {
            let n: u8 = self.0 + 8;
            proof {
                crate::bits::lemma_low6(n);
            }
            Some(Square::new(n))
        } else {
            None
        }
    }

    /// The square one rank down, unless this square is on the first rank.
    pub fn down(&self) -> (r: Option<Square>)
        ensures
            self@ / 8 > 0 ==> (r matches Some(s) && s@ == self@ - 8),
            self@ / 8 == 0 ==> r is None,
    {
        proof {
            use_type_invariant(self);
        }
        if self.0 / 8 != 0 {
            let n: u8 = self.0 - 8;
            proof {
                crate::bits::lemma_low6(n);
            }
            Some(Square::new(n))
        } else {
            None
        }
    }

    /// The square reached by moving the given number of files and ranks,
    /// or `None` when that leaves the board.
    pub fn offset(&self, file_offset: i32, rank_offset: i32) -> (r: Option<Square>)
        ensures
            ({
                let nf = self@ % 8 + file_offset;
                let nr = self@ / 8 + rank_offset;
                if 0 <= nf < 8 && 0 <= nr < 8 {
                    r matches Some(s) && s@ == nr * 8 + nf
                } else {
                    r is None
                }
            }),
    {
        proof {
            use_type_invariant(self);
            crate::bits::lemma_rank_file_split(self.0);
        }
        let file: i64 = (self.0 & 7) as i64;
        let rank: i64 = (self.0 >> 3) as i64;
        let new_file = file + file_offset as i64;
        let new_rank = rank + rank_offset as i64;
        if 0 <= new_file && new_file < 8 && 0 <= new_rank && new_rank < 8 {
            Some(
                Square::create_square(
                    Rank::from_index(new_rank as usize),
                    File::from_index(new_file as usize),
                ),
            )
        } else {
            None
        }
    }

    pub fn to_int(&self) -> (i: u8)
        ensures
            i == self@,
            i < 64,
    {
        proof {
            use_type_invariant(self);
        }
        self.0
    }

    pub fn to_index(&self) -> (i: usize)
        ensures
            i == self@,
            i < 64,
    {
        proof {
            use_type_invariant(self);
        }
        self.0 as usize
    }

    /// The 64 squares in index order, a1 first.
    pub fn all() -> (v: Vec<Square>)
        ensures
            v@.len() == 64,
            forall|i: int| 0 <= i < 64 ==> v@[i]@ == i,
    {
        let mut v: Vec<Square> = Vec::new();
        let mut i: u8 = 0;
        while i < 64
            invariant
                i <= 64,
                v@.len() == i,
                forall|j: int| 0 <= j < i ==> v@[j]@ == j,
            decreases 64 - i,
        {
            proof {
                crate::bits::lemma_low6(i);
            }
            v.push(Square::new(i));
            i = i + 1;
        }
        v
    }
}

impl Default for Square {
    /// The default square is a1.
    fn default() -> (r: Square)
        ensures
            r@ == 0,
    {
        proof {
            crate::bits::lemma_low6(0);
        }
        Square::new(0)
    }
}

} // verus!
