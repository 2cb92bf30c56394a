use vstd::prelude::*;

verus! {

/// A horizontal row of the board, from the first rank (index 0) to the
/// eighth rank (index 7).
#[derive(Copy, Clone, Debug, PartialEq, Eq, Structural)]
pub enum Rank {
    First,
    Second,
    Third,
    Fourth,
    Fifth,
    Sixth,
    Seventh,
    Eighth,
}

pub const NUM_RANKS: usize = 8;

/// The index a rank stands for, as a mathematical value.
pub open spec fn rank_index(r: Rank) -> int {
    match r {
        Rank::First => 0,
        Rank::Second => 1,
        Rank::Third => 2,
        Rank::Fourth => 3,
        Rank::Fifth => 4,
        Rank::Sixth => 5,
        Rank::Seventh => 6,
        Rank::Eighth => 7,
    }
}

impl Rank {
    pub fn from_index(index: usize) -> (r: Rank)
        requires
            index < 8,
        ensures
            rank_index(r) == index,
    {
        match index {
            0 => Rank::First,
            1 => Rank::Second,
            2 => Rank::Third,
            3 => Rank::Fourth,
            4 => Rank::Fifth,
            5 => Rank::Sixth,
            6 => Rank::Seventh,
            _ => Rank::Eighth,
        }
    }

    pub fn from_char(c: char) -> (r: Result<Rank, ()>)
        ensures
            ('1' <= c && c <= '8') <==> r is Ok,
            r matches Ok(rank) ==> rank_index(rank) == c as int - '1' as int,
    {
        match c {
            '1' => Ok(Rank::First),
            '2' => Ok(Rank::Second),
            '3' => Ok(Rank::Third),
            '4' => Ok(Rank::Fourth),
            '5' => Ok(Rank::Fifth),
            '6' => Ok(Rank::Sixth),
            '7' => Ok(Rank::Seventh),
            '8' => Ok(Rank::Eighth),
            _ => Err(()),
        }
    }

    /// The next rank toward the first rank; the first rank stays put.
    pub fn down(&self) -> (r: Rank)
        ensures
            rank_index(r) == if rank_index(*self) == 0 {
                0int
            } else {
                rank_index(*self) - 1
            },
    {
        match *self {
            Rank::First => Rank::First,
            Rank::Second => Rank::First,
            Rank::Third => Rank::Second,
            Rank::Fourth => Rank::Third,
            Rank::Fifth => Rank::Fourth,
            Rank::Sixth => Rank::Fifth,
            Rank::Seventh => Rank::Sixth,
            Rank::Eighth => Rank::Seventh,
        }
    }

    /// The next rank toward the eighth rank; the eighth rank stays put.
    pub fn up(&self) -> (r: Rank)
        ensures
            rank_index(r) == if rank_index(*self) == 7 {
                7int
            } else {
                rank_index(*self) + 1
            },
    {
        match *self {
            Rank::First => Rank::Second,
            Rank::Second => Rank::Third,
            Rank::Third => Rank::Fourth,
            Rank::Fourth => Rank::Fifth,
            Rank::Fifth => Rank::Sixth,
            Rank::Sixth => Rank::Seventh,
            Rank::Seventh => Rank::Eighth,
            Rank::Eighth => Rank::Eighth,
        }
    }

    pub fn to_index(&self) -> (i: usize)
        ensures
            i == rank_index(*self),
    {
        match *self {
            Rank::First => 0,
            Rank::Second => 1,
            Rank::Third => 2,
            Rank::Fourth => 3,
            Rank::Fifth => 4,
            Rank::Sixth => 5,
            Rank::Seventh => 6,
            Rank::Eighth => 7,
        }
    }

    /// The eight ranks in board order, first rank first.
    pub fn all() -> (v: Vec<Rank>)
        ensures
            v@.len() == 8,
            forall|i: int| 0 <= i < 8 ==> rank_index(v@[i]) == i,
    {
        let v = vec![
            Rank::First,
            Rank::Second,
            Rank::Third,
            Rank::Fourth,
            Rank::Fifth,
            Rank::Sixth,
            Rank::Seventh,
            Rank::Eighth,
        ];
        assert(forall|i: int| 0 <= i < 8 ==> rank_index(v@[i]) == i) by {
            assert(rank_index(v@[0]) == 0);
            assert(rank_index(v@[1]) == 1);
            assert(rank_index(v@[2]) == 2);
            assert(rank_index(v@[3]) == 3);
            assert(rank_index(v@[4]) == 4);
            assert(rank_index(v@[5]) == 5);
            assert(rank_index(v@[6]) == 6);
            assert(rank_index(v@[7]) == 7);
        }
        v
    }
}

} // verus!
