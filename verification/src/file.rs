use vstd::prelude::*;

verus! {

/// A vertical column of the board, from file a (index 0) to file h (index 7).
#[derive(Copy, Clone, Debug, PartialEq, Eq, Structural)]
pub enum File {
    A,
    B,
    C,
    D,
    E,
    F,
    G,
    H,
}

pub const NUM_FILES: usize = 8;

/// The index a file stands for, as a mathematical value.
pub open spec fn file_index(f: File) -> int {
    match f {
        File::A => 0,
        File::B => 1,
        File::C => 2,
        File::D => 3,
        File::E => 4,
        File::F => 5,
        File::G => 6,
        File::H => 7,
    }
}

impl File {
    pub fn from_index(index: usize) -> (f: File)
        requires
            index < 8,
        ensures
            file_index(f) == index,
    {
        match index {
            0 => File::A,
            1 => File::B,
            2 => File::C,
            3 => File::D,
            4 => File::E,
            5 => File::F,
            6 => File::G,
            _ => File::H,
        }
    }

    pub fn from_char(c: char) -> (r: Result<File, ()>)
        ensures
            ('a' <= c && c <= 'h') <==> r is Ok,
            r matches Ok(f) ==> file_index(f) == c as int - 'a' as int,
    {
        match c {
            'a' => Ok(File::A),
            'b' => Ok(File::B),
            'c' => Ok(File::C),
            'd' => Ok(File::D),
            'e' => Ok(File::E),
            'f' => Ok(File::F),
            'g' => Ok(File::G),
            'h' => Ok(File::H),
            _ => Err(()),
        }
    }

    /// The next file toward file a; file a stays put.
    pub fn left(&self) -> (f: File)
        ensures
            file_index(f) == if file_index(*self) == 0 {
                0int
            } else {
                file_index(*self) - 1
            },
    {
        match *self {
            File::A => File::A,
            File::B => File::A,
            File::C => File::B,
            File::D => File::C,
            File::E => File::D,
            File::F => File::E,
            File::G => File::F,
            File::H => File::G,
        }
    }

    /// The next file toward file h; file h stays put.
    pub fn right(&self) -> (f: File)
        ensures
            file_index(f) == if file_index(*self) == 7 {
                7int
            } else {
                file_index(*self) + 1
            },
    {
        match *self {
            File::A => File::B,
            File::B => File::C,
            File::C => File::D,
            File::D => File::E,
            File::E => File::F,
            File::F => File::G,
            File::G => File::H,
            File::H => File::H,
        }
    }

    pub fn to_index(&self) -> (i: usize)
        ensures
            i == file_index(*self),
    {
        match *self {
            File::A => 0,
            File::B => 1,
            File::C => 2,
            File::D => 3,
            File::E => 4,
            File::F => 5,
            File::G => 6,
            File::H => 7,
        }
    }

    /// The eight files in board order, file a first.
    pub fn all() -> (v: Vec<File>)
        ensures
            v@.len() == 8,
            forall|i: int| 0 <= i < 8 ==> file_index(v@[i]) == i,
    {
        let v = vec![
            File::A,
            File::B,
            File::C,
            File::D,
            File::E,
            File::F,
            File::G,
            File::H,
        ];
        assert(forall|i: int| 0 <= i < 8 ==> file_index(v@[i]) == i) by {
            assert(file_index(v@[0]) == 0);
            assert(file_index(v@[1]) == 1);
            assert(file_index(v@[2]) == 2);
            assert(file_index(v@[3]) == 3);
            assert(file_index(v@[4]) == 4);
            assert(file_index(v@[5]) == 5);
            assert(file_index(v@[6]) == 6);
            assert(file_index(v@[7]) == 7);
        }
        v
    }
}

} // verus!
