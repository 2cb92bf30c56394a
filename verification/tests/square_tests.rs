use magic_tables::file::File;
use magic_tables::rank::Rank;
use magic_tables::square::{Square, NUM_SQUARES};

#[test]
fn test_square_new() {
    let square = Square::new(0);
    assert_eq!(square.to_int(), 0);

    let square = Square::new(63);
    assert_eq!(square.to_int(), 63);
}

#[test]
fn test_default_square() {
    let default_square = Square::default();
    assert_eq!(default_square.to_int(), 0);
}

#[test]
fn test_square_create_square() {
    let square = Square::create_square(Rank::First, File::A);
    assert_eq!(square.to_int(), 0);

    let square = Square::create_square(Rank::Third, File::C);
    assert_eq!(square.to_int(), 18);

    let square = Square::create_square(Rank::Eighth, File::H);
    assert_eq!(square.to_int(), 63);
}

#[test]
fn test_square_get_rank() {
    assert_eq!(Square::new(0).get_rank(), Rank::First);
    assert_eq!(Square::new(63).get_rank(), Rank::Eighth);
    assert_eq!(Square::new(28).get_rank(), Rank::Fourth);
}

#[test]
fn test_square_get_file() {
    assert_eq!(Square::new(0).get_file(), File::A);
    assert_eq!(Square::new(63).get_file(), File::H);
    assert_eq!(Square::new(28).get_file(), File::E);
}

#[test]
fn test_square_to_int() {
    assert_eq!(Square::new(0).to_int(), 0);
    assert_eq!(Square::new(63).to_int(), 63);
    assert_eq!(Square::new(28).to_int(), 28);
}

#[test]
fn test_square_consts() {
    // One square per board place, in index order a1..h8.
    for i in 0..64u8 {
        assert_eq!(Square::new(i).to_int(), i);
    }
    assert_eq!(Square::new(10).to_int(), 10);
    assert_eq!(Square::new(27).to_int(), 27);
    assert_eq!(Square::new(49).to_int(), 49);
}

#[test]
fn test_all_squares() {
    let all = Square::all();
    assert_eq!(all.len(), 64);
    for i in 0..64usize {
        assert_eq!(all[i], Square::new(i as u8));
    }
}

#[test]
fn test_num_squares() {
    assert_eq!(NUM_SQUARES, 64);
}
