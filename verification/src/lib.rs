//! Offline generator for perfect-hash ("magic") sliding-piece attack tables.
//!
//! For every board square and each sliding piece kind (rook, bishop) the
//! generator computes the relevant-occupancy mask, enumerates every subset of
//! that mask, ray-casts the true attack set for each subset, and searches for
//! a multiplicative hash constant that maps all subsets to collision-free
//! indices of a flat attack table.

pub mod attacks;
pub mod bishop_attack_table;
pub mod bitboard;
pub mod bits;
pub mod board;
pub mod board_builder;
pub mod castling;
pub mod chess_move;
pub mod color;
pub mod constants;
pub mod fen;
pub mod fen_bytes;
pub mod file;
pub mod magic;
pub mod magic_gen;
pub mod occupancy;
pub mod piece;
pub mod rank;
pub mod rays;
pub mod rook_attack_table;
pub mod square;
