//! Zobrist keys: one random 64-bit key per (colour, piece type, square),
//! one for the side to move, one per castling right and one per en-passant
//! file.

use vstd::prelude::*;
use crate::rng::{thread_rng, random_u64};

verus! {

pub struct Zobrist {
    pub pieces: [u64; 768],
    pub side_to_move: u64,
    /// White king side, white queen side, black king side, black queen side.
    pub castling_rights: [u64; 4],
    /// One key per file a to h.
    pub en_passant_file: [u64; 8],
}

/// The place of the key of a piece of colour `color` and type `piece_type`
/// on `square` among the piece keys.
pub open spec fn key_index(color: int, piece_type: int, square: int) -> int {
    (color * 6 + piece_type) * 64 + square
}

impl Zobrist {
    /// Draws every key at random.
    pub fn new() -> (z: Self) {
        let mut rng = thread_rng();
        let mut pieces = [0u64; 768];
        let mut color: usize = 0;
        while color < 2
            invariant
                color <= 2,
            decreases 2 - color,
        {
            let mut piece_type: usize = 0;
            while piece_type < 6
                invariant
                    color < 2,
                    piece_type <= 6,
                decreases 6 - piece_type,
            {
                let mut square: u8 = 0;
                while square < 64
                    invariant
                        color < 2,
                        piece_type < 6,
                        square <= 64,
                    decreases 64 - square,
                {
                    let i = Self::index(color, piece_type, square);
                    pieces[i] = random_u64(&mut rng);
                    square += 1;
                }
                piece_type += 1;
            }
            color += 1;
        }
        let mut castling_rights = [0u64; 4];
        let mut i: usize = 0;
        while i < 4
            invariant
                i <= 4,
            decreases 4 - i,
        {
            castling_rights[i] = random_u64(&mut rng);
            i += 1;
        }
        let mut en_passant_file = [0u64; 8];
        let mut i: usize = 0;
        while i < 8
            invariant
                i <= 8,
            decreases 8 - i,
        {
            en_passant_file[i] = random_u64(&mut rng);
            i += 1;
        }
        let side_to_move = random_u64(&mut rng);
        Self { pieces, side_to_move, castling_rights, en_passant_file }
    }

    pub fn index(color: usize, piece_type: usize, square: u8) -> (r: usize)
        requires
            color < 2,
            piece_type < 6,
            square < 64,
        ensures
            r == key_index(color as int, piece_type as int, square as int),
            r < 768,
    {
        (color * 6 + piece_type) * 64 + square as usize
    }
}

} // verus!
