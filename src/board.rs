use vstd::prelude::*;

use crate::geometry::{col, row};
use crate::movegen::Board;
use crate::piece::{Piece, PieceColor, PieceType};

verus! {

/// The kind on file `c` of a back rank in the standard setup.
pub open spec fn back_rank_kind(c: int) -> PieceType {
    if c == 0 || c == 7 {
        PieceType::Rook
    } else if c == 1 || c == 6 {
        PieceType::Knight
    } else if c == 2 || c == 5 {
        PieceType::Bishop
    } else if c == 3 {
        PieceType::Queen
    } else {
        PieceType::King
    }
}

/// The occupant of square `s` in the standard initial position.
pub open spec fn initial_square(s: int) -> Option<Piece> {
    let r = row(s);
    if r == 0 {
        Some(Piece { piecetype: back_rank_kind(col(s)), piececolor: PieceColor::Black, hasmoved: false })
    } else if r == 1 {
        Some(Piece { piecetype: PieceType::Pawn, piececolor: PieceColor::Black, hasmoved: false })
    } else if r == 6 {
        Some(Piece { piecetype: PieceType::Pawn, piececolor: PieceColor::White, hasmoved: false })
    } else if r == 7 {
        Some(Piece { piecetype: back_rank_kind(col(s)), piececolor: PieceColor::White, hasmoved: false })
    } else {
        None
    }
}

/// The standard initial position.
pub open spec fn initial_board() -> Board {
    Seq::new(64, |s: int| initial_square(s))
}

fn back_rank_piece(c: usize) -> (r: PieceType)
    requires
        c < 8,
    ensures
        r == back_rank_kind(c as int),
{
    if c == 0 || c == 7 {
        PieceType::Rook
    } else if c == 1 || c == 6 {
        PieceType::Knight
    } else if c == 2 || c == 5 {
        PieceType::Bishop
    } else if c == 3 {
        PieceType::Queen
    } else {
        PieceType::King
    }
}

/// Appends one rank of the initial position: rank row `r` (0 is the 8th).
fn add_rank(board: &mut Vec<Option<Piece>>, r: usize)
    requires
        r < 8,
        old(board)@.len() == 8 * r,
    ensures
        final(board)@.len() == 8 * r + 8,
        forall|s: int| 0 <= s < 8 * r ==> final(board)@[s] == old(board)@[s],
        forall|s: int| 8 * r <= s < 8 * r + 8 ==> final(board)@[s] == #[trigger] initial_square(s),
{
    let ghost start = board@;
    let mut c: usize = 0;
    while c < 8
        invariant
            r < 8,
            c <= 8,
            board@.len() == 8 * r + c,
            forall|s: int| 0 <= s < 8 * r ==> board@[s] == start[s],
            forall|s: int| 8 * r <= s < 8 * r + c ==> board@[s] == #[trigger] initial_square(s),
        decreases 8 - c,
    {
        let cell = if r == 0 {
            Some(Piece::new(back_rank_piece(c), PieceColor::Black))
        } else if r == 1 {
            Some(Piece::new(PieceType::Pawn, PieceColor::Black))
        } else if r == 6 {
            Some(Piece::new(PieceType::Pawn, PieceColor::White))
        } else if r == 7 {
            Some(Piece::new(back_rank_piece(c), PieceColor::White))
        } else {
            None
        };
        let ghost s = 8 * r + c;
        assert(row(s) == r && col(s) == c);
        board.push(cell);
        c = c + 1;
    }
}

/// The board of the standard initial position.
pub fn new_board() -> (b: Vec<Option<Piece>>)
    ensures
        b@ == initial_board(),
{
    let mut board: Vec<Option<Piece>> = Vec::new();
    let mut r: usize = 0;
    while r < 8
        invariant
            r <= 8,
            board@.len() == 8 * r,
            forall|s: int| 0 <= s < 8 * r ==> board@[s] == #[trigger] initial_square(s),
        decreases 8 - r,
    {
        add_rank(&mut board, r);
        r = r + 1;
    }
    assert(board@ =~= initial_board());
    board
}

} // verus!
