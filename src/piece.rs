use vstd::prelude::*;

verus! {

/// The six kinds of chess pieces.
#[derive(Copy, Clone, Debug, PartialEq, Eq, Structural)]
pub enum PieceType {
    King,
    Queen,
    Bishop,
    Knight,
    Rook,
    Pawn,
}

/// The two sides.
#[derive(Copy, Clone, Debug, PartialEq, Eq, Structural)]
pub enum PieceColor {
    White,
    Black,
}

/// The side that plays against `c`.
pub open spec fn opponent(c: PieceColor) -> PieceColor {
    match c {
        PieceColor::White => PieceColor::Black,
        PieceColor::Black => PieceColor::White,
    }
}

/// Exec counterpart of `opponent`.
pub fn other_color(c: PieceColor) -> (r: PieceColor)
    ensures
        r == opponent(c),
{
    match c {
        PieceColor::White => PieceColor::Black,
        PieceColor::Black => PieceColor::White,
    }
}

/// A piece on the board: its kind, its side, and whether it has moved
/// (read only for the pawn's double step).
#[derive(Copy, Clone, Debug, PartialEq, Eq, Structural)]
pub struct Piece {
    pub piecetype: PieceType,
    pub piececolor: PieceColor,
    pub hasmoved: bool,
}

impl Piece {
    /// A piece that has not moved yet.
    pub fn new(piecetype: PieceType, piececolor: PieceColor) -> (r: Piece)
        ensures
            r == (Piece { piecetype, piececolor, hasmoved: false }),
    {
        Piece { piecetype, piececolor, hasmoved: false }
    }

    pub fn get_piecetype(&self) -> (r: PieceType)
        ensures
            r == self.piecetype,
    {
        self.piecetype
    }

    pub fn get_piececolor(&self) -> (r: PieceColor)
        ensures
            r == self.piececolor,
    {
        self.piececolor
    }
}

} // verus!
