use vstd::prelude::*;
use vstd::string::StrSliceExecFns;

use crate::movegen::Board;
use crate::notation::push_char;
use crate::piece::{Piece, PieceType};

verus! {

/// The three characters drawn for one square.
pub open spec fn symbol(cell: Option<Piece>) -> Seq<char> {
    match cell {
        None => " * "@,
        Some(p) => match p.piecetype {
            PieceType::King => " K "@,
            PieceType::Queen => " Q "@,
            PieceType::Bishop => " B "@,
            PieceType::Knight => " Kn"@,
            PieceType::Rook => " R "@,
            PieceType::Pawn => " P "@,
        },
    }
}

/// The drawing of the first `n` squares, each rank opening a new line.
pub open spec fn cells_text(b: Board, n: nat) -> Seq<char>
    decreases n,
{
    if n == 0 {
        seq![]
    } else {
        let k = (n - 1) as nat;
        cells_text(b, k) + (if k % 8 == 0 {
            "|\n|"@
        } else {
            seq![]
        }) + symbol(b[k as int])
    }
}

/// The drawing of a whole board, framed above and below.
pub open spec fn board_text(b: Board) -> Seq<char> {
    "\n|:----------------------:"@ + cells_text(b, 64) + "|\n|:----------------------:|"@
}

/// Appends the characters of `t` to `s`.
fn push_text(s: &mut String, t: &str)
    ensures
        final(s)@ == old(s)@ + t@,
{
    let ghost start = s@;
    let n = t.unicode_len();
    let mut i: usize = 0;
    while i < n
        invariant
            n == t@.len(),
            i <= n,
            s@ == start + t@.subrange(0, i as int),
        decreases n - i,
    {
        push_char(s, t.get_char(i));
        assert(t@.subrange(0, i + 1) =~= t@.subrange(0, i as int).push(t@[i as int]));
        i = i + 1;
    }
    assert(t@.subrange(0, n as int) =~= t@);
}

fn symbol_of(cell: &Option<Piece>) -> (r: &'static str)
    ensures
        r@ == symbol(*cell),
{
    match cell {
        None => " * ",
        Some(p) => match p.piecetype {
            PieceType::King => " K ",
            PieceType::Queen => " Q ",
            PieceType::Bishop => " B ",
            PieceType::Knight => " Kn",
            PieceType::Rook => " R ",
            PieceType::Pawn => " P ",
        },
    }
}

/// The drawing of board `b`: one line per rank, 8th rank first.
pub fn board_string(b: &Vec<Option<Piece>>) -> (r: String)
    requires
        b@.len() == 64,
    ensures
        r@ == board_text(b@),
{
    let mut text = String::new();
    push_text(&mut text, "\n|:----------------------:");
    let ghost head = text@;
    let mut count: usize = 0;
    while count < 64
        invariant
            b@.len() == 64,
            count <= 64,
            text@ == head + cells_text(b@, count as nat),
        decreases 64 - count,
    {
        if count % 8 == 0 {
            push_text(&mut text, "|\n|");
        }
        push_text(&mut text, symbol_of(&b[count]));
        proof {
            let k = count as nat;
            assert(cells_text(b@, k + 1) == cells_text(b@, k) + (if k % 8 == 0 {
                "|\n|"@
            } else {
                seq![]
            }) + symbol(b@[k as int]));
            if k % 8 != 0 {
                assert(cells_text(b@, k) + Seq::<char>::empty() =~= cells_text(b@, k));
            }
            assert(text@ =~= head + cells_text(b@, k + 1));
        }
        count = count + 1;
    }
    push_text(&mut text, "|\n|:----------------------:|");
    text
}

} // verus!
