use vstd::prelude::*;
use vstd::string::StrSliceExecFns;

use crate::geometry::{col, row};
use crate::piece::PieceType;

verus! {

/// The square named by a two-character coordinate such as "e2", if any.
pub open spec fn square_of(name: Seq<char>) -> Option<int> {
    if name.len() == 2 && 'a' <= name[0] <= 'h' && '1' <= name[1] <= '8' {
        Some(('8' as int - name[1] as int) * 8 + (name[0] as int - 'a' as int))
    } else {
        None
    }
}

/// The two-character coordinate of square `s`.
pub open spec fn square_name(s: int) -> Seq<char> {
    seq![('a' as int + col(s)) as char, ('8' as int - row(s)) as char]
}

/// The kind chosen by a promotion code: "q", "b", "kn", "r"; anything else
/// gives a pawn.
pub open spec fn piece_of_name(name: Seq<char>) -> PieceType {
    if name == seq!['q'] {
        PieceType::Queen
    } else if name == seq!['b'] {
        PieceType::Bishop
    } else if name == seq!['k', 'n'] {
        PieceType::Knight
    } else if name == seq!['r'] {
        PieceType::Rook
    } else {
        PieceType::Pawn
    }
}

/// Relies on `String::push`: the character is appended at the end.
#[verifier::external_body]
pub(crate) fn push_char(s: &mut String, c: char)
    ensures
        final(s)@ == old(s)@.push(c),
{
    s.push(c);
}

/// The square index of a coordinate name, or `None` if it names no square.
pub fn string_to_int(name: &str) -> (r: Option<usize>)
    ensures
        r matches Some(s) ==> s < 64 && square_of(name@) == Some(s as int),
        r is None ==> square_of(name@) is None,
{
    if name.unicode_len() != 2 {
        return None;
    }
    let file = name.get_char(0);
    let rank = name.get_char(1);
    if file < 'a' || file > 'h' || rank < '1' || rank > '8' {
        return None;
    }
    let f = file as u32 - 'a' as u32;
    let k = '8' as u32 - rank as u32;
    Some((k * 8 + f) as usize)
}

/// The coordinate name of square `s`.
pub fn int_to_string(s: usize) -> (r: String)
    requires
        s < 64,
    ensures
        r@ == square_name(s as int),
{
    let file = (97u8 + (s % 8) as u8) as char;
    let rank = (56u8 - (s / 8) as u8) as char;
    let mut name = String::new();
    push_char(&mut name, file);
    push_char(&mut name, rank);
    assert(name@ =~= square_name(s as int));
    name
}

/// The kind named by a promotion code.
pub fn string_to_piece(name: &str) -> (r: PieceType)
    ensures
        r == piece_of_name(name@),
{
    let n = name.unicode_len();
    if n == 1 {
        let c = name.get_char(0);
        if c == 'q' {
            assert(name@ =~= seq!['q']);
            return PieceType::Queen;
        } else if c == 'b' {
            assert(name@ =~= seq!['b']);
            return PieceType::Bishop;
        } else if c == 'r' {
            assert(name@ =~= seq!['r']);
            return PieceType::Rook;
        }
        assert(name@ != seq!['q'] && name@ != seq!['b'] && name@ != seq!['r']) by {
            assert(name@[0] == c);
        }
    } else if n == 2 {
        let c0 = name.get_char(0);
        let c1 = name.get_char(1);
        if c0 == 'k' && c1 == 'n' {
            assert(name@ =~= seq!['k', 'n']);
            return PieceType::Knight;
        }
        assert(name@ != seq!['k', 'n']) by {
            assert(name@[0] == c0 && name@[1] == c1);
        }
    }
    PieceType::Pawn
}

} // verus!
