use vstd::prelude::*;

use crate::geometry::{dist, offset, step, table_ok, lemma_step, direction_finder, DIRECTIONS};
use crate::piece::{Piece, PieceColor, PieceType};

verus! {

/// A board: 64 optional occupants, index 0 = a8 to index 63 = h1.
pub type Board = Seq<Option<Piece>>;

/// A king of either side stands on `t`.
pub open spec fn is_king_at(b: Board, t: int) -> bool {
    b[t] matches Some(p) && p.piecetype == PieceType::King
}

/// Some square of `moves` holds a king.
pub open spec fn hits_king(b: Board, moves: Seq<usize>) -> bool {
    exists|i: int| 0 <= i < moves.len() && is_king_at(b, #[trigger] moves[i] as int)
}

/// Direction `d` lies on the pin axis `pin` (either sense), or there is no pin.
pub open spec fn axis_ok(d: int, pin: Option<usize>) -> bool {
    match pin {
        None => true,
        Some(a) => d == a || d + 4 == a || d == a + 4,
    }
}

/// The squares reached by walking from `cur` in direction `d` for at most `n`
/// steps: empty squares extend the walk, an opposing piece is taken and ends
/// it, an own piece ends it and is not taken.
pub open spec fn ray(b: Board, cur: int, d: int, n: nat, mover: PieceColor) -> Seq<usize>
    decreases n,
{
    if n == 0 {
        seq![]
    } else {
        let next = cur + offset(d);
        match b[next] {
            None => seq![next as usize] + ray(b, next, d, (n - 1) as nat, mover),
            Some(p) => if p.piececolor == mover {
                seq![]
            } else {
                seq![next as usize]
            },
        }
    }
}

/// How far a slider (or, one step, a king) goes in direction `d` from `s`.
pub open spec fn reach(s: int, d: int, king: bool) -> nat {
    if king && dist(s, d) > 1 {
        1
    } else {
        dist(s, d) as nat
    }
}

/// The destinations of a sliding piece on `s` over the directions
/// `d, d + add, ...` below 8, skipping those off the pin axis.
pub open spec fn slide_from(
    b: Board,
    s: int,
    d: int,
    add: int,
    pin: Option<usize>,
    mover: PieceColor,
    king: bool,
) -> Seq<usize>
    decreases (if d < 8 { 8 - d } else { 0 }),
{
    if d >= 8 || d < 0 || add <= 0 {
        seq![]
    } else {
        let here = if axis_ok(d, pin) {
            ray(b, s, d, reach(s, d, king), mover)
        } else {
            seq![]
        };
        here + slide_from(b, s, d + add, add, pin, mover, king)
    }
}

/// What a knight or a pawn capture reaching `t` may do there: an empty square
/// or an opposing piece is a destination, an own piece is not.
pub open spec fn landing(b: Board, t: int, mover: PieceColor) -> Seq<usize> {
    match b[t] {
        None => seq![t as usize],
        Some(p) => if p.piececolor != mover {
            seq![t as usize]
        } else {
            seq![]
        },
    }
}

/// The first secondary direction of a knight whose primary direction is `fd`;
/// the second is four further on. Both are perpendicular to `fd`.
pub open spec fn knight_side(fd: int) -> int {
    if fd % 4 == 0 {
        2
    } else {
        0
    }
}

/// A knight on `s` goes two squares in direction `fd`, then one in `sd`.
pub open spec fn knight_hop(b: Board, s: int, fd: int, sd: int, mover: PieceColor) -> Seq<usize> {
    let mid = s + 2 * offset(fd);
    if dist(mid, sd) >= 1 {
        landing(b, mid + offset(sd), mover)
    } else {
        seq![]
    }
}

/// The destinations of a knight on `s` over the primary directions
/// `fd, fd + 2, ...` below 8.
pub open spec fn knight_from(b: Board, s: int, fd: int, mover: PieceColor) -> Seq<usize>
    decreases (if fd < 8 { 8 - fd } else { 0 }),
{
    if fd >= 8 || fd < 0 {
        seq![]
    } else {
        let here = if dist(s, fd) >= 2 {
            knight_hop(b, s, fd, knight_side(fd), mover) + knight_hop(
                b,
                s,
                fd,
                knight_side(fd) + 4,
                mover,
            )
        } else {
            seq![]
        };
        here + knight_from(b, s, fd + 2, mover)
    }
}

/// The direction a pawn of `mover` travels for `k` in 7, 8, 9: the index
/// offset `k` negated for White (which moves toward smaller indices).
/// For 8 it is straight ahead, for 7 and 9 the two forward diagonals.
pub open spec fn pawn_dir(mover: PieceColor, k: int) -> int {
    match mover {
        PieceColor::White => if k == 7 {
            1
        } else if k == 8 {
            0
        } else {
            7
        },
        PieceColor::Black => if k == 7 {
            5
        } else if k == 8 {
            4
        } else {
            3
        },
    }
}

/// A pawn on `s` takes diagonally in direction `d`: only an opposing piece.
pub open spec fn pawn_capture(
    b: Board,
    s: int,
    d: int,
    mover: PieceColor,
    pin: Option<usize>,
) -> Seq<usize> {
    let t = s + offset(d);
    if axis_ok(d, pin) && dist(s, d) > 0 && (b[t] matches Some(p) && p.piececolor != mover) {
        seq![t as usize]
    } else {
        seq![]
    }
}

/// The forward destinations of a pawn on `s`: one step onto an empty square,
/// and a second onto an empty square when the pawn has not moved and the
/// first was free.
pub open spec fn pawn_forward(
    b: Board,
    s: int,
    mover: PieceColor,
    moved: bool,
    pin: Option<usize>,
) -> Seq<usize> {
    let d = pawn_dir(mover, 8);
    let one = s + offset(d);
    let two = one + offset(d);
    if !axis_ok(d, pin) || dist(s, d) == 0 || b[one] is Some {
        seq![]
    } else if moved || dist(s, d) < 2 || b[two] is Some {
        seq![one as usize]
    } else {
        seq![one as usize, two as usize]
    }
}

/// All destinations of a pawn on `s`: the capture on the diagonal of 7, the
/// forward steps, the capture on the diagonal of 9.
pub open spec fn pawn_moves(
    b: Board,
    s: int,
    mover: PieceColor,
    moved: bool,
    pin: Option<usize>,
) -> Seq<usize> {
    pawn_capture(b, s, pawn_dir(mover, 7), mover, pin) + pawn_forward(b, s, mover, moved, pin)
        + pawn_capture(b, s, pawn_dir(mover, 9), mover, pin)
}

/// Pieces of this kind slide along direction `d`.
pub open spec fn slides_along(kind: PieceType, d: int) -> bool {
    match kind {
        PieceType::Queen => true,
        PieceType::Bishop => d % 2 == 1,
        PieceType::Rook => d % 2 == 0,
        _ => false,
    }
}

/// Scans at most `n` squares from `cur` in direction `d` for a pin against
/// `mover`: the first piece of `mover` that is not its king is the candidate
/// (`blocker`); the candidate is pinned when the next piece met is `mover`'s
/// king. An opposing piece, a second candidate, or the king met first ends
/// the scan without a pin.
pub open spec fn pin_scan(
    b: Board,
    cur: int,
    d: int,
    n: nat,
    mover: PieceColor,
    blocker: Option<usize>,
) -> Option<usize>
    decreases n,
{
    if n == 0 {
        None
    } else {
        let next = cur + offset(d);
        match b[next] {
            None => pin_scan(b, next, d, (n - 1) as nat, mover, blocker),
            Some(p) => if p.piececolor != mover {
                None
            } else if p.piecetype != PieceType::King {
                if blocker is Some {
                    None
                } else {
                    pin_scan(b, next, d, (n - 1) as nat, mover, Some(next as usize))
                }
            } else {
                blocker
            },
        }
    }
}

/// The square that the piece on `s` pins along direction `d`, if it is an
/// opposing slider that moves along `d` and pins something there.
pub open spec fn ray_pin(b: Board, s: int, d: int, mover: PieceColor) -> Option<usize> {
    if b[s] matches Some(p) && p.piececolor != mover && slides_along(p.piecetype, d) {
        pin_scan(b, s, d, dist(s, d) as nat, mover, None)
    } else {
        None
    }
}

/// The pin record after scanning every square before `s`, and the
/// directions before `d` of square `s`. A later pin of the same square
/// replaces an earlier one.
pub open spec fn pins_upto(b: Board, mover: PieceColor, s: int, d: int) -> Seq<Option<usize>>
    decreases s, d,
{
    if d > 0 {
        let prev = pins_upto(b, mover, s, d - 1);
        match ray_pin(b, s, d - 1, mover) {
            Some(t) => prev.update(t as int, Some((d - 1) as usize)),
            None => prev,
        }
    } else if s > 0 {
        pins_upto(b, mover, s - 1, 8)
    } else {
        Seq::new(64, |i: int| None)
    }
}

/// For each square, the axis along which the piece of `mover` there is pinned
/// to its king by an opposing slider, if any.
pub open spec fn pin_map(b: Board, mover: PieceColor) -> Seq<Option<usize>> {
    pins_upto(b, mover, 64, 0)
}

/// The destinations of piece `p` of the side to move, standing on `s`, with
/// pin axis `pin`.
pub open spec fn piece_moves(b: Board, s: int, p: Piece, pin: Option<usize>) -> Seq<usize> {
    let mover = p.piececolor;
    match p.piecetype {
        PieceType::King => slide_from(b, s, 0, 1, None, mover, true),
        PieceType::Queen => slide_from(b, s, 0, 1, pin, mover, false),
        PieceType::Bishop => slide_from(b, s, 1, 2, pin, mover, false),
        PieceType::Rook => slide_from(b, s, 0, 2, pin, mover, false),
        PieceType::Knight => if pin is Some {
            seq![]
        } else {
            knight_from(b, s, 0, mover)
        },
        PieceType::Pawn => pawn_moves(b, s, mover, p.hasmoved, pin),
    }
}

/// The legal-move map of `mover`: for each square holding a piece of
/// `mover`, its destinations; nothing for the other squares.
pub open spec fn legal_map(b: Board, mover: PieceColor) -> Seq<Option<Seq<usize>>> {
    Seq::new(
        64,
        |s: int|
            match b[s] {
                Some(p) => if p.piececolor == mover {
                    Some(piece_moves(b, s, p, pin_map(b, mover)[s]))
                } else {
                    None
                },
                None => None,
            },
    )
}

/// A destination of the piece of `mover` on `s` holds a king.
pub open spec fn checks_from(b: Board, mover: PieceColor, s: int) -> bool {
    legal_map(b, mover)[s] matches Some(m) && hits_king(b, m)
}

/// Some destination of `mover`'s pieces lands on the opposing king.
pub open spec fn gives_check(b: Board, mover: PieceColor) -> bool {
    exists|s: int| 0 <= s < 64 && #[trigger] checks_from(b, mover, s)
}

/// The view of a legal-move map held as vectors.
pub open spec fn map_view(m: Seq<Option<Vec<usize>>>) -> Seq<Option<Seq<usize>>> {
    m.map_values(
        |o: Option<Vec<usize>>|
            match o {
                Some(v) => Some(v@),
                None => None,
            },
    )
}

/// `t` is a square of the board that is empty or holds an opposing piece.
pub open spec fn target_ok(b: Board, mover: PieceColor, t: usize) -> bool {
    t < 64 && (b[t as int] matches Some(p) ==> p.piececolor != mover)
}

/// Every square of `m` is a fit destination for `mover`.
pub open spec fn targets_ok(b: Board, mover: PieceColor, m: Seq<usize>) -> bool {
    forall|i: int| 0 <= i < m.len() ==> target_ok(b, mover, #[trigger] m[i])
}

proof fn lemma_targets_concat(b: Board, mover: PieceColor, x: Seq<usize>, y: Seq<usize>)
    requires
        targets_ok(b, mover, x),
        targets_ok(b, mover, y),
    ensures
        targets_ok(b, mover, x + y),
{
    assert forall|i: int| 0 <= i < (x + y).len() implies target_ok(b, mover, #[trigger] (x + y)[i]) by {
        if i < x.len() {
            assert((x + y)[i] == x[i]);
        } else {
            assert((x + y)[i] == y[i - x.len()]);
        }
    }
}

proof fn lemma_ray_targets(b: Board, cur: int, d: int, n: nat, mover: PieceColor)
    requires
        0 <= cur < 64,
        0 <= d < 8,
        n <= dist(cur, d),
    ensures
        targets_ok(b, mover, ray(b, cur, d, n, mover)),
    decreases n,
{
    if n > 0 {
        lemma_step(cur, d);
        let next = cur + offset(d);
        lemma_ray_targets(b, next, d, (n - 1) as nat, mover);
        if b[next] is None {
            lemma_targets_concat(b, mover, seq![next as usize], ray(b, next, d, (n - 1) as nat, mover));
        }
    }
}

proof fn lemma_slide_targets(
    b: Board,
    s: int,
    d: int,
    add: int,
    pin: Option<usize>,
    mover: PieceColor,
    king: bool,
)
    requires
        0 <= s < 64,
    ensures
        targets_ok(b, mover, slide_from(b, s, d, add, pin, mover, king)),
    decreases (if d < 8 { 8 - d } else { 0 }),
{
    if !(d >= 8 || d < 0 || add <= 0) {
        lemma_slide_targets(b, s, d + add, add, pin, mover, king);
        lemma_ray_targets(b, s, d, reach(s, d, king), mover);
        let here = if axis_ok(d, pin) {
            ray(b, s, d, reach(s, d, king), mover)
        } else {
            seq![]
        };
        lemma_targets_concat(b, mover, here, slide_from(b, s, d + add, add, pin, mover, king));
    }
}

proof fn lemma_knight_targets(b: Board, s: int, fd: int, mover: PieceColor)
    requires
        0 <= s < 64,
        fd % 2 == 0,
    ensures
        targets_ok(b, mover, knight_from(b, s, fd, mover)),
    decreases (if fd < 8 { 8 - fd } else { 0 }),
{
    if !(fd >= 8 || fd < 0) {
        lemma_knight_targets(b, s, fd + 2, mover);
        if dist(s, fd) >= 2 {
            lemma_step(s, fd);
            lemma_step(s + offset(fd), fd);
            let mid = s + 2 * offset(fd);
            let k = knight_side(fd);
            if dist(mid, k) >= 1 {
                lemma_step(mid, k);
            }
            if dist(mid, k + 4) >= 1 {
                lemma_step(mid, k + 4);
            }
            lemma_targets_concat(b, mover, knight_hop(b, s, fd, k, mover), knight_hop(b, s, fd, k + 4, mover));
            lemma_targets_concat(
                b,
                mover,
                knight_hop(b, s, fd, k, mover) + knight_hop(b, s, fd, k + 4, mover),
                knight_from(b, s, fd + 2, mover),
            );
        } else {
            lemma_targets_concat(b, mover, seq![], knight_from(b, s, fd + 2, mover));
        }
    }
}

proof fn lemma_pawn_targets(b: Board, s: int, mover: PieceColor, moved: bool, pin: Option<usize>)
    requires
        0 <= s < 64,
    ensures
        targets_ok(b, mover, pawn_moves(b, s, mover, moved, pin)),
{
    let l = pawn_dir(mover, 7);
    let f = pawn_dir(mover, 8);
    let r = pawn_dir(mover, 9);
    if dist(s, l) > 0 {
        lemma_step(s, l);
    }
    if dist(s, r) > 0 {
        lemma_step(s, r);
    }
    if dist(s, f) > 0 {
        lemma_step(s, f);
        if dist(s, f) >= 2 {
            lemma_step(s + offset(f), f);
        }
    }
    let a = pawn_capture(b, s, l, mover, pin);
    let m = pawn_forward(b, s, mover, moved, pin);
    let c = pawn_capture(b, s, r, mover, pin);
    lemma_targets_concat(b, mover, a, m);
    lemma_targets_concat(b, mover, a + m, c);
}

/// Every destination in the legal-move map is a square of the board that is
/// empty or holds an opposing piece; in particular no piece may stay where
/// it stands or take a piece of its own side.
pub proof fn lemma_legal_targets(b: Board, mover: PieceColor, s: int)
    requires
        b.len() == 64,
        0 <= s < 64,
        legal_map(b, mover)[s] is Some,
    ensures
        targets_ok(b, mover, legal_map(b, mover)[s].unwrap()),
{
    let p = b[s].unwrap();
    let pin = pin_map(b, mover)[s];
    match p.piecetype {
        PieceType::King => lemma_slide_targets(b, s, 0, 1, None, mover, true),
        PieceType::Queen => lemma_slide_targets(b, s, 0, 1, pin, mover, false),
        PieceType::Bishop => lemma_slide_targets(b, s, 1, 2, pin, mover, false),
        PieceType::Rook => lemma_slide_targets(b, s, 0, 2, pin, mover, false),
        PieceType::Knight => lemma_knight_targets(b, s, 0, mover),
        PieceType::Pawn => lemma_pawn_targets(b, s, mover, p.hasmoved, pin),
    }
}

/// The square `k` steps from `s` in direction `d`.
pub open spec fn along(s: int, k: int, d: int) -> int {
    s + k * offset(d)
}

/// `t` is reached from `s` by 1 to `dist(s, d)` steps in direction `d`.
pub open spec fn on_ray(s: int, t: int, d: int) -> bool {
    exists|k: int| 1 <= k <= dist(s, d) && t == #[trigger] along(s, k, d)
}

/// `t` lies on the line through `s` along axis `a`, in either sense.
pub open spec fn on_axis(s: int, t: int, a: usize) -> bool {
    exists|d: int| 0 <= d < 8 && axis_ok(d, Some(a)) && #[trigger] on_ray(s, t, d)
}

/// Every square of `m` lies on the line through `s` along axis `a`.
pub open spec fn all_on_axis(s: int, m: Seq<usize>, a: usize) -> bool {
    forall|i: int| 0 <= i < m.len() ==> on_axis(s, #[trigger] m[i] as int, a)
}

proof fn lemma_on_axis_concat(s: int, x: Seq<usize>, y: Seq<usize>, a: usize)
    requires
        all_on_axis(s, x, a),
        all_on_axis(s, y, a),
    ensures
        all_on_axis(s, x + y, a),
{
    assert forall|i: int| 0 <= i < (x + y).len() implies on_axis(s, #[trigger] (x + y)[i] as int, a) by {
        if i < x.len() {
            assert((x + y)[i] == x[i]);
        } else {
            assert((x + y)[i] == y[i - x.len()]);
        }
    }
}

proof fn lemma_ray_on_ray(b: Board, cur: int, d: int, n: nat, mover: PieceColor)
    requires
        0 <= cur < 64,
        0 <= d < 8,
        n <= dist(cur, d),
    ensures
        forall|i: int| 0 <= i < ray(b, cur, d, n, mover).len() ==> on_ray(cur, #[trigger] ray(b, cur, d, n, mover)[i] as int, d),
    decreases n,
{
    if n > 0 {
        lemma_step(cur, d);
        let next = cur + offset(d);
        let tail = ray(b, next, d, (n - 1) as nat, mover);
        lemma_ray_on_ray(b, next, d, (n - 1) as nat, mover);
        let r = ray(b, cur, d, n, mover);
        assert(along(cur, 1, d) == next);
        assert(on_ray(cur, next, d));
        assert forall|i: int| 0 <= i < r.len() implies on_ray(cur, #[trigger] r[i] as int, d) by {
            if i > 0 {
                assert(b[next] is None);
                assert(r[i] == tail[i - 1]);
                assert(on_ray(next, tail[i - 1] as int, d));
                let k = choose|k: int| 1 <= k <= dist(next, d) && tail[i - 1] as int == #[trigger] along(next, k, d);
                assert((k + 1) * offset(d) == k * offset(d) + offset(d)) by (nonlinear_arith);
                assert(r[i] as int == along(cur, k + 1, d));
            }
        }
    }
}

proof fn lemma_slide_on_axis(
    b: Board,
    s: int,
    d: int,
    add: int,
    a: usize,
    mover: PieceColor,
)
    requires
        0 <= s < 64,
    ensures
        all_on_axis(s, slide_from(b, s, d, add, Some(a), mover, false), a),
    decreases (if d < 8 { 8 - d } else { 0 }),
{
    if !(d >= 8 || d < 0 || add <= 0) {
        lemma_slide_on_axis(b, s, d + add, add, a, mover);
        let here = if axis_ok(d, Some(a)) {
            ray(b, s, d, reach(s, d, false), mover)
        } else {
            seq![]
        };
        if axis_ok(d, Some(a)) {
            lemma_ray_on_ray(b, s, d, reach(s, d, false), mover);
            assert forall|i: int| 0 <= i < here.len() implies on_axis(s, #[trigger] here[i] as int, a) by {
                assert(on_ray(s, here[i] as int, d));
            }
        }
        lemma_on_axis_concat(s, here, slide_from(b, s, d + add, add, Some(a), mover, false), a);
    }
}

proof fn lemma_one_step_on_axis(s: int, d: int, a: usize)
    requires
        0 <= s < 64,
        0 <= d < 8,
        axis_ok(d, Some(a)),
        dist(s, d) >= 1,
    ensures
        on_axis(s, s + offset(d), a),
{
    assert(along(s, 1, d) == s + offset(d));
    assert(on_ray(s, s + offset(d), d));
}

proof fn lemma_pawn_on_axis(b: Board, s: int, mover: PieceColor, moved: bool, a: usize)
    requires
        0 <= s < 64,
    ensures
        all_on_axis(s, pawn_moves(b, s, mover, moved, Some(a)), a),
{
    let l = pawn_dir(mover, 7);
    let f = pawn_dir(mover, 8);
    let r = pawn_dir(mover, 9);
    let x = pawn_capture(b, s, l, mover, Some(a));
    let y = pawn_forward(b, s, mover, moved, Some(a));
    let z = pawn_capture(b, s, r, mover, Some(a));
    if x.len() > 0 {
        lemma_one_step_on_axis(s, l, a);
    }
    if z.len() > 0 {
        lemma_one_step_on_axis(s, r, a);
    }
    if y.len() > 0 {
        lemma_one_step_on_axis(s, f, a);
        if y.len() > 1 {
            assert(along(s, 2, f) == s + offset(f) + offset(f));
            assert(on_ray(s, s + offset(f) + offset(f), f));
        }
    }
    assert(all_on_axis(s, x, a));
    assert(all_on_axis(s, y, a));
    assert(all_on_axis(s, z, a));
    lemma_on_axis_concat(s, x, y, a);
    lemma_on_axis_concat(s, x + y, z, a);
}

/// A piece of the side to move, other than its king, that is pinned to its
/// king along axis `a` only moves along that line, in either sense; so a
/// bishop pinned along a rank or a file has no destination at all.
pub proof fn lemma_pinned_piece(b: Board, mover: PieceColor, s: int)
    requires
        b.len() == 64,
        0 <= s < 64,
        b[s] matches Some(p) && p.piececolor == mover && p.piecetype != PieceType::King,
        pin_map(b, mover)[s] is Some,
    ensures
        legal_map(b, mover)[s] is Some,
        all_on_axis(s, legal_map(b, mover)[s].unwrap(), pin_map(b, mover)[s].unwrap()),
        b[s].unwrap().piecetype == PieceType::Bishop && pin_map(b, mover)[s].unwrap() % 2 == 0
            ==> legal_map(b, mover)[s].unwrap().len() == 0,
{
    let p = b[s].unwrap();
    let a = pin_map(b, mover)[s].unwrap();
    let m = legal_map(b, mover)[s].unwrap();
    match p.piecetype {
        PieceType::Queen => lemma_slide_on_axis(b, s, 0, 1, a, mover),
        PieceType::Bishop => lemma_slide_on_axis(b, s, 1, 2, a, mover),
        PieceType::Rook => lemma_slide_on_axis(b, s, 0, 2, a, mover),
        PieceType::Pawn => lemma_pawn_on_axis(b, s, mover, p.hasmoved, a),
        _ => {},
    }
    if p.piecetype == PieceType::Bishop && a % 2 == 0 {
        assert(!axis_ok(1, Some(a)) && !axis_ok(3, Some(a)) && !axis_ok(5, Some(a)) && !axis_ok(7, Some(a)));
        assert(slide_from(b, s, 9, 2, Some(a), mover, false) == Seq::<usize>::empty());
        assert(slide_from(b, s, 7, 2, Some(a), mover, false) =~= Seq::<usize>::empty());
        assert(slide_from(b, s, 5, 2, Some(a), mover, false) =~= Seq::<usize>::empty());
        assert(slide_from(b, s, 3, 2, Some(a), mover, false) =~= Seq::<usize>::empty());
        assert(slide_from(b, s, 1, 2, Some(a), mover, false) =~= Seq::<usize>::empty());
    }
}

/// A rook whose neighbours along its rank and file are all pieces of its own
/// side (a side on the board edge counting as closed) has no destination.
pub proof fn lemma_enclosed_rook(b: Board, mover: PieceColor, s: int)
    requires
        b.len() == 64,
        0 <= s < 64,
        b[s] matches Some(p) && p.piececolor == mover && p.piecetype == PieceType::Rook,
        forall|d: int|
            0 <= d < 8 && d % 2 == 0 && dist(s, d) >= 1 ==> (#[trigger] b[s + offset(d)] matches Some(q)
                && q.piececolor == mover),
    ensures
        legal_map(b, mover)[s] == Some(Seq::<usize>::empty()),
{
    let pin = pin_map(b, mover)[s];
    assert forall|d: int| 0 <= d < 8 && d % 2 == 0 implies #[trigger] ray(b, s, d, reach(s, d, false), mover) == Seq::<usize>::empty() by {
        if dist(s, d) >= 1 {
            assert(b[s + offset(d)] matches Some(q) && q.piececolor == mover);
        }
    }
    assert(slide_from(b, s, 8, 2, pin, mover, false) == Seq::<usize>::empty());
    assert(slide_from(b, s, 6, 2, pin, mover, false) =~= Seq::<usize>::empty());
    assert(slide_from(b, s, 4, 2, pin, mover, false) =~= Seq::<usize>::empty());
    assert(slide_from(b, s, 2, 2, pin, mover, false) =~= Seq::<usize>::empty());
    assert(slide_from(b, s, 0, 2, pin, mover, false) =~= Seq::<usize>::empty());
}

/// A pawn that has not moved, with the two squares ahead on the board and
/// empty and no pin off its file, has exactly those two squares as forward
/// destinations, and both are among its destinations.
pub proof fn lemma_pawn_double_step(b: Board, s: int, mover: PieceColor, pin: Option<usize>)
    requires
        b.len() == 64,
        0 <= s < 64,
        axis_ok(pawn_dir(mover, 8), pin),
        dist(s, pawn_dir(mover, 8)) >= 2,
        b[s + offset(pawn_dir(mover, 8))] is None,
        b[s + 2 * offset(pawn_dir(mover, 8))] is None,
    ensures
        pawn_forward(b, s, mover, false, pin) == seq![
            (s + offset(pawn_dir(mover, 8))) as usize,
            (s + 2 * offset(pawn_dir(mover, 8))) as usize,
        ],
        pawn_moves(b, s, mover, false, pin).contains((s + offset(pawn_dir(mover, 8))) as usize),
        pawn_moves(b, s, mover, false, pin).contains((s + 2 * offset(pawn_dir(mover, 8))) as usize),
{
    let f = pawn_dir(mover, 8);
    let x = pawn_capture(b, s, pawn_dir(mover, 7), mover, pin);
    let y = pawn_forward(b, s, mover, false, pin);
    let z = pawn_capture(b, s, pawn_dir(mover, 9), mover, pin);
    assert(s + offset(f) + offset(f) == s + 2 * offset(f));
    assert(y =~= seq![(s + offset(f)) as usize, (s + 2 * offset(f)) as usize]);
    assert((x + y + z)[x.len() as int] == y[0]);
    assert((x + y + z)[x.len() + 1int] == y[1]);
}

/// A pawn that has moved has at most one forward destination.
pub proof fn lemma_pawn_single_step(b: Board, s: int, mover: PieceColor, pin: Option<usize>)
    ensures
        pawn_forward(b, s, mover, true, pin).len() <= 1,
{
}

proof fn lemma_hits_king_push(b: Board, moves: Seq<usize>, x: usize)
    ensures
        hits_king(b, moves.push(x)) == (hits_king(b, moves) || is_king_at(b, x as int)),
{
    let m2 = moves.push(x);
    if hits_king(b, moves) {
        let i = choose|i: int| 0 <= i < moves.len() && is_king_at(b, #[trigger] moves[i] as int);
        assert(m2[i] == moves[i]);
    }
    if is_king_at(b, x as int) {
        assert(m2[moves.len() as int] == x);
    }
    if hits_king(b, m2) {
        let i = choose|i: int| 0 <= i < m2.len() && is_king_at(b, #[trigger] m2[i] as int);
        if i < moves.len() {
            assert(m2[i] == moves[i]);
        }
    }
}

/// Walks one ray from `position`, appending what it reaches to `moves` and
/// raising `check` when an opposing king is among them.
fn walk_ray(
    t: &Vec<[usize; 8]>,
    b: &Vec<Option<Piece>>,
    position: usize,
    direction: usize,
    limit: usize,
    turn: PieceColor,
    moves: &mut Vec<usize>,
    check: &mut bool,
)
    requires
        table_ok(t@),
        b@.len() == 64,
        position < 64,
        direction < 8,
        limit <= dist(position as int, direction as int),
        *old(check) == hits_king(b@, old(moves)@),
    ensures
        final(moves)@ == old(moves)@ + ray(b@, position as int, direction as int, limit as nat, turn),
        *final(check) == hits_king(b@, final(moves)@),
{
    let ghost base = moves@;
    let mut newpos: usize = position;
    let mut range: usize = 0;
    while range < limit
        invariant_except_break
            range <= limit,
            newpos < 64,
            dist(newpos as int, direction as int) == dist(position as int, direction as int) - range,
            base + ray(b@, position as int, direction as int, limit as nat, turn) == moves@ + ray(
                b@,
                newpos as int,
                direction as int,
                (limit - range) as nat,
                turn,
            ),
        invariant
            table_ok(t@),
            b@.len() == 64,
            position < 64,
            direction < 8,
            limit <= dist(position as int, direction as int),
            *check == hits_king(b@, moves@),
        ensures
            moves@ == base + ray(b@, position as int, direction as int, limit as nat, turn),
        decreases limit - range,
    {
        let ghost prev = moves@;
        let ghost cur = newpos as int;
        let ghost n = (limit - range) as nat;
        proof {
            lemma_step(cur, direction as int);
        }
        newpos = step(newpos, direction);
        match &b[newpos] {
            Some(piece) => {
                if piece.piececolor == turn {
                    assert(ray(b@, cur, direction as int, n, turn) == Seq::<usize>::empty());
                    assert(moves@ =~= moves@ + Seq::<usize>::empty());
                    break ;
                }
                proof {
                    lemma_hits_king_push(b@, moves@, newpos);
                }
                moves.push(newpos);
                *check = *check || piece.piecetype == PieceType::King;
                assert(ray(b@, cur, direction as int, n, turn) == seq![newpos]);
                assert(prev + seq![newpos] =~= moves@);
                break ;
            },
            None => {
                proof {
                    lemma_hits_king_push(b@, moves@, newpos);
                }
                moves.push(newpos);
                assert(ray(b@, cur, direction as int, n, turn) == seq![newpos] + ray(
                    b@,
                    newpos as int,
                    direction as int,
                    (n - 1) as nat,
                    turn,
                ));
                assert(prev + (seq![newpos] + ray(
                    b@,
                    newpos as int,
                    direction as int,
                    (n - 1) as nat,
                    turn,
                )) =~= moves@ + ray(b@, newpos as int, direction as int, (n - 1) as nat, turn));
            },
        }
        range = range + 1;
    }
    proof {
        if range == limit {
            assert(moves@ + ray(b@, newpos as int, direction as int, 0, turn) =~= moves@);
        }
    }
}

/// Destinations of a sliding piece, or of the king when `king` holds, on
/// `position`, over directions `start, start + add, ...`; the flag is raised
/// when one of them holds an opposing king.
pub fn possible_moves(
    t: &Vec<[usize; 8]>,
    b: &Vec<Option<Piece>>,
    position: usize,
    start: usize,
    add: usize,
    turn: PieceColor,
    king: bool,
    allowed: Option<usize>,
) -> (r: (Vec<usize>, bool))
    requires
        table_ok(t@),
        b@.len() == 64,
        position < 64,
        start < 8,
        1 <= add <= 8,
        allowed matches Some(a) ==> a < 8,
    ensures
        r.0@ == slide_from(b@, position as int, start as int, add as int, allowed, turn, king),
        r.1 == hits_king(b@, r.0@),
{
    let mut moves: Vec<usize> = Vec::new();
    let mut check = false;
    let mut direction: usize = start;
    while direction < DIRECTIONS
        invariant
            table_ok(t@),
            b@.len() == 64,
            position < 64,
            start <= direction <= 8 + add,
            1 <= add <= 8,
            moves@ + slide_from(b@, position as int, direction as int, add as int, allowed, turn, king)
                == slide_from(b@, position as int, start as int, add as int, allowed, turn, king),
            check == hits_king(b@, moves@),
            allowed matches Some(a) ==> a < 8,
        decreases 8 + add - direction,
    {
        let ghost prev = moves@;
        let ghost rest = slide_from(b@, position as int, direction + add, add as int, allowed, turn, king);
        let on_axis = match allowed {
            None => true,
            Some(a) => direction == a || direction + 4 == a || direction == a + 4,
        };
        if on_axis {
            let d = t[position][direction];
            let limit: usize = if king && d > 1 { 1 } else { d };
            walk_ray(t, b, position, direction, limit, turn, &mut moves, &mut check);
            assert(prev + (ray(b@, position as int, direction as int, limit as nat, turn) + rest) =~= moves@ + rest);
        } else {
            assert(prev + (Seq::<usize>::empty() + rest) =~= moves@ + rest);
        }
        direction = direction + add;
    }
    assert(moves@ + slide_from(b@, position as int, direction as int, add as int, allowed, turn, king) =~= moves@);
    (moves, check)
}

/// Adds `target` to `moves` if it is empty or holds an opposing piece.
fn try_land(
    b: &Vec<Option<Piece>>,
    target: usize,
    turn: PieceColor,
    moves: &mut Vec<usize>,
    check: &mut bool,
)
    requires
        b@.len() == 64,
        target < 64,
        *old(check) == hits_king(b@, old(moves)@),
    ensures
        final(moves)@ == old(moves)@ + landing(b@, target as int, turn),
        *final(check) == hits_king(b@, final(moves)@),
{
    let ghost prev = moves@;
    match &b[target] {
        Some(piece) => {
            if piece.piececolor != turn {
                proof {
                    lemma_hits_king_push(b@, moves@, target);
                }
                moves.push(target);
                *check = *check || piece.piecetype == PieceType::King;
                assert(prev + seq![target] =~= moves@);
            } else {
                assert(prev + Seq::<usize>::empty() =~= moves@);
            }
        },
        None => {
            proof {
                lemma_hits_king_push(b@, moves@, target);
            }
            moves.push(target);
            assert(prev + seq![target] =~= moves@);
        },
    }
}

/// Destinations of a knight on `position`; the flag is raised when one of
/// them holds an opposing king.
pub fn possible_moves_knight(
    t: &Vec<[usize; 8]>,
    b: &Vec<Option<Piece>>,
    position: usize,
    turn: PieceColor,
) -> (r: (Vec<usize>, bool))
    requires
        table_ok(t@),
        b@.len() == 64,
        position < 64,
    ensures
        r.0@ == knight_from(b@, position as int, 0, turn),
        r.1 == hits_king(b@, r.0@),
{
    let mut moves: Vec<usize> = Vec::new();
    let mut check = false;
    let mut first_direction: usize = 0;
    while first_direction < DIRECTIONS
        invariant
            table_ok(t@),
            b@.len() == 64,
            position < 64,
            first_direction <= 8,
            first_direction % 2 == 0,
            moves@ + knight_from(b@, position as int, first_direction as int, turn) == knight_from(
                b@,
                position as int,
                0,
                turn,
            ),
            check == hits_king(b@, moves@),
        decreases 8 - first_direction,
    {
        let ghost prev = moves@;
        let ghost fd = first_direction as int;
        let ghost rest = knight_from(b@, position as int, fd + 2, turn);
        if t[position][first_direction] >= 2 {
            proof {
                lemma_step(position as int, fd);
                lemma_step(position + offset(fd), fd);
            }
            let first_pos = step(step(position, first_direction), first_direction);
            let side: usize = if first_direction % 4 == 0 { 2 } else { 0 };
            let mut second_direction: usize = side;
            while second_direction <= side + 4
                invariant
                    table_ok(t@),
                    b@.len() == 64,
                    first_pos < 64,
                    first_pos == position + 2 * offset(fd),
                    side == knight_side(fd),
                    second_direction == side || second_direction == side + 4 || second_direction
                        == side + 8,
                    second_direction == side ==> moves@ == prev,
                    second_direction == side + 4 ==> moves@ == prev + knight_hop(
                        b@,
                        position as int,
                        fd,
                        side as int,
                        turn,
                    ),
                    second_direction == side + 8 ==> moves@ == prev + knight_hop(
                        b@,
                        position as int,
                        fd,
                        side as int,
                        turn,
                    ) + knight_hop(b@, position as int, fd, side + 4, turn),
                    check == hits_king(b@, moves@),
                decreases side + 8 - second_direction,
            {
                let ghost before = moves@;
                if t[first_pos][second_direction] >= 1 {
                    let second_pos = step(first_pos, second_direction);
                    try_land(b, second_pos, turn, &mut moves, &mut check);
                } else {
                    assert(before + Seq::<usize>::empty() =~= before);
                }
                proof {
                    if second_direction == side {
                        assert(prev =~= prev + Seq::<usize>::empty());
                    }
                }
                second_direction = second_direction + 4;
            }
            assert(prev + (knight_hop(b@, position as int, fd, side as int, turn) + knight_hop(
                b@,
                position as int,
                fd,
                side + 4,
                turn,
            ) + rest) =~= moves@ + rest);
        } else {
            assert(prev + (Seq::<usize>::empty() + rest) =~= moves@ + rest);
        }
        first_direction = first_direction + 2;
    }
    assert(moves@ + knight_from(b@, position as int, first_direction as int, turn) =~= moves@);
    (moves, check)
}

/// The direction index of a pawn of `turn` for `k` in 7, 8, 9, found through
/// the offset `k` mirrored for White.
fn pawn_direction(turn: PieceColor, k: i16) -> (r: usize)
    requires
        7 <= k <= 9,
    ensures
        r == pawn_dir(turn, k as int),
        r < 8,
{
    let reverse: i16 = match turn {
        PieceColor::White => -1,
        PieceColor::Black => 1,
    };
    match direction_finder(k * reverse) {
        Some(d) => d,
        None => {
            assert(offset(pawn_dir(turn, k as int)) == k * reverse);
            0
        },
    }
}

/// Adds the diagonal capture of a pawn on `position` in direction `d`.
fn pawn_take(
    t: &Vec<[usize; 8]>,
    b: &Vec<Option<Piece>>,
    position: usize,
    d: usize,
    turn: PieceColor,
    allowed: Option<usize>,
    moves: &mut Vec<usize>,
    check: &mut bool,
)
    requires
        table_ok(t@),
        b@.len() == 64,
        position < 64,
        d < 8,
        allowed matches Some(a) ==> a < 8,
        *old(check) == hits_king(b@, old(moves)@),
    ensures
        final(moves)@ == old(moves)@ + pawn_capture(b@, position as int, d as int, turn, allowed),
        *final(check) == hits_king(b@, final(moves)@),
{
    let ghost prev = moves@;
    let on_axis = match allowed {
        None => true,
        Some(a) => d == a || d + 4 == a || d == a + 4,
    };
    if on_axis && t[position][d] > 0 {
        let newpos = step(position, d);
        match &b[newpos] {
            Some(piece) => {
                if piece.piececolor != turn {
                    proof {
                        lemma_hits_king_push(b@, moves@, newpos);
                    }
                    moves.push(newpos);
                    *check = *check || piece.piecetype == PieceType::King;
                    assert(prev + seq![newpos] =~= moves@);
                    return ;
                }
            },
            None => {},
        }
    }
    assert(prev + Seq::<usize>::empty() =~= moves@);
}

/// Destinations of a pawn on `position` that has moved (`hasmoved`) or not;
/// the flag is raised when one of them holds an opposing king.
pub fn possible_moves_pawn(
    t: &Vec<[usize; 8]>,
    b: &Vec<Option<Piece>>,
    position: usize,
    turn: PieceColor,
    hasmoved: bool,
    allowed: Option<usize>,
) -> (r: (Vec<usize>, bool))
    requires
        table_ok(t@),
        b@.len() == 64,
        position < 64,
        allowed matches Some(a) ==> a < 8,
    ensures
        r.0@ == pawn_moves(b@, position as int, turn, hasmoved, allowed),
        r.1 == hits_king(b@, r.0@),
{
    let mut moves: Vec<usize> = Vec::new();
    let mut check = false;

    let left = pawn_direction(turn, 7);
    pawn_take(t, b, position, left, turn, allowed, &mut moves, &mut check);
    let ghost after_left = moves@;

    let ahead = pawn_direction(turn, 8);
    let on_axis = match allowed {
        None => true,
        Some(a) => ahead == a || ahead + 4 == a || ahead == a + 4,
    };
    let distance = t[position][ahead];
    if on_axis && distance > 0 {
        let one = step(position, ahead);
        if b[one].is_none() {
            proof {
                lemma_hits_king_push(b@, moves@, one);
            }
            moves.push(one);
            if !hasmoved && distance >= 2 {
                proof {
                    lemma_step(position as int, ahead as int);
                }
                let two = step(one, ahead);
                if b[two].is_none() {
                    proof {
                        lemma_hits_king_push(b@, moves@, two);
                    }
                    moves.push(two);
                    assert(after_left + seq![one, two] =~= moves@);
                } else {
                    assert(after_left + seq![one] =~= moves@);
                }
            } else {
                assert(after_left + seq![one] =~= moves@);
            }
        } else {
            assert(after_left + Seq::<usize>::empty() =~= moves@);
        }
    } else {
        assert(after_left + Seq::<usize>::empty() =~= moves@);
    }
    assert(moves@ == after_left + pawn_forward(b@, position as int, turn, hasmoved, allowed));

    let right = pawn_direction(turn, 9);
    pawn_take(t, b, position, right, turn, allowed, &mut moves, &mut check);
    (moves, check)
}

proof fn lemma_pins_shape(b: Board, mover: PieceColor, s: int, d: int)
    requires
        0 <= s < 64 && 0 <= d <= 8 || s == 64 && d == 0,
    ensures
        pins_upto(b, mover, s, d).len() == 64,
        forall|i: int|
            0 <= i < 64 ==> (#[trigger] pins_upto(b, mover, s, d)[i] matches Some(a) ==> a < 8),
    decreases s, d,
{
    if d > 0 {
        lemma_pins_shape(b, mover, s, d - 1);
        lemma_scan_in_board(b, s, d - 1, dist(s, d - 1) as nat, mover, None);
    } else if s > 0 {
        lemma_pins_shape(b, mover, s - 1, 8);
    }
}

/// Follows direction `d` from the opposing slider on `position` and returns
/// the square of `turn` that it pins to `turn`'s king, if any.
fn scan_pin(
    t: &Vec<[usize; 8]>,
    b: &Vec<Option<Piece>>,
    position: usize,
    direction: usize,
    turn: PieceColor,
) -> (r: Option<usize>)
    requires
        table_ok(t@),
        b@.len() == 64,
        position < 64,
        direction < 8,
    ensures
        r == pin_scan(b@, position as int, direction as int, dist(position as int, direction as int) as nat, turn, None),
{
    let ghost whole = pin_scan(b@, position as int, direction as int, dist(position as int, direction as int) as nat, turn, None);
    let mut newpos: usize = position;
    let mut blocking: Option<usize> = None;
    let mut range: usize = 0;
    let stop: usize = t[position][direction];
    while range < stop
        invariant
            table_ok(t@),
            b@.len() == 64,
            direction < 8,
            range <= stop,
            stop == dist(position as int, direction as int),
            newpos < 64,
            dist(newpos as int, direction as int) == stop - range,
            whole == pin_scan(b@, newpos as int, direction as int, (stop - range) as nat, turn, blocking),
            whole == pin_scan(
                b@,
                position as int,
                direction as int,
                dist(position as int, direction as int) as nat,
                turn,
                None,
            ),
        decreases stop - range,
    {
        let ghost cur = newpos as int;
        proof {
            lemma_step(cur, direction as int);
        }
        newpos = step(newpos, direction);
        assert(whole == match b@[newpos as int] {
            None => pin_scan(b@, newpos as int, direction as int, (stop - range - 1) as nat, turn, blocking),
            Some(p) => if p.piececolor != turn {
                None
            } else if p.piecetype != PieceType::King {
                if blocking is Some {
                    None
                } else {
                    pin_scan(b@, newpos as int, direction as int, (stop - range - 1) as nat, turn, Some(newpos))
                }
            } else {
                blocking
            },
        });
        match &b[newpos] {
            Some(piece) => {
                if piece.piececolor != turn {
                    return None;
                }
                if piece.piecetype != PieceType::King {
                    match blocking {
                        Some(_) => {
                            return None;
                        },
                        None => {
                            blocking = Some(newpos);
                        },
                    }
                } else {
                    return blocking;
                }
            },
            None => {},
        }
        range = range + 1;
    }
    None
}

/// Whether a piece of this kind slides along direction `d`.
fn slides(kind: PieceType, d: usize) -> (r: bool)
    ensures
        r == slides_along(kind, d as int),
{
    match kind {
        PieceType::Queen => true,
        PieceType::Bishop => d % 2 == 1,
        PieceType::Rook => d % 2 == 0,
        _ => false,
    }
}

/// Records in `pins` every piece of `turn` that the piece on `position`
/// pins to `turn`'s king, with the direction of the pin as its axis.
fn blocking_check(
    t: &Vec<[usize; 8]>,
    b: &Vec<Option<Piece>>,
    position: usize,
    turn: PieceColor,
    pins: &mut Vec<Option<usize>>,
)
    requires
        table_ok(t@),
        b@.len() == 64,
        position < 64,
        old(pins)@ == pins_upto(b@, turn, position as int, 0),
    ensures
        final(pins)@ == pins_upto(b@, turn, position as int, 8),
{
    let mut direction: usize = 0;
    while direction < DIRECTIONS
        invariant
            table_ok(t@),
            b@.len() == 64,
            position < 64,
            direction <= 8,
            pins@ == pins_upto(b@, turn, position as int, direction as int),
        decreases 8 - direction,
    {
        proof {
            lemma_pins_shape(b@, turn, position as int, direction as int);
        }
        let ghost prev = pins@;
        let pins_here = match &b[position] {
            Some(piece) => piece.piececolor != turn && slides(piece.piecetype, direction),
            None => false,
        };
        if pins_here {
            match scan_pin(t, b, position, direction, turn) {
                Some(target) => {
                    proof {
                        lemma_scan_in_board(b@, position as int, direction as int, dist(position as int, direction as int) as nat, turn, None);
                    }
                    pins.set(target, Some(direction));
                },
                None => {},
            }
        }
        assert(pins@ =~= pins_upto(b@, turn, position as int, direction + 1));
        direction = direction + 1;
    }
}

/// A pin found by a scan is a square of the board.
proof fn lemma_scan_in_board(
    b: Board,
    cur: int,
    d: int,
    n: nat,
    mover: PieceColor,
    blocker: Option<usize>,
)
    requires
        0 <= cur < 64,
        0 <= d < 8,
        n <= dist(cur, d),
        blocker matches Some(k) ==> k < 64,
    ensures
        pin_scan(b, cur, d, n, mover, blocker) matches Some(k) ==> k < 64,
    decreases n,
{
    if n > 0 {
        lemma_step(cur, d);
        let next = cur + offset(d);
        lemma_scan_in_board(b, next, d, (n - 1) as nat, mover, blocker);
        lemma_scan_in_board(b, next, d, (n - 1) as nat, mover, Some(next as usize));
    }
}

/// The legal-move map of `turn` on board `b`, and whether one of those
/// moves lands on the opposing king.
pub fn get_all_possible_moves(
    t: &Vec<[usize; 8]>,
    b: &Vec<Option<Piece>>,
    turn: PieceColor,
) -> (r: (Vec<Option<Vec<usize>>>, bool))
    requires
        table_ok(t@),
        b@.len() == 64,
    ensures
        map_view(r.0@) == legal_map(b@, turn),
        r.1 == gives_check(b@, turn),
{
    let mut pins: Vec<Option<usize>> = Vec::new();
    let mut i: usize = 0;
    while i < 64
        invariant
            i <= 64,
            pins@ == Seq::new(i as nat, |k: int| None::<usize>),
        decreases 64 - i,
    {
        pins.push(None);
        assert(pins@ =~= Seq::new((i + 1) as nat, |k: int| None::<usize>));
        i = i + 1;
    }
    assert(pins@ =~= pins_upto(b@, turn, 0, 0));

    let mut posi: usize = 0;
    while posi < 64
        invariant
            table_ok(t@),
            b@.len() == 64,
            posi <= 64,
            pins@ == pins_upto(b@, turn, posi as int, 0),
        decreases 64 - posi,
    {
        blocking_check(t, b, posi, turn, &mut pins);
        assert(pins_upto(b@, turn, posi + 1, 0) == pins_upto(b@, turn, posi as int, 8));
        posi = posi + 1;
    }
    proof {
        lemma_pins_shape(b@, turn, 64, 0);
    }

    let ghost lm = legal_map(b@, turn);
    let mut map: Vec<Option<Vec<usize>>> = Vec::new();
    let mut check = false;
    let mut position: usize = 0;
    while position < 64
        invariant
            table_ok(t@),
            b@.len() == 64,
            position <= 64,
            pins@ == pin_map(b@, turn),
            pins@.len() == 64,
            forall|k: int| 0 <= k < 64 ==> (#[trigger] pins@[k] matches Some(a) ==> a < 8),
            lm == legal_map(b@, turn),
            map@.len() == position,
            map_view(map@) == lm.subrange(0, position as int),
            check == exists|s: int| 0 <= s < position && #[trigger] checks_from(b@, turn, s),
        decreases 64 - position,
    {
        let ghost prev = map@;
        match &b[position] {
            Some(piece) => {
                if piece.piececolor == turn {
                    let allowed = pins[position];
                    let response = match piece.piecetype {
                        PieceType::King => possible_moves(t, b, position, 0, 1, turn, true, None),
                        PieceType::Queen => possible_moves(t, b, position, 0, 1, turn, false, allowed),
                        PieceType::Bishop => possible_moves(t, b, position, 1, 2, turn, false, allowed),
                        PieceType::Rook => possible_moves(t, b, position, 0, 2, turn, false, allowed),
                        PieceType::Knight => match allowed {
                            Some(_) => (Vec::new(), false),
                            None => possible_moves_knight(t, b, position, turn),
                        },
                        PieceType::Pawn => possible_moves_pawn(t, b, position, turn, piece.hasmoved, allowed),
                    };
                    assert(response.0@ == piece_moves(b@, position as int, *piece, allowed));
                    assert(lm[position as int] == Some(response.0@));
                    assert(checks_from(b@, turn, position as int) == response.1);
                    check = check || response.1;
                    map.push(Some(response.0));
                } else {
                    assert(lm[position as int] is None);
                    assert(!checks_from(b@, turn, position as int));
                    map.push(None);
                }
            },
            None => {
                assert(lm[position as int] is None);
                assert(!checks_from(b@, turn, position as int));
                map.push(None);
            },
        }
        proof {
            assert forall|k: int| 0 <= k < position implies map_view(map@)[k] == map_view(prev)[k] by {
                assert(map@[k] == prev[k]);
            }
            assert(map_view(map@)[position as int] == lm[position as int]);
        }
        assert(map_view(map@) =~= lm.subrange(0, position + 1));
        position = position + 1;
    }
    assert(lm.subrange(0, 64) =~= lm);
    (map, check)
}

} // verus!
