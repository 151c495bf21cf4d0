use vstd::prelude::*;

use crate::board::{initial_board, new_board};
use crate::geometry::{dist, generate_distances, table_ok};
use crate::movegen::{
    get_all_possible_moves, gives_check, legal_map, lemma_legal_targets, map_view, target_ok, Board,
};
use crate::notation::{
    int_to_string, piece_of_name, square_name, square_of, string_to_int, string_to_piece,
};
use crate::piece::{opponent, other_color, Piece, PieceColor, PieceType};
use crate::render::{self, board_text};

verus! {

/// Where the game stands.
#[derive(Copy, Clone, Debug, PartialEq, Eq, Structural)]
pub enum GameState {
    InProgress,
    SetPromotion,
    Check,
    GameOver,
}

/// The abstract state of a game.
pub ghost struct GameModel {
    pub state: GameState,
    pub turn: PieceColor,
    pub board: Board,
    /// The legal-move map offered to the side to move.
    pub moves: Seq<Option<Seq<usize>>>,
    /// The square of a pawn waiting to be promoted.
    pub promotion: Option<usize>,
}

/// A legal-move map with no entries.
pub open spec fn no_moves() -> Seq<Option<Seq<usize>>> {
    Seq::new(64, |s: int| None)
}

/// A pawn of `c` arriving on `to` has reached the farthest rank.
pub open spec fn promotes(c: PieceColor, to: int) -> bool {
    match c {
        PieceColor::White => dist(to, 0) == 0,
        PieceColor::Black => dist(to, 4) == 0,
    }
}

/// The game after `mover` has completed a move leading to `board`: check is
/// decided for `mover`, the turn passes, and the other side's legal-move map
/// is computed.
pub open spec fn advance(board: Board, mover: PieceColor) -> GameModel {
    GameModel {
        state: if gives_check(board, mover) {
            GameState::Check
        } else {
            GameState::InProgress
        },
        turn: opponent(mover),
        board,
        moves: legal_map(board, opponent(mover)),
        promotion: None,
    }
}

impl GameModel {
    /// The state every game keeps between operations.
    pub open spec fn inv(self) -> bool {
        &&& self.board.len() == 64
        &&& self.state != GameState::GameOver
        &&& (self.state == GameState::SetPromotion) == (self.promotion is Some)
        &&& self.promotion matches Some(p) ==> p < 64
        &&& if self.state == GameState::SetPromotion {
            self.moves == no_moves()
        } else {
            self.moves == legal_map(self.board, self.turn)
        }
    }

    /// Moving from `from` to `to` is allowed: a piece of the side to move
    /// stands on `from` and `to` is among its legal destinations.
    pub open spec fn move_ok(self, from: int, to: int) -> bool {
        &&& 0 <= from < 64
        &&& 0 <= to < 64
        &&& self.board[from] matches Some(p) && p.piececolor == self.turn
        &&& self.moves[from] matches Some(m) && m.contains(to as usize)
    }

    /// The game after asking to move from `from` to `to`: unchanged if the
    /// move is not allowed; otherwise the piece moves (a pawn is marked as
    /// moved), and either a promotion is awaited or the turn passes.
    pub open spec fn after_move(self, from: int, to: int) -> GameModel {
        if !self.move_ok(from, to) {
            self
        } else {
            let p = self.board[from].unwrap();
            let is_pawn = p.piecetype == PieceType::Pawn;
            let moved = if is_pawn {
                Piece { piecetype: p.piecetype, piececolor: p.piececolor, hasmoved: true }
            } else {
                p
            };
            let board = self.board.update(to, Some(moved)).update(from, None);
            if is_pawn && promotes(self.turn, to) {
                GameModel {
                    state: GameState::SetPromotion,
                    turn: self.turn,
                    board,
                    moves: no_moves(),
                    promotion: Some(to as usize),
                }
            } else {
                advance(board, self.turn)
            }
        }
    }

    /// The game after choosing `kind` for the awaited promotion: unchanged if
    /// none is awaited; otherwise the pawn becomes `kind` and the turn passes.
    pub open spec fn after_promotion(self, kind: PieceType) -> GameModel {
        match self.promotion {
            None => self,
            Some(pos) => {
                let board = match self.board[pos as int] {
                    Some(p) => self.board.update(
                        pos as int,
                        Some(Piece { piecetype: kind, piececolor: p.piececolor, hasmoved: p.hasmoved }),
                    ),
                    None => self.board,
                };
                advance(board, self.turn)
            },
        }
    }
}

/// After an accepted move that does not bring a pawn to its last rank, the
/// state is Check exactly when some destination of the mover's pieces on the
/// new board lands on the opposing king; the turn has passed to the other side.
pub proof fn lemma_move_check(g: GameModel, from: int, to: int)
    requires
        g.inv(),
        g.move_ok(from, to),
        !(g.board[from].unwrap().piecetype == PieceType::Pawn && promotes(g.turn, to)),
    ensures
        g.after_move(from, to).turn == opponent(g.turn),
        (g.after_move(from, to).state == GameState::Check) == gives_check(
            g.after_move(from, to).board,
            g.turn,
        ),
        g.after_move(from, to).inv(),
{
}

/// A pawn reaching its last rank leaves the game awaiting a promotion, with
/// the same side to move and no legal move for any square, and every move
/// asked for is refused; choosing the piece then passes the turn, with the
/// state decided by check as after any other move.
pub proof fn lemma_promotion(g: GameModel, from: int, to: int, kind: PieceType, f: int, t: int)
    requires
        g.inv(),
        g.move_ok(from, to),
        g.board[from].unwrap().piecetype == PieceType::Pawn,
        promotes(g.turn, to),
    ensures
        g.after_move(from, to).inv(),
        g.after_move(from, to).state == GameState::SetPromotion,
        g.after_move(from, to).turn == g.turn,
        forall|s: int| 0 <= s < 64 ==> #[trigger] g.after_move(from, to).moves[s] is None,
        g.after_move(from, to).after_move(f, t) == g.after_move(from, to),
        g.after_move(from, to).after_promotion(kind).turn == opponent(g.turn),
        (g.after_move(from, to).after_promotion(kind).state == GameState::Check) == gives_check(
            g.after_move(from, to).after_promotion(kind).board,
            g.turn,
        ),
        g.after_move(from, to).after_promotion(kind).inv(),
{
    let h = g.after_move(from, to);
    assert(h.board.len() == 64);
}

/// Asking for the same move twice changes nothing the second time: once a
/// move is made its origin is empty, and a refused move changes nothing.
pub proof fn lemma_move_twice(g: GameModel, from: int, to: int)
    requires
        g.inv(),
    ensures
        g.after_move(from, to).after_move(from, to) == g.after_move(from, to),
{
    if g.move_ok(from, to) {
        lemma_legal_targets(g.board, g.turn, from);
        let m = g.moves[from].unwrap();
        let i = choose|i: int| 0 <= i < m.len() && m[i] == to as usize;
        assert(target_ok(g.board, g.turn, m[i]));
        assert(to != from);
        let h = g.after_move(from, to);
        assert(h.board[from] is None);
    }
}


/// A game of chess between two sides taking turns.
pub struct Game {
    state: GameState,
    turn: PieceColor,
    gameboard: Vec<Option<Piece>>,
    possible_moves: Vec<Option<Vec<usize>>>,
    distances: Vec<[usize; 8]>,
    promotion_pos: Option<usize>,
}

impl View for Game {
    type V = GameModel;

    closed spec fn view(&self) -> GameModel {
        GameModel {
            state: self.state,
            turn: self.turn,
            board: self.gameboard@,
            moves: map_view(self.possible_moves@),
            promotion: self.promotion_pos,
        }
    }
}

fn empty_map() -> (m: Vec<Option<Vec<usize>>>)
    ensures
        map_view(m@) == no_moves(),
{
    let mut m: Vec<Option<Vec<usize>>> = Vec::new();
    let mut i: usize = 0;
    while i < 64
        invariant
            i <= 64,
            m@.len() == i,
            forall|k: int| 0 <= k < i ==> #[trigger] m@[k] is None,
        decreases 64 - i,
    {
        m.push(None);
        i = i + 1;
    }
    assert(map_view(m@) =~= no_moves());
    m
}

/// Whether `x` is among the squares of `v`.
fn holds(v: &Vec<usize>, x: usize) -> (r: bool)
    ensures
        r == v@.contains(x),
{
    let mut i: usize = 0;
    while i < v.len()
        invariant
            i <= v@.len(),
            forall|k: int| 0 <= k < i ==> v@[k] != x,
        decreases v@.len() - i,
    {
        if v[i] == x {
            assert(v@[i as int] == x);
            return true;
        }
        i = i + 1;
    }
    false
}

impl Game {
    /// The distance table the game holds is the right one.
    pub closed spec fn tables_ok(&self) -> bool {
        table_ok(self.distances@)
    }

    /// The game is well formed.
    pub open spec fn wf(&self) -> bool {
        self.tables_ok() && self@.inv()
    }

    proof fn lemma_moves_view(&self, s: int)
        requires
            self.wf(),
            0 <= s < 64,
        ensures
            self.possible_moves@.len() == 64,
            self@.moves[s] == match self.possible_moves@[s] {
                Some(v) => Some(v@),
                None => None,
            },
    {
        assert(self@.moves == map_view(self.possible_moves@));
        assert(self@.moves.len() == 64);
    }

    /// Whether a pawn of the side to move arriving on `position` is promoted.
    fn check_promotion(&self, position: usize) -> (r: GameState)
        requires
            self.tables_ok(),
            position < 64,
        ensures
            r == if promotes(self.turn, position as int) {
                GameState::SetPromotion
            } else {
                GameState::InProgress
            },
    {
        let edge: usize = match self.turn {
            PieceColor::White => 0,
            PieceColor::Black => 4,
        };
        if self.distances[position][edge] == 0 {
            GameState::SetPromotion
        } else {
            GameState::InProgress
        }
    }

    /// Completes the move of the side to move: decides check, passes the
    /// turn, and computes the other side's legal-move map.
    fn finish_turn(&mut self)
        requires
            old(self).tables_ok(),
            old(self).gameboard@.len() == 64,
        ensures
            final(self).wf(),
            final(self)@ == advance(old(self).gameboard@, old(self).turn),
    {
        let mover = self.turn;
        let check = get_all_possible_moves(&self.distances, &self.gameboard, mover).1;
        let state = if check {
            GameState::Check
        } else {
            GameState::InProgress
        };
        self.turn = other_color(mover);
        self.possible_moves = get_all_possible_moves(&self.distances, &self.gameboard, self.turn).0;
        self.state = state;
        self.promotion_pos = None;
    }

    /// Moves the piece on square `from` to square `to` if the side to move
    /// may; otherwise nothing changes. Returns the resulting state.
    pub fn apply_move(&mut self, from: usize, to: usize) -> (r: GameState)
        requires
            old(self).wf(),
        ensures
            final(self).wf(),
            final(self)@ == old(self)@.after_move(from as int, to as int),
            r == final(self)@.state,
    {
        if from >= 64 || to >= 64 {
            return self.state;
        }
        proof {
            self.lemma_moves_view(from as int);
        }
        let mut piece = match self.gameboard[from] {
            Some(p) => p,
            None => {
                return self.state;
            },
        };
        if piece.piececolor != self.turn {
            return self.state;
        }
        let allowed = match &self.possible_moves[from] {
            Some(v) => holds(v, to),
            None => false,
        };
        if !allowed {
            return self.state;
        }
        let is_pawn = piece.piecetype == PieceType::Pawn;
        if is_pawn {
            piece.hasmoved = true;
        }
        self.gameboard.set(to, Some(piece));
        self.gameboard.set(from, None);
        if is_pawn && self.check_promotion(to) == GameState::SetPromotion {
            self.state = GameState::SetPromotion;
            self.promotion_pos = Some(to);
            self.possible_moves = empty_map();
        } else {
            self.finish_turn();
        }
        self.state
    }

    /// Moves the piece on the square named `from` to the square named `to`
    /// if the side to move may. `None`, with nothing changed, when a name is
    /// not a square; otherwise the resulting state.
    pub fn make_move(&mut self, from: &str, to: &str) -> (r: Option<GameState>)
        requires
            old(self).wf(),
        ensures
            final(self).wf(),
            match (square_of(from@), square_of(to@)) {
                (Some(f), Some(t)) => final(self)@ == old(self)@.after_move(f, t) && r == Some(
                    final(self)@.state,
                ),
                _ => final(self)@ == old(self)@ && r is None,
            },
    {
        let pos = match string_to_int(from) {
            Some(p) => p,
            None => {
                return None;
            },
        };
        let newpos = match string_to_int(to) {
            Some(p) => p,
            None => {
                return None;
            },
        };
        Some(self.apply_move(pos, newpos))
    }

    /// Turns the pawn awaiting promotion into `kind` and passes the turn;
    /// nothing changes if no promotion is awaited. Returns the resulting
    /// state.
    pub fn resolve_promotion(&mut self, kind: PieceType) -> (r: GameState)
        requires
            old(self).wf(),
        ensures
            final(self).wf(),
            final(self)@ == old(self)@.after_promotion(kind),
            r == final(self)@.state,
    {
        match self.promotion_pos {
            None => self.state,
            Some(pos) => {
                match self.gameboard[pos] {
                    Some(p) => {
                        self.gameboard.set(
                            pos,
                            Some(Piece { piecetype: kind, piececolor: p.piececolor, hasmoved: p.hasmoved }),
                        );
                    },
                    None => {},
                }
                self.finish_turn();
                self.state
            },
        }
    }

    /// Promotes the waiting pawn to the kind named by `piece`: "q" queen,
    /// "b" bishop, "kn" knight, "r" rook; any other name leaves a pawn.
    /// Nothing changes if no promotion is awaited.
    pub fn set_promotion(&mut self, piece: &str)
        requires
            old(self).wf(),
        ensures
            final(self).wf(),
            final(self)@ == old(self)@.after_promotion(piece_of_name(piece@)),
    {
        let kind = string_to_piece(piece);
        self.resolve_promotion(kind);
    }

    /// A game in the standard initial position, White to move.
    pub fn new() -> (g: Game)
        ensures
            g.wf(),
            g@.state == GameState::InProgress,
            g@.turn == PieceColor::White,
            g@.board == initial_board(),
            g@.moves == legal_map(initial_board(), PieceColor::White),
            g@.promotion is None,
    {
        let distances = generate_distances();
        let gameboard = new_board();
        let possible_moves = get_all_possible_moves(&distances, &gameboard, PieceColor::White).0;
        Game {
            state: GameState::InProgress,
            turn: PieceColor::White,
            gameboard,
            possible_moves,
            distances,
            promotion_pos: None,
        }
    }

    /// Where the game stands.
    pub fn get_game_state(&self) -> (r: GameState)
        ensures
            r == self@.state,
    {
        self.state
    }

    /// The drawing of the board, one line per rank, 8th rank first.
    pub fn board_string(&self) -> (r: String)
        requires
            self.wf(),
        ensures
            r@ == board_text(self@.board),
    {
        render::board_string(&self.gameboard)
    }

    /// Whose turn it is.
    pub fn get_turn(&self) -> (r: PieceColor)
        ensures
            r == self@.turn,
    {
        self.turn
    }

    /// The occupant of square `s`, or `None` for an empty square or an index
    /// off the board.
    pub fn piece_at(&self, s: usize) -> (r: Option<Piece>)
        requires
            self.wf(),
        ensures
            s < 64 ==> r == self@.board[s as int],
            s >= 64 ==> r is None,
    {
        if s < 64 {
            self.gameboard[s]
        } else {
            None
        }
    }

    /// The legal destinations of the piece on `s`: nothing if the square is
    /// off the board, empty, not of the side to move, or a promotion is
    /// awaited.
    pub fn legal_destinations(&self, s: usize) -> (r: Option<Vec<usize>>)
        requires
            self.wf(),
        ensures
            r matches Some(v) ==> s < 64 && self@.moves[s as int] == Some(v@),
            r is None ==> s >= 64 || self@.moves[s as int] is None,
    {
        if s >= 64 {
            return None;
        }
        proof {
            self.lemma_moves_view(s as int);
        }
        match &self.possible_moves[s] {
            Some(v) => {
                let c = v.clone();
                assert(c@ =~= v@);
                Some(c)
            },
            None => None,
        }
    }

    /// The legal destinations of the piece on the square named `position`,
    /// as names; nothing if the name is not a square or the square has no
    /// entry in the legal-move map.
    pub fn get_possible_moves(&self, position: &str) -> (r: Option<Vec<String>>)
        requires
            self.wf(),
        ensures
            r matches Some(names) ==> {
                &&& square_of(position@) matches Some(s)
                &&& self@.moves[s] matches Some(m)
                &&& names@.len() == m.len()
                &&& forall|i: int| 0 <= i < m.len() ==> (#[trigger] names@[i])@ == square_name(m[i] as int)
            },
            r is None ==> (square_of(position@) matches Some(s) ==> self@.moves[s] is None),
    {
        let pos = match string_to_int(position) {
            Some(p) => p,
            None => {
                return None;
            },
        };
        proof {
            self.lemma_moves_view(pos as int);
        }
        match &self.possible_moves[pos] {
            Some(v) => {
                proof {
                    lemma_legal_targets(self@.board, self@.turn, pos as int);
                }
                let mut names: Vec<String> = Vec::new();
                let mut i: usize = 0;
                while i < v.len()
                    invariant
                        self.wf(),
                        i <= v@.len(),
                        names@.len() == i,
                        forall|k: int| 0 <= k < v@.len() ==> (#[trigger] v@[k]) < 64,
                        forall|k: int| 0 <= k < i ==> (#[trigger] names@[k])@ == square_name(v@[k] as int),
                    decreases v@.len() - i,
                {
                    names.push(int_to_string(v[i]));
                    i = i + 1;
                }
                Some(names)
            },
            None => None,
        }
    }
}

} // verus!
