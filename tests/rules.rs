use chess::geometry::{direction_finder, generate_distances, movement, step};
use chess::movegen::{
    get_all_possible_moves, possible_moves, possible_moves_knight, possible_moves_pawn,
};
use chess::notation::{int_to_string, string_to_int, string_to_piece};
use chess::{Game, GameState, Piece, PieceColor, PieceType};

fn sq(name: &str) -> usize {
    string_to_int(name).unwrap()
}

fn empty_board() -> Vec<Option<Piece>> {
    let mut b = Vec::new();
    for _ in 0..64 {
        b.push(None);
    }
    b
}

fn put(b: &mut Vec<Option<Piece>>, name: &str, kind: PieceType, color: PieceColor) {
    b[sq(name)] = Some(Piece::new(kind, color));
}

fn total_moves(game: &Game) -> usize {
    let mut n = 0;
    for s in 0..64 {
        if let Some(v) = game.legal_destinations(s) {
            n += v.len();
        }
    }
    n
}

#[test]
fn distances_exact_values() {
    let t = generate_distances();
    assert_eq!(t.len(), 64);
    assert_eq!(t[0], [0, 0, 7, 7, 7, 0, 0, 0]);
    assert_eq!(t[63], [7, 0, 0, 0, 0, 0, 7, 7]);
    assert_eq!(t[sq("e4")], [4, 3, 3, 3, 3, 3, 4, 4]);
}

#[test]
fn distances_edge_symmetry() {
    let t = generate_distances();
    for s in 0..64 {
        for d in [0usize, 2] {
            assert_eq!(t[s][d] + t[s][d + 4], 7);
        }
        for d in [1usize, 3] {
            let a = t[s][d - 1] as i64;
            let b = t[s][d + 1] as i64;
            assert_eq!((t[s][d] + t[s][d + 4]) as i64, 7 - (a - b).abs());
        }
    }
}

#[test]
fn offsets_and_directions() {
    let expected: [i16; 8] = [-8, -7, 1, 9, 8, 7, -1, -9];
    for d in 0..8 {
        assert_eq!(movement(d), expected[d]);
        assert_eq!(direction_finder(expected[d]), Some(d));
    }
    assert_eq!(direction_finder(2), None);
    assert_eq!(step(sq("e4"), 0), sq("e5"));
    assert_eq!(step(sq("e4"), 3), sq("f3"));
}

#[test]
fn square_names() {
    assert_eq!(string_to_int("a8"), Some(0));
    assert_eq!(string_to_int("h1"), Some(63));
    assert_eq!(string_to_int("e2"), Some(52));
    assert_eq!(string_to_int("i1"), None);
    assert_eq!(string_to_int("a9"), None);
    assert_eq!(string_to_int("e"), None);
    assert_eq!(string_to_int("e22"), None);
    assert_eq!(int_to_string(52), "e2");
    assert_eq!(int_to_string(0), "a8");
    assert_eq!(int_to_string(63), "h1");
}

#[test]
fn promotion_codes() {
    assert_eq!(string_to_piece("q"), PieceType::Queen);
    assert_eq!(string_to_piece("b"), PieceType::Bishop);
    assert_eq!(string_to_piece("kn"), PieceType::Knight);
    assert_eq!(string_to_piece("r"), PieceType::Rook);
    assert_eq!(string_to_piece("k"), PieceType::Pawn);
    assert_eq!(string_to_piece(""), PieceType::Pawn);
    assert_eq!(string_to_piece("queen"), PieceType::Pawn);
}

#[test]
fn piece_accessors() {
    let p = Piece::new(PieceType::Knight, PieceColor::Black);
    assert_eq!(p.get_piecetype(), PieceType::Knight);
    assert_eq!(p.get_piececolor(), PieceColor::Black);
    assert!(!p.hasmoved);
}

#[test]
fn initial_position_has_twenty_moves() {
    let game = Game::new();
    assert_eq!(game.get_game_state(), GameState::InProgress);
    assert_eq!(game.get_turn(), PieceColor::White);
    assert_eq!(total_moves(&game), 20);
    for s in 48..56 {
        assert_eq!(game.legal_destinations(s).unwrap().len(), 2);
    }
    assert_eq!(game.legal_destinations(sq("b1")), Some(vec![sq("c3"), sq("a3")]));
    assert_eq!(game.legal_destinations(sq("g1")), Some(vec![sq("h3"), sq("f3")]));
    assert_eq!(game.legal_destinations(sq("a1")), Some(vec![]));
    assert_eq!(game.legal_destinations(sq("d1")), Some(vec![]));
    assert_eq!(game.legal_destinations(sq("e1")), Some(vec![]));
}

#[test]
fn initial_position_layout() {
    let game = Game::new();
    let back = [
        PieceType::Rook,
        PieceType::Knight,
        PieceType::Bishop,
        PieceType::Queen,
        PieceType::King,
        PieceType::Bishop,
        PieceType::Knight,
        PieceType::Rook,
    ];
    for c in 0..8 {
        assert_eq!(game.piece_at(c), Some(Piece::new(back[c], PieceColor::Black)));
        assert_eq!(game.piece_at(8 + c), Some(Piece::new(PieceType::Pawn, PieceColor::Black)));
        assert_eq!(game.piece_at(48 + c), Some(Piece::new(PieceType::Pawn, PieceColor::White)));
        assert_eq!(game.piece_at(56 + c), Some(Piece::new(back[c], PieceColor::White)));
    }
    for s in 16..48 {
        assert_eq!(game.piece_at(s), None);
    }
    assert_eq!(game.piece_at(64), None);
}

#[test]
fn no_destinations_for_other_side_or_empty_square() {
    let game = Game::new();
    assert_eq!(game.legal_destinations(sq("e7")), None);
    assert_eq!(game.legal_destinations(sq("e4")), None);
    assert_eq!(game.legal_destinations(64), None);
    assert_eq!(game.get_possible_moves("e7"), None);
    assert_eq!(game.get_possible_moves("z9"), None);
}

#[test]
fn enclosed_rook_has_no_moves() {
    let t = generate_distances();
    let mut b = empty_board();
    put(&mut b, "d4", PieceType::Rook, PieceColor::White);
    put(&mut b, "d5", PieceType::Pawn, PieceColor::White);
    put(&mut b, "d3", PieceType::Pawn, PieceColor::White);
    put(&mut b, "c4", PieceType::Knight, PieceColor::White);
    put(&mut b, "e4", PieceType::Bishop, PieceColor::White);
    put(&mut b, "h1", PieceType::King, PieceColor::White);
    put(&mut b, "a8", PieceType::King, PieceColor::Black);
    let (map, check) = get_all_possible_moves(&t, &b, PieceColor::White);
    assert_eq!(map[sq("d4")], Some(vec![]));
    assert!(!check);
    assert_eq!(map[sq("a8")], None);
    assert_eq!(map[sq("a1")], None);
}

#[test]
fn bishop_pinned_on_its_diagonal() {
    let t = generate_distances();
    let mut b = empty_board();
    put(&mut b, "e1", PieceType::King, PieceColor::White);
    put(&mut b, "d2", PieceType::Bishop, PieceColor::White);
    put(&mut b, "a5", PieceType::Bishop, PieceColor::Black);
    put(&mut b, "h8", PieceType::King, PieceColor::Black);
    let (map, _) = get_all_possible_moves(&t, &b, PieceColor::White);
    assert_eq!(map[sq("d2")], Some(vec![sq("c3"), sq("b4"), sq("a5")]));
}

#[test]
fn bishop_pinned_by_rook_has_no_moves() {
    let t = generate_distances();
    let mut b = empty_board();
    put(&mut b, "e1", PieceType::King, PieceColor::White);
    put(&mut b, "e2", PieceType::Bishop, PieceColor::White);
    put(&mut b, "e8", PieceType::Rook, PieceColor::Black);
    put(&mut b, "a8", PieceType::King, PieceColor::Black);
    let (map, _) = get_all_possible_moves(&t, &b, PieceColor::White);
    assert_eq!(map[sq("e2")], Some(vec![]));
}

#[test]
fn pin_needs_the_king_right_behind() {
    let t = generate_distances();
    let mut b = empty_board();
    put(&mut b, "e1", PieceType::King, PieceColor::White);
    put(&mut b, "e2", PieceType::Pawn, PieceColor::White);
    put(&mut b, "e3", PieceType::Bishop, PieceColor::White);
    put(&mut b, "e8", PieceType::Rook, PieceColor::Black);
    put(&mut b, "a8", PieceType::King, PieceColor::Black);
    let (map, _) = get_all_possible_moves(&t, &b, PieceColor::White);
    assert_eq!(
        map[sq("e3")],
        Some(vec![sq("f4"), sq("g5"), sq("h6"), sq("f2"), sq("g1"), sq("d2"), sq("c1"), sq("d4"), sq("c5"), sq("b6"), sq("a7")])
    );
}

#[test]
fn pinned_knight_has_no_moves() {
    let t = generate_distances();
    let mut b = empty_board();
    put(&mut b, "e1", PieceType::King, PieceColor::White);
    put(&mut b, "e4", PieceType::Knight, PieceColor::White);
    put(&mut b, "e8", PieceType::Queen, PieceColor::Black);
    put(&mut b, "a8", PieceType::King, PieceColor::Black);
    let (map, _) = get_all_possible_moves(&t, &b, PieceColor::White);
    assert_eq!(map[sq("e4")], Some(vec![]));
}

#[test]
fn pinned_rook_slides_along_the_pin() {
    let t = generate_distances();
    let mut b = empty_board();
    put(&mut b, "e1", PieceType::King, PieceColor::White);
    put(&mut b, "e3", PieceType::Rook, PieceColor::White);
    put(&mut b, "e7", PieceType::Rook, PieceColor::Black);
    put(&mut b, "a8", PieceType::King, PieceColor::Black);
    let (map, _) = get_all_possible_moves(&t, &b, PieceColor::White);
    assert_eq!(map[sq("e3")], Some(vec![sq("e4"), sq("e5"), sq("e6"), sq("e7"), sq("e2")]));
}

#[test]
fn pawn_double_step_then_single() {
    let mut game = Game::new();
    assert_eq!(game.legal_destinations(sq("e2")), Some(vec![sq("e3"), sq("e4")]));
    assert_eq!(game.apply_move(sq("e2"), sq("e4")), GameState::InProgress);
    assert_eq!(game.apply_move(sq("a7"), sq("a6")), GameState::InProgress);
    assert_eq!(game.legal_destinations(sq("e4")), Some(vec![sq("e5")]));
    assert!(game.piece_at(sq("e4")).unwrap().hasmoved);
}

#[test]
fn pawn_blocked_ahead_has_no_double_step() {
    let t = generate_distances();
    let mut b = empty_board();
    put(&mut b, "e2", PieceType::Pawn, PieceColor::White);
    put(&mut b, "e3", PieceType::Knight, PieceColor::Black);
    let r = possible_moves_pawn(&t, &b, sq("e2"), PieceColor::White, false, None);
    assert_eq!(r, (vec![], false));
    let mut b2 = empty_board();
    put(&mut b2, "e2", PieceType::Pawn, PieceColor::White);
    put(&mut b2, "e4", PieceType::Knight, PieceColor::Black);
    let r2 = possible_moves_pawn(&t, &b2, sq("e2"), PieceColor::White, false, None);
    assert_eq!(r2, (vec![sq("e3")], false));
}

#[test]
fn pawn_captures_diagonally_and_not_across_edge() {
    let t = generate_distances();
    let mut b = empty_board();
    put(&mut b, "a4", PieceType::Pawn, PieceColor::White);
    put(&mut b, "b5", PieceType::King, PieceColor::Black);
    put(&mut b, "h6", PieceType::Rook, PieceColor::Black);
    let r = possible_moves_pawn(&t, &b, sq("a4"), PieceColor::White, true, None);
    assert_eq!(r, (vec![sq("b5"), sq("a5")], true));
    let mut b2 = empty_board();
    put(&mut b2, "h3", PieceType::Pawn, PieceColor::Black);
    put(&mut b2, "g2", PieceType::Rook, PieceColor::White);
    put(&mut b2, "a1", PieceType::Rook, PieceColor::White);
    let r2 = possible_moves_pawn(&t, &b2, sq("h3"), PieceColor::Black, true, None);
    assert_eq!(r2, (vec![sq("g2"), sq("h2")], false));
}

#[test]
fn knight_moves_near_corner() {
    let t = generate_distances();
    let mut b = empty_board();
    put(&mut b, "a8", PieceType::Knight, PieceColor::Black);
    put(&mut b, "b6", PieceType::Pawn, PieceColor::Black);
    put(&mut b, "c7", PieceType::King, PieceColor::White);
    let r = possible_moves_knight(&t, &b, sq("a8"), PieceColor::Black);
    assert_eq!(r, (vec![sq("c7")], true));
}

#[test]
fn king_moves_one_step() {
    let t = generate_distances();
    let mut b = empty_board();
    put(&mut b, "a1", PieceType::King, PieceColor::White);
    put(&mut b, "a2", PieceType::Pawn, PieceColor::White);
    let r = possible_moves(&t, &b, sq("a1"), 0, 1, PieceColor::White, true, None);
    assert_eq!(r, (vec![sq("b2"), sq("b1")], false));
}

#[test]
fn queen_slides_until_blocked() {
    let t = generate_distances();
    let mut b = empty_board();
    put(&mut b, "d4", PieceType::Queen, PieceColor::White);
    put(&mut b, "d6", PieceType::Pawn, PieceColor::Black);
    put(&mut b, "f4", PieceType::Pawn, PieceColor::White);
    let (moves, check) = possible_moves(&t, &b, sq("d4"), 0, 1, PieceColor::White, false, None);
    assert!(!check);
    assert_eq!(moves.len(), 22);
    assert_eq!(&moves[0..2], &[sq("d5"), sq("d6")]);
    assert!(!moves.contains(&sq("d7")));
    assert!(moves.contains(&sq("e4")));
    assert!(!moves.contains(&sq("f4")));
    assert!(moves.contains(&sq("h8")));
}

#[test]
fn queen_gives_check() {
    let mut game = Game::new();
    assert_eq!(game.make_move("e2", "e4"), Some(GameState::InProgress));
    assert_eq!(game.make_move("f7", "f6"), Some(GameState::InProgress));
    assert_eq!(game.make_move("d1", "h5"), Some(GameState::Check));
    assert_eq!(game.get_game_state(), GameState::Check);
    assert_eq!(game.get_turn(), PieceColor::Black);
}

#[test]
fn check_flag_from_aggregator() {
    let t = generate_distances();
    let mut b = empty_board();
    put(&mut b, "e1", PieceType::King, PieceColor::White);
    put(&mut b, "a4", PieceType::Rook, PieceColor::White);
    put(&mut b, "h4", PieceType::King, PieceColor::Black);
    let (_, check) = get_all_possible_moves(&t, &b, PieceColor::White);
    assert!(check);
    put(&mut b, "d4", PieceType::Pawn, PieceColor::White);
    let (_, check2) = get_all_possible_moves(&t, &b, PieceColor::White);
    assert!(!check2);
}

#[test]
fn promotion_waits_for_choice() {
    let mut game = Game::new();
    let seq = [
        ("a2", "a4"),
        ("b7", "b5"),
        ("a4", "b5"),
        ("b8", "a6"),
        ("b5", "b6"),
        ("d7", "d6"),
        ("b6", "b7"),
        ("c8", "d7"),
    ];
    for (f, t) in seq {
        assert!(game.make_move(f, t).is_some());
    }
    assert_eq!(game.get_turn(), PieceColor::White);
    assert_eq!(game.make_move("b7", "b8"), Some(GameState::SetPromotion));
    assert_eq!(game.get_turn(), PieceColor::White);
    for s in 0..64 {
        assert_eq!(game.legal_destinations(s), None);
    }
    assert_eq!(game.make_move("e7", "e5"), Some(GameState::SetPromotion));
    assert_eq!(game.piece_at(sq("e7")), Some(Piece::new(PieceType::Pawn, PieceColor::Black)));
    game.set_promotion("q");
    assert_eq!(game.get_game_state(), GameState::InProgress);
    assert_eq!(game.get_turn(), PieceColor::Black);
    let q = game.piece_at(sq("b8")).unwrap();
    assert_eq!(q.get_piecetype(), PieceType::Queen);
    assert_eq!(q.get_piececolor(), PieceColor::White);
    assert!(game.legal_destinations(sq("e7")).is_some());
}

#[test]
fn promotion_choice_without_pending_pawn_changes_nothing() {
    let mut game = Game::new();
    assert_eq!(game.resolve_promotion(PieceType::Queen), GameState::InProgress);
    game.set_promotion("q");
    assert_eq!(game.get_turn(), PieceColor::White);
    assert_eq!(total_moves(&game), 20);
}

#[test]
fn black_reply_after_e4() {
    let mut game = Game::new();
    assert_eq!(game.make_move("e2", "e4"), Some(GameState::InProgress));
    assert_eq!(game.get_turn(), PieceColor::Black);
    assert_eq!(game.legal_destinations(sq("e7")), Some(vec![sq("e6"), sq("e5")]));
    assert_eq!(
        game.get_possible_moves("e7"),
        Some(vec!["e6".to_string(), "e5".to_string()])
    );
    assert_eq!(game.get_possible_moves("e4"), None);
    assert_eq!(total_moves(&game), 20);
}

#[test]
fn pawn_takes_after_e4_d5() {
    let mut game = Game::new();
    game.make_move("e2", "e4");
    game.make_move("d7", "d5");
    assert_eq!(game.get_possible_moves("e4"), Some(vec!["e5".to_string(), "d5".to_string()]));
    assert_eq!(game.make_move("e4", "d5"), Some(GameState::InProgress));
    assert_eq!(game.piece_at(sq("d5")).unwrap().get_piececolor(), PieceColor::White);
    assert_eq!(game.piece_at(sq("e4")), None);
}

#[test]
fn repeated_move_is_refused() {
    let mut game = Game::new();
    assert_eq!(game.apply_move(sq("e2"), sq("e4")), GameState::InProgress);
    assert_eq!(game.apply_move(sq("e2"), sq("e4")), GameState::InProgress);
    assert_eq!(game.get_turn(), PieceColor::Black);
    assert_eq!(game.piece_at(sq("e2")), None);
    assert_eq!(game.legal_destinations(sq("e7")), Some(vec![sq("e6"), sq("e5")]));
}

#[test]
fn illegal_moves_are_refused() {
    let mut game = Game::new();
    assert_eq!(game.make_move("e2", "e5"), Some(GameState::InProgress));
    assert_eq!(game.make_move("e7", "e5"), Some(GameState::InProgress));
    assert_eq!(game.make_move("e3", "e4"), Some(GameState::InProgress));
    assert_eq!(game.make_move("x2", "e4"), None);
    assert_eq!(game.make_move("e2", "e9"), None);
    assert_eq!(game.apply_move(64, 0), GameState::InProgress);
    assert_eq!(game.get_turn(), PieceColor::White);
    assert_eq!(game.piece_at(sq("e2")), Some(Piece::new(PieceType::Pawn, PieceColor::White)));
    assert_eq!(total_moves(&game), 20);
}

#[test]
fn board_drawing_of_initial_position() {
    let game = Game::new();
    let expected = "\n|:----------------------:|\n| R  Kn B  Q  K  B  Kn R |\n| P  P  P  P  P  P  P  P |\n| *  *  *  *  *  *  *  * |\n| *  *  *  *  *  *  *  * |\n| *  *  *  *  *  *  *  * |\n| *  *  *  *  *  *  *  * |\n| P  P  P  P  P  P  P  P |\n| R  Kn B  Q  K  B  Kn R |\n|:----------------------:|";
    assert_eq!(game.board_string(), expected);
}
