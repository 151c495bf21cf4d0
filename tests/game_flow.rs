use chess::Game;
use chess::GameState;

#[test]
fn it_works() {
    assert_eq!(2 + 2, 4);
}

#[test]
fn game_in_progress_after_init() {
    let mut game = Game::new();

    game.make_move("a2", "a4");
    game.make_move("b7", "b5");
    game.make_move("a4", "b5");
    game.make_move("b8", "a6");
    game.make_move("b5", "b6");
    game.make_move("d7", "d6");
    game.make_move("b6", "b7");
    game.make_move("c8", "d7");
    println!("-----------------------");
    game.make_move("b7", "b8");
    println!("-----------------------");
    game.set_promotion("q");
    println!("-----------------------");
    println!("{:?}", game.get_game_state());
}
