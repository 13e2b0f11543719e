use othello_agent::agent::rule_based::{action_of, next_move_rule_based, RuleAgent};
use othello_agent::agent::traits::{choose_move, move_at, Agent};
use othello_agent::agent::utils::{raw_record_to_game_history, RawRecord};
use othello_agent::gameplay::constants::{
    CODE_CHARS, DEFAULT_BOARD_WIDTH, INITIAL_BOARD, NULL_MOVE_INDEX,
};
use othello_agent::gameplay::encoding::string_from_board;
use othello_agent::gameplay::game::{IBoard, OthelloError};
use othello_agent::gameplay::position::IPosition;
use othello_agent::gameplay::utils::{board_by_playing_piece_at_index, player_has_move};
use othello_agent::simulate::environment::{
    OthelloEnvironment, OthelloPlayer, OthelloPlayerType,
};
use othello_agent::simulate::game::OthelloSimulator;
use othello_agent::simulate::history::{GameHistory, GameHistoryStore, ObservationMove};

fn at(r: i8, c: i8) -> IPosition {
    IPosition { downwards: r, rightwards: c }
}

#[test]
fn test_play_game() {
    let mut simulator = OthelloSimulator::new();
    simulator.play_game();
    assert_eq!(simulator.history_store.total_games, 1);
    // get last game and ensure it exists
    let last_game: Option<&GameHistory> = simulator.history_store.last_game();
    assert_eq!(last_game.is_some(), true);
    // ensure more moves than zero
    assert_eq!(last_game.unwrap().total_moves > 0, true);
    // ensure at least one player scored
    assert_eq!(
        last_game.unwrap().agent0_score > 0 || last_game.unwrap().agent1_score > 0,
        true
    );
    // ensure scores add up to DEFAULT_BOARD_WIDTH * DEFAULT_BOARD_HEIGHT
    assert_eq!(
        last_game.unwrap().agent0_score + last_game.unwrap().agent1_score,
        (DEFAULT_BOARD_WIDTH as i16) * (DEFAULT_BOARD_WIDTH as i16)
    );
}

#[test]
fn simulator_plays_finished_games() {
    let mut simulator = OthelloSimulator::new();
    assert_eq!(simulator.board, INITIAL_BOARD);
    assert_eq!(simulator.history_store.total_games, 0);
    simulator.play_games(3);
    assert_eq!(simulator.history_store.total_games, 3);
    assert_eq!(simulator.history_store.history.len(), 3);
    assert_eq!(simulator.board, INITIAL_BOARD);
    for game in simulator.history_store.history.iter() {
        assert!(game.total_moves >= 3);
        assert_eq!(game.board_history.len(), game.total_moves as usize);
        assert_eq!(game.move_history.len(), game.total_moves as usize);
        assert_eq!(game.board_history[0], "---------h-yq---------");
        assert_eq!(game.move_history[0], NULL_MOVE_INDEX);
        // the two closing passes
        let n = game.move_history.len();
        assert_eq!(game.move_history[n - 1], NULL_MOVE_INDEX);
        assert_eq!(game.move_history[n - 2], NULL_MOVE_INDEX);
        assert_eq!(game.board_history[n - 1], game.board_history[n - 2]);
        assert!(game.agent0_score + game.agent1_score <= 64);
        assert!(game.agent0_score + game.agent1_score >= 5);
        for m in game.move_history.iter() {
            assert!(*m < 64 || *m == NULL_MOVE_INDEX);
        }
    }
}

#[test]
fn history_records_boards_and_moves() {
    let mut history = GameHistory::with_id(7);
    assert_eq!(history.id, 7);
    assert_eq!(history.total_moves, 0);
    assert!(history.get_formatted_data().is_empty());
    history.add_board(INITIAL_BOARD, 199, false);
    assert_eq!(history.total_moves, 1);
    assert_eq!(history.board_history, vec!["---------h-yq---------".to_string()]);
    assert_eq!(history.move_history, vec![199]);
    assert_eq!((history.agent0_score, history.agent1_score), (0, 0));
    assert!(history.get_formatted_data().is_empty());
    let b1 = board_by_playing_piece_at_index(INITIAL_BOARD, &at(2, 3), 0).unwrap();
    history.add_board(b1, 19, false);
    let b2 = board_by_playing_piece_at_index(b1, &at(2, 2), 1).unwrap();
    history.add_board(b2, 18, true);
    assert_eq!(history.total_moves, 3);
    assert_eq!((history.agent0_score, history.agent1_score), (3, 3));
    let data = history.get_formatted_data();
    assert_eq!(data.len(), 2);
    assert_eq!(data[0].board_string, "---------h-yq---------");
    assert_eq!(data[0].next_move_index, 19);
    assert_eq!(data[0].winner, 2);
    assert_eq!(data[0].game_id, 7);
    assert_eq!(data[1].board_string, string_from_board(b1, CODE_CHARS));
    assert_eq!(data[1].next_move_index, 18);
    history.set_scores(10, 3);
    assert_eq!(history.get_formatted_data()[0].winner, 0);
    history.set_scores(3, 10);
    assert_eq!(history.get_formatted_data()[1].winner, 1);
    history.set_id(99);
    assert_eq!(history.get_formatted_data()[1].game_id, 99);
    assert_eq!(history.id, 99);
}

#[test]
fn new_histories_are_empty() {
    let history = GameHistory::new();
    assert_eq!(history.total_moves, 0);
    assert!(history.board_history.is_empty());
    assert!(history.move_history.is_empty());
    assert_eq!((history.agent0_score, history.agent1_score), (0, 0));
}

#[test]
fn observation_holds_its_fields() {
    let o = ObservationMove::new("---------h-yq---------".to_string(), 5, 1, 26);
    assert_eq!(o.board_string, "---------h-yq---------");
    assert_eq!(o.game_id, 5);
    assert_eq!(o.winner, 1);
    assert_eq!(o.next_move_index, 26);
}

#[test]
fn store_appends_and_reads_the_last() {
    let mut store = GameHistoryStore::new();
    assert_eq!(store.total_games, 0);
    assert!(store.last_game().is_none());
    store.add_game(GameHistory::with_id(1));
    store.add_game(GameHistory::with_id(2));
    assert_eq!(store.total_games, 2);
    assert_eq!(store.history.len(), 2);
    assert_eq!(store.history[0].id, 1);
    assert_eq!(store.last_game().unwrap().id, 2);
}

#[test]
fn players_are_made_with_a_move() {
    let mut p = OthelloPlayer::new("Player A".to_string(), 0, OthelloPlayerType::Human);
    assert_eq!(p.id, "Player A");
    assert_eq!(p.turn_id, 0);
    assert_eq!(p.score, 0);
    assert!(p.has_move);
    assert!(matches!(p.player_type, OthelloPlayerType::Human));
    p.set_turn_id(1);
    assert_eq!(p.turn_id, 1);
    assert_eq!(p.id, "Player A");
}

#[test]
fn environment_starts_at_the_starting_board() {
    let env = OthelloEnvironment::new();
    assert_eq!(env.game.board, INITIAL_BOARD);
    assert_eq!(env.game.turn, 0);
    assert!(env.player_a_starts);
    assert!(env.player_a.has_move);
    assert!(env.player_b.has_move);
    assert!(!env.is_terminal());
    assert_eq!(env.get_state(), "---------h-yq---------");
    assert_eq!(env.get_actions(), vec![19, 26, 37, 44]);
    assert_eq!(env.get_number_of_possible_actions(), 4);
    assert_eq!(env.get_total_number_of_actions_taken(), 0);
    let history = env.get_game_history();
    assert_eq!(history.total_moves, 0);
}

#[test]
fn environment_step_plays_and_records() {
    let mut env = OthelloEnvironment::new();
    assert_eq!(env.step(19), Ok(0));
    assert_eq!(env.game.turn, 1);
    assert_eq!(env.game.last_piece, 19);
    assert_eq!(env.game.board[2][3], 0);
    assert_eq!(env.game.board[3][3], 0);
    assert_eq!(env.get_total_number_of_actions_taken(), 1);
    assert_eq!(env.current_game_history.move_history, vec![19]);
    assert_eq!(env.current_game_history.board_history, vec![env.get_state()]);
    assert_eq!(env.get_actions(), vec![18, 20, 34]);
    assert_eq!(env.step(18), Ok(0));
    assert_eq!(env.game.turn, 0);
    assert_eq!(env.current_game_history.move_history, vec![19, 18]);
}

#[test]
fn environment_step_refuses() {
    let mut env = OthelloEnvironment::new();
    let before = env.game.board;
    assert_eq!(env.step(64), Err(OthelloError::InvalidPosition));
    assert_eq!(env.step(199), Err(OthelloError::InvalidPosition));
    assert_eq!(env.step(256), Err(OthelloError::InvalidPosition));
    assert_eq!(env.step(usize::MAX), Err(OthelloError::InvalidPosition));
    assert_eq!(env.step(0), Err(OthelloError::IllegalMove));
    assert_eq!(env.step(27), Err(OthelloError::IllegalMove));
    assert_eq!(env.game.board, before);
    assert_eq!(env.game.turn, 0);
    assert_eq!(env.get_total_number_of_actions_taken(), 0);
}

fn ending_board() -> IBoard {
    // player 0 to play (0,2) and take the last piece of player 1
    let mut board: IBoard = [[2; 8]; 8];
    board[0] = [0, 1, 2, 2, 2, 2, 2, 2];
    board
}

#[test]
fn environment_reaches_the_end_and_rewards() {
    let mut env = OthelloEnvironment::new();
    env.game.board = ending_board();
    env.game.turn = 0;
    env.player_a.has_move = player_has_move(env.game.board, 0);
    env.player_b.has_move = player_has_move(env.game.board, 1);
    assert!(env.player_a.has_move);
    assert!(!env.player_b.has_move);
    assert_eq!(env.step(2), Ok(1));
    assert!(env.is_terminal());
    assert_eq!(env.game.board[0], [0, 0, 0, 2, 2, 2, 2, 2]);
    assert_eq!(env.current_game_history.agent0_score, 3);
    assert_eq!(env.current_game_history.agent1_score, 0);
    assert_eq!(env.step(2), Err(OthelloError::GameOver));
    assert_eq!(env.step(64), Err(OthelloError::GameOver));
    assert_eq!(env.get_total_number_of_actions_taken(), 1);
}

#[test]
fn environment_ends_with_a_loss_for_player_a() {
    let mut env = OthelloEnvironment::new();
    let mut board: IBoard = [[2; 8]; 8];
    board[0] = [1, 0, 2, 2, 2, 2, 2, 2];
    env.game.board = board;
    env.game.turn = 1;
    env.player_a.has_move = player_has_move(board, 0);
    env.player_b.has_move = player_has_move(board, 1);
    assert_eq!(env.step(2), Ok(-1));
    assert!(env.is_terminal());
    assert_eq!(env.current_game_history.agent0_score, 0);
    assert_eq!(env.current_game_history.agent1_score, 3);
}

#[test]
fn environment_ends_in_a_tie() {
    let mut env = OthelloEnvironment::new();
    let mut board: IBoard = [[2; 8]; 8];
    // 0 plays (0,2): row 0 becomes 0 0 0; three pieces of 1 stay out of reach
    board[0] = [0, 1, 2, 2, 2, 2, 2, 2];
    board[7] = [2, 2, 2, 2, 2, 1, 1, 1];
    env.game.board = board;
    env.game.turn = 0;
    env.player_a.has_move = player_has_move(board, 0);
    env.player_b.has_move = player_has_move(board, 1);
    assert_eq!(env.step(2), Ok(0));
    assert!(env.is_terminal());
    assert_eq!(env.current_game_history.agent0_score, 3);
    assert_eq!(env.current_game_history.agent1_score, 3);
}

#[test]
fn environment_passes_for_a_player_without_a_move() {
    let mut env = OthelloEnvironment::new();
    env.game.board = ending_board();
    // it is the turn of player 1, who cannot move
    env.game.turn = 1;
    env.player_a.has_move = player_has_move(env.game.board, 0);
    env.player_b.has_move = player_has_move(env.game.board, 1);
    // the pass is made before the action is looked at, and stays made
    assert_eq!(env.step(5), Err(OthelloError::IllegalMove));
    assert_eq!(env.game.turn, 0);
    assert_eq!(env.step(2), Ok(1));
}

#[test]
fn environment_reset_starts_anew() {
    let mut env = OthelloEnvironment::new();
    assert_eq!(env.step(19), Ok(0));
    env.reset_with(false);
    assert_eq!(env.game.board, INITIAL_BOARD);
    assert_eq!(env.game.turn, 1);
    assert!(!env.player_a_starts);
    assert!(!env.is_terminal());
    assert_eq!(env.get_actions(), vec![20, 29, 34, 43]);
    env.reset_with(true);
    assert_eq!(env.game.turn, 0);
    assert!(env.player_a_starts);
    env.reset();
    assert_eq!(env.game.board, INITIAL_BOARD);
    assert_eq!(env.game.turn, if env.player_a_starts { 0 } else { 1 });
    assert!(!env.is_terminal());
    // the record is left as it is
    assert_eq!(env.get_total_number_of_actions_taken(), 1);
}

#[test]
fn raw_record_is_replayed() {
    let record = RawRecord {
        eOthello_game_id: 1,
        winner: 0,
        game_moves: "d3c3".to_string(),
    };
    let history = raw_record_to_game_history(record).unwrap();
    assert_eq!(history.total_moves, 2);
    assert_eq!(history.move_history, vec![19, 18]);
    let b1 = board_by_playing_piece_at_index(INITIAL_BOARD, &at(2, 3), 0).unwrap();
    let b2 = board_by_playing_piece_at_index(b1, &at(2, 2), 1).unwrap();
    assert_eq!(
        history.board_history,
        vec![string_from_board(b1, CODE_CHARS), string_from_board(b2, CODE_CHARS)]
    );
    let data = history.get_formatted_data();
    assert_eq!(data.len(), 1);
    assert_eq!(data[0].next_move_index, 18);
}

#[test]
fn raw_record_with_nothing_or_an_odd_character() {
    let empty = RawRecord { eOthello_game_id: 2, winner: 0, game_moves: String::new() };
    assert_eq!(raw_record_to_game_history(empty).unwrap().total_moves, 0);
    let odd = RawRecord { eOthello_game_id: 2, winner: 0, game_moves: "d3c".to_string() };
    assert_eq!(raw_record_to_game_history(odd).unwrap().move_history, vec![19]);
}

#[test]
fn raw_record_is_refused() {
    let bad_label = RawRecord { eOthello_game_id: 3, winner: 0, game_moves: "d3z9".to_string() };
    assert!(matches!(raw_record_to_game_history(bad_label), Err(OthelloError::InvalidPosition)));
    let illegal = RawRecord { eOthello_game_id: 3, winner: 0, game_moves: "d3a1".to_string() };
    assert!(matches!(raw_record_to_game_history(illegal), Err(OthelloError::IllegalMove)));
    let first = RawRecord { eOthello_game_id: 3, winner: 0, game_moves: "a1d3".to_string() };
    assert!(matches!(raw_record_to_game_history(first), Err(OthelloError::IllegalMove)));
}

#[test]
fn moves_are_picked_from_the_list() {
    let moves = vec![at(2, 3), at(3, 2), at(4, 5)];
    assert_eq!(move_at(&moves, 0), Some(at(2, 3)));
    assert_eq!(move_at(&moves, 2), Some(at(4, 5)));
    assert_eq!(move_at(&moves, 3), None);
    assert_eq!(move_at(&Vec::new(), 0), None);
    assert_eq!(choose_move(&Vec::new()), None);
    let mut seen = [false; 3];
    for _ in 0..200 {
        let m = choose_move(&moves).unwrap();
        let i = moves.iter().position(|p| *p == m).unwrap();
        seen[i] = true;
    }
    assert_eq!(seen, [true, true, true]);
    assert_eq!(choose_move(&vec![at(1, 1)]), Some(at(1, 1)));
}

#[test]
fn actions_of_choices() {
    assert_eq!(action_of(None), NULL_MOVE_INDEX);
    assert_eq!(action_of(Some(at(0, 0))), 0);
    assert_eq!(action_of(Some(at(2, 3))), 19);
    assert_eq!(action_of(Some(at(7, 7))), 63);
}

#[test]
fn rule_agent_plays_a_recommended_move() {
    let mut agent = RuleAgent::new(0, INITIAL_BOARD);
    let suggested = agent.suggest_moves(INITIAL_BOARD);
    assert_eq!(suggested, vec![at(2, 3), at(3, 2), at(4, 5), at(5, 4)]);
    for _ in 0..20 {
        let m = agent.get_move(INITIAL_BOARD).unwrap();
        assert!(suggested.contains(&m));
        let a = agent.select_action();
        assert!([19, 26, 37, 44].contains(&a));
        let picked = agent.select_move(suggested.clone()).unwrap();
        assert!(suggested.contains(&picked));
        let chosen = agent.choose_from_actions(suggested.clone()).unwrap();
        assert!(suggested.contains(&chosen));
    }
    assert_eq!(agent.select_move(Vec::new()), None);
    assert_eq!(agent.choose_from_actions(Vec::new()), None);
}

#[test]
fn rule_agent_passes_without_a_move() {
    let mut board: IBoard = [[0; 8]; 8];
    board[0][0] = 2;
    let mut agent = RuleAgent::new(1, INITIAL_BOARD);
    assert_eq!(agent.get_move(board), None);
    assert_ne!(agent.select_action(), NULL_MOVE_INDEX);
    agent.update_board(board);
    assert_eq!(agent.select_action(), NULL_MOVE_INDEX);
}

#[test]
fn next_move_is_answered_from_the_board_text() {
    for _ in 0..20 {
        let answer = next_move_rule_based("---------h-yq---------", 0).unwrap();
        assert!([19, 26, 37, 44].contains(&answer));
        let answer = next_move_rule_based("---------h-yq---------", 1).unwrap();
        assert!([20, 29, 34, 43].contains(&answer));
    }
    // a board of pieces of player 0 only: nobody can move
    assert_eq!(next_move_rule_based("2222222222222222222222", 0), Ok(NULL_MOVE_INDEX));
    assert_eq!(next_move_rule_based("2222222222222222222222", 1), Ok(NULL_MOVE_INDEX));
    assert_eq!(
        next_move_rule_based("---------h-yq----?----", 0),
        Err(OthelloError::DecodeError)
    );
    // one move only: row 3 is . . . 1 0 1 . . and the least worst case is at (3,6)
    let mut board: IBoard = [[2; 8]; 8];
    board[3] = [2, 2, 2, 1, 0, 1, 2, 2];
    let text = string_from_board(board, CODE_CHARS);
    assert_eq!(next_move_rule_based(&text, 0), Ok(30));
}
