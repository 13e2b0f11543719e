use othello_agent::gameplay::constants::{
    DEFAULT_BEST_WORST_CASE_SCORE, DEFAULT_CORNER_SCORE, DEFAULT_EDGE_SCORE, DEFAULT_OTHER_SCORE,
    INITIAL_BOARD, NULL_MOVE_INDEX,
};
use othello_agent::gameplay::game::{piece_at, with_piece, IBoard, IGame, OthelloError};
use othello_agent::gameplay::position::IPosition;
use othello_agent::gameplay::recommender::suggest_moves_rules_based;
use othello_agent::gameplay::utils::{
    augmented_score_for_player, board_by_playing_piece_at_index, direction, flip_pieces,
    flippable_pieces, is_piece_placeholder, piece_index_from_position, player_has_move,
    position_from_piece_index, worst_score_by_playing_piece_at_index,
};

fn at(r: i8, c: i8) -> IPosition {
    IPosition { downwards: r, rightwards: c }
}

#[test]
fn utils_can_suggest_moves() {
    let moves = suggest_moves_rules_based(INITIAL_BOARD, 0);
    println!("Suggested {} moves off initial game state", moves.len());
    assert_eq!(moves.len(), 4);
}

#[test]
fn utils_can_detect_player_has_move() {
    let has_move = player_has_move(INITIAL_BOARD, 0);
    assert_eq!(has_move, true);
    let no_move_board = [
        [0, 0, 0, 0, 0, 0, 0, 0],
        [0, 2, 2, 2, 2, 2, 2, 0],
        [0, 2, 2, 2, 2, 2, 2, 0],
        [0, 2, 2, 2, 2, 2, 2, 0],
        [0, 2, 2, 2, 2, 2, 2, 0],
        [0, 2, 2, 2, 2, 2, 2, 0],
        [0, 2, 2, 2, 2, 2, 2, 0],
        [0, 0, 0, 0, 0, 0, 0, 0],
    ];
    let has_move = player_has_move(no_move_board, 0);
    assert_eq!(has_move, false);
}

#[test]
fn utils_can_convert_piece_index_to_position() {
    let position = IPosition::position_from_piece_index(0);
    assert_eq!(position.is_some(), true);
    assert_eq!(position.unwrap().downwards, 0);
    let position = IPosition::position_from_piece_index(63);
    assert_eq!(position.is_some(), true);
    assert_eq!(position.unwrap().rightwards, 7);
    let position = IPosition::position_from_piece_index(64);
    assert_eq!(position.is_none(), true);
    let position = IPosition::position_from_piece_index(-1);
    assert_eq!(position.is_none(), true);
}

#[test]
fn index_and_position_are_inverse() {
    for r in 0..8i8 {
        for c in 0..8i8 {
            let p = at(r, c);
            let i = p.to_piece_index();
            assert_eq!(i, (r as usize) * 8 + c as usize);
            assert_eq!(IPosition::position_from_piece_index(i as i8), Some(p));
            assert_eq!(position_from_piece_index(i as i8), Some(p));
            assert_eq!(piece_index_from_position(p), i as i8);
        }
    }
    assert_eq!(position_from_piece_index(64), None);
    assert_eq!(position_from_piece_index(-1), None);
    assert_eq!(position_from_piece_index(i8::MIN), None);
    assert_eq!(position_from_piece_index(i8::MAX), None);
}

#[test]
fn labels_name_cells() {
    assert_eq!(IPosition::position_from_string_position("a1"), Some(at(0, 0)));
    assert_eq!(IPosition::position_from_string_position("h8"), Some(at(7, 7)));
    assert_eq!(IPosition::position_from_string_position("c4"), Some(at(3, 2)));
    assert_eq!(IPosition::position_from_string_position("a1").unwrap().to_piece_index(), 0);
    assert_eq!(IPosition::position_from_string_position("h8").unwrap().to_piece_index(), 63);
    assert_eq!(IPosition::position_from_string_position("i1"), None);
    assert_eq!(IPosition::position_from_string_position("a9"), None);
    assert_eq!(IPosition::position_from_string_position("a0"), None);
    assert_eq!(IPosition::position_from_string_position("A1"), None);
    assert_eq!(IPosition::position_from_string_position("a"), None);
    assert_eq!(IPosition::position_from_string_position(""), None);
    assert_eq!(IPosition::position_from_string_position("š1"), None);
    assert_eq!(IPosition::position_from_string_position("b2xyz"), Some(at(1, 1)));
}

#[test]
fn position_add_and_duplicate() {
    let mut p = at(3, 4);
    p.add(at(-1, 1));
    assert_eq!(p, at(2, 5));
    let q = p.duplicate();
    assert_eq!(q, p);
    let mut edge = at(0, 0);
    edge.add(at(-1, -1));
    assert_eq!(edge, at(-1, -1));
}

#[test]
fn the_eight_directions() {
    let expected = [(1, 0), (1, 1), (0, 1), (-1, 1), (-1, 0), (-1, -1), (0, -1), (1, -1)];
    for k in 0..8 {
        let d = direction(k);
        assert_eq!((d.downwards, d.rightwards), expected[k]);
    }
}

#[test]
fn cells_are_read_and_written() {
    assert_eq!(piece_at(&INITIAL_BOARD, 3, 3), 1);
    assert_eq!(piece_at(&INITIAL_BOARD, 3, 4), 0);
    assert_eq!(piece_at(&INITIAL_BOARD, 0, 0), 2);
    let b = with_piece(INITIAL_BOARD, 2, 5, 1);
    assert_eq!(b[2][5], 1);
    let mut expected = INITIAL_BOARD;
    expected[2][5] = 1;
    assert_eq!(b, expected);
    assert!(is_piece_placeholder(2));
    assert!(!is_piece_placeholder(0));
    assert!(!is_piece_placeholder(1));
}

#[test]
fn flippable_on_the_starting_board() {
    assert_eq!(flippable_pieces(INITIAL_BOARD, &at(2, 3), 0), vec![at(3, 3)]);
    assert_eq!(flippable_pieces(INITIAL_BOARD, &at(3, 2), 0), vec![at(3, 3)]);
    assert_eq!(flippable_pieces(INITIAL_BOARD, &at(4, 5), 0), vec![at(4, 4)]);
    assert_eq!(flippable_pieces(INITIAL_BOARD, &at(5, 4), 0), vec![at(4, 4)]);
    assert_eq!(flippable_pieces(INITIAL_BOARD, &at(2, 4), 0), vec![]);
    assert_eq!(flippable_pieces(INITIAL_BOARD, &at(0, 0), 0), vec![]);
    assert_eq!(flippable_pieces(INITIAL_BOARD, &at(2, 4), 1), vec![at(3, 4)]);
}

#[test]
fn flippable_gathers_runs_in_direction_order() {
    let mut board: IBoard = [[2; 8]; 8];
    // a row: 0 1 1 . 1 0, and a column under the gap: 1, 1, 0
    board[0] = [0, 1, 1, 2, 1, 0, 2, 2];
    board[1][3] = 1;
    board[2][3] = 1;
    board[3][3] = 0;
    // an open run to the south-east, which does not count
    board[1][4] = 1;
    let flipped = flippable_pieces(board, &at(0, 3), 0);
    // downwards first, then rightwards, then leftwards, each from the nearest cell
    assert_eq!(flipped, vec![at(1, 3), at(2, 3), at(0, 4), at(0, 2), at(0, 1)]);
}

#[test]
fn flippable_discards_runs_that_reach_the_rim_or_a_gap() {
    let mut board: IBoard = [[2; 8]; 8];
    board[0] = [2, 1, 1, 1, 1, 1, 1, 1];
    assert_eq!(flippable_pieces(board, &at(0, 0), 0), vec![]);
    board[0] = [2, 1, 1, 2, 0, 2, 2, 2];
    assert_eq!(flippable_pieces(board, &at(0, 0), 0), vec![]);
    board[0] = [2, 0, 2, 2, 2, 2, 2, 2];
    assert_eq!(flippable_pieces(board, &at(0, 0), 0), vec![]);
}

#[test]
fn flippable_does_not_look_at_the_cell_itself() {
    let mut board: IBoard = [[2; 8]; 8];
    board[0] = [0, 1, 0, 2, 2, 2, 2, 2];
    // the cell is taken, and still its run is returned
    assert_eq!(flippable_pieces(board, &at(0, 0), 0), vec![at(0, 1)]);
    // as it is where the cell is empty or the opponent's
    let mut empty = board;
    empty[0][0] = 2;
    assert_eq!(flippable_pieces(empty, &at(0, 0), 0), vec![at(0, 1)]);
    let mut theirs = board;
    theirs[0][0] = 1;
    assert_eq!(flippable_pieces(theirs, &at(0, 0), 0), vec![at(0, 1)]);
    // but the move is refused, and the cell is no legal move
    assert_eq!(
        board_by_playing_piece_at_index(board, &at(0, 0), 0),
        Err(OthelloError::IllegalMove)
    );
    let game = IGame { board, last_piece: 0, turn: 0 };
    assert_eq!(game.get_valid_moves(0), vec![]);
    assert!(!player_has_move(board, 0));
}

#[test]
fn flippable_from_outside_the_board() {
    let mut board: IBoard = [[2; 8]; 8];
    board[0] = [1, 0, 2, 2, 2, 2, 2, 2];
    assert_eq!(flippable_pieces(board, &at(0, -1), 0), vec![at(0, 0)]);
    assert_eq!(flippable_pieces(board, &at(-127, -127), 0), vec![]);
    assert_eq!(flippable_pieces(board, &at(126, 126), 0), vec![]);
}

#[test]
fn flip_pieces_turns_the_captured_cells_only() {
    let out = flip_pieces(INITIAL_BOARD, &at(2, 3), 0);
    let mut expected = INITIAL_BOARD;
    expected[3][3] = 0;
    assert_eq!(out, expected);
    assert_eq!(flip_pieces(INITIAL_BOARD, &at(0, 0), 0), INITIAL_BOARD);
}

#[test]
fn playing_a_piece() {
    let out = board_by_playing_piece_at_index(INITIAL_BOARD, &at(2, 3), 0).unwrap();
    let mut expected = INITIAL_BOARD;
    expected[2][3] = 0;
    expected[3][3] = 0;
    assert_eq!(out, expected);
    // the board handed in is untouched
    assert_eq!(INITIAL_BOARD[3][3], 1);
}

#[test]
fn playing_is_refused() {
    assert_eq!(
        board_by_playing_piece_at_index(INITIAL_BOARD, &at(3, 3), 0),
        Err(OthelloError::IllegalMove)
    );
    assert_eq!(
        board_by_playing_piece_at_index(INITIAL_BOARD, &at(0, 0), 0),
        Err(OthelloError::IllegalMove)
    );
    assert_eq!(
        board_by_playing_piece_at_index(INITIAL_BOARD, &at(8, 0), 0),
        Err(OthelloError::InvalidPosition)
    );
    assert_eq!(
        board_by_playing_piece_at_index(INITIAL_BOARD, &at(0, -1), 1),
        Err(OthelloError::InvalidPosition)
    );
}

#[test]
fn legal_moves_on_the_starting_board() {
    let game = IGame::new();
    assert_eq!(game.board, INITIAL_BOARD);
    assert_eq!(game.turn, 0);
    assert_eq!(game.last_piece, 0);
    let moves = game.get_valid_moves(0);
    assert_eq!(moves.len(), 4);
    assert_eq!(moves, vec![at(2, 3), at(3, 2), at(4, 5), at(5, 4)]);
    assert_eq!(game.get_valid_moves(1), vec![at(2, 4), at(3, 5), at(4, 2), at(5, 3)]);
    assert!(game.player_has_move(0));
    assert!(game.player_has_move(1));
}

#[test]
fn ring_board_has_no_move() {
    let mut board: IBoard = [[2; 8]; 8];
    for i in 0..8 {
        board[0][i] = 0;
        board[7][i] = 0;
        board[i][0] = 0;
        board[i][7] = 0;
    }
    assert!(!player_has_move(board, 0));
    assert!(!player_has_move(board, 1));
    let game = IGame { board, last_piece: 0, turn: 0 };
    assert!(!game.player_has_move(0));
    assert_eq!(game.get_valid_moves(0), vec![]);
    assert_eq!(suggest_moves_rules_based(board, 0), vec![]);
}

#[test]
fn game_moves_and_turns() {
    let mut game = IGame::new();
    assert_eq!(game.make_move_at_position(&at(2, 3)), Ok(()));
    assert_eq!(game.turn, 1);
    assert_eq!(game.last_piece, 19);
    assert_eq!(game.board[3][3], 0);
    assert_eq!(game.board[2][3], 0);
    assert_eq!(game.score_for_player(0), 4);
    assert_eq!(game.score_for_player(1), 1);
    let before = game.board;
    assert_eq!(game.make_move_at_position(&at(0, 0)), Err(OthelloError::IllegalMove));
    assert_eq!(game.make_move_at_position(&at(2, 3)), Err(OthelloError::IllegalMove));
    assert_eq!(game.make_move_at_position(&at(-1, 3)), Err(OthelloError::InvalidPosition));
    assert_eq!(game.board, before);
    assert_eq!(game.turn, 1);
    game.toggle_turn();
    assert_eq!(game.turn, 0);
    game.toggle_turn();
    assert_eq!(game.turn, 1);
    assert_eq!(game.get_board_string().len(), 22);
    assert_eq!(IGame::new().get_board_string(), "---------h-yq---------");
}

#[test]
fn scores_weigh_corners_edges_and_the_rest() {
    let mut board: IBoard = [[2; 8]; 8];
    board[0][0] = 0;
    board[7][7] = 0;
    board[0][3] = 0;
    board[4][7] = 0;
    board[7][1] = 0;
    board[3][3] = 0;
    board[0][7] = 1;
    board[5][5] = 1;
    assert_eq!(augmented_score_for_player(board, 0, 12, 4, 1), 2 * 12 + 3 * 4 + 1);
    assert_eq!(augmented_score_for_player(board, 1, 12, 4, 1), 12 + 1);
    assert_eq!(augmented_score_for_player(board, 0, 1, 1, 1), 6);
    assert_eq!(augmented_score_for_player(board, 0, 100, -10, 7), 200 - 30 + 7);
    assert_eq!(augmented_score_for_player(board, 2, 1, 1, 1), 56);
    assert_eq!(
        augmented_score_for_player(
            INITIAL_BOARD,
            0,
            DEFAULT_CORNER_SCORE,
            DEFAULT_EDGE_SCORE,
            DEFAULT_OTHER_SCORE
        ),
        2
    );
    let full: IBoard = [[1; 8]; 8];
    assert_eq!(augmented_score_for_player(full, 1, 12, 4, 1), 4 * 12 + 24 * 4 + 36);
    assert_eq!(augmented_score_for_player(full, 1, 511, 511, 511), 32704);
    assert_eq!(augmented_score_for_player(full, 1, -512, -512, -512), -32768);
}

#[test]
fn piece_counts_of_a_full_board_add_up() {
    let mut board: IBoard = [[0; 8]; 8];
    for r in 0..8 {
        for c in 0..8 {
            board[r][c] = ((r + 2 * c) % 2) as u8;
        }
    }
    board[1][1] = 1;
    let a = augmented_score_for_player(board, 0, 1, 1, 1);
    let b = augmented_score_for_player(board, 1, 1, 1, 1);
    assert_eq!(a + b, 64);
    assert!(!player_has_move(board, 0));
    assert!(!player_has_move(board, 1));
}

#[test]
fn a_game_can_end_with_empty_cells() {
    let mut board: IBoard = [[0; 8]; 8];
    board[0][0] = 2;
    assert!(!player_has_move(board, 0));
    assert!(!player_has_move(board, 1));
    let a = augmented_score_for_player(board, 0, 1, 1, 1);
    let b = augmented_score_for_player(board, 1, 1, 1, 1);
    assert_eq!(a + b, 63);
}

#[test]
fn worst_case_on_the_starting_board() {
    // After 0 plays (2,3): 0 holds four inner cells, 1 holds one. Each reply
    // of 1 captures one piece: 1 then holds three inner cells.
    // 4 - 3 + (4 - 1) = 4 for every reply.
    let w = worst_score_by_playing_piece_at_index(INITIAL_BOARD, at(2, 3), 0, 12, 4, 1);
    assert_eq!(w, Some(4));
    assert_eq!(worst_score_by_playing_piece_at_index(INITIAL_BOARD, at(0, 0), 0, 12, 4, 1), None);
    assert_eq!(worst_score_by_playing_piece_at_index(INITIAL_BOARD, at(3, 3), 0, 12, 4, 1), None);
    assert_eq!(worst_score_by_playing_piece_at_index(INITIAL_BOARD, at(9, 9), 0, 12, 4, 1), None);
}

#[test]
fn worst_case_counts_the_replies_on_the_board_after_the_move() {
    let mut board: IBoard = [[2; 8]; 8];
    board[3] = [2, 2, 2, 1, 0, 2, 2, 2];
    // player 0 plays (3,2): row 3 becomes . . 0 0 0 and player 1 has no piece left,
    // so there is no reply
    let w = worst_score_by_playing_piece_at_index(board, at(3, 2), 0, 12, 4, 1);
    assert_eq!(w, Some(DEFAULT_BEST_WORST_CASE_SCORE));
    // with a piece of player 1 at (3,5) the row becomes . . 0 0 0 1 . . :
    // mine = 3, theirs = 1; the reply at (3,1) gives player 1 five inner cells.
    // On the board before the move that reply would capture nothing.
    // 3 - 5 + (3 - 1) = 0
    board[3] = [2, 2, 2, 1, 0, 1, 2, 2];
    let w = worst_score_by_playing_piece_at_index(board, at(3, 2), 0, 12, 4, 1);
    assert_eq!(w, Some(0));
    // other weights: mine = 3 * 5, theirs = 5, after the reply 5 * 5
    let w = worst_score_by_playing_piece_at_index(board, at(3, 2), 0, 100, 10, 5);
    assert_eq!(w, Some(15 - 25 + 10));
}

#[test]
fn recommends_the_least_worst_case() {
    let mut board: IBoard = [[2; 8]; 8];
    board[3] = [2, 2, 2, 1, 0, 1, 2, 2];
    // legal for 0: (3,2) with worst case 0, and (3,6)
    // (3,6): . . . 1 0 0 0 . ; mine 3, theirs 1; reply at (3,7) is on the rim:
    // 1 then holds four inner cells and an edge cell: 4 + 4 = 8; 3 - 8 + 2 = -3
    assert_eq!(worst_score_by_playing_piece_at_index(board, at(3, 6), 0, 12, 4, 1), Some(-3));
    assert_eq!(suggest_moves_rules_based(board, 0), vec![at(3, 6)]);
    let game = IGame { board, last_piece: 0, turn: 0 };
    assert_eq!(game.get_valid_moves(0), vec![at(3, 2), at(3, 6)]);
}

#[test]
fn recommended_moves_on_the_starting_board_are_the_legal_ones() {
    let moves = suggest_moves_rules_based(INITIAL_BOARD, 0);
    assert_eq!(moves, vec![at(2, 3), at(3, 2), at(4, 5), at(5, 4)]);
    assert_eq!(moves, suggest_moves_rules_based(INITIAL_BOARD, 0));
}

#[test]
fn recommend_then_play_then_legal_moves() {
    let moves = suggest_moves_rules_based(INITIAL_BOARD, 0);
    for m in moves.iter() {
        let board = board_by_playing_piece_at_index(INITIAL_BOARD, m, 0).unwrap();
        let game = IGame { board, last_piece: m.to_piece_index() as u8, turn: 1 };
        let replies = game.get_valid_moves(1);
        assert!(!replies.is_empty());
        for r in replies.iter() {
            assert_eq!(board[r.downwards as usize][r.rightwards as usize], 2);
            assert!(!flippable_pieces(board, r, 1).is_empty());
        }
    }
}

#[test]
fn the_null_move_is_no_cell() {
    assert_eq!(NULL_MOVE_INDEX, 199);
    assert!(NULL_MOVE_INDEX >= 64);
}

#[test]
fn can_suggest_moves() {
    let moves = suggest_moves_rules_based(INITIAL_BOARD, 0);
    println!("Suggested {} moves off initial game state", moves.len());
    assert_eq!(moves.len(), 4);
}

#[test]
fn can_detect_player_has_move() {
    let has_move = player_has_move(INITIAL_BOARD, 0);
    assert_eq!(has_move, true);
    let no_move_board = [
        [0, 0, 0, 0, 0, 0, 0, 0],
        [0, 2, 2, 2, 2, 2, 2, 0],
        [0, 2, 2, 2, 2, 2, 2, 0],
        [0, 2, 2, 2, 2, 2, 2, 0],
        [0, 2, 2, 2, 2, 2, 2, 0],
        [0, 2, 2, 2, 2, 2, 2, 0],
        [0, 2, 2, 2, 2, 2, 2, 0],
        [0, 0, 0, 0, 0, 0, 0, 0],
    ];
    let has_move = player_has_move(no_move_board, 0);
    assert_eq!(has_move, false);
}

#[test]
fn can_convert_piece_index_to_position() {
    let position = position_from_piece_index(0);
    assert_eq!(position.is_some(), true);
    assert_eq!(position.unwrap().downwards, 0);
    let position = position_from_piece_index(63);
    assert_eq!(position.is_some(), true);
    assert_eq!(position.unwrap().rightwards, 7);
    let position = position_from_piece_index(64);
    assert_eq!(position.is_none(), true);
    let position = position_from_piece_index(-1);
    assert_eq!(position.is_none(), true);
}
