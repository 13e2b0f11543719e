use vstd::prelude::*;
use crate::agent::rule_based::RuleAgent;
use crate::agent::traits::Agent;
use crate::gameplay::constants::{CODE_CHARS, INITIAL_BOARD, NULL_MOVE_INDEX};
use crate::gameplay::encoding::encoded;
use crate::gameplay::game::{cells, lemma_initial_board_is_valid, valid_cells, IBoard, IPlayer};
use crate::gameplay::laws::{empties, lemma_counts_add_up, lemma_move_fills_a_cell};
use crate::gameplay::position::pos;
use crate::gameplay::recommender::{lemma_recommended_iff_has_move, recommended};
use crate::gameplay::utils::{
    board_by_playing_piece_at_index, has_move, lemma_count_is_not_negative,
    lemma_played_is_valid, lemma_score_bounds, played, score,
};
use crate::simulate::history::{texts, GameHistory, GameHistoryStore};

verus! {

/// Two rule-based agents that play games against each other from one
/// starting board, and the records of the games played.
pub struct OthelloSimulator {
    pub agent0: RuleAgent,
    pub agent1: RuleAgent,
    pub board: IBoard,
    pub history_store: GameHistoryStore,
}

/// What one turn makes of a board: where the index stands for "no move", the
/// player to move has none and the board stays; otherwise the index is that
/// of a move recommended to the player, and the board is the one after it.
pub open spec fn is_turn(before: Seq<u8>, mover: u8, move_index: usize, after: Seq<u8>) -> bool {
    if move_index == NULL_MOVE_INDEX {
        !has_move(before, mover) && after == before
    } else {
        &&& move_index < 64
        &&& recommended(before, mover).contains(pos(move_index as int / 8, move_index as int % 8))
        &&& after == played(before, mover, move_index as int / 8, move_index as int % 8)
    }
}

/// The entry `i` of a record is in order: its text is that of its board,
/// which holds piece values; the first board is `start`, with the index for
/// "no move"; each later board comes from the one before by the turn of the
/// player to move, with the index of that turn. The players take turns,
/// player 0 first.
pub open spec fn is_entry(
    start: Seq<u8>,
    bs: Seq<Seq<u8>>,
    boards: Seq<Seq<char>>,
    moves: Seq<usize>,
    i: int,
) -> bool {
    &&& valid_cells(bs[i])
    &&& boards[i] == encoded(bs[i], CODE_CHARS@)
    &&& if i == 0 {
        bs[0] == start && moves[0] == NULL_MOVE_INDEX
    } else {
        is_turn(bs[i - 1], ((i - 1) % 2) as u8, moves[i], bs[i])
    }
}

/// The boards `bs` are those of a game from the board `start` whose record
/// holds the texts `boards` and the indices `moves`: every entry is in
/// order.
pub open spec fn is_record_of(
    start: Seq<u8>,
    bs: Seq<Seq<u8>>,
    boards: Seq<Seq<char>>,
    moves: Seq<usize>,
) -> bool {
    &&& bs.len() == boards.len()
    &&& bs.len() == moves.len()
    &&& forall|i: int| 0 <= i < bs.len() ==> #[trigger] is_entry(start, bs, boards, moves, i)
}

/// A record stays one when the board of the next turn is added to it.
pub proof fn lemma_record_grows(
    start: Seq<u8>,
    bs: Seq<Seq<u8>>,
    boards: Seq<Seq<char>>,
    moves: Seq<usize>,
    board: Seq<u8>,
    move_index: usize,
)
    requires
        is_record_of(start, bs, boards, moves),
        valid_cells(board),
        bs.len() == 0 ==> board == start && move_index == NULL_MOVE_INDEX,
        bs.len() > 0 ==> is_turn(bs.last(), ((bs.len() - 1) % 2) as u8, move_index, board),
    ensures
        is_record_of(
            start,
            bs.push(board),
            boards.push(encoded(board, CODE_CHARS@)),
            moves.push(move_index),
        ),
{
    let bs2 = bs.push(board);
    let boards2 = boards.push(encoded(board, CODE_CHARS@));
    let moves2 = moves.push(move_index);
    assert forall|i: int| 0 <= i < bs2.len() implies #[trigger] is_entry(
        start,
        bs2,
        boards2,
        moves2,
        i,
    ) by {
        if i < bs.len() {
            assert(is_entry(start, bs, boards, moves, i));
            assert(bs2[i] == bs[i]);
            if i > 0 {
                assert(bs2[i - 1] == bs[i - 1]);
            }
        } else if i > 0 {
            assert(bs2[i - 1] == bs.last());
        }
    }
}

/// The record of a game that was played from `start` to its end: it is the
/// record of a game that closes with two passes, and its scores are the
/// piece counts of the last board.
pub open spec fn is_finished_game(start: Seq<u8>, game: GameHistory) -> bool {
    &&& game.wf()
    &&& game.total_moves >= 3
    &&& game.move_history@[game.total_moves - 1] == NULL_MOVE_INDEX
    &&& game.move_history@[game.total_moves - 2] == NULL_MOVE_INDEX
    &&& exists|bs: Seq<Seq<u8>>|
        {
            &&& #[trigger] is_record_of(
                start,
                bs,
                texts(game.board_history@),
                game.move_history@,
            )
            &&& game.agent0_score == score(bs.last(), 0, 1, 1, 1)
            &&& game.agent1_score == score(bs.last(), 1, 1, 1, 1)
        }
}

/// On the last board of a finished game neither player has a move.
pub proof fn lemma_finished_game_is_over(start: Seq<u8>, game: GameHistory, bs: Seq<Seq<u8>>)
    requires
        is_finished_game(start, game),
        is_record_of(start, bs, texts(game.board_history@), game.move_history@),
    ensures
        !has_move(bs.last(), 0),
        !has_move(bs.last(), 1),
        score(bs.last(), 0, 1, 1, 1) + score(bs.last(), 1, 1, 1, 1) == 64 - empties(bs.last()),
{
    let n = bs.len() as int;
    let boards = texts(game.board_history@);
    let moves = game.move_history@;
    assert(is_entry(start, bs, boards, moves, n - 1));
    assert(is_entry(start, bs, boards, moves, n - 2));
    assert(bs[n - 1] == bs[n - 2] && bs[n - 2] == bs[n - 3]);
    assert(((n - 2) % 2) as u8 != ((n - 3) % 2) as u8);
    lemma_counts_add_up(bs.last(), 64);
}

impl OthelloSimulator {
    /// The agents play for the players 0 and 1, and the starting board holds
    /// piece values.
    pub open spec fn wf(&self) -> bool {
        &&& self.agent0.is_ready()
        &&& self.agent1.is_ready()
        &&& self.agent0.player() == 0
        &&& self.agent1.player() == 1
        &&& valid_cells(cells(self.board))
    }

    /// A simulator that starts its games at the starting position and has
    /// played none.
    pub fn new() -> (simulator: Self)
        ensures
            simulator.wf(),
            simulator.board == INITIAL_BOARD,
            simulator.history_store.history@.len() == 0,
            simulator.history_store.total_games == 0,
    {
        proof {
            lemma_initial_board_is_valid();
        }
        OthelloSimulator {
            agent0: RuleAgent::new(0, INITIAL_BOARD),
            agent1: RuleAgent::new(1, INITIAL_BOARD),
            board: INITIAL_BOARD,
            history_store: GameHistoryStore::new(),
        }
    }

    /// Plays one game from the starting board, player 0 first, and adds its
    /// record to the store. Each agent plays one of its recommended moves
    /// and passes where it has none; the game ends at the second pass in a
    /// row. The board is recorded before every turn, with the move that led
    /// to it and with the index that stands for "no move" where none did.
    pub fn play_game(&mut self)
        requires
            old(self).wf(),
            old(self).history_store.total_games < u32::MAX,
        ensures
            final(self).wf(),
            final(self).board == old(self).board,
            final(self).agent0 == old(self).agent0,
            final(self).agent1 == old(self).agent1,
            final(self).history_store.total_games == old(self).history_store.total_games + 1,
            final(self).history_store.history@.len() == old(self).history_store.history@.len()
                + 1,
            final(self).history_store.history@.drop_last() == old(self).history_store.history@,
            is_finished_game(cells(old(self).board), final(self).history_store.history@.last()),
    {
        let mut current_player: IPlayer = 0;
        let mut current_board: IBoard = self.board;
        let mut num_skips: u8 = 0;
        let mut last_move: usize = NULL_MOVE_INDEX;
        let mut game_history = GameHistory::new();
        let ghost start = cells(self.board);
        let ghost mut bs: Seq<Seq<u8>> = Seq::empty();
        proof {
            lemma_score_bounds(cells(current_board), 2, 1, 1, 1, 1, 64);
            assert(texts(game_history.board_history@) =~= Seq::<Seq<char>>::empty());
        }
        loop
            invariant_except_break
                game_history.total_moves + 3 * empties(cells(current_board)) + (2 - num_skips)
                    <= 194,
                game_history.total_moves >= num_skips,
                is_record_of(
                    start,
                    bs,
                    texts(game_history.board_history@),
                    game_history.move_history@,
                ),
                current_player == game_history.total_moves % 2,
                game_history.total_moves == 0 ==> cells(current_board) == start && last_move
                    == NULL_MOVE_INDEX,
                game_history.total_moves > 0 ==> is_turn(
                    bs.last(),
                    (1 - current_player) as u8,
                    last_move,
                    cells(current_board),
                ),
                num_skips >= 1 ==> last_move == NULL_MOVE_INDEX && game_history.total_moves > 0,
                num_skips == 2 ==> game_history.total_moves >= 2 && game_history.move_history@.last()
                    == NULL_MOVE_INDEX,
            invariant
                self.wf(),
                *self == *old(self),
                start == cells(self.board),
                current_player <= 1,
                num_skips <= 2,
                valid_cells(cells(current_board)),
                game_history.wf(),
                empties(cells(current_board)) <= 64,
            ensures
                is_finished_game(start, game_history),
            decreases 3 * empties(cells(current_board)) + (2 - num_skips),
        {
            proof {
                lemma_count_is_not_negative(cells(current_board), 2, 64);
            }
            let ghost recorded = bs;
            let ghost texts_before = texts(game_history.board_history@);
            let ghost moves_before = game_history.move_history@;
            // game is over if both players skip
            let over = num_skips == 2;
            game_history.add_board(current_board, last_move, over);
            proof {
                lemma_record_grows(
                    start,
                    recorded,
                    texts_before,
                    moves_before,
                    cells(current_board),
                    last_move,
                );
                bs = recorded.push(cells(current_board));
            }
            if over {
                assert(bs.last() == cells(current_board));
                break ;
            }
            proof {
                lemma_recommended_iff_has_move(cells(current_board), current_player);
            }
            let move_position = if current_player == 0 {
                self.agent0.get_move(current_board)
            } else {
                self.agent1.get_move(current_board)
            };
            match move_position {
                None => {
                    // no move: the turn is skipped
                    current_player = 1 - current_player;
                    num_skips = num_skips + 1;
                    last_move = NULL_MOVE_INDEX;
                },
                Some(position) => {
                    proof {
                        let list = recommended(cells(current_board), current_player);
                        let i = choose|i: int| 0 <= i < list.len() && list[i] == position;
                        assert(list[i] == position);
                        assert(position == pos(
                            position.index() / 8,
                            position.index() % 8,
                        ));
                        lemma_played_is_valid(
                            cells(current_board),
                            current_player,
                            position.downwards as int,
                            position.rightwards as int,
                        );
                        lemma_move_fills_a_cell(
                            cells(current_board),
                            current_player,
                            position.downwards as int,
                            position.rightwards as int,
                            64,
                        );
                    }
                    match board_by_playing_piece_at_index(
                        current_board,
                        &position,
                        current_player,
                    ) {
                        Ok(new_board) => {
                            last_move = position.to_piece_index();
                            current_board = new_board;
                            current_player = 1 - current_player;
                            num_skips = 0;
                            proof {
                                lemma_count_is_not_negative(cells(current_board), 2, 64);
                            }
                        },
                        Err(_) => {
                            // a recommended move is never refused
                            assert(false);
                        },
                    }
                },
            }
        }
        // add game history to store
        self.history_store.add_game(game_history);
        assert(self.history_store.history@.drop_last() =~= old(self).history_store.history@);
    }

    /// Plays `num_games` games, one after the other.
    pub fn play_games(&mut self, num_games: u32)
        requires
            old(self).wf(),
            old(self).history_store.total_games + num_games <= u32::MAX,
        ensures
            final(self).wf(),
            final(self).board == old(self).board,
            final(self).history_store.total_games == old(self).history_store.total_games
                + num_games,
            final(self).history_store.history@.len() == old(self).history_store.history@.len()
                + num_games,
            final(self).history_store.history@.take(
                old(self).history_store.history@.len() as int,
            ) == old(self).history_store.history@,
            forall|i: int|
                old(self).history_store.history@.len() <= i < final(self).history_store.history@.len() ==> is_finished_game(
                    cells(old(self).board),
                    #[trigger] final(self).history_store.history@[i],
                ),
    {
        let mut played_games: u32 = 0;
        let ghost before = old(self).history_store.history@;
        assert(self.history_store.history@.take(before.len() as int) =~= before);
        while played_games < num_games
            invariant
                played_games <= num_games,
                self.wf(),
                self.board == old(self).board,
                before == old(self).history_store.history@,
                old(self).history_store.total_games + num_games <= u32::MAX,
                self.history_store.total_games == old(self).history_store.total_games
                    + played_games,
                self.history_store.history@.len() == before.len() + played_games,
                self.history_store.history@.take(before.len() as int) == before,
                forall|i: int|
                    before.len() <= i < self.history_store.history@.len() ==> is_finished_game(
                        cells(old(self).board),
                        #[trigger] self.history_store.history@[i],
                    ),
            decreases num_games - played_games,
        {
            let ghost so_far = self.history_store.history@;
            self.play_game();
            proof {
                let now = self.history_store.history@;
                assert(now.drop_last() == so_far);
                assert(now.take(before.len() as int) =~= so_far.take(before.len() as int));
                assert forall|i: int| before.len() <= i < now.len() implies is_finished_game(
                    cells(old(self).board),
                    #[trigger] now[i],
                ) by {
                    if i < now.len() - 1 {
                        assert(now[i] == so_far[i]);
                    } else {
                        assert(now[i] == now.last());
                    }
                }
            }
            played_games = played_games + 1;
        }
    }
}

} // verus!
