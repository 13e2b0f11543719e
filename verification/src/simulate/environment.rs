use vstd::prelude::*;
use vstd::string::StringExecFns;
use crate::chance::random_bool;
use crate::gameplay::constants::INITIAL_BOARD;
use crate::gameplay::constants::CODE_CHARS;
use crate::gameplay::encoding::encoded;
use crate::gameplay::game::{
    cells, legal_moves, lemma_initial_board_is_valid, valid_cells, IGame, OthelloError,
};
use crate::gameplay::position::IPosition;
use crate::gameplay::utils::{has_move, is_legal, lemma_played_is_valid, played, score};
use crate::simulate::history::{texts, GameHistory, GameHistoryStore};

verus! {

/// Who decides the moves of a player.
pub enum OthelloPlayerType {
    Human,
    RL,
    Rules,
}

/// One of the two players of a game.
pub struct OthelloPlayer {
    pub id: String,
    pub turn_id: i8,
    pub score: i16,
    pub player_type: OthelloPlayerType,
    pub has_move: bool,
}

impl OthelloPlayer {
    /// A player without a score who is taken to have a move.
    pub fn new(id: String, turn_id: i8, player_type: OthelloPlayerType) -> (player: Self)
        ensures
            player.id == id,
            player.turn_id == turn_id,
            player.score == 0,
            player.player_type == player_type,
            player.has_move,
    {
        OthelloPlayer { id, turn_id, score: 0, player_type, has_move: true }
    }

    /// Says which pieces the player plays.
    pub fn set_turn_id(&mut self, turn_id: i8)
        ensures
            final(self).turn_id == turn_id,
            final(self).id == old(self).id,
            final(self).score == old(self).score,
            final(self).player_type == old(self).player_type,
            final(self).has_move == old(self).has_move,
    {
        self.turn_id = turn_id;
    }
}

/// Two players that differ at most in whether they have a move.
pub open spec fn same_player(a: OthelloPlayer, b: OthelloPlayer) -> bool {
    a.id == b.id && a.turn_id == b.turn_id && a.score == b.score && a.player_type == b.player_type
}

/// What a game is to its rules: the board, the player to move, and what has
/// been recorded of it.
pub struct GameModel {
    pub board: Seq<u8>,
    pub turn: u8,
    /// The texts of the boards after each move.
    pub boards: Seq<Seq<char>>,
    /// The indices of the cells played.
    pub moves: Seq<usize>,
    pub score0: int,
    pub score1: int,
}

/// What the end of a game is worth to player 0: 1 for more pieces than
/// player 1, -1 for fewer, 0 for as many.
pub open spec fn reward(score0: int, score1: int) -> i8 {
    if score0 > score1 {
        1
    } else if score0 < score1 {
        -1i8
    } else {
        0
    }
}

impl GameModel {
    /// The game has ended when neither player has a move.
    pub open spec fn is_over(self) -> bool {
        !has_move(self.board, 0) && !has_move(self.board, 1)
    }

    /// The player who moves next: the player to move, or the other one where
    /// the player to move has no move.
    pub open spec fn mover(self) -> u8 {
        if has_move(self.board, self.turn) {
            self.turn
        } else {
            (1 - self.turn) as u8
        }
    }

    /// The game after the pass, if one is due.
    pub open spec fn passed(self) -> GameModel {
        GameModel { turn: self.mover(), ..self }
    }

    /// The game after the mover has played on the cell `action`: the board
    /// is recorded with the move, the turn goes to the other player and, if
    /// the game has ended with it, the piece counts become the scores.
    pub open spec fn moved(self, action: usize) -> GameModel {
        let board = played(self.board, self.mover(), action as int / 8, action as int % 8);
        let over = !has_move(board, 0) && !has_move(board, 1);
        GameModel {
            board,
            turn: (1 - self.mover()) as u8,
            boards: self.boards.push(encoded(board, CODE_CHARS@)),
            moves: self.moves.push(action),
            score0: if over {
                score(board, 0, 1, 1, 1)
            } else {
                self.score0
            },
            score1: if over {
                score(board, 1, 1, 1, 1)
            } else {
                self.score1
            },
        }
    }

    /// One step of the game: the game afterwards, and the reward or the
    /// reason of the refusal. A pass that is due is made before the action is
    /// looked at, and stays made where the action is refused.
    pub open spec fn step(self, action: usize) -> (GameModel, Result<i8, OthelloError>) {
        if self.is_over() {
            (self, Err(OthelloError::GameOver))
        } else if action >= 64 {
            (self.passed(), Err(OthelloError::InvalidPosition))
        } else if !is_legal(self.board, self.mover(), action as int / 8, action as int % 8) {
            (self.passed(), Err(OthelloError::IllegalMove))
        } else {
            let next = self.moved(action);
            (
                next,
                Ok(
                    if next.is_over() {
                        reward(next.score0, next.score1)
                    } else {
                        0
                    },
                ),
            )
        }
    }
}

/// A game of two players that is played step by step and recorded.
pub struct OthelloEnvironment {
    pub player_a: OthelloPlayer,
    pub player_b: OthelloPlayer,
    pub player_a_starts: bool,
    pub game: IGame,
    pub history_store: GameHistoryStore,
    pub current_game_history: GameHistory,
}

impl OthelloEnvironment {
    /// The game as the rules see it.
    pub open spec fn model(&self) -> GameModel {
        GameModel {
            board: cells(self.game.board),
            turn: self.game.turn,
            boards: texts(self.current_game_history.board_history@),
            moves: self.current_game_history.move_history@,
            score0: self.current_game_history.agent0_score as int,
            score1: self.current_game_history.agent1_score as int,
        }
    }

    /// The board holds piece values, a player is to move, the record is
    /// well-formed, and each player's flag says whether that player has a
    /// move: player A plays the pieces 0, player B the pieces 1.
    pub open spec fn wf(&self) -> bool {
        &&& valid_cells(cells(self.game.board))
        &&& self.game.turn <= 1
        &&& self.current_game_history.wf()
        &&& self.player_a.has_move == has_move(cells(self.game.board), 0)
        &&& self.player_b.has_move == has_move(cells(self.game.board), 1)
    }

    /// A game at the starting position with player A to move and an empty
    /// record.
    pub fn new() -> (env: Self)
        ensures
            env.wf(),
            env.game.board == INITIAL_BOARD,
            env.game.turn == 0,
            env.game.last_piece == 0,
            env.player_a_starts,
            env.player_a.id@ == "Player A"@,
            env.player_b.id@ == "Player B"@,
            env.player_a.turn_id == 0,
            env.player_b.turn_id == 1,
            env.player_a.score == 0,
            env.player_b.score == 0,
            env.player_a.player_type == OthelloPlayerType::RL,
            env.player_b.player_type == OthelloPlayerType::Rules,
            env.current_game_history.total_moves == 0,
            env.current_game_history.agent0_score == 0,
            env.current_game_history.agent1_score == 0,
            env.history_store.history@.len() == 0,
    {
        let game = IGame::new();
        let mut player_a = OthelloPlayer::new(
            String::from_str("Player A"),
            0,
            OthelloPlayerType::RL,
        );
        let mut player_b = OthelloPlayer::new(
            String::from_str("Player B"),
            1,
            OthelloPlayerType::Rules,
        );
        player_a.has_move = game.player_has_move(0);
        player_b.has_move = game.player_has_move(1);
        proof {
            lemma_initial_board_is_valid();
        }
        OthelloEnvironment {
            player_a,
            player_b,
            player_a_starts: true,
            game,
            history_store: GameHistoryStore::new(),
            current_game_history: GameHistory::new(),
        }
    }

    /// Starts a new game at the starting position; chance decides whether
    /// player A or player B moves first. The record is left as it is.
    pub fn reset(&mut self)
        ensures
            final(self).game.board == INITIAL_BOARD,
            final(self).game.turn == if final(self).player_a_starts {
                0u8
            } else {
                1u8
            },
            final(self).game.last_piece == 0,
            final(self).current_game_history == old(self).current_game_history,
            final(self).history_store == old(self).history_store,
            same_player(final(self).player_a, old(self).player_a),
            same_player(final(self).player_b, old(self).player_b),
            final(self).player_a.has_move == has_move(cells(INITIAL_BOARD), 0),
            final(self).player_b.has_move == has_move(cells(INITIAL_BOARD), 1),
            old(self).current_game_history.wf() ==> final(self).wf(),
    {
        self.reset_with(random_bool());
    }

    /// Starts a new game at the starting position, in which player A moves
    /// first if `player_a_starts` and player B if not. The record is left as
    /// it is.
    pub fn reset_with(&mut self, player_a_starts: bool)
        ensures
            final(self).game.board == INITIAL_BOARD,
            final(self).game.turn == if player_a_starts {
                0u8
            } else {
                1u8
            },
            final(self).game.last_piece == 0,
            final(self).player_a_starts == player_a_starts,
            final(self).current_game_history == old(self).current_game_history,
            final(self).history_store == old(self).history_store,
            same_player(final(self).player_a, old(self).player_a),
            same_player(final(self).player_b, old(self).player_b),
            final(self).player_a.has_move == has_move(cells(INITIAL_BOARD), 0),
            final(self).player_b.has_move == has_move(cells(INITIAL_BOARD), 1),
            old(self).current_game_history.wf() ==> final(self).wf(),
    {
        self.game = IGame::new();
        if !player_a_starts {
            self.game.toggle_turn();
        }
        self.player_a_starts = player_a_starts;
        self.player_a.has_move = self.game.player_has_move(0);
        self.player_b.has_move = self.game.player_has_move(1);
        proof {
            lemma_initial_board_is_valid();
        }
    }

    /// The record of the game in progress.
    pub fn get_game_history(self) -> (history: GameHistory)
        ensures
            history == self.current_game_history,
    {
        self.current_game_history
    }

    /// Whether the game has ended.
    pub fn is_terminal(&self) -> (over: bool)
        ensures
            over == (!self.player_a.has_move && !self.player_b.has_move),
            self.wf() ==> over == self.model().is_over(),
    {
        self.player_a.has_move == false && self.player_b.has_move == false
    }

    /// The board as a text.
    pub fn get_state(&self) -> (text: String)
        requires
            self.wf(),
        ensures
            text@ == encoded(cells(self.game.board), CODE_CHARS@),
    {
        self.game.get_board_string()
    }

    /// Plays the cell `action` for the player who moves next and says what
    /// that is worth to player A: 0 while the game goes on, and at its end 1,
    /// -1 or 0 as player A has more, fewer or as many pieces as player B.
    pub fn step(&mut self, action: usize) -> (result: Result<i8, OthelloError>)
        requires
            old(self).wf(),
            old(self).current_game_history.total_moves < u16::MAX,
        ensures
            final(self).wf(),
            (final(self).model(), result) == old(self).model().step(action),
            final(self).game.last_piece == if result is Ok {
                action as u8
            } else {
                old(self).game.last_piece
            },
            final(self).history_store == old(self).history_store,
            final(self).current_game_history.id == old(self).current_game_history.id,
            final(self).player_a_starts == old(self).player_a_starts,
            same_player(final(self).player_a, old(self).player_a),
            same_player(final(self).player_b, old(self).player_b),
    {
        if !self.player_a.has_move && !self.player_b.has_move {
            return Err(OthelloError::GameOver);
        }
        // toggle turn if current player has no move
        if self.game.turn == 0 && !self.player_a.has_move {
            self.game.toggle_turn();
        } else if self.game.turn == 1 && !self.player_b.has_move {
            self.game.toggle_turn();
        }
        assert(self.game.turn == old(self).model().mover());
        if action >= 64 {
            return Err(OthelloError::InvalidPosition);
        }
        let position = IPosition { downwards: (action / 8) as i8, rightwards: (action % 8) as i8 };
        match self.game.make_move_at_position(&position) {
            Ok(()) => {},
            Err(e) => {
                return Err(e);
            },
        }
        proof {
            lemma_played_is_valid(
                cells(old(self).game.board),
                old(self).model().mover(),
                action as int / 8,
                action as int % 8,
            );
        }
        let move_index = position.to_piece_index();
        self.current_game_history.add_board(self.game.board, move_index, false);
        // see whether either player has a move
        self.player_a.has_move = self.game.player_has_move(0);
        self.player_b.has_move = self.game.player_has_move(1);
        // game is over if no player has move
        if !self.player_a.has_move && !self.player_b.has_move {
            let agenta_score = self.game.score_for_player(0);
            let agentb_score = self.game.score_for_player(1);
            self.current_game_history.set_scores(agenta_score, agentb_score);
            if agenta_score > agentb_score {
                Ok(1)
            } else if agenta_score < agentb_score {
                Ok(-1)
            } else {
                Ok(0)
            }
        } else {
            Ok(0)
        }
    }

    /// The number of moves recorded.
    pub fn get_total_number_of_actions_taken(&self) -> (n: usize)
        ensures
            n == self.current_game_history.total_moves,
    {
        self.current_game_history.total_moves as usize
    }

    /// The cells on which the player to move can play, as indices.
    pub fn get_actions(&self) -> (actions: Vec<usize>)
        requires
            self.game.turn <= 1,
        ensures
            actions@ == legal_moves(cells(self.game.board), self.game.turn).map_values(
                |p: IPosition| p.index() as usize,
            ),
    {
        let moves = self.game.get_valid_moves(self.game.turn);
        let mut actions: Vec<usize> = Vec::new();
        let mut i: usize = 0;
        while i < moves.len()
            invariant
                i <= moves@.len(),
                forall|j: int|
                    0 <= j < moves@.len() ==> is_legal(
                        cells(self.game.board),
                        self.game.turn,
                        (#[trigger] moves@[j]).downwards as int,
                        moves@[j].rightwards as int,
                    ),
                actions@ == moves@.take(i as int).map_values(|p: IPosition| p.index() as usize),
            decreases moves@.len() - i,
        {
            let index = moves[i].to_piece_index();
            actions.push(index);
            assert(moves@.take(i + 1).map_values(|p: IPosition| p.index() as usize)
                =~= moves@.take(i as int).map_values(|p: IPosition| p.index() as usize).push(
                index,
            ));
            i = i + 1;
        }
        assert(moves@.take(moves@.len() as int) =~= moves@);
        actions
    }

    /// The number of cells on which the player to move can play.
    pub fn get_number_of_possible_actions(&self) -> (n: usize)
        requires
            self.game.turn <= 1,
        ensures
            n == legal_moves(cells(self.game.board), self.game.turn).len(),
    {
        self.get_actions().len()
    }
}

} // verus!
