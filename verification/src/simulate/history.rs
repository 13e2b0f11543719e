use vstd::prelude::*;
use crate::chance::random_game_id;
use crate::gameplay::constants::CODE_CHARS;
use crate::gameplay::encoding::encoded;
use crate::gameplay::game::{cells, valid_cells, IBoard, IGame};
use crate::gameplay::utils::score;

verus! {

/// One position of a played game, with the move that followed it and the
/// game's winner.
#[derive(Debug, Clone)]
pub struct ObservationMove {
    pub board_string: String,
    pub game_id: u32,
    /// 0 if player 0 won, 1 if player 1 won, 2 for a draw.
    pub winner: u8,
    pub next_move_index: usize,
}

impl ObservationMove {
    /// An observation of the given parts.
    pub fn new(board_string: String, game_id: u32, winner: u8, next_move_index: usize) -> (o: Self)
        ensures
            o.board_string == board_string,
            o.game_id == game_id,
            o.winner == winner,
            o.next_move_index == next_move_index,
    {
        ObservationMove { board_string, game_id, winner, next_move_index }
    }
}

/// The record of one game: the boards after each move as texts, the moves,
/// and the two final scores.
pub struct GameHistory {
    pub board_history: Vec<String>,
    pub move_history: Vec<usize>,
    pub total_moves: u16,
    pub agent0_score: i16,
    pub agent1_score: i16,
    pub id: u32,
}

/// The texts that a list of strings holds.
pub open spec fn texts(v: Seq<String>) -> Seq<Seq<char>> {
    v.map_values(|s: String| s@)
}

/// The label of the winner: 0 or 1 for the player with the higher score, 2
/// where the scores are equal.
pub open spec fn winner_label(score0: int, score1: int) -> u8 {
    if score0 > score1 {
        0
    } else if score1 > score0 {
        1
    } else {
        2
    }
}

impl GameHistory {
    /// A record holds as many moves as boards, and counts them.
    pub open spec fn wf(&self) -> bool {
        self.board_history@.len() == self.total_moves && self.move_history@.len()
            == self.total_moves
    }

    /// An empty record under an identifier drawn at random.
    pub fn new() -> (h: Self)
        ensures
            h.wf(),
            h.total_moves == 0,
            h.agent0_score == 0,
            h.agent1_score == 0,
    {
        GameHistory::with_id(random_game_id())
    }

    /// An empty record under the identifier `id`.
    pub fn with_id(id: u32) -> (h: Self)
        ensures
            h.wf(),
            h.total_moves == 0,
            h.agent0_score == 0,
            h.agent1_score == 0,
            h.id == id,
    {
        GameHistory {
            board_history: Vec::new(),
            move_history: Vec::new(),
            total_moves: 0,
            agent0_score: 0,
            agent1_score: 0,
            id,
        }
    }

    /// Sets the two final scores.
    pub fn set_scores(&mut self, agent0_score: i16, agent1_score: i16)
        ensures
            final(self).agent0_score == agent0_score,
            final(self).agent1_score == agent1_score,
            final(self).board_history == old(self).board_history,
            final(self).move_history == old(self).move_history,
            final(self).total_moves == old(self).total_moves,
            final(self).id == old(self).id,
    {
        self.agent0_score = agent0_score;
        self.agent1_score = agent1_score;
    }

    /// Gives the record another identifier.
    pub fn set_id(&mut self, id: u32)
        ensures
            final(self).id == id,
            final(self).board_history == old(self).board_history,
            final(self).move_history == old(self).move_history,
            final(self).total_moves == old(self).total_moves,
            final(self).agent0_score == old(self).agent0_score,
            final(self).agent1_score == old(self).agent1_score,
    {
        self.id = id;
    }

    /// Records the board reached by the move `move_index`. With `set_scores`
    /// the two piece counts of that board become the final scores.
    pub fn add_board(&mut self, board: IBoard, move_index: usize, set_scores: bool)
        requires
            old(self).wf(),
            old(self).total_moves < u16::MAX,
            valid_cells(cells(board)),
        ensures
            final(self).wf(),
            texts(final(self).board_history@) == texts(old(self).board_history@).push(
                encoded(cells(board), CODE_CHARS@),
            ),
            final(self).move_history@ == old(self).move_history@.push(move_index),
            final(self).total_moves == old(self).total_moves + 1,
            final(self).id == old(self).id,
            final(self).agent0_score == if set_scores {
                score(cells(board), 0, 1, 1, 1)
            } else {
                old(self).agent0_score as int
            },
            final(self).agent1_score == if set_scores {
                score(cells(board), 1, 1, 1, 1)
            } else {
                old(self).agent1_score as int
            },
    {
        let game = IGame { board, last_piece: 0, turn: 0 };
        let text = game.get_board_string();
        self.board_history.push(text);
        self.move_history.push(move_index);
        self.total_moves = self.total_moves + 1;
        assert(texts(self.board_history@) =~= texts(old(self).board_history@).push(
            encoded(cells(board), CODE_CHARS@),
        ));
        if !set_scores {
            return ;
        }
        // compute scores for both players
        let agent0_score = game.score_for_player(0);
        let agent1_score = game.score_for_player(1);
        self.set_scores(agent0_score, agent1_score);
    }

    /// The observations of the game: one for each recorded board but the
    /// last, with the move recorded next and the winner by the final scores.
    pub fn get_formatted_data(&self) -> (data: Vec<ObservationMove>)
        requires
            self.wf(),
        ensures
            data@.len() == if self.total_moves == 0 {
                0
            } else {
                self.total_moves - 1
            },
            forall|i: int|
                0 <= i < data@.len() ==> {
                    &&& (#[trigger] data@[i]).board_string@ == self.board_history@[i]@
                    &&& data@[i].next_move_index == self.move_history@[i + 1]
                    &&& data@[i].winner == winner_label(
                        self.agent0_score as int,
                        self.agent1_score as int,
                    )
                    &&& data@[i].game_id == self.id
                },
    {
        let mut data: Vec<ObservationMove> = Vec::new();
        let mut i: usize = 0;
        while i + 1 < self.board_history.len()
            invariant
                self.wf(),
                i == data@.len(),
                i == 0 || i + 1 <= self.board_history@.len(),
                forall|j: int|
                    0 <= j < data@.len() ==> {
                        &&& (#[trigger] data@[j]).board_string@ == self.board_history@[j]@
                        &&& data@[j].next_move_index == self.move_history@[j + 1]
                        &&& data@[j].winner == winner_label(
                            self.agent0_score as int,
                            self.agent1_score as int,
                        )
                        &&& data@[j].game_id == self.id
                    },
            decreases self.board_history@.len() - i,
        {
            // next move index is the index of the move that will be made next
            let next_move_index = self.move_history[i + 1];
            let winner: u8 = if self.agent0_score > self.agent1_score {
                0
            } else if self.agent1_score > self.agent0_score {
                1
            } else {
                2
            };
            let observation = ObservationMove {
                board_string: self.board_history[i].clone(),
                winner,
                next_move_index,
                game_id: self.id,
            };
            data.push(observation);
            i = i + 1;
        }
        data
    }
}

/// The records of the games that were played, oldest first.
pub struct GameHistoryStore {
    pub history: Vec<GameHistory>,
    pub total_games: u32,
}

impl GameHistoryStore {
    /// A store without records.
    pub fn new() -> (store: Self)
        ensures
            store.history@.len() == 0,
            store.total_games == 0,
    {
        GameHistoryStore { history: Vec::new(), total_games: 0 }
    }

    /// Adds a record at the end.
    pub fn add_game(&mut self, game: GameHistory)
        requires
            old(self).total_games < u32::MAX,
        ensures
            final(self).history@ == old(self).history@.push(game),
            final(self).total_games == old(self).total_games + 1,
    {
        self.history.push(game);
        self.total_games = self.total_games + 1;
    }

    /// The record that was added last, if there is one.
    pub fn last_game(&self) -> (last: Option<&GameHistory>)
        ensures
            self.history@.len() == 0 ==> last is None,
            self.history@.len() > 0 ==> last == Some(&self.history@[self.history@.len() - 1]),
    {
        let n = self.history.len();
        if n == 0 {
            None
        } else {
            Some(&self.history[n - 1])
        }
    }
}

} // verus!
