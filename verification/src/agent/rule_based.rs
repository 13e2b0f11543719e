use vstd::prelude::*;
use super::traits::{choose_move, Agent};
use crate::gameplay::constants::{CODE_CHARS, NULL_MOVE_INDEX};
use crate::gameplay::encoding::{
    board_from_string, code_map, create_code_char_hash, decodable, decoded,
};
use crate::gameplay::game::{cells, IBoard, IPlayer, OthelloError};
use crate::gameplay::position::{pos, IPosition};
use crate::gameplay::recommender::{
    lemma_recommended_iff_has_move, recommended, suggest_moves_rules_based,
};
use crate::gameplay::utils::has_move;

verus! {

/// An agent that plays by the one-reply search.
pub struct RuleAgent {
    player: IPlayer,
    last_board: IBoard,
}

/// The index of a chosen cell, and the index that stands for "no move" where
/// none was chosen.
pub fn action_of(chosen: Option<IPosition>) -> (action: usize)
    requires
        chosen is Some ==> chosen->0.is_cell(),
    ensures
        action == match chosen {
            Some(p) => p.index(),
            None => NULL_MOVE_INDEX as int,
        },
{
    match chosen {
        Some(p) => p.to_piece_index(),
        None => NULL_MOVE_INDEX,
    }
}

impl RuleAgent {
    /// The player for whom the agent plays.
    pub closed spec fn player(&self) -> IPlayer {
        self.player
    }

    /// The board that the agent was shown last.
    pub closed spec fn board(&self) -> IBoard {
        self.last_board
    }

    /// An agent for player 0 or 1 that has seen `board`.
    pub fn new(player: IPlayer, board: IBoard) -> (agent: RuleAgent)
        ensures
            agent.player() == player,
            agent.board() == board,
    {
        RuleAgent { player, last_board: board }
    }

    /// Shows the agent a board.
    pub fn update_board(&mut self, board: IBoard)
        ensures
            final(self).board() == board,
            final(self).player() == old(self).player(),
    {
        self.last_board = board;
    }

    /// One of the suggested moves, drawn at random; none where nothing was
    /// suggested.
    pub fn choose_from_actions(&mut self, suggested_moves: Vec<IPosition>) -> (chosen: Option<
        IPosition,
    >)
        ensures
            *final(self) == *old(self),
            chosen is None <==> suggested_moves@.len() == 0,
            chosen is Some ==> suggested_moves@.contains(chosen->0),
    {
        choose_move(&suggested_moves)
    }

    /// The index of the cell that the agent plays on the board it was shown
    /// last: one of the recommended moves, or the index that stands for "no
    /// move" where none is recommended.
    pub fn select_action(&mut self) -> (action: usize)
        requires
            old(self).is_ready(),
        ensures
            *final(self) == *old(self),
            action == NULL_MOVE_INDEX <==> !has_move(
                cells(old(self).board()),
                old(self).player(),
            ),
            action != NULL_MOVE_INDEX ==> action < 64 && recommended(
                cells(old(self).board()),
                old(self).player(),
            ).contains(pos(action as int / 8, action as int % 8)),
    {
        let suggested_moves = self.suggest_moves(self.last_board);
        proof {
            lemma_recommended_iff_has_move(cells(self.last_board), self.player);
        }
        let res = self.choose_from_actions(suggested_moves);
        proof {
            if let Some(p) = res {
                let list = recommended(cells(self.last_board), self.player);
                let i = choose|i: int| 0 <= i < list.len() && list[i] == p;
                assert(list[i].is_cell());
                assert(p == pos(p.index() / 8, p.index() % 8));
            }
        }
        action_of(res)
    }
}

impl Agent for RuleAgent {
    /// The agent plays for player 0 or for player 1.
    open spec fn is_ready(&self) -> bool {
        self.player() <= 1
    }

    /// The agent suggests the moves recommended to its player, and no
    /// other list.
    open spec fn may_suggest(&self, board: IBoard, moves: Seq<IPosition>) -> bool {
        moves == recommended(cells(board), self.player())
    }

    /// The moves recommended to the agent's player on `board`.
    fn suggest_moves(&self, board: IBoard) -> (moves: Vec<IPosition>)
        ensures
            moves@ == recommended(cells(board), self.player()),
    {
        suggest_moves_rules_based(board, self.player)
    }

    /// One of the recommended moves on `board`; none where the player cannot
    /// move.
    fn get_move(&self, board: IBoard) -> (chosen: Option<IPosition>)
        ensures
            chosen is None <==> recommended(cells(board), self.player()).len() == 0,
            chosen is Some ==> recommended(cells(board), self.player()).contains(chosen->0),
    {
        let suggested_moves = self.suggest_moves(board);
        let chosen = self.select_move(suggested_moves);
        assert(self.may_suggest(board, recommended(cells(board), self.player())));
        chosen
    }
}

/// Answers the question which cell `player` should play on the board that
/// the text `board_str` stands for: the index of one of the recommended
/// moves, drawn at random, or the index that stands for "no move" where none
/// is recommended. A text with a character outside the codec's alphabet is
/// refused.
pub fn next_move_rule_based(board_str: &str, player: IPlayer) -> (answer: Result<
    usize,
    OthelloError,
>)
    requires
        player <= 1,
    ensures
        answer is Ok <==> decodable(board_str@, code_map(CODE_CHARS@)),
        answer is Err ==> answer == Err::<usize, OthelloError>(OthelloError::DecodeError),
        answer is Ok ==> {
            let b = decoded(board_str@, code_map(CODE_CHARS@));
            &&& answer->Ok_0 == NULL_MOVE_INDEX <==> !has_move(b, player)
            &&& answer->Ok_0 != NULL_MOVE_INDEX ==> answer->Ok_0 < 64 && recommended(
                b,
                player,
            ).contains(pos(answer->Ok_0 as int / 8, answer->Ok_0 as int % 8))
        },
{
    let hash_map = create_code_char_hash(CODE_CHARS);
    let board = match board_from_string(board_str, &hash_map) {
        Ok(board) => board,
        Err(e) => {
            return Err(e);
        },
    };
    let mut agent = RuleAgent::new(player, board);
    Ok(agent.select_action())
}

} // verus!
