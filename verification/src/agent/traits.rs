use vstd::prelude::*;
use crate::chance::random_index;
use crate::gameplay::game::IBoard;
use crate::gameplay::position::IPosition;

verus! {

/// The move at the place `index` of a list of moves, if the list has such a
/// place.
pub fn move_at(suggested_moves: &Vec<IPosition>, index: usize) -> (chosen: Option<IPosition>)
    ensures
        chosen == if index < suggested_moves@.len() {
            Some(suggested_moves@[index as int])
        } else {
            None
        },
{
    if index < suggested_moves.len() {
        Some(suggested_moves[index].duplicate())
    } else {
        None
    }
}

/// One of the moves of a list, drawn at random; none where the list is
/// empty.
pub fn choose_move(suggested_moves: &Vec<IPosition>) -> (chosen: Option<IPosition>)
    ensures
        chosen is None <==> suggested_moves@.len() == 0,
        chosen is Some ==> suggested_moves@.contains(chosen->0),
{
    if suggested_moves.len() == 0 {
        return None;
    }
    let random_index = random_index(suggested_moves.len());
    move_at(suggested_moves, random_index)
}

/// A player that suggests moves for a board and settles on one of them.
pub trait Agent {
    /// Whether the agent is in a state to be asked.
    spec fn is_ready(&self) -> bool;

    /// Whether `moves` is a list that the agent may suggest on `board`.
    spec fn may_suggest(&self, board: IBoard, moves: Seq<IPosition>) -> bool;

    /// The moves that the agent would play on `board`.
    fn suggest_moves(&self, board: IBoard) -> (moves: Vec<IPosition>)
        requires
            self.is_ready(),
        ensures
            self.may_suggest(board, moves@),
    ;

    /// One of the suggested moves; none where nothing was suggested.
    fn select_move(&self, suggested_moves: Vec<IPosition>) -> (chosen: Option<IPosition>)
        ensures
            chosen is None <==> suggested_moves@.len() == 0,
            chosen is Some ==> suggested_moves@.contains(chosen->0),
    {
        choose_move(&suggested_moves)
    }

    /// The move that the agent plays on `board`, if it has one: one of the
    /// moves of a list that the agent may suggest on `board`, and none where
    /// that list is empty.
    fn get_move(&self, board: IBoard) -> (chosen: Option<IPosition>)
        requires
            self.is_ready(),
        ensures
            exists|moves: Seq<IPosition>|
                #[trigger] self.may_suggest(board, moves) && (chosen is None <==> moves.len() == 0)
                    && (chosen is Some ==> moves.contains(chosen->0)),
    {
        let suggested_moves = self.suggest_moves(board);
        let ghost list = suggested_moves@;
        let chosen = self.select_move(suggested_moves);
        assert(self.may_suggest(board, list));
        chosen
    }
}

} // verus!
