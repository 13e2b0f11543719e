use vstd::prelude::*;
use super::game::IBoard;

verus! {

/// The ordered alphabet of the board codec: the character at index `i` stands
/// for the base-3 group of value `i`.
pub const CODE_CHARS: &'static str = "234567bcdfghjkmnpqrstvwxyz-";

/// The piece value of a cell that nobody holds.
pub const PLACEHOLDER: u8 = 2;

/// The board at the start of a game: two pieces of each player, crosswise
/// on the four cells in the middle.
pub const INITIAL_BOARD: IBoard = [
    [2, 2, 2, 2, 2, 2, 2, 2],
    [2, 2, 2, 2, 2, 2, 2, 2],
    [2, 2, 2, 2, 2, 2, 2, 2],
    [2, 2, 2, 1, 0, 2, 2, 2],
    [2, 2, 2, 0, 1, 2, 2, 2],
    [2, 2, 2, 2, 2, 2, 2, 2],
    [2, 2, 2, 2, 2, 2, 2, 2],
    [2, 2, 2, 2, 2, 2, 2, 2],
];

/// What a piece on a corner counts in the search.
pub const DEFAULT_CORNER_SCORE: i16 = 12;

/// What a piece elsewhere on the rim counts in the search.
pub const DEFAULT_EDGE_SCORE: i16 = 4;

/// What a piece inside the rim counts in the search.
pub const DEFAULT_OTHER_SCORE: i16 = 1;

/// The worst-case value of a move to which the opponent has no reply.
pub const DEFAULT_BEST_WORST_CASE_SCORE: i16 = 32727;

pub const DEFAULT_BOARD_WIDTH: usize = 8;

pub const DEFAULT_BOARD_HEIGHT: usize = 8;

/// Stands for "no move": never a valid cell index.
pub const NULL_MOVE_INDEX: usize = 199;

} // verus!
