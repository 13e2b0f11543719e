use vstd::prelude::*;
use super::constants::{CODE_CHARS, INITIAL_BOARD};
use super::encoding::{encoded, group_code, lemma_code_chars_is_alphabet, padded, string_from_board};
use super::position::{pos, IPosition};
use super::utils::{
    augmented_score_for_player, board_by_playing_piece_at_index, flippable_pieces, has_move,
    is_legal, is_piece_placeholder, lemma_count_is_not_negative, lemma_score_bounds, played, score,
};

verus! {

/// 0 and 1 are the two players' pieces, 2 is an empty cell.
pub type IPiece = u8;

/// A player, 0 or 1. The other player is 1 less the player.
pub type IPlayer = u8;

/// The board: eight rows of eight cells.
pub type IBoard = [[IPiece; 8]; 8];

/// Why an operation was refused.
#[derive(Clone, Copy, Debug, PartialEq, Eq)]
pub enum OthelloError {
    /// A label or an index names no cell of the board.
    InvalidPosition,
    /// The cell is taken, or the move captures nothing.
    IllegalMove,
    /// The game has ended.
    GameOver,
    /// A text holds a character that is not in the codec's alphabet.
    DecodeError,
}

/// The mathematical model of a board: its 64 cells in row-major order.
pub open spec fn cells(board: IBoard) -> Seq<u8> {
    Seq::new(64, |k: int| board[k / 8][k % 8])
}

/// Whether row `r` and column `c` name a cell of the board.
pub open spec fn on_board(r: int, c: int) -> bool {
    0 <= r < 8 && 0 <= c < 8
}

/// The piece at row `r`, column `c` of a board model.
pub open spec fn at(b: Seq<u8>, r: int, c: int) -> u8 {
    b[r * 8 + c]
}

/// A board model has 64 cells and each holds one of the three piece values.
pub open spec fn valid_cells(b: Seq<u8>) -> bool {
    b.len() == 64 && forall|k: int| 0 <= k < 64 ==> #[trigger] b[k] <= 2
}

/// Two boards with the same cells are the same board.
pub proof fn lemma_cells_determine_board(a: IBoard, b: IBoard)
    requires
        cells(a) == cells(b),
    ensures
        a == b,
{
    assert forall|r: int| 0 <= r < 8 implies a[r] == b[r] by {
        assert forall|c: int| 0 <= c < 8 implies a[r][c] == b[r][c] by {
            let k = r * 8 + c;
            assert(k / 8 == r && k % 8 == c);
            assert(cells(a)[k] == a[r][c]);
            assert(cells(b)[k] == b[r][c]);
        }
        assert(a[r] =~= b[r]);
    }
    assert(a =~= b);
}

/// The starting board holds piece values only.
pub proof fn lemma_initial_board_is_valid()
    ensures
        valid_cells(cells(INITIAL_BOARD)),
{
    assert forall|k: int| 0 <= k < 64 implies #[trigger] cells(INITIAL_BOARD)[k] <= 2 by {
        let r = k / 8;
        let c = k % 8;
        assert(INITIAL_BOARD[r][c] <= 2);
    }
}

/// Reads one cell of a board.
pub fn piece_at(board: &IBoard, row: usize, col: usize) -> (piece: IPiece)
    requires
        row < 8,
        col < 8,
    ensures
        piece == at(cells(*board), row as int, col as int),
{
    assert((row * 8 + col) / 8 == row && (row * 8 + col) % 8 == col);
    board[row][col]
}

/// The board with one cell replaced.
pub fn with_piece(board: IBoard, row: usize, col: usize, piece: IPiece) -> (out: IBoard)
    requires
        row < 8,
        col < 8,
    ensures
        cells(out) == cells(board).update(row * 8 + col, piece),
{
    let mut out = board;
    out[row][col] = piece;
    assert(cells(out) =~= cells(board).update(row * 8 + col, piece)) by {
        assert forall|k: int| 0 <= k < 64 implies cells(out)[k] == cells(board).update(
            row * 8 + col,
            piece,
        )[k] by {
            if k / 8 == row && k % 8 == col {
                assert(k == row * 8 + col);
            }
        }
    }
    out
}

/// The 64 cells of the board in row-major order.
pub open spec fn all_cells() -> Seq<IPosition> {
    Seq::new(64, |k: int| pos(k / 8, k % 8))
}

/// The test that picks the legal moves of `player` out of the cells.
pub open spec fn legal_at(b: Seq<u8>, player: u8) -> spec_fn(IPosition) -> bool {
    |p: IPosition| is_legal(b, player, p.downwards as int, p.rightwards as int)
}

/// The legal moves of `player`, in row-major order: the empty cells on which
/// the player captures something.
pub open spec fn legal_moves(b: Seq<u8>, player: u8) -> Seq<IPosition> {
    all_cells().filter(legal_at(b, player))
}

/// The player has a move exactly if the list of legal moves is not empty.
pub proof fn lemma_has_move_iff_legal_moves(b: Seq<u8>, player: u8)
    ensures
        has_move(b, player) <==> legal_moves(b, player).len() > 0,
{
    let moves = legal_moves(b, player);
    if has_move(b, player) {
        let k = choose|k: int| 0 <= k < 64 && #[trigger] is_legal(b, player, k / 8, k % 8);
        let p = pos(k / 8, k % 8);
        assert(all_cells()[k] == p);
        all_cells().lemma_filter_contains(legal_at(b, player), k);
        assert(moves.contains(p));
    }
    if moves.len() > 0 {
        let p = moves[0];
        all_cells().lemma_filter_pred(legal_at(b, player), 0);
        assert(moves.contains(p));
        all_cells().lemma_filter_contains_rev(legal_at(b, player), p);
        let k = choose|k: int| 0 <= k < 64 && all_cells()[k] == p;
        assert(is_legal(b, player, k / 8, k % 8));
    }
}

/// A board position with the player to move.
pub struct IGame {
    pub board: IBoard,
    /// The index of the cell that was played last.
    pub last_piece: IPiece,
    pub turn: IPlayer,
}

/// A board position as three texts.
pub struct IGameAttrs {
    pub board_str: String,
    pub last_piece_str: String,
    pub turn_str: String,
}

impl IGame {
    /// The starting position, with player 0 to move.
    pub fn new() -> (game: IGame)
        ensures
            game.board == INITIAL_BOARD,
            game.last_piece == 0,
            game.turn == 0,
    {
        IGame { board: INITIAL_BOARD, last_piece: 0, turn: 0 }
    }

    /// The legal moves of `player` in row-major order: each is an empty cell
    /// on which the player captures something.
    pub fn get_valid_moves(&self, player: IPlayer) -> (valid_moves: Vec<IPosition>)
        requires
            player <= 1,
        ensures
            valid_moves@ == legal_moves(cells(self.board), player),
            forall|i: int|
                0 <= i < valid_moves@.len() ==> is_legal(
                    cells(self.board),
                    player,
                    (#[trigger] valid_moves@[i]).downwards as int,
                    valid_moves@[i].rightwards as int,
                ),
    {
        let mut valid_moves: Vec<IPosition> = Vec::new();
        let ghost pred = legal_at(cells(self.board), player);
        let mut k: usize = 0;
        proof {
            reveal(Seq::filter);
            assert(all_cells().take(0).filter(pred) =~= Seq::<IPosition>::empty());
        }
        while k < 64
            invariant
                k <= 64,
                player <= 1,
                pred == legal_at(cells(self.board), player),
                valid_moves@ == all_cells().take(k as int).filter(pred),
                forall|i: int|
                    0 <= i < valid_moves@.len() ==> is_legal(
                        cells(self.board),
                        player,
                        (#[trigger] valid_moves@[i]).downwards as int,
                        valid_moves@[i].rightwards as int,
                    ),
            decreases 64 - k,
        {
            let row_index: usize = k / 8;
            let col_index: usize = k % 8;
            let position = IPosition { downwards: row_index as i8, rightwards: col_index as i8 };
            proof {
                reveal(Seq::filter);
                let next = all_cells().take(k + 1);
                assert(next.drop_last() =~= all_cells().take(k as int));
                assert(next.last() == position);
            }
            // if already a piece at position, skip
            let is_placeholder = is_piece_placeholder(piece_at(&self.board, row_index, col_index));
            if is_placeholder {
                let flippable_positions = flippable_pieces(self.board, &position, player);
                if flippable_positions.len() > 0 {
                    valid_moves.push(position);
                }
            }
            k = k + 1;
        }
        assert(all_cells().take(64) =~= all_cells());
        valid_moves
    }

    /// Plays the piece of the player to move at `position` and hands the
    /// turn to the other player. Where the move is refused the game stays as
    /// it is.
    pub fn make_move_at_position(&mut self, position: &IPosition) -> (done: Result<
        (),
        OthelloError,
    >)
        requires
            old(self).turn <= 1,
        ensures
            done == Err::<(), OthelloError>(OthelloError::InvalidPosition)
                <==> !position.is_cell(),
            done == Err::<(), OthelloError>(OthelloError::IllegalMove) <==> position.is_cell()
                && !is_legal(
                cells(old(self).board),
                old(self).turn,
                position.downwards as int,
                position.rightwards as int,
            ),
            done is Ok <==> is_legal(
                cells(old(self).board),
                old(self).turn,
                position.downwards as int,
                position.rightwards as int,
            ),
            done is Err ==> *final(self) == *old(self),
            done is Ok ==> cells(final(self).board) == played(
                cells(old(self).board),
                old(self).turn,
                position.downwards as int,
                position.rightwards as int,
            ) && final(self).last_piece == position.index() && final(self).turn == 1 - old(self).turn,
    {
        match board_by_playing_piece_at_index(self.board, position, self.turn) {
            Ok(board) => {
                self.board = board;
                self.last_piece = position.to_piece_index() as u8;
                self.turn = 1 - self.turn;
                Ok(())
            },
            Err(e) => Err(e),
        }
    }

    /// Whether `player` has a legal move.
    pub fn player_has_move(&self, player: IPlayer) -> (found: bool)
        requires
            player <= 1,
        ensures
            found == has_move(cells(self.board), player),
    {
        let valid_moves = self.get_valid_moves(player);
        proof {
            lemma_has_move_iff_legal_moves(cells(self.board), player);
        }
        valid_moves.len() > 0
    }

    /// The board as a text over the codec's alphabet.
    pub fn get_board_string(&self) -> (text: String)
        requires
            valid_cells(cells(self.board)),
        ensures
            text@ == encoded(cells(self.board), CODE_CHARS@),
    {
        proof {
            lemma_code_chars_is_alphabet();
            let b = cells(self.board);
            assert forall|g: int| 0 <= g < 22 implies #[trigger] group_code(b, g) < 27 by {
                assert(forall|k: int| 0 <= k < 66 ==> #[trigger] padded(b)[k] <= 2);
                assert(padded(b)[3 * g] <= 2 && padded(b)[3 * g + 1] <= 2 && padded(b)[3 * g + 2]
                    <= 2);
            }
        }
        string_from_board(self.board, CODE_CHARS)
    }

    /// Hands the turn to the other player.
    pub fn toggle_turn(&mut self)
        requires
            old(self).turn <= 1,
        ensures
            final(self).turn == 1 - old(self).turn,
            final(self).board == old(self).board,
            final(self).last_piece == old(self).last_piece,
    {
        self.turn = 1 - self.turn;
    }

    /// The number of pieces that `player` has on the board.
    pub fn score_for_player(&self, player: IPlayer) -> (count: i16)
        ensures
            count == score(cells(self.board), player, 1, 1, 1),
            0 <= count <= 64,
    {
        proof {
            lemma_score_bounds(cells(self.board), player, 1, 1, 1, 1, 64);
            lemma_count_is_not_negative(cells(self.board), player, 64);
        }
        augmented_score_for_player(self.board, player, 1, 1, 1)
    }
}

} // verus!
