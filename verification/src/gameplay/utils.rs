use vstd::prelude::*;
use super::constants::{DEFAULT_BEST_WORST_CASE_SCORE, PLACEHOLDER};
use super::game::{
    at, cells, on_board, piece_at, valid_cells, with_piece, IBoard, IPiece, IPlayer, OthelloError,
};
use super::position::{pos, position_at, IPosition, IPositionOption};

verus! {

/// A step to one of the eight neighbouring cells.
pub open spec fn is_direction(dr: int, dc: int) -> bool {
    -1 <= dr <= 1 && -1 <= dc <= 1 && (dr != 0 || dc != 0)
}

/// The row step of the `k`-th compass direction. The directions are counted
/// from 0 to 7, starting downwards and turning by an eighth each time.
pub open spec fn dir_row(k: int) -> int {
    if k == 0 || k == 1 || k == 7 {
        1
    } else if k == 2 || k == 6 {
        0
    } else {
        -1
    }
}

/// The column step of the `k`-th compass direction.
pub open spec fn dir_col(k: int) -> int {
    if k == 1 || k == 2 || k == 3 {
        1
    } else if k == 0 || k == 4 {
        0
    } else {
        -1
    }
}

/// An upper bound on the number of cells that a walk from (r, c) in steps of
/// (dr, dc) still has before it leaves the board.
pub open spec fn steps_to_edge(r: int, c: int, dr: int, dc: int) -> int {
    if dr > 0 {
        8 - r
    } else if dr < 0 {
        r + 1
    } else if dc > 0 {
        8 - c
    } else {
        c + 1
    }
}

/// The cells held by `opponent` that a walk meets in a row, starting at
/// (r, c) itself and going in steps of (dr, dc).
pub open spec fn opponent_run(b: Seq<u8>, opponent: u8, r: int, c: int, dr: int, dc: int) -> Seq<
    IPosition,
>
    decreases steps_to_edge(r, c, dr, dc),
{
    if on_board(r, c) && is_direction(dr, dc) && at(b, r, c) == opponent {
        seq![pos(r, c)] + opponent_run(b, opponent, r + dr, c + dc, dr, dc)
    } else {
        Seq::empty()
    }
}

/// Whether a walk that starts at (r, c) and goes in steps of (dr, dc) over
/// cells of the other player meets a cell of `player` before it leaves the
/// board or meets any other cell.
pub open spec fn run_is_closed(b: Seq<u8>, player: u8, r: int, c: int, dr: int, dc: int) -> bool
    decreases steps_to_edge(r, c, dr, dc),
{
    on_board(r, c) && is_direction(dr, dc) && (at(b, r, c) == player || (at(b, r, c) == 1 - player
        && run_is_closed(b, player, r + dr, c + dc, dr, dc)))
}

/// The cells that `player` captures in one direction by playing at (r, c):
/// the run of the other player's cells next to (r, c), if a cell of `player`
/// closes it.
pub open spec fn flips_in_direction(b: Seq<u8>, player: u8, r: int, c: int, dr: int, dc: int) -> Seq<
    IPosition,
> {
    if run_is_closed(b, player, r + dr, c + dc, dr, dc) {
        opponent_run(b, (1 - player) as u8, r + dr, c + dc, dr, dc)
    } else {
        Seq::empty()
    }
}

/// The captures in the first `n` compass directions, one direction after the
/// other.
pub open spec fn flips_upto(b: Seq<u8>, player: u8, r: int, c: int, n: nat) -> Seq<IPosition>
    decreases n,
{
    if n == 0 {
        Seq::empty()
    } else {
        flips_upto(b, player, r, c, (n - 1) as nat) + flips_in_direction(
            b,
            player,
            r,
            c,
            dir_row(n - 1),
            dir_col(n - 1),
        )
    }
}

/// All the cells that `player` captures by playing at (r, c).
pub open spec fn flips(b: Seq<u8>, player: u8, r: int, c: int) -> Seq<IPosition> {
    flips_upto(b, player, r, c, 8)
}

/// The `k`-th compass direction as a step.
pub fn direction(k: usize) -> (d: IPosition)
    requires
        k < 8,
    ensures
        d.downwards == dir_row(k as int),
        d.rightwards == dir_col(k as int),
        is_direction(d.downwards as int, d.rightwards as int),
{
    let downwards: i8 = if k == 0 || k == 1 || k == 7 {
        1
    } else if k == 2 || k == 6 {
        0
    } else {
        -1
    };
    let rightwards: i8 = if k == 1 || k == 2 || k == 3 {
        1
    } else if k == 0 || k == 4 {
        0
    } else {
        -1
    };
    IPosition { rightwards, downwards }
}

/// The captures of `player` at `position` in the direction `step`.
fn flippable_in_direction(board: &IBoard, position: &IPosition, player: IPlayer, step: IPosition) -> (run:
    Vec<IPosition>)
    requires
        player <= 1,
        -127 <= position.rightwards <= 126,
        -127 <= position.downwards <= 126,
        is_direction(step.downwards as int, step.rightwards as int),
    ensures
        run@ == flips_in_direction(
            cells(*board),
            player,
            position.downwards as int,
            position.rightwards as int,
            step.downwards as int,
            step.rightwards as int,
        ),
{
    let opponent: u8 = 1 - player;
    let ghost b = cells(*board);
    let ghost dr = step.downwards as int;
    let ghost dc = step.rightwards as int;
    let ghost r0 = position.downwards + dr;
    let ghost c0 = position.rightwards + dc;
    let mut current_position = position.duplicate();
    current_position.add(step.duplicate());
    let mut opponent_pieces: Vec<IPosition> = Vec::new();
    while current_position.rightwards >= 0 && current_position.rightwards < 8
        && current_position.downwards >= 0 && current_position.downwards < 8
        invariant
            player <= 1,
            opponent == 1 - player,
            b == cells(*board),
            dr == step.downwards,
            dc == step.rightwards,
            is_direction(dr, dc),
            r0 == position.downwards + dr,
            c0 == position.rightwards + dc,
            opponent_run(b, opponent, r0, c0, dr, dc) == opponent_pieces@ + opponent_run(
                b,
                opponent,
                current_position.downwards as int,
                current_position.rightwards as int,
                dr,
                dc,
            ),
            run_is_closed(b, player, r0, c0, dr, dc) == run_is_closed(
                b,
                player,
                current_position.downwards as int,
                current_position.rightwards as int,
                dr,
                dc,
            ),
        decreases steps_to_edge(
            current_position.downwards as int,
            current_position.rightwards as int,
            dr,
            dc,
        ),
    {
        let piece = piece_at(
            board,
            current_position.downwards as usize,
            current_position.rightwards as usize,
        );
        if piece == opponent {
            proof {
                let r = current_position.downwards as int;
                let c = current_position.rightwards as int;
                assert(opponent_pieces@.push(current_position) + opponent_run(
                    b,
                    opponent,
                    r + dr,
                    c + dc,
                    dr,
                    dc,
                ) =~= opponent_pieces@ + opponent_run(b, opponent, r, c, dr, dc));
            }
            opponent_pieces.push(current_position.duplicate());
        } else if piece == player {
            proof {
                assert(opponent_run(b, opponent, r0, c0, dr, dc) =~= opponent_pieces@);
            }
            return opponent_pieces;
        } else {
            return Vec::new();
        }
        current_position.add(step.duplicate());
    }
    Vec::new()
}

/// The cells that `player` captures by playing at `position`, direction by
/// direction and, within a direction, from the nearest cell outwards. The
/// cell at `position` itself is not looked at.
pub fn flippable_pieces(board: IBoard, position: &IPosition, player: IPlayer) -> (flipped: Vec<
    IPosition,
>)
    requires
        player <= 1,
        -127 <= position.rightwards <= 126,
        -127 <= position.downwards <= 126,
    ensures
        flipped@ == flips(
            cells(board),
            player,
            position.downwards as int,
            position.rightwards as int,
        ),
{
    let mut flippable_pieces: Vec<IPosition> = Vec::new();
    let mut k: usize = 0;
    while k < 8
        invariant
            k <= 8,
            player <= 1,
            -127 <= position.rightwards <= 126,
            -127 <= position.downwards <= 126,
            flippable_pieces@ == flips_upto(
                cells(board),
                player,
                position.downwards as int,
                position.rightwards as int,
                k as nat,
            ),
        decreases 8 - k,
    {
        let mut run = flippable_in_direction(&board, position, player, direction(k));
        flippable_pieces.append(&mut run);
        k = k + 1;
    }
    flippable_pieces
}

/// Whether `p` is a cell of the board that holds `piece`.
pub open spec fn holds(b: Seq<u8>, p: IPosition, piece: int) -> bool {
    p.is_cell() && at(b, p.downwards as int, p.rightwards as int) == piece
}

/// Every cell of a run is on the board and held by the opponent.
pub proof fn lemma_run_cells(b: Seq<u8>, opponent: u8, r: int, c: int, dr: int, dc: int)
    ensures
        forall|i: int|
            0 <= i < opponent_run(b, opponent, r, c, dr, dc).len() ==> holds(
                b,
                #[trigger] opponent_run(b, opponent, r, c, dr, dc)[i],
                opponent as int,
            ),
    decreases steps_to_edge(r, c, dr, dc),
{
    if on_board(r, c) && is_direction(dr, dc) && at(b, r, c) == opponent {
        lemma_run_cells(b, opponent, r + dr, c + dc, dr, dc);
        let rest = opponent_run(b, opponent, r + dr, c + dc, dr, dc);
        let run = opponent_run(b, opponent, r, c, dr, dc);
        assert(run =~= seq![pos(r, c)] + rest);
        assert forall|i: int| 0 <= i < run.len() implies holds(
            b,
            #[trigger] run[i],
            opponent as int,
        ) by {
            if i > 0 {
                assert(run[i] == rest[i - 1]);
            }
        }
    }
}

/// Every captured cell is on the board and held by the other player.
pub proof fn lemma_flips_cells(b: Seq<u8>, player: u8, r: int, c: int, n: nat)
    requires
        player <= 1,
    ensures
        forall|i: int|
            0 <= i < flips_upto(b, player, r, c, n).len() ==> holds(
                b,
                #[trigger] flips_upto(b, player, r, c, n)[i],
                1 - player,
            ),
    decreases n,
{
    if n > 0 {
        lemma_flips_cells(b, player, r, c, (n - 1) as nat);
        lemma_run_cells(
            b,
            (1 - player) as u8,
            r + dir_row(n - 1),
            c + dir_col(n - 1),
            dir_row(n - 1),
            dir_col(n - 1),
        );
        let before = flips_upto(b, player, r, c, (n - 1) as nat);
        let here = flips_in_direction(b, player, r, c, dir_row(n - 1), dir_col(n - 1));
        let all = flips_upto(b, player, r, c, n);
        assert(all == before + here);
        assert forall|i: int| 0 <= i < all.len() implies holds(b, #[trigger] all[i], 1 - player) by {
            if i < before.len() {
                assert(all[i] == before[i]);
            } else {
                assert(all[i] == here[i - before.len()]);
            }
        }
    }
}

/// The board model `b` with every cell of `taken` given to `player`.
pub open spec fn with_cells(b: Seq<u8>, taken: Seq<IPosition>, player: u8) -> Seq<u8> {
    Seq::new(
        64,
        |k: int|
            if taken.contains(pos(k / 8, k % 8)) {
                player
            } else {
                b[k]
            },
    )
}

/// A move is legal on an empty cell of the board where it captures something.
pub open spec fn is_legal(b: Seq<u8>, player: u8, r: int, c: int) -> bool {
    on_board(r, c) && at(b, r, c) == PLACEHOLDER && flips(b, player, r, c).len() > 0
}

/// The board model after `player` has played at (r, c): that cell and every
/// captured cell are the player's, the others are as before.
pub open spec fn played(b: Seq<u8>, player: u8, r: int, c: int) -> Seq<u8> {
    with_cells(b, flips(b, player, r, c), player).update(r * 8 + c, player)
}

/// A move of player 0 or 1 on a board of piece values leaves a board of piece
/// values.
pub proof fn lemma_played_is_valid(b: Seq<u8>, player: u8, r: int, c: int)
    requires
        valid_cells(b),
        player <= 1,
        on_board(r, c),
    ensures
        valid_cells(played(b, player, r, c)),
{
}

/// Gives every cell of `taken` to `player`.
fn take_cells(board: IBoard, taken: &Vec<IPosition>, player: IPlayer) -> (out: IBoard)
    requires
        forall|i: int| 0 <= i < taken@.len() ==> (#[trigger] taken@[i]).is_cell(),
    ensures
        cells(out) == with_cells(cells(board), taken@, player),
{
    let mut new_board = board;
    let mut i: usize = 0;
    assert(cells(new_board) =~= with_cells(cells(board), taken@.take(0), player));
    while i < taken.len()
        invariant
            i <= taken@.len(),
            forall|j: int| 0 <= j < taken@.len() ==> (#[trigger] taken@[j]).is_cell(),
            cells(new_board) == with_cells(cells(board), taken@.take(i as int), player),
        decreases taken@.len() - i,
    {
        let p = taken[i];
        let ghost before = cells(new_board);
        new_board = with_piece(new_board, p.downwards as usize, p.rightwards as usize, player);
        proof {
            let done = taken@.take(i as int);
            let next = taken@.take(i + 1);
            assert(next =~= done.push(p));
            assert forall|k: int| 0 <= k < 64 implies cells(new_board)[k] == with_cells(
                cells(board),
                next,
                player,
            )[k] by {
                let q = pos(k / 8, k % 8);
                if q == p {
                    assert(k == p.downwards * 8 + p.rightwards);
                    assert(next[i as int] == q);
                } else {
                    assert(k != p.downwards * 8 + p.rightwards);
                    if next.contains(q) {
                        let j = choose|j: int| 0 <= j < next.len() && next[j] == q;
                        assert(done[j] == q);
                    }
                    if done.contains(q) {
                        let j = choose|j: int| 0 <= j < done.len() && done[j] == q;
                        assert(next[j] == q);
                    }
                }
            }
            assert(cells(new_board) =~= with_cells(cells(board), next, player));
        }
        i = i + 1;
    }
    assert(taken@.take(taken@.len() as int) =~= taken@);
    new_board
}

/// The board on which every cell that `player` captures by playing at
/// `position` is the player's. The cell at `position` itself stays as it is.
pub fn flip_pieces(board: IBoard, position: &IPosition, player: u8) -> (out: IBoard)
    requires
        player <= 1,
        -127 <= position.rightwards <= 126,
        -127 <= position.downwards <= 126,
    ensures
        cells(out) == with_cells(
            cells(board),
            flips(cells(board), player, position.downwards as int, position.rightwards as int),
            player,
        ),
{
    let flippable_pieces = flippable_pieces(board, position, player);
    proof {
        lemma_flips_cells(
            cells(board),
            player,
            position.downwards as int,
            position.rightwards as int,
            8,
        );
    }
    take_cells(board, &flippable_pieces, player)
}

/// Plays a piece of `player` at `position`. The move is refused where
/// `position` names no cell, where the cell is taken and where nothing would
/// be captured; otherwise the new board is returned and `board` is untouched.
pub fn board_by_playing_piece_at_index(board: IBoard, position: &IPosition, player: IPlayer) -> (out:
    Result<IBoard, OthelloError>)
    requires
        player <= 1,
    ensures
        out == Err::<IBoard, OthelloError>(OthelloError::InvalidPosition) <==> !position.is_cell(),
        out == Err::<IBoard, OthelloError>(OthelloError::IllegalMove) <==> position.is_cell()
            && !is_legal(
            cells(board),
            player,
            position.downwards as int,
            position.rightwards as int,
        ),
        out is Ok <==> is_legal(
            cells(board),
            player,
            position.downwards as int,
            position.rightwards as int,
        ),
        out is Ok ==> cells(out->Ok_0) == played(
            cells(board),
            player,
            position.downwards as int,
            position.rightwards as int,
        ),
{
    if position.rightwards < 0 || position.rightwards >= 8 || position.downwards < 0
        || position.downwards >= 8 {
        return Err(OthelloError::InvalidPosition);
    }
    let curr_piece = piece_at(&board, position.downwards as usize, position.rightwards as usize);
    if !is_piece_placeholder(curr_piece) {
        return Err(OthelloError::IllegalMove);
    }
    let captured = flippable_pieces(board, position, player);
    if captured.len() == 0 {
        return Err(OthelloError::IllegalMove);
    }
    proof {
        lemma_flips_cells(
            cells(board),
            player,
            position.downwards as int,
            position.rightwards as int,
            8,
        );
    }
    let flipped = take_cells(board, &captured, player);
    Ok(with_piece(flipped, position.downwards as usize, position.rightwards as usize, player))
}

/// The cell with the row-major index `piece_index`; none where the index is
/// negative or past the last cell.
pub fn position_from_piece_index(piece_index: i8) -> (p: IPositionOption)
    ensures
        p == position_at(piece_index as int),
        p is Some <==> 0 <= piece_index < 64,
        p is Some ==> p->0.is_cell() && p->0.index() == piece_index,
{
    IPosition::position_from_piece_index(piece_index)
}

/// The row-major index of a cell of the board.
pub fn piece_index_from_position(position: IPosition) -> (i: i8)
    requires
        position.is_cell(),
    ensures
        i == position.index(),
        0 <= i < 64,
{
    position.downwards * 8 + position.rightwards
}

/// Whether a piece value is the one of an empty cell.
pub fn is_piece_placeholder(piece: IPiece) -> (empty: bool)
    ensures
        empty == (piece == PLACEHOLDER),
{
    piece == PLACEHOLDER
}

/// What a piece on the cell with index `k` counts: a corner, an edge or an
/// inner cell.
pub open spec fn cell_weight(k: int, corner: int, edge: int, other: int) -> int {
    let row_edge = k / 8 == 0 || k / 8 == 7;
    let col_edge = k % 8 == 0 || k % 8 == 7;
    if row_edge && col_edge {
        corner
    } else if row_edge || col_edge {
        edge
    } else {
        other
    }
}

/// The weighted count of the pieces of `player` on the first `n` cells.
pub open spec fn score_upto(b: Seq<u8>, player: u8, corner: int, edge: int, other: int, n: nat) -> int
    decreases n,
{
    if n == 0 {
        0
    } else {
        score_upto(b, player, corner, edge, other, (n - 1) as nat) + if b[n - 1] == player {
            cell_weight(n - 1, corner, edge, other)
        } else {
            0
        }
    }
}

/// The weighted count of the pieces of `player` on the board.
pub open spec fn score(b: Seq<u8>, player: u8, corner: int, edge: int, other: int) -> int {
    score_upto(b, player, corner, edge, other, 64)
}

/// A plain piece count is never negative.
pub proof fn lemma_count_is_not_negative(b: Seq<u8>, player: u8, n: nat)
    ensures
        0 <= score_upto(b, player, 1, 1, 1, n),
    decreases n,
{
    if n > 0 {
        lemma_count_is_not_negative(b, player, (n - 1) as nat);
    }
}

/// No weight is larger than `m` in absolute value.
pub open spec fn weights_within(corner: int, edge: int, other: int, m: int) -> bool {
    -m <= corner <= m && -m <= edge <= m && -m <= other <= m
}

/// A score over `n` cells with weights within `m` lies within `n * m`.
pub proof fn lemma_score_bounds(
    b: Seq<u8>,
    player: u8,
    corner: int,
    edge: int,
    other: int,
    m: int,
    n: nat,
)
    requires
        weights_within(corner, edge, other, m),
    ensures
        -(n * m) <= score_upto(b, player, corner, edge, other, n) <= n * m,
    decreases n,
{
    if n > 0 {
        lemma_score_bounds(b, player, corner, edge, other, m, (n - 1) as nat);
        assert(n * m == (n - 1) * m + m) by (nonlinear_arith);
    }
}

/// The score in a type wide enough for every board and all weights.
fn score_wide(board: &IBoard, player: IPlayer, corner_score: i16, edge_score: i16, other_score: i16) -> (total:
    i32)
    ensures
        total == score(
            cells(*board),
            player,
            corner_score as int,
            edge_score as int,
            other_score as int,
        ),
        -64 * 32768 <= total <= 64 * 32768,
{
    let mut total: i32 = 0;
    let mut k: usize = 0;
    while k < 64
        invariant
            k <= 64,
            total == score_upto(
                cells(*board),
                player,
                corner_score as int,
                edge_score as int,
                other_score as int,
                k as nat,
            ),
            -(k * 32768) <= total <= k * 32768,
        decreases 64 - k,
    {
        let row: usize = k / 8;
        let col: usize = k % 8;
        let piece = piece_at(board, row, col);
        if piece == player {
            if row == 0 || row == 7 {
                if col == 0 || col == 7 {
                    total = total + corner_score as i32;
                } else {
                    total = total + edge_score as i32;
                }
            } else if col == 0 || col == 7 {
                total = total + edge_score as i32;
            } else {
                total = total + other_score as i32;
            }
        }
        k = k + 1;
    }
    total
}

/// The weighted piece count of `player`: each piece counts `corner_score` on
/// a corner, `edge_score` elsewhere on the rim and `other_score` inside. The
/// count has to fit the result type.
pub fn augmented_score_for_player(
    board: IBoard,
    player: IPlayer,
    corner_score: i16,
    edge_score: i16,
    other_score: i16,
) -> (total: i16)
    requires
        i16::MIN <= score(
            cells(board),
            player,
            corner_score as int,
            edge_score as int,
            other_score as int,
        ) <= i16::MAX,
    ensures
        total == score(
            cells(board),
            player,
            corner_score as int,
            edge_score as int,
            other_score as int,
        ),
{
    let total = score_wide(&board, player, corner_score, edge_score, other_score);
    total as i16
}

/// Whether `player` has a legal move somewhere on the board.
pub open spec fn has_move(b: Seq<u8>, player: u8) -> bool {
    exists|k: int| 0 <= k < 64 && #[trigger] is_legal(b, player, k / 8, k % 8)
}

/// Whether `player` can play anywhere: on some empty cell the player
/// captures something.
pub fn player_has_move(board: IBoard, player: IPlayer) -> (found: bool)
    requires
        player <= 1,
    ensures
        found == has_move(cells(board), player),
{
    let mut k: usize = 0;
    while k < 64
        invariant
            k <= 64,
            player <= 1,
            forall|j: int| 0 <= j < k ==> !#[trigger] is_legal(cells(board), player, j / 8, j % 8),
        decreases 64 - k,
    {
        let row: usize = k / 8;
        let col: usize = k % 8;
        if is_piece_placeholder(piece_at(&board, row, col)) {
            let position = IPosition { downwards: row as i8, rightwards: col as i8 };
            let flippable_pieces = flippable_pieces(board, &position, player);
            if flippable_pieces.len() > 0 {
                assert(is_legal(cells(board), player, k as int / 8, k as int % 8));
                return true;
            }
        }
        k = k + 1;
    }
    false
}

/// Whether the reply of `opponent` on the cell with index `k` counts: the
/// cell was empty on the board `b0` before the move, and the reply is legal on
/// the board `b1` after it.
pub open spec fn reply_counts(b0: Seq<u8>, b1: Seq<u8>, opponent: u8, k: int) -> bool {
    b0[k] == PLACEHOLDER && is_legal(b1, opponent, k / 8, k % 8)
}

/// What the reply of `opponent` on the cell with index `k` leaves: `base`
/// less the opponent's score after the reply.
pub open spec fn reply_value(
    b1: Seq<u8>,
    opponent: u8,
    corner: int,
    edge: int,
    other: int,
    base: int,
    k: int,
) -> int {
    base - score(played(b1, opponent, k / 8, k % 8), opponent, corner, edge, other)
}

/// The least of the value of having no reply and of the values of the
/// replies that count on the first `n` cells.
pub open spec fn worst_upto(
    b0: Seq<u8>,
    b1: Seq<u8>,
    opponent: u8,
    corner: int,
    edge: int,
    other: int,
    base: int,
    n: nat,
) -> int
    decreases n,
{
    if n == 0 {
        DEFAULT_BEST_WORST_CASE_SCORE as int
    } else {
        let k = n - 1;
        let before = worst_upto(b0, b1, opponent, corner, edge, other, base, k as nat);
        let total = reply_value(b1, opponent, corner, edge, other, base, k);
        if reply_counts(b0, b1, opponent, k) && total < before {
            total
        } else {
            before
        }
    }
}

/// What remains for `player` in the worst case after playing at (r, c), if
/// that move is legal: with the player's score `mine` and the opponent's
/// score `theirs` right after the move, the least over the opponent's replies
/// of `mine` less the opponent's score after the reply plus `mine - theirs`.
pub open spec fn worst_case(
    b: Seq<u8>,
    player: u8,
    r: int,
    c: int,
    corner: int,
    edge: int,
    other: int,
) -> Option<int> {
    if is_legal(b, player, r, c) {
        let b1 = played(b, player, r, c);
        let mine = score(b1, player, corner, edge, other);
        let theirs = score(b1, (1 - player) as u8, corner, edge, other);
        Some(
            worst_upto(
                b,
                b1,
                (1 - player) as u8,
                corner,
                edge,
                other,
                mine + (mine - theirs),
                64,
            ),
        )
    } else {
        None
    }
}

/// With weights within `m` and a `base` within `192 * m`, the value of the
/// replies is at most the value of having no reply and at least `-256 * m`.
pub proof fn lemma_worst_upto_bounds(
    b0: Seq<u8>,
    b1: Seq<u8>,
    opponent: u8,
    corner: int,
    edge: int,
    other: int,
    base: int,
    m: int,
    n: nat,
)
    requires
        weights_within(corner, edge, other, m),
        0 <= m,
        -192 * m <= base,
    ensures
        -256 * m <= worst_upto(b0, b1, opponent, corner, edge, other, base, n)
            <= DEFAULT_BEST_WORST_CASE_SCORE,
    decreases n,
{
    if n > 0 {
        let k = n - 1;
        lemma_worst_upto_bounds(b0, b1, opponent, corner, edge, other, base, m, k as nat);
        lemma_score_bounds(played(b1, opponent, k / 8, k % 8), opponent, corner, edge, other, m, 64);
    }
}

/// With weights of at most 128 in absolute value the worst case of every
/// move fits in 16 bits.
pub proof fn lemma_worst_case_fits(
    b: Seq<u8>,
    player: u8,
    r: int,
    c: int,
    corner: int,
    edge: int,
    other: int,
)
    requires
        weights_within(corner, edge, other, 128),
    ensures
        worst_case(b, player, r, c, corner, edge, other) matches Some(w) ==> i16::MIN <= w
            <= DEFAULT_BEST_WORST_CASE_SCORE,
{
    if is_legal(b, player, r, c) {
        let b1 = played(b, player, r, c);
        let mine = score(b1, player, corner, edge, other);
        let theirs = score(b1, (1 - player) as u8, corner, edge, other);
        lemma_score_bounds(b1, player, corner, edge, other, 128, 64);
        lemma_score_bounds(b1, (1 - player) as u8, corner, edge, other, 128, 64);
        lemma_worst_upto_bounds(
            b,
            b1,
            (1 - player) as u8,
            corner,
            edge,
            other,
            mine + (mine - theirs),
            128,
            64,
        );
    }
}

/// The worst case for `player` of playing at `position`, after the
/// opponent's best reply; nothing where the move is not legal. The value has
/// to fit the result type.
pub fn worst_score_by_playing_piece_at_index(
    board: IBoard,
    position: IPosition,
    player: IPlayer,
    corner_score: i16,
    edge_score: i16,
    other_score: i16,
) -> (worst: Option<i16>)
    requires
        player <= 1,
        worst_case(
            cells(board),
            player,
            position.downwards as int,
            position.rightwards as int,
            corner_score as int,
            edge_score as int,
            other_score as int,
        ) matches Some(w) ==> i16::MIN <= w,
    ensures
        match worst {
            Some(w) => worst_case(
                cells(board),
                player,
                position.downwards as int,
                position.rightwards as int,
                corner_score as int,
                edge_score as int,
                other_score as int,
            ) == Some(w as int),
            None => worst_case(
                cells(board),
                player,
                position.downwards as int,
                position.rightwards as int,
                corner_score as int,
                edge_score as int,
                other_score as int,
            ) is None,
        },
{
    let board_new = match board_by_playing_piece_at_index(board, &position, player) {
        Ok(b) => b,
        Err(_) => { return None; },
    };
    let opponent: u8 = 1 - player;
    let new_score = score_wide(&board_new, player, corner_score, edge_score, other_score);
    let new_score_opponent = score_wide(
        &board_new,
        opponent,
        corner_score,
        edge_score,
        other_score,
    );
    // how good is this move immediately?
    let tie_break_score: i32 = new_score - new_score_opponent;
    let base: i32 = new_score + tie_break_score;
    let mut worst_case_score: i32 = DEFAULT_BEST_WORST_CASE_SCORE as i32;
    let mut k: usize = 0;
    while k < 64
        invariant
            k <= 64,
            opponent <= 1,
            -3 * 64 * 32768 <= base <= 3 * 64 * 32768,
            -4 * 64 * 32768 <= worst_case_score <= DEFAULT_BEST_WORST_CASE_SCORE,
            worst_case_score == worst_upto(
                cells(board),
                cells(board_new),
                opponent,
                corner_score as int,
                edge_score as int,
                other_score as int,
                base as int,
                k as nat,
            ),
        decreases 64 - k,
    {
        let row: usize = k / 8;
        let col: usize = k % 8;
        if is_piece_placeholder(piece_at(&board, row, col)) {
            let reply = IPosition { downwards: row as i8, rightwards: col as i8 };
            match board_by_playing_piece_at_index(board_new, &reply, opponent) {
                Ok(board_after_opponent_plays) => {
                    let opponent_score = score_wide(
                        &board_after_opponent_plays,
                        opponent,
                        corner_score,
                        edge_score,
                        other_score,
                    );
                    let total_score: i32 = base - opponent_score;
                    if total_score < worst_case_score {
                        worst_case_score = total_score;
                    }
                },
                Err(_) => {},
            }
        }
        k = k + 1;
    }
    Some(worst_case_score as i16)
}

} // verus!
