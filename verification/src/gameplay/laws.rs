//! What holds of the rules of the game, beyond what each function promises
//! of itself.

use vstd::prelude::*;
use super::constants::{DEFAULT_BEST_WORST_CASE_SCORE, PLACEHOLDER};
use super::game::{all_cells, at, legal_at, legal_moves, on_board, valid_cells};
use super::position::{pos, IPosition};
use super::recommender::{lemma_recommended_iff_has_move, recommended};
use super::utils::{
    dir_col, dir_row, flips, flips_in_direction, flips_upto, has_move, holds, is_direction,
    is_legal, lemma_flips_cells, opponent_run, played, reply_counts, reply_value, run_is_closed,
    score, score_upto, steps_to_edge, worst_case, worst_upto,
};

verus! {

/// The row or column reached from `from` by `j` steps of `step`.
pub open spec fn along(from: int, step: int, j: int) -> int {
    from + j * step
}

/// One more step leads one `step` further.
pub proof fn lemma_along_next(from: int, step: int, j: int)
    ensures
        along(from, step, j + 1) == along(from, step, j) + step,
        along(from + step, step, j) == along(from, step, j + 1),
        along(from, step, 0) == from,
{
    assert((j + 1) * step == j * step + step) by (nonlinear_arith);
}

/// The `n` cells that follow (r, c) in the direction (dr, dc), the nearest
/// first.
pub open spec fn line(r: int, c: int, dr: int, dc: int, n: nat) -> Seq<IPosition> {
    Seq::new(n, |j: int| pos(along(r, dr, j + 1), along(c, dc, j + 1)))
}

/// `player` brackets `n` cells from (r, c) in the direction (dr, dc): the
/// `n` cells that follow (r, c) are on the board and held by the other
/// player, and the cell behind them is on the board and held by `player`.
pub open spec fn brackets(b: Seq<u8>, player: u8, r: int, c: int, dr: int, dc: int, n: nat) -> bool {
    &&& is_direction(dr, dc)
    &&& forall|j: int|
        1 <= j <= n ==> on_board(#[trigger] along(r, dr, j), along(c, dc, j)) && at(
            b,
            along(r, dr, j),
            along(c, dc, j),
        ) == 1 - player
    &&& on_board(along(r, dr, n as int + 1), along(c, dc, n as int + 1))
    &&& at(b, along(r, dr, n as int + 1), along(c, dc, n as int + 1)) == player
}

/// Where `player` brackets `n` cells, the walk over them is closed and its
/// run is those cells.
proof fn lemma_bracket_gives_run(b: Seq<u8>, player: u8, r: int, c: int, dr: int, dc: int, n: nat)
    requires
        player <= 1,
        brackets(b, player, r, c, dr, dc, n),
    ensures
        run_is_closed(b, player, r + dr, c + dc, dr, dc),
        opponent_run(b, (1 - player) as u8, r + dr, c + dc, dr, dc) == line(r, c, dr, dc, n),
    decreases n,
{
    lemma_along_next(r, dr, 0);
    lemma_along_next(c, dc, 0);
    let opponent = (1 - player) as u8;
    if n == 0 {
        assert(opponent_run(b, opponent, r + dr, c + dc, dr, dc) =~= line(r, c, dr, dc, 0));
    } else {
        assert(on_board(along(r, dr, 1), along(c, dc, 1)));
        assert forall|j: int| 1 <= j <= n - 1 implies on_board(
            #[trigger] along(r + dr, dr, j),
            along(c + dc, dc, j),
        ) && at(b, along(r + dr, dr, j), along(c + dc, dc, j)) == 1 - player by {
            lemma_along_next(r, dr, j);
            lemma_along_next(c, dc, j);
            assert(on_board(along(r, dr, j + 1), along(c, dc, j + 1)));
        }
        lemma_along_next(r, dr, n as int);
        lemma_along_next(c, dc, n as int);
        assert(brackets(b, player, r + dr, c + dc, dr, dc, (n - 1) as nat));
        lemma_bracket_gives_run(b, player, r + dr, c + dc, dr, dc, (n - 1) as nat);
        let rest = line(r + dr, c + dc, dr, dc, (n - 1) as nat);
        assert(seq![pos(r + dr, c + dc)] + rest =~= line(r, c, dr, dc, n)) by {
            assert forall|j: int| 0 <= j < n implies (seq![pos(r + dr, c + dc)] + rest)[j] == line(
                r,
                c,
                dr,
                dc,
                n,
            )[j] by {
                if j > 0 {
                    lemma_along_next(r, dr, j);
                    lemma_along_next(c, dc, j);
                }
            }
        }
    }
}

/// Where the walk that starts next to (r, c) is closed, `player` brackets
/// the cells of its run.
proof fn lemma_run_gives_bracket(b: Seq<u8>, player: u8, r: int, c: int, dr: int, dc: int)
    requires
        player <= 1,
        run_is_closed(b, player, r + dr, c + dc, dr, dc),
    ensures
        brackets(
            b,
            player,
            r,
            c,
            dr,
            dc,
            opponent_run(b, (1 - player) as u8, r + dr, c + dc, dr, dc).len(),
        ),
    decreases steps_to_edge(r + dr, c + dc, dr, dc),
{
    lemma_along_next(r, dr, 0);
    lemma_along_next(c, dc, 0);
    let opponent = (1 - player) as u8;
    let n = opponent_run(b, opponent, r + dr, c + dc, dr, dc).len();
    if at(b, r + dr, c + dc) == player {
        assert(n == 0);
    } else {
        lemma_run_gives_bracket(b, player, r + dr, c + dc, dr, dc);
        let m = opponent_run(b, opponent, r + dr + dr, c + dc + dc, dr, dc).len();
        assert(n == m + 1);
        assert forall|j: int| 1 <= j <= n implies on_board(
            #[trigger] along(r, dr, j),
            along(c, dc, j),
        ) && at(b, along(r, dr, j), along(c, dc, j)) == 1 - player by {
            if j > 1 {
                lemma_along_next(r, dr, j - 1);
                lemma_along_next(c, dc, j - 1);
                assert(on_board(along(r + dr, dr, j - 1), along(c + dc, dc, j - 1)));
            }
        }
        lemma_along_next(r, dr, n as int);
        lemma_along_next(c, dc, n as int);
    }
}

/// The captures in one direction are the cells that the player brackets:
/// where the player brackets `n` cells, they are captured, nearest first;
/// and where anything is captured, those cells are bracketed.
pub proof fn lemma_flips_are_brackets(
    b: Seq<u8>,
    player: u8,
    r: int,
    c: int,
    dr: int,
    dc: int,
    n: nat,
)
    requires
        player <= 1,
    ensures
        brackets(b, player, r, c, dr, dc, n) ==> flips_in_direction(b, player, r, c, dr, dc)
            == line(r, c, dr, dc, n),
        flips_in_direction(b, player, r, c, dr, dc).len() > 0 ==> brackets(
            b,
            player,
            r,
            c,
            dr,
            dc,
            flips_in_direction(b, player, r, c, dr, dc).len(),
        ),
{
    if brackets(b, player, r, c, dr, dc, n) {
        lemma_bracket_gives_run(b, player, r, c, dr, dc, n);
    }
    if flips_in_direction(b, player, r, c, dr, dc).len() > 0 {
        lemma_run_gives_bracket(b, player, r, c, dr, dc);
    }
}

/// A walk from a cell of the board never comes back to it: what it finds
/// from the `j`-th cell on does not depend on what the cell itself holds.
proof fn lemma_walk_ignores_start(
    b: Seq<u8>,
    piece: u8,
    player: u8,
    r: int,
    c: int,
    dr: int,
    dc: int,
    j: int,
)
    requires
        b.len() == 64,
        on_board(r, c),
        j >= 1,
    ensures
        opponent_run(b.update(r * 8 + c, piece), player, along(r, dr, j), along(c, dc, j), dr, dc)
            == opponent_run(b, player, along(r, dr, j), along(c, dc, j), dr, dc),
        run_is_closed(b.update(r * 8 + c, piece), player, along(r, dr, j), along(c, dc, j), dr, dc)
            == run_is_closed(b, player, along(r, dr, j), along(c, dc, j), dr, dc),
    decreases steps_to_edge(along(r, dr, j), along(c, dc, j), dr, dc),
{
    let r0 = along(r, dr, j);
    let c0 = along(c, dc, j);
    if on_board(r0, c0) && is_direction(dr, dc) {
        assert(r0 != r || c0 != c) by {
            assert(dr != 0 ==> j * dr != 0) by (nonlinear_arith)
                requires
                    j >= 1,
            ;
            assert(dc != 0 ==> j * dc != 0) by (nonlinear_arith)
                requires
                    j >= 1,
            ;
        }
        assert(r0 * 8 + c0 != r * 8 + c);
        lemma_along_next(r, dr, j);
        lemma_along_next(c, dc, j);
        lemma_walk_ignores_start(b, piece, player, r, c, dr, dc, j + 1);
    }
}

/// What is captured from a cell of the board does not depend on what the
/// cell itself holds: taken or empty, the captures are the same.
pub proof fn lemma_flips_ignore_own_cell(
    b: Seq<u8>,
    piece: u8,
    player: u8,
    r: int,
    c: int,
    n: nat,
)
    requires
        b.len() == 64,
        on_board(r, c),
        player <= 1,
    ensures
        flips_upto(b.update(r * 8 + c, piece), player, r, c, n) == flips_upto(b, player, r, c, n),
    decreases n,
{
    if n > 0 {
        lemma_flips_ignore_own_cell(b, piece, player, r, c, (n - 1) as nat);
        let dr = dir_row(n - 1);
        let dc = dir_col(n - 1);
        lemma_along_next(r, dr, 0);
        lemma_along_next(c, dc, 0);
        lemma_walk_ignores_start(b, piece, player, r, c, dr, dc, 1);
        lemma_walk_ignores_start(b, piece, (1 - player) as u8, r, c, dr, dc, 1);
    }
}

/// Where `player` brackets nothing from (r, c), in none of the first `n`
/// directions, nothing is captured there, whether the cell is taken or not.
pub proof fn lemma_no_bracket_no_capture(b: Seq<u8>, player: u8, r: int, c: int, n: nat)
    requires
        player <= 1,
        forall|k: int, m: nat|
            0 <= k < n && m >= 1 ==> !#[trigger] brackets(
                b,
                player,
                r,
                c,
                dir_row(k),
                dir_col(k),
                m,
            ),
    ensures
        flips_upto(b, player, r, c, n).len() == 0,
    decreases n,
{
    if n > 0 {
        lemma_no_bracket_no_capture(b, player, r, c, (n - 1) as nat);
        let k = n - 1;
        let here = flips_in_direction(b, player, r, c, dir_row(k), dir_col(k));
        if here.len() > 0 {
            lemma_flips_are_brackets(b, player, r, c, dir_row(k), dir_col(k), here.len());
            assert(brackets(b, player, r, c, dir_row(k), dir_col(k), here.len()));
        }
    }
}

/// A taken cell is no move, whatever would be captured from it: the move is
/// not legal, is not among the legal moves, has no worst case and is not
/// recommended.
pub proof fn lemma_taken_cell_is_no_move(b: Seq<u8>, player: u8, r: int, c: int)
    requires
        on_board(r, c),
        at(b, r, c) != PLACEHOLDER,
    ensures
        !is_legal(b, player, r, c),
        !legal_moves(b, player).contains(pos(r, c)),
        !recommended(b, player).contains(pos(r, c)),
        forall|corner: int, edge: int, other: int|
            #[trigger] worst_case(b, player, r, c, corner, edge, other) is None,
{
    lemma_legal_moves_are_legal(b, player);
    lemma_recommended_iff_has_move(b, player);
    let list = recommended(b, player);
    if list.contains(pos(r, c)) {
        let i = choose|i: int| 0 <= i < list.len() && list[i] == pos(r, c);
        assert(is_legal(b, player, list[i].downwards as int, list[i].rightwards as int));
    }
}

/// Every legal move is an empty cell of the board from which something is
/// captured, and every such cell is a legal move.
pub proof fn lemma_legal_moves_are_legal(b: Seq<u8>, player: u8)
    ensures
        forall|i: int|
            0 <= i < legal_moves(b, player).len() ==> {
                let p = #[trigger] legal_moves(b, player)[i];
                &&& p.is_cell()
                &&& at(b, p.downwards as int, p.rightwards as int) == PLACEHOLDER
                &&& flips(b, player, p.downwards as int, p.rightwards as int).len() > 0
            },
        forall|r: int, c: int|
            is_legal(b, player, r, c) <==> #[trigger] legal_moves(b, player).contains(pos(r, c))
                && on_board(r, c),
{
    let moves = legal_moves(b, player);
    assert forall|i: int| 0 <= i < moves.len() implies {
        let p = #[trigger] moves[i];
        &&& p.is_cell()
        &&& at(b, p.downwards as int, p.rightwards as int) == PLACEHOLDER
        &&& flips(b, player, p.downwards as int, p.rightwards as int).len() > 0
    } by {
        all_cells().lemma_filter_pred(legal_at(b, player), i);
    }
    assert forall|r: int, c: int|
        is_legal(b, player, r, c) <==> #[trigger] moves.contains(pos(r, c)) && on_board(
            r,
            c,
        ) by {
        if is_legal(b, player, r, c) {
            let k = r * 8 + c;
            assert(all_cells()[k] == pos(r, c));
            all_cells().lemma_filter_contains(legal_at(b, player), k);
        }
        if moves.contains(pos(r, c)) && on_board(r, c) {
            let i = choose|i: int| 0 <= i < moves.len() && moves[i] == pos(r, c);
            all_cells().lemma_filter_pred(legal_at(b, player), i);
        }
    }
}

/// The number of empty cells of a board.
pub open spec fn empties(b: Seq<u8>) -> int {
    score(b, PLACEHOLDER, 1, 1, 1)
}

/// On the first `n` cells of a board of piece values, the pieces of the two
/// players and the empty cells are `n` in all.
pub proof fn lemma_counts_add_up(b: Seq<u8>, n: nat)
    requires
        valid_cells(b),
        n <= 64,
    ensures
        score_upto(b, 0, 1, 1, 1, n) + score_upto(b, 1, 1, 1, 1, n) + score_upto(
            b,
            PLACEHOLDER,
            1,
            1,
            1,
            n,
        ) == n,
    decreases n,
{
    if n > 0 {
        lemma_counts_add_up(b, (n - 1) as nat);
        assert(b[n - 1] <= 2);
    }
}

/// On a board without empty cells nobody has a move, and the two piece
/// counts are 64 together.
pub proof fn lemma_full_board_is_final(b: Seq<u8>)
    requires
        valid_cells(b),
        forall|k: int| 0 <= k < 64 ==> #[trigger] b[k] != PLACEHOLDER,
    ensures
        !has_move(b, 0),
        !has_move(b, 1),
        score(b, 0, 1, 1, 1) + score(b, 1, 1, 1, 1) == 64,
{
    lemma_counts_add_up(b, 64);
    lemma_no_empty_cell_counts(b, 64);
    assert forall|k: int| 0 <= k < 64 implies !#[trigger] is_legal(b, 0, k / 8, k % 8) by {
        assert(b[(k / 8) * 8 + k % 8] != PLACEHOLDER);
    }
    assert forall|k: int| 0 <= k < 64 implies !#[trigger] is_legal(b, 1, k / 8, k % 8) by {
        assert(b[(k / 8) * 8 + k % 8] != PLACEHOLDER);
    }
}

/// Where none of the first `n` cells is empty, their count of empty cells
/// is 0.
pub proof fn lemma_no_empty_cell_counts(b: Seq<u8>, n: nat)
    requires
        n <= 64,
        forall|k: int| 0 <= k < 64 ==> #[trigger] b[k] != PLACEHOLDER,
    ensures
        score_upto(b, PLACEHOLDER, 1, 1, 1, n) == 0,
    decreases n,
{
    if n > 0 {
        lemma_no_empty_cell_counts(b, (n - 1) as nat);
    }
}

/// After a legal move a cell is empty exactly if it was empty before and is
/// not the cell played; and every cell holds what it held, or the player's
/// piece.
pub proof fn lemma_played_cells(b: Seq<u8>, player: u8, r: int, c: int, k: int)
    requires
        player <= 1,
        b.len() == 64,
        is_legal(b, player, r, c),
        0 <= k < 64,
    ensures
        played(b, player, r, c)[k] == player || played(b, player, r, c)[k] == b[k],
        played(b, player, r, c)[r * 8 + c] == player,
        played(b, player, r, c)[k] == PLACEHOLDER <==> b[k] == PLACEHOLDER && k != r * 8 + c,
{
    let taken = flips(b, player, r, c);
    let q = pos(k / 8, k % 8);
    if taken.contains(q) {
        let i = choose|i: int| 0 <= i < taken.len() && taken[i] == q;
        lemma_flips_cells(b, player, r, c, 8);
        assert(holds(b, taken[i], 1 - player));
    }
}

/// A legal move fills one cell: on the first `n` cells there is one empty
/// cell fewer if the cell played is among them, and as many as before if
/// not.
pub proof fn lemma_move_fills_a_cell(b: Seq<u8>, player: u8, r: int, c: int, n: nat)
    requires
        player <= 1,
        b.len() == 64,
        is_legal(b, player, r, c),
        n <= 64,
    ensures
        score_upto(played(b, player, r, c), PLACEHOLDER, 1, 1, 1, n) == score_upto(
            b,
            PLACEHOLDER,
            1,
            1,
            1,
            n,
        ) - if r * 8 + c < n {
            1int
        } else {
            0int
        },
    decreases n,
{
    if n > 0 {
        lemma_move_fills_a_cell(b, player, r, c, (n - 1) as nat);
        lemma_played_cells(b, player, r, c, n - 1);
    }
}

/// The value of the replies is the least: it is at most the value of having
/// no reply and the value of each reply that counts, and it is one of these.
pub proof fn lemma_worst_is_least(
    b0: Seq<u8>,
    b1: Seq<u8>,
    opponent: u8,
    corner: int,
    edge: int,
    other: int,
    base: int,
    n: nat,
)
    ensures
        worst_upto(b0, b1, opponent, corner, edge, other, base, n)
            <= DEFAULT_BEST_WORST_CASE_SCORE,
        forall|k: int|
            0 <= k < n && #[trigger] reply_counts(b0, b1, opponent, k) ==> worst_upto(
                b0,
                b1,
                opponent,
                corner,
                edge,
                other,
                base,
                n,
            ) <= reply_value(b1, opponent, corner, edge, other, base, k),
        worst_upto(b0, b1, opponent, corner, edge, other, base, n)
            == DEFAULT_BEST_WORST_CASE_SCORE || exists|k: int|
            0 <= k < n && #[trigger] reply_counts(b0, b1, opponent, k) && worst_upto(
                b0,
                b1,
                opponent,
                corner,
                edge,
                other,
                base,
                n,
            ) == reply_value(b1, opponent, corner, edge, other, base, k),
    decreases n,
{
    if n > 0 {
        let m = (n - 1) as nat;
        lemma_worst_is_least(b0, b1, opponent, corner, edge, other, base, m);
        let before = worst_upto(b0, b1, opponent, corner, edge, other, base, m);
        let now = worst_upto(b0, b1, opponent, corner, edge, other, base, n);
        if now != DEFAULT_BEST_WORST_CASE_SCORE {
            if now == before {
                let k = choose|k: int|
                    0 <= k < m && #[trigger] reply_counts(b0, b1, opponent, k) && before
                        == reply_value(b1, opponent, corner, edge, other, base, k);
                assert(reply_counts(b0, b1, opponent, k) && now == reply_value(
                    b1,
                    opponent,
                    corner,
                    edge,
                    other,
                    base,
                    k,
                ));
            } else {
                assert(reply_counts(b0, b1, opponent, m as int));
            }
        }
    }
}

} // verus!
