use vstd::prelude::*;
use super::constants::{DEFAULT_CORNER_SCORE, DEFAULT_EDGE_SCORE, DEFAULT_OTHER_SCORE};
use super::game::{all_cells, cells, piece_at, IBoard, IPlayer};
use super::position::{pos, IPosition};
use super::utils::{
    has_move, is_legal, is_piece_placeholder, lemma_worst_case_fits, worst_case,
    worst_score_by_playing_piece_at_index,
};

verus! {

/// The value above every worst case, with which the search starts.
pub const NO_CANDIDATE_SCORE: i16 = 32767;

/// The worst case, under the default weights, of playing at the cell with
/// index `k`.
pub open spec fn default_worst_case(b: Seq<u8>, player: u8, k: int) -> Option<int> {
    worst_case(
        b,
        player,
        k / 8,
        k % 8,
        DEFAULT_CORNER_SCORE as int,
        DEFAULT_EDGE_SCORE as int,
        DEFAULT_OTHER_SCORE as int,
    )
}

/// The least worst case among the legal moves on the first `n` cells.
pub open spec fn least_worst_case(b: Seq<u8>, player: u8, n: nat) -> int
    decreases n,
{
    if n == 0 {
        NO_CANDIDATE_SCORE as int
    } else {
        let before = least_worst_case(b, player, (n - 1) as nat);
        match default_worst_case(b, player, n - 1) {
            Some(w) => if w < before {
                w
            } else {
                before
            },
            None => before,
        }
    }
}

/// The test that picks, out of the cells, the legal moves whose worst case is
/// `least`.
pub open spec fn worst_case_is(b: Seq<u8>, player: u8, least: int) -> spec_fn(IPosition) -> bool {
    |p: IPosition| default_worst_case(b, player, p.index()) == Some(least)
}

/// The moves recommended to `player`: of the cells in row-major order, the
/// legal moves whose worst case is the least that a legal move has.
pub open spec fn recommended(b: Seq<u8>, player: u8) -> Seq<IPosition> {
    all_cells().filter(worst_case_is(b, player, least_worst_case(b, player, 64)))
}

/// The recommended moves as they are gathered cell by cell: on the first `n`
/// cells, the list starts anew at each legal move whose worst case is below
/// the least so far, and grows by each whose worst case equals it.
pub open spec fn recommended_upto(b: Seq<u8>, player: u8, n: nat) -> Seq<IPosition>
    decreases n,
{
    if n == 0 {
        Seq::empty()
    } else {
        let k = n - 1;
        let before = recommended_upto(b, player, k as nat);
        match default_worst_case(b, player, k) {
            Some(w) => if w < least_worst_case(b, player, k as nat) {
                seq![pos(k / 8, k % 8)]
            } else if w == least_worst_case(b, player, k as nat) {
                before.push(pos(k / 8, k % 8))
            } else {
                before
            },
            None => before,
        }
    }
}

/// A recommended move is legal and its worst case is the least of all; and
/// each legal move with that worst case is recommended.
pub proof fn lemma_recommended_are_best(b: Seq<u8>, player: u8, n: nat)
    requires
        n <= 64,
    ensures
        forall|k: int|
            0 <= k < 64 ==> (#[trigger] recommended_upto(b, player, n).contains(pos(k / 8, k % 8))
                <==> k < n && is_legal(b, player, k / 8, k % 8) && default_worst_case(
                b,
                player,
                k,
            ) == Some(least_worst_case(b, player, n))),
        forall|k: int|
            0 <= k < n && default_worst_case(b, player, k) is Some ==> least_worst_case(
                b,
                player,
                n,
            ) <= (#[trigger] default_worst_case(b, player, k))->0,
        forall|i: int|
            0 <= i < recommended_upto(b, player, n).len() ==> (#[trigger] recommended_upto(
                b,
                player,
                n,
            )[i]).is_cell(),
    decreases n,
{
    if n > 0 {
        let m = (n - 1) as nat;
        lemma_recommended_are_best(b, player, m);
        lemma_worst_case_fits(
            b,
            player,
            m as int / 8,
            m as int % 8,
            DEFAULT_CORNER_SCORE as int,
            DEFAULT_EDGE_SCORE as int,
            DEFAULT_OTHER_SCORE as int,
        );
        let before = recommended_upto(b, player, m);
        let now = recommended_upto(b, player, n);
        let here = pos(m as int / 8, m as int % 8);
        assert forall|k: int| 0 <= k < 64 implies (#[trigger] now.contains(pos(k / 8, k % 8))
            <==> k < n && is_legal(b, player, k / 8, k % 8) && default_worst_case(b, player, k)
            == Some(least_worst_case(b, player, n))) by {
            let q = pos(k / 8, k % 8);
            assert(q == here <==> k == m);
            assert(before.contains(q) <==> k < m && is_legal(b, player, k / 8, k % 8)
                && default_worst_case(b, player, k) == Some(least_worst_case(b, player, m)));
            match default_worst_case(b, player, m as int) {
                Some(w) => {
                    if w < least_worst_case(b, player, m) {
                        assert(now =~= seq![here]);
                        assert(now[0] == here);
                    } else if w == least_worst_case(b, player, m) {
                        assert(now =~= before.push(here));
                        assert(now[before.len() as int] == here);
                        if before.contains(q) {
                            let j = choose|j: int| 0 <= j < before.len() && before[j] == q;
                            assert(now[j] == q);
                        }
                        if now.contains(q) && q != here {
                            let j = choose|j: int| 0 <= j < now.len() && now[j] == q;
                            assert(before[j] == q);
                        }
                    }
                },
                None => {},
            }
        }
        assert forall|i: int| 0 <= i < now.len() implies (#[trigger] now[i]).is_cell() by {
            if i < before.len() && now.len() >= before.len() {
                assert(now[i] == before[i] || now[i] == here);
            }
        }
    }
}

/// The least worst case is the worst case of a legal move, unless there is
/// no legal move.
pub proof fn lemma_least_is_attained(b: Seq<u8>, player: u8, n: nat)
    requires
        n <= 64,
    ensures
        (exists|k: int| 0 <= k < n && #[trigger] default_worst_case(b, player, k) == Some(
            least_worst_case(b, player, n),
        )) || ((forall|k: int| 0 <= k < n ==> #[trigger] default_worst_case(b, player, k) is None)
            && least_worst_case(b, player, n) == NO_CANDIDATE_SCORE),
    decreases n,
{
    if n > 0 {
        let m = (n - 1) as nat;
        lemma_least_is_attained(b, player, m);
        lemma_worst_case_fits(
            b,
            player,
            m as int / 8,
            m as int % 8,
            DEFAULT_CORNER_SCORE as int,
            DEFAULT_EDGE_SCORE as int,
            DEFAULT_OTHER_SCORE as int,
        );
        match default_worst_case(b, player, m as int) {
            Some(w) => {
                if w < least_worst_case(b, player, m) {
                    assert(default_worst_case(b, player, m as int) == Some(
                        least_worst_case(b, player, n),
                    ));
                } else {
                    if least_worst_case(b, player, m) == NO_CANDIDATE_SCORE {
                        assert(false);
                    }
                    let k = choose|k: int|
                        0 <= k < m && #[trigger] default_worst_case(b, player, k) == Some(
                            least_worst_case(b, player, m),
                        );
                    assert(default_worst_case(b, player, k) == Some(
                        least_worst_case(b, player, n),
                    ));
                }
            },
            None => {
                if exists|k: int|
                    0 <= k < m && #[trigger] default_worst_case(b, player, k) == Some(
                        least_worst_case(b, player, m),
                    ) {
                    let k = choose|k: int|
                        0 <= k < m && #[trigger] default_worst_case(b, player, k) == Some(
                            least_worst_case(b, player, m),
                        );
                    assert(default_worst_case(b, player, k) == Some(
                        least_worst_case(b, player, n),
                    ));
                }
            },
        }
    }
}

/// The recommended moves on the first `n` cells are those of these cells,
/// in row-major order, that are legal moves with the least worst case.
pub proof fn lemma_recommended_is_selection(b: Seq<u8>, player: u8, n: nat)
    requires
        n <= 64,
    ensures
        recommended_upto(b, player, n) == all_cells().take(n as int).filter(
            worst_case_is(b, player, least_worst_case(b, player, n)),
        ),
    decreases n,
{
    reveal(Seq::filter);
    let now = all_cells().take(n as int);
    if n == 0 {
        assert(now.filter(worst_case_is(b, player, least_worst_case(b, player, n)))
            =~= Seq::<IPosition>::empty());
    } else {
        let m = (n - 1) as nat;
        lemma_recommended_is_selection(b, player, m);
        lemma_recommended_are_best(b, player, m);
        let before = all_cells().take(m as int);
        let here = pos(m as int / 8, m as int % 8);
        let old_test = worst_case_is(b, player, least_worst_case(b, player, m));
        let new_test = worst_case_is(b, player, least_worst_case(b, player, n));
        assert(now.drop_last() =~= before);
        assert(now.last() == here);
        assert(here.index() == m);
        if least_worst_case(b, player, n) < least_worst_case(b, player, m) {
            let kept = before.filter(new_test);
            if kept.len() > 0 {
                before.lemma_filter_pred(new_test, 0);
                assert(kept.contains(kept[0]));
                before.lemma_filter_contains_rev(new_test, kept[0]);
                let k = choose|k: int| 0 <= k < before.len() && before[k] == kept[0];
                assert(kept[0].index() == k);
                assert(default_worst_case(b, player, k) is Some);
            }
            assert(kept =~= Seq::<IPosition>::empty());
            assert(kept.push(here) =~= seq![here]);
        }
    }
}

/// A move is recommended exactly where the player has a move: the list is
/// empty if and only if no move is legal. No move is recommended on a taken
/// cell, and every recommended move is legal.
pub proof fn lemma_recommended_iff_has_move(b: Seq<u8>, player: u8)
    ensures
        recommended(b, player).len() > 0 <==> has_move(b, player),
        forall|i: int|
            0 <= i < recommended(b, player).len() ==> is_legal(
                b,
                player,
                (#[trigger] recommended(b, player)[i]).downwards as int,
                recommended(b, player)[i].rightwards as int,
            ),
{
    let list = recommended(b, player);
    lemma_recommended_is_selection(b, player, 64);
    assert(all_cells().take(64) =~= all_cells());
    lemma_recommended_are_best(b, player, 64);
    lemma_least_is_attained(b, player, 64);
    assert forall|i: int| 0 <= i < list.len() implies is_legal(
        b,
        player,
        (#[trigger] list[i]).downwards as int,
        list[i].rightwards as int,
    ) by {
        let p = list[i];
        let k = p.index();
        assert(p == pos(k / 8, k % 8));
        assert(list.contains(pos(k / 8, k % 8)));
    }
    if list.len() > 0 {
        let p = list[0];
        let k = p.index();
        assert(is_legal(b, player, k / 8, k % 8));
    }
    if has_move(b, player) {
        let j = choose|j: int| 0 <= j < 64 && #[trigger] is_legal(b, player, j / 8, j % 8);
        assert(default_worst_case(b, player, j) is Some);
        let k = choose|k: int|
            0 <= k < 64 && #[trigger] default_worst_case(b, player, k) == Some(
                least_worst_case(b, player, 64),
            );
        assert(list.contains(pos(k / 8, k % 8)));
    }
}

/// The moves recommended to `player` on `board` by a search one reply deep:
/// of the legal moves those with the least worst case under the default
/// weights, in row-major order. None where the player cannot move.
pub fn suggest_moves_rules_based(board: IBoard, player: IPlayer) -> (best_moves: Vec<IPosition>)
    requires
        player <= 1,
    ensures
        best_moves@ == recommended(cells(board), player),
{
    let mut best_moves: Vec<IPosition> = Vec::new();
    let mut best_worst_case_score: i16 = NO_CANDIDATE_SCORE;
    let mut k: usize = 0;
    while k < 64
        invariant
            k <= 64,
            player <= 1,
            best_worst_case_score == least_worst_case(cells(board), player, k as nat),
            best_moves@ == recommended_upto(cells(board), player, k as nat),
        decreases 64 - k,
    {
        let row: usize = k / 8;
        let col: usize = k % 8;
        proof {
            lemma_worst_case_fits(
                cells(board),
                player,
                row as int,
                col as int,
                DEFAULT_CORNER_SCORE as int,
                DEFAULT_EDGE_SCORE as int,
                DEFAULT_OTHER_SCORE as int,
            );
        }
        if is_piece_placeholder(piece_at(&board, row, col)) {
            let position = IPosition { downwards: row as i8, rightwards: col as i8 };
            // make move and get score
            let worst_case_score = worst_score_by_playing_piece_at_index(
                board,
                position,
                player,
                DEFAULT_CORNER_SCORE,
                DEFAULT_EDGE_SCORE,
                DEFAULT_OTHER_SCORE,
            );
            match worst_case_score {
                Some(w) => {
                    if w < best_worst_case_score {
                        // better than the best so far: start the list anew
                        best_worst_case_score = w;
                        best_moves = Vec::new();
                        best_moves.push(position);
                    } else if w == best_worst_case_score {
                        best_moves.push(position);
                    }
                },
                None => {},
            }
        }
        k = k + 1;
    }
    proof {
        lemma_recommended_is_selection(cells(board), player, 64);
        assert(all_cells().take(64) =~= all_cells());
    }
    best_moves
}

} // verus!
