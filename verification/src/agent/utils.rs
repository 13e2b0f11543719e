use vstd::prelude::*;
use vstd::string::StrSliceExecFns;
use crate::gameplay::constants::INITIAL_BOARD;
use crate::gameplay::game::{cells, OthelloError};
use crate::gameplay::position::{position_from_chars, position_of_chars};
use crate::simulate::environment::{GameModel, OthelloEnvironment};
use crate::simulate::history::{texts, GameHistory};

verus! {

/// One game as it is written down: the cells played, one after the other,
/// each as a file letter and a rank digit.
#[allow(non_snake_case)]
pub struct RawRecord {
    pub eOthello_game_id: i32,
    pub winner: i8,
    pub game_moves: String,
}

/// A game before its first move: the starting board, player 0 to move,
/// nothing recorded.
pub open spec fn opening() -> GameModel {
    GameModel {
        board: cells(INITIAL_BOARD),
        turn: 0,
        boards: Seq::empty(),
        moves: Seq::empty(),
        score0: 0,
        score1: 0,
    }
}

/// The game after the first `n` moves of `labels` have been played from
/// `start`, or the reason why one of them was refused: a label that denotes
/// no cell, or the refusal of the step.
pub open spec fn replayed(start: GameModel, labels: Seq<char>, n: nat) -> Result<
    GameModel,
    OthelloError,
>
    decreases n,
{
    if n == 0 {
        Ok(start)
    } else {
        match replayed(start, labels, (n - 1) as nat) {
            Err(e) => Err(e),
            Ok(game) => match position_of_chars(labels[2 * (n - 1)], labels[2 * (n - 1) + 1]) {
                None => Err(OthelloError::InvalidPosition),
                Some(p) => match game.step(p.index() as usize).1 {
                    Err(e) => Err(e),
                    Ok(_) => Ok(game.step(p.index() as usize).0),
                },
            },
        }
    }
}

/// Plays a written game from the start and returns its record. The moves are
/// read two characters at a time; a character left over at the end is not
/// read. The first move that is refused ends the replay with its error.
pub fn raw_record_to_game_history(record: RawRecord) -> (history: Result<
    GameHistory,
    OthelloError,
>)
    requires
        record.game_moves@.len() / 2 < u16::MAX,
    ensures
        match replayed(opening(), record.game_moves@, (record.game_moves@.len() / 2) as nat) {
            Ok(game) => history is Ok && history->Ok_0.wf() && texts(
                history->Ok_0.board_history@,
            ) == game.boards && history->Ok_0.move_history@ == game.moves
                && history->Ok_0.agent0_score == game.score0 && history->Ok_0.agent1_score
                == game.score1,
            Err(e) => history == Err::<GameHistory, OthelloError>(e),
        },
{
    let mut env = OthelloEnvironment::new();
    let moves = record.game_moves.as_str();
    let n = moves.unicode_len() / 2;
    let mut i: usize = 0;
    assert(texts(env.current_game_history.board_history@) =~= Seq::<Seq<char>>::empty());
    assert(env.current_game_history.move_history@ =~= Seq::<usize>::empty());
    assert(env.model() == opening());
    while i < n
        invariant
            i <= n,
            n == moves@.len() / 2,
            n < u16::MAX,
            moves@ == record.game_moves@,
            env.wf(),
            env.current_game_history.total_moves <= i,
            replayed(opening(), moves@, i as nat) == Ok::<GameModel, OthelloError>(env.model()),
        decreases n - i,
    {
        let position = match position_from_chars(moves.get_char(2 * i), moves.get_char(2 * i + 1)) {
            Some(p) => p,
            None => {
                proof {
                    lemma_replay_stays_refused(opening(), moves@, (i + 1) as nat, n as nat);
                }
                return Err(OthelloError::InvalidPosition);
            },
        };
        match env.step(position.to_piece_index()) {
            Ok(_) => {},
            Err(e) => {
                proof {
                    lemma_replay_stays_refused(opening(), moves@, (i + 1) as nat, n as nat);
                }
                return Err(e);
            },
        }
        i = i + 1;
    }
    Ok(env.get_game_history())
}

/// Once a move has been refused, the replay of more moves is refused for the
/// same reason.
pub proof fn lemma_replay_stays_refused(start: GameModel, labels: Seq<char>, n: nat, m: nat)
    requires
        n <= m,
        replayed(start, labels, n) is Err,
    ensures
        replayed(start, labels, m) == replayed(start, labels, n),
    decreases m,
{
    if n < m {
        lemma_replay_stays_refused(start, labels, n, (m - 1) as nat);
    }
}

} // verus!
