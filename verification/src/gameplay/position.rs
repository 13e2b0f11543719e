use vstd::prelude::*;
use vstd::string::StrSliceExecFns;

verus! {

/// A cell of the board, or a step from one cell to another.
#[derive(Clone, Copy, Debug, PartialEq, Eq)]
pub struct IPosition {
    /// The column, counted from the left.
    pub rightwards: i8,
    /// The row, counted from the top.
    pub downwards: i8,
}

pub type IPositionOption = Option<IPosition>;

/// The position at row `r`, column `c`.
pub open spec fn pos(r: int, c: int) -> IPosition {
    IPosition { rightwards: c as i8, downwards: r as i8 }
}

/// The cell with the row-major index `i`, if there is one.
pub open spec fn position_at(i: int) -> Option<IPosition> {
    if 0 <= i < 64 {
        Some(pos(i / 8, i % 8))
    } else {
        None
    }
}

/// The cell that a file letter and a rank digit denote: a letter from 'a' to
/// 'h' gives the column, a digit from '1' to '8' the row.
pub open spec fn position_of_chars(file: char, rank: char) -> Option<IPosition> {
    if 'a' <= file <= 'h' && '1' <= rank <= '8' {
        Some(pos(rank as int - '1' as int, file as int - 'a' as int))
    } else {
        None
    }
}

/// What a label denotes: the cell of its first two characters, and nothing
/// where it has fewer.
pub open spec fn position_of_label(s: Seq<char>) -> Option<IPosition> {
    if s.len() >= 2 {
        position_of_chars(s[0], s[1])
    } else {
        None
    }
}

/// The cell that a file letter and a rank digit denote, if they denote one.
pub fn position_from_chars(file: char, rank: char) -> (p: IPositionOption)
    ensures
        p == position_of_chars(file, rank),
        p is Some ==> p->0.is_cell(),
{
    if file < 'a' || file > 'h' || rank < '1' || rank > '8' {
        return None;
    }
    let rightwards: u8 = (file as u8) - ('a' as u8);
    let downwards: u8 = (rank as u8) - ('1' as u8);
    Some(IPosition { rightwards: rightwards as i8, downwards: downwards as i8 })
}

impl IPosition {
    /// Whether the position names a cell of the board.
    pub open spec fn is_cell(&self) -> bool {
        0 <= self.rightwards < 8 && 0 <= self.downwards < 8
    }

    /// The row-major index of a cell.
    pub open spec fn index(&self) -> int {
        self.downwards * 8 + self.rightwards
    }

    /// Moves this position by the step `other`.
    pub fn add(&mut self, other: IPosition)
        requires
            i8::MIN <= old(self).rightwards + other.rightwards <= i8::MAX,
            i8::MIN <= old(self).downwards + other.downwards <= i8::MAX,
        ensures
            final(self).rightwards == old(self).rightwards + other.rightwards,
            final(self).downwards == old(self).downwards + other.downwards,
    {
        self.rightwards = self.rightwards + other.rightwards;
        self.downwards = self.downwards + other.downwards;
    }

    /// A copy of the position.
    pub fn duplicate(&self) -> (copy: IPosition)
        ensures
            copy == *self,
    {
        IPosition { rightwards: self.rightwards, downwards: self.downwards }
    }

    /// The row-major index of a cell of the board.
    pub fn to_piece_index(&self) -> (i: usize)
        requires
            self.is_cell(),
        ensures
            i == self.index(),
            i < 64,
    {
        (self.downwards as usize) * 8 + (self.rightwards as usize)
    }

    /// Reads a label such as "a1" (index 0) or "h8" (index 63). Only the first
    /// two characters count; a shorter text names no cell.
    pub fn position_from_string_position(position: &str) -> (p: IPositionOption)
        ensures
            p == position_of_label(position@),
            p is Some ==> p->0.is_cell(),
    {
        if position.unicode_len() < 2 {
            return None;
        }
        position_from_chars(position.get_char(0), position.get_char(1))
    }

    /// The cell with the row-major index `piece_index`; none where the index
    /// is negative or past the last cell.
    pub fn position_from_piece_index(piece_index: i8) -> (p: IPositionOption)
        ensures
            p == position_at(piece_index as int),
            p is Some <==> 0 <= piece_index < 64,
            p is Some ==> p->0.is_cell() && p->0.index() == piece_index,
    {
        if piece_index < 0 || piece_index >= 64 {
            return None;
        }
        Some(IPosition { downwards: piece_index / 8, rightwards: piece_index % 8 })
    }
}

/// Turning a cell into its index and back gives the cell again, and every
/// index from 0 to 63 is the index of the cell it denotes.
pub proof fn lemma_index_round_trip(p: IPosition)
    requires
        p.is_cell(),
    ensures
        0 <= p.index() < 64,
        position_at(p.index()) == Some(p),
{
    let i = p.index();
    assert(i / 8 == p.downwards && i % 8 == p.rightwards);
}

/// Every index that denotes a cell is the index of that cell, and no index
/// outside 0..64 denotes one.
pub proof fn lemma_position_round_trip(i: int)
    ensures
        0 <= i < 64 ==> position_at(i)->0.is_cell() && position_at(i)->0.index() == i,
        !(0 <= i < 64) ==> position_at(i) is None,
{
}

} // verus!
