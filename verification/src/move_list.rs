//! A list of at most seven columns, held without allocation.

use vstd::prelude::*;
use crate::{Column, COLUMNS};

verus! {

/// The moves open in a position, in the order in which they are to be tried.
#[derive(Copy, Clone, Debug, PartialEq, Eq)]
pub struct MoveList {
    pub moves: [Option<Column>; 7],
    pub len: u8,
}

impl View for MoveList {
    type V = Seq<Column>;

    /// The listed columns, in order.
    open spec fn view(&self) -> Seq<Column> {
        Seq::new(self.len as nat, |i: int| self.moves@[i].unwrap())
    }
}

impl MoveList {
    /// The first `len` slots are taken and the others are free.
    pub open spec fn wf(&self) -> bool {
        &&& self.len <= 7
        &&& forall|i: int| 0 <= i < 7 ==> (#[trigger] self.moves@[i] is Some <==> i < self.len)
    }

    /// Whether the list is well formed.
    pub fn is_well_formed(&self) -> (r: bool)
        ensures
            r == self.wf(),
    {
        if self.len > 7 {
            return false;
        }
        let mut i: usize = 0;
        while i < 7
            invariant
                i <= 7,
                self.len <= 7,
                forall|j: int| 0 <= j < i ==> (#[trigger] self.moves@[j] is Some <==> j < self.len),
            decreases 7 - i,
        {
            if self.moves[i].is_some() != (i < self.len as usize) {
                assert(!(self.moves@[i as int] is Some <==> i < self.len));
                return false;
            }
            i += 1;
        }
        true
    }

    /// All seven columns, the centre first.
    pub fn full() -> (r: MoveList)
        ensures
            r.wf(),
            r@ == COLUMNS@,
    {
        MoveList::from(COLUMNS.as_slice())
    }

    /// The list that holds `moves`, in their order.
    pub fn from(moves: &[Column]) -> (r: MoveList)
        requires
            moves@.len() <= 7,
        ensures
            r.wf(),
            r@ == moves@,
    {
        let mut ml: [Option<Column>; 7] = [None;7];
        let mut i: usize = 0;
        while i < 7
            invariant
                i <= 7,
                moves@.len() <= 7,
                forall|j: int| 0 <= j < i && j < moves@.len() ==> ml@[j] == Some(moves@[j]),
                forall|j: int| 0 <= j < 7 && (j >= i || j >= moves@.len()) ==> ml@[j] is None,
            decreases 7 - i,
        {
            if i < moves.len() {
                ml[i] = Some(moves[i]);
            } else {
                ml[i] = None;
            }
            i += 1;
        }
        let r = MoveList { moves: ml, len: moves.len() as u8 };
        assert(r@ =~= moves@);
        r
    }

    /// How many moves are listed.
    pub fn len(&self) -> (r: u8)
        ensures
            r == self.len,
            self.wf() ==> r == self@.len(),
    {
        self.len
    }

    /// The move at place `index`.
    pub fn at(&self, index: usize) -> (r: u8)
        requires
            self.wf(),
            index < self@.len(),
        ensures
            r == self@[index as int],
    {
        self.moves[index].unwrap()
    }

    /// The listed moves as a vector.
    pub fn moves(&self) -> (r: Vec<Column>)
        requires
            self.wf(),
        ensures
            r@ == self@,
    {
        let mut moves: Vec<Column> = Vec::new();
        let mut index: usize = 0;
        while index < 7
            invariant
                self.wf(),
                index <= 7,
                index <= self.len,
                moves@ == self@.take(index as int),
            decreases 7 - index,
        {
            match self.moves[index] {
                Some(column) => {
                    moves.push(column);
                },
                None => {
                    assert(moves@ =~= self@);
                    return moves;
                },
            }
            index += 1;
            assert(moves@ =~= self@.take(index as int));
        }
        assert(moves@ =~= self@);
        moves
    }
}

} // verus!
