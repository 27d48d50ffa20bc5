//! The connection between two neighbouring cells: open or walled.
use vstd::prelude::*;
use crate::maze_maker::grids::CellCoord;

verus! {

pub enum CellConnectionStatus {
    Open,
    Wall,
}

/// Two cells and whether a wall stands between them.
pub struct CellConnection {
    pub cell_1: CellCoord,
    pub cell_2: CellCoord,
    status: CellConnectionStatus,
}

impl CellConnectionStatus {
    pub fn is_wall(&self) -> (r: bool)
        ensures
            r == (*self is Wall),
    {
        match *self {
            CellConnectionStatus::Open => false,
            CellConnectionStatus::Wall => true,
        }
    }

    pub fn is_open(&self) -> (r: bool)
        ensures
            r == (*self is Open),
    {
        match *self {
            CellConnectionStatus::Open => true,
            CellConnectionStatus::Wall => false,
        }
    }
}

impl CellConnection {
    /// The two cells connected.
    pub closed spec fn ends(&self) -> (CellCoord, CellCoord) {
        (self.cell_1, self.cell_2)
    }

    /// Whether the connection is open.
    pub closed spec fn open(&self) -> bool {
        self.status is Open
    }

    /// A walled connection between `c1` and `c2`.
    pub fn new(c1: CellCoord, c2: CellCoord) -> (c: CellConnection)
        ensures
            c.ends() == (c1, c2),
            !c.open(),
    {
        CellConnection { cell_1: c1, cell_2: c2, status: CellConnectionStatus::Wall }
    }

    pub fn is_open(&self) -> (r: bool)
        ensures
            r == self.open(),
    {
        self.status.is_open()
    }

    pub fn is_wall(&self) -> (r: bool)
        ensures
            r == !self.open(),
    {
        self.status.is_wall()
    }
}

/// A connection is either open or walled, never both.
pub proof fn lemma_status_open_or_wall(s: CellConnectionStatus)
    ensures
        (s is Open) != (s is Wall),
{
}

} // verus!
