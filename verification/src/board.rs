use std::collections::HashMap;
use vstd::std_specs::iter::IteratorSpec;
use crate::hero::{label_index, step_coords};
use crate::protocol::{CellState, direction_dc, direction_dr, direction_label, text};
use vstd::prelude::*;
use vstd::string::*;

verus! {

broadcast use vstd::std_specs::hash::group_hash_axioms;

/// A square grid of cells, each empty or holding the id of one hero, and the
/// position recorded for each hero.
pub struct Board {
    cells: Vec<Vec<Option<u32>>>,
    positions: HashMap<u32, (usize, usize)>,
}

/// The mathematical content of a [`Board`].
pub struct BoardView {
    pub cells: Seq<Seq<Option<u32>>>,
    pub positions: Map<u32, (usize, usize)>,
}

impl BoardView {
    pub open spec fn size(self) -> nat {
        self.cells.len()
    }

    pub open spec fn in_bounds(self, r: int, c: int) -> bool {
        0 <= r < self.size() && 0 <= c < self.size()
    }

    pub open spec fn at(self, r: int, c: int) -> Option<u32> {
        self.cells[r][c]
    }

    /// The grid is square and every recorded position lies on it.
    pub open spec fn wf(self) -> bool {
        &&& self.size() <= usize::MAX
        &&& forall|r: int| 0 <= r < self.size() ==> (#[trigger] self.cells[r]).len() == self.size()
        &&& forall|id: u32| #[trigger]
            self.positions.contains_key(id) ==> self.in_bounds(
                self.positions[id].0 as int,
                self.positions[id].1 as int,
            )
    }

    /// The grid and the recorded positions tell the same story: a hero is
    /// recorded at a cell exactly when the cell holds it.
    pub open spec fn consistent(self) -> bool {
        &&& forall|id: u32| #[trigger]
            self.positions.contains_key(id) ==> self.at(
                self.positions[id].0 as int,
                self.positions[id].1 as int,
            ) == Some(id)
        &&& forall|r: int, c: int|
            self.in_bounds(r, c) && (#[trigger] self.at(r, c)) is Some ==> {
                let id = self.at(r, c)->0;
                self.positions.contains_key(id) && self.positions[id] == (r as usize, c as usize)
            }
    }

    /// The grid with cell `(r, c)` set to `v`.
    pub open spec fn set(self, r: int, c: int, v: Option<u32>) -> Seq<Seq<Option<u32>>> {
        self.cells.update(r, self.cells[r].update(c, v))
    }

    /// Whether cell `(r, c)` is on the board and empty.
    pub open spec fn is_free(self, r: int, c: int) -> bool {
        self.in_bounds(r, c) && self.at(r, c) is None
    }
}

/// Free cells of row `r` among columns `c0..=c1`, left to right.
pub open spec fn free_in_row(v: BoardView, r: int, c0: int, c1: int) -> Seq<(usize, usize)>
    decreases c1 - c0 + 1,
{
    if c1 < c0 {
        Seq::empty()
    } else {
        free_in_row(v, r, c0, c1 - 1) + if v.at(r, c1) is None {
            seq![(r as usize, c1 as usize)]
        } else {
            Seq::empty()
        }
    }
}

/// Free cells of the rectangle of rows `r0..=r1` and columns `c0..=c1`, row
/// by row.
pub open spec fn free_in_rect(v: BoardView, r0: int, r1: int, c0: int, c1: int) -> Seq<
    (usize, usize),
>
    decreases r1 - r0 + 1,
{
    if r1 < r0 {
        Seq::empty()
    } else {
        free_in_rect(v, r0, r1 - 1, c0, c1) + free_in_row(v, r1, c0, c1)
    }
}

proof fn lemma_free_in_row(v: BoardView, r: int, c0: int, c1: int)
    requires
        0 <= c0,
        0 <= r <= usize::MAX,
        c1 <= usize::MAX,
    ensures
        forall|p: (usize, usize)| #[trigger]
            free_in_row(v, r, c0, c1).contains(p) <==> (p.0 == r && c0 <= p.1 <= c1 && v.at(
                r,
                p.1 as int,
            ) is None),
    decreases c1 - c0 + 1,
{
    if c1 >= c0 {
        lemma_free_in_row(v, r, c0, c1 - 1);
        let prev = free_in_row(v, r, c0, c1 - 1);
        let tail = if v.at(r, c1) is None {
            seq![(r as usize, c1 as usize)]
        } else {
            Seq::<(usize, usize)>::empty()
        };
        assert forall|p: (usize, usize)| #[trigger]
            free_in_row(v, r, c0, c1).contains(p) <==> (p.0 == r && c0 <= p.1 <= c1 && v.at(
                r,
                p.1 as int,
            ) is None) by {
            if (prev + tail).contains(p) {
                let i = choose|i: int| 0 <= i < (prev + tail).len() && (prev + tail)[i] == p;
                if i >= prev.len() {
                    assert(tail[i - prev.len()] == p);
                } else {
                    assert(prev[i] == p);
                    assert(prev.contains(p));
                }
            }
            if p.0 == r && c0 <= p.1 <= c1 && v.at(r, p.1 as int) is None {
                if p.1 == c1 {
                    assert((prev + tail)[prev.len() as int] == p);
                } else {
                    assert(prev.contains(p));
                    let j = choose|j: int| 0 <= j < prev.len() && prev[j] == p;
                    assert((prev + tail)[j] == p);
                }
            }
        }
    }
}

/// A cell is among the free cells of a rectangle exactly when it lies in the
/// rectangle and holds nobody.
pub proof fn lemma_free_in_rect(v: BoardView, r0: int, r1: int, c0: int, c1: int)
    requires
        0 <= r0,
        0 <= c0,
        r1 <= usize::MAX,
        c1 <= usize::MAX,
    ensures
        forall|p: (usize, usize)| #[trigger]
            free_in_rect(v, r0, r1, c0, c1).contains(p) <==> (r0 <= p.0 <= r1 && c0 <= p.1 <= c1
                && v.at(p.0 as int, p.1 as int) is None),
    decreases r1 - r0 + 1,
{
    if r1 >= r0 {
        lemma_free_in_rect(v, r0, r1 - 1, c0, c1);
        lemma_free_in_row(v, r1, c0, c1);
        let prev = free_in_rect(v, r0, r1 - 1, c0, c1);
        let tail = free_in_row(v, r1, c0, c1);
        assert forall|p: (usize, usize)| #[trigger]
            free_in_rect(v, r0, r1, c0, c1).contains(p) <==> (r0 <= p.0 <= r1 && c0 <= p.1 <= c1
                && v.at(p.0 as int, p.1 as int) is None) by {
            if (prev + tail).contains(p) {
                let i = choose|i: int| 0 <= i < (prev + tail).len() && (prev + tail)[i] == p;
                if i >= prev.len() {
                    assert(tail[i - prev.len()] == p);
                    assert(tail.contains(p));
                } else {
                    assert(prev[i] == p);
                    assert(prev.contains(p));
                }
            }
            if r0 <= p.0 <= r1 && c0 <= p.1 <= c1 && v.at(p.0 as int, p.1 as int) is None {
                if p.0 == r1 {
                    assert(tail.contains(p));
                    let j = choose|j: int| 0 <= j < tail.len() && tail[j] == p;
                    assert((prev + tail)[prev.len() + j] == p);
                } else {
                    assert(prev.contains(p));
                    let j = choose|j: int| 0 <= j < prev.len() && prev[j] == p;
                    assert((prev + tail)[j] == p);
                }
            }
        }
    }
}

proof fn lemma_free_in_rect_no_columns(v: BoardView, r0: int, r1: int, c0: int, c1: int)
    requires
        c1 < c0,
    ensures
        free_in_rect(v, r0, r1, c0, c1) =~= Seq::<(usize, usize)>::empty(),
    decreases r1 - r0 + 1,
{
    if r1 >= r0 {
        lemma_free_in_rect_no_columns(v, r0, r1 - 1, c0, c1);
    }
}

/// `cs` describes the neighbour of `(row, col)` in direction `i` (north,
/// south, east, west): a cell off the board counts as occupied by nobody.
pub open spec fn describes(v: BoardView, cs: CellState, i: int, row: int, col: int) -> bool {
    let nr = row + direction_dr(i);
    let nc = col + direction_dc(i);
    &&& cs.direction@ == direction_label(i)
    &&& if v.in_bounds(nr, nc) {
        &&& cs.in_bounds
        &&& cs.occupied == v.at(nr, nc) is Some
        &&& cs.client_id == v.at(nr, nc)
    } else {
        &&& !cs.in_bounds
        &&& cs.occupied
        &&& cs.client_id is None
    }
}

/// `cs` reports cell `(r, c)` of the grid: on the board, whether and by
/// whom it is occupied; off the board, as an occupied cell of nobody.
pub open spec fn reports(v: BoardView, cs: CellState, r: int, c: int) -> bool {
    if v.in_bounds(r, c) {
        &&& cs.in_bounds
        &&& cs.occupied == v.at(r, c) is Some
        &&& cs.client_id == v.at(r, c)
    } else {
        &&& !cs.in_bounds
        &&& cs.occupied
        &&& cs.client_id is None
    }
}

/// The neighbours of `(row, col)` come north, south, east, west; the one
/// labelled "N" is the cell `(row - 1, col)`, "S" the cell `(row + 1, col)`,
/// "E" the cell `(row, col + 1)` and "W" the cell `(row, col - 1)`. A
/// neighbour on the board is the very cell that a hero's step under its
/// label reaches.
pub proof fn lemma_neighbor_cells(v: BoardView, cs: CellState, i: int, row: usize, col: usize)
    requires
        v.wf(),
        0 <= i < 4,
        describes(v, cs, i, row as int, col as int),
    ensures
        i == 0 ==> cs.direction@ == "N"@,
        i == 1 ==> cs.direction@ == "S"@,
        i == 2 ==> cs.direction@ == "E"@,
        i == 3 ==> cs.direction@ == "W"@,
        cs.direction@ == "N"@ ==> reports(v, cs, row - 1, col as int),
        cs.direction@ == "S"@ ==> reports(v, cs, row + 1, col as int),
        cs.direction@ == "E"@ ==> reports(v, cs, row as int, col + 1),
        cs.direction@ == "W"@ ==> reports(v, cs, row as int, col - 1),
        cs.in_bounds ==> {
            let (sr, sc) = step_coords(row, col, cs.direction@, false);
            v.in_bounds(sr as int, sc as int) && cs.client_id == v.at(sr as int, sc as int)
        },
{
    reveal_strlit("N");
    reveal_strlit("S");
    reveal_strlit("E");
    reveal_strlit("W");
    assert("N"@ =~= seq!['N']);
    assert("S"@ =~= seq!['S']);
    assert("E"@ =~= seq!['E']);
    assert("W"@ =~= seq!['W']);
    assert(seq!['N'][0] != seq!['S'][0]);
    assert(seq!['N'][0] != seq!['E'][0]);
    assert(seq!['N'][0] != seq!['W'][0]);
    assert(seq!['S'][0] != seq!['E'][0]);
    assert(seq!['S'][0] != seq!['W'][0]);
    assert(seq!['E'][0] != seq!['W'][0]);
    if cs.in_bounds {
        let (sr, sc) = step_coords(row, col, cs.direction@, false);
        if i == 0 {
            assert(label_index(cs.direction@) == 0);
            assert(sr == row - 1 && sc == col);
        } else if i == 1 {
            assert(label_index(cs.direction@) == 1);
            assert(v.in_bounds(row + 1, col as int));
            assert(sr == row + 1 && sc == col);
        } else if i == 2 {
            assert(label_index(cs.direction@) == 2);
            assert(v.in_bounds(row as int, col + 1));
            assert(sr == row && sc == col + 1);
        } else {
            assert(label_index(cs.direction@) == 3);
            assert(sr == row && sc == col - 1);
        }
    }
}

/// The grid after hero `id` leaves its recorded cell (if any) and stands on
/// `(r, c)`.
pub open spec fn relocated(b: BoardView, id: u32, r: int, c: int) -> BoardView {
    let cleared = if b.positions.contains_key(id) {
        b.set(b.positions[id].0 as int, b.positions[id].1 as int, None)
    } else {
        b.cells
    };
    BoardView {
        cells: cleared.update(r, cleared[r].update(c, Some(id))),
        positions: b.positions.insert(id, (r as usize, c as usize)),
    }
}

/// The grid after hero `id` is taken off it.
pub open spec fn taken(b: BoardView, id: u32) -> BoardView {
    BoardView {
        cells: if b.positions.contains_key(id) {
            b.set(b.positions[id].0 as int, b.positions[id].1 as int, None)
        } else {
            b.cells
        },
        positions: b.positions.remove(id),
    }
}

/// Moving a hero onto a free cell keeps the grid and the recorded positions
/// in agreement.
pub proof fn lemma_relocated_consistent(b: BoardView, id: u32, r: usize, c: usize)
    requires
        b.wf(),
        b.consistent(),
        b.is_free(r as int, c as int),
    ensures
        relocated(b, id, r as int, c as int).consistent(),
        relocated(b, id, r as int, c as int).wf(),
{
    let nb = relocated(b, id, r as int, c as int);
    let has = b.positions.contains_key(id);
    let op = b.positions[id];
    assert forall|k: u32| #[trigger] nb.positions.contains_key(k) implies nb.at(
        nb.positions[k].0 as int,
        nb.positions[k].1 as int,
    ) == Some(k) by {
        if k != id {
            let p = b.positions[k];
            assert(b.at(p.0 as int, p.1 as int) == Some(k));
            if has {
                assert(b.at(op.0 as int, op.1 as int) == Some(id));
            }
        }
    }
    assert forall|a: int, d: int| nb.in_bounds(a, d) && (#[trigger] nb.at(a, d)) is Some implies {
        let x = nb.at(a, d)->0;
        nb.positions.contains_key(x) && nb.positions[x] == (a as usize, d as usize)
    } by {
        if !(a == r && d == c) {
            if has && a == op.0 && d == op.1 {
            } else {
                assert(nb.at(a, d) == b.at(a, d));
                let x = b.at(a, d)->0;
                assert(b.positions.contains_key(x) && b.positions[x] == (a as usize, d as usize));
                if x == id {
                    assert(has && op.0 == a && op.1 == d);
                }
            }
        }
    }
    assert forall|i: int| 0 <= i < nb.size() implies (#[trigger] nb.cells[i]).len() == nb.size() by {}
}

/// Taking a hero off the board keeps the grid and the recorded positions in
/// agreement.
pub proof fn lemma_taken_consistent(b: BoardView, id: u32)
    requires
        b.wf(),
        b.consistent(),
    ensures
        taken(b, id).consistent(),
        taken(b, id).wf(),
{
    let nb = taken(b, id);
    let has = b.positions.contains_key(id);
    let op = b.positions[id];
    assert forall|k: u32| #[trigger] nb.positions.contains_key(k) implies nb.at(
        nb.positions[k].0 as int,
        nb.positions[k].1 as int,
    ) == Some(k) by {
        let p = b.positions[k];
        assert(b.at(p.0 as int, p.1 as int) == Some(k));
        if has {
            assert(b.at(op.0 as int, op.1 as int) == Some(id));
        }
    }
    assert forall|a: int, d: int| nb.in_bounds(a, d) && (#[trigger] nb.at(a, d)) is Some implies {
        let x = nb.at(a, d)->0;
        nb.positions.contains_key(x) && nb.positions[x] == (a as usize, d as usize)
    } by {
        if has && a == op.0 && d == op.1 {
        } else {
            assert(nb.at(a, d) == b.at(a, d));
            let x = b.at(a, d)->0;
            assert(b.positions.contains_key(x) && b.positions[x] == (a as usize, d as usize));
            if x == id {
                assert(has && op.0 == a && op.1 == d);
            }
        }
    }
    assert forall|i: int| 0 <= i < nb.size() implies (#[trigger] nb.cells[i]).len() == nb.size() by {}
}

impl View for Board {
    type V = BoardView;

    closed spec fn view(&self) -> BoardView {
        BoardView {
            cells: self.cells@.map_values(|row: Vec<Option<u32>>| row@),
            positions: self.positions@,
        }
    }
}

impl Board {
    /// An empty board of `size` by `size` cells.
    pub fn new(size: usize) -> (b: Board)
        ensures
            b@.wf(),
            b@.size() == size,
            b@.positions.is_empty(),
            forall|r: int, c: int| b@.in_bounds(r, c) ==> #[trigger] b@.at(r, c) is None,
    {
        let mut cells: Vec<Vec<Option<u32>>> = Vec::new();
        let mut i: usize = 0;
        while i < size
            invariant
                i <= size,
                cells@.len() == i,
                forall|r: int| 0 <= r < i ==> (#[trigger] cells@[r])@.len() == size,
                forall|r: int, c: int| 0 <= r < i && 0 <= c < size ==> #[trigger] cells@[r]@[c] is None,
            decreases size - i,
        {
            let mut row: Vec<Option<u32>> = Vec::new();
            let mut j: usize = 0;
            while j < size
                invariant
                    j <= size,
                    row@.len() == j,
                    forall|c: int| 0 <= c < j ==> #[trigger] row@[c] is None,
                decreases size - j,
            {
                row.push(None);
                j = j + 1;
            }
            cells.push(row);
            i = i + 1;
        }
        let b = Board { cells, positions: HashMap::new() };
        assert forall|r: int| 0 <= r < b@.size() implies (#[trigger] b@.cells[r]).len() == b@.size() by {
            assert(b@.cells[r] == cells@[r]@);
        }
        assert forall|r: int, c: int| b@.in_bounds(r, c) implies #[trigger] b@.at(r, c) is None by {
            assert(b@.cells[r] == cells@[r]@);
        }
        b
    }

    /// Number of rows (and of columns).
    pub fn size(&self) -> (n: usize)
        ensures
            n == self@.size(),
    {
        self.cells.len()
    }

    /// Who stands at `(r, c)`.
    pub fn occupant(&self, r: usize, c: usize) -> (o: Option<u32>)
        requires
            self@.wf(),
            self@.in_bounds(r as int, c as int),
        ensures
            o == self@.at(r as int, c as int),
    {
        assert(self@.cells[r as int] == self.cells@[r as int]@);
        self.cells[r][c]
    }

    /// The position recorded for hero `id`.
    pub fn position(&self, id: u32) -> (p: Option<(usize, usize)>)
        ensures
            match p {
                Some(pos) => self@.positions.contains_key(id) && self@.positions[id] == pos,
                None => !self@.positions.contains_key(id),
            },
    {
        match self.positions.get(&id) {
            Some(pos) => Some(*pos),
            None => None,
        }
    }

    /// Writes `v` into cell `(r, c)`; the recorded positions stay as they are.
    pub fn set_cell(&mut self, r: usize, c: usize, v: Option<u32>)
        requires
            old(self)@.wf(),
            old(self)@.in_bounds(r as int, c as int),
        ensures
            final(self)@.wf(),
            final(self)@.cells == old(self)@.set(r as int, c as int, v),
            final(self)@.positions == old(self)@.positions,
    {
        let ghost old_view = self@;
        let mut row: Vec<Option<u32>> = Vec::new();
        self.cells.set_and_swap(r, &mut row);
        assert(row@ == old_view.cells[r as int]);
        row.set(c, v);
        self.cells.set_and_swap(r, &mut row);
        assert forall|i: int| 0 <= i < self@.cells.len() implies #[trigger] self@.cells[i]
            == self.cells@[i]@ by {}
        assert(self@.cells =~= old_view.set(r as int, c as int, v)) by {
            assert forall|i: int| 0 <= i < self@.cells.len() implies self@.cells[i] == old_view.set(
                r as int,
                c as int,
                v,
            )[i] by {
                if i != r {
                    assert(self@.cells[i] == self.cells@[i]@);
                }
            }
        }
        assert(self@.positions == old_view.positions);
        assert(self@.size() == old_view.size());
        assert forall|i: int| 0 <= i < self@.size() implies (#[trigger] self@.cells[i]).len()
            == self@.size() by {
            if i != r {
                assert(self@.cells[i] == old_view.cells[i]);
            }
        }
    }

    /// Puts hero `id` on cell `(r, c)` and records the position.
    pub fn place(&mut self, id: u32, r: usize, c: usize)
        requires
            old(self)@.wf(),
            old(self)@.in_bounds(r as int, c as int),
        ensures
            final(self)@.wf(),
            final(self)@.cells == old(self)@.set(r as int, c as int, Some(id)),
            final(self)@.positions == old(self)@.positions.insert(id, (r, c)),
    {
        self.set_cell(r, c, Some(id));
        self.positions.insert(id, (r, c));
    }

    /// Forgets the position of hero `id` and empties the cell recorded for it.
    pub fn take(&mut self, id: u32) -> (p: Option<(usize, usize)>)
        requires
            old(self)@.wf(),
        ensures
            final(self)@.wf(),
            final(self)@.positions == old(self)@.positions.remove(id),
            match p {
                Some(pos) => {
                    &&& old(self)@.positions.contains_key(id)
                    &&& old(self)@.positions[id] == pos
                    &&& final(self)@.cells == old(self)@.set(pos.0 as int, pos.1 as int, None)
                },
                None => !old(self)@.positions.contains_key(id) && final(self)@.cells == old(
                    self,
                )@.cells,
            },
    {
        let ghost old_view = self@;
        let p = self.positions.remove(&id);
        assert(self.positions@ == old_view.positions.remove(id));
        assert(self@.positions == old_view.positions.remove(id));
        assert(self@.cells == old_view.cells);
        assert(self@.wf());
        match p {
            Some(pos) => {
                self.set_cell(pos.0, pos.1, None);
                Some(pos)
            },
            None => None,
        }
    }

    /// The free cells of rows `r0..=r1` and columns `c0..=c1`, row by row.
    pub fn free_cells(&self, r0: usize, r1: usize, c0: usize, c1: usize) -> (out: Vec<(usize, usize)>)
        requires
            self@.wf(),
            r0 <= r1 && c0 <= c1 ==> r1 < self@.size() && c1 < self@.size(),
        ensures
            out@ == free_in_rect(self@, r0 as int, r1 as int, c0 as int, c1 as int),
    {
        let mut out: Vec<(usize, usize)> = Vec::new();
        if r0 > r1 {
            return out;
        }
        if c0 > c1 {
            proof {
                lemma_free_in_rect_no_columns(self@, r0 as int, r1 as int, c0 as int, c1 as int);
            }
            return out;
        }
        let n = self.size();
        let mut r: usize = r0;
        while r <= r1
            invariant
                n == self@.size(),
                self@.wf(),
                r0 <= r <= r1 + 1,
                c0 <= c1,
                r1 < self@.size(),
                c1 < self@.size(),
                out@ == free_in_rect(self@, r0 as int, r as int - 1, c0 as int, c1 as int),
            decreases r1 + 1 - r,
        {
            let mut c: usize = c0;
            while c <= c1
                invariant
                    n == self@.size(),
                    self@.wf(),
                    r0 <= r <= r1,
                    c0 <= c <= c1 + 1,
                    r1 < self@.size(),
                    c1 < self@.size(),
                    out@ == free_in_rect(self@, r0 as int, r as int - 1, c0 as int, c1 as int)
                        + free_in_row(self@, r as int, c0 as int, c as int - 1),
                decreases c1 + 1 - c,
            {
                let ghost before = out@;
                if self.occupant(r, c).is_none() {
                    out.push((r, c));
                }
                assert(out@ == free_in_rect(self@, r0 as int, r as int - 1, c0 as int, c1 as int)
                    + free_in_row(self@, r as int, c0 as int, c as int)) by {
                    assert(free_in_rect(self@, r0 as int, r as int - 1, c0 as int, c1 as int)
                        + free_in_row(self@, r as int, c0 as int, c as int) =~= before + (
                    if self@.at(r as int, c as int) is None {
                        seq![(r, c)]
                    } else {
                        Seq::empty()
                    }));
                }
                c = c + 1;
            }
            r = r + 1;
        }
        out
    }

    /// What lies in direction `i` (north, south, east, west) of `(row, col)`.
    pub fn neighbor(&self, i: usize, row: usize, col: usize) -> (cs: CellState)
        requires
            self@.wf(),
            i < 4,
            row < isize::MAX,
            col < isize::MAX,
        ensures
            describes(self@, cs, i as int, row as int, col as int),
    {
        let n = self.size();
        let label = if i == 0 {
            text("N")
        } else if i == 1 {
            text("S")
        } else if i == 2 {
            text("E")
        } else {
            text("W")
        };
        let target: Option<(usize, usize)> = if i == 0 {
            if row >= 1 {
                Some((row - 1, col))
            } else {
                None
            }
        } else if i == 1 {
            Some((row + 1, col))
        } else if i == 2 {
            Some((row, col + 1))
        } else {
            if col >= 1 {
                Some((row, col - 1))
            } else {
                None
            }
        };
        match target {
            Some((nr, nc)) => {
                if nr < n && nc < n {
                    let o = self.occupant(nr, nc);
                    CellState { direction: label, in_bounds: true, occupied: o.is_some(), client_id: o }
                } else {
                    CellState { direction: label, in_bounds: false, occupied: true, client_id: None }
                }
            },
            None => CellState { direction: label, in_bounds: false, occupied: true, client_id: None },
        }
    }

    /// The four neighbours of `(row, col)`: north, south, east, west.
    pub fn neighbors(&self, row: usize, col: usize) -> (out: [CellState; 4])
        requires
            self@.wf(),
            row < isize::MAX,
            col < isize::MAX,
        ensures
            forall|i: int| 0 <= i < 4 ==> describes(self@, #[trigger] out@[i], i, row as int, col as int),
    {
        let n = self.neighbor(0, row, col);
        let s = self.neighbor(1, row, col);
        let e = self.neighbor(2, row, col);
        let w = self.neighbor(3, row, col);
        let out = [n, s, e, w];
        assert(out@[0] == n && out@[1] == s && out@[2] == e && out@[3] == w);
        out
    }

    /// Every recorded position as `(row, col, id)`, in the order in which
    /// the map of positions is walked.
    pub fn occupied(&self) -> (out: Vec<(usize, usize, u32)>)
        ensures
            out@.len() == self@.positions.dom().len(),
            forall|i: int| 0 <= i < out@.len() ==> {
                let (r, c, id) = #[trigger] out@[i];
                self@.positions.contains_key(id) && self@.positions[id] == (r, c)
            },
            forall|id: u32| #[trigger] self@.positions.contains_key(id) ==> exists|i: int|
                0 <= i < out@.len() && #[trigger] out@[i] == (self@.positions[id].0, self@.positions[id].1, id),
    {
        let mut out: Vec<(usize, usize, u32)> = Vec::new();
        let ghost seq = vstd::std_specs::hash::spec_hash_map_iter(&self.positions).remaining();
        for (k, v) in it: self.positions.iter()
            invariant
                it.seq() == seq,
                out@.len() == it.index(),
                forall|i: int| 0 <= i < out@.len() ==> #[trigger] out@[i] == (
                    it.seq()[i].1.0,
                    it.seq()[i].1.1,
                    *it.seq()[i].0,
                ),
        {
            out.push((v.0, v.1, *k));
        }
        proof {
            assert forall|i: int| 0 <= i < out@.len() implies {
                let (r, c, id) = #[trigger] out@[i];
                self@.positions.contains_key(id) && self@.positions[id] == (r, c)
            } by {
                assert(self.positions@.contains_key(*seq[i].0));
            }
            assert forall|id: u32| #[trigger] self@.positions.contains_key(id) implies exists|i: int|
                0 <= i < out@.len() && #[trigger] out@[i] == (self@.positions[id].0, self@.positions[id].1, id) by {
                assert(seq.contains((&id, &self.positions@[id])));
                let i = choose|i: int| 0 <= i < seq.len() && seq[i] == (&id, &self.positions@[id]);
                assert(out@[i] == (self@.positions[id].0, self@.positions[id].1, id));
            }
        }
        out
    }
}

} // verus!
