//! A uniform grid of cells that records which vehicles lie where, for
//! neighbour queries. Collision handling does not consult it: vehicle pairs
//! are still tested against each other directly.
use vstd::prelude::*;
use crate::geometry::floor_div;
use crate::vehicle::Vehicle;

verus! {

pub struct Grid {
    /// Side of a cell, in position units.
    pub cell_size: i64,
    /// Cell column, cell row and vehicle id of every vehicle added, oldest first.
    pub entries: Vec<(i64, i64, usize)>,
}

/// The cell that holds a point.
pub open spec fn cell_of(x: int, y: int, cell_size: int) -> (int, int) {
    (x / cell_size, y / cell_size)
}

/// The ids recorded in cell `(cx, cy)`, oldest first.
pub open spec fn ids_in(entries: Seq<(i64, i64, usize)>, cx: int, cy: int) -> Seq<usize>
    decreases entries.len(),
{
    if entries.len() == 0 {
        Seq::empty()
    } else if entries.last().0 == cx && entries.last().1 == cy {
        ids_in(entries.drop_last(), cx, cy).push(entries.last().2)
    } else {
        ids_in(entries.drop_last(), cx, cy)
    }
}

/// The ids of the first `k` cells of the 3 by 3 block around `(cx, cy)`,
/// column offset first, each cell's ids oldest first.
pub open spec fn block_ids(entries: Seq<(i64, i64, usize)>, cx: int, cy: int, k: nat) -> Seq<usize>
    decreases k,
{
    if k == 0 {
        Seq::empty()
    } else {
        let j = k - 1;
        block_ids(entries, cx, cy, (k - 1) as nat) + ids_in(entries, cx + j / 3 - 1, cy + j % 3 - 1)
    }
}

/// Dividing by a positive cell size moves a coordinate towards zero, so the
/// cell index fits wherever the coordinate does.
proof fn lemma_floor_cell_in_range(x: int, cell_size: int)
    requires
        cell_size >= 1,
    ensures
        x >= 0 ==> 0 <= x / cell_size <= x,
        x < 0 ==> x <= x / cell_size <= 0,
{
    let k = if x >= 0 { x } else { -x };
    assert(-(k * cell_size) <= x <= k * cell_size) by (nonlinear_arith)
        requires
            cell_size >= 1,
            k >= 0,
            k == x || k == -x,
    ;
    crate::geometry::lemma_div_within(x, k, cell_size);
    if x >= 0 {
        vstd::arithmetic::div_mod::lemma_div_is_ordered(0, x, cell_size);
    } else {
        vstd::arithmetic::div_mod::lemma_div_is_ordered(x, 0, cell_size);
    }
}

impl Grid {
    pub fn new(cell_size: i64) -> (r: Self)
        requires
            cell_size > 0,
        ensures
            r.cell_size == cell_size,
            r.entries@.len() == 0,
    {
        Grid { cell_size, entries: Vec::new() }
    }

    fn get_cell(&self, x: i64, y: i64) -> (r: (i64, i64))
        requires
            self.cell_size > 0,
        ensures
            (r.0 as int, r.1 as int) == cell_of(x as int, y as int, self.cell_size as int),
    {
        proof {
            lemma_floor_cell_in_range(x as int, self.cell_size as int);
            lemma_floor_cell_in_range(y as int, self.cell_size as int);
        }
        let cx = floor_div(x as i128, self.cell_size as i128);
        let cy = floor_div(y as i128, self.cell_size as i128);
        (cx as i64, cy as i64)
    }

    /// Records the vehicle in the cell of its center.
    pub fn add_vehicle(&mut self, vehicle: &Vehicle)
        requires
            old(self).cell_size > 0,
        ensures
            final(self).cell_size == old(self).cell_size,
            ({
                let c = cell_of(vehicle.bounds.x as int, vehicle.bounds.y as int, old(self).cell_size as int);
                final(self).entries@ == old(self).entries@.push((c.0 as i64, c.1 as i64, vehicle.id))
            }),
    {
        let cell = self.get_cell(vehicle.bounds.x, vehicle.bounds.y);
        self.entries.push((cell.0, cell.1, vehicle.id));
    }

    /// The ids recorded in the cell of `(x, y)` and in the eight cells around it.
    pub fn get_neighbors(&self, x: i64, y: i64) -> (r: Vec<usize>)
        requires
            self.cell_size > 0,
        ensures
            ({
                let c = cell_of(x as int, y as int, self.cell_size as int);
                r@ == block_ids(self.entries@, c.0, c.1, 9)
            }),
    {
        let cell = self.get_cell(x, y);
        let mut neighbors: Vec<usize> = Vec::new();
        let mut k: usize = 0;
        while k < 9
            invariant
                0 <= k <= 9,
                neighbors@ == block_ids(self.entries@, cell.0 as int, cell.1 as int, k as nat),
            decreases 9 - k,
        {
            let tx = cell.0 as i128 + (k / 3) as i128 - 1;
            let ty = cell.1 as i128 + (k % 3) as i128 - 1;
            let ghost before = neighbors@;
            let mut i: usize = 0;
            while i < self.entries.len()
                invariant
                    0 <= i <= self.entries@.len(),
                    neighbors@ == before + ids_in(self.entries@.subrange(0, i as int), tx as int, ty as int),
                decreases self.entries@.len() - i,
            {
                let e = self.entries[i];
                proof {
                    let s = self.entries@.subrange(0, i + 1);
                    assert(s.drop_last() == self.entries@.subrange(0, i as int));
                    assert(s.last() == e);
                }
                if e.0 as i128 == tx && e.1 as i128 == ty {
                    neighbors.push(e.2);
                }
                i += 1;
            }
            proof {
                assert(self.entries@.subrange(0, self.entries@.len() as int) == self.entries@);
            }
            k += 1;
        }
        neighbors
    }
}

} // verus!
