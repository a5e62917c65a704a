//! Stitching the PRM roadmap to the fine grid.
//!
//! The roadmap is sampled on a jittered lattice of spacing-sized cells; a
//! lattice cell is *open* when a waypoint was kept in it. A structured cell
//! next to an open one carries interface points on the side that faces the
//! open neighbour, which is what connects the two substrates.

use vstd::prelude::*;

verus! {

/// Which side of a cell faces the open neighbour.
///
/// The names label the open neighbour's position in the lattice: `North` is
/// the row above (`row - 1`), `South` the row below.
#[derive(Debug, Clone, Copy, PartialEq, Eq, Structural)]
pub enum Grid4 {
    /// The row above.
    North,
    /// The row below.
    South,
    /// The next column.
    East,
    /// The previous column.
    West,
}

/// The sides in the order they are tried, with their row and column offsets.
pub open spec fn side_order(k: int) -> (Grid4, int, int) {
    if k == 0 {
        (Grid4::North, -1, 0)
    } else if k == 1 {
        (Grid4::South, 1, 0)
    } else if k == 2 {
        (Grid4::West, 0, -1)
    } else {
        (Grid4::East, 0, 1)
    }
}

/// True when the `k`-th side's neighbour lies inside the lattice and is open.
///
/// Columns are bounded by the width of the first row.
pub open spec fn side_is_open(mask: Seq<Vec<bool>>, row: int, col: int, k: int) -> bool {
    let r = row + side_order(k).1;
    let c = col + side_order(k).2;
    &&& 0 <= r < mask.len()
    &&& 0 <= c < mask[0]@.len()
    &&& mask[r]@[c]
}

/// The first side, from the `k`-th on, whose neighbour is open.
pub open spec fn adjacent_open_from(mask: Seq<Vec<bool>>, row: int, col: int, k: nat) -> Option<Grid4>
    decreases 4 - k,
{
    if k >= 4 {
        None
    } else if side_is_open(mask, row, col, k as int) {
        Some(side_order(k as int).0)
    } else {
        adjacent_open_from(mask, row, col, (k + 1) as nat)
    }
}

fn check_side(mask: &[Vec<bool>], row: i64, col: i64, dr: i64, dc: i64) -> (r: bool)
    requires
        -1 <= dr <= 1,
        -1 <= dc <= 1,
        i64::MIN < row < i64::MAX,
        i64::MIN < col < i64::MAX,
        mask@.len() > 0 ==> forall|i: int| 0 <= i < mask@.len() ==> #[trigger] mask@[i]@.len() >= mask@[0]@.len(),
    ensures
        r == ({
            let rr = row + dr;
            let cc = col + dc;
            0 <= rr < mask@.len() && 0 <= cc < mask@[0]@.len() && mask@[rr]@[cc]
        }),
{
    let r = row + dr;
    let c = col + dc;
    if r < 0 || c < 0 || r as u64 >= mask.len() as u64 || c as u64 >= mask[0].len() as u64 {
        return false;
    }
    mask[r as usize][c as usize]
}

/// Side of a structured lattice cell that faces an open neighbour.
///
/// The four neighbours are tried in the order north, south, west, east, and
/// the first open one inside the lattice wins. Column bounds are taken from
/// the first row; every row must be at least that wide.
pub fn adjacent_open(mask: &[Vec<bool>], row: i64, col: i64) -> (r: Option<Grid4>)
    requires
        i64::MIN < row < i64::MAX,
        i64::MIN < col < i64::MAX,
        mask@.len() > 0 ==> forall|i: int| 0 <= i < mask@.len() ==> #[trigger] mask@[i]@.len() >= mask@[0]@.len(),
    ensures
        r == adjacent_open_from(mask@, row as int, col as int, 0),
{
    if check_side(mask, row, col, -1, 0) {
        return Some(Grid4::North);
    }
    if check_side(mask, row, col, 1, 0) {
        return Some(Grid4::South);
    }
    if check_side(mask, row, col, 0, -1) {
        return Some(Grid4::West);
    }
    if check_side(mask, row, col, 0, 1) {
        return Some(Grid4::East);
    }
    proof {
        reveal_with_fuel(adjacent_open_from, 5);
    }
    None
}

} // verus!
