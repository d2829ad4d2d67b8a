//! Random fleets for the scripted opponent, and why one can always be laid.

use vstd::prelude::*;

use rand::rngs::ThreadRng;

use crate::fleet::{
    all_locked, cells_meet, fleet_length, fleet_wf, lemma_cells_meet_symmetric, lemma_line_facts,
    locked_apart, meets_locked, ship_shape, ships_view, Ship, ShipStatus, ShipView, FLEET_SIZE,
    MAX_SHIP_LEN,
};
use crate::geometry::{fits, line, line_fits, Cell, Direction};
use crate::random::below;

verus! {

/// All cells of `ships`, one ship after the other.
pub open spec fn occupied(ships: Seq<ShipView>) -> Seq<Cell>
    decreases ships.len(),
{
    if ships.len() == 0 {
        Seq::empty()
    } else {
        occupied(ships.drop_last()) + ships.last().cells
    }
}

/// The number of cells of `occ` in row `y` with `lo <= x < hi`.
pub open spec fn count_in(occ: Seq<Cell>, y: int, lo: int, hi: int) -> nat
    decreases occ.len(),
{
    if occ.len() == 0 {
        0
    } else {
        count_in(occ.drop_last(), y, lo, hi) + if occ.last().y == y && lo <= occ.last().x < hi {
            1nat
        } else {
            0nat
        }
    }
}

/// The number of cells of `occ` in rows `0..m`.
pub open spec fn rows_total(occ: Seq<Cell>, m: int) -> nat
    decreases m,
{
    if m <= 0 {
        0
    } else {
        rows_total(occ, m - 1) + count_in(occ, m - 1, 0, 10)
    }
}

/// The total length of the first `n` ships of a fleet.
pub open spec fn lengths_total(n: int) -> nat
    decreases n,
{
    if n <= 0 {
        0
    } else {
        lengths_total(n - 1) + fleet_length(n - 1)
    }
}

proof fn lemma_occupied_holds(ships: Seq<ShipView>, j: int, k: int)
    requires
        0 <= j < ships.len(),
        0 <= k < ships[j].cells.len(),
    ensures
        occupied(ships).contains(ships[j].cells[k]),
    decreases ships.len(),
{
    let o = occupied(ships);
    if j == ships.len() - 1 {
        let prev = occupied(ships.drop_last());
        assert(o[prev.len() + k] == ships[j].cells[k]);
    } else {
        lemma_occupied_holds(ships.drop_last(), j, k);
        let prev = occupied(ships.drop_last());
        let i = choose|i: int| 0 <= i < prev.len() && prev[i] == ships[j].cells[k];
        assert(o[i] == prev[i]);
    }
}

proof fn lemma_occupied_len(ships: Seq<ShipView>)
    requires
        forall|j: int| 0 <= j < ships.len() ==> (#[trigger] ships[j]).cells.len() == fleet_length(j),
    ensures
        occupied(ships).len() == lengths_total(ships.len() as int),
    decreases ships.len(),
{
    if ships.len() > 0 {
        let p = ships.drop_last();
        assert forall|j: int| 0 <= j < p.len() implies (#[trigger] p[j]).cells.len() == fleet_length(j) by {
            assert(p[j] == ships[j]);
        }
        lemma_occupied_len(p);
    }
}

proof fn lemma_occupied_in_bounds(ships: Seq<ShipView>)
    requires
        forall|j: int| 0 <= j < ships.len() ==> ship_shape(#[trigger] ships[j]),
    ensures
        forall|i: int| 0 <= i < occupied(ships).len() ==> (#[trigger] occupied(ships)[i]).in_bounds(),
    decreases ships.len(),
{
    if ships.len() > 0 {
        let p = ships.drop_last();
        assert forall|j: int| 0 <= j < p.len() implies ship_shape(#[trigger] p[j]) by {
            assert(p[j] == ships[j]);
        }
        lemma_occupied_in_bounds(p);
        let last = ships.last();
        assert(ship_shape(ships[ships.len() - 1]));
        lemma_line_facts(last.cells[0], crate::fleet::heading(last.cells), last.cells.len());
        let o = occupied(ships);
        let prev = occupied(p);
        assert forall|i: int| 0 <= i < o.len() implies (#[trigger] o[i]).in_bounds() by {
            if i >= prev.len() {
                assert(o[i] == last.cells[i - prev.len()]);
            } else {
                assert(o[i] == prev[i]);
            }
        }
    }
}

proof fn lemma_count_split(occ: Seq<Cell>, y: int)
    ensures
        count_in(occ, y, 0, 10) == count_in(occ, y, 0, 5) + count_in(occ, y, 5, 10),
    decreases occ.len(),
{
    if occ.len() > 0 {
        lemma_count_split(occ.drop_last(), y);
    }
}

proof fn lemma_count_zero(occ: Seq<Cell>, y: int, lo: int, hi: int)
    requires
        count_in(occ, y, lo, hi) == 0,
    ensures
        forall|i: int|
            0 <= i < occ.len() ==> !((#[trigger] occ[i]).y == y && lo <= occ[i].x < hi),
    decreases occ.len(),
{
    if occ.len() > 0 {
        lemma_count_zero(occ.drop_last(), y, lo, hi);
        assert forall|i: int| 0 <= i < occ.len() implies !((#[trigger] occ[i]).y == y && lo
            <= occ[i].x < hi) by {
            if i < occ.len() - 1 {
                assert(occ[i] == occ.drop_last()[i]);
            }
        }
    }
}

proof fn lemma_rows_last(occ: Seq<Cell>, m: int)
    requires
        occ.len() > 0,
        occ.last().x < 10,
        0 <= m,
    ensures
        rows_total(occ, m) == rows_total(occ.drop_last(), m) + if occ.last().y < m {
            1nat
        } else {
            0nat
        },
    decreases m,
{
    if m > 0 {
        lemma_rows_last(occ, m - 1);
    }
}

proof fn lemma_rows_all(occ: Seq<Cell>)
    requires
        forall|i: int| 0 <= i < occ.len() ==> (#[trigger] occ[i]).in_bounds(),
    ensures
        rows_total(occ, 10) == occ.len(),
    decreases occ.len(),
{
    if occ.len() > 0 {
        let p = occ.drop_last();
        assert forall|i: int| 0 <= i < p.len() implies (#[trigger] p[i]).in_bounds() by {
            assert(p[i] == occ[i]);
        }
        lemma_rows_all(p);
        assert(occ[occ.len() - 1].in_bounds());
        lemma_rows_last(occ, 10);
    } else {
        lemma_rows_empty(occ, 10);
    }
}

proof fn lemma_rows_empty(occ: Seq<Cell>, m: int)
    requires
        occ.len() == 0,
    ensures
        rows_total(occ, m) == 0,
    decreases m,
{
    if m > 0 {
        lemma_rows_empty(occ, m - 1);
    }
}

proof fn lemma_rows_crowded(occ: Seq<Cell>, m: int)
    requires
        0 <= m,
        forall|y: int| 0 <= y < m ==> #[trigger] count_in(occ, y, 0, 10) >= 2,
    ensures
        rows_total(occ, m) >= 2 * m,
    decreases m,
{
    if m > 0 {
        lemma_rows_crowded(occ, m - 1);
        assert(count_in(occ, m - 1, 0, 10) >= 2);
    }
}

/// While fewer than five ships are laid, some row has five free cells in a
/// row, starting at column 0 or 5.
proof fn lemma_free_window(ships: Seq<ShipView>) -> (w: (int, int))
    requires
        ships.len() < FLEET_SIZE,
        forall|j: int|
            0 <= j < ships.len() ==> ship_shape(#[trigger] ships[j]) && ships[j].len
                == fleet_length(j),
    ensures
        0 <= w.1 < 10,
        w.0 == 0 || w.0 == 5,
        forall|j: int, k: int|
            0 <= j < ships.len() && 0 <= k < ships[j].cells.len() ==> !((#[trigger] ships[j].cells[k]).y
                == w.1 && w.0 <= ships[j].cells[k].x < w.0 + 5),
{
    let occ = occupied(ships);
    assert forall|j: int| 0 <= j < ships.len() implies (#[trigger] ships[j]).cells.len()
        == fleet_length(j) by {}
    lemma_occupied_len(ships);
    lemma_occupied_in_bounds(ships);
    lemma_rows_all(occ);
    assert(lengths_total(ships.len() as int) <= 13) by {
        reveal_with_fuel(lengths_total, 5);
    }
    if forall|y: int| 0 <= y < 10 ==> #[trigger] count_in(occ, y, 0, 10) >= 2 {
        lemma_rows_crowded(occ, 10);
        assert(false);
    }
    let y = choose|y: int| 0 <= y < 10 && !(#[trigger] count_in(occ, y, 0, 10) >= 2);
    lemma_count_split(occ, y);
    let x0: int = if count_in(occ, y, 0, 5) == 0 {
        0
    } else {
        5
    };
    lemma_count_zero(occ, y, x0, x0 + 5);
    assert forall|j: int, k: int|
        0 <= j < ships.len() && 0 <= k < ships[j].cells.len() implies !((#[trigger] ships[j].cells[k]).y
        == y && x0 <= ships[j].cells[k].x < x0 + 5) by {
        lemma_occupied_holds(ships, j, k);
    }
    (x0, y)
}

/// Every line of `len` cells in the free window misses all of `ships`.
proof fn lemma_window_line_free(ships: Seq<ShipView>, x0: int, y: int, len: nat)
    requires
        0 <= y < 10,
        x0 == 0 || x0 == 5,
        2 <= len <= MAX_SHIP_LEN,
        forall|j: int, k: int|
            0 <= j < ships.len() && 0 <= k < ships[j].cells.len() ==> !((#[trigger] ships[j].cells[k]).y
                == y && x0 <= ships[j].cells[k].x < x0 + 5),
    ensures
        line_fits(Cell { x: x0 as u8, y: y as u8 }, Direction::Right, len),
        !meets_locked(line(Cell { x: x0 as u8, y: y as u8 }, Direction::Right, len), ships),
{
    let a = Cell { x: x0 as u8, y: y as u8 };
    let l = line(a, Direction::Right, len);
    assert forall|i: int| 0 <= i < len implies #[trigger] fits(a, Direction::Right, i) by {}
    if meets_locked(l, ships) {
        let j = choose|j: int|
            0 <= j < ships.len() && ships[j].status == ShipStatus::Locked && #[trigger] cells_meet(
                l,
                ships[j].cells,
            );
        let (i, k) = choose|i: int, k: int|
            0 <= i < l.len() && 0 <= k < ships[j].cells.len() && l[i] == ships[j].cells[k];
        assert(fits(a, Direction::Right, i));
        assert(ships[j].cells[k].y == y && x0 <= ships[j].cells[k].x < x0 + 5);
    }
}

/// The number of candidate placements scanned: every anchor cell in every
/// direction.
pub const PLACEMENT_COUNT: usize = 400;

/// The anchor cell of candidate `t`.
pub open spec fn candidate_anchor(t: int) -> Cell {
    Cell { x: (t % 10) as u8, y: ((t / 10) % 10) as u8 }
}

/// The direction of candidate `t`.
pub open spec fn candidate_direction(t: int) -> Direction {
    Direction::from_index_spec(t / 100)
}

/// Candidate `t` lays a ship of `len` cells on the grid without meeting a
/// locked ship of `ships`.
pub open spec fn candidate_free(ships: Seq<ShipView>, len: nat, t: int) -> bool {
    &&& line_fits(candidate_anchor(t), candidate_direction(t), len)
    &&& !meets_locked(line(candidate_anchor(t), candidate_direction(t), len), ships)
}

/// The locked ship that candidate `t` lays.
pub open spec fn candidate_ship(len: nat, t: int) -> ShipView {
    ShipView {
        status: ShipStatus::Locked,
        len,
        cells: line(candidate_anchor(t), candidate_direction(t), len),
    }
}

/// The ships of the free candidates among the first `t`, in scan order.
pub open spec fn free_upto(ships: Seq<ShipView>, len: nat, t: int) -> Seq<ShipView>
    decreases t,
{
    if t <= 0 {
        Seq::empty()
    } else {
        let prev = free_upto(ships, len, t - 1);
        if candidate_free(ships, len, t - 1) {
            prev.push(candidate_ship(len, t - 1))
        } else {
            prev
        }
    }
}

/// Every way to lay a locked ship of `len` cells on the grid without meeting
/// a locked ship of `ships`, one for each anchor cell and direction that
/// allow it, by direction, then row, then column.
pub open spec fn free_placements(len: nat, ships: Seq<ShipView>) -> Seq<ShipView> {
    free_upto(ships, len, PLACEMENT_COUNT as int)
}

/// The fleet laid by choosing, for each ship in turn, the free placement
/// numbered by the next of `ks`.
pub open spec fn picked_fleet(ks: Seq<int>) -> Seq<ShipView>
    decreases ks.len(),
{
    if ks.len() == 0 {
        Seq::empty()
    } else {
        let prev = picked_fleet(ks.drop_last());
        prev.push(free_placements(fleet_length(prev.len() as int), prev)[ks.last()])
    }
}

/// Each choice of `ks` numbers one of the free placements at its turn.
pub open spec fn valid_picks(ks: Seq<int>) -> bool {
    forall|i: int|
        0 <= i < ks.len() ==> 0 <= #[trigger] ks[i] < free_placements(
            fleet_length(i),
            picked_fleet(ks.subrange(0, i)),
        ).len()
}

proof fn lemma_picked_len(ks: Seq<int>)
    ensures
        picked_fleet(ks).len() == ks.len(),
    decreases ks.len(),
{
    if ks.len() > 0 {
        lemma_picked_len(ks.drop_last());
    }
}

impl Ship {
    /// Every locked ship of `len` cells that can be laid on the grid without
    /// meeting a locked ship of `ships`, one for each anchor cell and direction
    /// that allow it.
    pub fn placements(len: u8, ships: &Vec<Ship>) -> (r: Vec<Ship>)
        requires
            2 <= len <= MAX_SHIP_LEN,
        ensures
            ships_view(r@) == free_placements(len as nat, ships_view(ships@)),
            forall|i: int|
                0 <= i < r.len() ==> (#[trigger] r@[i]).wf() && r@[i].len == len && r@[i].status
                    == ShipStatus::Locked && !meets_locked(r@[i].cells@, ships_view(ships@)),
            forall|t: int|
                0 <= t < PLACEMENT_COUNT && #[trigger] candidate_free(ships_view(ships@), len as nat, t)
                    ==> r.len() > 0,
    {
        let mut r: Vec<Ship> = Vec::new();
        let mut t: usize = 0;
        while t < PLACEMENT_COUNT
            invariant
                t <= PLACEMENT_COUNT,
                2 <= len <= MAX_SHIP_LEN,
                forall|i: int|
                    0 <= i < r.len() ==> (#[trigger] r@[i]).wf() && r@[i].len == len
                        && r@[i].status == ShipStatus::Locked && !meets_locked(
                        r@[i].cells@,
                        ships_view(ships@),
                    ),
                forall|u: int|
                    0 <= u < t && #[trigger] candidate_free(ships_view(ships@), len as nat, u)
                        ==> r.len() > 0,
                ships_view(r@) == free_upto(ships_view(ships@), len as nat, t as int),
            decreases PLACEMENT_COUNT - t,
        {
            let ghost before = ships_view(r@);
            let anchor = Cell { x: (t % 10) as u8, y: ((t / 10) % 10) as u8 };
            let direction = Direction::from_index((t / 100) as u8);
            assert(anchor == candidate_anchor(t as int));
            assert(direction == candidate_direction(t as int));
            match anchor.extend(&direction, len) {
                Some(cells) => {
                    let ship = Ship { status: ShipStatus::Locked, len, cells };
                    if !Ship::any_overlap(&ship, ships) {
                        proof {
                            lemma_line_facts(anchor, direction, len as nat);
                        }
                        r.push(ship);
                        assert(ships_view(r@) =~= before.push(candidate_ship(len as nat, t as int)));
                    }
                },
                None => {},
            }
            t = t + 1;
        }
        r
    }

    /// The free placement numbered `k` of a locked ship of `len` cells among
    /// `ships` (see [`Ship::placements`]).
    pub fn pick_placement(len: u8, ships: &Vec<Ship>, k: usize) -> (r: Ship)
        requires
            2 <= len <= MAX_SHIP_LEN,
            k < free_placements(len as nat, ships_view(ships@)).len(),
        ensures
            r@ == free_placements(len as nat, ships_view(ships@))[k as int],
            r.wf(),
            r.len == len,
            r.status == ShipStatus::Locked,
            !meets_locked(r.cells@, ships_view(ships@)),
    {
        let mut options = Ship::placements(len, ships);
        assert(ships_view(options@)[k as int] == options@[k as int]@);
        options.remove(k)
    }

    /// A random fleet of locked ships of lengths 2, 3, 4, 4 and 5, no two
    /// sharing a cell. Each ship in turn is laid at a uniformly drawn one of
    /// the anchor cells and directions that keep it on the grid and off the
    /// ships laid before it: the fleet is [`picked_fleet`] of the draws.
    pub fn random_five(rng: &mut ThreadRng) -> (r: Vec<Ship>)
        ensures
            fleet_wf(ships_view(r@)),
            all_locked(ships_view(r@)),
            exists|ks: Seq<int>|
                ks.len() == FLEET_SIZE && valid_picks(ks) && ships_view(r@) == #[trigger] picked_fleet(
                    ks,
                ),
    {
        let lengths: [u8; 5] = [2, 3, 4, 4, 5];
        let mut ships: Vec<Ship> = Vec::new();
        let ghost mut ks: Seq<int> = Seq::empty();
        let mut i: usize = 0;
        while i < FLEET_SIZE
            invariant
                i <= FLEET_SIZE,
                ships.len() == i,
                ks.len() == i,
                valid_picks(ks),
                ships_view(ships@) == picked_fleet(ks),
                lengths@ == seq![2u8, 3u8, 4u8, 4u8, 5u8],
                forall|j: int|
                    0 <= j < i ==> ship_shape(#[trigger] ships_view(ships@)[j]) && ships_view(
                        ships@,
                    )[j].len == fleet_length(j) && ships_view(ships@)[j].status
                        == ShipStatus::Locked,
                locked_apart(ships_view(ships@)),
            decreases FLEET_SIZE - i,
        {
            let len = lengths[i];
            let ghost v = ships_view(ships@);
            let options = Ship::placements(len, &ships);
            proof {
                let (x0, y) = lemma_free_window(v);
                lemma_window_line_free(v, x0, y, len as nat);
                let t = 300 + 10 * y + x0;
                assert(candidate_anchor(t) == Cell { x: x0 as u8, y: y as u8 });
                assert(candidate_direction(t) == Direction::Right);
                assert(candidate_free(v, len as nat, t));
            }
            let k = below(rng, options.len());
            let ship = Ship::pick_placement(len, &ships, k);
            ships.push(ship);
            proof {
                let w = ships_view(ships@);
                assert(w =~= v.push(ship@));
                let ks2 = ks.push(k as int);
                assert(ks2.drop_last() =~= ks);
                lemma_picked_len(ks);
                assert(len as nat == fleet_length(i as int));
                assert(picked_fleet(ks2) == w);
                assert forall|j: int| 0 <= j < ks2.len() implies 0 <= #[trigger] ks2[j]
                    < free_placements(fleet_length(j), picked_fleet(ks2.subrange(0, j))).len() by {
                    if j < i {
                        assert(ks2.subrange(0, j) =~= ks.subrange(0, j));
                        assert(ks2[j] == ks[j]);
                    } else {
                        assert(ks2.subrange(0, j) =~= ks);
                    }
                }
                ks = ks2;
                assert forall|a: int, b: int|
                    0 <= a < w.len() && 0 <= b < w.len() && a != b && w[a].status
                        == ShipStatus::Locked && w[b].status == ShipStatus::Locked implies !cells_meet(
                    #[trigger] w[a].cells,
                    #[trigger] w[b].cells,
                ) by {
                    if a == i {
                        assert(w[b] == v[b]);
                        assert(!cells_meet(ship.cells@, v[b].cells));
                    } else if b == i {
                        assert(w[a] == v[a]);
                        assert(!cells_meet(ship.cells@, v[a].cells));
                        lemma_cells_meet_symmetric(v[a].cells, ship.cells@);
                    } else {
                        assert(w[a] == v[a] && w[b] == v[b]);
                    }
                }
            }
            i = i + 1;
        }
        ships
    }
}

} // verus!
