//! A player: a fleet, a target cursor, the shots fired so far, and what the
//! player is doing now.

use vstd::prelude::*;

use crate::fleet::{
    all_in_bounds, all_locked, cells_meet, fleet_length, fleet_wf, holds_cell,
    lemma_cells_meet_symmetric, locked_apart, meets_locked, ship_shape, ships_view, Ship,
    ShipStatus, ShipView, FLEET_SIZE,
};
use crate::geometry::Cell;

verus! {

/// Column of the cell the target cursor starts from.
pub const TARGET_X: u8 = 4;

/// Row of the cell the target cursor starts from.
pub const TARGET_Y: u8 = 5;

#[derive(Clone, Copy, Debug, PartialEq, Eq, Structural)]
pub enum PlayerStatus {
    Placing,
    Aiming,
    Waiting,
}

#[derive(Debug)]
pub struct Player {
    pub status: PlayerStatus,
    pub ships: Vec<Ship>,
    pub target: Cell,
    pub shots_taken: Vec<Cell>,
}

/// The mathematical value of a [`Player`].
pub struct PlayerView {
    pub status: PlayerStatus,
    pub ships: Seq<ShipView>,
    pub target: Cell,
    pub shots: Seq<Cell>,
}

impl View for Player {
    type V = PlayerView;

    open spec fn view(&self) -> PlayerView {
        PlayerView {
            status: self.status,
            ships: ships_view(self.ships@),
            target: self.target,
            shots: self.shots_taken@,
        }
    }
}

/// The cell the target cursor starts from, and returns to after each shot.
pub open spec fn default_target() -> Cell {
    Cell { x: TARGET_X, y: TARGET_Y }
}

/// The ships before `k` are locked, the ship at `k` is being placed, and the
/// ones after it are hidden.
pub open spec fn placing_at(ships: Seq<ShipView>, k: int) -> bool {
    &&& 0 <= k < ships.len()
    &&& ships[k].status == ShipStatus::Placing
    &&& forall|i: int| 0 <= i < k ==> (#[trigger] ships[i]).status == ShipStatus::Locked
    &&& forall|i: int| k < i < ships.len() ==> (#[trigger] ships[i]).status == ShipStatus::Hidden
}

/// Some ship has status `st`.
pub open spec fn has_status(ships: Seq<ShipView>, st: ShipStatus) -> bool {
    exists|k: int| 0 <= k < ships.len() && (#[trigger] ships[k]).status == st
}

/// `k` is the first ship with status `st`.
pub open spec fn first_with(ships: Seq<ShipView>, st: ShipStatus, k: int) -> bool {
    &&& 0 <= k < ships.len()
    &&& ships[k].status == st
    &&& forall|i: int| 0 <= i < k ==> (#[trigger] ships[i]).status != st
}

/// The position of the first ship with status `st`.
pub open spec fn index_of(ships: Seq<ShipView>, st: ShipStatus) -> int {
    choose|k: int| first_with(ships, st, k)
}

/// The first ship with status `st` is at `k`.
pub proof fn lemma_index_of(ships: Seq<ShipView>, st: ShipStatus, k: int)
    requires
        first_with(ships, st, k),
    ensures
        index_of(ships, st) == k,
        has_status(ships, st),
{
    let j = index_of(ships, st);
    assert(first_with(ships, st, j));
    if j < k {
        assert(ships[j].status != st);
    }
    if k < j {
        assert(ships[k].status != st);
    }
}

/// When some ship has status `st`, there is a first one.
pub proof fn lemma_first_exists(ships: Seq<ShipView>, st: ShipStatus, k: int)
    requires
        0 <= k < ships.len(),
        ships[k].status == st,
    ensures
        first_with(ships, st, index_of(ships, st)),
    decreases k,
{
    if exists|j: int| 0 <= j < k && (#[trigger] ships[j]).status == st {
        let j = choose|j: int| 0 <= j < k && (#[trigger] ships[j]).status == st;
        lemma_first_exists(ships, st, j);
    } else {
        assert(first_with(ships, st, k));
    }
}

/// The first ship with status `st`, when there is one.
pub(crate) fn find_status(ships: &Vec<Ship>, st: ShipStatus) -> (r: Option<usize>)
    ensures
        match r {
            Some(k) => first_with(ships_view(ships@), st, k as int) && index_of(
                ships_view(ships@),
                st,
            ) == k,
            None => !has_status(ships_view(ships@), st),
        },
{
    let ghost v = ships_view(ships@);
    let mut i: usize = 0;
    while i < ships.len()
        invariant
            i <= ships.len(),
            v == ships_view(ships@),
            forall|j: int| 0 <= j < i ==> (#[trigger] v[j]).status != st,
        decreases ships.len() - i,
    {
        if ships[i].status == st {
            proof {
                lemma_index_of(v, st, i as int);
            }
            return Some(i);
        }
        i = i + 1;
    }
    None
}

/// The player after firing at the target: when the target was not shot
/// before, the shot is recorded and the cursor goes back to its starting
/// cell; otherwise nothing changes.
pub open spec fn fired(p: PlayerView) -> PlayerView {
    if p.shots.contains(p.target) {
        p
    } else {
        PlayerView { shots: p.shots.push(p.target), target: default_target(), ..p }
    }
}

/// The ship being placed exists and shares no cell with a locked ship.
pub open spec fn can_lock(ships: Seq<ShipView>) -> bool {
    &&& has_status(ships, ShipStatus::Placing)
    &&& !meets_locked(ships[index_of(ships, ShipStatus::Placing)].cells, ships)
}

/// The fleet after an attempt to lock the ship being placed.
pub open spec fn lock_placing(ships: Seq<ShipView>) -> Seq<ShipView> {
    if can_lock(ships) {
        let k = index_of(ships, ShipStatus::Placing);
        ships.update(k, ShipView { status: ShipStatus::Locked, ..ships[k] })
    } else {
        ships
    }
}

/// What holds of every player: a well-formed fleet, the cursor and the shots
/// on the grid, no cell shot twice; while placing, the fleet is locked up to
/// the ship being placed and hidden after it; afterwards, all locked.
pub open spec fn player_wf(p: PlayerView) -> bool {
    &&& fleet_wf(p.ships)
    &&& p.target.in_bounds()
    &&& all_in_bounds(p.shots)
    &&& p.shots.no_duplicates()
    &&& p.status == PlayerStatus::Placing ==> exists|k: int| #[trigger] placing_at(p.ships, k)
    &&& p.status != PlayerStatus::Placing ==> all_locked(p.ships)
}

/// Locking the ship being placed, when it meets no locked ship, keeps the
/// locked ships apart.
pub proof fn lemma_lock_apart(ships: Seq<ShipView>)
    requires
        locked_apart(ships),
        can_lock(ships),
    ensures
        locked_apart(lock_placing(ships)),
{
    let k = index_of(ships, ShipStatus::Placing);
    let w = choose|w: int| 0 <= w < ships.len() && (#[trigger] ships[w]).status == ShipStatus::Placing;
    lemma_first_exists(ships, ShipStatus::Placing, w);
    let new_ships = lock_placing(ships);
    assert(new_ships == ships.update(k, ShipView { status: ShipStatus::Locked, ..ships[k] }));
    assert(new_ships.len() == ships.len());
    assert forall|i: int, j: int|
        0 <= i < new_ships.len() && 0 <= j < new_ships.len() && i != j && new_ships[i].status
            == ShipStatus::Locked && new_ships[j].status == ShipStatus::Locked implies !cells_meet(
        #[trigger] new_ships[i].cells,
        #[trigger] new_ships[j].cells,
    ) by {
        if i == k {
            assert(ships[j].status == ShipStatus::Locked);
        } else if j == k {
            assert(ships[i].status == ShipStatus::Locked);
            lemma_cells_meet_symmetric(ships[i].cells, ships[k].cells);
        } else {
            assert(ships[i] == new_ships[i]);
            assert(ships[j] == new_ships[j]);
        }
    }
}

impl Player {
    pub open spec fn wf(&self) -> bool {
        player_wf(self@)
    }

    /// A player about to place the starting fleet, with no shots fired.
    pub fn new() -> (r: Player)
        ensures
            r@ == (PlayerView {
                status: PlayerStatus::Placing,
                ships: crate::fleet::starting_fleet(),
                target: default_target(),
                shots: Seq::empty(),
            }),
            r.wf(),
    {
        let ships = Ship::original_length_ships();
        proof {
            let v = ships_view(ships@);
            assert(v.len() == FLEET_SIZE);
            assert forall|i: int| 0 <= i < ships.len() implies (#[trigger] v[i]).len
                == fleet_length(i) && (v[i].status == ShipStatus::Placing) == (i == 0)
                && v[i].status != ShipStatus::Locked && ship_shape(v[i]) by {
                assert(v[i] == crate::fleet::starting_fleet()[i]);
                assert(ships@[i].wf());
            }
            assert(placing_at(v, 0));
        }
        let r = Player {
            status: PlayerStatus::Placing,
            ships,
            target: Cell { x: TARGET_X, y: TARGET_Y },
            shots_taken: Vec::new(),
        };
        assert(r.shots_taken@ =~= Seq::<Cell>::empty());
        r
    }

    /// The first ship being placed, when there is one.
    pub fn ship_to_place(&self) -> (r: Option<&Ship>)
        ensures
            match r {
                Some(s) => has_status(self@.ships, ShipStatus::Placing) && s@ == self@.ships[index_of(
                    self@.ships,
                    ShipStatus::Placing,
                )],
                None => !has_status(self@.ships, ShipStatus::Placing),
            },
    {
        match find_status(&self.ships, ShipStatus::Placing) {
            Some(k) => Some(&self.ships[k]),
            None => None,
        }
    }

    /// The first ship being placed, to be changed in place, when there is one.
    pub fn ship_to_place_mut(&mut self) -> (r: Option<&mut Ship>)
        ensures
            match r {
                Some(s) => {
                    &&& has_status(old(self)@.ships, ShipStatus::Placing)
                    &&& *s == old(self).ships@[index_of(old(self)@.ships, ShipStatus::Placing)]
                    &&& final(self).ships@ == old(self).ships@.update(
                        index_of(old(self)@.ships, ShipStatus::Placing),
                        *final(s),
                    )
                    &&& final(self).status == old(self).status
                    &&& final(self).target == old(self).target
                    &&& final(self).shots_taken@ == old(self).shots_taken@
                },
                None => !has_status(old(self)@.ships, ShipStatus::Placing) && *final(self) == *old(
                    self,
                ),
            },
    {
        match find_status(&self.ships, ShipStatus::Placing) {
            Some(k) => Some(&mut self.ships[k]),
            None => None,
        }
    }

    /// Fires at the target. A cell already shot is not shot again and the call
    /// reports `false`; otherwise the shot is recorded, the cursor goes back to
    /// its starting cell, and the call reports `true`.
    pub fn fire(&mut self) -> (r: bool)
        ensures
            r == !old(self)@.shots.contains(old(self).target),
            final(self)@ == fired(old(self)@),
            player_wf(old(self)@) ==> player_wf(final(self)@),
    {
        let overlaps_shot = holds_cell(&self.shots_taken, &self.target);
        if !overlaps_shot {
            let target = self.target;
            let ghost before = self.shots_taken@;
            self.shots_taken.push(target);
            self.target = Cell { x: TARGET_X, y: TARGET_Y };
            proof {
                let after = self.shots_taken@;
                assert(self@.ships == old(self)@.ships);
                assert(after == before.push(target));
                assert forall|i: int| 0 <= i < after.len() && all_in_bounds(before)
                    && target.in_bounds() implies (#[trigger] after[i]).in_bounds() by {
                    if i < before.len() {
                        assert(after[i] == before[i]);
                    }
                }
                assert forall|i: int, j: int|
                    0 <= i < after.len() && 0 <= j < after.len() && i != j && before.no_duplicates()
                        implies after[i] != after[j] by {
                    if j == before.len() {
                        assert(before.contains(before[i]));
                    } else if i == before.len() {
                        assert(before.contains(before[j]));
                    }
                }
            }
        }
        !overlaps_shot
    }

    /// Whether the ship being placed shares a cell with a locked ship.
    pub fn ship_to_place_overlaps_any_locked(&self) -> (r: bool)
        ensures
            r == (has_status(self@.ships, ShipStatus::Placing) && meets_locked(
                self@.ships[index_of(self@.ships, ShipStatus::Placing)].cells,
                self@.ships,
            )),
    {
        if let Some(ship) = self.ship_to_place() {
            Ship::any_overlap(ship, &self.ships)
        } else {
            false
        }
    }

    /// Locks the ship being placed when it shares no cell with a locked ship,
    /// and reports whether it did.
    pub fn lock_ship(&mut self) -> (r: bool)
        ensures
            r == can_lock(old(self)@.ships),
            final(self)@ == (PlayerView { ships: lock_placing(old(self)@.ships), ..old(self)@ }),
            locked_apart(old(self)@.ships) ==> locked_apart(final(self)@.ships),
    {
        let overlap = self.ship_to_place_overlaps_any_locked();
        if overlap {
            return false;
        }
        let ghost old_ships = self@.ships;
        let ghost old_vec = self.ships@;
        let mut locked = false;
        if let Some(k) = find_status(&self.ships, ShipStatus::Placing) {
            self.ships[k].status = ShipStatus::Locked;
            locked = true;
        }
        proof {
            if locked {
                let k = index_of(old_ships, ShipStatus::Placing);
                let new_ships = self@.ships;
                assert(can_lock(old_ships));
                assert(self.ships@[k]@ == ShipView { status: ShipStatus::Locked, ..old_ships[k] });
                assert(new_ships.len() == old_ships.len());
                assert(new_ships =~= lock_placing(old_ships));
                if locked_apart(old_ships) {
                    lemma_lock_apart(old_ships);
                }
            }
        }
        locked
    }
}

} // verus!
