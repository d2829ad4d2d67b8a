//! Ships and fleets: placement moves, overlap rules, and the canonical and
//! random fleets.

use vstd::prelude::*;

use crate::geometry::{cell_at, fits, line, line_fits, reach, Cell, Direction, GRID_SIZE};

verus! {

/// The longest ship of a fleet.
pub const MAX_SHIP_LEN: u8 = 5;

/// The number of ships in a fleet.
pub const FLEET_SIZE: usize = 5;

#[derive(Clone, Copy, Debug, PartialEq, Eq, Structural)]
pub enum ShipStatus {
    Hidden,
    Placing,
    Locked,
}

/// A ship: its status, its declared length, and its cells in order from one
/// end to the other.
#[derive(Debug)]
pub struct Ship {
    pub status: ShipStatus,
    pub len: u8,
    pub cells: Vec<Cell>,
}

/// The mathematical value of a [`Ship`].
pub struct ShipView {
    pub status: ShipStatus,
    pub len: nat,
    pub cells: Seq<Cell>,
}

impl View for Ship {
    type V = ShipView;

    open spec fn view(&self) -> ShipView {
        ShipView { status: self.status, len: self.len as nat, cells: self.cells@ }
    }
}

/// The direction from the first cell of `cells` to the second.
pub open spec fn heading(cells: Seq<Cell>) -> Direction {
    let next = (cells[1].x as int, cells[1].y as int);
    if next == reach(cells[0], Direction::Up, 1) {
        Direction::Up
    } else if next == reach(cells[0], Direction::Down, 1) {
        Direction::Down
    } else if next == reach(cells[0], Direction::Left, 1) {
        Direction::Left
    } else {
        Direction::Right
    }
}

/// Every cell of `cells` is on the grid.
pub open spec fn all_in_bounds(cells: Seq<Cell>) -> bool {
    forall|i: int| 0 <= i < cells.len() ==> (#[trigger] cells[i]).in_bounds()
}

/// `cells` is a straight line on the grid: each cell is one step further than
/// the one before it, always in the same direction.
pub open spec fn is_straight(cells: Seq<Cell>) -> bool {
    &&& cells.len() >= 2
    &&& line_fits(cells[0], heading(cells), cells.len())
    &&& cells == line(cells[0], heading(cells), cells.len())
}

/// The shape every ship keeps: as many cells as its length, in a straight
/// line on the grid.
pub open spec fn ship_shape(s: ShipView) -> bool {
    &&& s.cells.len() == s.len
    &&& 2 <= s.len <= MAX_SHIP_LEN
    &&& is_straight(s.cells)
}

/// Every cell of `cells` can take one step towards `d` without leaving the grid.
pub open spec fn can_shift(cells: Seq<Cell>, d: Direction) -> bool {
    forall|i: int| 0 <= i < cells.len() ==> #[trigger] fits(cells[i], d, 1)
}

/// The cells after a shift towards `d`: all of them move one step, or, when
/// any of them would leave the grid, none does.
pub open spec fn shifted(cells: Seq<Cell>, d: Direction) -> Seq<Cell> {
    if can_shift(cells, d) {
        cells.map_values(|c: Cell| cell_at(c, d, 1))
    } else {
        cells
    }
}

/// The cells after a quarter turn clockwise about the first cell, or the
/// same cells when the turned line would leave the grid.
pub open spec fn rotated(cells: Seq<Cell>) -> Seq<Cell> {
    let d = heading(cells).clockwise();
    if line_fits(cells[0], d, cells.len()) {
        line(cells[0], d, cells.len())
    } else {
        cells
    }
}

/// Two sequences of cells share a cell.
pub open spec fn cells_meet(a: Seq<Cell>, b: Seq<Cell>) -> bool {
    exists|i: int, j: int| 0 <= i < a.len() && 0 <= j < b.len() && a[i] == b[j]
}

/// `cells` shares a cell with a locked ship of `ships`.
pub open spec fn meets_locked(cells: Seq<Cell>, ships: Seq<ShipView>) -> bool {
    exists|j: int|
        0 <= j < ships.len() && ships[j].status == ShipStatus::Locked && #[trigger] cells_meet(
            cells,
            ships[j].cells,
        )
}

/// Sharing a cell does not depend on the order of the two sequences.
pub proof fn lemma_cells_meet_symmetric(a: Seq<Cell>, b: Seq<Cell>)
    ensures
        cells_meet(a, b) == cells_meet(b, a),
{
    if cells_meet(a, b) {
        let (i, j) = choose|i: int, j: int| 0 <= i < a.len() && 0 <= j < b.len() && a[i] == b[j];
        assert(0 <= j < b.len() && 0 <= i < a.len() && b[j] == a[i]);
    }
    if cells_meet(b, a) {
        let (j, i) = choose|j: int, i: int| 0 <= j < b.len() && 0 <= i < a.len() && b[j] == a[i];
        assert(0 <= i < a.len() && 0 <= j < b.len() && a[i] == b[j]);
    }
}

/// The length of the ship at position `i` of a fleet.
pub open spec fn fleet_length(i: int) -> nat {
    if i == 0 {
        2
    } else if i == 1 {
        3
    } else if i == 4 {
        5
    } else {
        4
    }
}

/// A ship of `len` cells in the top-left corner, heading right.
pub open spec fn dock(status: ShipStatus, len: nat) -> ShipView {
    ShipView { status, len, cells: line(Cell { x: 0, y: 0 }, Direction::Right, len) }
}

/// The fleet a player starts with.
pub open spec fn starting_fleet() -> Seq<ShipView> {
    Seq::new(
        FLEET_SIZE as nat,
        |i: int|
            dock(
                if i == 0 {
                    ShipStatus::Placing
                } else {
                    ShipStatus::Hidden
                },
                fleet_length(i),
            ),
    )
}

/// The values of a sequence of ships.
pub open spec fn ships_view(ships: Seq<Ship>) -> Seq<ShipView> {
    ships.map_values(|s: Ship| s@)
}

/// No two locked ships share a cell.
pub open spec fn locked_apart(ships: Seq<ShipView>) -> bool {
    forall|i: int, j: int|
        0 <= i < ships.len() && 0 <= j < ships.len() && i != j && ships[i].status
            == ShipStatus::Locked && ships[j].status == ShipStatus::Locked ==> !cells_meet(
            #[trigger] ships[i].cells,
            #[trigger] ships[j].cells,
        )
}

/// A well-formed fleet: five ships of the fleet's lengths, each a straight
/// line on the grid, and no two locked ones sharing a cell.
pub open spec fn fleet_wf(ships: Seq<ShipView>) -> bool {
    &&& ships.len() == FLEET_SIZE
    &&& forall|i: int|
        0 <= i < ships.len() ==> ship_shape(#[trigger] ships[i]) && ships[i].len == fleet_length(i)
    &&& locked_apart(ships)
}

/// Every ship is locked.
pub open spec fn all_locked(ships: Seq<ShipView>) -> bool {
    forall|i: int| 0 <= i < ships.len() ==> (#[trigger] ships[i]).status == ShipStatus::Locked
}

/// Whether `c` is one of `cells`.
pub fn holds_cell(cells: &Vec<Cell>, c: &Cell) -> (r: bool)
    ensures
        r == cells@.contains(*c),
{
    let mut i: usize = 0;
    while i < cells.len()
        invariant
            i <= cells.len(),
            forall|j: int| 0 <= j < i ==> cells@[j] != *c,
        decreases cells.len() - i,
    {
        if cells[i] == *c {
            return true;
        }
        i = i + 1;
    }
    false
}

/// What a straight line that stays on the grid is made of: its first cell,
/// its direction, and cells on the grid.
pub proof fn lemma_line_facts(a: Cell, d: Direction, n: nat)
    requires
        n >= 2,
        line_fits(a, d, n),
    ensures
        line(a, d, n)[0] == a,
        heading(line(a, d, n)) == d,
        all_in_bounds(line(a, d, n)),
{
    assert(fits(a, d, 0));
    assert(fits(a, d, 1));
    let l = line(a, d, n);
    assert(l[0] == a);
    assert(l[1] == cell_at(a, d, 1));
    assert forall|i: int| 0 <= i < n implies (#[trigger] line(a, d, n)[i]).in_bounds() by {
        assert(fits(a, d, i));
    }
}

/// A straight line moved one step keeps its direction, and starts one step
/// further.
proof fn lemma_line_shift(a: Cell, d: Direction, e: Direction, n: nat)
    requires
        n >= 2,
        line_fits(a, d, n),
        can_shift(line(a, d, n), e),
    ensures
        line(a, d, n).map_values(|c: Cell| cell_at(c, e, 1)) == line(cell_at(a, e, 1), d, n),
        line_fits(cell_at(a, e, 1), d, n),
{
    let l = line(a, d, n);
    let b = cell_at(a, e, 1);
    lemma_line_facts(a, d, n);
    assert(fits(l[0], e, 1));
    assert forall|k: int| 0 <= k < n implies #[trigger] cell_at(l[k], e, 1) == cell_at(b, d, k)
        && fits(b, d, k) by {
        assert(fits(a, d, k));
        assert(l[k] == cell_at(a, d, k));
        assert(fits(l[k], e, 1));
    }
    assert forall|k: int| 0 <= k < n implies #[trigger] fits(b, d, k) by {
        assert(cell_at(l[k], e, 1) == cell_at(b, d, k));
    }
    assert(l.map_values(|c: Cell| cell_at(c, e, 1)) =~= line(b, d, n));
}

impl Ship {
    pub open spec fn wf(&self) -> bool {
        ship_shape(self@)
    }

    /// Moves every cell one step towards `direction`, or none of them when any
    /// would leave the grid.
    pub fn shift(&mut self, direction: &Direction)
        ensures
            final(self).status == old(self).status,
            final(self).len == old(self).len,
            final(self).cells@ == shifted(old(self).cells@, *direction),
            old(self).wf() ==> final(self).wf(),
    {
        let (dx, dy) = direction.xy();
        let mut moved: Vec<Cell> = Vec::new();
        let mut i: usize = 0;
        while i < self.cells.len()
            invariant
                i <= self.cells.len(),
                dx == direction.vector().0,
                dy == direction.vector().1,
                forall|j: int| 0 <= j < i ==> #[trigger] fits(self.cells@[j], *direction, 1),
                moved@ == self.cells@.subrange(0, i as int).map_values(
                    |c: Cell| cell_at(c, *direction, 1),
                ),
            decreases self.cells.len() - i,
        {
            let cell = self.cells[i];
            let x: i16 = dx as i16 + cell.x as i16;
            let y: i16 = dy as i16 + cell.y as i16;
            if x >= 0 && x < GRID_SIZE as i16 && y >= 0 && y < GRID_SIZE as i16 {
                moved.push(Cell { x: x as u8, y: y as u8 });
                assert(moved@ =~= self.cells@.subrange(0, i + 1).map_values(
                    |c: Cell| cell_at(c, *direction, 1),
                ));
            } else {
                assert(!fits(self.cells@[i as int], *direction, 1));
                return;
            }
            i = i + 1;
        }
        assert(self.cells@.subrange(0, i as int) =~= self.cells@);
        proof {
            if self.wf() {
                let c = self.cells@;
                lemma_line_facts(c[0], heading(c), c.len());
                lemma_line_shift(c[0], heading(c), *direction, c.len());
                lemma_line_facts(moved@[0], heading(c), c.len());
            }
        }
        self.cells = moved;
    }

    /// The direction from the first cell to the second.
    fn heading_of(&self) -> (d: Direction)
        requires
            self.cells.len() >= 2,
        ensures
            d == heading(self.cells@),
    {
        let one = self.cells[0];
        let two = self.cells[1];
        let dx: i16 = one.x as i16 - two.x as i16;
        let dy: i16 = one.y as i16 - two.y as i16;
        if dx == 0 && dy == 1 {
            Direction::Up
        } else if dx == 0 && dy == -1 {
            Direction::Down
        } else if dx == 1 && dy == 0 {
            Direction::Left
        } else {
            Direction::Right
        }
    }

    /// Turns the ship a quarter turn clockwise about its first cell, or leaves
    /// it as it is when any turned cell would leave the grid.
    pub fn rotate_right(&mut self)
        requires
            old(self).wf(),
        ensures
            final(self).status == old(self).status,
            final(self).len == old(self).len,
            final(self).cells@ == rotated(old(self).cells@),
            final(self).wf(),
    {
        let turned = match self.heading_of() {
            Direction::Up => Direction::Right,
            Direction::Right => Direction::Down,
            Direction::Down => Direction::Left,
            Direction::Left => Direction::Up,
        };
        let anchor = self.cells[0];
        match anchor.extend(&turned, self.len) {
            Some(cells) => {
                proof {
                    lemma_line_facts(anchor, turned, self.len as nat);
                }
                self.cells = cells;
            },
            None => {},
        }
    }

    /// Marks the ship as the one being placed.
    pub fn placing(&mut self)
        ensures
            final(self).status == ShipStatus::Placing,
            final(self).len == old(self).len,
            final(self).cells@ == old(self).cells@,
    {
        self.status = ShipStatus::Placing;
    }

    /// Places the ship for good when it shares no cell with a locked ship of
    /// `fleet`, and reports whether it did; otherwise the ship is left as it
    /// was.
    pub fn lock(&mut self, fleet: &Vec<Ship>) -> (r: bool)
        ensures
            r == !meets_locked(old(self).cells@, ships_view(fleet@)),
            r ==> final(self).status == ShipStatus::Locked,
            !r ==> final(self).status == old(self).status,
            final(self).len == old(self).len,
            final(self).cells@ == old(self).cells@,
    {
        let overlap = Ship::any_overlap(self, fleet);
        if !overlap {
            self.status = ShipStatus::Locked;
        }
        !overlap
    }

    /// Whether `ship` shares a cell with a locked ship of `ships`.
    pub fn any_overlap(ship: &Ship, ships: &Vec<Ship>) -> (r: bool)
        ensures
            r == meets_locked(ship.cells@, ships_view(ships@)),
    {
        let mut j: usize = 0;
        while j < ships.len()
            invariant
                j <= ships.len(),
                forall|k: int|
                    0 <= k < j ==> !(ships@[k].status == ShipStatus::Locked && #[trigger] cells_meet(
                        ship.cells@,
                        ships@[k].cells@,
                    )),
                forall|k: int| 0 <= k < ships.len() ==> #[trigger] ships_view(ships@)[k] == ships@[k]@,
            decreases ships.len() - j,
        {
            let other = &ships[j];
            if other.status == ShipStatus::Locked && share_cell(&ship.cells, &other.cells) {
                assert(ships_view(ships@)[j as int] == ships@[j as int]@);
                assert(cells_meet(ship.cells@, ships_view(ships@)[j as int].cells));
                return true;
            }
            j = j + 1;
        }
        proof {
            if meets_locked(ship.cells@, ships_view(ships@)) {
                let k = choose|k: int|
                    0 <= k < ships.len() && ships_view(ships@)[k].status == ShipStatus::Locked
                        && #[trigger] cells_meet(ship.cells@, ships_view(ships@)[k].cells);
                assert(ships_view(ships@)[k] == ships@[k]@);
            }
        }
        false
    }

    /// A ship of `len` cells laid from the top-left corner towards the right.
    fn docked(status: ShipStatus, len: u8) -> (r: Ship)
        requires
            2 <= len <= MAX_SHIP_LEN,
        ensures
            r@ == dock(status, len as nat),
            r.wf(),
    {
        let corner = Cell { x: 0, y: 0 };
        assert(line_fits(corner, Direction::Right, len as nat)) by {
            assert forall|i: int| 0 <= i < len implies #[trigger] fits(
                corner,
                Direction::Right,
                i,
            ) by {}
        }
        proof {
            lemma_line_facts(corner, Direction::Right, len as nat);
        }
        match corner.extend(&Direction::Right, len) {
            Some(cells) => Ship { status, len, cells },
            None => Ship { status, len, cells: Vec::new() },
        }
    }

    /// The fleet a player starts with: ships of lengths 2, 3, 4, 4 and 5 in
    /// the top-left corner, the first one being placed and the others hidden.
    pub fn original_length_ships() -> (r: Vec<Ship>)
        ensures
            ships_view(r@) == starting_fleet(),
            forall|i: int| 0 <= i < r.len() ==> (#[trigger] r@[i]).wf(),
    {
        let mut ships: Vec<Ship> = Vec::new();
        ships.push(Ship::docked(ShipStatus::Placing, 2));
        ships.push(Ship::docked(ShipStatus::Hidden, 3));
        ships.push(Ship::docked(ShipStatus::Hidden, 4));
        ships.push(Ship::docked(ShipStatus::Hidden, 4));
        ships.push(Ship::docked(ShipStatus::Hidden, 5));
        assert(ships_view(ships@) =~= starting_fleet());
        ships
    }

    /// The starting fleet of [`Ship::original_length_ships`], as an array.
    pub fn starting_five() -> (r: [Ship; 5])
        ensures
            ships_view(r@) == starting_fleet(),
            forall|i: int| 0 <= i < 5 ==> (#[trigger] r@[i]).wf(),
    {
        let r = [
            Ship::docked(ShipStatus::Placing, 2),
            Ship::docked(ShipStatus::Hidden, 3),
            Ship::docked(ShipStatus::Hidden, 4),
            Ship::docked(ShipStatus::Hidden, 4),
            Ship::docked(ShipStatus::Hidden, 5),
        ];
        assert(ships_view(r@) =~= starting_fleet());
        r
    }
}

/// Whether `a` and `b` share a cell.
fn share_cell(a: &Vec<Cell>, b: &Vec<Cell>) -> (r: bool)
    ensures
        r == cells_meet(a@, b@),
{
    let mut j: usize = 0;
    while j < b.len()
        invariant
            j <= b.len(),
            forall|k: int| 0 <= k < j ==> !a@.contains(#[trigger] b@[k]),
        decreases b.len() - j,
    {
        if holds_cell(a, &b[j]) {
            return true;
        }
        j = j + 1;
    }
    proof {
        if cells_meet(a@, b@) {
            let (i, k) = choose|i: int, k: int| 0 <= i < a.len() && 0 <= k < b.len() && a@[i] == b@[k];
            assert(a@.contains(b@[k]));
        }
    }
    false
}

/// A ship keeps its shape when it is shifted.
pub proof fn lemma_shifted_shape(s: ShipView, d: Direction)
    requires
        ship_shape(s),
    ensures
        ship_shape(ShipView { cells: shifted(s.cells, d), ..s }),
{
    if can_shift(s.cells, d) {
        let c = s.cells;
        lemma_line_facts(c[0], heading(c), c.len());
        lemma_line_shift(c[0], heading(c), d, c.len());
        lemma_line_facts(cell_at(c[0], d, 1), heading(c), c.len());
    }
}

/// A ship keeps its shape when it is turned.
pub proof fn lemma_rotated_shape(s: ShipView)
    requires
        ship_shape(s),
    ensures
        ship_shape(ShipView { cells: rotated(s.cells), ..s }),
{
    let d = heading(s.cells).clockwise();
    if line_fits(s.cells[0], d, s.cells.len()) {
        lemma_line_facts(s.cells[0], d, s.cells.len());
    }
}

/// Whether two sequences of cells are the same.
fn same_cells(a: &Vec<Cell>, b: &Vec<Cell>) -> (r: bool)
    ensures
        r == (a@ == b@),
{
    if a.len() != b.len() {
        return false;
    }
    let mut i: usize = 0;
    while i < a.len()
        invariant
            a.len() == b.len(),
            i <= a.len(),
            forall|j: int| 0 <= j < i ==> a@[j] == b@[j],
        decreases a.len() - i,
    {
        if a[i] != b[i] {
            return false;
        }
        i = i + 1;
    }
    assert(a@ =~= b@);
    true
}

impl Ship {
    /// Whether the ship has as many cells as its length, between 2 and
    /// [`MAX_SHIP_LEN`], in a straight line on the grid.
    pub fn is_well_formed(&self) -> (r: bool)
        ensures
            r == self.wf(),
    {
        if self.len < 2 || self.len > MAX_SHIP_LEN || self.cells.len() != self.len as usize {
            return false;
        }
        let d = self.heading_of();
        match self.cells[0].extend(&d, self.len) {
            Some(cells) => same_cells(&cells, &self.cells),
            None => false,
        }
    }
}

/// Whether `ships` is a complete fleet of locked ships: five ships of the
/// fleet's lengths, each a straight line on the grid, no two sharing a cell.
pub fn valid_fleet(ships: &Vec<Ship>) -> (r: bool)
    ensures
        r == (fleet_wf(ships_view(ships@)) && all_locked(ships_view(ships@))),
{
    let ghost v = ships_view(ships@);
    if ships.len() != FLEET_SIZE {
        return false;
    }
    let lengths: [u8; 5] = [2, 3, 4, 4, 5];
    let mut i: usize = 0;
    while i < FLEET_SIZE
        invariant
            i <= FLEET_SIZE,
            ships.len() == FLEET_SIZE,
            v == ships_view(ships@),
            lengths@ == seq![2u8, 3u8, 4u8, 4u8, 5u8],
            forall|j: int|
                0 <= j < i ==> ship_shape(#[trigger] v[j]) && v[j].len == fleet_length(j)
                    && v[j].status == ShipStatus::Locked,
        decreases FLEET_SIZE - i,
    {
        let ship = &ships[i];
        if !(ship.is_well_formed() && ship.len == lengths[i] && ship.status == ShipStatus::Locked) {
            assert(v[i as int] == ship@);
            return false;
        }
        i = i + 1;
    }
    let mut a: usize = 0;
    while a < FLEET_SIZE
        invariant
            a <= FLEET_SIZE,
            ships.len() == FLEET_SIZE,
            v == ships_view(ships@),
            forall|x: int, y: int|
                0 <= x < a && 0 <= y < FLEET_SIZE && x != y ==> !cells_meet(
                    #[trigger] v[x].cells,
                    #[trigger] v[y].cells,
                ),
        decreases FLEET_SIZE - a,
    {
        let mut b: usize = 0;
        while b < FLEET_SIZE
            invariant
                a < FLEET_SIZE,
                b <= FLEET_SIZE,
                ships.len() == FLEET_SIZE,
                v == ships_view(ships@),
                forall|x: int, y: int|
                    0 <= x < a && 0 <= y < FLEET_SIZE && x != y ==> !cells_meet(
                        #[trigger] v[x].cells,
                        #[trigger] v[y].cells,
                    ),
                forall|y: int|
                    0 <= y < b && a != y ==> !cells_meet(v[a as int].cells, #[trigger] v[y].cells),
            decreases FLEET_SIZE - b,
        {
            if a != b && share_cell(&ships[a].cells, &ships[b].cells) {
                assert(cells_meet(v[a as int].cells, v[b as int].cells));
                return false;
            }
            b = b + 1;
        }
        a = a + 1;
    }
    true
}

} // verus!
