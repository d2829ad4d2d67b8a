//! The text lines two networked instances exchange: an action batch, one
//! letter per action, and a fleet, one record per ship.
//!
//! A ship record is its status letter (`H`, `P` or `L`), its length as one
//! digit, one digit for `x` and one for `y` of each cell, and a closing `;`.

use vstd::prelude::*;

use crate::fleet::{heading, lemma_line_facts, ship_shape, Ship, ShipStatus, ShipView};
use crate::geometry::{Cell, Direction};

verus! {

/// An action the game understands, whatever input produced it.
#[derive(Clone, Copy, Debug, PartialEq, Eq, Structural)]
pub enum Move {
    Enter,
    Space,
    Right,
    Left,
    Up,
    Down,
}

/// The direction a move heads towards, when it is a movement.
pub open spec fn move_direction(m: Move) -> Option<Direction> {
    match m {
        Move::Up => Some(Direction::Up),
        Move::Down => Some(Direction::Down),
        Move::Left => Some(Direction::Left),
        Move::Right => Some(Direction::Right),
        _ => None,
    }
}

/// The movement towards a direction.
pub open spec fn direction_move(d: Direction) -> Move {
    match d {
        Direction::Up => Move::Up,
        Direction::Down => Move::Down,
        Direction::Left => Move::Left,
        Direction::Right => Move::Right,
    }
}

impl From<Direction> for Move {
    fn from(item: Direction) -> Move {
        match item {
            Direction::Up => Move::Up,
            Direction::Down => Move::Down,
            Direction::Right => Move::Right,
            Direction::Left => Move::Left,
        }
    }
}

impl vstd::std_specs::convert::FromSpecImpl<Direction> for Move {
    open spec fn obeys_from_spec() -> bool {
        true
    }

    open spec fn from_spec(v: Direction) -> Move {
        direction_move(v)
    }
}

/// The letter that stands for a move on the wire.
pub open spec fn move_code(m: Move) -> u8 {
    match m {
        Move::Enter => 69,  // E
        Move::Space => 83,  // S
        Move::Right => 82,  // R
        Move::Left => 76,  // L
        Move::Up => 85,  // U
        Move::Down => 68,  // D
    }
}

/// The move a letter stands for, if any.
pub open spec fn code_move(b: u8) -> Option<Move> {
    if b == 69 {
        Some(Move::Enter)
    } else if b == 83 {
        Some(Move::Space)
    } else if b == 82 {
        Some(Move::Right)
    } else if b == 76 {
        Some(Move::Left)
    } else if b == 85 {
        Some(Move::Up)
    } else if b == 68 {
        Some(Move::Down)
    } else {
        None
    }
}

/// The line that carries an action batch.
pub open spec fn moves_text(ms: Seq<Move>) -> Seq<u8> {
    ms.map_values(|m: Move| move_code(m))
}

/// The action batch a line carries, or `None` when some byte stands for no move.
pub open spec fn parse_moves(b: Seq<u8>) -> Option<Seq<Move>> {
    if forall|i: int| 0 <= i < b.len() ==> (#[trigger] code_move(b[i])) is Some {
        Some(b.map_values(|c: u8| code_move(c)->0))
    } else {
        None
    }
}

/// Decoding an encoded action batch gives the batch back.
pub proof fn lemma_moves_round_trip(ms: Seq<Move>)
    ensures
        parse_moves(moves_text(ms)) == Some(ms),
{
    let t = moves_text(ms);
    assert forall|i: int| 0 <= i < t.len() implies (#[trigger] code_move(t[i])) is Some && code_move(
        t[i],
    )->0 == ms[i] by {}
    assert(t.map_values(|c: u8| code_move(c)->0) =~= ms);
}

/// A line that decodes to an action batch is that batch's encoding.
pub proof fn lemma_moves_canonical(b: Seq<u8>)
    requires
        parse_moves(b) is Some,
    ensures
        moves_text(parse_moves(b)->0) == b,
{
    let ms = parse_moves(b)->0;
    assert forall|i: int| 0 <= i < b.len() implies move_code(ms[i]) == b[i] by {
        assert(code_move(b[i]) is Some);
    }
    assert(moves_text(ms) =~= b);
}

fn encode_move(m: Move) -> (r: u8)
    ensures
        r == move_code(m),
{
    match m {
        Move::Enter => 69,
        Move::Space => 83,
        Move::Right => 82,
        Move::Left => 76,
        Move::Up => 85,
        Move::Down => 68,
    }
}

fn decode_move(b: u8) -> (r: Option<Move>)
    ensures
        r == code_move(b),
{
    if b == 69 {
        Some(Move::Enter)
    } else if b == 83 {
        Some(Move::Space)
    } else if b == 82 {
        Some(Move::Right)
    } else if b == 76 {
        Some(Move::Left)
    } else if b == 85 {
        Some(Move::Up)
    } else if b == 68 {
        Some(Move::Down)
    } else {
        None
    }
}

/// The line that carries `moves`.
pub fn encode_moves(moves: &Vec<Move>) -> (r: Vec<u8>)
    ensures
        r@ == moves_text(moves@),
{
    let mut r: Vec<u8> = Vec::new();
    let mut i: usize = 0;
    while i < moves.len()
        invariant
            i <= moves.len(),
            r@ == moves_text(moves@.subrange(0, i as int)),
        decreases moves.len() - i,
    {
        r.push(encode_move(moves[i]));
        i = i + 1;
        assert(r@ =~= moves_text(moves@.subrange(0, i as int)));
    }
    assert(moves@.subrange(0, i as int) =~= moves@);
    r
}

/// The action batch that `bytes` carries, or `None` when some byte stands for
/// no move.
pub fn decode_moves(bytes: &Vec<u8>) -> (r: Option<Vec<Move>>)
    ensures
        match r {
            Some(ms) => parse_moves(bytes@) == Some(ms@),
            None => parse_moves(bytes@) is None,
        },
{
    let mut ms: Vec<Move> = Vec::new();
    let mut i: usize = 0;
    while i < bytes.len()
        invariant
            i <= bytes.len(),
            ms@ == bytes@.subrange(0, i as int).map_values(|c: u8| code_move(c)->0),
            forall|j: int| 0 <= j < i ==> (#[trigger] code_move(bytes@[j])) is Some,
        decreases bytes.len() - i,
    {
        match decode_move(bytes[i]) {
            Some(m) => ms.push(m),
            None => {
                return None;
            },
        }
        i = i + 1;
        assert(ms@ =~= bytes@.subrange(0, i as int).map_values(|c: u8| code_move(c)->0));
    }
    assert(bytes@.subrange(0, i as int) =~= bytes@);
    Some(ms)
}

/// The ASCII digit for `n`.
pub open spec fn digit(n: int) -> u8 {
    (48 + n) as u8
}

/// The value of an ASCII digit, if `b` is one.
pub open spec fn digit_value(b: u8) -> Option<nat> {
    if 48 <= b <= 57 {
        Some((b - 48) as nat)
    } else {
        None
    }
}

/// The letter that stands for a ship status.
pub open spec fn status_code(s: ShipStatus) -> u8 {
    match s {
        ShipStatus::Hidden => 72,  // H
        ShipStatus::Placing => 80,  // P
        ShipStatus::Locked => 76,  // L
    }
}

/// The status a letter stands for, if any.
pub open spec fn code_status(b: u8) -> Option<ShipStatus> {
    if b == 72 {
        Some(ShipStatus::Hidden)
    } else if b == 80 {
        Some(ShipStatus::Placing)
    } else if b == 76 {
        Some(ShipStatus::Locked)
    } else {
        None
    }
}

/// The byte that closes a ship record.
pub open spec fn record_end() -> u8 {
    59
}

/// Two digits per cell.
pub open spec fn cells_text(cells: Seq<Cell>) -> Seq<u8> {
    Seq::new(
        2 * cells.len(),
        |i: int|
            if i % 2 == 0 {
                digit(cells[i / 2].x as int)
            } else {
                digit(cells[i / 2].y as int)
            },
    )
}

/// The record of one ship.
pub open spec fn ship_text(s: ShipView) -> Seq<u8> {
    seq![status_code(s.status), digit(s.len as int)] + cells_text(s.cells) + seq![record_end()]
}

/// The line that carries a fleet: the records of its ships, in order.
pub open spec fn ships_text(ships: Seq<ShipView>) -> Seq<u8>
    decreases ships.len(),
{
    if ships.len() == 0 {
        Seq::empty()
    } else {
        ship_text(ships[0]) + ships_text(ships.drop_first())
    }
}

/// A ship that a record can carry: as many cells as its length, and every
/// number a single digit.
pub open spec fn encodable(s: ShipView) -> bool {
    &&& s.len <= 9
    &&& s.cells.len() == s.len
    &&& forall|i: int| 0 <= i < s.cells.len() ==> (#[trigger] s.cells[i]).x <= 9 && s.cells[i].y <= 9
}

/// Every ship of the game can be written as a record.
pub proof fn lemma_shape_encodable(s: ShipView)
    requires
        ship_shape(s),
    ensures
        encodable(s),
{
    lemma_line_facts(s.cells[0], heading(s.cells), s.cells.len());
    assert forall|i: int| 0 <= i < s.cells.len() implies (#[trigger] s.cells[i]).x <= 9
        && s.cells[i].y <= 9 by {
        assert(s.cells[i].in_bounds());
    }
}

/// The number of bytes of a record for a ship of length `len`.
pub open spec fn record_size(len: nat) -> nat {
    2 * len + 3
}

/// The ship whose record starts `b`, with the record's size; `None` when `b`
/// does not start with a well-formed record.
pub open spec fn parse_ship(b: Seq<u8>) -> Option<(ShipView, nat)> {
    if b.len() < 2 || code_status(b[0]) is None || digit_value(b[1]) is None {
        None
    } else {
        let len = digit_value(b[1])->0;
        let n = record_size(len);
        if b.len() < n || b[n - 1] != record_end() || exists|i: int|
            2 <= i < n - 1 && #[trigger] digit_value(b[i]) is None {
            None
        } else {
            let cells = Seq::new(
                len,
                |j: int|
                    Cell {
                        x: digit_value(b[2 + 2 * j])->0 as u8,
                        y: digit_value(b[3 + 2 * j])->0 as u8,
                    },
            );
            Some((ShipView { status: code_status(b[0])->0, len, cells }, n))
        }
    }
}

/// The fleet a line carries, or `None` when it is not a sequence of
/// well-formed records.
pub open spec fn parse_ships(b: Seq<u8>) -> Option<Seq<ShipView>>
    decreases b.len(),
{
    if b.len() == 0 {
        Some(Seq::empty())
    } else {
        match parse_ship(b) {
            Some((s, n)) => if n > 0 {
                match parse_ships(b.subrange(n as int, b.len() as int)) {
                    Some(rest) => Some(seq![s] + rest),
                    None => None,
                }
            } else {
                None
            },
            None => None,
        }
    }
}

/// A record is read back as the ship it was written from, whatever follows it.
pub proof fn lemma_ship_record(s: ShipView, rest: Seq<u8>)
    requires
        encodable(s),
    ensures
        parse_ship(ship_text(s) + rest) == Some((s, record_size(s.len))),
{
    let b = ship_text(s) + rest;
    let n = record_size(s.len);
    let c = cells_text(s.cells);
    assert(b[0] == status_code(s.status));
    assert(b[1] == digit(s.len as int));
    assert(digit_value(b[1]) == Some(s.len));
    assert forall|i: int| 2 <= i < n - 1 implies #[trigger] b[i] == c[i - 2] by {}
    assert forall|i: int| 2 <= i < n - 1 implies #[trigger] digit_value(b[i]) is Some by {
        assert(b[i] == c[i - 2]);
        let k = (i - 2) / 2;
        assert(s.cells[k].x <= 9 && s.cells[k].y <= 9);
    }
    assert(b[n - 1] == record_end());
    let cells = Seq::new(
        s.len,
        |j: int|
            Cell {
                x: digit_value(b[2 + 2 * j])->0 as u8,
                y: digit_value(b[3 + 2 * j])->0 as u8,
            },
    );
    assert forall|j: int| 0 <= j < s.len implies cells[j] == s.cells[j] by {
        assert(b[2 + 2 * j] == c[2 * j]);
        assert(b[3 + 2 * j] == c[2 * j + 1]);
        assert(s.cells[j].x <= 9 && s.cells[j].y <= 9);
    }
    assert(cells =~= s.cells);
}

/// A fleet line that starts with the record of `s` is read as `s` followed by
/// what the rest of the line is read as.
proof fn lemma_parse_ships_cons(s: ShipView, rest: Seq<u8>)
    requires
        encodable(s),
    ensures
        parse_ships(ship_text(s) + rest) == match parse_ships(rest) {
            Some(r) => Some(seq![s] + r),
            None => None,
        },
{
    let t = ship_text(s) + rest;
    lemma_ship_record(s, rest);
    assert(t.subrange(ship_text(s).len() as int, t.len() as int) =~= rest);
}

/// Decoding an encoded fleet gives the fleet back.
pub proof fn lemma_ships_round_trip(ships: Seq<ShipView>)
    requires
        forall|i: int| 0 <= i < ships.len() ==> encodable(#[trigger] ships[i]),
    ensures
        parse_ships(ships_text(ships)) == Some(ships),
    decreases ships.len(),
{
    if ships.len() > 0 {
        let rest = ships.drop_first();
        assert forall|i: int| 0 <= i < rest.len() implies encodable(#[trigger] rest[i]) by {
            assert(rest[i] == ships[i + 1]);
        }
        lemma_ships_round_trip(rest);
        assert(encodable(ships[0]));
        lemma_parse_ships_cons(ships[0], ships_text(rest));
        assert(seq![ships[0]] + rest =~= ships);
    } else {
        assert(ships =~= Seq::<ShipView>::empty());
    }
}

/// The record a well-formed record is read as is that record.
proof fn lemma_ship_record_canonical(b: Seq<u8>)
    requires
        parse_ship(b) is Some,
    ensures
        b.subrange(0, (parse_ship(b)->0).1 as int) == ship_text((parse_ship(b)->0).0),
        encodable((parse_ship(b)->0).0),
{
    let (s, n) = parse_ship(b)->0;
    let t = ship_text(s);
    assert forall|i: int| 2 <= i < n - 1 implies #[trigger] digit_value(b[i]) is Some by {}
    assert forall|i: int| 0 <= i < n implies #[trigger] b[i] == t[i] by {
        if 2 <= i < n - 1 {
            assert(digit_value(b[i]) is Some);
            let k = (i - 2) / 2;
            if i % 2 == 0 {
                assert(i == 2 + 2 * k);
            } else {
                assert(i == 3 + 2 * k);
            }
        }
    }
    assert(b.subrange(0, n as int) =~= t);
    assert forall|j: int| 0 <= j < s.cells.len() implies (#[trigger] s.cells[j]).x <= 9
        && s.cells[j].y <= 9 by {
        assert(digit_value(b[2 + 2 * j]) is Some);
        assert(digit_value(b[3 + 2 * j]) is Some);
    }
}

/// A line that decodes to a fleet is that fleet's encoding.
pub proof fn lemma_ships_canonical(b: Seq<u8>)
    requires
        parse_ships(b) is Some,
    ensures
        ships_text(parse_ships(b)->0) == b,
        forall|i: int|
            0 <= i < parse_ships(b)->0.len() ==> encodable(#[trigger] parse_ships(b)->0[i]),
    decreases b.len(),
{
    if b.len() > 0 {
        let (s, n) = parse_ship(b)->0;
        let tail = b.subrange(n as int, b.len() as int);
        lemma_ship_record_canonical(b);
        lemma_ships_canonical(tail);
        let ss = parse_ships(b)->0;
        let rest = parse_ships(tail)->0;
        assert(ss == seq![s] + rest);
        assert(ss.drop_first() =~= rest);
        assert(b =~= b.subrange(0, n as int) + tail);
        assert forall|i: int| 0 <= i < ss.len() implies encodable(#[trigger] ss[i]) by {
            if i > 0 {
                assert(ss[i] == rest[i - 1]);
            }
        }
    }
}

/// Adding a ship at the end of a fleet adds its record at the end of the line.
proof fn lemma_ships_text_push(ships: Seq<ShipView>, s: ShipView)
    ensures
        ships_text(ships.push(s)) == ships_text(ships) + ship_text(s),
    decreases ships.len(),
{
    if ships.len() == 0 {
        assert(ships.push(s).drop_first() =~= Seq::<ShipView>::empty());
        assert(ships_text(ships.push(s).drop_first()) == Seq::<u8>::empty());
        assert(ships_text(ships.push(s)) =~= ship_text(s));
    } else {
        lemma_ships_text_push(ships.drop_first(), s);
        assert(ships.push(s).drop_first() =~= ships.drop_first().push(s));
        assert(ships_text(ships.push(s)) =~= ships_text(ships) + ship_text(s));
    }
}

fn encode_status(s: ShipStatus) -> (r: u8)
    ensures
        r == status_code(s),
{
    match s {
        ShipStatus::Hidden => 72,
        ShipStatus::Placing => 80,
        ShipStatus::Locked => 76,
    }
}

fn decode_status(b: u8) -> (r: Option<ShipStatus>)
    ensures
        r == code_status(b),
{
    if b == 72 {
        Some(ShipStatus::Hidden)
    } else if b == 80 {
        Some(ShipStatus::Placing)
    } else if b == 76 {
        Some(ShipStatus::Locked)
    } else {
        None
    }
}

/// Appends the record of `ship` to `out`.
fn encode_ship(ship: &Ship, out: &mut Vec<u8>)
    requires
        encodable(ship@),
    ensures
        final(out)@ == old(out)@ + ship_text(ship@),
{
    let ghost start = out@;
    out.push(encode_status(ship.status));
    out.push(48 + ship.len);
    let mut i: usize = 0;
    while i < ship.cells.len()
        invariant
            encodable(ship@),
            i <= ship.cells.len(),
            out@ == start + seq![status_code(ship.status), digit(ship.len as int)] + cells_text(
                ship.cells@.subrange(0, i as int),
            ),
        decreases ship.cells.len() - i,
    {
        let c = ship.cells[i];
        assert(c.x <= 9 && c.y <= 9);
        out.push(48 + c.x);
        out.push(48 + c.y);
        i = i + 1;
        assert(out@ =~= start + seq![status_code(ship.status), digit(ship.len as int)] + cells_text(
            ship.cells@.subrange(0, i as int),
        ));
    }
    out.push(59);
    assert(ship.cells@.subrange(0, i as int) =~= ship.cells@);
    assert(out@ =~= start + ship_text(ship@));
}

/// The line that carries `ships`.
pub fn encode_ships(ships: &Vec<Ship>) -> (r: Vec<u8>)
    requires
        forall|i: int| 0 <= i < ships.len() ==> encodable(#[trigger] ships@[i]@),
    ensures
        r@ == ships_text(crate::fleet::ships_view(ships@)),
{
    let ghost v = crate::fleet::ships_view(ships@);
    let mut r: Vec<u8> = Vec::new();
    let mut i: usize = 0;
    assert(v.subrange(0, 0) =~= Seq::<ShipView>::empty());
    while i < ships.len()
        invariant
            i <= ships.len(),
            v == crate::fleet::ships_view(ships@),
            forall|j: int| 0 <= j < ships.len() ==> encodable(#[trigger] ships@[j]@),
            r@ == ships_text(v.subrange(0, i as int)),
        decreases ships.len() - i,
    {
        encode_ship(&ships[i], &mut r);
        proof {
            lemma_ships_text_push(v.subrange(0, i as int), v[i as int]);
            assert(v.subrange(0, i as int).push(v[i as int]) =~= v.subrange(0, i + 1));
        }
        i = i + 1;
    }
    assert(v.subrange(0, i as int) =~= v);
    r
}

/// The ship whose record starts at `pos` in `bytes`, with the record's size.
fn decode_ship(bytes: &Vec<u8>, pos: usize) -> (r: Option<(Ship, usize)>)
    requires
        pos <= bytes.len(),
    ensures
        match r {
            Some((s, n)) => parse_ship(bytes@.subrange(pos as int, bytes.len() as int)) == Some(
                (s@, n as nat),
            ),
            None => parse_ship(bytes@.subrange(pos as int, bytes.len() as int)) is None,
        },
{
    let ghost b = bytes@.subrange(pos as int, bytes.len() as int);
    if bytes.len() - pos < 2 {
        return None;
    }
    let status = match decode_status(bytes[pos]) {
        Some(st) => st,
        None => {
            return None;
        },
    };
    let d = bytes[pos + 1];
    if !(48 <= d && d <= 57) {
        return None;
    }
    let len: u8 = d - 48;
    let n: usize = 2 * len as usize + 3;
    if bytes.len() - pos < n || bytes[pos + n - 1] != 59 {
        return None;
    }
    let mut i: usize = 2;
    while i < n - 1
        invariant
            2 <= i <= n - 1,
            n == record_size(len as nat),
            pos + n <= bytes.len(),
            b == bytes@.subrange(pos as int, bytes.len() as int),
            code_status(b[0]) == Some(status),
            digit_value(b[1]) == Some(len as nat),
            b[n - 1] == record_end(),
            forall|j: int| 2 <= j < i ==> #[trigger] digit_value(b[j]) is Some,
        decreases n - 1 - i,
    {
        let c = bytes[pos + i];
        if !(48 <= c && c <= 57) {
            assert(digit_value(b[i as int]) is None);
            return None;
        }
        i = i + 1;
    }
    let mut cells: Vec<Cell> = Vec::new();
    let mut j: usize = 0;
    while j < len as usize
        invariant
            j <= len,
            n == record_size(len as nat),
            pos + n <= bytes.len(),
            b == bytes@.subrange(pos as int, bytes.len() as int),
            code_status(b[0]) == Some(status),
            digit_value(b[1]) == Some(len as nat),
            b[n - 1] == record_end(),
            forall|k: int| 2 <= k < n - 1 ==> #[trigger] digit_value(b[k]) is Some,
            forall|k: int|
                0 <= k < j ==> #[trigger] cells@[k] == (Cell {
                    x: digit_value(b[2 + 2 * k])->0 as u8,
                    y: digit_value(b[3 + 2 * k])->0 as u8,
                }),
            cells.len() == j,
        decreases len - j,
    {
        assert(digit_value(b[2 + 2 * j]) is Some);
        assert(digit_value(b[3 + 2 * j]) is Some);
        let x = bytes[pos + 2 + 2 * j] - 48;
        let y = bytes[pos + 3 + 2 * j] - 48;
        cells.push(Cell { x, y });
        j = j + 1;
    }
    let ship = Ship { status, len, cells };
    proof {
        let expect = (parse_ship(b)->0).0;
        assert(ship@.cells =~= expect.cells);
    }
    Some((ship, n))
}

/// The fleet that `bytes` carries, or `None` when it is not a sequence of
/// well-formed ship records.
pub fn decode_ships(bytes: &Vec<u8>) -> (r: Option<Vec<Ship>>)
    ensures
        match r {
            Some(ships) => parse_ships(bytes@) == Some(crate::fleet::ships_view(ships@)),
            None => parse_ships(bytes@) is None,
        },
{
    let mut ships: Vec<Ship> = Vec::new();
    let mut pos: usize = 0;
    assert(bytes@.subrange(0, bytes.len() as int) =~= bytes@);
    while pos < bytes.len()
        invariant
            pos <= bytes.len(),
            parse_ships(bytes@) == match parse_ships(bytes@.subrange(pos as int, bytes.len() as int)) {
                Some(rest) => Some(crate::fleet::ships_view(ships@) + rest),
                None => None,
            },
        decreases bytes.len() - pos,
    {
        let ghost b = bytes@.subrange(pos as int, bytes.len() as int);
        match decode_ship(bytes, pos) {
            Some((ship, n)) => {
                proof {
                    assert(b.subrange(n as int, b.len() as int) =~= bytes@.subrange(
                        pos + n,
                        bytes.len() as int,
                    ));
                }
                let ghost before = crate::fleet::ships_view(ships@);
                ships.push(ship);
                proof {
                    assert(crate::fleet::ships_view(ships@) =~= before + seq![ship@]);
                    match parse_ships(bytes@.subrange(pos + n, bytes.len() as int)) {
                        Some(rest) => {
                            assert(before + (seq![ship@] + rest) =~= before + seq![ship@] + rest);
                        },
                        None => {},
                    }
                }
                pos = pos + n;
            },
            None => {
                return None;
            },
        }
    }
    proof {
        assert(bytes@.subrange(pos as int, bytes.len() as int) =~= Seq::<u8>::empty());
        assert(crate::fleet::ships_view(ships@) + Seq::<ShipView>::empty() =~= crate::fleet::ships_view(ships@));
    }
    Some(ships)
}

} // verus!
