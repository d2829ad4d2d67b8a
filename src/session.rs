//! The game session: whose turn it is, how each side's actions change the
//! players, when the game ends, and what is exchanged with a networked peer.

use vstd::prelude::*;

use rand::rngs::ThreadRng;

use crate::codec::{
    decode_moves, decode_ships, direction_move, encode_moves, encode_ships, encodable,
    move_direction, moves_text, parse_moves, parse_ships, ships_text, Move,
};
use crate::fleet::{
    all_locked, fleet_wf, holds_cell, rotated, shifted, ships_view, Ship, ShipStatus,
    ShipView,
};
use crate::geometry::{cell_at, fits, Cell, Direction};
use crate::player::{
    can_lock, find_status, first_with, fired, has_status, index_of, lemma_index_of, lock_placing, placing_at,
    player_wf, Player, PlayerStatus, PlayerView,
};
use crate::random::{below, chance, new_rng};

verus! {

#[derive(Clone, Copy, Debug, PartialEq, Eq, Structural)]
pub enum GameResult {
    Victory,
    Defeat,
}

/// Where the opponent's actions come from.
#[derive(Clone, Copy, Debug, PartialEq, Eq, Structural)]
pub enum GameType {
    Ai,
    LocalNetwork,
}

#[derive(Clone, Copy, Debug, PartialEq, Eq, Structural)]
pub enum GameStatus {
    Playing,
    End(GameResult),
}

/// The effect of one action of the aiming side `p` on `p` and on the other
/// side `o`: a movement moves the target cursor when it stays on the grid; a
/// fire while aiming at a cell not shot before records the shot and hands
/// the turn over.
pub open spec fn aim_step(m: Move, p: PlayerView, o: PlayerView) -> (PlayerView, PlayerView) {
    match move_direction(m) {
        Some(d) => (
            PlayerView {
                target: if fits(p.target, d, 1) {
                    cell_at(p.target, d, 1)
                } else {
                    p.target
                },
                ..p
            },
            o,
        ),
        None => if p.status == PlayerStatus::Aiming && !p.shots.contains(p.target) {
            (
                PlayerView { status: PlayerStatus::Waiting, ..fired(p) },
                PlayerView { status: PlayerStatus::Aiming, ..o },
            )
        } else {
            (p, o)
        },
    }
}

/// The effect of a batch of actions of the aiming side, one after the other.
pub open spec fn aim_all(ms: Seq<Move>, p: PlayerView, o: PlayerView) -> (PlayerView, PlayerView)
    decreases ms.len(),
{
    if ms.len() == 0 {
        (p, o)
    } else {
        let (p1, o1) = aim_all(ms.drop_last(), p, o);
        aim_step(ms.last(), p1, o1)
    }
}

/// Firing at a cell already shot leaves both sides as they were, turn
/// included; firing at a new cell records exactly that one shot and swaps
/// who aims and who waits.
pub proof fn lemma_fire_turns(m: Move, p: PlayerView, o: PlayerView)
    requires
        m == Move::Enter || m == Move::Space,
        p.status == PlayerStatus::Aiming,
        o.status == PlayerStatus::Waiting,
    ensures
        p.shots.contains(p.target) ==> aim_step(m, p, o) == (p, o),
        !p.shots.contains(p.target) ==> {
            &&& aim_step(m, p, o).0.shots == p.shots.push(p.target)
            &&& aim_step(m, p, o).0.status == PlayerStatus::Waiting
            &&& aim_step(m, p, o).1 == (PlayerView { status: PlayerStatus::Aiming, ..o })
        },
{
}

/// A fire that hits the last unshot cell of the waiting side's fleet hands
/// the turn over and ends the game: in victory when the local side fired,
/// and in defeat when the opponent fired and the local side had not sunk
/// the opponent's fleet before.
pub proof fn lemma_sinking_shot(m: Move, shooter: PlayerView, target: PlayerView)
    requires
        m == Move::Enter || m == Move::Space,
        shooter.status == PlayerStatus::Aiming,
        !shooter.shots.contains(shooter.target),
        fleet_sunk(target.ships, shooter.shots.push(shooter.target)),
    ensures
        aim_step(m, shooter, target).0.status == PlayerStatus::Waiting,
        aim_step(m, shooter, target).1.status == PlayerStatus::Aiming,
        outcome(GameStatus::Playing, aim_step(m, shooter, target).0, aim_step(m, shooter, target).1)
            == GameStatus::End(GameResult::Victory),
        !fleet_sunk(shooter.ships, target.shots) ==> outcome(
            GameStatus::Playing,
            aim_step(m, shooter, target).1,
            aim_step(m, shooter, target).0,
        ) == GameStatus::End(GameResult::Defeat),
{
}

/// The scripted opponent's batch for its draws: a fire when `fire` holds,
/// otherwise a movement towards the direction numbered `index`.
pub open spec fn scripted(fire: bool, index: int) -> Seq<Move> {
    if fire {
        seq![Move::Enter]
    } else {
        seq![direction_move(Direction::from_index_spec(index))]
    }
}

/// A batch the scripted opponent may play, for some draws.
pub open spec fn scripted_batch(ms: Seq<Move>) -> bool {
    exists|fire: bool, index: int| 0 <= index < 4 && ms == #[trigger] scripted(fire, index)
}

/// Every cell of the ship has been shot.
pub open spec fn ship_sunk(s: ShipView, shots: Seq<Cell>) -> bool {
    forall|k: int| 0 <= k < s.cells.len() ==> shots.contains(#[trigger] s.cells[k])
}

/// Every ship of the fleet is sunk.
pub open spec fn fleet_sunk(ships: Seq<ShipView>, shots: Seq<Cell>) -> bool {
    forall|j: int| 0 <= j < ships.len() ==> ship_sunk(#[trigger] ships[j], shots)
}

/// The status after the victory check: the local side wins when the other
/// fleet is sunk, loses when its own fleet is sunk (a win taking precedence),
/// and the status is kept otherwise.
pub open spec fn outcome(st: GameStatus, this: PlayerView, other: PlayerView) -> GameStatus {
    if fleet_sunk(other.ships, this.shots) {
        GameStatus::End(GameResult::Victory)
    } else if fleet_sunk(this.ships, other.shots) {
        GameStatus::End(GameResult::Defeat)
    } else {
        st
    }
}

/// The pairs of player statuses a session in play can be in: both placing;
/// the local side done placing and waiting for the peer's fleet; or one side
/// aiming and the other waiting.
pub open spec fn turns_ok(t: PlayerStatus, o: PlayerStatus, game_type: GameType) -> bool {
    ||| t == PlayerStatus::Placing && o == PlayerStatus::Placing
    ||| t == PlayerStatus::Waiting && o == PlayerStatus::Placing && game_type
        == GameType::LocalNetwork
    ||| t == PlayerStatus::Aiming && o == PlayerStatus::Waiting
    ||| t == PlayerStatus::Waiting && o == PlayerStatus::Aiming
}

/// The effect of one placement action on the local player: a movement or a
/// rotation moves the ship being placed (or leaves it, when it would leave
/// the grid); `Enter` locks it when it meets no locked ship and hands
/// placement to the next hidden ship, if any. The flag tells whether the
/// last ship was just locked.
pub open spec fn place_step(m: Move, p: PlayerView) -> (PlayerView, bool) {
    let k = index_of(p.ships, ShipStatus::Placing);
    let ship = p.ships[k];
    match m {
        Move::Enter => if can_lock(p.ships) {
            let locked = lock_placing(p.ships);
            if has_status(locked, ShipStatus::Hidden) {
                let j = index_of(locked, ShipStatus::Hidden);
                (
                    PlayerView {
                        ships: locked.update(j, ShipView { status: ShipStatus::Placing, ..locked[j] }),
                        ..p
                    },
                    false,
                )
            } else {
                (PlayerView { ships: locked, ..p }, true)
            }
        } else {
            (p, false)
        },
        Move::Space => (
            PlayerView { ships: p.ships.update(k, ShipView { cells: rotated(ship.cells), ..ship }), ..p },
            false,
        ),
        _ => (
            PlayerView {
                ships: p.ships.update(
                    k,
                    ShipView { cells: shifted(ship.cells, move_direction(m)->0), ..ship },
                ),
                ..p
            },
            false,
        ),
    }
}

/// The effect of a batch of placement actions, one after the other; the
/// actions that follow the locking of the last ship are dropped.
pub open spec fn place_all(ms: Seq<Move>, p: PlayerView) -> (PlayerView, bool)
    decreases ms.len(),
{
    if ms.len() == 0 {
        (p, false)
    } else {
        let (p1, done) = place_all(ms.drop_last(), p);
        if done {
            (p1, true)
        } else {
            place_step(ms.last(), p1)
        }
    }
}

/// Once the last ship is locked, later actions of the batch change nothing.
proof fn lemma_place_done_stays(ms: Seq<Move>, p: PlayerView, i: int, n: int)
    requires
        0 <= i <= n <= ms.len(),
        place_all(ms.subrange(0, i), p).1,
    ensures
        place_all(ms.subrange(0, n), p) == place_all(ms.subrange(0, i), p),
    decreases n - i,
{
    if n > i {
        lemma_place_done_stays(ms, p, i, n - 1);
        assert(ms.subrange(0, n).drop_last() =~= ms.subrange(0, n - 1));
    }
}

/// A placement action keeps the local player well formed; once the last
/// ship is locked, the whole fleet is.
proof fn lemma_place_step_wf(m: Move, p: PlayerView)
    requires
        player_wf(p),
        p.status == PlayerStatus::Placing,
    ensures
        place_step(m, p).0.status == p.status,
        place_step(m, p).0.target == p.target,
        place_step(m, p).0.shots == p.shots,
        !place_step(m, p).1 ==> player_wf(place_step(m, p).0),
        place_step(m, p).1 ==> player_wf(
            PlayerView { status: PlayerStatus::Waiting, ..place_step(m, p).0 },
        ),
{
    let ships = p.ships;
    let k = choose|k: int| #[trigger] placing_at(ships, k);
    assert(first_with(ships, ShipStatus::Placing, k));
    lemma_index_of(ships, ShipStatus::Placing, k);
    let ship = ships[k];
    let (q, done) = place_step(m, p);
    match m {
        Move::Enter => {
            if can_lock(ships) {
                let locked = lock_placing(ships);
                crate::player::lemma_lock_apart(ships);
                assert(locked == ships.update(k, ShipView { status: ShipStatus::Locked, ..ship }));
                if k + 1 < ships.len() {
                    assert(first_with(locked, ShipStatus::Hidden, k + 1));
                    lemma_index_of(locked, ShipStatus::Hidden, k + 1);
                    assert(placing_at(q.ships, k + 1));
                    assert(fleet_wf(q.ships)) by {
                        assert forall|i: int, j: int|
                            0 <= i < q.ships.len() && 0 <= j < q.ships.len() && i != j
                                && q.ships[i].status == ShipStatus::Locked && q.ships[j].status
                                == ShipStatus::Locked implies !crate::fleet::cells_meet(
                            #[trigger] q.ships[i].cells,
                            #[trigger] q.ships[j].cells,
                        ) by {
                            assert(locked[i].status == ShipStatus::Locked);
                            assert(locked[j].status == ShipStatus::Locked);
                        }
                    }
                } else {
                    assert forall|i: int| 0 <= i < locked.len() implies (#[trigger] locked[i]).status
                        != ShipStatus::Hidden by {
                        if i < k {
                            assert(ships[i].status == ShipStatus::Locked);
                        }
                    }
                    assert(!has_status(locked, ShipStatus::Hidden));
                    assert(all_locked(q.ships));
                }
            }
        },
        Move::Space => {
            crate::fleet::lemma_rotated_shape(ship);
            assert(placing_at(q.ships, k));
            assert(fleet_wf(q.ships)) by {
                assert forall|i: int, j: int|
                    0 <= i < q.ships.len() && 0 <= j < q.ships.len() && i != j && q.ships[i].status
                        == ShipStatus::Locked && q.ships[j].status
                        == ShipStatus::Locked implies !crate::fleet::cells_meet(
                    #[trigger] q.ships[i].cells,
                    #[trigger] q.ships[j].cells,
                ) by {
                    assert(q.ships[i] == ships[i]);
                    assert(q.ships[j] == ships[j]);
                }
            }
        },
        _ => {
            crate::fleet::lemma_shifted_shape(ship, move_direction(m)->0);
            assert(placing_at(q.ships, k));
            assert(fleet_wf(q.ships)) by {
                assert forall|i: int, j: int|
                    0 <= i < q.ships.len() && 0 <= j < q.ships.len() && i != j && q.ships[i].status
                        == ShipStatus::Locked && q.ships[j].status
                        == ShipStatus::Locked implies !crate::fleet::cells_meet(
                    #[trigger] q.ships[i].cells,
                    #[trigger] q.ships[j].cells,
                ) by {
                    assert(q.ships[i] == ships[i]);
                    assert(q.ships[j] == ships[j]);
                }
            }
        },
    }
}

/// A player that has just begun: placing the starting fleet, no shots fired.
pub open spec fn fresh_player() -> PlayerView {
    PlayerView {
        status: PlayerStatus::Placing,
        ships: crate::fleet::starting_fleet(),
        target: crate::player::default_target(),
        shots: Seq::empty(),
    }
}

/// The pairs of statuses of a game in turn: one side aims, the other waits.
pub open spec fn in_turn(p: PlayerStatus, o: PlayerStatus) -> bool {
    ||| p == PlayerStatus::Aiming && o == PlayerStatus::Waiting
    ||| p == PlayerStatus::Waiting && o == PlayerStatus::Aiming
}

/// A batch of actions keeps exactly one side aiming.
proof fn lemma_aim_keeps_turns(ms: Seq<Move>, p: PlayerView, o: PlayerView)
    requires
        in_turn(p.status, o.status),
    ensures
        in_turn(aim_all(ms, p, o).0.status, aim_all(ms, p, o).1.status),
    decreases ms.len(),
{
    if ms.len() > 0 {
        lemma_aim_keeps_turns(ms.drop_last(), p, o);
    }
}

/// The effect of a batch of placement actions of the local player `t0`
/// (the opponent being `o0`) that ends with `t1`, `o1` and the step `r`:
/// the placement goes on, or the last ship is locked and the game begins:
/// against the scripted opponent, whose fleet is then laid at random, the
/// local side aims first; against a peer, the exchange of fleets is asked for.
pub open spec fn placement_effect(
    moves: Seq<Move>,
    game_type: GameType,
    t0: PlayerView,
    o0: PlayerView,
    t1: PlayerView,
    o1: PlayerView,
    r: PeerStep,
) -> bool {
    let (p, done) = place_all(moves, t0);
    if !done {
        t1 == p && o1 == o0 && r is Idle
    } else {
        &&& t1.ships == p.ships
        &&& t1.target == p.target
        &&& t1.shots == p.shots
        &&& match game_type {
            GameType::Ai => {
                &&& r is Idle
                &&& t1.status == PlayerStatus::Aiming
                &&& o1.status == PlayerStatus::Waiting
                &&& o1.target == o0.target
                &&& o1.shots == o0.shots
                &&& fleet_wf(o1.ships)
                &&& all_locked(o1.ships)
            },
            GameType::LocalNetwork => {
                &&& r matches PeerStep::SwapFleets(b) && b@ == ships_text(p.ships)
                &&& t1.status == PlayerStatus::Waiting
                &&& o1 == o0
            },
        }
    }
}

/// What the caller has to do on the channel to the peer after an update.
#[derive(Debug)]
pub enum PeerStep {
    /// Nothing.
    Idle,
    /// Send this action batch line.
    SendMoves(Vec<u8>),
    /// Send this fleet line, then receive the peer's fleet line and hand it to
    /// [`World::receive_fleet`].
    SwapFleets(Vec<u8>),
    /// Receive the peer's next action batch line and hand it to
    /// [`World::receive_moves`].
    ReceiveMoves,
}

/// A game session between the local player and an opponent.
pub struct World {
    pub status: GameStatus,
    pub game_type: GameType,
    /// Whether the local side takes the first shot.
    pub local_first: bool,
    pub rng: ThreadRng,
    pub this_player: Player,
    pub other_player: Player,
}

impl World {
    pub open spec fn wf(&self) -> bool {
        &&& player_wf(self.this_player@)
        &&& player_wf(self.other_player@)
        &&& self.status == GameStatus::Playing ==> turns_ok(
            self.this_player.status,
            self.other_player.status,
            self.game_type,
        )
    }

    /// Applies a batch of actions of the aiming side `player`; `other_player`
    /// is the waiting side.
    pub fn aim(moves: &Vec<Move>, player: &mut Player, other_player: &mut Player)
        requires
            player_wf(old(player)@),
            player_wf(old(other_player)@),
            old(player).status != PlayerStatus::Placing,
            old(other_player).status != PlayerStatus::Placing,
        ensures
            (final(player)@, final(other_player)@) == aim_all(
                moves@,
                old(player)@,
                old(other_player)@,
            ),
            player_wf(final(player)@),
            player_wf(final(other_player)@),
            final(player).status != PlayerStatus::Placing,
            final(other_player).status != PlayerStatus::Placing,
    {
        let ghost p0 = player@;
        let ghost o0 = other_player@;
        let mut i: usize = 0;
        while i < moves.len()
            invariant
                i <= moves.len(),
                (player@, other_player@) == aim_all(moves@.subrange(0, i as int), p0, o0),
                player_wf(player@),
                player_wf(other_player@),
                player.status != PlayerStatus::Placing,
                other_player.status != PlayerStatus::Placing,
            decreases moves.len() - i,
        {
            let ghost before = (player@, other_player@);
            let m = moves[i];
            match m {
                Move::Down => {
                    player.target.shift(&Direction::Down);
                },
                Move::Up => {
                    player.target.shift(&Direction::Up);
                },
                Move::Right => {
                    player.target.shift(&Direction::Right);
                },
                Move::Left => {
                    player.target.shift(&Direction::Left);
                },
                Move::Enter | Move::Space => {
                    if player.status == PlayerStatus::Aiming {
                        if player.fire() {
                            player.status = PlayerStatus::Waiting;
                            other_player.status = PlayerStatus::Aiming;
                        }
                    }
                },
            }
            proof {
                let ms = moves@.subrange(0, i + 1);
                assert(ms.drop_last() =~= moves@.subrange(0, i as int));
                assert((player@, other_player@) == aim_step(m, before.0, before.1));
            }
            i = i + 1;
        }
        assert(moves@.subrange(0, i as int) =~= moves@);
    }

    /// Whether every cell of `ship` is among `shots`.
    pub fn is_sunk(ship: &Ship, shots: &Vec<Cell>) -> (r: bool)
        ensures
            r == ship_sunk(ship@, shots@),
    {
        let mut k: usize = 0;
        while k < ship.cells.len()
            invariant
                k <= ship.cells.len(),
                forall|j: int| 0 <= j < k ==> shots@.contains(#[trigger] ship.cells@[j]),
            decreases ship.cells.len() - k,
        {
            if !holds_cell(shots, &ship.cells[k]) {
                assert(ship@.cells[k as int] == ship.cells@[k as int]);
                return false;
            }
            k = k + 1;
        }
        true
    }

    /// Whether every ship of `ships` is sunk by `shots`.
    fn all_sunk(ships: &Vec<Ship>, shots: &Vec<Cell>) -> (r: bool)
        ensures
            r == fleet_sunk(ships_view(ships@), shots@),
    {
        let mut j: usize = 0;
        while j < ships.len()
            invariant
                j <= ships.len(),
                forall|i: int| 0 <= i < j ==> ship_sunk(#[trigger] ships_view(ships@)[i], shots@),
            decreases ships.len() - j,
        {
            if !World::is_sunk(&ships[j], shots) {
                assert(!ship_sunk(ships_view(ships@)[j as int], shots@));
                return false;
            }
            j = j + 1;
        }
        true
    }

    /// Ends the game when a fleet is sunk: in victory when the opponent's is,
    /// in defeat when only the local one is.
    pub fn check_victory_condition(&mut self)
        ensures
            final(self).status == outcome(
                old(self).status,
                old(self).this_player@,
                old(self).other_player@,
            ),
            final(self).game_type == old(self).game_type,
            final(self).local_first == old(self).local_first,
            final(self).this_player == old(self).this_player,
            final(self).other_player == old(self).other_player,
    {
        let loss = World::all_sunk(&self.this_player.ships, &self.other_player.shots_taken);
        let win = World::all_sunk(&self.other_player.ships, &self.this_player.shots_taken);
        if loss {
            self.status = GameStatus::End(GameResult::Defeat);
        }
        if win {
            self.status = GameStatus::End(GameResult::Victory);
        }
    }

    /// The scripted opponent's next action batch: a fire one time in ten,
    /// otherwise a movement in a direction drawn uniformly.
    fn get_other_moves(&mut self) -> (r: Vec<Move>)
        ensures
            scripted_batch(r@),
            final(self).status == old(self).status,
            final(self).game_type == old(self).game_type,
            final(self).local_first == old(self).local_first,
            final(self).this_player == old(self).this_player,
            final(self).other_player == old(self).other_player,
    {
        let fire = chance(&mut self.rng, 1, 10);
        let index: u8 = if fire {
            0
        } else {
            below(&mut self.rng, 4) as u8
        };
        let moves = World::scripted_moves(fire, index);
        assert(scripted_batch(moves@)) by {
            assert(moves@ == scripted(fire, index as int));
        }
        moves
    }

    /// A fire that hits the last unshot cell of the waiting side's fleet hands
/// the turn over and ends the game: in victory when the local side fired,
/// and in defeat when the opponent fired and the local side had not sunk
/// the opponent's fleet before.
pub proof fn lemma_sinking_shot(m: Move, shooter: PlayerView, target: PlayerView)
    requires
        m == Move::Enter || m == Move::Space,
        shooter.status == PlayerStatus::Aiming,
        !shooter.shots.contains(shooter.target),
        fleet_sunk(target.ships, shooter.shots.push(shooter.target)),
    ensures
        aim_step(m, shooter, target).0.status == PlayerStatus::Waiting,
        aim_step(m, shooter, target).1.status == PlayerStatus::Aiming,
        outcome(GameStatus::Playing, aim_step(m, shooter, target).0, aim_step(m, shooter, target).1)
            == GameStatus::End(GameResult::Victory),
        !fleet_sunk(shooter.ships, target.shots) ==> outcome(
            GameStatus::Playing,
            aim_step(m, shooter, target).1,
            aim_step(m, shooter, target).0,
        ) == GameStatus::End(GameResult::Defeat),
{
}

/// The scripted opponent's batch for its draws: a fire when `fire`
    /// holds, otherwise a movement towards the direction numbered `index`.
    pub fn scripted_moves(fire: bool, index: u8) -> (r: Vec<Move>)
        requires
            index < 4,
        ensures
            r@ == scripted(fire, index as int),
    {
        let mut moves: Vec<Move> = Vec::new();
        if fire {
            moves.push(Move::Enter);
        } else {
            let direction = Direction::from_index(index);
            moves.push(Move::from(direction));
        }
        assert(moves@ =~= scripted(fire, index as int));
        moves
    }

    /// A session that has just begun. Against a peer, the local side takes the
    /// first shot when `local_first` holds; against the scripted opponent it
    /// always does.
    pub fn with_first_turn(game_type: GameType, local_first: bool) -> (r: World)
        ensures
            r.status == GameStatus::Playing,
            r.game_type == game_type,
            r.local_first == local_first,
            r.this_player@ == fresh_player(),
            r.other_player@ == fresh_player(),
            r.wf(),
    {
        World {
            status: GameStatus::Playing,
            game_type,
            local_first,
            rng: new_rng(),
            this_player: Player::new(),
            other_player: Player::new(),
        }
    }

    /// A session that has just begun, in which the local side takes the first
    /// shot.
    pub fn new(game_type: GameType) -> (r: World)
        ensures
            r.status == GameStatus::Playing,
            r.game_type == game_type,
            r.local_first,
            r.this_player@ == fresh_player(),
            r.other_player@ == fresh_player(),
            r.wf(),
    {
        World::with_first_turn(game_type, true)
    }

    /// Starts the shooting once the local fleet is placed. Against the
    /// scripted opponent, its fleet is laid at random and the local side
    /// aims first; against a peer, the local side waits for the peer's fleet,
    /// and the local fleet's line is handed out to be sent.
    fn begin_game(&mut self) -> (r: PeerStep)
        requires
            player_wf(PlayerView { status: PlayerStatus::Waiting, ..old(self).this_player@ }),
            player_wf(old(self).other_player@),
            old(self).other_player.status == PlayerStatus::Placing,
        ensures
            final(self).status == old(self).status,
            final(self).game_type == old(self).game_type,
            final(self).local_first == old(self).local_first,
            final(self).this_player@.ships == old(self).this_player@.ships,
            final(self).this_player@.target == old(self).this_player@.target,
            final(self).this_player@.shots == old(self).this_player@.shots,
            player_wf(final(self).this_player@),
            player_wf(final(self).other_player@),
            old(self).game_type == GameType::Ai ==> {
                &&& r is Idle
                &&& final(self).this_player.status == PlayerStatus::Aiming
                &&& final(self).other_player.status == PlayerStatus::Waiting
                &&& final(self).other_player@.target == old(self).other_player@.target
                &&& final(self).other_player@.shots == old(self).other_player@.shots
            },
            old(self).game_type == GameType::LocalNetwork ==> {
                &&& r matches PeerStep::SwapFleets(b) && b@ == ships_text(
                    old(self).this_player@.ships,
                )
                &&& final(self).this_player.status == PlayerStatus::Waiting
                &&& final(self).other_player == old(self).other_player
            },
    {
        match self.game_type {
            GameType::Ai => {
                self.other_player.ships = Ship::random_five(&mut self.rng);
                self.other_player.status = PlayerStatus::Waiting;
                self.this_player.status = PlayerStatus::Aiming;
                PeerStep::Idle
            },
            GameType::LocalNetwork => {
                self.this_player.status = PlayerStatus::Waiting;
                proof {
                    let v = self.this_player@.ships;
                    assert forall|i: int| 0 <= i < self.this_player.ships.len() implies encodable(
                        #[trigger] self.this_player.ships@[i]@,
                    ) by {
                        assert(v[i] == self.this_player.ships@[i]@);
                        crate::codec::lemma_shape_encodable(v[i]);
                    }
                }
                PeerStep::SwapFleets(encode_ships(&self.this_player.ships))
            },
        }
    }

    /// Applies a batch of placement actions of the local player, routed to
    /// the ship being placed. Once the last ship is locked the game begins
    /// (see [`World::begin_game`]) and the rest of the batch is dropped.
    fn place_ships(&mut self, moves: &Vec<Move>) -> (r: PeerStep)
        requires
            player_wf(old(self).this_player@),
            player_wf(old(self).other_player@),
            old(self).this_player.status == PlayerStatus::Placing,
            old(self).other_player.status == PlayerStatus::Placing,
        ensures
            final(self).status == old(self).status,
            final(self).game_type == old(self).game_type,
            final(self).local_first == old(self).local_first,
            player_wf(final(self).this_player@),
            player_wf(final(self).other_player@),
            !place_all(moves@, old(self).this_player@).1 ==> final(self).this_player.status
                == PlayerStatus::Placing,
            placement_effect(
                moves@,
                old(self).game_type,
                old(self).this_player@,
                old(self).other_player@,
                final(self).this_player@,
                final(self).other_player@,
                r,
            ),
    {
        let ghost p0 = self.this_player@;
        let mut i: usize = 0;
        while i < moves.len()
            invariant
                i <= moves.len(),
                place_all(moves@.subrange(0, i as int), p0) == (self.this_player@, false),
                player_wf(self.this_player@),
                player_wf(self.other_player@),
                self.this_player.status == PlayerStatus::Placing,
                self.other_player.status == PlayerStatus::Placing,
                self.status == old(self).status,
                self.game_type == old(self).game_type,
                self.local_first == old(self).local_first,
                self.other_player == old(self).other_player,
                p0 == old(self).this_player@,
            decreases moves.len() - i,
        {
            let ghost before = self.this_player@;
            let m = moves[i];
            proof {
                lemma_place_step_wf(m, before);
                let ms = moves@.subrange(0, i + 1);
                assert(ms.drop_last() =~= moves@.subrange(0, i as int));
                let kk = choose|kk: int| #[trigger] placing_at(before.ships, kk);
                assert(first_with(before.ships, ShipStatus::Placing, kk));
                lemma_index_of(before.ships, ShipStatus::Placing, kk);
            }
            let k = match find_status(&self.this_player.ships, ShipStatus::Placing) {
                Some(k) => k,
                None => {
                    return PeerStep::Idle;
                },
            };
            match m {
                Move::Enter => {
                    if self.this_player.lock_ship() {
                        match find_status(&self.this_player.ships, ShipStatus::Hidden) {
                            Some(j) => {
                                self.this_player.ships[j].placing();
                                assert(self.this_player@.ships =~= place_step(m, before).0.ships);
                            },
                            None => {
                                proof {
                                    lemma_place_done_stays(moves@, p0, i + 1, moves.len() as int);
                                    assert(moves@.subrange(0, moves.len() as int) =~= moves@);
                                }
                                let r = self.begin_game();
                                assert(fleet_wf(self.other_player@.ships));
                                return r;
                            },
                        }
                    }
                },
                Move::Space => {
                    self.this_player.ships[k].rotate_right();
                    assert(self.this_player@.ships =~= place_step(m, before).0.ships);
                },
                Move::Up => {
                    self.this_player.ships[k].shift(&Direction::Up);
                    assert(self.this_player@.ships =~= place_step(m, before).0.ships);
                },
                Move::Down => {
                    self.this_player.ships[k].shift(&Direction::Down);
                    assert(self.this_player@.ships =~= place_step(m, before).0.ships);
                },
                Move::Left => {
                    self.this_player.ships[k].shift(&Direction::Left);
                    assert(self.this_player@.ships =~= place_step(m, before).0.ships);
                },
                Move::Right => {
                    self.this_player.ships[k].shift(&Direction::Right);
                    assert(self.this_player@.ships =~= place_step(m, before).0.ships);
                },
            }
            i = i + 1;
        }
        assert(moves@.subrange(0, i as int) =~= moves@);
        PeerStep::Idle
    }

    /// Whether the batch holds an `Enter`.
    fn has_enter(moves: &Vec<Move>) -> (r: bool)
        ensures
            r == moves@.contains(Move::Enter),
    {
        let mut i: usize = 0;
        while i < moves.len()
            invariant
                i <= moves.len(),
                forall|j: int| 0 <= j < i ==> moves@[j] != Move::Enter,
            decreases moves.len() - i,
        {
            if moves[i] == Move::Enter {
                return true;
            }
            i = i + 1;
        }
        false
    }

    /// After the game has ended, `Enter` starts a new session of the same
    /// kind; anything else changes nothing.
    pub fn wait_for_restart(&mut self, moves: &Vec<Move>)
        ensures
            final(self).game_type == old(self).game_type,
            final(self).local_first == old(self).local_first,
            moves@.contains(Move::Enter) ==> {
                &&& final(self).status == GameStatus::Playing
                &&& final(self).this_player@ == fresh_player()
                &&& final(self).other_player@ == fresh_player()
                &&& final(self).wf()
            },
            !moves@.contains(Move::Enter) ==> {
                &&& final(self).status == old(self).status
                &&& final(self).this_player == old(self).this_player
                &&& final(self).other_player == old(self).other_player
            },
    {
        if World::has_enter(moves) {
            *self = World::with_first_turn(self.game_type, self.local_first);
        }
    }

    /// Advances the session by one batch of local actions.
    ///
    /// While placing, the actions move, turn and lock the ship being placed.
    /// While aiming, they move the cursor and fire. While waiting, the
    /// scripted opponent plays one batch of its own, or, against a peer, the
    /// caller is asked for the peer's batch. The victory check follows. Once
    /// the game has ended, `Enter` restarts it. The result says what the
    /// caller has to do on the channel to the peer.
    pub fn update(&mut self, moves: &Vec<Move>) -> (r: PeerStep)
        requires
            old(self).wf(),
        ensures
            final(self).wf(),
            final(self).game_type == old(self).game_type,
            final(self).local_first == old(self).local_first,
            old(self).status is End ==> {
                &&& r is Idle
                &&& moves@.contains(Move::Enter) ==> {
                    &&& final(self).status == GameStatus::Playing
                    &&& final(self).this_player@ == fresh_player()
                    &&& final(self).other_player@ == fresh_player()
                }
                &&& !moves@.contains(Move::Enter) ==> {
                    &&& final(self).status == old(self).status
                    &&& final(self).this_player == old(self).this_player
                    &&& final(self).other_player == old(self).other_player
                }
            },
            old(self).status == GameStatus::Playing ==> {
                &&& final(self).status == outcome(
                    GameStatus::Playing,
                    final(self).this_player@,
                    final(self).other_player@,
                )
                &&& old(self).this_player.status == PlayerStatus::Placing ==> placement_effect(
                    moves@,
                    old(self).game_type,
                    old(self).this_player@,
                    old(self).other_player@,
                    final(self).this_player@,
                    final(self).other_player@,
                    r,
                )
                &&& old(self).this_player.status == PlayerStatus::Aiming ==> {
                    &&& (final(self).this_player@, final(self).other_player@) == aim_all(
                        moves@,
                        old(self).this_player@,
                        old(self).other_player@,
                    )
                    &&& if old(self).game_type == GameType::LocalNetwork && moves.len() > 0 {
                        r matches PeerStep::SendMoves(b) && b@ == moves_text(moves@)
                    } else {
                        r is Idle
                    }
                }
                &&& old(self).this_player.status == PlayerStatus::Waiting
                    && old(self).other_player.status == PlayerStatus::Aiming ==> {
                    &&& old(self).game_type == GameType::Ai ==> {
                        &&& r is Idle
                        &&& exists|ms: Seq<Move>|
                            scripted_batch(ms) && (final(self).other_player@, final(self).this_player@)
                                == #[trigger] aim_all(
                                ms,
                                old(self).other_player@,
                                old(self).this_player@,
                            )
                    }
                    &&& old(self).game_type == GameType::LocalNetwork ==> {
                        &&& r is ReceiveMoves
                        &&& final(self).this_player == old(self).this_player
                        &&& final(self).other_player == old(self).other_player
                    }
                }
                &&& old(self).this_player.status == PlayerStatus::Waiting
                    && old(self).other_player.status == PlayerStatus::Placing ==> {
                    &&& r is Idle
                    &&& final(self).this_player == old(self).this_player
                    &&& final(self).other_player == old(self).other_player
                }
            },
    {
        match self.status {
            GameStatus::Playing => {
                let r = match self.this_player.status {
                    PlayerStatus::Placing => {
                        self.place_ships(moves)
                    },
                    PlayerStatus::Aiming => {
                        proof {
                            lemma_aim_keeps_turns(moves@, self.this_player@, self.other_player@);
                        }
                        World::aim(moves, &mut self.this_player, &mut self.other_player);
                        if self.game_type == GameType::LocalNetwork && moves.len() > 0 {
                            PeerStep::SendMoves(encode_moves(moves))
                        } else {
                            PeerStep::Idle
                        }
                    },
                    PlayerStatus::Waiting => {
                        if self.other_player.status == PlayerStatus::Aiming {
                            match self.game_type {
                                GameType::Ai => {
                                    let other_moves = self.get_other_moves();
                                    proof {
                                        lemma_aim_keeps_turns(
                                            other_moves@,
                                            self.other_player@,
                                            self.this_player@,
                                        );
                                    }
                                    World::aim(
                                        &other_moves,
                                        &mut self.other_player,
                                        &mut self.this_player,
                                    );
                                    PeerStep::Idle
                                },
                                GameType::LocalNetwork => PeerStep::ReceiveMoves,
                            }
                        } else {
                            PeerStep::Idle
                        }
                    },
                };
                self.check_victory_condition();
                r
            },
            GameStatus::End(_) => {
                self.wait_for_restart(moves);
                PeerStep::Idle
            },
        }
    }

    /// Applies the action batch received from the peer, whose side is aiming,
    /// then checks for victory. Reports `false`, changing nothing, when the
    /// line is not an action batch.
    pub fn receive_moves(&mut self, bytes: &Vec<u8>) -> (r: bool)
        requires
            old(self).wf(),
            old(self).status == GameStatus::Playing,
            old(self).this_player.status == PlayerStatus::Waiting,
            old(self).other_player.status == PlayerStatus::Aiming,
        ensures
            final(self).wf(),
            final(self).game_type == old(self).game_type,
            final(self).local_first == old(self).local_first,
            r == parse_moves(bytes@) is Some,
            r ==> {
                &&& (final(self).other_player@, final(self).this_player@) == aim_all(
                    parse_moves(bytes@)->0,
                    old(self).other_player@,
                    old(self).this_player@,
                )
                &&& final(self).status == outcome(
                    GameStatus::Playing,
                    final(self).this_player@,
                    final(self).other_player@,
                )
            },
            !r ==> {
                &&& final(self).status == old(self).status
                &&& final(self).this_player == old(self).this_player
                &&& final(self).other_player == old(self).other_player
            },
    {
        match decode_moves(bytes) {
            Some(other_moves) => {
                proof {
                    lemma_aim_keeps_turns(other_moves@, self.other_player@, self.this_player@);
                }
                World::aim(&other_moves, &mut self.other_player, &mut self.this_player);
                self.check_victory_condition();
                true
            },
            None => false,
        }
    }

    /// Takes the fleet received from the peer and deals the turns. Reports
    /// `false`, changing nothing, when the line is not a complete fleet of
    /// locked ships laid by the rules.
    pub fn receive_fleet(&mut self, bytes: &Vec<u8>) -> (r: bool)
        requires
            old(self).wf(),
            old(self).status == GameStatus::Playing,
            old(self).this_player.status == PlayerStatus::Waiting,
            old(self).other_player.status == PlayerStatus::Placing,
        ensures
            final(self).wf(),
            final(self).status == old(self).status,
            final(self).game_type == old(self).game_type,
            final(self).local_first == old(self).local_first,
            r == (parse_ships(bytes@) is Some && fleet_wf(parse_ships(bytes@)->0) && all_locked(
                parse_ships(bytes@)->0,
            )),
            r ==> {
                &&& final(self).other_player@ == (PlayerView {
                    status: if old(self).local_first {
                        PlayerStatus::Waiting
                    } else {
                        PlayerStatus::Aiming
                    },
                    ships: parse_ships(bytes@)->0,
                    ..old(self).other_player@
                })
                &&& final(self).this_player@ == (PlayerView {
                    status: if old(self).local_first {
                        PlayerStatus::Aiming
                    } else {
                        PlayerStatus::Waiting
                    },
                    ..old(self).this_player@
                })
            },
            !r ==> {
                &&& final(self).this_player == old(self).this_player
                &&& final(self).other_player == old(self).other_player
            },
    {
        match decode_ships(bytes) {
            Some(ships) => {
                if crate::fleet::valid_fleet(&ships) {
                    self.other_player.ships = ships;
                    if self.local_first {
                        self.this_player.status = PlayerStatus::Aiming;
                        self.other_player.status = PlayerStatus::Waiting;
                    } else {
                        self.this_player.status = PlayerStatus::Waiting;
                        self.other_player.status = PlayerStatus::Aiming;
                    }
                    true
                } else {
                    false
                }
            },
            None => false,
        }
    }
}

/// Every cell of a session that can be reached is on the grid: the cells of
/// both fleets, both target cursors, and every shot.
pub proof fn lemma_cells_in_bounds(w: &World)
    requires
        w.wf(),
    ensures
        w.this_player.target.in_bounds(),
        w.other_player.target.in_bounds(),
        crate::fleet::all_in_bounds(w.this_player@.shots),
        crate::fleet::all_in_bounds(w.other_player@.shots),
        forall|i: int|
            0 <= i < w.this_player@.ships.len() ==> crate::fleet::all_in_bounds(
                #[trigger] w.this_player@.ships[i].cells,
            ),
        forall|i: int|
            0 <= i < w.other_player@.ships.len() ==> crate::fleet::all_in_bounds(
                #[trigger] w.other_player@.ships[i].cells,
            ),
{
    assert forall|i: int| 0 <= i < w.this_player@.ships.len() implies crate::fleet::all_in_bounds(
        #[trigger] w.this_player@.ships[i].cells,
    ) by {
        let c = w.this_player@.ships[i].cells;
        crate::fleet::lemma_line_facts(c[0], crate::fleet::heading(c), c.len());
    }
    assert forall|i: int| 0 <= i < w.other_player@.ships.len() implies crate::fleet::all_in_bounds(
        #[trigger] w.other_player@.ships[i].cells,
    ) by {
        let c = w.other_player@.ships[i].cells;
        crate::fleet::lemma_line_facts(c[0], crate::fleet::heading(c), c.len());
    }
}

} // verus!
