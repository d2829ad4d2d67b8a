use battleship::codec::{decode_moves, decode_ships, encode_moves, encode_ships, Move};
use battleship::fleet::{valid_fleet, Ship, ShipStatus};
use battleship::geometry::{Cell, Direction};
use battleship::player::{Player, PlayerStatus};
use battleship::session::{GameResult, GameStatus, GameType, PeerStep, World};

fn cell(x: u8, y: u8) -> Cell {
    Cell { x, y }
}

fn cells_of(ship: &Ship) -> Vec<(u8, u8)> {
    ship.cells.iter().map(|c| (c.x, c.y)).collect()
}

fn line_ship(status: ShipStatus, cells: &[(u8, u8)]) -> Ship {
    Ship {
        status,
        len: cells.len() as u8,
        cells: cells.iter().map(|&(x, y)| cell(x, y)).collect(),
    }
}

/// Places the local fleet: ship `i` is moved down `i` rows and locked.
fn place_fleet(world: &mut World) -> Vec<PeerStep> {
    let mut steps = Vec::new();
    for i in 0..5 {
        let mut moves = vec![Move::Down; i];
        moves.push(Move::Enter);
        steps.push(world.update(&moves));
    }
    steps
}

/// The actions that take the cursor from its starting cell to `target` and fire.
fn aim_at(target: Cell) -> Vec<Move> {
    let mut moves = Vec::new();
    let (x, y) = (4i32, 5i32);
    let (tx, ty) = (target.x as i32, target.y as i32);
    for _ in 0..(tx - x).abs() {
        moves.push(if tx > x { Move::Right } else { Move::Left });
    }
    for _ in 0..(ty - y).abs() {
        moves.push(if ty > y { Move::Down } else { Move::Up });
    }
    moves.push(Move::Enter);
    moves
}

#[test]
fn up_vector_and_rejected_shift_at_origin() {
    assert_eq!(Direction::Up.xy(), (0, -1));
    let mut c = cell(0, 0);
    assert!(!c.shift(&Direction::Up));
    assert_eq!(c, cell(0, 0));
}

#[test]
fn direction_vectors() {
    assert_eq!(Direction::Down.xy(), (0, 1));
    assert_eq!(Direction::Left.xy(), (-1, 0));
    assert_eq!(Direction::Right.xy(), (1, 0));
}

#[test]
fn shift_moves_one_unit() {
    let mut c = cell(3, 3);
    assert!(c.shift(&Direction::Right));
    assert_eq!(c, cell(4, 3));
    assert!(c.shift(&Direction::Up));
    assert_eq!(c, cell(4, 2));
    let mut edge = cell(9, 9);
    assert!(!edge.shift(&Direction::Down));
    assert!(!edge.shift(&Direction::Right));
    assert_eq!(edge, cell(9, 9));
}

#[test]
fn shift_then_opposite_returns() {
    let pairs = [
        (Direction::Up, Direction::Down),
        (Direction::Down, Direction::Up),
        (Direction::Left, Direction::Right),
        (Direction::Right, Direction::Left),
    ];
    for (d, back) in pairs.iter() {
        let mut c = cell(5, 5);
        assert!(c.shift(d));
        assert!(c.shift(back));
        assert_eq!(c, cell(5, 5));
    }
}

#[test]
fn extend_builds_a_line_or_refuses() {
    let line = cell(6, 2).extend(&Direction::Right, 4).unwrap();
    assert_eq!(line, vec![cell(6, 2), cell(7, 2), cell(8, 2), cell(9, 2)]);
    assert!(cell(7, 2).extend(&Direction::Right, 4).is_none());
    assert!(cell(0, 1).extend(&Direction::Up, 3).is_none());
}

#[test]
fn from_index_order() {
    assert_eq!(Direction::from_index(0), Direction::Up);
    assert_eq!(Direction::from_index(1), Direction::Down);
    assert_eq!(Direction::from_index(2), Direction::Left);
    assert_eq!(Direction::from_index(3), Direction::Right);
}

#[test]
fn ship_shift_is_atomic() {
    let mut ship = line_ship(ShipStatus::Placing, &[(7, 0), (8, 0), (9, 0)]);
    ship.shift(&Direction::Right);
    assert_eq!(cells_of(&ship), vec![(7, 0), (8, 0), (9, 0)]);
    ship.shift(&Direction::Up);
    assert_eq!(cells_of(&ship), vec![(7, 0), (8, 0), (9, 0)]);
    ship.shift(&Direction::Down);
    assert_eq!(cells_of(&ship), vec![(7, 1), (8, 1), (9, 1)]);
    ship.shift(&Direction::Left);
    assert_eq!(cells_of(&ship), vec![(6, 1), (7, 1), (8, 1)]);
    assert_eq!(ship.len, 3);
    assert!(ship.is_well_formed());
}

#[test]
fn rotate_right_turns_clockwise_about_first_cell() {
    let mut ship = line_ship(ShipStatus::Placing, &[(2, 2), (3, 2), (4, 2)]);
    ship.rotate_right();
    assert_eq!(cells_of(&ship), vec![(2, 2), (2, 3), (2, 4)]);
    ship.rotate_right();
    assert_eq!(cells_of(&ship), vec![(2, 2), (1, 2), (0, 2)]);
    ship.rotate_right();
    assert_eq!(cells_of(&ship), vec![(2, 2), (2, 1), (2, 0)]);
    ship.rotate_right();
    assert_eq!(cells_of(&ship), vec![(2, 2), (3, 2), (4, 2)]);
    assert!(ship.is_well_formed());
}

#[test]
fn rotate_right_rejected_at_edge() {
    let mut ship = line_ship(ShipStatus::Placing, &[(0, 8), (1, 8), (2, 8)]);
    ship.rotate_right();
    assert_eq!(cells_of(&ship), vec![(0, 8), (1, 8), (2, 8)]);
    assert_eq!(ship.len, 3);
}

#[test]
fn starting_fleet_shape() {
    let ships = Ship::original_length_ships();
    let lengths: Vec<u8> = ships.iter().map(|s| s.len).collect();
    assert_eq!(lengths, vec![2, 3, 4, 4, 5]);
    assert_eq!(ships[0].status, ShipStatus::Placing);
    for s in ships.iter().skip(1) {
        assert_eq!(s.status, ShipStatus::Hidden);
    }
    for s in ships.iter() {
        assert_eq!(s.cells.len(), s.len as usize);
        assert_eq!(s.cells[0], cell(0, 0));
        assert!(s.is_well_formed());
    }
    let five = Ship::starting_five();
    assert_eq!(five.len(), 5);
    assert_eq!(cells_of(&five[4]), vec![(0, 0), (1, 0), (2, 0), (3, 0), (4, 0)]);
}

#[test]
fn placing_and_lock_set_status() {
    let mut ship = line_ship(ShipStatus::Hidden, &[(0, 0), (1, 0)]);
    ship.placing();
    assert_eq!(ship.status, ShipStatus::Placing);
    let fleet = vec![line_ship(ShipStatus::Locked, &[(0, 1), (1, 1)])];
    assert!(ship.lock(&fleet));
    assert_eq!(ship.status, ShipStatus::Locked);
    assert_eq!(cells_of(&ship), vec![(0, 0), (1, 0)]);
}

#[test]
fn lock_refuses_a_ship_meeting_a_locked_one() {
    let mut ship = line_ship(ShipStatus::Placing, &[(0, 0), (1, 0)]);
    let fleet = vec![
        line_ship(ShipStatus::Hidden, &[(0, 0), (0, 1)]),
        line_ship(ShipStatus::Locked, &[(1, 0), (1, 1)]),
    ];
    assert!(!ship.lock(&fleet));
    assert_eq!(ship.status, ShipStatus::Placing);
    assert_eq!(cells_of(&ship), vec![(0, 0), (1, 0)]);
    let hidden_only = vec![line_ship(ShipStatus::Hidden, &[(0, 0), (0, 1)])];
    assert!(ship.lock(&hidden_only));
    assert_eq!(ship.status, ShipStatus::Locked);
}

#[test]
fn scripted_moves_follow_the_draws() {
    assert_eq!(World::scripted_moves(true, 3), vec![Move::Enter]);
    assert_eq!(World::scripted_moves(false, 0), vec![Move::Up]);
    assert_eq!(World::scripted_moves(false, 1), vec![Move::Down]);
    assert_eq!(World::scripted_moves(false, 2), vec![Move::Left]);
    assert_eq!(World::scripted_moves(false, 3), vec![Move::Right]);
}

#[test]
fn placements_in_scan_order() {
    let empty: Vec<Ship> = Vec::new();
    let all = Ship::placements(5, &empty);
    // Each direction leaves 6 of 10 anchors in one axis: 4 * 60 lines.
    assert_eq!(all.len(), 240);
    // Up comes first: the first anchor that fits going up is (0, 4).
    assert_eq!(cells_of(&all[0]), vec![(0, 4), (0, 3), (0, 2), (0, 1), (0, 0)]);
    let first = Ship::pick_placement(5, &empty, 0);
    assert_eq!(cells_of(&first), cells_of(&all[0]));
    let last = Ship::pick_placement(5, &empty, 239);
    assert_eq!(cells_of(&last), vec![(5, 9), (6, 9), (7, 9), (8, 9), (9, 9)]);
    assert_eq!(last.status, ShipStatus::Locked);
    let blocker = vec![line_ship(ShipStatus::Locked, &[(0, 0), (0, 1), (0, 2), (0, 3), (0, 4)])];
    let fewer = Ship::placements(5, &blocker);
    assert!(fewer.len() < 240);
    for s in fewer.iter() {
        assert!(!Ship::any_overlap(s, &blocker));
    }
}

#[test]
fn local_side_aims_first_against_the_scripted_opponent() {
    let mut w = World::with_first_turn(GameType::Ai, false);
    place_fleet(&mut w);
    assert_eq!(w.this_player.status, PlayerStatus::Aiming);
    assert_eq!(w.other_player.status, PlayerStatus::Waiting);
}

#[test]
fn any_overlap_only_counts_locked_ships() {
    let ship = line_ship(ShipStatus::Placing, &[(0, 0), (1, 0)]);
    let hidden = vec![line_ship(ShipStatus::Hidden, &[(1, 0), (2, 0)])];
    assert!(!Ship::any_overlap(&ship, &hidden));
    let locked = vec![line_ship(ShipStatus::Locked, &[(1, 0), (1, 1)])];
    assert!(Ship::any_overlap(&ship, &locked));
    let apart = vec![line_ship(ShipStatus::Locked, &[(5, 5), (5, 6)])];
    assert!(!Ship::any_overlap(&ship, &apart));
}

#[test]
fn lock_refused_on_overlap() {
    let mut p = Player::new();
    assert!(p.lock_ship());
    p.ships[1].placing();
    assert!(p.ship_to_place_overlaps_any_locked());
    assert!(!p.lock_ship());
    assert_eq!(p.ships[1].status, ShipStatus::Placing);
    p.ships[1].shift(&Direction::Down);
    assert!(!p.ship_to_place_overlaps_any_locked());
    assert!(p.lock_ship());
    assert_eq!(p.ships[1].status, ShipStatus::Locked);
    assert!(p.ship_to_place().is_none());
    assert!(!p.lock_ship());
}

#[test]
fn ship_to_place_finds_the_placing_ship() {
    let mut p = Player::new();
    assert_eq!(p.ship_to_place().unwrap().len, 2);
    {
        let ship = p.ship_to_place_mut().unwrap();
        ship.shift(&Direction::Down);
    }
    assert_eq!(cells_of(&p.ships[0]), vec![(0, 1), (1, 1)]);
}

#[test]
fn fire_twice_on_a_cell_is_a_no_op() {
    let mut p = Player::new();
    p.target = cell(2, 3);
    assert!(p.fire());
    assert_eq!(p.shots_taken, vec![cell(2, 3)]);
    assert_eq!(p.target, cell(4, 5));
    p.target = cell(2, 3);
    assert!(!p.fire());
    assert_eq!(p.shots_taken, vec![cell(2, 3)]);
    assert_eq!(p.target, cell(2, 3));
}

#[test]
fn aim_flips_turn_only_on_a_new_shot() {
    let mut a = Player::new();
    let mut b = Player::new();
    for s in a.ships.iter_mut().chain(b.ships.iter_mut()) {
        s.status = ShipStatus::Locked;
    }
    a.status = PlayerStatus::Aiming;
    b.status = PlayerStatus::Waiting;
    a.shots_taken.push(cell(4, 5));
    World::aim(&vec![Move::Enter], &mut a, &mut b);
    assert_eq!(a.status, PlayerStatus::Aiming);
    assert_eq!(b.status, PlayerStatus::Waiting);
    assert_eq!(a.shots_taken.len(), 1);
    World::aim(&vec![Move::Up, Move::Space, Move::Enter], &mut a, &mut b);
    assert_eq!(a.status, PlayerStatus::Waiting);
    assert_eq!(b.status, PlayerStatus::Aiming);
    assert_eq!(a.shots_taken, vec![cell(4, 5), cell(4, 4)]);
    assert_eq!(a.target, cell(4, 5));
}

#[test]
fn sunk_fleet_example() {
    let ship = line_ship(ShipStatus::Locked, &[(0, 0), (1, 0)]);
    assert!(World::is_sunk(&ship, &vec![cell(0, 0), cell(1, 0)]));
    assert!(!World::is_sunk(&ship, &vec![cell(0, 0)]));
    assert!(!World::is_sunk(&ship, &vec![]));
}

fn locked_world() -> World {
    let mut w = World::new(GameType::Ai);
    w.this_player.ships = Ship::random_five(&mut rand::thread_rng());
    w.other_player.ships = Ship::random_five(&mut rand::thread_rng());
    w.this_player.status = PlayerStatus::Aiming;
    w.other_player.status = PlayerStatus::Waiting;
    w
}

fn all_cells(ships: &[Ship]) -> Vec<Cell> {
    ships.iter().flat_map(|s| s.cells.iter().copied()).collect()
}

#[test]
fn victory_defeat_and_precedence() {
    let mut w = locked_world();
    w.check_victory_condition();
    assert_eq!(w.status, GameStatus::Playing);

    let mut w = locked_world();
    w.other_player.shots_taken = all_cells(&w.this_player.ships);
    w.check_victory_condition();
    assert_eq!(w.status, GameStatus::End(GameResult::Defeat));

    let mut w = locked_world();
    w.this_player.shots_taken = all_cells(&w.other_player.ships);
    w.check_victory_condition();
    assert_eq!(w.status, GameStatus::End(GameResult::Victory));

    let mut w = locked_world();
    w.this_player.shots_taken = all_cells(&w.other_player.ships);
    w.other_player.shots_taken = all_cells(&w.this_player.ships);
    w.check_victory_condition();
    assert_eq!(w.status, GameStatus::End(GameResult::Victory));
}

#[test]
fn random_fleet_is_valid() {
    let mut rng = rand::thread_rng();
    for _ in 0..50 {
        let ships = Ship::random_five(&mut rng);
        assert!(valid_fleet(&ships));
        let lengths: Vec<u8> = ships.iter().map(|s| s.len).collect();
        assert_eq!(lengths, vec![2, 3, 4, 4, 5]);
    }
}

#[test]
fn valid_fleet_rejects_bad_fleets() {
    let mut ships = Ship::original_length_ships();
    assert!(!valid_fleet(&ships));
    for s in ships.iter_mut() {
        s.status = ShipStatus::Locked;
    }
    assert!(!valid_fleet(&ships));
    for (i, s) in ships.iter_mut().enumerate() {
        for c in s.cells.iter_mut() {
            c.y = i as u8;
        }
    }
    assert!(valid_fleet(&ships));
    ships[4].cells[4] = cell(4, 5);
    assert!(!valid_fleet(&ships));
    ships.pop();
    assert!(!valid_fleet(&ships));
}

#[test]
fn moves_round_trip() {
    let moves = vec![Move::Enter, Move::Space, Move::Up, Move::Down, Move::Left, Move::Right];
    let line = encode_moves(&moves);
    assert_eq!(line, b"ESUDLR".to_vec());
    assert_eq!(decode_moves(&line), Some(moves));
    assert_eq!(decode_moves(&Vec::new()), Some(Vec::new()));
    assert_eq!(encode_moves(&Vec::new()), Vec::<u8>::new());
    assert_eq!(decode_moves(&b"EX".to_vec()), None);
}

#[test]
fn ships_round_trip() {
    let ships = vec![
        line_ship(ShipStatus::Locked, &[(0, 0), (1, 0)]),
        line_ship(ShipStatus::Hidden, &[(9, 7), (9, 8), (9, 9)]),
    ];
    let line = encode_ships(&ships);
    assert_eq!(line, b"L20010;H3979899;".to_vec());
    let back = decode_ships(&line).unwrap();
    assert_eq!(back.len(), 2);
    for (a, b) in ships.iter().zip(back.iter()) {
        assert_eq!(a.status, b.status);
        assert_eq!(a.len, b.len);
        assert_eq!(a.cells, b.cells);
    }
    assert_eq!(decode_ships(&Vec::new()).map(|v| v.len()), Some(0));
    let fleet = Ship::random_five(&mut rand::thread_rng());
    let back = decode_ships(&encode_ships(&fleet)).unwrap();
    assert_eq!(all_cells(&back), all_cells(&fleet));
}

#[test]
fn ships_decode_rejects_malformed_lines() {
    assert!(decode_ships(&b"L20010".to_vec()).is_none());
    assert!(decode_ships(&b"X20010;".to_vec()).is_none());
    assert!(decode_ships(&b"L2001a;".to_vec()).is_none());
    assert!(decode_ships(&b"L200100".to_vec()).is_none());
    assert!(decode_ships(&b"L20010;L".to_vec()).is_none());
    assert!(decode_ships(&b"ESU".to_vec()).is_none());
}

#[test]
fn placement_routes_to_the_placing_ship() {
    let mut w = World::new(GameType::Ai);
    assert!(matches!(w.update(&vec![Move::Right, Move::Down, Move::Space]), PeerStep::Idle));
    assert_eq!(cells_of(&w.this_player.ships[0]), vec![(1, 1), (1, 2)]);
    assert!(matches!(w.update(&vec![Move::Enter]), PeerStep::Idle));
    assert_eq!(w.this_player.ships[0].status, ShipStatus::Locked);
    assert_eq!(w.this_player.ships[1].status, ShipStatus::Placing);
    // The second ship overlaps the first one in row 1 after moving down once.
    w.update(&vec![Move::Down, Move::Enter]);
    assert_eq!(w.this_player.ships[1].status, ShipStatus::Placing);
    w.update(&vec![Move::Down, Move::Down, Move::Enter]);
    assert_eq!(w.this_player.ships[1].status, ShipStatus::Locked);
    assert_eq!(w.this_player.status, PlayerStatus::Placing);
}

#[test]
fn ai_game_end_to_end() {
    let mut w = World::new(GameType::Ai);
    place_fleet(&mut w);
    assert_eq!(w.this_player.status, PlayerStatus::Aiming);
    assert_eq!(w.other_player.status, PlayerStatus::Waiting);
    assert!(valid_fleet(&w.this_player.ships));
    assert!(valid_fleet(&w.other_player.ships));
    let targets = all_cells(&w.other_player.ships);
    for (n, t) in targets.iter().enumerate() {
        assert_eq!(w.status, GameStatus::Playing);
        assert_eq!(w.this_player.status, PlayerStatus::Aiming);
        w.update(&aim_at(*t));
        assert_eq!(w.this_player.shots_taken.len(), n + 1);
        if n + 1 == targets.len() {
            break;
        }
        assert_eq!(w.this_player.status, PlayerStatus::Waiting);
        assert_eq!(w.other_player.status, PlayerStatus::Aiming);
        let mut rounds = 0;
        while w.this_player.status == PlayerStatus::Waiting && w.status == GameStatus::Playing {
            w.update(&Vec::new());
            rounds += 1;
            assert!(rounds < 100_000);
        }
    }
    assert_eq!(w.status, GameStatus::End(GameResult::Victory));
    // Only Enter restarts a finished game.
    assert!(matches!(w.update(&vec![Move::Up]), PeerStep::Idle));
    assert_eq!(w.status, GameStatus::End(GameResult::Victory));
    w.update(&vec![Move::Enter]);
    assert_eq!(w.status, GameStatus::Playing);
    assert_eq!(w.this_player.status, PlayerStatus::Placing);
    assert!(w.this_player.shots_taken.is_empty());
}

#[test]
fn network_games_stay_in_lock_step() {
    let mut a = World::with_first_turn(GameType::LocalNetwork, true);
    let mut b = World::with_first_turn(GameType::LocalNetwork, false);
    let fleet_a = match place_fleet(&mut a).pop().unwrap() {
        PeerStep::SwapFleets(line) => line,
        _ => panic!("expected the fleet line"),
    };
    let fleet_b = match place_fleet(&mut b).pop().unwrap() {
        PeerStep::SwapFleets(line) => line,
        _ => panic!("expected the fleet line"),
    };
    assert_eq!(a.this_player.status, PlayerStatus::Waiting);
    assert!(matches!(a.update(&vec![Move::Enter]), PeerStep::Idle));
    assert!(!a.receive_fleet(&b"L20010;".to_vec()));
    assert!(a.receive_fleet(&fleet_b));
    assert!(b.receive_fleet(&fleet_a));
    assert_eq!(a.this_player.status, PlayerStatus::Aiming);
    assert_eq!(b.this_player.status, PlayerStatus::Waiting);
    assert_eq!(b.other_player.status, PlayerStatus::Aiming);

    let a_targets = all_cells(&a.other_player.ships);
    // b aims at the bottom rows, where a has no ship.
    let b_target = |n: usize| cell((n % 10) as u8, 9 - (n / 10) as u8);
    for n in 0..a_targets.len() {
        let line = match a.update(&aim_at(a_targets[n])) {
            PeerStep::SendMoves(line) => line,
            _ => panic!("expected an action batch"),
        };
        assert!(matches!(b.update(&Vec::new()), PeerStep::ReceiveMoves));
        assert!(b.receive_moves(&line));
        assert_eq!(a.this_player.shots_taken, b.other_player.shots_taken);
        if n + 1 == a_targets.len() {
            break;
        }
        let line = match b.update(&aim_at(b_target(n))) {
            PeerStep::SendMoves(line) => line,
            _ => panic!("expected an action batch"),
        };
        assert!(a.receive_moves(&line));
        assert_eq!(b.this_player.shots_taken, a.other_player.shots_taken);
    }
    assert_eq!(a.status, GameStatus::End(GameResult::Victory));
    assert_eq!(b.status, GameStatus::End(GameResult::Defeat));
}

#[test]
fn receive_moves_rejects_a_bad_line() {
    let mut a = World::with_first_turn(GameType::LocalNetwork, false);
    let fleet = match place_fleet(&mut a).pop().unwrap() {
        PeerStep::SwapFleets(line) => line,
        _ => panic!("expected the fleet line"),
    };
    assert!(a.receive_fleet(&fleet));
    assert_eq!(a.other_player.status, PlayerStatus::Aiming);
    assert!(!a.receive_moves(&b"UZ".to_vec()));
    assert_eq!(a.other_player.target, cell(4, 5));
    assert!(a.receive_moves(&b"U".to_vec()));
    assert_eq!(a.other_player.target, cell(4, 4));
}
