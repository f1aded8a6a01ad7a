use palmietopia::hex::{GameMap, Terrain, Tile};
use palmietopia::lobby::Lobby;
use palmietopia::model::{MapSize, Player, PlayerColor, UnitType};
use palmietopia::session::GameSession;
use palmietopia::session::{BASE_INCOME, DEFAULT_BASE_TIME_MS, DEFAULT_INCREMENT_MS, STARTING_GOLD};
use palmietopia::model::GameStatus;

fn grass_map(radius: i32) -> GameMap {
    let mut tiles = Vec::new();
    for q in -radius..=radius {
        let r1 = (-radius).max(-q - radius);
        let r2 = radius.min(-q + radius);
        for r in r1..=r2 {
            tiles.push(Tile { q, r, terrain: Terrain::Grassland });
        }
    }
    GameMap { tiles, radius: radius as u32 }
}

fn player(id: &str, name: &str, color: PlayerColor) -> Player {
    Player { id: id.to_string(), name: name.to_string(), color }
}

fn two_player_lobby() -> Lobby {
    let lobby = Lobby::new("g1".to_string(), player("ann", "Ann", PlayerColor::Red), MapSize::Small);
    lobby.join("bob", "Bob".to_string()).unwrap()
}

/// Two players on a grass map of radius 4; ann starts on (2,0), bob on (-2,0).
fn two_player_session() -> GameSession {
    GameSession::from_lobby(&two_player_lobby(), grass_map(4), &vec![(2, 0), (-2, 0)])
}

fn set_terrain(s: &mut GameSession, q: i32, r: i32, t: Terrain) {
    for tile in s.map.tiles.iter_mut() {
        if tile.q == q && tile.r == r {
            tile.terrain = t;
        }
    }
}

#[test]
fn hex_distance_formula() {
    assert_eq!(GameSession::hex_distance(0, 0, 0, 0), 0);
    assert_eq!(GameSession::hex_distance(0, 0, 1, 0), 1);
    assert_eq!(GameSession::hex_distance(0, 0, 1, -1), 1);
    assert_eq!(GameSession::hex_distance(0, 0, 2, 2), 4);
    assert_eq!(GameSession::hex_distance(-3, 1, 2, -4), 5);
}

#[test]
fn movement_costs_by_terrain() {
    assert_eq!(GameSession::movement_cost(Terrain::Grassland), Some(1));
    assert_eq!(GameSession::movement_cost(Terrain::Forest), Some(1));
    assert_eq!(GameSession::movement_cost(Terrain::Desert), Some(1));
    assert_eq!(GameSession::movement_cost(Terrain::Mountain), Some(2));
    assert_eq!(GameSession::movement_cost(Terrain::Water), None);
}

#[test]
fn terrain_from_byte_residues() {
    assert_eq!(Terrain::from_byte(0), Terrain::Grassland);
    assert_eq!(Terrain::from_byte(6), Terrain::Forest);
    assert_eq!(Terrain::from_byte(12), Terrain::Mountain);
    assert_eq!(Terrain::from_byte(253), Terrain::Water);
    assert_eq!(Terrain::from_byte(255), Terrain::Grassland);
    assert_eq!(Terrain::from_byte(4), Terrain::Desert);
}

#[test]
fn map_sizes_and_colours() {
    assert_eq!(MapSize::Tiny.radius(), 2);
    assert_eq!(MapSize::Small.radius(), 4);
    assert_eq!(MapSize::Medium.radius(), 6);
    assert_eq!(MapSize::Large.radius(), 8);
    assert_eq!(MapSize::Huge.radius(), 10);
    assert_eq!(PlayerColor::from_index(0), PlayerColor::Red);
    assert_eq!(PlayerColor::from_index(3), PlayerColor::Yellow);
    assert_eq!(PlayerColor::from_index(7), PlayerColor::Green);
}

#[test]
fn generated_map_is_the_hex_region() {
    let map = GameMap::generate(2).unwrap();
    assert_eq!(map.radius, 2);
    assert_eq!(map.tiles.len(), 19);
    assert_eq!((map.tiles[0].q, map.tiles[0].r), (-2, 0));
    assert_eq!((map.tiles[18].q, map.tiles[18].r), (2, 0));
    for t in &map.tiles {
        assert!(GameSession::hex_distance(0, 0, t.q, t.r) <= 2);
    }
    let big = GameMap::generate(10).unwrap();
    assert_eq!(big.tiles.len(), 331);
}

#[test]
fn session_from_lobby_places_capitols_and_conscripts() {
    let s = two_player_session();
    assert_eq!(s.id, "g1");
    assert_eq!(s.current_turn, 0);
    assert!(matches!(s.status, GameStatus::InProgress));
    assert_eq!(s.player_times_ms, vec![DEFAULT_BASE_TIME_MS, DEFAULT_BASE_TIME_MS]);
    assert_eq!(s.player_gold, vec![STARTING_GOLD, STARTING_GOLD]);
    assert_eq!(s.cities.len(), 2);
    assert_eq!(s.cities[0].id, "city-ann-0");
    assert_eq!(s.cities[1].id, "city-bob-1");
    assert_eq!(s.cities[1].name, "Bob's Capital");
    assert!(s.cities[0].is_capitol);
    assert_eq!((s.cities[0].q, s.cities[0].r), (2, 0));
    assert_eq!((s.cities[1].q, s.cities[1].r), (-2, 0));
    assert_eq!(s.units.len(), 2);
    assert_eq!(s.units[0].id, "unit-ann-0");
    assert_eq!(s.units[0].hp, 50);
    assert_eq!(s.units[0].movement_remaining, 2);
    assert_eq!((s.units[1].q, s.units[1].r), (-2, 0));
}

#[test]
fn starting_positions_keep_their_distance() {
    let map = grass_map(4);
    // Both seats aim at the same tile: the second must stay at least 3 away.
    let p = GameSession::calculate_starting_positions(&map, &vec![(0, 0), (0, 0)]);
    assert_eq!(p[0], (0, 0));
    assert!(GameSession::hex_distance(p[0].0, p[0].1, p[1].0, p[1].1) >= 3);
    // Among the tiles 3 away, the first in scan order wins.
    assert_eq!(p[1], (-3, 0));
}

#[test]
fn starting_positions_fall_back_to_first_valid_tile() {
    let map = grass_map(1);
    let p = GameSession::calculate_starting_positions(&map, &vec![(0, 0), (0, 0)]);
    assert_eq!(p, vec![(0, 0), (-1, 0)]);
}

#[test]
fn move_one_tile_then_repeat_fails() {
    let mut s = two_player_session();
    s.units[0].q = 0;
    s.units[0].r = 0;
    assert_eq!(s.can_move_unit("unit-ann-0", 1, 0), Ok(1));
    let out = s.move_unit("unit-ann-0", 1, 0).unwrap();
    assert_eq!(out.movement_remaining, 1);
    assert_eq!((s.units[0].q, s.units[0].r), (1, 0));
    assert_eq!(s.move_unit("unit-ann-0", 1, 0).unwrap_err(), "Can only move to adjacent tiles");
}

#[test]
fn move_refusals() {
    let mut s = two_player_session();
    assert_eq!(s.can_move_unit("nope", 1, 0).unwrap_err(), "Unit not found");
    assert_eq!(s.can_move_unit("unit-ann-0", 9, 9).unwrap_err(), "Invalid destination");
    set_terrain(&mut s, 3, 0, Terrain::Water);
    assert_eq!(s.can_move_unit("unit-ann-0", 3, 0).unwrap_err(), "Cannot move to water");
    s.units[1].q = 2;
    s.units[1].r = 1;
    assert_eq!(s.can_move_unit("unit-ann-0", 2, 1).unwrap_err(), "Tile is occupied");
    s.units[0].movement_remaining = 0;
    assert_eq!(s.can_move_unit("unit-ann-0", 1, 0).unwrap_err(), "Not enough movement remaining");
}

#[test]
fn rejected_move_leaves_session_unchanged() {
    let mut s = two_player_session();
    let before = format!("{:?}", s);
    assert!(s.move_unit("unit-ann-0", 0, 0).is_err());
    assert_eq!(format!("{:?}", s), before);
}

#[test]
fn mountain_costs_two() {
    let mut s = two_player_session();
    set_terrain(&mut s, 3, 0, Terrain::Mountain);
    s.units[0].movement_remaining = 1;
    assert_eq!(s.can_move_unit("unit-ann-0", 3, 0).unwrap_err(), "Not enough movement remaining");
    s.units[0].movement_remaining = 2;
    assert_eq!(s.can_move_unit("unit-ann-0", 3, 0), Ok(2));
    let out = s.move_unit("unit-ann-0", 3, 0).unwrap();
    assert_eq!(out.movement_remaining, 0);
}

#[test]
fn checked_move_then_move_lands() {
    let mut s = two_player_session();
    let cost = s.can_move_unit("unit-ann-0", 2, -1).unwrap();
    assert_eq!(cost, 1);
    s.move_unit("unit-ann-0", 2, -1).unwrap();
    let u = s.units.iter().find(|u| u.id == "unit-ann-0").unwrap();
    assert_eq!((u.q, u.r), (2, -1));
}

#[test]
fn entering_an_undefended_city_captures_it() {
    let mut s = two_player_session();
    // bob's conscript leaves its capitol; ann's conscript walks in.
    s.units[1].q = -3;
    s.units[1].r = 0;
    s.units[0].q = -1;
    s.units[0].r = 0;
    let out = s.move_unit("unit-ann-0", -2, 0).unwrap();
    assert_eq!(out.eliminated_player.as_deref(), Some("bob"));
    assert_eq!(out.captured_city.unwrap().owner_id, "ann");
    assert_eq!(s.eliminated_players, vec!["bob".to_string()]);
    assert!(s.units.iter().all(|u| u.owner_id == "ann"));
    assert!(matches!(s.status, GameStatus::Victory { ref winner_id } if winner_id == "ann"));
}

#[test]
fn capturing_a_plain_city_only_changes_its_owner() {
    let mut s = two_player_session();
    s.cities[1].is_capitol = false;
    s.units[1].q = -3;
    s.units[1].r = 0;
    s.units[0].q = -1;
    s.units[0].r = 0;
    let out = s.move_unit("unit-ann-0", -2, 0).unwrap();
    assert!(out.eliminated_player.is_none());
    assert_eq!(s.cities[1].owner_id, "ann");
    assert!(s.eliminated_players.is_empty());
    assert!(matches!(s.status, GameStatus::InProgress));
}

#[test]
fn combat_until_the_capitol_falls() {
    let mut s = two_player_session();
    s.units[0].q = -1;
    s.units[0].r = 0;
    let d = s.units[1].clone();
    assert!(s.is_unit_garrisoned(&d));
    assert_eq!(s.effective_defense(&d), 22);
    let expected = [(42, 36), (34, 22), (26, 8)];
    for (a_hp, d_hp) in expected {
        s.units[0].movement_remaining = 2;
        let out = s.resolve_combat("unit-ann-0", "unit-bob-0").unwrap();
        assert_eq!(out.damage_to_defender, 14);
        assert_eq!(out.damage_to_attacker, 8);
        assert_eq!((out.attacker_hp, out.defender_hp), (a_hp, d_hp));
        assert!(!out.defender_died);
        assert_eq!(s.units[0].movement_remaining, 0);
    }
    s.units[0].movement_remaining = 2;
    let out = s.resolve_combat("unit-ann-0", "unit-bob-0").unwrap();
    assert!(out.defender_died);
    assert!(!out.attacker_died);
    assert_eq!(out.defender_hp, 0);
    assert_eq!((out.attacker_new_q, out.attacker_new_r), (Some(-2), Some(0)));
    assert_eq!(out.eliminated_player.as_deref(), Some("bob"));
    assert_eq!(s.units.len(), 1);
    assert_eq!((s.units[0].q, s.units[0].r), (-2, 0));
    assert!(matches!(s.status, GameStatus::Victory { ref winner_id } if winner_id == "ann"));
}

#[test]
fn combat_refusals() {
    let mut s = two_player_session();
    assert_eq!(s.resolve_combat("x", "unit-bob-0").unwrap_err(), "Attacker not found");
    assert_eq!(s.resolve_combat("unit-ann-0", "x").unwrap_err(), "Defender not found");
    assert_eq!(
        s.resolve_combat("unit-ann-0", "unit-bob-0").unwrap_err(),
        "Units must be adjacent to attack"
    );
    s.units[0].q = -1;
    s.units[0].r = 0;
    s.units[0].movement_remaining = 0;
    assert_eq!(
        s.resolve_combat("unit-ann-0", "unit-bob-0").unwrap_err(),
        "No movement remaining to attack"
    );
}

#[test]
fn attacker_dying_does_not_advance() {
    let mut s = two_player_session();
    s.units[0].q = -1;
    s.units[0].r = 0;
    s.units[0].hp = 5;
    s.units[1].hp = 10;
    let out = s.resolve_combat("unit-ann-0", "unit-bob-0").unwrap();
    assert!(out.attacker_died && out.defender_died);
    assert_eq!(out.attacker_new_q, None);
    assert!(s.units.is_empty());
    assert!(s.eliminated_players.is_empty());
}

#[test]
fn fortify_heals_a_quarter() {
    let mut s = two_player_session();
    s.units[0].hp = 20;
    assert_eq!(s.fortify_unit("unit-ann-0"), Ok(32));
    assert_eq!(s.units[0].movement_remaining, 0);
    assert_eq!(s.fortify_unit("unit-ann-0").unwrap_err(), "Cannot fortify after moving");
    s.units[1].hp = 45;
    assert_eq!(s.fortify_unit("unit-bob-0"), Ok(50));
    assert_eq!(s.fortify_unit("zzz").unwrap_err(), "Unit not found");
}

#[test]
fn city_produces_once_per_turn() {
    let mut s = two_player_session();
    // Empty ann's capitol first.
    s.units[0].q = 1;
    s.units[0].r = 0;
    let unit = s.buy_unit_with_token("ann", "city-ann-0", UnitType::Conscript, 0xbeef).unwrap();
    assert_eq!(unit.id, "unit-ann-beef");
    assert_eq!(unit.movement_remaining, 0);
    assert_eq!((unit.q, unit.r), (2, 0));
    assert_eq!(s.player_gold[0], 25);
    assert!(s.cities[0].produced_this_turn);
    // The new unit now stands in the city; move it out to test the lock itself.
    s.units[2].q = 3;
    s.units[2].r = -1;
    assert_eq!(
        s.buy_unit("ann", "city-ann-0", UnitType::Conscript).unwrap_err(),
        "City has already produced this turn"
    );
    s.end_current_turn(0);
    s.end_current_turn(0);
    assert!(!s.cities[0].produced_this_turn);
    let again = s.buy_unit("ann", "city-ann-0", UnitType::Conscript).unwrap();
    assert!(again.id.starts_with("unit-ann-"));
    assert!(again.id.len() > "unit-ann-".len());
    assert_eq!(s.player_gold[0], 25 + BASE_INCOME - 25);
}

#[test]
fn purchase_refusals() {
    let mut s = two_player_session();
    assert_eq!(s.buy_unit("zz", "city-ann-0", UnitType::Conscript).unwrap_err(), "Player not found");
    assert_eq!(s.buy_unit("ann", "nowhere", UnitType::Conscript).unwrap_err(), "City not found");
    assert_eq!(s.buy_unit("ann", "city-bob-1", UnitType::Conscript).unwrap_err(), "Not your city");
    assert_eq!(
        s.buy_unit("ann", "city-ann-0", UnitType::Conscript).unwrap_err(),
        "City is occupied by a unit"
    );
    s.units[0].q = 1;
    s.player_gold[0] = 24;
    assert_eq!(s.buy_unit("ann", "city-ann-0", UnitType::Conscript).unwrap_err(), "Not enough gold");
}

#[test]
fn end_turn_charges_clock_and_grants_income() {
    let mut s = two_player_session();
    s.units[1].movement_remaining = 0;
    s.end_current_turn(1000);
    assert_eq!(s.player_times_ms[0], 120_000 - 1000 + DEFAULT_INCREMENT_MS);
    assert_eq!(s.player_gold[0], 70);
    assert_eq!(s.current_turn, 1);
    assert_eq!(s.units[1].movement_remaining, 2);
    assert_eq!(s.current_player_time(), DEFAULT_BASE_TIME_MS);
}

#[test]
fn overdrawn_clock_keeps_only_the_increment() {
    let mut s = two_player_session();
    s.end_current_turn(500_000);
    assert_eq!(s.player_times_ms[0], DEFAULT_INCREMENT_MS);
}

#[test]
fn turn_skips_eliminated_seats() {
    let lobby = two_player_lobby().join("cy", "Cy".to_string()).unwrap();
    let mut s = GameSession::from_lobby(&lobby, grass_map(6), &vec![(4, 0), (-2, 3), (-2, -2)]);
    s.eliminated_players.push("bob".to_string());
    s.end_current_turn(0);
    assert_eq!(s.current_turn, 2);
    s.end_current_turn(0);
    assert_eq!(s.current_turn, 0);
}

#[test]
fn unit_stats_table() {
    assert_eq!(UnitType::Conscript.base_movement(), 2);
    assert_eq!(UnitType::Conscript.stats(), (50, 25, 15));
    assert_eq!(UnitType::Conscript.cost(), 25);
}

fn check_invariants(s: &GameSession) {
    let n = s.players.len();
    assert_eq!(s.player_times_ms.len(), n);
    assert_eq!(s.player_gold.len(), n);
    for u in &s.units {
        assert!(u.hp <= u.max_hp);
        assert!(u.movement_remaining <= u.unit_type.base_movement());
    }
    for (i, a) in s.units.iter().enumerate() {
        for b in &s.units[i + 1..] {
            assert!(!(a.q == b.q && a.r == b.r));
        }
    }
    for c in &s.cities {
        assert!(s.players.iter().any(|p| p.id == c.owner_id));
        assert!(!s.eliminated_players.contains(&c.owner_id));
    }
    let owned: usize =
        s.players.iter().map(|p| s.cities.iter().filter(|c| c.owner_id == p.id).count()).sum();
    assert_eq!(owned, s.cities.len());
    let left: Vec<&String> =
        s.players.iter().map(|p| &p.id).filter(|id| !s.eliminated_players.contains(id)).collect();
    match &s.status {
        GameStatus::Victory { winner_id } => assert_eq!(left, vec![winner_id]),
        GameStatus::InProgress => {
            assert!(!s.eliminated_players.contains(&s.players[s.current_turn].id))
        }
        GameStatus::Finished => {}
    }
}

#[test]
fn invariants_hold_through_play() {
    let lobby = two_player_lobby().join("cy", "Cy".to_string()).unwrap();
    let mut s = GameSession::from_lobby(&lobby, grass_map(6), &vec![(4, 0), (-2, 3), (-2, -2)]);
    check_invariants(&s);
    // ann walks towards cy's capitol at (-2,-2) over several turns.
    let path = [(3, 0), (2, 0), (1, 0), (0, 0), (-1, 0), (-2, 0), (-2, -1)];
    for (q, r) in path {
        if s.units[0].movement_remaining == 0 {
            s.end_current_turn(10);
            check_invariants(&s);
            s.end_current_turn(10);
            check_invariants(&s);
            s.end_current_turn(10);
            check_invariants(&s);
        }
        s.move_unit("unit-ann-0", q, r).unwrap();
        check_invariants(&s);
    }
    // Take cy's capitol from its garrison: three players, so no victory yet.
    let mut attacks = 0;
    while s.eliminated_players.is_empty() {
        s.units[0].movement_remaining = 2;
        s.resolve_combat("unit-ann-0", "unit-cy-0").unwrap();
        check_invariants(&s);
        attacks += 1;
        assert!(attacks < 10);
    }
    assert_eq!(s.eliminated_players, vec!["cy".to_string()]);
    assert!(matches!(s.status, GameStatus::InProgress));
    assert_eq!(s.cities.iter().filter(|c| c.owner_id == "ann").count(), 2);
}

#[test]
fn last_two_players_capitol_capture_wins() {
    let mut s = two_player_session();
    s.units[1].q = -3;
    s.units[1].r = 1;
    s.units[0].q = -1;
    s.units[0].r = 0;
    s.move_unit("unit-ann-0", -2, 0).unwrap();
    check_invariants(&s);
    assert!(matches!(s.status, GameStatus::Victory { ref winner_id } if winner_id == "ann"));
}

#[test]
fn purchase_refuses_an_id_in_use() {
    let mut s = two_player_session();
    s.units[0].q = 1;
    let before = format!("{:?}", s);
    // Token 0 would name the new unit after ann's first conscript.
    assert_eq!(
        s.buy_unit_with_token("ann", "city-ann-0", UnitType::Conscript, 0).unwrap_err(),
        "Unit id already in use"
    );
    assert_eq!(format!("{:?}", s), before);
    assert!(s.buy_unit_with_token("ann", "city-ann-0", UnitType::Conscript, 1).is_ok());
    check_invariants(&s);
    let ids: Vec<&String> = s.units.iter().map(|u| &u.id).collect();
    assert_eq!(ids.len(), 3);
    assert!(ids[0] != ids[2] && ids[1] != ids[2]);
}
