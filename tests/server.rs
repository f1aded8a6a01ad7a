use palmietopia::clock::current_time_ms;
use palmietopia::hex::{GameMap, Terrain, Tile};
use palmietopia::lobby::{visible_lobbies, Lobby, LobbyStatus};
use palmietopia::manager::GameManager;
use palmietopia::messages::ServerMessage;
use palmietopia::model::{GameStatus, MapSize, Player, PlayerColor, UnitType};
use palmietopia::session::GameSession;
use palmietopia::state::{check_rejoin, get_welcome_message, parse_unit_type, PlayerConnection};
use palmietopia::store::{InMemoryStore, StoreError};
use palmietopia::text::{decimal_string, hex_string, str_eq};

fn grass_map(radius: i32) -> GameMap {
    let mut tiles = Vec::new();
    for q in -radius..=radius {
        let r1 = (-radius).max(-q - radius);
        let r2 = radius.min(-q + radius);
        for r in r1..=r2 {
            tiles.push(Tile { q, r, terrain: Terrain::Grassland });
        }
    }
    GameMap { tiles, radius: radius as u32 }
}

fn host(id: &str, name: &str) -> Player {
    Player { id: id.to_string(), name: name.to_string(), color: PlayerColor::Red }
}

fn lobby_of(id: &str, names: &[(&str, &str)]) -> Lobby {
    let mut lobby = Lobby::new(id.to_string(), host(names[0].0, names[0].1), MapSize::Small);
    for (pid, name) in &names[1..] {
        lobby = lobby.join(pid, name.to_string()).unwrap();
    }
    lobby
}

fn session(base_time_ms: u64) -> GameSession {
    let lobby = lobby_of("g1", &[("ann", "Ann"), ("bob", "Bob")]);
    let mut s = GameSession::from_lobby(&lobby, grass_map(4), &vec![(2, 0), (-2, 0)]);
    s.base_time_ms = base_time_ms;
    s.player_times_ms = vec![base_time_ms, base_time_ms];
    s
}

fn manager_with(s: GameSession, now: u64) -> GameManager {
    let mut m = GameManager::new();
    m.start_game(s, now);
    m
}

#[test]
fn lobby_join_and_limits() {
    let mut lobby = lobby_of("l1", &[("a", "A")]);
    assert!(lobby.can_join());
    assert!(!lobby.can_start());
    assert_eq!(lobby.join("a", "A".to_string()).unwrap_err(), "You are already in this lobby");
    for (i, id) in ["b", "c", "d", "e"].iter().enumerate() {
        lobby = lobby.join(id, id.to_uppercase()).unwrap();
        assert_eq!(lobby.players[i + 1].color, PlayerColor::from_index(i + 1));
    }
    assert_eq!(lobby.players.len(), 5);
    assert!(!lobby.can_join());
    assert_eq!(lobby.join("f", "F".to_string()).unwrap_err(), "Cannot join this lobby");
    assert!(lobby.can_start());
    lobby.status = LobbyStatus::InGame;
    assert!(!lobby.can_start());
    assert_eq!(lobby.check_start("a").unwrap_err(), "Need at least 2 players to start");
}

#[test]
fn only_the_host_starts() {
    let lobby = lobby_of("l1", &[("a", "A"), ("b", "B")]);
    assert_eq!(lobby.check_start("b").unwrap_err(), "Only the host can start the game");
    assert!(lobby.check_start("a").is_ok());
    let alone = lobby_of("l2", &[("a", "A")]);
    assert_eq!(alone.check_start("a").unwrap_err(), "Need at least 2 players to start");
}

#[test]
fn host_leaving_promotes_first_remaining() {
    let lobby = lobby_of("l1", &[("h", "Host"), ("x", "X"), ("y", "Y")]);
    let after = lobby.without_player("h").unwrap();
    assert_eq!(after.host_id, "x");
    assert_eq!(after.players.len(), 2);
    assert_eq!(after.players[0].id, "x");
    let guest_left = lobby.without_player("y").unwrap();
    assert_eq!(guest_left.host_id, "h");
    let last = lobby_of("l2", &[("h", "Host")]);
    assert!(last.without_player("h").is_none());
}

#[test]
fn listing_shows_waiting_lobbies_only() {
    let a = lobby_of("a", &[("p", "P")]);
    let mut b = lobby_of("b", &[("q", "Q")]);
    b.status = LobbyStatus::InGame;
    let c = lobby_of("c", &[("r", "R")]);
    let visible = visible_lobbies(&vec![a, b, c]);
    let ids: Vec<&str> = visible.iter().map(|l| l.id.as_str()).collect();
    assert_eq!(ids, vec!["a", "c"]);
}

#[test]
fn store_lobby_crud() {
    let mut store = InMemoryStore::new();
    assert_eq!(store.create_lobby(lobby_of("a", &[("p", "P")])).unwrap(), "a");
    store.create_lobby(lobby_of("b", &[("q", "Q")])).unwrap();
    assert!(store.get_lobby("zz").unwrap().is_none());
    let a = store.get_lobby("a").unwrap().unwrap();
    assert_eq!(a.host_id, "p");
    let a2 = a.join("bob", "Bob".to_string()).unwrap();
    store.update_lobby(a2).unwrap();
    assert_eq!(store.get_lobby("a").unwrap().unwrap().players.len(), 2);
    assert_eq!(store.list_lobbies().unwrap().len(), 2);
    store.delete_lobby("a").unwrap();
    assert!(store.get_lobby("a").unwrap().is_none());
    store.delete_lobby("a").unwrap();
    assert_eq!(store.list_lobbies().unwrap().len(), 1);
}

#[test]
fn repeated_listing_is_the_same() {
    let mut store = InMemoryStore::new();
    store.create_lobby(lobby_of("a", &[("p", "P")])).unwrap();
    store.create_lobby(lobby_of("b", &[("q", "Q")])).unwrap();
    let first: Vec<String> = store.list_lobbies().unwrap().iter().map(|l| l.id.clone()).collect();
    let second: Vec<String> = store.list_lobbies().unwrap().iter().map(|l| l.id.clone()).collect();
    assert_eq!(first, second);
    assert_eq!(first, vec!["a".to_string(), "b".to_string()]);
}

#[test]
fn store_games() {
    let mut store = InMemoryStore::new();
    assert!(store.load_game("g1").unwrap().is_none());
    store.save_game(session(120_000)).unwrap();
    let mut changed = session(120_000);
    changed.current_turn = 1;
    store.save_game(changed).unwrap();
    assert_eq!(store.load_game("g1").unwrap().unwrap().current_turn, 1);
}

#[test]
fn store_error_messages() {
    assert_eq!(StoreError::NotFound.message(), "Not found");
    assert_eq!(StoreError::AlreadyExists.message(), "Already exists");
    assert_eq!(StoreError::Internal("disk".to_string()).message(), "Internal error: disk");
}

#[test]
fn chess_clock_over_two_turns() {
    let mut m = manager_with(session(120_000), 0);
    let (g, events) = m.end_turn("g1", "ann", 1000).unwrap();
    assert_eq!(g.player_times_ms[0], 164_000);
    assert_eq!(g.current_turn, 1);
    assert_eq!(g.player_gold[0], 70);
    assert_eq!(events.len(), 1);
    assert!(matches!(events[0], ServerMessage::TurnChanged { current_turn: 1, .. }));
    let (g, _) = m.end_turn("g1", "bob", 1500).unwrap();
    assert_eq!(g.player_times_ms[1], 164_500);
    assert_eq!(g.current_turn, 0);
}

#[test]
fn end_turn_refusals() {
    let mut m = manager_with(session(120_000), 0);
    assert_eq!(m.end_turn("nope", "ann", 5).unwrap_err(), "Game not found");
    assert_eq!(m.end_turn("g1", "bob", 5).unwrap_err(), "Not your turn (expected ann, got bob)");
}

#[test]
fn flag_fall_ends_the_turn() {
    let mut m = manager_with(session(3000), 0);
    let events = m.timer_tick("g1", 1000).unwrap();
    assert!(matches!(events[..], [ServerMessage::TimeTick { player_index: 0, remaining_ms: 2000 }]));
    let events = m.timer_tick("g1", 3000).unwrap();
    assert_eq!(events.len(), 2);
    assert!(matches!(events[0], ServerMessage::TimeTick { player_index: 0, remaining_ms: 0 }));
    assert!(matches!(events[1], ServerMessage::TurnChanged { current_turn: 1, .. }));
    let g = m.get_game("g1").unwrap();
    assert_eq!(g.player_times_ms[0], 45_000);
    assert_eq!(g.current_turn, 1);
    assert_eq!(g.turn_started_at_ms, 3000);
}

#[test]
fn timer_stops_for_missing_or_won_games() {
    let mut m = GameManager::new();
    assert!(m.timer_tick("g1", 10).is_none());
    let mut s = session(120_000);
    s.status = GameStatus::Victory { winner_id: "ann".to_string() };
    m.start_game(s, 0);
    assert!(m.timer_tick("g1", 10).is_none());
    assert!(m.get_game("g1").is_none());
}

#[test]
fn manager_move_checks_turn_and_owner() {
    let mut m = manager_with(session(120_000), 0);
    assert_eq!(m.move_unit("zz", "ann", "unit-ann-0", 1, 0).unwrap_err(), "Game not found");
    assert_eq!(m.move_unit("g1", "bob", "unit-bob-0", -1, 0).unwrap_err(), "Not your turn");
    assert_eq!(m.move_unit("g1", "ann", "ghost", 1, 0).unwrap_err(), "Unit not found");
    assert_eq!(m.move_unit("g1", "ann", "unit-bob-0", -1, 0).unwrap_err(), "Not your unit");
    let (out, events) = m.move_unit("g1", "ann", "unit-ann-0", 1, 0).unwrap();
    assert_eq!(out.movement_remaining, 1);
    assert_eq!(events.len(), 1);
    assert!(matches!(
        events[0],
        ServerMessage::UnitMoved { to_q: 1, to_r: 0, movement_remaining: 1, .. }
    ));
}

#[test]
fn game_over_through_the_manager() {
    let mut s = session(120_000);
    s.units[0].q = -1;
    s.units[0].r = 0;
    s.units[1].hp = 8;
    let mut m = manager_with(s, 0);
    assert_eq!(m.attack_unit("g1", "ann", "nope", "unit-bob-0").unwrap_err(), "Attacker not found");
    let (out, events) = m.attack_unit("g1", "ann", "unit-ann-0", "unit-bob-0").unwrap();
    assert!(out.defender_died);
    assert_eq!(events.len(), 4);
    assert!(matches!(events[0], ServerMessage::CombatResult { defender_died: true, .. }));
    assert!(matches!(events[1], ServerMessage::PlayerEliminated { ref player_id, ref conquerer_id }
        if player_id == "bob" && conquerer_id == "ann"));
    assert!(matches!(events[2], ServerMessage::CitiesCaptured { ref cities } if cities.len() == 2));
    assert!(matches!(events[3], ServerMessage::GameOver { ref winner_id } if winner_id == "ann"));
    assert!(m.timer_tick("g1", 5).is_none());
}

#[test]
fn manager_fortify_and_buy() {
    let mut s = session(120_000);
    s.units[0].hp = 10;
    s.units[0].q = 1;
    let mut m = manager_with(s, 0);
    let (hp, events) = m.fortify_unit("g1", "ann", "unit-ann-0").unwrap();
    assert_eq!(hp, 22);
    assert!(matches!(events[0], ServerMessage::UnitFortified { new_hp: 22, .. }));
    assert_eq!(m.buy_unit("g1", "bob", "city-bob-1", UnitType::Conscript).unwrap_err(), "Not your turn");
    let (unit, gold, events) = m.buy_unit("g1", "ann", "city-ann-0", UnitType::Conscript).unwrap();
    assert_eq!(gold, 25);
    assert_eq!((unit.q, unit.r), (2, 0));
    assert!(matches!(events[0], ServerMessage::UnitPurchased { player_gold: 25, .. }));
}

#[test]
fn start_game_replaces_same_id() {
    let mut m = manager_with(session(120_000), 7);
    assert_eq!(m.get_game("g1").unwrap().turn_started_at_ms, 7);
    m.start_game(session(5000), 9);
    assert_eq!(m.active_games.len(), 1);
    assert_eq!(m.get_game("g1").unwrap().player_times_ms[0], 5000);
}

#[test]
fn number_renderings() {
    assert_eq!(decimal_string(0), "0");
    assert_eq!(decimal_string(40213), "40213");
    assert_eq!(hex_string(255), "ff");
    assert_eq!(hex_string(0x1a2b3c), "1a2b3c");
    assert!(str_eq("abc", "abc"));
    assert!(!str_eq("abc", "abd"));
    assert!(!str_eq("ab", "abc"));
}

#[test]
fn connection_and_commands() {
    let c = PlayerConnection::new("dee".to_string());
    assert_eq!(c.player_id, "dee");
    assert!(c.lobby_id.is_none());
    assert_eq!(parse_unit_type("Conscript"), Some(UnitType::Conscript));
    assert_eq!(parse_unit_type("Knight"), None);
    assert_eq!(get_welcome_message(), "Welcome to Palmietopia!");
}

#[test]
fn clock_reads_after_the_epoch() {
    let a = current_time_ms();
    let b = current_time_ms();
    assert!(a > 1_600_000_000_000);
    assert!(b >= a);
}

#[test]
fn create_lobby_decision() {
    let mut c = PlayerConnection::new("ann".to_string());
    let l = c.create_lobby("L".to_string(), "Ann".to_string(), MapSize::Tiny).unwrap();
    assert_eq!(l.host_id, "ann");
    assert_eq!(l.players[0].name, "Ann");
    assert_eq!(c.lobby_id.as_deref(), Some("L"));
    assert_eq!(
        c.create_lobby("M".to_string(), "Ann".to_string(), MapSize::Tiny).unwrap_err(),
        "Already in a lobby. Leave first before creating a new one."
    );
}

#[test]
fn join_lobby_decision() {
    let mut c = PlayerConnection::new("bob".to_string());
    assert_eq!(c.join_lobby(None, "Bob".to_string()).unwrap_err(), "Lobby not found");
    assert!(c.lobby_id.is_none());
    let joined = c.join_lobby(Some(lobby_of("L", &[("ann", "Ann")])), "Bob".to_string()).unwrap();
    assert_eq!(joined.players.len(), 2);
    assert_eq!(joined.players[1].color, PlayerColor::Blue);
    assert_eq!(c.lobby_id.as_deref(), Some("L"));
    assert_eq!(
        c.join_lobby(Some(lobby_of("M", &[("cy", "Cy")])), "Bob".to_string()).unwrap_err(),
        "Already in a lobby. Leave first before joining another."
    );
}

#[test]
fn start_and_rejoin_decisions() {
    let mut c = PlayerConnection::new("ann".to_string());
    assert_eq!(c.check_start(None).unwrap_err(), "Not in a lobby");
    c.lobby_id = Some("L".to_string());
    assert_eq!(c.check_start(None).unwrap_err(), "Lobby not found");
    let lobby = lobby_of("L", &[("ann", "Ann"), ("bob", "Bob")]);
    assert_eq!(c.check_start(Some(lobby.clone())).unwrap().id, "L");
    let guest = PlayerConnection { player_id: "bob".to_string(), lobby_id: Some("L".to_string()), game_id: None };
    assert_eq!(guest.check_start(Some(lobby)).unwrap_err(), "Only the host can start the game");
    assert_eq!(check_rejoin(None, "ann").unwrap_err(), "Game not found");
    assert_eq!(check_rejoin(Some(session(1000)), "zed").unwrap_err(), "You are not in this game");
    assert_eq!(check_rejoin(Some(session(1000)), "bob").unwrap().id, "g1");
}

#[test]
fn combat_capture_of_a_plain_city_is_published() {
    let mut s = session(120_000);
    s.cities[1].is_capitol = false;
    s.units[0].q = -1;
    s.units[0].r = 0;
    s.units[1].hp = 8;
    let mut m = manager_with(s, 0);
    let (out, events) = m.attack_unit("g1", "ann", "unit-ann-0", "unit-bob-0").unwrap();
    assert!(out.eliminated_player.is_none());
    assert_eq!(out.captured_city.unwrap().owner_id, "ann");
    assert_eq!(events.len(), 2);
    assert!(matches!(events[0], ServerMessage::CombatResult { defender_died: true, .. }));
    assert!(matches!(events[1], ServerMessage::CitiesCaptured { ref cities }
        if cities[1].owner_id == "ann"));
}

#[test]
fn started_lobby_is_closed() {
    let lobby = lobby_of("l1", &[("a", "A"), ("b", "B")]);
    let started = lobby.in_game();
    assert_eq!(started.status, LobbyStatus::InGame);
    assert_eq!(started.players.len(), 2);
    assert!(!started.can_join());
    assert!(!started.can_start());
}

#[test]
fn lobby_list_reply_holds_waiting_lobbies() {
    let mut store = InMemoryStore::new();
    store.create_lobby(lobby_of("a", &[("p", "P")])).unwrap();
    store.create_lobby(lobby_of("b", &[("q", "Q"), ("r", "R")]).in_game()).unwrap();
    let first = palmietopia::state::lobby_list_reply(store.list_lobbies());
    let second = palmietopia::state::lobby_list_reply(store.list_lobbies());
    for reply in [first, second] {
        match reply {
            ServerMessage::LobbyList { lobbies } => {
                assert_eq!(lobbies.len(), 1);
                assert_eq!(lobbies[0].id, "a");
            }
            _ => panic!("expected a lobby list"),
        }
    }
    let failed = palmietopia::state::lobby_list_reply(Err(StoreError::Internal("x".to_string())));
    assert!(matches!(failed, ServerMessage::LobbyList { ref lobbies } if lobbies.is_empty()));
}
