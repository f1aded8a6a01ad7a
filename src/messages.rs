//! The commands that clients send and the events that the server sends back.
use vstd::prelude::*;
use crate::lobby::Lobby;
use crate::model::{city_views, unit_views, City, CityView, MapSize, Unit, UnitView};
use crate::session::GameSession;

verus! {

#[derive(Debug)]
pub enum ClientMessage {
    CreateLobby { player_name: String, map_size: MapSize },
    JoinLobby { lobby_id: String, player_name: String },
    LeaveLobby,
    StartGame,
    ListLobbies,
    EndTurn { game_id: String, player_id: String },
    RejoinGame { game_id: String, player_id: String },
    MoveUnit { game_id: String, player_id: String, unit_id: String, to_q: i32, to_r: i32 },
    AttackUnit { game_id: String, player_id: String, attacker_id: String, defender_id: String },
    FortifyUnit { game_id: String, player_id: String, unit_id: String },
    BuyUnit { game_id: String, player_id: String, city_id: String, unit_type: String },
}

#[derive(Debug)]
pub enum ServerMessage {
    LobbyCreated { lobby_id: String, player_id: String },
    JoinedLobby { lobby: Lobby, player_id: String },
    LobbyUpdated { lobby: Lobby },
    LobbyList { lobbies: Vec<Lobby> },
    GameStarted { game: GameSession },
    GameRejoined { game: GameSession },
    PlayerLeft { player_id: String },
    Error { message: String },
    TurnChanged {
        current_turn: usize,
        player_times_ms: Vec<u64>,
        player_gold: Vec<u64>,
        units: Vec<Unit>,
        cities: Vec<City>,
    },
    TimeTick { player_index: usize, remaining_ms: u64 },
    UnitMoved { unit_id: String, to_q: i32, to_r: i32, movement_remaining: u32 },
    CombatResult {
        attacker_id: String,
        defender_id: String,
        attacker_hp: u32,
        defender_hp: u32,
        damage_to_attacker: u32,
        damage_to_defender: u32,
        attacker_died: bool,
        defender_died: bool,
        attacker_new_q: Option<i32>,
        attacker_new_r: Option<i32>,
    },
    PlayerEliminated { player_id: String, conquerer_id: String },
    CitiesCaptured { cities: Vec<City> },
    GameOver { winner_id: String },
    UnitFortified { unit_id: String, new_hp: u32 },
    UnitPurchased { unit: Unit, city_id: String, player_gold: u64 },
}

/// What a session event says, with strings seen as their characters.
pub enum EventView {
    TurnChanged {
        current_turn: usize,
        times: Seq<u64>,
        gold: Seq<u64>,
        units: Seq<UnitView>,
        cities: Seq<CityView>,
    },
    TimeTick { player_index: usize, remaining_ms: u64 },
    UnitMoved { unit_id: Seq<char>, to_q: i32, to_r: i32, movement_remaining: u32 },
    CombatResult {
        attacker_id: Seq<char>,
        defender_id: Seq<char>,
        hp: (u32, u32),
        damage: (u32, u32),
        died: (bool, bool),
        advance: (Option<i32>, Option<i32>),
    },
    PlayerEliminated { player_id: Seq<char>, conquerer_id: Seq<char> },
    CitiesCaptured { cities: Seq<CityView> },
    GameOver { winner_id: Seq<char> },
    UnitFortified { unit_id: Seq<char>, new_hp: u32 },
    UnitPurchased { unit: UnitView, city_id: Seq<char>, player_gold: u64 },
    Other,
}

pub open spec fn event_view(e: ServerMessage) -> EventView {
    match e {
        ServerMessage::TurnChanged { current_turn, player_times_ms, player_gold, units, cities } =>
            EventView::TurnChanged {
            current_turn,
            times: player_times_ms@,
            gold: player_gold@,
            units: unit_views(units@),
            cities: city_views(cities@),
        },
        ServerMessage::TimeTick { player_index, remaining_ms } => EventView::TimeTick {
            player_index,
            remaining_ms,
        },
        ServerMessage::UnitMoved { unit_id, to_q, to_r, movement_remaining } =>
            EventView::UnitMoved { unit_id: unit_id@, to_q, to_r, movement_remaining },
        ServerMessage::CombatResult {
            attacker_id,
            defender_id,
            attacker_hp,
            defender_hp,
            damage_to_attacker,
            damage_to_defender,
            attacker_died,
            defender_died,
            attacker_new_q,
            attacker_new_r,
        } => EventView::CombatResult {
            attacker_id: attacker_id@,
            defender_id: defender_id@,
            hp: (attacker_hp, defender_hp),
            damage: (damage_to_attacker, damage_to_defender),
            died: (attacker_died, defender_died),
            advance: (attacker_new_q, attacker_new_r),
        },
        ServerMessage::PlayerEliminated { player_id, conquerer_id } =>
            EventView::PlayerEliminated { player_id: player_id@, conquerer_id: conquerer_id@ },
        ServerMessage::CitiesCaptured { cities } => EventView::CitiesCaptured {
            cities: city_views(cities@),
        },
        ServerMessage::GameOver { winner_id } => EventView::GameOver { winner_id: winner_id@ },
        ServerMessage::UnitFortified { unit_id, new_hp } => EventView::UnitFortified {
            unit_id: unit_id@,
            new_hp,
        },
        ServerMessage::UnitPurchased { unit, city_id, player_gold } => EventView::UnitPurchased {
            unit: unit@,
            city_id: city_id@,
            player_gold,
        },
        _ => EventView::Other,
    }
}

pub open spec fn event_views(es: Seq<ServerMessage>) -> Seq<EventView> {
    es.map_values(|e: ServerMessage| event_view(e))
}

} // verus!
