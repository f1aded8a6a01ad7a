//! The rules engine: a game session and its state transitions.
//!
//! Each operation is stated as a spec function from the session's view (and the
//! operation's arguments) to the next view and the value returned; a rejected
//! operation leaves the session untouched.
use vstd::prelude::*;
use crate::hex::{
    distance, hex_dist, is_start_terrain, random_u64, terrain_cost, GameMap, Terrain, Tile,
};
use crate::laws::{
    all_seats_spread, cities_owned, lemma_buy_wf, lemma_starts_distinct, lemma_combat_owners, lemma_combat_sound, lemma_combat_units,
    lemma_end_turn_wf, lemma_fortify_wf, lemma_move_owners, lemma_move_sound, lemma_move_units,
    lemma_new_session_wf, session_sound, session_wf, tiles_unshared, units_sound, victory_sound,
};
use crate::lobby::{lobby_ids, Lobby};
use crate::model::{
    city_views, player_views, str_views, type_attack, type_base_movement, type_cost,
    type_defense, type_max_hp, unit_views, City, CityView, Player, PlayerView, StatusView, Unit,
    UnitType, UnitView, GameStatus,
};
use crate::text::{decimal_digits, decimal_string, hex_digits, hex_string, str_eq};

verus! {

pub const DEFAULT_BASE_TIME_MS: u64 = 120_000;

pub const DEFAULT_INCREMENT_MS: u64 = 45_000;

pub const STARTING_GOLD: u64 = 50;

pub const BASE_INCOME: u64 = 20;

#[derive(Debug)]
pub struct GameSession {
    pub id: String,
    pub map: GameMap,
    pub players: Vec<Player>,
    pub cities: Vec<City>,
    pub units: Vec<Unit>,
    pub current_turn: usize,
    pub status: GameStatus,
    pub eliminated_players: Vec<String>,
    pub player_times_ms: Vec<u64>,
    pub player_gold: Vec<u64>,
    pub turn_started_at_ms: u64,
    pub base_time_ms: u64,
    pub increment_ms: u64,
}

/// What a session holds, with every string seen as its characters.
pub struct SessionView {
    pub id: Seq<char>,
    pub tiles: Seq<Tile>,
    pub radius: u32,
    pub players: Seq<PlayerView>,
    pub cities: Seq<CityView>,
    pub units: Seq<UnitView>,
    pub current_turn: usize,
    pub status: StatusView,
    pub eliminated: Seq<Seq<char>>,
    pub times: Seq<u64>,
    pub gold: Seq<u64>,
    pub turn_started_at_ms: u64,
    pub base_time_ms: u64,
    pub increment_ms: u64,
}

impl Clone for GameSession {
    fn clone(&self) -> (r: Self)
        ensures
            r@ == self@,
    {
        let players = self.players.clone();
        assert forall|i: int| 0 <= i < players@.len() implies players@[i] == self.players@[i] by {
            assert(cloned::<Player>(self.players[i], players[i]));
        }
        assert(players@ =~= self.players@);
        let cities = self.cities.clone();
        assert forall|i: int| 0 <= i < cities@.len() implies cities@[i] == self.cities@[i] by {
            assert(cloned::<City>(self.cities[i], cities[i]));
        }
        assert(cities@ =~= self.cities@);
        let units = self.units.clone();
        assert forall|i: int| 0 <= i < units@.len() implies units@[i] == self.units@[i] by {
            assert(cloned::<Unit>(self.units[i], units[i]));
        }
        assert(units@ =~= self.units@);
        let eliminated_players = self.eliminated_players.clone();
        assert forall|i: int| 0 <= i < eliminated_players@.len() implies eliminated_players@[i]
            == self.eliminated_players@[i] by {
            assert(cloned::<String>(self.eliminated_players[i], eliminated_players[i]));
        }
        assert(eliminated_players@ =~= self.eliminated_players@);
        let player_times_ms = self.player_times_ms.clone();
        assert forall|i: int| 0 <= i < player_times_ms@.len() implies player_times_ms@[i]
            == self.player_times_ms@[i] by {
            assert(cloned::<u64>(self.player_times_ms[i], player_times_ms[i]));
        }
        assert(player_times_ms@ =~= self.player_times_ms@);
        let player_gold = self.player_gold.clone();
        assert forall|i: int| 0 <= i < player_gold@.len() implies player_gold@[i]
            == self.player_gold@[i] by {
            assert(cloned::<u64>(self.player_gold[i], player_gold[i]));
        }
        assert(player_gold@ =~= self.player_gold@);
        GameSession {
            id: self.id.clone(),
            map: self.map.clone(),
            players,
            cities,
            units,
            current_turn: self.current_turn,
            status: self.status.clone(),
            eliminated_players,
            player_times_ms,
            player_gold,
            turn_started_at_ms: self.turn_started_at_ms,
            base_time_ms: self.base_time_ms,
            increment_ms: self.increment_ms,
        }
    }
}

impl View for GameSession {
    type V = SessionView;

    open spec fn view(&self) -> SessionView {
        SessionView {
            id: self.id@,
            tiles: self.map.tiles@,
            radius: self.map.radius,
            players: player_views(self.players@),
            cities: city_views(self.cities@),
            units: unit_views(self.units@),
            current_turn: self.current_turn,
            status: self.status@,
            eliminated: str_views(self.eliminated_players@),
            times: self.player_times_ms@,
            gold: self.player_gold@,
            turn_started_at_ms: self.turn_started_at_ms,
            base_time_ms: self.base_time_ms,
            increment_ms: self.increment_ms,
        }
    }
}

/// The first index at or after `i` whose element satisfies `p`, or -1.
pub open spec fn first_from<A>(s: Seq<A>, p: spec_fn(A) -> bool, i: int) -> int
    decreases s.len() - i,
{
    if 0 <= i < s.len() {
        if p(s[i]) {
            i
        } else {
            first_from(s, p, i + 1)
        }
    } else {
        -1
    }
}

/// `first_from` finds the first match at or after `i`, or reports that there is none.
pub proof fn lemma_first_from<A>(s: Seq<A>, p: spec_fn(A) -> bool, i: int)
    requires
        0 <= i,
    ensures
        -1 <= first_from(s, p, i) < s.len(),
        first_from(s, p, i) >= 0 ==> i <= first_from(s, p, i) && p(s[first_from(s, p, i)]),
        first_from(s, p, i) >= 0 ==> forall|j: int| i <= j < first_from(s, p, i) ==> !p(s[j]),
        first_from(s, p, i) < 0 ==> forall|j: int| i <= j < s.len() ==> !p(s[j]),
    decreases s.len() - i,
{
    if i < s.len() && !p(s[i]) {
        lemma_first_from(s, p, i + 1);
    }
}

pub open spec fn unit_index(units: Seq<UnitView>, id: Seq<char>) -> int {
    first_from(units, |u: UnitView| u.id == id, 0)
}

pub open spec fn city_index_at(cities: Seq<CityView>, q: i32, r: i32) -> int {
    first_from(cities, |c: CityView| c.q == q && c.r == r, 0)
}

pub open spec fn city_index_of(cities: Seq<CityView>, id: Seq<char>) -> int {
    first_from(cities, |c: CityView| c.id == id, 0)
}

pub open spec fn player_index(players: Seq<PlayerView>, id: Seq<char>) -> int {
    first_from(players, |p: PlayerView| p.id == id, 0)
}

/// Terrain of the first tile at `(q, r)`, if any.
pub open spec fn terrain_at(tiles: Seq<Tile>, q: i32, r: i32) -> Option<Terrain> {
    let k = first_from(tiles, |t: Tile| t.q == q && t.r == r, 0);
    if k < 0 {
        None
    } else {
        Some(tiles[k].terrain)
    }
}

/// Whether some unit stands on `(q, r)`.
pub open spec fn occupied(units: Seq<UnitView>, q: i32, r: i32) -> bool {
    exists|i: int| 0 <= i < units.len() && units[i].q == q && units[i].r == r
}

pub open spec fn player_ids(players: Seq<PlayerView>) -> Seq<Seq<char>> {
    players.map_values(|p: PlayerView| p.id)
}

/// Ids of the players that are not eliminated, by seat.
pub open spec fn survivors(players: Seq<PlayerView>, eliminated: Seq<Seq<char>>) -> Seq<Seq<char>> {
    player_ids(players).filter(|id: Seq<char>| !eliminated.contains(id))
}

/// Whether `id` is a seated player that is not eliminated.
pub open spec fn is_active(s: SessionView, id: Seq<char>) -> bool {
    player_ids(s.players).contains(id) && !s.eliminated.contains(id)
}

/// Whether the exec result carries the spec result, an error by its message.
pub open spec fn result_matches<T>(r: Result<T, String>, s: Result<T, Seq<char>>) -> bool {
    match (r, s) {
        (Ok(a), Ok(b)) => a == b,
        (Err(e), Err(m)) => e@ == m,
        _ => false,
    }
}

pub open spec fn city_view_opt(c: Option<City>) -> Option<CityView> {
    match c {
        Some(x) => Some(x@),
        None => None,
    }
}

pub open spec fn str_view_opt(s: Option<String>) -> Option<Seq<char>> {
    match s {
        Some(x) => Some(x@),
        None => None,
    }
}

/// Why a move of `unit_id` to `(q, r)` is refused, or the movement it costs.
pub open spec fn move_check(s: SessionView, unit_id: Seq<char>, q: i32, r: i32) -> Result<
    u32,
    Seq<char>,
> {
    let i = unit_index(s.units, unit_id);
    if i < 0 {
        Err("Unit not found"@)
    } else {
        match terrain_at(s.tiles, q, r) {
            None => Err("Invalid destination"@),
            Some(t) => match terrain_cost(t) {
                None => Err("Cannot move to water"@),
                Some(c) => {
                    let u = s.units[i];
                    if hex_dist(u.q as int, u.r as int, q as int, r as int) != 1 {
                        Err("Can only move to adjacent tiles"@)
                    } else if u.movement_remaining < c {
                        Err("Not enough movement remaining"@)
                    } else if occupied(s.units, q, r) {
                        Err("Tile is occupied"@)
                    } else {
                        Ok(c)
                    }
                },
            },
        }
    }
}

/// The session with unit `i` placed on `(q, r)` after spending `cost`.
pub open spec fn step_unit(s: SessionView, i: int, q: i32, r: i32, cost: u32) -> SessionView {
    let u = s.units[i];
    SessionView {
        units: s.units.update(
            i,
            UnitView { q, r, movement_remaining: (u.movement_remaining - cost) as u32, ..u },
        ),
        ..s
    }
}

/// A city of the eliminated owner after its transfer to the conqueror: only the
/// captured tile keeps a capitol.
pub open spec fn transfer_city(
    c: CityView,
    old_owner: Seq<char>,
    new_owner: Seq<char>,
    q: i32,
    r: i32,
) -> CityView {
    if c.owner_id == old_owner {
        CityView { owner_id: new_owner, is_capitol: c.is_capitol && c.q == q && c.r == r, ..c }
    } else {
        c
    }
}

/// Capture of the city on `(q, r)` by `new_owner`: the next session, the captured
/// city and the player that the capture eliminated.
pub open spec fn capture(s: SessionView, q: i32, r: i32, new_owner: Seq<char>) -> (
    SessionView,
    Option<CityView>,
    Option<Seq<char>>,
) {
    let k = city_index_at(s.cities, q, r);
    if k < 0 {
        (s, None, None)
    } else {
        let old_owner = s.cities[k].owner_id;
        if old_owner == new_owner {
            (s, None, None)
        } else if s.cities[k].is_capitol {
            let eliminated = s.eliminated.push(old_owner);
            let cities = s.cities.map_values(
                |c: CityView| transfer_city(c, old_owner, new_owner, q, r),
            );
            let units = s.units.filter(|u: UnitView| u.owner_id != old_owner);
            let rest = survivors(s.players, eliminated);
            let status = if rest.len() == 1 {
                StatusView::Victory(rest[0])
            } else {
                s.status
            };
            (
                SessionView { eliminated, cities, units, status, ..s },
                Some(cities[k]),
                Some(old_owner),
            )
        } else {
            let city = CityView { owner_id: new_owner, ..s.cities[k] };
            (SessionView { cities: s.cities.update(k, city), ..s }, Some(city), None)
        }
    }
}

/// Saturating subtraction on 64-bit counters.
pub open spec fn sat_sub(a: u64, b: u64) -> u64 {
    if a > b {
        (a - b) as u64
    } else {
        0
    }
}

/// Saturating addition on 64-bit counters.
pub open spec fn sat_add(a: u64, b: u64) -> u64 {
    if a + b > u64::MAX {
        u64::MAX
    } else {
        (a + b) as u64
    }
}

/// Saturating subtraction on hit points.
pub open spec fn sat_sub32(a: u32, b: u32) -> u32 {
    if a > b {
        (a - b) as u32
    } else {
        0
    }
}

/// Fortifying `unit_id`: the next session and the unit's new hit points.
pub open spec fn fortify_spec(s: SessionView, unit_id: Seq<char>) -> Result<
    (SessionView, u32),
    Seq<char>,
> {
    let i = unit_index(s.units, unit_id);
    if i < 0 {
        Err("Unit not found"@)
    } else {
        let u = s.units[i];
        if u.movement_remaining < type_base_movement(u.unit_type) {
            Err("Cannot fortify after moving"@)
        } else {
            let healed = u.hp + u.max_hp / 4;
            let hp = (if healed < u.max_hp {
                healed
            } else {
                u.max_hp as int
            }) as u32;
            Ok(
                (
                    SessionView {
                        units: s.units.update(i, UnitView { hp, movement_remaining: 0, ..u }),
                        ..s
                    },
                    hp,
                ),
            )
        }
    }
}

/// Units after `player_id`'s units get their full movement back.
pub open spec fn refreshed_units(units: Seq<UnitView>, player_id: Seq<char>) -> Seq<UnitView> {
    units.map_values(
        |u: UnitView|
            if u.owner_id == player_id {
                UnitView { movement_remaining: type_base_movement(u.unit_type), ..u }
            } else {
                u
            },
    )
}

/// Cities after `player_id`'s cities may produce again.
pub open spec fn reopened_cities(cities: Seq<CityView>, player_id: Seq<char>) -> Seq<CityView> {
    cities.map_values(
        |c: CityView|
            if c.owner_id == player_id {
                CityView { produced_this_turn: false, ..c }
            } else {
                c
            },
    )
}

/// The seat after `t`, wrapping round.
pub open spec fn following_seat(t: int, n: int) -> int {
    if t + 1 >= n {
        0
    } else {
        t + 1
    }
}

/// Stepping from seat `t` until a seat that is not eliminated, or back to `cur`.
pub open spec fn seek_seat(
    players: Seq<PlayerView>,
    eliminated: Seq<Seq<char>>,
    cur: int,
    t: int,
    fuel: nat,
) -> int
    decreases fuel,
{
    if fuel == 0 {
        cur
    } else {
        let t2 = following_seat(t, players.len() as int);
        if !eliminated.contains(players[t2].id) {
            t2
        } else if t2 == cur {
            cur
        } else {
            seek_seat(players, eliminated, cur, t2, (fuel - 1) as nat)
        }
    }
}

/// The seat whose turn follows the current one.
pub open spec fn next_seat(s: SessionView) -> int {
    seek_seat(s.players, s.eliminated, s.current_turn as int, s.current_turn as int, s.players.len())
}

/// Whether the seat and the per-seat arrays are consistent.
pub open spec fn seats_ok(s: SessionView) -> bool {
    &&& 0 < s.players.len() <= usize::MAX
    &&& s.current_turn < s.players.len()
    &&& s.times.len() == s.players.len()
    &&& s.gold.len() == s.players.len()
}

/// Ending the current turn after `time_used` milliseconds.
pub open spec fn end_turn_spec(s: SessionView, time_used: u64) -> SessionView {
    let cur = s.current_turn as int;
    let next = next_seat(s);
    let pid = s.players[next].id;
    SessionView {
        times: s.times.update(cur, sat_add(sat_sub(s.times[cur], time_used), s.increment_ms)),
        gold: s.gold.update(cur, sat_add(s.gold[cur], BASE_INCOME)),
        current_turn: next as usize,
        units: refreshed_units(s.units, pid),
        cities: reopened_cities(s.cities, pid),
        ..s
    }
}

/// Why a purchase is refused, or the seat of the buyer and the index of the city.
pub open spec fn buy_check(s: SessionView, player_id: Seq<char>, city_id: Seq<char>, ty: UnitType) -> Result<
    (int, int),
    Seq<char>,
> {
    let pi = player_index(s.players, player_id);
    let ci = city_index_of(s.cities, city_id);
    if pi < 0 {
        Err("Player not found"@)
    } else if ci < 0 {
        Err("City not found"@)
    } else {
        let c = s.cities[ci];
        if c.owner_id != player_id {
            Err("Not your city"@)
        } else if c.produced_this_turn {
            Err("City has already produced this turn"@)
        } else if occupied(s.units, c.q, c.r) {
            Err("City is occupied by a unit"@)
        } else if s.gold[pi] < type_cost(ty) {
            Err("Not enough gold"@)
        } else {
            Ok((pi, ci))
        }
    }
}

/// Id of a bought unit: the buyer's id and the token in hexadecimal.
pub open spec fn unit_token_id(player_id: Seq<char>, token: u64) -> Seq<char> {
    "unit-"@ + player_id + "-"@ + hex_digits(token as nat)
}

/// Buying a unit of `ty` in `city_id` whose id carries `token`; refused when a unit
/// already has that id.
pub open spec fn buy_spec(
    s: SessionView,
    player_id: Seq<char>,
    city_id: Seq<char>,
    ty: UnitType,
    token: u64,
) -> Result<(SessionView, UnitView), Seq<char>> {
    match buy_check(s, player_id, city_id, ty) {
        Err(m) => Err(m),
        Ok((pi, ci)) => if unit_index(s.units, unit_token_id(player_id, token)) >= 0 {
            Err("Unit id already in use"@)
        } else {
            let c = s.cities[ci];
            let u = UnitView {
                id: unit_token_id(player_id, token),
                owner_id: player_id,
                unit_type: ty,
                q: c.q,
                r: c.r,
                movement_remaining: 0,
                hp: type_max_hp(ty),
                max_hp: type_max_hp(ty),
            };
            Ok(
                (
                    SessionView {
                        gold: s.gold.update(pi, (s.gold[pi] - type_cost(ty)) as u64),
                        cities: s.cities.update(ci, CityView { produced_this_turn: true, ..c }),
                        units: s.units.push(u),
                        ..s
                    },
                    u,
                ),
            )
        },
    }
}

/// Whether `u` stands on a city of its own owner.
pub open spec fn garrisoned(s: SessionView, u: UnitView) -> bool {
    exists|k: int|
        0 <= k < s.cities.len() && s.cities[k].q == u.q && s.cities[k].r == u.r
            && s.cities[k].owner_id == u.owner_id
}

/// Defense of `u`, half as much again when garrisoned.
pub open spec fn defense_of(s: SessionView, u: UnitView) -> u32 {
    let b = type_defense(u.unit_type);
    if garrisoned(s, u) {
        (b + b / 2) as u32
    } else {
        b
    }
}

/// Why an attack is refused, or the indices of attacker and defender.
pub open spec fn combat_check(s: SessionView, attacker_id: Seq<char>, defender_id: Seq<char>) -> Result<
    (int, int),
    Seq<char>,
> {
    let ai = unit_index(s.units, attacker_id);
    let di = unit_index(s.units, defender_id);
    if ai < 0 {
        Err("Attacker not found"@)
    } else if di < 0 {
        Err("Defender not found"@)
    } else {
        let a = s.units[ai];
        let d = s.units[di];
        if hex_dist(a.q as int, a.r as int, d.q as int, d.r as int) != 1 {
            Err("Units must be adjacent to attack"@)
        } else if a.movement_remaining == 0 {
            Err("No movement remaining to attack"@)
        } else {
            Ok((ai, di))
        }
    }
}

/// What an attack reports.
pub struct CombatView {
    pub attacker_hp: u32,
    pub defender_hp: u32,
    pub damage_to_attacker: u32,
    pub damage_to_defender: u32,
    pub attacker_died: bool,
    pub defender_died: bool,
    pub attacker_new_q: Option<i32>,
    pub attacker_new_r: Option<i32>,
    pub captured_city: Option<CityView>,
    pub eliminated_player: Option<Seq<char>>,
}

/// Damage that an attack of `attack` deals against `defense`.
pub open spec fn strike(attack: u32, defense: u32) -> u32 {
    (attack * 30 / (30 + defense)) as u32
}

/// An attack of `attacker_id` on `defender_id`: the next session and the report.
pub open spec fn combat_spec(s: SessionView, attacker_id: Seq<char>, defender_id: Seq<char>) -> Result<
    (SessionView, CombatView),
    Seq<char>,
> {
    match combat_check(s, attacker_id, defender_id) {
        Err(m) => Err(m),
        Ok((ai, di)) => {
            let a = s.units[ai];
            let d = s.units[di];
            let to_defender = strike(type_attack(a.unit_type), defense_of(s, d));
            let to_attacker = (strike(type_attack(d.unit_type), type_defense(a.unit_type)) / 2) as u32;
            let d_hp = sat_sub32(d.hp, to_defender);
            let a_hp = sat_sub32(a.hp, to_attacker);
            let u1 = s.units.update(di, UnitView { hp: d_hp, ..d }).update(
                ai,
                UnitView { hp: a_hp, movement_remaining: 0, ..a },
            );
            let d_dead = d_hp == 0;
            let a_dead = a_hp == 0;
            let u2 = if d_dead {
                u1.remove(di)
            } else {
                u1
            };
            let ai2 = if d_dead && di < ai {
                ai - 1
            } else {
                ai
            };
            let u3 = if a_dead {
                u2.remove(ai2)
            } else {
                u2
            };
            if d_dead && !a_dead {
                let u4 = u3.update(ai2, UnitView { q: d.q, r: d.r, ..u3[ai2] });
                let (s2, city, elim) = capture(SessionView { units: u4, ..s }, d.q, d.r, a.owner_id);
                Ok(
                    (
                        s2,
                        CombatView {
                            attacker_hp: a_hp,
                            defender_hp: d_hp,
                            damage_to_attacker: to_attacker,
                            damage_to_defender: to_defender,
                            attacker_died: a_dead,
                            defender_died: d_dead,
                            attacker_new_q: Some(d.q),
                            attacker_new_r: Some(d.r),
                            captured_city: city,
                            eliminated_player: elim,
                        },
                    ),
                )
            } else {
                Ok(
                    (
                        SessionView { units: u3, ..s },
                        CombatView {
                            attacker_hp: a_hp,
                            defender_hp: d_hp,
                            damage_to_attacker: to_attacker,
                            damage_to_defender: to_defender,
                            attacker_died: a_dead,
                            defender_died: d_dead,
                            attacker_new_q: None,
                            attacker_new_r: None,
                            captured_city: None,
                            eliminated_player: None,
                        },
                    ),
                )
            }
        },
    }
}

/// What an attack returns.
#[derive(Debug)]
pub struct CombatOutcome {
    pub attacker_hp: u32,
    pub defender_hp: u32,
    pub damage_to_attacker: u32,
    pub damage_to_defender: u32,
    pub attacker_died: bool,
    pub defender_died: bool,
    pub attacker_new_q: Option<i32>,
    pub attacker_new_r: Option<i32>,
    pub captured_city: Option<City>,
    pub eliminated_player: Option<String>,
}

/// Whether `o` is the exec form of the spec report `v`.
pub open spec fn combat_outcome_is(o: CombatOutcome, v: CombatView) -> bool {
    &&& o.attacker_hp == v.attacker_hp
    &&& o.defender_hp == v.defender_hp
    &&& o.damage_to_attacker == v.damage_to_attacker
    &&& o.damage_to_defender == v.damage_to_defender
    &&& o.attacker_died == v.attacker_died
    &&& o.defender_died == v.defender_died
    &&& o.attacker_new_q == v.attacker_new_q
    &&& o.attacker_new_r == v.attacker_new_r
    &&& city_view_opt(o.captured_city) == v.captured_city
    &&& str_view_opt(o.eliminated_player) == v.eliminated_player
}

/// Tiles that may hold a starting position, in scan order.
pub open spec fn start_tiles(tiles: Seq<Tile>) -> Seq<Tile> {
    tiles.filter(|t: Tile| is_start_terrain(t.terrain))
}

/// Least distance between two starting positions on a map of `radius`.
pub open spec fn min_gap(radius: u32) -> int {
    let h = radius as int / 2;
    if h > 3 {
        h
    } else {
        3
    }
}

/// Whether `t` keeps at least `gap` from every position in `placed`.
pub open spec fn far_from_all(t: Tile, placed: Seq<(i32, i32)>, gap: int) -> bool {
    forall|k: int|
        0 <= k < placed.len() ==> hex_dist(
            t.q as int,
            t.r as int,
            placed[k].0 as int,
            placed[k].1 as int,
        ) >= gap
}

pub open spec fn dist_to(t: Tile, target: (i32, i32)) -> int {
    hex_dist(t.q as int, t.r as int, target.0 as int, target.1 as int)
}

/// Scanning candidates from `i`: the index of the first candidate nearest to `target`
/// among those far enough from `placed`, given the best index `best` so far.
pub open spec fn best_from(
    cands: Seq<Tile>,
    placed: Seq<(i32, i32)>,
    target: (i32, i32),
    gap: int,
    i: int,
    best: int,
) -> int
    decreases cands.len() - i,
{
    if i < 0 || i >= cands.len() {
        best
    } else if far_from_all(cands[i], placed, gap) && (best < 0 || dist_to(cands[i], target)
        < dist_to(cands[best], target)) {
        best_from(cands, placed, target, gap, i + 1, i)
    } else {
        best_from(cands, placed, target, gap, i + 1, best)
    }
}

/// Starting positions for the first `n` seats: each seat takes the candidate nearest its
/// target among those far enough from earlier seats, else the first candidate.
pub open spec fn placements(
    cands: Seq<Tile>,
    targets: Seq<(i32, i32)>,
    gap: int,
    n: int,
) -> Seq<(i32, i32)>
    decreases n,
{
    if n <= 0 {
        Seq::empty()
    } else {
        let placed = placements(cands, targets, gap, n - 1);
        let b = best_from(cands, placed, targets[n - 1], gap, 0, -1);
        if b >= 0 {
            placed.push((cands[b].q, cands[b].r))
        } else if cands.len() > 0 {
            placed.push((cands[0].q, cands[0].r))
        } else {
            placed
        }
    }
}

/// No more positions than seats.
pub proof fn lemma_placements_len(cands: Seq<Tile>, targets: Seq<(i32, i32)>, gap: int, n: int)
    requires
        n >= 0,
    ensures
        placements(cands, targets, gap, n).len() <= n,
    decreases n,
{
    if n > 0 {
        lemma_placements_len(cands, targets, gap, n - 1);
    }
}

/// The starting positions of a map for the given per-seat targets.
pub open spec fn starting_positions(map_tiles: Seq<Tile>, radius: u32, targets: Seq<(i32, i32)>) -> Seq<
    (i32, i32),
> {
    placements(start_tiles(map_tiles), targets, min_gap(radius), targets.len() as int)
}

pub open spec fn capital_id(player_id: Seq<char>, seat: nat) -> Seq<char> {
    "city-"@ + player_id + "-"@ + decimal_digits(seat)
}

pub open spec fn capital_name(name: Seq<char>) -> Seq<char> {
    name + "'s Capital"@
}

pub open spec fn first_unit_id(player_id: Seq<char>) -> Seq<char> {
    "unit-"@ + player_id + "-0"@
}

/// The capitols of the seats that have a position.
pub open spec fn seat_cities(players: Seq<PlayerView>, positions: Seq<(i32, i32)>) -> Seq<CityView> {
    Seq::new(
        positions.len(),
        |i: int|
            CityView {
                id: capital_id(players[i].id, i as nat),
                owner_id: players[i].id,
                q: positions[i].0,
                r: positions[i].1,
                name: capital_name(players[i].name),
                is_capitol: true,
                produced_this_turn: false,
            },
    )
}

/// The conscripts that start in those capitols.
pub open spec fn seat_units(players: Seq<PlayerView>, positions: Seq<(i32, i32)>) -> Seq<UnitView> {
    Seq::new(
        positions.len(),
        |i: int|
            UnitView {
                id: first_unit_id(players[i].id),
                owner_id: players[i].id,
                unit_type: UnitType::Conscript,
                q: positions[i].0,
                r: positions[i].1,
                movement_remaining: type_base_movement(UnitType::Conscript),
                hp: type_max_hp(UnitType::Conscript),
                max_hp: type_max_hp(UnitType::Conscript),
            },
    )
}

/// The session that a lobby starts on `tiles` of `radius` with these positions.
pub open spec fn new_session(
    lobby: Lobby,
    tiles: Seq<Tile>,
    radius: u32,
    positions: Seq<(i32, i32)>,
) -> SessionView {
    let players = player_views(lobby.players@);
    SessionView {
        id: lobby.id@,
        tiles,
        radius,
        players,
        cities: seat_cities(players, positions),
        units: seat_units(players, positions),
        current_turn: 0,
        status: StatusView::InProgress,
        eliminated: Seq::empty(),
        times: Seq::new(players.len(), |i: int| DEFAULT_BASE_TIME_MS),
        gold: Seq::new(players.len(), |i: int| STARTING_GOLD),
        turn_started_at_ms: 0,
        base_time_ms: DEFAULT_BASE_TIME_MS,
        increment_ms: DEFAULT_INCREMENT_MS,
    }
}

/// What a successful move returns.
#[derive(Debug)]
pub struct MoveOutcome {
    pub movement_remaining: u32,
    pub captured_city: Option<City>,
    pub eliminated_player: Option<String>,
}

/// The move of `unit_id` to `(q, r)`: the next session and the outcome's
/// (movement left, captured city, eliminated player).
pub open spec fn move_spec(s: SessionView, unit_id: Seq<char>, q: i32, r: i32) -> Result<
    (SessionView, (u32, Option<CityView>, Option<Seq<char>>)),
    Seq<char>,
> {
    match move_check(s, unit_id, q, r) {
        Err(m) => Err(m),
        Ok(c) => {
            let i = unit_index(s.units, unit_id);
            let u = s.units[i];
            let (s2, city, elim) = capture(step_unit(s, i, q, r, c), q, r, u.owner_id);
            Ok((s2, ((u.movement_remaining - c) as u32, city, elim)))
        },
    }
}

/// Whether `o` is the exec form of the spec move outcome.
pub open spec fn move_outcome_is(
    o: MoveOutcome,
    v: (u32, Option<CityView>, Option<Seq<char>>),
) -> bool {
    o.movement_remaining == v.0 && city_view_opt(o.captured_city) == v.1 && str_view_opt(
        o.eliminated_player,
    ) == v.2
}

pub(crate) fn find_unit(units: &Vec<Unit>, id: &str) -> (r: Option<usize>)
    ensures
        match r {
            Some(i) => i < units@.len() && i as int == unit_index(unit_views(units@), id@),
            None => unit_index(unit_views(units@), id@) < 0,
        },
{
    let ghost v = unit_views(units@);
    let ghost p = |u: UnitView| u.id == id@;
    let mut i: usize = 0;
    while i < units.len()
        invariant
            v == unit_views(units@),
            p == (|u: UnitView| u.id == id@),
            0 <= i <= units@.len(),
            first_from(v, p, 0) == first_from(v, p, i as int),
        decreases units@.len() - i,
    {
        if str_eq(units[i].id.as_str(), id) {
            return Some(i);
        }
        i = i + 1;
    }
    None
}

fn find_city_at(cities: &Vec<City>, q: i32, r: i32) -> (k: Option<usize>)
    ensures
        match k {
            Some(i) => i < cities@.len() && i as int == city_index_at(city_views(cities@), q, r),
            None => city_index_at(city_views(cities@), q, r) < 0,
        },
{
    let ghost v = city_views(cities@);
    let ghost p = |c: CityView| c.q == q && c.r == r;
    let mut i: usize = 0;
    while i < cities.len()
        invariant
            v == city_views(cities@),
            p == (|c: CityView| c.q == q && c.r == r),
            0 <= i <= cities@.len(),
            first_from(v, p, 0) == first_from(v, p, i as int),
        decreases cities@.len() - i,
    {
        if cities[i].q == q && cities[i].r == r {
            return Some(i);
        }
        i = i + 1;
    }
    None
}

fn find_city_by_id(cities: &Vec<City>, id: &str) -> (k: Option<usize>)
    ensures
        match k {
            Some(i) => i < cities@.len() && i as int == city_index_of(city_views(cities@), id@),
            None => city_index_of(city_views(cities@), id@) < 0,
        },
{
    let ghost v = city_views(cities@);
    let ghost p = |c: CityView| c.id == id@;
    let mut i: usize = 0;
    while i < cities.len()
        invariant
            v == city_views(cities@),
            p == (|c: CityView| c.id == id@),
            0 <= i <= cities@.len(),
            first_from(v, p, 0) == first_from(v, p, i as int),
        decreases cities@.len() - i,
    {
        if str_eq(cities[i].id.as_str(), id) {
            return Some(i);
        }
        i = i + 1;
    }
    None
}

pub(crate) fn find_player(players: &Vec<Player>, id: &str) -> (k: Option<usize>)
    ensures
        match k {
            Some(i) => i < players@.len() && i as int == player_index(player_views(players@), id@),
            None => player_index(player_views(players@), id@) < 0,
        },
{
    let ghost v = player_views(players@);
    let ghost p = |x: PlayerView| x.id == id@;
    let mut i: usize = 0;
    while i < players.len()
        invariant
            v == player_views(players@),
            p == (|x: PlayerView| x.id == id@),
            0 <= i <= players@.len(),
            first_from(v, p, 0) == first_from(v, p, i as int),
        decreases players@.len() - i,
    {
        if str_eq(players[i].id.as_str(), id) {
            return Some(i);
        }
        i = i + 1;
    }
    None
}

/// Whether a unit stands on `(q, r)`.
fn any_unit_at(units: &Vec<Unit>, q: i32, r: i32) -> (b: bool)
    ensures
        b == occupied(unit_views(units@), q, r),
{
    let ghost v = unit_views(units@);
    let mut i: usize = 0;
    while i < units.len()
        invariant
            v == unit_views(units@),
            0 <= i <= units@.len(),
            forall|j: int| 0 <= j < i ==> !(v[j].q == q && v[j].r == r),
        decreases units@.len() - i,
    {
        if units[i].q == q && units[i].r == r {
            assert(v[i as int].q == q && v[i as int].r == r);
            return true;
        }
        i = i + 1;
    }
    false
}

/// Whether `ids` holds `id`.
fn contains_id(ids: &Vec<String>, id: &str) -> (b: bool)
    ensures
        b == str_views(ids@).contains(id@),
{
    let ghost v = str_views(ids@);
    let mut i: usize = 0;
    while i < ids.len()
        invariant
            v == str_views(ids@),
            0 <= i <= ids@.len(),
            forall|j: int| 0 <= j < i ==> v[j] != id@,
        decreases ids@.len() - i,
    {
        if str_eq(ids[i].as_str(), id) {
            assert(v[i as int] == id@);
            return true;
        }
        i = i + 1;
    }
    false
}

/// Hands every city of `old_owner` to `new_owner`; only the city on `(q, r)` stays a capitol.
fn transfer_cities(cities: &mut Vec<City>, old_owner: &String, new_owner: &str, q: i32, r: i32)
    ensures
        city_views(final(cities)@) == city_views(old(cities)@).map_values(
            |c: CityView| transfer_city(c, old_owner@, new_owner@, q, r),
        ),
{
    let ghost old_cities = cities@;
    let mut k: usize = 0;
    while k < cities.len()
        invariant
            0 <= k <= cities@.len(),
            cities@.len() == old_cities.len(),
            forall|j: int|
                0 <= j < k ==> cities@[j]@ == transfer_city(
                    old_cities[j]@,
                    old_owner@,
                    new_owner@,
                    q,
                    r,
                ),
            forall|j: int| k <= j < cities@.len() ==> cities@[j] == old_cities[j],
        decreases old_cities.len() - k,
    {
        if cities[k].owner_id == *old_owner {
            cities[k].owner_id = String::from_str(new_owner);
            if cities[k].is_capitol && !(cities[k].q == q && cities[k].r == r) {
                cities[k].is_capitol = false;
            }
        }
        k = k + 1;
    }
    assert(city_views(cities@) =~= city_views(old_cities).map_values(
        |c: CityView| transfer_city(c, old_owner@, new_owner@, q, r),
    ));
}

/// Gives `player_id`'s units their full movement back.
fn refresh_units(units: &mut Vec<Unit>, player_id: &str)
    ensures
        unit_views(final(units)@) == refreshed_units(unit_views(old(units)@), player_id@),
{
    let ghost old_units = units@;
    let mut k: usize = 0;
    while k < units.len()
        invariant
            0 <= k <= units@.len(),
            units@.len() == old_units.len(),
            forall|j: int|
                0 <= j < k ==> units@[j]@ == refreshed_units(unit_views(old_units), player_id@)[j],
            forall|j: int| k <= j < units@.len() ==> units@[j] == old_units[j],
        decreases old_units.len() - k,
    {
        if str_eq(units[k].owner_id.as_str(), player_id) {
            let m = units[k].unit_type.base_movement();
            units[k].movement_remaining = m;
        }
        k = k + 1;
    }
    assert(unit_views(units@) =~= refreshed_units(unit_views(old_units), player_id@));
}

/// Lets `player_id`'s cities produce again.
fn reopen_cities(cities: &mut Vec<City>, player_id: &str)
    ensures
        city_views(final(cities)@) == reopened_cities(city_views(old(cities)@), player_id@),
{
    let ghost old_cities = cities@;
    let mut k: usize = 0;
    while k < cities.len()
        invariant
            0 <= k <= cities@.len(),
            cities@.len() == old_cities.len(),
            forall|j: int|
                0 <= j < k ==> cities@[j]@ == reopened_cities(city_views(old_cities), player_id@)[j],
            forall|j: int| k <= j < cities@.len() ==> cities@[j] == old_cities[j],
        decreases old_cities.len() - k,
    {
        if str_eq(cities[k].owner_id.as_str(), player_id) {
            cities[k].produced_this_turn = false;
        }
        k = k + 1;
    }
    assert(city_views(cities@) =~= reopened_cities(city_views(old_cities), player_id@));
}

/// Whether `t` keeps at least `gap` from every placed position.
fn keeps_gap(t: Tile, placed: &Vec<(i32, i32)>, gap: i64) -> (b: bool)
    ensures
        b == far_from_all(t, placed@, gap as int),
{
    let mut k: usize = 0;
    while k < placed.len()
        invariant
            0 <= k <= placed@.len(),
            forall|j: int|
                0 <= j < k ==> hex_dist(
                    t.q as int,
                    t.r as int,
                    placed@[j].0 as int,
                    placed@[j].1 as int,
                ) >= gap,
        decreases placed@.len() - k,
    {
        let (pq, pr) = placed[k];
        if distance(t.q, t.r, pq, pr) < gap {
            return false;
        }
        k = k + 1;
    }
    true
}

impl GameSession {
    /// Hex distance between two axial coordinates.
    pub fn hex_distance(q1: i32, r1: i32, q2: i32, r2: i32) -> (d: i32)
        requires
            hex_dist(q1 as int, r1 as int, q2 as int, r2 as int) <= i32::MAX,
        ensures
            d == hex_dist(q1 as int, r1 as int, q2 as int, r2 as int),
    {
        distance(q1, r1, q2, r2) as i32
    }

    pub fn get_terrain_at(&self, q: i32, r: i32) -> (t: Option<Terrain>)
        ensures
            t == terrain_at(self.map.tiles@, q, r),
    {
        let ghost v = self.map.tiles@;
        let ghost p = |t: Tile| t.q == q && t.r == r;
        let mut i: usize = 0;
        while i < self.map.tiles.len()
            invariant
                v == self.map.tiles@,
                p == (|t: Tile| t.q == q && t.r == r),
                0 <= i <= v.len(),
                first_from(v, p, 0) == first_from(v, p, i as int),
            decreases v.len() - i,
        {
            if self.map.tiles[i].q == q && self.map.tiles[i].r == r {
                return Some(self.map.tiles[i].terrain);
            }
            i = i + 1;
        }
        None
    }

    pub fn movement_cost(terrain: Terrain) -> (c: Option<u32>)
        ensures
            c == terrain_cost(terrain),
    {
        match terrain {
            Terrain::Grassland | Terrain::Forest | Terrain::Desert => Some(1),
            Terrain::Mountain => Some(2),
            Terrain::Water => None,
        }
    }

    /// The movement that a move of `unit_id` to `(to_q, to_r)` costs, or why it is refused.
    pub fn can_move_unit(&self, unit_id: &str, to_q: i32, to_r: i32) -> (res: Result<u32, String>)
        ensures
            result_matches(res, move_check(self@, unit_id@, to_q, to_r)),
    {
        let i = match find_unit(&self.units, unit_id) {
            Some(i) => i,
            None => {
                return Err(String::from_str("Unit not found"));
            },
        };
        let terrain = match self.get_terrain_at(to_q, to_r) {
            Some(t) => t,
            None => {
                return Err(String::from_str("Invalid destination"));
            },
        };
        let cost = match Self::movement_cost(terrain) {
            Some(c) => c,
            None => {
                return Err(String::from_str("Cannot move to water"));
            },
        };
        let unit = &self.units[i];
        if distance(unit.q, unit.r, to_q, to_r) != 1 {
            return Err(String::from_str("Can only move to adjacent tiles"));
        }
        if unit.movement_remaining < cost {
            return Err(String::from_str("Not enough movement remaining"));
        }
        if any_unit_at(&self.units, to_q, to_r) {
            return Err(String::from_str("Tile is occupied"));
        }
        Ok(cost)
    }

    /// Moves a unit one tile and captures a city that stands there.
    pub fn move_unit(&mut self, unit_id: &str, to_q: i32, to_r: i32) -> (res: Result<
        MoveOutcome,
        String,
    >)
        ensures
            match move_spec(old(self)@, unit_id@, to_q, to_r) {
                Err(m) => res matches Err(e) && e@ == m && *final(self) == *old(self),
                Ok((s2, o)) => res matches Ok(out) && final(self)@ == s2 && move_outcome_is(out, o),
            },
            session_sound(old(self)@) ==> session_sound(final(self)@),
            units_sound(old(self)@) ==> units_sound(final(self)@),
            tiles_unshared(old(self)@.units) ==> tiles_unshared(final(self)@.units),
            res is Ok && cities_owned(old(self)@) && is_active(
                old(self)@,
                old(self)@.units[unit_index(old(self)@.units, unit_id@)].owner_id,
            ) ==> cities_owned(final(self)@) && (victory_sound(old(self)@) ==> victory_sound(
                final(self)@,
            )),
    {
        let i = match find_unit(&self.units, unit_id) {
            Some(i) => i,
            None => {
                return Err(String::from_str("Unit not found"));
            },
        };
        let cost = match self.can_move_unit(unit_id, to_q, to_r) {
            Ok(c) => c,
            Err(e) => {
                return Err(e);
            },
        };
        let ghost s0 = self@;
        let owner = self.units[i].owner_id.clone();
        self.units[i].q = to_q;
        self.units[i].r = to_r;
        self.units[i].movement_remaining = self.units[i].movement_remaining - cost;
        let movement_remaining = self.units[i].movement_remaining;
        assert(self@ == step_unit(s0, i as int, to_q, to_r, cost)) by {
            assert(self@.units =~= step_unit(s0, i as int, to_q, to_r, cost).units);
        }
        let (captured_city, eliminated_player) = self.try_capture_city(to_q, to_r, owner.as_str());
        proof {
            if session_sound(s0) {
                lemma_move_sound(s0, unit_id@, to_q, to_r);
            }
            lemma_move_units(s0, unit_id@, to_q, to_r);
            if cities_owned(s0) && is_active(s0, s0.units[i as int].owner_id) {
                lemma_move_owners(s0, unit_id@, to_q, to_r);
            }
        }
        Ok(MoveOutcome { movement_remaining, captured_city, eliminated_player })
    }

    /// Starting positions on `map` for seats aiming at `targets`, one target per seat.
    pub fn calculate_starting_positions(map: &GameMap, targets: &Vec<(i32, i32)>) -> (p: Vec<
        (i32, i32),
    >)
        requires
            map.radius <= i32::MAX,
        ensures
            p@ == starting_positions(map.tiles@, map.radius, targets@),
    {
        let ghost cpred = |t: Tile| is_start_terrain(t.terrain);
        let mut cands: Vec<Tile> = Vec::new();
        let mut k: usize = 0;
        while k < map.tiles.len()
            invariant
                0 <= k <= map.tiles@.len(),
                cpred == (|t: Tile| is_start_terrain(t.terrain)),
                cands@ == map.tiles@.take(k as int).filter(cpred),
            decreases map.tiles@.len() - k,
        {
            proof {
                assert(map.tiles@.take(k as int + 1) =~= map.tiles@.take(k as int).push(
                    map.tiles@[k as int],
                ));
                map.tiles@.take(k as int).lemma_filter_push(map.tiles@[k as int], cpred);
            }
            let t = map.tiles[k];
            if t.terrain != Terrain::Water && t.terrain != Terrain::Mountain {
                cands.push(t);
            }
            k = k + 1;
        }
        assert(map.tiles@.take(k as int) =~= map.tiles@);
        let half: i64 = map.radius as i64 / 2;
        let gap: i64 = if half > 3 {
            half
        } else {
            3
        };
        let mut positions: Vec<(i32, i32)> = Vec::new();
        let mut i: usize = 0;
        while i < targets.len()
            invariant
                0 <= i <= targets@.len(),
                cands@ == start_tiles(map.tiles@),
                gap == min_gap(map.radius),
                positions@ == placements(cands@, targets@, gap as int, i as int),
            decreases targets@.len() - i,
        {
            let target = targets[i];
            let mut best: Option<usize> = None;
            let mut best_d: i64 = 0;
            let mut j: usize = 0;
            while j < cands.len()
                invariant
                    0 <= j <= cands@.len(),
                    best matches Some(b) ==> b < j && best_d == dist_to(cands@[b as int], target),
                    best_from(cands@, positions@, target, gap as int, 0, -1) == best_from(
                        cands@,
                        positions@,
                        target,
                        gap as int,
                        j as int,
                        match best {
                            Some(b) => b as int,
                            None => -1,
                        },
                    ),
                decreases cands@.len() - j,
            {
                let c = cands[j];
                if keeps_gap(c, &positions, gap) {
                    let d = distance(c.q, c.r, target.0, target.1);
                    if best.is_none() || d < best_d {
                        best = Some(j);
                        best_d = d;
                    }
                }
                j = j + 1;
            }
            match best {
                Some(b) => {
                    positions.push((cands[b].q, cands[b].r));
                },
                None => {
                    if cands.len() > 0 {
                        positions.push((cands[0].q, cands[0].r));
                    }
                },
            }
            i = i + 1;
        }
        positions
    }

    /// The session that `lobby` starts on `map`: a capitol and a conscript on each seat's
    /// starting position, starting gold and time for every seat, seat 0 to move.
    pub fn from_lobby(lobby: &Lobby, map: GameMap, targets: &Vec<(i32, i32)>) -> (s: GameSession)
        requires
            map.radius <= i32::MAX,
            targets@.len() == lobby.players@.len(),
        ensures
            s@ == new_session(
                *lobby,
                map.tiles@,
                map.radius,
                starting_positions(map.tiles@, map.radius, targets@),
            ),
            lobby_ids(player_views(lobby.players@)).no_duplicates() && lobby.players@.len() >= 1
                && starting_positions(map.tiles@, map.radius, targets@).no_duplicates()
                ==> session_wf(s@),
            lobby_ids(player_views(lobby.players@)).no_duplicates() && lobby.players@.len() >= 1
                && all_seats_spread(
                start_tiles(map.tiles@),
                targets@,
                min_gap(map.radius),
                targets@.len() as int,
            ) ==> session_wf(s@),
    {
        let positions = Self::calculate_starting_positions(&map, targets);
        let n = lobby.players.len();
        proof {
            lemma_placements_len(
                start_tiles(map.tiles@),
                targets@,
                min_gap(map.radius),
                targets@.len() as int,
            );
        }
        let ghost pv = player_views(lobby.players@);
        let mut cities: Vec<City> = Vec::new();
        let mut units: Vec<Unit> = Vec::new();
        let mut i: usize = 0;
        while i < positions.len()
            invariant
                0 <= i <= positions@.len(),
                positions@.len() <= n,
                n == lobby.players@.len(),
                pv == player_views(lobby.players@),
                city_views(cities@) == seat_cities(pv, positions@).take(i as int),
                unit_views(units@) == seat_units(pv, positions@).take(i as int),
            decreases positions@.len() - i,
        {
            let player = &lobby.players[i];
            let (q, r) = positions[i];
            let city_id = String::from_str("city-").concat(player.id.as_str()).concat("-").concat(
                decimal_string(i as u64).as_str(),
            );
            let name = player.name.clone().concat("'s Capital");
            let ghost cb = cities@;
            cities.push(
                City {
                    id: city_id,
                    owner_id: player.id.clone(),
                    q,
                    r,
                    name,
                    is_capitol: true,
                    produced_this_turn: false,
                },
            );
            assert(pv[i as int] == lobby.players@[i as int]@);
            assert(city_views(cities@) =~= city_views(cb).push(cities@[i as int]@));
            assert(cities@[i as int]@ == seat_cities(pv, positions@)[i as int]);
            assert(city_views(cities@) =~= seat_cities(pv, positions@).take(i as int + 1));
            let unit_id = String::from_str("unit-").concat(player.id.as_str()).concat("-0");
            let ghost ub = units@;
            units.push(Unit::new(unit_id, player.id.clone(), UnitType::Conscript, q, r));
            assert(unit_views(units@) =~= unit_views(ub).push(units@[i as int]@));
            assert(units@[i as int]@ == seat_units(pv, positions@)[i as int]);
            assert(unit_views(units@) =~= seat_units(pv, positions@).take(i as int + 1));
            i = i + 1;
        }
        assert(seat_cities(pv, positions@).take(i as int) =~= seat_cities(pv, positions@));
        assert(seat_units(pv, positions@).take(i as int) =~= seat_units(pv, positions@));
        let players = lobby.players.clone();
        assert forall|k: int| 0 <= k < players@.len() implies players@[k] == lobby.players@[k] by {
            assert(cloned::<Player>(lobby.players[k], players[k]));
        }
        assert(players@ =~= lobby.players@);
        let mut times: Vec<u64> = Vec::new();
        let mut gold: Vec<u64> = Vec::new();
        let mut k: usize = 0;
        while k < n
            invariant
                0 <= k <= n,
                times@ == Seq::new(k as nat, |j: int| DEFAULT_BASE_TIME_MS),
                gold@ == Seq::new(k as nat, |j: int| STARTING_GOLD),
            decreases n - k,
        {
            times.push(DEFAULT_BASE_TIME_MS);
            gold.push(STARTING_GOLD);
            assert(times@ =~= Seq::new(k as nat + 1, |j: int| DEFAULT_BASE_TIME_MS));
            assert(gold@ =~= Seq::new(k as nat + 1, |j: int| STARTING_GOLD));
            k = k + 1;
        }
        let s = GameSession {
            id: lobby.id.clone(),
            map,
            players,
            cities,
            units,
            current_turn: 0,
            status: GameStatus::InProgress,
            eliminated_players: Vec::new(),
            player_times_ms: times,
            player_gold: gold,
            turn_started_at_ms: 0,
            base_time_ms: DEFAULT_BASE_TIME_MS,
            increment_ms: DEFAULT_INCREMENT_MS,
        };
        assert(s@.eliminated =~= Seq::<Seq<char>>::empty());
        proof {
            let ps = starting_positions(map.tiles@, map.radius, targets@);
            lemma_starts_distinct(map.tiles@, map.radius, targets@);
            if lobby_ids(player_views(lobby.players@)).no_duplicates() && lobby.players@.len() >= 1
                && ps.no_duplicates() {
                lemma_new_session_wf(*lobby, map.tiles@, map.radius, ps);
            }
        }
        s
    }

    /// Whether the seat to move and the per-seat arrays fit the players.
    pub fn seats_valid(&self) -> (b: bool)
        ensures
            b == seats_ok(self@),
    {
        let n = self.players.len();
        n > 0 && self.current_turn < n && self.player_times_ms.len() == n
            && self.player_gold.len() == n
    }

    pub fn reset_movement_for_player(&mut self, player_id: &str)
        ensures
            final(self)@ == (SessionView {
                units: refreshed_units(old(self)@.units, player_id@),
                ..old(self)@
            }),
    {
        refresh_units(&mut self.units, player_id);
    }

    /// Trades the rest of a unit's turn for a heal of a quarter of its maximum hit points.
    pub fn fortify_unit(&mut self, unit_id: &str) -> (res: Result<u32, String>)
        ensures
            match fortify_spec(old(self)@, unit_id@) {
                Err(m) => res matches Err(e) && e@ == m && *final(self) == *old(self),
                Ok((s2, hp)) => res == Ok::<u32, String>(hp) && final(self)@ == s2,
            },
            session_wf(old(self)@) ==> session_wf(final(self)@),
    {
        let i = match find_unit(&self.units, unit_id) {
            Some(i) => i,
            None => {
                return Err(String::from_str("Unit not found"));
            },
        };
        if self.units[i].movement_remaining < self.units[i].unit_type.base_movement() {
            return Err(String::from_str("Cannot fortify after moving"));
        }
        let ghost s0 = self@;
        let heal: u64 = (self.units[i].max_hp / 4) as u64;
        let healed: u64 = self.units[i].hp as u64 + heal;
        let hp: u32 = if healed < self.units[i].max_hp as u64 {
            healed as u32
        } else {
            self.units[i].max_hp
        };
        self.units[i].hp = hp;
        self.units[i].movement_remaining = 0;
        assert(self@.units =~= fortify_spec(s0, unit_id@)->Ok_0.0.units);
        proof {
            if session_wf(s0) {
                lemma_fortify_wf(s0, unit_id@);
            }
        }
        Ok(hp)
    }

    /// Buys a unit whose id carries `token`.
    pub fn buy_unit_with_token(
        &mut self,
        player_id: &str,
        city_id: &str,
        unit_type: UnitType,
        token: u64,
    ) -> (res: Result<Unit, String>)
        requires
            old(self)@.gold.len() == old(self)@.players.len(),
        ensures
            match buy_spec(old(self)@, player_id@, city_id@, unit_type, token) {
                Err(m) => res matches Err(e) && e@ == m && *final(self) == *old(self),
                Ok((s2, u)) => res matches Ok(unit) && unit@ == u && final(self)@ == s2,
            },
            session_wf(old(self)@) ==> session_wf(final(self)@),
    {
        let pi = match find_player(&self.players, player_id) {
            Some(i) => i,
            None => {
                return Err(String::from_str("Player not found"));
            },
        };
        let ci = match find_city_by_id(&self.cities, city_id) {
            Some(i) => i,
            None => {
                return Err(String::from_str("City not found"));
            },
        };
        let city_q = self.cities[ci].q;
        let city_r = self.cities[ci].r;
        if !str_eq(self.cities[ci].owner_id.as_str(), player_id) {
            return Err(String::from_str("Not your city"));
        }
        if self.cities[ci].produced_this_turn {
            return Err(String::from_str("City has already produced this turn"));
        }
        if any_unit_at(&self.units, city_q, city_r) {
            return Err(String::from_str("City is occupied by a unit"));
        }
        let cost = unit_type.cost();
        if self.player_gold[pi] < cost {
            return Err(String::from_str("Not enough gold"));
        }
        let unit_id = String::from_str("unit-").concat(player_id).concat("-").concat(
            hex_string(token).as_str(),
        );
        if find_unit(&self.units, unit_id.as_str()).is_some() {
            return Err(String::from_str("Unit id already in use"));
        }
        let ghost s0 = self@;
        self.player_gold[pi] = self.player_gold[pi] - cost;
        self.cities[ci].produced_this_turn = true;
        let mut unit = Unit::new(unit_id, String::from_str(player_id), unit_type, city_q, city_r);
        unit.movement_remaining = 0;
        let copy = unit.clone();
        self.units.push(copy);
        proof {
            let s2 = buy_spec(s0, player_id@, city_id@, unit_type, token)->Ok_0.0;
            assert(self@.units =~= s2.units);
            assert(self@.cities =~= s2.cities);
            assert(self@.gold =~= s2.gold);
            if session_wf(s0) {
                lemma_buy_wf(s0, player_id@, city_id@, unit_type, token);
            }
        }
        Ok(unit)
    }

    /// Buys a unit of `unit_type` in `city_id` for `player_id`, with a random id.
    /// A refusal is the one that `buy_unit_with_token` gives; when no entropy can be
    /// had the session is left as it was.
    pub fn buy_unit(&mut self, player_id: &str, city_id: &str, unit_type: UnitType) -> (res: Result<
        Unit,
        String,
    >)
        requires
            old(self)@.gold.len() == old(self)@.players.len(),
        ensures
            buy_check(old(self)@, player_id@, city_id@, unit_type) matches Err(m) ==> res matches Err(
                e,
            ) && e@ == m,
            buy_check(old(self)@, player_id@, city_id@, unit_type) is Ok ==> (res is Ok || (
            res matches Err(e) && (e@ == "No entropy for a unit id"@ || e@
                == "Unit id already in use"@))),
            res is Err ==> *final(self) == *old(self),
            res matches Ok(unit) ==> exists|token: u64|
                #[trigger] buy_spec(old(self)@, player_id@, city_id@, unit_type, token) matches Ok(
                    (s2, u),
                ) && unit@ == u && final(self)@ == s2,
    {
        let checked = self.check_purchase(player_id, city_id, unit_type);
        if let Err(e) = checked {
            return Err(e);
        }
        let token = match random_u64() {
            Some(t) => t,
            None => {
                return Err(String::from_str("No entropy for a unit id"));
            },
        };
        self.buy_unit_with_token(player_id, city_id, unit_type, token)
    }

    /// The refusal that a purchase would meet, if any.
    fn check_purchase(&self, player_id: &str, city_id: &str, unit_type: UnitType) -> (res: Result<
        (),
        String,
    >)
        requires
            self@.gold.len() == self@.players.len(),
        ensures
            match buy_check(self@, player_id@, city_id@, unit_type) {
                Err(m) => res matches Err(e) && e@ == m,
                Ok(_) => res is Ok,
            },
    {
        let pi = match find_player(&self.players, player_id) {
            Some(i) => i,
            None => {
                return Err(String::from_str("Player not found"));
            },
        };
        let ci = match find_city_by_id(&self.cities, city_id) {
            Some(i) => i,
            None => {
                return Err(String::from_str("City not found"));
            },
        };
        if !str_eq(self.cities[ci].owner_id.as_str(), player_id) {
            return Err(String::from_str("Not your city"));
        }
        if self.cities[ci].produced_this_turn {
            return Err(String::from_str("City has already produced this turn"));
        }
        if any_unit_at(&self.units, self.cities[ci].q, self.cities[ci].r) {
            return Err(String::from_str("City is occupied by a unit"));
        }
        if self.player_gold[pi] < unit_type.cost() {
            return Err(String::from_str("Not enough gold"));
        }
        Ok(())
    }

    /// Ends the current turn: charges the clock, grants income, passes the turn to the
    /// next seat that is not eliminated and refreshes that player's units and cities.
    pub fn end_current_turn(&mut self, time_used_ms: u64)
        requires
            seats_ok(old(self)@),
        ensures
            final(self)@ == end_turn_spec(old(self)@, time_used_ms),
            session_wf(old(self)@) ==> session_wf(final(self)@),
    {
        let ghost s0 = self@;
        let cur = self.current_turn;
        let t = self.player_times_ms[cur];
        let left: u64 = if t > time_used_ms {
            t - time_used_ms
        } else {
            0
        };
        self.player_times_ms[cur] = if left > u64::MAX - self.increment_ms {
            u64::MAX
        } else {
            left + self.increment_ms
        };
        let g = self.player_gold[cur];
        self.player_gold[cur] = if g > u64::MAX - BASE_INCOME {
            u64::MAX
        } else {
            g + BASE_INCOME
        };
        let next = self.next_turn();
        self.current_turn = next;
        let next_id = self.players[next].id.clone();
        refresh_units(&mut self.units, next_id.as_str());
        reopen_cities(&mut self.cities, next_id.as_str());
        proof {
            let s2 = end_turn_spec(s0, time_used_ms);
            assert(self@.times =~= s2.times);
            assert(self@.gold =~= s2.gold);
            if session_wf(s0) {
                lemma_end_turn_wf(s0, time_used_ms);
            }
        }
    }

    /// The seat whose turn follows the current one.
    fn next_turn(&self) -> (t: usize)
        requires
            seats_ok(self@),
        ensures
            t as int == next_seat(self@),
            t < self@.players.len(),
    {
        let n = self.players.len();
        let cur = self.current_turn;
        let mut t: usize = cur;
        let mut fuel: usize = n;
        loop
            invariant
                n == self@.players.len(),
                cur == self@.current_turn,
                cur < n,
                t < n,
                fuel <= n,
                next_seat(self@) == seek_seat(
                    self@.players,
                    self@.eliminated,
                    cur as int,
                    t as int,
                    fuel as nat,
                ),
            decreases fuel,
        {
            if fuel == 0 {
                return cur;
            }
            let t2: usize = if t + 1 >= n {
                0
            } else {
                t + 1
            };
            if !contains_id(&self.eliminated_players, self.players[t2].id.as_str()) {
                return t2;
            }
            if t2 == cur {
                return cur;
            }
            t = t2;
            fuel = fuel - 1;
        }
    }

    pub fn current_player_time(&self) -> (t: u64)
        requires
            seats_ok(self@),
        ensures
            t == self@.times[self@.current_turn as int],
    {
        self.player_times_ms[self.current_turn]
    }

    /// Whether `unit` stands on a city of its own owner.
    pub fn is_unit_garrisoned(&self, unit: &Unit) -> (b: bool)
        ensures
            b == garrisoned(self@, unit@),
    {
        let mut k: usize = 0;
        while k < self.cities.len()
            invariant
                0 <= k <= self.cities@.len(),
                forall|j: int|
                    0 <= j < k ==> !(self@.cities[j].q == unit.q && self@.cities[j].r == unit.r
                        && self@.cities[j].owner_id == unit.owner_id@),
            decreases self.cities@.len() - k,
        {
            if self.cities[k].q == unit.q && self.cities[k].r == unit.r
                && self.cities[k].owner_id == unit.owner_id {
                assert(self@.cities[k as int].owner_id == unit.owner_id@);
                return true;
            }
            k = k + 1;
        }
        false
    }

    /// Defense of `unit`, with half as much again when garrisoned.
    pub fn effective_defense(&self, unit: &Unit) -> (d: u32)
        ensures
            d == defense_of(self@, unit@),
    {
        let base = unit.defense();
        if self.is_unit_garrisoned(unit) {
            base + base / 2
        } else {
            base
        }
    }

    /// Resolves an attack of `attacker_id` on the adjacent `defender_id`; a defender that
    /// dies to a surviving attacker gives up its tile, which the attacker takes and captures.
    pub fn resolve_combat(&mut self, attacker_id: &str, defender_id: &str) -> (res: Result<
        CombatOutcome,
        String,
    >)
        ensures
            match combat_spec(old(self)@, attacker_id@, defender_id@) {
                Err(m) => res matches Err(e) && e@ == m && *final(self) == *old(self),
                Ok((s2, o)) => res matches Ok(out) && final(self)@ == s2 && combat_outcome_is(
                    out,
                    o,
                ),
            },
            session_sound(old(self)@) ==> session_sound(final(self)@),
            units_sound(old(self)@) ==> units_sound(final(self)@),
            tiles_unshared(old(self)@.units) ==> tiles_unshared(final(self)@.units),
            res is Ok && cities_owned(old(self)@) && is_active(
                old(self)@,
                old(self)@.units[unit_index(old(self)@.units, attacker_id@)].owner_id,
            ) ==> cities_owned(final(self)@) && (victory_sound(old(self)@) ==> victory_sound(
                final(self)@,
            )),
    {
        let ai = match find_unit(&self.units, attacker_id) {
            Some(i) => i,
            None => {
                return Err(String::from_str("Attacker not found"));
            },
        };
        let di = match find_unit(&self.units, defender_id) {
            Some(i) => i,
            None => {
                return Err(String::from_str("Defender not found"));
            },
        };
        if distance(self.units[ai].q, self.units[ai].r, self.units[di].q, self.units[di].r) != 1 {
            return Err(String::from_str("Units must be adjacent to attack"));
        }
        if self.units[ai].movement_remaining == 0 {
            return Err(String::from_str("No movement remaining to attack"));
        }
        let ghost s0 = self@;
        proof {
            if session_sound(s0) {
                lemma_combat_sound(s0, attacker_id@, defender_id@);
            }
            lemma_combat_units(s0, attacker_id@, defender_id@);
            if cities_owned(s0) && is_active(s0, s0.units[ai as int].owner_id) {
                lemma_combat_owners(s0, attacker_id@, defender_id@);
            }
        }
        let attacker_attack = self.units[ai].attack();
        let defender_effective_def = self.effective_defense(&self.units[di]);
        let attacker_def = self.units[ai].defense();
        let defender_attack = self.units[di].attack();
        let damage_to_defender = attacker_attack * 30 / (30 + defender_effective_def);
        let damage_to_attacker = defender_attack * 30 / (30 + attacker_def) / 2;
        let old_d_hp = self.units[di].hp;
        let defender_hp: u32 = if old_d_hp > damage_to_defender {
            old_d_hp - damage_to_defender
        } else {
            0
        };
        let old_a_hp = self.units[ai].hp;
        let attacker_hp: u32 = if old_a_hp > damage_to_attacker {
            old_a_hp - damage_to_attacker
        } else {
            0
        };
        self.units[di].hp = defender_hp;
        self.units[ai].hp = attacker_hp;
        self.units[ai].movement_remaining = 0;
        let dq = self.units[di].q;
        let dr = self.units[di].r;
        let attacker_owner = self.units[ai].owner_id.clone();
        let ghost a0 = s0.units[ai as int];
        let ghost d0 = s0.units[di as int];
        let ghost u1 = s0.units.update(di as int, UnitView { hp: defender_hp, ..d0 }).update(
            ai as int,
            UnitView { hp: attacker_hp, movement_remaining: 0, ..a0 },
        );
        assert(unit_views(self.units@) =~= u1);
        let defender_died = defender_hp == 0;
        let attacker_died = attacker_hp == 0;
        if defender_died {
            let _gone = self.units.remove(di);
            assert(unit_views(self.units@) =~= u1.remove(di as int));
        }
        let ai2: usize = if defender_died && di < ai {
            ai - 1
        } else {
            ai
        };
        let ghost u2 = unit_views(self.units@);
        if attacker_died {
            let _gone = self.units.remove(ai2);
            assert(unit_views(self.units@) =~= u2.remove(ai2 as int));
        }
        if defender_died && !attacker_died {
            let ghost u3 = unit_views(self.units@);
            self.units[ai2].q = dq;
            self.units[ai2].r = dr;
            assert(unit_views(self.units@) =~= u3.update(
                ai2 as int,
                UnitView { q: dq, r: dr, ..u3[ai2 as int] },
            ));
            let (captured_city, eliminated_player) = self.try_capture_city(
                dq,
                dr,
                attacker_owner.as_str(),
            );
            Ok(
                CombatOutcome {
                    attacker_hp,
                    defender_hp,
                    damage_to_attacker,
                    damage_to_defender,
                    attacker_died,
                    defender_died,
                    attacker_new_q: Some(dq),
                    attacker_new_r: Some(dr),
                    captured_city,
                    eliminated_player,
                },
            )
        } else {
            Ok(
                CombatOutcome {
                    attacker_hp,
                    defender_hp,
                    damage_to_attacker,
                    damage_to_defender,
                    attacker_died,
                    defender_died,
                    attacker_new_q: None,
                    attacker_new_r: None,
                    captured_city: None,
                    eliminated_player: None,
                },
            )
        }
    }

    /// Captures the city on `(q, r)` for `new_owner`, if one stands there and is not
    /// already theirs.
    fn try_capture_city(&mut self, q: i32, r: i32, new_owner: &str) -> (res: (
        Option<City>,
        Option<String>,
    ))
        ensures
            final(self)@ == capture(old(self)@, q, r, new_owner@).0,
            city_view_opt(res.0) == capture(old(self)@, q, r, new_owner@).1,
            str_view_opt(res.1) == capture(old(self)@, q, r, new_owner@).2,
    {
        let ghost s0 = self@;
        let idx = match find_city_at(&self.cities, q, r) {
            Some(k) => k,
            None => {
                return (None, None);
            },
        };
        let old_owner = self.cities[idx].owner_id.clone();
        if str_eq(old_owner.as_str(), new_owner) {
            return (None, None);
        }
        let mut eliminated_player: Option<String> = None;
        if self.cities[idx].is_capitol {
            eliminated_player = Some(old_owner.clone());
            self.eliminated_players.push(old_owner.clone());
            assert(str_views(self.eliminated_players@) =~= s0.eliminated.push(old_owner@));
            transfer_cities(&mut self.cities, &old_owner, new_owner, q, r);
            let ghost pred = |u: UnitView| u.owner_id != old_owner@;
            let ghost old_units = unit_views(self.units@);
            let mut kept: Vec<Unit> = Vec::new();
            let mut j: usize = 0;
            while j < self.units.len()
                invariant
                    0 <= j <= self.units@.len(),
                    old_units == unit_views(self.units@),
                    pred == (|u: UnitView| u.owner_id != old_owner@),
                    unit_views(kept@) == old_units.take(j as int).filter(pred),
                decreases self.units@.len() - j,
            {
                proof {
                    assert(old_units.take(j as int + 1) =~= old_units.take(j as int).push(
                        old_units[j as int],
                    ));
                    old_units.take(j as int).lemma_filter_push(old_units[j as int], pred);
                }
                if self.units[j].owner_id != old_owner {
                    let u = self.units[j].clone();
                    let ghost before = kept@;
                    kept.push(u);
                    assert(unit_views(kept@) =~= unit_views(before).push(old_units[j as int]));
                }
                j = j + 1;
            }
            assert(old_units.take(j as int) =~= old_units);
            self.units = kept;
            let survivor = self.sole_survivor();
            match survivor {
                Some(w) => {
                    self.status = GameStatus::Victory { winner_id: w };
                },
                None => {},
            }
            proof {
                let sp = capture(s0, q, r, new_owner@).0;
                let sp_pred = |u: UnitView| u.owner_id != s0.cities[idx as int].owner_id;
                assert(pred =~= sp_pred);
                assert(self@.cities == sp.cities);
                assert(self@ == sp);
            }
        } else {
            self.cities[idx].owner_id = String::from_str(new_owner);
            assert(city_views(self.cities@) =~= s0.cities.update(
                idx as int,
                CityView { owner_id: new_owner@, ..s0.cities[idx as int] },
            ));
        }
        let captured = self.cities[idx].clone();
        (Some(captured), eliminated_player)
    }

    /// The one player that is not eliminated, when exactly one is left.
    fn sole_survivor(&self) -> (w: Option<String>)
        ensures
            match w {
                Some(x) => survivors(self@.players, self@.eliminated).len() == 1 && x@ == survivors(
                    self@.players,
                    self@.eliminated,
                )[0],
                None => survivors(self@.players, self@.eliminated).len() != 1,
            },
    {
        let ghost ids = player_ids(self@.players);
        let ghost elim = self@.eliminated;
        let ghost pred = |id: Seq<char>| !elim.contains(id);
        let mut count: usize = 0;
        let mut first: usize = 0;
        let mut i: usize = 0;
        while i < self.players.len()
            invariant
                0 <= i <= self.players@.len(),
                ids == player_ids(self@.players),
                elim == self@.eliminated,
                pred == (|id: Seq<char>| !elim.contains(id)),
                count == ids.take(i as int).filter(pred).len(),
                count >= 1 ==> first < i && ids.take(i as int).filter(pred)[0] == ids[first as int],
            decreases self.players@.len() - i,
        {
            proof {
                assert(ids.take(i as int + 1) =~= ids.take(i as int).push(ids[i as int]));
                ids.take(i as int).lemma_filter_push(ids[i as int], pred);
            }
            if !contains_id(&self.eliminated_players, self.players[i].id.as_str()) {
                if count == 0 {
                    first = i;
                }
                count = count + 1;
            }
            i = i + 1;
        }
        assert(ids.take(i as int) =~= ids);
        if count == 1 {
            Some(self.players[first].id.clone())
        } else {
            None
        }
    }
}

} // verus!
