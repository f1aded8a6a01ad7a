//! The session manager: active sessions by id, the checks on who may act, and the
//! events that each applied command publishes.
//!
//! Every operation runs on the whole manager at once, so commands and clock ticks on a
//! session are applied one after another; the caller publishes the returned events in
//! the order given.
use vstd::prelude::*;
use crate::laws::{
    lemma_buy_wf, lemma_combat_sound, lemma_end_turn_wf, lemma_fortify_wf, lemma_move_sound,
    session_wf,
};
use crate::messages::{event_view, event_views, EventView, ServerMessage};
use crate::model::{city_views, unit_views, City, GameStatus, StatusView, Unit, UnitType};
use crate::session::{
    buy_check, buy_spec, combat_outcome_is, combat_spec, end_turn_spec, first_from,
    fortify_spec, lemma_first_from, move_outcome_is, move_spec, player_index, sat_sub, seats_ok,
    unit_index, find_player, find_unit, CombatOutcome, CombatView, GameSession, MoveOutcome,
    SessionView,
};
use crate::text::str_eq;

verus! {

pub open spec fn games_of(v: Seq<GameSession>) -> Seq<SessionView> {
    v.map_values(|g: GameSession| g@)
}

/// Index of the first session with id `id`, or -1.
pub open spec fn game_index(games: Seq<SessionView>, id: Seq<char>) -> int {
    first_from(games, |g: SessionView| g.id == id, 0)
}

/// Id of the player whose seat is to move.
pub open spec fn mover_id(g: SessionView) -> Seq<char> {
    g.players[g.current_turn as int].id
}

/// Why `player_id` may not act on unit `unit_id` in session `game_id`, or the index of the
/// session; `missing` is the refusal for an unknown unit.
pub open spec fn unit_command_check(
    games: Seq<SessionView>,
    game_id: Seq<char>,
    player_id: Seq<char>,
    unit_id: Seq<char>,
    missing: Seq<char>,
) -> Result<int, Seq<char>> {
    let k = game_index(games, game_id);
    if k < 0 {
        Err("Game not found"@)
    } else {
        let g = games[k];
        let i = unit_index(g.units, unit_id);
        if mover_id(g) != player_id {
            Err("Not your turn"@)
        } else if i < 0 {
            Err(missing)
        } else if g.units[i].owner_id != player_id {
            Err("Not your unit"@)
        } else {
            Ok(k)
        }
    }
}

pub open spec fn turn_changed_view(s: SessionView) -> EventView {
    EventView::TurnChanged {
        current_turn: s.current_turn,
        times: s.times,
        gold: s.gold,
        units: s.units,
        cities: s.cities,
    }
}

/// `GameOver` when the session has a winner.
pub open spec fn game_over_events(s: SessionView) -> Seq<EventView> {
    match s.status {
        StatusView::Victory(w) => seq![EventView::GameOver { winner_id: w }],
        _ => Seq::empty(),
    }
}

/// What a move publishes.
pub open spec fn move_events(
    s: SessionView,
    unit_id: Seq<char>,
    q: i32,
    r: i32,
    o: (u32, Option<crate::model::CityView>, Option<Seq<char>>),
    player_id: Seq<char>,
) -> Seq<EventView> {
    let moved = seq![
        EventView::UnitMoved { unit_id, to_q: q, to_r: r, movement_remaining: o.0 },
    ];
    let captured = match o.2 {
        Some(e) => seq![
            EventView::PlayerEliminated { player_id: e, conquerer_id: player_id },
            EventView::CitiesCaptured { cities: s.cities },
        ],
        None => if o.1 is Some {
            seq![EventView::CitiesCaptured { cities: s.cities }]
        } else {
            Seq::empty()
        },
    };
    moved + captured + game_over_events(s)
}

/// What an attack publishes.
pub open spec fn combat_events(
    s: SessionView,
    attacker_id: Seq<char>,
    defender_id: Seq<char>,
    o: CombatView,
    player_id: Seq<char>,
) -> Seq<EventView> {
    let result = seq![
        EventView::CombatResult {
            attacker_id,
            defender_id,
            hp: (o.attacker_hp, o.defender_hp),
            damage: (o.damage_to_attacker, o.damage_to_defender),
            died: (o.attacker_died, o.defender_died),
            advance: (o.attacker_new_q, o.attacker_new_r),
        },
    ];
    let captured = match o.eliminated_player {
        Some(e) => seq![
            EventView::PlayerEliminated { player_id: e, conquerer_id: player_id },
            EventView::CitiesCaptured { cities: s.cities },
        ],
        None => if o.captured_city is Some {
            seq![EventView::CitiesCaptured { cities: s.cities }]
        } else {
            Seq::empty()
        },
    };
    result + captured + game_over_events(s)
}

/// A turn ended at `now`: the clock is charged with the time since the turn started.
pub open spec fn end_turn_at(g: SessionView, now: u64) -> SessionView {
    SessionView {
        turn_started_at_ms: now,
        ..end_turn_spec(g, sat_sub(now, g.turn_started_at_ms))
    }
}

/// Time left to the player to move at `now`.
pub open spec fn time_left(g: SessionView, now: u64) -> u64 {
    sat_sub(g.times[g.current_turn as int], sat_sub(now, g.turn_started_at_ms))
}

/// No two sessions share an id.
pub open spec fn ids_unique(games: Seq<SessionView>) -> bool {
    forall|i: int, j: int|
        0 <= i < games.len() && 0 <= j < games.len() && i != j ==> #[trigger] games[i].id
            != #[trigger] games[j].id
}

/// Replacing a session by one with the same id keeps ids unique.
pub proof fn lemma_update_ids(games: Seq<SessionView>, k: int, g: SessionView)
    requires
        ids_unique(games),
        0 <= k < games.len(),
        g.id == games[k].id,
    ensures
        ids_unique(games.update(k, g)),
{
    let u = games.update(k, g);
    assert forall|i: int, j: int|
        0 <= i < u.len() && 0 <= j < u.len() && i != j implies #[trigger] u[i].id
        != #[trigger] u[j].id by {
        assert(u[i].id == games[i].id && u[j].id == games[j].id);
    }
}

/// Adding a session under an id not in use keeps ids unique.
pub proof fn lemma_push_ids(games: Seq<SessionView>, g: SessionView)
    requires
        ids_unique(games),
        game_index(games, g.id) < 0,
    ensures
        ids_unique(games.push(g)),
{
    lemma_first_from(games, |x: SessionView| x.id == g.id, 0);
    let u = games.push(g);
    assert forall|i: int, j: int|
        0 <= i < u.len() && 0 <= j < u.len() && i != j implies #[trigger] u[i].id
        != #[trigger] u[j].id by {
        if i < games.len() {
            assert(u[i] == games[i]);
        }
        if j < games.len() {
            assert(u[j] == games[j]);
        }
    }
}

/// Dropping a session keeps ids unique and leaves no session with its id.
pub proof fn lemma_remove_ids(games: Seq<SessionView>, k: int)
    requires
        ids_unique(games),
        0 <= k < games.len(),
    ensures
        ids_unique(games.remove(k)),
        game_index(games.remove(k), games[k].id) < 0,
{
    let u = games.remove(k);
    assert forall|i: int| 0 <= i < u.len() implies #[trigger] u[i] == games[if i < k {
        i
    } else {
        i + 1
    }] by {}
    assert forall|i: int, j: int|
        0 <= i < u.len() && 0 <= j < u.len() && i != j implies #[trigger] u[i].id
        != #[trigger] u[j].id by {
        let i2 = if i < k {
            i
        } else {
            i + 1
        };
        let j2 = if j < k {
            j
        } else {
            j + 1
        };
        assert(u[i] == games[i2] && u[j] == games[j2]);
    }
    lemma_first_from(u, |x: SessionView| x.id == games[k].id, 0);
    let f = game_index(u, games[k].id);
    if f >= 0 {
        let f2 = if f < k {
            f
        } else {
            f + 1
        };
        assert(u[f] == games[f2]);
    }
}

pub struct GameManager {
    pub active_games: Vec<GameSession>,
}

fn push_event(events: &mut Vec<ServerMessage>, e: ServerMessage)
    ensures
        event_views(final(events)@) == event_views(old(events)@).push(event_view(e)),
{
    let ghost before = events@;
    events.push(e);
    assert(event_views(events@) =~= event_views(before).push(event_view(e)));
}

fn copy_cities(v: &Vec<City>) -> (r: Vec<City>)
    ensures
        r@ == v@,
{
    let r = v.clone();
    assert forall|i: int| 0 <= i < r@.len() implies r@[i] == v@[i] by {
        assert(cloned::<City>(v[i], r[i]));
    }
    assert(r@ =~= v@);
    r
}

fn copy_units(v: &Vec<Unit>) -> (r: Vec<Unit>)
    ensures
        r@ == v@,
{
    let r = v.clone();
    assert forall|i: int| 0 <= i < r@.len() implies r@[i] == v@[i] by {
        assert(cloned::<Unit>(v[i], r[i]));
    }
    assert(r@ =~= v@);
    r
}

fn copy_counters(v: &Vec<u64>) -> (r: Vec<u64>)
    ensures
        r@ == v@,
{
    let r = v.clone();
    assert forall|i: int| 0 <= i < r@.len() implies r@[i] == v@[i] by {
        assert(cloned::<u64>(v[i], r[i]));
    }
    assert(r@ =~= v@);
    r
}

/// The `TurnChanged` event of a session.
fn turn_changed(g: &GameSession) -> (e: ServerMessage)
    ensures
        event_view(e) == turn_changed_view(g@),
{
    ServerMessage::TurnChanged {
        current_turn: g.current_turn,
        player_times_ms: copy_counters(&g.player_times_ms),
        player_gold: copy_counters(&g.player_gold),
        units: copy_units(&g.units),
        cities: copy_cities(&g.cities),
    }
}

/// Appends `GameOver` when the session has a winner.
fn push_game_over(events: &mut Vec<ServerMessage>, g: &GameSession)
    ensures
        event_views(final(events)@) == event_views(old(events)@) + game_over_events(g@),
{
    match &g.status {
        GameStatus::Victory { winner_id } => {
            push_event(events, ServerMessage::GameOver { winner_id: winner_id.clone() });
            assert(event_views(old(events)@).push(EventView::GameOver { winner_id: winner_id@ })
                =~= event_views(old(events)@) + game_over_events(g@));
        },
        _ => {
            assert(event_views(old(events)@) =~= event_views(old(events)@) + game_over_events(g@));
        },
    }
}

impl Default for GameManager {
    fn default() -> (m: GameManager)
        ensures
            m.games().len() == 0,
            m.inv(),
    {
        GameManager::new()
    }
}

impl GameManager {
    pub open spec fn games(&self) -> Seq<SessionView> {
        games_of(self.active_games@)
    }

    /// Every session's seat and per-seat arrays fit its players, and no two sessions
    /// share an id.
    pub open spec fn inv(&self) -> bool {
        &&& forall|i: int| 0 <= i < self.games().len() ==> seats_ok(#[trigger] self.games()[i])
        &&& ids_unique(self.games())
    }

    pub fn new() -> (m: GameManager)
        ensures
            m.games().len() == 0,
            m.inv(),
    {
        GameManager { active_games: Vec::new() }
    }

    fn find_game(&self, id: &str) -> (k: Option<usize>)
        ensures
            match k {
                Some(i) => i < self.games().len() && i as int == game_index(self.games(), id@),
                None => game_index(self.games(), id@) < 0,
            },
    {
        let ghost v = self.games();
        let ghost p = |g: SessionView| g.id == id@;
        let mut i: usize = 0;
        while i < self.active_games.len()
            invariant
                v == self.games(),
                p == (|g: SessionView| g.id == id@),
                0 <= i <= v.len(),
                first_from(v, p, 0) == first_from(v, p, i as int),
            decreases v.len() - i,
        {
            if str_eq(self.active_games[i].id.as_str(), id) {
                return Some(i);
            }
            i = i + 1;
        }
        None
    }

    /// Whether `player_id` holds the seat to move in session `k`.
    fn is_mover(&self, k: usize, player_id: &str) -> (b: bool)
        requires
            self.inv(),
            k < self.games().len(),
        ensures
            b == (mover_id(self.games()[k as int]) == player_id@),
    {
        let g = &self.active_games[k];
        assert(seats_ok(self.games()[k as int]));
        str_eq(g.players[g.current_turn].id.as_str(), player_id)
    }

    /// The refusal that a unit command meets, or the index of its session.
    fn check_unit_command(&self, game_id: &str, player_id: &str, unit_id: &str, missing: &str) -> (r:
        Result<usize, String>)
        requires
            self.inv(),
        ensures
            match unit_command_check(self.games(), game_id@, player_id@, unit_id@, missing@) {
                Err(m) => r matches Err(e) && e@ == m,
                Ok(k) => r matches Ok(i) && i as int == k && 0 <= k < self.games().len(),
            },
    {
        let k = match self.find_game(game_id) {
            Some(k) => k,
            None => {
                return Err(String::from_str("Game not found"));
            },
        };
        if !self.is_mover(k, player_id) {
            return Err(String::from_str("Not your turn"));
        }
        let i = match find_unit(&self.active_games[k].units, unit_id) {
            Some(i) => i,
            None => {
                return Err(String::from_str(missing));
            },
        };
        if !str_eq(self.active_games[k].units[i].owner_id.as_str(), player_id) {
            return Err(String::from_str("Not your unit"));
        }
        Ok(k)
    }

    /// Adds a session whose turn starts at `now`, in place of one with the same id.
    pub fn start_game(&mut self, game: GameSession, now: u64)
        requires
            old(self).inv(),
            seats_ok(game@),
        ensures
            final(self).inv(),
            ({
                let g = SessionView { turn_started_at_ms: now, ..game@ };
                let k = game_index(old(self).games(), game@.id);
                if k < 0 {
                    final(self).games() == old(self).games().push(g)
                } else {
                    final(self).games() == old(self).games().update(k, g)
                }
            }),
    {
        let mut game = game;
        game.turn_started_at_ms = now;
        let ghost g = game@;
        let ghost before = self.games();
        match self.find_game(game.id.as_str()) {
            Some(k) => {
                self.active_games.set(k, game);
                assert(self.games() =~= before.update(k as int, g));
                proof {
                    lemma_first_from(before, |x: SessionView| x.id == g.id, 0);
                    lemma_update_ids(before, k as int, g);
                }
            },
            None => {
                self.active_games.push(game);
                assert(self.games() =~= before.push(g));
                proof {
                    lemma_push_ids(before, g);
                }
            },
        }
        assert forall|i: int| 0 <= i < self.games().len() implies seats_ok(
            #[trigger] self.games()[i],
        ) by {
            if i < before.len() && self.games()[i] != g {
                assert(self.games()[i] == before[i]);
            }
        }
    }

    /// A copy of session `game_id`.
    pub fn get_game(&self, game_id: &str) -> (r: Option<GameSession>)
        ensures
            game_index(self.games(), game_id@) < 0 ==> r is None,
            game_index(self.games(), game_id@) >= 0 ==> (r matches Some(g) && g@ == self.games()[game_index(self.games(), game_id@)]),
    {
        match self.find_game(game_id) {
            Some(k) => Some(self.active_games[k].clone()),
            None => None,
        }
    }

    /// Ends `player_id`'s turn in session `game_id` at `now`, charging the time since the
    /// turn began; returns the session and the `TurnChanged` event to publish.
    pub fn end_turn(&mut self, game_id: &str, player_id: &str, now: u64) -> (r: Result<
        (GameSession, Vec<ServerMessage>),
        String,
    >)
        requires
            old(self).inv(),
        ensures
            final(self).inv(),
            ({
                let k = game_index(old(self).games(), game_id@);
                if k < 0 {
                    r matches Err(e) && e@ == "Game not found"@ && final(self).active_games@ == old(self).active_games@
                } else {
                    let g = old(self).games()[k];
                    if mover_id(g) != player_id@ {
                        r matches Err(e) && e@ == "Not your turn (expected "@ + mover_id(g)
                            + ", got "@ + player_id@ + ")"@ && final(self).active_games@ == old(self).active_games@
                    } else {
                        let g2 = end_turn_at(g, now);
                        &&& r matches Ok((s, es)) && s@ == g2 && event_views(es@) == seq![
                            turn_changed_view(g2),
                        ]
                        &&& final(self).games() == old(self).games().update(k, g2)
                        &&& session_wf(g) ==> session_wf(g2)
                    }
                }
            }),
    {
        let k = match self.find_game(game_id) {
            Some(k) => k,
            None => {
                return Err(String::from_str("Game not found"));
            },
        };
        let ghost before = self.games();
        assert(seats_ok(before[k as int]));
        if !self.is_mover(k, player_id) {
            let g = &self.active_games[k];
            let expected = g.players[g.current_turn].id.as_str();
            let msg = String::from_str("Not your turn (expected ").concat(expected).concat(
                ", got ",
            ).concat(player_id).concat(")");
            return Err(msg);
        }
        let started = self.active_games[k].turn_started_at_ms;
        let time_used: u64 = if now > started {
            now - started
        } else {
            0
        };
        self.active_games[k].end_current_turn(time_used);
        self.active_games[k].turn_started_at_ms = now;
        let ghost g2 = end_turn_at(before[k as int], now);
        assert(self.games() =~= before.update(k as int, g2));
        proof {
            crate::laws::lemma_seek_range(
                before[k as int].players,
                before[k as int].eliminated,
                before[k as int].current_turn as int,
                before[k as int].current_turn as int,
                before[k as int].players.len(),
            );
            if session_wf(before[k as int]) {
                lemma_end_turn_wf(before[k as int], time_used);
            }
            assert forall|i: int| 0 <= i < self.games().len() implies seats_ok(
                #[trigger] self.games()[i],
            ) by {
                if i != k {
                    assert(self.games()[i] == before[i]);
                }
            }
        }
        let game = self.active_games[k].clone();
        let mut events: Vec<ServerMessage> = Vec::new();
        push_event(&mut events, turn_changed(&self.active_games[k]));
        assert(event_views(events@) =~= seq![turn_changed_view(g2)]);
        Ok((game, events))
    }

    /// Moves `player_id`'s unit during their turn; returns the outcome and the events to
    /// publish: the move, any elimination or capture, and the end of the game.
    pub fn move_unit(
        &mut self,
        game_id: &str,
        player_id: &str,
        unit_id: &str,
        to_q: i32,
        to_r: i32,
    ) -> (r: Result<(MoveOutcome, Vec<ServerMessage>), String>)
        requires
            old(self).inv(),
        ensures
            final(self).inv(),
            match unit_command_check(
                old(self).games(),
                game_id@,
                player_id@,
                unit_id@,
                "Unit not found"@,
            ) {
                Err(m) => r matches Err(e) && e@ == m && final(self).active_games@ == old(self).active_games@,
                Ok(k) => match move_spec(old(self).games()[k], unit_id@, to_q, to_r) {
                    Err(m) => r matches Err(e) && e@ == m && final(self).active_games@ == old(self).active_games@,
                    Ok((s2, o)) => {
                        &&& r matches Ok((out, es)) && move_outcome_is(out, o) && event_views(es@)
                            == move_events(s2, unit_id@, to_q, to_r, o, player_id@)
                        &&& final(self).games() == old(self).games().update(k, s2)
                        &&& session_wf(old(self).games()[k]) ==> session_wf(s2)
                    },
                },
            },
    {
        let k = match self.check_unit_command(game_id, player_id, unit_id, "Unit not found") {
            Ok(k) => k,
            Err(e) => {
                return Err(e);
            },
        };
        let ghost before = self.games();
        let ghost g = before[k as int];
        assert(g == self.active_games@[k as int]@);
        proof {
            lemma_first_from(g.units, |u: crate::model::UnitView| u.id == unit_id@, 0);
        }
        let mut game = self.active_games[k].clone();
        let outcome = match game.move_unit(unit_id, to_q, to_r) {
            Ok(o) => o,
            Err(e) => {
                return Err(e);
            },
        };
        self.active_games.set(k, game);
        let ghost s2 = move_spec(g, unit_id@, to_q, to_r)->Ok_0.0;
        let ghost o = move_spec(g, unit_id@, to_q, to_r)->Ok_0.1;
        assert(self.games() =~= before.update(k as int, s2));
        proof {
            if session_wf(g) {
                lemma_move_sound(g, unit_id@, to_q, to_r);
            }
            assert forall|i: int| 0 <= i < self.games().len() implies seats_ok(
                #[trigger] self.games()[i],
            ) by {
                if i != k {
                    assert(self.games()[i] == before[i]);
                }
            }
        }
        let mut events: Vec<ServerMessage> = Vec::new();
        push_event(
            &mut events,
            ServerMessage::UnitMoved {
                unit_id: String::from_str(unit_id),
                to_q,
                to_r,
                movement_remaining: outcome.movement_remaining,
            },
        );
        let ghost first = event_views(events@);
        match &outcome.eliminated_player {
            Some(eliminated_id) => {
                push_event(
                    &mut events,
                    ServerMessage::PlayerEliminated {
                        player_id: eliminated_id.clone(),
                        conquerer_id: String::from_str(player_id),
                    },
                );
                push_event(
                    &mut events,
                    ServerMessage::CitiesCaptured {
                        cities: copy_cities(&self.active_games[k].cities),
                    },
                );
            },
            None => {
                if outcome.captured_city.is_some() {
                    push_event(
                        &mut events,
                        ServerMessage::CitiesCaptured {
                            cities: copy_cities(&self.active_games[k].cities),
                        },
                    );
                }
            },
        }
        let ghost second = event_views(events@);
        push_game_over(&mut events, &self.active_games[k]);
        proof {
            let moved = seq![
                EventView::UnitMoved {
                    unit_id: unit_id@,
                    to_q,
                    to_r,
                    movement_remaining: o.0,
                },
            ];
            assert(first =~= moved);
            let spec = move_events(s2, unit_id@, to_q, to_r, o, player_id@);
            assert(second =~= spec.subrange(0, second.len() as int));
            assert(event_views(events@) =~= spec);
        }
        Ok((outcome, events))
    }

    /// Resolves an attack by `player_id`'s unit during their turn; returns the outcome and
    /// the events to publish: the result, any elimination or capture, and the end of the game.
    pub fn attack_unit(&mut self, game_id: &str, player_id: &str, attacker_id: &str, defender_id: &str) -> (r:
        Result<(CombatOutcome, Vec<ServerMessage>), String>)
        requires
            old(self).inv(),
        ensures
            final(self).inv(),
            match unit_command_check(
                old(self).games(),
                game_id@,
                player_id@,
                attacker_id@,
                "Attacker not found"@,
            ) {
                Err(m) => r matches Err(e) && e@ == m && final(self).active_games@ == old(self).active_games@,
                Ok(k) => match combat_spec(old(self).games()[k], attacker_id@, defender_id@) {
                    Err(m) => r matches Err(e) && e@ == m && final(self).active_games@ == old(self).active_games@,
                    Ok((s2, o)) => {
                        &&& r matches Ok((out, es)) && combat_outcome_is(out, o) && event_views(
                            es@,
                        ) == combat_events(s2, attacker_id@, defender_id@, o, player_id@)
                        &&& final(self).games() == old(self).games().update(k, s2)
                        &&& session_wf(old(self).games()[k]) ==> session_wf(s2)
                    },
                },
            },
    {
        let k = match self.check_unit_command(game_id, player_id, attacker_id, "Attacker not found") {
            Ok(k) => k,
            Err(e) => {
                return Err(e);
            },
        };
        let ghost before = self.games();
        let ghost g = before[k as int];
        assert(g == self.active_games@[k as int]@);
        proof {
            lemma_first_from(g.units, |u: crate::model::UnitView| u.id == attacker_id@, 0);
        }
        let mut game = self.active_games[k].clone();
        let outcome = match game.resolve_combat(attacker_id, defender_id) {
            Ok(o) => o,
            Err(e) => {
                return Err(e);
            },
        };
        self.active_games.set(k, game);
        let ghost s2 = combat_spec(g, attacker_id@, defender_id@)->Ok_0.0;
        let ghost o = combat_spec(g, attacker_id@, defender_id@)->Ok_0.1;
        assert(self.games() =~= before.update(k as int, s2));
        proof {
            if session_wf(g) {
                lemma_combat_sound(g, attacker_id@, defender_id@);
            }
            assert forall|i: int| 0 <= i < self.games().len() implies seats_ok(
                #[trigger] self.games()[i],
            ) by {
                if i != k {
                    assert(self.games()[i] == before[i]);
                }
            }
        }
        let mut events: Vec<ServerMessage> = Vec::new();
        push_event(
            &mut events,
            ServerMessage::CombatResult {
                attacker_id: String::from_str(attacker_id),
                defender_id: String::from_str(defender_id),
                attacker_hp: outcome.attacker_hp,
                defender_hp: outcome.defender_hp,
                damage_to_attacker: outcome.damage_to_attacker,
                damage_to_defender: outcome.damage_to_defender,
                attacker_died: outcome.attacker_died,
                defender_died: outcome.defender_died,
                attacker_new_q: outcome.attacker_new_q,
                attacker_new_r: outcome.attacker_new_r,
            },
        );
        let ghost first = event_views(events@);
        match &outcome.eliminated_player {
            Some(eliminated_id) => {
                push_event(
                    &mut events,
                    ServerMessage::PlayerEliminated {
                        player_id: eliminated_id.clone(),
                        conquerer_id: String::from_str(player_id),
                    },
                );
                push_event(
                    &mut events,
                    ServerMessage::CitiesCaptured {
                        cities: copy_cities(&self.active_games[k].cities),
                    },
                );
            },
            None => {
                if outcome.captured_city.is_some() {
                    push_event(
                        &mut events,
                        ServerMessage::CitiesCaptured {
                            cities: copy_cities(&self.active_games[k].cities),
                        },
                    );
                }
            },
        }
        let ghost second = event_views(events@);
        push_game_over(&mut events, &self.active_games[k]);
        proof {
            let spec = combat_events(s2, attacker_id@, defender_id@, o, player_id@);
            assert(second =~= spec.subrange(0, second.len() as int));
            assert(event_views(events@) =~= spec);
        }
        Ok((outcome, events))
    }

    /// Fortifies `player_id`'s unit during their turn; returns the new hit points and the
    /// `UnitFortified` event.
    pub fn fortify_unit(&mut self, game_id: &str, player_id: &str, unit_id: &str) -> (r: Result<
        (u32, Vec<ServerMessage>),
        String,
    >)
        requires
            old(self).inv(),
        ensures
            final(self).inv(),
            match unit_command_check(
                old(self).games(),
                game_id@,
                player_id@,
                unit_id@,
                "Unit not found"@,
            ) {
                Err(m) => r matches Err(e) && e@ == m && final(self).active_games@ == old(self).active_games@,
                Ok(k) => match fortify_spec(old(self).games()[k], unit_id@) {
                    Err(m) => r matches Err(e) && e@ == m && final(self).active_games@ == old(self).active_games@,
                    Ok((s2, hp)) => {
                        &&& r matches Ok((h, es)) && h == hp && event_views(es@) == seq![
                            EventView::UnitFortified { unit_id: unit_id@, new_hp: hp },
                        ]
                        &&& final(self).games() == old(self).games().update(k, s2)
                        &&& session_wf(old(self).games()[k]) ==> session_wf(s2)
                    },
                },
            },
    {
        let k = match self.check_unit_command(game_id, player_id, unit_id, "Unit not found") {
            Ok(k) => k,
            Err(e) => {
                return Err(e);
            },
        };
        let ghost before = self.games();
        let ghost g = before[k as int];
        assert(g == self.active_games@[k as int]@);
        let mut game = self.active_games[k].clone();
        let new_hp = match game.fortify_unit(unit_id) {
            Ok(h) => h,
            Err(e) => {
                return Err(e);
            },
        };
        self.active_games.set(k, game);
        let ghost s2 = fortify_spec(g, unit_id@)->Ok_0.0;
        assert(self.games() =~= before.update(k as int, s2));
        proof {
            if session_wf(g) {
                lemma_fortify_wf(g, unit_id@);
            }
            assert forall|i: int| 0 <= i < self.games().len() implies seats_ok(
                #[trigger] self.games()[i],
            ) by {
                if i != k {
                    assert(self.games()[i] == before[i]);
                }
            }
        }
        let mut events: Vec<ServerMessage> = Vec::new();
        push_event(&mut events, ServerMessage::UnitFortified { unit_id: String::from_str(unit_id), new_hp });
        assert(event_views(events@) =~= seq![
            EventView::UnitFortified { unit_id: unit_id@, new_hp },
        ]);
        Ok((new_hp, events))
    }

    /// Buys a unit for `player_id` during their turn; returns the unit, the buyer's gold
    /// and the `UnitPurchased` event.
    pub fn buy_unit(&mut self, game_id: &str, player_id: &str, city_id: &str, unit_type: UnitType) -> (r:
        Result<(Unit, u64, Vec<ServerMessage>), String>)
        requires
            old(self).inv(),
        ensures
            final(self).inv(),
            ({
                let k = game_index(old(self).games(), game_id@);
                if k < 0 {
                    r matches Err(e) && e@ == "Game not found"@ && final(self).active_games@ == old(self).active_games@
                } else {
                    let g = old(self).games()[k];
                    if mover_id(g) != player_id@ {
                        r matches Err(e) && e@ == "Not your turn"@ && final(self).active_games@ == old(self).active_games@
                    } else {
                        &&& buy_check(g, player_id@, city_id@, unit_type) matches Err(m) ==> (r matches Err(e)
                            && e@ == m)
                        &&& buy_check(g, player_id@, city_id@, unit_type) is Ok ==> (r is Ok || (
                            r matches Err(e) && (e@ == "No entropy for a unit id"@ || e@
                                == "Unit id already in use"@)))
                        &&& r is Err ==> final(self).active_games@ == old(self).active_games@
                        &&& r matches Ok((unit, gold, es)) ==> exists|token: u64|
                            #[trigger] buy_spec(g, player_id@, city_id@, unit_type, token) matches Ok(
                                (s2, u),
                            ) && unit@ == u && final(self).games() == old(self).games().update(
                                k,
                                s2,
                            ) && gold == s2.gold[player_index(g.players, player_id@)]
                                && event_views(es@) == seq![
                                EventView::UnitPurchased { unit: u, city_id: city_id@, player_gold: gold },
                            ] && (session_wf(g) ==> session_wf(s2))
                    }
                }
            }),
    {
        let k = match self.find_game(game_id) {
            Some(k) => k,
            None => {
                return Err(String::from_str("Game not found"));
            },
        };
        if !self.is_mover(k, player_id) {
            return Err(String::from_str("Not your turn"));
        }
        let ghost before = self.games();
        let ghost g = before[k as int];
        assert(g == self.active_games@[k as int]@);
        assert(seats_ok(g));
        let pi = match find_player(&self.active_games[k].players, player_id) {
            Some(i) => i,
            None => {
                return Err(String::from_str("Player not found"));
            },
        };
        let mut game = self.active_games[k].clone();
        let unit = match game.buy_unit(player_id, city_id, unit_type) {
            Ok(u) => u,
            Err(e) => {
                return Err(e);
            },
        };
        self.active_games.set(k, game);
        let ghost token = choose|token: u64|
            #[trigger] buy_spec(g, player_id@, city_id@, unit_type, token) matches Ok((s2, u))
                && unit@ == u && self.active_games@[k as int]@ == s2;
        let ghost s2 = buy_spec(g, player_id@, city_id@, unit_type, token)->Ok_0.0;
        assert(self.games() =~= before.update(k as int, s2));
        proof {
            lemma_first_from(g.players, |p: crate::model::PlayerView| p.id == player_id@, 0);
            if session_wf(g) {
                lemma_buy_wf(g, player_id@, city_id@, unit_type, token);
            }
            assert forall|i: int| 0 <= i < self.games().len() implies seats_ok(
                #[trigger] self.games()[i],
            ) by {
                if i != k {
                    assert(self.games()[i] == before[i]);
                }
            }
        }
        let player_gold = self.active_games[k].player_gold[pi];
        let copy = unit.clone();
        let mut events: Vec<ServerMessage> = Vec::new();
        push_event(
            &mut events,
            ServerMessage::UnitPurchased { unit: copy, city_id: String::from_str(city_id), player_gold },
        );
        assert(event_views(events@) =~= seq![
            EventView::UnitPurchased { unit: unit@, city_id: city_id@, player_gold },
        ]);
        Ok((unit, player_gold, events))
    }

    /// One tick of session `game_id`'s clock at `now`. `None` tells the timer to stop: the
    /// session is gone, or it has a winner and is dropped. Otherwise the events to publish:
    /// the time left to the player to move, and when none is left the forced end of the
    /// turn, charged with the whole bank.
    pub fn timer_tick(&mut self, game_id: &str, now: u64) -> (r: Option<Vec<ServerMessage>>)
        requires
            old(self).inv(),
        ensures
            final(self).inv(),
            ({
                let k = game_index(old(self).games(), game_id@);
                if k < 0 {
                    r is None && final(self).active_games@ == old(self).active_games@
                } else {
                    let g = old(self).games()[k];
                    if g.status is Victory {
                        r is None && final(self).games() == old(self).games().remove(k)
                            && game_index(final(self).games(), game_id@) < 0
                    } else {
                        let left = time_left(g, now);
                        let tick = EventView::TimeTick {
                            player_index: g.current_turn,
                            remaining_ms: left,
                        };
                        if left > 0 {
                            r matches Some(es) && event_views(es@) == seq![tick] && *final(self)
                                == *old(self)
                        } else {
                            let g2 = SessionView {
                                turn_started_at_ms: now,
                                ..end_turn_spec(g, g.times[g.current_turn as int])
                            };
                            &&& r matches Some(es) && event_views(es@) == seq![
                                tick,
                                turn_changed_view(g2),
                            ]
                            &&& final(self).games() == old(self).games().update(k, g2)
                            &&& session_wf(g) ==> session_wf(g2)
                        }
                    }
                }
            }),
    {
        let k = match self.find_game(game_id) {
            Some(k) => k,
            None => {
                return None;
            },
        };
        let ghost before = self.games();
        let ghost g = before[k as int];
        assert(g == self.active_games@[k as int]@);
        assert(seats_ok(g));
        if let GameStatus::Victory { .. } = self.active_games[k].status {
            let _gone = self.active_games.remove(k);
            assert(self.games() =~= before.remove(k as int));
            proof {
                lemma_first_from(before, |x: SessionView| x.id == game_id@, 0);
                lemma_remove_ids(before, k as int);
            }
            assert forall|i: int| 0 <= i < self.games().len() implies seats_ok(
                #[trigger] self.games()[i],
            ) by {
                if i < k {
                    assert(self.games()[i] == before[i]);
                } else {
                    assert(self.games()[i] == before[i + 1]);
                }
            }
            return None;
        }
        let started = self.active_games[k].turn_started_at_ms;
        let elapsed: u64 = if now > started {
            now - started
        } else {
            0
        };
        let bank = self.active_games[k].current_player_time();
        let remaining: u64 = if bank > elapsed {
            bank - elapsed
        } else {
            0
        };
        let mut events: Vec<ServerMessage> = Vec::new();
        push_event(
            &mut events,
            ServerMessage::TimeTick {
                player_index: self.active_games[k].current_turn,
                remaining_ms: remaining,
            },
        );
        if remaining == 0 {
            self.active_games[k].end_current_turn(bank);
            self.active_games[k].turn_started_at_ms = now;
            let ghost g2 = SessionView {
                turn_started_at_ms: now,
                ..end_turn_spec(g, g.times[g.current_turn as int])
            };
            assert(self.games() =~= before.update(k as int, g2));
            proof {
                crate::laws::lemma_seek_range(
                    g.players,
                    g.eliminated,
                    g.current_turn as int,
                    g.current_turn as int,
                    g.players.len(),
                );
                if session_wf(g) {
                    lemma_end_turn_wf(g, g.times[g.current_turn as int]);
                }
                assert forall|i: int| 0 <= i < self.games().len() implies seats_ok(
                    #[trigger] self.games()[i],
                ) by {
                    if i != k {
                        assert(self.games()[i] == before[i]);
                    }
                }
            }
            let ghost tick = event_views(events@);
            push_event(&mut events, turn_changed(&self.active_games[k]));
            assert(event_views(events@) =~= tick.push(turn_changed_view(g2)));
        }
        Some(events)
    }
}

} // verus!
