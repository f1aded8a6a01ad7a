//! The session invariant and the laws that the rules obey.
use vstd::prelude::*;
use crate::model::{type_base_movement, StatusView, UnitView};
use crate::hex::hex_dist;
use crate::session::{
    buy_spec, capture, combat_check, combat_spec, end_turn_spec, first_from, fortify_spec,
    is_active, lemma_first_from, move_check, move_spec, next_seat, occupied, player_ids,
    seats_ok, seek_seat, step_unit, survivors, transfer_city, unit_index, SessionView,
};

verus! {

/// Every unit has hit points within its maximum and no more movement than its type gives.
pub open spec fn units_sound(s: SessionView) -> bool {
    forall|i: int|
        0 <= i < s.units.len() ==> (#[trigger] s.units[i]).hp <= s.units[i].max_hp
            && s.units[i].movement_remaining <= type_base_movement(s.units[i].unit_type)
}

/// No two units share a tile.
pub open spec fn tiles_unshared(units: Seq<UnitView>) -> bool {
    forall|i: int, j: int|
        0 <= i < units.len() && 0 <= j < units.len() && i != j ==> !(#[trigger] units[i].q
            == #[trigger] units[j].q && units[i].r == units[j].r)
}

/// No two units share an id.
pub open spec fn unit_ids_unique(units: Seq<UnitView>) -> bool {
    forall|i: int, j: int|
        0 <= i < units.len() && 0 <= j < units.len() && i != j ==> #[trigger] units[i].id
            != #[trigger] units[j].id
}

/// Every unit belongs to a player that is still in the game.
pub open spec fn units_owned(s: SessionView) -> bool {
    forall|i: int| 0 <= i < s.units.len() ==> is_active(s, (#[trigger] s.units[i]).owner_id)
}

/// Every city belongs to a player that is still in the game.
pub open spec fn cities_owned(s: SessionView) -> bool {
    forall|k: int| 0 <= k < s.cities.len() ==> is_active(s, (#[trigger] s.cities[k]).owner_id)
}

/// A victory names the one player that is left.
pub open spec fn victory_sound(s: SessionView) -> bool {
    s.status matches StatusView::Victory(w) ==> survivors(s.players, s.eliminated) == seq![w]
}

/// While the game goes on, the seat to move belongs to a player still in the game.
pub open spec fn turn_held(s: SessionView) -> bool {
    s.status is InProgress ==> is_active(s, s.players[s.current_turn as int].id)
}

/// The invariant of every reachable session, but for whose turn it is.
pub open spec fn session_sound(s: SessionView) -> bool {
    &&& seats_ok(s)
    &&& player_ids(s.players).no_duplicates()
    &&& units_sound(s)
    &&& tiles_unshared(s.units)
    &&& unit_ids_unique(s.units)
    &&& units_owned(s)
    &&& cities_owned(s)
    &&& victory_sound(s)
}

/// The full invariant of a session.
pub open spec fn session_wf(s: SessionView) -> bool {
    session_sound(s) && turn_held(s)
}

/// Keeping some of the units keeps them on distinct tiles.
pub proof fn lemma_filter_unshared(units: Seq<UnitView>, pred: spec_fn(UnitView) -> bool)
    requires
        tiles_unshared(units),
    ensures
        tiles_unshared(units.filter(pred)),
    decreases units.len(),
{
    broadcast use vstd::seq_lib::group_filter_ensures;

    reveal(Seq::filter);
    if units.len() > 0 {
        let init = units.drop_last();
        let last = units.last();
        assert forall|i: int, j: int|
            0 <= i < init.len() && 0 <= j < init.len() && i != j implies !(#[trigger] init[i].q
            == #[trigger] init[j].q && init[i].r == init[j].r) by {
            assert(init[i] == units[i] && init[j] == units[j]);
        }
        lemma_filter_unshared(init, pred);
        let f = init.filter(pred);
        if pred(last) {
            let g = f.push(last);
            assert(units.filter(pred) == g);
            assert forall|i: int, j: int|
                0 <= i < g.len() && 0 <= j < g.len() && i != j implies !(#[trigger] g[i].q
                == #[trigger] g[j].q && g[i].r == g[j].r) by {
                if i < f.len() && j < f.len() {
                    assert(g[i] == f[i] && g[j] == f[j]);
                } else {
                    let k = if i < f.len() {
                        i
                    } else {
                        j
                    };
                    assert(g[k] == f[k]);
                    assert(f.contains(f[k]));
                    init.lemma_filter_contains_rev(pred, f[k]);
                    let m = choose|m: int| 0 <= m < init.len() && init[m] == f[k];
                    assert(units[m] == f[k]);
                    assert(units[units.len() - 1] == last);
                }
            }
        }
    }
}

/// Keeping some of the units keeps their ids distinct.
pub proof fn lemma_filter_ids(units: Seq<UnitView>, pred: spec_fn(UnitView) -> bool)
    requires
        unit_ids_unique(units),
    ensures
        unit_ids_unique(units.filter(pred)),
    decreases units.len(),
{
    broadcast use vstd::seq_lib::group_filter_ensures;

    reveal(Seq::filter);
    if units.len() > 0 {
        let init = units.drop_last();
        let last = units.last();
        assert forall|i: int, j: int|
            0 <= i < init.len() && 0 <= j < init.len() && i != j implies #[trigger] init[i].id
            != #[trigger] init[j].id by {
            assert(init[i] == units[i] && init[j] == units[j]);
        }
        lemma_filter_ids(init, pred);
        let f = init.filter(pred);
        if pred(last) {
            let g = f.push(last);
            assert(units.filter(pred) == g);
            assert forall|i: int, j: int|
                0 <= i < g.len() && 0 <= j < g.len() && i != j implies #[trigger] g[i].id
                != #[trigger] g[j].id by {
                if i < f.len() && j < f.len() {
                    assert(g[i] == f[i] && g[j] == f[j]);
                } else {
                    let k = if i < f.len() {
                        i
                    } else {
                        j
                    };
                    assert(g[k] == f[k]);
                    assert(f.contains(f[k]));
                    init.lemma_filter_contains_rev(pred, f[k]);
                    let m = choose|m: int| 0 <= m < init.len() && init[m] == f[k];
                    assert(units[m] == f[k]);
                    assert(units[units.len() - 1] == last);
                }
            }
        }
    }
}

/// A capture by a player still in the game keeps the session sound; when the captor
/// holds the turn, the turn stays with a player still in the game.
pub proof fn lemma_capture_sound(s: SessionView, q: i32, r: i32, new_owner: Seq<char>)
    requires
        session_sound(s),
        is_active(s, new_owner),
    ensures
        session_sound(capture(s, q, r, new_owner).0),
        turn_held(s) && new_owner == s.players[s.current_turn as int].id ==> turn_held(
            capture(s, q, r, new_owner).0,
        ),
{
    broadcast use vstd::seq_lib::group_filter_ensures;

    let s2 = capture(s, q, r, new_owner).0;
    let k = crate::session::city_index_at(s.cities, q, r);
    crate::session::lemma_first_from(s.cities, |c: crate::model::CityView| c.q == q && c.r == r, 0);
    if k >= 0 && s.cities[k].owner_id != new_owner {
        let old_owner = s.cities[k].owner_id;
        assert(is_active(s, old_owner));
        if s.cities[k].is_capitol {
            let elim = s.eliminated.push(old_owner);
            assert forall|id: Seq<char>| #[trigger] elim.contains(id) implies s.eliminated.contains(
                id,
            ) || id == old_owner by {
                let m = choose|m: int| 0 <= m < elim.len() && elim[m] == id;
                if m < s.eliminated.len() {
                    assert(s.eliminated[m] == id);
                }
            }
            assert(elim[s.eliminated.len() as int] == old_owner);
            let pred = |u: UnitView| u.owner_id != old_owner;
            lemma_filter_unshared(s.units, pred);
            lemma_filter_ids(s.units, pred);
            assert forall|i: int| 0 <= i < s2.units.len() implies (#[trigger] s2.units[i]).hp
                <= s2.units[i].max_hp && s2.units[i].movement_remaining <= type_base_movement(
                s2.units[i].unit_type,
            ) && is_active(s2, s2.units[i].owner_id) by {
                assert(s2.units == s.units.filter(pred));
                assert(s.units.filter(pred).contains(s2.units[i]));
                s.units.lemma_filter_contains_rev(pred, s2.units[i]);
                let m = choose|m: int| 0 <= m < s.units.len() && s.units[m] == s2.units[i];
                assert(s.units[m] == s2.units[i]);
                assert(pred(s2.units[i]));
            }
            assert forall|j: int| 0 <= j < s2.cities.len() implies is_active(
                s2,
                (#[trigger] s2.cities[j]).owner_id,
            ) by {
                assert(s2.cities[j] == transfer_city(s.cities[j], old_owner, new_owner, q, r));
                assert(is_active(s, s.cities[j].owner_id));
            }
            let rest = survivors(s.players, elim);
            if rest.len() != 1 {
                if s.status is Victory {
                    let w = s.status->Victory_0;
                    let before = survivors(s.players, s.eliminated);
                    let pi = choose|pi: int|
                        0 <= pi < player_ids(s.players).len() && player_ids(s.players)[pi]
                            == old_owner;
                    let pj = choose|pj: int|
                        0 <= pj < player_ids(s.players).len() && player_ids(s.players)[pj]
                            == new_owner;
                    player_ids(s.players).lemma_filter_contains(
                        |id: Seq<char>| !s.eliminated.contains(id),
                        pi,
                    );
                    player_ids(s.players).lemma_filter_contains(
                        |id: Seq<char>| !s.eliminated.contains(id),
                        pj,
                    );
                    assert(before.contains(old_owner));
                    assert(before.contains(new_owner));
                    assert(before == seq![w]);
                    assert(false);
                }
            } else {
                assert(rest.contains(rest[0]));
                assert(rest =~= seq![rest[0]]);
            }
            if turn_held(s) && new_owner == s.players[s.current_turn as int].id {
                assert(player_ids(s.players)[s.current_turn as int] == new_owner);
            }
        } else {
            assert forall|j: int| 0 <= j < s2.cities.len() implies is_active(
                s2,
                (#[trigger] s2.cities[j]).owner_id,
            ) by {
                if j != k {
                    assert(s2.cities[j] == s.cities[j]);
                }
            }
        }
    }
}

/// Removing a unit keeps each of these: the units sound, on distinct tiles (the removed
/// unit's tile then free), owned.
pub proof fn lemma_remove_sound(s: SessionView, i: int)
    requires
        0 <= i < s.units.len(),
    ensures
        units_sound(s) ==> units_sound(SessionView { units: s.units.remove(i), ..s }),
        tiles_unshared(s.units) ==> tiles_unshared(s.units.remove(i)) && !occupied(
            s.units.remove(i),
            s.units[i].q,
            s.units[i].r,
        ),
        units_owned(s) ==> units_owned(SessionView { units: s.units.remove(i), ..s }),
        unit_ids_unique(s.units) ==> unit_ids_unique(s.units.remove(i)),
{
    let u = s.units.remove(i);
    assert forall|j: int| 0 <= j < u.len() implies #[trigger] u[j] == s.units[if j < i {
        j
    } else {
        j + 1
    }] by {}
    if tiles_unshared(s.units) {
        assert forall|a: int, b: int|
            0 <= a < u.len() && 0 <= b < u.len() && a != b implies !(#[trigger] u[a].q
            == #[trigger] u[b].q && u[a].r == u[b].r) by {
            let a2 = if a < i {
                a
            } else {
                a + 1
            };
            let b2 = if b < i {
                b
            } else {
                b + 1
            };
            assert(u[a] == s.units[a2] && u[b] == s.units[b2]);
        }
        assert forall|j: int| 0 <= j < u.len() implies !(u[j].q == s.units[i].q && u[j].r
            == s.units[i].r) by {
            let j2 = if j < i {
                j
            } else {
                j + 1
            };
            assert(u[j] == s.units[j2]);
        }
    }
    if unit_ids_unique(s.units) {
        assert forall|a: int, b: int|
            0 <= a < u.len() && 0 <= b < u.len() && a != b implies #[trigger] u[a].id
            != #[trigger] u[b].id by {
            let a2 = if a < i {
                a
            } else {
                a + 1
            };
            let b2 = if b < i {
                b
            } else {
                b + 1
            };
            assert(u[a] == s.units[a2] && u[b] == s.units[b2]);
        }
    }
    if units_sound(s) {
        assert forall|j: int| 0 <= j < u.len() implies (#[trigger] u[j]).hp <= u[j].max_hp
            && u[j].movement_remaining <= type_base_movement(u[j].unit_type) by {
            let j2 = if j < i {
                j
            } else {
                j + 1
            };
            assert(u[j] == s.units[j2]);
        }
    }
    if units_owned(s) {
        assert forall|j: int| 0 <= j < u.len() implies is_active(
            SessionView { units: u, ..s },
            (#[trigger] u[j]).owner_id,
        ) by {
            let j2 = if j < i {
                j
            } else {
                j + 1
            };
            assert(u[j] == s.units[j2]);
            assert(is_active(s, s.units[j2].owner_id));
        }
    }
}

/// A legal move keeps the session sound, and keeps the turn with a player in the game
/// when the mover belongs to the player to move.
pub proof fn lemma_move_sound(s: SessionView, unit_id: Seq<char>, q: i32, r: i32)
    requires
        session_sound(s),
        move_spec(s, unit_id, q, r) is Ok,
    ensures
        session_sound(move_spec(s, unit_id, q, r)->Ok_0.0),
        turn_held(s) && s.units[unit_index(s.units, unit_id)].owner_id == s.players[s.current_turn as int].id
            ==> turn_held(move_spec(s, unit_id, q, r)->Ok_0.0),
{
    let i = unit_index(s.units, unit_id);
    lemma_first_from(s.units, |u: UnitView| u.id == unit_id, 0);
    let c = move_check(s, unit_id, q, r)->Ok_0;
    let s1 = step_unit(s, i, q, r, c);
    assert forall|j: int| 0 <= j < s.units.len() && j != i implies #[trigger] s1.units[j]
        == s.units[j] by {}
    assert forall|a: int, b: int|
        0 <= a < s1.units.len() && 0 <= b < s1.units.len() && a != b implies !(
        #[trigger] s1.units[a].q == #[trigger] s1.units[b].q && s1.units[a].r == s1.units[b].r) by {
        if a == i {
            assert(!(s.units[b].q == q && s.units[b].r == r));
        } else if b == i {
            assert(!(s.units[a].q == q && s.units[a].r == r));
        }
    }
    assert(units_sound(s1)) by {
        assert forall|j: int| 0 <= j < s1.units.len() implies (#[trigger] s1.units[j]).hp
            <= s1.units[j].max_hp && s1.units[j].movement_remaining <= type_base_movement(
            s1.units[j].unit_type,
        ) by {
            assert(s.units[j].hp <= s.units[j].max_hp);
        }
    }
    assert(units_owned(s1)) by {
        assert forall|j: int| 0 <= j < s1.units.len() implies is_active(
            s1,
            (#[trigger] s1.units[j]).owner_id,
        ) by {
            assert(is_active(s, s.units[j].owner_id));
        }
    }
    assert(is_active(s, s.units[i].owner_id));
    lemma_capture_sound(s1, q, r, s.units[i].owner_id);
}

/// A legal move lands the unit on the chosen tile.
pub proof fn lemma_checked_move_lands(s: SessionView, unit_id: Seq<char>, q: i32, r: i32)
    requires
        move_check(s, unit_id, q, r) is Ok,
    ensures
        move_spec(s, unit_id, q, r) is Ok,
        exists|k: int|
            0 <= k < move_spec(s, unit_id, q, r)->Ok_0.0.units.len() && #[trigger] move_spec(
                s,
                unit_id,
                q,
                r,
            )->Ok_0.0.units[k].id == unit_id && move_spec(s, unit_id, q, r)->Ok_0.0.units[k].q
                == q && move_spec(s, unit_id, q, r)->Ok_0.0.units[k].r == r,
{
    broadcast use vstd::seq_lib::group_filter_ensures;

    let i = unit_index(s.units, unit_id);
    lemma_first_from(s.units, |u: UnitView| u.id == unit_id, 0);
    let c = move_check(s, unit_id, q, r)->Ok_0;
    let s1 = step_unit(s, i, q, r, c);
    let owner = s.units[i].owner_id;
    let s2 = capture(s1, q, r, owner).0;
    let k = crate::session::city_index_at(s1.cities, q, r);
    if k >= 0 && s1.cities[k].owner_id != owner && s1.cities[k].is_capitol {
        let old_owner = s1.cities[k].owner_id;
        let pred = |u: UnitView| u.owner_id != old_owner;
        assert(pred(s1.units[i]));
        s1.units.lemma_filter_contains(pred, i);
        assert(s2.units.contains(s1.units[i]));
        let m = choose|m: int| 0 <= m < s2.units.len() && s2.units[m] == s1.units[i];
        assert(s2.units[m].id == unit_id);
    } else {
        assert(s2.units[i].id == unit_id);
    }
}

/// Fortifying keeps the session, turn included, well formed.
pub proof fn lemma_fortify_wf(s: SessionView, unit_id: Seq<char>)
    requires
        session_wf(s),
        fortify_spec(s, unit_id) is Ok,
    ensures
        session_wf(fortify_spec(s, unit_id)->Ok_0.0),
{
    let i = unit_index(s.units, unit_id);
    lemma_first_from(s.units, |u: UnitView| u.id == unit_id, 0);
    let s1 = fortify_spec(s, unit_id)->Ok_0.0;
    assert forall|j: int| 0 <= j < s.units.len() && j != i implies #[trigger] s1.units[j]
        == s.units[j] by {}
    assert(tiles_unshared(s1.units)) by {
        assert forall|a: int, b: int|
            0 <= a < s1.units.len() && 0 <= b < s1.units.len() && a != b implies !(
            #[trigger] s1.units[a].q == #[trigger] s1.units[b].q && s1.units[a].r
                == s1.units[b].r) by {
            assert(s1.units[a].q == s.units[a].q && s1.units[a].r == s.units[a].r);
            assert(s1.units[b].q == s.units[b].q && s1.units[b].r == s.units[b].r);
        }
    }
    assert(units_owned(s1)) by {
        assert forall|j: int| 0 <= j < s1.units.len() implies is_active(
            s1,
            (#[trigger] s1.units[j]).owner_id,
        ) by {
            assert(is_active(s, s.units[j].owner_id));
        }
    }
}

/// A purchase keeps the session, turn included, well formed.
pub proof fn lemma_buy_wf(
    s: SessionView,
    player_id: Seq<char>,
    city_id: Seq<char>,
    ty: crate::model::UnitType,
    token: u64,
)
    requires
        session_wf(s),
        buy_spec(s, player_id, city_id, ty, token) is Ok,
    ensures
        session_wf(buy_spec(s, player_id, city_id, ty, token)->Ok_0.0),
{
    let s1 = buy_spec(s, player_id, city_id, ty, token)->Ok_0.0;
    let ci = crate::session::city_index_of(s.cities, city_id);
    lemma_first_from(s.cities, |c: crate::model::CityView| c.id == city_id, 0);
    let pi = crate::session::player_index(s.players, player_id);
    lemma_first_from(s.players, |p: crate::model::PlayerView| p.id == player_id, 0);
    let c = s.cities[ci];
    assert(is_active(s, c.owner_id));
    let n = s.units.len();
    assert forall|j: int| 0 <= j < n implies #[trigger] s1.units[j] == s.units[j] by {}
    assert(tiles_unshared(s1.units)) by {
        assert forall|a: int, b: int|
            0 <= a < s1.units.len() && 0 <= b < s1.units.len() && a != b implies !(
            #[trigger] s1.units[a].q == #[trigger] s1.units[b].q && s1.units[a].r
                == s1.units[b].r) by {
            if a == n {
                assert(!(s.units[b].q == c.q && s.units[b].r == c.r));
            } else if b == n {
                assert(!(s.units[a].q == c.q && s.units[a].r == c.r));
            }
        }
    }
    assert(unit_ids_unique(s1.units)) by {
        let nid = crate::session::unit_token_id(player_id, token);
        lemma_first_from(s.units, |u: UnitView| u.id == nid, 0);
        assert forall|a: int, b: int|
            0 <= a < s1.units.len() && 0 <= b < s1.units.len() && a != b implies
            #[trigger] s1.units[a].id != #[trigger] s1.units[b].id by {
            if a == n {
                assert(s.units[b].id != nid);
            } else if b == n {
                assert(s.units[a].id != nid);
            }
        }
    }
    assert(units_owned(s1)) by {
        assert forall|j: int| 0 <= j < s1.units.len() implies is_active(
            s1,
            (#[trigger] s1.units[j]).owner_id,
        ) by {
            if j < n {
                assert(is_active(s, s.units[j].owner_id));
            }
        }
    }
    assert(units_sound(s1)) by {
        assert forall|j: int| 0 <= j < s1.units.len() implies (#[trigger] s1.units[j]).hp
            <= s1.units[j].max_hp && s1.units[j].movement_remaining <= type_base_movement(
            s1.units[j].unit_type,
        ) by {
            if j < n {
                assert(s.units[j].hp <= s.units[j].max_hp);
            }
        }
    }
    assert(cities_owned(s1)) by {
        assert forall|k: int| 0 <= k < s1.cities.len() implies is_active(
            s1,
            (#[trigger] s1.cities[k]).owner_id,
        ) by {
            assert(is_active(s, s.cities[k].owner_id));
        }
    }
}

/// The seat search ends on a player still in the game when it starts from one.
pub proof fn lemma_seek_active(
    players: Seq<crate::model::PlayerView>,
    eliminated: Seq<Seq<char>>,
    cur: int,
    t: int,
    fuel: nat,
)
    requires
        0 <= cur < players.len(),
        0 <= t < players.len(),
        !eliminated.contains(players[cur].id),
    ensures
        0 <= seek_seat(players, eliminated, cur, t, fuel) < players.len(),
        !eliminated.contains(players[seek_seat(players, eliminated, cur, t, fuel)].id),
    decreases fuel,
{
    if fuel > 0 {
        let t2 = crate::session::following_seat(t, players.len() as int);
        if eliminated.contains(players[t2].id) && t2 != cur {
            lemma_seek_active(players, eliminated, cur, t2, (fuel - 1) as nat);
        }
    }
}

/// Ending a turn keeps the session, turn included, well formed.
pub proof fn lemma_end_turn_wf(s: SessionView, time_used: u64)
    requires
        session_wf(s),
    ensures
        session_wf(end_turn_spec(s, time_used)),
{
    let s1 = end_turn_spec(s, time_used);
    let cur = s.current_turn as int;
    let next = next_seat(s);
    if s.status is InProgress {
        assert(player_ids(s.players)[cur] == s.players[cur].id);
        lemma_seek_active(s.players, s.eliminated, cur, cur, s.players.len());
        assert(player_ids(s.players)[next] == s.players[next].id);
        assert(player_ids(s.players).contains(s.players[next].id));
        assert(s1.players[s1.current_turn as int].id == s.players[next].id);
    } else {
        assert(0 <= next < s.players.len()) by {
            lemma_seek_range(s.players, s.eliminated, cur, cur, s.players.len());
        }
    }
    assert forall|j: int| 0 <= j < s1.units.len() implies #[trigger] s1.units[j].q
        == s.units[j].q && s1.units[j].r == s.units[j].r && s1.units[j].owner_id
        == s.units[j].owner_id && s1.units[j].hp == s.units[j].hp && s1.units[j].max_hp
        == s.units[j].max_hp && s1.units[j].movement_remaining <= type_base_movement(
        s1.units[j].unit_type,
    ) by {
        assert(s.units[j].hp <= s.units[j].max_hp);
    }
    assert(tiles_unshared(s1.units)) by {
        assert forall|a: int, b: int|
            0 <= a < s1.units.len() && 0 <= b < s1.units.len() && a != b implies !(
            #[trigger] s1.units[a].q == #[trigger] s1.units[b].q && s1.units[a].r
                == s1.units[b].r) by {
            assert(s1.units[a].q == s.units[a].q && s1.units[b].q == s.units[b].q);
        }
    }
    assert(units_owned(s1)) by {
        assert forall|j: int| 0 <= j < s1.units.len() implies is_active(
            s1,
            (#[trigger] s1.units[j]).owner_id,
        ) by {
            assert(is_active(s, s.units[j].owner_id));
        }
    }
    assert(cities_owned(s1)) by {
        assert forall|k: int| 0 <= k < s1.cities.len() implies is_active(
            s1,
            (#[trigger] s1.cities[k]).owner_id,
        ) by {
            assert(is_active(s, s.cities[k].owner_id));
        }
    }
}

/// The seat search stays within the table.
pub proof fn lemma_seek_range(
    players: Seq<crate::model::PlayerView>,
    eliminated: Seq<Seq<char>>,
    cur: int,
    t: int,
    fuel: nat,
)
    requires
        0 <= cur < players.len(),
        0 <= t < players.len(),
    ensures
        0 <= seek_seat(players, eliminated, cur, t, fuel) < players.len(),
    decreases fuel,
{
    if fuel > 0 {
        let t2 = crate::session::following_seat(t, players.len() as int);
        if eliminated.contains(players[t2].id) && t2 != cur {
            lemma_seek_range(players, eliminated, cur, t2, (fuel - 1) as nat);
        }
    }
}

/// Units in the same places with the same owners, and no more hit points or movement.
pub open spec fn same_places(before: Seq<UnitView>, after: Seq<UnitView>) -> bool {
    &&& after.len() == before.len()
    &&& forall|j: int|
        0 <= j < after.len() ==> (#[trigger] after[j]).q == before[j].q && after[j].id
            == before[j].id && after[j].r
            == before[j].r && after[j].owner_id == before[j].owner_id && after[j].unit_type
            == before[j].unit_type && after[j].max_hp == before[j].max_hp && after[j].hp
            <= before[j].hp && after[j].movement_remaining <= before[j].movement_remaining
}

/// Wounding units and spending their movement in place keeps them sound.
pub proof fn lemma_same_places_sound(s: SessionView, after: Seq<UnitView>)
    requires
        units_sound(s),
        tiles_unshared(s.units),
        units_owned(s),
        same_places(s.units, after),
    ensures
        units_sound(SessionView { units: after, ..s }),
        tiles_unshared(after),
        units_owned(SessionView { units: after, ..s }),
        unit_ids_unique(s.units) ==> unit_ids_unique(after),
{
    let s1 = SessionView { units: after, ..s };
    assert forall|a: int, b: int|
        0 <= a < after.len() && 0 <= b < after.len() && a != b && unit_ids_unique(
            s.units,
        ) implies #[trigger] after[a].id != #[trigger] after[b].id by {
        assert(after[a].id == s.units[a].id && after[b].id == s.units[b].id);
    }
    assert forall|a: int, b: int|
        0 <= a < after.len() && 0 <= b < after.len() && a != b implies !(#[trigger] after[a].q
        == #[trigger] after[b].q && after[a].r == after[b].r) by {
        assert(after[a].q == s.units[a].q && after[b].q == s.units[b].q);
    }
    assert forall|j: int| 0 <= j < after.len() implies is_active(s1, (#[trigger] after[j]).owner_id)
        && after[j].hp <= after[j].max_hp && after[j].movement_remaining <= type_base_movement(
        after[j].unit_type,
    ) by {
        assert(is_active(s, s.units[j].owner_id));
        assert(s.units[j].hp <= s.units[j].max_hp);
    }
}

/// An attack keeps the session sound, and keeps the turn with a player in the game when
/// the attacker belongs to the player to move.
pub proof fn lemma_combat_sound(s: SessionView, attacker_id: Seq<char>, defender_id: Seq<char>)
    requires
        session_sound(s),
        combat_spec(s, attacker_id, defender_id) is Ok,
    ensures
        session_sound(combat_spec(s, attacker_id, defender_id)->Ok_0.0),
        turn_held(s) && s.units[unit_index(s.units, attacker_id)].owner_id
            == s.players[s.current_turn as int].id ==> turn_held(
            combat_spec(s, attacker_id, defender_id)->Ok_0.0,
        ),
{
    let ai = unit_index(s.units, attacker_id);
    let di = unit_index(s.units, defender_id);
    lemma_first_from(s.units, |u: UnitView| u.id == attacker_id, 0);
    lemma_first_from(s.units, |u: UnitView| u.id == defender_id, 0);
    let a = s.units[ai];
    let d = s.units[di];
    assert(ai != di);
    let to_defender = crate::session::strike(
        crate::model::type_attack(a.unit_type),
        crate::session::defense_of(s, d),
    );
    let to_attacker = (crate::session::strike(
        crate::model::type_attack(d.unit_type),
        crate::model::type_defense(a.unit_type),
    ) / 2) as u32;
    let d_hp = crate::session::sat_sub32(d.hp, to_defender);
    let a_hp = crate::session::sat_sub32(a.hp, to_attacker);
    let u1 = s.units.update(di, UnitView { hp: d_hp, ..d }).update(
        ai,
        UnitView { hp: a_hp, movement_remaining: 0, ..a },
    );
    assert(same_places(s.units, u1));
    lemma_same_places_sound(s, u1);
    let s_1 = SessionView { units: u1, ..s };
    let d_dead = d_hp == 0;
    let a_dead = a_hp == 0;
    let u2 = if d_dead {
        u1.remove(di)
    } else {
        u1
    };
    let ai2 = if d_dead && di < ai {
        ai - 1
    } else {
        ai
    };
    if d_dead {
        lemma_remove_sound(s_1, di);
    }
    let s_2 = SessionView { units: u2, ..s };
    assert(0 <= ai2 < u2.len() && u2[ai2] == u1[ai]);
    let u3 = if a_dead {
        u2.remove(ai2)
    } else {
        u2
    };
    if a_dead {
        lemma_remove_sound(s_2, ai2);
    }
    let s_3 = SessionView { units: u3, ..s };
    assert(is_active(s, a.owner_id));
    if d_dead && !a_dead {
        let u4 = u3.update(ai2, UnitView { q: d.q, r: d.r, ..u3[ai2] });
        let s_4 = SessionView { units: u4, ..s };
        assert(u1[di].q == d.q && u1[di].r == d.r);
        assert(!occupied(u2, d.q, d.r));
        assert forall|x: int, y: int|
            0 <= x < u4.len() && 0 <= y < u4.len() && x != y implies !(#[trigger] u4[x].q
            == #[trigger] u4[y].q && u4[x].r == u4[y].r) by {
            if x == ai2 {
                assert(!(u2[y].q == d.q && u2[y].r == d.r));
            } else if y == ai2 {
                assert(!(u2[x].q == d.q && u2[x].r == d.r));
            } else {
                assert(u4[x] == u2[x] && u4[y] == u2[y]);
            }
        }
        assert forall|j: int| 0 <= j < u4.len() implies is_active(s_4, (#[trigger] u4[j]).owner_id)
            && u4[j].hp <= u4[j].max_hp && u4[j].movement_remaining <= type_base_movement(
            u4[j].unit_type,
        ) by {
            assert(is_active(s_2, u2[j].owner_id));
            assert(u2[j].hp <= u2[j].max_hp);
        }
        assert forall|x: int, y: int|
            0 <= x < u4.len() && 0 <= y < u4.len() && x != y implies #[trigger] u4[x].id
            != #[trigger] u4[y].id by {
            assert(u4[x].id == u2[x].id && u4[y].id == u2[y].id);
        }
        assert(session_sound(s_4));
        lemma_capture_sound(s_4, d.q, d.r, a.owner_id);
    }
}

/// A unit with a single movement point cannot climb a mountain; with two it climbs it and
/// has none left.
pub proof fn lemma_mountain_costs_two(s: SessionView, unit_id: Seq<char>, q: i32, r: i32)
    requires
        unit_index(s.units, unit_id) >= 0,
        crate::session::terrain_at(s.tiles, q, r) == Some(crate::hex::Terrain::Mountain),
        hex_dist(
            s.units[unit_index(s.units, unit_id)].q as int,
            s.units[unit_index(s.units, unit_id)].r as int,
            q as int,
            r as int,
        ) == 1,
    ensures
        s.units[unit_index(s.units, unit_id)].movement_remaining == 1 ==> move_check(
            s,
            unit_id,
            q,
            r,
        ) == Err::<u32, Seq<char>>("Not enough movement remaining"@),
        s.units[unit_index(s.units, unit_id)].movement_remaining == 2 && !occupied(s.units, q, r)
            ==> move_spec(s, unit_id, q, r) is Ok && move_spec(s, unit_id, q, r)->Ok_0.1.0 == 0,
{
}

/// A turn that overdraws the clock leaves exactly the increment on it.
pub proof fn lemma_overdrawn_clock(s: SessionView, time_used: u64)
    requires
        seats_ok(s),
        time_used > s.times[s.current_turn as int],
    ensures
        end_turn_spec(s, time_used).times[s.current_turn as int] == s.increment_ms,
{
}

/// Keeping the ids outside `e` and then those other than `o` keeps those outside `e + [o]`.
proof fn lemma_survivors_push(ids: Seq<Seq<char>>, e: Seq<Seq<char>>, o: Seq<char>)
    ensures
        ids.filter(|x: Seq<char>| !e.push(o).contains(x)) == ids.filter(
            |x: Seq<char>| !e.contains(x),
        ).filter(|x: Seq<char>| x != o),
    decreases ids.len(),
{
    let outside_more = |x: Seq<char>| !e.push(o).contains(x);
    let outside = |x: Seq<char>| !e.contains(x);
    let other = |x: Seq<char>| x != o;
    if ids.len() == 0 {
        reveal(Seq::filter);
    } else {
        let init = ids.drop_last();
        let last = ids.last();
        lemma_survivors_push(init, e, o);
        assert(init.push(last) =~= ids);
        init.lemma_filter_push(last, outside_more);
        init.lemma_filter_push(last, outside);
        init.filter(outside).lemma_filter_push(last, other);
        assert(e.push(o).contains(last) <==> e.contains(last) || last == o) by {
            if e.push(o).contains(last) {
                let m = choose|m: int| 0 <= m < e.push(o).len() && e.push(o)[m] == last;
                if m < e.len() {
                    assert(e[m] == last);
                }
            }
            if e.contains(last) {
                let m = choose|m: int| 0 <= m < e.len() && e[m] == last;
                assert(e.push(o)[m] == last);
            }
            if last == o {
                assert(e.push(o)[e.len() as int] == o);
            }
        }
    }
}

/// Taking the capitol of one of the last two players wins the game for the captor.
pub proof fn lemma_last_capitol_wins(s: SessionView, q: i32, r: i32, new_owner: Seq<char>)
    requires
        cities_owned(s),
        survivors(s.players, s.eliminated).len() == 2,
        is_active(s, new_owner),
        crate::session::city_index_at(s.cities, q, r) >= 0,
        s.cities[crate::session::city_index_at(s.cities, q, r)].is_capitol,
        s.cities[crate::session::city_index_at(s.cities, q, r)].owner_id != new_owner,
    ensures
        capture(s, q, r, new_owner).0.status == StatusView::Victory(new_owner),
{
    broadcast use vstd::seq_lib::group_filter_ensures;

    let k = crate::session::city_index_at(s.cities, q, r);
    crate::session::lemma_first_from(s.cities, |c: crate::model::CityView| c.q == q && c.r == r, 0);
    let o = s.cities[k].owner_id;
    assert(is_active(s, o));
    let ids = player_ids(s.players);
    let keep = |x: Seq<char>| !s.eliminated.contains(x);
    let f = ids.filter(keep);
    let pi = choose|pi: int| 0 <= pi < ids.len() && ids[pi] == o;
    let pj = choose|pj: int| 0 <= pj < ids.len() && ids[pj] == new_owner;
    ids.lemma_filter_contains(keep, pi);
    ids.lemma_filter_contains(keep, pj);
    assert(f.contains(o) && f.contains(new_owner));
    lemma_survivors_push(ids, s.eliminated, o);
    let g = f.filter(|x: Seq<char>| x != o);
    assert(f =~= seq![f[0], f[1]]);
    reveal_with_fuel(Seq::filter, 3);
    assert(seq![f[0], f[1]].drop_last() =~= seq![f[0]]);
    assert(seq![f[0]].drop_last() =~= Seq::<Seq<char>>::empty());
    if f[0] == o {
        assert(f[1] == new_owner);
        assert(g =~= seq![new_owner]);
    } else {
        assert(f[0] == new_owner);
        assert(f[1] == o);
        assert(g =~= seq![new_owner]);
    }
    assert(survivors(s.players, s.eliminated.push(o)) == g);
}

/// How many cities `id` owns.
pub open spec fn owned_by(cities: Seq<crate::model::CityView>, id: Seq<char>) -> nat {
    cities.filter(|c: crate::model::CityView| c.owner_id == id).len()
}

/// The cities owned, summed over the ids in `ids`.
pub open spec fn total_owned(ids: Seq<Seq<char>>, cities: Seq<crate::model::CityView>) -> nat
    decreases ids.len(),
{
    if ids.len() == 0 {
        0
    } else {
        total_owned(ids.drop_last(), cities) + owned_by(cities, ids.last())
    }
}

/// How often `x` occurs in `ids`.
pub open spec fn occurrences(ids: Seq<Seq<char>>, x: Seq<char>) -> nat
    decreases ids.len(),
{
    if ids.len() == 0 {
        0
    } else {
        occurrences(ids.drop_last(), x) + if ids.last() == x {
            1nat
        } else {
            0nat
        }
    }
}

proof fn lemma_total_push(ids: Seq<Seq<char>>, cities: Seq<crate::model::CityView>, c: crate::model::CityView)
    ensures
        total_owned(ids, cities.push(c)) == total_owned(ids, cities) + occurrences(ids, c.owner_id),
    decreases ids.len(),
{
    if ids.len() > 0 {
        lemma_total_push(ids.drop_last(), cities, c);
        cities.lemma_filter_push(c, |x: crate::model::CityView| x.owner_id == ids.last());
    }
}

proof fn lemma_single_occurrence(ids: Seq<Seq<char>>, x: Seq<char>)
    requires
        ids.no_duplicates(),
        ids.contains(x),
    ensures
        occurrences(ids, x) == 1,
    decreases ids.len(),
{
    let init = ids.drop_last();
    assert(init.no_duplicates()) by {
        assert forall|i: int, j: int| 0 <= i < init.len() && 0 <= j < init.len() && i != j implies init[i] != init[j] by {
            assert(init[i] == ids[i] && init[j] == ids[j]);
        }
    }
    if ids.last() == x {
        assert forall|i: int| 0 <= i < init.len() implies init[i] != x by {
            assert(init[i] == ids[i]);
            assert(ids[ids.len() - 1] == x);
        }
        lemma_no_occurrence(init, x);
    } else {
        let m = choose|m: int| 0 <= m < ids.len() && ids[m] == x;
        assert(m < ids.len() - 1);
        assert(init[m] == x);
        lemma_single_occurrence(init, x);
    }
}

proof fn lemma_no_occurrence(ids: Seq<Seq<char>>, x: Seq<char>)
    requires
        forall|i: int| 0 <= i < ids.len() ==> ids[i] != x,
    ensures
        occurrences(ids, x) == 0,
    decreases ids.len(),
{
    if ids.len() > 0 {
        let init = ids.drop_last();
        assert forall|i: int| 0 <= i < init.len() implies init[i] != x by {
            assert(init[i] == ids[i]);
        }
        lemma_no_occurrence(init, x);
    }
}

/// Counted player by player, the cities add up to all cities on the map.
pub proof fn lemma_city_count(s: SessionView)
    requires
        player_ids(s.players).no_duplicates(),
        cities_owned(s),
    ensures
        total_owned(player_ids(s.players), s.cities) == s.cities.len(),
{
    lemma_city_count_of(player_ids(s.players), s.cities);
}

proof fn lemma_city_count_of(ids: Seq<Seq<char>>, cities: Seq<crate::model::CityView>)
    requires
        ids.no_duplicates(),
        forall|k: int| 0 <= k < cities.len() ==> ids.contains(#[trigger] cities[k].owner_id),
    ensures
        total_owned(ids, cities) == cities.len(),
    decreases cities.len(),
{
    if cities.len() == 0 {
        lemma_total_empty(ids, cities);
    } else {
        let init = cities.drop_last();
        let c = cities.last();
        assert forall|k: int| 0 <= k < init.len() implies ids.contains(#[trigger] init[k].owner_id) by {
            assert(init[k] == cities[k]);
        }
        lemma_city_count_of(ids, init);
        assert(init.push(c) =~= cities);
        lemma_total_push(ids, init, c);
        assert(ids.contains(cities[cities.len() - 1].owner_id));
        lemma_single_occurrence(ids, c.owner_id);
    }
}

proof fn lemma_total_empty(ids: Seq<Seq<char>>, cities: Seq<crate::model::CityView>)
    requires
        cities.len() == 0,
    ensures
        total_owned(ids, cities) == 0,
    decreases ids.len(),
{
    if ids.len() > 0 {
        lemma_total_empty(ids.drop_last(), cities);
        reveal(Seq::filter);
    }
}

/// Distinct players get distinct ids for their first units.
proof fn lemma_first_unit_id_injective(a: Seq<char>, b: Seq<char>)
    requires
        crate::session::first_unit_id(a) == crate::session::first_unit_id(b),
    ensures
        a == b,
{
    reveal_strlit("unit-");
    reveal_strlit("-0");
    let x = crate::session::first_unit_id(a);
    let y = crate::session::first_unit_id(b);
    assert(x.len() == a.len() + 7);
    assert(y.len() == b.len() + 7);
    assert(a =~= x.subrange(5, 5 + a.len() as int));
    assert(b =~= y.subrange(5, 5 + b.len() as int));
}

/// A session started from a lobby of distinct players on distinct starting positions is
/// well formed.
pub proof fn lemma_new_session_wf(
    lobby: crate::lobby::Lobby,
    tiles: Seq<crate::hex::Tile>,
    radius: u32,
    positions: Seq<(i32, i32)>,
)
    requires
        crate::lobby::lobby_ids(crate::model::player_views(lobby.players@)).no_duplicates(),
        lobby.players@.len() >= 1,
        positions.len() <= lobby.players@.len(),
        positions.no_duplicates(),
    ensures
        session_wf(crate::session::new_session(lobby, tiles, radius, positions)),
{
    let s = crate::session::new_session(lobby, tiles, radius, positions);
    let pv = crate::model::player_views(lobby.players@);
    assert(player_ids(s.players) =~= crate::lobby::lobby_ids(pv));
    assert(s.eliminated.len() == 0);
    assert forall|id: Seq<char>| !s.eliminated.contains(id) by {}
    assert forall|i: int| 0 <= i < positions.len() implies is_active(s, pv[i].id) by {
        assert(player_ids(s.players)[i] == pv[i].id);
    }
    assert forall|a: int, b: int|
        0 <= a < s.units.len() && 0 <= b < s.units.len() && a != b implies !(#[trigger] s.units[a].q
        == #[trigger] s.units[b].q && s.units[a].r == s.units[b].r) by {
        assert(positions[a] != positions[b]);
    }
    assert forall|a: int, b: int|
        0 <= a < s.units.len() && 0 <= b < s.units.len() && a != b implies #[trigger] s.units[a].id
        != #[trigger] s.units[b].id by {
        assert(crate::lobby::lobby_ids(pv)[a] == pv[a].id);
        assert(crate::lobby::lobby_ids(pv)[b] == pv[b].id);
        if s.units[a].id == s.units[b].id {
            lemma_first_unit_id_injective(pv[a].id, pv[b].id);
        }
    }
    assert forall|i: int| 0 <= i < s.units.len() implies is_active(s, (#[trigger] s.units[i]).owner_id) by {}
    assert forall|k: int| 0 <= k < s.cities.len() implies is_active(s, (#[trigger] s.cities[k]).owner_id) by {}
    assert(player_ids(s.players)[0] == pv[0].id);
    assert(lobby.players@.len() == lobby.players.len());
}

/// A capture keeps each of these on its own: unit bounds, distinct unit tiles.
pub proof fn lemma_capture_units(s: SessionView, q: i32, r: i32, new_owner: Seq<char>)
    ensures
        units_sound(s) ==> units_sound(capture(s, q, r, new_owner).0),
        tiles_unshared(s.units) ==> tiles_unshared(capture(s, q, r, new_owner).0.units),
{
    broadcast use vstd::seq_lib::group_filter_ensures;

    let s2 = capture(s, q, r, new_owner).0;
    let k = crate::session::city_index_at(s.cities, q, r);
    crate::session::lemma_first_from(s.cities, |c: crate::model::CityView| c.q == q && c.r == r, 0);
    if k >= 0 && s.cities[k].owner_id != new_owner && s.cities[k].is_capitol {
        let old_owner = s.cities[k].owner_id;
        let pred = |u: UnitView| u.owner_id != old_owner;
        assert(s2.units == s.units.filter(pred));
        if tiles_unshared(s.units) {
            lemma_filter_unshared(s.units, pred);
        }
        if units_sound(s) {
            assert forall|i: int| 0 <= i < s2.units.len() implies (#[trigger] s2.units[i]).hp
                <= s2.units[i].max_hp && s2.units[i].movement_remaining <= type_base_movement(
                s2.units[i].unit_type,
            ) by {
                assert(s.units.filter(pred).contains(s2.units[i]));
                s.units.lemma_filter_contains_rev(pred, s2.units[i]);
                let m = choose|m: int| 0 <= m < s.units.len() && s.units[m] == s2.units[i];
                assert(s.units[m] == s2.units[i]);
            }
        }
    }
}

/// A legal move keeps each of these on its own: unit bounds, distinct unit tiles.
pub proof fn lemma_move_units(s: SessionView, unit_id: Seq<char>, q: i32, r: i32)
    requires
        move_spec(s, unit_id, q, r) is Ok,
    ensures
        units_sound(s) ==> units_sound(move_spec(s, unit_id, q, r)->Ok_0.0),
        tiles_unshared(s.units) ==> tiles_unshared(move_spec(s, unit_id, q, r)->Ok_0.0.units),
{
    let i = unit_index(s.units, unit_id);
    lemma_first_from(s.units, |u: UnitView| u.id == unit_id, 0);
    let c = move_check(s, unit_id, q, r)->Ok_0;
    let s1 = step_unit(s, i, q, r, c);
    assert forall|j: int| 0 <= j < s.units.len() && j != i implies #[trigger] s1.units[j]
        == s.units[j] by {}
    if tiles_unshared(s.units) {
        assert forall|a: int, b: int|
            0 <= a < s1.units.len() && 0 <= b < s1.units.len() && a != b implies !(
            #[trigger] s1.units[a].q == #[trigger] s1.units[b].q && s1.units[a].r
                == s1.units[b].r) by {
            if a == i {
                assert(!(s.units[b].q == q && s.units[b].r == r));
            } else if b == i {
                assert(!(s.units[a].q == q && s.units[a].r == r));
            }
        }
    }
    if units_sound(s) {
        assert forall|j: int| 0 <= j < s1.units.len() implies (#[trigger] s1.units[j]).hp
            <= s1.units[j].max_hp && s1.units[j].movement_remaining <= type_base_movement(
            s1.units[j].unit_type,
        ) by {
            assert(s.units[j].hp <= s.units[j].max_hp);
        }
    }
    lemma_capture_units(s1, q, r, s.units[i].owner_id);
}

/// An attack keeps each of these on its own: unit bounds (damage only lowers hit
/// points), distinct unit tiles (the attacker advances only onto the tile of a defender
/// that was removed).
pub proof fn lemma_combat_units(s: SessionView, attacker_id: Seq<char>, defender_id: Seq<char>)
    requires
        combat_spec(s, attacker_id, defender_id) is Ok,
    ensures
        units_sound(s) ==> units_sound(combat_spec(s, attacker_id, defender_id)->Ok_0.0),
        tiles_unshared(s.units) ==> tiles_unshared(
            combat_spec(s, attacker_id, defender_id)->Ok_0.0.units,
        ),
{
    let ai = unit_index(s.units, attacker_id);
    let di = unit_index(s.units, defender_id);
    lemma_first_from(s.units, |u: UnitView| u.id == attacker_id, 0);
    lemma_first_from(s.units, |u: UnitView| u.id == defender_id, 0);
    let a = s.units[ai];
    let d = s.units[di];
    assert(ai != di);
    let to_defender = crate::session::strike(
        crate::model::type_attack(a.unit_type),
        crate::session::defense_of(s, d),
    );
    let to_attacker = (crate::session::strike(
        crate::model::type_attack(d.unit_type),
        crate::model::type_defense(a.unit_type),
    ) / 2) as u32;
    let d_hp = crate::session::sat_sub32(d.hp, to_defender);
    let a_hp = crate::session::sat_sub32(a.hp, to_attacker);
    let u1 = s.units.update(di, UnitView { hp: d_hp, ..d }).update(
        ai,
        UnitView { hp: a_hp, movement_remaining: 0, ..a },
    );
    assert(same_places(s.units, u1));
    let s_1 = SessionView { units: u1, ..s };
    if tiles_unshared(s.units) {
        assert forall|x: int, y: int|
            0 <= x < u1.len() && 0 <= y < u1.len() && x != y implies !(#[trigger] u1[x].q
            == #[trigger] u1[y].q && u1[x].r == u1[y].r) by {
            assert(u1[x].q == s.units[x].q && u1[y].q == s.units[y].q);
        }
    }
    if units_sound(s) {
        assert forall|j: int| 0 <= j < u1.len() implies (#[trigger] u1[j]).hp <= u1[j].max_hp
            && u1[j].movement_remaining <= type_base_movement(u1[j].unit_type) by {
            assert(s.units[j].hp <= s.units[j].max_hp);
        }
    }
    let d_dead = d_hp == 0;
    let a_dead = a_hp == 0;
    let u2 = if d_dead {
        u1.remove(di)
    } else {
        u1
    };
    let ai2 = if d_dead && di < ai {
        ai - 1
    } else {
        ai
    };
    if d_dead {
        lemma_remove_sound(s_1, di);
    }
    let s_2 = SessionView { units: u2, ..s };
    assert(0 <= ai2 < u2.len() && u2[ai2] == u1[ai]);
    let u3 = if a_dead {
        u2.remove(ai2)
    } else {
        u2
    };
    if a_dead {
        lemma_remove_sound(s_2, ai2);
    }
    if d_dead && !a_dead {
        let u4 = u3.update(ai2, UnitView { q: d.q, r: d.r, ..u3[ai2] });
        let s_4 = SessionView { units: u4, ..s };
        assert(u1[di].q == d.q && u1[di].r == d.r);
        if tiles_unshared(s.units) {
            assert(!occupied(u2, d.q, d.r));
            assert forall|x: int, y: int|
                0 <= x < u4.len() && 0 <= y < u4.len() && x != y implies !(#[trigger] u4[x].q
                == #[trigger] u4[y].q && u4[x].r == u4[y].r) by {
                if x == ai2 {
                    assert(!(u2[y].q == d.q && u2[y].r == d.r));
                } else if y == ai2 {
                    assert(!(u2[x].q == d.q && u2[x].r == d.r));
                } else {
                    assert(u4[x] == u2[x] && u4[y] == u2[y]);
                }
            }
        }
        if units_sound(s) {
            assert forall|j: int| 0 <= j < u4.len() implies (#[trigger] u4[j]).hp
                <= u4[j].max_hp && u4[j].movement_remaining <= type_base_movement(
                u4[j].unit_type,
            ) by {
                assert(u2[j].hp <= u2[j].max_hp);
            }
        }
        lemma_capture_units(s_4, d.q, d.r, a.owner_id);
    }
}

/// A capture by a player still in the game keeps every city with a player still in the
/// game, and keeps a victory naming the one player left.
pub proof fn lemma_capture_owners(s: SessionView, q: i32, r: i32, new_owner: Seq<char>)
    requires
        cities_owned(s),
        is_active(s, new_owner),
    ensures
        cities_owned(capture(s, q, r, new_owner).0),
        victory_sound(s) ==> victory_sound(capture(s, q, r, new_owner).0),
{
    broadcast use vstd::seq_lib::group_filter_ensures;

    let s2 = capture(s, q, r, new_owner).0;
    let k = crate::session::city_index_at(s.cities, q, r);
    crate::session::lemma_first_from(s.cities, |c: crate::model::CityView| c.q == q && c.r == r, 0);
    if k >= 0 && s.cities[k].owner_id != new_owner {
        let old_owner = s.cities[k].owner_id;
        assert(is_active(s, old_owner));
        if s.cities[k].is_capitol {
            let elim = s.eliminated.push(old_owner);
            assert forall|id: Seq<char>| #[trigger] elim.contains(id) implies s.eliminated.contains(
                id,
            ) || id == old_owner by {
                let m = choose|m: int| 0 <= m < elim.len() && elim[m] == id;
                if m < s.eliminated.len() {
                    assert(s.eliminated[m] == id);
                }
            }
            assert(elim[s.eliminated.len() as int] == old_owner);
            assert forall|j: int| 0 <= j < s2.cities.len() implies is_active(
                s2,
                (#[trigger] s2.cities[j]).owner_id,
            ) by {
                assert(s2.cities[j] == transfer_city(s.cities[j], old_owner, new_owner, q, r));
                assert(is_active(s, s.cities[j].owner_id));
            }
            let rest = survivors(s.players, elim);
            if rest.len() != 1 {
                if s.status is Victory && victory_sound(s) {
                    let w = s.status->Victory_0;
                    let before = survivors(s.players, s.eliminated);
                    let pi = choose|pi: int|
                        0 <= pi < player_ids(s.players).len() && player_ids(s.players)[pi]
                            == old_owner;
                    let pj = choose|pj: int|
                        0 <= pj < player_ids(s.players).len() && player_ids(s.players)[pj]
                            == new_owner;
                    player_ids(s.players).lemma_filter_contains(
                        |id: Seq<char>| !s.eliminated.contains(id),
                        pi,
                    );
                    player_ids(s.players).lemma_filter_contains(
                        |id: Seq<char>| !s.eliminated.contains(id),
                        pj,
                    );
                    assert(before.contains(old_owner));
                    assert(before.contains(new_owner));
                    assert(before == seq![w]);
                    assert(false);
                }
            } else {
                assert(rest.contains(rest[0]));
                assert(rest =~= seq![rest[0]]);
            }
        } else {
            assert forall|j: int| 0 <= j < s2.cities.len() implies is_active(
                s2,
                (#[trigger] s2.cities[j]).owner_id,
            ) by {
                if j != k {
                    assert(s2.cities[j] == s.cities[j]);
                }
            }
        }
    }
}

/// A legal move by a unit of a player still in the game keeps every city with a player
/// still in the game, and keeps a victory naming the one player left.
pub proof fn lemma_move_owners(s: SessionView, unit_id: Seq<char>, q: i32, r: i32)
    requires
        move_spec(s, unit_id, q, r) is Ok,
        cities_owned(s),
        is_active(s, s.units[unit_index(s.units, unit_id)].owner_id),
    ensures
        cities_owned(move_spec(s, unit_id, q, r)->Ok_0.0),
        victory_sound(s) ==> victory_sound(move_spec(s, unit_id, q, r)->Ok_0.0),
{
    let i = unit_index(s.units, unit_id);
    let c = move_check(s, unit_id, q, r)->Ok_0;
    let s1 = step_unit(s, i, q, r, c);
    lemma_capture_owners(s1, q, r, s.units[i].owner_id);
}

/// An attack by a unit of a player still in the game keeps every city with a player
/// still in the game, and keeps a victory naming the one player left.
pub proof fn lemma_combat_owners(s: SessionView, attacker_id: Seq<char>, defender_id: Seq<char>)
    requires
        combat_spec(s, attacker_id, defender_id) is Ok,
        cities_owned(s),
        is_active(s, s.units[unit_index(s.units, attacker_id)].owner_id),
    ensures
        cities_owned(combat_spec(s, attacker_id, defender_id)->Ok_0.0),
        victory_sound(s) ==> victory_sound(combat_spec(s, attacker_id, defender_id)->Ok_0.0),
{
    let ai = unit_index(s.units, attacker_id);
    let di = unit_index(s.units, defender_id);
    let a = s.units[ai];
    let d = s.units[di];
    let to_defender = crate::session::strike(
        crate::model::type_attack(a.unit_type),
        crate::session::defense_of(s, d),
    );
    let to_attacker = (crate::session::strike(
        crate::model::type_attack(d.unit_type),
        crate::model::type_defense(a.unit_type),
    ) / 2) as u32;
    let d_hp = crate::session::sat_sub32(d.hp, to_defender);
    let a_hp = crate::session::sat_sub32(a.hp, to_attacker);
    let u1 = s.units.update(di, UnitView { hp: d_hp, ..d }).update(
        ai,
        UnitView { hp: a_hp, movement_remaining: 0, ..a },
    );
    let d_dead = d_hp == 0;
    let a_dead = a_hp == 0;
    let u2 = if d_dead {
        u1.remove(di)
    } else {
        u1
    };
    let ai2 = if d_dead && di < ai {
        ai - 1
    } else {
        ai
    };
    let u3 = if a_dead {
        u2.remove(ai2)
    } else {
        u2
    };
    if d_dead && !a_dead {
        let u4 = u3.update(ai2, UnitView { q: d.q, r: d.r, ..u3[ai2] });
        let s_4 = SessionView { units: u4, ..s };
        lemma_capture_owners(s_4, d.q, d.r, a.owner_id);
    }
}

/// Whether every one of the first `n` seats found a tile far enough from the earlier
/// seats, so that none fell back to the first candidate.
pub open spec fn all_seats_spread(
    cands: Seq<crate::hex::Tile>,
    targets: Seq<(i32, i32)>,
    gap: int,
    n: int,
) -> bool
    decreases n,
{
    if n <= 0 {
        true
    } else {
        all_seats_spread(cands, targets, gap, n - 1) && crate::session::best_from(
            cands,
            crate::session::placements(cands, targets, gap, n - 1),
            targets[n - 1],
            gap,
            0,
            -1,
        ) >= 0
    }
}

/// The scan keeps, and returns, only candidates far enough from what is placed.
pub proof fn lemma_best_far(
    cands: Seq<crate::hex::Tile>,
    placed: Seq<(i32, i32)>,
    target: (i32, i32),
    gap: int,
    i: int,
    best: int,
)
    requires
        0 <= i,
        best < 0 || (0 <= best < cands.len() && crate::session::far_from_all(
            cands[best],
            placed,
            gap,
        )),
    ensures
        ({
            let b = crate::session::best_from(cands, placed, target, gap, i, best);
            b < 0 || (0 <= b < cands.len() && crate::session::far_from_all(cands[b], placed, gap))
        }),
    decreases cands.len() - i,
{
    if i < cands.len() {
        if crate::session::far_from_all(cands[i], placed, gap) && (best < 0
            || crate::session::dist_to(cands[i], target) < crate::session::dist_to(
            cands[best],
            target,
        )) {
            lemma_best_far(cands, placed, target, gap, i + 1, i);
        } else {
            lemma_best_far(cands, placed, target, gap, i + 1, best);
        }
    }
}

/// When every seat found a tile far enough away, the first `n` positions are pairwise at
/// least `gap` apart; in any case each position is a candidate's tile.
pub proof fn lemma_placements_spread(
    cands: Seq<crate::hex::Tile>,
    targets: Seq<(i32, i32)>,
    gap: int,
    n: int,
)
    requires
        0 <= n <= targets.len(),
    ensures
        ({
            let p = crate::session::placements(cands, targets, gap, n);
            &&& forall|k: int|
                0 <= k < p.len() ==> exists|m: int|
                    0 <= m < cands.len() && cands[m].q == (#[trigger] p[k]).0 && cands[m].r
                        == p[k].1
            &&& all_seats_spread(cands, targets, gap, n) ==> p.len() == n && forall|i: int, j: int|
                0 <= i < j < p.len() ==> hex_dist(
                    (#[trigger] p[j]).0 as int,
                    p[j].1 as int,
                    (#[trigger] p[i]).0 as int,
                    p[i].1 as int,
                ) >= gap
        }),
    decreases n,
{
    if n > 0 {
        lemma_placements_spread(cands, targets, gap, n - 1);
        let placed = crate::session::placements(cands, targets, gap, n - 1);
        let b = crate::session::best_from(cands, placed, targets[n - 1], gap, 0, -1);
        lemma_best_far(cands, placed, targets[n - 1], gap, 0, -1);
        let p = crate::session::placements(cands, targets, gap, n);
        assert forall|k: int| 0 <= k < p.len() implies exists|m: int|
            0 <= m < cands.len() && cands[m].q == (#[trigger] p[k]).0 && cands[m].r == p[k].1 by {
            if k < placed.len() {
                assert(p[k] == placed[k]);
            } else if b >= 0 {
                assert(cands[b].q == p[k].0 && cands[b].r == p[k].1);
            } else {
                assert(cands[0].q == p[k].0 && cands[0].r == p[k].1);
            }
        }
        if all_seats_spread(cands, targets, gap, n) {
            assert forall|i: int, j: int| 0 <= i < j < p.len() implies hex_dist(
                (#[trigger] p[j]).0 as int,
                p[j].1 as int,
                (#[trigger] p[i]).0 as int,
                p[i].1 as int,
            ) >= gap by {
                assert(p[i] == placed[i]);
                if j < placed.len() {
                    assert(p[j] == placed[j]);
                }
            }
        }
    }
}

/// When every seat found a tile far enough away, no two starting positions coincide,
/// and every starting position lies on a tile that may hold one (neither water nor
/// mountain).
pub proof fn lemma_starts_distinct(
    tiles: Seq<crate::hex::Tile>,
    radius: u32,
    targets: Seq<(i32, i32)>,
)
    ensures
        ({
            let cands = crate::session::start_tiles(tiles);
            let p = crate::session::starting_positions(tiles, radius, targets);
            &&& forall|k: int|
                0 <= k < p.len() ==> exists|m: int|
                    0 <= m < cands.len() && cands[m].q == (#[trigger] p[k]).0 && cands[m].r
                        == p[k].1 && crate::hex::is_start_terrain(cands[m].terrain)
            &&& all_seats_spread(
                cands,
                targets,
                crate::session::min_gap(radius),
                targets.len() as int,
            ) ==> p.no_duplicates()
        }),
{
    broadcast use vstd::seq_lib::group_filter_ensures;

    let cands = crate::session::start_tiles(tiles);
    let gap = crate::session::min_gap(radius);
    let n = targets.len() as int;
    lemma_placements_spread(cands, targets, gap, n);
    let p = crate::session::starting_positions(tiles, radius, targets);
    assert forall|k: int| 0 <= k < p.len() implies exists|m: int|
        0 <= m < cands.len() && cands[m].q == (#[trigger] p[k]).0 && cands[m].r == p[k].1
            && crate::hex::is_start_terrain(cands[m].terrain) by {
        let m = choose|m: int| 0 <= m < cands.len() && cands[m].q == p[k].0 && cands[m].r == p[k].1;
        tiles.lemma_filter_pred(|t: crate::hex::Tile| crate::hex::is_start_terrain(t.terrain), m);
    }
    if all_seats_spread(cands, targets, gap, n) {
        assert forall|i: int, j: int| 0 <= i < p.len() && 0 <= j < p.len() && i != j implies p[i]
            != p[j] by {
            if i < j {
                assert(hex_dist(p[j].0 as int, p[j].1 as int, p[i].0 as int, p[i].1 as int) >= gap);
            } else {
                assert(hex_dist(p[i].0 as int, p[i].1 as int, p[j].0 as int, p[j].1 as int) >= gap);
            }
        }
    }
}

/// Seat `(cur + x) % n` for `0 <= x < 2n`, by cases.
proof fn lemma_seat_mod(cur: int, j: int, n: int)
    requires
        0 <= cur < n,
        0 <= j <= n,
    ensures
        (cur + j) % n == if cur + j < n {
            cur + j
        } else {
            cur + j - n
        },
{
    if cur + j < n {
        vstd::arithmetic::div_mod::lemma_fundamental_div_mod_converse(cur + j, n, 0, cur + j);
    } else {
        vstd::arithmetic::div_mod::lemma_fundamental_div_mod_converse(cur + j, n, 1, cur + j - n);
    }
}

/// From seat `(cur + j) % n`, with every seat after `cur` up to it eliminated, the search
/// stops at `(cur + k) % n` for the least `k > j` whose player is still in the game, or
/// at `cur` itself once all others were passed.
#[verifier::spinoff_prover]
#[verifier::rlimit(40)]
pub proof fn lemma_seek_first(
    players: Seq<crate::model::PlayerView>,
    eliminated: Seq<Seq<char>>,
    cur: int,
    j: int,
)
    requires
        0 <= cur < players.len(),
        0 <= j < players.len(),
        forall|k: int|
            1 <= k <= j ==> eliminated.contains(
                players[#[trigger] ((cur + k) % (players.len() as int))].id,
            ),
    ensures
        exists|kk: int|
            #![trigger (cur + kk) % (players.len() as int)]
            j < kk <= players.len() && seek_seat(
                players,
                eliminated,
                cur,
                (cur + j) % (players.len() as int),
                (players.len() - j) as nat,
            ) == (cur + kk) % (players.len() as int) && (kk < players.len()
                ==> !eliminated.contains(players[(cur + kk) % (players.len() as int)].id))
                && forall|k: int|
                1 <= k < kk ==> eliminated.contains(
                    players[#[trigger] ((cur + k) % (players.len() as int))].id,
                ),
    decreases players.len() - j,
{
    let n = players.len() as int;
    lemma_seat_mod(cur, j, n);
    lemma_seat_mod(cur, j + 1, n);
    lemma_seat_mod(cur, n, n);
    let t = (cur + j) % n;
    let t2 = crate::session::following_seat(t, n);
    assert(t2 == (cur + j + 1) % n);
    if !eliminated.contains(players[t2].id) {
        assert(seek_seat(players, eliminated, cur, t, (n - j) as nat) == (cur + (j + 1)) % n);
    } else if t2 == cur {
        assert(j + 1 == n);
        assert(seek_seat(players, eliminated, cur, t, (n - j) as nat) == (cur + (j + 1)) % n);
    } else {
        assert(j + 1 < n);
        assert forall|k: int| 1 <= k <= j + 1 implies eliminated.contains(
            players[#[trigger] ((cur + k) % n)].id,
        ) by {
            if k == j + 1 {
                assert((cur + k) % n == t2);
            }
        }
        lemma_seek_first(players, eliminated, cur, j + 1);
        assert(seek_seat(players, eliminated, cur, t, (n - j) as nat) == seek_seat(
            players,
            eliminated,
            cur,
            (cur + (j + 1)) % n,
            (n - (j + 1)) as nat,
        ));
    }
}

/// Ending a turn passes it to the first seat after the current one, in seat order and
/// wrapping round, whose player is still in the game; only when every other player is
/// eliminated does the turn stay. Players and eliminations are unchanged.
pub proof fn lemma_next_seat_first(s: SessionView, time_used: u64)
    requires
        seats_ok(s),
    ensures
        ({
            let n = s.players.len() as int;
            let cur = s.current_turn as int;
            let s2 = end_turn_spec(s, time_used);
            &&& s2.players == s.players
            &&& s2.eliminated == s.eliminated
            &&& exists|kk: int|
                #![trigger (cur + kk) % n]
                1 <= kk <= n && s2.current_turn as int == (cur + kk) % n && (kk < n
                    ==> !s.eliminated.contains(s.players[(cur + kk) % n].id)) && forall|k: int|
                    1 <= k < kk ==> s.eliminated.contains(s.players[#[trigger] ((cur + k) % n)].id)
        }),
{
    let n = s.players.len() as int;
    let cur = s.current_turn as int;
    lemma_seat_mod(cur, 0, n);
    lemma_seek_first(s.players, s.eliminated, cur, 0);
    lemma_seek_range(s.players, s.eliminated, cur, cur, s.players.len());
}

} // verus!
