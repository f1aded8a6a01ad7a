//! Lobbies: who is seated, who hosts, and the decisions on join, leave and start.
use vstd::prelude::*;
use crate::model::{color_of_index, player_views, MapSize, Player, PlayerColor, PlayerView};
use crate::text::str_eq;

verus! {

#[derive(Clone, Copy, Debug, PartialEq, Eq, Structural)]
pub enum LobbyStatus {
    Waiting,
    Starting,
    InGame,
}

pub const MAX_PLAYERS: u8 = 5;

#[derive(Debug)]
pub struct Lobby {
    pub id: String,
    pub host_id: String,
    pub players: Vec<Player>,
    pub map_size: MapSize,
    pub max_players: u8,
    pub status: LobbyStatus,
}

pub open spec fn lobby_ids(players: Seq<PlayerView>) -> Seq<Seq<char>> {
    players.map_values(|p: PlayerView| p.id)
}

/// The lobby invariant: the host is seated, the table is not over-full and no player
/// sits twice.
pub open spec fn lobby_wf(l: Lobby) -> bool {
    let ids = lobby_ids(player_views(l.players@));
    &&& ids.contains(l.host_id@)
    &&& l.players@.len() <= l.max_players
    &&& ids.no_duplicates()
}

pub open spec fn joinable(l: Lobby) -> bool {
    l.players@.len() < l.max_players && l.status == LobbyStatus::Waiting
}

pub open spec fn startable(l: Lobby) -> bool {
    l.players@.len() >= 2 && l.status == LobbyStatus::Waiting
}

impl Clone for Lobby {
    fn clone(&self) -> (r: Self)
        ensures
            r.id == self.id,
            r.host_id == self.host_id,
            r.players@ == self.players@,
            r.map_size == self.map_size,
            r.max_players == self.max_players,
            r.status == self.status,
    {
        let players = self.players.clone();
        assert forall|i: int| 0 <= i < players@.len() implies players@[i] == self.players@[i] by {
            assert(cloned::<Player>(self.players[i], players[i]));
        }
        assert(players@ =~= self.players@);
        Lobby {
            id: self.id.clone(),
            host_id: self.host_id.clone(),
            players,
            map_size: self.map_size,
            max_players: self.max_players,
            status: self.status,
        }
    }
}

impl Lobby {
    /// A waiting lobby of five seats with `host` alone in it.
    pub fn new(id: String, host: Player, map_size: MapSize) -> (l: Lobby)
        ensures
            l.id == id,
            l.host_id == host.id,
            l.players@ == seq![host],
            l.map_size == map_size,
            l.max_players == MAX_PLAYERS,
            l.status == LobbyStatus::Waiting,
            lobby_wf(l),
    {
        let host_id = host.id.clone();
        let mut players: Vec<Player> = Vec::new();
        players.push(host);
        let l = Lobby {
            id,
            host_id,
            players,
            map_size,
            max_players: MAX_PLAYERS,
            status: LobbyStatus::Waiting,
        };
        let ghost ids = lobby_ids(player_views(l.players@));
        assert(ids =~= seq![l.host_id@]);
        assert(ids[0] == l.host_id@);
        assert(ids.no_duplicates());
        l
    }

    pub fn can_join(&self) -> (b: bool)
        ensures
            b == joinable(*self),
    {
        self.players.len() < self.max_players as usize && self.status == LobbyStatus::Waiting
    }

    pub fn can_start(&self) -> (b: bool)
        ensures
            b == startable(*self),
    {
        self.players.len() >= 2 && self.status == LobbyStatus::Waiting
    }

    /// Whether `player_id` is seated here.
    pub fn has_player(&self, player_id: &str) -> (b: bool)
        ensures
            b == lobby_ids(player_views(self.players@)).contains(player_id@),
    {
        let ghost ids = lobby_ids(player_views(self.players@));
        let mut i: usize = 0;
        while i < self.players.len()
            invariant
                ids == lobby_ids(player_views(self.players@)),
                0 <= i <= self.players@.len(),
                forall|j: int| 0 <= j < i ==> ids[j] != player_id@,
            decreases self.players@.len() - i,
        {
            if str_eq(self.players[i].id.as_str(), player_id) {
                assert(ids[i as int] == player_id@);
                return true;
            }
            i = i + 1;
        }
        false
    }

    /// The lobby after `player_id` takes the next seat under `name`, with the colour of
    /// that seat; refused when the lobby is closed or full, or the player already sits here.
    pub fn join(&self, player_id: &str, name: String) -> (res: Result<Lobby, String>)
        ensures
            !joinable(*self) ==> (res matches Err(e) && e@ == "Cannot join this lobby"@),
            joinable(*self) && lobby_ids(player_views(self.players@)).contains(player_id@)
                ==> (res matches Err(e) && e@ == "You are already in this lobby"@),
            joinable(*self) && !lobby_ids(player_views(self.players@)).contains(player_id@)
                ==> (res matches Ok(l) && l.id == self.id && l.host_id == self.host_id
                && l.map_size == self.map_size && l.max_players == self.max_players
                && l.status == self.status && player_views(l.players@) == player_views(
                self.players@,
            ).push(
                PlayerView {
                    id: player_id@,
                    name: name@,
                    color: color_of_index(self.players@.len()),
                },
            )),
            res matches Ok(l) ==> (lobby_wf(*self) ==> lobby_wf(l)),
    {
        if !self.can_join() {
            return Err(String::from_str("Cannot join this lobby"));
        }
        if self.has_player(player_id) {
            return Err(String::from_str("You are already in this lobby"));
        }
        let player = Player {
            id: String::from_str(player_id),
            name,
            color: PlayerColor::from_index(self.players.len()),
        };
        let mut l = self.clone();
        l.players.push(player);
        let ghost old_ids = lobby_ids(player_views(self.players@));
        assert(player_views(l.players@) =~= player_views(self.players@).push(
            PlayerView {
                id: player_id@,
                name: name@,
                color: color_of_index(self.players@.len()),
            },
        ));
        assert(lobby_ids(player_views(l.players@)) =~= old_ids.push(player_id@));
        proof {
            if lobby_wf(*self) {
                assert(old_ids.push(player_id@)[old_ids.len() as int] == player_id@);
                assert forall|i: int| 0 <= i < old_ids.len() implies old_ids.push(player_id@)[i]
                    == old_ids[i] by {}
                assert(lobby_ids(player_views(l.players@)).contains(l.host_id@)) by {
                    let k = choose|k: int| 0 <= k < old_ids.len() && old_ids[k] == self.host_id@;
                    assert(old_ids.push(player_id@)[k] == self.host_id@);
                }
            }
        }
        Ok(l)
    }

    /// The lobby after `player_id` leaves it, with the first remaining player as host
    /// when the host left; `None` when nobody is left.
    pub fn without_player(&self, player_id: &str) -> (res: Option<Lobby>)
        ensures
            ({
                let rest = player_views(self.players@).filter(|p: PlayerView| p.id != player_id@);
                &&& rest.len() == 0 ==> res is None
                &&& rest.len() > 0 ==> (res matches Some(l) && player_views(l.players@) == rest
                    && l.id == self.id && l.map_size == self.map_size && l.max_players
                    == self.max_players && l.status == self.status && (if self.host_id@
                    == player_id@ {
                    l.host_id@ == rest[0].id
                } else {
                    l.host_id == self.host_id
                }))
            }),
    {
        let ghost all = player_views(self.players@);
        let ghost pred = |p: PlayerView| p.id != player_id@;
        let mut kept: Vec<Player> = Vec::new();
        let mut i: usize = 0;
        while i < self.players.len()
            invariant
                0 <= i <= self.players@.len(),
                all == player_views(self.players@),
                pred == (|p: PlayerView| p.id != player_id@),
                player_views(kept@) == all.take(i as int).filter(pred),
            decreases self.players@.len() - i,
        {
            proof {
                assert(all.take(i as int + 1) =~= all.take(i as int).push(all[i as int]));
                all.take(i as int).lemma_filter_push(all[i as int], pred);
            }
            if !str_eq(self.players[i].id.as_str(), player_id) {
                let p = self.players[i].clone();
                let ghost before = kept@;
                kept.push(p);
                assert(player_views(kept@) =~= player_views(before).push(all[i as int]));
            }
            i = i + 1;
        }
        assert(all.take(i as int) =~= all);
        if kept.len() == 0 {
            return None;
        }
        let host_id = if str_eq(self.host_id.as_str(), player_id) {
            kept[0].id.clone()
        } else {
            self.host_id.clone()
        };
        Some(
            Lobby {
                id: self.id.clone(),
                host_id,
                players: kept,
                map_size: self.map_size,
                max_players: self.max_players,
                status: self.status,
            },
        )
    }

    /// The lobby once its game has started: the same seats, no longer open to join.
    pub fn in_game(&self) -> (l: Lobby)
        ensures
            l.id == self.id,
            l.host_id == self.host_id,
            l.players@ == self.players@,
            l.map_size == self.map_size,
            l.max_players == self.max_players,
            l.status == LobbyStatus::InGame,
            lobby_wf(*self) ==> lobby_wf(l),
            !joinable(l),
            !startable(l),
    {
        let mut l = self.clone();
        l.status = LobbyStatus::InGame;
        l
    }

    /// Why `requester_id` may not start this lobby's game, if it may not.
    pub fn check_start(&self, requester_id: &str) -> (res: Result<(), String>)
        ensures
            self.host_id@ != requester_id@ ==> (res matches Err(e) && e@
                == "Only the host can start the game"@),
            self.host_id@ == requester_id@ && !startable(*self) ==> (res matches Err(e) && e@
                == "Need at least 2 players to start"@),
            self.host_id@ == requester_id@ && startable(*self) ==> res is Ok,
    {
        if !str_eq(self.host_id.as_str(), requester_id) {
            return Err(String::from_str("Only the host can start the game"));
        }
        if !self.can_start() {
            return Err(String::from_str("Need at least 2 players to start"));
        }
        Ok(())
    }
}

/// Whether two lobbies hold the same values.
pub open spec fn same_lobby(a: Lobby, b: Lobby) -> bool {
    &&& a.id == b.id
    &&& a.host_id == b.host_id
    &&& a.players@ == b.players@
    &&& a.map_size == b.map_size
    &&& a.max_players == b.max_players
    &&& a.status == b.status
}

/// The lobbies of `ls` that wait for players, in order.
pub open spec fn waiting(ls: Seq<Lobby>) -> Seq<Lobby> {
    ls.filter(|l: Lobby| l.status == LobbyStatus::Waiting)
}

/// The lobbies that are still waiting for players, in order.
pub fn visible_lobbies(lobbies: &Vec<Lobby>) -> (r: Vec<Lobby>)
    ensures
        r@.len() == waiting(lobbies@).len(),
        forall|i: int| 0 <= i < r@.len() ==> same_lobby(#[trigger] r@[i], waiting(lobbies@)[i]),
{
    let ghost pred = |l: Lobby| l.status == LobbyStatus::Waiting;
    let mut out: Vec<Lobby> = Vec::new();
    let mut i: usize = 0;
    while i < lobbies.len()
        invariant
            0 <= i <= lobbies@.len(),
            pred == (|l: Lobby| l.status == LobbyStatus::Waiting),
            out@.len() == lobbies@.take(i as int).filter(pred).len(),
            forall|k: int|
                0 <= k < out@.len() ==> same_lobby(
                    #[trigger] out@[k],
                    lobbies@.take(i as int).filter(pred)[k],
                ),
        decreases lobbies@.len() - i,
    {
        proof {
            assert(lobbies@.take(i as int + 1) =~= lobbies@.take(i as int).push(lobbies@[i as int]));
            lobbies@.take(i as int).lemma_filter_push(lobbies@[i as int], pred);
        }
        if lobbies[i].status == LobbyStatus::Waiting {
            let l = lobbies[i].clone();
            out.push(l);
        }
        i = i + 1;
    }
    assert(lobbies@.take(i as int) =~= lobbies@);
    out
}

} // verus!
