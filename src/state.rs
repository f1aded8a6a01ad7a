//! What the server remembers of a connected player.
use vstd::prelude::*;
use crate::lobby::{joinable, lobby_ids, same_lobby, startable, visible_lobbies, waiting, Lobby};
use crate::messages::ServerMessage;
use crate::store::StoreResult;
use crate::model::{color_of_index, player_views, MapSize, Player, PlayerColor, PlayerView, UnitType};
use crate::session::{player_ids, GameSession};
use crate::text::str_eq;

verus! {

/// A connected player, the lobby they sit in and the game they play, if any.
#[derive(Debug)]
pub struct PlayerConnection {
    pub player_id: String,
    pub lobby_id: Option<String>,
    pub game_id: Option<String>,
}

impl PlayerConnection {
    /// A fresh connection, in no lobby.
    pub fn new(player_id: String) -> (c: PlayerConnection)
        ensures
            c.player_id == player_id,
            c.lobby_id is None,
            c.game_id is None,
    {
        PlayerConnection { player_id, lobby_id: None, game_id: None }
    }

    /// The lobby that this player creates under `lobby_id` and hosts; refused while the
    /// player sits in another lobby.
    pub fn create_lobby(&mut self, lobby_id: String, player_name: String, map_size: MapSize) -> (r:
        Result<Lobby, String>)
        ensures
            old(self).lobby_id is Some ==> (r matches Err(e) && e@
                == "Already in a lobby. Leave first before creating a new one."@ && *final(self)
                == *old(self)),
            old(self).lobby_id is None ==> (r matches Ok(l) && l.id@ == lobby_id@ && l.host_id@
                == old(self).player_id@ && l.players@.len() == 1 && l.players@[0].name@
                == player_name@ && l.players@[0].color == PlayerColor::Red && l.map_size
                == map_size && final(self).lobby_id == Some(lobby_id)
                && final(self).player_id == old(self).player_id && final(self).game_id == old(
                self,
            ).game_id),
    {
        if self.lobby_id.is_some() {
            return Err(String::from_str("Already in a lobby. Leave first before creating a new one."));
        }
        let host = Player { id: self.player_id.clone(), name: player_name, color: PlayerColor::Red };
        let lobby = Lobby::new(lobby_id.clone(), host, map_size);
        self.lobby_id = Some(lobby_id);
        Ok(lobby)
    }

    /// The lobby after this player joins `found`, the lobby stored under the requested id;
    /// refused while the player sits in a lobby, when none was found, or as
    /// [`Lobby::join`] refuses. On success the player sits in it.
    pub fn join_lobby(&mut self, found: Option<Lobby>, player_name: String) -> (r: Result<
        Lobby,
        String,
    >)
        ensures
            old(self).lobby_id is Some ==> (r matches Err(e) && e@
                == "Already in a lobby. Leave first before joining another."@),
            old(self).lobby_id is None ==> match found {
                None => r matches Err(e) && e@ == "Lobby not found"@,
                Some(l) => if !joinable(l) {
                    r matches Err(e) && e@ == "Cannot join this lobby"@
                } else if lobby_ids(player_views(l.players@)).contains(old(self).player_id@) {
                    r matches Err(e) && e@ == "You are already in this lobby"@
                } else {
                    r matches Ok(j) && j.id == l.id && j.host_id == l.host_id && j.map_size
                        == l.map_size && j.max_players == l.max_players && j.status == l.status
                        && player_views(j.players@) == player_views(l.players@).push(
                        PlayerView {
                            id: old(self).player_id@,
                            name: player_name@,
                            color: color_of_index(l.players@.len()),
                        },
                    ) && final(self).lobby_id == Some(l.id) && final(self).player_id == old(
                        self,
                    ).player_id && final(self).game_id == old(self).game_id
                },
            },
            r is Err ==> *final(self) == *old(self),
    {
        if self.lobby_id.is_some() {
            return Err(String::from_str("Already in a lobby. Leave first before joining another."));
        }
        let lobby = match found {
            Some(l) => l,
            None => {
                return Err(String::from_str("Lobby not found"));
            },
        };
        let joined = match lobby.join(self.player_id.as_str(), player_name) {
            Ok(j) => j,
            Err(e) => {
                return Err(e);
            },
        };
        self.lobby_id = Some(lobby.id.clone());
        Ok(joined)
    }

    /// The lobby that this player wants to start, `found` being the one stored under the
    /// id of the lobby they sit in; refused when they sit in none, when it is gone, when
    /// they do not host it, or when it cannot start.
    pub fn check_start(&self, found: Option<Lobby>) -> (r: Result<Lobby, String>)
        ensures
            self.lobby_id is None ==> (r matches Err(e) && e@ == "Not in a lobby"@),
            self.lobby_id is Some ==> match found {
                None => r matches Err(e) && e@ == "Lobby not found"@,
                Some(l) => if l.host_id@ != self.player_id@ {
                    r matches Err(e) && e@ == "Only the host can start the game"@
                } else if !startable(l) {
                    r matches Err(e) && e@ == "Need at least 2 players to start"@
                } else {
                    r == Ok::<Lobby, String>(l)
                },
            },
    {
        if self.lobby_id.is_none() {
            return Err(String::from_str("Not in a lobby"));
        }
        let lobby = match found {
            Some(l) => l,
            None => {
                return Err(String::from_str("Lobby not found"));
            },
        };
        match lobby.check_start(self.player_id.as_str()) {
            Ok(()) => Ok(lobby),
            Err(e) => Err(e),
        }
    }
}

/// The session to send a player who rejoins: refused when no such session runs or the
/// player has no seat in it.
pub fn check_rejoin(found: Option<GameSession>, player_id: &str) -> (r: Result<GameSession, String>)
    ensures
        match found {
            None => r matches Err(e) && e@ == "Game not found"@,
            Some(g) => if player_ids(g@.players).contains(player_id@) {
                r == Ok::<GameSession, String>(g)
            } else {
                r matches Err(e) && e@ == "You are not in this game"@
            },
        },
{
    match found {
        None => Err(String::from_str("Game not found")),
        Some(game) => {
            let ghost ids = player_ids(game@.players);
            let mut i: usize = 0;
            while i < game.players.len()
                invariant
                    found == Some(game),
                    ids == player_ids(game@.players),
                    0 <= i <= game.players@.len(),
                    forall|j: int| 0 <= j < i ==> ids[j] != player_id@,
                decreases game.players@.len() - i,
            {
                if str_eq(game.players[i].id.as_str(), player_id) {
                    assert(ids[i as int] == player_id@);
                    assert(ids.contains(player_id@));
                    return Ok(game);
                }
                i = i + 1;
            }
            Err(String::from_str("You are not in this game"))
        },
    }
}

/// The unit type that a command names, if it names one.
pub fn parse_unit_type(name: &str) -> (t: Option<UnitType>)
    ensures
        name@ == "Conscript"@ ==> t == Some(UnitType::Conscript),
        name@ != "Conscript"@ ==> t is None,
{
    if str_eq(name, "Conscript") {
        Some(UnitType::Conscript)
    } else {
        None
    }
}

/// The lobbies a listing yields: those stored, or none when the store failed.
pub open spec fn listed(r: StoreResult<Vec<Lobby>>) -> Seq<Lobby> {
    match r {
        Ok(v) => v@,
        Err(_) => Seq::empty(),
    }
}

/// The reply to a request for the lobby list: the waiting lobbies of the listing, in order.
pub fn lobby_list_reply(r: StoreResult<Vec<Lobby>>) -> (m: ServerMessage)
    ensures
        m matches ServerMessage::LobbyList { lobbies } && lobbies@.len() == waiting(
            listed(r),
        ).len() && forall|i: int|
            0 <= i < lobbies@.len() ==> same_lobby(#[trigger] lobbies@[i], waiting(listed(r))[i]),
{
    let all = match r {
        Ok(v) => v,
        Err(_) => Vec::new(),
    };
    ServerMessage::LobbyList { lobbies: visible_lobbies(&all) }
}

/// The greeting shown to a client.
pub fn get_welcome_message() -> (m: String)
    ensures
        m@ == "Welcome to Palmietopia!"@,
{
    String::from_str("Welcome to Palmietopia!")
}

} // verus!
