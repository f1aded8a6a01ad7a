//! Lobby and game storage kept in memory, keyed by id.
use vstd::prelude::*;
use crate::lobby::{same_lobby, waiting, Lobby, LobbyStatus};
use crate::session::{first_from, lemma_first_from, GameSession};
use crate::text::str_eq;

verus! {

#[derive(Debug)]
pub enum StoreError {
    NotFound,
    AlreadyExists,
    Internal(String),
}

pub type StoreResult<T> = Result<T, StoreError>;

impl StoreError {
    /// The error as a sentence for a client.
    pub fn message(&self) -> (m: String)
        ensures
            m@ == match self {
                StoreError::NotFound => "Not found"@,
                StoreError::AlreadyExists => "Already exists"@,
                StoreError::Internal(msg) => "Internal error: "@ + msg@,
            },
    {
        match self {
            StoreError::NotFound => String::from_str("Not found"),
            StoreError::AlreadyExists => String::from_str("Already exists"),
            StoreError::Internal(msg) => String::from_str("Internal error: ").concat(msg.as_str()),
        }
    }
}

/// Index of the first lobby with id `id`, or -1.
pub open spec fn lobby_index(ls: Seq<Lobby>, id: Seq<char>) -> int {
    first_from(ls, |l: Lobby| l.id@ == id, 0)
}

/// Index of the first game with id `id`, or -1.
pub open spec fn saved_index(gs: Seq<GameSession>, id: Seq<char>) -> int {
    first_from(gs, |g: GameSession| g.id@ == id, 0)
}

/// `ls` after storing `l` under its id.
pub open spec fn upsert_lobby(ls: Seq<Lobby>, l: Lobby) -> Seq<Lobby> {
    let k = lobby_index(ls, l.id@);
    if k < 0 {
        ls.push(l)
    } else {
        ls.update(k, l)
    }
}

/// Whether `r` lists the lobbies `ls`, in order.
pub open spec fn lists(ls: Seq<Lobby>, r: Seq<Lobby>) -> bool {
    r.len() == ls.len() && forall|i: int| 0 <= i < r.len() ==> same_lobby(#[trigger] r[i], ls[i])
}

/// Two listings of the same stored lobbies hold the same lobbies in the same order: a
/// listing changes only when the lobbies do.
pub proof fn lemma_listing_stable(ls: Seq<Lobby>, a: Seq<Lobby>, b: Seq<Lobby>)
    requires
        lists(ls, a),
        lists(ls, b),
    ensures
        a.len() == b.len(),
        forall|i: int| 0 <= i < a.len() ==> same_lobby(#[trigger] a[i], b[i]),
{
    assert forall|i: int| 0 <= i < a.len() implies same_lobby(#[trigger] a[i], b[i]) by {
        assert(same_lobby(a[i], ls[i]) && same_lobby(b[i], ls[i]));
    }
}

/// No two stored lobbies share an id.
pub open spec fn lobby_ids_unique(ls: Seq<Lobby>) -> bool {
    forall|i: int, j: int|
        0 <= i < ls.len() && 0 <= j < ls.len() && i != j ==> #[trigger] ls[i].id@
            != #[trigger] ls[j].id@
}

/// No two saved games share an id.
pub open spec fn game_ids_unique(gs: Seq<GameSession>) -> bool {
    forall|i: int, j: int|
        0 <= i < gs.len() && 0 <= j < gs.len() && i != j ==> #[trigger] gs[i].id@
            != #[trigger] gs[j].id@
}

/// Storing a lobby under its id keeps lobby ids unique.
pub proof fn lemma_upsert_unique(ls: Seq<Lobby>, l: Lobby)
    requires
        lobby_ids_unique(ls),
    ensures
        lobby_ids_unique(upsert_lobby(ls, l)),
{
    lemma_first_from(ls, |x: Lobby| x.id@ == l.id@, 0);
    let u = upsert_lobby(ls, l);
    assert forall|i: int, j: int|
        0 <= i < u.len() && 0 <= j < u.len() && i != j implies #[trigger] u[i].id@
        != #[trigger] u[j].id@ by {
        if i < ls.len() && u[i] != l {
            assert(u[i] == ls[i]);
        }
        if j < ls.len() && u[j] != l {
            assert(u[j] == ls[j]);
        }
    }
}

/// Dropping a lobby keeps lobby ids unique.
pub proof fn lemma_remove_unique(ls: Seq<Lobby>, k: int)
    requires
        lobby_ids_unique(ls),
        0 <= k < ls.len(),
    ensures
        lobby_ids_unique(ls.remove(k)),
{
    let u = ls.remove(k);
    assert forall|i: int, j: int|
        0 <= i < u.len() && 0 <= j < u.len() && i != j implies #[trigger] u[i].id@
        != #[trigger] u[j].id@ by {
        let i2 = if i < k {
            i
        } else {
            i + 1
        };
        let j2 = if j < k {
            j
        } else {
            j + 1
        };
        assert(u[i] == ls[i2] && u[j] == ls[j2]);
    }
}

/// Saving a game under its id keeps game ids unique.
pub proof fn lemma_save_unique(gs: Seq<GameSession>, g: GameSession)
    requires
        game_ids_unique(gs),
    ensures
        ({
            let k = saved_index(gs, g.id@);
            game_ids_unique(
                if k < 0 {
                    gs.push(g)
                } else {
                    gs.update(k, g)
                },
            )
        }),
{
    lemma_first_from(gs, |x: GameSession| x.id@ == g.id@, 0);
    let k = saved_index(gs, g.id@);
    let u = if k < 0 {
        gs.push(g)
    } else {
        gs.update(k, g)
    };
    assert forall|i: int, j: int|
        0 <= i < u.len() && 0 <= j < u.len() && i != j implies #[trigger] u[i].id@
        != #[trigger] u[j].id@ by {
        if i < gs.len() && i != k {
            assert(u[i] == gs[i]);
        }
        if j < gs.len() && j != k {
            assert(u[j] == gs[j]);
        }
    }
}

/// Lobby sequences that agree pairwise keep agreeing once the waiting ones are kept.
pub proof fn lemma_waiting_agree(a: Seq<Lobby>, b: Seq<Lobby>)
    requires
        a.len() == b.len(),
        forall|i: int| 0 <= i < a.len() ==> same_lobby(#[trigger] a[i], b[i]),
    ensures
        waiting(a).len() == waiting(b).len(),
        forall|i: int| 0 <= i < waiting(a).len() ==> same_lobby(#[trigger] waiting(a)[i], waiting(b)[i]),
    decreases a.len(),
{
    let pred = |l: Lobby| l.status == LobbyStatus::Waiting;
    if a.len() == 0 {
        reveal(Seq::filter);
    } else {
        let a0 = a.drop_last();
        let b0 = b.drop_last();
        assert forall|i: int| 0 <= i < a0.len() implies same_lobby(#[trigger] a0[i], b0[i]) by {
            assert(a0[i] == a[i] && b0[i] == b[i]);
        }
        lemma_waiting_agree(a0, b0);
        assert(a0.push(a.last()) =~= a);
        assert(b0.push(b.last()) =~= b);
        a0.lemma_filter_push(a.last(), pred);
        b0.lemma_filter_push(b.last(), pred);
        assert(same_lobby(a[a.len() - 1], b[b.len() - 1]));
    }
}

/// Listing the waiting lobbies twice over the same stored lobbies gives the same lobbies
/// in the same order.
pub proof fn lemma_waiting_listing_stable(ls: Seq<Lobby>, a: Seq<Lobby>, b: Seq<Lobby>)
    requires
        lists(ls, a),
        lists(ls, b),
    ensures
        waiting(a).len() == waiting(b).len(),
        forall|i: int| 0 <= i < waiting(a).len() ==> same_lobby(#[trigger] waiting(a)[i], waiting(b)[i]),
{
    lemma_listing_stable(ls, a, b);
    lemma_waiting_agree(a, b);
}

pub struct InMemoryStore {
    lobbies: Vec<Lobby>,
    games: Vec<GameSession>,
}

fn copy_lobbies(v: &Vec<Lobby>) -> (r: Vec<Lobby>)
    ensures
        lists(v@, r@),
{
    let mut out: Vec<Lobby> = Vec::new();
    let mut i: usize = 0;
    while i < v.len()
        invariant
            0 <= i <= v@.len(),
            out@.len() == i,
            forall|k: int| 0 <= k < i ==> same_lobby(#[trigger] out@[k], v@[k]),
        decreases v@.len() - i,
    {
        out.push(v[i].clone());
        i = i + 1;
    }
    out
}

impl Default for InMemoryStore {
    fn default() -> (s: InMemoryStore)
        ensures
            s.inv(),
            s.lobbies().len() == 0,
            s.saved().len() == 0,
    {
        InMemoryStore::new()
    }
}

impl InMemoryStore {
    pub closed spec fn lobbies(&self) -> Seq<Lobby> {
        self.lobbies@
    }

    pub closed spec fn saved(&self) -> Seq<GameSession> {
        self.games@
    }

    /// No two lobbies and no two saved games share an id.
    pub open spec fn inv(&self) -> bool {
        lobby_ids_unique(self.lobbies()) && game_ids_unique(self.saved())
    }

    pub fn new() -> (s: InMemoryStore)
        ensures
            s.inv(),
            s.lobbies().len() == 0,
            s.saved().len() == 0,
    {
        InMemoryStore { lobbies: Vec::new(), games: Vec::new() }
    }

    fn find_lobby(&self, id: &str) -> (k: Option<usize>)
        ensures
            match k {
                Some(i) => i < self.lobbies().len() && i as int == lobby_index(self.lobbies(), id@),
                None => lobby_index(self.lobbies(), id@) < 0,
            },
    {
        let ghost p = |l: Lobby| l.id@ == id@;
        let mut i: usize = 0;
        while i < self.lobbies.len()
            invariant
                p == (|l: Lobby| l.id@ == id@),
                0 <= i <= self.lobbies@.len(),
                first_from(self.lobbies@, p, 0) == first_from(self.lobbies@, p, i as int),
            decreases self.lobbies@.len() - i,
        {
            if str_eq(self.lobbies[i].id.as_str(), id) {
                return Some(i);
            }
            i = i + 1;
        }
        None
    }

    fn put_lobby(&mut self, lobby: Lobby)
        requires
            old(self).inv(),
        ensures
            final(self).inv(),
            final(self).lobbies() == upsert_lobby(old(self).lobbies(), lobby),
            final(self).saved() == old(self).saved(),
    {
        proof {
            lemma_upsert_unique(self.lobbies(), lobby);
        }
        match self.find_lobby(lobby.id.as_str()) {
            Some(k) => {
                self.lobbies.set(k, lobby);
            },
            None => {
                self.lobbies.push(lobby);
            },
        }
    }

    /// Stores a new lobby under its id and returns the id.
    pub fn create_lobby(&mut self, lobby: Lobby) -> (r: StoreResult<String>)
        requires
            old(self).inv(),
        ensures
            final(self).inv(),
            r matches Ok(id) && id@ == lobby.id@,
            final(self).lobbies() == upsert_lobby(old(self).lobbies(), lobby),
            final(self).saved() == old(self).saved(),
    {
        let id = lobby.id.clone();
        self.put_lobby(lobby);
        Ok(id)
    }

    /// A copy of the lobby stored under `id`, if any.
    pub fn get_lobby(&self, id: &str) -> (r: StoreResult<Option<Lobby>>)
        ensures
            lobby_index(self.lobbies(), id@) < 0 ==> r matches Ok(None),
            lobby_index(self.lobbies(), id@) >= 0 ==> (r matches Ok(Some(l)) && same_lobby(
                l,
                self.lobbies()[lobby_index(self.lobbies(), id@)],
            )),
    {
        match self.find_lobby(id) {
            Some(k) => Ok(Some(self.lobbies[k].clone())),
            None => Ok(None),
        }
    }

    /// Every stored lobby.
    pub fn list_lobbies(&self) -> (r: StoreResult<Vec<Lobby>>)
        ensures
            r matches Ok(v) && lists(self.lobbies(), v@),
    {
        Ok(copy_lobbies(&self.lobbies))
    }

    /// Stores `lobby` in place of the one with its id.
    pub fn update_lobby(&mut self, lobby: Lobby) -> (r: StoreResult<()>)
        requires
            old(self).inv(),
        ensures
            final(self).inv(),
            r is Ok,
            final(self).lobbies() == upsert_lobby(old(self).lobbies(), lobby),
            final(self).saved() == old(self).saved(),
    {
        self.put_lobby(lobby);
        Ok(())
    }

    /// Drops the lobby stored under `id`, if any.
    pub fn delete_lobby(&mut self, id: &str) -> (r: StoreResult<()>)
        requires
            old(self).inv(),
        ensures
            final(self).inv(),
            r is Ok,
            lobby_index(old(self).lobbies(), id@) < 0 ==> final(self).lobbies() == old(
                self,
            ).lobbies(),
            lobby_index(old(self).lobbies(), id@) >= 0 ==> final(self).lobbies() == old(
                self,
            ).lobbies().remove(lobby_index(old(self).lobbies(), id@)),
            final(self).saved() == old(self).saved(),
    {
        match self.find_lobby(id) {
            Some(k) => {
                proof {
                    lemma_remove_unique(self.lobbies(), k as int);
                }
                let _gone = self.lobbies.remove(k);
            },
            None => {},
        }
        Ok(())
    }

    fn find_saved(&self, id: &str) -> (k: Option<usize>)
        ensures
            match k {
                Some(i) => i < self.saved().len() && i as int == saved_index(self.saved(), id@),
                None => saved_index(self.saved(), id@) < 0,
            },
    {
        let ghost p = |g: GameSession| g.id@ == id@;
        let mut i: usize = 0;
        while i < self.games.len()
            invariant
                p == (|g: GameSession| g.id@ == id@),
                0 <= i <= self.games@.len(),
                first_from(self.games@, p, 0) == first_from(self.games@, p, i as int),
            decreases self.games@.len() - i,
        {
            if str_eq(self.games[i].id.as_str(), id) {
                return Some(i);
            }
            i = i + 1;
        }
        None
    }

    /// Stores `game` in place of the one with its id.
    pub fn save_game(&mut self, game: GameSession) -> (r: StoreResult<()>)
        requires
            old(self).inv(),
        ensures
            final(self).inv(),
            r is Ok,
            final(self).lobbies() == old(self).lobbies(),
            ({
                let k = saved_index(old(self).saved(), game.id@);
                if k < 0 {
                    final(self).saved() == old(self).saved().push(game)
                } else {
                    final(self).saved() == old(self).saved().update(k, game)
                }
            }),
    {
        proof {
            lemma_save_unique(self.saved(), game);
        }
        match self.find_saved(game.id.as_str()) {
            Some(k) => {
                self.games.set(k, game);
                return Ok(());
            },
            None => {},
        }
        self.games.push(game);
        Ok(())
    }

    /// A copy of the game stored under `id`, if any.
    pub fn load_game(&self, id: &str) -> (r: StoreResult<Option<GameSession>>)
        ensures
            saved_index(self.saved(), id@) < 0 ==> r matches Ok(None),
            saved_index(self.saved(), id@) >= 0 ==> (r matches Ok(Some(g)) && g@ == self.saved()[saved_index(self.saved(), id@)]@),
    {
        match self.find_saved(id) {
            Some(k) => Ok(Some(self.games[k].clone())),
            None => Ok(None),
        }
    }
}

} // verus!
