//! Shared server state: the lobby store (bounded, unique by name) and the
//! player registry (unique ids from a monotonic counter, unique
//! addresses), with the housekeeping sweeps over both.

use vstd::prelude::*;
use crate::config::Config;
use crate::lobby::Lobby;
use crate::lobby::LobbyV;
use crate::player::Player;
use crate::reliability::PeerAddr;

verus! {

/// Two lobby states that differ at most in roster and activity clock:
/// name, password, creation time, latch, progression and savefile blobs
/// all agree.
pub open spec fn same_but_roster(a: LobbyV, b: LobbyV) -> bool {
    b == (LobbyV { players: b.players, last_activity: b.last_activity, ..a })
}

/// The lobbies an idle sweep keeps: those with players, or with recent
/// activity.
pub open spec fn retained_lobbies(s: Seq<LobbyV>, timeout: u64, now: i64) -> Seq<LobbyV>
    decreases s.len(),
{
    if s.len() == 0 {
        Seq::empty()
    } else if s.first().players.len() == 0 && now - s.first().last_activity >= timeout {
        retained_lobbies(s.drop_first(), timeout, now)
    } else {
        seq![s.first()] + retained_lobbies(s.drop_first(), timeout, now)
    }
}

/// The lobbies an idle sweep retires: empty and idle ones, in store order.
pub open spec fn retired_lobbies(s: Seq<LobbyV>, timeout: u64, now: i64) -> Seq<LobbyV>
    decreases s.len(),
{
    if s.len() == 0 {
        Seq::empty()
    } else if s.first().players.len() == 0 && now - s.first().last_activity >= timeout {
        seq![s.first()] + retired_lobbies(s.drop_first(), timeout, now)
    } else {
        retired_lobbies(s.drop_first(), timeout, now)
    }
}

/// The players a timeout sweep keeps: those seen within the timeout.
pub open spec fn live_players(s: Seq<crate::player::PlayerV>, timeout: u64, now: i64) -> Seq<
    crate::player::PlayerV,
>
    decreases s.len(),
{
    if s.len() == 0 {
        Seq::empty()
    } else if now - s.first().last_seen >= timeout {
        live_players(s.drop_first(), timeout, now)
    } else {
        seq![s.first()] + live_players(s.drop_first(), timeout, now)
    }
}

/// Every queued removal names the id of a player that was timed out in
/// the given registry.
pub open spec fn removal_ok(
    ids: Seq<(u32, String)>,
    players: Seq<crate::player::PlayerV>,
    timeout: u64,
    now: i64,
) -> bool {
    forall|k: int|
        0 <= k < ids.len() ==> exists|p: int|
            0 <= p < players.len() && (#[trigger] ids[k]).0 == (#[trigger] players[p]).id
                && ids[k].1@ == players[p].lobby_name && now - players[p].last_seen >= timeout
}

/// Every timed-out player below `bound` has a queued removal naming its
/// id and lobby.
pub open spec fn removal_complete(
    ids: Seq<(u32, String)>,
    players: Seq<crate::player::PlayerV>,
    bound: int,
    timeout: u64,
    now: i64,
) -> bool {
    forall|p: int|
        0 <= p < bound && now - (#[trigger] players[p]).last_seen >= timeout ==> exists|k: int|
            0 <= k < ids.len() && (#[trigger] ids[k]).0 == players[p].id && ids[k].1@
                == players[p].lobby_name
}

/// The first `done` queued removals have taken effect: each named id is
/// off the roster of every lobby carrying its name.
pub open spec fn removals_applied(ids: Seq<(u32, String)>, done: int, s: ServerState) -> bool {
    forall|q: int|
        0 <= q < done ==> forall|j: int|
            0 <= j < s.lobbies_v().len() && (#[trigger] s.lobbies_v()[j]).name == (
            #[trigger] ids[q]).1@ ==> !s.lobbies_v()[j].has_member(ids[q].0)
}

/// In-process server state: settings, the lobby store, the player
/// registry, and the id counter (ids start at 1 and are never reused).
#[derive(Debug, Clone)]
pub struct ServerState {
    pub config: Config,
    pub lobbies: Vec<Lobby>,
    pub players: Vec<Player>,
    pub next_player_id: u32,
}

impl ServerState {
    /// The lobby store as it appears in contracts.
    pub open spec fn lobbies_v(self) -> Seq<LobbyV> {
        Seq::new(self.lobbies@.len(), |i: int| self.lobbies@[i]@)
    }

    /// The player registry as it appears in contracts.
    pub open spec fn players_v(self) -> Seq<crate::player::PlayerV> {
        Seq::new(self.players@.len(), |i: int| self.players@[i]@)
    }

    /// Store and registry invariants: unique lobby names, well-formed
    /// lobbies, unique player ids and unique player addresses.
    pub open spec fn wf(self) -> bool {
        &&& forall|i: int, j: int|
            0 <= i < j < self.lobbies_v().len() ==> (#[trigger] self.lobbies_v()[i]).name != (
            #[trigger] self.lobbies_v()[j]).name
        &&& forall|i: int| 0 <= i < self.lobbies_v().len() ==> (#[trigger] self.lobbies_v()[i]).wf()
        &&& forall|i: int, j: int|
            0 <= i < j < self.players_v().len() ==> (#[trigger] self.players_v()[i]).id != (
            #[trigger] self.players_v()[j]).id
        &&& forall|i: int, j: int|
            0 <= i < j < self.players_v().len() ==> (#[trigger] self.players_v()[i]).address != (
            #[trigger] self.players_v()[j]).address
        &&& self.next_player_id >= 1
        &&& forall|i: int|
            0 <= i < self.players_v().len() ==> 1 <= (#[trigger] self.players_v()[i]).id
                < self.next_player_id
    }

    /// The player at registry index `i` has a live lobby that lists it
    /// in its roster.
    pub open spec fn player_rostered_in(self, i: int) -> bool {
        exists|j: int|
            0 <= j < self.lobbies_v().len() && (#[trigger] self.lobbies_v()[j]).name
                == self.players_v()[i].lobby_name && self.lobbies_v()[j].has_member(
                self.players_v()[i].id,
            )
    }

    /// Every registered player's lobby is live and lists the player in
    /// its roster. Handlers restore this before returning.
    pub open spec fn players_rostered(self) -> bool {
        forall|i: int| 0 <= i < self.players_v().len() ==> #[trigger] self.player_rostered_in(i)
    }

    /// Whether some lobby carries the given name.
    pub open spec fn has_lobby(self, name: Seq<char>) -> bool {
        exists|i: int|
            0 <= i < self.lobbies_v().len() && (#[trigger] self.lobbies_v()[i]).name == name
    }

    /// Whether some player is registered at the given address.
    pub open spec fn has_player_at(self, addr: PeerAddr) -> bool {
        exists|i: int|
            0 <= i < self.players_v().len() && (#[trigger] self.players_v()[i]).address == addr
    }

    /// A fresh state: no lobbies, no players, ids from 1.
    pub fn new(config: Config) -> (r: ServerState)
        ensures
            r.wf(),
            r.players_rostered(),
            r.lobbies_v() == Seq::<LobbyV>::empty(),
            r.players_v() == Seq::<crate::player::PlayerV>::empty(),
            r.next_player_id == 1,
            r.config == config,
    {
        let r = ServerState { config, lobbies: Vec::new(), players: Vec::new(), next_player_id: 1 };
        proof {
            assert(r.lobbies_v() =~= Seq::<LobbyV>::empty());
            assert(r.players_v() =~= Seq::<crate::player::PlayerV>::empty());
        }
        r
    }

    /// The settings this state was built with.
    pub fn config(&self) -> (r: &Config)
        ensures
            r == self.config,
    {
        &self.config
    }

    /// The index of the lobby with the given name, if it is live.
    pub fn get_lobby(&self, name: &String) -> (r: Option<usize>)
        ensures
            match r {
                Some(i) => i < self.lobbies_v().len() && self.lobbies_v()[i as int].name == name@,
                None => !self.has_lobby(name@),
            },
    {
        let n = self.lobbies.len();
        let mut i: usize = 0;
        while i < n
            invariant
                n == self.lobbies@.len(),
                i <= n,
                forall|k: int| 0 <= k < i ==> (#[trigger] self.lobbies_v()[k]).name != name@,
            decreases n - i,
        {
            if self.lobbies[i].name == *name {
                proof {
                    assert(self.lobbies_v()[i as int].name == name@);
                }
                return Some(i);
            }
            i = i + 1;
        }
        None
    }

    /// Finds the lobby with the given name, or creates it with the given
    /// password (both clocks at `now`) unless the store is full; a full
    /// store refuses the handshake.
    pub fn get_or_create_lobby(&mut self, name: &String, password: &String, now: i64) -> (r: Option<
        usize,
    >)
        requires
            old(self).wf(),
        ensures
            final(self).wf(),
            final(self).config == old(self).config,
            final(self).players_v() == old(self).players_v(),
            final(self).next_player_id == old(self).next_player_id,
            old(self).has_lobby(name@) ==> *final(self) == *old(self) && (r matches Some(i)
                && i < final(self).lobbies_v().len() && final(self).lobbies_v()[i as int].name
                == name@),
            !old(self).has_lobby(name@) && old(self).lobbies_v().len()
                >= old(self).config.server.max_lobbies ==> *final(self) == *old(self) && r is None,
            !old(self).has_lobby(name@) && old(self).lobbies_v().len()
                < old(self).config.server.max_lobbies ==> {
                &&& final(self).lobbies_v() == old(self).lobbies_v().push(
                    crate::lobby::Lobby::new_v(name@, password@, now),
                )
                &&& r == Some::<usize>((final(self).lobbies_v().len() - 1) as usize)
            },
            old(self).players_rostered() ==> final(self).players_rostered(),
    {
        match self.get_lobby(name) {
            Some(i) => {
                proof {
                    if old(self).players_rostered() {
                        assert(self.players_rostered());
                    }
                }
                Some(i)
            },
            None => {
                if self.lobbies.len() >= self.config.server.max_lobbies {
                    proof {
                        if old(self).players_rostered() {
                            assert(self.players_rostered());
                        }
                    }
                    return None;
                }
                let idx = self.lobbies.len();
                self.lobbies.push(Lobby::new(name.clone(), password.clone(), now));
                proof {
                    assert(self.lobbies_v() =~= old(self).lobbies_v().push(
                        crate::lobby::Lobby::new_v(name@, password@, now),
                    ));
                    assert(self.players_v() =~= old(self).players_v());
                    if old(self).players_rostered() {
                        assert forall|i: int|
                            0 <= i < self.players_v().len() implies #[trigger] self
                            .player_rostered_in(i) by {
                            assert(old(self).players_v()[i] == self.players_v()[i]);
                            assert(old(self).player_rostered_in(i));
                            let j = choose|j: int|
                                0 <= j < old(self).lobbies_v().len() && (#[trigger] old(self).lobbies_v()[j]).name == old(self).players_v()[i].lobby_name
                                    && old(self).lobbies_v()[j].has_member(
                                    old(self).players_v()[i].id,
                                );
                            assert(self.lobbies_v()[j] == old(self).lobbies_v()[j]);
                        }
                        assert(self.players_rostered());
                    }
                }
                Some(idx)
            },
        }
    }

    /// The index of the player registered at the given address.
    pub fn get_player_by_addr(&self, addr: PeerAddr) -> (r: Option<usize>)
        ensures
            match r {
                Some(i) => i < self.players_v().len() && self.players_v()[i as int].address
                    == addr,
                None => !self.has_player_at(addr),
            },
    {
        let n = self.players.len();
        let mut i: usize = 0;
        while i < n
            invariant
                n == self.players@.len(),
                i <= n,
                forall|k: int| 0 <= k < i ==> (#[trigger] self.players_v()[k]).address != addr,
            decreases n - i,
        {
            if self.players[i].address.ip == addr.ip && self.players[i].address.port == addr.port {
                proof {
                    assert(self.players_v()[i as int].address == addr);
                }
                return Some(i);
            }
            i = i + 1;
        }
        None
    }

    /// The index of the player with the given id.
    pub fn get_player_by_id(&self, player_id: u32) -> (r: Option<usize>)
        ensures
            match r {
                Some(i) => i < self.players_v().len() && self.players_v()[i as int].id
                    == player_id,
                None => forall|k: int|
                    0 <= k < self.players_v().len() ==> (#[trigger] self.players_v()[k]).id
                        != player_id,
            },
    {
        let n = self.players.len();
        let mut i: usize = 0;
        while i < n
            invariant
                n == self.players@.len(),
                i <= n,
                forall|k: int| 0 <= k < i ==> (#[trigger] self.players_v()[k]).id != player_id,
            decreases n - i,
        {
            if self.players[i].id == player_id {
                proof {
                    assert(self.players_v()[i as int].id == player_id);
                }
                return Some(i);
            }
            i = i + 1;
        }
        None
    }

    /// Finds the player registered at `addr` (stamping its liveness
    /// clock; the stored username and lobby are kept as they are), or
    /// registers a fresh one under the next id. Returns the player's
    /// index; `None` only when the id space is exhausted, so that an id
    /// is never reused.
    pub fn get_or_create_player(
        &mut self,
        addr: PeerAddr,
        username: &String,
        lobby_name: &String,
        now: i64,
    ) -> (r: Option<usize>)
        requires
            old(self).wf(),
        ensures
            final(self).wf(),
            final(self).config == old(self).config,
            final(self).lobbies_v() == old(self).lobbies_v(),
            r is None <==> !old(self).has_player_at(addr) && old(self).next_player_id == u32::MAX,
            r is None ==> *final(self) == *old(self),
            r matches Some(i) ==> i < final(self).players_v().len() && final(self).players_v()[i as int].address == addr,
            old(self).has_player_at(addr) ==> exists|i: int|
                0 <= i < old(self).players_v().len() && (#[trigger] old(self).players_v()[i]).address == addr && r == Some(i as usize) && final(self).players_v() == old(self).players_v().update(
                    i,
                    crate::player::PlayerV { last_seen: now, ..old(self).players_v()[i] },
                ) && final(self).next_player_id == old(self).next_player_id,
            !old(self).has_player_at(addr) && old(self).next_player_id != u32::MAX ==> {
                &&& final(self).players_v() == old(self).players_v().push(
                    crate::player::PlayerV {
                        id: old(self).next_player_id,
                        username: username@,
                        address: addr,
                        lobby_name: lobby_name@,
                        last_seen: now,
                        connected_at: now,
                        last_puppet_state: None,
                    },
                )
                &&& r == Some::<usize>((final(self).players_v().len() - 1) as usize)
                &&& final(self).next_player_id == old(self).next_player_id + 1
            },
    {
        let n = self.players.len();
        let mut i: usize = 0;
        while i < n
            invariant
                old(self).wf(),
                *self == *old(self),
                n == self.players@.len(),
                i <= n,
                forall|k: int| 0 <= k < i ==> (#[trigger] self.players_v()[k]).address != addr,
            decreases n - i,
        {
            if self.players[i].address.ip == addr.ip && self.players[i].address.port == addr.port {
                proof {
                    assert(old(self).players_v()[i as int].address == addr);
                }
                self.players[i].last_seen = now;
                proof {
                    assert(self.players_v() =~= old(self).players_v().update(
                        i as int,
                        crate::player::PlayerV {
                            last_seen: now,
                            ..old(self).players_v()[i as int]
                        },
                    ));
                    assert(self.lobbies_v() =~= old(self).lobbies_v());
                    assert forall|k1: int, k2: int|
                        0 <= k1 < k2 < self.players_v().len() implies (
                    #[trigger] self.players_v()[k1]).id != (#[trigger] self.players_v()[k2]).id
                        && self.players_v()[k1].address != self.players_v()[k2].address by {
                        assert(self.players_v()[k1].id == old(self).players_v()[k1].id);
                        assert(self.players_v()[k2].id == old(self).players_v()[k2].id);
                        assert(self.players_v()[k1].address == old(self).players_v()[k1].address);
                        assert(self.players_v()[k2].address == old(self).players_v()[k2].address);
                    }
                    assert forall|k: int| 0 <= k < self.players_v().len() implies 1 <= (
                    #[trigger] self.players_v()[k]).id < self.next_player_id by {
                        assert(self.players_v()[k].id == old(self).players_v()[k].id);
                    }
                }
                return Some(i);
            }
            i = i + 1;
        }
        if self.next_player_id == u32::MAX {
            return None;
        }
        let id = self.next_player_id;
        self.next_player_id = self.next_player_id + 1;
        self.players.push(
            Player::new(id, username.clone(), addr, lobby_name.clone(), now),
        );
        proof {
            assert(self.players_v() =~= old(self).players_v().push(
                crate::player::PlayerV {
                    id,
                    username: username@,
                    address: addr,
                    lobby_name: lobby_name@,
                    last_seen: now,
                    connected_at: now,
                    last_puppet_state: None,
                },
            ));
            assert(self.lobbies_v() =~= old(self).lobbies_v());
        }
        Some(n)
    }

    /// Stamps the liveness clock of the player at `addr`, if any.
    pub fn update_player_last_seen(&mut self, addr: PeerAddr, now: i64)
        ensures
            !old(self).has_player_at(addr) ==> *final(self) == *old(self),
            old(self).has_player_at(addr) ==> exists|i: int|
                0 <= i < old(self).players_v().len() && (#[trigger] old(self).players_v()[i]).address == addr && final(self).players_v() == old(self).players_v().update(
                    i,
                    crate::player::PlayerV { last_seen: now, ..old(self).players_v()[i] },
                ),
            final(self).lobbies_v() == old(self).lobbies_v(),
            final(self).config == old(self).config,
            final(self).next_player_id == old(self).next_player_id,
            old(self).wf() ==> final(self).wf(),
    {
        let n = self.players.len();
        let mut i: usize = 0;
        while i < n
            invariant
                *self == *old(self),
                n == self.players@.len(),
                i <= n,
                forall|k: int| 0 <= k < i ==> (#[trigger] self.players_v()[k]).address != addr,
            decreases n - i,
        {
            if self.players[i].address.ip == addr.ip && self.players[i].address.port == addr.port {
                proof {
                    assert(old(self).players_v()[i as int].address == addr);
                }
                self.players[i].last_seen = now;
                proof {
                    assert(self.players_v() =~= old(self).players_v().update(
                        i as int,
                        crate::player::PlayerV {
                            last_seen: now,
                            ..old(self).players_v()[i as int]
                        },
                    ));
                    assert(self.lobbies_v() =~= old(self).lobbies_v());
                    if old(self).wf() {
                        assert forall|k1: int, k2: int|
                            0 <= k1 < k2 < self.players_v().len() implies (
                        #[trigger] self.players_v()[k1]).id != (#[trigger] self.players_v()[k2]).id
                            && self.players_v()[k1].address != self.players_v()[k2].address by {
                            assert(self.players_v()[k1].id == old(self).players_v()[k1].id);
                            assert(self.players_v()[k2].id == old(self).players_v()[k2].id);
                            assert(self.players_v()[k1].address == old(self).players_v()[k1].address);
                            assert(self.players_v()[k2].address == old(self).players_v()[k2].address);
                        }
                        assert forall|k: int| 0 <= k < self.players_v().len() implies 1 <= (
                        #[trigger] self.players_v()[k]).id < self.next_player_id by {
                            assert(self.players_v()[k].id == old(self).players_v()[k].id);
                        }
                    }
                }
                return ;
            }
            i = i + 1;
        }
    }

    /// The addresses of every player of the named lobby whose id differs
    /// from `except_id`, in registry order.
    pub fn get_lobby_players_except(&self, lobby_name: &String, except_id: u32) -> (r: Vec<
        PeerAddr,
    >)
        ensures
            r@ == crate::state::addrs_in_lobby_except(self.players_v(), lobby_name@, except_id),
    {
        let n = self.players.len();
        let mut out: Vec<PeerAddr> = Vec::new();
        let mut i: usize = 0;
        proof {
            assert(self.players_v().skip(0) =~= self.players_v());
            assert(out@ + addrs_in_lobby_except(self.players_v(), lobby_name@, except_id)
                =~= addrs_in_lobby_except(self.players_v(), lobby_name@, except_id));
        }
        while i < n
            invariant
                n == self.players@.len(),
                i <= n,
                out@ + addrs_in_lobby_except(self.players_v().skip(i as int), lobby_name@, except_id)
                    =~= addrs_in_lobby_except(self.players_v(), lobby_name@, except_id),
            decreases n - i,
        {
            proof {
                assert(self.players_v().skip(i as int).drop_first() =~= self.players_v().skip(
                    i + 1,
                ));
                assert(self.players_v().skip(i as int).first() == self.players_v()[i as int]);
            }
            let ghost prev = out@;
            if self.players[i].lobby_name == *lobby_name && self.players[i].id != except_id {
                out.push(self.players[i].address);
                proof {
                    assert(out@ =~= prev.push(self.players_v()[i as int].address));
                }
            }
            i = i + 1;
        }
        proof {
            assert(self.players_v().skip(n as int) =~= Seq::<crate::player::PlayerV>::empty());
        }
        out
    }

    /// The addresses of every player of the named lobby, in registry order.
    pub fn get_all_lobby_players(&self, lobby_name: &String) -> (r: Vec<PeerAddr>)
        ensures
            r@ == crate::state::addrs_in_lobby(self.players_v(), lobby_name@),
    {
        let n = self.players.len();
        let mut out: Vec<PeerAddr> = Vec::new();
        let mut i: usize = 0;
        proof {
            assert(self.players_v().skip(0) =~= self.players_v());
            assert(out@ + addrs_in_lobby(self.players_v(), lobby_name@) =~= addrs_in_lobby(
                self.players_v(),
                lobby_name@,
            ));
        }
        while i < n
            invariant
                n == self.players@.len(),
                i <= n,
                out@ + addrs_in_lobby(self.players_v().skip(i as int), lobby_name@)
                    =~= addrs_in_lobby(self.players_v(), lobby_name@),
            decreases n - i,
        {
            proof {
                assert(self.players_v().skip(i as int).drop_first() =~= self.players_v().skip(
                    i + 1,
                ));
                assert(self.players_v().skip(i as int).first() == self.players_v()[i as int]);
            }
            let ghost prev = out@;
            if self.players[i].lobby_name == *lobby_name {
                out.push(self.players[i].address);
                proof {
                    assert(out@ =~= prev.push(self.players_v()[i as int].address));
                }
            }
            i = i + 1;
        }
        proof {
            assert(self.players_v().skip(n as int) =~= Seq::<crate::player::PlayerV>::empty());
        }
        out
    }

    /// The registry indexes of every player of the named lobby, in
    /// registry order.
    pub fn get_lobby_players(&self, lobby_name: &String) -> (r: Vec<usize>)
        ensures
            forall|k: int|
                0 <= k < r@.len() ==> #[trigger] r@[k] < self.players_v().len()
                    && self.players_v()[r@[k] as int].lobby_name == lobby_name@,
            forall|k1: int, k2: int| 0 <= k1 < k2 < r@.len() ==> r@[k1] < r@[k2],
            forall|i: int|
                0 <= i < self.players_v().len() && (#[trigger] self.players_v()[i]).lobby_name
                    == lobby_name@ ==> r@.contains(i as usize),
    {
        let n = self.players.len();
        let mut out: Vec<usize> = Vec::new();
        let mut i: usize = 0;
        while i < n
            invariant
                n == self.players@.len(),
                i <= n,
                forall|k: int|
                    0 <= k < out@.len() ==> #[trigger] out@[k] < i
                        && self.players_v()[out@[k] as int].lobby_name == lobby_name@,
                forall|k1: int, k2: int| 0 <= k1 < k2 < out@.len() ==> out@[k1] < out@[k2],
                forall|p: int|
                    0 <= p < i && (#[trigger] self.players_v()[p]).lobby_name == lobby_name@
                        ==> out@.contains(p as usize),
            decreases n - i,
        {
            let ghost prev = out@;
            if self.players[i].lobby_name == *lobby_name {
                out.push(i);
                proof {
                    assert forall|p: int|
                        0 <= p < i + 1 && (#[trigger] self.players_v()[p]).lobby_name
                            == lobby_name@ implies out@.contains(p as usize) by {
                        if p < i {
                            assert(prev.contains(p as usize));
                            let k = choose|k: int| 0 <= k < prev.len() && prev[k] == p as usize;
                            assert(out@[k] == p as usize);
                        } else {
                            assert(out@[out@.len() - 1] == p as usize);
                        }
                    }
                }
            }
            i = i + 1;
        }
        out
    }
}

/// The addresses of the named lobby's players whose id differs from
/// `except_id`, in registry order.
pub open spec fn addrs_in_lobby_except(
    players: Seq<crate::player::PlayerV>,
    lobby_name: Seq<char>,
    except_id: u32,
) -> Seq<PeerAddr>
    decreases players.len(),
{
    if players.len() == 0 {
        Seq::empty()
    } else {
        let rest = addrs_in_lobby_except(players.drop_first(), lobby_name, except_id);
        if players.first().lobby_name == lobby_name && players.first().id != except_id {
            seq![players.first().address] + rest
        } else {
            rest
        }
    }
}

/// The addresses of the named lobby's players, in registry order.
pub open spec fn addrs_in_lobby(
    players: Seq<crate::player::PlayerV>,
    lobby_name: Seq<char>,
) -> Seq<PeerAddr>
    decreases players.len(),
{
    if players.len() == 0 {
        Seq::empty()
    } else {
        let rest = addrs_in_lobby(players.drop_first(), lobby_name);
        if players.first().lobby_name == lobby_name {
            seq![players.first().address] + rest
        } else {
            rest
        }
    }
}

impl ServerState {
    /// Removes the player with the given id from the registry and from
    /// the named lobby's roster. Only that lobby's roster and activity
    /// clock may change; every other lobby is untouched.
    pub fn remove_player(&mut self, player_id: u32, lobby_name: &String, now: i64)
        requires
            old(self).wf(),
        ensures
            final(self).wf(),
            final(self).config == old(self).config,
            final(self).next_player_id == old(self).next_player_id,
            (exists|i: int|
                0 <= i < old(self).players_v().len() && (#[trigger] old(self).players_v()[i]).id
                    == player_id) ==> exists|i: int|
                0 <= i < old(self).players_v().len() && (#[trigger] old(self).players_v()[i]).id
                    == player_id && final(self).players_v() == old(self).players_v().remove(i),
            !(exists|i: int|
                0 <= i < old(self).players_v().len() && (#[trigger] old(self).players_v()[i]).id
                    == player_id) ==> final(self).players_v() == old(self).players_v(),
            final(self).lobbies_v().len() == old(self).lobbies_v().len(),
            forall|j: int|
                0 <= j < old(self).lobbies_v().len() ==> same_but_roster(
                    #[trigger] old(self).lobbies_v()[j],
                    final(self).lobbies_v()[j],
                ),
            forall|j: int|
                0 <= j < old(self).lobbies_v().len() ==> forall|id: u32|
                    id != player_id ==> ((#[trigger] final(self).lobbies_v()[j]).has_member(id)
                        <==> (#[trigger] old(self).lobbies_v()[j]).has_member(id)),
            forall|j: int|
                0 <= j < old(self).lobbies_v().len() && (#[trigger] old(self).lobbies_v()[j]).name
                    != lobby_name@ ==> final(self).lobbies_v()[j] == old(self).lobbies_v()[j],
            forall|j: int|
                0 <= j < old(self).lobbies_v().len() && (#[trigger] old(self).lobbies_v()[j]).name
                    == lobby_name@ ==> !final(self).lobbies_v()[j].has_member(player_id),
    {
        let n = self.players.len();
        let mut i: usize = 0;
        while i < n
            invariant
                old(self).wf(),
                *self == *old(self),
                n == self.players@.len(),
                i <= n,
                forall|k: int| 0 <= k < i ==> (#[trigger] self.players_v()[k]).id != player_id,
            decreases n - i,
        {
            if self.players[i].id == player_id {
                proof {
                    assert(old(self).players_v()[i as int].id == player_id);
                }
                self.players.remove(i);
                proof {
                    assert(self.players_v() =~= old(self).players_v().remove(i as int));
                    assert(self.lobbies_v() =~= old(self).lobbies_v());
                    assert(self.wf());
                }
                let ghost mid = *self;
                self.remove_player_roster_only(player_id, lobby_name, now);
                proof {
                    assert(self.players_v() =~= mid.players_v());
                    assert forall|j: int|
                        0 <= j < old(self).lobbies_v().len() implies same_but_roster(
                        #[trigger] old(self).lobbies_v()[j],
                        self.lobbies_v()[j],
                    ) by {
                        assert(mid.lobbies_v()[j] == old(self).lobbies_v()[j]);
                    }
                }
                return ;
            }
            i = i + 1;
        }
        let ghost mid = *self;
        self.remove_player_roster_only(player_id, lobby_name, now);
        proof {
            assert(self.players_v() =~= mid.players_v());
            assert forall|j: int|
                0 <= j < old(self).lobbies_v().len() implies same_but_roster(
                #[trigger] old(self).lobbies_v()[j],
                self.lobbies_v()[j],
            ) by {
                assert(mid.lobbies_v()[j] == old(self).lobbies_v()[j]);
            }
        }
    }

    /// Removes every player whose last datagram is older than the client
    /// timeout: from the registry, and from its lobby's roster. Survivors
    /// and lobby contents are untouched; only rosters and activity clocks
    /// move.
    pub fn cleanup_timed_out_players(&mut self, now: i64)
        requires
            old(self).wf(),
            old(self).players_rostered(),
        ensures
            final(self).wf(),
            final(self).players_rostered(),
            final(self).config == old(self).config,
            final(self).next_player_id == old(self).next_player_id,
            final(self).players_v() == live_players(
                old(self).players_v(),
                old(self).config.server.client_timeout_seconds,
                now,
            ),
            final(self).lobbies_v().len() == old(self).lobbies_v().len(),
            forall|j: int|
                0 <= j < old(self).lobbies_v().len() ==> same_but_roster(
                    #[trigger] old(self).lobbies_v()[j],
                    final(self).lobbies_v()[j],
                ),
            forall|p: int|
                0 <= p < old(self).players_v().len() && now - (#[trigger] old(self).players_v()[p]).last_seen >= old(self).config.server.client_timeout_seconds
                    ==> forall|j: int|
                    0 <= j < final(self).lobbies_v().len() && (#[trigger] final(self).lobbies_v()[j]).name == old(self).players_v()[p].lobby_name ==> !final(self).lobbies_v()[j].has_member(old(self).players_v()[p].id),
    {
        let timeout = self.config.server.client_timeout_seconds;
        let n = self.players.len();
        let mut to_remove: Vec<(u32, String)> = Vec::new();
        let mut kept: Vec<Player> = Vec::new();
        let mut i: usize = 0;
        proof {
            assert(self.players_v().skip(0) =~= self.players_v());
            assert(Seq::new(kept@.len(), |k: int| kept@[k]@) + live_players(
                self.players_v(),
                timeout,
                now,
            ) =~= live_players(self.players_v(), timeout, now));
        }
        while i < n
            invariant
                old(self).wf(),
                old(self).players_rostered(),
                *self == *old(self),
                timeout == self.config.server.client_timeout_seconds,
                n == self.players@.len(),
                i <= n,
                Seq::new(kept@.len(), |k: int| kept@[k]@) + live_players(
                    self.players_v().skip(i as int),
                    timeout,
                    now,
                ) =~= live_players(self.players_v(), timeout, now),
                removal_ok(to_remove@, self.players_v(), timeout, now),
                removal_complete(to_remove@, self.players_v(), i as int, timeout, now),
            decreases n - i,
        {
            proof {
                assert(self.players_v().skip(i as int).drop_first() =~= self.players_v().skip(
                    i + 1,
                ));
                assert(self.players_v().skip(i as int).first() == self.players_v()[i as int]);
            }
            let ghost prev_kept = Seq::new(kept@.len(), |k: int| kept@[k]@);
            let ghost prev_rm = to_remove@;
            let p = &self.players[i];
            if p.is_timed_out(timeout, now) {
                to_remove.push((p.id, p.lobby_name.clone()));
                proof {
                    assert forall|k: int|
                        0 <= k < to_remove@.len() implies exists|q: int|
                        0 <= q < self.players_v().len() && (#[trigger] to_remove@[k]).0 == (
                        #[trigger] self.players_v()[q]).id && to_remove@[k].1@
                            == self.players_v()[q].lobby_name && now
                            - self.players_v()[q].last_seen >= timeout by {
                        if k < to_remove@.len() - 1 {
                            assert(to_remove@[k] == prev_rm[k]);
                            assert(removal_ok(prev_rm, self.players_v(), timeout, now));
                        } else {
                            assert(to_remove@[k].0 == self.players_v()[i as int].id
                                && to_remove@[k].1@ == self.players_v()[i as int].lobby_name && now
                                - self.players_v()[i as int].last_seen >= timeout);
                        }
                    }
                    assert(removal_ok(to_remove@, self.players_v(), timeout, now));
                    assert forall|pp: int|
                        0 <= pp < i + 1 && now - (#[trigger] self.players_v()[pp]).last_seen
                            >= timeout implies exists|kk: int|
                        0 <= kk < to_remove@.len() && (#[trigger] to_remove@[kk]).0
                            == self.players_v()[pp].id && to_remove@[kk].1@
                            == self.players_v()[pp].lobby_name by {
                        if pp < i {
                            assert(removal_complete(prev_rm, self.players_v(), i as int, timeout, now));
                            let kk = choose|kk: int|
                                0 <= kk < prev_rm.len() && (#[trigger] prev_rm[kk]).0
                                    == self.players_v()[pp].id && prev_rm[kk].1@
                                    == self.players_v()[pp].lobby_name;
                            assert(to_remove@[kk] == prev_rm[kk]);
                        } else {
                            assert(to_remove@[to_remove@.len() - 1].0
                                == self.players_v()[i as int].id && to_remove@[to_remove@.len()
                                - 1].1@ == self.players_v()[i as int].lobby_name);
                        }
                    }
                    assert(removal_complete(to_remove@, self.players_v(), i + 1, timeout, now));
                }
            } else {
                let copy = Player {
                    id: p.id,
                    username: p.username.clone(),
                    address: p.address,
                    lobby_name: p.lobby_name.clone(),
                    last_seen: p.last_seen,
                    connected_at: p.connected_at,
                    last_puppet_state: match &p.last_puppet_state {
                        Some(v) => Some(v.clone()),
                        None => None,
                    },
                };
                proof {
                    assert(copy@ =~= self.players_v()[i as int]);
                }
                kept.push(copy);
                proof {
                    assert(Seq::new(kept@.len(), |k: int| kept@[k]@) =~= prev_kept.push(
                        self.players_v()[i as int],
                    ));
                    assert(prev_kept.push(self.players_v()[i as int]) + live_players(
                        self.players_v().skip(i + 1),
                        timeout,
                        now,
                    ) =~= prev_kept + live_players(self.players_v().skip(i as int), timeout, now));
                    assert forall|pp: int|
                        0 <= pp < i + 1 && now - (#[trigger] self.players_v()[pp]).last_seen
                            >= timeout implies exists|kk: int|
                        0 <= kk < to_remove@.len() && (#[trigger] to_remove@[kk]).0
                            == self.players_v()[pp].id && to_remove@[kk].1@
                            == self.players_v()[pp].lobby_name by {
                        assert(pp < i);
                        assert(removal_complete(prev_rm, self.players_v(), i as int, timeout, now));
                        let kk = choose|kk: int|
                            0 <= kk < prev_rm.len() && (#[trigger] prev_rm[kk]).0
                                == self.players_v()[pp].id && prev_rm[kk].1@
                                == self.players_v()[pp].lobby_name;
                        assert(to_remove@[kk] == prev_rm[kk]);
                    }
                    assert(removal_complete(to_remove@, self.players_v(), i + 1, timeout, now));
                }
            }
            i = i + 1;
        }
        proof {
            assert(self.players_v().skip(n as int) =~= Seq::<crate::player::PlayerV>::empty());
        }
        let ghost orig = *self;
        self.players = kept;
        proof {
            assert(self.players_v() =~= Seq::new(kept@.len(), |k: int| kept@[k]@));
            assert(self.players_v() =~= live_players(orig.players_v(), timeout, now));
            assert(self.lobbies_v() =~= orig.lobbies_v());
            lemma_live_players_subset(orig.players_v(), timeout, now);
            lemma_live_players_unique(orig.players_v(), timeout, now);
            assert(self.wf());
            assert forall|k: int|
                0 <= k < self.players_v().len() implies #[trigger] self.player_rostered_in(k) by {
                let p = choose|p: int|
                    0 <= p < orig.players_v().len() && #[trigger] orig.players_v()[p]
                        == self.players_v()[k];
                assert(orig.player_rostered_in(p));
                let j = choose|j: int|
                    0 <= j < orig.lobbies_v().len() && (#[trigger] orig.lobbies_v()[j]).name
                        == orig.players_v()[p].lobby_name && orig.lobbies_v()[j].has_member(
                        orig.players_v()[p].id,
                    );
                assert(self.lobbies_v()[j] == orig.lobbies_v()[j]);
                assert(0 <= j < self.lobbies_v().len() && self.lobbies_v()[j].name
                    == self.players_v()[k].lobby_name && self.lobbies_v()[j].has_member(
                    self.players_v()[k].id,
                ));
            }
            assert(self.players_rostered());
        }
        let m = to_remove.len();
        let mut k: usize = 0;
        while k < m
            invariant
                old(self).wf(),
                m == to_remove@.len(),
                k <= m,
                timeout == old(self).config.server.client_timeout_seconds,
                self.wf(),
                self.players_rostered(),
                self.config == old(self).config,
                self.next_player_id == old(self).next_player_id,
                self.players_v() == live_players(
                    old(self).players_v(),
                    old(self).config.server.client_timeout_seconds,
                    now,
                ),
                self.lobbies_v().len() == old(self).lobbies_v().len(),
                forall|j: int|
                    0 <= j < old(self).lobbies_v().len() ==> same_but_roster(
                        #[trigger] old(self).lobbies_v()[j],
                        self.lobbies_v()[j],
                    ),
                removal_ok(to_remove@, old(self).players_v(), timeout, now),
                removal_complete(
                    to_remove@,
                    old(self).players_v(),
                    old(self).players_v().len() as int,
                    timeout,
                    now,
                ),
                removals_applied(to_remove@, k as int, *self),
            decreases m - k,
        {
            let ghost mid = *self;
            let player_id = to_remove[k].0;
            let lobby_name = to_remove[k].1.clone();
            proof {
                lemma_live_players_subset(old(self).players_v(), timeout, now);
                assert forall|p: int|
                    0 <= p < self.players_v().len() implies (#[trigger] self.players_v()[p]).id
                        != player_id by {
                    let p2 = choose|p2: int|
                        0 <= p2 < old(self).players_v().len() && #[trigger] old(self).players_v()[p2] == self.players_v()[p] && !(now - old(self).players_v()[p2].last_seen >= timeout);
                    assert(exists|q2: int|
                        0 <= q2 < old(self).players_v().len() && (
                        #[trigger] to_remove@[k as int]).0 == (#[trigger] old(self).players_v()[q2]).id && now - old(self).players_v()[q2].last_seen
                            >= timeout);
                    let q2 = choose|q2: int|
                        0 <= q2 < old(self).players_v().len() && to_remove@[k as int].0 == (
                        #[trigger] old(self).players_v()[q2]).id && now - old(self).players_v()[q2].last_seen >= timeout;
                    assert(p2 != q2);
                    if p2 < q2 {
                        assert(old(self).players_v()[p2].id != old(self).players_v()[q2].id);
                    } else {
                        assert(old(self).players_v()[q2].id != old(self).players_v()[p2].id);
                    }
                }
            }
            self.remove_player_roster_only(player_id, &lobby_name, now);
            proof {
                assert forall|j: int|
                    0 <= j < old(self).lobbies_v().len() implies same_but_roster(
                    #[trigger] old(self).lobbies_v()[j],
                    self.lobbies_v()[j],
                ) by {
                    assert(same_but_roster(old(self).lobbies_v()[j], mid.lobbies_v()[j]));
                    assert(same_but_roster(mid.lobbies_v()[j], self.lobbies_v()[j]));
                }
                assert forall|q: int|
                    0 <= q < k + 1 implies (forall|j: int|
                    0 <= j < self.lobbies_v().len() && (#[trigger] self.lobbies_v()[j]).name == (
                    #[trigger] to_remove@[q]).1@ ==> !self.lobbies_v()[j].has_member(
                        to_remove@[q].0,
                    )) by {
                    assert forall|j: int|
                        0 <= j < self.lobbies_v().len() && (#[trigger] self.lobbies_v()[j]).name
                            == to_remove@[q].1@ implies !self.lobbies_v()[j].has_member(
                        to_remove@[q].0,
                    ) by {
                        assert(same_but_roster(mid.lobbies_v()[j], self.lobbies_v()[j]));
                        assert(mid.lobbies_v()[j].name == self.lobbies_v()[j].name);
                        if q == k as int {
                            assert(mid.lobbies_v()[j].name == lobby_name@);
                            assert(!self.lobbies_v()[j].has_member(player_id));
                        } else {
                            assert(mid.lobbies_v()[j].name == to_remove@[q].1@);
                            assert(!mid.lobbies_v()[j].has_member(to_remove@[q].0));
                            if to_remove@[q].1@ == lobby_name@ {
                                if to_remove@[q].0 == player_id {
                                    assert(mid.lobbies_v()[j].name == lobby_name@);
                                    assert(!self.lobbies_v()[j].has_member(player_id));
                                } else {
                                    assert(self.lobbies_v()[j].has_member(to_remove@[q].0)
                                        <==> mid.lobbies_v()[j].has_member(to_remove@[q].0));
                                }
                            } else {
                                assert(self.lobbies_v()[j] == mid.lobbies_v()[j]);
                            }
                        }
                    }
                }
                assert(removals_applied(to_remove@, k + 1, *self));
            }
            k = k + 1;
        }
        proof {
            assert forall|pp: int|
                0 <= pp < old(self).players_v().len() && now - (#[trigger] old(self).players_v()[pp]).last_seen >= timeout implies (forall|j: int|
                0 <= j < self.lobbies_v().len() && (#[trigger] self.lobbies_v()[j]).name == old(self).players_v()[pp].lobby_name ==> !self.lobbies_v()[j].has_member(
                    old(self).players_v()[pp].id,
                )) by {
                let kk = choose|kk: int|
                    0 <= kk < to_remove@.len() && (#[trigger] to_remove@[kk]).0 == old(self).players_v()[pp].id && to_remove@[kk].1@ == old(self).players_v()[pp].lobby_name;
                assert forall|j: int|
                    0 <= j < self.lobbies_v().len() && (#[trigger] self.lobbies_v()[j]).name
                        == old(self).players_v()[pp].lobby_name implies !self.lobbies_v()[j]
                    .has_member(old(self).players_v()[pp].id) by {
                    assert(self.lobbies_v()[j].name == to_remove@[kk].1@);
                    assert(!self.lobbies_v()[j].has_member(to_remove@[kk].0));
                }
            }
        }
    }

    /// Removes the given id from the named lobby's roster, leaving the
    /// registry as it is. Used by the timeout sweep after the registry
    /// has already been rebuilt.
    fn remove_player_roster_only(&mut self, player_id: u32, lobby_name: &String, now: i64)
        requires
            old(self).wf(),
        ensures
            final(self).wf(),
            final(self).config == old(self).config,
            final(self).next_player_id == old(self).next_player_id,
            final(self).players_v() == old(self).players_v(),
            final(self).lobbies_v().len() == old(self).lobbies_v().len(),
            forall|j: int|
                0 <= j < old(self).lobbies_v().len() ==> same_but_roster(
                    #[trigger] old(self).lobbies_v()[j],
                    final(self).lobbies_v()[j],
                ),
            forall|j: int|
                0 <= j < old(self).lobbies_v().len() ==> forall|id: u32|
                    id != player_id ==> ((#[trigger] final(self).lobbies_v()[j]).has_member(id)
                        <==> (#[trigger] old(self).lobbies_v()[j]).has_member(id)),
            forall|j: int|
                0 <= j < old(self).lobbies_v().len() && (#[trigger] old(self).lobbies_v()[j]).name
                    != lobby_name@ ==> final(self).lobbies_v()[j] == old(self).lobbies_v()[j],
            forall|j: int|
                0 <= j < old(self).lobbies_v().len() && (#[trigger] old(self).lobbies_v()[j]).name
                    == lobby_name@ ==> !final(self).lobbies_v()[j].has_member(player_id),
            old(self).players_rostered() && (forall|p: int|
                0 <= p < old(self).players_v().len() ==> (#[trigger] old(self).players_v()[p]).id
                    != player_id) ==> final(self).players_rostered(),
    {
        match self.get_lobby(lobby_name) {
            Some(j) => {
                let ghost pre = self.lobbies@[j as int]@;
                let lob = &mut self.lobbies[j];
                lob.remove_player(player_id, now);
                proof {
                    assert(self.lobbies_v()[j as int] == self.lobbies@[j as int]@);
                    assert(forall|k: int|
                        0 <= k < self.lobbies_v().len() && k != j ==> self.lobbies_v()[k]
                            == old(self).lobbies_v()[k]);
                    assert(self.players_v() =~= old(self).players_v());
                    let post = self.lobbies_v()[j as int];
                    assert(same_but_roster(pre, post));
                    assert forall|k: int|
                        0 <= k < old(self).lobbies_v().len() implies same_but_roster(
                        #[trigger] old(self).lobbies_v()[k],
                        self.lobbies_v()[k],
                    ) by {
                        if k != j {
                            assert(self.lobbies_v()[k] == old(self).lobbies_v()[k]);
                            assert(same_but_roster(old(self).lobbies_v()[k], self.lobbies_v()[k]));
                        }
                    }
                    assert forall|k: int|
                        0 <= k < old(self).lobbies_v().len() implies forall|id: u32|
                        id != player_id ==> ((#[trigger] self.lobbies_v()[k]).has_member(id) <==> (
                        #[trigger] old(self).lobbies_v()[k]).has_member(id)) by {
                        if k == j {
                            assert forall|id: u32| id != player_id implies ((
                            #[trigger] self.lobbies_v()[k]).has_member(id) <==> old(self).lobbies_v()[k].has_member(id)) by {
                                lemma_member_removal(pre, post, player_id, id);
                            }
                        }
                    }
                    assert forall|k: int|
                        0 <= k < old(self).lobbies_v().len() && (#[trigger] old(self).lobbies_v()[k]).name == lobby_name@ implies !self.lobbies_v()[k]
                        .has_member(player_id) by {
                        old(self).lemma_lobby_index(lobby_name@, k);
                        old(self).lemma_lobby_index(lobby_name@, j as int);
                        assert(k == j);
                        if pre.has_member(player_id) {
                            let i = choose|i: int|
                                0 <= i < pre.players.len() && (#[trigger] pre.players[i]).id
                                    == player_id && post.players == pre.players.remove(i);
                            crate::lobby::lemma_member_removed(pre, post, i, player_id);
                        } else {
                            assert(post.players == pre.players);
                            assert forall|m: int|
                                0 <= m < post.players.len() implies (
                            #[trigger] post.players[m]).id != player_id by {
                                assert(pre.players[m].id != player_id);
                            }
                        }
                    }
                    assert(self.wf());
                    if old(self).players_rostered() && (forall|p: int|
                        0 <= p < old(self).players_v().len() ==> (#[trigger] old(self).players_v()[p]).id != player_id) {
                        assert forall|p: int|
                            0 <= p < self.players_v().len() implies #[trigger] self
                            .player_rostered_in(p) by {
                            assert(old(self).players_v()[p] == self.players_v()[p]);
                            assert(old(self).player_rostered_in(p));
                            let jj = choose|jj: int|
                                0 <= jj < old(self).lobbies_v().len() && (#[trigger] old(self).lobbies_v()[jj]).name == old(self).players_v()[p].lobby_name
                                    && old(self).lobbies_v()[jj].has_member(
                                    old(self).players_v()[p].id,
                                );
                            assert(old(self).players_v()[p].id != player_id);
                            if jj == j {
                                lemma_member_removal(pre, post, player_id, old(self).players_v()[p].id);
                            } else {
                                assert(self.lobbies_v()[jj] == old(self).lobbies_v()[jj]);
                            }
                            assert(0 <= jj < self.lobbies_v().len() && self.lobbies_v()[jj].name
                                == self.players_v()[p].lobby_name
                                && self.lobbies_v()[jj].has_member(self.players_v()[p].id));
                        }
                        assert(self.players_rostered());
                    }
                }
            },
            None => {
                proof {
                    assert forall|j: int|
                        0 <= j < old(self).lobbies_v().len() && (#[trigger] old(self).lobbies_v()[j]).name == lobby_name@ implies !self.lobbies_v()[j]
                        .has_member(player_id) by {
                        old(self).lemma_lobby_index(lobby_name@, j);
                        assert(old(self).has_lobby(lobby_name@));
                    }
                }
            },
        }
    }
}

/// Removing one id from a roster never changes whether any other id is a
/// member.
proof fn lemma_member_removal(pre: LobbyV, post: LobbyV, removed: u32, id: u32)
    requires
        id != removed,
        post.players == pre.players || exists|i: int|
            0 <= i < pre.players.len() && (#[trigger] pre.players[i]).id == removed
                && post.players == pre.players.remove(i),
    ensures
        post.has_member(id) <==> pre.has_member(id),
{
    if post.players == pre.players {
        assert forall|k: int|
            0 <= k < post.players.len() && (#[trigger] post.players[k]).id == id implies pre
            .has_member(id) by {
            assert(pre.players[k].id == id);
        }
        assert forall|k: int|
            0 <= k < pre.players.len() && (#[trigger] pre.players[k]).id == id implies post
            .has_member(id) by {
            assert(post.players[k].id == id);
        }
    } else {
        let i = choose|i: int|
            0 <= i < pre.players.len() && (#[trigger] pre.players[i]).id == removed
                && post.players == pre.players.remove(i);
        if pre.has_member(id) {
            let k = choose|k: int|
                0 <= k < pre.players.len() && (#[trigger] pre.players[k]).id == id;
            if k < i {
                assert(post.players[k].id == id);
            } else {
                assert(k != i);
                assert(post.players[k - 1].id == id);
            }
        }
        if post.has_member(id) {
            let k = choose|k: int|
                0 <= k < post.players.len() && (#[trigger] post.players[k]).id == id;
            if k < i {
                assert(pre.players[k].id == id);
            } else {
                assert(pre.players[k + 1].id == id);
            }
        }
    }
}


/// Every player the timeout sweep keeps was in the registry, and was not
/// timed out.
proof fn lemma_live_players_subset(s: Seq<crate::player::PlayerV>, timeout: u64, now: i64)
    ensures
        forall|k: int|
            0 <= k < live_players(s, timeout, now).len() ==> exists|p: int|
                0 <= p < s.len() && #[trigger] s[p] == #[trigger] live_players(s, timeout, now)[k]
                    && !(now - s[p].last_seen >= timeout),
    decreases s.len(),
{
    if s.len() == 0 {
    } else {
        lemma_live_players_subset(s.drop_first(), timeout, now);
        let live = live_players(s, timeout, now);
        let rest = live_players(s.drop_first(), timeout, now);
        assert forall|k: int| 0 <= k < live.len() implies exists|p: int|
            0 <= p < s.len() && #[trigger] s[p] == #[trigger] live[k] && !(now - s[p].last_seen
            >= timeout) by {
            if now - s.first().last_seen >= timeout {
                let p = choose|p: int|
                    0 <= p < s.drop_first().len() && #[trigger] s.drop_first()[p] == rest[k] && !(
                    now - s.drop_first()[p].last_seen >= timeout);
                assert(s[p + 1] == live[k] && !(now - s[p + 1].last_seen >= timeout));
            } else {
                if k == 0 {
                    assert(s[0] == live[k] && !(now - s[0].last_seen >= timeout));
                } else {
                    let p = choose|p: int|
                        0 <= p < s.drop_first().len() && #[trigger] s.drop_first()[p] == rest[k - 1]
                            && !(now - s.drop_first()[p].last_seen >= timeout);
                    assert(s[p + 1] == live[k] && !(now - s[p + 1].last_seen >= timeout));
                }
            }
        }
    }
}

/// The timeout sweep keeps ids and addresses pairwise distinct, and
/// keeps every id bound that held of the registry.
proof fn lemma_live_players_unique(s: Seq<crate::player::PlayerV>, timeout: u64, now: i64)
    requires
        forall|i: int, j: int|
            0 <= i < j < s.len() ==> (#[trigger] s[i]).id != (#[trigger] s[j]).id && s[i].address
                != s[j].address,
    ensures
        forall|i: int, j: int|
            0 <= i < j < live_players(s, timeout, now).len() ==> (#[trigger] live_players(
                s,
                timeout,
                now,
            )[i]).id != (#[trigger] live_players(s, timeout, now)[j]).id && live_players(
                s,
                timeout,
                now,
            )[i].address != live_players(s, timeout, now)[j].address,
    decreases s.len(),
{
    if s.len() == 0 {
    } else {
        assert(forall|i: int, j: int|
            0 <= i < j < s.drop_first().len() ==> (#[trigger] s.drop_first()[i]).id != (
            #[trigger] s.drop_first()[j]).id && s.drop_first()[i].address
                != s.drop_first()[j].address);
        lemma_live_players_unique(s.drop_first(), timeout, now);
        lemma_live_players_subset(s.drop_first(), timeout, now);
        let live = live_players(s, timeout, now);
        let rest = live_players(s.drop_first(), timeout, now);
        if !(now - s.first().last_seen >= timeout) {
            assert forall|i: int, j: int| 0 <= i < j < live.len() implies (#[trigger] live[i]).id
                != (#[trigger] live[j]).id && live[i].address != live[j].address by {
                if i == 0 {
                    assert(live[j] == rest[j - 1]);
                    let p = choose|p: int|
                        0 <= p < s.drop_first().len() && #[trigger] s.drop_first()[p] == rest[j - 1]
                            && !(now - s.drop_first()[p].last_seen >= timeout);
                    assert(s[0].id != s[p + 1].id && s[0].address != s[p + 1].address);
                } else {
                    assert(live[i] == rest[i - 1] && live[j] == rest[j - 1]);
                }
            }
        }
    }
}

impl ServerState {
    /// Retires every lobby that has no players and has been inactive for
    /// the idle timeout: it leaves the store and is returned (in store
    /// order) so the caller can persist it. Live lobbies and the registry
    /// are untouched.
    pub fn cleanup_idle_lobbies(&mut self, now: i64) -> (retired: Vec<Lobby>)
        requires
            old(self).wf(),
            old(self).players_rostered(),
        ensures
            final(self).wf(),
            final(self).players_rostered(),
            final(self).config == old(self).config,
            final(self).next_player_id == old(self).next_player_id,
            final(self).players_v() == old(self).players_v(),
            final(self).lobbies_v() == retained_lobbies(
                old(self).lobbies_v(),
                old(self).config.server.lobby_idle_timeout_seconds,
                now,
            ),
            Seq::new(retired@.len(), |i: int| retired@[i]@) == retired_lobbies(
                old(self).lobbies_v(),
                old(self).config.server.lobby_idle_timeout_seconds,
                now,
            ),
    {
        let timeout = self.config.server.lobby_idle_timeout_seconds;
        let mut kept: Vec<Lobby> = Vec::new();
        let mut retired: Vec<Lobby> = Vec::new();
        proof {
            assert(Seq::new(kept@.len(), |k: int| kept@[k]@) + retained_lobbies(
                self.lobbies_v(),
                timeout,
                now,
            ) =~= retained_lobbies(old(self).lobbies_v(), timeout, now));
            assert(Seq::new(retired@.len(), |k: int| retired@[k]@) + retired_lobbies(
                self.lobbies_v(),
                timeout,
                now,
            ) =~= retired_lobbies(old(self).lobbies_v(), timeout, now));
        }
        while self.lobbies.len() > 0
            invariant
                old(self).wf(),
                timeout == old(self).config.server.lobby_idle_timeout_seconds,
                self.config == old(self).config,
                self.players == old(self).players,
                self.next_player_id == old(self).next_player_id,
                Seq::new(kept@.len(), |k: int| kept@[k]@) + retained_lobbies(
                    self.lobbies_v(),
                    timeout,
                    now,
                ) =~= retained_lobbies(old(self).lobbies_v(), timeout, now),
                Seq::new(retired@.len(), |k: int| retired@[k]@) + retired_lobbies(
                    self.lobbies_v(),
                    timeout,
                    now,
                ) =~= retired_lobbies(old(self).lobbies_v(), timeout, now),
            decreases self.lobbies@.len(),
        {
            let ghost pre = self.lobbies_v();
            let ghost prev_kept = Seq::new(kept@.len(), |k: int| kept@[k]@);
            let ghost prev_retired = Seq::new(retired@.len(), |k: int| retired@[k]@);
            let lob = self.lobbies.remove(0);
            proof {
                assert(self.lobbies_v() =~= pre.drop_first());
                assert(lob@ == pre.first());
            }
            let idle = lob.player_count() == 0 && lob.is_idle(timeout, now);
            if idle {
                retired.push(lob);
                proof {
                    assert(Seq::new(retired@.len(), |k: int| retired@[k]@) =~= prev_retired.push(
                        pre.first(),
                    ));
                    assert(prev_retired.push(pre.first()) + retired_lobbies(
                        pre.drop_first(),
                        timeout,
                        now,
                    ) =~= prev_retired + retired_lobbies(pre, timeout, now));
                    assert(retained_lobbies(pre, timeout, now) =~= retained_lobbies(
                        pre.drop_first(),
                        timeout,
                        now,
                    ));
                }
            } else {
                kept.push(lob);
                proof {
                    assert(Seq::new(kept@.len(), |k: int| kept@[k]@) =~= prev_kept.push(
                        pre.first(),
                    ));
                    assert(prev_kept.push(pre.first()) + retained_lobbies(
                        pre.drop_first(),
                        timeout,
                        now,
                    ) =~= prev_kept + retained_lobbies(pre, timeout, now));
                    assert(retired_lobbies(pre, timeout, now) =~= retired_lobbies(
                        pre.drop_first(),
                        timeout,
                        now,
                    ));
                }
            }
        }
        proof {
            assert(self.lobbies_v() =~= Seq::<LobbyV>::empty());
        }
        self.lobbies = kept;
        proof {
            let orig = old(self).lobbies_v();
            assert(self.lobbies_v() =~= Seq::new(kept@.len(), |k: int| kept@[k]@));
            assert(self.lobbies_v() =~= retained_lobbies(orig, timeout, now));
            assert(self.players_v() =~= old(self).players_v());
            lemma_retained_subset(orig, timeout, now);
            lemma_retained_unique(orig, timeout, now);
            assert(self.wf());
            lemma_rostered_after_retention(*old(self), *self, timeout, now);
        }
        retired
    }
}

/// A lobby that the idle sweep keeps appears among the retained lobbies.
proof fn lemma_retained_contains(s: Seq<LobbyV>, timeout: u64, now: i64, i: int)
    requires
        0 <= i < s.len(),
        !(s[i].players.len() == 0 && now - s[i].last_activity >= timeout),
    ensures
        exists|j: int|
            0 <= j < retained_lobbies(s, timeout, now).len() && #[trigger] retained_lobbies(
                s,
                timeout,
                now,
            )[j] == s[i],
    decreases s.len(),
{
    let out = retained_lobbies(s, timeout, now);
    if i == 0 {
        assert(out[0] == s[0]);
    } else {
        lemma_retained_contains(s.drop_first(), timeout, now, i - 1);
        let rest = retained_lobbies(s.drop_first(), timeout, now);
        let j = choose|j: int|
            0 <= j < rest.len() && #[trigger] rest[j] == s.drop_first()[i - 1];
        if s.first().players.len() == 0 && now - s.first().last_activity >= timeout {
            assert(out[j] == s[i]);
        } else {
            assert(out[j + 1] == s[i]);
        }
    }
}

/// Every retained lobby was in the store.
proof fn lemma_retained_subset(s: Seq<LobbyV>, timeout: u64, now: i64)
    ensures
        forall|j: int|
            0 <= j < retained_lobbies(s, timeout, now).len() ==> exists|i: int|
                0 <= i < s.len() && #[trigger] s[i] == #[trigger] retained_lobbies(
                    s,
                    timeout,
                    now,
                )[j],
    decreases s.len(),
{
    if s.len() == 0 {
    } else {
        lemma_retained_subset(s.drop_first(), timeout, now);
        let out = retained_lobbies(s, timeout, now);
        let rest = retained_lobbies(s.drop_first(), timeout, now);
        assert forall|j: int| 0 <= j < out.len() implies exists|i: int|
            0 <= i < s.len() && #[trigger] s[i] == #[trigger] out[j] by {
            if s.first().players.len() == 0 && now - s.first().last_activity >= timeout {
                let i = choose|i: int|
                    0 <= i < s.drop_first().len() && #[trigger] s.drop_first()[i] == rest[j];
                assert(s[i + 1] == out[j]);
            } else {
                if j == 0 {
                    assert(s[0] == out[j]);
                } else {
                    let i = choose|i: int|
                        0 <= i < s.drop_first().len() && #[trigger] s.drop_first()[i] == rest[j
                            - 1];
                    assert(s[i + 1] == out[j]);
                }
            }
        }
    }
}

/// The idle sweep keeps lobby names pairwise distinct and every lobby
/// well-formed.
proof fn lemma_retained_unique(s: Seq<LobbyV>, timeout: u64, now: i64)
    requires
        forall|i: int, j: int|
            0 <= i < j < s.len() ==> (#[trigger] s[i]).name != (#[trigger] s[j]).name,
        forall|i: int| 0 <= i < s.len() ==> (#[trigger] s[i]).wf(),
    ensures
        forall|i: int, j: int|
            0 <= i < j < retained_lobbies(s, timeout, now).len() ==> (#[trigger] retained_lobbies(
                s,
                timeout,
                now,
            )[i]).name != (#[trigger] retained_lobbies(s, timeout, now)[j]).name,
        forall|i: int|
            0 <= i < retained_lobbies(s, timeout, now).len() ==> (#[trigger] retained_lobbies(
                s,
                timeout,
                now,
            )[i]).wf(),
    decreases s.len(),
{
    if s.len() == 0 {
    } else {
        assert(forall|i: int, j: int|
            0 <= i < j < s.drop_first().len() ==> (#[trigger] s.drop_first()[i]).name != (
            #[trigger] s.drop_first()[j]).name);
        assert(forall|i: int|
            0 <= i < s.drop_first().len() ==> (#[trigger] s.drop_first()[i]).wf());
        lemma_retained_unique(s.drop_first(), timeout, now);
        lemma_retained_subset(s.drop_first(), timeout, now);
        let out = retained_lobbies(s, timeout, now);
        let rest = retained_lobbies(s.drop_first(), timeout, now);
        if !(s.first().players.len() == 0 && now - s.first().last_activity >= timeout) {
            assert forall|i: int, j: int| 0 <= i < j < out.len() implies (#[trigger] out[i]).name
                != (#[trigger] out[j]).name by {
                if i == 0 {
                    assert(out[j] == rest[j - 1]);
                    let p = choose|p: int|
                        0 <= p < s.drop_first().len() && #[trigger] s.drop_first()[p] == rest[j
                            - 1];
                    assert(s[0].name != s[p + 1].name);
                } else {
                    assert(out[i] == rest[i - 1] && out[j] == rest[j - 1]);
                }
            }
            assert forall|i: int| 0 <= i < out.len() implies (#[trigger] out[i]).wf() by {
                if i == 0 {
                    assert(out[0] == s[0]);
                } else {
                    assert(out[i] == rest[i - 1]);
                    let p = choose|p: int|
                        0 <= p < s.drop_first().len() && #[trigger] s.drop_first()[p] == rest[i
                            - 1];
                    assert(s[p + 1].wf());
                }
            }
        } else {
            assert forall|i: int| 0 <= i < out.len() implies (#[trigger] out[i]).wf() by {
                assert(out[i] == rest[i]);
                let p = choose|p: int|
                    0 <= p < s.drop_first().len() && #[trigger] s.drop_first()[p] == rest[i];
                assert(s[p + 1].wf());
            }
        }
    }
}


/// Retiring only empty lobbies keeps every registered player's lobby in
/// the store, with the player still on its roster.
proof fn lemma_rostered_after_retention(
    pre: ServerState,
    post: ServerState,
    timeout: u64,
    now: i64,
)
    requires
        pre.players_rostered(),
        post.players_v() == pre.players_v(),
        post.lobbies_v() == retained_lobbies(pre.lobbies_v(), timeout, now),
    ensures
        post.players_rostered(),
{
    let orig = pre.lobbies_v();
    assert forall|k: int|
        0 <= k < post.players_v().len() implies #[trigger] post.player_rostered_in(k) by {
        assert(pre.players_v()[k] == post.players_v()[k]);
        assert(pre.player_rostered_in(k));
        let j = choose|j: int|
            0 <= j < orig.len() && (#[trigger] orig[j]).name == pre.players_v()[k].lobby_name
                && orig[j].has_member(pre.players_v()[k].id);
        assert(orig[j].players.len() > 0);
        lemma_retained_contains(orig, timeout, now, j);
        let j2 = choose|j2: int|
            0 <= j2 < retained_lobbies(orig, timeout, now).len() && #[trigger] retained_lobbies(
                orig,
                timeout,
                now,
            )[j2] == orig[j];
        assert(post.lobbies_v()[j2] == orig[j]);
        assert(0 <= j2 < post.lobbies_v().len() && post.lobbies_v()[j2].name
            == post.players_v()[k].lobby_name && post.lobbies_v()[j2].has_member(
            post.players_v()[k].id,
        ));
    }
}

} // verus!
