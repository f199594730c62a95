//! Player identity: the id assigned at handshake, the owning lobby, the
//! liveness clock, and the last presence ("puppet") blob seen.

use vstd::prelude::*;
use crate::reliability::PeerAddr;

verus! {

/// One connected player, keyed by source address; the address-to-id
/// binding is the only binding.
#[derive(Debug, Clone)]
pub struct Player {
    pub id: u32,
    pub username: String,
    pub address: PeerAddr,
    pub lobby_name: String,
    /// Wall-clock seconds of the last datagram from this address.
    pub last_seen: i64,
    /// Wall-clock seconds of the handshake that created this player.
    pub connected_at: i64,
    /// The last puppet blob this player sent, forwarded verbatim to
    /// late-joining peers.
    pub last_puppet_state: Option<Vec<u8>>,
}

/// Mathematical image of a [`Player`].
#[verifier::ext_equal]
pub ghost struct PlayerV {
    pub id: u32,
    pub username: Seq<char>,
    pub address: PeerAddr,
    pub lobby_name: Seq<char>,
    pub last_seen: i64,
    pub connected_at: i64,
    pub last_puppet_state: Option<Seq<u8>>,
}

impl View for Player {
    type V = PlayerV;

    open spec fn view(&self) -> PlayerV {
        PlayerV {
            id: self.id,
            username: self.username@,
            address: self.address,
            lobby_name: self.lobby_name@,
            last_seen: self.last_seen,
            connected_at: self.connected_at,
            last_puppet_state: match self.last_puppet_state {
                Some(v) => Some(v@),
                None => None,
            },
        }
    }
}

impl Player {
    /// A fresh player: both clocks set to `now`, no puppet state yet.
    pub fn new(id: u32, username: String, address: PeerAddr, lobby_name: String, now: i64) -> (r:
        Player)
        ensures
            r@ == (PlayerV {
                id,
                username: username@,
                address,
                lobby_name: lobby_name@,
                last_seen: now,
                connected_at: now,
                last_puppet_state: None,
            }),
    {
        Player {
            id,
            username,
            address,
            lobby_name,
            last_seen: now,
            connected_at: now,
            last_puppet_state: None,
        }
    }

    /// Stamps the liveness clock.
    pub fn update_last_seen(&mut self, now: i64)
        ensures
            final(self)@ == (PlayerV { last_seen: now, ..old(self)@ }),
    {
        self.last_seen = now;
        proof {
            assert(self@ =~= PlayerV { last_seen: now, ..old(self)@ });
        }
    }

    /// Whether the player has been silent for at least `timeout_secs` as
    /// of `now`, measured over the integers (no wrap-around).
    pub fn is_timed_out(&self, timeout_secs: u64, now: i64) -> (r: bool)
        ensures
            r == (now - self@.last_seen >= timeout_secs),
    {
        (now as i128) - (self.last_seen as i128) >= timeout_secs as i128
    }
}

} // verus!
