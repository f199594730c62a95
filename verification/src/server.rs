//! The dispatcher: one handler per message kind. Every handler is a pure
//! state transition from decoded payload, sender address and clock to a
//! state mutation plus a list of outgoing messages; the caller performs
//! the sends and runs each reliable message through the outbound table.

use vstd::prelude::*;
use crate::lobby::JiggyV;
use crate::lobby::LobbyV;
use crate::lobby::MemberV;
use crate::player::PlayerV;
use crate::protocol::PacketType;
use crate::reliability::InboundDedup;
use crate::reliability::PeerAddr;
use crate::reliability::ReliableOutbound;
use crate::state::ServerState;
use crate::wire::i32_to_be_bytes;
use crate::wire::u32_to_be_bytes;
use crate::wire::u32_to_le_bytes;

verus! {

/// One outgoing message, before framing: the reliable kinds are later
/// assigned a sequence and entered into the pending table, the rest are
/// framed as they are.
#[derive(Debug, Clone)]
pub struct OutMsg {
    pub dest: PeerAddr,
    pub packet_type: PacketType,
    pub payload: Vec<u8>,
}

/// Mathematical image of an [`OutMsg`].
#[verifier::ext_equal]
pub ghost struct OutMsgV {
    pub dest: PeerAddr,
    pub packet_type: PacketType,
    pub payload: Seq<u8>,
}

impl View for OutMsg {
    type V = OutMsgV;

    open spec fn view(&self) -> OutMsgV {
        OutMsgV { dest: self.dest, packet_type: self.packet_type, payload: self.payload@ }
    }
}

/// A message list as it appears in contracts.
pub open spec fn out_v(msgs: Vec<OutMsg>) -> Seq<OutMsgV> {
    Seq::new(msgs@.len(), |i: int| msgs@[i]@)
}

/// A fully framed datagram, ready for one socket send.
#[derive(Debug, Clone)]
pub struct Datagram {
    pub dest: PeerAddr,
    pub bytes: Vec<u8>,
}

/// Two states equal in every observable: same lobby store, same
/// registry, same settings, same id counter.
pub open spec fn same_state(post: ServerState, pre: ServerState) -> bool {
    &&& post.lobbies_v() == pre.lobbies_v()
    &&& post.players_v() == pre.players_v()
    &&& post.config == pre.config
    &&& post.next_player_id == pre.next_player_id
}

/// The broadcast recipients for a lobby event from `except_addr`: every
/// registered player of the lobby other than the sender itself, in
/// registry order (ids are never 0, so no id is excluded).
pub open spec fn bcast_targets(
    players: Seq<PlayerV>,
    lobby_name: Seq<char>,
    except_addr: PeerAddr,
) -> Seq<PeerAddr>
    decreases players.len(),
{
    if players.len() == 0 {
        Seq::empty()
    } else {
        let rest = bcast_targets(players.drop_first(), lobby_name, except_addr);
        if players.first().lobby_name == lobby_name && players.first().id != 0
            && players.first().address != except_addr {
            seq![players.first().address] + rest
        } else {
            rest
        }
    }
}

/// One message of kind `t` with body `body` to each target, in order.
pub open spec fn fanout(targets: Seq<PeerAddr>, t: PacketType, body: Seq<u8>) -> Seq<OutMsgV> {
    Seq::new(targets.len(), |i: int| OutMsgV { dest: targets[i], packet_type: t, payload: body })
}

impl ServerState {
    /// Builds the broadcast of `payload` as kind `packet_type` to every
    /// player of the named lobby other than the sender.
    pub fn broadcast_to_lobby_except(
        &self,
        lobby_name: &String,
        except_addr: PeerAddr,
        packet_type: PacketType,
        payload: &[u8],
    ) -> (msgs: Vec<OutMsg>)
        ensures
            out_v(msgs) == fanout(
                bcast_targets(self.players_v(), lobby_name@, except_addr),
                packet_type,
                payload@,
            ),
    {
        let ghost targets = bcast_targets(self.players_v(), lobby_name@, except_addr);
        let n = self.players.len();
        let mut msgs: Vec<OutMsg> = Vec::new();
        let mut i: usize = 0;
        proof {
            assert(self.players_v().skip(0) =~= self.players_v());
            assert(Seq::new(msgs@.len(), |k: int| msgs@[k]@) + fanout(
                bcast_targets(self.players_v(), lobby_name@, except_addr),
                packet_type,
                payload@,
            ) =~= fanout(targets, packet_type, payload@));
        }
        while i < n
            invariant
                n == self.players@.len(),
                i <= n,
                targets == bcast_targets(self.players_v(), lobby_name@, except_addr),
                Seq::new(msgs@.len(), |k: int| msgs@[k]@) + fanout(
                    bcast_targets(self.players_v().skip(i as int), lobby_name@, except_addr),
                    packet_type,
                    payload@,
                ) =~= fanout(targets, packet_type, payload@),
            decreases n - i,
        {
            proof {
                assert(self.players_v().skip(i as int).drop_first() =~= self.players_v().skip(
                    i + 1,
                ));
                assert(self.players_v().skip(i as int).first() == self.players_v()[i as int]);
                assert(fanout(
                    bcast_targets(self.players_v().skip(i as int), lobby_name@, except_addr),
                    packet_type,
                    payload@,
                ) =~= if self.players_v()[i as int].lobby_name == lobby_name@
                    && self.players_v()[i as int].id != 0 && self.players_v()[i as int].address
                    != except_addr {
                    seq![
                        OutMsgV {
                            dest: self.players_v()[i as int].address,
                            packet_type,
                            payload: payload@,
                        },
                    ] + fanout(
                        bcast_targets(self.players_v().skip(i + 1), lobby_name@, except_addr),
                        packet_type,
                        payload@,
                    )
                } else {
                    fanout(
                        bcast_targets(self.players_v().skip(i + 1), lobby_name@, except_addr),
                        packet_type,
                        payload@,
                    )
                });
            }
            let ghost prev = Seq::new(msgs@.len(), |k: int| msgs@[k]@);
            let p = &self.players[i];
            if p.lobby_name == *lobby_name && p.id != 0 && !(p.address.ip == except_addr.ip
                && p.address.port == except_addr.port) {
                msgs.push(
                    OutMsg {
                        dest: p.address,
                        packet_type,
                        payload: vstd::slice::slice_to_vec(payload),
                    },
                );
                proof {
                    assert(Seq::new(msgs@.len(), |k: int| msgs@[k]@) =~= prev.push(
                        OutMsgV {
                            dest: self.players_v()[i as int].address,
                            packet_type,
                            payload: payload@,
                        },
                    ));
                }
            } else {
                proof {
                    assert(!(self.players_v()[i as int].lobby_name == lobby_name@
                        && self.players_v()[i as int].id != 0
                        && self.players_v()[i as int].address != except_addr));
                }
            }
            i = i + 1;
        }
        proof {
            assert(self.players_v().skip(n as int) =~= Seq::<PlayerV>::empty());
            assert(out_v(msgs) =~= fanout(targets, packet_type, payload@));
        }
        msgs
    }
}

/// The nine note-save-data messages of a full snapshot, slot order.
pub open spec fn note_slot_msgs(l: LobbyV, dest: PeerAddr) -> Seq<OutMsgV> {
    Seq::new(
        l.save_flags.note_save_data.len(),
        |i: int| OutMsgV {
            dest,
            packet_type: PacketType::NoteSaveData,
            payload: i32_to_be_bytes(i as i32) + l.save_flags.note_save_data[i],
        },
    )
}

/// The four savefile-blob messages of a full snapshot, in order.
pub open spec fn blob_msgs(l: LobbyV, dest: PeerAddr) -> Seq<OutMsgV> {
    seq![
        OutMsgV {
            dest,
            packet_type: PacketType::FileProgressFlags,
            payload: l.save_flags.file_progress_flags,
        },
        OutMsgV {
            dest,
            packet_type: PacketType::AbilityProgress,
            payload: l.save_flags.ability_progress,
        },
        OutMsgV {
            dest,
            packet_type: PacketType::HoneycombScore,
            payload: l.save_flags.honeycomb_score,
        },
        OutMsgV { dest, packet_type: PacketType::MumboScore, payload: l.save_flags.mumbo_score },
    ]
}

/// The jiggy history replays of a full snapshot: sender id 0 marks
/// history.
pub open spec fn jiggy_replay_msgs(l: LobbyV, dest: PeerAddr) -> Seq<OutMsgV> {
    Seq::new(
        l.collected_jiggies.len(),
        |i: int| OutMsgV {
            dest,
            packet_type: PacketType::JiggyCollected,
            payload: u32_to_be_bytes(0) + i32_to_be_bytes(l.collected_jiggies[i].level_id)
                + i32_to_be_bytes(l.collected_jiggies[i].jiggy_id),
        },
    )
}

/// The honeycomb history replays of a full snapshot.
pub open spec fn honeycomb_replay_msgs(l: LobbyV, dest: PeerAddr) -> Seq<OutMsgV> {
    Seq::new(
        l.collected_honeycombs.len(),
        |i: int| OutMsgV {
            dest,
            packet_type: PacketType::HoneycombCollected,
            payload: u32_to_be_bytes(0) + i32_to_be_bytes(l.collected_honeycombs[i].map_id)
                + i32_to_be_bytes(l.collected_honeycombs[i].honeycomb_id) + i32_to_be_bytes(
                l.collected_honeycombs[i].x,
            ) + i32_to_be_bytes(l.collected_honeycombs[i].y) + i32_to_be_bytes(
                l.collected_honeycombs[i].z,
            ),
        },
    )
}

/// The Mumbo-token history replays of a full snapshot.
pub open spec fn token_replay_msgs(l: LobbyV, dest: PeerAddr) -> Seq<OutMsgV> {
    Seq::new(
        l.collected_mumbo_tokens.len(),
        |i: int| OutMsgV {
            dest,
            packet_type: PacketType::MumboTokenCollected,
            payload: u32_to_be_bytes(0) + i32_to_be_bytes(l.collected_mumbo_tokens[i].map_id)
                + i32_to_be_bytes(l.collected_mumbo_tokens[i].token_id) + i32_to_be_bytes(
                l.collected_mumbo_tokens[i].x,
            ) + i32_to_be_bytes(l.collected_mumbo_tokens[i].y) + i32_to_be_bytes(
                l.collected_mumbo_tokens[i].z,
            ),
        },
    )
}

/// The opened-level replays of a full snapshot: sender id 0 marks
/// history, then world id and cost, big-endian.
pub open spec fn level_replay_msgs(l: LobbyV, dest: PeerAddr) -> Seq<OutMsgV> {
    Seq::new(
        l.opened_levels.len(),
        |i: int| OutMsgV {
            dest,
            packet_type: PacketType::LevelOpened,
            payload: u32_to_be_bytes(0) + i32_to_be_bytes(l.opened_levels[i].world_id)
                + i32_to_be_bytes(l.opened_levels[i].jiggy_cost),
        },
    )
}

/// The full lobby snapshot sent to one destination, in order: the nine
/// note slots, the four savefile blobs, then every jiggy, honeycomb,
/// token and opened-level record, each replayed with sender id 0.
pub open spec fn full_state_msgs(l: LobbyV, dest: PeerAddr) -> Seq<OutMsgV> {
    note_slot_msgs(l, dest) + blob_msgs(l, dest) + jiggy_replay_msgs(l, dest)
        + honeycomb_replay_msgs(l, dest) + token_replay_msgs(l, dest) + level_replay_msgs(l, dest)
}

/// Builds the full snapshot of `lobby` for `dest`, exactly as
/// [`full_state_msgs`] lays it out. All of these kinds ride the reliable
/// path when framed.
pub fn full_lobby_state_msgs(lobby: &crate::lobby::Lobby, dest: PeerAddr) -> (msgs: Vec<OutMsg>)
    requires
        lobby@.save_flags.wf(),
    ensures
        out_v(msgs) == full_state_msgs(lobby@, dest),
{
    let mut msgs: Vec<OutMsg> = Vec::new();
    let slot_count = lobby.save_flags.note_save_data.len();
    let mut i: usize = 0;
    while i < slot_count
        invariant
            slot_count == lobby@.save_flags.note_save_data.len(),
            slot_count <= i32::MAX,
            i <= slot_count,
            Seq::new(msgs@.len(), |k: int| msgs@[k]@) =~= note_slot_msgs(lobby@, dest).take(
                i as int,
            ),
        decreases slot_count - i,
    {
        let ghost prev = Seq::new(msgs@.len(), |k: int| msgs@[k]@);
        let mut payload: Vec<u8> = Vec::new();
        crate::wire::write_i32_be(&mut payload, i as i32);
        payload.extend_from_slice(lobby.save_flags.note_save_data[i].as_slice());
        proof {
            assert(payload@ =~= i32_to_be_bytes(i as i32) + lobby@.save_flags.note_save_data[
                i as int]);
        }
        msgs.push(OutMsg { dest, packet_type: PacketType::NoteSaveData, payload });
        proof {
            assert(Seq::new(msgs@.len(), |k: int| msgs@[k]@) =~= prev.push(
                note_slot_msgs(lobby@, dest)[i as int],
            ));
            assert(note_slot_msgs(lobby@, dest).take(i + 1) =~= note_slot_msgs(
                lobby@,
                dest,
            ).take(i as int).push(note_slot_msgs(lobby@, dest)[i as int]));
        }
        i = i + 1;
    }
    proof {
        assert(note_slot_msgs(lobby@, dest).take(slot_count as int) =~= note_slot_msgs(
            lobby@,
            dest,
        ));
    }
    msgs.push(
        OutMsg {
            dest,
            packet_type: PacketType::FileProgressFlags,
            payload: lobby.save_flags.file_progress_flags.clone(),
        },
    );
    msgs.push(
        OutMsg {
            dest,
            packet_type: PacketType::AbilityProgress,
            payload: lobby.save_flags.ability_progress.clone(),
        },
    );
    msgs.push(
        OutMsg {
            dest,
            packet_type: PacketType::HoneycombScore,
            payload: lobby.save_flags.honeycomb_score.clone(),
        },
    );
    msgs.push(
        OutMsg {
            dest,
            packet_type: PacketType::MumboScore,
            payload: lobby.save_flags.mumbo_score.clone(),
        },
    );
    proof {
        assert(Seq::new(msgs@.len(), |k: int| msgs@[k]@) =~= note_slot_msgs(lobby@, dest)
            + blob_msgs(lobby@, dest));
    }
    let ghost base1 = note_slot_msgs(lobby@, dest) + blob_msgs(lobby@, dest);
    let jn = lobby.collected_jiggies.len();
    let mut i: usize = 0;
    while i < jn
        invariant
            jn == lobby@.collected_jiggies.len(),
            i <= jn,
            base1 == note_slot_msgs(lobby@, dest) + blob_msgs(lobby@, dest),
            Seq::new(msgs@.len(), |k: int| msgs@[k]@) =~= base1 + jiggy_replay_msgs(
                lobby@,
                dest,
            ).take(i as int),
        decreases jn - i,
    {
        let ghost prev = Seq::new(msgs@.len(), |k: int| msgs@[k]@);
        let j = &lobby.collected_jiggies[i];
        let mut payload: Vec<u8> = Vec::new();
        crate::wire::write_u32_be(&mut payload, 0);
        crate::wire::write_i32_be(&mut payload, j.level_id);
        crate::wire::write_i32_be(&mut payload, j.jiggy_id);
        proof {
            assert(payload@ =~= u32_to_be_bytes(0) + i32_to_be_bytes(
                lobby@.collected_jiggies[i as int].level_id,
            ) + i32_to_be_bytes(lobby@.collected_jiggies[i as int].jiggy_id));
        }
        msgs.push(OutMsg { dest, packet_type: PacketType::JiggyCollected, payload });
        proof {
            assert(Seq::new(msgs@.len(), |k: int| msgs@[k]@) =~= prev.push(
                jiggy_replay_msgs(lobby@, dest)[i as int],
            ));
            assert(base1 + jiggy_replay_msgs(lobby@, dest).take(i + 1) =~= (base1
                + jiggy_replay_msgs(lobby@, dest).take(i as int)).push(
                jiggy_replay_msgs(lobby@, dest)[i as int],
            ));
        }
        i = i + 1;
    }
    proof {
        assert(jiggy_replay_msgs(lobby@, dest).take(jn as int) =~= jiggy_replay_msgs(
            lobby@,
            dest,
        ));
    }
    let ghost base2 = base1 + jiggy_replay_msgs(lobby@, dest);
    let hn = lobby.collected_honeycombs.len();
    let mut i: usize = 0;
    while i < hn
        invariant
            hn == lobby@.collected_honeycombs.len(),
            i <= hn,
            base2 == note_slot_msgs(lobby@, dest) + blob_msgs(lobby@, dest) + jiggy_replay_msgs(
                lobby@,
                dest,
            ),
            Seq::new(msgs@.len(), |k: int| msgs@[k]@) =~= base2 + honeycomb_replay_msgs(
                lobby@,
                dest,
            ).take(i as int),
        decreases hn - i,
    {
        let ghost prev = Seq::new(msgs@.len(), |k: int| msgs@[k]@);
        let h = &lobby.collected_honeycombs[i];
        let mut payload: Vec<u8> = Vec::new();
        crate::wire::write_u32_be(&mut payload, 0);
        crate::wire::write_i32_be(&mut payload, h.map_id);
        crate::wire::write_i32_be(&mut payload, h.honeycomb_id);
        crate::wire::write_i32_be(&mut payload, h.x);
        crate::wire::write_i32_be(&mut payload, h.y);
        crate::wire::write_i32_be(&mut payload, h.z);
        proof {
            assert(payload@ =~= honeycomb_replay_msgs(lobby@, dest)[i as int].payload);
        }
        msgs.push(OutMsg { dest, packet_type: PacketType::HoneycombCollected, payload });
        proof {
            assert(Seq::new(msgs@.len(), |k: int| msgs@[k]@) =~= prev.push(
                honeycomb_replay_msgs(lobby@, dest)[i as int],
            ));
            assert(base2 + honeycomb_replay_msgs(lobby@, dest).take(i + 1) =~= (base2
                + honeycomb_replay_msgs(lobby@, dest).take(i as int)).push(
                honeycomb_replay_msgs(lobby@, dest)[i as int],
            ));
        }
        i = i + 1;
    }
    proof {
        assert(honeycomb_replay_msgs(lobby@, dest).take(hn as int) =~= honeycomb_replay_msgs(
            lobby@,
            dest,
        ));
    }
    let ghost base3 = base2 + honeycomb_replay_msgs(lobby@, dest);
    let tn = lobby.collected_mumbo_tokens.len();
    let mut i: usize = 0;
    while i < tn
        invariant
            tn == lobby@.collected_mumbo_tokens.len(),
            i <= tn,
            base3 == note_slot_msgs(lobby@, dest) + blob_msgs(lobby@, dest) + jiggy_replay_msgs(
                lobby@,
                dest,
            ) + honeycomb_replay_msgs(lobby@, dest),
            Seq::new(msgs@.len(), |k: int| msgs@[k]@) =~= base3 + token_replay_msgs(
                lobby@,
                dest,
            ).take(i as int),
        decreases tn - i,
    {
        let ghost prev = Seq::new(msgs@.len(), |k: int| msgs@[k]@);
        let t = &lobby.collected_mumbo_tokens[i];
        let mut payload: Vec<u8> = Vec::new();
        crate::wire::write_u32_be(&mut payload, 0);
        crate::wire::write_i32_be(&mut payload, t.map_id);
        crate::wire::write_i32_be(&mut payload, t.token_id);
        crate::wire::write_i32_be(&mut payload, t.x);
        crate::wire::write_i32_be(&mut payload, t.y);
        crate::wire::write_i32_be(&mut payload, t.z);
        proof {
            assert(payload@ =~= token_replay_msgs(lobby@, dest)[i as int].payload);
        }
        msgs.push(OutMsg { dest, packet_type: PacketType::MumboTokenCollected, payload });
        proof {
            assert(Seq::new(msgs@.len(), |k: int| msgs@[k]@) =~= prev.push(
                token_replay_msgs(lobby@, dest)[i as int],
            ));
            assert(base3 + token_replay_msgs(lobby@, dest).take(i + 1) =~= (base3
                + token_replay_msgs(lobby@, dest).take(i as int)).push(
                token_replay_msgs(lobby@, dest)[i as int],
            ));
        }
        i = i + 1;
    }
    proof {
        assert(token_replay_msgs(lobby@, dest).take(tn as int) =~= token_replay_msgs(
            lobby@,
            dest,
        ));
    }
    let ghost base4 = base3 + token_replay_msgs(lobby@, dest);
    let ln = lobby.opened_levels.len();
    let mut i: usize = 0;
    while i < ln
        invariant
            ln == lobby@.opened_levels.len(),
            i <= ln,
            base4 == note_slot_msgs(lobby@, dest) + blob_msgs(lobby@, dest) + jiggy_replay_msgs(
                lobby@,
                dest,
            ) + honeycomb_replay_msgs(lobby@, dest) + token_replay_msgs(lobby@, dest),
            Seq::new(msgs@.len(), |k: int| msgs@[k]@) =~= base4 + level_replay_msgs(
                lobby@,
                dest,
            ).take(i as int),
        decreases ln - i,
    {
        let ghost prev = Seq::new(msgs@.len(), |k: int| msgs@[k]@);
        let o = &lobby.opened_levels[i];
        let mut payload: Vec<u8> = Vec::new();
        crate::wire::write_u32_be(&mut payload, 0);
        crate::wire::write_i32_be(&mut payload, o.world_id);
        crate::wire::write_i32_be(&mut payload, o.jiggy_cost);
        proof {
            assert(payload@ =~= level_replay_msgs(lobby@, dest)[i as int].payload);
        }
        msgs.push(OutMsg { dest, packet_type: PacketType::LevelOpened, payload });
        proof {
            assert(Seq::new(msgs@.len(), |k: int| msgs@[k]@) =~= prev.push(
                level_replay_msgs(lobby@, dest)[i as int],
            ));
            assert(base4 + level_replay_msgs(lobby@, dest).take(i + 1) =~= (base4
                + level_replay_msgs(lobby@, dest).take(i as int)).push(
                level_replay_msgs(lobby@, dest)[i as int],
            ));
        }
        i = i + 1;
    }
    proof {
        assert(level_replay_msgs(lobby@, dest).take(ln as int) =~= level_replay_msgs(
            lobby@,
            dest,
        ));
        assert(out_v(msgs) =~= full_state_msgs(lobby@, dest));
    }
    msgs
}

impl ServerState {
    /// The registry index of the player at `addr` (meaningful when one
    /// exists; unique under well-formedness).
    pub open spec fn player_index_at(self, addr: PeerAddr) -> int {
        choose|i: int|
            0 <= i < self.players_v().len() && (#[trigger] self.players_v()[i]).address == addr
    }

    /// The store index of the lobby with the given name (meaningful when
    /// one exists; unique under well-formedness).
    pub open spec fn lobby_index_named(self, name: Seq<char>) -> int {
        choose|j: int|
            0 <= j < self.lobbies_v().len() && (#[trigger] self.lobbies_v()[j]).name == name
    }

    /// Under well-formedness, any registry index holding `addr` is the
    /// player index of `addr`.
    pub proof fn lemma_player_index(self, addr: PeerAddr, i: int)
        requires
            self.wf(),
            0 <= i < self.players_v().len(),
            self.players_v()[i].address == addr,
        ensures
            self.player_index_at(addr) == i,
            self.has_player_at(addr),
    {
        let j = self.player_index_at(addr);
        if i < j {
            assert(self.players_v()[i].address != self.players_v()[j].address);
        } else if j < i {
            assert(self.players_v()[j].address != self.players_v()[i].address);
        }
    }

    /// Under well-formedness, any store index holding `name` is the lobby
    /// index of `name`.
    pub proof fn lemma_lobby_index(self, name: Seq<char>, j: int)
        requires
            self.wf(),
            0 <= j < self.lobbies_v().len(),
            self.lobbies_v()[j].name == name,
        ensures
            self.lobby_index_named(name) == j,
            self.has_lobby(name),
    {
        let k = self.lobby_index_named(name);
        if j < k {
            assert(self.lobbies_v()[j].name != self.lobbies_v()[k].name);
        } else if k < j {
            assert(self.lobbies_v()[k].name != self.lobbies_v()[j].name);
        }
    }
}

/// Observable equality carries well-formedness and rosteredness over.
proof fn lemma_same_state_props(pre: ServerState, post: ServerState)
    requires
        same_state(post, pre),
    ensures
        pre.wf() ==> post.wf(),
        pre.players_rostered() ==> post.players_rostered(),
{
    if pre.wf() {
        assert forall|i: int, j: int|
            0 <= i < j < post.lobbies_v().len() implies (#[trigger] post.lobbies_v()[i]).name != (
        #[trigger] post.lobbies_v()[j]).name by {
            assert(post.lobbies_v()[i] == pre.lobbies_v()[i]);
            assert(post.lobbies_v()[j] == pre.lobbies_v()[j]);
        }
        assert forall|i: int| 0 <= i < post.lobbies_v().len() implies (
        #[trigger] post.lobbies_v()[i]).wf() by {
            assert(post.lobbies_v()[i] == pre.lobbies_v()[i]);
        }
        assert forall|i: int, j: int|
            0 <= i < j < post.players_v().len() implies (#[trigger] post.players_v()[i]).id != (
        #[trigger] post.players_v()[j]).id && post.players_v()[i].address
            != post.players_v()[j].address by {
            assert(post.players_v()[i] == pre.players_v()[i]);
            assert(post.players_v()[j] == pre.players_v()[j]);
        }
        assert forall|i: int| 0 <= i < post.players_v().len() implies 1 <= (
        #[trigger] post.players_v()[i]).id < post.next_player_id by {
            assert(post.players_v()[i] == pre.players_v()[i]);
        }
    }
    if pre.players_rostered() {
        assert forall|i: int|
            0 <= i < post.players_v().len() implies #[trigger] post.player_rostered_in(i) by {
            assert(pre.players_v()[i] == post.players_v()[i]);
            assert(pre.player_rostered_in(i));
            let j = choose|j: int|
                0 <= j < pre.lobbies_v().len() && (#[trigger] pre.lobbies_v()[j]).name
                    == pre.players_v()[i].lobby_name && pre.lobbies_v()[j].has_member(
                    pre.players_v()[i].id,
                );
            assert(post.lobbies_v()[j] == pre.lobbies_v()[j]);
            assert(0 <= j < post.lobbies_v().len() && post.lobbies_v()[j].name
                == post.players_v()[i].lobby_name && post.lobbies_v()[j].has_member(
                post.players_v()[i].id,
            ));
        }
    }
}

/// Mutating one lobby's progression (name and roster untouched) keeps the
/// whole state well-formed and every player rostered.
proof fn lemma_wf_after_lobby_update(pre: ServerState, post: ServerState, lj: int)
    requires
        pre.wf(),
        post.players_v() == pre.players_v(),
        post.next_player_id == pre.next_player_id,
        post.lobbies_v().len() == pre.lobbies_v().len(),
        0 <= lj < pre.lobbies_v().len(),
        forall|j: int|
            0 <= j < pre.lobbies_v().len() && j != lj ==> post.lobbies_v()[j] == pre.lobbies_v()[j],
        post.lobbies_v()[lj].name == pre.lobbies_v()[lj].name,
        post.lobbies_v()[lj].players == pre.lobbies_v()[lj].players,
        post.lobbies_v()[lj].wf(),
    ensures
        post.wf(),
        pre.players_rostered() ==> post.players_rostered(),
{
    assert forall|i: int, j: int|
        0 <= i < j < post.lobbies_v().len() implies (#[trigger] post.lobbies_v()[i]).name != (
    #[trigger] post.lobbies_v()[j]).name by {
        assert(post.lobbies_v()[i].name == pre.lobbies_v()[i].name);
        assert(post.lobbies_v()[j].name == pre.lobbies_v()[j].name);
    }
    assert forall|i: int| 0 <= i < post.lobbies_v().len() implies (
    #[trigger] post.lobbies_v()[i]).wf() by {
        if i != lj {
            assert(post.lobbies_v()[i] == pre.lobbies_v()[i]);
        }
    }
    if pre.players_rostered() {
        assert forall|i: int|
            0 <= i < post.players_v().len() implies #[trigger] post.player_rostered_in(i) by {
            assert(pre.players_v()[i] == post.players_v()[i]);
            assert(pre.player_rostered_in(i));
            let j = choose|j: int|
                0 <= j < pre.lobbies_v().len() && (#[trigger] pre.lobbies_v()[j]).name
                    == pre.players_v()[i].lobby_name && pre.lobbies_v()[j].has_member(
                    pre.players_v()[i].id,
                );
            assert(post.lobbies_v()[j].name == pre.lobbies_v()[j].name);
            assert(post.lobbies_v()[j].players == pre.lobbies_v()[j].players);
            assert(0 <= j < post.lobbies_v().len() && post.lobbies_v()[j].name
                == post.players_v()[i].lobby_name && post.lobbies_v()[j].has_member(
                post.players_v()[i].id,
            ));
        }
    }
}

/// The exact effect of a jiggy collection on the shared state and the
/// outgoing messages, as [`ServerState::handle_jiggy_collected`] ensures it.
pub open spec fn jiggy_transition(
    pre: ServerState,
    post: ServerState,
    payload: Seq<u8>,
    addr: PeerAddr,
    now: i64,
    msgs: Seq<OutMsgV>,
) -> bool {
    &&& post.players_v() == pre.players_v()
    &&& post.config == pre.config
    &&& post.next_player_id == pre.next_player_id
    &&& payload.len() != 8 ==> same_state(post, pre) && msgs == Seq::<OutMsgV>::empty()
    &&& payload.len() == 8 && !pre.has_player_at(addr) ==> same_state(
            post,
            pre,
        ) && msgs == Seq::<OutMsgV>::empty()
    &&& payload.len() == 8 && pre.has_player_at(addr) ==> ({
            let p = pre.players_v()[pre.player_index_at(addr)];
            let jid = crate::wire::i32_from_le_bytes(payload.subrange(0, 4));
            let jval = crate::wire::i32_from_le_bytes(payload.subrange(4, 8));
            &&& (!pre.has_lobby(p.lobby_name) ==> same_state(post, pre)
                && msgs == Seq::<OutMsgV>::empty())
            &&& (pre.has_lobby(p.lobby_name) ==> ({
                let lj = pre.lobby_index_named(p.lobby_name);
                let lob = pre.lobbies_v()[lj];
                &&& (lob.jiggy_collected(jid, jval) ==> same_state(post, pre)
                    && msgs == Seq::<OutMsgV>::empty())
                &&& (!lob.jiggy_collected(jid, jval) ==> {
                    &&& post.lobbies_v() == pre.lobbies_v().update(
                        lj,
                        (LobbyV {
                            collected_jiggies: lob.collected_jiggies.push(
                                JiggyV {
                                    level_id: jid,
                                    jiggy_id: jval,
                                    collected_by: p.username,
                                    timestamp: now,
                                },
                            ),
                            last_activity: now,
                            ..lob
                        }),
                    )
                    &&& msgs == fanout(
                        bcast_targets(pre.players_v(), p.lobby_name, addr),
                        PacketType::JiggyCollected,
                        u32_to_be_bytes(p.id) + i32_to_be_bytes(jid) + i32_to_be_bytes(jval),
                    )
                })
            }))
        })
}

/// The exact effect of a honeycomb collection on the shared state and the
/// outgoing messages, as [`ServerState::handle_honeycomb_collected`] ensures it.
pub open spec fn honeycomb_transition(
    pre: ServerState,
    post: ServerState,
    payload: Seq<u8>,
    addr: PeerAddr,
    now: i64,
    msgs: Seq<OutMsgV>,
) -> bool {
    &&& post.players_v() == pre.players_v()
    &&& post.config == pre.config
    &&& post.next_player_id == pre.next_player_id
    &&& payload.len() != 20 ==> same_state(post, pre) && msgs == Seq::<OutMsgV>::empty()
    &&& payload.len() == 20 && !pre.has_player_at(addr) ==> same_state(
            post,
            pre,
        ) && msgs == Seq::<OutMsgV>::empty()
    &&& payload.len() == 20 && pre.has_player_at(addr) ==> ({
            let p = pre.players_v()[pre.player_index_at(addr)];
            let map_id = crate::wire::i32_from_le_bytes(payload.subrange(0, 4));
            let hid = crate::wire::i32_from_le_bytes(payload.subrange(4, 8));
            let x = crate::wire::i32_from_le_bytes(payload.subrange(8, 12));
            let y = crate::wire::i32_from_le_bytes(payload.subrange(12, 16));
            let z = crate::wire::i32_from_le_bytes(payload.subrange(16, 20));
            &&& (!pre.has_lobby(p.lobby_name) ==> same_state(post, pre)
                && msgs == Seq::<OutMsgV>::empty())
            &&& (pre.has_lobby(p.lobby_name) ==> ({
                let lj = pre.lobby_index_named(p.lobby_name);
                let lob = pre.lobbies_v()[lj];
                &&& (lob.honeycomb_collected(map_id, hid) ==> same_state(
                    post,
                    pre,
                ) && msgs == Seq::<OutMsgV>::empty())
                &&& (!lob.honeycomb_collected(map_id, hid) ==> {
                    &&& post.lobbies_v() == pre.lobbies_v().update(
                        lj,
                        (LobbyV {
                            collected_honeycombs: lob.collected_honeycombs.push(
                                crate::lobby::HoneycombV {
                                    map_id,
                                    honeycomb_id: hid,
                                    x,
                                    y,
                                    z,
                                    collected_by: p.username,
                                    timestamp: now,
                                },
                            ),
                            last_activity: now,
                            ..lob
                        }),
                    )
                    &&& msgs == fanout(
                        bcast_targets(pre.players_v(), p.lobby_name, addr),
                        PacketType::HoneycombCollected,
                        u32_to_be_bytes(p.id) + i32_to_be_bytes(map_id) + i32_to_be_bytes(hid)
                            + i32_to_be_bytes(x) + i32_to_be_bytes(y) + i32_to_be_bytes(z),
                    )
                })
            }))
        })
}

/// The exact effect of a Mumbo-token collection on the shared state and the
/// outgoing messages, as [`ServerState::handle_mumbo_token_collected`] ensures it.
pub open spec fn token_transition(
    pre: ServerState,
    post: ServerState,
    payload: Seq<u8>,
    addr: PeerAddr,
    now: i64,
    msgs: Seq<OutMsgV>,
) -> bool {
    &&& post.players_v() == pre.players_v()
    &&& post.config == pre.config
    &&& post.next_player_id == pre.next_player_id
    &&& payload.len() != 20 ==> same_state(post, pre) && msgs == Seq::<OutMsgV>::empty()
    &&& payload.len() == 20 && !pre.has_player_at(addr) ==> same_state(
            post,
            pre,
        ) && msgs == Seq::<OutMsgV>::empty()
    &&& payload.len() == 20 && pre.has_player_at(addr) ==> ({
            let p = pre.players_v()[pre.player_index_at(addr)];
            let map_id = crate::wire::i32_from_le_bytes(payload.subrange(0, 4));
            let tid = crate::wire::i32_from_le_bytes(payload.subrange(4, 8));
            let x = crate::wire::i32_from_le_bytes(payload.subrange(8, 12));
            let y = crate::wire::i32_from_le_bytes(payload.subrange(12, 16));
            let z = crate::wire::i32_from_le_bytes(payload.subrange(16, 20));
            &&& (!pre.has_lobby(p.lobby_name) ==> same_state(post, pre)
                && msgs == Seq::<OutMsgV>::empty())
            &&& (pre.has_lobby(p.lobby_name) ==> ({
                let lj = pre.lobby_index_named(p.lobby_name);
                let lob = pre.lobbies_v()[lj];
                &&& (lob.token_collected(map_id, tid) ==> same_state(post, pre)
                    && msgs == Seq::<OutMsgV>::empty())
                &&& (!lob.token_collected(map_id, tid) ==> {
                    &&& post.lobbies_v() == pre.lobbies_v().update(
                        lj,
                        (LobbyV {
                            collected_mumbo_tokens: lob.collected_mumbo_tokens.push(
                                crate::lobby::MumboTokenV {
                                    map_id,
                                    token_id: tid,
                                    x,
                                    y,
                                    z,
                                    collected_by: p.username,
                                    timestamp: now,
                                },
                            ),
                            last_activity: now,
                            ..lob
                        }),
                    )
                    &&& msgs == fanout(
                        bcast_targets(pre.players_v(), p.lobby_name, addr),
                        PacketType::MumboTokenCollected,
                        u32_to_be_bytes(p.id) + i32_to_be_bytes(map_id) + i32_to_be_bytes(tid)
                            + i32_to_be_bytes(x) + i32_to_be_bytes(y) + i32_to_be_bytes(z),
                    )
                })
            }))
        })
}

/// The exact effect of a level opening on the shared state and the
/// outgoing messages, as [`ServerState::handle_level_opened`] ensures it.
pub open spec fn level_transition(
    pre: ServerState,
    post: ServerState,
    payload: Seq<u8>,
    addr: PeerAddr,
    now: i64,
    msgs: Seq<OutMsgV>,
) -> bool {
    &&& post.players_v() == pre.players_v()
    &&& post.config == pre.config
    &&& post.next_player_id == pre.next_player_id
    &&& payload.len() != 8 ==> same_state(post, pre) && msgs == Seq::<OutMsgV>::empty()
    &&& payload.len() == 8 && !pre.has_player_at(addr) ==> same_state(
            post,
            pre,
        ) && msgs == Seq::<OutMsgV>::empty()
    &&& payload.len() == 8 && pre.has_player_at(addr) ==> ({
            let p = pre.players_v()[pre.player_index_at(addr)];
            let world_id = crate::wire::i32_from_le_bytes(payload.subrange(0, 4));
            let jiggy_cost = crate::wire::i32_from_le_bytes(payload.subrange(4, 8));
            &&& (!pre.has_lobby(p.lobby_name) ==> same_state(post, pre)
                && msgs == Seq::<OutMsgV>::empty())
            &&& (pre.has_lobby(p.lobby_name) ==> ({
                let lj = pre.lobby_index_named(p.lobby_name);
                let lob = pre.lobbies_v()[lj];
                &&& (lob.level_opened(world_id) ==> same_state(post, pre)
                    && msgs == Seq::<OutMsgV>::empty())
                &&& (!lob.level_opened(world_id) ==> {
                    &&& post.lobbies_v() == pre.lobbies_v().update(
                        lj,
                        (LobbyV {
                            opened_levels: lob.opened_levels.push(
                                crate::lobby::OpenedLevelV {
                                    world_id,
                                    jiggy_cost,
                                    opened_by: "JiggyWiggy"@,
                                    timestamp: now,
                                },
                            ),
                            last_activity: now,
                            ..lob
                        }),
                    )
                    &&& msgs == fanout(
                        bcast_targets(pre.players_v(), p.lobby_name, addr),
                        PacketType::LevelOpened,
                        u32_to_be_bytes(p.id) + i32_to_be_bytes(world_id) + i32_to_be_bytes(
                            jiggy_cost,
                        ),
                    )
                })
            }))
        })
}

/// The exact effect of a positional note collection on the shared state and the
/// outgoing messages, as [`ServerState::handle_note_collected_pos`] ensures it.
pub open spec fn note_pos_transition(
    pre: ServerState,
    post: ServerState,
    payload: Seq<u8>,
    addr: PeerAddr,
    now: i64,
    msgs: Seq<OutMsgV>,
) -> bool {
    &&& post.players_v() == pre.players_v()
    &&& post.config == pre.config
    &&& post.next_player_id == pre.next_player_id
    &&& payload.len() != 10 ==> same_state(post, pre) && msgs == Seq::<OutMsgV>::empty()
    &&& payload.len() == 10 && !pre.has_player_at(addr) ==> same_state(
            post,
            pre,
        ) && msgs == Seq::<OutMsgV>::empty()
    &&& payload.len() == 10 && pre.has_player_at(addr) ==> ({
            let p = pre.players_v()[pre.player_index_at(addr)];
            let map_id = crate::wire::i32_from_le_bytes(payload.subrange(0, 4));
            let x = crate::wire::i16_from_le_bytes(payload.subrange(4, 6));
            let y = crate::wire::i16_from_le_bytes(payload.subrange(6, 8));
            let z = crate::wire::i16_from_le_bytes(payload.subrange(8, 10));
            &&& (!pre.has_lobby(p.lobby_name) ==> same_state(post, pre)
                && msgs == Seq::<OutMsgV>::empty())
            &&& (pre.has_lobby(p.lobby_name) ==> ({
                let lj = pre.lobby_index_named(p.lobby_name);
                let lob = pre.lobbies_v()[lj];
                &&& (lob.note_collected(map_id, x, y, z) ==> same_state(
                    post,
                    pre,
                ) && msgs == Seq::<OutMsgV>::empty())
                &&& (!lob.note_collected(map_id, x, y, z) ==> {
                    &&& post.lobbies_v() == pre.lobbies_v().update(
                        lj,
                        (LobbyV {
                            collected_notes: lob.collected_notes.push(
                                crate::lobby::NoteV {
                                    map_id,
                                    x,
                                    y,
                                    z,
                                    collected_by: p.username,
                                    timestamp: now,
                                },
                            ),
                            last_activity: now,
                            ..lob
                        }),
                    )
                    &&& msgs == fanout(
                        bcast_targets(pre.players_v(), p.lobby_name, addr),
                        PacketType::NoteCollectedPos,
                        u32_to_be_bytes(p.id) + i32_to_be_bytes(map_id) + i32_to_be_bytes(
                            x as i32,
                        ) + i32_to_be_bytes(y as i32) + i32_to_be_bytes(z as i32),
                    )
                })
            }))
        })
}

/// The exact effect of a legacy note collection on the shared state and the
/// outgoing messages, as [`ServerState::handle_note_collected`] ensures it.
pub open spec fn note_transition(
    pre: ServerState,
    post: ServerState,
    payload: Seq<u8>,
    addr: PeerAddr,
    msgs: Seq<OutMsgV>,
) -> bool {
    &&& post == pre
    &&& payload.len() != 13 ==> msgs == Seq::<OutMsgV>::empty()
    &&& payload.len() == 13 && !pre.has_player_at(addr) ==> msgs == Seq::<OutMsgV>::empty()
    &&& payload.len() == 13 && pre.has_player_at(addr) ==> ({
            let p = pre.players_v()[pre.player_index_at(addr)];
            let map_id = crate::wire::i32_from_le_bytes(payload.subrange(0, 4));
            let level_id = crate::wire::i32_from_le_bytes(payload.subrange(4, 8));
            let dynamic_flag: i32 = if payload[8] != 0 {
                1i32
            } else {
                0i32
            };
            let note_index = crate::wire::i32_from_le_bytes(payload.subrange(9, 13));
            msgs == fanout(
                bcast_targets(pre.players_v(), p.lobby_name, addr),
                PacketType::NoteCollected,
                u32_to_be_bytes(p.id) + i32_to_be_bytes(map_id) + i32_to_be_bytes(level_id)
                    + i32_to_be_bytes(dynamic_flag) + i32_to_be_bytes(note_index),
            )
        })
}

/// The exact effect of a note-save-data upload on the shared state and the
/// outgoing messages, as [`ServerState::handle_note_save_data`] ensures it.
pub open spec fn note_save_transition(
    pre: ServerState,
    post: ServerState,
    payload: Seq<u8>,
    addr: PeerAddr,
    now: i64,
    msgs: Seq<OutMsgV>,
) -> bool {
    &&& post.players_v() == pre.players_v()
    &&& post.config == pre.config
    &&& post.next_player_id == pre.next_player_id
    &&& msgs == Seq::<OutMsgV>::empty()
    &&& payload.len() < 4 ==> same_state(post, pre)
    &&& payload.len() >= 4 && !pre.has_player_at(addr) ==> same_state(
            post,
            pre,
        )
    &&& payload.len() >= 4 && pre.has_player_at(addr) ==> ({
            let p = pre.players_v()[pre.player_index_at(addr)];
            let idx = crate::wire::i32_from_le_bytes(payload.subrange(0, 4));
            let body = payload.subrange(4, payload.len() as int);
            &&& (!pre.has_lobby(p.lobby_name) ==> same_state(post, pre))
            &&& (pre.has_lobby(p.lobby_name) ==> ({
                let lj = pre.lobby_index_named(p.lobby_name);
                let lob = pre.lobbies_v()[lj];
                &&& (!(0 <= idx < 9 && body.len() == 32) ==> same_state(
                    post,
                    pre,
                ))
                &&& ((0 <= idx < 9 && body.len() == 32) ==> ({
                    let merged = crate::lobby::or_merge(
                        lob.save_flags.note_save_data[idx as int],
                        body,
                    );
                    let changed = merged != lob.save_flags.note_save_data[idx as int];
                    &&& (!changed ==> same_state(post, pre))
                    &&& (changed ==> post.lobbies_v() == pre.lobbies_v().update(
                        lj,
                        (LobbyV {
                            has_initial_save_data: true,
                            last_activity: now,
                            save_flags: (crate::lobby::SaveFlagsV {
                                note_save_data: lob.save_flags.note_save_data.update(
                                    idx as int,
                                    merged,
                                ),
                                ..lob.save_flags
                            }),
                            ..lob
                        }),
                    ))
                }))
            }))
        })
}

/// The exact effect of a full-sync request on the shared state and the
/// outgoing messages, as [`ServerState::handle_full_sync_request`] ensures it.
pub open spec fn full_sync_transition(
    pre: ServerState,
    post: ServerState,
    addr: PeerAddr,
    msgs: Seq<OutMsgV>,
) -> bool {
    &&& post == pre
    &&& !pre.has_player_at(addr) ==> msgs == Seq::<OutMsgV>::empty()
    &&& pre.has_player_at(addr) ==> ({
            let p = pre.players_v()[pre.player_index_at(addr)];
            &&& (!pre.has_lobby(p.lobby_name) ==> msgs == Seq::<OutMsgV>::empty())
            &&& (pre.has_lobby(p.lobby_name) ==> msgs == full_state_msgs(
                pre.lobbies_v()[pre.lobby_index_named(p.lobby_name)],
                addr,
            ))
        })
}

/// The exact effect of a puppet update on the shared state and the
/// outgoing messages, as [`ServerState::handle_puppet_update`] ensures it.
pub open spec fn puppet_transition(
    pre: ServerState,
    post: ServerState,
    payload: Seq<u8>,
    addr: PeerAddr,
    msgs: Seq<OutMsgV>,
) -> bool {
    &&& post.lobbies_v() == pre.lobbies_v()
    &&& post.config == pre.config
    &&& post.next_player_id == pre.next_player_id
    &&& !pre.has_player_at(addr) ==> post == pre && msgs == Seq::<OutMsgV>::empty()
    &&& pre.has_player_at(addr) ==> ({
            let pi = pre.player_index_at(addr);
            let p = pre.players_v()[pi];
            &&& post.players_v() == pre.players_v().update(
                pi,
                (PlayerV { last_puppet_state: Some(payload), ..p }),
            )
            &&& msgs == fanout(
                puppet_targets(pre.players_v(), p.lobby_name, p.id, addr),
                PacketType::PuppetUpdate,
                u32_to_le_bytes(p.id) + payload,
            )
        })
}

/// The exact effect of a file-progress upload on the shared state and the
/// outgoing messages, as [`ServerState::handle_file_progress_flags`] ensures it.
pub open spec fn file_progress_transition(
    pre: ServerState,
    post: ServerState,
    payload: Seq<u8>,
    addr: PeerAddr,
    now: i64,
    msgs: Seq<OutMsgV>,
) -> bool {
    &&& post.players_v() == pre.players_v()
    &&& post.config == pre.config
    &&& post.next_player_id == pre.next_player_id
    &&& !pre.has_player_at(addr) ==> same_state(post, pre) && msgs
            == Seq::<OutMsgV>::empty()
    &&& pre.has_player_at(addr) ==> ({
            let p = pre.players_v()[pre.player_index_at(addr)];
            &&& msgs == fanout(
                bcast_targets(pre.players_v(), p.lobby_name, addr),
                PacketType::FileProgressFlags,
                u32_to_be_bytes(p.id) + payload,
            )
            &&& (!pre.has_lobby(p.lobby_name) ==> post.lobbies_v() == pre.lobbies_v())
            &&& (pre.has_lobby(p.lobby_name) ==> ({
                let lj = pre.lobby_index_named(p.lobby_name);
                let lob = pre.lobbies_v()[lj];
                let merged_sf = (crate::lobby::SaveFlagsV {
                    file_progress_flags: crate::lobby::or_merge(lob.save_flags.file_progress_flags, payload),
                    ..lob.save_flags
                });
                &&& (merged_sf == lob.save_flags ==> post.lobbies_v() == pre.lobbies_v())
                &&& (merged_sf != lob.save_flags ==> post.lobbies_v() == pre.lobbies_v().update(
                    lj,
                    (LobbyV {
                        save_flags: merged_sf,
                        last_activity: now,
                        has_initial_save_data: true,
                        ..lob
                    }),
                ))
            }))
        })
}

/// The exact effect of an ability-progress upload on the shared state and the
/// outgoing messages, as [`ServerState::handle_ability_progress`] ensures it.
pub open spec fn ability_transition(
    pre: ServerState,
    post: ServerState,
    payload: Seq<u8>,
    addr: PeerAddr,
    now: i64,
    msgs: Seq<OutMsgV>,
) -> bool {
    &&& post.players_v() == pre.players_v()
    &&& post.config == pre.config
    &&& post.next_player_id == pre.next_player_id
    &&& !pre.has_player_at(addr) ==> same_state(post, pre) && msgs
            == Seq::<OutMsgV>::empty()
    &&& pre.has_player_at(addr) ==> ({
            let p = pre.players_v()[pre.player_index_at(addr)];
            &&& msgs == fanout(
                bcast_targets(pre.players_v(), p.lobby_name, addr),
                PacketType::AbilityProgress,
                u32_to_be_bytes(p.id) + payload,
            )
            &&& (!pre.has_lobby(p.lobby_name) ==> post.lobbies_v() == pre.lobbies_v())
            &&& (pre.has_lobby(p.lobby_name) ==> ({
                let lj = pre.lobby_index_named(p.lobby_name);
                let lob = pre.lobbies_v()[lj];
                let merged_sf = (crate::lobby::SaveFlagsV {
                    ability_progress: crate::lobby::or_merge(lob.save_flags.ability_progress, payload),
                    ..lob.save_flags
                });
                &&& (merged_sf == lob.save_flags ==> post.lobbies_v() == pre.lobbies_v())
                &&& (merged_sf != lob.save_flags ==> post.lobbies_v() == pre.lobbies_v().update(
                    lj,
                    (LobbyV {
                        save_flags: merged_sf,
                        last_activity: now,
                        ..lob
                    }),
                ))
            }))
        })
}

/// The exact effect of a honeycomb-score upload on the shared state and the
/// outgoing messages, as [`ServerState::handle_honeycomb_score`] ensures it.
pub open spec fn honeycomb_score_transition(
    pre: ServerState,
    post: ServerState,
    payload: Seq<u8>,
    addr: PeerAddr,
    now: i64,
    msgs: Seq<OutMsgV>,
) -> bool {
    &&& post.players_v() == pre.players_v()
    &&& post.config == pre.config
    &&& post.next_player_id == pre.next_player_id
    &&& !pre.has_player_at(addr) ==> same_state(post, pre) && msgs
            == Seq::<OutMsgV>::empty()
    &&& pre.has_player_at(addr) ==> ({
            let p = pre.players_v()[pre.player_index_at(addr)];
            &&& msgs == fanout(
                bcast_targets(pre.players_v(), p.lobby_name, addr),
                PacketType::HoneycombScore,
                u32_to_be_bytes(p.id) + payload,
            )
            &&& (!pre.has_lobby(p.lobby_name) ==> post.lobbies_v() == pre.lobbies_v())
            &&& (pre.has_lobby(p.lobby_name) ==> ({
                let lj = pre.lobby_index_named(p.lobby_name);
                let lob = pre.lobbies_v()[lj];
                let merged_sf = (crate::lobby::SaveFlagsV {
                    honeycomb_score: crate::lobby::or_merge(lob.save_flags.honeycomb_score, payload),
                    ..lob.save_flags
                });
                &&& (merged_sf == lob.save_flags ==> post.lobbies_v() == pre.lobbies_v())
                &&& (merged_sf != lob.save_flags ==> post.lobbies_v() == pre.lobbies_v().update(
                    lj,
                    (LobbyV {
                        save_flags: merged_sf,
                        last_activity: now,
                        has_initial_save_data: true,
                        ..lob
                    }),
                ))
            }))
        })
}

/// The exact effect of a Mumbo-score upload on the shared state and the
/// outgoing messages, as [`ServerState::handle_mumbo_score`] ensures it.
pub open spec fn mumbo_score_transition(
    pre: ServerState,
    post: ServerState,
    payload: Seq<u8>,
    addr: PeerAddr,
    now: i64,
    msgs: Seq<OutMsgV>,
) -> bool {
    &&& post.players_v() == pre.players_v()
    &&& post.config == pre.config
    &&& post.next_player_id == pre.next_player_id
    &&& !pre.has_player_at(addr) ==> same_state(post, pre) && msgs
            == Seq::<OutMsgV>::empty()
    &&& pre.has_player_at(addr) ==> ({
            let p = pre.players_v()[pre.player_index_at(addr)];
            &&& msgs == fanout(
                bcast_targets(pre.players_v(), p.lobby_name, addr),
                PacketType::MumboScore,
                u32_to_be_bytes(p.id) + payload,
            )
            &&& (!pre.has_lobby(p.lobby_name) ==> post.lobbies_v() == pre.lobbies_v())
            &&& (pre.has_lobby(p.lobby_name) ==> ({
                let lj = pre.lobby_index_named(p.lobby_name);
                let lob = pre.lobbies_v()[lj];
                let merged_sf = (crate::lobby::SaveFlagsV {
                    mumbo_score: crate::lobby::or_merge(lob.save_flags.mumbo_score, payload),
                    ..lob.save_flags
                });
                &&& (merged_sf == lob.save_flags ==> post.lobbies_v() == pre.lobbies_v())
                &&& (merged_sf != lob.save_flags ==> post.lobbies_v() == pre.lobbies_v().update(
                    lj,
                    (LobbyV {
                        save_flags: merged_sf,
                        last_activity: now,
                        has_initial_save_data: true,
                        ..lob
                    }),
                ))
            }))
        })
}

/// The exact effect of a handshake on the shared state and the
/// outgoing messages, as [`ServerState::handle_handshake`] ensures it.
pub open spec fn handshake_transition(
    pre: ServerState,
    post: ServerState,
    payload: Seq<u8>,
    addr: PeerAddr,
    now: i64,
    msgs: Seq<OutMsgV>,
) -> bool {
    &&& post.config == pre.config
    &&& crate::wire::spec_login_decode(payload) is Err ==> same_state(
            post,
            pre,
        ) && msgs == Seq::<OutMsgV>::empty()
    &&& crate::wire::spec_login_decode(payload) matches Ok(login) ==> ({
            let fresh_lobby = !pre.has_lobby(login.lobby_name);
            &&& (fresh_lobby && pre.lobbies_v().len()
                >= pre.config.server.max_lobbies ==> same_state(post, pre)
                && msgs == Seq::<OutMsgV>::empty())
            &&& (!(fresh_lobby && pre.lobbies_v().len()
                >= pre.config.server.max_lobbies) ==> ({
                let lj = if fresh_lobby {
                    pre.lobbies_v().len() as int
                } else {
                    pre.lobby_index_named(login.lobby_name)
                };
                let lobbies1 = if fresh_lobby {
                    pre.lobbies_v().push(
                        crate::lobby::Lobby::new_v(login.lobby_name, login.password, now),
                    )
                } else {
                    pre.lobbies_v()
                };
                let lob = lobbies1[lj];
                let refused = (lob.password != Seq::<char>::empty() && lob.password
                    != login.password) || lob.players.len()
                    >= pre.config.server.max_players_per_lobby || (!pre.has_player_at(addr) && pre.next_player_id == u32::MAX);
                &&& (refused ==> post.lobbies_v() == lobbies1 && post.players_v()
                    == pre.players_v() && post.next_player_id == pre.next_player_id && msgs == Seq::<OutMsgV>::empty())
                &&& (!refused ==> ({
                    let pid = if pre.has_player_at(addr) {
                        pre.players_v()[pre.player_index_at(addr)].id
                    } else {
                        pre.next_player_id
                    };
                    &&& (pre.has_player_at(addr) ==> post.players_v() == pre.players_v().update(
                        pre.player_index_at(addr),
                        (PlayerV {
                            last_seen: now,
                            ..pre.players_v()[pre.player_index_at(addr)]
                        }),
                    ) && post.next_player_id == pre.next_player_id)
                    &&& (!pre.has_player_at(addr) ==> post.players_v() == pre.players_v().push(
                        (PlayerV {
                            id: pid,
                            username: login.username,
                            address: addr,
                            lobby_name: login.lobby_name,
                            last_seen: now,
                            connected_at: now,
                            last_puppet_state: None,
                        }),
                    ) && post.next_player_id == pre.next_player_id + 1)
                    &&& post.lobbies_v().len() == lobbies1.len()
                    &&& (forall|j: int|
                        0 <= j < lobbies1.len() && j != lj ==> post.lobbies_v()[j]
                            == lobbies1[j])
                    &&& crate::state::same_but_roster(lob, post.lobbies_v()[lj])
                    &&& post.lobbies_v()[lj].has_member(pid)
                    &&& post.lobbies_v()[lj].member_named(pid, login.username)
                    &&& msgs == seq![
                        OutMsgV {
                            dest: addr,
                            packet_type: PacketType::Pong,
                            payload: Seq::<u8>::empty(),
                        },
                    ] + (if !lob.has_initial_save_data {
                        seq![
                            OutMsgV {
                                dest: addr,
                                packet_type: PacketType::InitialSaveDataRequest,
                                payload: Seq::<u8>::empty(),
                            },
                        ]
                    } else {
                        Seq::<OutMsgV>::empty()
                    }) + fanout(
                        bcast_targets(post.players_v(), login.lobby_name, addr),
                        PacketType::PlayerConnected,
                        player_connected_payload(pid, login.username),
                    ) + full_state_msgs(post.lobbies_v()[lj], addr)
                }))
            }))
        })
}

/// The exact effect of a ping: nothing moves and a bare pong goes back.
pub open spec fn ping_transition(
    pre: ServerState,
    post: ServerState,
    addr: PeerAddr,
    msgs: Seq<OutMsgV>,
) -> bool {
    &&& post == pre
    &&& msgs == seq![
        OutMsgV { dest: addr, packet_type: PacketType::Pong, payload: Seq::<u8>::empty() },
    ]
}

/// The exact effect of a puppet-sync request: nothing moves, and the
/// requester receives every other lobby member's stored puppet state.
pub open spec fn puppet_sync_transition(
    pre: ServerState,
    post: ServerState,
    addr: PeerAddr,
    msgs: Seq<OutMsgV>,
) -> bool {
    &&& post == pre
    &&& (!pre.has_player_at(addr) ==> msgs == Seq::<OutMsgV>::empty())
    &&& (pre.has_player_at(addr) ==> msgs == puppet_sync_msgs(
        pre.players_v(),
        pre.players_v()[pre.player_index_at(addr)].lobby_name,
        addr,
    ))
}

impl ServerState {
    /// Answers a ping with a pong; nothing else moves.
    pub fn handle_ping(&self, addr: PeerAddr) -> (msgs: Vec<OutMsg>)
        ensures
            out_v(msgs) == seq![
                OutMsgV {
                    dest: addr,
                    packet_type: PacketType::Pong,
                    payload: Seq::<u8>::empty(),
                },
            ],
    {
        let mut msgs: Vec<OutMsg> = Vec::new();
        msgs.push(OutMsg { dest: addr, packet_type: PacketType::Pong, payload: Vec::new() });
        proof {
            assert(out_v(msgs) =~= seq![
                OutMsgV { dest: addr, packet_type: PacketType::Pong, payload: Seq::<u8>::empty() },
            ]);
        }
        msgs
    }

    /// A jiggy collection from `addr`: appended under the exact
    /// `(level_id, jiggy_id)` dedup rule, and broadcast to the rest of
    /// the lobby exactly when new. Drops silently on a wrong-size
    /// body, an unknown sender, or a missing lobby.
    pub fn handle_jiggy_collected(&mut self, payload: &[u8], addr: PeerAddr, now: i64) -> (msgs:
        Vec<OutMsg>)
        requires
            old(self).wf(),
        ensures
            final(self).wf(),
            old(self).players_rostered() ==> final(self).players_rostered(),
            jiggy_transition(*old(self), *final(self), payload@, addr, now, out_v(msgs)),
    {
        let jiggy = match crate::wire::JiggyPacket::deserialize(payload) {
            Ok(j) => j,
            Err(_) => {
                let none: Vec<OutMsg> = Vec::new();
                proof {
                    assert(out_v(none) =~= Seq::<OutMsgV>::empty());
                }
                return none;
            },
        };
        let pi = match self.get_player_by_addr(addr) {
            Some(i) => i,
            None => {
                let none: Vec<OutMsg> = Vec::new();
                proof {
                    assert(out_v(none) =~= Seq::<OutMsgV>::empty());
                }
                return none;
            },
        };
        proof {
            self.lemma_player_index(addr, pi as int);
        }
        let lobby_name = self.players[pi].lobby_name.clone();
        let username = self.players[pi].username.clone();
        let player_id = self.players[pi].id;
        let lj = match self.get_lobby(&lobby_name) {
            Some(j) => j,
            None => {
                let none: Vec<OutMsg> = Vec::new();
                proof {
                    assert(out_v(none) =~= Seq::<OutMsgV>::empty());
                }
                return none;
            },
        };
        proof {
            self.lemma_lobby_index(lobby_name@, lj as int);
        }
        let ghost pre = *self;
        let lob = &mut self.lobbies[lj];
        let added = lob.add_collected_jiggy(jiggy.jiggy_enum_id, jiggy.collected_value, username, now);
        proof {
            assert(self.players_v() =~= pre.players_v());
            assert(forall|j: int|
                0 <= j < self.lobbies_v().len() && j != lj ==> self.lobbies_v()[j]
                    == pre.lobbies_v()[j]);
            if !added {
                assert(self.lobbies_v() =~= pre.lobbies_v());
                assert(same_state(*self, pre));
                lemma_same_state_props(pre, *self);
            } else {
                assert(self.lobbies_v() =~= pre.lobbies_v().update(
                    lj as int,
                    self.lobbies_v()[lj as int],
                ));
                lemma_wf_after_lobby_update(pre, *self, lj as int);
            }
        }
        if !added {
            let none: Vec<OutMsg> = Vec::new();
            proof {
                assert(out_v(none) =~= Seq::<OutMsgV>::empty());
            }
            return none;
        }
        let mut bp: Vec<u8> = Vec::new();
        crate::wire::write_u32_be(&mut bp, player_id);
        crate::wire::write_i32_be(&mut bp, jiggy.jiggy_enum_id);
        crate::wire::write_i32_be(&mut bp, jiggy.collected_value);
        proof {
            assert(bp@ =~= u32_to_be_bytes(player_id) + i32_to_be_bytes(jiggy.jiggy_enum_id)
                + i32_to_be_bytes(jiggy.collected_value));
        }
        let msgs = self.broadcast_to_lobby_except(
            &lobby_name,
            addr,
            PacketType::JiggyCollected,
            bp.as_slice(),
        );
        msgs
    }
}

impl ServerState {
    /// A honeycomb collection from `addr`: appended under the exact
    /// `(map_id, honeycomb_id)` dedup rule, and broadcast to the rest of
    /// the lobby exactly when new. Drops silently on a wrong-size
    /// body, an unknown sender, or a missing lobby.
    pub fn handle_honeycomb_collected(&mut self, payload: &[u8], addr: PeerAddr, now: i64) -> (msgs:
        Vec<OutMsg>)
        requires
            old(self).wf(),
        ensures
            final(self).wf(),
            old(self).players_rostered() ==> final(self).players_rostered(),
            honeycomb_transition(*old(self), *final(self), payload@, addr, now, out_v(msgs)),
    {
        let hc = match crate::wire::HoneycombCollectedPacket::deserialize(payload) {
            Ok(h) => h,
            Err(_) => {
                let none: Vec<OutMsg> = Vec::new();
                proof {
                    assert(out_v(none) =~= Seq::<OutMsgV>::empty());
                }
                return none;
            },
        };
        let pi = match self.get_player_by_addr(addr) {
            Some(i) => i,
            None => {
                let none: Vec<OutMsg> = Vec::new();
                proof {
                    assert(out_v(none) =~= Seq::<OutMsgV>::empty());
                }
                return none;
            },
        };
        proof {
            self.lemma_player_index(addr, pi as int);
        }
        let lobby_name = self.players[pi].lobby_name.clone();
        let username = self.players[pi].username.clone();
        let player_id = self.players[pi].id;
        let lj = match self.get_lobby(&lobby_name) {
            Some(j) => j,
            None => {
                let none: Vec<OutMsg> = Vec::new();
                proof {
                    assert(out_v(none) =~= Seq::<OutMsgV>::empty());
                }
                return none;
            },
        };
        proof {
            self.lemma_lobby_index(lobby_name@, lj as int);
        }
        let ghost pre = *self;
        let lob = &mut self.lobbies[lj];
        let added = lob.add_collected_honeycomb(hc.map_id, hc.honeycomb_id, hc.x, hc.y, hc.z, username, now);
        proof {
            assert(self.players_v() =~= pre.players_v());
            assert(forall|j: int|
                0 <= j < self.lobbies_v().len() && j != lj ==> self.lobbies_v()[j]
                    == pre.lobbies_v()[j]);
            if !added {
                assert(self.lobbies_v() =~= pre.lobbies_v());
                assert(same_state(*self, pre));
                lemma_same_state_props(pre, *self);
            } else {
                assert(self.lobbies_v() =~= pre.lobbies_v().update(
                    lj as int,
                    self.lobbies_v()[lj as int],
                ));
                lemma_wf_after_lobby_update(pre, *self, lj as int);
            }
        }
        if !added {
            let none: Vec<OutMsg> = Vec::new();
            proof {
                assert(out_v(none) =~= Seq::<OutMsgV>::empty());
            }
            return none;
        }
        let mut bp: Vec<u8> = Vec::new();
        crate::wire::write_u32_be(&mut bp, player_id);
        crate::wire::write_i32_be(&mut bp, hc.map_id);
        crate::wire::write_i32_be(&mut bp, hc.honeycomb_id);
        crate::wire::write_i32_be(&mut bp, hc.x);
        crate::wire::write_i32_be(&mut bp, hc.y);
        crate::wire::write_i32_be(&mut bp, hc.z);
        proof {
            assert(bp@ =~= u32_to_be_bytes(player_id) + i32_to_be_bytes(hc.map_id)
                + i32_to_be_bytes(hc.honeycomb_id) + i32_to_be_bytes(hc.x) + i32_to_be_bytes(hc.y)
                + i32_to_be_bytes(hc.z));
        }
        let msgs = self.broadcast_to_lobby_except(
            &lobby_name,
            addr,
            PacketType::HoneycombCollected,
            bp.as_slice(),
        );
        msgs
    }

    /// A Mumbo-token collection from `addr`: appended under the exact
    /// `(map_id, token_id)` dedup rule, and broadcast to the rest of the
    /// lobby exactly when new. Drops silently on a wrong-size body, an
    /// unknown sender, or a missing lobby.
    pub fn handle_mumbo_token_collected(&mut self, payload: &[u8], addr: PeerAddr, now: i64) -> (
        msgs: Vec<OutMsg>
    )
        requires
            old(self).wf(),
        ensures
            final(self).wf(),
            old(self).players_rostered() ==> final(self).players_rostered(),
            token_transition(*old(self), *final(self), payload@, addr, now, out_v(msgs)),
    {
        let tok = match crate::wire::MumboTokenCollectedPacket::deserialize(payload) {
            Ok(t) => t,
            Err(_) => {
                let none: Vec<OutMsg> = Vec::new();
                proof {
                    assert(out_v(none) =~= Seq::<OutMsgV>::empty());
                }
                return none;
            },
        };
        let pi = match self.get_player_by_addr(addr) {
            Some(i) => i,
            None => {
                let none: Vec<OutMsg> = Vec::new();
                proof {
                    assert(out_v(none) =~= Seq::<OutMsgV>::empty());
                }
                return none;
            },
        };
        proof {
            self.lemma_player_index(addr, pi as int);
        }
        let lobby_name = self.players[pi].lobby_name.clone();
        let username = self.players[pi].username.clone();
        let player_id = self.players[pi].id;
        let lj = match self.get_lobby(&lobby_name) {
            Some(j) => j,
            None => {
                let none: Vec<OutMsg> = Vec::new();
                proof {
                    assert(out_v(none) =~= Seq::<OutMsgV>::empty());
                }
                return none;
            },
        };
        proof {
            self.lemma_lobby_index(lobby_name@, lj as int);
        }
        let ghost pre = *self;
        let lob = &mut self.lobbies[lj];
        let added = lob.add_collected_mumbo_token(tok.map_id, tok.token_id, tok.x, tok.y, tok.z, username, now);
        proof {
            assert(self.players_v() =~= pre.players_v());
            assert(forall|j: int|
                0 <= j < self.lobbies_v().len() && j != lj ==> self.lobbies_v()[j]
                    == pre.lobbies_v()[j]);
            if !added {
                assert(self.lobbies_v() =~= pre.lobbies_v());
                assert(same_state(*self, pre));
                lemma_same_state_props(pre, *self);
            } else {
                assert(self.lobbies_v() =~= pre.lobbies_v().update(
                    lj as int,
                    self.lobbies_v()[lj as int],
                ));
                lemma_wf_after_lobby_update(pre, *self, lj as int);
            }
        }
        if !added {
            let none: Vec<OutMsg> = Vec::new();
            proof {
                assert(out_v(none) =~= Seq::<OutMsgV>::empty());
            }
            return none;
        }
        let mut bp: Vec<u8> = Vec::new();
        crate::wire::write_u32_be(&mut bp, player_id);
        crate::wire::write_i32_be(&mut bp, tok.map_id);
        crate::wire::write_i32_be(&mut bp, tok.token_id);
        crate::wire::write_i32_be(&mut bp, tok.x);
        crate::wire::write_i32_be(&mut bp, tok.y);
        crate::wire::write_i32_be(&mut bp, tok.z);
        proof {
            assert(bp@ =~= u32_to_be_bytes(player_id) + i32_to_be_bytes(tok.map_id)
                + i32_to_be_bytes(tok.token_id) + i32_to_be_bytes(tok.x) + i32_to_be_bytes(tok.y)
                + i32_to_be_bytes(tok.z));
        }
        let msgs = self.broadcast_to_lobby_except(
            &lobby_name,
            addr,
            PacketType::MumboTokenCollected,
            bp.as_slice(),
        );
        msgs
    }

    /// A level opening from `addr`: appended under the `world_id` dedup
    /// rule (opener recorded under the fixed sentinel name) and broadcast
    /// to the rest of the lobby exactly when new. Drops silently on a
    /// short body, an unknown sender, or a missing lobby.
    pub fn handle_level_opened(&mut self, payload: &[u8], addr: PeerAddr, now: i64) -> (msgs: Vec<
        OutMsg,
    >)
        requires
            old(self).wf(),
        ensures
            final(self).wf(),
            old(self).players_rostered() ==> final(self).players_rostered(),
            level_transition(*old(self), *final(self), payload@, addr, now, out_v(msgs)),
    {
        let level = match crate::wire::LevelOpenedPacket::deserialize(payload) {
            Ok(l) => l,
            Err(_) => {
                let none: Vec<OutMsg> = Vec::new();
                proof {
                    assert(out_v(none) =~= Seq::<OutMsgV>::empty());
                }
                return none;
            },
        };
        let pi = match self.get_player_by_addr(addr) {
            Some(i) => i,
            None => {
                let none: Vec<OutMsg> = Vec::new();
                proof {
                    assert(out_v(none) =~= Seq::<OutMsgV>::empty());
                }
                return none;
            },
        };
        proof {
            self.lemma_player_index(addr, pi as int);
        }
        let lobby_name = self.players[pi].lobby_name.clone();
        let player_id = self.players[pi].id;
        let lj = match self.get_lobby(&lobby_name) {
            Some(j) => j,
            None => {
                let none: Vec<OutMsg> = Vec::new();
                proof {
                    assert(out_v(none) =~= Seq::<OutMsgV>::empty());
                }
                return none;
            },
        };
        proof {
            self.lemma_lobby_index(lobby_name@, lj as int);
        }
        let ghost pre = *self;
        let lob = &mut self.lobbies[lj];
        let added = lob.add_opened_level(level.world_id, level.jiggy_cost, now);
        proof {
            assert(self.players_v() =~= pre.players_v());
            assert(forall|j: int|
                0 <= j < self.lobbies_v().len() && j != lj ==> self.lobbies_v()[j]
                    == pre.lobbies_v()[j]);
            if !added {
                assert(self.lobbies_v() =~= pre.lobbies_v());
                assert(same_state(*self, pre));
                lemma_same_state_props(pre, *self);
            } else {
                assert(self.lobbies_v() =~= pre.lobbies_v().update(
                    lj as int,
                    self.lobbies_v()[lj as int],
                ));
                lemma_wf_after_lobby_update(pre, *self, lj as int);
            }
        }
        if !added {
            let none: Vec<OutMsg> = Vec::new();
            proof {
                assert(out_v(none) =~= Seq::<OutMsgV>::empty());
            }
            return none;
        }
        let mut bp: Vec<u8> = Vec::new();
        crate::wire::write_u32_be(&mut bp, player_id);
        crate::wire::write_i32_be(&mut bp, level.world_id);
        crate::wire::write_i32_be(&mut bp, level.jiggy_cost);
        proof {
            assert(bp@ =~= u32_to_be_bytes(player_id) + i32_to_be_bytes(level.world_id)
                + i32_to_be_bytes(level.jiggy_cost));
        }
        let msgs = self.broadcast_to_lobby_except(
            &lobby_name,
            addr,
            PacketType::LevelOpened,
            bp.as_slice(),
        );
        msgs
    }

    /// A positional note collection from `addr`: appended under the
    /// proximity dedup rule, and broadcast to the rest of the lobby
    /// (axes widened to big-endian i32) exactly when new. Drops silently
    /// on a short body, an unknown sender, or a missing lobby.
    pub fn handle_note_collected_pos(&mut self, payload: &[u8], addr: PeerAddr, now: i64) -> (msgs:
        Vec<OutMsg>)
        requires
            old(self).wf(),
        ensures
            final(self).wf(),
            old(self).players_rostered() ==> final(self).players_rostered(),
            note_pos_transition(*old(self), *final(self), payload@, addr, now, out_v(msgs)),
    {
        let note = match crate::wire::NotePacketPos::deserialize(payload) {
            Ok(n) => n,
            Err(_) => {
                let none: Vec<OutMsg> = Vec::new();
                proof {
                    assert(out_v(none) =~= Seq::<OutMsgV>::empty());
                }
                return none;
            },
        };
        let pi = match self.get_player_by_addr(addr) {
            Some(i) => i,
            None => {
                let none: Vec<OutMsg> = Vec::new();
                proof {
                    assert(out_v(none) =~= Seq::<OutMsgV>::empty());
                }
                return none;
            },
        };
        proof {
            self.lemma_player_index(addr, pi as int);
        }
        let lobby_name = self.players[pi].lobby_name.clone();
        let username = self.players[pi].username.clone();
        let player_id = self.players[pi].id;
        let lj = match self.get_lobby(&lobby_name) {
            Some(j) => j,
            None => {
                let none: Vec<OutMsg> = Vec::new();
                proof {
                    assert(out_v(none) =~= Seq::<OutMsgV>::empty());
                }
                return none;
            },
        };
        proof {
            self.lemma_lobby_index(lobby_name@, lj as int);
        }
        let ghost pre = *self;
        let lob = &mut self.lobbies[lj];
        let added = lob.add_collected_note(
            note.map_id,
            note.x as i16,
            note.y as i16,
            note.z as i16,
            username,
            now,
        );
        proof {
            assert(self.players_v() =~= pre.players_v());
            assert(forall|j: int|
                0 <= j < self.lobbies_v().len() && j != lj ==> self.lobbies_v()[j]
                    == pre.lobbies_v()[j]);
            if !added {
                assert(self.lobbies_v() =~= pre.lobbies_v());
                assert(same_state(*self, pre));
                lemma_same_state_props(pre, *self);
            } else {
                assert(self.lobbies_v() =~= pre.lobbies_v().update(
                    lj as int,
                    self.lobbies_v()[lj as int],
                ));
                lemma_wf_after_lobby_update(pre, *self, lj as int);
            }
        }
        if !added {
            let none: Vec<OutMsg> = Vec::new();
            proof {
                assert(out_v(none) =~= Seq::<OutMsgV>::empty());
            }
            return none;
        }
        let mut bp: Vec<u8> = Vec::new();
        crate::wire::write_u32_be(&mut bp, player_id);
        crate::wire::write_i32_be(&mut bp, note.map_id);
        crate::wire::write_i32_be(&mut bp, note.x);
        crate::wire::write_i32_be(&mut bp, note.y);
        crate::wire::write_i32_be(&mut bp, note.z);
        proof {
            assert(bp@ =~= u32_to_be_bytes(player_id) + i32_to_be_bytes(note.map_id)
                + i32_to_be_bytes(note.x) + i32_to_be_bytes(note.y) + i32_to_be_bytes(note.z));
        }
        let msgs = self.broadcast_to_lobby_except(
            &lobby_name,
            addr,
            PacketType::NoteCollectedPos,
            bp.as_slice(),
        );
        msgs
    }
}

/// The puppet-forward recipients: every player of the lobby other than
/// the sender (by id and by address), in registry order.
pub open spec fn puppet_targets(
    players: Seq<PlayerV>,
    lobby_name: Seq<char>,
    except_id: u32,
    except_addr: PeerAddr,
) -> Seq<PeerAddr>
    decreases players.len(),
{
    if players.len() == 0 {
        Seq::empty()
    } else {
        let rest = puppet_targets(players.drop_first(), lobby_name, except_id, except_addr);
        if players.first().lobby_name == lobby_name && players.first().id != except_id
            && players.first().address != except_addr {
            seq![players.first().address] + rest
        } else {
            rest
        }
    }
}

/// The puppet states replayed to a sync requester: one unreliable
/// puppet-update per other lobby member that has sent one, its id
/// little-endian before the stored blob, in registry order.
pub open spec fn puppet_sync_msgs(
    players: Seq<PlayerV>,
    lobby_name: Seq<char>,
    requester: PeerAddr,
) -> Seq<OutMsgV>
    decreases players.len(),
{
    if players.len() == 0 {
        Seq::empty()
    } else {
        let rest = puppet_sync_msgs(players.drop_first(), lobby_name, requester);
        if players.first().lobby_name == lobby_name && players.first().address != requester
            && players.first().last_puppet_state is Some {
            seq![
                OutMsgV {
                    dest: requester,
                    packet_type: PacketType::PuppetUpdate,
                    payload: u32_to_le_bytes(players.first().id)
                        + players.first().last_puppet_state->0,
                },
            ] + rest
        } else {
            rest
        }
    }
}

impl ServerState {
    /// A legacy note collection from `addr`: nothing is recorded; the
    /// note is rebroadcast to the rest of the lobby with the sender id,
    /// all fields widened to big-endian i32. Drops silently on a short
    /// body or an unknown sender.
    pub fn handle_note_collected(&mut self, payload: &[u8], addr: PeerAddr) -> (msgs: Vec<OutMsg>)
        requires
            old(self).wf(),
        ensures
            final(self).wf(),
            old(self).players_rostered() ==> final(self).players_rostered(),
            note_transition(*old(self), *final(self), payload@, addr, out_v(msgs)),
    {
        let note = match crate::wire::NotePacket::deserialize(payload) {
            Ok(n) => n,
            Err(_) => {
                let none: Vec<OutMsg> = Vec::new();
                proof {
                    assert(out_v(none) =~= Seq::<OutMsgV>::empty());
                }
                return none;
            },
        };
        let pi = match self.get_player_by_addr(addr) {
            Some(i) => i,
            None => {
                let none: Vec<OutMsg> = Vec::new();
                proof {
                    assert(out_v(none) =~= Seq::<OutMsgV>::empty());
                }
                return none;
            },
        };
        proof {
            self.lemma_player_index(addr, pi as int);
        }
        let lobby_name = self.players[pi].lobby_name.clone();
        let player_id = self.players[pi].id;
        let mut bp: Vec<u8> = Vec::new();
        crate::wire::write_u32_be(&mut bp, player_id);
        crate::wire::write_i32_be(&mut bp, note.map_id);
        crate::wire::write_i32_be(&mut bp, note.level_id);
        crate::wire::write_i32_be(
            &mut bp,
            if note.is_dynamic {
                1
            } else {
                0
            },
        );
        crate::wire::write_i32_be(&mut bp, note.note_index);
        proof {
            assert(bp@ =~= u32_to_be_bytes(player_id) + i32_to_be_bytes(note.map_id)
                + i32_to_be_bytes(note.level_id) + i32_to_be_bytes(
                if note.is_dynamic {
                    1i32
                } else {
                    0i32
                },
            ) + i32_to_be_bytes(note.note_index));
        }
        let msgs = self.broadcast_to_lobby_except(
            &lobby_name,
            addr,
            PacketType::NoteCollected,
            bp.as_slice(),
        );
        msgs
    }

    /// A note-save-data upload from `addr`: ORs the 32-byte body into the
    /// given slot when the index is 0 through 8 and the body is exactly
    /// 32 bytes; a change latches `has_initial_save_data` and bumps the
    /// activity clock. Never rebroadcast. Drops silently on a short body,
    /// an unknown sender, or a missing lobby.
    pub fn handle_note_save_data(&mut self, payload: &[u8], addr: PeerAddr, now: i64) -> (msgs: Vec<
        OutMsg,
    >)
        requires
            old(self).wf(),
        ensures
            final(self).wf(),
            old(self).players_rostered() ==> final(self).players_rostered(),
            note_save_transition(*old(self), *final(self), payload@, addr, now, out_v(msgs)),
    {
        let data = match crate::wire::NoteSaveDataPacket::deserialize(payload) {
            Ok(d) => d,
            Err(_) => {
                let none: Vec<OutMsg> = Vec::new();
                proof {
                    assert(out_v(none) =~= Seq::<OutMsgV>::empty());
                }
                return none;
            },
        };
        let none: Vec<OutMsg> = Vec::new();
        proof {
            assert(out_v(none) =~= Seq::<OutMsgV>::empty());
        }
        let pi = match self.get_player_by_addr(addr) {
            Some(i) => i,
            None => {
                return none;
            },
        };
        proof {
            self.lemma_player_index(addr, pi as int);
        }
        let lobby_name = self.players[pi].lobby_name.clone();
        let lj = match self.get_lobby(&lobby_name) {
            Some(j) => j,
            None => {
                return none;
            },
        };
        proof {
            self.lemma_lobby_index(lobby_name@, lj as int);
        }
        if data.level_index < 0 || data.level_index >= 9 || data.save_data.len() != 32 {
            return none;
        }
        let ghost pre = *self;
        let lob = &mut self.lobbies[lj];
        let changed = lob.update_note_save_data(data.level_index as usize, data.save_data.as_slice(), now);
        if changed {
            lob.has_initial_save_data = true;
        }
        proof {
            assert(self.players_v() =~= pre.players_v());
            assert(forall|j: int|
                0 <= j < self.lobbies_v().len() && j != lj ==> self.lobbies_v()[j]
                    == pre.lobbies_v()[j]);
            let idxg = data.level_index as int;
            let slot0 = pre.lobbies_v()[lj as int].save_flags.note_save_data[idxg];
            let merged = crate::lobby::or_merge(slot0, data.save_data@);
            let upd = pre.lobbies_v()[lj as int].save_flags.note_save_data.update(idxg, merged);
            if merged == slot0 {
                assert(upd =~= pre.lobbies_v()[lj as int].save_flags.note_save_data);
                assert((crate::lobby::SaveFlagsV {
                    note_save_data: upd,
                    ..pre.lobbies_v()[lj as int].save_flags
                }) =~= pre.lobbies_v()[lj as int].save_flags);
                assert(!changed);
            } else {
                assert(upd[idxg] != pre.lobbies_v()[lj as int].save_flags.note_save_data[idxg]);
                assert(changed);
            }
            if !changed {
                assert(merged == slot0);
                assert(self.lobbies_v() =~= pre.lobbies_v());
                assert(same_state(*self, pre));
                lemma_same_state_props(pre, *self);
            } else {
                assert(merged != slot0);
                assert(self.lobbies_v()[lj as int] =~= (LobbyV {
                    has_initial_save_data: true,
                    last_activity: now,
                    save_flags: (crate::lobby::SaveFlagsV {
                        note_save_data: pre.lobbies_v()[lj as int].save_flags.note_save_data.update(
                            data.level_index as int,
                            crate::lobby::or_merge(
                                pre.lobbies_v()[lj as int].save_flags.note_save_data[
                                    data.level_index as int],
                                data.save_data@,
                            ),
                        ),
                        ..pre.lobbies_v()[lj as int].save_flags
                    }),
                    ..pre.lobbies_v()[lj as int]
                }));
                assert(self.lobbies_v() =~= pre.lobbies_v().update(
                    lj as int,
                    self.lobbies_v()[lj as int],
                ));
                lemma_wf_after_lobby_update(pre, *self, lj as int);
            }
        }
        none
    }

    /// A full-sync request from `addr`: replies with the full lobby
    /// snapshot; nothing else moves. Drops silently on an unknown sender
    /// or a missing lobby.
    pub fn handle_full_sync_request(&mut self, addr: PeerAddr) -> (msgs: Vec<OutMsg>)
        requires
            old(self).wf(),
        ensures
            final(self).wf(),
            old(self).players_rostered() ==> final(self).players_rostered(),
            full_sync_transition(*old(self), *final(self), addr, out_v(msgs)),
    {
        let none: Vec<OutMsg> = Vec::new();
        proof {
            assert(out_v(none) =~= Seq::<OutMsgV>::empty());
        }
        let pi = match self.get_player_by_addr(addr) {
            Some(i) => i,
            None => {
                return none;
            },
        };
        proof {
            self.lemma_player_index(addr, pi as int);
        }
        let lobby_name = self.players[pi].lobby_name.clone();
        let lj = match self.get_lobby(&lobby_name) {
            Some(j) => j,
            None => {
                return none;
            },
        };
        proof {
            self.lemma_lobby_index(lobby_name@, lj as int);
        }
        full_lobby_state_msgs(&self.lobbies[lj], addr)
    }

    /// A puppet update from `addr`: stored as the sender's last puppet
    /// state and forwarded unreliably to every other lobby member, the
    /// sender id little-endian before the blob. Drops silently on an
    /// unknown sender.
    pub fn handle_puppet_update(&mut self, payload: &[u8], addr: PeerAddr) -> (msgs: Vec<OutMsg>)
        requires
            old(self).wf(),
        ensures
            final(self).wf(),
            old(self).players_rostered() ==> final(self).players_rostered(),
            puppet_transition(*old(self), *final(self), payload@, addr, out_v(msgs)),
    {
        let none: Vec<OutMsg> = Vec::new();
        proof {
            assert(out_v(none) =~= Seq::<OutMsgV>::empty());
        }
        let pi = match self.get_player_by_addr(addr) {
            Some(i) => i,
            None => {
                return none;
            },
        };
        proof {
            self.lemma_player_index(addr, pi as int);
        }
        let lobby_name = self.players[pi].lobby_name.clone();
        let player_id = self.players[pi].id;
        let ghost pre = *self;
        self.players[pi].last_puppet_state = Some(vstd::slice::slice_to_vec(payload));
        proof {
            assert(self.players_v() =~= pre.players_v().update(
                pi as int,
                PlayerV { last_puppet_state: Some(payload@), ..pre.players_v()[pi as int] },
            ));
            assert(self.lobbies_v() =~= pre.lobbies_v());
            assert forall|k1: int, k2: int|
                0 <= k1 < k2 < self.players_v().len() implies (#[trigger] self.players_v()[k1]).id
                != (#[trigger] self.players_v()[k2]).id && self.players_v()[k1].address
                != self.players_v()[k2].address by {
                assert(self.players_v()[k1].id == pre.players_v()[k1].id);
                assert(self.players_v()[k2].id == pre.players_v()[k2].id);
                assert(self.players_v()[k1].address == pre.players_v()[k1].address);
                assert(self.players_v()[k2].address == pre.players_v()[k2].address);
            }
            assert forall|k: int| 0 <= k < self.players_v().len() implies 1 <= (
            #[trigger] self.players_v()[k]).id < self.next_player_id by {
                assert(self.players_v()[k].id == pre.players_v()[k].id);
            }
            if pre.players_rostered() {
                assert forall|i: int|
                    0 <= i < self.players_v().len() implies #[trigger] self.player_rostered_in(
                    i,
                ) by {
                    assert(pre.player_rostered_in(i));
                    let j = choose|j: int|
                        0 <= j < pre.lobbies_v().len() && (#[trigger] pre.lobbies_v()[j]).name
                            == pre.players_v()[i].lobby_name && pre.lobbies_v()[j].has_member(
                            pre.players_v()[i].id,
                        );
                    assert(self.players_v()[i].lobby_name == pre.players_v()[i].lobby_name);
                    assert(self.players_v()[i].id == pre.players_v()[i].id);
                    assert(0 <= j < self.lobbies_v().len() && self.lobbies_v()[j].name
                        == self.players_v()[i].lobby_name && self.lobbies_v()[j].has_member(
                        self.players_v()[i].id,
                    ));
                }
            }
        }
        let mut fwd: Vec<u8> = Vec::new();
        crate::wire::write_u32_le(&mut fwd, player_id);
        fwd.extend_from_slice(payload);
        proof {
            assert(fwd@ =~= u32_to_le_bytes(player_id) + payload@);
        }
        let ghost targets = puppet_targets(pre.players_v(), lobby_name@, player_id, addr);
        let n = self.players.len();
        let mut msgs: Vec<OutMsg> = Vec::new();
        let mut i: usize = 0;
        proof {
            assert(pre.players_v().skip(0) =~= pre.players_v());
            assert(Seq::new(msgs@.len(), |k: int| msgs@[k]@) + fanout(
                puppet_targets(pre.players_v(), lobby_name@, player_id, addr),
                PacketType::PuppetUpdate,
                fwd@,
            ) =~= fanout(targets, PacketType::PuppetUpdate, fwd@));
        }
        while i < n
            invariant
                n == self.players@.len(),
                pre.players_v().len() == n,
                forall|k: int|
                    0 <= k < n ==> (#[trigger] self.players_v()[k]).lobby_name
                        == pre.players_v()[k].lobby_name && self.players_v()[k].id
                        == pre.players_v()[k].id && self.players_v()[k].address
                        == pre.players_v()[k].address,
                i <= n,
                targets == puppet_targets(pre.players_v(), lobby_name@, player_id, addr),
                Seq::new(msgs@.len(), |k: int| msgs@[k]@) + fanout(
                    puppet_targets(pre.players_v().skip(i as int), lobby_name@, player_id, addr),
                    PacketType::PuppetUpdate,
                    fwd@,
                ) =~= fanout(targets, PacketType::PuppetUpdate, fwd@),
                fwd@ == u32_to_le_bytes(player_id) + payload@,
            decreases n - i,
        {
            proof {
                assert(pre.players_v().skip(i as int).drop_first() =~= pre.players_v().skip(i + 1));
                assert(pre.players_v().skip(i as int).first() == pre.players_v()[i as int]);
                assert(fanout(
                    puppet_targets(pre.players_v().skip(i as int), lobby_name@, player_id, addr),
                    PacketType::PuppetUpdate,
                    fwd@,
                ) =~= if pre.players_v()[i as int].lobby_name == lobby_name@
                    && pre.players_v()[i as int].id != player_id
                    && pre.players_v()[i as int].address != addr {
                    seq![
                        OutMsgV {
                            dest: pre.players_v()[i as int].address,
                            packet_type: PacketType::PuppetUpdate,
                            payload: fwd@,
                        },
                    ] + fanout(
                        puppet_targets(pre.players_v().skip(i + 1), lobby_name@, player_id, addr),
                        PacketType::PuppetUpdate,
                        fwd@,
                    )
                } else {
                    fanout(
                        puppet_targets(pre.players_v().skip(i + 1), lobby_name@, player_id, addr),
                        PacketType::PuppetUpdate,
                        fwd@,
                    )
                });
            }
            let ghost prevm = Seq::new(msgs@.len(), |k: int| msgs@[k]@);
            proof {
                assert(self.players_v()[i as int].lobby_name == pre.players_v()[i as int].lobby_name
                    && self.players_v()[i as int].id == pre.players_v()[i as int].id
                    && self.players_v()[i as int].address == pre.players_v()[i as int].address);
            }
            let p = &self.players[i];
            if p.lobby_name == *&lobby_name && p.id != player_id && !(p.address.ip == addr.ip
                && p.address.port == addr.port) {
                let fwd_copy = fwd.clone();
                proof {
                    assert(fwd_copy@ =~= fwd@);
                }
                msgs.push(
                    OutMsg {
                        dest: p.address,
                        packet_type: PacketType::PuppetUpdate,
                        payload: fwd_copy,
                    },
                );
                proof {
                    assert(Seq::new(msgs@.len(), |k: int| msgs@[k]@) =~= prevm.push(
                        OutMsgV {
                            dest: pre.players_v()[i as int].address,
                            packet_type: PacketType::PuppetUpdate,
                            payload: fwd@,
                        },
                    ));
                }
            } else {
                proof {
                    assert(!(pre.players_v()[i as int].lobby_name == lobby_name@
                        && pre.players_v()[i as int].id != player_id
                        && pre.players_v()[i as int].address != addr));
                }
            }
            i = i + 1;
        }
        proof {
            assert(pre.players_v().skip(n as int) =~= Seq::<PlayerV>::empty());
            assert(out_v(msgs) =~= fanout(targets, PacketType::PuppetUpdate, fwd@));
        }
        msgs
    }

    /// A puppet-sync request from `addr`: replays every other lobby
    /// member's stored puppet state to the requester, unreliably. Drops
    /// silently on an unknown sender.
    pub fn handle_puppet_sync_request(&self, addr: PeerAddr) -> (msgs: Vec<OutMsg>)
        requires
            self.wf(),
        ensures
            !self.has_player_at(addr) ==> out_v(msgs) == Seq::<OutMsgV>::empty(),
            self.has_player_at(addr) ==> out_v(msgs) == puppet_sync_msgs(
                self.players_v(),
                self.players_v()[self.player_index_at(addr)].lobby_name,
                addr,
            ),
    {
        let none: Vec<OutMsg> = Vec::new();
        proof {
            assert(out_v(none) =~= Seq::<OutMsgV>::empty());
        }
        let pi = match self.get_player_by_addr(addr) {
            Some(i) => i,
            None => {
                return none;
            },
        };
        proof {
            self.lemma_player_index(addr, pi as int);
        }
        let lobby_name = self.players[pi].lobby_name.clone();
        let ghost expected = puppet_sync_msgs(self.players_v(), lobby_name@, addr);
        let n = self.players.len();
        let mut msgs: Vec<OutMsg> = Vec::new();
        let mut i: usize = 0;
        proof {
            assert(self.players_v().skip(0) =~= self.players_v());
            assert(Seq::new(msgs@.len(), |k: int| msgs@[k]@) + puppet_sync_msgs(
                self.players_v(),
                lobby_name@,
                addr,
            ) =~= expected);
        }
        while i < n
            invariant
                n == self.players@.len(),
                i <= n,
                expected == puppet_sync_msgs(self.players_v(), lobby_name@, addr),
                Seq::new(msgs@.len(), |k: int| msgs@[k]@) + puppet_sync_msgs(
                    self.players_v().skip(i as int),
                    lobby_name@,
                    addr,
                ) =~= expected,
            decreases n - i,
        {
            proof {
                assert(self.players_v().skip(i as int).drop_first() =~= self.players_v().skip(
                    i + 1,
                ));
                assert(self.players_v().skip(i as int).first() == self.players_v()[i as int]);
            }
            let ghost prevm = Seq::new(msgs@.len(), |k: int| msgs@[k]@);
            let p = &self.players[i];
            if p.lobby_name == *&lobby_name && !(p.address.ip == addr.ip && p.address.port
                == addr.port) {
                match &p.last_puppet_state {
                    Some(puppet) => {
                        let mut fwd: Vec<u8> = Vec::new();
                        crate::wire::write_u32_le(&mut fwd, p.id);
                        fwd.extend_from_slice(puppet.as_slice());
                        proof {
                            assert(fwd@ =~= u32_to_le_bytes(self.players_v()[i as int].id)
                                + self.players_v()[i as int].last_puppet_state->0);
                        }
                        msgs.push(
                            OutMsg { dest: addr, packet_type: PacketType::PuppetUpdate, payload: fwd },
                        );
                        proof {
                            assert(Seq::new(msgs@.len(), |k: int| msgs@[k]@) =~= prevm.push(
                                OutMsgV {
                                    dest: addr,
                                    packet_type: PacketType::PuppetUpdate,
                                    payload: u32_to_le_bytes(self.players_v()[i as int].id)
                                        + self.players_v()[i as int].last_puppet_state->0,
                                },
                            ));
                        }
                    },
                    None => {
                        proof {
                            assert(!(self.players_v()[i as int].last_puppet_state is Some));
                        }
                    },
                }
            } else {
                proof {
                    assert(!(self.players_v()[i as int].lobby_name == lobby_name@
                        && self.players_v()[i as int].address != addr));
                }
            }
            i = i + 1;
        }
        proof {
            assert(self.players_v().skip(n as int) =~= Seq::<PlayerV>::empty());
            assert(out_v(msgs) =~= expected);
        }
        msgs
    }
}


impl ServerState {
    /// A file-progress blob upload from `addr`: ORed into the lobby's blob (a change latches `has_initial_save_data` and bumps the clock),
    /// and always rebroadcast (sender id big-endian before the raw bytes)
    /// to the rest of the lobby, even when no bit changed. Drops silently
    /// on an unknown sender; a missing lobby skips the merge only.
    pub fn handle_file_progress_flags(&mut self, payload: &[u8], addr: PeerAddr, now: i64) -> (msgs: Vec<OutMsg>)
        requires
            old(self).wf(),
        ensures
            final(self).wf(),
            old(self).players_rostered() ==> final(self).players_rostered(),
            file_progress_transition(*old(self), *final(self), payload@, addr, now, out_v(msgs)),
    {
        let none: Vec<OutMsg> = Vec::new();
        proof {
            assert(out_v(none) =~= Seq::<OutMsgV>::empty());
        }
        let pi = match self.get_player_by_addr(addr) {
            Some(i) => i,
            None => {
                return none;
            },
        };
        proof {
            self.lemma_player_index(addr, pi as int);
        }
        let lobby_name = self.players[pi].lobby_name.clone();
        let player_id = self.players[pi].id;
        let ghost pre = *self;
        match self.get_lobby(&lobby_name) {
            Some(lj) => {
                proof {
                    self.lemma_lobby_index(lobby_name@, lj as int);
                }
                let lob = &mut self.lobbies[lj];
                let changed = lob.update_file_progress_flags(payload, now);
                if changed {
                    lob.has_initial_save_data = true;
                }
                proof {
                    assert(self.players_v() =~= pre.players_v());
                    assert(forall|j: int|
                        0 <= j < self.lobbies_v().len() && j != lj ==> self.lobbies_v()[j]
                            == pre.lobbies_v()[j]);
                    let lobg = pre.lobbies_v()[lj as int];
                    let merged_sf = (crate::lobby::SaveFlagsV {
                        file_progress_flags: crate::lobby::or_merge(lobg.save_flags.file_progress_flags, payload@),
                        ..lobg.save_flags
                    });
                    if !changed {
                        assert(merged_sf =~= lobg.save_flags);
                        assert(self.lobbies_v() =~= pre.lobbies_v());
                        lemma_same_state_props(pre, *self);
                    } else {
                        assert(merged_sf != lobg.save_flags);
                        assert(self.lobbies_v()[lj as int] =~= (LobbyV {
                            save_flags: merged_sf,
                            last_activity: now,
                            has_initial_save_data: true,
                            ..lobg
                        }));
                        assert(self.lobbies_v() =~= pre.lobbies_v().update(
                            lj as int,
                            self.lobbies_v()[lj as int],
                        ));
                        lemma_wf_after_lobby_update(pre, *self, lj as int);
                    }
                }
            },
            None => {
            },
        }
        let mut bp: Vec<u8> = Vec::new();
        crate::wire::write_u32_be(&mut bp, player_id);
        bp.extend_from_slice(payload);
        proof {
            assert(bp@ =~= u32_to_be_bytes(player_id) + payload@);
        }
        let msgs = self.broadcast_to_lobby_except(
            &lobby_name,
            addr,
            PacketType::FileProgressFlags,
            bp.as_slice(),
        );
        msgs
    }
}

impl ServerState {
    /// A ability-progress blob upload from `addr`: ORed into the lobby's blob (no latch for this kind; a change bumps the clock),
    /// and always rebroadcast (sender id big-endian before the raw bytes)
    /// to the rest of the lobby, even when no bit changed. Drops silently
    /// on an unknown sender; a missing lobby skips the merge only.
    pub fn handle_ability_progress(&mut self, payload: &[u8], addr: PeerAddr, now: i64) -> (msgs: Vec<OutMsg>)
        requires
            old(self).wf(),
        ensures
            final(self).wf(),
            old(self).players_rostered() ==> final(self).players_rostered(),
            ability_transition(*old(self), *final(self), payload@, addr, now, out_v(msgs)),
    {
        let none: Vec<OutMsg> = Vec::new();
        proof {
            assert(out_v(none) =~= Seq::<OutMsgV>::empty());
        }
        let pi = match self.get_player_by_addr(addr) {
            Some(i) => i,
            None => {
                return none;
            },
        };
        proof {
            self.lemma_player_index(addr, pi as int);
        }
        let lobby_name = self.players[pi].lobby_name.clone();
        let player_id = self.players[pi].id;
        let ghost pre = *self;
        match self.get_lobby(&lobby_name) {
            Some(lj) => {
                proof {
                    self.lemma_lobby_index(lobby_name@, lj as int);
                }
                let lob = &mut self.lobbies[lj];
                let changed = lob.update_ability_progress(payload, now);
                proof {
                    assert(self.players_v() =~= pre.players_v());
                    assert(forall|j: int|
                        0 <= j < self.lobbies_v().len() && j != lj ==> self.lobbies_v()[j]
                            == pre.lobbies_v()[j]);
                    let lobg = pre.lobbies_v()[lj as int];
                    let merged_sf = (crate::lobby::SaveFlagsV {
                        ability_progress: crate::lobby::or_merge(lobg.save_flags.ability_progress, payload@),
                        ..lobg.save_flags
                    });
                    if !changed {
                        assert(merged_sf =~= lobg.save_flags);
                        assert(self.lobbies_v() =~= pre.lobbies_v());
                        lemma_same_state_props(pre, *self);
                    } else {
                        assert(merged_sf != lobg.save_flags);
                        assert(self.lobbies_v()[lj as int] =~= (LobbyV {
                            save_flags: merged_sf,
                            last_activity: now,
                            ..lobg
                        }));
                        assert(self.lobbies_v() =~= pre.lobbies_v().update(
                            lj as int,
                            self.lobbies_v()[lj as int],
                        ));
                        lemma_wf_after_lobby_update(pre, *self, lj as int);
                    }
                }
            },
            None => {
            },
        }
        let mut bp: Vec<u8> = Vec::new();
        crate::wire::write_u32_be(&mut bp, player_id);
        bp.extend_from_slice(payload);
        proof {
            assert(bp@ =~= u32_to_be_bytes(player_id) + payload@);
        }
        let msgs = self.broadcast_to_lobby_except(
            &lobby_name,
            addr,
            PacketType::AbilityProgress,
            bp.as_slice(),
        );
        msgs
    }
}

impl ServerState {
    /// A honeycomb-score blob upload from `addr`: ORed into the lobby's blob (a change latches `has_initial_save_data` and bumps the clock),
    /// and always rebroadcast (sender id big-endian before the raw bytes)
    /// to the rest of the lobby, even when no bit changed. Drops silently
    /// on an unknown sender; a missing lobby skips the merge only.
    pub fn handle_honeycomb_score(&mut self, payload: &[u8], addr: PeerAddr, now: i64) -> (msgs: Vec<OutMsg>)
        requires
            old(self).wf(),
        ensures
            final(self).wf(),
            old(self).players_rostered() ==> final(self).players_rostered(),
            honeycomb_score_transition(*old(self), *final(self), payload@, addr, now, out_v(msgs)),
    {
        let none: Vec<OutMsg> = Vec::new();
        proof {
            assert(out_v(none) =~= Seq::<OutMsgV>::empty());
        }
        let pi = match self.get_player_by_addr(addr) {
            Some(i) => i,
            None => {
                return none;
            },
        };
        proof {
            self.lemma_player_index(addr, pi as int);
        }
        let lobby_name = self.players[pi].lobby_name.clone();
        let player_id = self.players[pi].id;
        let ghost pre = *self;
        match self.get_lobby(&lobby_name) {
            Some(lj) => {
                proof {
                    self.lemma_lobby_index(lobby_name@, lj as int);
                }
                let lob = &mut self.lobbies[lj];
                let changed = lob.update_honeycomb_score(payload, now);
                if changed {
                    lob.has_initial_save_data = true;
                }
                proof {
                    assert(self.players_v() =~= pre.players_v());
                    assert(forall|j: int|
                        0 <= j < self.lobbies_v().len() && j != lj ==> self.lobbies_v()[j]
                            == pre.lobbies_v()[j]);
                    let lobg = pre.lobbies_v()[lj as int];
                    let merged_sf = (crate::lobby::SaveFlagsV {
                        honeycomb_score: crate::lobby::or_merge(lobg.save_flags.honeycomb_score, payload@),
                        ..lobg.save_flags
                    });
                    if !changed {
                        assert(merged_sf =~= lobg.save_flags);
                        assert(self.lobbies_v() =~= pre.lobbies_v());
                        lemma_same_state_props(pre, *self);
                    } else {
                        assert(merged_sf != lobg.save_flags);
                        assert(self.lobbies_v()[lj as int] =~= (LobbyV {
                            save_flags: merged_sf,
                            last_activity: now,
                            has_initial_save_data: true,
                            ..lobg
                        }));
                        assert(self.lobbies_v() =~= pre.lobbies_v().update(
                            lj as int,
                            self.lobbies_v()[lj as int],
                        ));
                        lemma_wf_after_lobby_update(pre, *self, lj as int);
                    }
                }
            },
            None => {
            },
        }
        let mut bp: Vec<u8> = Vec::new();
        crate::wire::write_u32_be(&mut bp, player_id);
        bp.extend_from_slice(payload);
        proof {
            assert(bp@ =~= u32_to_be_bytes(player_id) + payload@);
        }
        let msgs = self.broadcast_to_lobby_except(
            &lobby_name,
            addr,
            PacketType::HoneycombScore,
            bp.as_slice(),
        );
        msgs
    }
}

impl ServerState {
    /// A Mumbo-score blob upload from `addr`: ORed into the lobby's blob (a change latches `has_initial_save_data` and bumps the clock),
    /// and always rebroadcast (sender id big-endian before the raw bytes)
    /// to the rest of the lobby, even when no bit changed. Drops silently
    /// on an unknown sender; a missing lobby skips the merge only.
    pub fn handle_mumbo_score(&mut self, payload: &[u8], addr: PeerAddr, now: i64) -> (msgs: Vec<OutMsg>)
        requires
            old(self).wf(),
        ensures
            final(self).wf(),
            old(self).players_rostered() ==> final(self).players_rostered(),
            mumbo_score_transition(*old(self), *final(self), payload@, addr, now, out_v(msgs)),
    {
        let none: Vec<OutMsg> = Vec::new();
        proof {
            assert(out_v(none) =~= Seq::<OutMsgV>::empty());
        }
        let pi = match self.get_player_by_addr(addr) {
            Some(i) => i,
            None => {
                return none;
            },
        };
        proof {
            self.lemma_player_index(addr, pi as int);
        }
        let lobby_name = self.players[pi].lobby_name.clone();
        let player_id = self.players[pi].id;
        let ghost pre = *self;
        match self.get_lobby(&lobby_name) {
            Some(lj) => {
                proof {
                    self.lemma_lobby_index(lobby_name@, lj as int);
                }
                let lob = &mut self.lobbies[lj];
                let changed = lob.update_mumbo_score(payload, now);
                if changed {
                    lob.has_initial_save_data = true;
                }
                proof {
                    assert(self.players_v() =~= pre.players_v());
                    assert(forall|j: int|
                        0 <= j < self.lobbies_v().len() && j != lj ==> self.lobbies_v()[j]
                            == pre.lobbies_v()[j]);
                    let lobg = pre.lobbies_v()[lj as int];
                    let merged_sf = (crate::lobby::SaveFlagsV {
                        mumbo_score: crate::lobby::or_merge(lobg.save_flags.mumbo_score, payload@),
                        ..lobg.save_flags
                    });
                    if !changed {
                        assert(merged_sf =~= lobg.save_flags);
                        assert(self.lobbies_v() =~= pre.lobbies_v());
                        lemma_same_state_props(pre, *self);
                    } else {
                        assert(merged_sf != lobg.save_flags);
                        assert(self.lobbies_v()[lj as int] =~= (LobbyV {
                            save_flags: merged_sf,
                            last_activity: now,
                            has_initial_save_data: true,
                            ..lobg
                        }));
                        assert(self.lobbies_v() =~= pre.lobbies_v().update(
                            lj as int,
                            self.lobbies_v()[lj as int],
                        ));
                        lemma_wf_after_lobby_update(pre, *self, lj as int);
                    }
                }
            },
            None => {
            },
        }
        let mut bp: Vec<u8> = Vec::new();
        crate::wire::write_u32_be(&mut bp, player_id);
        bp.extend_from_slice(payload);
        proof {
            assert(bp@ =~= u32_to_be_bytes(player_id) + payload@);
        }
        let msgs = self.broadcast_to_lobby_except(
            &lobby_name,
            addr,
            PacketType::MumboScore,
            bp.as_slice(),
        );
        msgs
    }
}

/// The player-connected payload: the new member's id, then its username
/// length-prefixed, lengths big-endian.
pub open spec fn player_connected_payload(pid: u32, username: Seq<char>) -> Seq<u8> {
    u32_to_be_bytes(pid) + u32_to_be_bytes(
        vstd::utf8::encode_utf8(username).len() as u32,
    ) + vstd::utf8::encode_utf8(username)
}

/// Upserting one member never changes whether any other id is on the
/// roster, and puts the upserted id on it.
proof fn lemma_member_upsert(pre: LobbyV, post: LobbyV, added_id: u32, username: Seq<char>, id: u32)
    requires
        id != added_id,
        post.players == pre.players.push(MemberV { id: added_id, username }) || exists|i: int|
            0 <= i < pre.players.len() && (#[trigger] pre.players[i]).id == added_id
                && post.players == pre.players.update(i, MemberV { id: added_id, username }),
    ensures
        post.has_member(id) <==> pre.has_member(id),
        post.has_member(added_id),
{
    if post.players == pre.players.push(MemberV { id: added_id, username }) {
        assert(post.players.last().id == added_id);
        if pre.has_member(id) {
            let k = choose|k: int|
                0 <= k < pre.players.len() && (#[trigger] pre.players[k]).id == id;
            assert(post.players[k].id == id);
        }
        if post.has_member(id) {
            let k = choose|k: int|
                0 <= k < post.players.len() && (#[trigger] post.players[k]).id == id;
            assert(k < pre.players.len());
            assert(pre.players[k].id == id);
        }
    } else {
        let i = choose|i: int|
            0 <= i < pre.players.len() && (#[trigger] pre.players[i]).id == added_id
                && post.players == pre.players.update(i, MemberV { id: added_id, username });
        assert(post.players[i].id == added_id);
        if pre.has_member(id) {
            let k = choose|k: int|
                0 <= k < pre.players.len() && (#[trigger] pre.players[k]).id == id;
            assert(k != i);
            assert(post.players[k].id == id);
        }
        if post.has_member(id) {
            let k = choose|k: int|
                0 <= k < post.players.len() && (#[trigger] post.players[k]).id == id;
            assert(k != i);
            assert(pre.players[k].id == id);
        }
    }
}

/// After one roster upsert in one lobby, the state is well-formed and
/// every player whose lobby rostered it remains rostered.
proof fn lemma_wf_after_roster_add(pre: ServerState, post: ServerState, lj: int, added_id: u32)
    requires
        pre.wf(),
        post.players_v() == pre.players_v(),
        post.next_player_id == pre.next_player_id,
        post.lobbies_v().len() == pre.lobbies_v().len(),
        0 <= lj < pre.lobbies_v().len(),
        forall|j: int|
            0 <= j < pre.lobbies_v().len() && j != lj ==> post.lobbies_v()[j] == pre.lobbies_v()[j],
        post.lobbies_v()[lj].name == pre.lobbies_v()[lj].name,
        post.lobbies_v()[lj].wf(),
        forall|id: u32|
            id != added_id ==> ((#[trigger] post.lobbies_v()[lj].has_member(id))
                <==> pre.lobbies_v()[lj].has_member(id)),
        post.lobbies_v()[lj].has_member(added_id),
        forall|i: int|
            0 <= i < pre.players_v().len() && (#[trigger] pre.players_v()[i]).id != added_id
                ==> pre.player_rostered_in(i),
        forall|i: int|
            0 <= i < pre.players_v().len() && (#[trigger] pre.players_v()[i]).id == added_id
                ==> pre.players_v()[i].lobby_name == pre.lobbies_v()[lj].name
                || pre.player_rostered_in(i),
    ensures
        post.wf(),
        post.players_rostered(),
{
    assert forall|i: int, j: int|
        0 <= i < j < post.lobbies_v().len() implies (#[trigger] post.lobbies_v()[i]).name != (
    #[trigger] post.lobbies_v()[j]).name by {
        assert(post.lobbies_v()[i].name == pre.lobbies_v()[i].name);
        assert(post.lobbies_v()[j].name == pre.lobbies_v()[j].name);
    }
    assert forall|i: int| 0 <= i < post.lobbies_v().len() implies (
    #[trigger] post.lobbies_v()[i]).wf() by {
        if i != lj {
            assert(post.lobbies_v()[i] == pre.lobbies_v()[i]);
        }
    }
    assert forall|i: int|
        0 <= i < post.players_v().len() implies #[trigger] post.player_rostered_in(i) by {
        assert(pre.players_v()[i] == post.players_v()[i]);
        if pre.players_v()[i].id == added_id && pre.players_v()[i].lobby_name
            == pre.lobbies_v()[lj].name && !pre.player_rostered_in(i) {
            assert(post.lobbies_v()[lj].name == post.players_v()[i].lobby_name);
            assert(post.lobbies_v()[lj].has_member(post.players_v()[i].id));
            assert(0 <= lj < post.lobbies_v().len());
        } else {
            assert(pre.player_rostered_in(i));
            let j = choose|j: int|
                0 <= j < pre.lobbies_v().len() && (#[trigger] pre.lobbies_v()[j]).name
                    == pre.players_v()[i].lobby_name && pre.lobbies_v()[j].has_member(
                    pre.players_v()[i].id,
                );
            if j == lj {
                if pre.players_v()[i].id == added_id {
                    assert(post.lobbies_v()[lj].has_member(added_id));
                } else {
                    assert(post.lobbies_v()[lj].has_member(pre.players_v()[i].id));
                }
                assert(0 <= j < post.lobbies_v().len() && post.lobbies_v()[j].name
                    == post.players_v()[i].lobby_name && post.lobbies_v()[j].has_member(
                    post.players_v()[i].id,
                ));
            } else {
                assert(post.lobbies_v()[j] == pre.lobbies_v()[j]);
                assert(0 <= j < post.lobbies_v().len() && post.lobbies_v()[j].name
                    == post.players_v()[i].lobby_name && post.lobbies_v()[j].has_member(
                    post.players_v()[i].id,
                ));
            }
        }
    }
}

/// Rosteredness depends only on each player's lobby name and id: field
/// updates that keep both keep every player rostered.
proof fn lemma_rostered_fields(pre: ServerState, post: ServerState)
    requires
        pre.players_rostered(),
        post.lobbies_v() == pre.lobbies_v(),
        post.players_v().len() == pre.players_v().len(),
        forall|k: int|
            0 <= k < pre.players_v().len() ==> (#[trigger] post.players_v()[k]).lobby_name
                == pre.players_v()[k].lobby_name && post.players_v()[k].id
                == pre.players_v()[k].id,
    ensures
        post.players_rostered(),
{
    assert forall|i: int|
        0 <= i < post.players_v().len() implies #[trigger] post.player_rostered_in(i) by {
        assert(pre.player_rostered_in(i));
        let j = choose|j: int|
            0 <= j < pre.lobbies_v().len() && (#[trigger] pre.lobbies_v()[j]).name
                == pre.players_v()[i].lobby_name && pre.lobbies_v()[j].has_member(
                pre.players_v()[i].id,
            );
        assert(post.lobbies_v()[j] == pre.lobbies_v()[j]);
        assert(0 <= j < post.lobbies_v().len() && post.lobbies_v()[j].name
            == post.players_v()[i].lobby_name && post.lobbies_v()[j].has_member(
            post.players_v()[i].id,
        ));
    }
}

impl ServerState {
    /// A handshake from `addr`: resolves or creates the lobby (unless the
    /// store is full), checks the password and the lobby's player cap,
    /// registers the sender (reusing its record when the address is
    /// known), puts it on the roster, and replies with a pong, an
    /// initial-save-data request when the lobby has no save data yet, a
    /// player-connected broadcast to the rest of the lobby, and the full
    /// lobby snapshot. Every refused handshake is dropped silently, after
    /// at most the lobby creation has taken effect.
    pub fn handle_handshake(&mut self, payload: &[u8], addr: PeerAddr, now: i64) -> (msgs: Vec<
        OutMsg,
    >)
        requires
            old(self).wf(),
            old(self).players_rostered(),
            payload@.len() <= u32::MAX,
        ensures
            final(self).wf(),
            final(self).players_rostered(),
            handshake_transition(*old(self), *final(self), payload@, addr, now, out_v(msgs)),
    {
        let none: Vec<OutMsg> = Vec::new();
        proof {
            assert(out_v(none) =~= Seq::<OutMsgV>::empty());
        }
        let login = match crate::wire::LoginPacket::deserialize(payload) {
            Ok(l) => l,
            Err(_) => {
                return none;
            },
        };
        let lj = match self.get_or_create_lobby(&login.lobby_name, &login.password, now) {
            Some(j) => j,
            None => {
                return none;
            },
        };
        proof {
            if old(self).has_lobby(login.lobby_name@) {
                old(self).lemma_lobby_index(login.lobby_name@, lj as int);
            }
            self.lemma_lobby_index(login.lobby_name@, lj as int);
        }
        let ghost lobbies1 = self.lobbies_v();
        let ghost lobg = self.lobbies_v()[lj as int];
        let empty_pw = String::new();
        if self.lobbies[lj].password != empty_pw && self.lobbies[lj].password != login.password {
            return none;
        }
        if self.lobbies[lj].player_count() >= self.config.server.max_players_per_lobby {
            return none;
        }
        let ghost pre_player = *self;
        let pi = match self.get_or_create_player(addr, &login.username, &login.lobby_name, now) {
            Some(i) => i,
            None => {
                return none;
            },
        };
        let player_id = self.players[pi].id;
        proof {
            if old(self).has_player_at(addr) {
                assert(player_id == old(self).players_v()[old(self).player_index_at(addr)].id);
            }
        }
        let needs_initial = !self.lobbies[lj].has_initial_save_data;
        let ghost pre_add = *self;
        let lob = &mut self.lobbies[lj];
        lob.add_player(player_id, login.username.clone(), now);
        proof {
            assert(self.players_v() =~= pre_add.players_v());
            assert(forall|j: int|
                0 <= j < self.lobbies_v().len() && j != lj ==> self.lobbies_v()[j]
                    == pre_add.lobbies_v()[j]);
            assert(crate::state::same_but_roster(lobg, self.lobbies_v()[lj as int]));
            assert forall|id: u32|
                id != player_id implies ((#[trigger] self.lobbies_v()[lj as int].has_member(id))
                <==> pre_add.lobbies_v()[lj as int].has_member(id)) by {
                lemma_member_upsert(
                    pre_add.lobbies_v()[lj as int],
                    self.lobbies_v()[lj as int],
                    player_id,
                    login.username@,
                    id,
                );
            }
            let roster_pre = pre_add.lobbies_v()[lj as int];
            let roster_post = self.lobbies_v()[lj as int];
            if roster_pre.has_member(player_id) {
                let idx = choose|idx: int|
                    0 <= idx < roster_pre.players.len() && (#[trigger] roster_pre.players[idx]).id
                        == player_id && roster_post.players == roster_pre.players.update(
                        idx,
                        MemberV { id: player_id, username: login.username@ },
                    );
                assert(roster_post.players[idx] == (MemberV {
                    id: player_id,
                    username: login.username@,
                }));
            } else {
                assert(roster_post.players.last() == (MemberV {
                    id: player_id,
                    username: login.username@,
                }));
            }
            assert(roster_post.member_named(player_id, login.username@));
            if pre_player.has_player_at(addr) {
                lemma_rostered_fields(pre_player, pre_add);
            } else {
                assert forall|i: int|
                    0 <= i < pre_add.players_v().len() && (#[trigger] pre_add.players_v()[i]).id
                        != player_id implies pre_add.player_rostered_in(i) by {
                    assert(i < pre_player.players_v().len());
                    assert(pre_add.players_v()[i] == pre_player.players_v()[i]);
                    assert(pre_player.player_rostered_in(i));
                    let j = choose|j: int|
                        0 <= j < pre_player.lobbies_v().len() && (
                        #[trigger] pre_player.lobbies_v()[j]).name
                            == pre_player.players_v()[i].lobby_name
                            && pre_player.lobbies_v()[j].has_member(pre_player.players_v()[i].id);
                    assert(pre_add.lobbies_v()[j] == pre_player.lobbies_v()[j]);
                    assert(0 <= j < pre_add.lobbies_v().len() && pre_add.lobbies_v()[j].name
                        == pre_add.players_v()[i].lobby_name && pre_add.lobbies_v()[j].has_member(
                        pre_add.players_v()[i].id,
                    ));
                }
                assert(pre_add.players_v().last().lobby_name == login.lobby_name@);
                assert(pre_add.lobbies_v()[lj as int].name == login.lobby_name@);
            }
            lemma_wf_after_roster_add(pre_add, *self, lj as int, player_id);
        }
        let mut msgs: Vec<OutMsg> = Vec::new();
        msgs.push(OutMsg { dest: addr, packet_type: PacketType::Pong, payload: Vec::new() });
        if needs_initial {
            msgs.push(
                OutMsg {
                    dest: addr,
                    packet_type: PacketType::InitialSaveDataRequest,
                    payload: Vec::new(),
                },
            );
        }
        proof {
            let b = payload@;
            let s1 = crate::wire::spec_take_string(b, 0);
            let s2 = crate::wire::spec_take_string(b, s1->Ok_0.1);
            let s3 = crate::wire::spec_take_string(b, s2->Ok_0.1);
            let off = s2->Ok_0.1;
            let n3 = crate::wire::u32_from_be_bytes(b.subrange(off, off + 4)) as int;
            let sub3 = b.subrange(off + 4, off + 4 + n3);
            assert(vstd::utf8::valid_utf8(sub3));
            assert(login.username@ == vstd::utf8::decode_utf8(sub3));
            vstd::utf8::decode_utf8_encode_utf8(sub3);
            assert(vstd::utf8::encode_utf8(login.username@) == sub3);
            assert(vstd::utf8::encode_utf8(login.username@).len() <= u32::MAX);
        }
        let pc = crate::wire::PlayerConnectedBroadcast {
            username: login.username.clone(),
            player_id,
        };
        let pc_bytes = pc.serialize();
        let mut bc = self.broadcast_to_lobby_except(
            &login.lobby_name,
            addr,
            PacketType::PlayerConnected,
            pc_bytes.as_slice(),
        );
        let ghost pong_part = Seq::new(msgs@.len(), |k: int| msgs@[k]@);
        msgs.append(&mut bc);
        let mut full = full_lobby_state_msgs(&self.lobbies[lj], addr);
        msgs.append(&mut full);
        proof {
            assert(out_v(msgs) =~= pong_part + fanout(
                bcast_targets(self.players_v(), login.lobby_name@, addr),
                PacketType::PlayerConnected,
                player_connected_payload(player_id, login.username@),
            ) + full_state_msgs(self.lobbies_v()[lj as int], addr));
            assert(pong_part =~= seq![
                OutMsgV {
                    dest: addr,
                    packet_type: PacketType::Pong,
                    payload: Seq::<u8>::empty(),
                },
            ] + (if !lobg.has_initial_save_data {
                seq![
                    OutMsgV {
                        dest: addr,
                        packet_type: PacketType::InitialSaveDataRequest,
                        payload: Seq::<u8>::empty(),
                    },
                ]
            } else {
                Seq::<OutMsgV>::empty()
            }));
        }
        msgs
    }
}

/// Frames an unreliable datagram: the kind's tag, then the payload.
pub fn frame_plain(packet_type: PacketType, payload: &[u8]) -> (r: Vec<u8>)
    ensures
        r@ == seq![packet_type.spec_tag()] + payload@,
{
    let mut buf: Vec<u8> = Vec::new();
    buf.push(packet_type.tag());
    buf.extend_from_slice(payload);
    proof {
        assert(buf@ =~= seq![packet_type.spec_tag()] + payload@);
    }
    buf
}

/// Frames a reliable datagram: the kind's tag, the sequence number
/// little-endian, then the payload.
pub fn frame_reliable(packet_type: PacketType, seq_no: u32, payload: &[u8]) -> (r: Vec<u8>)
    ensures
        r@ == seq![packet_type.spec_tag()] + u32_to_le_bytes(seq_no) + payload@,
{
    let mut buf: Vec<u8> = Vec::new();
    buf.push(packet_type.tag());
    crate::wire::write_u32_le(&mut buf, seq_no);
    buf.extend_from_slice(payload);
    proof {
        assert(buf@ =~= seq![packet_type.spec_tag()] + u32_to_le_bytes(seq_no) + payload@);
    }
    buf
}

/// The kinds the dispatcher hands to a handler. A datagram of any other
/// kind (an unassigned tag, or a kind only the server sends) is dropped
/// without effect.
pub open spec fn handled_kind(t: PacketType) -> bool {
    ||| t == PacketType::Handshake
    ||| t == PacketType::Ping
    ||| t == PacketType::JiggyCollected
    ||| t == PacketType::HoneycombCollected
    ||| t == PacketType::MumboTokenCollected
    ||| t == PacketType::NoteCollectedPos
    ||| t == PacketType::NoteCollected
    ||| t == PacketType::FullSyncRequest
    ||| t == PacketType::NoteSaveData
    ||| t == PacketType::FileProgressFlags
    ||| t == PacketType::AbilityProgress
    ||| t == PacketType::HoneycombScore
    ||| t == PacketType::MumboScore
    ||| t == PacketType::PuppetUpdate
    ||| t == PacketType::PuppetSyncRequest
    ||| t == PacketType::LevelOpened
}

/// The whole engine: shared state, inbound dedup and the outbound
/// pending table. The caller owns the socket and the clocks: it feeds
/// datagrams in, sends what comes out, and drives the sweeps.
#[derive(Debug, Clone)]
pub struct Server {
    pub state: ServerState,
    pub inbound: InboundDedup,
    pub outbound: ReliableOutbound,
}

impl Server {
    /// The engine invariant: sound state tables on both layers.
    pub open spec fn wf(self) -> bool {
        &&& self.state.wf()
        &&& self.state.players_rostered()
        &&& self.inbound.wf()
    }

    /// A fresh engine: no lobbies, no players, empty reliability tables.
    pub fn new(config: crate::config::Config) -> (r: Server)
        ensures
            r.wf(),
            r.state.lobbies_v() == Seq::<LobbyV>::empty(),
            r.state.players_v() == Seq::<PlayerV>::empty(),
            r.state.config == config,
            r.outbound@ == Seq::<crate::reliability::PendingV>::empty(),
            r.outbound.spec_next_seq() == 1,
            forall|a: PeerAddr, t: u8| r.inbound.spec_last(a, t) == 0,
    {
        Server {
            state: ServerState::new(config),
            inbound: InboundDedup::new(),
            outbound: ReliableOutbound::new(),
        }
    }

    /// Inserts a restored lobby (read back from disk) into the store,
    /// unless its name is already taken.
    pub fn insert_restored_lobby(&mut self, lobby: crate::lobby::Lobby)
        requires
            old(self).wf(),
            lobby@.wf(),
        ensures
            final(self).wf(),
            final(self).state.players_v() == old(self).state.players_v(),
            final(self).inbound == old(self).inbound,
            final(self).outbound == old(self).outbound,
            old(self).state.has_lobby(lobby@.name) ==> final(self).state.lobbies_v() == old(
                self,
            ).state.lobbies_v(),
            !old(self).state.has_lobby(lobby@.name) ==> final(self).state.lobbies_v() == old(
                self,
            ).state.lobbies_v().push(lobby@),
    {
        match self.state.get_lobby(&lobby.name) {
            Some(_) => {
            },
            None => {
                let ghost pre = self.state;
                self.state.lobbies.push(lobby);
                proof {
                    assert(self.state.lobbies_v() =~= pre.lobbies_v().push(lobby@));
                    assert(self.state.players_v() =~= pre.players_v());
                    assert forall|i: int, j: int|
                        0 <= i < j < self.state.lobbies_v().len() implies (
                    #[trigger] self.state.lobbies_v()[i]).name != (
                    #[trigger] self.state.lobbies_v()[j]).name by {
                        if j == self.state.lobbies_v().len() - 1 {
                            assert(pre.lobbies_v()[i].name != lobby@.name);
                        }
                    }
                    assert(self.state.wf());
                    assert forall|i: int|
                        0 <= i < self.state.players_v().len() implies #[trigger] self.state
                        .player_rostered_in(i) by {
                        assert(pre.players_v()[i] == self.state.players_v()[i]);
                        assert(pre.player_rostered_in(i));
                        let j = choose|j: int|
                            0 <= j < pre.lobbies_v().len() && (#[trigger] pre.lobbies_v()[j]).name
                                == pre.players_v()[i].lobby_name && pre.lobbies_v()[j].has_member(
                                pre.players_v()[i].id,
                            );
                        assert(self.state.lobbies_v()[j] == pre.lobbies_v()[j]);
                        assert(0 <= j < self.state.lobbies_v().len()
                            && self.state.lobbies_v()[j].name
                            == self.state.players_v()[i].lobby_name
                            && self.state.lobbies_v()[j].has_member(self.state.players_v()[i].id));
                    }
                    assert(self.state.players_rostered());
                }
            },
        }
    }

    /// Frames one outgoing message. An unreliable kind is framed as it
    /// is; a reliable kind is assigned the next sequence and entered into
    /// the pending table, unless its destination is saturated, in which
    /// case the message is silently dropped.
    pub fn encode_outgoing(&mut self, msg: &OutMsg) -> (r: Option<Datagram>)
        ensures
            final(self).state == old(self).state,
            final(self).inbound == old(self).inbound,
            !msg.packet_type.spec_is_reliable() ==> final(self).outbound == old(self).outbound && (
            r matches Some(d) && d.dest == msg.dest && d.bytes@ == seq![msg.packet_type.spec_tag()]
                + msg.payload@),
            msg.packet_type.spec_is_reliable() ==> ({
                &&& (crate::reliability::count_for(old(self).outbound@, msg.dest)
                    >= crate::reliability::MAX_PENDING_PER_ADDR as int ==> r is None && final(self).outbound == old(self).outbound)
                &&& (crate::reliability::count_for(old(self).outbound@, msg.dest)
                    < crate::reliability::MAX_PENDING_PER_ADDR as int ==> ({
                    let seq_no = old(self).outbound.spec_next_seq();
                    &&& final(self).outbound@ == old(self).outbound@.push(
                        crate::reliability::PendingV {
                            addr: msg.dest,
                            seq: seq_no,
                            packet_type: msg.packet_type,
                            payload: msg.payload@,
                            last_send_ms: 0,
                            attempts: 0,
                        },
                    )
                    &&& final(self).outbound.spec_next_seq() == (if old(
                        self,
                    ).outbound.spec_next_seq() == u32::MAX {
                        0u32
                    } else {
                        (old(self).outbound.spec_next_seq() + 1) as u32
                    })
                    &&& (r matches Some(d) && d.dest == msg.dest && d.bytes@ == seq![
                        msg.packet_type.spec_tag(),
                    ] + u32_to_le_bytes(seq_no) + msg.payload@)
                }))
            }),
    {
        if msg.packet_type.is_reliable_type() {
            match self.outbound.register(msg.packet_type, msg.payload.as_slice(), msg.dest) {
                Some(seq_no) => Some(
                    Datagram {
                        dest: msg.dest,
                        bytes: frame_reliable(msg.packet_type, seq_no, msg.payload.as_slice()),
                    },
                ),
                None => None,
            }
        } else {
            Some(
                Datagram {
                    dest: msg.dest,
                    bytes: frame_plain(msg.packet_type, msg.payload.as_slice()),
                },
            )
        }
    }

    /// One resend sweep at `now_ms`: retransmits every due pending entry
    /// (framed with its original sequence), abandons entries at the
    /// attempt cap, and drains everything when the table has overflowed.
    pub fn resend_sweep(&mut self, now_ms: u64) -> (out: Vec<Datagram>)
        ensures
            final(self).state == old(self).state,
            final(self).inbound == old(self).inbound,
            final(self).outbound.spec_next_seq() == old(self).outbound.spec_next_seq(),
            old(self).outbound@.len() > crate::reliability::MAX_PENDING ==> final(self).outbound@
                == Seq::<crate::reliability::PendingV>::empty() && out@.len() == 0,
            old(self).outbound@.len() <= crate::reliability::MAX_PENDING ==> ({
                let sr = crate::reliability::sweep_resends(old(self).outbound@, now_ms);
                &&& final(self).outbound@ == crate::reliability::sweep_kept(
                    old(self).outbound@,
                    now_ms,
                )
                &&& out@.len() == sr.len()
                &&& forall|i: int|
                    0 <= i < out@.len() ==> (#[trigger] out@[i]).dest == sr[i].addr
                        && out@[i].bytes@ == seq![sr[i].packet_type.spec_tag()] + u32_to_le_bytes(
                        sr[i].seq,
                    ) + sr[i].payload
            }),
    {
        let resends = self.outbound.sweep(now_ms);
        let ghost sr = Seq::new(resends@.len(), |i: int| resends@[i]@);
        let n = resends.len();
        let mut out: Vec<Datagram> = Vec::new();
        let mut i: usize = 0;
        while i < n
            invariant
                n == resends@.len(),
                i <= n,
                sr == Seq::new(resends@.len(), |k: int| resends@[k]@),
                out@.len() == i,
                forall|k: int|
                    0 <= k < i ==> (#[trigger] out@[k]).dest == sr[k].addr && out@[k].bytes@
                        == seq![sr[k].packet_type.spec_tag()] + u32_to_le_bytes(sr[k].seq)
                        + sr[k].payload,
            decreases n - i,
        {
            let r = &resends[i];
            let bytes = frame_reliable(r.packet_type, r.seq, r.payload.as_slice());
            out.push(Datagram { dest: r.addr, bytes });
            proof {
                assert(out@.last().dest == sr[i as int].addr);
            }
            i = i + 1;
        }
        out
    }

    /// One inbound datagram: classifies by tag; acknowledges and
    /// deduplicates the reliable kinds before their handlers run
    /// (duplicates are acknowledged and dropped); removes the pending
    /// entry named by an acknowledgement; and hands the body to the
    /// kind's handler, whose exact transition the contract carries per
    /// kind. Unknown tags are dropped.
    pub fn handle_datagram(&mut self, data: &[u8], addr: PeerAddr, now: i64) -> (msgs: Vec<OutMsg>)
        requires
            old(self).wf(),
            data@.len() <= u32::MAX,
        ensures
            final(self).wf(),
            final(self).outbound.spec_next_seq() == old(self).outbound.spec_next_seq(),
            final(self).state.config == old(self).state.config,
            data@.len() == 0 ==> *final(self) == *old(self) && out_v(msgs) == Seq::<
                OutMsgV,
            >::empty(),
            data@.len() >= 1 ==> ({
                let t = PacketType::spec_from_tag(data@[0]);
                let payload = data@.subrange(1, data@.len() as int);
                &&& (t == PacketType::ReliableAck ==> final(self).state == old(self).state && final(self).inbound == old(self).inbound && out_v(msgs) == Seq::<OutMsgV>::empty() && (
                payload.len() != 4 ==> final(self).outbound == old(self).outbound) && (
                payload.len() == 4 ==> ({
                    let seq_no = crate::wire::u32_from_le_bytes(payload.subrange(0, 4));
                    &&& ((exists|i: int|
                        0 <= i < old(self).outbound@.len() && (#[trigger] old(
                            self,
                        ).outbound@[i]).addr == addr && old(self).outbound@[i].seq == seq_no)
                        ==> exists|i: int|
                        {
                            &&& 0 <= i < old(self).outbound@.len()
                            &&& (#[trigger] old(self).outbound@[i]).addr == addr
                            &&& old(self).outbound@[i].seq == seq_no
                            &&& final(self).outbound@ == old(self).outbound@.remove(i)
                        })
                    &&& (!(exists|i: int|
                        0 <= i < old(self).outbound@.len() && (#[trigger] old(
                            self,
                        ).outbound@[i]).addr == addr && old(self).outbound@[i].seq == seq_no)
                        ==> final(self).outbound == old(self).outbound)
                })))
                &&& (t.spec_is_reliable() ==> ({
                    &&& final(self).outbound == old(self).outbound
                    &&& (payload.len() < 4 ==> *final(self) == *old(self) && out_v(msgs) == Seq::<
                        OutMsgV,
                    >::empty())
                    &&& (payload.len() >= 4 ==> ({
                        let seq_no = crate::wire::u32_from_le_bytes(payload.subrange(0, 4));
                        let ack = OutMsgV {
                            dest: addr,
                            packet_type: PacketType::ReliableAck,
                            payload: u32_to_le_bytes(seq_no),
                        };
                        &&& out_v(msgs).len() >= 1 && out_v(msgs)[0] == ack
                        &&& (seq_no <= old(self).inbound.spec_last(addr, t.spec_tag())
                            ==> same_state(final(self).state, old(self).state) && final(self).inbound == old(self).inbound && out_v(msgs) == seq![ack])
                        &&& (seq_no > old(self).inbound.spec_last(addr, t.spec_tag()) ==> final(self).inbound.spec_last(addr, t.spec_tag()) == seq_no && (forall|
                            a: PeerAddr,
                            tg: u8,
                        |
                            !(a == addr && tg == t.spec_tag()) ==> final(self).inbound.spec_last(
                                a,
                                tg,
                            ) == old(self).inbound.spec_last(a, tg)))
                        &&& (seq_no > old(self).inbound.spec_last(addr, t.spec_tag()) ==> ({
                            let body = payload.skip(4);
                            let rest = out_v(msgs).skip(1);
                            &&& (t == PacketType::JiggyCollected ==> jiggy_transition(
                                old(self).state,
                                final(self).state,
                                body,
                                addr,
                                now,
                                rest,
                            ))
                            &&& (t == PacketType::HoneycombCollected ==> honeycomb_transition(
                                old(self).state,
                                final(self).state,
                                body,
                                addr,
                                now,
                                rest,
                            ))
                            &&& (t == PacketType::MumboTokenCollected ==> token_transition(
                                old(self).state,
                                final(self).state,
                                body,
                                addr,
                                now,
                                rest,
                            ))
                            &&& (t == PacketType::NoteCollectedPos ==> note_pos_transition(
                                old(self).state,
                                final(self).state,
                                body,
                                addr,
                                now,
                                rest,
                            ))
                            &&& (t == PacketType::NoteCollected ==> note_transition(
                                old(self).state,
                                final(self).state,
                                body,
                                addr,
                                rest,
                            ))
                            &&& (t == PacketType::FullSyncRequest ==> full_sync_transition(
                                old(self).state,
                                final(self).state,
                                addr,
                                rest,
                            ))
                            &&& (t == PacketType::NoteSaveData ==> note_save_transition(
                                old(self).state,
                                final(self).state,
                                body,
                                addr,
                                now,
                                rest,
                            ))
                            &&& (t == PacketType::FileProgressFlags ==> file_progress_transition(
                                old(self).state,
                                final(self).state,
                                body,
                                addr,
                                now,
                                rest,
                            ))
                            &&& (t == PacketType::AbilityProgress ==> ability_transition(
                                old(self).state,
                                final(self).state,
                                body,
                                addr,
                                now,
                                rest,
                            ))
                            &&& (t == PacketType::HoneycombScore ==> honeycomb_score_transition(
                                old(self).state,
                                final(self).state,
                                body,
                                addr,
                                now,
                                rest,
                            ))
                            &&& (t == PacketType::MumboScore ==> mumbo_score_transition(
                                old(self).state,
                                final(self).state,
                                body,
                                addr,
                                now,
                                rest,
                            ))
                            &&& (t == PacketType::LevelOpened ==> level_transition(
                                old(self).state,
                                final(self).state,
                                body,
                                addr,
                                now,
                                rest,
                            ))
                        }))
                    }))
                }))
                &&& (!t.spec_is_reliable() && t != PacketType::ReliableAck ==> final(self).inbound
                    == old(self).inbound && final(self).outbound == old(self).outbound)
                &&& (!t.spec_is_reliable() && t != PacketType::ReliableAck && !handled_kind(t)
                    ==> *final(self) == *old(self) && out_v(msgs) == Seq::<OutMsgV>::empty())
                &&& (t == PacketType::Handshake ==> handshake_transition(
                    old(self).state,
                    final(self).state,
                    payload,
                    addr,
                    now,
                    out_v(msgs),
                ))
                &&& (t == PacketType::Ping ==> ping_transition(
                    old(self).state,
                    final(self).state,
                    addr,
                    out_v(msgs),
                ))
                &&& (t == PacketType::PuppetUpdate ==> puppet_transition(
                    old(self).state,
                    final(self).state,
                    payload,
                    addr,
                    out_v(msgs),
                ))
                &&& (t == PacketType::PuppetSyncRequest ==> puppet_sync_transition(
                    old(self).state,
                    final(self).state,
                    addr,
                    out_v(msgs),
                ))
            }),
    {
        let none: Vec<OutMsg> = Vec::new();
        proof {
            assert(out_v(none) =~= Seq::<OutMsgV>::empty());
        }
        if data.len() == 0 {
            return none;
        }
        let t = PacketType::from(data[0]);
        let payload = vstd::slice::slice_subrange(data, 1, data.len());
        if t == PacketType::ReliableAck {
            if payload.len() == 4 {
                match crate::wire::read_u32_le(payload, 0) {
                    Ok(seq_no) => {
                        self.outbound.ack(addr, seq_no);
                    },
                    Err(_) => {
                    },
                }
            }
            return none;
        }
        if t.is_reliable_type() {
            let seq_no = match crate::wire::read_u32_le(payload, 0) {
                Ok(v) => v,
                Err(_) => {
                    return none;
                },
            };
            let mut ackp: Vec<u8> = Vec::new();
            crate::wire::write_u32_le(&mut ackp, seq_no);
            let mut msgs: Vec<OutMsg> = Vec::new();
            msgs.push(OutMsg { dest: addr, packet_type: PacketType::ReliableAck, payload: ackp });
            proof {
                assert(out_v(msgs) =~= seq![
                    OutMsgV {
                        dest: addr,
                        packet_type: PacketType::ReliableAck,
                        payload: u32_to_le_bytes(seq_no),
                    },
                ]);
            }
            let fresh = self.inbound.accept(addr, t.tag(), seq_no);
            if !fresh {
                return msgs;
            }
            let body = vstd::slice::slice_subrange(payload, 4, payload.len());
            let ghost acks = out_v(msgs);
            let mut rest = self.dispatch(t, body, addr, now);
            let ghost rest_v = out_v(rest);
            msgs.append(&mut rest);
            proof {
                assert(out_v(msgs) =~= acks + rest_v);
                assert(out_v(msgs).subrange(0, 1) =~= acks);
                assert(out_v(msgs)[0] == acks[0]);
                assert(out_v(msgs).skip(1) =~= rest_v);
                assert(body@ =~= data@.subrange(1, data@.len() as int).skip(4));
            }
            msgs
        } else {
            self.dispatch(t, payload, addr, now)
        }
    }

    /// Routes one accepted body to its kind's handler. Kinds the server
    /// does not handle are dropped.
    fn dispatch(&mut self, t: PacketType, body: &[u8], addr: PeerAddr, now: i64) -> (msgs: Vec<
        OutMsg,
    >)
        requires
            old(self).wf(),
            body@.len() <= u32::MAX,
        ensures
            final(self).wf(),
            final(self).inbound == old(self).inbound,
            final(self).outbound == old(self).outbound,
            final(self).state.config == old(self).state.config,
            !handled_kind(t) ==> *final(self) == *old(self) && out_v(msgs) == Seq::<
                OutMsgV,
            >::empty(),
            t == PacketType::Handshake ==> handshake_transition(
                old(self).state,
                final(self).state,
                body@,
                addr,
                now,
                out_v(msgs),
            ),
            t == PacketType::Ping ==> ping_transition(
                old(self).state,
                final(self).state,
                addr,
                out_v(msgs),
            ),
            t == PacketType::JiggyCollected ==> jiggy_transition(
                old(self).state,
                final(self).state,
                body@,
                addr,
                now,
                out_v(msgs),
            ),
            t == PacketType::HoneycombCollected ==> honeycomb_transition(
                old(self).state,
                final(self).state,
                body@,
                addr,
                now,
                out_v(msgs),
            ),
            t == PacketType::MumboTokenCollected ==> token_transition(
                old(self).state,
                final(self).state,
                body@,
                addr,
                now,
                out_v(msgs),
            ),
            t == PacketType::NoteCollectedPos ==> note_pos_transition(
                old(self).state,
                final(self).state,
                body@,
                addr,
                now,
                out_v(msgs),
            ),
            t == PacketType::NoteCollected ==> note_transition(
                old(self).state,
                final(self).state,
                body@,
                addr,
                out_v(msgs),
            ),
            t == PacketType::FullSyncRequest ==> full_sync_transition(
                old(self).state,
                final(self).state,
                addr,
                out_v(msgs),
            ),
            t == PacketType::NoteSaveData ==> note_save_transition(
                old(self).state,
                final(self).state,
                body@,
                addr,
                now,
                out_v(msgs),
            ),
            t == PacketType::FileProgressFlags ==> file_progress_transition(
                old(self).state,
                final(self).state,
                body@,
                addr,
                now,
                out_v(msgs),
            ),
            t == PacketType::AbilityProgress ==> ability_transition(
                old(self).state,
                final(self).state,
                body@,
                addr,
                now,
                out_v(msgs),
            ),
            t == PacketType::HoneycombScore ==> honeycomb_score_transition(
                old(self).state,
                final(self).state,
                body@,
                addr,
                now,
                out_v(msgs),
            ),
            t == PacketType::MumboScore ==> mumbo_score_transition(
                old(self).state,
                final(self).state,
                body@,
                addr,
                now,
                out_v(msgs),
            ),
            t == PacketType::PuppetUpdate ==> puppet_transition(
                old(self).state,
                final(self).state,
                body@,
                addr,
                out_v(msgs),
            ),
            t == PacketType::PuppetSyncRequest ==> puppet_sync_transition(
                old(self).state,
                final(self).state,
                addr,
                out_v(msgs),
            ),
            t == PacketType::LevelOpened ==> level_transition(
                old(self).state,
                final(self).state,
                body@,
                addr,
                now,
                out_v(msgs),
            ),
    {
        match t {
            PacketType::Handshake => self.state.handle_handshake(body, addr, now),
            PacketType::Ping => {
                let out = self.state.handle_ping(addr);
                proof {
                    assert(ping_transition(old(self).state, self.state, addr, out_v(out)));
                }
                out
            },
            PacketType::JiggyCollected => self.state.handle_jiggy_collected(body, addr, now),
            PacketType::HoneycombCollected => self.state.handle_honeycomb_collected(
                body,
                addr,
                now,
            ),
            PacketType::MumboTokenCollected => self.state.handle_mumbo_token_collected(
                body,
                addr,
                now,
            ),
            PacketType::NoteCollectedPos => self.state.handle_note_collected_pos(body, addr, now),
            PacketType::NoteCollected => self.state.handle_note_collected(body, addr),
            PacketType::FullSyncRequest => self.state.handle_full_sync_request(addr),
            PacketType::NoteSaveData => self.state.handle_note_save_data(body, addr, now),
            PacketType::FileProgressFlags => self.state.handle_file_progress_flags(
                body,
                addr,
                now,
            ),
            PacketType::AbilityProgress => self.state.handle_ability_progress(body, addr, now),
            PacketType::HoneycombScore => self.state.handle_honeycomb_score(body, addr, now),
            PacketType::MumboScore => self.state.handle_mumbo_score(body, addr, now),
            PacketType::PuppetUpdate => self.state.handle_puppet_update(body, addr),
            PacketType::PuppetSyncRequest => {
                let out = self.state.handle_puppet_sync_request(addr);
                proof {
                    assert(puppet_sync_transition(old(self).state, self.state, addr, out_v(out)));
                }
                out
            },
            PacketType::LevelOpened => self.state.handle_level_opened(body, addr, now),
            _ => {
                let none: Vec<OutMsg> = Vec::new();
                proof {
                    assert(out_v(none) =~= Seq::<OutMsgV>::empty());
                }
                none
            },
        }
    }
}

} // verus!
