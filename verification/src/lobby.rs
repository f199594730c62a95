//! Lobby state: append-only progression collections with per-kind dedup
//! rules, fixed-size savefile blobs with monotone merge semantics, and the
//! live player roster.

use vstd::prelude::*;

verus! {

/// A collected note, deduplicated by proximity: two notes are the same
/// note when they lie on the same map and each axis differs by at most
/// [`POS_TOLERANCE`] in absolute value.
#[derive(Debug, Clone)]
pub struct CollectedNote {
    pub map_id: i32,
    pub x: i16,
    pub y: i16,
    pub z: i16,
    pub collected_by: String,
    pub timestamp: i64,
}

/// Mathematical image of a [`CollectedNote`].
#[verifier::ext_equal]
pub ghost struct NoteV {
    pub map_id: i32,
    pub x: i16,
    pub y: i16,
    pub z: i16,
    pub collected_by: Seq<char>,
    pub timestamp: i64,
}

impl View for CollectedNote {
    type V = NoteV;

    open spec fn view(&self) -> NoteV {
        NoteV {
            map_id: self.map_id,
            x: self.x,
            y: self.y,
            z: self.z,
            collected_by: self.collected_by@,
            timestamp: self.timestamp,
        }
    }
}

/// A collected jiggy, deduplicated by exact `(level_id, jiggy_id)`.
#[derive(Debug, Clone)]
pub struct CollectedJiggy {
    pub level_id: i32,
    pub jiggy_id: i32,
    pub collected_by: String,
    pub timestamp: i64,
}

/// Mathematical image of a [`CollectedJiggy`].
#[verifier::ext_equal]
pub ghost struct JiggyV {
    pub level_id: i32,
    pub jiggy_id: i32,
    pub collected_by: Seq<char>,
    pub timestamp: i64,
}

impl View for CollectedJiggy {
    type V = JiggyV;

    open spec fn view(&self) -> JiggyV {
        JiggyV {
            level_id: self.level_id,
            jiggy_id: self.jiggy_id,
            collected_by: self.collected_by@,
            timestamp: self.timestamp,
        }
    }
}

/// A collected honeycomb, deduplicated by exact `(map_id, honeycomb_id)`.
#[derive(Debug, Clone)]
pub struct CollectedHoneycomb {
    pub map_id: i32,
    pub honeycomb_id: i32,
    pub x: i32,
    pub y: i32,
    pub z: i32,
    pub collected_by: String,
    pub timestamp: i64,
}

/// Mathematical image of a [`CollectedHoneycomb`].
#[verifier::ext_equal]
pub ghost struct HoneycombV {
    pub map_id: i32,
    pub honeycomb_id: i32,
    pub x: i32,
    pub y: i32,
    pub z: i32,
    pub collected_by: Seq<char>,
    pub timestamp: i64,
}

impl View for CollectedHoneycomb {
    type V = HoneycombV;

    open spec fn view(&self) -> HoneycombV {
        HoneycombV {
            map_id: self.map_id,
            honeycomb_id: self.honeycomb_id,
            x: self.x,
            y: self.y,
            z: self.z,
            collected_by: self.collected_by@,
            timestamp: self.timestamp,
        }
    }
}

/// A collected Mumbo token, deduplicated by exact `(map_id, token_id)`.
/// Same shape as a honeycomb, in a distinct space.
#[derive(Debug, Clone)]
pub struct CollectedMumboToken {
    pub map_id: i32,
    pub token_id: i32,
    pub x: i32,
    pub y: i32,
    pub z: i32,
    pub collected_by: String,
    pub timestamp: i64,
}

/// Mathematical image of a [`CollectedMumboToken`].
#[verifier::ext_equal]
pub ghost struct MumboTokenV {
    pub map_id: i32,
    pub token_id: i32,
    pub x: i32,
    pub y: i32,
    pub z: i32,
    pub collected_by: Seq<char>,
    pub timestamp: i64,
}

impl View for CollectedMumboToken {
    type V = MumboTokenV;

    open spec fn view(&self) -> MumboTokenV {
        MumboTokenV {
            map_id: self.map_id,
            token_id: self.token_id,
            x: self.x,
            y: self.y,
            z: self.z,
            collected_by: self.collected_by@,
            timestamp: self.timestamp,
        }
    }
}

/// An opened world, deduplicated by `world_id`.
#[derive(Debug, Clone)]
pub struct OpenedLevel {
    pub world_id: i32,
    pub jiggy_cost: i32,
    pub opened_by: String,
    pub timestamp: i64,
}

/// Mathematical image of an [`OpenedLevel`].
#[verifier::ext_equal]
pub ghost struct OpenedLevelV {
    pub world_id: i32,
    pub jiggy_cost: i32,
    pub opened_by: Seq<char>,
    pub timestamp: i64,
}

impl View for OpenedLevel {
    type V = OpenedLevelV;

    open spec fn view(&self) -> OpenedLevelV {
        OpenedLevelV {
            world_id: self.world_id,
            jiggy_cost: self.jiggy_cost,
            opened_by: self.opened_by@,
            timestamp: self.timestamp,
        }
    }
}

/// Proximity tolerance of the positional-note dedup rule, per axis.
pub const POS_TOLERANCE: i16 = 10;

/// The bitwise-OR merge of `src` into `dest`, byte by byte up to the
/// shorter length; `dest` keeps its length and its tail.
pub open spec fn or_merge(dest: Seq<u8>, src: Seq<u8>) -> Seq<u8> {
    Seq::new(
        dest.len(),
        |i: int|
            if i < src.len() {
                (dest[i] | src[i]) as u8
            } else {
                dest[i]
            },
    )
}

/// The per-byte-max merge of `src` into `dest`, byte by byte up to the
/// shorter length; `dest` keeps its length and its tail.
pub open spec fn max_merge(dest: Seq<u8>, src: Seq<u8>) -> Seq<u8> {
    Seq::new(
        dest.len(),
        |i: int|
            if i < src.len() && src[i] > dest[i] {
                src[i]
            } else {
                dest[i]
            },
    )
}

/// Fixed-size savefile blobs, each merged monotonically: bitwise OR for
/// flag blobs, per-byte max for `note_totals`. No merge ever clears a
/// set bit or lowers a byte.
#[derive(Debug, Clone)]
pub struct SaveFlags {
    /// Unlocked cheat codes (0x19 bytes, OR-merged).
    pub cheat_flags: Vec<u8>,
    /// General game flags (0x20 bytes, OR-merged).
    pub game_flags: Vec<u8>,
    /// Honeycomb flags (0x03 bytes, OR-merged).
    pub honeycomb_flags: Vec<u8>,
    /// Collected jiggy flags (0x0d bytes, OR-merged).
    pub jiggy_flags: Vec<u8>,
    /// Collected Mumbo token flags (0x10 bytes, OR-merged).
    pub token_flags: Vec<u8>,
    /// Note totals (0x0f bytes, per-byte max).
    pub note_totals: Vec<u8>,
    /// Completed puzzles (11 bytes, OR-merged).
    pub puzzles_completed: Vec<u8>,
    /// Level event flags (OR-merged as a u32).
    pub level_events: u32,
    /// Full file-progress blob (0x25 bytes, OR-merged).
    pub file_progress_flags: Vec<u8>,
    /// Unlocked moves (OR-merged as a u32).
    pub moves: u32,
    /// Ability progress blob (8 bytes, OR-merged).
    pub ability_progress: Vec<u8>,
    /// Honeycomb score blob (0x03 bytes, OR-merged).
    pub honeycomb_score: Vec<u8>,
    /// Mumbo score blob (0x10 bytes, OR-merged).
    pub mumbo_score: Vec<u8>,
    /// Individually collected notes, one 32-byte slot per level (9 slots,
    /// OR-merged per slot).
    pub note_save_data: Vec<Vec<u8>>,
}

/// Mathematical image of [`SaveFlags`].
#[verifier::ext_equal]
pub ghost struct SaveFlagsV {
    pub cheat_flags: Seq<u8>,
    pub game_flags: Seq<u8>,
    pub honeycomb_flags: Seq<u8>,
    pub jiggy_flags: Seq<u8>,
    pub token_flags: Seq<u8>,
    pub note_totals: Seq<u8>,
    pub puzzles_completed: Seq<u8>,
    pub level_events: u32,
    pub file_progress_flags: Seq<u8>,
    pub moves: u32,
    pub ability_progress: Seq<u8>,
    pub honeycomb_score: Seq<u8>,
    pub mumbo_score: Seq<u8>,
    pub note_save_data: Seq<Seq<u8>>,
}

impl View for SaveFlags {
    type V = SaveFlagsV;

    open spec fn view(&self) -> SaveFlagsV {
        SaveFlagsV {
            cheat_flags: self.cheat_flags@,
            game_flags: self.game_flags@,
            honeycomb_flags: self.honeycomb_flags@,
            jiggy_flags: self.jiggy_flags@,
            token_flags: self.token_flags@,
            note_totals: self.note_totals@,
            puzzles_completed: self.puzzles_completed@,
            level_events: self.level_events,
            file_progress_flags: self.file_progress_flags@,
            moves: self.moves,
            ability_progress: self.ability_progress@,
            honeycomb_score: self.honeycomb_score@,
            mumbo_score: self.mumbo_score@,
            note_save_data: Seq::new(self.note_save_data@.len(), |i: int| self.note_save_data@[i]@),
        }
    }
}

impl SaveFlagsV {
    /// The blob sizes every well-formed [`SaveFlags`] carries.
    pub open spec fn wf(self) -> bool {
        &&& self.cheat_flags.len() == 0x19
        &&& self.game_flags.len() == 0x20
        &&& self.honeycomb_flags.len() == 0x03
        &&& self.jiggy_flags.len() == 0x0d
        &&& self.token_flags.len() == 0x10
        &&& self.note_totals.len() == 0x0f
        &&& self.puzzles_completed.len() == 11
        &&& self.file_progress_flags.len() == 0x25
        &&& self.ability_progress.len() == 8
        &&& self.honeycomb_score.len() == 0x03
        &&& self.mumbo_score.len() == 0x10
        &&& self.note_save_data.len() == 9
        &&& forall|i: int| 0 <= i < 9 ==> self.note_save_data[i].len() == 32
    }

    /// The all-zero savefile state.
    pub open spec fn default_v() -> SaveFlagsV {
        SaveFlagsV {
            cheat_flags: Seq::new(0x19, |i: int| 0u8),
            game_flags: Seq::new(0x20, |i: int| 0u8),
            honeycomb_flags: Seq::new(0x03, |i: int| 0u8),
            jiggy_flags: Seq::new(0x0d, |i: int| 0u8),
            token_flags: Seq::new(0x10, |i: int| 0u8),
            note_totals: Seq::new(0x0f, |i: int| 0u8),
            puzzles_completed: Seq::new(11, |i: int| 0u8),
            level_events: 0,
            file_progress_flags: Seq::new(0x25, |i: int| 0u8),
            moves: 0,
            ability_progress: Seq::new(8, |i: int| 0u8),
            honeycomb_score: Seq::new(0x03, |i: int| 0u8),
            mumbo_score: Seq::new(0x10, |i: int| 0u8),
            note_save_data: Seq::new(9, |i: int| Seq::new(32, |j: int| 0u8)),
        }
    }
}

/// A zero-filled byte vector of the given length.
fn zero_vec(n: usize) -> (r: Vec<u8>)
    ensures
        r@ == Seq::new(n as nat, |i: int| 0u8),
{
    let mut v: Vec<u8> = Vec::new();
    let mut k: usize = 0;
    while k < n
        invariant
            k <= n,
            v@ == Seq::new(k as nat, |i: int| 0u8),
        decreases n - k,
    {
        v.push(0);
        k = k + 1;
        proof {
            assert(v@ =~= Seq::new(k as nat, |i: int| 0u8));
        }
    }
    v
}

impl Default for SaveFlags {
    /// All blobs all-zero, at their fixed sizes.
    fn default() -> (r: SaveFlags)
        ensures
            r@ == SaveFlagsV::default_v(),
    {
        let mut note_save_data: Vec<Vec<u8>> = Vec::new();
        let mut k: usize = 0;
        while k < 9
            invariant
                k <= 9,
                note_save_data@.len() == k,
                forall|i: int|
                    0 <= i < k ==> note_save_data@[i]@ == Seq::new(32, |j: int| 0u8),
            decreases 9 - k,
        {
            note_save_data.push(zero_vec(32));
            k = k + 1;
        }
        let r = SaveFlags {
            cheat_flags: zero_vec(0x19),
            game_flags: zero_vec(0x20),
            honeycomb_flags: zero_vec(0x03),
            jiggy_flags: zero_vec(0x0d),
            token_flags: zero_vec(0x10),
            note_totals: zero_vec(0x0f),
            puzzles_completed: zero_vec(11),
            level_events: 0,
            file_progress_flags: zero_vec(0x25),
            moves: 0,
            ability_progress: zero_vec(8),
            honeycomb_score: zero_vec(0x03),
            mumbo_score: zero_vec(0x10),
            note_save_data,
        };
        proof {
            assert(r@.note_save_data =~= SaveFlagsV::default_v().note_save_data);
            assert(r@ =~= SaveFlagsV::default_v());
        }
        r
    }
}

/// OR-merge never clears a set bit: every bit of `dest` survives into the
/// merged blob.
pub proof fn lemma_or_merge_monotone(dest: Seq<u8>, src: Seq<u8>)
    ensures
        forall|i: int|
            0 <= i < dest.len() ==> (#[trigger] or_merge(dest, src)[i] | dest[i]) == or_merge(
                dest,
                src,
            )[i],
{
    assert forall|i: int| 0 <= i < dest.len() implies (#[trigger] or_merge(dest, src)[i]
        | dest[i]) == or_merge(dest, src)[i] by {
        let d = dest[i];
        if i < src.len() {
            let s = src[i];
            assert(((d | s) | d) == (d | s)) by (bit_vector);
        } else {
            assert((d | d) == d) by (bit_vector);
        }
    }
}

/// Per-byte-max merge never lowers a byte.
pub proof fn lemma_max_merge_monotone(dest: Seq<u8>, src: Seq<u8>)
    ensures
        forall|i: int| 0 <= i < dest.len() ==> #[trigger] max_merge(dest, src)[i] >= dest[i],
{
}

/// A live member of a lobby: the assigned player id and the username it
/// joined with. The roster is ephemeral and is never persisted.
#[derive(Debug, Clone)]
pub struct LobbyMember {
    pub id: u32,
    pub username: String,
}

/// Mathematical image of a [`LobbyMember`].
#[verifier::ext_equal]
pub ghost struct MemberV {
    pub id: u32,
    pub username: Seq<char>,
}

impl View for LobbyMember {
    type V = MemberV;

    open spec fn view(&self) -> MemberV {
        MemberV { id: self.id, username: self.username@ }
    }
}

/// Whether a jiggy record carries the given dedup key.
pub open spec fn jiggy_key_matches(j: JiggyV, level_id: i32, jiggy_id: i32) -> bool {
    j.level_id == level_id && j.jiggy_id == jiggy_id
}

/// Whether a honeycomb record carries the given dedup key.
pub open spec fn honeycomb_key_matches(h: HoneycombV, map_id: i32, honeycomb_id: i32) -> bool {
    h.map_id == map_id && h.honeycomb_id == honeycomb_id
}

/// Whether a Mumbo-token record carries the given dedup key.
pub open spec fn token_key_matches(t: MumboTokenV, map_id: i32, token_id: i32) -> bool {
    t.map_id == map_id && t.token_id == token_id
}

/// Whether two axis values lie within the proximity tolerance of each
/// other, measured over the integers (no wrap-around).
pub open spec fn within_tolerance(a: i16, b: i16) -> bool {
    -(POS_TOLERANCE as int) <= a - b <= POS_TOLERANCE as int
}

/// Whether a note record matches the given position under the proximity
/// rule: same map, every axis within tolerance.
pub open spec fn note_matches(n: NoteV, map_id: i32, x: i16, y: i16, z: i16) -> bool {
    n.map_id == map_id && within_tolerance(n.x, x) && within_tolerance(n.y, y)
        && within_tolerance(n.z, z)
}

/// A named, password-protected session holding the canonical progression
/// record shared by its players.
#[derive(Debug, Clone)]
pub struct Lobby {
    /// Unique, case-sensitive lobby name.
    pub name: String,
    /// Lobby password; empty means open.
    pub password: String,
    /// Creation time, wall-clock seconds.
    pub created_at: i64,
    /// Time of the last state-changing mutation, wall-clock seconds.
    pub last_activity: i64,
    /// Latched true once a player has uploaded initial save data.
    pub has_initial_save_data: bool,
    /// Live players; ephemeral, never persisted.
    pub players: Vec<LobbyMember>,
    /// Collected notes, deduplicated by proximity.
    pub collected_notes: Vec<CollectedNote>,
    /// Collected jiggies, deduplicated by `(level_id, jiggy_id)`.
    pub collected_jiggies: Vec<CollectedJiggy>,
    /// Opened worlds, deduplicated by `world_id`.
    pub opened_levels: Vec<OpenedLevel>,
    /// Collected honeycombs, deduplicated by `(map_id, honeycomb_id)`.
    pub collected_honeycombs: Vec<CollectedHoneycomb>,
    /// Collected Mumbo tokens, deduplicated by `(map_id, token_id)`.
    pub collected_mumbo_tokens: Vec<CollectedMumboToken>,
    /// Savefile blobs under monotone merge.
    pub save_flags: SaveFlags,
}

/// Mathematical image of a [`Lobby`].
#[verifier::ext_equal]
pub ghost struct LobbyV {
    pub name: Seq<char>,
    pub password: Seq<char>,
    pub created_at: i64,
    pub last_activity: i64,
    pub has_initial_save_data: bool,
    pub players: Seq<MemberV>,
    pub collected_notes: Seq<NoteV>,
    pub collected_jiggies: Seq<JiggyV>,
    pub opened_levels: Seq<OpenedLevelV>,
    pub collected_honeycombs: Seq<HoneycombV>,
    pub collected_mumbo_tokens: Seq<MumboTokenV>,
    pub save_flags: SaveFlagsV,
}

impl View for Lobby {
    type V = LobbyV;

    open spec fn view(&self) -> LobbyV {
        LobbyV {
            name: self.name@,
            password: self.password@,
            created_at: self.created_at,
            last_activity: self.last_activity,
            has_initial_save_data: self.has_initial_save_data,
            players: Seq::new(self.players@.len(), |i: int| self.players@[i]@),
            collected_notes: Seq::new(self.collected_notes@.len(), |i: int| self.collected_notes@[i]@),
            collected_jiggies: Seq::new(
                self.collected_jiggies@.len(),
                |i: int| self.collected_jiggies@[i]@,
            ),
            opened_levels: Seq::new(self.opened_levels@.len(), |i: int| self.opened_levels@[i]@),
            collected_honeycombs: Seq::new(
                self.collected_honeycombs@.len(),
                |i: int| self.collected_honeycombs@[i]@,
            ),
            collected_mumbo_tokens: Seq::new(
                self.collected_mumbo_tokens@.len(),
                |i: int| self.collected_mumbo_tokens@[i]@,
            ),
            save_flags: self.save_flags@,
        }
    }
}

impl LobbyV {
    /// Whether a jiggy with the given key has been collected.
    pub open spec fn jiggy_collected(self, level_id: i32, jiggy_id: i32) -> bool {
        exists|i: int|
            0 <= i < self.collected_jiggies.len() && jiggy_key_matches(
                #[trigger] self.collected_jiggies[i],
                level_id,
                jiggy_id,
            )
    }

    /// Whether a honeycomb with the given key has been collected.
    pub open spec fn honeycomb_collected(self, map_id: i32, honeycomb_id: i32) -> bool {
        exists|i: int|
            0 <= i < self.collected_honeycombs.len() && honeycomb_key_matches(
                #[trigger] self.collected_honeycombs[i],
                map_id,
                honeycomb_id,
            )
    }

    /// Whether a Mumbo token with the given key has been collected.
    pub open spec fn token_collected(self, map_id: i32, token_id: i32) -> bool {
        exists|i: int|
            0 <= i < self.collected_mumbo_tokens.len() && token_key_matches(
                #[trigger] self.collected_mumbo_tokens[i],
                map_id,
                token_id,
            )
    }

    /// Whether a note within tolerance of the given position has been
    /// collected on the given map.
    pub open spec fn note_collected(self, map_id: i32, x: i16, y: i16, z: i16) -> bool {
        exists|i: int|
            0 <= i < self.collected_notes.len() && note_matches(
                #[trigger] self.collected_notes[i],
                map_id,
                x,
                y,
                z,
            )
    }

    /// Whether the given world has been opened.
    pub open spec fn level_opened(self, world_id: i32) -> bool {
        exists|i: int|
            0 <= i < self.opened_levels.len() && (#[trigger] self.opened_levels[i]).world_id
                == world_id
    }

    /// Whether the roster holds a member with the given id.
    pub open spec fn has_member(self, id: u32) -> bool {
        exists|i: int| 0 <= i < self.players.len() && (#[trigger] self.players[i]).id == id
    }

    /// Whether the roster holds the given id under the given username.
    pub open spec fn member_named(self, id: u32, username: Seq<char>) -> bool {
        exists|i: int|
            0 <= i < self.players.len() && #[trigger] self.players[i] == (MemberV {
                id,
                username,
            })
    }

    /// No two records share a dedup key, the roster ids are unique, and
    /// the savefile blobs have their fixed sizes.
    pub open spec fn wf(self) -> bool {
        &&& self.save_flags.wf()
        &&& forall|i: int, j: int|
            0 <= i < j < self.collected_jiggies.len() ==> !jiggy_key_matches(
                #[trigger] self.collected_jiggies[i],
                (#[trigger] self.collected_jiggies[j]).level_id,
                self.collected_jiggies[j].jiggy_id,
            )
        &&& forall|i: int, j: int|
            0 <= i < j < self.collected_honeycombs.len() ==> !honeycomb_key_matches(
                #[trigger] self.collected_honeycombs[i],
                (#[trigger] self.collected_honeycombs[j]).map_id,
                self.collected_honeycombs[j].honeycomb_id,
            )
        &&& forall|i: int, j: int|
            0 <= i < j < self.collected_mumbo_tokens.len() ==> !token_key_matches(
                #[trigger] self.collected_mumbo_tokens[i],
                (#[trigger] self.collected_mumbo_tokens[j]).map_id,
                self.collected_mumbo_tokens[j].token_id,
            )
        &&& forall|i: int, j: int|
            0 <= i < j < self.collected_notes.len() ==> !note_matches(
                #[trigger] self.collected_notes[i],
                (#[trigger] self.collected_notes[j]).map_id,
                self.collected_notes[j].x,
                self.collected_notes[j].y,
                self.collected_notes[j].z,
            )
        &&& forall|i: int, j: int|
            0 <= i < j < self.opened_levels.len() ==> (#[trigger] self.opened_levels[i]).world_id
                != (#[trigger] self.opened_levels[j]).world_id
        &&& forall|i: int, j: int|
            0 <= i < j < self.players.len() ==> (#[trigger] self.players[i]).id != (
            #[trigger] self.players[j]).id
    }
}

impl Lobby {
    /// The state of a fresh lobby: empty collections, all-zero savefile
    /// blobs, both clocks set to `now`.
    pub open spec fn new_v(name: Seq<char>, password: Seq<char>, now: i64) -> LobbyV {
        LobbyV {
            name,
            password,
            created_at: now,
            last_activity: now,
            has_initial_save_data: false,
            players: Seq::<MemberV>::empty(),
            collected_notes: Seq::<NoteV>::empty(),
            collected_jiggies: Seq::<JiggyV>::empty(),
            opened_levels: Seq::<OpenedLevelV>::empty(),
            collected_honeycombs: Seq::<HoneycombV>::empty(),
            collected_mumbo_tokens: Seq::<MumboTokenV>::empty(),
            save_flags: SaveFlagsV::default_v(),
        }
    }

    /// A fresh lobby, exactly as [`Lobby::new_v`] describes it.
    pub fn new(name: String, password: String, now: i64) -> (r: Lobby)
        ensures
            r@ == Lobby::new_v(name@, password@, now),
            r@.wf(),
    {
        let r = Lobby {
            name,
            password,
            created_at: now,
            last_activity: now,
            has_initial_save_data: false,
            players: Vec::new(),
            collected_notes: Vec::new(),
            collected_jiggies: Vec::new(),
            opened_levels: Vec::new(),
            collected_honeycombs: Vec::new(),
            collected_mumbo_tokens: Vec::new(),
            save_flags: SaveFlags::default(),
        };
        proof {
            assert(r@ =~= LobbyV {
                name: r.name@,
                password: r.password@,
                created_at: now,
                last_activity: now,
                has_initial_save_data: false,
                players: Seq::<MemberV>::empty(),
                collected_notes: Seq::<NoteV>::empty(),
                collected_jiggies: Seq::<JiggyV>::empty(),
                opened_levels: Seq::<OpenedLevelV>::empty(),
                collected_honeycombs: Seq::<HoneycombV>::empty(),
                collected_mumbo_tokens: Seq::<MumboTokenV>::empty(),
                save_flags: SaveFlagsV::default_v(),
            });
        }
        r
    }

    /// Whether a honeycomb with the given key has been collected.
    pub fn is_honeycomb_collected(&self, map_id: i32, honeycomb_id: i32) -> (r: bool)
        ensures
            r == self@.honeycomb_collected(map_id, honeycomb_id),
    {
        let n = self.collected_honeycombs.len();
        let mut i: usize = 0;
        while i < n
            invariant
                n == self.collected_honeycombs@.len(),
                i <= n,
                forall|k: int|
                    0 <= k < i ==> !honeycomb_key_matches(
                        #[trigger] self@.collected_honeycombs[k],
                        map_id,
                        honeycomb_id,
                    ),
            decreases n - i,
        {
            let h = &self.collected_honeycombs[i];
            if h.map_id == map_id && h.honeycomb_id == honeycomb_id {
                proof {
                    assert(honeycomb_key_matches(self@.collected_honeycombs[i as int], map_id, honeycomb_id));
                }
                return true;
            }
            i = i + 1;
        }
        false
    }

    /// Appends a honeycomb record unless its key is already collected;
    /// returns whether it was appended and bumps `last_activity` when so.
    pub fn add_collected_honeycomb(
        &mut self,
        map_id: i32,
        honeycomb_id: i32,
        x: i32,
        y: i32,
        z: i32,
        collected_by: String,
        now: i64,
    ) -> (added: bool)
        ensures
            added == !old(self)@.honeycomb_collected(map_id, honeycomb_id),
            added ==> final(self)@ == (LobbyV {
                collected_honeycombs: old(self)@.collected_honeycombs.push(
                    HoneycombV {
                        map_id,
                        honeycomb_id,
                        x,
                        y,
                        z,
                        collected_by: collected_by@,
                        timestamp: now,
                    },
                ),
                last_activity: now,
                ..old(self)@
            }),
            !added ==> final(self)@ == old(self)@,
            old(self)@.wf() ==> final(self)@.wf(),
    {
        if self.is_honeycomb_collected(map_id, honeycomb_id) {
            return false;
        }
        self.collected_honeycombs.push(
            CollectedHoneycomb { map_id, honeycomb_id, x, y, z, collected_by, timestamp: now },
        );
        self.last_activity = now;
        proof {
            assert(self@.collected_honeycombs =~= old(self)@.collected_honeycombs.push(
                self@.collected_honeycombs.last(),
            ));
            assert(self@ =~= LobbyV {
                collected_honeycombs: self@.collected_honeycombs,
                last_activity: now,
                ..old(self)@
            });
        }
        true
    }

    /// Whether a Mumbo token with the given key has been collected.
    pub fn is_mumbo_token_collected(&self, map_id: i32, token_id: i32) -> (r: bool)
        ensures
            r == self@.token_collected(map_id, token_id),
    {
        let n = self.collected_mumbo_tokens.len();
        let mut i: usize = 0;
        while i < n
            invariant
                n == self.collected_mumbo_tokens@.len(),
                i <= n,
                forall|k: int|
                    0 <= k < i ==> !token_key_matches(
                        #[trigger] self@.collected_mumbo_tokens[k],
                        map_id,
                        token_id,
                    ),
            decreases n - i,
        {
            let t = &self.collected_mumbo_tokens[i];
            if t.map_id == map_id && t.token_id == token_id {
                proof {
                    assert(token_key_matches(self@.collected_mumbo_tokens[i as int], map_id, token_id));
                }
                return true;
            }
            i = i + 1;
        }
        false
    }

    /// Appends a Mumbo-token record unless its key is already collected;
    /// returns whether it was appended and bumps `last_activity` when so.
    pub fn add_collected_mumbo_token(
        &mut self,
        map_id: i32,
        token_id: i32,
        x: i32,
        y: i32,
        z: i32,
        collected_by: String,
        now: i64,
    ) -> (added: bool)
        ensures
            added == !old(self)@.token_collected(map_id, token_id),
            added ==> final(self)@ == (LobbyV {
                collected_mumbo_tokens: old(self)@.collected_mumbo_tokens.push(
                    MumboTokenV {
                        map_id,
                        token_id,
                        x,
                        y,
                        z,
                        collected_by: collected_by@,
                        timestamp: now,
                    },
                ),
                last_activity: now,
                ..old(self)@
            }),
            !added ==> final(self)@ == old(self)@,
            old(self)@.wf() ==> final(self)@.wf(),
    {
        if self.is_mumbo_token_collected(map_id, token_id) {
            return false;
        }
        self.collected_mumbo_tokens.push(
            CollectedMumboToken { map_id, token_id, x, y, z, collected_by, timestamp: now },
        );
        self.last_activity = now;
        proof {
            assert(self@.collected_mumbo_tokens =~= old(self)@.collected_mumbo_tokens.push(
                self@.collected_mumbo_tokens.last(),
            ));
            assert(self@ =~= LobbyV {
                collected_mumbo_tokens: self@.collected_mumbo_tokens,
                last_activity: now,
                ..old(self)@
            });
        }
        true
    }

    /// Whether a jiggy with the given key has been collected.
    pub fn is_jiggy_collected(&self, jiggy_enum_id: i32, collected_value: i32) -> (r: bool)
        ensures
            r == self@.jiggy_collected(jiggy_enum_id, collected_value),
    {
        let n = self.collected_jiggies.len();
        let mut i: usize = 0;
        while i < n
            invariant
                n == self.collected_jiggies@.len(),
                i <= n,
                forall|k: int|
                    0 <= k < i ==> !jiggy_key_matches(
                        #[trigger] self@.collected_jiggies[k],
                        jiggy_enum_id,
                        collected_value,
                    ),
            decreases n - i,
        {
            let j = &self.collected_jiggies[i];
            if j.level_id == jiggy_enum_id && j.jiggy_id == collected_value {
                proof {
                    assert(jiggy_key_matches(self@.collected_jiggies[i as int], jiggy_enum_id, collected_value));
                }
                return true;
            }
            i = i + 1;
        }
        false
    }

    /// Appends a jiggy record unless its key is already collected;
    /// returns whether it was appended and bumps `last_activity` when so.
    pub fn add_collected_jiggy(
        &mut self,
        jiggy_enum_id: i32,
        collected_value: i32,
        collected_by: String,
        now: i64,
    ) -> (added: bool)
        ensures
            added == !old(self)@.jiggy_collected(jiggy_enum_id, collected_value),
            added ==> final(self)@ == (LobbyV {
                collected_jiggies: old(self)@.collected_jiggies.push(
                    JiggyV {
                        level_id: jiggy_enum_id,
                        jiggy_id: collected_value,
                        collected_by: collected_by@,
                        timestamp: now,
                    },
                ),
                last_activity: now,
                ..old(self)@
            }),
            !added ==> final(self)@ == old(self)@,
            old(self)@.wf() ==> final(self)@.wf(),
    {
        if self.is_jiggy_collected(jiggy_enum_id, collected_value) {
            return false;
        }
        self.collected_jiggies.push(
            CollectedJiggy {
                level_id: jiggy_enum_id,
                jiggy_id: collected_value,
                collected_by,
                timestamp: now,
            },
        );
        self.last_activity = now;
        proof {
            assert(self@.collected_jiggies =~= old(self)@.collected_jiggies.push(
                self@.collected_jiggies.last(),
            ));
            assert(self@ =~= LobbyV {
                collected_jiggies: self@.collected_jiggies,
                last_activity: now,
                ..old(self)@
            });
        }
        true
    }

    /// Whether a note within tolerance of the given position has been
    /// collected on the given map.
    pub fn is_note_collect(&self, map_id: i32, x: i16, y: i16, z: i16) -> (r: bool)
        ensures
            r == self@.note_collected(map_id, x, y, z),
    {
        let n = self.collected_notes.len();
        let mut i: usize = 0;
        while i < n
            invariant
                n == self.collected_notes@.len(),
                i <= n,
                forall|k: int|
                    0 <= k < i ==> !note_matches(#[trigger] self@.collected_notes[k], map_id, x, y, z),
            decreases n - i,
        {
            let note = &self.collected_notes[i];
            let dx: i32 = note.x as i32 - x as i32;
            let dy: i32 = note.y as i32 - y as i32;
            let dz: i32 = note.z as i32 - z as i32;
            let tol: i32 = POS_TOLERANCE as i32;
            if note.map_id == map_id && -tol <= dx && dx <= tol && -tol <= dy && dy <= tol && -tol
                <= dz && dz <= tol {
                proof {
                    assert(note_matches(self@.collected_notes[i as int], map_id, x, y, z));
                }
                return true;
            }
            i = i + 1;
        }
        false
    }

    /// Appends a note record unless one within tolerance is already
    /// collected; returns whether it was appended and bumps
    /// `last_activity` when so.
    pub fn add_collected_note(
        &mut self,
        map_id: i32,
        x: i16,
        y: i16,
        z: i16,
        collected_by: String,
        now: i64,
    ) -> (added: bool)
        ensures
            added == !old(self)@.note_collected(map_id, x, y, z),
            added ==> final(self)@ == (LobbyV {
                collected_notes: old(self)@.collected_notes.push(
                    NoteV { map_id, x, y, z, collected_by: collected_by@, timestamp: now },
                ),
                last_activity: now,
                ..old(self)@
            }),
            !added ==> final(self)@ == old(self)@,
            old(self)@.wf() ==> final(self)@.wf(),
    {
        if self.is_note_collect(map_id, x, y, z) {
            return false;
        }
        self.collected_notes.push(
            CollectedNote { map_id, x, y, z, collected_by, timestamp: now },
        );
        self.last_activity = now;
        proof {
            assert(self@.collected_notes =~= old(self)@.collected_notes.push(
                self@.collected_notes.last(),
            ));
            assert(self@ =~= LobbyV {
                collected_notes: self@.collected_notes,
                last_activity: now,
                ..old(self)@
            });
            assert(old(self)@.wf() ==> self@.wf()) by {
                if old(self)@.wf() {
                    assert forall|i: int, j: int|
                        0 <= i < j < self@.collected_notes.len() implies !note_matches(
                        #[trigger] self@.collected_notes[i],
                        (#[trigger] self@.collected_notes[j]).map_id,
                        self@.collected_notes[j].x,
                        self@.collected_notes[j].y,
                        self@.collected_notes[j].z,
                    ) by {
                        if j == self@.collected_notes.len() - 1 {
                            assert(!note_matches(old(self)@.collected_notes[i], map_id, x, y, z));
                        }
                    }
                }
            }
        }
        true
    }

    /// Whether the given world has been opened.
    pub fn is_level_opened(&self, world_id: i32) -> (r: bool)
        ensures
            r == self@.level_opened(world_id),
    {
        let n = self.opened_levels.len();
        let mut i: usize = 0;
        while i < n
            invariant
                n == self.opened_levels@.len(),
                i <= n,
                forall|k: int| 0 <= k < i ==> (#[trigger] self@.opened_levels[k]).world_id != world_id,
            decreases n - i,
        {
            if self.opened_levels[i].world_id == world_id {
                proof {
                    assert(self@.opened_levels[i as int].world_id == world_id);
                }
                return true;
            }
            i = i + 1;
        }
        false
    }

    /// Appends an opened-level record unless the world is already open;
    /// returns whether it was appended and bumps `last_activity` when so.
    /// The opener is recorded under a fixed sentinel name, as the wire
    /// format carries no username for this kind.
    pub fn add_opened_level(&mut self, world_id: i32, jiggy_cost: i32, now: i64) -> (added: bool)
        ensures
            added == !old(self)@.level_opened(world_id),
            added ==> final(self)@ == (LobbyV {
                opened_levels: old(self)@.opened_levels.push(
                    OpenedLevelV {
                        world_id,
                        jiggy_cost,
                        opened_by: "JiggyWiggy"@,
                        timestamp: now,
                    },
                ),
                last_activity: now,
                ..old(self)@
            }),
            !added ==> final(self)@ == old(self)@,
            old(self)@.wf() ==> final(self)@.wf(),
    {
        if self.is_level_opened(world_id) {
            return false;
        }
        self.opened_levels.push(
            OpenedLevel {
                world_id,
                jiggy_cost,
                opened_by: "JiggyWiggy".to_owned(),
                timestamp: now,
            },
        );
        self.last_activity = now;
        proof {
            assert(self@.opened_levels =~= old(self)@.opened_levels.push(
                self@.opened_levels.last(),
            ));
            assert(self@ =~= LobbyV {
                opened_levels: self@.opened_levels,
                last_activity: now,
                ..old(self)@
            });
        }
        true
    }

    /// Sets `last_activity` to the current wall clock. The clock's value
    /// is outside the model: every other field is unchanged, and nothing
    /// further is known of the new `last_activity`.
    pub fn update_activity(&mut self)
        ensures
            final(self)@ == (LobbyV { last_activity: final(self).last_activity, ..old(self)@ }),
    {
        self.last_activity = crate::clock::now_timestamp();
        proof {
            assert(self@ =~= LobbyV { last_activity: self.last_activity, ..old(self)@ });
        }
    }

    /// Whether the lobby has been inactive for at least `timeout_secs`
    /// as of `now`, measured over the integers (no wrap-around).
    pub fn is_idle(&self, timeout_secs: u64, now: i64) -> (r: bool)
        ensures
            r == (now - self@.last_activity >= timeout_secs),
    {
        (now as i128) - (self.last_activity as i128) >= timeout_secs as i128
    }

    /// Inserts a member, replacing the username when the id is already
    /// present, and bumps `last_activity` to `now`.
    pub fn add_player(&mut self, player_id: u32, username: String, now: i64)
        ensures
            !old(self)@.has_member(player_id) ==> final(self)@ == (LobbyV {
                players: old(self)@.players.push(
                    MemberV { id: player_id, username: username@ },
                ),
                last_activity: now,
                ..old(self)@
            }),
            old(self)@.has_member(player_id) ==> exists|i: int|
                0 <= i < old(self)@.players.len() && old(self)@.players[i].id == player_id
                    && final(self)@ == (LobbyV {
                    players: old(self)@.players.update(
                        i,
                        MemberV { id: player_id, username: username@ },
                    ),
                    last_activity: now,
                    ..old(self)@
                }),
            old(self)@.wf() ==> final(self)@.wf(),
            final(self)@.has_member(player_id),
    {
        let n = self.players.len();
        let mut i: usize = 0;
        while i < n
            invariant
                *self == *old(self),
                n == self.players@.len(),
                i <= n,
                forall|k: int| 0 <= k < i ==> (#[trigger] self@.players[k]).id != player_id,
            decreases n - i,
        {
            if self.players[i].id == player_id {
                proof {
                    assert(old(self)@.players[i as int].id == player_id);
                }
                self.players[i] = LobbyMember { id: player_id, username };
                proof {
                    assert(self@.players =~= old(self)@.players.update(
                        i as int,
                        MemberV { id: player_id, username: username@ },
                    ));
                }
                self.last_activity = now;
                proof {
                    assert(self@ =~= LobbyV {
                        players: old(self)@.players.update(
                            i as int,
                            MemberV { id: player_id, username: username@ },
                        ),
                        last_activity: now,
                        ..old(self)@
                    });
                    assert(self@.players[i as int].id == player_id);
                }
                return ;
            }
            i = i + 1;
        }
        self.players.push(LobbyMember { id: player_id, username });
        proof {
            assert(self@.players =~= old(self)@.players.push(
                MemberV { id: player_id, username: username@ },
            ));
        }
        self.last_activity = now;
        proof {
            assert(self@ =~= LobbyV {
                players: old(self)@.players.push(MemberV { id: player_id, username: username@ }),
                last_activity: now,
                ..old(self)@
            });
            assert(self@.players.last().id == player_id);
        }
    }

    /// Removes the member with the given id, if present; `last_activity`
    /// is bumped to `now` either way.
    pub fn remove_player(&mut self, player_id: u32, now: i64)
        ensures
            !old(self)@.has_member(player_id) ==> final(self)@ == (LobbyV {
                last_activity: now,
                ..old(self)@
            }),
            old(self)@.has_member(player_id) ==> exists|i: int|
                0 <= i < old(self)@.players.len() && old(self)@.players[i].id == player_id
                    && final(self)@ == (LobbyV {
                    players: old(self)@.players.remove(i),
                    last_activity: now,
                    ..old(self)@
                }),
            old(self)@.wf() ==> final(self)@.wf(),
    {
        let n = self.players.len();
        let mut i: usize = 0;
        while i < n
            invariant
                *self == *old(self),
                n == self.players@.len(),
                i <= n,
                forall|k: int| 0 <= k < i ==> (#[trigger] self@.players[k]).id != player_id,
            decreases n - i,
        {
            if self.players[i].id == player_id {
                proof {
                    assert(old(self)@.players[i as int].id == player_id);
                }
                self.players.remove(i);
                proof {
                    assert(self@.players =~= old(self)@.players.remove(i as int));
                }
                self.last_activity = now;
                proof {
                    assert(self@ =~= LobbyV {
                        players: old(self)@.players.remove(i as int),
                        last_activity: now,
                        ..old(self)@
                    });
                    assert(old(self)@.wf() ==> self@.wf());
                }
                return ;
            }
            i = i + 1;
        }
        self.last_activity = now;
        proof {
            assert(self@ =~= LobbyV { last_activity: now, ..old(self)@ });
        }
    }

    /// The number of live members.
    pub fn player_count(&self) -> (n: usize)
        ensures
            n == self@.players.len(),
    {
        self.players.len()
    }
}

/// The savefile blob selected by [`Lobby::update_save_flags`].
#[derive(Debug, Clone, Copy, PartialEq, Eq, Structural)]
pub enum SaveFlagKind {
    Cheat,
    Game,
    Honeycomb,
    Jiggy,
    Token,
    NoteTotals,
}

impl SaveFlagsV {
    /// The savefile state after merging `data` into the blob named by
    /// `kind`: bitwise OR for flag blobs, per-byte max for note totals.
    pub open spec fn merged_with(self, kind: SaveFlagKind, data: Seq<u8>) -> SaveFlagsV {
        match kind {
            SaveFlagKind::Cheat => SaveFlagsV {
                cheat_flags: or_merge(self.cheat_flags, data),
                ..self
            },
            SaveFlagKind::Game => SaveFlagsV { game_flags: or_merge(self.game_flags, data), ..self },
            SaveFlagKind::Honeycomb => SaveFlagsV {
                honeycomb_flags: or_merge(self.honeycomb_flags, data),
                ..self
            },
            SaveFlagKind::Jiggy => SaveFlagsV {
                jiggy_flags: or_merge(self.jiggy_flags, data),
                ..self
            },
            SaveFlagKind::Token => SaveFlagsV {
                token_flags: or_merge(self.token_flags, data),
                ..self
            },
            SaveFlagKind::NoteTotals => SaveFlagsV {
                note_totals: max_merge(self.note_totals, data),
                ..self
            },
        }
    }
}

impl Lobby {
    /// ORs `src` into `dest`, byte by byte up to the shorter length;
    /// reports whether any byte changed.
    pub fn merge_flags(dest: &mut Vec<u8>, src: &[u8]) -> (changed: bool)
        ensures
            final(dest)@ == or_merge(old(dest)@, src@),
            changed == (final(dest)@ != old(dest)@),
    {
        let mut changed = false;
        let len: usize = if dest.len() < src.len() {
            dest.len()
        } else {
            src.len()
        };
        let mut i: usize = 0;
        while i < len
            invariant
                len <= dest@.len(),
                len <= src@.len(),
                len == dest@.len() || len == src@.len(),
                dest@.len() == old(dest)@.len(),
                i <= len,
                forall|j: int| 0 <= j < i ==> dest@[j] == or_merge(old(dest)@, src@)[j],
                forall|j: int| i <= j < dest@.len() ==> dest@[j] == old(dest)@[j],
                changed == exists|j: int|
                    0 <= j < i && #[trigger] or_merge(old(dest)@, src@)[j] != old(dest)@[j],
            decreases len - i,
        {
            let old_b = dest[i];
            let new_b = old_b | src[i];
            dest[i] = new_b;
            if new_b != old_b {
                changed = true;
                proof {
                    assert(or_merge(old(dest)@, src@)[i as int] != old(dest)@[i as int]);
                }
            }
            i = i + 1;
        }
        proof {
            assert(dest@ =~= or_merge(old(dest)@, src@));
            if changed {
                let j = choose|j: int|
                    0 <= j < i && #[trigger] or_merge(old(dest)@, src@)[j] != old(dest)@[j];
                assert(dest@[j] != old(dest)@[j]);
            } else {
                assert(dest@ =~= old(dest)@);
            }
        }
        changed
    }

    /// Raises each byte of `dest` to the max of itself and `src`, byte by
    /// byte up to the shorter length; reports whether any byte changed.
    fn merge_note_totals(dest: &mut Vec<u8>, src: &[u8]) -> (changed: bool)
        ensures
            final(dest)@ == max_merge(old(dest)@, src@),
            changed == (final(dest)@ != old(dest)@),
    {
        let mut changed = false;
        let len: usize = if dest.len() < src.len() {
            dest.len()
        } else {
            src.len()
        };
        let mut i: usize = 0;
        while i < len
            invariant
                len <= dest@.len(),
                len <= src@.len(),
                len == dest@.len() || len == src@.len(),
                dest@.len() == old(dest)@.len(),
                i <= len,
                forall|j: int| 0 <= j < i ==> dest@[j] == max_merge(old(dest)@, src@)[j],
                forall|j: int| i <= j < dest@.len() ==> dest@[j] == old(dest)@[j],
                changed == exists|j: int|
                    0 <= j < i && #[trigger] max_merge(old(dest)@, src@)[j] != old(dest)@[j],
            decreases len - i,
        {
            let old_b = dest[i];
            let new_b = if src[i] > old_b {
                src[i]
            } else {
                old_b
            };
            dest[i] = new_b;
            if new_b != old_b {
                changed = true;
                proof {
                    assert(max_merge(old(dest)@, src@)[i as int] != old(dest)@[i as int]);
                }
            }
            i = i + 1;
        }
        proof {
            assert(dest@ =~= max_merge(old(dest)@, src@));
            if changed {
                let j = choose|j: int|
                    0 <= j < i && #[trigger] max_merge(old(dest)@, src@)[j] != old(dest)@[j];
                assert(dest@[j] != old(dest)@[j]);
            } else {
                assert(dest@ =~= old(dest)@);
            }
        }
        changed
    }

    /// Merges `data` into the blob named by `flag_type` and bumps
    /// `last_activity` exactly when a byte changed.
    pub fn update_save_flags(&mut self, flag_type: SaveFlagKind, data: &[u8], now: i64) -> (changed:
        bool)
        ensures
            final(self)@.save_flags == old(self)@.save_flags.merged_with(flag_type, data@),
            changed == (final(self)@.save_flags != old(self)@.save_flags),
            changed ==> final(self)@ == (LobbyV {
                save_flags: final(self)@.save_flags,
                last_activity: now,
                ..old(self)@
            }),
            !changed ==> final(self)@ == old(self)@,
            old(self)@.wf() ==> final(self)@.wf(),
    {
        let changed = match flag_type {
            SaveFlagKind::Cheat => Self::merge_flags(&mut self.save_flags.cheat_flags, data),
            SaveFlagKind::Game => Self::merge_flags(&mut self.save_flags.game_flags, data),
            SaveFlagKind::Honeycomb => Self::merge_flags(
                &mut self.save_flags.honeycomb_flags,
                data,
            ),
            SaveFlagKind::Jiggy => Self::merge_flags(&mut self.save_flags.jiggy_flags, data),
            SaveFlagKind::Token => Self::merge_flags(&mut self.save_flags.token_flags, data),
            SaveFlagKind::NoteTotals => Self::merge_note_totals(
                &mut self.save_flags.note_totals,
                data,
            ),
        };
        proof {
            assert(self@.save_flags =~= old(self)@.save_flags.merged_with(flag_type, data@));
            if changed {
                assert(self@.save_flags != old(self)@.save_flags);
            } else {
                assert(self@.save_flags =~= old(self)@.save_flags);
                assert(self@ =~= old(self)@);
            }
        }
        if changed {
            self.last_activity = now;
            proof {
                assert(self@ =~= LobbyV {
                    save_flags: self@.save_flags,
                    last_activity: now,
                    ..old(self)@
                });
            }
        }
        changed
    }

    /// ORs exactly 32 bytes into note slot `level_index`, accepting only
    /// indexes 0 through 8 and bodies of exactly 32 bytes; bumps
    /// `last_activity` exactly when a byte changed.
    pub fn update_note_save_data(&mut self, level_index: usize, data: &[u8], now: i64) -> (changed:
        bool)
        requires
            old(self)@.save_flags.wf(),
        ensures
            (level_index >= 9 || data@.len() != 32) ==> !changed && final(self)@ == old(self)@,
            (level_index < 9 && data@.len() == 32) ==> {
                &&& final(self)@.save_flags == (SaveFlagsV {
                    note_save_data: old(self)@.save_flags.note_save_data.update(
                        level_index as int,
                        or_merge(old(self)@.save_flags.note_save_data[level_index as int], data@),
                    ),
                    ..old(self)@.save_flags
                })
                &&& changed == (final(self)@.save_flags != old(self)@.save_flags)
                &&& changed ==> final(self)@ == (LobbyV {
                    save_flags: final(self)@.save_flags,
                    last_activity: now,
                    ..old(self)@
                })
                &&& !changed ==> final(self)@ == old(self)@
            },
            old(self)@.wf() ==> final(self)@.wf(),
    {
        if level_index >= 9 || data.len() != 32 {
            return false;
        }
        let mut slot: Vec<u8> = self.save_flags.note_save_data[level_index].clone();
        proof {
            assert(slot@ =~= old(self)@.save_flags.note_save_data[level_index as int]);
        }
        let changed = Self::merge_flags(&mut slot, data);
        self.save_flags.note_save_data[level_index] = slot;
        proof {
            assert(self@.save_flags.note_save_data =~= old(
                self,
            )@.save_flags.note_save_data.update(
                level_index as int,
                or_merge(old(self)@.save_flags.note_save_data[level_index as int], data@),
            ));
            assert(self@.save_flags =~= SaveFlagsV {
                note_save_data: self@.save_flags.note_save_data,
                ..old(self)@.save_flags
            });
            if changed {
                assert(self@.save_flags.note_save_data[level_index as int] != old(
                    self,
                )@.save_flags.note_save_data[level_index as int]);
                assert(self@.save_flags != old(self)@.save_flags);
            } else {
                assert(self@.save_flags.note_save_data =~= old(self)@.save_flags.note_save_data);
                assert(self@.save_flags =~= old(self)@.save_flags);
                assert(self@ =~= old(self)@);
            }
        }
        if changed {
            self.last_activity = now;
            proof {
                assert(self@ =~= LobbyV {
                    save_flags: self@.save_flags,
                    last_activity: now,
                    ..old(self)@
                });
            }
        }
        changed
    }

    /// ORs `data` into the file-progress blob; bumps `last_activity`
    /// exactly when a bit changed.
    pub fn update_file_progress_flags(&mut self, data: &[u8], now: i64) -> (changed: bool)
        ensures
            final(self)@.save_flags == (SaveFlagsV {
                file_progress_flags: or_merge(old(self)@.save_flags.file_progress_flags, data@),
                ..old(self)@.save_flags
            }),
            changed == (final(self)@.save_flags != old(self)@.save_flags),
            changed ==> final(self)@ == (LobbyV {
                save_flags: final(self)@.save_flags,
                last_activity: now,
                ..old(self)@
            }),
            !changed ==> final(self)@ == old(self)@,
            old(self)@.wf() ==> final(self)@.wf(),
    {
        let changed = Self::merge_flags(&mut self.save_flags.file_progress_flags, data);
        proof {
            assert(self@.save_flags =~= SaveFlagsV {
                file_progress_flags: or_merge(old(self)@.save_flags.file_progress_flags, data@),
                ..old(self)@.save_flags
            });
            if !changed {
                assert(self@.save_flags =~= old(self)@.save_flags);
                assert(self@ =~= old(self)@);
            } else {
                assert(self@.save_flags != old(self)@.save_flags);
            }
        }
        if changed {
            self.last_activity = now;
            proof {
                assert(self@ =~= LobbyV {
                    save_flags: self@.save_flags,
                    last_activity: now,
                    ..old(self)@
                });
            }
        }
        changed
    }

    /// ORs `data` into the ability-progress blob; bumps `last_activity`
    /// exactly when a bit changed.
    pub fn update_ability_progress(&mut self, data: &[u8], now: i64) -> (changed: bool)
        ensures
            final(self)@.save_flags == (SaveFlagsV {
                ability_progress: or_merge(old(self)@.save_flags.ability_progress, data@),
                ..old(self)@.save_flags
            }),
            changed == (final(self)@.save_flags != old(self)@.save_flags),
            changed ==> final(self)@ == (LobbyV {
                save_flags: final(self)@.save_flags,
                last_activity: now,
                ..old(self)@
            }),
            !changed ==> final(self)@ == old(self)@,
            old(self)@.wf() ==> final(self)@.wf(),
    {
        let changed = Self::merge_flags(&mut self.save_flags.ability_progress, data);
        proof {
            assert(self@.save_flags =~= SaveFlagsV {
                ability_progress: or_merge(old(self)@.save_flags.ability_progress, data@),
                ..old(self)@.save_flags
            });
            if !changed {
                assert(self@.save_flags =~= old(self)@.save_flags);
                assert(self@ =~= old(self)@);
            } else {
                assert(self@.save_flags != old(self)@.save_flags);
            }
        }
        if changed {
            self.last_activity = now;
            proof {
                assert(self@ =~= LobbyV {
                    save_flags: self@.save_flags,
                    last_activity: now,
                    ..old(self)@
                });
            }
        }
        changed
    }

    /// ORs `data` into the honeycomb-score blob; bumps `last_activity`
    /// exactly when a bit changed.
    pub fn update_honeycomb_score(&mut self, data: &[u8], now: i64) -> (changed: bool)
        ensures
            final(self)@.save_flags == (SaveFlagsV {
                honeycomb_score: or_merge(old(self)@.save_flags.honeycomb_score, data@),
                ..old(self)@.save_flags
            }),
            changed == (final(self)@.save_flags != old(self)@.save_flags),
            changed ==> final(self)@ == (LobbyV {
                save_flags: final(self)@.save_flags,
                last_activity: now,
                ..old(self)@
            }),
            !changed ==> final(self)@ == old(self)@,
            old(self)@.wf() ==> final(self)@.wf(),
    {
        let changed = Self::merge_flags(&mut self.save_flags.honeycomb_score, data);
        proof {
            assert(self@.save_flags =~= SaveFlagsV {
                honeycomb_score: or_merge(old(self)@.save_flags.honeycomb_score, data@),
                ..old(self)@.save_flags
            });
            if !changed {
                assert(self@.save_flags =~= old(self)@.save_flags);
                assert(self@ =~= old(self)@);
            } else {
                assert(self@.save_flags != old(self)@.save_flags);
            }
        }
        if changed {
            self.last_activity = now;
            proof {
                assert(self@ =~= LobbyV {
                    save_flags: self@.save_flags,
                    last_activity: now,
                    ..old(self)@
                });
            }
        }
        changed
    }

    /// ORs `data` into the Mumbo-score blob; bumps `last_activity`
    /// exactly when a bit changed.
    pub fn update_mumbo_score(&mut self, data: &[u8], now: i64) -> (changed: bool)
        ensures
            final(self)@.save_flags == (SaveFlagsV {
                mumbo_score: or_merge(old(self)@.save_flags.mumbo_score, data@),
                ..old(self)@.save_flags
            }),
            changed == (final(self)@.save_flags != old(self)@.save_flags),
            changed ==> final(self)@ == (LobbyV {
                save_flags: final(self)@.save_flags,
                last_activity: now,
                ..old(self)@
            }),
            !changed ==> final(self)@ == old(self)@,
            old(self)@.wf() ==> final(self)@.wf(),
    {
        let changed = Self::merge_flags(&mut self.save_flags.mumbo_score, data);
        proof {
            assert(self@.save_flags =~= SaveFlagsV {
                mumbo_score: or_merge(old(self)@.save_flags.mumbo_score, data@),
                ..old(self)@.save_flags
            });
            if !changed {
                assert(self@.save_flags =~= old(self)@.save_flags);
                assert(self@ =~= old(self)@);
            } else {
                assert(self@.save_flags != old(self)@.save_flags);
            }
        }
        if changed {
            self.last_activity = now;
            proof {
                assert(self@ =~= LobbyV {
                    save_flags: self@.save_flags,
                    last_activity: now,
                    ..old(self)@
                });
            }
        }
        changed
    }
}

impl Lobby {
    /// Decides the lobby invariant at run time: fixed savefile blob
    /// sizes, and no two records sharing a dedup key. Used to validate
    /// states read back from disk before they enter the store.
    #[verifier::rlimit(100)]
    #[verifier::spinoff_prover]
    pub fn is_well_formed(&self) -> (r: bool)
        ensures
            r == self@.wf(),
    {
        if !(self.save_flags.cheat_flags.len() == 0x19 && self.save_flags.game_flags.len() == 0x20
            && self.save_flags.honeycomb_flags.len() == 0x03 && self.save_flags.jiggy_flags.len()
            == 0x0d && self.save_flags.token_flags.len() == 0x10
            && self.save_flags.note_totals.len() == 0x0f && self.save_flags.puzzles_completed.len()
            == 11 && self.save_flags.file_progress_flags.len() == 0x25
            && self.save_flags.ability_progress.len() == 8 && self.save_flags.honeycomb_score.len()
            == 0x03 && self.save_flags.mumbo_score.len() == 0x10
            && self.save_flags.note_save_data.len() == 9) {
            proof {
                assert(!self@.save_flags.wf());
                assert(!self@.wf());
            }
            return false;
        }
        let mut k: usize = 0;
        while k < 9
            invariant
                self@.save_flags.note_save_data.len() == 9,
                k <= 9,
                forall|i: int| 0 <= i < k ==> self@.save_flags.note_save_data[i].len() == 32,
            decreases 9 - k,
        {
            if self.save_flags.note_save_data[k].len() != 32 {
                proof {
                    assert(self@.save_flags.note_save_data[k as int].len() != 32);
                    assert(!self@.save_flags.wf());
                    assert(!self@.wf());
                }
                return false;
            }
            k = k + 1;
        }
        let n1 = self.collected_jiggies.len();
        let mut b: usize = 0;
        while b < n1
            invariant
                n1 == self@.collected_jiggies.len(),
                b <= n1,
                forall|i: int, j: int|
                    0 <= i < j < b ==> !jiggy_key_matches(
                        #[trigger] self@.collected_jiggies[i],
                        (#[trigger] self@.collected_jiggies[j]).level_id,
                        self@.collected_jiggies[j].jiggy_id,
                    ),
            decreases n1 - b,
        {
            let mut a: usize = 0;
            while a < b
                invariant
                    n1 == self@.collected_jiggies.len(),
                    a <= b < n1,
                    forall|i: int|
                        0 <= i < a ==> !jiggy_key_matches(
                            #[trigger] self@.collected_jiggies[i],
                            self@.collected_jiggies[b as int].level_id,
                            self@.collected_jiggies[b as int].jiggy_id,
                        ),
                decreases b - a,
            {
                if self.collected_jiggies[a].level_id == self.collected_jiggies[b].level_id
                    && self.collected_jiggies[a].jiggy_id == self.collected_jiggies[b].jiggy_id {
                    proof {
                        assert(jiggy_key_matches(
                            self@.collected_jiggies[a as int],
                            self@.collected_jiggies[b as int].level_id,
                            self@.collected_jiggies[b as int].jiggy_id,
                        ));
                    }
                    return false;
                }
                a = a + 1;
            }
            b = b + 1;
        }
        let n2 = self.collected_honeycombs.len();
        let mut b: usize = 0;
        while b < n2
            invariant
                n2 == self@.collected_honeycombs.len(),
                b <= n2,
                forall|i: int, j: int|
                    0 <= i < j < b ==> !honeycomb_key_matches(
                        #[trigger] self@.collected_honeycombs[i],
                        (#[trigger] self@.collected_honeycombs[j]).map_id,
                        self@.collected_honeycombs[j].honeycomb_id,
                    ),
            decreases n2 - b,
        {
            let mut a: usize = 0;
            while a < b
                invariant
                    n2 == self@.collected_honeycombs.len(),
                    a <= b < n2,
                    forall|i: int|
                        0 <= i < a ==> !honeycomb_key_matches(
                            #[trigger] self@.collected_honeycombs[i],
                            self@.collected_honeycombs[b as int].map_id,
                            self@.collected_honeycombs[b as int].honeycomb_id,
                        ),
                decreases b - a,
            {
                if self.collected_honeycombs[a].map_id == self.collected_honeycombs[b].map_id
                    && self.collected_honeycombs[a].honeycomb_id
                    == self.collected_honeycombs[b].honeycomb_id {
                    proof {
                        assert(honeycomb_key_matches(
                            self@.collected_honeycombs[a as int],
                            self@.collected_honeycombs[b as int].map_id,
                            self@.collected_honeycombs[b as int].honeycomb_id,
                        ));
                    }
                    return false;
                }
                a = a + 1;
            }
            b = b + 1;
        }
        let n3 = self.collected_mumbo_tokens.len();
        let mut b: usize = 0;
        while b < n3
            invariant
                n3 == self@.collected_mumbo_tokens.len(),
                b <= n3,
                forall|i: int, j: int|
                    0 <= i < j < b ==> !token_key_matches(
                        #[trigger] self@.collected_mumbo_tokens[i],
                        (#[trigger] self@.collected_mumbo_tokens[j]).map_id,
                        self@.collected_mumbo_tokens[j].token_id,
                    ),
            decreases n3 - b,
        {
            let mut a: usize = 0;
            while a < b
                invariant
                    n3 == self@.collected_mumbo_tokens.len(),
                    a <= b < n3,
                    forall|i: int|
                        0 <= i < a ==> !token_key_matches(
                            #[trigger] self@.collected_mumbo_tokens[i],
                            self@.collected_mumbo_tokens[b as int].map_id,
                            self@.collected_mumbo_tokens[b as int].token_id,
                        ),
                decreases b - a,
            {
                if self.collected_mumbo_tokens[a].map_id == self.collected_mumbo_tokens[b].map_id
                    && self.collected_mumbo_tokens[a].token_id
                    == self.collected_mumbo_tokens[b].token_id {
                    proof {
                        assert(token_key_matches(
                            self@.collected_mumbo_tokens[a as int],
                            self@.collected_mumbo_tokens[b as int].map_id,
                            self@.collected_mumbo_tokens[b as int].token_id,
                        ));
                    }
                    return false;
                }
                a = a + 1;
            }
            b = b + 1;
        }
        let n4 = self.collected_notes.len();
        let mut b: usize = 0;
        while b < n4
            invariant
                n4 == self@.collected_notes.len(),
                b <= n4,
                forall|i: int, j: int|
                    0 <= i < j < b ==> !note_matches(
                        #[trigger] self@.collected_notes[i],
                        (#[trigger] self@.collected_notes[j]).map_id,
                        self@.collected_notes[j].x,
                        self@.collected_notes[j].y,
                        self@.collected_notes[j].z,
                    ),
            decreases n4 - b,
        {
            let mut a: usize = 0;
            while a < b
                invariant
                    n4 == self@.collected_notes.len(),
                    a <= b < n4,
                    forall|i: int|
                        0 <= i < a ==> !note_matches(
                            #[trigger] self@.collected_notes[i],
                            self@.collected_notes[b as int].map_id,
                            self@.collected_notes[b as int].x,
                            self@.collected_notes[b as int].y,
                            self@.collected_notes[b as int].z,
                        ),
                decreases b - a,
            {
                let pa = &self.collected_notes[a];
                let pb = &self.collected_notes[b];
                let dx: i32 = pa.x as i32 - pb.x as i32;
                let dy: i32 = pa.y as i32 - pb.y as i32;
                let dz: i32 = pa.z as i32 - pb.z as i32;
                let tol: i32 = POS_TOLERANCE as i32;
                if pa.map_id == pb.map_id && -tol <= dx && dx <= tol && -tol <= dy && dy <= tol
                    && -tol <= dz && dz <= tol {
                    proof {
                        assert(note_matches(
                            self@.collected_notes[a as int],
                            self@.collected_notes[b as int].map_id,
                            self@.collected_notes[b as int].x,
                            self@.collected_notes[b as int].y,
                            self@.collected_notes[b as int].z,
                        ));
                    }
                    return false;
                }
                a = a + 1;
            }
            b = b + 1;
        }
        let n5 = self.opened_levels.len();
        let mut b: usize = 0;
        while b < n5
            invariant
                n5 == self@.opened_levels.len(),
                b <= n5,
                forall|i: int, j: int|
                    0 <= i < j < b ==> (#[trigger] self@.opened_levels[i]).world_id != (
                    #[trigger] self@.opened_levels[j]).world_id,
            decreases n5 - b,
        {
            let mut a: usize = 0;
            while a < b
                invariant
                    n5 == self@.opened_levels.len(),
                    a <= b < n5,
                    forall|i: int|
                        0 <= i < a ==> (#[trigger] self@.opened_levels[i]).world_id
                            != self@.opened_levels[b as int].world_id,
                decreases b - a,
            {
                if self.opened_levels[a].world_id == self.opened_levels[b].world_id {
                    proof {
                        assert(self@.opened_levels[a as int].world_id
                            == self@.opened_levels[b as int].world_id);
                    }
                    return false;
                }
                a = a + 1;
            }
            b = b + 1;
        }
        let n6 = self.players.len();
        let mut b: usize = 0;
        while b < n6
            invariant
                n6 == self@.players.len(),
                b <= n6,
                forall|i: int, j: int|
                    0 <= i < j < b ==> (#[trigger] self@.players[i]).id != (
                    #[trigger] self@.players[j]).id,
            decreases n6 - b,
        {
            let mut a: usize = 0;
            while a < b
                invariant
                    n6 == self@.players.len(),
                    a <= b < n6,
                    forall|i: int|
                        0 <= i < a ==> (#[trigger] self@.players[i]).id
                            != self@.players[b as int].id,
                decreases b - a,
            {
                if self.players[a].id == self.players[b].id {
                    proof {
                        assert(self@.players[a as int].id == self@.players[b as int].id);
                    }
                    return false;
                }
                a = a + 1;
            }
            b = b + 1;
        }
        true
    }
}

/// Whether some record in the list carries the given jiggy dedup key —
/// the test [`Lobby::add_collected_jiggy`] applies before appending.
pub open spec fn jiggy_in(s: Seq<JiggyV>, level_id: i32, jiggy_id: i32) -> bool {
    exists|i: int| 0 <= i < s.len() && jiggy_key_matches(#[trigger] s[i], level_id, jiggy_id)
}

/// The jiggy list after one inbound record under the dedup rule, exactly
/// as [`Lobby::add_collected_jiggy`] changes `collected_jiggies`.
pub open spec fn jiggy_step(s: Seq<JiggyV>, j: JiggyV) -> Seq<JiggyV> {
    if jiggy_in(s, j.level_id, j.jiggy_id) {
        s
    } else {
        s.push(j)
    }
}

/// The jiggy list after a whole sequence of inbound records, in order.
pub open spec fn jiggy_fold(s: Seq<JiggyV>, inputs: Seq<JiggyV>) -> Seq<JiggyV>
    decreases inputs.len(),
{
    if inputs.len() == 0 {
        s
    } else {
        jiggy_step(jiggy_fold(s, inputs.drop_last()), inputs.last())
    }
}

/// The dedup keys of a jiggy list, in order.
pub open spec fn jiggy_keys(s: Seq<JiggyV>) -> Seq<(i32, i32)> {
    Seq::new(s.len(), |i: int| ((s[i].level_id, s[i].jiggy_id)))
}

/// The distinct keys of an input list, each at its first arrival, in
/// arrival order.
pub open spec fn distinct_first_arrival(keys: Seq<(i32, i32)>) -> Seq<(i32, i32)>
    decreases keys.len(),
{
    if keys.len() == 0 {
        Seq::empty()
    } else {
        let prefix = distinct_first_arrival(keys.drop_last());
        if prefix.contains(keys.last()) {
            prefix
        } else {
            prefix.push(keys.last())
        }
    }
}

/// A list holds a jiggy key exactly when its key list contains the pair.
proof fn lemma_jiggy_in_keys(s: Seq<JiggyV>, level_id: i32, jiggy_id: i32)
    ensures
        jiggy_in(s, level_id, jiggy_id) <==> jiggy_keys(s).contains((level_id, jiggy_id)),
{
    if jiggy_in(s, level_id, jiggy_id) {
        let i = choose|i: int|
            0 <= i < s.len() && jiggy_key_matches(#[trigger] s[i], level_id, jiggy_id);
        assert(jiggy_keys(s)[i] == (level_id, jiggy_id));
    }
    if jiggy_keys(s).contains((level_id, jiggy_id)) {
        let i = choose|i: int|
            0 <= i < jiggy_keys(s).len() && #[trigger] jiggy_keys(s)[i] == (level_id, jiggy_id);
        assert(jiggy_key_matches(s[i], level_id, jiggy_id));
    }
}

/// Dedup idempotence: for any sequence of inbound jiggy records, the
/// final list of collected jiggies carries exactly the distinct
/// `(level_id, jiggy_id)` pairs of the inputs, in first-arrival order.
pub proof fn lemma_jiggy_dedup_idempotent(inputs: Seq<JiggyV>)
    ensures
        jiggy_keys(jiggy_fold(Seq::empty(), inputs)) == distinct_first_arrival(
            jiggy_keys(inputs),
        ),
    decreases inputs.len(),
{
    if inputs.len() == 0 {
        assert(jiggy_keys(jiggy_fold(Seq::empty(), inputs)) =~= distinct_first_arrival(
            jiggy_keys(inputs),
        ));
    } else {
        lemma_jiggy_dedup_idempotent(inputs.drop_last());
        let acc = jiggy_fold(Seq::empty(), inputs.drop_last());
        let j = inputs.last();
        let k = (j.level_id, j.jiggy_id);
        assert(jiggy_keys(inputs).drop_last() =~= jiggy_keys(inputs.drop_last()));
        assert(jiggy_keys(inputs).last() == k);
        lemma_jiggy_in_keys(acc, j.level_id, j.jiggy_id);
        if jiggy_in(acc, j.level_id, j.jiggy_id) {
            assert(jiggy_keys(acc).contains(k));
            assert(distinct_first_arrival(jiggy_keys(inputs)) == jiggy_keys(acc));
        } else {
            assert(!jiggy_keys(acc).contains(k));
            assert(jiggy_keys(acc.push(j)) =~= jiggy_keys(acc).push(k));
            assert(distinct_first_arrival(jiggy_keys(inputs)) == jiggy_keys(acc).push(k));
        }
    }
}

/// Proximity dedup, both directions, for a lobby holding one note: a new
/// position on the same map dedups exactly when every axis lies within
/// the tolerance; one axis beyond it (or another map) escapes the rule.
pub proof fn lemma_note_proximity(l: LobbyV, map_id: i32, x: i16, y: i16, z: i16)
    requires
        l.collected_notes.len() == 1,
    ensures
        l.note_collected(map_id, x, y, z) <==> ({
            let n = l.collected_notes[0];
            n.map_id == map_id && -(POS_TOLERANCE as int) <= n.x - x <= POS_TOLERANCE as int && -(
            POS_TOLERANCE as int) <= n.y - y <= POS_TOLERANCE as int && -(POS_TOLERANCE as int)
                <= n.z - z <= POS_TOLERANCE as int
        }),
{
    let n = l.collected_notes[0];
    if note_matches(n, map_id, x, y, z) {
        assert(l.note_collected(map_id, x, y, z));
    }
    if l.note_collected(map_id, x, y, z) {
        let i = choose|i: int|
            0 <= i < l.collected_notes.len() && note_matches(
                #[trigger] l.collected_notes[i],
                map_id,
                x,
                y,
                z,
            );
        assert(i == 0);
    }
}

/// Monotone merge: merging `b` into `a` yields exactly the bytewise OR,
/// and a further merge with any `c` never clears a bit that the first
/// merge set.
pub proof fn lemma_merge_never_clears(a: Seq<u8>, b: Seq<u8>, c: Seq<u8>)
    ensures
        forall|i: int|
            0 <= i < a.len() ==> (#[trigger] or_merge(a, b)[i] | a[i]) == or_merge(a, b)[i],
        forall|i: int|
            0 <= i < a.len() ==> (#[trigger] or_merge(or_merge(a, b), c)[i] | or_merge(a, b)[i])
                == or_merge(or_merge(a, b), c)[i],
{
    lemma_or_merge_monotone(a, b);
    lemma_or_merge_monotone(or_merge(a, b), c);
}


/// Removing the one roster entry carrying an id takes that id off the
/// roster, provided roster ids are pairwise distinct.
pub proof fn lemma_member_removed(pre: LobbyV, post: LobbyV, i: int, id: u32)
    requires
        forall|a: int, b: int|
            0 <= a < b < pre.players.len() ==> (#[trigger] pre.players[a]).id != (
            #[trigger] pre.players[b]).id,
        0 <= i < pre.players.len(),
        pre.players[i].id == id,
        post.players == pre.players.remove(i),
    ensures
        !post.has_member(id),
{
    assert forall|k: int|
        0 <= k < post.players.len() implies (#[trigger] post.players[k]).id != id by {
        if k < i {
            assert(post.players[k] == pre.players[k]);
            if k < i {
                assert(pre.players[k].id != pre.players[i].id);
            }
        } else {
            assert(post.players[k] == pre.players[k + 1]);
            assert(pre.players[i].id != pre.players[k + 1].id);
        }
    }
}

} // verus!
