//! On-disk lobby snapshots: a fixed binary layout with length-prefixed
//! fields, written when a lobby is persisted and read back on startup.
//! Decoding inverts encoding exactly, modulo the live roster, which is
//! ephemeral and never persisted.

use vstd::prelude::*;
use crate::lobby::HoneycombV;
use crate::lobby::JiggyV;
use crate::lobby::LobbyV;
use crate::lobby::MemberV;
use crate::lobby::MumboTokenV;
use crate::lobby::NoteV;
use crate::lobby::OpenedLevelV;
use crate::lobby::SaveFlagsV;
use crate::wire::i16_from_le_bytes;
use crate::wire::i16_to_le_bytes;
use crate::wire::i32_from_be_bytes;
use crate::wire::i32_to_be_bytes;
use crate::wire::i64_from_be_bytes;
use crate::wire::i64_to_be_bytes;
use crate::wire::u32_from_be_bytes;
use crate::wire::u32_to_be_bytes;

verus! {

broadcast use vstd::slice::axiom_spec_len;

/// A length-prefixed byte field: four big-endian length bytes, then the
/// bytes.
pub open spec fn enc_bytes(b: Seq<u8>) -> Seq<u8>
    recommends
        b.len() <= u32::MAX,
{
    u32_to_be_bytes(b.len() as u32) + b
}

/// A length-prefixed UTF-8 string field.
pub open spec fn enc_string(s: Seq<char>) -> Seq<u8>
    recommends
        vstd::utf8::encode_utf8(s).len() <= u32::MAX,
{
    enc_bytes(vstd::utf8::encode_utf8(s))
}

/// A boolean as one byte: 1 for true, 0 for false.
pub open spec fn enc_bool(b: bool) -> Seq<u8> {
    seq![
        if b {
            1u8
        } else {
            0u8
        },
    ]
}

/// Parses four big-endian bytes into a u32, yielding the remainder.
pub open spec fn sp_u32(b: Seq<u8>) -> Option<(u32, Seq<u8>)> {
    if b.len() < 4 {
        None
    } else {
        Some((u32_from_be_bytes(b.take(4)), b.skip(4)))
    }
}

/// Parses four big-endian bytes into an i32, yielding the remainder.
pub open spec fn sp_i32(b: Seq<u8>) -> Option<(i32, Seq<u8>)> {
    if b.len() < 4 {
        None
    } else {
        Some((i32_from_be_bytes(b.take(4)), b.skip(4)))
    }
}

/// Parses eight big-endian bytes into an i64, yielding the remainder.
pub open spec fn sp_i64(b: Seq<u8>) -> Option<(i64, Seq<u8>)> {
    if b.len() < 8 {
        None
    } else {
        Some((i64_from_be_bytes(b.take(8)), b.skip(8)))
    }
}

/// Parses two little-endian bytes into an i16, yielding the remainder.
pub open spec fn sp_i16(b: Seq<u8>) -> Option<(i16, Seq<u8>)> {
    if b.len() < 2 {
        None
    } else {
        Some((i16_from_le_bytes(b.take(2)), b.skip(2)))
    }
}

/// Parses one byte into a boolean (nonzero is true), yielding the
/// remainder.
pub open spec fn sp_bool(b: Seq<u8>) -> Option<(bool, Seq<u8>)> {
    if b.len() < 1 {
        None
    } else {
        Some((b[0] != 0, b.skip(1)))
    }
}

/// Parses a length-prefixed byte field, yielding the remainder.
pub open spec fn sp_bytes(b: Seq<u8>) -> Option<(Seq<u8>, Seq<u8>)> {
    match sp_u32(b) {
        None => None,
        Some(p) => {
            let n = p.0 as int;
            if p.1.len() < n {
                None
            } else {
                Some((p.1.take(n), p.1.skip(n)))
            }
        },
    }
}

/// Parses a length-prefixed UTF-8 string field, yielding the remainder;
/// fails on invalid UTF-8.
pub open spec fn sp_string(b: Seq<u8>) -> Option<(Seq<char>, Seq<u8>)> {
    match sp_bytes(b) {
        None => None,
        Some(p) => if vstd::utf8::valid_utf8(p.0) {
            Some((vstd::utf8::decode_utf8(p.0), p.1))
        } else {
            None
        },
    }
}

/// Parsing inverts encoding for u32 fields.
pub proof fn lemma_rt_u32(v: u32, rest: Seq<u8>)
    ensures
        sp_u32(u32_to_be_bytes(v) + rest) == Some((v, rest)),
{
    let b = u32_to_be_bytes(v) + rest;
    assert(b.take(4) =~= u32_to_be_bytes(v));
    assert(b.skip(4) =~= rest);
    crate::wire::lemma_u32_be_round_trip(v);
}

/// Parsing inverts encoding for i32 fields.
pub proof fn lemma_rt_i32(v: i32, rest: Seq<u8>)
    ensures
        sp_i32(i32_to_be_bytes(v) + rest) == Some((v, rest)),
{
    let b = i32_to_be_bytes(v) + rest;
    assert(b.take(4) =~= i32_to_be_bytes(v));
    assert(b.skip(4) =~= rest);
    crate::wire::lemma_i32_be_round_trip(v);
}

/// Parsing inverts encoding for i64 fields.
pub proof fn lemma_rt_i64(v: i64, rest: Seq<u8>)
    ensures
        sp_i64(i64_to_be_bytes(v) + rest) == Some((v, rest)),
{
    let b = i64_to_be_bytes(v) + rest;
    assert(b.take(8) =~= i64_to_be_bytes(v));
    assert(b.skip(8) =~= rest);
    crate::wire::lemma_i64_be_round_trip(v);
}

/// Parsing inverts encoding for i16 fields.
pub proof fn lemma_rt_i16(v: i16, rest: Seq<u8>)
    ensures
        sp_i16(i16_to_le_bytes(v) + rest) == Some((v, rest)),
{
    let b = i16_to_le_bytes(v) + rest;
    assert(b.take(2) =~= i16_to_le_bytes(v));
    assert(b.skip(2) =~= rest);
    crate::wire::lemma_i16_le_round_trip(v);
}

/// Parsing inverts encoding for boolean fields.
pub proof fn lemma_rt_bool(v: bool, rest: Seq<u8>)
    ensures
        sp_bool(enc_bool(v) + rest) == Some((v, rest)),
{
    let b = enc_bool(v) + rest;
    assert(b.skip(1) =~= rest);
}

/// Parsing inverts encoding for byte fields.
pub proof fn lemma_rt_bytes(v: Seq<u8>, rest: Seq<u8>)
    requires
        v.len() <= u32::MAX,
    ensures
        sp_bytes(enc_bytes(v) + rest) == Some((v, rest)),
{
    let b = enc_bytes(v) + rest;
    assert(b =~= u32_to_be_bytes(v.len() as u32) + (v + rest));
    lemma_rt_u32(v.len() as u32, v + rest);
    assert((v + rest).take(v.len() as int) =~= v);
    assert((v + rest).skip(v.len() as int) =~= rest);
}

/// Parsing inverts encoding for string fields.
pub proof fn lemma_rt_string(s: Seq<char>, rest: Seq<u8>)
    requires
        vstd::utf8::encode_utf8(s).len() <= u32::MAX,
    ensures
        sp_string(enc_string(s) + rest) == Some((s, rest)),
{
    lemma_rt_bytes(vstd::utf8::encode_utf8(s), rest);
    vstd::utf8::encode_utf8_valid_utf8(s);
    vstd::utf8::encode_utf8_decode_utf8(s);
}

/// One collected-note record.
pub open spec fn enc_note(n: NoteV) -> Seq<u8> {
    i32_to_be_bytes(n.map_id) + i16_to_le_bytes(n.x) + i16_to_le_bytes(n.y) + i16_to_le_bytes(n.z)
        + enc_string(n.collected_by) + i64_to_be_bytes(n.timestamp)
}

/// A run of collected-note records, in order.
pub open spec fn enc_notes(s: Seq<NoteV>) -> Seq<u8>
    decreases s.len(),
{
    if s.len() == 0 {
        Seq::empty()
    } else {
        enc_note(s.first()) + enc_notes(s.drop_first())
    }
}

/// One collected-jiggy record.
pub open spec fn enc_jiggy(j: JiggyV) -> Seq<u8> {
    i32_to_be_bytes(j.level_id) + i32_to_be_bytes(j.jiggy_id) + enc_string(j.collected_by)
        + i64_to_be_bytes(j.timestamp)
}

/// A run of collected-jiggy records, in order.
pub open spec fn enc_jiggies(s: Seq<JiggyV>) -> Seq<u8>
    decreases s.len(),
{
    if s.len() == 0 {
        Seq::empty()
    } else {
        enc_jiggy(s.first()) + enc_jiggies(s.drop_first())
    }
}

/// One collected-honeycomb record.
pub open spec fn enc_honeycomb(h: HoneycombV) -> Seq<u8> {
    i32_to_be_bytes(h.map_id) + i32_to_be_bytes(h.honeycomb_id) + i32_to_be_bytes(h.x)
        + i32_to_be_bytes(h.y) + i32_to_be_bytes(h.z) + enc_string(h.collected_by)
        + i64_to_be_bytes(h.timestamp)
}

/// A run of collected-honeycomb records, in order.
pub open spec fn enc_honeycombs(s: Seq<HoneycombV>) -> Seq<u8>
    decreases s.len(),
{
    if s.len() == 0 {
        Seq::empty()
    } else {
        enc_honeycomb(s.first()) + enc_honeycombs(s.drop_first())
    }
}

/// One collected-token record.
pub open spec fn enc_token(t: MumboTokenV) -> Seq<u8> {
    i32_to_be_bytes(t.map_id) + i32_to_be_bytes(t.token_id) + i32_to_be_bytes(t.x)
        + i32_to_be_bytes(t.y) + i32_to_be_bytes(t.z) + enc_string(t.collected_by)
        + i64_to_be_bytes(t.timestamp)
}

/// A run of collected-token records, in order.
pub open spec fn enc_tokens(s: Seq<MumboTokenV>) -> Seq<u8>
    decreases s.len(),
{
    if s.len() == 0 {
        Seq::empty()
    } else {
        enc_token(s.first()) + enc_tokens(s.drop_first())
    }
}

/// One opened-level record.
pub open spec fn enc_level(o: OpenedLevelV) -> Seq<u8> {
    i32_to_be_bytes(o.world_id) + i32_to_be_bytes(o.jiggy_cost) + enc_string(o.opened_by)
        + i64_to_be_bytes(o.timestamp)
}

/// A run of opened-level records, in order.
pub open spec fn enc_levels(s: Seq<OpenedLevelV>) -> Seq<u8>
    decreases s.len(),
{
    if s.len() == 0 {
        Seq::empty()
    } else {
        enc_level(s.first()) + enc_levels(s.drop_first())
    }
}

/// A run of note-save-data slots, each length-prefixed, in order.
pub open spec fn enc_slots(s: Seq<Seq<u8>>) -> Seq<u8>
    decreases s.len(),
{
    if s.len() == 0 {
        Seq::empty()
    } else {
        enc_bytes(s.first()) + enc_slots(s.drop_first())
    }
}

/// The savefile blobs: each byte blob length-prefixed, the two packed
/// u32 fields big-endian, then the note slots behind their count.
pub open spec fn enc_save_flags(sf: SaveFlagsV) -> Seq<u8> {
    enc_bytes(sf.cheat_flags) + enc_bytes(sf.game_flags) + enc_bytes(sf.honeycomb_flags)
        + enc_bytes(sf.jiggy_flags) + enc_bytes(sf.token_flags) + enc_bytes(sf.note_totals)
        + enc_bytes(sf.puzzles_completed) + u32_to_be_bytes(sf.level_events) + enc_bytes(
        sf.file_progress_flags,
    ) + u32_to_be_bytes(sf.moves) + enc_bytes(sf.ability_progress) + enc_bytes(sf.honeycomb_score)
        + enc_bytes(sf.mumbo_score) + u32_to_be_bytes(sf.note_save_data.len() as u32) + enc_slots(
        sf.note_save_data,
    )
}

/// The whole snapshot: identity, clocks and latch, the five progression
/// collections behind their counts, then the savefile blobs. The live
/// roster is not persisted.
pub open spec fn spec_snapshot_bytes(l: LobbyV) -> Seq<u8> {
    enc_string(l.name) + enc_string(l.password) + i64_to_be_bytes(l.created_at) + i64_to_be_bytes(
        l.last_activity,
    ) + enc_bool(l.has_initial_save_data) + u32_to_be_bytes(l.collected_notes.len() as u32)
        + enc_notes(l.collected_notes) + u32_to_be_bytes(l.collected_jiggies.len() as u32)
        + enc_jiggies(l.collected_jiggies) + u32_to_be_bytes(l.opened_levels.len() as u32)
        + enc_levels(l.opened_levels) + u32_to_be_bytes(l.collected_honeycombs.len() as u32)
        + enc_honeycombs(l.collected_honeycombs) + u32_to_be_bytes(
        l.collected_mumbo_tokens.len() as u32,
    ) + enc_tokens(l.collected_mumbo_tokens) + enc_save_flags(l.save_flags)
}

/// The field-size bounds the snapshot layout can carry: every string's
/// UTF-8 form, every blob and every collection count fits a u32 length.
pub open spec fn snapshot_bounded(l: LobbyV) -> bool {
    &&& vstd::utf8::encode_utf8(l.name).len() <= u32::MAX
    &&& vstd::utf8::encode_utf8(l.password).len() <= u32::MAX
    &&& l.collected_notes.len() <= u32::MAX
    &&& l.collected_jiggies.len() <= u32::MAX
    &&& l.opened_levels.len() <= u32::MAX
    &&& l.collected_honeycombs.len() <= u32::MAX
    &&& l.collected_mumbo_tokens.len() <= u32::MAX
    &&& forall|i: int|
        0 <= i < l.collected_notes.len() ==> vstd::utf8::encode_utf8(
            (#[trigger] l.collected_notes[i]).collected_by,
        ).len() <= u32::MAX
    &&& forall|i: int|
        0 <= i < l.collected_jiggies.len() ==> vstd::utf8::encode_utf8(
            (#[trigger] l.collected_jiggies[i]).collected_by,
        ).len() <= u32::MAX
    &&& forall|i: int|
        0 <= i < l.opened_levels.len() ==> vstd::utf8::encode_utf8(
            (#[trigger] l.opened_levels[i]).opened_by,
        ).len() <= u32::MAX
    &&& forall|i: int|
        0 <= i < l.collected_honeycombs.len() ==> vstd::utf8::encode_utf8(
            (#[trigger] l.collected_honeycombs[i]).collected_by,
        ).len() <= u32::MAX
    &&& forall|i: int|
        0 <= i < l.collected_mumbo_tokens.len() ==> vstd::utf8::encode_utf8(
            (#[trigger] l.collected_mumbo_tokens[i]).collected_by,
        ).len() <= u32::MAX
    &&& l.save_flags.cheat_flags.len() <= u32::MAX
    &&& l.save_flags.game_flags.len() <= u32::MAX
    &&& l.save_flags.honeycomb_flags.len() <= u32::MAX
    &&& l.save_flags.jiggy_flags.len() <= u32::MAX
    &&& l.save_flags.token_flags.len() <= u32::MAX
    &&& l.save_flags.note_totals.len() <= u32::MAX
    &&& l.save_flags.puzzles_completed.len() <= u32::MAX
    &&& l.save_flags.file_progress_flags.len() <= u32::MAX
    &&& l.save_flags.ability_progress.len() <= u32::MAX
    &&& l.save_flags.honeycomb_score.len() <= u32::MAX
    &&& l.save_flags.mumbo_score.len() <= u32::MAX
    &&& l.save_flags.note_save_data.len() <= u32::MAX
    &&& forall|i: int|
        0 <= i < l.save_flags.note_save_data.len() ==> (
        #[trigger] l.save_flags.note_save_data[i]).len() <= u32::MAX
}

/// Parses one collected-note record.
pub open spec fn sp_note(b: Seq<u8>) -> Option<(NoteV, Seq<u8>)> {
    match sp_i32(b) {
        None => None,
        Some(p1) => match sp_i16(p1.1) {
            None => None,
            Some(p2) => match sp_i16(p2.1) {
                None => None,
                Some(p3) => match sp_i16(p3.1) {
                    None => None,
                    Some(p4) => match sp_string(p4.1) {
                        None => None,
                        Some(p5) => match sp_i64(p5.1) {
                            None => None,
                            Some(p6) => Some(
                                (
                                    NoteV {
                                        map_id: p1.0,
                                        x: p2.0,
                                        y: p3.0,
                                        z: p4.0,
                                        collected_by: p5.0,
                                        timestamp: p6.0,
                                    },
                                    p6.1,
                                ),
                            ),
                        },
                    },
                },
            },
        },
    }
}

/// Parses `k` collected-note records.
pub open spec fn sp_notes(b: Seq<u8>, k: nat) -> Option<(Seq<NoteV>, Seq<u8>)>
    decreases k,
{
    if k == 0 {
        Some((Seq::empty(), b))
    } else {
        match sp_note(b) {
            None => None,
            Some(p) => match sp_notes(p.1, (k - 1) as nat) {
                None => None,
                Some(q) => Some((seq![p.0] + q.0, q.1)),
            },
        }
    }
}

/// Parses one collected-jiggy record.
pub open spec fn sp_jiggy(b: Seq<u8>) -> Option<(JiggyV, Seq<u8>)> {
    match sp_i32(b) {
        None => None,
        Some(p1) => match sp_i32(p1.1) {
            None => None,
            Some(p2) => match sp_string(p2.1) {
                None => None,
                Some(p3) => match sp_i64(p3.1) {
                    None => None,
                    Some(p4) => Some(
                        (
                            JiggyV {
                                level_id: p1.0,
                                jiggy_id: p2.0,
                                collected_by: p3.0,
                                timestamp: p4.0,
                            },
                            p4.1,
                        ),
                    ),
                },
            },
        },
    }
}

/// Parses `k` collected-jiggy records.
pub open spec fn sp_jiggies(b: Seq<u8>, k: nat) -> Option<(Seq<JiggyV>, Seq<u8>)>
    decreases k,
{
    if k == 0 {
        Some((Seq::empty(), b))
    } else {
        match sp_jiggy(b) {
            None => None,
            Some(p) => match sp_jiggies(p.1, (k - 1) as nat) {
                None => None,
                Some(q) => Some((seq![p.0] + q.0, q.1)),
            },
        }
    }
}

/// Parses one collected-honeycomb record.
pub open spec fn sp_honeycomb(b: Seq<u8>) -> Option<(HoneycombV, Seq<u8>)> {
    match sp_i32(b) {
        None => None,
        Some(p1) => match sp_i32(p1.1) {
            None => None,
            Some(p2) => match sp_i32(p2.1) {
                None => None,
                Some(p3) => match sp_i32(p3.1) {
                    None => None,
                    Some(p4) => match sp_i32(p4.1) {
                        None => None,
                        Some(p5) => match sp_string(p5.1) {
                            None => None,
                            Some(p6) => match sp_i64(p6.1) {
                                None => None,
                                Some(p7) => Some(
                                    (
                                        HoneycombV {
                                            map_id: p1.0,
                                            honeycomb_id: p2.0,
                                            x: p3.0,
                                            y: p4.0,
                                            z: p5.0,
                                            collected_by: p6.0,
                                            timestamp: p7.0,
                                        },
                                        p7.1,
                                    ),
                                ),
                            },
                        },
                    },
                },
            },
        },
    }
}

/// Parses `k` collected-honeycomb records.
pub open spec fn sp_honeycombs(b: Seq<u8>, k: nat) -> Option<(Seq<HoneycombV>, Seq<u8>)>
    decreases k,
{
    if k == 0 {
        Some((Seq::empty(), b))
    } else {
        match sp_honeycomb(b) {
            None => None,
            Some(p) => match sp_honeycombs(p.1, (k - 1) as nat) {
                None => None,
                Some(q) => Some((seq![p.0] + q.0, q.1)),
            },
        }
    }
}

/// Parses one collected-token record.
pub open spec fn sp_token(b: Seq<u8>) -> Option<(MumboTokenV, Seq<u8>)> {
    match sp_i32(b) {
        None => None,
        Some(p1) => match sp_i32(p1.1) {
            None => None,
            Some(p2) => match sp_i32(p2.1) {
                None => None,
                Some(p3) => match sp_i32(p3.1) {
                    None => None,
                    Some(p4) => match sp_i32(p4.1) {
                        None => None,
                        Some(p5) => match sp_string(p5.1) {
                            None => None,
                            Some(p6) => match sp_i64(p6.1) {
                                None => None,
                                Some(p7) => Some(
                                    (
                                        MumboTokenV {
                                            map_id: p1.0,
                                            token_id: p2.0,
                                            x: p3.0,
                                            y: p4.0,
                                            z: p5.0,
                                            collected_by: p6.0,
                                            timestamp: p7.0,
                                        },
                                        p7.1,
                                    ),
                                ),
                            },
                        },
                    },
                },
            },
        },
    }
}

/// Parses `k` collected-token records.
pub open spec fn sp_tokens(b: Seq<u8>, k: nat) -> Option<(Seq<MumboTokenV>, Seq<u8>)>
    decreases k,
{
    if k == 0 {
        Some((Seq::empty(), b))
    } else {
        match sp_token(b) {
            None => None,
            Some(p) => match sp_tokens(p.1, (k - 1) as nat) {
                None => None,
                Some(q) => Some((seq![p.0] + q.0, q.1)),
            },
        }
    }
}

/// Parses one opened-level record.
pub open spec fn sp_level(b: Seq<u8>) -> Option<(OpenedLevelV, Seq<u8>)> {
    match sp_i32(b) {
        None => None,
        Some(p1) => match sp_i32(p1.1) {
            None => None,
            Some(p2) => match sp_string(p2.1) {
                None => None,
                Some(p3) => match sp_i64(p3.1) {
                    None => None,
                    Some(p4) => Some(
                        (
                            OpenedLevelV {
                                world_id: p1.0,
                                jiggy_cost: p2.0,
                                opened_by: p3.0,
                                timestamp: p4.0,
                            },
                            p4.1,
                        ),
                    ),
                },
            },
        },
    }
}

/// Parses `k` opened-level records.
pub open spec fn sp_levels(b: Seq<u8>, k: nat) -> Option<(Seq<OpenedLevelV>, Seq<u8>)>
    decreases k,
{
    if k == 0 {
        Some((Seq::empty(), b))
    } else {
        match sp_level(b) {
            None => None,
            Some(p) => match sp_levels(p.1, (k - 1) as nat) {
                None => None,
                Some(q) => Some((seq![p.0] + q.0, q.1)),
            },
        }
    }
}

/// Parses `k` note-save-data slots.
pub open spec fn sp_slots(b: Seq<u8>, k: nat) -> Option<(Seq<Seq<u8>>, Seq<u8>)>
    decreases k,
{
    if k == 0 {
        Some((Seq::empty(), b))
    } else {
        match sp_bytes(b) {
            None => None,
            Some(p) => match sp_slots(p.1, (k - 1) as nat) {
                None => None,
                Some(q) => Some((seq![p.0] + q.0, q.1)),
            },
        }
    }
}

/// Parses the savefile blobs.
#[verifier::opaque]
pub open spec fn sp_save_flags(b: Seq<u8>) -> Option<(SaveFlagsV, Seq<u8>)> {
    match sp_bytes(b) {
        None => None,
        Some(c1) => match sp_bytes(c1.1) {
            None => None,
            Some(c2) => match sp_bytes(c2.1) {
                None => None,
                Some(c3) => match sp_bytes(c3.1) {
                    None => None,
                    Some(c4) => match sp_bytes(c4.1) {
                        None => None,
                        Some(c5) => match sp_bytes(c5.1) {
                            None => None,
                            Some(c6) => match sp_bytes(c6.1) {
                                None => None,
                                Some(c7) => match sp_u32(c7.1) {
                                    None => None,
                                    Some(c8) => match sp_bytes(c8.1) {
                                        None => None,
                                        Some(c9) => match sp_u32(c9.1) {
                                            None => None,
                                            Some(c10) => match sp_bytes(c10.1) {
                                                None => None,
                                                Some(c11) => match sp_bytes(c11.1) {
                                                    None => None,
                                                    Some(c12) => match sp_bytes(c12.1) {
                                                        None => None,
                                                        Some(c13) => match sp_u32(c13.1) {
                                                            None => None,
                                                            Some(cn) => match sp_slots(
                                                                cn.1,
                                                                cn.0 as nat,
                                                            ) {
                                                                None => None,
                                                                Some(cs) => Some(
                                                                    (
                                                                        SaveFlagsV {
                                                                            cheat_flags: c1.0,
                                                                            game_flags: c2.0,
                                                                            honeycomb_flags: c3.0,
                                                                            jiggy_flags: c4.0,
                                                                            token_flags: c5.0,
                                                                            note_totals: c6.0,
                                                                            puzzles_completed: c7.0,
                                                                            level_events: c8.0,
                                                                            file_progress_flags: c9.0,
                                                                            moves: c10.0,
                                                                            ability_progress: c11.0,
                                                                            honeycomb_score: c12.0,
                                                                            mumbo_score: c13.0,
                                                                            note_save_data: cs.0,
                                                                        },
                                                                        cs.1,
                                                                    ),
                                                                ),
                                                            },
                                                        },
                                                    },
                                                },
                                            },
                                        },
                                    },
                                },
                            },
                        },
                    },
                },
            },
        },
    }
}

/// Parses a whole snapshot into a lobby state with an empty roster.
#[verifier::opaque]
pub open spec fn sp_lobby(b: Seq<u8>) -> Option<(LobbyV, Seq<u8>)> {
    match sp_string(b) {
        None => None,
        Some(f1) => match sp_string(f1.1) {
            None => None,
            Some(f2) => match sp_i64(f2.1) {
                None => None,
                Some(f3) => match sp_i64(f3.1) {
                    None => None,
                    Some(f4) => match sp_bool(f4.1) {
                        None => None,
                        Some(f5) => match sp_u32(f5.1) {
                            None => None,
                            Some(n1) => match sp_notes(n1.1, n1.0 as nat) {
                                None => None,
                                Some(l1) => match sp_u32(l1.1) {
                                    None => None,
                                    Some(n2) => match sp_jiggies(n2.1, n2.0 as nat) {
                                        None => None,
                                        Some(l2) => match sp_u32(l2.1) {
                                            None => None,
                                            Some(n3) => match sp_levels(n3.1, n3.0 as nat) {
                                                None => None,
                                                Some(l3) => match sp_u32(l3.1) {
                                                    None => None,
                                                    Some(n4) => match sp_honeycombs(
                                                        n4.1,
                                                        n4.0 as nat,
                                                    ) {
                                                        None => None,
                                                        Some(l4) => match sp_u32(l4.1) {
                                                            None => None,
                                                            Some(n5) => match sp_tokens(
                                                                n5.1,
                                                                n5.0 as nat,
                                                            ) {
                                                                None => None,
                                                                Some(l5) => match sp_save_flags(
                                                                    l5.1,
                                                                ) {
                                                                    None => None,
                                                                    Some(sf) => Some(
                                                                        (
                                                                            LobbyV {
                                                                                name: f1.0,
                                                                                password: f2.0,
                                                                                created_at: f3.0,
                                                                                last_activity: f4.0,
                                                                                has_initial_save_data: f5.0,
                                                                                players: Seq::<
                                                                                    MemberV,
                                                                                >::empty(),
                                                                                collected_notes: l1.0,
                                                                                collected_jiggies: l2.0,
                                                                                opened_levels: l3.0,
                                                                                collected_honeycombs: l4.0,
                                                                                collected_mumbo_tokens: l5.0,
                                                                                save_flags: sf.0,
                                                                            },
                                                                            sf.1,
                                                                        ),
                                                                    ),
                                                                },
                                                            },
                                                        },
                                                    },
                                                },
                                            },
                                        },
                                    },
                                },
                            },
                        },
                    },
                },
            },
        },
    }
}

/// Parsing inverts encoding for one note record.
#[verifier::rlimit(100)]
#[verifier::spinoff_prover]
pub proof fn lemma_rt_note(n: NoteV, rest: Seq<u8>)
    requires
        vstd::utf8::encode_utf8(n.collected_by).len() <= u32::MAX,
    ensures
        sp_note(enc_note(n) + rest) == Some((n, rest)),
{
    let r5 = i64_to_be_bytes(n.timestamp) + rest;
    let r4 = enc_string(n.collected_by) + r5;
    let r3 = i16_to_le_bytes(n.z) + r4;
    let r2 = i16_to_le_bytes(n.y) + r3;
    let r1 = i16_to_le_bytes(n.x) + r2;
    assert(enc_note(n) + rest =~= i32_to_be_bytes(n.map_id) + r1);
    lemma_rt_i32(n.map_id, r1);
    assert(r1 =~= i16_to_le_bytes(n.x) + r2);
    lemma_rt_i16(n.x, r2);
    lemma_rt_i16(n.y, r3);
    lemma_rt_i16(n.z, r4);
    lemma_rt_string(n.collected_by, r5);
    lemma_rt_i64(n.timestamp, rest);
}

/// Parsing inverts encoding for a run of note records.
#[verifier::rlimit(100)]
#[verifier::spinoff_prover]
pub proof fn lemma_rt_notes(s: Seq<NoteV>, rest: Seq<u8>)
    requires
        forall|i: int|
            0 <= i < s.len() ==> vstd::utf8::encode_utf8(
                (#[trigger] s[i]).collected_by,
            ).len() <= u32::MAX,
    ensures
        sp_notes(enc_notes(s) + rest, s.len()) == Some((s, rest)),
    decreases s.len(),
{
    if s.len() == 0 {
        assert(enc_notes(s) + rest =~= rest);
    } else {
        assert(enc_notes(s) + rest =~= enc_note(s.first()) + (enc_notes(s.drop_first()) + rest));
        lemma_rt_note(s.first(), enc_notes(s.drop_first()) + rest);
        assert(forall|i: int|
            0 <= i < s.drop_first().len() ==> vstd::utf8::encode_utf8(
                (#[trigger] s.drop_first()[i]).collected_by,
            ).len() <= u32::MAX);
        lemma_rt_notes(s.drop_first(), rest);
        assert(seq![s.first()] + s.drop_first() =~= s);
    }
}

/// Parsing inverts encoding for one jiggy record.
#[verifier::rlimit(100)]
#[verifier::spinoff_prover]
pub proof fn lemma_rt_jiggy(j: JiggyV, rest: Seq<u8>)
    requires
        vstd::utf8::encode_utf8(j.collected_by).len() <= u32::MAX,
    ensures
        sp_jiggy(enc_jiggy(j) + rest) == Some((j, rest)),
{
    let r3 = i64_to_be_bytes(j.timestamp) + rest;
    let r2 = enc_string(j.collected_by) + r3;
    let r1 = i32_to_be_bytes(j.jiggy_id) + r2;
    assert(enc_jiggy(j) + rest =~= i32_to_be_bytes(j.level_id) + r1);
    lemma_rt_i32(j.level_id, r1);
    lemma_rt_i32(j.jiggy_id, r2);
    lemma_rt_string(j.collected_by, r3);
    lemma_rt_i64(j.timestamp, rest);
}

/// Parsing inverts encoding for a run of jiggy records.
#[verifier::rlimit(100)]
#[verifier::spinoff_prover]
pub proof fn lemma_rt_jiggies(s: Seq<JiggyV>, rest: Seq<u8>)
    requires
        forall|i: int|
            0 <= i < s.len() ==> vstd::utf8::encode_utf8(
                (#[trigger] s[i]).collected_by,
            ).len() <= u32::MAX,
    ensures
        sp_jiggies(enc_jiggies(s) + rest, s.len()) == Some((s, rest)),
    decreases s.len(),
{
    if s.len() == 0 {
        assert(enc_jiggies(s) + rest =~= rest);
    } else {
        assert(enc_jiggies(s) + rest =~= enc_jiggy(s.first()) + (enc_jiggies(s.drop_first())
            + rest));
        lemma_rt_jiggy(s.first(), enc_jiggies(s.drop_first()) + rest);
        assert(forall|i: int|
            0 <= i < s.drop_first().len() ==> vstd::utf8::encode_utf8(
                (#[trigger] s.drop_first()[i]).collected_by,
            ).len() <= u32::MAX);
        lemma_rt_jiggies(s.drop_first(), rest);
        assert(seq![s.first()] + s.drop_first() =~= s);
    }
}

/// Parsing inverts encoding for one honeycomb record.
#[verifier::rlimit(100)]
#[verifier::spinoff_prover]
pub proof fn lemma_rt_honeycomb(h: HoneycombV, rest: Seq<u8>)
    requires
        vstd::utf8::encode_utf8(h.collected_by).len() <= u32::MAX,
    ensures
        sp_honeycomb(enc_honeycomb(h) + rest) == Some((h, rest)),
{
    let r6 = i64_to_be_bytes(h.timestamp) + rest;
    let r5 = enc_string(h.collected_by) + r6;
    let r4 = i32_to_be_bytes(h.z) + r5;
    let r3 = i32_to_be_bytes(h.y) + r4;
    let r2 = i32_to_be_bytes(h.x) + r3;
    let r1 = i32_to_be_bytes(h.honeycomb_id) + r2;
    assert(enc_honeycomb(h) + rest =~= i32_to_be_bytes(h.map_id) + r1);
    lemma_rt_i32(h.map_id, r1);
    lemma_rt_i32(h.honeycomb_id, r2);
    lemma_rt_i32(h.x, r3);
    lemma_rt_i32(h.y, r4);
    lemma_rt_i32(h.z, r5);
    lemma_rt_string(h.collected_by, r6);
    lemma_rt_i64(h.timestamp, rest);
}

/// Parsing inverts encoding for a run of honeycomb records.
#[verifier::rlimit(100)]
#[verifier::spinoff_prover]
pub proof fn lemma_rt_honeycombs(s: Seq<HoneycombV>, rest: Seq<u8>)
    requires
        forall|i: int|
            0 <= i < s.len() ==> vstd::utf8::encode_utf8(
                (#[trigger] s[i]).collected_by,
            ).len() <= u32::MAX,
    ensures
        sp_honeycombs(enc_honeycombs(s) + rest, s.len()) == Some((s, rest)),
    decreases s.len(),
{
    if s.len() == 0 {
        assert(enc_honeycombs(s) + rest =~= rest);
    } else {
        assert(enc_honeycombs(s) + rest =~= enc_honeycomb(s.first()) + (enc_honeycombs(
            s.drop_first(),
        ) + rest));
        lemma_rt_honeycomb(s.first(), enc_honeycombs(s.drop_first()) + rest);
        assert(sp_honeycomb(enc_honeycombs(s) + rest) == Some(
            (s.first(), enc_honeycombs(s.drop_first()) + rest),
        ));
        assert(forall|i: int|
            0 <= i < s.drop_first().len() ==> vstd::utf8::encode_utf8(
                (#[trigger] s.drop_first()[i]).collected_by,
            ).len() <= u32::MAX);
        lemma_rt_honeycombs(s.drop_first(), rest);
        assert(sp_honeycombs(enc_honeycombs(s.drop_first()) + rest, s.drop_first().len()) == Some(
            (s.drop_first(), rest),
        ));
        assert(seq![s.first()] + s.drop_first() =~= s);
        assert(sp_honeycombs(enc_honeycombs(s) + rest, s.len()) == Some((s, rest)));
    }
}

/// Parsing inverts encoding for one token record.
#[verifier::rlimit(100)]
#[verifier::spinoff_prover]
pub proof fn lemma_rt_token(t: MumboTokenV, rest: Seq<u8>)
    requires
        vstd::utf8::encode_utf8(t.collected_by).len() <= u32::MAX,
    ensures
        sp_token(enc_token(t) + rest) == Some((t, rest)),
{
    let r6 = i64_to_be_bytes(t.timestamp) + rest;
    let r5 = enc_string(t.collected_by) + r6;
    let r4 = i32_to_be_bytes(t.z) + r5;
    let r3 = i32_to_be_bytes(t.y) + r4;
    let r2 = i32_to_be_bytes(t.x) + r3;
    let r1 = i32_to_be_bytes(t.token_id) + r2;
    assert(enc_token(t) + rest =~= i32_to_be_bytes(t.map_id) + r1);
    lemma_rt_i32(t.map_id, r1);
    lemma_rt_i32(t.token_id, r2);
    lemma_rt_i32(t.x, r3);
    lemma_rt_i32(t.y, r4);
    lemma_rt_i32(t.z, r5);
    lemma_rt_string(t.collected_by, r6);
    lemma_rt_i64(t.timestamp, rest);
}

/// Parsing inverts encoding for a run of token records.
#[verifier::rlimit(100)]
#[verifier::spinoff_prover]
pub proof fn lemma_rt_tokens(s: Seq<MumboTokenV>, rest: Seq<u8>)
    requires
        forall|i: int|
            0 <= i < s.len() ==> vstd::utf8::encode_utf8(
                (#[trigger] s[i]).collected_by,
            ).len() <= u32::MAX,
    ensures
        sp_tokens(enc_tokens(s) + rest, s.len()) == Some((s, rest)),
    decreases s.len(),
{
    if s.len() == 0 {
        assert(enc_tokens(s) + rest =~= rest);
    } else {
        assert(enc_tokens(s) + rest =~= enc_token(s.first()) + (enc_tokens(s.drop_first())
            + rest));
        lemma_rt_token(s.first(), enc_tokens(s.drop_first()) + rest);
        assert(sp_token(enc_tokens(s) + rest) == Some(
            (s.first(), enc_tokens(s.drop_first()) + rest),
        ));
        assert(forall|i: int|
            0 <= i < s.drop_first().len() ==> vstd::utf8::encode_utf8(
                (#[trigger] s.drop_first()[i]).collected_by,
            ).len() <= u32::MAX);
        lemma_rt_tokens(s.drop_first(), rest);
        assert(sp_tokens(enc_tokens(s.drop_first()) + rest, s.drop_first().len()) == Some(
            (s.drop_first(), rest),
        ));
        assert(seq![s.first()] + s.drop_first() =~= s);
        assert(sp_tokens(enc_tokens(s) + rest, s.len()) == Some((s, rest)));
    }
}

/// Parsing inverts encoding for one opened-level record.
#[verifier::rlimit(100)]
#[verifier::spinoff_prover]
pub proof fn lemma_rt_level(o: OpenedLevelV, rest: Seq<u8>)
    requires
        vstd::utf8::encode_utf8(o.opened_by).len() <= u32::MAX,
    ensures
        sp_level(enc_level(o) + rest) == Some((o, rest)),
{
    let r3 = i64_to_be_bytes(o.timestamp) + rest;
    let r2 = enc_string(o.opened_by) + r3;
    let r1 = i32_to_be_bytes(o.jiggy_cost) + r2;
    assert(enc_level(o) + rest =~= i32_to_be_bytes(o.world_id) + r1);
    lemma_rt_i32(o.world_id, r1);
    lemma_rt_i32(o.jiggy_cost, r2);
    lemma_rt_string(o.opened_by, r3);
    lemma_rt_i64(o.timestamp, rest);
}

/// Parsing inverts encoding for a run of opened-level records.
#[verifier::rlimit(100)]
#[verifier::spinoff_prover]
pub proof fn lemma_rt_levels(s: Seq<OpenedLevelV>, rest: Seq<u8>)
    requires
        forall|i: int|
            0 <= i < s.len() ==> vstd::utf8::encode_utf8(
                (#[trigger] s[i]).opened_by,
            ).len() <= u32::MAX,
    ensures
        sp_levels(enc_levels(s) + rest, s.len()) == Some((s, rest)),
    decreases s.len(),
{
    if s.len() == 0 {
        assert(enc_levels(s) + rest =~= rest);
    } else {
        assert(enc_levels(s) + rest =~= enc_level(s.first()) + (enc_levels(s.drop_first())
            + rest));
        lemma_rt_level(s.first(), enc_levels(s.drop_first()) + rest);
        assert(forall|i: int|
            0 <= i < s.drop_first().len() ==> vstd::utf8::encode_utf8(
                (#[trigger] s.drop_first()[i]).opened_by,
            ).len() <= u32::MAX);
        lemma_rt_levels(s.drop_first(), rest);
        assert(seq![s.first()] + s.drop_first() =~= s);
    }
}

/// Parsing inverts encoding for a run of note slots.
#[verifier::rlimit(100)]
#[verifier::spinoff_prover]
pub proof fn lemma_rt_slots(s: Seq<Seq<u8>>, rest: Seq<u8>)
    requires
        forall|i: int| 0 <= i < s.len() ==> (#[trigger] s[i]).len() <= u32::MAX,
    ensures
        sp_slots(enc_slots(s) + rest, s.len()) == Some((s, rest)),
    decreases s.len(),
{
    if s.len() == 0 {
        assert(enc_slots(s) + rest =~= rest);
    } else {
        assert(enc_slots(s) + rest =~= enc_bytes(s.first()) + (enc_slots(s.drop_first()) + rest));
        lemma_rt_bytes(s.first(), enc_slots(s.drop_first()) + rest);
        assert(sp_bytes(enc_slots(s) + rest) == Some(
            (s.first(), enc_slots(s.drop_first()) + rest),
        ));
        assert(forall|i: int|
            0 <= i < s.drop_first().len() ==> (#[trigger] s.drop_first()[i]).len() <= u32::MAX);
        lemma_rt_slots(s.drop_first(), rest);
        assert(sp_slots(enc_slots(s.drop_first()) + rest, s.drop_first().len()) == Some(
            (s.drop_first(), rest),
        ));
        assert(seq![s.first()] + s.drop_first() =~= s);
        assert(sp_slots(enc_slots(s) + rest, s.len()) == Some((s, rest)));
    }
}


/// Evaluates the savefile-blob parser given each field step.
#[verifier::rlimit(100)]
#[verifier::spinoff_prover]
proof fn lemma_sp_save_flags_steps(
    b: Seq<u8>,
    sf: SaveFlagsV,
    r1: Seq<u8>,
    r2: Seq<u8>,
    r3: Seq<u8>,
    r4: Seq<u8>,
    r5: Seq<u8>,
    r6: Seq<u8>,
    r7: Seq<u8>,
    r8: Seq<u8>,
    r9: Seq<u8>,
    r10: Seq<u8>,
    r11: Seq<u8>,
    r12: Seq<u8>,
    r13: Seq<u8>,
    r14: Seq<u8>,
    rest: Seq<u8>,
)
    requires
        sp_bytes(b) == Some((sf.cheat_flags, r1)),
        sp_bytes(r1) == Some((sf.game_flags, r2)),
        sp_bytes(r2) == Some((sf.honeycomb_flags, r3)),
        sp_bytes(r3) == Some((sf.jiggy_flags, r4)),
        sp_bytes(r4) == Some((sf.token_flags, r5)),
        sp_bytes(r5) == Some((sf.note_totals, r6)),
        sp_bytes(r6) == Some((sf.puzzles_completed, r7)),
        sp_u32(r7) == Some((sf.level_events, r8)),
        sp_bytes(r8) == Some((sf.file_progress_flags, r9)),
        sp_u32(r9) == Some((sf.moves, r10)),
        sp_bytes(r10) == Some((sf.ability_progress, r11)),
        sp_bytes(r11) == Some((sf.honeycomb_score, r12)),
        sp_bytes(r12) == Some((sf.mumbo_score, r13)),
        sp_u32(r13) == Some((sf.note_save_data.len() as u32, r14)),
        sp_slots(r14, sf.note_save_data.len()) == Some((sf.note_save_data, rest)),
        (sf.note_save_data.len() as u32) as nat == sf.note_save_data.len(),
    ensures
        sp_save_flags(b) == Some((sf, rest)),
{
    reveal(sp_save_flags);
}

/// Evaluates the whole snapshot parser given each field step.
#[verifier::rlimit(100)]
#[verifier::spinoff_prover]
proof fn lemma_sp_lobby_steps(
    b: Seq<u8>,
    l: LobbyV,
    r0: Seq<u8>,
    r1: Seq<u8>,
    ra: Seq<u8>,
    rb: Seq<u8>,
    r2b: Seq<u8>,
    r3: Seq<u8>,
    r3b: Seq<u8>,
    r4: Seq<u8>,
    r4b: Seq<u8>,
    r5: Seq<u8>,
    r6: Seq<u8>,
    r7: Seq<u8>,
    r8: Seq<u8>,
    r9: Seq<u8>,
    r10: Seq<u8>,
    rest: Seq<u8>,
)
    requires
        l.players == Seq::<MemberV>::empty(),
        sp_string(b) == Some((l.name, r0)),
        sp_string(r0) == Some((l.password, r1)),
        sp_i64(r1) == Some((l.created_at, ra)),
        sp_i64(ra) == Some((l.last_activity, rb)),
        sp_bool(rb) == Some((l.has_initial_save_data, r2b)),
        sp_u32(r2b) == Some((l.collected_notes.len() as u32, r3)),
        sp_notes(r3, l.collected_notes.len()) == Some((l.collected_notes, r3b)),
        (l.collected_notes.len() as u32) as nat == l.collected_notes.len(),
        sp_u32(r3b) == Some((l.collected_jiggies.len() as u32, r4)),
        sp_jiggies(r4, l.collected_jiggies.len()) == Some((l.collected_jiggies, r4b)),
        (l.collected_jiggies.len() as u32) as nat == l.collected_jiggies.len(),
        sp_u32(r4b) == Some((l.opened_levels.len() as u32, r5)),
        sp_levels(r5, l.opened_levels.len()) == Some((l.opened_levels, r6)),
        (l.opened_levels.len() as u32) as nat == l.opened_levels.len(),
        sp_u32(r6) == Some((l.collected_honeycombs.len() as u32, r7)),
        sp_honeycombs(r7, l.collected_honeycombs.len()) == Some((l.collected_honeycombs, r8)),
        (l.collected_honeycombs.len() as u32) as nat == l.collected_honeycombs.len(),
        sp_u32(r8) == Some((l.collected_mumbo_tokens.len() as u32, r9)),
        sp_tokens(r9, l.collected_mumbo_tokens.len()) == Some((l.collected_mumbo_tokens, r10)),
        (l.collected_mumbo_tokens.len() as u32) as nat == l.collected_mumbo_tokens.len(),
        sp_save_flags(r10) == Some((l.save_flags, rest)),
    ensures
        sp_lobby(b) == Some((l, rest)),
{
    reveal(sp_lobby);
}

/// Parsing inverts encoding for the savefile blobs.
#[verifier::rlimit(100)]
#[verifier::spinoff_prover]
pub proof fn lemma_rt_save_flags(sf: SaveFlagsV, rest: Seq<u8>)
    requires
        sf.cheat_flags.len() <= u32::MAX,
        sf.game_flags.len() <= u32::MAX,
        sf.honeycomb_flags.len() <= u32::MAX,
        sf.jiggy_flags.len() <= u32::MAX,
        sf.token_flags.len() <= u32::MAX,
        sf.note_totals.len() <= u32::MAX,
        sf.puzzles_completed.len() <= u32::MAX,
        sf.file_progress_flags.len() <= u32::MAX,
        sf.ability_progress.len() <= u32::MAX,
        sf.honeycomb_score.len() <= u32::MAX,
        sf.mumbo_score.len() <= u32::MAX,
        sf.note_save_data.len() <= u32::MAX,
        forall|i: int|
            0 <= i < sf.note_save_data.len() ==> (#[trigger] sf.note_save_data[i]).len()
                <= u32::MAX,
    ensures
        sp_save_flags(enc_save_flags(sf) + rest) == Some((sf, rest)),
{
    let r14 = enc_slots(sf.note_save_data) + rest;
    let r13 = u32_to_be_bytes(sf.note_save_data.len() as u32) + r14;
    let r12 = enc_bytes(sf.mumbo_score) + r13;
    let r11 = enc_bytes(sf.honeycomb_score) + r12;
    let r10 = enc_bytes(sf.ability_progress) + r11;
    let r9 = u32_to_be_bytes(sf.moves) + r10;
    let r8 = enc_bytes(sf.file_progress_flags) + r9;
    let r7 = u32_to_be_bytes(sf.level_events) + r8;
    let r6 = enc_bytes(sf.puzzles_completed) + r7;
    let r5 = enc_bytes(sf.note_totals) + r6;
    let r4 = enc_bytes(sf.token_flags) + r5;
    let r3 = enc_bytes(sf.jiggy_flags) + r4;
    let r2 = enc_bytes(sf.honeycomb_flags) + r3;
    let r1 = enc_bytes(sf.game_flags) + r2;
    assert(enc_save_flags(sf) + rest =~= enc_bytes(sf.cheat_flags) + r1);
    lemma_rt_bytes(sf.cheat_flags, r1);
    assert(sp_bytes(enc_save_flags(sf) + rest) == Some((sf.cheat_flags, r1)));
    lemma_rt_bytes(sf.game_flags, r2);
    assert(sp_bytes(r1) == Some((sf.game_flags, r2)));
    lemma_rt_bytes(sf.honeycomb_flags, r3);
    assert(sp_bytes(r2) == Some((sf.honeycomb_flags, r3)));
    lemma_rt_bytes(sf.jiggy_flags, r4);
    assert(sp_bytes(r3) == Some((sf.jiggy_flags, r4)));
    lemma_rt_bytes(sf.token_flags, r5);
    assert(sp_bytes(r4) == Some((sf.token_flags, r5)));
    lemma_rt_bytes(sf.note_totals, r6);
    assert(sp_bytes(r5) == Some((sf.note_totals, r6)));
    lemma_rt_bytes(sf.puzzles_completed, r7);
    assert(sp_bytes(r6) == Some((sf.puzzles_completed, r7)));
    lemma_rt_u32(sf.level_events, r8);
    assert(sp_u32(r7) == Some((sf.level_events, r8)));
    lemma_rt_bytes(sf.file_progress_flags, r9);
    assert(sp_bytes(r8) == Some((sf.file_progress_flags, r9)));
    lemma_rt_u32(sf.moves, r10);
    assert(sp_u32(r9) == Some((sf.moves, r10)));
    lemma_rt_bytes(sf.ability_progress, r11);
    assert(sp_bytes(r10) == Some((sf.ability_progress, r11)));
    lemma_rt_bytes(sf.honeycomb_score, r12);
    assert(sp_bytes(r11) == Some((sf.honeycomb_score, r12)));
    lemma_rt_bytes(sf.mumbo_score, r13);
    assert(sp_bytes(r12) == Some((sf.mumbo_score, r13)));
    lemma_rt_u32(sf.note_save_data.len() as u32, r14);
    assert(sp_u32(r13) == Some((sf.note_save_data.len() as u32, r14)));
    lemma_rt_slots(sf.note_save_data, rest);
    assert(sp_slots(r14, sf.note_save_data.len()) == Some((sf.note_save_data, rest)));
    assert((sf.note_save_data.len() as u32) as nat == sf.note_save_data.len());
    lemma_sp_save_flags_steps(
        enc_save_flags(sf) + rest,
        sf,
        r1,
        r2,
        r3,
        r4,
        r5,
        r6,
        r7,
        r8,
        r9,
        r10,
        r11,
        r12,
        r13,
        r14,
        rest,
    );
}

/// The snapshot bytes from the savefile section on.
pub open spec fn snap_from_sf(l: LobbyV) -> Seq<u8> {
    enc_save_flags(l.save_flags)
}

/// The snapshot bytes from the token section on.
pub open spec fn snap_from_tokens(l: LobbyV) -> Seq<u8> {
    u32_to_be_bytes(l.collected_mumbo_tokens.len() as u32) + enc_tokens(l.collected_mumbo_tokens)
        + snap_from_sf(l)
}

/// The snapshot bytes from the honeycomb section on.
pub open spec fn snap_from_honeycombs(l: LobbyV) -> Seq<u8> {
    u32_to_be_bytes(l.collected_honeycombs.len() as u32) + enc_honeycombs(l.collected_honeycombs)
        + snap_from_tokens(l)
}

/// The snapshot bytes from the opened-level section on.
pub open spec fn snap_from_levels(l: LobbyV) -> Seq<u8> {
    u32_to_be_bytes(l.opened_levels.len() as u32) + enc_levels(l.opened_levels)
        + snap_from_honeycombs(l)
}

/// The snapshot bytes from the jiggy section on.
pub open spec fn snap_from_jiggies(l: LobbyV) -> Seq<u8> {
    u32_to_be_bytes(l.collected_jiggies.len() as u32) + enc_jiggies(l.collected_jiggies)
        + snap_from_levels(l)
}

/// The snapshot bytes from the note section on.
pub open spec fn snap_from_notes(l: LobbyV) -> Seq<u8> {
    u32_to_be_bytes(l.collected_notes.len() as u32) + enc_notes(l.collected_notes)
        + snap_from_jiggies(l)
}

/// The header fields parse off the front of the snapshot, leaving the
/// note section.
#[verifier::rlimit(100)]
#[verifier::spinoff_prover]
proof fn lemma_rt_snap_header(l: LobbyV)
    requires
        snapshot_bounded(l),
    ensures
        ({
            let r0 = enc_string(l.password) + (i64_to_be_bytes(l.created_at) + (i64_to_be_bytes(
                l.last_activity,
            ) + (enc_bool(l.has_initial_save_data) + snap_from_notes(l))));
            let r1 = i64_to_be_bytes(l.created_at) + (i64_to_be_bytes(l.last_activity) + (enc_bool(
                l.has_initial_save_data,
            ) + snap_from_notes(l)));
            let ra = i64_to_be_bytes(l.last_activity) + (enc_bool(l.has_initial_save_data)
                + snap_from_notes(l));
            let rb = enc_bool(l.has_initial_save_data) + snap_from_notes(l);
            &&& sp_string(spec_snapshot_bytes(l)) == Some((l.name, r0))
            &&& sp_string(r0) == Some((l.password, r1))
            &&& sp_i64(r1) == Some((l.created_at, ra))
            &&& sp_i64(ra) == Some((l.last_activity, rb))
            &&& sp_bool(rb) == Some((l.has_initial_save_data, snap_from_notes(l)))
        }),
{
    let r0 = enc_string(l.password) + (i64_to_be_bytes(l.created_at) + (i64_to_be_bytes(
        l.last_activity,
    ) + (enc_bool(l.has_initial_save_data) + snap_from_notes(l))));
    let r1 = i64_to_be_bytes(l.created_at) + (i64_to_be_bytes(l.last_activity) + (enc_bool(
        l.has_initial_save_data,
    ) + snap_from_notes(l)));
    let ra = i64_to_be_bytes(l.last_activity) + (enc_bool(l.has_initial_save_data)
        + snap_from_notes(l));
    let rb = enc_bool(l.has_initial_save_data) + snap_from_notes(l);
    assert(spec_snapshot_bytes(l) =~= enc_string(l.name) + r0);
    lemma_rt_string(l.name, r0);
    lemma_rt_string(l.password, r1);
    lemma_rt_i64(l.created_at, ra);
    lemma_rt_i64(l.last_activity, rb);
    lemma_rt_bool(l.has_initial_save_data, snap_from_notes(l));
}

/// The note section parses off, leaving the jiggy section.
#[verifier::rlimit(100)]
#[verifier::spinoff_prover]
proof fn lemma_rt_snap_notes(l: LobbyV)
    requires
        snapshot_bounded(l),
    ensures
        sp_u32(snap_from_notes(l)) == Some(
            (
                l.collected_notes.len() as u32,
                enc_notes(l.collected_notes) + snap_from_jiggies(l),
            ),
        ),
        sp_notes(enc_notes(l.collected_notes) + snap_from_jiggies(l), l.collected_notes.len())
            == Some((l.collected_notes, snap_from_jiggies(l))),
{
    assert(snap_from_notes(l) =~= u32_to_be_bytes(l.collected_notes.len() as u32) + (enc_notes(
        l.collected_notes,
    ) + snap_from_jiggies(l)));
    lemma_rt_u32(l.collected_notes.len() as u32, enc_notes(l.collected_notes) + snap_from_jiggies(l));
    lemma_rt_notes(l.collected_notes, snap_from_jiggies(l));
}

/// The jiggy section parses off, leaving the opened-level section.
#[verifier::rlimit(100)]
#[verifier::spinoff_prover]
proof fn lemma_rt_snap_jiggies(l: LobbyV)
    requires
        snapshot_bounded(l),
    ensures
        sp_u32(snap_from_jiggies(l)) == Some(
            (
                l.collected_jiggies.len() as u32,
                enc_jiggies(l.collected_jiggies) + snap_from_levels(l),
            ),
        ),
        sp_jiggies(enc_jiggies(l.collected_jiggies) + snap_from_levels(l), l.collected_jiggies.len())
            == Some((l.collected_jiggies, snap_from_levels(l))),
{
    assert(snap_from_jiggies(l) =~= u32_to_be_bytes(l.collected_jiggies.len() as u32) + (
    enc_jiggies(l.collected_jiggies) + snap_from_levels(l)));
    lemma_rt_u32(
        l.collected_jiggies.len() as u32,
        enc_jiggies(l.collected_jiggies) + snap_from_levels(l),
    );
    lemma_rt_jiggies(l.collected_jiggies, snap_from_levels(l));
}

/// The opened-level section parses off, leaving the honeycomb section.
#[verifier::rlimit(100)]
#[verifier::spinoff_prover]
proof fn lemma_rt_snap_levels(l: LobbyV)
    requires
        snapshot_bounded(l),
    ensures
        sp_u32(snap_from_levels(l)) == Some(
            (l.opened_levels.len() as u32, enc_levels(l.opened_levels) + snap_from_honeycombs(l)),
        ),
        sp_levels(enc_levels(l.opened_levels) + snap_from_honeycombs(l), l.opened_levels.len())
            == Some((l.opened_levels, snap_from_honeycombs(l))),
{
    assert(snap_from_levels(l) =~= u32_to_be_bytes(l.opened_levels.len() as u32) + (enc_levels(
        l.opened_levels,
    ) + snap_from_honeycombs(l)));
    lemma_rt_u32(
        l.opened_levels.len() as u32,
        enc_levels(l.opened_levels) + snap_from_honeycombs(l),
    );
    lemma_rt_levels(l.opened_levels, snap_from_honeycombs(l));
}

/// The honeycomb section parses off, leaving the token section.
#[verifier::rlimit(100)]
#[verifier::spinoff_prover]
proof fn lemma_rt_snap_honeycombs(l: LobbyV)
    requires
        snapshot_bounded(l),
    ensures
        sp_u32(snap_from_honeycombs(l)) == Some(
            (
                l.collected_honeycombs.len() as u32,
                enc_honeycombs(l.collected_honeycombs) + snap_from_tokens(l),
            ),
        ),
        sp_honeycombs(
            enc_honeycombs(l.collected_honeycombs) + snap_from_tokens(l),
            l.collected_honeycombs.len(),
        ) == Some((l.collected_honeycombs, snap_from_tokens(l))),
{
    assert(snap_from_honeycombs(l) =~= u32_to_be_bytes(l.collected_honeycombs.len() as u32) + (
    enc_honeycombs(l.collected_honeycombs) + snap_from_tokens(l)));
    lemma_rt_u32(
        l.collected_honeycombs.len() as u32,
        enc_honeycombs(l.collected_honeycombs) + snap_from_tokens(l),
    );
    lemma_rt_honeycombs(l.collected_honeycombs, snap_from_tokens(l));
}

/// The token section parses off, leaving the savefile section.
#[verifier::rlimit(100)]
#[verifier::spinoff_prover]
proof fn lemma_rt_snap_tokens(l: LobbyV)
    requires
        snapshot_bounded(l),
    ensures
        sp_u32(snap_from_tokens(l)) == Some(
            (
                l.collected_mumbo_tokens.len() as u32,
                enc_tokens(l.collected_mumbo_tokens) + snap_from_sf(l),
            ),
        ),
        sp_tokens(
            enc_tokens(l.collected_mumbo_tokens) + snap_from_sf(l),
            l.collected_mumbo_tokens.len(),
        ) == Some((l.collected_mumbo_tokens, snap_from_sf(l))),
{
    assert(snap_from_tokens(l) =~= u32_to_be_bytes(l.collected_mumbo_tokens.len() as u32) + (
    enc_tokens(l.collected_mumbo_tokens) + snap_from_sf(l)));
    lemma_rt_u32(
        l.collected_mumbo_tokens.len() as u32,
        enc_tokens(l.collected_mumbo_tokens) + snap_from_sf(l),
    );
    lemma_rt_tokens(l.collected_mumbo_tokens, snap_from_sf(l));
}

/// The savefile section parses off, leaving nothing.
#[verifier::rlimit(100)]
#[verifier::spinoff_prover]
proof fn lemma_rt_snap_sf(l: LobbyV)
    requires
        snapshot_bounded(l),
    ensures
        sp_save_flags(snap_from_sf(l)) == Some((l.save_flags, Seq::<u8>::empty())),
{
    assert(snap_from_sf(l) =~= enc_save_flags(l.save_flags) + Seq::<u8>::empty());
    lemma_rt_save_flags(l.save_flags, Seq::empty());
}

/// Snapshot round trip: any lobby state, encoded and parsed back, is the
/// original with an empty roster — the live `players` map is the one
/// thing a snapshot does not carry.
#[verifier::rlimit(100)]
#[verifier::spinoff_prover]
pub proof fn lemma_snapshot_round_trip(l: LobbyV)
    requires
        snapshot_bounded(l),
    ensures
        sp_lobby(spec_snapshot_bytes(l)) == Some(
            ((LobbyV { players: Seq::<MemberV>::empty(), ..l }), Seq::<u8>::empty()),
        ),
{
    lemma_rt_snap_header(l);
    lemma_rt_snap_notes(l);
    lemma_rt_snap_jiggies(l);
    lemma_rt_snap_levels(l);
    lemma_rt_snap_honeycombs(l);
    lemma_rt_snap_tokens(l);
    lemma_rt_snap_sf(l);
    let stripped = LobbyV { players: Seq::<MemberV>::empty(), ..l };
    let r0 = enc_string(l.password) + (i64_to_be_bytes(l.created_at) + (i64_to_be_bytes(
        l.last_activity,
    ) + (enc_bool(l.has_initial_save_data) + snap_from_notes(l))));
    let r1 = i64_to_be_bytes(l.created_at) + (i64_to_be_bytes(l.last_activity) + (enc_bool(
        l.has_initial_save_data,
    ) + snap_from_notes(l)));
    let ra = i64_to_be_bytes(l.last_activity) + (enc_bool(l.has_initial_save_data)
        + snap_from_notes(l));
    let rb = enc_bool(l.has_initial_save_data) + snap_from_notes(l);
    lemma_sp_lobby_steps(
        spec_snapshot_bytes(l),
        stripped,
        r0,
        r1,
        ra,
        rb,
        snap_from_notes(l),
        enc_notes(l.collected_notes) + snap_from_jiggies(l),
        snap_from_jiggies(l),
        enc_jiggies(l.collected_jiggies) + snap_from_levels(l),
        snap_from_levels(l),
        enc_levels(l.opened_levels) + snap_from_honeycombs(l),
        snap_from_honeycombs(l),
        enc_honeycombs(l.collected_honeycombs) + snap_from_tokens(l),
        snap_from_tokens(l),
        enc_tokens(l.collected_mumbo_tokens) + snap_from_sf(l),
        snap_from_sf(l),
        Seq::empty(),
    );
}


/// Appends a length-prefixed byte field.
fn w_bytes(buf: &mut Vec<u8>, b: &Vec<u8>)
    requires
        b@.len() <= u32::MAX,
    ensures
        final(buf)@ == old(buf)@ + enc_bytes(b@),
{
    crate::wire::write_u32_be(buf, b.len() as u32);
    buf.extend_from_slice(b.as_slice());
    proof {
        assert(final(buf)@ =~= old(buf)@ + enc_bytes(b@));
    }
}

/// Appends a length-prefixed UTF-8 string field.
fn w_string(buf: &mut Vec<u8>, s: &String)
    requires
        vstd::utf8::encode_utf8(s@).len() <= u32::MAX,
    ensures
        final(buf)@ == old(buf)@ + enc_string(s@),
{
    let bytes = s.as_str().as_bytes();
    crate::wire::write_u32_be(buf, bytes.len() as u32);
    buf.extend_from_slice(bytes);
    proof {
        assert(final(buf)@ =~= old(buf)@ + enc_string(s@));
    }
}

/// Appends a one-byte boolean.
fn w_bool(buf: &mut Vec<u8>, b: bool)
    ensures
        final(buf)@ == old(buf)@ + enc_bool(b),
{
    buf.push(
        if b {
            1
        } else {
            0
        },
    );
    proof {
        assert(final(buf)@ =~= old(buf)@ + enc_bool(b));
    }
}


/// Appends the collected-note section: the count, then each record.
#[verifier::rlimit(100)]
#[verifier::spinoff_prover]
fn w_notes(buf: &mut Vec<u8>, items: &Vec<crate::lobby::CollectedNote>)
    requires
        items@.len() <= u32::MAX,
        forall|i: int|
            0 <= i < items@.len() ==> vstd::utf8::encode_utf8(
                (#[trigger] items@[i])@.collected_by,
            ).len() <= u32::MAX,
    ensures
        final(buf)@ == old(buf)@ + u32_to_be_bytes(items@.len() as u32) + enc_notes(
            Seq::new(items@.len(), |i: int| items@[i]@),
        ),
{
    let ghost view = Seq::new(items@.len(), |i: int| items@[i]@);
    crate::wire::write_u32_be(buf, items.len() as u32);
    let ghost base = buf@;
    let n = items.len();
    let mut i: usize = 0;
    proof {
        assert(view.skip(0) =~= view);
    }
    while i < n
        invariant
            n == items@.len(),
            view == Seq::new(items@.len(), |k: int| items@[k]@),
            forall|k: int|
                0 <= k < items@.len() ==> vstd::utf8::encode_utf8(
                    (#[trigger] items@[k])@.collected_by,
                ).len() <= u32::MAX,
            i <= n,
            buf@ + enc_notes(view.skip(i as int)) =~= base + enc_notes(view),
        decreases n - i,
    {
        proof {
            assert(view.skip(i as int).drop_first() =~= view.skip(i + 1));
            assert(view.skip(i as int).first() == view[i as int]);
        }
        let ghost pre = buf@;
        let it = &items[i];
        crate::wire::write_i32_be(buf, it.map_id);
        buf.push((it.x as u16 & 0xff) as u8);
        buf.push(((it.x as u16 >> 8) & 0xff) as u8);
        buf.push((it.y as u16 & 0xff) as u8);
        buf.push(((it.y as u16 >> 8) & 0xff) as u8);
        buf.push((it.z as u16 & 0xff) as u8);
        buf.push(((it.z as u16 >> 8) & 0xff) as u8);
        w_string(buf, &it.collected_by);
        crate::wire::write_i64_be(buf, it.timestamp);
        proof {
            assert(buf@ =~= pre + enc_note(view[i as int]));
            assert(pre + (enc_note(view[i as int]) + enc_notes(view.skip(i + 1))) =~= buf@ + enc_notes(
                view.skip(i + 1),
            ));
        }
        i = i + 1;
    }
    proof {
        assert(view.skip(n as int) =~= Seq::new(0, |k: int| view[k]));
        assert(enc_notes(view.skip(n as int)) =~= Seq::<u8>::empty());
        assert(final(buf)@ =~= old(buf)@ + u32_to_be_bytes(items@.len() as u32) + enc_notes(view));
    }
}

/// Appends the collected-jiggy section: the count, then each record.
#[verifier::rlimit(100)]
#[verifier::spinoff_prover]
fn w_jiggies(buf: &mut Vec<u8>, items: &Vec<crate::lobby::CollectedJiggy>)
    requires
        items@.len() <= u32::MAX,
        forall|i: int|
            0 <= i < items@.len() ==> vstd::utf8::encode_utf8(
                (#[trigger] items@[i])@.collected_by,
            ).len() <= u32::MAX,
    ensures
        final(buf)@ == old(buf)@ + u32_to_be_bytes(items@.len() as u32) + enc_jiggies(
            Seq::new(items@.len(), |i: int| items@[i]@),
        ),
{
    let ghost view = Seq::new(items@.len(), |i: int| items@[i]@);
    crate::wire::write_u32_be(buf, items.len() as u32);
    let ghost base = buf@;
    let n = items.len();
    let mut i: usize = 0;
    proof {
        assert(view.skip(0) =~= view);
    }
    while i < n
        invariant
            n == items@.len(),
            view == Seq::new(items@.len(), |k: int| items@[k]@),
            forall|k: int|
                0 <= k < items@.len() ==> vstd::utf8::encode_utf8(
                    (#[trigger] items@[k])@.collected_by,
                ).len() <= u32::MAX,
            i <= n,
            buf@ + enc_jiggies(view.skip(i as int)) =~= base + enc_jiggies(view),
        decreases n - i,
    {
        proof {
            assert(view.skip(i as int).drop_first() =~= view.skip(i + 1));
            assert(view.skip(i as int).first() == view[i as int]);
        }
        let ghost pre = buf@;
        let it = &items[i];
        crate::wire::write_i32_be(buf, it.level_id);
        crate::wire::write_i32_be(buf, it.jiggy_id);
        w_string(buf, &it.collected_by);
        crate::wire::write_i64_be(buf, it.timestamp);
        proof {
            assert(buf@ =~= pre + enc_jiggy(view[i as int]));
            assert(pre + (enc_jiggy(view[i as int]) + enc_jiggies(view.skip(i + 1))) =~= buf@ + enc_jiggies(
                view.skip(i + 1),
            ));
        }
        i = i + 1;
    }
    proof {
        assert(view.skip(n as int) =~= Seq::new(0, |k: int| view[k]));
        assert(enc_jiggies(view.skip(n as int)) =~= Seq::<u8>::empty());
        assert(final(buf)@ =~= old(buf)@ + u32_to_be_bytes(items@.len() as u32) + enc_jiggies(view));
    }
}

/// Appends the opened-level section: the count, then each record.
#[verifier::rlimit(100)]
#[verifier::spinoff_prover]
fn w_levels(buf: &mut Vec<u8>, items: &Vec<crate::lobby::OpenedLevel>)
    requires
        items@.len() <= u32::MAX,
        forall|i: int|
            0 <= i < items@.len() ==> vstd::utf8::encode_utf8(
                (#[trigger] items@[i])@.opened_by,
            ).len() <= u32::MAX,
    ensures
        final(buf)@ == old(buf)@ + u32_to_be_bytes(items@.len() as u32) + enc_levels(
            Seq::new(items@.len(), |i: int| items@[i]@),
        ),
{
    let ghost view = Seq::new(items@.len(), |i: int| items@[i]@);
    crate::wire::write_u32_be(buf, items.len() as u32);
    let ghost base = buf@;
    let n = items.len();
    let mut i: usize = 0;
    proof {
        assert(view.skip(0) =~= view);
    }
    while i < n
        invariant
            n == items@.len(),
            view == Seq::new(items@.len(), |k: int| items@[k]@),
            forall|k: int|
                0 <= k < items@.len() ==> vstd::utf8::encode_utf8(
                    (#[trigger] items@[k])@.opened_by,
                ).len() <= u32::MAX,
            i <= n,
            buf@ + enc_levels(view.skip(i as int)) =~= base + enc_levels(view),
        decreases n - i,
    {
        proof {
            assert(view.skip(i as int).drop_first() =~= view.skip(i + 1));
            assert(view.skip(i as int).first() == view[i as int]);
        }
        let ghost pre = buf@;
        let it = &items[i];
        crate::wire::write_i32_be(buf, it.world_id);
        crate::wire::write_i32_be(buf, it.jiggy_cost);
        w_string(buf, &it.opened_by);
        crate::wire::write_i64_be(buf, it.timestamp);
        proof {
            assert(buf@ =~= pre + enc_level(view[i as int]));
            assert(pre + (enc_level(view[i as int]) + enc_levels(view.skip(i + 1))) =~= buf@ + enc_levels(
                view.skip(i + 1),
            ));
        }
        i = i + 1;
    }
    proof {
        assert(view.skip(n as int) =~= Seq::new(0, |k: int| view[k]));
        assert(enc_levels(view.skip(n as int)) =~= Seq::<u8>::empty());
        assert(final(buf)@ =~= old(buf)@ + u32_to_be_bytes(items@.len() as u32) + enc_levels(view));
    }
}

/// Appends the collected-honeycomb section: the count, then each record.
#[verifier::rlimit(100)]
#[verifier::spinoff_prover]
fn w_honeycombs(buf: &mut Vec<u8>, items: &Vec<crate::lobby::CollectedHoneycomb>)
    requires
        items@.len() <= u32::MAX,
        forall|i: int|
            0 <= i < items@.len() ==> vstd::utf8::encode_utf8(
                (#[trigger] items@[i])@.collected_by,
            ).len() <= u32::MAX,
    ensures
        final(buf)@ == old(buf)@ + u32_to_be_bytes(items@.len() as u32) + enc_honeycombs(
            Seq::new(items@.len(), |i: int| items@[i]@),
        ),
{
    let ghost view = Seq::new(items@.len(), |i: int| items@[i]@);
    crate::wire::write_u32_be(buf, items.len() as u32);
    let ghost base = buf@;
    let n = items.len();
    let mut i: usize = 0;
    proof {
        assert(view.skip(0) =~= view);
    }
    while i < n
        invariant
            n == items@.len(),
            view == Seq::new(items@.len(), |k: int| items@[k]@),
            forall|k: int|
                0 <= k < items@.len() ==> vstd::utf8::encode_utf8(
                    (#[trigger] items@[k])@.collected_by,
                ).len() <= u32::MAX,
            i <= n,
            buf@ + enc_honeycombs(view.skip(i as int)) =~= base + enc_honeycombs(view),
        decreases n - i,
    {
        proof {
            assert(view.skip(i as int).drop_first() =~= view.skip(i + 1));
            assert(view.skip(i as int).first() == view[i as int]);
        }
        let ghost pre = buf@;
        let it = &items[i];
        crate::wire::write_i32_be(buf, it.map_id);
        crate::wire::write_i32_be(buf, it.honeycomb_id);
        crate::wire::write_i32_be(buf, it.x);
        crate::wire::write_i32_be(buf, it.y);
        crate::wire::write_i32_be(buf, it.z);
        w_string(buf, &it.collected_by);
        crate::wire::write_i64_be(buf, it.timestamp);
        proof {
            assert(buf@ =~= pre + enc_honeycomb(view[i as int]));
            assert(pre + (enc_honeycomb(view[i as int]) + enc_honeycombs(view.skip(i + 1))) =~= buf@ + enc_honeycombs(
                view.skip(i + 1),
            ));
        }
        i = i + 1;
    }
    proof {
        assert(view.skip(n as int) =~= Seq::new(0, |k: int| view[k]));
        assert(enc_honeycombs(view.skip(n as int)) =~= Seq::<u8>::empty());
        assert(final(buf)@ =~= old(buf)@ + u32_to_be_bytes(items@.len() as u32) + enc_honeycombs(view));
    }
}

/// Appends the collected-token section: the count, then each record.
#[verifier::rlimit(100)]
#[verifier::spinoff_prover]
fn w_tokens(buf: &mut Vec<u8>, items: &Vec<crate::lobby::CollectedMumboToken>)
    requires
        items@.len() <= u32::MAX,
        forall|i: int|
            0 <= i < items@.len() ==> vstd::utf8::encode_utf8(
                (#[trigger] items@[i])@.collected_by,
            ).len() <= u32::MAX,
    ensures
        final(buf)@ == old(buf)@ + u32_to_be_bytes(items@.len() as u32) + enc_tokens(
            Seq::new(items@.len(), |i: int| items@[i]@),
        ),
{
    let ghost view = Seq::new(items@.len(), |i: int| items@[i]@);
    crate::wire::write_u32_be(buf, items.len() as u32);
    let ghost base = buf@;
    let n = items.len();
    let mut i: usize = 0;
    proof {
        assert(view.skip(0) =~= view);
    }
    while i < n
        invariant
            n == items@.len(),
            view == Seq::new(items@.len(), |k: int| items@[k]@),
            forall|k: int|
                0 <= k < items@.len() ==> vstd::utf8::encode_utf8(
                    (#[trigger] items@[k])@.collected_by,
                ).len() <= u32::MAX,
            i <= n,
            buf@ + enc_tokens(view.skip(i as int)) =~= base + enc_tokens(view),
        decreases n - i,
    {
        proof {
            assert(view.skip(i as int).drop_first() =~= view.skip(i + 1));
            assert(view.skip(i as int).first() == view[i as int]);
        }
        let ghost pre = buf@;
        let it = &items[i];
        crate::wire::write_i32_be(buf, it.map_id);
        crate::wire::write_i32_be(buf, it.token_id);
        crate::wire::write_i32_be(buf, it.x);
        crate::wire::write_i32_be(buf, it.y);
        crate::wire::write_i32_be(buf, it.z);
        w_string(buf, &it.collected_by);
        crate::wire::write_i64_be(buf, it.timestamp);
        proof {
            assert(buf@ =~= pre + enc_token(view[i as int]));
            assert(pre + (enc_token(view[i as int]) + enc_tokens(view.skip(i + 1))) =~= buf@ + enc_tokens(
                view.skip(i + 1),
            ));
        }
        i = i + 1;
    }
    proof {
        assert(view.skip(n as int) =~= Seq::new(0, |k: int| view[k]));
        assert(enc_tokens(view.skip(n as int)) =~= Seq::<u8>::empty());
        assert(final(buf)@ =~= old(buf)@ + u32_to_be_bytes(items@.len() as u32) + enc_tokens(view));
    }
}

/// Appends the savefile section.
#[verifier::rlimit(100)]
#[verifier::spinoff_prover]
fn w_save_flags(buf: &mut Vec<u8>, sf: &crate::lobby::SaveFlags)
    requires
        sf@.cheat_flags.len() <= u32::MAX,
        sf@.game_flags.len() <= u32::MAX,
        sf@.honeycomb_flags.len() <= u32::MAX,
        sf@.jiggy_flags.len() <= u32::MAX,
        sf@.token_flags.len() <= u32::MAX,
        sf@.note_totals.len() <= u32::MAX,
        sf@.puzzles_completed.len() <= u32::MAX,
        sf@.file_progress_flags.len() <= u32::MAX,
        sf@.ability_progress.len() <= u32::MAX,
        sf@.honeycomb_score.len() <= u32::MAX,
        sf@.mumbo_score.len() <= u32::MAX,
        sf@.note_save_data.len() <= u32::MAX,
        forall|i: int|
            0 <= i < sf@.note_save_data.len() ==> (#[trigger] sf@.note_save_data[i]).len()
                <= u32::MAX,
    ensures
        final(buf)@ == old(buf)@ + enc_save_flags(sf@),
{
    w_bytes(buf, &sf.cheat_flags);
    w_bytes(buf, &sf.game_flags);
    w_bytes(buf, &sf.honeycomb_flags);
    w_bytes(buf, &sf.jiggy_flags);
    w_bytes(buf, &sf.token_flags);
    w_bytes(buf, &sf.note_totals);
    w_bytes(buf, &sf.puzzles_completed);
    crate::wire::write_u32_be(buf, sf.level_events);
    w_bytes(buf, &sf.file_progress_flags);
    crate::wire::write_u32_be(buf, sf.moves);
    w_bytes(buf, &sf.ability_progress);
    w_bytes(buf, &sf.honeycomb_score);
    w_bytes(buf, &sf.mumbo_score);
    crate::wire::write_u32_be(buf, sf.note_save_data.len() as u32);
    let ghost view = sf@.note_save_data;
    let ghost base = buf@;
    let n = sf.note_save_data.len();
    let mut i: usize = 0;
    proof {
        assert(view.skip(0) =~= view);
    }
    while i < n
        invariant
            n == sf@.note_save_data.len(),
            view == sf@.note_save_data,
            forall|k: int| 0 <= k < view.len() ==> (#[trigger] view[k]).len() <= u32::MAX,
            i <= n,
            buf@ + enc_slots(view.skip(i as int)) =~= base + enc_slots(view),
        decreases n - i,
    {
        proof {
            assert(view.skip(i as int).drop_first() =~= view.skip(i + 1));
            assert(view.skip(i as int).first() == view[i as int]);
        }
        let ghost pre = buf@;
        w_bytes(buf, &sf.note_save_data[i]);
        proof {
            assert(buf@ =~= pre + enc_bytes(view[i as int]));
            assert(pre + (enc_bytes(view[i as int]) + enc_slots(view.skip(i + 1))) =~= buf@
                + enc_slots(view.skip(i + 1)));
        }
        i = i + 1;
    }
    proof {
        assert(view.skip(n as int) =~= Seq::<Seq<u8>>::empty());
        assert(enc_slots(view.skip(n as int)) =~= Seq::<u8>::empty());
        assert(final(buf)@ =~= old(buf)@ + enc_save_flags(sf@));
    }
}

/// Encodes a lobby into its snapshot bytes, exactly as
/// [`spec_snapshot_bytes`] lays them out.
#[verifier::rlimit(100)]
#[verifier::spinoff_prover]
pub fn snapshot_encode(lobby: &crate::lobby::Lobby) -> (r: Vec<u8>)
    requires
        snapshot_bounded(lobby@),
    ensures
        r@ == spec_snapshot_bytes(lobby@),
{
    let mut buf: Vec<u8> = Vec::new();
    w_string(&mut buf, &lobby.name);
    w_string(&mut buf, &lobby.password);
    crate::wire::write_i64_be(&mut buf, lobby.created_at);
    crate::wire::write_i64_be(&mut buf, lobby.last_activity);
    w_bool(&mut buf, lobby.has_initial_save_data);
    proof {
        assert forall|i: int| 0 <= i < lobby.collected_notes@.len() implies vstd::utf8::encode_utf8(
            (#[trigger] lobby.collected_notes@[i])@.collected_by,
        ).len() <= u32::MAX by {
            assert(lobby@.collected_notes[i] == lobby.collected_notes@[i]@);
        }
        assert forall|i: int|
            0 <= i < lobby.collected_jiggies@.len() implies vstd::utf8::encode_utf8(
            (#[trigger] lobby.collected_jiggies@[i])@.collected_by,
        ).len() <= u32::MAX by {
            assert(lobby@.collected_jiggies[i] == lobby.collected_jiggies@[i]@);
        }
        assert forall|i: int| 0 <= i < lobby.opened_levels@.len() implies vstd::utf8::encode_utf8(
            (#[trigger] lobby.opened_levels@[i])@.opened_by,
        ).len() <= u32::MAX by {
            assert(lobby@.opened_levels[i] == lobby.opened_levels@[i]@);
        }
        assert forall|i: int|
            0 <= i < lobby.collected_honeycombs@.len() implies vstd::utf8::encode_utf8(
            (#[trigger] lobby.collected_honeycombs@[i])@.collected_by,
        ).len() <= u32::MAX by {
            assert(lobby@.collected_honeycombs[i] == lobby.collected_honeycombs@[i]@);
        }
        assert forall|i: int|
            0 <= i < lobby.collected_mumbo_tokens@.len() implies vstd::utf8::encode_utf8(
            (#[trigger] lobby.collected_mumbo_tokens@[i])@.collected_by,
        ).len() <= u32::MAX by {
            assert(lobby@.collected_mumbo_tokens[i] == lobby.collected_mumbo_tokens@[i]@);
        }
    }
    w_notes(&mut buf, &lobby.collected_notes);
    w_jiggies(&mut buf, &lobby.collected_jiggies);
    w_levels(&mut buf, &lobby.opened_levels);
    w_honeycombs(&mut buf, &lobby.collected_honeycombs);
    w_tokens(&mut buf, &lobby.collected_mumbo_tokens);
    w_save_flags(&mut buf, &lobby.save_flags);
    proof {
        assert(Seq::new(lobby.collected_notes@.len(), |i: int| lobby.collected_notes@[i]@)
            =~= lobby@.collected_notes);
        assert(Seq::new(lobby.collected_jiggies@.len(), |i: int| lobby.collected_jiggies@[i]@)
            =~= lobby@.collected_jiggies);
        assert(Seq::new(lobby.opened_levels@.len(), |i: int| lobby.opened_levels@[i]@)
            =~= lobby@.opened_levels);
        assert(Seq::new(
            lobby.collected_honeycombs@.len(),
            |i: int| lobby.collected_honeycombs@[i]@,
        ) =~= lobby@.collected_honeycombs);
        assert(Seq::new(
            lobby.collected_mumbo_tokens@.len(),
            |i: int| lobby.collected_mumbo_tokens@[i]@,
        ) =~= lobby@.collected_mumbo_tokens);
        assert(buf@ =~= spec_snapshot_bytes(lobby@));
    }
    buf
}


/// Reads a big-endian u32 off the front, yielding the remainder.
fn p_u32(data: &[u8]) -> (r: Option<(u32, &[u8])>)
    ensures
        match r {
            Some(p) => sp_u32(data@) == Some((p.0, p.1@)),
            None => sp_u32(data@) is None,
        },
{
    match crate::wire::read_u32_be(data, 0) {
        Ok(v) => {
            let rest = vstd::slice::slice_subrange(data, 4, data.len());
            proof {
                assert(data@.take(4) =~= data@.subrange(0, 4));
                assert(rest@ =~= data@.skip(4));
            }
            Some((v, rest))
        },
        Err(_) => None,
    }
}

/// Reads a big-endian i32 off the front, yielding the remainder.
fn p_i32(data: &[u8]) -> (r: Option<(i32, &[u8])>)
    ensures
        match r {
            Some(p) => sp_i32(data@) == Some((p.0, p.1@)),
            None => sp_i32(data@) is None,
        },
{
    match crate::wire::read_i32_be(data, 0) {
        Ok(v) => {
            let rest = vstd::slice::slice_subrange(data, 4, data.len());
            proof {
                assert(data@.take(4) =~= data@.subrange(0, 4));
                assert(rest@ =~= data@.skip(4));
            }
            Some((v, rest))
        },
        Err(_) => None,
    }
}

/// Reads a big-endian i64 off the front, yielding the remainder.
fn p_i64(data: &[u8]) -> (r: Option<(i64, &[u8])>)
    ensures
        match r {
            Some(p) => sp_i64(data@) == Some((p.0, p.1@)),
            None => sp_i64(data@) is None,
        },
{
    match crate::wire::read_u64_be(data, 0) {
        Ok(v) => {
            let rest = vstd::slice::slice_subrange(data, 8, data.len());
            proof {
                assert(data@.take(8) =~= data@.subrange(0, 8));
                assert(rest@ =~= data@.skip(8));
            }
            Some((v as i64, rest))
        },
        Err(_) => None,
    }
}

/// Reads a little-endian i16 off the front, yielding the remainder.
fn p_i16(data: &[u8]) -> (r: Option<(i16, &[u8])>)
    ensures
        match r {
            Some(p) => sp_i16(data@) == Some((p.0, p.1@)),
            None => sp_i16(data@) is None,
        },
{
    match crate::wire::read_i16_le(data, 0) {
        Ok(v) => {
            let rest = vstd::slice::slice_subrange(data, 2, data.len());
            proof {
                assert(data@.take(2) =~= data@.subrange(0, 2));
                assert(rest@ =~= data@.skip(2));
            }
            Some((v, rest))
        },
        Err(_) => None,
    }
}

/// Reads a one-byte boolean off the front, yielding the remainder.
fn p_bool(data: &[u8]) -> (r: Option<(bool, &[u8])>)
    ensures
        match r {
            Some(p) => sp_bool(data@) == Some((p.0, p.1@)),
            None => sp_bool(data@) is None,
        },
{
    if data.len() < 1 {
        return None;
    }
    let v = data[0] != 0;
    let rest = vstd::slice::slice_subrange(data, 1, data.len());
    proof {
        assert(rest@ =~= data@.skip(1));
    }
    Some((v, rest))
}

/// Reads a length-prefixed byte field off the front, yielding the
/// remainder.
fn p_bytes(data: &[u8]) -> (r: Option<(Vec<u8>, &[u8])>)
    ensures
        match r {
            Some(p) => sp_bytes(data@) == Some((p.0@, p.1@)),
            None => sp_bytes(data@) is None,
        },
{
    let (n_u32, after) = match p_u32(data) {
        Some(p) => p,
        None => {
            return None;
        },
    };
    let n = n_u32 as usize;
    if after.len() < n {
        return None;
    }
    let field = vstd::slice::slice_to_vec(vstd::slice::slice_subrange(after, 0, n));
    let rest = vstd::slice::slice_subrange(after, n, after.len());
    proof {
        assert(field@ =~= after@.take(n as int));
        assert(rest@ =~= after@.skip(n as int));
    }
    Some((field, rest))
}

/// Reads a length-prefixed UTF-8 string field off the front, yielding the
/// remainder.
fn p_string(data: &[u8]) -> (r: Option<(String, &[u8])>)
    ensures
        match r {
            Some(p) => sp_string(data@) == Some((p.0@, p.1@)),
            None => sp_string(data@) is None,
        },
{
    let (field, rest) = match p_bytes(data) {
        Some(p) => p,
        None => {
            return None;
        },
    };
    match crate::wire::string_from_utf8(field) {
        Some(s) => {
            proof {
                vstd::utf8::encode_utf8_decode_utf8(s@);
            }
            Some((s, rest))
        },
        None => None,
    }
}

/// Reads one collected-note record off the front, yielding the remainder.
fn p_note(data: &[u8]) -> (r: Option<(crate::lobby::CollectedNote, &[u8])>)
    ensures
        match r {
            Some(p) => sp_note(data@) == Some((p.0@, p.1@)),
            None => sp_note(data@) is None,
        },
{
    let (map_id, d1) = match p_i32(data) {
        Some(p) => p,
        None => {
            return None;
        },
    };
    let (x, d2) = match p_i16(d1) {
        Some(p) => p,
        None => {
            return None;
        },
    };
    let (y, d3) = match p_i16(d2) {
        Some(p) => p,
        None => {
            return None;
        },
    };
    let (z, d4) = match p_i16(d3) {
        Some(p) => p,
        None => {
            return None;
        },
    };
    let (collected_by, d5) = match p_string(d4) {
        Some(p) => p,
        None => {
            return None;
        },
    };
    let (timestamp, d6) = match p_i64(d5) {
        Some(p) => p,
        None => {
            return None;
        },
    };
    Some((crate::lobby::CollectedNote { map_id, x, y, z, collected_by, timestamp }, d6))
}

/// Reads one collected-jiggy record off the front, yielding the remainder.
fn p_jiggy(data: &[u8]) -> (r: Option<(crate::lobby::CollectedJiggy, &[u8])>)
    ensures
        match r {
            Some(p) => sp_jiggy(data@) == Some((p.0@, p.1@)),
            None => sp_jiggy(data@) is None,
        },
{
    let (level_id, d1) = match p_i32(data) {
        Some(p) => p,
        None => {
            return None;
        },
    };
    let (jiggy_id, d2) = match p_i32(d1) {
        Some(p) => p,
        None => {
            return None;
        },
    };
    let (collected_by, d3) = match p_string(d2) {
        Some(p) => p,
        None => {
            return None;
        },
    };
    let (timestamp, d4) = match p_i64(d3) {
        Some(p) => p,
        None => {
            return None;
        },
    };
    Some((crate::lobby::CollectedJiggy { level_id, jiggy_id, collected_by, timestamp }, d4))
}

/// Reads one opened-level record off the front, yielding the remainder.
fn p_level(data: &[u8]) -> (r: Option<(crate::lobby::OpenedLevel, &[u8])>)
    ensures
        match r {
            Some(p) => sp_level(data@) == Some((p.0@, p.1@)),
            None => sp_level(data@) is None,
        },
{
    let (world_id, d1) = match p_i32(data) {
        Some(p) => p,
        None => {
            return None;
        },
    };
    let (jiggy_cost, d2) = match p_i32(d1) {
        Some(p) => p,
        None => {
            return None;
        },
    };
    let (opened_by, d3) = match p_string(d2) {
        Some(p) => p,
        None => {
            return None;
        },
    };
    let (timestamp, d4) = match p_i64(d3) {
        Some(p) => p,
        None => {
            return None;
        },
    };
    Some((crate::lobby::OpenedLevel { world_id, jiggy_cost, opened_by, timestamp }, d4))
}

/// Reads one collected-honeycomb record off the front, yielding the remainder.
fn p_honeycomb(data: &[u8]) -> (r: Option<(crate::lobby::CollectedHoneycomb, &[u8])>)
    ensures
        match r {
            Some(p) => sp_honeycomb(data@) == Some((p.0@, p.1@)),
            None => sp_honeycomb(data@) is None,
        },
{
    let (map_id, d1) = match p_i32(data) {
        Some(p) => p,
        None => {
            return None;
        },
    };
    let (honeycomb_id, d2) = match p_i32(d1) {
        Some(p) => p,
        None => {
            return None;
        },
    };
    let (x, d3) = match p_i32(d2) {
        Some(p) => p,
        None => {
            return None;
        },
    };
    let (y, d4) = match p_i32(d3) {
        Some(p) => p,
        None => {
            return None;
        },
    };
    let (z, d5) = match p_i32(d4) {
        Some(p) => p,
        None => {
            return None;
        },
    };
    let (collected_by, d6) = match p_string(d5) {
        Some(p) => p,
        None => {
            return None;
        },
    };
    let (timestamp, d7) = match p_i64(d6) {
        Some(p) => p,
        None => {
            return None;
        },
    };
    Some(
        (
            crate::lobby::CollectedHoneycomb { map_id, honeycomb_id, x, y, z, collected_by, timestamp },
            d7,
        ),
    )
}

/// Reads one collected-token record off the front, yielding the remainder.
fn p_token(data: &[u8]) -> (r: Option<(crate::lobby::CollectedMumboToken, &[u8])>)
    ensures
        match r {
            Some(p) => sp_token(data@) == Some((p.0@, p.1@)),
            None => sp_token(data@) is None,
        },
{
    let (map_id, d1) = match p_i32(data) {
        Some(p) => p,
        None => {
            return None;
        },
    };
    let (token_id, d2) = match p_i32(d1) {
        Some(p) => p,
        None => {
            return None;
        },
    };
    let (x, d3) = match p_i32(d2) {
        Some(p) => p,
        None => {
            return None;
        },
    };
    let (y, d4) = match p_i32(d3) {
        Some(p) => p,
        None => {
            return None;
        },
    };
    let (z, d5) = match p_i32(d4) {
        Some(p) => p,
        None => {
            return None;
        },
    };
    let (collected_by, d6) = match p_string(d5) {
        Some(p) => p,
        None => {
            return None;
        },
    };
    let (timestamp, d7) = match p_i64(d6) {
        Some(p) => p,
        None => {
            return None;
        },
    };
    Some(
        (
            crate::lobby::CollectedMumboToken { map_id, token_id, x, y, z, collected_by, timestamp },
            d7,
        ),
    )
}

/// Reads `k` collected-note records off the front, yielding the remainder.
#[verifier::rlimit(100)]
#[verifier::spinoff_prover]
fn p_notes(data: &[u8], k: u32) -> (r: Option<(Vec<crate::lobby::CollectedNote>, &[u8])>)
    ensures
        match r {
            Some(p) => sp_notes(data@, k as nat) == Some(
                (Seq::new(p.0@.len(), |i: int| p.0@[i]@), p.1@),
            ),
            None => sp_notes(data@, k as nat) is None,
        },
{
    let mut acc: Vec<crate::lobby::CollectedNote> = Vec::new();
    let mut rem: &[u8] = data;
    let mut i: u32 = 0;
    while i < k
        invariant
            i <= k,
            sp_notes(rem@, (k - i) as nat) matches Some(q) ==> sp_notes(data@, k as nat)
                == Some((Seq::new(acc@.len(), |j: int| acc@[j]@) + q.0, q.1)),
            sp_notes(rem@, (k - i) as nat) is None ==> sp_notes(data@, k as nat) is None,
        decreases k - i,
    {
        let ghost prev = Seq::new(acc@.len(), |j: int| acc@[j]@);
        let (item, next) = match p_note(rem) {
            Some(p) => p,
            None => {
                proof {
                    assert(sp_notes(rem@, (k - i) as nat) is None);
                }
                return None;
            },
        };
        acc.push(item);
        proof {
            assert(Seq::new(acc@.len(), |j: int| acc@[j]@) =~= prev.push(item@));
        }
        rem = next;
        i = i + 1;
        proof {
            let post = sp_notes(rem@, (k - i) as nat);
            if post is Some {
                let q0 = (post->0).0;
                let q1 = (post->0).1;
                assert(sp_notes(data@, k as nat) == Some((prev + (seq![item@] + q0), q1)));
                assert(prev + (seq![item@] + q0) =~= Seq::new(acc@.len(), |j: int| acc@[j]@) + q0);
            }
        }
    }
    proof {
        assert(sp_notes(rem@, 0) == Some::<(Seq<crate::lobby::NoteV>, Seq<u8>)>(
            (Seq::empty(), rem@),
        ));
        assert(Seq::new(acc@.len(), |j: int| acc@[j]@) + Seq::<crate::lobby::NoteV>::empty()
            =~= Seq::new(acc@.len(), |j: int| acc@[j]@));
    }
    Some((acc, rem))
}

/// Reads `k` collected-jiggy records off the front, yielding the remainder.
#[verifier::rlimit(100)]
#[verifier::spinoff_prover]
fn p_jiggies(data: &[u8], k: u32) -> (r: Option<(Vec<crate::lobby::CollectedJiggy>, &[u8])>)
    ensures
        match r {
            Some(p) => sp_jiggies(data@, k as nat) == Some(
                (Seq::new(p.0@.len(), |i: int| p.0@[i]@), p.1@),
            ),
            None => sp_jiggies(data@, k as nat) is None,
        },
{
    let mut acc: Vec<crate::lobby::CollectedJiggy> = Vec::new();
    let mut rem: &[u8] = data;
    let mut i: u32 = 0;
    while i < k
        invariant
            i <= k,
            sp_jiggies(rem@, (k - i) as nat) matches Some(q) ==> sp_jiggies(data@, k as nat)
                == Some((Seq::new(acc@.len(), |j: int| acc@[j]@) + q.0, q.1)),
            sp_jiggies(rem@, (k - i) as nat) is None ==> sp_jiggies(data@, k as nat) is None,
        decreases k - i,
    {
        let ghost prev = Seq::new(acc@.len(), |j: int| acc@[j]@);
        let (item, next) = match p_jiggy(rem) {
            Some(p) => p,
            None => {
                proof {
                    assert(sp_jiggies(rem@, (k - i) as nat) is None);
                }
                return None;
            },
        };
        acc.push(item);
        proof {
            assert(Seq::new(acc@.len(), |j: int| acc@[j]@) =~= prev.push(item@));
        }
        rem = next;
        i = i + 1;
        proof {
            let post = sp_jiggies(rem@, (k - i) as nat);
            if post is Some {
                let q0 = (post->0).0;
                let q1 = (post->0).1;
                assert(sp_jiggies(data@, k as nat) == Some((prev + (seq![item@] + q0), q1)));
                assert(prev + (seq![item@] + q0) =~= Seq::new(acc@.len(), |j: int| acc@[j]@) + q0);
            }
        }
    }
    proof {
        assert(sp_jiggies(rem@, 0) == Some::<(Seq<crate::lobby::JiggyV>, Seq<u8>)>(
            (Seq::empty(), rem@),
        ));
        assert(Seq::new(acc@.len(), |j: int| acc@[j]@) + Seq::<crate::lobby::JiggyV>::empty()
            =~= Seq::new(acc@.len(), |j: int| acc@[j]@));
    }
    Some((acc, rem))
}

/// Reads `k` opened-level records off the front, yielding the remainder.
#[verifier::rlimit(100)]
#[verifier::spinoff_prover]
fn p_levels(data: &[u8], k: u32) -> (r: Option<(Vec<crate::lobby::OpenedLevel>, &[u8])>)
    ensures
        match r {
            Some(p) => sp_levels(data@, k as nat) == Some(
                (Seq::new(p.0@.len(), |i: int| p.0@[i]@), p.1@),
            ),
            None => sp_levels(data@, k as nat) is None,
        },
{
    let mut acc: Vec<crate::lobby::OpenedLevel> = Vec::new();
    let mut rem: &[u8] = data;
    let mut i: u32 = 0;
    while i < k
        invariant
            i <= k,
            sp_levels(rem@, (k - i) as nat) matches Some(q) ==> sp_levels(data@, k as nat)
                == Some((Seq::new(acc@.len(), |j: int| acc@[j]@) + q.0, q.1)),
            sp_levels(rem@, (k - i) as nat) is None ==> sp_levels(data@, k as nat) is None,
        decreases k - i,
    {
        let ghost prev = Seq::new(acc@.len(), |j: int| acc@[j]@);
        let (item, next) = match p_level(rem) {
            Some(p) => p,
            None => {
                proof {
                    assert(sp_levels(rem@, (k - i) as nat) is None);
                }
                return None;
            },
        };
        acc.push(item);
        proof {
            assert(Seq::new(acc@.len(), |j: int| acc@[j]@) =~= prev.push(item@));
        }
        rem = next;
        i = i + 1;
        proof {
            let post = sp_levels(rem@, (k - i) as nat);
            if post is Some {
                let q0 = (post->0).0;
                let q1 = (post->0).1;
                assert(sp_levels(data@, k as nat) == Some((prev + (seq![item@] + q0), q1)));
                assert(prev + (seq![item@] + q0) =~= Seq::new(acc@.len(), |j: int| acc@[j]@) + q0);
            }
        }
    }
    proof {
        assert(sp_levels(rem@, 0) == Some::<(Seq<crate::lobby::OpenedLevelV>, Seq<u8>)>(
            (Seq::empty(), rem@),
        ));
        assert(Seq::new(acc@.len(), |j: int| acc@[j]@) + Seq::<crate::lobby::OpenedLevelV>::empty()
            =~= Seq::new(acc@.len(), |j: int| acc@[j]@));
    }
    Some((acc, rem))
}

/// Reads `k` collected-honeycomb records off the front, yielding the remainder.
#[verifier::rlimit(100)]
#[verifier::spinoff_prover]
fn p_honeycombs(data: &[u8], k: u32) -> (r: Option<(Vec<crate::lobby::CollectedHoneycomb>, &[u8])>)
    ensures
        match r {
            Some(p) => sp_honeycombs(data@, k as nat) == Some(
                (Seq::new(p.0@.len(), |i: int| p.0@[i]@), p.1@),
            ),
            None => sp_honeycombs(data@, k as nat) is None,
        },
{
    let mut acc: Vec<crate::lobby::CollectedHoneycomb> = Vec::new();
    let mut rem: &[u8] = data;
    let mut i: u32 = 0;
    while i < k
        invariant
            i <= k,
            sp_honeycombs(rem@, (k - i) as nat) matches Some(q) ==> sp_honeycombs(data@, k as nat)
                == Some((Seq::new(acc@.len(), |j: int| acc@[j]@) + q.0, q.1)),
            sp_honeycombs(rem@, (k - i) as nat) is None ==> sp_honeycombs(data@, k as nat) is None,
        decreases k - i,
    {
        let ghost prev = Seq::new(acc@.len(), |j: int| acc@[j]@);
        let (item, next) = match p_honeycomb(rem) {
            Some(p) => p,
            None => {
                proof {
                    assert(sp_honeycombs(rem@, (k - i) as nat) is None);
                }
                return None;
            },
        };
        acc.push(item);
        proof {
            assert(Seq::new(acc@.len(), |j: int| acc@[j]@) =~= prev.push(item@));
        }
        rem = next;
        i = i + 1;
        proof {
            let post = sp_honeycombs(rem@, (k - i) as nat);
            if post is Some {
                let q0 = (post->0).0;
                let q1 = (post->0).1;
                assert(sp_honeycombs(data@, k as nat) == Some((prev + (seq![item@] + q0), q1)));
                assert(prev + (seq![item@] + q0) =~= Seq::new(acc@.len(), |j: int| acc@[j]@) + q0);
            }
        }
    }
    proof {
        assert(sp_honeycombs(rem@, 0) == Some::<(Seq<crate::lobby::HoneycombV>, Seq<u8>)>(
            (Seq::empty(), rem@),
        ));
        assert(Seq::new(acc@.len(), |j: int| acc@[j]@) + Seq::<crate::lobby::HoneycombV>::empty()
            =~= Seq::new(acc@.len(), |j: int| acc@[j]@));
    }
    Some((acc, rem))
}

/// Reads `k` collected-token records off the front, yielding the remainder.
#[verifier::rlimit(100)]
#[verifier::spinoff_prover]
fn p_tokens(data: &[u8], k: u32) -> (r: Option<(Vec<crate::lobby::CollectedMumboToken>, &[u8])>)
    ensures
        match r {
            Some(p) => sp_tokens(data@, k as nat) == Some(
                (Seq::new(p.0@.len(), |i: int| p.0@[i]@), p.1@),
            ),
            None => sp_tokens(data@, k as nat) is None,
        },
{
    let mut acc: Vec<crate::lobby::CollectedMumboToken> = Vec::new();
    let mut rem: &[u8] = data;
    let mut i: u32 = 0;
    while i < k
        invariant
            i <= k,
            sp_tokens(rem@, (k - i) as nat) matches Some(q) ==> sp_tokens(data@, k as nat)
                == Some((Seq::new(acc@.len(), |j: int| acc@[j]@) + q.0, q.1)),
            sp_tokens(rem@, (k - i) as nat) is None ==> sp_tokens(data@, k as nat) is None,
        decreases k - i,
    {
        let ghost prev = Seq::new(acc@.len(), |j: int| acc@[j]@);
        let (item, next) = match p_token(rem) {
            Some(p) => p,
            None => {
                proof {
                    assert(sp_tokens(rem@, (k - i) as nat) is None);
                }
                return None;
            },
        };
        acc.push(item);
        proof {
            assert(Seq::new(acc@.len(), |j: int| acc@[j]@) =~= prev.push(item@));
        }
        rem = next;
        i = i + 1;
        proof {
            let post = sp_tokens(rem@, (k - i) as nat);
            if post is Some {
                let q0 = (post->0).0;
                let q1 = (post->0).1;
                assert(sp_tokens(data@, k as nat) == Some((prev + (seq![item@] + q0), q1)));
                assert(prev + (seq![item@] + q0) =~= Seq::new(acc@.len(), |j: int| acc@[j]@) + q0);
            }
        }
    }
    proof {
        assert(sp_tokens(rem@, 0) == Some::<(Seq<crate::lobby::MumboTokenV>, Seq<u8>)>(
            (Seq::empty(), rem@),
        ));
        assert(Seq::new(acc@.len(), |j: int| acc@[j]@) + Seq::<crate::lobby::MumboTokenV>::empty()
            =~= Seq::new(acc@.len(), |j: int| acc@[j]@));
    }
    Some((acc, rem))
}

/// Reads `k` note slots off the front, yielding the remainder.
#[verifier::rlimit(100)]
#[verifier::spinoff_prover]
fn p_slots(data: &[u8], k: u32) -> (r: Option<(Vec<Vec<u8>>, &[u8])>)
    ensures
        match r {
            Some(p) => sp_slots(data@, k as nat) == Some(
                (Seq::new(p.0@.len(), |i: int| p.0@[i]@), p.1@),
            ),
            None => sp_slots(data@, k as nat) is None,
        },
{
    let mut acc: Vec<Vec<u8>> = Vec::new();
    let mut rem: &[u8] = data;
    let mut i: u32 = 0;
    while i < k
        invariant
            i <= k,
            sp_slots(rem@, (k - i) as nat) matches Some(q) ==> sp_slots(data@, k as nat) == Some(
                (Seq::new(acc@.len(), |j: int| acc@[j]@) + q.0, q.1),
            ),
            sp_slots(rem@, (k - i) as nat) is None ==> sp_slots(data@, k as nat) is None,
        decreases k - i,
    {
        let ghost prev = Seq::new(acc@.len(), |j: int| acc@[j]@);
        let (item, next) = match p_bytes(rem) {
            Some(p) => p,
            None => {
                proof {
                    assert(sp_slots(rem@, (k - i) as nat) is None);
                }
                return None;
            },
        };
        acc.push(item);
        proof {
            assert(Seq::new(acc@.len(), |j: int| acc@[j]@) =~= prev.push(acc@.last()@));
        }
        rem = next;
        i = i + 1;
        proof {
            let post = sp_slots(rem@, (k - i) as nat);
            if post is Some {
                let q0 = (post->0).0;
                let q1 = (post->0).1;
                assert(sp_slots(data@, k as nat) == Some((prev + (seq![acc@.last()@] + q0), q1)));
                assert(prev + (seq![acc@.last()@] + q0) =~= Seq::new(acc@.len(), |j: int| acc@[j]@)
                    + q0);
            }
        }
    }
    proof {
        assert(sp_slots(rem@, 0) == Some::<(Seq<Seq<u8>>, Seq<u8>)>((Seq::empty(), rem@)));
        assert(Seq::new(acc@.len(), |j: int| acc@[j]@) + Seq::<Seq<u8>>::empty() =~= Seq::new(
            acc@.len(),
            |j: int| acc@[j]@,
        ));
    }
    Some((acc, rem))
}

/// Reads the savefile section off the front, yielding the remainder.
#[verifier::rlimit(100)]
#[verifier::spinoff_prover]
fn p_save_flags(data: &[u8]) -> (r: Option<(crate::lobby::SaveFlags, &[u8])>)
    ensures
        match r {
            Some(p) => sp_save_flags(data@) == Some((p.0@, p.1@)),
            None => sp_save_flags(data@) is None,
        },
{
    proof {
        reveal(sp_save_flags);
    }
    let (cheat_flags, d1) = match p_bytes(data) {
        Some(p) => p,
        None => {
            return None;
        },
    };
    let (game_flags, d2) = match p_bytes(d1) {
        Some(p) => p,
        None => {
            return None;
        },
    };
    let (honeycomb_flags, d3) = match p_bytes(d2) {
        Some(p) => p,
        None => {
            return None;
        },
    };
    let (jiggy_flags, d4) = match p_bytes(d3) {
        Some(p) => p,
        None => {
            return None;
        },
    };
    let (token_flags, d5) = match p_bytes(d4) {
        Some(p) => p,
        None => {
            return None;
        },
    };
    let (note_totals, d6) = match p_bytes(d5) {
        Some(p) => p,
        None => {
            return None;
        },
    };
    let (puzzles_completed, d7) = match p_bytes(d6) {
        Some(p) => p,
        None => {
            return None;
        },
    };
    let (level_events, d8) = match p_u32(d7) {
        Some(p) => p,
        None => {
            return None;
        },
    };
    let (file_progress_flags, d9) = match p_bytes(d8) {
        Some(p) => p,
        None => {
            return None;
        },
    };
    let (moves, d10) = match p_u32(d9) {
        Some(p) => p,
        None => {
            return None;
        },
    };
    let (ability_progress, d11) = match p_bytes(d10) {
        Some(p) => p,
        None => {
            return None;
        },
    };
    let (honeycomb_score, d12) = match p_bytes(d11) {
        Some(p) => p,
        None => {
            return None;
        },
    };
    let (mumbo_score, d13) = match p_bytes(d12) {
        Some(p) => p,
        None => {
            return None;
        },
    };
    let (slot_count, d14) = match p_u32(d13) {
        Some(p) => p,
        None => {
            return None;
        },
    };
    let (note_save_data, d15) = match p_slots(d14, slot_count) {
        Some(p) => p,
        None => {
            return None;
        },
    };
    let sf = crate::lobby::SaveFlags {
        cheat_flags,
        game_flags,
        honeycomb_flags,
        jiggy_flags,
        token_flags,
        note_totals,
        puzzles_completed,
        level_events,
        file_progress_flags,
        moves,
        ability_progress,
        honeycomb_score,
        mumbo_score,
        note_save_data,
    };
    proof {
        assert(sf@.note_save_data =~= Seq::new(
            sf.note_save_data@.len(),
            |i: int| sf.note_save_data@[i]@,
        ));
        assert(sp_save_flags(data@) matches Some(q) && sf@ =~= q.0 && d15@ == q.1);
    }
    Some((sf, d15))
}

/// Decodes a snapshot back into a lobby state (with an empty roster),
/// exactly as [`sp_lobby`] parses it; trailing bytes are tolerated.
#[verifier::rlimit(100)]
#[verifier::spinoff_prover]
pub fn snapshot_decode(data: &[u8]) -> (r: Option<crate::lobby::Lobby>)
    ensures
        match r {
            Some(l) => sp_lobby(data@) matches Some(q) && l@ == q.0,
            None => sp_lobby(data@) is None,
        },
{
    proof {
        reveal(sp_lobby);
    }
    let (name, d1) = match p_string(data) {
        Some(p) => p,
        None => {
            return None;
        },
    };
    let (password, d2) = match p_string(d1) {
        Some(p) => p,
        None => {
            return None;
        },
    };
    let (created_at, d3) = match p_i64(d2) {
        Some(p) => p,
        None => {
            return None;
        },
    };
    let (last_activity, d4) = match p_i64(d3) {
        Some(p) => p,
        None => {
            return None;
        },
    };
    let (has_initial_save_data, d5) = match p_bool(d4) {
        Some(p) => p,
        None => {
            return None;
        },
    };
    let (note_count, d6) = match p_u32(d5) {
        Some(p) => p,
        None => {
            return None;
        },
    };
    let (collected_notes, d7) = match p_notes(d6, note_count) {
        Some(p) => p,
        None => {
            return None;
        },
    };
    let (jiggy_count, d8) = match p_u32(d7) {
        Some(p) => p,
        None => {
            return None;
        },
    };
    let (collected_jiggies, d9) = match p_jiggies(d8, jiggy_count) {
        Some(p) => p,
        None => {
            return None;
        },
    };
    let (level_count, d10) = match p_u32(d9) {
        Some(p) => p,
        None => {
            return None;
        },
    };
    let (opened_levels, d11) = match p_levels(d10, level_count) {
        Some(p) => p,
        None => {
            return None;
        },
    };
    let (hc_count, d12) = match p_u32(d11) {
        Some(p) => p,
        None => {
            return None;
        },
    };
    let (collected_honeycombs, d13) = match p_honeycombs(d12, hc_count) {
        Some(p) => p,
        None => {
            return None;
        },
    };
    let (tok_count, d14) = match p_u32(d13) {
        Some(p) => p,
        None => {
            return None;
        },
    };
    let (collected_mumbo_tokens, d15) = match p_tokens(d14, tok_count) {
        Some(p) => p,
        None => {
            return None;
        },
    };
    let (save_flags, _d16) = match p_save_flags(d15) {
        Some(p) => p,
        None => {
            return None;
        },
    };
    let lobby = crate::lobby::Lobby {
        name,
        password,
        created_at,
        last_activity,
        has_initial_save_data,
        players: Vec::new(),
        collected_notes,
        collected_jiggies,
        opened_levels,
        collected_honeycombs,
        collected_mumbo_tokens,
        save_flags,
    };
    proof {
        assert(sp_lobby(data@) matches Some(q) && lobby@ =~= q.0);
    }
    Some(lobby)
}

/// Encodes a lobby after checking the layout's size bounds at run time:
/// `None` exactly when some string, blob or count cannot fit its u32
/// length field (unreachable for states built over the wire's layouts).
#[verifier::rlimit(100)]
#[verifier::spinoff_prover]
pub fn snapshot_encode_checked(lobby: &crate::lobby::Lobby) -> (r: Option<Vec<u8>>)
    ensures
        match r {
            Some(bytes) => snapshot_bounded(lobby@) && bytes@ == spec_snapshot_bytes(lobby@),
            None => !snapshot_bounded(lobby@),
        },
{
    let max: usize = 0xffff_ffff;
    let name_bytes = vstd::slice::slice_to_vec(lobby.name.as_str().as_bytes());
    let password_bytes = vstd::slice::slice_to_vec(lobby.password.as_str().as_bytes());
    if name_bytes.len() > max || password_bytes.len() > max {
        return None;
    }
    if lobby.collected_notes.len() > max || lobby.collected_jiggies.len() > max
        || lobby.opened_levels.len() > max || lobby.collected_honeycombs.len() > max
        || lobby.collected_mumbo_tokens.len() > max {
        return None;
    }
    if lobby.save_flags.cheat_flags.len() > max || lobby.save_flags.game_flags.len() > max
        || lobby.save_flags.honeycomb_flags.len() > max || lobby.save_flags.jiggy_flags.len() > max
        || lobby.save_flags.token_flags.len() > max || lobby.save_flags.note_totals.len() > max
        || lobby.save_flags.puzzles_completed.len() > max
        || lobby.save_flags.file_progress_flags.len() > max
        || lobby.save_flags.ability_progress.len() > max
        || lobby.save_flags.honeycomb_score.len() > max || lobby.save_flags.mumbo_score.len() > max
        || lobby.save_flags.note_save_data.len() > max {
        return None;
    }
    let n1 = lobby.collected_notes.len();
    let mut i: usize = 0;
    while i < n1
        invariant
            max == 0xffff_ffff,
            n1 == lobby@.collected_notes.len(),
            i <= n1,
            forall|k: int|
                0 <= k < i ==> vstd::utf8::encode_utf8(
                    (#[trigger] lobby@.collected_notes[k]).collected_by,
                ).len() <= u32::MAX,
        decreases n1 - i,
    {
        let item = &lobby.collected_notes[i];
        let nb = vstd::slice::slice_to_vec(item.collected_by.as_str().as_bytes());
        proof {
            assert(lobby@.collected_notes[i as int] == lobby.collected_notes@[i as int]@);
            assert(nb@.len() == vstd::utf8::encode_utf8(lobby@.collected_notes[i as int].collected_by).len());
        }
        let nblen = nb.len();
        proof {
            assert(nblen == nb@.len());
        }
        if nblen > max {
            proof {
                assert(vstd::utf8::encode_utf8(lobby@.collected_notes[i as int].collected_by).len()
                    > u32::MAX);
                assert(!snapshot_bounded(lobby@));
            }
            return None;
        }
        i = i + 1;
    }
    let n2 = lobby.collected_jiggies.len();
    let mut i: usize = 0;
    while i < n2
        invariant
            max == 0xffff_ffff,
            n2 == lobby@.collected_jiggies.len(),
            i <= n2,
            forall|k: int|
                0 <= k < i ==> vstd::utf8::encode_utf8(
                    (#[trigger] lobby@.collected_jiggies[k]).collected_by,
                ).len() <= u32::MAX,
        decreases n2 - i,
    {
        let item = &lobby.collected_jiggies[i];
        let nb = vstd::slice::slice_to_vec(item.collected_by.as_str().as_bytes());
        proof {
            assert(lobby@.collected_jiggies[i as int] == lobby.collected_jiggies@[i as int]@);
            assert(nb@.len() == vstd::utf8::encode_utf8(lobby@.collected_jiggies[i as int].collected_by).len());
        }
        if nb.len() > max {
            proof {
                assert(vstd::utf8::encode_utf8(lobby@.collected_jiggies[i as int].collected_by).len()
                    > u32::MAX);
                assert(!snapshot_bounded(lobby@));
            }
            return None;
        }
        i = i + 1;
    }
    let n3 = lobby.opened_levels.len();
    let mut i: usize = 0;
    while i < n3
        invariant
            max == 0xffff_ffff,
            n3 == lobby@.opened_levels.len(),
            i <= n3,
            forall|k: int|
                0 <= k < i ==> vstd::utf8::encode_utf8(
                    (#[trigger] lobby@.opened_levels[k]).opened_by,
                ).len() <= u32::MAX,
        decreases n3 - i,
    {
        let item = &lobby.opened_levels[i];
        let nb = vstd::slice::slice_to_vec(item.opened_by.as_str().as_bytes());
        proof {
            assert(lobby@.opened_levels[i as int] == lobby.opened_levels@[i as int]@);
            assert(nb@.len() == vstd::utf8::encode_utf8(lobby@.opened_levels[i as int].opened_by).len());
        }
        if nb.len() > max {
            proof {
                assert(vstd::utf8::encode_utf8(lobby@.opened_levels[i as int].opened_by).len()
                    > u32::MAX);
                assert(!snapshot_bounded(lobby@));
            }
            return None;
        }
        i = i + 1;
    }
    let n4 = lobby.collected_honeycombs.len();
    let mut i: usize = 0;
    while i < n4
        invariant
            max == 0xffff_ffff,
            n4 == lobby@.collected_honeycombs.len(),
            i <= n4,
            forall|k: int|
                0 <= k < i ==> vstd::utf8::encode_utf8(
                    (#[trigger] lobby@.collected_honeycombs[k]).collected_by,
                ).len() <= u32::MAX,
        decreases n4 - i,
    {
        let item = &lobby.collected_honeycombs[i];
        let nb = vstd::slice::slice_to_vec(item.collected_by.as_str().as_bytes());
        proof {
            assert(lobby@.collected_honeycombs[i as int] == lobby.collected_honeycombs@[i as int]@);
            assert(nb@.len() == vstd::utf8::encode_utf8(lobby@.collected_honeycombs[i as int].collected_by).len());
        }
        if nb.len() > max {
            proof {
                assert(vstd::utf8::encode_utf8(lobby@.collected_honeycombs[i as int].collected_by).len()
                    > u32::MAX);
                assert(!snapshot_bounded(lobby@));
            }
            return None;
        }
        i = i + 1;
    }
    let n5 = lobby.collected_mumbo_tokens.len();
    let mut i: usize = 0;
    while i < n5
        invariant
            max == 0xffff_ffff,
            n5 == lobby@.collected_mumbo_tokens.len(),
            i <= n5,
            forall|k: int|
                0 <= k < i ==> vstd::utf8::encode_utf8(
                    (#[trigger] lobby@.collected_mumbo_tokens[k]).collected_by,
                ).len() <= u32::MAX,
        decreases n5 - i,
    {
        let item = &lobby.collected_mumbo_tokens[i];
        let nb = vstd::slice::slice_to_vec(item.collected_by.as_str().as_bytes());
        proof {
            assert(lobby@.collected_mumbo_tokens[i as int]
                == lobby.collected_mumbo_tokens@[i as int]@);
            assert(nb@.len() == vstd::utf8::encode_utf8(
                lobby@.collected_mumbo_tokens[i as int].collected_by,
            ).len());
        }
        if nb.len() > max {
            proof {
                assert(vstd::utf8::encode_utf8(
                    lobby@.collected_mumbo_tokens[i as int].collected_by,
                ).len() > u32::MAX);
                assert(!snapshot_bounded(lobby@));
            }
            return None;
        }
        i = i + 1;
    }
    let n6 = lobby.save_flags.note_save_data.len();
    let mut i: usize = 0;
    while i < n6
        invariant
            max == 0xffff_ffff,
            n6 == lobby@.save_flags.note_save_data.len(),
            i <= n6,
            forall|k: int|
                0 <= k < i ==> (#[trigger] lobby@.save_flags.note_save_data[k]).len() <= u32::MAX,
        decreases n6 - i,
    {
        if lobby.save_flags.note_save_data[i].len() > max {
            proof {
                assert(lobby@.save_flags.note_save_data[i as int].len() > u32::MAX);
            }
            return None;
        }
        i = i + 1;
    }
    Some(snapshot_encode(lobby))
}

} // verus!
