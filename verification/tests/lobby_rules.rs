use coop_server::lobby::Lobby;
use coop_server::lobby::SaveFlagKind;
use coop_server::lobby::SaveFlags;

fn fresh() -> Lobby {
    Lobby::new("L".to_string(), "".to_string(), 100)
}

#[test]
fn jiggy_dedup_first_arrival_order() {
    let mut l = fresh();
    let inputs = [(1, 1), (2, 2), (1, 1), (3, 3), (2, 2), (1, 1)];
    for (a, b) in inputs {
        l.add_collected_jiggy(a, b, "alice".to_string(), 5);
    }
    let keys: Vec<(i32, i32)> =
        l.collected_jiggies.iter().map(|j| (j.level_id, j.jiggy_id)).collect();
    assert_eq!(keys, vec![(1, 1), (2, 2), (3, 3)]);
}

#[test]
fn jiggy_dedup_returns_flag() {
    let mut l = fresh();
    assert!(l.add_collected_jiggy(5, 7, "alice".to_string(), 5));
    assert!(!l.add_collected_jiggy(5, 7, "bob".to_string(), 6));
    assert!(l.is_jiggy_collected(5, 7));
    assert!(!l.is_jiggy_collected(5, 8));
}

#[test]
fn note_proximity_ten_dedupes_eleven_does_not() {
    let mut l = fresh();
    assert!(l.add_collected_note(3, 100, 200, 300, "alice".to_string(), 5));
    // every axis differing by exactly ten: the same note
    assert!(!l.add_collected_note(3, 110, 210, 310, "alice".to_string(), 6));
    assert_eq!(l.collected_notes.len(), 1);
    // one axis differing by eleven: a new note
    assert!(l.add_collected_note(3, 111, 200, 300, "alice".to_string(), 7));
    assert_eq!(l.collected_notes.len(), 2);
    // a different map is always a new note
    assert!(l.add_collected_note(4, 100, 200, 300, "alice".to_string(), 8));
}

#[test]
fn note_proximity_all_axes_within() {
    let mut l = fresh();
    assert!(l.add_collected_note(3, 100, 200, 300, "a".to_string(), 1));
    assert!(!l.add_collected_note(3, 108, 208, 307, "a".to_string(), 2));
    assert_eq!(l.collected_notes.len(), 1);
}

#[test]
fn honeycomb_and_token_spaces_are_distinct() {
    let mut l = fresh();
    assert!(l.add_collected_honeycomb(1, 2, 0, 0, 0, "a".to_string(), 1));
    assert!(!l.add_collected_honeycomb(1, 2, 9, 9, 9, "b".to_string(), 2));
    assert!(l.add_collected_mumbo_token(1, 2, 0, 0, 0, "a".to_string(), 3));
    assert!(!l.add_collected_mumbo_token(1, 2, 0, 0, 0, "a".to_string(), 4));
    assert_eq!(l.collected_honeycombs.len(), 1);
    assert_eq!(l.collected_mumbo_tokens.len(), 1);
}

#[test]
fn level_dedup_by_world_only() {
    let mut l = fresh();
    assert!(l.add_opened_level(2, 10, 1));
    assert!(!l.add_opened_level(2, 99, 2));
    assert_eq!(l.opened_levels.len(), 1);
    assert_eq!(l.opened_levels[0].jiggy_cost, 10);
    assert_eq!(l.opened_levels[0].opened_by, "JiggyWiggy");
}

#[test]
fn merge_flags_is_bitwise_or() {
    let mut dest = vec![0b0001, 0b1000, 0xff];
    let changed = Lobby::merge_flags(&mut dest, &[0b0010, 0b1000, 0x0f]);
    assert!(changed);
    assert_eq!(dest, vec![0b0011, 0b1000, 0xff]);
    // merging the same bytes again changes nothing
    let changed2 = Lobby::merge_flags(&mut dest, &[0b0010, 0b1000, 0x0f]);
    assert!(!changed2);
    assert_eq!(dest, vec![0b0011, 0b1000, 0xff]);
}

#[test]
fn merge_never_clears_set_bits() {
    let a = vec![0b1010_0001u8, 0x80];
    let b = vec![0b0001_0010u8, 0x01];
    let c = vec![0b0000_0000u8, 0x00];
    let mut blob = a.clone();
    Lobby::merge_flags(&mut blob, &b);
    let after_ab = blob.clone();
    Lobby::merge_flags(&mut blob, &c);
    for i in 0..blob.len() {
        assert_eq!(blob[i] & after_ab[i], after_ab[i]);
        assert_eq!(after_ab[i] & a[i], a[i]);
        assert_eq!(after_ab[i], a[i] | b[i]);
    }
}

#[test]
fn merge_truncates_to_shorter_length() {
    let mut dest = vec![0u8, 0, 0];
    Lobby::merge_flags(&mut dest, &[0xff; 10]);
    assert_eq!(dest, vec![0xff, 0xff, 0xff]);
    let mut dest2 = vec![0u8, 0, 0];
    Lobby::merge_flags(&mut dest2, &[0x01]);
    assert_eq!(dest2, vec![0x01, 0, 0]);
}

#[test]
fn note_totals_use_per_byte_max() {
    let mut l = fresh();
    assert!(l.update_save_flags(SaveFlagKind::NoteTotals, &[5, 100, 2], 9));
    assert!(!l.update_save_flags(SaveFlagKind::NoteTotals, &[4, 100, 1], 10));
    assert_eq!(&l.save_flags.note_totals[..3], &[5, 100, 2]);
    assert!(l.update_save_flags(SaveFlagKind::NoteTotals, &[6, 0, 0], 11));
    assert_eq!(&l.save_flags.note_totals[..3], &[6, 100, 2]);
}

#[test]
fn update_save_flags_bumps_activity_only_on_change() {
    let mut l = fresh();
    assert_eq!(l.last_activity, 100);
    assert!(l.update_save_flags(SaveFlagKind::Cheat, &[1], 200));
    assert_eq!(l.last_activity, 200);
    assert!(!l.update_save_flags(SaveFlagKind::Cheat, &[1], 300));
    assert_eq!(l.last_activity, 200);
}

#[test]
fn note_save_data_bounds() {
    let mut l = fresh();
    assert!(!l.update_note_save_data(9, &[1u8; 32], 5));
    assert!(!l.update_note_save_data(0, &[1u8; 31], 5));
    assert!(l.update_note_save_data(0, &[1u8; 32], 5));
    assert_eq!(l.save_flags.note_save_data[0], vec![1u8; 32]);
    assert!(!l.update_note_save_data(0, &[1u8; 32], 6));
}

#[test]
fn save_flags_default_sizes() {
    let sf = SaveFlags::default();
    assert_eq!(sf.cheat_flags.len(), 0x19);
    assert_eq!(sf.game_flags.len(), 0x20);
    assert_eq!(sf.honeycomb_flags.len(), 0x03);
    assert_eq!(sf.jiggy_flags.len(), 0x0d);
    assert_eq!(sf.token_flags.len(), 0x10);
    assert_eq!(sf.note_totals.len(), 0x0f);
    assert_eq!(sf.puzzles_completed.len(), 11);
    assert_eq!(sf.file_progress_flags.len(), 0x25);
    assert_eq!(sf.ability_progress.len(), 8);
    assert_eq!(sf.honeycomb_score.len(), 0x03);
    assert_eq!(sf.mumbo_score.len(), 0x10);
    assert_eq!(sf.note_save_data.len(), 9);
    assert!(sf.note_save_data.iter().all(|s| s.len() == 32 && s.iter().all(|b| *b == 0)));
}

#[test]
fn roster_upsert_and_remove() {
    let mut l = fresh();
    l.add_player(1, "alice".to_string(), 200);
    assert_eq!(l.last_activity, 200);
    l.add_player(2, "bob".to_string(), 201);
    l.add_player(1, "alice2".to_string(), 202);
    assert_eq!(l.player_count(), 2);
    l.remove_player(1, 203);
    assert_eq!(l.player_count(), 1);
    assert_eq!(l.last_activity, 203);
    l.remove_player(99, 204);
    assert_eq!(l.player_count(), 1);
    assert_eq!(l.last_activity, 204);
}

#[test]
fn idle_measured_from_last_activity() {
    let l = fresh();
    assert!(!l.is_idle(60, 150));
    assert!(l.is_idle(60, 160));
    assert!(l.is_idle(1, 101));
}

#[test]
fn well_formed_checker() {
    let mut l = fresh();
    assert!(l.is_well_formed());
    l.add_collected_jiggy(1, 1, "a".to_string(), 1);
    assert!(l.is_well_formed());
    // force a duplicate key past the dedup rule
    l.collected_jiggies.push(l.collected_jiggies[0].clone());
    assert!(!l.is_well_formed());
}
