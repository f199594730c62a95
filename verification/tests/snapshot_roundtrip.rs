use coop_server::lobby::Lobby;
use coop_server::snapshot::snapshot_decode;
use coop_server::snapshot::snapshot_encode_checked;

fn populated() -> Lobby {
    let mut l = Lobby::new("L".to_string(), "hunter".to_string(), 100);
    l.add_collected_jiggy(5, 7, "alice".to_string(), 101);
    l.add_collected_jiggy(6, 8, "bob".to_string(), 102);
    l.add_collected_note(3, 100, 200, 300, "alice".to_string(), 103);
    l.add_collected_honeycomb(1, 2, 3, 4, 5, "bob".to_string(), 104);
    l.add_collected_mumbo_token(9, 8, 7, 6, 5, "carol".to_string(), 105);
    l.add_opened_level(2, 10, 106);
    l.update_file_progress_flags(&[0xaa; 0x25], 107);
    l.update_note_save_data(4, &[0x55; 32], 108);
    l.has_initial_save_data = true;
    l
}

#[test]
fn snapshot_round_trip_modulo_roster() {
    // Serialized and reloaded, a lobby equals the original except for
    // the live roster, which is never persisted.
    let mut l = populated();
    l.add_player(1, "alice".to_string(), 110);
    let bytes = snapshot_encode_checked(&l).unwrap();
    let back = snapshot_decode(&bytes).unwrap();
    assert_eq!(back.name, l.name);
    assert_eq!(back.password, l.password);
    assert_eq!(back.created_at, l.created_at);
    assert_eq!(back.last_activity, l.last_activity);
    assert_eq!(back.has_initial_save_data, l.has_initial_save_data);
    assert!(back.players.is_empty());
    assert_eq!(back.collected_jiggies.len(), 2);
    assert_eq!(back.collected_jiggies[0].level_id, l.collected_jiggies[0].level_id);
    assert_eq!(back.collected_jiggies[0].jiggy_id, l.collected_jiggies[0].jiggy_id);
    assert_eq!(back.collected_jiggies[0].collected_by, l.collected_jiggies[0].collected_by);
    assert_eq!(back.collected_jiggies[0].timestamp, l.collected_jiggies[0].timestamp);
    assert_eq!(back.collected_notes.len(), 1);
    assert_eq!(back.collected_notes[0].x, 100);
    assert_eq!(back.collected_honeycombs.len(), 1);
    assert_eq!(back.collected_honeycombs[0].collected_by, "bob");
    assert_eq!(back.collected_mumbo_tokens.len(), 1);
    assert_eq!(back.opened_levels.len(), 1);
    assert_eq!(back.opened_levels[0].opened_by, "JiggyWiggy");
    assert_eq!(back.save_flags.file_progress_flags, l.save_flags.file_progress_flags);
    assert_eq!(back.save_flags.note_save_data[4], vec![0x55; 32]);
    assert_eq!(back.save_flags.note_totals, l.save_flags.note_totals);
    assert!(back.is_well_formed());
}

#[test]
fn snapshot_round_trip_fresh_lobby() {
    let l = Lobby::new("empty".to_string(), "".to_string(), 7);
    let bytes = snapshot_encode_checked(&l).unwrap();
    let back = snapshot_decode(&bytes).unwrap();
    assert_eq!(back.name, "empty");
    assert_eq!(back.password, "");
    assert_eq!(back.created_at, 7);
    assert!(back.collected_jiggies.is_empty());
    assert!(back.is_well_formed());
}

#[test]
fn snapshot_truncated_fails() {
    let l = populated();
    let bytes = snapshot_encode_checked(&l).unwrap();
    for cut in [0, 1, 3, bytes.len() / 2, bytes.len() - 1] {
        assert!(snapshot_decode(&bytes[..cut]).is_none());
    }
}

#[test]
fn snapshot_garbage_fails() {
    assert!(snapshot_decode(&[0xff; 40]).is_none());
}
