use a2s_query::errors::Error;
use a2s_query::players::{Player, TheShipInfo};

fn push_player(buf: &mut Vec<u8>, index: u8, name: &str, score: i32, duration: f32) {
    buf.push(index);
    buf.extend_from_slice(name.as_bytes());
    buf.push(0);
    buf.extend_from_slice(&score.to_le_bytes());
    buf.extend_from_slice(&duration.to_le_bytes());
}

#[test]
fn test_players_two_records() {
    let mut payload: Vec<u8> = vec![0x44, 2];
    push_player(&mut payload, 0, "alpha", 12, 64.5);
    push_player(&mut payload, 1, "beta", -3, 0.25);
    let players = Player::list_from_bytes(payload, false).unwrap();
    assert_eq!(players.len(), 2);
    assert_eq!(players[0].index, 0);
    assert_eq!(players[0].name, "alpha");
    assert_eq!(players[0].score, 12);
    assert_eq!(players[0].duration_bits, 64.5f32.to_bits());
    assert_eq!(players[0].the_ship, None);
    assert_eq!(players[1].index, 1);
    assert_eq!(players[1].name, "beta");
    assert_eq!(players[1].score, -3);
    assert_eq!(players[1].duration_bits, 0.25f32.to_bits());
    assert_eq!(players[1].the_ship, None);
}

#[test]
fn test_players_ship_fields_present() {
    let mut payload: Vec<u8> = vec![0x44, 1];
    push_player(&mut payload, 4, "sailor", 7, 1.0);
    payload.extend_from_slice(&9u32.to_le_bytes());
    payload.extend_from_slice(&2500u32.to_le_bytes());
    let players = Player::list_from_bytes(payload, true).unwrap();
    assert_eq!(players.len(), 1);
    assert_eq!(players[0].the_ship, Some(TheShipInfo { deaths: 9, money: 2500 }));
}

#[test]
fn test_players_truncated_mid_record_keeps_full_records() {
    // the count promises three records but the bytes hold only two: the two
    // full records come back with no error
    let mut payload: Vec<u8> = vec![0x44, 3];
    push_player(&mut payload, 0, "alpha", 12, 64.5);
    push_player(&mut payload, 1, "beta", -3, 0.25);
    let players = Player::list_from_bytes(payload, false).unwrap();
    assert_eq!(players.len(), 2);
    assert_eq!(players[1].name, "beta");
}

#[test]
fn test_players_wrong_header_byte() {
    assert_eq!(
        Player::list_from_bytes(vec![0x45, 0], false).unwrap_err(),
        Error::InvalidHeader { expected: 0x44, found: 0x45 }
    );
}

#[test]
fn test_players_first_record_truncated() {
    // nothing readable before the first record's fixed fields end: an error,
    // since the tolerance only spares records after a complete one
    let payload: Vec<u8> = vec![0x44, 1, 0, 0x61];
    assert_eq!(Player::list_from_bytes(payload, false).unwrap_err(), Error::Truncated);
}

#[test]
fn test_players_empty_list() {
    let players = Player::list_from_bytes(vec![0x44, 0], false).unwrap();
    assert_eq!(players.len(), 0);
}
