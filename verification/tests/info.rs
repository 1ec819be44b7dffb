use a2s_query::errors::Error;
use a2s_query::exchange::{build_info_request, info_response_step, Exchange};
use a2s_query::info::{Info, ServerEnvironment, ServerType, TheShipInfo, TheShipMode};
use a2s_query::packet::Reassembler;

/// Runs one datagram through the reassembler and the info flow's challenge
/// step, then decodes it, as a query operation would.
fn decode_info_datagram(response_data: &[u8]) -> Info {
    let mut reassembler = Reassembler::new();
    let payload = reassembler
        .feed(response_data.to_vec())
        .expect("framing accepted")
        .expect("single datagram completes the response");
    let request = build_info_request();
    match info_response_step(payload, &request).expect("no challenge expected") {
        Exchange::Final(bytes) => Info::from_bytes(bytes).expect("decode succeeds"),
        Exchange::Resend(_) => panic!("no challenge expected"),
    }
}

#[test]
fn test_info_counter_strike_source() {
    let response_data = &[
        0xFF, 0xFF, 0xFF, 0xFF, 0x49, 0x02, 0x67, 0x61, 0x6D, 0x65, 0x32, 0x78, 0x73, 0x2E, 0x63,
        0x6F, 0x6D, 0x20, 0x43, 0x6F, 0x75, 0x6E, 0x74, 0x65, 0x72, 0x2D, 0x53, 0x74, 0x72, 0x69,
        0x6B, 0x65, 0x20, 0x53, 0x6F, 0x75, 0x72, 0x63, 0x65, 0x20, 0x23, 0x31, 0x00, 0x64, 0x65,
        0x5F, 0x64, 0x75, 0x73, 0x74, 0x00, 0x63, 0x73, 0x74, 0x72, 0x69, 0x6B, 0x65, 0x00, 0x43,
        0x6F, 0x75, 0x6E, 0x74, 0x65, 0x72, 0x2D, 0x53, 0x74, 0x72, 0x69, 0x6B, 0x65, 0x3A, 0x20,
        0x53, 0x6F, 0x75, 0x72, 0x63, 0x65, 0x00, 0xF0, 0x00, 0x05, 0x10, 0x04, 0x64, 0x6C, 0x00,
        0x00, 0x31, 0x2E, 0x30, 0x2E, 0x30, 0x2E, 0x32, 0x32, 0x00,
    ];
    let expected_info = Info {
        protocol: 2,
        name: "game2xs.com Counter-Strike Source #1".to_string(),
        map: "de_dust".to_string(),
        folder: "cstrike".to_string(),
        game: "Counter-Strike: Source".to_string(),
        app_id: 240,
        players: 5,
        max_players: 16,
        bots: 4,
        server_type: ServerType::Dedicated,
        environment: ServerEnvironment::Linux,
        password: false,
        vac: false,
        the_ship: None,
        version: "1.0.0.22".to_string(),
        edf: 0,
        port: None,
        steam_id: None,
        sourcetv_info: None,
        keywords: None,
        game_id: None,
    };
    assert_eq!(decode_info_datagram(response_data), expected_info);
}

#[test]
fn test_info_the_ship() {
    let response_data = &[
        0xFF, 0xFF, 0xFF, 0xFF, 0x49, 0x07, 0x53, 0x68, 0x69, 0x70, 0x20, 0x53, 0x65, 0x72, 0x76,
        0x65, 0x72, 0x00, 0x62, 0x61, 0x74, 0x61, 0x76, 0x69, 0x65, 0x72, 0x00, 0x73, 0x68, 0x69,
        0x70, 0x00, 0x54, 0x68, 0x65, 0x20, 0x53, 0x68, 0x69, 0x70, 0x00, 0x60, 0x09, 0x01, 0x05,
        0x00, 0x6C, 0x77, 0x00, 0x00, 0x01, 0x03, 0x03, 0x31, 0x2E, 0x30, 0x2E, 0x30, 0x2E, 0x34,
        0x00,
    ];
    let expected_info = Info {
        protocol: 7,
        name: "Ship Server".to_string(),
        map: "batavier".to_string(),
        folder: "ship".to_string(),
        game: "The Ship".to_string(),
        app_id: 2400,
        players: 1,
        max_players: 5,
        bots: 0,
        server_type: ServerType::NonDedicated,
        environment: ServerEnvironment::Windows,
        password: false,
        vac: false,
        the_ship: Some(TheShipInfo {
            mode: TheShipMode::Elimination,
            witnesses: 3,
            duration: 3,
        }),
        version: "1.0.0.4".to_string(),
        edf: 0,
        port: None,
        steam_id: None,
        sourcetv_info: None,
        keywords: None,
        game_id: None,
    };
    assert_eq!(decode_info_datagram(response_data), expected_info);
}

#[test]
fn test_info_sin_dm() {
    let response_data = &[
        0xFF, 0xFF, 0xFF, 0xFF, 0x49, 0x2F, 0x53, 0x65, 0x6E, 0x73, 0x65, 0x6D, 0x61, 0x6E, 0x6E,
        0x20, 0x53, 0x69, 0x4E, 0x20, 0x44, 0x4D, 0x00, 0x70, 0x61, 0x72, 0x61, 0x64, 0x6F, 0x78,
        0x00, 0x53, 0x69, 0x4E, 0x20, 0x31, 0x00, 0x53, 0x69, 0x4E, 0x20, 0x31, 0x00, 0x1D, 0x05,
        0x00, 0x10, 0x00, 0x6C, 0x77, 0x00, 0x00, 0x31, 0x2E, 0x30, 0x2E, 0x30, 0x2E, 0x30, 0x00,
    ];
    let expected_info = Info {
        protocol: 47,
        name: "Sensemann SiN DM".to_string(),
        map: "paradox".to_string(),
        folder: "SiN 1".to_string(),
        game: "SiN 1".to_string(),
        app_id: 1309,
        players: 0,
        max_players: 16,
        bots: 0,
        server_type: ServerType::NonDedicated,
        environment: ServerEnvironment::Windows,
        password: false,
        vac: false,
        the_ship: None,
        version: "1.0.0.0".to_string(),
        edf: 0,
        port: None,
        steam_id: None,
        sourcetv_info: None,
        keywords: None,
        game_id: None,
    };
    assert_eq!(decode_info_datagram(response_data), expected_info);
}

#[test]
fn test_info_ship_mode_verbatim() {
    // app_id 2400 with game-mode byte 1: the extension decodes with the
    // witness and duration bytes taken verbatim
    let mut payload: Vec<u8> = vec![0x49, 0x11];
    payload.extend_from_slice(b"n\0m\0f\0g\0");
    payload.extend_from_slice(&2400i16.to_le_bytes());
    payload.extend_from_slice(&[3, 8, 0, 0x64, 0x6C, 0, 1]);
    payload.extend_from_slice(&[1, 7, 9]); // mode Elimination, witnesses, duration
    payload.extend_from_slice(b"1.0\0");
    let info = Info::from_bytes(payload).unwrap();
    assert_eq!(info.app_id, 2400);
    assert!(info.is_the_ship());
    assert_eq!(
        info.the_ship,
        Some(TheShipInfo { mode: TheShipMode::Elimination, witnesses: 7, duration: 9 })
    );
}

#[test]
fn test_info_ship_only_for_its_app_id() {
    // the same payload with another application id carries no extension
    let mut payload: Vec<u8> = vec![0x49, 0x11];
    payload.extend_from_slice(b"n\0m\0f\0g\0");
    payload.extend_from_slice(&2401i16.to_le_bytes());
    payload.extend_from_slice(&[3, 8, 0, 0x64, 0x6C, 0, 1]);
    payload.extend_from_slice(b"1.0\0");
    let info = Info::from_bytes(payload).unwrap();
    assert!(!info.is_the_ship());
    assert_eq!(info.the_ship, None);
}

#[test]
fn test_info_bad_game_mode_byte() {
    let mut payload: Vec<u8> = vec![0x49, 0x11];
    payload.extend_from_slice(b"n\0m\0f\0g\0");
    payload.extend_from_slice(&2400i16.to_le_bytes());
    payload.extend_from_slice(&[3, 8, 0, 0x64, 0x6C, 0, 1]);
    payload.extend_from_slice(&[6, 7, 9]); // mode byte outside 0..=5
    payload.extend_from_slice(b"1.0\0");
    assert_eq!(Info::from_bytes(payload).unwrap_err(), Error::InvalidResponse);
}

#[test]
fn test_info_wrong_header_byte() {
    assert_eq!(
        Info::from_bytes(vec![0x4A, 0x02]).unwrap_err(),
        Error::InvalidHeader { expected: 0x49, found: 0x4A }
    );
}

#[test]
fn test_info_invalid_server_type() {
    let mut payload: Vec<u8> = vec![0x49, 0x11];
    payload.extend_from_slice(b"n\0m\0f\0g\0");
    payload.extend_from_slice(&240i16.to_le_bytes());
    payload.extend_from_slice(&[3, 8, 0, 0x7A, 0x6C, 0, 1]);
    payload.extend_from_slice(b"1.0\0");
    assert_eq!(Info::from_bytes(payload).unwrap_err(), Error::InvalidServerType);
}

#[test]
fn test_info_invalid_server_environment() {
    let mut payload: Vec<u8> = vec![0x49, 0x11];
    payload.extend_from_slice(b"n\0m\0f\0g\0");
    payload.extend_from_slice(&240i16.to_le_bytes());
    payload.extend_from_slice(&[3, 8, 0, 0x64, 0x7A, 0, 1]);
    payload.extend_from_slice(b"1.0\0");
    assert_eq!(Info::from_bytes(payload).unwrap_err(), Error::InvalidServerEnvironment);
}

#[test]
fn test_info_truncated_flagged_field() {
    // EDF says a game port follows, but only one of its two bytes does
    let mut payload: Vec<u8> = vec![0x49, 0x11];
    payload.extend_from_slice(b"n\0m\0f\0g\0");
    payload.extend_from_slice(&240i16.to_le_bytes());
    payload.extend_from_slice(&[3, 8, 0, 0x64, 0x6C, 0, 1]);
    payload.extend_from_slice(b"1.0\0");
    payload.push(0x80);
    payload.push(0x12);
    assert_eq!(Info::from_bytes(payload).unwrap_err(), Error::Truncated);
}
