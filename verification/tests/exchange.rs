use a2s_query::errors::Error;
use a2s_query::exchange::{
    build_challenge_request, build_info_request, challenge_response_step, info_response_step,
    Exchange, PLAYER_REQUEST_HEADER, RULES_REQUEST_HEADER,
};

#[test]
fn test_info_request_bytes() {
    let mut expected: Vec<u8> = vec![0xFF, 0xFF, 0xFF, 0xFF, 0x54];
    expected.extend_from_slice(b"Source Engine Query\0");
    assert_eq!(build_info_request(), expected);
}

#[test]
fn test_challenge_request_bytes() {
    assert_eq!(
        build_challenge_request(PLAYER_REQUEST_HEADER),
        vec![0xFF, 0xFF, 0xFF, 0xFF, 0x55, 0xFF, 0xFF, 0xFF, 0xFF]
    );
    assert_eq!(
        build_challenge_request(RULES_REQUEST_HEADER),
        vec![0xFF, 0xFF, 0xFF, 0xFF, 0x56, 0xFF, 0xFF, 0xFF, 0xFF]
    );
}

#[test]
fn test_info_step_final_on_info_response() {
    let request = build_info_request();
    let payload = vec![0x49, 0x02, 0x61];
    match info_response_step(payload.clone(), &request).unwrap() {
        Exchange::Final(p) => assert_eq!(p, payload),
        Exchange::Resend(_) => panic!("expected the payload to be final"),
    }
}

#[test]
fn test_info_step_appends_challenge_token() {
    let request = build_info_request();
    let payload = vec![0x41, 0xDE, 0xAD, 0xBE, 0xEF];
    match info_response_step(payload, &request).unwrap() {
        Exchange::Resend(r) => {
            let mut expected = build_info_request();
            expected.extend_from_slice(&[0xDE, 0xAD, 0xBE, 0xEF]);
            assert_eq!(r, expected);
        }
        Exchange::Final(_) => panic!("expected a resend"),
    }
}

#[test]
fn test_info_step_unknown_leading_byte() {
    // neither the info response marker nor the challenge marker: fatal, and
    // the error names the challenge marker as what was expected
    let request = build_info_request();
    let payload = vec![0x58, 0x01, 0x02];
    assert_eq!(
        info_response_step(payload, &request).unwrap_err(),
        Error::InvalidHeader { expected: 0x41, found: 0x58 }
    );
}

#[test]
fn test_challenge_step_overwrites_placeholder() {
    let request = build_challenge_request(PLAYER_REQUEST_HEADER);
    let payload = vec![0x41, 0x01, 0x02, 0x03, 0x04];
    match challenge_response_step(payload, &request).unwrap() {
        Exchange::Resend(r) => {
            assert_eq!(r, vec![0xFF, 0xFF, 0xFF, 0xFF, 0x55, 0x01, 0x02, 0x03, 0x04]);
        }
        Exchange::Final(_) => panic!("expected a resend"),
    }
}

#[test]
fn test_challenge_step_legacy_server_is_final() {
    // a server that skips the handshake answers with the response itself
    let request = build_challenge_request(RULES_REQUEST_HEADER);
    let payload = vec![0x45, 0x00, 0x00];
    match challenge_response_step(payload.clone(), &request).unwrap() {
        Exchange::Final(p) => assert_eq!(p, payload),
        Exchange::Resend(_) => panic!("expected the payload to be final"),
    }
}

#[test]
fn test_challenge_step_short_challenge_truncated() {
    let request = build_challenge_request(PLAYER_REQUEST_HEADER);
    let payload = vec![0x41, 0x01, 0x02];
    assert_eq!(challenge_response_step(payload, &request).unwrap_err(), Error::Truncated);
}
