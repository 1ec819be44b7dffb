use a2s_query::errors::Error;
use a2s_query::packet::Reassembler;

/// A follow-up fragment datagram: its own 4-byte header (discarded by the
/// reassembler), the answer id, declared count, index, size hint, payload.
fn fragment_datagram(id: i32, total: u8, number: u8, payload: &[u8]) -> Vec<u8> {
    let mut d: Vec<u8> = vec![0xFE, 0xFF, 0xFF, 0xFF];
    d.extend_from_slice(&id.to_le_bytes());
    d.push(total);
    d.push(number);
    d.extend_from_slice(&(payload.len() as i16).to_le_bytes());
    d.extend_from_slice(payload);
    d
}

#[test]
fn test_single_datagram_strips_header() {
    let mut r = Reassembler::new();
    let datagram = vec![0xFF, 0xFF, 0xFF, 0xFF, 0x49, 0x02, 0x61];
    let payload = r.feed(datagram).unwrap().unwrap();
    assert_eq!(payload, vec![0x49, 0x02, 0x61]);
}

#[test]
fn test_short_datagram_rejected() {
    let mut r = Reassembler::new();
    assert_eq!(r.feed(vec![0xFF, 0xFF, 0xFF, 0xFF]).unwrap_err(), Error::InvalidResponse);
}

#[test]
fn test_unknown_framing_header_rejected() {
    let mut r = Reassembler::new();
    let datagram = vec![0xFD, 0xFF, 0xFF, 0xFF, 0x49];
    assert_eq!(r.feed(datagram).unwrap_err(), Error::InvalidResponse);
}

#[test]
fn test_two_fragments_in_order() {
    let mut r = Reassembler::new();
    // the reassembled stream re-grows a vestigial 4-byte lead that is
    // stripped before decoding
    let first = fragment_datagram(7, 2, 0, &[0xFF, 0xFF, 0xFF, 0xFF, 0x45, 0x01]);
    let second = fragment_datagram(7, 2, 1, &[0x00, 0x6B, 0x00, 0x76, 0x00]);
    assert_eq!(r.feed(first).unwrap(), None);
    let payload = r.feed(second).unwrap().unwrap();
    assert_eq!(payload, vec![0x45, 0x01, 0x00, 0x6B, 0x00, 0x76, 0x00]);
}

#[test]
fn test_fragments_out_of_order_reassemble_the_same() {
    // the same two fragments, delivered in the opposite order, yield the
    // same payload: the index orders them, not the arrival
    let mut r = Reassembler::new();
    let late = fragment_datagram(7, 2, 1, &[0x00, 0x6B, 0x00, 0x76, 0x00]);
    let early = fragment_datagram(7, 2, 0, &[0xFF, 0xFF, 0xFF, 0xFF, 0x45, 0x01]);
    assert_eq!(r.feed(late).unwrap(), None);
    let payload = r.feed(early).unwrap().unwrap();
    assert_eq!(payload, vec![0x45, 0x01, 0x00, 0x6B, 0x00, 0x76, 0x00]);
}

#[test]
fn test_three_fragments_permuted() {
    let parts: [&[u8]; 3] = [&[0xFF, 0xFF, 0xFF, 0xFF, 0x45], &[0x02, 0x00], &[0x6B, 0x00]];
    let expected = vec![0x45, 0x02, 0x00, 0x6B, 0x00];
    for order in [[0u8, 1, 2], [2, 1, 0], [1, 2, 0]] {
        let mut r = Reassembler::new();
        let mut result = None;
        for number in order {
            let d = fragment_datagram(9, 3, number, parts[number as usize]);
            result = r.feed(d).unwrap();
        }
        assert_eq!(result.unwrap(), expected);
    }
}

#[test]
fn test_answer_id_mismatch() {
    let mut r = Reassembler::new();
    let first = fragment_datagram(7, 2, 0, &[0xFF, 0xFF, 0xFF, 0xFF, 0x45]);
    let second = fragment_datagram(8, 2, 1, &[0x00]);
    assert_eq!(r.feed(first).unwrap(), None);
    assert_eq!(
        r.feed(second).unwrap_err(),
        Error::UnexpectedAnswerID { expected: 7, found: 8 }
    );
}

#[test]
fn test_compressed_fragments_refused() {
    // an answer id with its sign bit set means compressed fragmentation,
    // which is refused before any fragment payload is read
    let mut r = Reassembler::new();
    let datagram = fragment_datagram(-5, 2, 0, &[0x45, 0x01]);
    match r.feed(datagram).unwrap_err() {
        Error::NotImplemented { feature } => {
            assert!(!feature.is_empty());
        }
        other => panic!("expected NotImplemented, got {:?}", other),
    }
}

#[test]
fn test_reassembler_reusable_after_completion() {
    let mut r = Reassembler::new();
    let datagram = vec![0xFF, 0xFF, 0xFF, 0xFF, 0x49, 0x02];
    assert_eq!(r.feed(datagram.clone()).unwrap().unwrap(), vec![0x49, 0x02]);
    assert_eq!(r.feed(datagram).unwrap().unwrap(), vec![0x49, 0x02]);
}
