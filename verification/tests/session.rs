use insecure_socket_layer::cipher::CipherError;
use insecure_socket_layer::parser::FeedOutcome;
use insecure_socket_layer::parser::SpecParser;
use insecure_socket_layer::session::InsecureSocketLayer;
use insecure_socket_layer::toys::get_most_toys;

/// Parse a complete spec off `spec` and open a session over it.
fn open_session(spec: &[u8]) -> Result<InsecureSocketLayer, CipherError> {
    let mut parser = SpecParser::new();
    for byte in spec {
        match parser.feed(*byte) {
            FeedOutcome::NeedMore => {}
            FeedOutcome::Done => break,
            FeedOutcome::Rejected(e) => return Err(e),
        }
    }
    InsecureSocketLayer::new(parser.into_cipher().expect("spec ended early"))
}

/// Feed raw wire bytes to the session; the line must complete exactly at the
/// last byte.
fn read_line(session: &mut InsecureSocketLayer, wire: &[u8]) -> Vec<u8> {
    for (i, byte) in wire.iter().enumerate() {
        if let Some(line) = session.read(*byte) {
            assert_eq!(i, wire.len() - 1, "line ended before the wire bytes did");
            return line;
        }
    }
    panic!("no newline in wire bytes");
}

#[test]
fn test_xor1_reversebits_hello() {
    let cipher = [0x02, 0x01, 0x01, 0x00];
    let msg = [0x96, 0x26, 0xb6, 0xb6, 0x76, 0xd0];
    let mut isl = open_session(&cipher).unwrap();
    let decoded = read_line(&mut isl, &msg);
    assert_eq!(decoded, b"hello\n");
}

#[test]
fn test_addpos_addpos_hello() {
    // The addpos,addpos chain adds a position of zero twice at position 0, so
    // the probe of the no-op guard is unchanged and the session is refused;
    // the chain itself still decodes the wire bytes.
    let cipher = [0x05, 0x05, 0x00];
    let msg = [0x68, 0x67, 0x70, 0x72, 0x77, 0x14];

    assert_eq!(open_session(&cipher).unwrap_err(), CipherError::NoOpCipher);

    let mut parser = SpecParser::new();
    assert_eq!(parser.feed(0x05), FeedOutcome::NeedMore);
    assert_eq!(parser.feed(0x05), FeedOutcome::NeedMore);
    assert_eq!(parser.feed(0x00), FeedOutcome::Done);
    let chain = parser.into_cipher().unwrap();
    let mut decoded: Vec<u8> = Vec::new();
    for (pos, byte) in msg.iter().enumerate() {
        decoded.push(chain.decode(*byte, pos));
    }
    assert_eq!(decoded, b"hello\n");
}

#[test]
fn test_example_session_xor123_addpos_reversebits() {
    // Cipher: xor(123), addpos, reversebits
    let cipher = [0x02, 0x7b, 0x05, 0x01, 0x00];
    // First client request (obfuscated): 4x dog,5x car\n
    let req1 = [
        0xf2, 0x20, 0xba, 0x44, 0x18, 0x84, 0xba, 0xaa, 0xd0, 0x26, 0x44, 0xa4, 0xa8, 0x7e,
    ];
    // First server response (obfuscated): 5x car\n
    let resp1 = [0x72, 0x20, 0xba, 0xd8, 0x78, 0x70, 0xee];
    // Second client request (obfuscated): 3x rat,2x cat\n
    let req2 = [
        0x6a, 0x48, 0xd6, 0x58, 0x34, 0x44, 0xd6, 0x7a, 0x98, 0x4e, 0x0c, 0xcc, 0x94, 0x31,
    ];
    // Second server response (obfuscated): 3x rat\n
    let resp2 = [0xf2, 0xd0, 0x26, 0xc8, 0xa4, 0xd8, 0x7e];

    let mut isl = open_session(&cipher).unwrap();

    let decoded1 = read_line(&mut isl, &req1);
    assert_eq!(decoded1, b"4x dog,5x car\n");

    let response1 = get_most_toys(String::from_utf8(decoded1).unwrap()).unwrap();
    assert_eq!(response1, "5x car\n");
    assert_eq!(isl.write(response1.as_bytes()), resp1);

    let decoded2 = read_line(&mut isl, &req2);
    assert_eq!(decoded2, b"3x rat,2x cat\n");

    let response2 = get_most_toys(String::from_utf8(decoded2).unwrap()).unwrap();
    assert_eq!(response2, "3x rat\n");
    assert_eq!(isl.write(response2.as_bytes()), resp2);
}

#[test]
fn test_handle_client_xor123_addpos_reversebits() {
    // Cipher: xor(123), addpos, reversebits
    let cipher = [0x02, 0x7b, 0x05, 0x01, 0x00];
    // First client request (obfuscated): 4x dog,5x car\n
    let req1 = [
        0xf2, 0x20, 0xba, 0x44, 0x18, 0x84, 0xba, 0xaa, 0xd0, 0x26, 0x44, 0xa4, 0xa8, 0x7e,
    ];
    // First server response (obfuscated): 5x car\n
    let resp1 = [0x72, 0x20, 0xba, 0xd8, 0x78, 0x70, 0xee];
    // Second client request (obfuscated): 3x rat,2x cat\n
    let req2 = [
        0x6a, 0x48, 0xd6, 0x58, 0x34, 0x44, 0xd6, 0x7a, 0x98, 0x4e, 0x0c, 0xcc, 0x94, 0x31,
    ];
    // Second server response (obfuscated): 3x rat\n
    let resp2 = [0xf2, 0xd0, 0x26, 0xc8, 0xa4, 0xd8, 0x7e];

    // Drive the request-response loop the way the serving task does: decode a
    // line, compute the answer, encode it back, for both requests in turn.
    let mut isl = open_session(&cipher).unwrap();
    let mut responses: Vec<Vec<u8>> = Vec::new();
    for wire in [&req1, &req2] {
        let request = read_line(&mut isl, wire);
        let response = get_most_toys(String::from_utf8(request).unwrap()).unwrap();
        responses.push(isl.write(response.as_bytes()));
    }

    assert_eq!(responses[0], resp1);
    assert_eq!(responses[1], resp2);
}

#[test]
fn noop_xor_zero_rejected() {
    // A lone xor(0) has no observable effect and the guard refuses it.
    let spec = [0x02, 0x00, 0x00];
    assert_eq!(open_session(&spec).unwrap_err(), CipherError::NoOpCipher);
}

#[test]
fn noop_cancelling_pair_rejected() {
    // xor(0x20) twice cancels at every position: a structurally valid spec
    // whose net effect is identity.
    let spec = [0x02, 0x20, 0x02, 0x20, 0x00];
    assert_eq!(open_session(&spec).unwrap_err(), CipherError::NoOpCipher);
}

#[test]
fn line_framing_one_newline_per_line() {
    // xor(1): '\n' (0x0a) arrives as 0x0b; every other byte is offset by one.
    let spec = [0x02, 0x01, 0x00];
    let mut isl = open_session(&spec).unwrap();

    let first: Vec<u8> = b"hi\n".iter().map(|b| b ^ 1).collect();
    let second: Vec<u8> = b"yo\n".iter().map(|b| b ^ 1).collect();

    assert_eq!(isl.read(first[0]), None);
    assert_eq!(isl.read(first[1]), None);
    let line = isl.read(first[2]).unwrap();
    assert_eq!(line, b"hi\n");
    assert_eq!(line.iter().filter(|b| **b == b'\n').count(), 1);
    assert_eq!(*line.last().unwrap(), b'\n');

    // the accumulator was reset: the next line starts clean
    assert_eq!(isl.read(second[0]), None);
    assert_eq!(isl.read(second[1]), None);
    assert_eq!(isl.read(second[2]).unwrap(), b"yo\n");
}
