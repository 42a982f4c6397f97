use counting_bloom::bloom_filter::BloomFilter;
use counting_bloom::hashing::hash;
use counting_bloom::protocol::handle_message;
use counting_bloom::protocol::handle_server;
use counting_bloom::protocol::u32_to_dec;
use counting_bloom::protocol::ParseError;
use counting_bloom::tokenize::split_whitespace;

/// Frames a request as the fixed-size NUL-padded message buffer.
fn frame(req: &[u8]) -> Vec<u8> {
    let mut buf = vec![0u8; 4096];
    buf[..req.len()].copy_from_slice(req);
    buf
}

/// NUL truncates, repeated whitespace collapses, tokens come in order.
#[test]
fn split_whitespace_truncates_and_collapses() {
    let toks = split_whitespace(b"felix  markus\tisabel\0garbage");
    let expected: Vec<Vec<u8>> = vec![b"felix".to_vec(), b"markus".to_vec(), b"isabel".to_vec()];
    assert_eq!(toks, expected);
}

#[test]
fn split_whitespace_empty_and_edge_cases() {
    assert_eq!(split_whitespace(b""), Vec::<Vec<u8>>::new());
    assert_eq!(split_whitespace(b"   \t\r\n"), Vec::<Vec<u8>>::new());
    assert_eq!(split_whitespace(b"\0felix"), Vec::<Vec<u8>>::new());
    assert_eq!(split_whitespace(b"one"), vec![b"one".to_vec()]);
    assert_eq!(split_whitespace(b"a b"), vec![b"a".to_vec(), b"b".to_vec()]);
}

/// The protocol scenario: add, query, count, remove, query again.
#[test]
fn protocol_scenario() {
    // The scenario is deterministic only without index collisions between
    // the two elements; this sizing has none.
    let felix = hash(b"felix");
    let markus = hash(b"markus");
    assert!(felix.iter().all(|i| !markus.contains(i)));

    let mut bf = BloomFilter::new();
    assert_eq!(handle_server(&mut bf, &frame(b"ADD felix markus\n")), b"OK.\n");
    assert_eq!(handle_server(&mut bf, &frame(b"HAS felix\n")), b"Yes.\n");
    assert_eq!(handle_server(&mut bf, &frame(b"CNT felix\n")), b"1.\n");
    assert_eq!(handle_server(&mut bf, &frame(b"RMV felix\n")), b"OK.\n");
    assert_eq!(handle_server(&mut bf, &frame(b"HAS felix\n")), b"No.\n");
    assert_eq!(handle_server(&mut bf, &frame(b"HAS markus\n")), b"Yes.\n");
}

/// An unknown command is echoed back in an error line.
#[test]
fn unknown_command_reply() {
    let mut bf = BloomFilter::new();
    let reply = handle_server(&mut bf, &frame(b"XYZ foo\n"));
    assert_eq!(reply, b"ERROR. Invalid command XYZ.\n");
}

#[test]
fn unknown_command_code_is_trimmed() {
    let mut bf = BloomFilter::new();
    let reply = handle_server(&mut bf, &frame(b"zz\t foo\n"));
    assert_eq!(reply, b"ERROR. Invalid command zz.\n");
}

#[test]
fn commands_are_case_insensitive() {
    let mut bf = BloomFilter::new();
    assert_eq!(handle_server(&mut bf, &frame(b"add felix\n")), b"OK.\n");
    assert_eq!(handle_server(&mut bf, &frame(b"hAs felix\n")), b"Yes.\n");
    assert_eq!(handle_server(&mut bf, &frame(b"cnt felix\n")), b"1.\n");
    assert_eq!(handle_server(&mut bf, &frame(b"rmv felix\n")), b"OK.\n");
}

#[test]
fn short_buffer_errors() {
    let mut bf = BloomFilter::new();
    assert_eq!(
        handle_message(&mut bf, b"AD"),
        Err(ParseError::NoCommand)
    );
    assert_eq!(
        handle_message(&mut bf, b"ADD"),
        Err(ParseError::NoArgument)
    );
    assert_eq!(handle_server(&mut bf, b"AD"), b"ERROR. Could not get command.\n");
    assert_eq!(handle_server(&mut bf, b"ADD"), b"ERROR. Could not get argument.\n");
}

#[test]
fn missing_argument_errors() {
    let mut bf = BloomFilter::new();
    assert_eq!(
        handle_message(&mut bf, &frame(b"ADD \n")),
        Err(ParseError::NoElements)
    );
    assert_eq!(
        handle_message(&mut bf, &frame(b"RMV \n")),
        Err(ParseError::NoElements)
    );
    assert_eq!(
        handle_message(&mut bf, &frame(b"HAS \n")),
        Err(ParseError::NoToken)
    );
    assert_eq!(
        handle_message(&mut bf, &frame(b"CNT \n")),
        Err(ParseError::NoToken)
    );
    assert_eq!(
        handle_server(&mut bf, &frame(b"ADD \n")),
        b"ERROR. Specify at least one element.\n"
    );
    assert_eq!(
        handle_server(&mut bf, &frame(b"HAS \n")),
        b"ERROR. Could not get token\n"
    );
}

/// Only the first token of a query is used.
#[test]
fn query_uses_first_token() {
    let mut bf = BloomFilter::new();
    handle_server(&mut bf, &frame(b"ADD felix\n"));
    assert_eq!(handle_server(&mut bf, &frame(b"HAS felix qqqq\n")), b"Yes.\n");
    assert_eq!(handle_server(&mut bf, &frame(b"CNT felix qqqq\n")), b"1.\n");
}

/// The export command replies with the packed bit buffer.
#[test]
fn bin_replies_with_serialized_bits() {
    let mut bf = BloomFilter::new();
    handle_server(&mut bf, &frame(b"ADD felix markus\n"));
    let expected = bf.to_bytes();
    let reply = handle_server(&mut bf, &frame(b"BIN\n"));
    assert_eq!(reply, expected);
    assert_eq!(reply.len(), 32);
    assert!(reply.iter().any(|&b| b != 0));
}

#[test]
fn cnt_reply_formats_count() {
    let mut bf = BloomFilter::new();
    assert_eq!(handle_server(&mut bf, &frame(b"CNT felix\n")), b"0.\n");
    for _ in 0..12 {
        handle_server(&mut bf, &frame(b"ADD felix\n"));
    }
    assert_eq!(handle_server(&mut bf, &frame(b"CNT felix\n")), b"12.\n");
}

#[test]
fn u32_to_dec_exact() {
    assert_eq!(u32_to_dec(0), b"0");
    assert_eq!(u32_to_dec(7), b"7");
    assert_eq!(u32_to_dec(10), b"10");
    assert_eq!(u32_to_dec(305), b"305");
    assert_eq!(u32_to_dec(u32::MAX), b"4294967295");
}

/// Elements are raw bytes, not necessarily text.
#[test]
fn binary_elements_work() {
    let mut bf = BloomFilter::new();
    let mut req = b"ADD ".to_vec();
    req.extend_from_slice(&[0xffu8, 0x01, 0x80]);
    assert_eq!(handle_server(&mut bf, &frame(&req)), b"OK.\n");
    let mut q = b"HAS ".to_vec();
    q.extend_from_slice(&[0xffu8, 0x01, 0x80]);
    assert_eq!(handle_server(&mut bf, &frame(&q)), b"Yes.\n");
}
