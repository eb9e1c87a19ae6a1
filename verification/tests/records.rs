use poll_rust_program::{CastVote, DecodeError, EncodeError, Instruction, Poll};

fn sample_poll() -> Poll {
    Poll {
        wallet_publickey: "w".to_string(),
        owner: "me".to_string(),
        id: "1".to_string(),
        question: "q?".to_string(),
        options: vec!["a".to_string(), "bc".to_string()],
        votes: vec![1, 258],
        seed_bump: 254,
        timestamp: "17".to_string(),
    }
}

fn sample_poll_bytes() -> Vec<u8> {
    vec![
        1, 0, 0, 0, b'w', // wallet_publickey
        2, 0, 0, 0, b'm', b'e', // owner
        1, 0, 0, 0, b'1', // id
        2, 0, 0, 0, b'q', b'?', // question
        2, 0, 0, 0, 1, 0, 0, 0, b'a', 2, 0, 0, 0, b'b', b'c', // options
        2, 0, 0, 0, 1, 0, 0, 0, 2, 1, 0, 0, // votes
        254, // seed_bump
        2, 0, 0, 0, b'1', b'7', // timestamp
    ]
}

#[test]
fn cast_vote_bytes_are_length_then_text() {
    let vote = CastVote { option: "FRIENDS".to_string() };
    assert_eq!(
        vote.try_to_vec().unwrap(),
        vec![7, 0, 0, 0, b'F', b'R', b'I', b'E', b'N', b'D', b'S']
    );
}

#[test]
fn cast_vote_length_counts_utf8_bytes() {
    let vote = CastVote { option: "é€".to_string() };
    assert_eq!(
        vote.try_to_vec().unwrap(),
        vec![5, 0, 0, 0, 0xC3, 0xA9, 0xE2, 0x82, 0xAC]
    );
    let read = CastVote::try_from_slice(&[5, 0, 0, 0, 0xC3, 0xA9, 0xE2, 0x82, 0xAC]).unwrap();
    assert_eq!(read.option, "é€");
}

#[test]
fn cast_vote_of_empty_text() {
    let vote = CastVote { option: String::new() };
    assert_eq!(vote.try_to_vec().unwrap(), vec![0, 0, 0, 0]);
    assert_eq!(CastVote::try_from_slice(&[0, 0, 0, 0]).unwrap(), vote);
}

#[test]
fn cast_vote_round_trip() {
    let vote = CastVote { option: "Mr. Robot".to_string() };
    let bytes = vote.try_to_vec().unwrap();
    assert_eq!(CastVote::try_from_slice(&bytes).unwrap(), vote);
}

#[test]
fn cast_vote_rejects_invalid_utf8() {
    assert_eq!(
        CastVote::try_from_slice(&[2, 0, 0, 0, 0xC3, 0x28]),
        Err(DecodeError::Malformed)
    );
}

#[test]
fn cast_vote_rejects_short_input() {
    assert_eq!(CastVote::try_from_slice(&[]), Err(DecodeError::Malformed));
    assert_eq!(CastVote::try_from_slice(&[1, 0, 0]), Err(DecodeError::Malformed));
    assert_eq!(CastVote::try_from_slice(&[3, 0, 0, 0, b'a', b'b']), Err(DecodeError::Malformed));
    assert_eq!(
        CastVote::try_from_slice(&[0xff, 0xff, 0xff, 0xff, b'a']),
        Err(DecodeError::Malformed)
    );
}

#[test]
fn cast_vote_rejects_trailing_bytes() {
    assert_eq!(
        CastVote::try_from_slice(&[1, 0, 0, 0, b'a', b'b']),
        Err(DecodeError::TrailingBytes)
    );
}

#[test]
fn instruction_bytes_are_exact() {
    let instruction = Instruction {
        action: 1,
        data: vec![0xAA, 0xBB],
        space: 0x0102_0304_0506_0708,
        lamports: 1,
    };
    assert_eq!(
        instruction.try_to_vec().unwrap(),
        vec![
            1, // action
            2, 0, 0, 0, 0xAA, 0xBB, // data
            8, 7, 6, 5, 4, 3, 2, 1, // space
            1, 0, 0, 0, 0, 0, 0, 0, // lamports
        ]
    );
}

#[test]
fn instruction_is_read_from_exact_bytes() {
    let bytes = [
        0, // action
        3, 0, 0, 0, 9, 8, 7, // data
        0xff, 0xff, 0xff, 0xff, 0xff, 0xff, 0xff, 0xff, // space
        0, 1, 0, 0, 0, 0, 0, 0, // lamports
    ];
    let instruction = Instruction::try_from_slice(&bytes).unwrap();
    assert_eq!(
        instruction,
        Instruction { action: 0, data: vec![9, 8, 7], space: u64::MAX, lamports: 256 }
    );
}

#[test]
fn instruction_round_trip() {
    let instruction = Instruction { action: 10, data: vec![], space: 0, lamports: 0 };
    let bytes = instruction.try_to_vec().unwrap();
    assert_eq!(bytes.len(), 21);
    assert_eq!(Instruction::try_from_slice(&bytes).unwrap(), instruction);

    let instruction =
        Instruction { action: 255, data: vec![1; 300], space: 12345, lamports: u64::MAX };
    let bytes = instruction.try_to_vec().unwrap();
    assert_eq!(&bytes[1..5], &[44, 1, 0, 0]);
    assert_eq!(Instruction::try_from_slice(&bytes).unwrap(), instruction);
}

#[test]
fn instruction_rejects_short_and_long_input() {
    let bytes = Instruction { action: 1, data: vec![5], space: 2, lamports: 3 }
        .try_to_vec()
        .unwrap();
    for cut in 0..bytes.len() {
        assert_eq!(Instruction::try_from_slice(&bytes[..cut]), Err(DecodeError::Malformed));
    }
    let mut longer = bytes.clone();
    longer.push(0);
    assert_eq!(Instruction::try_from_slice(&longer), Err(DecodeError::TrailingBytes));
}

#[test]
fn poll_bytes_are_exact() {
    assert_eq!(sample_poll().try_to_vec().unwrap(), sample_poll_bytes());
}

#[test]
fn poll_is_read_from_exact_bytes() {
    assert_eq!(Poll::try_from_slice(&sample_poll_bytes()).unwrap(), sample_poll());
}

#[test]
fn poll_round_trip() {
    let poll = Poll {
        wallet_publickey: "wallet_publickey".to_string(),
        owner: "anonymous".to_string(),
        id: "1".to_string(),
        question: "What is your favourite TV show?".to_string(),
        options: vec!["FRIENDS".to_string(), "Mr. Robot".to_string(), "The Mentalist".to_string()],
        votes: vec![0, u32::MAX, 7],
        seed_bump: 0,
        timestamp: "0000000000".to_string(),
    };
    let bytes = poll.try_to_vec().unwrap();
    assert_eq!(Poll::try_from_slice(&bytes).unwrap(), poll);
}

#[test]
fn poll_round_trip_without_options() {
    let poll = Poll {
        wallet_publickey: String::new(),
        owner: String::new(),
        id: String::new(),
        question: String::new(),
        options: vec![],
        votes: vec![],
        seed_bump: 9,
        timestamp: String::new(),
    };
    let bytes = poll.try_to_vec().unwrap();
    assert_eq!(bytes.len(), 4 * 7 + 1);
    assert_eq!(Poll::try_from_slice(&bytes).unwrap(), poll);
}

#[test]
fn poll_rejects_short_and_long_input() {
    let bytes = sample_poll_bytes();
    for cut in 0..bytes.len() {
        assert_eq!(Poll::try_from_slice(&bytes[..cut]), Err(DecodeError::Malformed));
    }
    let mut longer = bytes.clone();
    longer.push(7);
    assert_eq!(Poll::try_from_slice(&longer), Err(DecodeError::TrailingBytes));
}

#[test]
fn poll_rejects_invalid_utf8_in_an_option() {
    let mut bytes = sample_poll_bytes();
    let at = bytes.iter().position(|byte| *byte == b'b').unwrap();
    bytes[at] = 0xff;
    assert_eq!(Poll::try_from_slice(&bytes), Err(DecodeError::Malformed));
}

#[test]
fn poll_deserialize_hands_back_the_rest() {
    let mut bytes = sample_poll_bytes();
    bytes.extend_from_slice(&[42, 43]);
    let (poll, rest) = Poll::deserialize(&bytes).unwrap();
    assert_eq!(poll, sample_poll());
    assert_eq!(rest, &[42, 43]);
    assert!(Poll::deserialize(&bytes[..10]).is_none());
}

#[test]
fn poll_serialize_fills_exact_storage() {
    let bytes = sample_poll_bytes();
    let mut storage = vec![0xEE; bytes.len()];
    assert_eq!(sample_poll().serialize(&mut storage), Ok(()));
    assert_eq!(storage, bytes);
}

#[test]
fn poll_serialize_keeps_the_tail_of_larger_storage() {
    let bytes = sample_poll_bytes();
    let mut storage = vec![0xEE; bytes.len() + 3];
    assert_eq!(sample_poll().serialize(&mut storage), Ok(()));
    assert_eq!(&storage[..bytes.len()], &bytes[..]);
    assert_eq!(&storage[bytes.len()..], &[0xEE, 0xEE, 0xEE]);
}

#[test]
fn poll_serialize_leaves_short_storage_alone() {
    let bytes = sample_poll_bytes();
    let mut storage = vec![0xEE; bytes.len() - 1];
    assert_eq!(sample_poll().serialize(&mut storage), Err(EncodeError::OutOfSpace));
    assert_eq!(storage, vec![0xEE; bytes.len() - 1]);

    let mut empty: Vec<u8> = Vec::new();
    assert_eq!(sample_poll().serialize(&mut empty), Err(EncodeError::OutOfSpace));
    assert!(empty.is_empty());
}
