use gossip_chat::identity::PeerId;
use gossip_chat::message::{MalformedMessageError, Message, MessageBody};

fn peer(seed: u8) -> PeerId {
    let mut bytes = [0u8; 32];
    for (i, b) in bytes.iter_mut().enumerate() {
        *b = seed.wrapping_add(i as u8);
    }
    PeerId::from_bytes(bytes)
}

fn about_me(seed: u8, name: &str) -> MessageBody {
    MessageBody::AboutMe { from: peer(seed), name: name.to_string() }
}

fn chat(seed: u8, text: &str) -> MessageBody {
    MessageBody::Chat { from: peer(seed), text: text.to_string() }
}

#[test]
fn new_keeps_the_body() {
    let body = about_me(1, "alice");
    let message = Message::new(body.clone());
    assert_eq!(message.body, body);
    assert_eq!(message.nonce.len(), 16);
}

#[test]
fn with_nonce_keeps_body_and_nonce() {
    let message = Message::with_nonce(chat(2, "hi"), [7u8; 16]);
    assert_eq!(message.body, chat(2, "hi"));
    assert_eq!(message.nonce, [7u8; 16]);
}

#[test]
fn round_trip_about_me() {
    let message = Message::new(about_me(3, "alice"));
    let decoded = Message::from_bytes(&message.to_vec()).unwrap();
    assert_eq!(decoded.body, about_me(3, "alice"));
    assert_eq!(decoded, message);
}

#[test]
fn round_trip_chat() {
    let message = Message::new(chat(4, "hello, world"));
    let decoded = Message::from_bytes(&message.to_vec()).unwrap();
    assert_eq!(decoded.body, chat(4, "hello, world"));
    assert_eq!(decoded.nonce, message.nonce);
}

#[test]
fn round_trip_empty_text() {
    let message = Message::new(chat(5, ""));
    let bytes = message.to_vec();
    assert_eq!(bytes.len(), 57);
    assert_eq!(Message::from_bytes(&bytes).unwrap(), message);
}

#[test]
fn round_trip_text_beyond_ascii() {
    let text = "gr\u{fc}\u{df}e \u{4f60}\u{597d} \u{1f980}\nline two\0";
    let message = Message::new(about_me(6, text));
    let bytes = message.to_vec();
    assert_eq!(bytes.len(), 57 + text.len());
    assert_eq!(Message::from_bytes(&bytes).unwrap().body, about_me(6, text));
}

#[test]
fn encoding_is_tag_sender_length_text_nonce() {
    let message = Message::with_nonce(chat(10, "hi"), [9u8; 16]);
    let mut want: Vec<u8> = vec![1];
    want.extend_from_slice(peer(10).as_bytes());
    want.extend_from_slice(&[2, 0, 0, 0, 0, 0, 0, 0]);
    want.extend_from_slice(b"hi");
    want.extend_from_slice(&[9u8; 16]);
    assert_eq!(message.to_vec(), want);

    let message = Message::with_nonce(about_me(11, "alice"), [0xabu8; 16]);
    let mut want: Vec<u8> = vec![0];
    want.extend_from_slice(peer(11).as_bytes());
    want.extend_from_slice(&[5, 0, 0, 0, 0, 0, 0, 0]);
    want.extend_from_slice(b"alice");
    want.extend_from_slice(&[0xabu8; 16]);
    assert_eq!(message.to_vec(), want);
}

#[test]
fn length_prefix_is_little_endian() {
    let text = "x".repeat(0x0102);
    let bytes = Message::with_nonce(chat(1, &text), [0u8; 16]).to_vec();
    assert_eq!(&bytes[33..41], &[0x02, 0x01, 0, 0, 0, 0, 0, 0]);
    assert_eq!(bytes.len(), 57 + 0x0102);
}

#[test]
fn encoding_depends_on_the_nonce_alone_for_equal_bodies() {
    let a = Message::with_nonce(chat(1, "same"), [1u8; 16]).to_vec();
    let b = Message::with_nonce(chat(1, "same"), [2u8; 16]).to_vec();
    assert_ne!(a, b);
    assert_eq!(a[..a.len() - 16], b[..b.len() - 16]);
    let again = Message::with_nonce(chat(1, "same"), [1u8; 16]).to_vec();
    assert_eq!(a, again);
}

#[test]
fn nonces_of_equal_bodies_differ() {
    let mut seen = std::collections::HashSet::new();
    for _ in 0..2000 {
        let message = Message::new(chat(1, "same"));
        assert!(seen.insert(message.nonce));
    }
    assert_eq!(seen.len(), 2000);
}

#[test]
fn every_proper_prefix_is_truncated() {
    let bytes = Message::with_nonce(about_me(7, "alice"), [3u8; 16]).to_vec();
    for keep in 0..bytes.len() {
        assert_eq!(Message::from_bytes(&bytes[..keep]), Err(MalformedMessageError::Truncated));
    }
    assert!(Message::from_bytes(&bytes).is_ok());
}

#[test]
fn empty_payload_is_truncated() {
    assert_eq!(Message::from_bytes(&[]), Err(MalformedMessageError::Truncated));
}

#[test]
fn unknown_tag_is_refused() {
    let mut bytes = Message::with_nonce(chat(8, "hi"), [3u8; 16]).to_vec();
    bytes[0] = 2;
    assert_eq!(Message::from_bytes(&bytes), Err(MalformedMessageError::UnknownTag));
    bytes[0] = 0xff;
    assert_eq!(Message::from_bytes(&bytes), Err(MalformedMessageError::UnknownTag));
    assert_eq!(Message::from_bytes(&[9]), Err(MalformedMessageError::UnknownTag));
}

#[test]
fn trailing_bytes_are_refused() {
    let mut bytes = Message::with_nonce(chat(8, "hi"), [3u8; 16]).to_vec();
    bytes.push(0);
    assert_eq!(Message::from_bytes(&bytes), Err(MalformedMessageError::TrailingBytes));
}

#[test]
fn corrupted_length_is_refused() {
    let good = Message::with_nonce(chat(8, "hello"), [3u8; 16]).to_vec();
    let mut longer = good.clone();
    longer[33] = 6;
    assert_eq!(Message::from_bytes(&longer), Err(MalformedMessageError::Truncated));
    let mut huge = good.clone();
    huge[40] = 0xff;
    assert_eq!(Message::from_bytes(&huge), Err(MalformedMessageError::Truncated));
    let mut shorter = good.clone();
    shorter[33] = 4;
    assert_eq!(Message::from_bytes(&shorter), Err(MalformedMessageError::TrailingBytes));
}

#[test]
fn text_that_is_not_utf8_is_refused() {
    let mut bytes = Message::with_nonce(chat(8, "hello"), [3u8; 16]).to_vec();
    bytes[41] = 0xff;
    assert_eq!(Message::from_bytes(&bytes), Err(MalformedMessageError::InvalidText));
    let mut cut = Message::with_nonce(chat(8, "\u{e9}"), [3u8; 16]).to_vec();
    cut[42] = b'a';
    assert_eq!(Message::from_bytes(&cut), Err(MalformedMessageError::InvalidText));
}

#[test]
fn flipped_tag_changes_the_kind_only() {
    let mut bytes = Message::with_nonce(chat(8, "bob"), [3u8; 16]).to_vec();
    bytes[0] = 0;
    let decoded = Message::from_bytes(&bytes).unwrap();
    assert_eq!(decoded.body, about_me(8, "bob"));
}

#[test]
fn sender_reads_either_kind() {
    assert_eq!(*about_me(1, "a").sender(), peer(1));
    assert_eq!(*chat(2, "b").sender(), peer(2));
}

#[test]
fn reasons_have_words() {
    assert_eq!(MalformedMessageError::Truncated.describe(), "payload is truncated");
    assert_eq!(MalformedMessageError::UnknownTag.describe(), "unknown kind of message");
    assert_eq!(MalformedMessageError::TrailingBytes.describe(), "bytes are left over");
    assert_eq!(MalformedMessageError::InvalidText.describe(), "text is not UTF-8");
}
