use gossip_chat::identity::{PeerAddress, PeerId, TopicId};
use gossip_chat::ticket::{Ticket, TicketDecodeError};

fn topic(seed: u8) -> TopicId {
    let mut bytes = [0u8; 32];
    for (i, b) in bytes.iter_mut().enumerate() {
        *b = seed.wrapping_mul(3).wrapping_add(i as u8);
    }
    TopicId::from_bytes(bytes)
}

fn address(seed: u8, hints: &[u8]) -> PeerAddress {
    PeerAddress::new(PeerId::from_bytes([seed; 32]), hints.to_vec())
}

fn sample(nodes: usize) -> Ticket {
    let mut list = Vec::new();
    for i in 0..nodes {
        let hints: Vec<u8> = (0..(i * 7 % 23)).map(|k| (k * 31 + i) as u8).collect();
        list.push(address(i as u8 + 1, &hints));
    }
    Ticket::new(topic(nodes as u8), list)
}

#[test]
fn bytes_round_trip_without_nodes() {
    let ticket = sample(0);
    let bytes = ticket.to_bytes();
    assert_eq!(bytes.len(), 40);
    assert_eq!(Ticket::from_bytes(&bytes), Ok(ticket));
}

#[test]
fn bytes_round_trip_with_nodes() {
    for nodes in 1..12 {
        let ticket = sample(nodes);
        assert_eq!(Ticket::from_bytes(&ticket.to_bytes()), Ok(ticket));
    }
}

#[test]
fn text_round_trip() {
    for nodes in 0..12 {
        let ticket = sample(nodes);
        let text = ticket.to_text();
        assert_eq!(Ticket::from_text(&text), Ok(ticket));
    }
}

#[test]
fn text_round_trip_keeps_order_of_nodes() {
    let ticket = Ticket::new(
        topic(9),
        vec![address(3, b"c"), address(1, b"a"), address(2, b""), address(1, b"a")],
    );
    let back = Ticket::from_text(&ticket.to_text()).unwrap();
    assert_eq!(back.nodes, ticket.nodes);
    assert_eq!(back.topic, ticket.topic);
}

#[test]
fn bytes_are_topic_count_and_addresses() {
    let ticket = Ticket::new(topic(1), vec![address(5, b"xyz"), address(6, b"")]);
    let mut want: Vec<u8> = Vec::new();
    want.extend_from_slice(topic(1).as_bytes());
    want.extend_from_slice(&[2, 0, 0, 0, 0, 0, 0, 0]);
    want.extend_from_slice(&[5u8; 32]);
    want.extend_from_slice(&[3, 0, 0, 0, 0, 0, 0, 0]);
    want.extend_from_slice(b"xyz");
    want.extend_from_slice(&[6u8; 32]);
    want.extend_from_slice(&[0, 0, 0, 0, 0, 0, 0, 0]);
    assert_eq!(ticket.to_bytes(), want);
}

#[test]
fn text_of_zero_ticket_is_all_a() {
    let ticket = Ticket::new(TopicId::from_bytes([0u8; 32]), Vec::new());
    assert_eq!(ticket.to_text(), "a".repeat(64));
}

#[test]
fn text_is_lower_case_base32_of_the_bytes() {
    let ticket = sample(3);
    let text = ticket.to_text();
    let want = data_encoding::BASE32_NOPAD.encode(&ticket.to_bytes()).to_lowercase();
    assert_eq!(text, want);
    assert!(text.bytes().all(|b| b.is_ascii_lowercase() || (b'2'..=b'7').contains(&b)));
    assert!(!text.contains('='));
}

#[test]
fn text_of_known_bytes() {
    let mut bytes = [0u8; 32];
    bytes[..5].copy_from_slice(b"hello");
    let ticket = Ticket::new(TopicId::from_bytes(bytes), Vec::new());
    let text = ticket.to_text();
    assert!(text.starts_with("nbswy3dp"));
    assert_eq!(text.len(), 64);
}

#[test]
fn upper_case_text_decodes_alike() {
    for nodes in 0..6 {
        let ticket = sample(nodes);
        let text = ticket.to_text();
        let upper = text.to_uppercase();
        assert_ne!(upper, text);
        assert_eq!(Ticket::from_text(&upper), Ticket::from_text(&text));
        assert_eq!(Ticket::from_text(&upper), Ok(ticket));
    }
}

#[test]
fn mixed_case_text_decodes_alike() {
    let ticket = sample(4);
    let text = ticket.to_text();
    let mixed: String = text
        .chars()
        .enumerate()
        .map(|(i, c)| if i % 3 == 0 { c.to_ascii_uppercase() } else { c })
        .collect();
    assert_eq!(Ticket::from_text(&mixed), Ok(ticket));
}

#[test]
fn text_outside_the_alphabet_is_refused() {
    let text = sample(1).to_text();
    for bad in ["!", "1", "8", "0", "=", " ", "\u{e9}"] {
        let mut broken = String::from(bad);
        broken.push_str(&text[1..]);
        assert_eq!(Ticket::from_text(&broken), Err(TicketDecodeError::NotBase32));
    }
    assert_eq!(Ticket::from_text("not a ticket"), Err(TicketDecodeError::NotBase32));
}

#[test]
fn text_with_padding_is_refused() {
    let mut text = sample(0).to_text();
    text.push_str("======");
    assert_eq!(Ticket::from_text(&text), Err(TicketDecodeError::NotBase32));
}

#[test]
fn text_of_impossible_length_is_refused() {
    let text = sample(0).to_text();
    assert_eq!(Ticket::from_text(&text[..1]), Err(TicketDecodeError::NotBase32));
}

#[test]
fn empty_text_is_truncated() {
    assert_eq!(Ticket::from_text(""), Err(TicketDecodeError::Truncated));
}

#[test]
fn short_bytes_are_truncated() {
    let bytes = sample(2).to_bytes();
    for keep in 0..bytes.len() {
        assert_eq!(Ticket::from_bytes(&bytes[..keep]), Err(TicketDecodeError::Truncated));
    }
}

#[test]
fn text_cut_short_is_refused() {
    let ticket = sample(2);
    let bytes = ticket.to_bytes();
    let cut = data_encoding::BASE32_NOPAD.encode(&bytes[..bytes.len() - 5]).to_lowercase();
    assert_eq!(Ticket::from_text(&cut), Err(TicketDecodeError::Truncated));
}

#[test]
fn bytes_left_over_are_refused() {
    let mut bytes = sample(2).to_bytes();
    bytes.push(0);
    assert_eq!(Ticket::from_bytes(&bytes), Err(TicketDecodeError::TrailingBytes));
    let mut bytes = sample(0).to_bytes();
    bytes.extend_from_slice(&[1, 2, 3]);
    assert_eq!(Ticket::from_bytes(&bytes), Err(TicketDecodeError::TrailingBytes));
}

#[test]
fn count_beyond_the_bytes_is_truncated() {
    let mut bytes = sample(1).to_bytes();
    bytes[32] = 2;
    assert_eq!(Ticket::from_bytes(&bytes), Err(TicketDecodeError::Truncated));
    bytes[39] = 0xff;
    assert_eq!(Ticket::from_bytes(&bytes), Err(TicketDecodeError::Truncated));
}

#[test]
fn hints_beyond_the_bytes_are_truncated() {
    let mut bytes = Ticket::new(topic(1), vec![address(5, b"xyz")]).to_bytes();
    bytes[72] = 4;
    assert_eq!(Ticket::from_bytes(&bytes), Err(TicketDecodeError::Truncated));
    bytes[72] = 2;
    assert_eq!(Ticket::from_bytes(&bytes), Err(TicketDecodeError::TrailingBytes));
}

#[test]
fn decoding_leaves_the_ticket_alone() {
    let ticket = sample(3);
    let text = ticket.to_text();
    let first = Ticket::from_text(&text);
    let second = Ticket::from_text(&text);
    assert_eq!(first, second);
    assert_eq!(ticket.to_text(), text);
}

#[test]
fn large_hints_round_trip() {
    let hints: Vec<u8> = (0..70_000u32).map(|k| (k % 251) as u8).collect();
    let ticket = Ticket::new(topic(2), vec![address(1, &hints), address(2, b"")]);
    assert_eq!(Ticket::from_text(&ticket.to_text()), Ok(ticket));
}

#[test]
fn tokens_parse_as_tickets() {
    let ticket = sample(2);
    let parsed: Result<Ticket, TicketDecodeError> = ticket.to_text().parse();
    assert_eq!(parsed, Ok(ticket));
    let parsed: Result<Ticket, TicketDecodeError> = "???".parse();
    assert_eq!(parsed, Err(TicketDecodeError::NotBase32));
}

#[test]
fn token_has_eight_characters_for_every_five_bytes() {
    for nodes in 0..12 {
        let ticket = sample(nodes);
        let bytes = ticket.to_bytes().len();
        assert_eq!(ticket.to_text().len(), (8 * bytes + 4) / 5);
    }
    let ticket = Ticket::new(topic(3), vec![address(9, b"x")]);
    assert_eq!(ticket.to_bytes().len(), 81);
    assert_eq!(ticket.to_text().len(), 130);
}

#[test]
fn token_is_lower_case_letters_and_digits_two_to_seven() {
    for nodes in 0..12 {
        let text = sample(nodes).to_text();
        assert!(text.chars().all(|c| c.is_ascii_lowercase() || ('2'..='7').contains(&c)));
        assert_eq!(text, text.to_lowercase());
    }
}

#[test]
fn try_to_text_gives_the_token() {
    for nodes in 0..6 {
        let ticket = sample(nodes);
        let token = ticket.try_to_text();
        assert_eq!(token, Some(ticket.to_text()));
        assert_eq!(Ticket::from_text(&token.unwrap()), Ok(ticket));
    }
}

#[test]
fn foreign_character_is_refused_wherever_it_stands() {
    let text = sample(2).to_text();
    for at in [0, 1, text.len() / 2, text.len() - 1] {
        for bad in ['1', '8', '9', '0', '=', '-', '_', ' ', '\n', '\u{e9}', '\u{1f980}'] {
            let broken: String = text
                .chars()
                .enumerate()
                .map(|(i, c)| if i == at { bad } else { c })
                .collect();
            assert_eq!(Ticket::from_text(&broken), Err(TicketDecodeError::NotBase32));
        }
    }
}

#[test]
fn symbols_with_stray_bits_are_refused() {
    let ticket = Ticket::new(topic(3), vec![address(9, b"x")]);
    let text = ticket.to_text();
    let mut broken = text[..text.len() - 1].to_string();
    broken.push('b');
    assert_ne!(broken, text);
    assert_eq!(Ticket::from_text(&broken), Err(TicketDecodeError::NotBase32));
}
