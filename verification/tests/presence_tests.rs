use gossip_chat::identity::{PeerId, TopicId};
use gossip_chat::presence::Directory;

fn peer(seed: u8) -> PeerId {
    PeerId::from_bytes([seed; 32])
}

#[test]
fn last_write_wins() {
    let mut names = Directory::new();
    names.observe_about_me(peer(1), "A".to_string());
    names.observe_about_me(peer(1), "B".to_string());
    assert_eq!(names.display_name(&peer(1)), "B");
}

#[test]
fn unknown_peer_is_shown_by_short_form() {
    let names = Directory::new();
    assert_eq!(names.display_name(&peer(0xab)), "ababababab");
    assert_eq!(names.display_name(&peer(0xab)), peer(0xab).fmt_short());
}

#[test]
fn other_peers_do_not_name_a_peer() {
    let mut names = Directory::new();
    names.observe_about_me(peer(1), "alice".to_string());
    names.observe_about_me(peer(2), "bob".to_string());
    assert_eq!(names.display_name(&peer(3)), "0303030303");
    assert_eq!(names.display_name(&peer(1)), "alice");
    assert_eq!(names.display_name(&peer(2)), "bob");
}

#[test]
fn repeated_announcement_changes_nothing() {
    let mut names = Directory::new();
    names.observe_about_me(peer(1), "alice".to_string());
    names.observe_about_me(peer(2), "bob".to_string());
    names.observe_about_me(peer(1), "alice".to_string());
    assert_eq!(names.display_name(&peer(1)), "alice");
    assert_eq!(names.display_name(&peer(2)), "bob");
}

#[test]
fn overwriting_keeps_the_others() {
    let mut names = Directory::new();
    for seed in 0..50u8 {
        names.observe_about_me(peer(seed), format!("peer-{seed}"));
    }
    names.observe_about_me(peer(20), "renamed".to_string());
    for seed in 0..50u8 {
        let want = if seed == 20 { "renamed".to_string() } else { format!("peer-{seed}") };
        assert_eq!(names.display_name(&peer(seed)), want);
    }
}

#[test]
fn peers_that_differ_in_the_last_byte_are_told_apart() {
    let mut a = [7u8; 32];
    let mut b = [7u8; 32];
    a[31] = 1;
    b[31] = 2;
    let mut names = Directory::new();
    names.observe_about_me(PeerId::from_bytes(a), "a".to_string());
    assert_eq!(names.display_name(&PeerId::from_bytes(a)), "a");
    assert_eq!(names.display_name(&PeerId::from_bytes(b)), "0707070707");
}

#[test]
fn short_form_is_ten_hex_digits_of_the_first_five_bytes() {
    let mut bytes = [0u8; 32];
    bytes[..6].copy_from_slice(&[0x00, 0x9a, 0xf0, 0x0f, 0xff, 0x77]);
    assert_eq!(PeerId::from_bytes(bytes).fmt_short(), "009af00fff");
    assert_eq!(PeerId::from_bytes([0x12; 32]).fmt_short(), "1212121212");
}

#[test]
fn identifiers_compare_by_their_bytes() {
    assert_eq!(peer(1), peer(1));
    assert_ne!(peer(1), peer(2));
    assert_eq!(TopicId::from_bytes([4; 32]), TopicId::from_bytes([4; 32]));
    assert_ne!(TopicId::from_bytes([4; 32]), TopicId::from_bytes([5; 32]));
    assert_eq!(peer(9).as_bytes(), &[9u8; 32]);
    assert_eq!(TopicId::from_bytes([4; 32]).as_bytes(), &[4u8; 32]);
}
