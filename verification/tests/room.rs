use bear_island::protocol::SocketAddress;
use bear_island::room::{
    generate_room_code, room_code_from_indices, room_key, RoomHandle, RoomRegistry,
    ROOM_CODE_ALPHABET, ROOM_CODE_LEN,
};

fn is_room_code(code: &str) -> bool {
    code.len() == ROOM_CODE_LEN && code.bytes().all(|b| ROOM_CODE_ALPHABET.contains(&b))
}

#[test]
fn alphabet_has_no_lookalike_characters() {
    assert_eq!(&ROOM_CODE_ALPHABET[..], b"ABCDEFGHIJMNPQRSTUVWXYZ23456789");
}

#[test]
fn generated_codes_are_room_codes() {
    for _ in 0..200 {
        let code = generate_room_code();
        assert!(is_room_code(&code), "{}", code);
    }
}

#[test]
fn code_from_indices_picks_alphabet_characters() {
    assert_eq!(room_code_from_indices(&[0, 1, 2, 3, 4, 5]), "ABCDEF");
    assert_eq!(room_code_from_indices(&[30, 29, 22, 23, 10, 11]), "98Z2MN");
    assert_eq!(room_code_from_indices(&[]), "");
}

#[test]
fn new_room_listens_on_room_machine() {
    let (room, code) = RoomHandle::new(27020);
    assert!(is_room_code(&code));
    assert_eq!(room.room_code(), &code);
    assert_eq!(room.address(), SocketAddress::V4 { octets: [152, 69, 167, 180], port: 27020 });
    assert_eq!(room.player_count(), 0);
    assert!(!room.alive());
}

#[test]
fn regenerate_code_changes_only_the_code() {
    let (mut room, _) = RoomHandle::new(27030);
    let code = room.regenerate_code();
    assert!(is_room_code(&code));
    assert_eq!(room.room_code(), &code);
    assert_eq!(room.address(), SocketAddress::V4 { octets: [152, 69, 167, 180], port: 27030 });
    assert_eq!(room.player_count(), 0);
    assert!(!room.alive());
}

#[test]
fn room_key_values() {
    assert_eq!(room_key("AAAAAA"), Some(0));
    assert_eq!(room_key("BAAAAA"), Some(1));
    assert_eq!(room_key("ABAAAA"), Some(32));
    assert_eq!(room_key("999999"), Some(30 * (1 + 32 + 1024 + 32768 + 1048576 + 33554432)));
}

#[test]
fn room_key_rejects_non_codes() {
    assert_eq!(room_key("AAAAA"), None);
    assert_eq!(room_key("AAAAAAA"), None);
    assert_eq!(room_key("AAAAAK"), None);
    assert_eq!(room_key("aaaaaa"), None);
    assert_eq!(room_key("AAAAA0"), None);
    assert_eq!(room_key(""), None);
}

#[test]
fn room_keys_are_distinct() {
    let mut seen = std::collections::HashSet::new();
    for a in 0..31usize {
        for b in 0..31usize {
            let code = room_code_from_indices(&[a, b, a, 0, b, 30]);
            assert!(seen.insert(room_key(&code).unwrap()));
        }
    }
}

#[test]
fn registry_files_rooms_by_code() {
    let mut registry = RoomRegistry::new();
    let (room, code) = RoomHandle::new(27016);
    assert!(!registry.contains_code(&code));
    let filed = registry.insert_room(room).ok().expect("fresh code is free");
    assert_eq!(filed, code);
    assert!(registry.contains_code(&code));
}

#[test]
fn registry_refuses_a_taken_code() {
    let mut registry = RoomRegistry::new();
    let (room, code) = RoomHandle::new(27016);
    let twin = room.clone();
    registry.insert_room(room).ok().expect("fresh code is free");
    let back = match registry.insert_room(twin) {
        Err(back) => back,
        Ok(_) => panic!("a taken code was filed twice"),
    };
    assert_eq!(back.room_code(), &code);
    assert_eq!(back.address(), SocketAddress::V4 { octets: [152, 69, 167, 180], port: 27016 });
    assert!(registry.contains_code(&code));
}

#[test]
fn registry_retry_loop_files_distinct_codes() {
    let mut registry = RoomRegistry::new();
    let mut codes = Vec::new();
    for port in 27016..27036u16 {
        let (mut room, _) = RoomHandle::new(port);
        let code = loop {
            match registry.insert_room(room) {
                Ok(code) => break code,
                Err(back) => {
                    room = back;
                    room.regenerate_code();
                }
            }
        };
        assert!(!codes.contains(&code));
        codes.push(code);
    }
    for code in &codes {
        assert!(registry.contains_code(code));
    }
    assert!(!registry.contains_code("not a code"));
}
