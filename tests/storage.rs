use homeserver_core::bytes::{u32_from_bytes, u32_to_bytes, u64_from_bytes, u64_to_bytes};
use homeserver_core::globals::{media_file_name, media_file_name_hashed, server_is_ours, supported_room_versions, user_is_local};
use homeserver_core::pdu::RoomVersion;
use homeserver_core::globals::{add_signing_key, caches_to_clear, signing_keys_for, split_keypair, Globals, ServerSigningKeys};
use homeserver_core::short::{pdu_shortstatehash, ShortIds};
use homeserver_core::tree::Tree;
use homeserver_core::Error;

#[test]
fn u64_bytes_round_trip() {
    assert_eq!(u64_to_bytes(0x0102030405060708), vec![1, 2, 3, 4, 5, 6, 7, 8]);
    assert_eq!(u64_from_bytes(&[1, 2, 3, 4, 5, 6, 7, 8]), Ok(0x0102030405060708));
    assert_eq!(u64_from_bytes(&[1, 2, 3]), Err(()));
    assert_eq!(u64_from_bytes(&u64_to_bytes(u64::MAX)), Ok(u64::MAX));
    assert_eq!(u32_to_bytes(0x01020304), vec![1, 2, 3, 4]);
    assert_eq!(u32_from_bytes(&[0, 0, 1, 0]), Ok(256));
    assert_eq!(u32_from_bytes(&[0, 0, 1]), Err(()));
}

#[test]
fn tree_insert_get_remove_scan() {
    let mut t = Tree::new();
    t.insert(b"b\xffx", b"1");
    t.insert(b"a\xffy", b"2");
    t.insert(b"b\xffz", b"3");
    assert_eq!(t.get(b"a\xffy"), Some(b"2".to_vec()));
    assert_eq!(t.get(b"zzz"), None);
    t.insert(b"b\xffx", b"4");
    assert_eq!(t.get(b"b\xffx"), Some(b"4".to_vec()));
    let scan = t.scan_prefix(b"b\xff");
    assert_eq!(scan, vec![(b"b\xffx".to_vec(), b"4".to_vec()), (b"b\xffz".to_vec(), b"3".to_vec())]);
    t.remove(b"b\xffx");
    assert!(!t.contains_key(b"b\xffx"));
    assert_eq!(t.scan_prefix(b"b\xff").len(), 1);
    assert_eq!(t.scan_prefix(b"").len(), 2);
}

#[test]
fn counter_counts_up() {
    let mut g = Globals::new();
    assert_eq!(g.current_count(), Ok(0));
    assert_eq!(g.next_count(), Ok(1));
    assert_eq!(g.next_count(), Ok(2));
    assert_eq!(g.current_count(), Ok(2));
}

#[test]
fn counter_exhausted() {
    let mut g = Globals::new();
    g.global.insert(b"c", &u64_to_bytes(u64::MAX));
    assert_eq!(g.next_count(), Err(Error::CounterExhausted));
    assert_eq!(g.current_count(), Ok(u64::MAX));
}

#[test]
fn bad_counter_bytes() {
    let mut g = Globals::new();
    g.global.insert(b"c", b"xyz");
    assert_eq!(g.current_count(), Err(Error::BadDatabase));
    assert_eq!(g.next_count(), Ok(1));
}

#[test]
fn database_version_and_update_check() {
    let mut g = Globals::new();
    assert_eq!(g.database_version(), Ok(0));
    g.bump_database_version(13);
    assert_eq!(g.database_version(), Ok(13));
    assert_eq!(g.last_check_for_updates_id(), Ok(0));
    g.update_check_for_updates_id(42);
    assert_eq!(g.last_check_for_updates_id(), Ok(42));
}

#[test]
fn short_event_id_round_trip() {
    let mut g = Globals::new();
    let mut ids = ShortIds::new();
    let a = ids.get_or_create_shorteventid(&mut g, "$event_a").unwrap();
    let b = ids.get_or_create_shorteventid(&mut g, "$event_b").unwrap();
    assert_ne!(a, b);
    assert_eq!(ids.get_or_create_shorteventid(&mut g, "$event_a"), Ok(a));
    assert_eq!(ids.get_eventid_from_short(&g, a), Ok("$event_a".to_owned()));
    assert_eq!(ids.get_eventid_from_short(&g, b), Ok("$event_b".to_owned()));
    assert_eq!(ids.get_eventid_from_short(&g, 999), Err(Error::BadDatabase));
    assert_eq!(ids.get_shorteventid(&g, "$event_b"), Some(b));
    assert_eq!(ids.get_shorteventid(&g, "$nope"), None);
}

#[test]
fn multi_short_event_ids() {
    let mut g = Globals::new();
    let mut ids = ShortIds::new();
    let a = ids.get_or_create_shorteventid(&mut g, "$a").unwrap();
    let r = ids
        .multi_get_or_create_shorteventid(&mut g, &vec!["$b".to_owned(), "$a".to_owned(), "$c".to_owned()])
        .unwrap();
    assert_eq!(r.len(), 3);
    assert_eq!(r[1], a);
    assert_eq!(ids.get_eventid_from_short(&g, r[0]), Ok("$b".to_owned()));
    assert_eq!(ids.get_eventid_from_short(&g, r[2]), Ok("$c".to_owned()));
}

#[test]
fn short_state_key_round_trip() {
    let mut g = Globals::new();
    let mut ids = ShortIds::new();
    let s = ids.get_or_create_shortstatekey(&mut g, "m.room.member", "@alice:srv").unwrap();
    assert_eq!(ids.get_shortstatekey(&g, "m.room.member", "@alice:srv"), Some(s));
    assert_eq!(ids.get_shortstatekey(&g, "m.room.name", ""), None);
    assert_eq!(
        ids.get_statekey_from_short(&g, s),
        Ok(("m.room.member".to_owned(), "@alice:srv".to_owned()))
    );
    let e = ids.get_or_create_shortstatekey(&mut g, "m.room.name", "").unwrap();
    assert_eq!(ids.get_statekey_from_short(&g, e), Ok(("m.room.name".to_owned(), String::new())));
    assert_eq!(ids.get_statekey_from_short(&g, 12345), Err(Error::BadDatabase));
}

#[test]
fn short_room_and_state_hash() {
    let mut g = Globals::new();
    let mut ids = ShortIds::new();
    assert_eq!(ids.get_shortroomid(&g, "!room:srv"), None);
    let r = ids.get_or_create_shortroomid(&mut g, "!room:srv").unwrap();
    assert_eq!(ids.get_shortroomid(&g, "!room:srv"), Some(r));
    assert_eq!(ids.get_or_create_shortroomid(&mut g, "!room:srv"), Ok(r));
    let r2 = ids.get_or_create_shortroomid(&mut g, "!other:srv").unwrap();
    assert_ne!(r, r2);
    let (h, existed) = ids.get_or_create_shortstatehash(&mut g, b"hash-1").unwrap();
    assert!(!existed);
    assert_eq!(ids.get_or_create_shortstatehash(&mut g, b"hash-1"), Ok((h, true)));
}

#[test]
fn caches_by_amount() {
    assert_eq!(caches_to_clear(1), (false, false, false, false));
    assert_eq!(caches_to_clear(3), (true, true, false, false));
    assert_eq!(caches_to_clear(9), (true, true, true, true));
}

#[test]
fn keypair_record() {
    assert_eq!(split_keypair(b"ed25519\xff\x01\x02"), Ok(("ed25519".to_owned(), vec![1, 2])));
    assert_eq!(split_keypair(b"no separator"), Err(Error::BadDatabase));
    assert_eq!(split_keypair(b"\xfe\xff\x01"), Err(Error::BadDatabase));
}

#[test]
fn signing_keys_merge() {
    let stored = ServerSigningKeys {
        verify_keys: vec![("ed25519:a".to_owned(), "KA".to_owned())],
        old_verify_keys: vec![],
    };
    let new = ServerSigningKeys {
        verify_keys: vec![("ed25519:b".to_owned(), "KB".to_owned())],
        old_verify_keys: vec![("ed25519:a".to_owned(), "KA-old".to_owned(), 5)],
    };
    let merged = add_signing_key(&stored, &new);
    assert_eq!(merged.verify_keys.len(), 2);
    let all = signing_keys_for(&merged);
    assert_eq!(
        all,
        vec![
            ("ed25519:a".to_owned(), "KA".to_owned()),
            ("ed25519:b".to_owned(), "KB".to_owned()),
            ("ed25519:a".to_owned(), "KA-old".to_owned())
        ]
    );
}

#[test]
fn media_file_names_and_locality() {
    assert_eq!(media_file_name(b"\xfb\xff"), "-_8");
    assert_eq!(media_file_name_hashed(b""), "47DEQpj8HBSa-_TImW-5JCeuQeRkm5NMpJWZG3hSuFU");
    assert!(server_is_ours("srv", "srv"));
    assert!(user_is_local("@a:srv", "srv"));
    assert!(!user_is_local("@a:other", "srv"));
    let stable = vec![RoomVersion::V10, RoomVersion::V11];
    let unstable = vec![RoomVersion::V3];
    assert_eq!(supported_room_versions(&stable, &unstable, false), stable);
    assert_eq!(supported_room_versions(&stable, &unstable, true), vec![RoomVersion::V10, RoomVersion::V11, RoomVersion::V3]);
}

#[test]
fn state_hash_of_event() {
    let mut g = Globals::new();
    let mut ids = ShortIds::new();
    let mut index = Tree::new();
    assert_eq!(pdu_shortstatehash(&ids, &g, &index, "$e"), Ok(None));
    let s = ids.get_or_create_shorteventid(&mut g, "$e").unwrap();
    assert_eq!(pdu_shortstatehash(&ids, &g, &index, "$e"), Ok(None));
    index.insert(&u64_to_bytes(s), &u64_to_bytes(77));
    assert_eq!(pdu_shortstatehash(&ids, &g, &index, "$e"), Ok(Some(77)));
    index.insert(&u64_to_bytes(s), b"bad");
    assert_eq!(pdu_shortstatehash(&ids, &g, &index, "$e"), Err(Error::BadDatabase));
}
