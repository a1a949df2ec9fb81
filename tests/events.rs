use homeserver_core::federation::{
    check_incoming_invite, check_join_room_version, edu_action, receipt_target, Edu, EduAction, EduPolicy, get_missing_events, join_authorising_user, join_server_forbidden, transaction_pdu_outcomes,
    wire_format_keeps_event_id, StoredEvent,
};
use homeserver_core::pdu::{event_id_for, is_preserved, redact, Pdu, RoomVersion};
use homeserver_core::state::{compress_state_event, parse_compressed_state_event, state_after, state_full_ids, state_get_id};
use homeserver_core::state_res::{resolve_power_event, str_less, PowerEvent};
use homeserver_core::timeline::update_forward_extremities;
use homeserver_core::{Error, ErrorKind};

#[test]
fn event_ids_by_room_version() {
    let v4 = event_id_for(RoomVersion::V4, b"", Some("$claimed".to_owned())).unwrap();
    assert_eq!(v4, "$47DEQpj8HBSa-_TImW-5JCeuQeRkm5NMpJWZG3hSuFU");
    let v3 = event_id_for(RoomVersion::V3, b"", None).unwrap();
    assert_eq!(v3, "$47DEQpj8HBSa+/TImW+5JCeuQeRkm5NMpJWZG3hSuFU");
    assert_eq!(event_id_for(RoomVersion::V11, b"", None), Ok(v4));
    assert_eq!(event_id_for(RoomVersion::V1, b"", Some("$abc:srv".to_owned())), Ok("$abc:srv".to_owned()));
    assert_eq!(event_id_for(RoomVersion::V2, b"", None), Err(Error::BadRequest(ErrorKind::BadJson)));
}

#[test]
fn federation_partial_failure() {
    let results = vec![
        ("$id1".to_owned(), Ok(())),
        ("$id2".to_owned(), Err(Error::BadRequest(ErrorKind::Forbidden))),
        ("$id3".to_owned(), Ok(())),
    ];
    let out = transaction_pdu_outcomes(&results);
    assert_eq!(
        out,
        vec![
            ("$id1".to_owned(), None),
            ("$id2".to_owned(), Some("M_FORBIDDEN".to_owned())),
            ("$id3".to_owned(), None)
        ]
    );
    let again = transaction_pdu_outcomes(&vec![("$a".to_owned(), Err(Error::BadDatabase)), ("$a".to_owned(), Ok(()))]);
    assert_eq!(again, vec![("$a".to_owned(), None)]);
}

fn ev(id: &str, room: &str, prev: &[&str], visible: bool) -> StoredEvent {
    StoredEvent {
        event_id: id.to_owned(),
        room_id: room.to_owned(),
        prev_events: prev.iter().map(|p| p.to_string()).collect(),
        visible,
    }
}

#[test]
fn missing_events_walk() {
    let events = vec![ev("$d", "!r", &["$c"], true), ev("$c", "!r", &["$b"], false), ev("$b", "!r", &["$a"], true), ev("$a", "!r", &[], true)];
    let r = get_missing_events("!r", &events, &vec!["$d".to_owned()], &vec![], 10).unwrap();
    assert_eq!(r, vec!["$d".to_owned()]);
    let events2 = vec![ev("$d", "!r", &["$c"], true), ev("$c", "!r", &["$b"], true), ev("$b", "!r", &["$a"], true), ev("$a", "!r", &[], true)];
    let r = get_missing_events("!r", &events2, &vec!["$d".to_owned()], &vec!["$b".to_owned()], 10).unwrap();
    assert_eq!(r, vec!["$d".to_owned(), "$c".to_owned()]);
    let r = get_missing_events("!r", &events2, &vec!["$d".to_owned()], &vec![], 2).unwrap();
    assert_eq!(r.len(), 2);
    let wrong = vec![ev("$d", "!other", &[], true)];
    assert_eq!(
        get_missing_events("!r", &wrong, &vec!["$d".to_owned()], &vec![], 10),
        Err(Error::BadRequest(ErrorKind::InvalidParam))
    );
}

#[test]
fn compressed_state_records() {
    let rec = compress_state_event(1, 258);
    assert_eq!(rec, vec![0, 0, 0, 0, 0, 0, 0, 1, 0, 0, 0, 0, 0, 0, 1, 2]);
    assert_eq!(parse_compressed_state_event(&rec), Ok((1, 258)));
    assert_eq!(parse_compressed_state_event(&rec[..15]), Err(Error::BadDatabase));
    let full = vec![compress_state_event(1, 10), compress_state_event(2, 20)];
    assert_eq!(state_full_ids(&full), Ok(vec![(1, 10), (2, 20)]));
    assert_eq!(state_get_id(&full, Some(2)), Some(20));
    assert_eq!(state_get_id(&full, Some(3)), None);
    assert_eq!(state_get_id(&full, None), None);
    assert_eq!(state_full_ids(&vec![vec![1, 2, 3]]), Err(Error::BadDatabase));
}

#[test]
fn state_event_changes_only_its_entry() {
    let before = vec![(1, 10), (2, 20)];
    assert_eq!(state_after(&before, Some(2), 21), vec![(1, 10), (2, 21)]);
    assert_eq!(state_after(&before, Some(3), 30), vec![(1, 10), (2, 20), (3, 30)]);
    assert_eq!(state_after(&before, None, 40), before);
}

#[test]
fn forward_extremities() {
    let ext = vec!["$a".to_owned(), "$b".to_owned()];
    let mut r = update_forward_extremities(&ext, &vec!["$a".to_owned()], "$c", false);
    r.sort();
    assert_eq!(r, vec!["$b".to_owned(), "$c".to_owned()]);
    let r = update_forward_extremities(&vec![], &vec![], "$x", false);
    assert_eq!(r, vec!["$x".to_owned()]);
    let r = update_forward_extremities(&ext, &vec!["$a".to_owned()], "$old", true);
    assert_eq!(r, vec!["$b".to_owned()]);
}

#[test]
fn state_resolution_tie_break() {
    let e1 = PowerEvent { origin_server_ts: 1000, event_id: "$aaa".to_owned() };
    let e2 = PowerEvent { origin_server_ts: 1000, event_id: "$bbb".to_owned() };
    assert_eq!(resolve_power_event(&vec![e2.clone(), e1.clone()]), Some(1));
    assert_eq!(resolve_power_event(&vec![e1.clone(), e2.clone()]), Some(0));
    let earlier = PowerEvent { origin_server_ts: 999, event_id: "$zzz".to_owned() };
    assert_eq!(resolve_power_event(&vec![e1.clone(), earlier.clone()]), Some(1));
    assert_eq!(resolve_power_event(&vec![]), None);
    assert!(str_less("$aaa", "$bbb"));
    assert!(str_less("$a", "$aa"));
    assert!(!str_less("$b", "$a"));
    assert!(!str_less("$a", "$a"));
}

#[test]
fn redaction_keeps_id_and_preserved_fields() {
    let pdu = Pdu {
        event_id: "$m".to_owned(),
        kind: "m.room.member".to_owned(),
        content: vec![
            ("membership".to_owned(), "\"join\"".to_owned()),
            ("displayname".to_owned(), "\"Al\"".to_owned()),
            ("join_authorized_via_users_server".to_owned(), "\"@x:s\"".to_owned()),
        ],
    };
    let v8 = redact(RoomVersion::V8, &pdu);
    assert_eq!(v8.event_id, "$m");
    assert_eq!(v8.content, vec![("membership".to_owned(), "\"join\"".to_owned())]);
    let v9 = redact(RoomVersion::V9, &pdu);
    assert_eq!(v9.content.len(), 2);
    assert!(is_preserved(RoomVersion::V11, "m.room.create", "anything"));
    assert!(!is_preserved(RoomVersion::V10, "m.room.create", "anything"));
    assert!(is_preserved(RoomVersion::V11, "m.room.power_levels", "invite"));
    assert!(!is_preserved(RoomVersion::V6, "m.room.message", "body"));
}

#[test]
fn make_join_decisions() {
    let forbidden = vec!["evil.org".to_owned()];
    assert!(join_server_forbidden(&forbidden, "evil.org", None));
    assert!(join_server_forbidden(&forbidden, "good.org", Some("evil.org")));
    assert!(!join_server_forbidden(&forbidden, "good.org", Some("srv")));
    let members = vec![("@a:srv".to_owned(), false), ("@b:srv".to_owned(), true), ("@c:srv".to_owned(), true)];
    assert_eq!(join_authorising_user(false, false, true, &members), Ok(None));
    assert_eq!(join_authorising_user(true, false, true, &members), Err(Error::BadRequest(ErrorKind::UnableToAuthorizeJoin)));
    assert_eq!(join_authorising_user(true, true, false, &members), Ok(None));
    assert_eq!(join_authorising_user(true, true, true, &members), Ok(Some("@b:srv".to_owned())));
    assert_eq!(
        join_authorising_user(true, true, true, &vec![("@a:srv".to_owned(), false)]),
        Err(Error::BadRequest(ErrorKind::UnableToGrantJoin))
    );
    assert_eq!(check_join_room_version(&vec![RoomVersion::V10, RoomVersion::V11], RoomVersion::V11), Ok(()));
    assert_eq!(
        check_join_room_version(&vec![RoomVersion::V10], RoomVersion::V11),
        Err(Error::BadRequest(ErrorKind::IncompatibleRoomVersion))
    );
    assert!(wire_format_keeps_event_id(RoomVersion::V2));
    assert!(!wire_format_keeps_event_id(RoomVersion::V3));
}

#[test]
fn missing_events_breadth_first_order() {
    let events = vec![
        ev("$d", "!r", &["$b", "$c"], true),
        ev("$c", "!r", &["$a"], true),
        ev("$b", "!r", &["$a"], true),
        ev("$a", "!r", &[], true),
    ];
    let r = get_missing_events("!r", &events, &vec!["$d".to_owned(), "$unknown".to_owned()], &vec![], 10).unwrap();
    assert_eq!(r, vec!["$d".to_owned(), "$b".to_owned(), "$c".to_owned(), "$a".to_owned(), "$a".to_owned()]);
}

#[test]
fn incoming_invite_checks() {
    let supported = vec![RoomVersion::V10, RoomVersion::V11];
    let banned = vec!["evil.org".to_owned()];
    let via = vec!["srv".to_owned()];
    let empty: Vec<String> = vec![];
    let ok = check_incoming_invite(&supported, RoomVersion::V11, &banned, "good.org", Some("good.org"), Some(&via), false, false, false);
    assert_eq!(ok, Ok(()));
    let fb = Err(Error::BadRequest(ErrorKind::Forbidden));
    assert_eq!(
        check_incoming_invite(&supported, RoomVersion::V1, &banned, "good.org", None, None, false, false, false),
        Err(Error::BadRequest(ErrorKind::IncompatibleRoomVersion))
    );
    assert_eq!(check_incoming_invite(&supported, RoomVersion::V11, &banned, "good.org", Some("evil.org"), None, false, false, false), fb);
    assert_eq!(check_incoming_invite(&supported, RoomVersion::V11, &banned, "evil.org", None, None, false, false, false), fb);
    assert_eq!(
        check_incoming_invite(&supported, RoomVersion::V11, &banned, "good.org", None, Some(&empty), false, false, false),
        Err(Error::BadRequest(ErrorKind::InvalidParam))
    );
    assert_eq!(check_incoming_invite(&supported, RoomVersion::V11, &banned, "good.org", None, None, true, false, false), fb);
    assert_eq!(check_incoming_invite(&supported, RoomVersion::V11, &banned, "good.org", None, None, true, true, false), Ok(()));
    assert_eq!(check_incoming_invite(&supported, RoomVersion::V11, &banned, "good.org", None, None, false, false, true), fb);
}

#[test]
fn incoming_edus() {
    let open = EduPolicy {
        allow_incoming_presence: true,
        allow_incoming_read_receipts: true,
        allow_incoming_typing: true,
        typing_federation_timeout_s: 30,
    };
    let closed = EduPolicy {
        allow_incoming_presence: false,
        allow_incoming_read_receipts: false,
        allow_incoming_typing: false,
        typing_federation_timeout_s: 30,
    };
    assert_eq!(edu_action(&Edu::Presence, &open, "o", 0), EduAction::SetPresence);
    assert_eq!(edu_action(&Edu::Presence, &closed, "o", 0), EduAction::Ignore);
    assert_eq!(edu_action(&Edu::Receipt, &closed, "o", 0), EduAction::Ignore);
    assert_eq!(edu_action(&Edu::Typing { typing: true, user_joined: true }, &open, "o", 1000), EduAction::AddTyping(31000));
    assert_eq!(edu_action(&Edu::Typing { typing: true, user_joined: true }, &open, "o", u64::MAX - 5), EduAction::AddTyping(u64::MAX));
    assert_eq!(edu_action(&Edu::Typing { typing: false, user_joined: true }, &open, "o", 0), EduAction::RemoveTyping);
    assert_eq!(edu_action(&Edu::Typing { typing: true, user_joined: false }, &open, "o", 0), EduAction::Ignore);
    assert_eq!(edu_action(&Edu::DeviceListUpdate, &closed, "o", 0), EduAction::MarkDeviceKeyUpdate);
    assert_eq!(edu_action(&Edu::DirectToDevice { seen_before: true }, &open, "o", 0), EduAction::Ignore);
    assert_eq!(edu_action(&Edu::DirectToDevice { seen_before: false }, &open, "o", 0), EduAction::DeliverToDevice);
    let keys = Edu::SigningKeyUpdate { user_id: "@u:o".to_owned(), has_master_key: true };
    assert_eq!(edu_action(&keys, &open, "o", 0), EduAction::AddCrossSigningKeys);
    assert_eq!(edu_action(&keys, &open, "other", 0), EduAction::Ignore);
    assert_eq!(edu_action(&Edu::Custom, &open, "o", 0), EduAction::Ignore);
}

#[test]
fn receipt_points_at_latest_known_event() {
    let ev = vec![("$a".to_owned(), Some(3)), ("$x".to_owned(), None), ("$b".to_owned(), Some(7)), ("$c".to_owned(), Some(7))];
    assert_eq!(receipt_target(&ev), Some(3));
    assert_eq!(receipt_target(&vec![("$x".to_owned(), None)]), None);
}
