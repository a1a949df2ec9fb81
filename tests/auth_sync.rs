use homeserver_core::appservice::{Namespace, Namespaces, Registration, RegistrationInfo};
use homeserver_core::auth::{auth_appservice, auth_route, x_matrix_destination_ok, AuthRoute, AuthScheme, TokenKind};
use homeserver_core::lazy_loading::LazyLoading;
use homeserver_core::sync::{
    drain_to_device, incremental_lazy_members, left_room_sync, new_invites, share_encrypted_room, sliding_list_ops,
    sync_wait_ms, StateEntry,
};
use homeserver_core::timeline::PduCount;
use homeserver_core::{Error, ErrorKind};

#[test]
fn auth_routes() {
    assert_eq!(auth_route(AuthScheme::AccessToken, TokenKind::Invalid, false, false), Err(Error::BadRequest(ErrorKind::UnknownToken)));
    assert_eq!(auth_route(AuthScheme::AccessToken, TokenKind::Appservice, false, false), Ok(AuthRoute::AppserviceUser));
    assert_eq!(auth_route(AuthScheme::AppserviceToken, TokenKind::Appservice, false, false), Ok(AuthRoute::AppserviceOnly));
    assert_eq!(auth_route(AuthScheme::AccessToken, TokenKind::Missing, false, false), Err(Error::BadRequest(ErrorKind::MissingToken)));
    assert_eq!(auth_route(AuthScheme::AccessTokenOptional, TokenKind::User, false, false), Ok(AuthRoute::User));
    assert_eq!(auth_route(AuthScheme::ServerSignatures, TokenKind::Missing, false, false), Ok(AuthRoute::Server));
    assert_eq!(auth_route(AuthScheme::ServerSignatures, TokenKind::User, false, false), Err(Error::BadRequest(ErrorKind::Unauthorized)));
    assert_eq!(auth_route(AuthScheme::AppserviceToken, TokenKind::User, false, false), Err(Error::BadRequest(ErrorKind::Unauthorized)));
    assert_eq!(auth_route(AuthScheme::Unauthenticated, TokenKind::Missing, false, false), Ok(AuthRoute::Anonymous));
    assert_eq!(auth_route(AuthScheme::Unauthenticated, TokenKind::Missing, true, false), Err(Error::BadRequest(ErrorKind::MissingToken)));
    assert_eq!(auth_route(AuthScheme::Unauthenticated, TokenKind::Missing, true, true), Ok(AuthRoute::Anonymous));
    assert_eq!(auth_route(AuthScheme::Unauthenticated, TokenKind::User, true, false), Ok(AuthRoute::User));
    assert_eq!(Error::BadRequest(ErrorKind::UnknownToken).errcode(), "M_UNKNOWN_TOKEN");
    assert_eq!(Error::BadDatabase.errcode(), "M_UNKNOWN");
}

#[test]
fn appservice_sender() {
    let info = RegistrationInfo::try_from(Registration {
        id: "irc".to_owned(),
        url: None,
        as_token: "t".to_owned(),
        hs_token: "h".to_owned(),
        sender_localpart: "ircbot".to_owned(),
        namespaces: Namespaces {
            users: vec![Namespace { exclusive: true, regex: "^@irc_.*".to_owned() }],
            aliases: vec![],
            rooms: vec![],
        },
    })
    .unwrap();
    assert_eq!(auth_appservice(&info, None, "srv", true), Ok("@ircbot:srv".to_owned()));
    assert_eq!(auth_appservice(&info, Some("@irc_x:srv"), "srv", true), Ok("@irc_x:srv".to_owned()));
    assert_eq!(auth_appservice(&info, Some("@alice:srv"), "srv", true), Err(Error::BadRequest(ErrorKind::Exclusive)));
    assert_eq!(auth_appservice(&info, Some("@irc_x:srv"), "srv", false), Err(Error::BadRequest(ErrorKind::Forbidden)));
    assert!(x_matrix_destination_ok(None, "srv"));
    assert!(x_matrix_destination_ok(Some("srv"), "srv"));
    assert!(!x_matrix_destination_ok(Some("other"), "srv"));
}

#[test]
fn encrypted_room_sharing() {
    let rooms = vec![("!a".to_owned(), true), ("!b".to_owned(), false)];
    assert!(share_encrypted_room(&rooms, "!b"));
    assert!(!share_encrypted_room(&rooms, "!a"));
    assert!(!share_encrypted_room(&vec![], "!a"));
}

fn member(u: &str) -> StateEntry {
    StateEntry { event_type: "m.room.member".to_owned(), state_key: u.to_owned(), event_id: format!("$m_{u}") }
}

#[test]
fn incremental_members() {
    let mut ll = LazyLoading::new();
    ll.lazy_load_mark_sent("@me:s", "D", "!r", vec!["@old:s".to_owned()], PduCount::Normal(1));
    ll.lazy_load_confirm_delivery("@me:s", "D", "!r", PduCount::Normal(1));
    let delta = vec![member("@new:s")];
    let senders = vec!["@new:s".to_owned(), "@old:s".to_owned(), "@x:s".to_owned(), "@x:s".to_owned(), "@ghost:s".to_owned()];
    let members = vec![member("@new:s"), member("@old:s"), member("@x:s")];
    let (extra, loaded) = incremental_lazy_members(&ll, "@me:s", "D", "!r", &delta, &senders, &members, false);
    assert_eq!(extra.len(), 1);
    assert_eq!(extra[0].state_key, "@x:s");
    assert_eq!(loaded, vec!["@new:s".to_owned(), "@x:s".to_owned()]);
    let (extra, _) = incremental_lazy_members(&ll, "@me:s", "D", "!r", &delta, &senders, &members, true);
    assert_eq!(extra.iter().map(|e| e.state_key.as_str()).collect::<Vec<_>>(), vec!["@old:s", "@x:s"]);
}

#[test]
fn sliding_ranges() {
    let joined = vec!["!a".to_owned(), "!b".to_owned(), "!c".to_owned()];
    let ops = sliding_list_ops(&joined, &vec![(0, 1), (1, 10), (5, 2), (2, 0)]);
    assert_eq!(ops[0], (0, 1, vec!["!a".to_owned(), "!b".to_owned()]));
    assert_eq!(ops[1], (1, 2, vec!["!b".to_owned(), "!c".to_owned()]));
    assert_eq!(ops[2], (2, 2, vec!["!c".to_owned()]));
    assert_eq!(ops[3], (2, 2, vec!["!c".to_owned()]));
    let none = sliding_list_ops(&vec![], &vec![(0, 5)]);
    assert_eq!(none, vec![(0, 0, Vec::<String>::new())]);
}

#[test]
fn sync_waiting_invites_and_to_device() {
    assert_eq!(sync_wait_ms(false, true, Some(5000)), 5000);
    assert_eq!(sync_wait_ms(false, true, Some(90000)), 30000);
    assert_eq!(sync_wait_ms(false, true, None), 0);
    assert_eq!(sync_wait_ms(true, true, Some(5000)), 0);
    assert_eq!(sync_wait_ms(false, false, Some(5000)), 0);
    let invites = vec![("!old".to_owned(), Some(3)), ("!new".to_owned(), Some(9)), ("!none".to_owned(), None)];
    assert_eq!(new_invites(&invites, 5), vec!["!new".to_owned()]);
    let msgs = vec![(4, b"a".to_vec()), (6, b"b".to_vec()), (5, b"c".to_vec())];
    assert_eq!(drain_to_device(&msgs, 5), vec![(6, b"b".to_vec())]);
}

#[test]
fn left_room_report() {
    let since = vec![(1, 10), (2, 20)];
    let left = vec![(1, 10), (2, 21), (3, 30)];
    let r = left_room_sync(&since, &left, false);
    assert_eq!(r.state, vec![(2, 21), (3, 30)]);
    assert!(r.timeline.is_empty());
    assert!(!r.limited);
    assert_eq!(left_room_sync(&since, &left, true).state, left);
}
