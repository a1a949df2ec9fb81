use homeserver_core::appservice::{user_localpart, Namespace, NamespaceRegex, Namespaces, Registration, RegistrationInfo, Service};
use homeserver_core::media::{Media, UrlPreviewData};
use homeserver_core::{Error, ErrorKind};

fn ns(exclusive: bool, regex: &str) -> Namespace {
    Namespace { exclusive, regex: regex.to_owned() }
}

fn reg(id: &str, token: &str) -> Registration {
    Registration {
        id: id.to_owned(),
        url: None,
        as_token: token.to_owned(),
        hs_token: "hs".to_owned(),
        sender_localpart: format!("{id}_bot"),
        namespaces: Namespaces {
            users: vec![ns(true, &format!("^@{id}_.*:srv$")), ns(false, "^@shared_.*")],
            aliases: vec![ns(true, &format!("^#{id}_.*"))],
            rooms: vec![],
        },
    }
}

#[test]
fn namespace_matching() {
    let n = NamespaceRegex::try_from(vec![ns(true, "^@irc_.*"), ns(false, "^@shared")]).unwrap();
    assert!(n.is_exclusive_match("@irc_bob:srv"));
    assert!(!n.is_exclusive_match("@shared_x:srv"));
    assert!(n.is_match("@shared_x:srv"));
    assert!(!n.is_match("@alice:srv"));
    let empty = NamespaceRegex::try_from(vec![]).unwrap();
    assert!(empty.exclusive.is_none() && empty.non_exclusive.is_none());
    assert!(!empty.is_match("anything"));
    assert_eq!(NamespaceRegex::try_from(vec![ns(true, "(")]).err(), Some(Error::BadRequest(ErrorKind::InvalidParam)));
}

#[test]
fn registration_user_matching() {
    let info = RegistrationInfo::try_from(reg("irc", "tok")).unwrap();
    assert!(info.is_user_match("@irc_bob:srv"));
    assert!(info.is_user_match("@shared_1:srv"));
    assert!(info.is_user_match("@irc_bot:srv"));
    assert!(!info.is_user_match("@alice:srv"));
    assert!(info.is_exclusive_user_match("@irc_bot:other"));
    assert!(!info.is_exclusive_user_match("@shared_1:srv"));
    assert_eq!(user_localpart("@alice:srv"), "alice");
    assert_eq!(user_localpart("@alice"), "alice");
}

#[test]
fn appservice_registry() {
    let mut s = Service::new();
    assert_eq!(s.register_appservice(reg("irc", "t1")), Ok("irc".to_owned()));
    assert_eq!(s.register_appservice(reg("slack", "t2")), Ok("slack".to_owned()));
    assert_eq!(s.register_appservice(reg("irc", "t3")), Ok("irc".to_owned()));
    assert_eq!(s.iter_ids(), vec!["irc".to_owned(), "slack".to_owned()]);
    assert_eq!(s.get_registration("irc").unwrap().as_token, "t3");
    assert!(s.find_from_token("t1").is_none());
    assert_eq!(s.find_from_token("t2").unwrap().registration.id, "slack");
    assert!(s.is_exclusive_user_id("@slack_x:srv"));
    assert!(!s.is_exclusive_user_id("@shared_x:srv"));
    assert!(s.is_exclusive_alias("#irc_chan:srv"));
    assert!(!s.is_exclusive_alias("#other:srv"));
    assert!(!s.is_exclusive_room_id("!r:srv"));
    assert_eq!(s.unregister_appservice("irc"), Ok(()));
    assert_eq!(s.unregister_appservice("irc"), Err(Error::BadRequest(ErrorKind::NotFound)));
    assert_eq!(s.iter_ids(), vec!["slack".to_owned()]);
    let mut bad = reg("bad", "t");
    bad.namespaces.rooms = vec![ns(false, "[")];
    assert_eq!(s.register_appservice(bad), Err(Error::BadRequest(ErrorKind::InvalidParam)));
}

#[test]
fn media_metadata() {
    let mut m = Media::new();
    let key = m
        .create_file_metadata(Some("@u:srv"), "mxc://srv/abc", 0, 0, Some("inline; filename=a.png"), Some("image/png"))
        .unwrap();
    let mut expected = b"mxc://srv/abc\xff\0\0\0\0\0\0\0\0\xffinline; filename=a.png\xffimage/png".to_vec();
    assert_eq!(key, expected);
    m.create_file_metadata(None, "mxc://srv/abc", 32, 32, None, Some("image/png")).unwrap();
    let (cd, ct, k) = m.search_file_metadata("mxc://srv/abc", 0, 0).unwrap();
    assert_eq!(cd, Some("inline; filename=a.png".to_owned()));
    assert_eq!(ct, Some("image/png".to_owned()));
    assert_eq!(k, key);
    let (cd, ct, _) = m.search_file_metadata("mxc://srv/abc", 32, 32).unwrap();
    assert_eq!(cd, None);
    assert_eq!(ct, Some("image/png".to_owned()));
    assert_eq!(m.search_file_metadata("mxc://srv/abc", 1, 1), Err(Error::BadRequest(ErrorKind::NotFound)));
    assert_eq!(m.search_mxc_metadata_prefix("mxc://srv/abc").unwrap().len(), 2);
    assert_eq!(m.get_all_media_keys().len(), 2);
    m.delete_file_mxc("mxc://srv/abc");
    assert_eq!(m.search_mxc_metadata_prefix("mxc://srv/abc"), Err(Error::BadDatabase));
    assert!(m.mediaid_user.get(b"mxc://srv/abc").is_none());
    expected.clear();
}

#[test]
fn url_previews() {
    let mut m = Media::new();
    assert_eq!(m.get_url_preview("https://e.x"), None);
    let data = UrlPreviewData {
        title: Some("Title".to_owned()),
        description: None,
        image: Some("mxc://srv/img".to_owned()),
        image_size: Some(1234),
        image_width: Some(640),
        image_height: None,
    };
    m.set_url_preview("https://e.x", &data, 1_700_000_000);
    assert_eq!(m.get_url_preview("https://e.x"), Some(data));
    m.remove_url_preview("https://e.x");
    assert_eq!(m.get_url_preview("https://e.x"), None);
}
