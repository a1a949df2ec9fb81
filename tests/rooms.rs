use homeserver_core::appservice::{CompiledSet, Namespace, Namespaces, Registration, RegistrationInfo};
use homeserver_core::room::{
    check_join, custom_room_id_check, default_power_levels_content, effective_preset, guest_access_for,
    initial_power_users, join_rule_for, move_local_aliases, plan_room_upgrade, room_alias_check,
    room_creation_event_types, transferable_state_events, transferred_state, upgraded_power_levels, GuestAccess, JoinRule, Membership,
    PowerLevels, PowerLevelsOverride, RoomPreset, Visibility,
};
use homeserver_core::globals::Globals;
use homeserver_core::timeline::{load_timeline, Timeline};
use homeserver_core::{Error, ErrorKind};

fn level(v: &[(String, i64)], name: &str) -> Option<i64> {
    v.iter().rev().find(|(n, _)| n == name).map(|(_, l)| *l)
}

fn base_levels() -> PowerLevels {
    default_power_levels_content(&None, Visibility::Private, vec![("@a:srv".to_owned(), 100)])
}

#[test]
fn presets() {
    assert_eq!(effective_preset(None, Visibility::Public), RoomPreset::PublicChat);
    assert_eq!(effective_preset(None, Visibility::Private), RoomPreset::PrivateChat);
    assert_eq!(effective_preset(Some(RoomPreset::TrustedPrivateChat), Visibility::Public), RoomPreset::TrustedPrivateChat);
    assert_eq!(join_rule_for(RoomPreset::PublicChat), JoinRule::Public);
    assert_eq!(join_rule_for(RoomPreset::PrivateChat), JoinRule::Invite);
    assert_eq!(guest_access_for(RoomPreset::PublicChat), GuestAccess::Forbidden);
    assert_eq!(guest_access_for(RoomPreset::TrustedPrivateChat), GuestAccess::CanJoin);
}

#[test]
fn create_public_room_state_events() {
    let types = room_creation_event_types(false, &vec![], true, false, false);
    assert_eq!(
        types,
        vec![
            "m.room.create",
            "m.room.member",
            "m.room.power_levels",
            "m.room.join_rules",
            "m.room.history_visibility",
            "m.room.guest_access"
        ]
    );
    let full = room_creation_event_types(
        true,
        &vec![("m.room.encryption".to_owned(), false), ("m.room.topic".to_owned(), true)],
        true,
        true,
        true,
    );
    assert_eq!(full.len(), 10);
    let no_enc = room_creation_event_types(false, &vec![("m.room.encryption".to_owned(), false)], false, false, false);
    assert_eq!(no_enc.len(), 6);
    assert_eq!(full[3], "m.room.canonical_alias");
    assert_eq!(full[7], "m.room.encryption");
    assert_eq!(full[9], "m.room.topic");
}

#[test]
fn invite_only_room_blocks_join() {
    let rule = join_rule_for(effective_preset(Some(RoomPreset::PrivateChat), Visibility::Private));
    assert_eq!(check_join(rule, None), Err(Error::BadRequest(ErrorKind::Forbidden)));
    assert_eq!(check_join(rule, None).unwrap_err().errcode(), "M_FORBIDDEN");
    assert_eq!(check_join(rule, Some(Membership::Invite)), Ok(()));
    assert_eq!(check_join(JoinRule::Public, None), Ok(()));
    assert_eq!(check_join(JoinRule::Public, Some(Membership::Ban)), Err(Error::BadRequest(ErrorKind::Forbidden)));
}

#[test]
fn default_levels_private() {
    let p = base_levels();
    assert_eq!((p.ban, p.kick, p.redact, p.state_default), (50, 50, 50, 50));
    assert_eq!((p.events_default, p.invite, p.users_default), (0, 0, 0));
    assert_eq!(level(&p.events, "m.room.power_levels"), Some(100));
    assert_eq!(level(&p.events, "m.room.tombstone"), Some(100));
    assert_eq!(level(&p.events, "m.call.invite"), None);
    assert_eq!(level(&p.users, "@a:srv"), Some(100));
}

#[test]
fn default_levels_public_and_override() {
    let p = default_power_levels_content(&None, Visibility::Public, vec![]);
    assert_eq!(level(&p.events, "m.call.invite"), Some(50));
    assert_eq!(level(&p.events, "org.matrix.msc3401.call.member"), Some(50));
    let o = PowerLevelsOverride {
        ban: Some(75),
        events: None,
        events_default: None,
        invite: Some(10),
        kick: None,
        redact: None,
        state_default: None,
        users: Some(vec![("@b:srv".to_owned(), 30)]),
        users_default: None,
        notifications_room: None,
    };
    let q = default_power_levels_content(&Some(o), Visibility::Public, vec![("@a:srv".to_owned(), 100)]);
    assert_eq!(q.ban, 75);
    assert_eq!(q.invite, 10);
    assert_eq!(q.kick, 50);
    assert_eq!(level(&q.users, "@a:srv"), None);
    assert_eq!(level(&q.users, "@b:srv"), Some(30));
    assert_eq!(level(&q.events, "m.call.invite"), Some(50));
}

#[test]
fn trusted_private_chat_raises_invitees() {
    let invites = vec!["@b:srv".to_owned(), "@a:srv".to_owned()];
    let u = initial_power_users("@a:srv", RoomPreset::TrustedPrivateChat, &invites);
    assert_eq!(u.len(), 2);
    assert_eq!(level(&u, "@b:srv"), Some(100));
    let v = initial_power_users("@a:srv", RoomPreset::PrivateChat, &invites);
    assert_eq!(v, vec![("@a:srv".to_owned(), 100)]);
}

#[test]
fn upgrade_raises_levels() {
    let mut p = base_levels();
    let up = upgraded_power_levels(p.clone());
    assert_eq!(up.events_default, 50);
    assert_eq!(up.invite, 50);
    p.users_default = 60;
    let up = upgraded_power_levels(p);
    assert_eq!(up.events_default, 61);
    assert_eq!(up.invite, 61);
}

#[test]
fn room_upgrade_moves_aliases() {
    let aliases = vec![("#room:srv".to_owned(), "!old:srv".to_owned()), ("#other:srv".to_owned(), "!x:srv".to_owned())];
    let plan = plan_room_upgrade("!old:srv", "!new:srv", base_levels(), &aliases);
    assert_eq!(plan.tombstone.replacement_room, "!new:srv");
    assert_eq!(plan.tombstone.body, "This room has been replaced");
    assert!(plan.old_room_power_levels.events_default >= 50);
    assert_eq!(plan.aliases[0], ("#room:srv".to_owned(), "!new:srv".to_owned()));
    assert_eq!(plan.aliases[1], ("#other:srv".to_owned(), "!x:srv".to_owned()));
    assert_eq!(move_local_aliases(&vec![], "!old:srv", "!new:srv").len(), 0);
    assert_eq!(transferable_state_events().len(), 9);
    assert_eq!(transferable_state_events()[8], "m.room.power_levels");
}

fn forbidden() -> CompiledSet {
    CompiledSet::new(&vec!["^admin".to_owned()]).unwrap()
}

fn registration(alias_regex: &str) -> RegistrationInfo {
    RegistrationInfo::try_from(Registration {
        id: "bridge".to_owned(),
        url: None,
        as_token: "as".to_owned(),
        hs_token: "hs".to_owned(),
        sender_localpart: "bot".to_owned(),
        namespaces: Namespaces {
            users: vec![],
            aliases: vec![Namespace { exclusive: true, regex: alias_regex.to_owned() }],
            rooms: vec![],
        },
    })
    .unwrap()
}

#[test]
fn alias_checks() {
    let f = forbidden();
    assert_eq!(room_alias_check("room", "srv", &f, false, &None, false), Ok("#room:srv".to_owned()));
    let bad = Err(Error::BadRequest(ErrorKind::InvalidParam));
    assert_eq!(room_alias_check("a:b", "srv", &f, false, &None, false), bad);
    assert_eq!(room_alias_check("a b", "srv", &f, false, &None, false), bad);
    assert_eq!(room_alias_check("a\"b", "srv", &f, false, &None, false), bad);
    assert_eq!(room_alias_check(&"x".repeat(256), "srv", &f, false, &None, false), bad);
    assert!(room_alias_check(&"x".repeat(255), "srv", &f, false, &None, false).is_ok());
    assert_eq!(room_alias_check("admins", "srv", &f, false, &None, false), Err(Error::BadRequest(ErrorKind::Unknown)));
    assert_eq!(room_alias_check("room", "srv", &f, true, &None, false), Err(Error::BadRequest(ErrorKind::RoomInUse)));
    assert_eq!(room_alias_check("room", "srv", &f, false, &None, true), Err(Error::BadRequest(ErrorKind::Exclusive)));
    let info = Some(registration("^#bridge_.*"));
    assert_eq!(room_alias_check("room", "srv", &f, false, &info, false), Err(Error::BadRequest(ErrorKind::Exclusive)));
    assert_eq!(room_alias_check("bridge_x", "srv", &f, false, &info, false), Ok("#bridge_x:srv".to_owned()));
}

#[test]
fn custom_room_ids() {
    let f = forbidden();
    assert_eq!(custom_room_id_check("myroom", "srv", &f), Ok("!myroom:srv".to_owned()));
    assert_eq!(custom_room_id_check("!myroom", "srv", &f), Ok("!!myroom:srv".to_owned()));
    assert_eq!(custom_room_id_check("admin", "srv", &f), Err(Error::BadRequest(ErrorKind::Unknown)));
    assert_eq!(custom_room_id_check("a:b", "srv", &f), Err(Error::BadRequest(ErrorKind::InvalidParam)));
    assert_eq!(custom_room_id_check("a\tb", "srv", &f), Err(Error::BadRequest(ErrorKind::InvalidParam)));
}

#[test]
fn create_room_then_send_message() {
    let mut g = Globals::new();
    let mut t = Timeline::new();
    for kind in room_creation_event_types(false, &vec![], true, false, false) {
        t.append(&mut g, format!("$create_{kind}")).unwrap();
    }
    let next_batch = g.current_count().unwrap();
    let (window, _) = load_timeline(t.entries(), next_batch, 10);
    assert!(window.is_empty());
    t.append(&mut g, "$hi".to_owned()).unwrap();
    let (window, limited) = load_timeline(t.entries(), next_batch, 10);
    assert_eq!(window.len(), 1);
    assert_eq!(window[0].1, "$hi");
    assert!(!limited);
}

#[test]
fn upgrade_copies_transferable_state() {
    let old = vec![
        ("m.room.power_levels".to_owned(), "{pl}".to_owned()),
        ("m.room.name".to_owned(), "{name}".to_owned()),
        ("m.room.message".to_owned(), "{x}".to_owned()),
    ];
    assert_eq!(
        transferred_state(&old),
        vec![("m.room.name".to_owned(), "{name}".to_owned()), ("m.room.power_levels".to_owned(), "{pl}".to_owned())]
    );
    assert!(transferred_state(&vec![]).is_empty());
}
