use homeserver_core::globals::Globals;
use homeserver_core::lazy_loading::LazyLoading;
use homeserver_core::sync::{
    calculate_heroes, initial_sync_state, left_room_is_new, merge_presence, room_name_from_heroes,
    sliding_timeline_limit, HeroCandidate, PresenceContent, StateEntry,
};
use homeserver_core::timeline::{load_timeline, sync_window, PduCount, Timeline};

fn cand(u: &str, jo: bool, still: bool) -> HeroCandidate {
    HeroCandidate { user_id: u.to_owned(), join_or_invite: jo, still_member: still }
}

#[test]
fn heroes_small_room() {
    let c = vec![cand("@me:s", true, true), cand("@a:s", true, true), cand("@a:s", true, true), cand("@b:s", true, false), cand("@c:s", false, true), cand("@d:s", true, true)];
    assert_eq!(calculate_heroes(&c, "@me:s", 3, 1), vec!["@a:s".to_owned(), "@d:s".to_owned()]);
    assert_eq!(calculate_heroes(&c, "@me:s", 5, 1), Vec::<String>::new());
}

#[test]
fn heroes_at_most_five() {
    let c: Vec<HeroCandidate> = (0..8).map(|i| cand(&format!("@u{i}:s"), true, true)).collect();
    assert_eq!(calculate_heroes(&c, "@me:s", 2, 2).len(), 5);
}

fn entry(t: &str, k: &str, id: &str) -> StateEntry {
    StateEntry { event_type: t.to_owned(), state_key: k.to_owned(), event_id: id.to_owned() }
}

#[test]
fn lazy_loading_sync() {
    let mut state = vec![entry("m.room.create", "", "$c"), entry("m.room.name", "", "$n")];
    for i in 0..100 {
        state.push(entry("m.room.member", &format!("@u{i}:s"), &format!("$m{i}")));
    }
    let senders = vec!["@u1:s".to_owned(), "@u2:s".to_owned()];
    let (sent, loaded) = initial_sync_state(&state, &senders, true, false);
    assert_eq!(sent.len(), 4);
    let members: Vec<&str> = sent.iter().filter(|e| e.event_type == "m.room.member").map(|e| e.state_key.as_str()).collect();
    assert_eq!(members, vec!["@u1:s", "@u2:s"]);
    assert_eq!(loaded, vec!["@u1:s".to_owned(), "@u2:s".to_owned()]);
    let (all, _) = initial_sync_state(&state, &senders, false, false);
    assert_eq!(all.len(), 102);
    let (full, _) = initial_sync_state(&state, &senders, true, true);
    assert_eq!(full.len(), 102);
}

#[test]
fn timeline_window_and_monotonic_sync() {
    let mut g = Globals::new();
    let mut t = Timeline::new();
    for i in 0..5 {
        t.append(&mut g, format!("$e{i}")).unwrap();
    }
    let counts: Vec<u64> = t.entries().iter().map(|e| e.0).collect();
    assert_eq!(counts, vec![1, 2, 3, 4, 5]);
    let (w, limited) = load_timeline(t.entries(), 0, 10);
    assert_eq!(w.len(), 5);
    assert!(!limited);
    let (w, limited) = load_timeline(t.entries(), 1, 2);
    assert_eq!(w.iter().map(|e| e.1.as_str()).collect::<Vec<_>>(), vec!["$e3", "$e4"]);
    assert!(limited);
    let (first, _) = load_timeline(t.entries(), 0, 100);
    let (before, _) = load_timeline(&first[..3].to_vec(), 0, 100);
    let (after, _) = load_timeline(t.entries(), 3, 100);
    let mut joined = before.clone();
    joined.extend(after.clone());
    assert_eq!(joined, first);
    assert!(before.iter().all(|b| after.iter().all(|a| a.0 != b.0)));
    let (none, limited) = load_timeline(t.entries(), 5, 10);
    assert!(none.is_empty() && !limited);
}

#[test]
fn pdu_counts_order() {
    assert!(PduCount::Backfilled(5).is_before(&PduCount::Backfilled(1)));
    assert!(PduCount::Backfilled(0).is_before(&PduCount::Normal(0)));
    assert!(!PduCount::Normal(3).is_before(&PduCount::Normal(3)));
    assert!(PduCount::min().is_before(&PduCount::max()));
}

#[test]
fn presence_merge_prefers_new_when_present() {
    let old = PresenceContent {
        presence: "online".to_owned(),
        status_msg: Some("busy".to_owned()),
        last_active_ago: Some(10),
        displayname: Some("A".to_owned()),
        avatar_url: None,
        currently_active: Some(true),
    };
    let new = PresenceContent {
        presence: "unavailable".to_owned(),
        status_msg: None,
        last_active_ago: Some(20),
        displayname: None,
        avatar_url: Some("mxc://a".to_owned()),
        currently_active: None,
    };
    let m = merge_presence(old, new);
    assert_eq!(m.presence, "unavailable");
    assert_eq!(m.status_msg, Some("busy".to_owned()));
    assert_eq!(m.last_active_ago, Some(20));
    assert_eq!(m.displayname, Some("A".to_owned()));
    assert_eq!(m.avatar_url, Some("mxc://a".to_owned()));
    assert_eq!(m.currently_active, Some(true));
}

#[test]
fn sliding_sync_helpers() {
    assert_eq!(sliding_timeline_limit(None), 10);
    assert_eq!(sliding_timeline_limit(Some(3)), 3);
    assert_eq!(sliding_timeline_limit(Some(500)), 100);
    assert_eq!(room_name_from_heroes(&vec![]), None);
    assert_eq!(room_name_from_heroes(&vec!["Ann".to_owned()]), Some("Ann".to_owned()));
    assert_eq!(
        room_name_from_heroes(&vec!["Ann".to_owned(), "Bob".to_owned(), "Cid".to_owned()]),
        Some("Bob, Cid and Ann".to_owned())
    );
    assert!(left_room_is_new(5, Some(6)));
    assert!(!left_room_is_new(5, Some(5)));
    assert!(!left_room_is_new(5, None));
}

#[test]
fn lazy_loading_service() {
    let mut ll = LazyLoading::new();
    assert!(!ll.lazy_load_was_sent_before("@me:s", "DEV", "!r:s", "@a:s"));
    ll.lazy_load_mark_sent("@me:s", "DEV", "!r:s", vec!["@a:s".to_owned()], PduCount::Normal(7));
    assert!(!ll.lazy_load_was_sent_before("@me:s", "DEV", "!r:s", "@a:s"));
    ll.lazy_load_confirm_delivery("@me:s", "DEV", "!r:s", PduCount::Normal(6));
    assert!(!ll.lazy_load_was_sent_before("@me:s", "DEV", "!r:s", "@a:s"));
    ll.lazy_load_confirm_delivery("@me:s", "DEV", "!r:s", PduCount::Normal(7));
    assert!(ll.lazy_load_was_sent_before("@me:s", "DEV", "!r:s", "@a:s"));
    assert!(!ll.lazy_load_was_sent_before("@me:s", "OTHER", "!r:s", "@a:s"));
    ll.lazy_load_reset("@me:s", "DEV", "!r:s");
    assert!(!ll.lazy_load_was_sent_before("@me:s", "DEV", "!r:s", "@a:s"));
}

#[test]
fn consecutive_sync_windows() {
    let mut g = Globals::new();
    let mut t = Timeline::new();
    for i in 0..6 {
        t.append(&mut g, format!("$e{i}")).unwrap();
    }
    let (first, l1) = sync_window(t.entries(), 1, 4, 10);
    let (second, l2) = sync_window(t.entries(), 4, 6, 10);
    assert!(!l1 && !l2);
    assert_eq!(first.iter().map(|e| e.0).collect::<Vec<_>>(), vec![2, 3, 4]);
    assert_eq!(second.iter().map(|e| e.0).collect::<Vec<_>>(), vec![5, 6]);
    let (whole, _) = sync_window(t.entries(), 1, 6, 10);
    let mut joined = first.clone();
    joined.extend(second);
    assert_eq!(joined, whole);
    let (last_two, limited) = sync_window(t.entries(), 0, 6, 2);
    assert!(limited);
    assert_eq!(last_two.iter().map(|e| e.0).collect::<Vec<_>>(), vec![5, 6]);
}
