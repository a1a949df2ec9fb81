use vstd::prelude::*;
use crate::appservice::{CompiledSet, RegistrationInfo};
use crate::error::{Error, ErrorKind};
use crate::text::{chars_of, contains, contains_seq};
use vstd::string::{StrSliceExecFns, StringExecFns, StringSliceAdditionalSpecFns};

verus! {

/// The largest magnitude of a power level: integers that JSON carries exactly.
pub const MAX_LEVEL: i64 = 9007199254740991;

/// A level that canonical JSON can carry.
pub open spec fn level_ok(l: i64) -> bool {
    -MAX_LEVEL <= l <= MAX_LEVEL
}

/// Who may see a room in the directory.
#[derive(Clone, Copy, Debug, PartialEq, Eq, Structural)]
pub enum Visibility {
    Public,
    Private,
}

/// The preset a room is created with.
#[derive(Clone, Copy, Debug, PartialEq, Eq, Structural)]
pub enum RoomPreset {
    PrivateChat,
    PublicChat,
    TrustedPrivateChat,
}

/// Who may join.
#[derive(Clone, Copy, Debug, PartialEq, Eq, Structural)]
pub enum JoinRule {
    Public,
    Invite,
}

/// Whether guests may join.
#[derive(Clone, Copy, Debug, PartialEq, Eq, Structural)]
pub enum GuestAccess {
    CanJoin,
    Forbidden,
}

/// The preset that applies: the requested one, else public chat for a
/// public room and private chat otherwise.
pub fn effective_preset(preset: Option<RoomPreset>, visibility: Visibility) -> (r: RoomPreset)
    ensures
        preset is Some ==> r == preset->Some_0,
        preset is None ==> r == (if visibility == Visibility::Public {
            RoomPreset::PublicChat
        } else {
            RoomPreset::PrivateChat
        }),
{
    match preset {
        Some(p) => p,
        None => match visibility {
            Visibility::Public => RoomPreset::PublicChat,
            Visibility::Private => RoomPreset::PrivateChat,
        },
    }
}

/// Public chat rooms are public; every other preset is invite-only.
pub fn join_rule_for(preset: RoomPreset) -> (r: JoinRule)
    ensures
        r == (if preset == RoomPreset::PublicChat {
            JoinRule::Public
        } else {
            JoinRule::Invite
        }),
{
    match preset {
        RoomPreset::PublicChat => JoinRule::Public,
        _ => JoinRule::Invite,
    }
}

/// Guests may join every room but a public chat.
pub fn guest_access_for(preset: RoomPreset) -> (r: GuestAccess)
    ensures
        r == (if preset == RoomPreset::PublicChat {
            GuestAccess::Forbidden
        } else {
            GuestAccess::CanJoin
        }),
{
    match preset {
        RoomPreset::PublicChat => GuestAccess::Forbidden,
        _ => GuestAccess::CanJoin,
    }
}

/// A map from names to levels, as ordered records with distinct names.
pub open spec fn levels_view(v: Seq<(String, i64)>) -> Seq<(Seq<char>, i64)> {
    v.map_values(|e: (String, i64)| (e.0@, e.1))
}

/// The level a record list gives `name`, if any.
pub open spec fn level_of(v: Seq<(Seq<char>, i64)>, name: Seq<char>) -> Option<i64>
    decreases v.len(),
{
    if v.len() == 0 {
        None
    } else if v.last().0 == name {
        Some(v.last().1)
    } else {
        level_of(v.drop_last(), name)
    }
}

/// The names of a record list are distinct.
pub open spec fn names_distinct(v: Seq<(Seq<char>, i64)>) -> bool {
    forall|i: int, j: int| 0 <= i < j < v.len() ==> #[trigger] v[i].0 != #[trigger] v[j].0
}

/// The content of a room's power-levels event.
#[derive(Clone, Debug)]
pub struct PowerLevels {
    pub ban: i64,
    pub events: Vec<(String, i64)>,
    pub events_default: i64,
    pub invite: i64,
    pub kick: i64,
    pub redact: i64,
    pub state_default: i64,
    pub users: Vec<(String, i64)>,
    pub users_default: i64,
    pub notifications_room: i64,
}

/// Top-level fields that replace those of the default power levels.
#[derive(Clone, Debug)]
pub struct PowerLevelsOverride {
    pub ban: Option<i64>,
    pub events: Option<Vec<(String, i64)>>,
    pub events_default: Option<i64>,
    pub invite: Option<i64>,
    pub kick: Option<i64>,
    pub redact: Option<i64>,
    pub state_default: Option<i64>,
    pub users: Option<Vec<(String, i64)>>,
    pub users_default: Option<i64>,
    pub notifications_room: Option<i64>,
}

impl PowerLevels {
    /// Every level is one that JSON carries, and no name has two levels.
    pub open spec fn wf(&self) -> bool {
        &&& level_ok(self.ban) && level_ok(self.events_default) && level_ok(self.invite)
        &&& level_ok(self.kick) && level_ok(self.redact) && level_ok(self.state_default)
        &&& level_ok(self.users_default) && level_ok(self.notifications_room)
        &&& names_distinct(levels_view(self.events@))
        &&& names_distinct(levels_view(self.users@))
        &&& forall|i: int| 0 <= i < self.events@.len() ==> level_ok(#[trigger] self.events@[i].1)
        &&& forall|i: int| 0 <= i < self.users@.len() ==> level_ok(#[trigger] self.users@[i].1)
    }
}

/// Sets `name` to `level` in a record list, keeping the names distinct.
pub fn set_level(v: &mut Vec<(String, i64)>, name: &str, level: i64)
    requires
        names_distinct(levels_view(old(v)@)),
    ensures
        names_distinct(levels_view(final(v)@)),
        forall|n: Seq<char>| #[trigger] level_of(levels_view(final(v)@), n) == if n == name@ {
            Some(level)
        } else {
            level_of(levels_view(old(v)@), n)
        },
        forall|i: int| 0 <= i < final(v)@.len() ==> #[trigger] final(v)@[i].1 == level || exists|j: int|
            0 <= j < old(v)@.len() && old(v)@[j].1 == final(v)@[i].1,
{
    let mut i: usize = 0;
    while i < v.len()
        invariant
            i <= v@.len(),
            v@ == old(v)@,
            names_distinct(levels_view(old(v)@)),
            forall|j: int| 0 <= j < i ==> v@[j].0@ != name@,
        decreases v@.len() - i,
    {
        if crate::appservice::str_eq(v[i].0.as_str(), name) {
            let ghost before = levels_view(v@);
            assert(names_distinct(before));
            assert(before[i as int].0 == name@);
            let n = v[i].0.clone();
            v.set(i, (n, level));
            proof {
                let after = levels_view(v@);
                assert(after =~= before.update(i as int, (name@, level)));
                lemma_level_of_update(before, i as int, level);
            }
            return;
        }
        i += 1;
    }
    let ghost before = levels_view(v@);
    v.push((String::from_str(name), level));
    proof {
        let after = levels_view(v@);
        assert(after =~= before.push((name@, level)));
        assert(after.drop_last() =~= before);
        assert forall|a: int, b: int| 0 <= a < b < after.len() implies #[trigger] after[a].0
            != #[trigger] after[b].0 by {
            if b == before.len() {
                assert(v@[a].0@ != name@);
            } else {
                assert(before[a].0 != before[b].0);
            }
        }
    }
}

proof fn lemma_level_of_update(s: Seq<(Seq<char>, i64)>, i: int, level: i64)
    requires
        names_distinct(s),
        0 <= i < s.len(),
    ensures
        names_distinct(s.update(i, (s[i].0, level))),
        forall|n: Seq<char>| #[trigger] level_of(s.update(i, (s[i].0, level)), n) == if n == s[i].0 {
            Some(level)
        } else {
            level_of(s, n)
        },
    decreases s.len(),
{
    let t = s.update(i, (s[i].0, level));
    assert forall|a: int, b: int| 0 <= a < b < t.len() implies #[trigger] t[a].0 != #[trigger] t[b].0 by {
        assert(s[a].0 != s[b].0);
    }
    if i < s.len() - 1 {
        let sd = s.drop_last();
        assert(t.last() == s.last());
        assert forall|a: int, b: int| 0 <= a < b < sd.len() implies #[trigger] sd[a].0 != #[trigger] sd[b].0 by {
            assert(s[a].0 != s[b].0);
        }
        lemma_level_of_update(sd, i, level);
        assert(t.drop_last() =~= sd.update(i, (s[i].0, level)));
        assert(s.last().0 != s[i].0);
        assert forall|n: Seq<char>| #[trigger] level_of(t, n) == if n == s[i].0 {
            Some(level)
        } else {
            level_of(s, n)
        } by {
            assert(level_of(sd.update(i, (s[i].0, level)), n) == if n == s[i].0 {
                Some(level)
            } else {
                level_of(sd, n)
            });
        }
    } else {
        assert(t.drop_last() =~= s.drop_last());
        assert forall|n: Seq<char>| #[trigger] level_of(t, n) == if n == s[i].0 {
            Some(level)
        } else {
            level_of(s, n)
        } by {}
    }
}

/// The levels that every new room starts with, before any override.
pub open spec fn base_levels_ok(p: PowerLevels) -> bool {
    p.ban == 50 && p.events_default == 0 && p.invite == 0 && p.kick == 50 && p.redact == 50
        && p.state_default == 50 && p.users_default == 0 && p.notifications_room == 50
}

/// The event types whose level a new room raises to 100.
pub open spec fn admin_event_type(kind: Seq<char>) -> bool {
    kind == "m.room.power_levels"@ || kind == "m.room.server_acl"@ || kind == "m.room.tombstone"@
        || kind == "m.room.encryption"@ || kind == "m.room.history_visibility"@
}

/// The call event types that a public room restricts to level 50.
pub open spec fn call_event_type(kind: Seq<char>) -> bool {
    kind == "m.call.invite"@ || kind == "org.matrix.msc3401.call"@ || kind
        == "org.matrix.msc3401.call.member"@
}

proof fn lemma_call_types_not_admin()
    ensures
        forall|k: Seq<char>| call_event_type(k) ==> !admin_event_type(k),
{
    reveal_strlit("m.room.power_levels");
    reveal_strlit("m.room.server_acl");
    reveal_strlit("m.room.tombstone");
    reveal_strlit("m.room.encryption");
    reveal_strlit("m.room.history_visibility");
    reveal_strlit("m.call.invite");
    reveal_strlit("org.matrix.msc3401.call");
    reveal_strlit("org.matrix.msc3401.call.member");
    assert("m.room.power_levels"@.len() == 19);
    assert("m.room.server_acl"@.len() == 17);
    assert("m.room.tombstone"@.len() == 16);
    assert("m.room.encryption"@.len() == 17);
    assert("m.room.history_visibility"@.len() == 25);
    assert("m.call.invite"@.len() == 13);
    assert("org.matrix.msc3401.call"@.len() == 23);
    assert("org.matrix.msc3401.call.member"@.len() == 30);
}

/// The power levels of a new room: the given users' levels, the defaults,
/// level 100 for the sensitive state events, level 50 for calls in a public
/// room, then each field the override gives replacing the default one.
pub fn default_power_levels_content(
    power_level_content_override: &Option<PowerLevelsOverride>,
    visibility: Visibility,
    users: Vec<(String, i64)>,
) -> (r: PowerLevels)
    requires
        names_distinct(levels_view(users@)),
    ensures
        power_level_content_override is None ==> base_levels_ok(r),
        power_level_content_override is None ==> levels_view(r.users@) == levels_view(users@),
        power_level_content_override is None || power_level_content_override->Some_0.events is None
            ==> forall|k: Seq<char>| #[trigger] level_of(levels_view(r.events@), k) == if admin_event_type(k) {
                Some(100i64)
            } else if visibility == Visibility::Public && call_event_type(k) {
                Some(50i64)
            } else {
                None
            },
        power_level_content_override is Some ==> {
            let o = power_level_content_override->Some_0;
            &&& r.ban == (if o.ban is Some { o.ban->Some_0 } else { 50 })
            &&& r.events_default == (if o.events_default is Some { o.events_default->Some_0 } else { 0 })
            &&& r.invite == (if o.invite is Some { o.invite->Some_0 } else { 0 })
            &&& r.kick == (if o.kick is Some { o.kick->Some_0 } else { 50 })
            &&& r.redact == (if o.redact is Some { o.redact->Some_0 } else { 50 })
            &&& r.state_default == (if o.state_default is Some { o.state_default->Some_0 } else { 50 })
            &&& r.users_default == (if o.users_default is Some { o.users_default->Some_0 } else { 0 })
            &&& r.notifications_room == (if o.notifications_room is Some {
                o.notifications_room->Some_0
            } else {
                50
            })
            &&& o.users is Some ==> levels_view(r.users@) == levels_view(o.users->Some_0@)
            &&& o.users is None ==> levels_view(r.users@) == levels_view(users@)
            &&& o.events is Some ==> levels_view(r.events@) == levels_view(o.events->Some_0@)
        },
{
    proof {
        reveal_strlit("m.room.power_levels");
        reveal_strlit("m.room.server_acl");
        reveal_strlit("m.room.tombstone");
        reveal_strlit("m.room.encryption");
        reveal_strlit("m.room.history_visibility");
        reveal_strlit("m.call.invite");
        reveal_strlit("org.matrix.msc3401.call");
        reveal_strlit("org.matrix.msc3401.call.member");
    }
    let mut events: Vec<(String, i64)> = Vec::new();
    proof {
        assert(levels_view(events@) =~= Seq::<(Seq<char>, i64)>::empty());
    }
    set_level(&mut events, "m.room.power_levels", 100);
    set_level(&mut events, "m.room.server_acl", 100);
    set_level(&mut events, "m.room.tombstone", 100);
    set_level(&mut events, "m.room.encryption", 100);
    set_level(&mut events, "m.room.history_visibility", 100);
    assert forall|k: Seq<char>| #[trigger] level_of(levels_view(events@), k) == if admin_event_type(k) {
        Some(100i64)
    } else {
        None
    } by {}
    let ghost admin_only = events@;
    let public = match visibility {
        Visibility::Public => true,
        Visibility::Private => false,
    };
    if public {
        set_level(&mut events, "m.call.invite", 50);
        set_level(&mut events, "org.matrix.msc3401.call", 50);
        set_level(&mut events, "org.matrix.msc3401.call.member", 50);
        assert forall|k: Seq<char>| #[trigger] level_of(levels_view(events@), k) == if admin_event_type(k) {
            Some(100i64)
        } else if call_event_type(k) {
            Some(50i64)
        } else {
            None
        } by {
            lemma_call_types_not_admin();
            if call_event_type(k) {
                assert(!admin_event_type(k));
            }
            assert(level_of(levels_view(admin_only), k) == if admin_event_type(k) {
                Some(100i64)
            } else {
                None
            });
        }
    }
    proof {
        assert(levels_view(Seq::<(String, i64)>::empty()) =~= Seq::<(Seq<char>, i64)>::empty());
    }
    let mut p = PowerLevels {
        ban: 50,
        events,
        events_default: 0,
        invite: 0,
        kick: 50,
        redact: 50,
        state_default: 50,
        users,
        users_default: 0,
        notifications_room: 50,
    };
    match power_level_content_override {
        None => {},
        Some(o) => {
            if let Some(v) = o.ban {
                p.ban = v;
            }
            if let Some(v) = &o.events {
                p.events = clone_levels(v);
            }
            if let Some(v) = o.events_default {
                p.events_default = v;
            }
            if let Some(v) = o.invite {
                p.invite = v;
            }
            if let Some(v) = o.kick {
                p.kick = v;
            }
            if let Some(v) = o.redact {
                p.redact = v;
            }
            if let Some(v) = o.state_default {
                p.state_default = v;
            }
            if let Some(v) = &o.users {
                p.users = clone_levels(v);
            }
            if let Some(v) = o.users_default {
                p.users_default = v;
            }
            if let Some(v) = o.notifications_room {
                p.notifications_room = v;
            }
        },
    }
    p
}

/// A copy of a record list.
fn clone_levels(v: &Vec<(String, i64)>) -> (r: Vec<(String, i64)>)
    ensures
        levels_view(r@) == levels_view(v@),
{
    let mut r: Vec<(String, i64)> = Vec::new();
    let mut i: usize = 0;
    while i < v.len()
        invariant
            i <= v@.len(),
            levels_view(r@) == levels_view(v@).take(i as int),
        decreases v@.len() - i,
    {
        let ghost before = r@;
        let name = v[i].0.clone();
        assert(name@ == v@[i as int].0@);
        r.push((name, v[i].1));
        assert(r@ == before.push((name, v@[i as int].1)));
        assert(levels_view(r@) =~= levels_view(before).push((v@[i as int].0@, v@[i as int].1)));
        i += 1;
        assert(levels_view(r@) =~= levels_view(v@).take(i as int));
    }
    assert(levels_view(v@).take(v@.len() as int) =~= levels_view(v@));
    r
}

/// The users a new room starts with at level 100: its creator, and for a
/// trusted private chat also everyone invited.
pub fn initial_power_users(sender: &str, preset: RoomPreset, invite: &Vec<String>) -> (r: Vec<(String, i64)>)
    ensures
        names_distinct(levels_view(r@)),
        level_of(levels_view(r@), sender@) == Some(100i64),
        forall|n: Seq<char>| #[trigger] level_of(levels_view(r@), n) is Some ==> level_of(levels_view(r@), n)
            == Some(100i64),
        forall|n: Seq<char>| #[trigger] level_of(levels_view(r@), n) is Some <==> (n == sender@ || (preset
            == RoomPreset::TrustedPrivateChat && exists|i: int| 0 <= i < invite@.len() && invite@[i]@ == n)),
{
    let mut users: Vec<(String, i64)> = Vec::new();
    proof {
        assert(levels_view(users@) =~= Seq::<(Seq<char>, i64)>::empty());
    }
    set_level(&mut users, sender, 100);
    let trusted = match preset {
        RoomPreset::TrustedPrivateChat => true,
        _ => false,
    };
    if trusted {
        let mut i: usize = 0;
        while i < invite.len()
            invariant
                i <= invite@.len(),
                names_distinct(levels_view(users@)),
                level_of(levels_view(users@), sender@) == Some(100i64),
                forall|n: Seq<char>| #[trigger] level_of(levels_view(users@), n) is Some ==> level_of(
                    levels_view(users@),
                    n,
                ) == Some(100i64),
                forall|n: Seq<char>| #[trigger] level_of(levels_view(users@), n) is Some <==> (n == sender@
                    || exists|j: int| 0 <= j < i && invite@[j]@ == n),
            decreases invite@.len() - i,
        {
            set_level(&mut users, invite[i].as_str(), 100);
            proof {
                assert forall|n: Seq<char>| #[trigger] level_of(levels_view(users@), n) is Some <==> (n
                    == sender@ || exists|j: int| 0 <= j < i + 1 && invite@[j]@ == n) by {
                    if exists|j: int| 0 <= j < i + 1 && invite@[j]@ == n {
                        let j = choose|j: int| 0 <= j < i + 1 && invite@[j]@ == n;
                        if j < i {
                            assert(exists|j: int| 0 <= j < i && invite@[j]@ == n);
                        }
                    }
                }
            }
            i += 1;
        }
    }
    users
}

/// The level that a replaced room's `events_default` and `invite` are raised
/// to: the greater of 50 and one above the users' default.
pub open spec fn upgrade_level(users_default: i64) -> i64 {
    if users_default + 1 > 50 {
        (users_default + 1) as i64
    } else {
        50
    }
}

/// The power levels of a room after it was replaced: `events_default` and
/// `invite` raised so that ordinary members can no longer post or invite,
/// everything else kept.
pub fn upgraded_power_levels(old: PowerLevels) -> (r: PowerLevels)
    requires
        old.wf(),
    ensures
        r.events_default == upgrade_level(old.users_default),
        r.invite == upgrade_level(old.users_default),
        r.events_default >= 50,
        r.events_default > old.users_default,
        r.ban == old.ban && r.kick == old.kick && r.redact == old.redact && r.state_default
            == old.state_default && r.users_default == old.users_default && r.notifications_room
            == old.notifications_room,
        r.events@ == old.events@,
        r.users@ == old.users@,
{
    let bumped = old.users_default + 1;
    let new_level = if bumped > 50 {
        bumped
    } else {
        50
    };
    PowerLevels { events_default: new_level, invite: new_level, ..old }
}

/// The state events that an upgrade copies into the replacement room.
pub open spec fn transferable(kind: Seq<char>) -> bool {
    kind == "m.room.server_acl"@ || kind == "m.room.encryption"@ || kind == "m.room.name"@ || kind
        == "m.room.avatar"@ || kind == "m.room.topic"@ || kind == "m.room.guest_access"@ || kind
        == "m.room.history_visibility"@ || kind == "m.room.join_rules"@ || kind == "m.room.power_levels"@
}

/// The state event types that an upgrade copies, in the order it copies them.
pub open spec fn transferable_order() -> Seq<Seq<char>> {
    seq![
        "m.room.server_acl"@,
        "m.room.encryption"@,
        "m.room.name"@,
        "m.room.avatar"@,
        "m.room.topic"@,
        "m.room.guest_access"@,
        "m.room.history_visibility"@,
        "m.room.join_rules"@,
        "m.room.power_levels"@,
    ]
}

/// The state event types that an upgrade copies, in the order it copies them.
pub fn transferable_state_events() -> (r: Vec<&'static str>)
    ensures
        r@.map_values(|k: &str| k@) == transferable_order(),
        r@.len() == 9,
        forall|i: int| 0 <= i < r@.len() ==> transferable(#[trigger] r@[i]@),
        forall|k: Seq<char>| transferable(k) ==> exists|i: int| 0 <= i < r@.len() && #[trigger] r@[i]@ == k,
{
    let r = vec![
        "m.room.server_acl",
        "m.room.encryption",
        "m.room.name",
        "m.room.avatar",
        "m.room.topic",
        "m.room.guest_access",
        "m.room.history_visibility",
        "m.room.join_rules",
        "m.room.power_levels",
    ];
    assert forall|k: Seq<char>| transferable(k) implies exists|i: int| 0 <= i < r@.len() && #[trigger] r@[i]@ == k by {
        if k == "m.room.server_acl"@ {
            assert(r@[0]@ == k);
        } else if k == "m.room.encryption"@ {
            assert(r@[1]@ == k);
        } else if k == "m.room.name"@ {
            assert(r@[2]@ == k);
        } else if k == "m.room.avatar"@ {
            assert(r@[3]@ == k);
        } else if k == "m.room.topic"@ {
            assert(r@[4]@ == k);
        } else if k == "m.room.guest_access"@ {
            assert(r@[5]@ == k);
        } else if k == "m.room.history_visibility"@ {
            assert(r@[6]@ == k);
        } else if k == "m.room.join_rules"@ {
            assert(r@[7]@ == k);
        } else {
            assert(r@[8]@ == k);
        }
    }
    assert(r@.map_values(|k: &str| k@) =~= transferable_order());
    r
}

/// The characters that `char::is_whitespace` accepts: the Unicode
/// White_Space property.
pub open spec fn is_white(c: char) -> bool {
    let u = c as u32;
    (0x9 <= u <= 0xD) || u == 0x20 || u == 0x85 || u == 0xA0 || u == 0x1680 || (0x2000 <= u <= 0x200A)
        || u == 0x2028 || u == 0x2029 || u == 0x202F || u == 0x205F || u == 0x3000
}

/// Whether a character is white space.
pub fn char_is_white(c: char) -> (r: bool)
    ensures
        r == is_white(c),
{
    let u = c as u32;
    (0x9 <= u && u <= 0xD) || u == 0x20 || u == 0x85 || u == 0xA0 || u == 0x1680 || (0x2000 <= u && u
        <= 0x200A) || u == 0x2028 || u == 0x2029 || u == 0x202F || u == 0x205F || u == 0x3000
}

/// Some character of `s` is white space.
pub open spec fn has_white(s: Seq<char>) -> bool {
    exists|i: int| 0 <= i < s.len() && is_white(#[trigger] s[i])
}

/// Whether some character of `s` is white space.
pub fn contains_white(s: &str) -> (r: bool)
    ensures
        r == has_white(s@),
{
    let cs = chars_of(s);
    let mut i: usize = 0;
    while i < cs.len()
        invariant
            cs@ == s@,
            i <= cs@.len(),
            forall|j: int| 0 <= j < i ==> !is_white(#[trigger] s@[j]),
        decreases cs@.len() - i,
    {
        if char_is_white(cs[i]) {
            return true;
        }
        i += 1;
    }
    false
}

/// Why a localpart of a new room alias is refused, if it is: it holds `:`,
/// white space, more than 255 bytes, or `"`.
pub open spec fn alias_shape_error(name: Seq<char>, byte_len: nat) -> bool {
    contains_seq(name, ":"@) || has_white(name) || byte_len > 255 || contains_seq(name, "\""@)
}

/// `#localpart:server`.
pub open spec fn full_alias(name: Seq<char>, server: Seq<char>) -> Seq<char> {
    "#"@ + name + ":"@ + server
}

/// `!localpart:server`.
pub open spec fn full_room_id(name: Seq<char>, server: Seq<char>) -> Seq<char> {
    "!"@ + name + ":"@ + server
}

/// `sigil name : server` as a string.
fn qualified(sigil: &str, name: &str, server: &str) -> (r: String)
    ensures
        r@ == sigil@ + name@ + ":"@ + server@,
{
    let mut s = String::from_str(sigil);
    s.append(name);
    s.append(":");
    s.append(server);
    s
}

/// Checks the alias a room is being created with and returns it in full.
/// `alias_taken` tells whether the alias already names a room,
/// `reserved` whether an appservice other than the requester holds it
/// exclusively.
pub fn room_alias_check(
    room_alias_name: &str,
    server_name: &str,
    forbidden_alias_names: &CompiledSet,
    alias_taken: bool,
    appservice_info: &Option<RegistrationInfo>,
    reserved: bool,
) -> (r: Result<String, Error>)
    ensures
        alias_shape_error(room_alias_name@, room_alias_name.len() as nat) ==> r == Err::<
            String,
            Error,
        >(Error::BadRequest(ErrorKind::InvalidParam)),
        !alias_shape_error(room_alias_name@, room_alias_name.len() as nat)
            && crate::appservice::any_matches(forbidden_alias_names.patterns(), room_alias_name@) ==> r == Err::<
            String,
            Error,
        >(Error::BadRequest(ErrorKind::Unknown)),
        r is Ok ==> r->Ok_0@ == full_alias(room_alias_name@, server_name@),
        r is Ok <==> !alias_shape_error(room_alias_name@, room_alias_name.len() as nat)
            && !crate::appservice::any_matches(forbidden_alias_names.patterns(), room_alias_name@) && !alias_taken
            && match appservice_info {
            Some(info) => crate::appservice::set_matches(
                info.aliases.exclusive,
                full_alias(room_alias_name@, server_name@),
            ) || crate::appservice::set_matches(
                info.aliases.non_exclusive,
                full_alias(room_alias_name@, server_name@),
            ),
            None => !reserved,
        },
        r is Err ==> (r->Err_0 is BadRequest),
        !alias_shape_error(room_alias_name@, room_alias_name.len() as nat)
            && !crate::appservice::any_matches(forbidden_alias_names.patterns(), room_alias_name@) && alias_taken
            ==> r == Err::<String, Error>(Error::BadRequest(ErrorKind::RoomInUse)),
{
    if contains(room_alias_name, ":") || contains_white(room_alias_name) || room_alias_name.len() > 255
        || contains(room_alias_name, "\"") {
        return Err(Error::BadRequest(ErrorKind::InvalidParam));
    }
    if forbidden_alias_names.is_match(room_alias_name) {
        return Err(Error::BadRequest(ErrorKind::Unknown));
    }
    let full = qualified("#", room_alias_name, server_name);
    if alias_taken {
        return Err(Error::BadRequest(ErrorKind::RoomInUse));
    }
    match appservice_info {
        Some(info) => {
            if !info.aliases.is_match(full.as_str()) {
                return Err(Error::BadRequest(ErrorKind::Exclusive));
            }
        },
        None => {
            if reserved {
                return Err(Error::BadRequest(ErrorKind::Exclusive));
            }
        },
    }
    Ok(full)
}

/// Checks a custom room id localpart and returns the room id in full.
pub fn custom_room_id_check(custom_room_id: &str, server_name: &str, forbidden_alias_names: &CompiledSet) -> (r:
    Result<String, Error>)
    ensures
        crate::appservice::any_matches(forbidden_alias_names.patterns(), custom_room_id@) ==> r == Err::<
            String,
            Error,
        >(Error::BadRequest(ErrorKind::Unknown)),
        !crate::appservice::any_matches(forbidden_alias_names.patterns(), custom_room_id@) && (contains_seq(
            custom_room_id@,
            ":"@,
        ) || has_white(custom_room_id@) || custom_room_id.len() > 255) ==> r == Err::<
            String,
            Error,
        >(Error::BadRequest(ErrorKind::InvalidParam)),
        r is Ok <==> !crate::appservice::any_matches(forbidden_alias_names.patterns(), custom_room_id@)
            && !contains_seq(custom_room_id@, ":"@) && !has_white(custom_room_id@)
            && custom_room_id.len() <= 255,
        r is Ok ==> r->Ok_0@ == full_room_id(custom_room_id@, server_name@),
{
    if forbidden_alias_names.is_match(custom_room_id) {
        return Err(Error::BadRequest(ErrorKind::Unknown));
    }
    if contains(custom_room_id, ":") || contains_white(custom_room_id) || custom_room_id.len() > 255 {
        return Err(Error::BadRequest(ErrorKind::InvalidParam));
    }
    Ok(qualified("!", custom_room_id, server_name))
}

} // verus!

verus! {

/// The content of the event that closes a replaced room.
#[derive(Clone, Debug)]
pub struct Tombstone {
    pub body: String,
    pub replacement_room: String,
}

/// Local aliases, each with the room it names.
pub open spec fn alias_view(v: Seq<(String, String)>) -> Seq<(Seq<char>, Seq<char>)> {
    v.map_values(|e: (String, String)| (e.0@, e.1@))
}

/// Points every alias of `old_room` at `new_room`; the others stay.
pub fn move_local_aliases(aliases: &Vec<(String, String)>, old_room: &str, new_room: &str) -> (r: Vec<
    (String, String),
>)
    ensures
        r@.len() == aliases@.len(),
        forall|i: int|
            0 <= i < r@.len() ==> (#[trigger] alias_view(r@)[i]) == (if alias_view(aliases@)[i].1 == old_room@ {
                (alias_view(aliases@)[i].0, new_room@)
            } else {
                alias_view(aliases@)[i]
            }),
{
    let mut r: Vec<(String, String)> = Vec::new();
    let mut i: usize = 0;
    while i < aliases.len()
        invariant
            i <= aliases@.len(),
            r@.len() == i,
            forall|j: int|
                0 <= j < i ==> (#[trigger] alias_view(r@)[j]) == (if alias_view(aliases@)[j].1 == old_room@ {
                    (alias_view(aliases@)[j].0, new_room@)
                } else {
                    alias_view(aliases@)[j]
                }),
        decreases aliases@.len() - i,
    {
        let target = if crate::appservice::str_eq(aliases[i].1.as_str(), old_room) {
            String::from_str(new_room)
        } else {
            aliases[i].1.clone()
        };
        let ghost before = r@;
        r.push((aliases[i].0.clone(), target));
        assert(alias_view(r@) =~= alias_view(before).push(alias_view(r@)[i as int]));
        assert forall|j: int| 0 <= j < i + 1 implies (#[trigger] alias_view(r@)[j]) == (if alias_view(
            aliases@,
        )[j].1 == old_room@ {
            (alias_view(aliases@)[j].0, new_room@)
        } else {
            alias_view(aliases@)[j]
        }) by {
            if j < i {
                assert(alias_view(r@)[j] == alias_view(before)[j]);
            }
        }
        i += 1;
    }
    r
}

/// What an upgrade changes beside the new room's own events: the tombstone
/// posted in the old room, the old room's new power levels, and the local
/// aliases.
#[derive(Clone, Debug)]
pub struct RoomUpgrade {
    pub tombstone: Tombstone,
    pub old_room_power_levels: PowerLevels,
    pub aliases: Vec<(String, String)>,
}

/// Plans the replacement of `old_room` by `new_room`: a tombstone that
/// points at the new room, the old room's levels raised so that ordinary
/// members can no longer post or invite, and every local alias of the old
/// room moved to the new one.
pub fn plan_room_upgrade(
    old_room: &str,
    new_room: &str,
    old_power_levels: PowerLevels,
    local_aliases: &Vec<(String, String)>,
) -> (r: RoomUpgrade)
    requires
        old_power_levels.wf(),
    ensures
        r.tombstone.replacement_room@ == new_room@,
        r.old_room_power_levels.events_default >= 50,
        r.old_room_power_levels.invite >= 50,
        r.old_room_power_levels.events_default == upgrade_level(old_power_levels.users_default),
        r.old_room_power_levels.invite == upgrade_level(old_power_levels.users_default),
        r.old_room_power_levels.ban == old_power_levels.ban,
        r.old_room_power_levels.kick == old_power_levels.kick,
        r.old_room_power_levels.redact == old_power_levels.redact,
        r.old_room_power_levels.state_default == old_power_levels.state_default,
        r.old_room_power_levels.users_default == old_power_levels.users_default,
        r.old_room_power_levels.notifications_room == old_power_levels.notifications_room,
        r.old_room_power_levels.events@ == old_power_levels.events@,
        r.old_room_power_levels.users@ == old_power_levels.users@,
        r.aliases@.len() == local_aliases@.len(),
        forall|i: int|
            0 <= i < r.aliases@.len() && (#[trigger] alias_view(local_aliases@)[i]).1 == old_room@ ==> alias_view(
                r.aliases@,
            )[i] == (alias_view(local_aliases@)[i].0, new_room@),
        forall|i: int|
            0 <= i < r.aliases@.len() && (#[trigger] alias_view(local_aliases@)[i]).1 != old_room@ ==> alias_view(
                r.aliases@,
            )[i] == alias_view(local_aliases@)[i],
{
    let tombstone = Tombstone {
        body: String::from_str("This room has been replaced"),
        replacement_room: String::from_str(new_room),
    };
    let aliases = move_local_aliases(local_aliases, old_room, new_room);
    let levels = upgraded_power_levels(old_power_levels);
    proof {
        assert forall|i: int| 0 <= i < aliases@.len() implies alias_view(aliases@)[i] == (if alias_view(
            local_aliases@,
        )[i].1 == old_room@ {
            (alias_view(local_aliases@)[i].0, new_room@)
        } else {
            alias_view(local_aliases@)[i]
        }) by {}
    }
    RoomUpgrade { tombstone, old_room_power_levels: levels, aliases }
}

} // verus!

verus! {

/// The state event types of a new room, in the order they are sent: create,
/// the creator's join, power levels, the canonical alias when there is one,
/// join rules, history visibility, guest access, each initial state event,
/// the name and the topic when given.
pub open spec fn creation_order(alias: bool, initial_state: Seq<Seq<char>>, name: bool, topic: bool) -> Seq<Seq<char>> {
    seq!["m.room.create"@, "m.room.member"@, "m.room.power_levels"@] + (if alias {
        seq!["m.room.canonical_alias"@]
    } else {
        Seq::empty()
    }) + seq!["m.room.join_rules"@, "m.room.history_visibility"@, "m.room.guest_access"@] + initial_state + (
    if name {
        seq!["m.room.name"@]
    } else {
        Seq::empty()
    }) + (if topic {
        seq!["m.room.topic"@]
    } else {
        Seq::empty()
    })
}

/// Whether an initial-state event of a new room is sent: not when its
/// content is the empty object, nor an encryption event when the server
/// does not allow encryption.
pub open spec fn initial_state_kept(e: (String, bool), allow_encryption: bool) -> bool {
    !e.1 && !(e.0@ == "m.room.encryption"@ && !allow_encryption)
}

/// The types of the initial-state events that are sent, in order.
pub open spec fn kept_initial_state(initial_state: Seq<(String, bool)>, allow_encryption: bool) -> Seq<Seq<char>> {
    initial_state.filter(|e: (String, bool)| initial_state_kept(e, allow_encryption)).map_values(
        |e: (String, bool)| e.0@,
    )
}

/// The state event types a new room is created with, in order.
/// `initial_state` gives each requested initial-state event's type and
/// whether its content is the empty object.
pub fn room_creation_event_types(
    has_alias: bool,
    initial_state: &Vec<(String, bool)>,
    allow_encryption: bool,
    has_name: bool,
    has_topic: bool,
) -> (r: Vec<String>)
    ensures
        r@.map_values(|s: String| s@) == creation_order(
            has_alias,
            kept_initial_state(initial_state@, allow_encryption),
            has_name,
            has_topic,
        ),
{
    let mut r: Vec<String> = Vec::new();
    r.push(String::from_str("m.room.create"));
    r.push(String::from_str("m.room.member"));
    r.push(String::from_str("m.room.power_levels"));
    if has_alias {
        r.push(String::from_str("m.room.canonical_alias"));
    }
    r.push(String::from_str("m.room.join_rules"));
    r.push(String::from_str("m.room.history_visibility"));
    r.push(String::from_str("m.room.guest_access"));
    let ghost head = r@.map_values(|s: String| s@);
    assert(head =~= seq!["m.room.create"@, "m.room.member"@, "m.room.power_levels"@] + (if has_alias {
        seq!["m.room.canonical_alias"@]
    } else {
        Seq::empty()
    }) + seq!["m.room.join_rules"@, "m.room.history_visibility"@, "m.room.guest_access"@]);
    let ghost pred = |e: (String, bool)| initial_state_kept(e, allow_encryption);
    let mut i: usize = 0;
    while i < initial_state.len()
        invariant
            i <= initial_state@.len(),
            pred == (|e: (String, bool)| initial_state_kept(e, allow_encryption)),
            r@.map_values(|s: String| s@) == head + initial_state@.take(i as int).filter(pred).map_values(
                |e: (String, bool)| e.0@,
            ),
        decreases initial_state@.len() - i,
    {
        proof {
            crate::tree::lemma_filter_take_step(initial_state@, i as int, pred);
        }
        let ghost before = r@;
        let enc = crate::appservice::str_eq(initial_state[i].0.as_str(), "m.room.encryption");
        if !initial_state[i].1 && !(enc && !allow_encryption) {
            let item = initial_state[i].0.clone();
            r.push(item);
            assert(r@.map_values(|s: String| s@) =~= before.map_values(|s: String| s@).push(initial_state@[i as int].0@));
        }
        assert(initial_state@.take(i as int).filter(pred).push(initial_state@[i as int]).map_values(
            |e: (String, bool)| e.0@,
        ) =~= initial_state@.take(i as int).filter(pred).map_values(|e: (String, bool)| e.0@).push(
            initial_state@[i as int].0@,
        ));
        i += 1;
    }
    assert(initial_state@.take(i as int) =~= initial_state@);
    if has_name {
        r.push(String::from_str("m.room.name"));
    }
    if has_topic {
        r.push(String::from_str("m.room.topic"));
    }
    assert(r@.map_values(|s: String| s@) =~= creation_order(
        has_alias,
        kept_initial_state(initial_state@, allow_encryption),
        has_name,
        has_topic,
    ));
    r
}

/// The content that a list of state events gives a type, if any: the first.
pub open spec fn content_of(state: Seq<(Seq<char>, Seq<char>)>, kind: Seq<char>) -> Option<Seq<char>>
    decreases state.len(),
{
    if state.len() == 0 {
        None
    } else if state[0].0 == kind {
        Some(state[0].1)
    } else {
        content_of(state.drop_first(), kind)
    }
}

/// The state an upgrade copies into the replacement room: for each
/// transferable type in turn, the old room's content when it has that
/// state.
pub open spec fn copied_state(kinds: Seq<Seq<char>>, state: Seq<(Seq<char>, Seq<char>)>) -> Seq<(Seq<char>, Seq<char>)>
    decreases kinds.len(),
{
    if kinds.len() == 0 {
        Seq::empty()
    } else {
        let rest = copied_state(kinds.drop_last(), state);
        match content_of(state, kinds.last()) {
            Some(c) => rest.push((kinds.last(), c)),
            None => rest,
        }
    }
}

/// Looks up the content of a state type.
fn find_content(state: &Vec<(String, String)>, kind: &str) -> (r: Option<String>)
    ensures
        match r {
            Some(c) => content_of(alias_view(state@), kind@) == Some(c@),
            None => content_of(alias_view(state@), kind@) is None,
        },
{
    let ghost v = alias_view(state@);
    let mut i: usize = 0;
    assert(v.skip(0) =~= v);
    while i < state.len()
        invariant
            i <= state@.len(),
            v == alias_view(state@),
            content_of(v, kind@) == content_of(v.skip(i as int), kind@),
        decreases state@.len() - i,
    {
        assert(v.skip(i as int)[0] == v[i as int]);
        assert(v.skip(i as int).drop_first() =~= v.skip(i + 1));
        if crate::appservice::str_eq(state[i].0.as_str(), kind) {
            return Some(state[i].1.clone());
        }
        i += 1;
    }
    None
}

/// The state events an upgrade copies from the old room into the new one,
/// as type and content: each transferable type the old room has, in the
/// copying order, with the old room's content (power levels as they were
/// before the old room's levels are raised).
pub fn transferred_state(old_state: &Vec<(String, String)>) -> (r: Vec<(String, String)>)
    ensures
        ({
            alias_view(r@) == copied_state(
                transferable_order(),
                alias_view(old_state@),
            )
        }),
{
    let kinds = transferable_state_events();
    let ghost kv = transferable_order();
    assert(kinds@.map_values(|k: &str| k@) =~= kv);
    let mut r: Vec<(String, String)> = Vec::new();
    let mut i: usize = 0;
    while i < kinds.len()
        invariant
            i <= kinds@.len(),
            kinds@.map_values(|k: &str| k@) == kv,
            alias_view(r@) == copied_state(kv.take(i as int), alias_view(old_state@)),
        decreases kinds@.len() - i,
    {
        assert(kv.take(i + 1).drop_last() =~= kv.take(i as int));
        assert(kv.take(i + 1).last() == kinds@[i as int]@);
        let ghost before = r@;
        match find_content(old_state, kinds[i]) {
            Some(c) => {
                r.push((String::from_str(kinds[i]), c));
                assert(alias_view(r@) =~= alias_view(before).push(alias_view(r@)[before.len() as int]));
            },
            None => {},
        }
        i += 1;
    }
    assert(kv.take(i as int) =~= kv);
    r
}

} // verus!

verus! {

/// A user's membership in a room.
#[derive(Clone, Copy, Debug, PartialEq, Eq, Structural)]
pub enum Membership {
    Join,
    Invite,
    Leave,
    Ban,
}

/// Whether a user with the given membership may join a room with the given
/// join rule: never when banned; otherwise when the room is public, or the
/// user was invited or is already joined.
pub open spec fn join_allowed(join_rule: JoinRule, membership: Option<Membership>) -> bool {
    membership != Some(Membership::Ban) && (join_rule == JoinRule::Public || membership == Some(Membership::Invite)
        || membership == Some(Membership::Join))
}

/// Checks a user's own join against the room's join rule.
pub fn check_join(join_rule: JoinRule, membership: Option<Membership>) -> (r: Result<(), Error>)
    ensures
        r is Ok <==> join_allowed(join_rule, membership),
        r is Err ==> r->Err_0 == Error::BadRequest(ErrorKind::Forbidden),
{
    let banned = match membership {
        Some(Membership::Ban) => true,
        _ => false,
    };
    if banned {
        return Err(Error::BadRequest(ErrorKind::Forbidden));
    }
    let invited_or_joined = match membership {
        Some(Membership::Invite) | Some(Membership::Join) => true,
        _ => false,
    };
    match join_rule {
        JoinRule::Public => Ok(()),
        JoinRule::Invite => {
            if invited_or_joined {
                Ok(())
            } else {
                Err(Error::BadRequest(ErrorKind::Forbidden))
            }
        },
    }
}

} // verus!
