use vstd::prelude::*;
use crate::appservice::str_eq;
use crate::timeline::{holds_id, id_set};
use vstd::string::StringExecFns;

verus! {

/// The largest number of heroes a room summary names.
pub const MAX_HEROES: usize = 5;

/// A member event met while looking for heroes: its state key, whether it
/// says join or invite, and whether that user is still joined or invited.
#[derive(Clone, Debug)]
pub struct HeroCandidate {
    pub user_id: String,
    pub join_or_invite: bool,
    pub still_member: bool,
}

/// Some member event of `user` says join or invite, and `user` is still a
/// member.
pub open spec fn is_hero_candidate(candidates: Seq<HeroCandidate>, user: Seq<char>) -> bool {
    exists|k: int|
        0 <= k < candidates.len() && (#[trigger] candidates[k]).user_id@ == user && candidates[k].join_or_invite
            && candidates[k].still_member
}

/// The heroes of a room: when it has at most five members, the first five
/// distinct users other than `sender` whose member event says join or
/// invite and who are still joined or invited, in the order of their member
/// events; none in a larger room.
pub fn calculate_heroes(
    candidates: &Vec<HeroCandidate>,
    sender: &str,
    joined_member_count: u64,
    invited_member_count: u64,
) -> (r: Vec<String>)
    ensures
        r@.len() <= MAX_HEROES,
        joined_member_count + invited_member_count > 5 ==> r@.len() == 0,
        forall|i: int| 0 <= i < r@.len() ==> (#[trigger] r@[i])@ != sender@,
        forall|i: int, j: int| 0 <= i < j < r@.len() ==> (#[trigger] r@[i])@ != (#[trigger] r@[j])@,
        forall|i: int|
            0 <= i < r@.len() ==> is_hero_candidate(candidates@, #[trigger] r@[i]@),
        joined_member_count + invited_member_count <= 5 && r@.len() < MAX_HEROES ==> forall|k: int|
            0 <= k < candidates@.len() && (#[trigger] candidates@[k]).join_or_invite
                && candidates@[k].still_member && candidates@[k].user_id@ != sender@ ==> id_set(r@).contains(
                candidates@[k].user_id@,
            ),
{
    let mut heroes: Vec<String> = Vec::new();
    if (joined_member_count as u128) + (invited_member_count as u128) > 5 {
        return heroes;
    }
    let mut k: usize = 0;
    while k < candidates.len() && heroes.len() < MAX_HEROES
        invariant
            k <= candidates@.len(),
            heroes@.len() <= MAX_HEROES,
            forall|i: int| 0 <= i < heroes@.len() ==> (#[trigger] heroes@[i])@ != sender@,
            forall|i: int, j: int| 0 <= i < j < heroes@.len() ==> (#[trigger] heroes@[i])@ != (
            #[trigger] heroes@[j])@,
            forall|i: int| 0 <= i < heroes@.len() ==> is_hero_candidate(candidates@, #[trigger] heroes@[i]@),
            heroes@.len() < MAX_HEROES ==> forall|m: int|
                0 <= m < k && (#[trigger] candidates@[m]).join_or_invite && candidates@[m].still_member
                    && candidates@[m].user_id@ != sender@ ==> id_set(heroes@).contains(candidates@[m].user_id@),
        decreases candidates@.len() - k,
    {
        let c = &candidates[k];
        if c.join_or_invite && c.still_member && !str_eq(c.user_id.as_str(), sender) && !holds_id(
            &heroes,
            c.user_id.as_str(),
        ) {
            let ghost before = heroes@;
            heroes.push(c.user_id.clone());
            proof {
                assert forall|x: Seq<char>| id_set(before).contains(x) implies id_set(heroes@).contains(x) by {
                    let i = choose|i: int| 0 <= i < before.len() && before[i]@ == x;
                    assert(heroes@[i]@ == x);
                }
                assert(heroes@[before.len() as int]@ == candidates@[k as int].user_id@);
                assert(id_set(heroes@).contains(candidates@[k as int].user_id@));
            }
        }
        k += 1;
    }
    heroes
}

/// One entry of a room's current state, as the sync engine sees it.
#[derive(Clone, Debug)]
pub struct StateEntry {
    pub event_type: String,
    pub state_key: String,
    pub event_id: String,
}

/// Whether a state entry is a member event.
pub open spec fn is_member_entry(e: StateEntry) -> bool {
    e.event_type@ == "m.room.member"@
}

/// Whether an initial sync sends a state entry: every non-member entry;
/// a member entry only without lazy loading, on a full-state sync, or when
/// its user sent an event of the timeline window.
pub open spec fn initial_sync_sends(e: StateEntry, lazy: bool, full_state: bool, senders: Set<Seq<char>>) -> bool {
    !is_member_entry(e) || !lazy || full_state || senders.contains(e.state_key@)
}

/// The users whose member events are among the first `n` entries and are
/// sent.
pub open spec fn sent_members(
    state: Seq<StateEntry>,
    n: int,
    lazy: bool,
    full_state: bool,
    senders: Set<Seq<char>>,
) -> Set<Seq<char>> {
    Set::new(
        |u: Seq<char>|
            exists|i: int|
                0 <= i < n && is_member_entry(#[trigger] state[i]) && state[i].state_key@ == u
                    && initial_sync_sends(state[i], lazy, full_state, senders),
    )
}

/// The state entries an initial sync sends, in order, and the users whose
/// member events went out with them.
pub fn initial_sync_state(
    state: &Vec<StateEntry>,
    timeline_senders: &Vec<String>,
    lazy_load_enabled: bool,
    full_state: bool,
) -> (r: (Vec<StateEntry>, Vec<String>))
    ensures
        r.0@ == state@.filter(
            |e: StateEntry| initial_sync_sends(e, lazy_load_enabled, full_state, id_set(timeline_senders@)),
        ),
        id_set(r.1@) == sent_members(
            state@,
            state@.len() as int,
            lazy_load_enabled,
            full_state,
            id_set(timeline_senders@),
        ),
{
    let ghost pred = |e: StateEntry| initial_sync_sends(e, lazy_load_enabled, full_state, id_set(timeline_senders@));
    let ghost senders = id_set(timeline_senders@);
    let mut out: Vec<StateEntry> = Vec::new();
    let mut lazy_loaded: Vec<String> = Vec::new();
    let mut i: usize = 0;
    proof {
        reveal_strlit("m.room.member");
        assert(id_set(lazy_loaded@) =~= sent_members(state@, 0, lazy_load_enabled, full_state, senders));
    }
    while i < state.len()
        invariant
            i <= state@.len(),
            pred == (|e: StateEntry|
                initial_sync_sends(e, lazy_load_enabled, full_state, id_set(timeline_senders@))),
            senders == id_set(timeline_senders@),
            out@ == state@.take(i as int).filter(pred),
            id_set(lazy_loaded@) == sent_members(state@, i as int, lazy_load_enabled, full_state, senders),
        decreases state@.len() - i,
    {
        proof {
            crate::tree::lemma_filter_take_step(state@, i as int, pred);
        }
        let e = &state[i];
        let is_member = str_eq(e.event_type.as_str(), "m.room.member");
        let ghost before = lazy_loaded@;
        if !is_member {
            out.push(e.clone_entry());
            assert(sent_members(state@, i + 1, lazy_load_enabled, full_state, senders) =~= sent_members(state@, i as int, lazy_load_enabled, full_state, senders)) by {
                assert forall|u: Seq<char>| #[trigger] sent_members(state@, i + 1, lazy_load_enabled, full_state, senders).contains(u) implies sent_members(state@, i as int, lazy_load_enabled, full_state, senders).contains(u) by {
                    let j = choose|j: int|
                        0 <= j < i + 1 && is_member_entry(#[trigger] state@[j]) && state@[j].state_key@ == u
                            && initial_sync_sends(state@[j], lazy_load_enabled, full_state, senders);
                    assert(j < i);
                }
            }
        } else if !lazy_load_enabled || full_state || holds_id(timeline_senders, e.state_key.as_str()) {
            out.push(e.clone_entry());
            lazy_loaded.push(e.state_key.clone());
            proof {
                assert forall|u: Seq<char>| #[trigger] sent_members(state@, i + 1, lazy_load_enabled, full_state, senders).contains(u) <==> id_set(lazy_loaded@).contains(u) by {
                    if sent_members(state@, i + 1, lazy_load_enabled, full_state, senders).contains(u) {
                        let j = choose|j: int|
                            0 <= j < i + 1 && is_member_entry(#[trigger] state@[j]) && state@[j].state_key@ == u
                                && initial_sync_sends(state@[j], lazy_load_enabled, full_state, senders);
                        if j < i {
                            assert(sent_members(state@, i as int, lazy_load_enabled, full_state, senders).contains(u));
                            let m = choose|m: int| 0 <= m < before.len() && before[m]@ == u;
                            assert(lazy_loaded@[m]@ == u);
                        } else {
                            assert(lazy_loaded@[before.len() as int]@ == u);
                        }
                    }
                    if id_set(lazy_loaded@).contains(u) {
                        let m = choose|m: int| 0 <= m < lazy_loaded@.len() && lazy_loaded@[m]@ == u;
                        if m < before.len() {
                            assert(id_set(before).contains(u));
                            let j = choose|j: int|
                                0 <= j < i && is_member_entry(#[trigger] state@[j]) && state@[j].state_key@ == u
                                    && initial_sync_sends(state@[j], lazy_load_enabled, full_state, senders);
                            assert(0 <= j < i + 1);
                        } else {
                            assert(is_member_entry(state@[i as int]));
                        }
                    }
                }
                assert(id_set(lazy_loaded@) =~= sent_members(state@, i + 1, lazy_load_enabled, full_state, senders));
            }
        } else {
            assert(sent_members(state@, i + 1, lazy_load_enabled, full_state, senders) =~= sent_members(state@, i as int, lazy_load_enabled, full_state, senders)) by {
                assert forall|u: Seq<char>| #[trigger] sent_members(state@, i + 1, lazy_load_enabled, full_state, senders).contains(u) implies sent_members(state@, i as int, lazy_load_enabled, full_state, senders).contains(u) by {
                    let j = choose|j: int|
                        0 <= j < i + 1 && is_member_entry(#[trigger] state@[j]) && state@[j].state_key@ == u
                            && initial_sync_sends(state@[j], lazy_load_enabled, full_state, senders);
                    assert(j < i);
                }
            }
        }
        i += 1;
    }
    assert(state@.take(state@.len() as int) =~= state@);
    (out, lazy_loaded)
}

/// An initial sync with lazy loading and without full state sends every
/// entry of the state that is not a member event, and of the member events
/// only those of users who sent an event of the timeline window.
pub proof fn lemma_initial_sync_lazy(state: Seq<StateEntry>, senders: Set<Seq<char>>, sent: Seq<StateEntry>)
    requires
        sent == state.filter(|e: StateEntry| initial_sync_sends(e, true, false, senders)),
    ensures
        forall|i: int| 0 <= i < state.len() && !is_member_entry(#[trigger] state[i]) ==> sent.contains(state[i]),
        forall|i: int| 0 <= i < state.len() && is_member_entry(#[trigger] state[i]) && senders.contains(state[i].state_key@)
            ==> sent.contains(state[i]),
        forall|k: int| 0 <= k < sent.len() && is_member_entry(#[trigger] sent[k]) ==> senders.contains(sent[k].state_key@),
        forall|k: int| 0 <= k < sent.len() ==> state.contains(#[trigger] sent[k]),
{
    let pred = |e: StateEntry| initial_sync_sends(e, true, false, senders);
    assert forall|i: int| 0 <= i < state.len() && pred(#[trigger] state[i]) implies sent.contains(state[i]) by {
        state.lemma_filter_contains(pred, i);
    }
    assert forall|k: int| 0 <= k < sent.len() implies pred(#[trigger] sent[k]) by {
        state.lemma_filter_pred(pred, k);
    }
    lemma_filter_from(state, pred);
}

proof fn lemma_filter_from<A>(s: Seq<A>, pred: spec_fn(A) -> bool)
    ensures
        forall|k: int| 0 <= k < s.filter(pred).len() ==> s.contains(#[trigger] s.filter(pred)[k]),
    decreases s.len(),
{
    reveal(Seq::filter);
    if s.len() > 0 {
        lemma_filter_from(s.drop_last(), pred);
        let f = s.filter(pred);
        assert forall|k: int| 0 <= k < f.len() implies s.contains(#[trigger] f[k]) by {
            let g = s.drop_last().filter(pred);
            if k < g.len() {
                assert(f[k] == g[k]);
                assert(s.drop_last().contains(g[k]));
                let j = choose|j: int| 0 <= j < s.drop_last().len() && s.drop_last()[j] == g[k];
                assert(s[j] == g[k]);
            } else {
                assert(f[k] == s.last());
                assert(s[s.len() - 1] == s.last());
            }
        }
    }
}

impl StateEntry {
    /// A copy of this entry.
    pub fn clone_entry(&self) -> (r: StateEntry)
        ensures
            r == *self,
    {
        let r = StateEntry {
            event_type: self.event_type.clone(),
            state_key: self.state_key.clone(),
            event_id: self.event_id.clone(),
        };
        r
    }
}

} // verus!

verus! {

/// What a presence update says; absent fields are unknown.
#[derive(Clone, Debug)]
pub struct PresenceContent {
    pub presence: String,
    pub status_msg: Option<String>,
    pub last_active_ago: Option<u64>,
    pub displayname: Option<String>,
    pub avatar_url: Option<String>,
    pub currently_active: Option<bool>,
}

/// `new` when it is present, else `old`.
pub open spec fn newer<T>(new: Option<T>, old: Option<T>) -> Option<T> {
    if new is Some {
        new
    } else {
        old
    }
}

/// Folds a later presence update of a user into the one already collected:
/// the presence state is replaced, and each optional field is taken from the
/// later update when it has one and kept otherwise.
pub fn merge_presence(current: PresenceContent, new: PresenceContent) -> (r: PresenceContent)
    ensures
        r.presence == new.presence,
        r.status_msg == newer(new.status_msg, current.status_msg),
        r.last_active_ago == newer(new.last_active_ago, current.last_active_ago),
        r.displayname == newer(new.displayname, current.displayname),
        r.avatar_url == newer(new.avatar_url, current.avatar_url),
        r.currently_active == newer(new.currently_active, current.currently_active),
{
    PresenceContent {
        presence: new.presence,
        status_msg: if new.status_msg.is_some() {
            new.status_msg
        } else {
            current.status_msg
        },
        last_active_ago: if new.last_active_ago.is_some() {
            new.last_active_ago
        } else {
            current.last_active_ago
        },
        displayname: if new.displayname.is_some() {
            new.displayname
        } else {
            current.displayname
        },
        avatar_url: if new.avatar_url.is_some() {
            new.avatar_url
        } else {
            current.avatar_url
        },
        currently_active: if new.currently_active.is_some() {
            new.currently_active
        } else {
            current.currently_active
        },
    }
}

/// The default number of timeline events a sliding-sync room gets.
pub const DEFAULT_TIMELINE_LIMIT: u64 = 10;

/// The largest number of timeline events a sliding-sync room gets.
pub const MAX_TIMELINE_LIMIT: u64 = 100;

/// The timeline limit of a sliding-sync room: the requested one, 10 when
/// none was requested, and never more than 100.
pub fn sliding_timeline_limit(requested: Option<u64>) -> (r: u64)
    ensures
        r == (match requested {
            Some(l) => if l < 100 { l } else { 100 },
            None => 10,
        }),
        r <= MAX_TIMELINE_LIMIT,
{
    let l = match requested {
        Some(l) => l,
        None => DEFAULT_TIMELINE_LIMIT,
    };
    if l < MAX_TIMELINE_LIMIT {
        l
    } else {
        MAX_TIMELINE_LIMIT
    }
}

/// The heroes' names after the first, joined by `, `.
pub open spec fn join_names(names: Seq<Seq<char>>) -> Seq<char>
    decreases names.len(),
{
    if names.len() == 0 {
        Seq::empty()
    } else if names.len() == 1 {
        names[0]
    } else {
        join_names(names.drop_last()) + ", "@ + names.last()
    }
}

/// The name of an unnamed room from its heroes: none without heroes, the
/// hero's name for one, and `B, C and A` for heroes `A, B, C`.
pub open spec fn heroes_name(names: Seq<Seq<char>>) -> Option<Seq<char>> {
    if names.len() == 0 {
        None
    } else if names.len() == 1 {
        Some(names[0])
    } else {
        Some(join_names(names.skip(1)) + " and "@ + names[0])
    }
}

/// The name of an unnamed room from its heroes' display names.
pub fn room_name_from_heroes(names: &Vec<String>) -> (r: Option<String>)
    ensures
        match r {
            Some(s) => heroes_name(names@.map_values(|n: String| n@)) == Some(s@),
            None => heroes_name(names@.map_values(|n: String| n@)) is None,
        },
{
    let ghost v = names@.map_values(|n: String| n@);
    if names.len() == 0 {
        return None;
    }
    if names.len() == 1 {
        return Some(names[0].clone());
    }
    let mut s = names[1].clone();
    let mut i: usize = 2;
    proof {
        assert(v.skip(1).take(1) =~= seq![v[1]]);
        reveal_with_fuel(join_names, 2);
    }
    while i < names.len()
        invariant
            2 <= i <= names@.len(),
            v == names@.map_values(|n: String| n@),
            s@ == join_names(v.skip(1).take(i - 1)),
        decreases names@.len() - i,
    {
        let ghost t = v.skip(1).take(i as int);
        assert(t.drop_last() =~= v.skip(1).take(i - 1));
        assert(t.last() == v[i as int]);
        s.append(", ");
        s.append(names[i].as_str());
        i += 1;
    }
    assert(v.skip(1).take(names@.len() - 1) =~= v.skip(1));
    s.append(" and ");
    s.append(names[0].as_str());
    Some(s)
}

} // verus!

verus! {

/// Whether a sync reports a room the user left: only when the user left it
/// after `since`.
pub fn left_room_is_new(since: u64, left_count: Option<u64>) -> (r: bool)
    ensures
        r == (left_count is Some && left_count->Some_0 > since),
{
    match left_count {
        Some(c) => c > since,
        None => false,
    }
}

} // verus!

verus! {

/// Whether the two users share a room other than `ignore_room` that is
/// encrypted; `shared_rooms` lists the rooms they share with whether each is
/// encrypted.
pub fn share_encrypted_room(shared_rooms: &Vec<(String, bool)>, ignore_room: &str) -> (r: bool)
    ensures
        r == exists|i: int|
            0 <= i < shared_rooms@.len() && (#[trigger] shared_rooms@[i]).0@ != ignore_room@ && shared_rooms@[i].1,
{
    let mut i: usize = 0;
    while i < shared_rooms.len()
        invariant
            i <= shared_rooms@.len(),
            forall|j: int| 0 <= j < i ==> !((#[trigger] shared_rooms@[j]).0@ != ignore_room@ && shared_rooms@[j].1),
        decreases shared_rooms@.len() - i,
    {
        if shared_rooms[i].1 && !str_eq(shared_rooms[i].0.as_str(), ignore_room) {
            return true;
        }
        i += 1;
    }
    false
}

/// The users whose member events are among `state`.
pub open spec fn member_keys(state: Seq<StateEntry>) -> Set<Seq<char>> {
    Set::new(|u: Seq<char>| exists|i: int| 0 <= i < state.len() && is_member_entry(#[trigger] state[i]) && state[i].state_key@ == u)
}

/// Some member event of `members` is that of `user`.
pub open spec fn has_member_event(members: Seq<StateEntry>, user: Seq<char>) -> bool {
    exists|i: int| 0 <= i < members.len() && is_member_entry(#[trigger] members[i]) && members[i].state_key@ == user
}

/// The member event of `user` in `members`, if any: the first one.
fn find_member_event(members: &Vec<StateEntry>, user: &str) -> (r: Option<StateEntry>)
    ensures
        r is None ==> !has_member_event(members@, user@),
        r is Some ==> is_member_entry(r->Some_0) && r->Some_0.state_key@ == user@ && exists|i: int|
            0 <= i < members@.len() && #[trigger] members@[i] == r->Some_0,
{
    let mut i: usize = 0;
    while i < members.len()
        invariant
            i <= members@.len(),
            forall|j: int| 0 <= j < i ==> !(is_member_entry(#[trigger] members@[j]) && members@[j].state_key@ == user@),
        decreases members@.len() - i,
    {
        if str_eq(members[i].event_type.as_str(), "m.room.member") && str_eq(members[i].state_key.as_str(), user) {
            proof {
                reveal_strlit("m.room.member");
            }
            return Some(members[i].clone_entry());
        }
        i += 1;
    }
    proof {
        reveal_strlit("m.room.member");
    }
    None
}

/// Whether an incremental sync adds the member event of a timeline sender:
/// when the state delta did not already carry it, and the device has not
/// received it before or redundant member events were asked for.
pub open spec fn wants_member(
    delta_keys: Set<Seq<char>>,
    delivered: bool,
    send_redundant: bool,
    sender: Seq<char>,
) -> bool {
    !delta_keys.contains(sender) && (!delivered || send_redundant)
}

/// The member events an incremental sync adds for the senders of its
/// timeline window, in the order the senders first appear, and the users
/// whose member events the response then carries.
pub fn incremental_lazy_members(
    lazy_loading: &crate::lazy_loading::LazyLoading,
    user_id: &str,
    device_id: &str,
    room_id: &str,
    delta_state: &Vec<StateEntry>,
    timeline_senders: &Vec<String>,
    member_events: &Vec<StateEntry>,
    send_redundant: bool,
) -> (r: (Vec<StateEntry>, Vec<String>))
    ensures
        forall|k: int|
            0 <= k < r.0@.len() ==> is_member_entry(#[trigger] r.0@[k]) && (exists|i: int|
                0 <= i < member_events@.len() && member_events@[i] == r.0@[k]) && id_set(timeline_senders@).contains(
                r.0@[k].state_key@,
            ) && wants_member(
                member_keys(delta_state@),
                lazy_loading.delivered().contains(((user_id@, device_id@, room_id@), r.0@[k].state_key@)),
                send_redundant,
                r.0@[k].state_key@,
            ),
        forall|a: int, b: int| 0 <= a < b < r.0@.len() ==> (#[trigger] r.0@[a]).state_key@ != (#[trigger] r.0@[b]).state_key@,
        forall|j: int|
            0 <= j < timeline_senders@.len() && wants_member(
                member_keys(delta_state@),
                lazy_loading.delivered().contains(((user_id@, device_id@, room_id@), (#[trigger] timeline_senders@[j])@)),
                send_redundant,
                timeline_senders@[j]@,
            ) && has_member_event(member_events@, timeline_senders@[j]@) ==> exists|k: int|
                0 <= k < r.0@.len() && r.0@[k].state_key@ == timeline_senders@[j]@,
        id_set(r.1@) == member_keys(delta_state@).union(
            Set::new(|u: Seq<char>| exists|k: int| 0 <= k < r.0@.len() && (#[trigger] r.0@[k]).state_key@ == u),
        ),
{
    let ghost dr = (user_id@, device_id@, room_id@);
    let ghost dkeys = member_keys(delta_state@);
    let mut lazy_loaded: Vec<String> = Vec::new();
    let mut d: usize = 0;
    proof {
        reveal_strlit("m.room.member");
    }
    while d < delta_state.len()
        invariant
            d <= delta_state@.len(),
            id_set(lazy_loaded@) == Set::new(
                |u: Seq<char>|
                    exists|i: int| 0 <= i < d && is_member_entry(#[trigger] delta_state@[i]) && delta_state@[i].state_key@ == u,
            ),
        decreases delta_state@.len() - d,
    {
        let ghost before = lazy_loaded@;
        if str_eq(delta_state[d].event_type.as_str(), "m.room.member") {
            proof {
                reveal_strlit("m.room.member");
            }
            lazy_loaded.push(delta_state[d].state_key.clone());
            proof {
                assert forall|u: Seq<char>| id_set(lazy_loaded@).contains(u) <==> exists|i: int|
                    0 <= i < d + 1 && is_member_entry(#[trigger] delta_state@[i]) && delta_state@[i].state_key@ == u by {
                    if id_set(lazy_loaded@).contains(u) {
                        let m = choose|m: int| 0 <= m < lazy_loaded@.len() && lazy_loaded@[m]@ == u;
                        if m < before.len() {
                            assert(id_set(before).contains(u));
                        }
                    }
                    if exists|i: int| 0 <= i < d + 1 && is_member_entry(#[trigger] delta_state@[i]) && delta_state@[i].state_key@ == u {
                        let i = choose|i: int| 0 <= i < d + 1 && is_member_entry(#[trigger] delta_state@[i]) && delta_state@[i].state_key@ == u;
                        if i < d {
                            assert(id_set(before).contains(u));
                            let m = choose|m: int| 0 <= m < before.len() && before[m]@ == u;
                            assert(lazy_loaded@[m]@ == u);
                        } else {
                            assert(lazy_loaded@[before.len() as int]@ == u);
                        }
                    }
                }
            }
        } else {
            proof {
                reveal_strlit("m.room.member");
                assert forall|u: Seq<char>| (exists|i: int|
                    0 <= i < d + 1 && is_member_entry(#[trigger] delta_state@[i]) && delta_state@[i].state_key@ == u) implies id_set(
                    lazy_loaded@,
                ).contains(u) by {
                    let i = choose|i: int| 0 <= i < d + 1 && is_member_entry(#[trigger] delta_state@[i]) && delta_state@[i].state_key@ == u;
                    assert(i < d);
                }
            }
        }
        assert(id_set(lazy_loaded@) =~= Set::new(
            |u: Seq<char>|
                exists|i: int| 0 <= i < d + 1 && is_member_entry(#[trigger] delta_state@[i]) && delta_state@[i].state_key@ == u,
        ));
        d += 1;
    }
    assert(id_set(lazy_loaded@) =~= dkeys);
    let mut extra: Vec<StateEntry> = Vec::new();
    let mut t: usize = 0;
    while t < timeline_senders.len()
        invariant
            t <= timeline_senders@.len(),
            dr == (user_id@, device_id@, room_id@),
            dkeys == member_keys(delta_state@),
            id_set(lazy_loaded@) == dkeys.union(
                Set::new(|u: Seq<char>| exists|k: int| 0 <= k < extra@.len() && (#[trigger] extra@[k]).state_key@ == u),
            ),
            forall|k: int|
                0 <= k < extra@.len() ==> is_member_entry(#[trigger] extra@[k]) && (exists|i: int|
                    0 <= i < member_events@.len() && member_events@[i] == extra@[k]) && id_set(timeline_senders@).contains(
                    extra@[k].state_key@,
                ) && wants_member(
                    dkeys,
                    lazy_loading.delivered().contains((dr, extra@[k].state_key@)),
                    send_redundant,
                    extra@[k].state_key@,
                ),
            forall|a: int, b: int| 0 <= a < b < extra@.len() ==> (#[trigger] extra@[a]).state_key@ != (#[trigger] extra@[b]).state_key@,
            forall|j: int|
                0 <= j < t && wants_member(
                    dkeys,
                    lazy_loading.delivered().contains((dr, (#[trigger] timeline_senders@[j])@)),
                    send_redundant,
                    timeline_senders@[j]@,
                ) && has_member_event(member_events@, timeline_senders@[j]@) ==> exists|k: int|
                    0 <= k < extra@.len() && extra@[k].state_key@ == timeline_senders@[j]@,
        decreases timeline_senders@.len() - t,
    {
        let sender = timeline_senders[t].as_str();
        let ghost s = timeline_senders@[t as int]@;
        if !crate::timeline::holds_id(&lazy_loaded, sender) {
            let delivered = lazy_loading.lazy_load_was_sent_before(user_id, device_id, room_id, sender);
            if !delivered || send_redundant {
                match find_member_event(member_events, sender) {
                    Some(ev) => {
                        let ghost before = extra@;
                        let ghost before_ll = lazy_loaded@;
                        lazy_loaded.push(timeline_senders[t].clone());
                        extra.push(ev);
                        proof {
                            assert(id_set(timeline_senders@).contains(s));
                            assert forall|k: int| 0 <= k < extra@.len() implies is_member_entry(#[trigger] extra@[k]) && (exists|i: int|
                                0 <= i < member_events@.len() && member_events@[i] == extra@[k]) && id_set(timeline_senders@).contains(
                                extra@[k].state_key@,
                            ) && wants_member(
                                dkeys,
                                lazy_loading.delivered().contains((dr, extra@[k].state_key@)),
                                send_redundant,
                                extra@[k].state_key@,
                            ) by {
                                if k < before.len() {
                                    assert(extra@[k] == before[k]);
                                } else {
                                    assert(!dkeys.contains(s)) by {
                                        if dkeys.contains(s) {
                                            assert(id_set(before_ll).contains(s));
                                        }
                                    }
                                }
                            }
                            assert forall|a: int, b: int| 0 <= a < b < extra@.len() implies (#[trigger] extra@[a]).state_key@
                                != (#[trigger] extra@[b]).state_key@ by {
                                if b == before.len() {
                                    if extra@[a].state_key@ == s {
                                        assert(id_set(before_ll).contains(s));
                                    }
                                } else {
                                    assert(before[a].state_key@ != before[b].state_key@);
                                }
                            }
                            let newset = Set::new(|u: Seq<char>| exists|k: int| 0 <= k < extra@.len() && (#[trigger] extra@[k]).state_key@ == u);
                            let oldset = Set::new(|u: Seq<char>| exists|k: int| 0 <= k < before.len() && (#[trigger] before[k]).state_key@ == u);
                            assert forall|u: Seq<char>| id_set(lazy_loaded@).contains(u) <==> dkeys.union(newset).contains(u) by {
                                if id_set(lazy_loaded@).contains(u) {
                                    let m = choose|m: int| 0 <= m < lazy_loaded@.len() && lazy_loaded@[m]@ == u;
                                    if m < before_ll.len() {
                                        assert(id_set(before_ll).contains(u));
                                        if oldset.contains(u) {
                                            let k = choose|k: int| 0 <= k < before.len() && (#[trigger] before[k]).state_key@ == u;
                                            assert(extra@[k] == before[k]);
                                        }
                                    } else {
                                        assert(extra@[before.len() as int].state_key@ == u);
                                    }
                                }
                                if newset.contains(u) {
                                    let k = choose|k: int| 0 <= k < extra@.len() && (#[trigger] extra@[k]).state_key@ == u;
                                    if k < before.len() {
                                        assert(oldset.contains(u));
                                        assert(id_set(before_ll).contains(u));
                                        let m = choose|m: int| 0 <= m < before_ll.len() && before_ll[m]@ == u;
                                        assert(lazy_loaded@[m]@ == u);
                                    } else {
                                        assert(lazy_loaded@[before_ll.len() as int]@ == u);
                                    }
                                }
                                if dkeys.contains(u) {
                                    assert(id_set(before_ll).contains(u));
                                    let m = choose|m: int| 0 <= m < before_ll.len() && before_ll[m]@ == u;
                                    assert(lazy_loaded@[m]@ == u);
                                }
                            }
                            assert(id_set(lazy_loaded@) =~= dkeys.union(newset));
                            assert forall|j: int|
                                0 <= j < t + 1 && wants_member(
                                    dkeys,
                                    lazy_loading.delivered().contains((dr, (#[trigger] timeline_senders@[j])@)),
                                    send_redundant,
                                    timeline_senders@[j]@,
                                ) && has_member_event(member_events@, timeline_senders@[j]@) implies exists|k: int|
                                    0 <= k < extra@.len() && extra@[k].state_key@ == timeline_senders@[j]@ by {
                                if j < t {
                                    let k = choose|k: int| 0 <= k < before.len() && before[k].state_key@ == timeline_senders@[j]@;
                                    assert(extra@[k] == before[k]);
                                } else {
                                    assert(extra@[before.len() as int].state_key@ == s);
                                }
                            }
                        }
                    },
                    None => {},
                }
            }
        } else {
            proof {
                assert forall|j: int|
                    0 <= j < t + 1 && wants_member(
                        dkeys,
                        lazy_loading.delivered().contains((dr, (#[trigger] timeline_senders@[j])@)),
                        send_redundant,
                        timeline_senders@[j]@,
                    ) && has_member_event(member_events@, timeline_senders@[j]@) implies exists|k: int|
                        0 <= k < extra@.len() && extra@[k].state_key@ == timeline_senders@[j]@ by {
                    if j == t {
                        assert(id_set(lazy_loaded@).contains(s));
                        assert(!dkeys.contains(s));
                        let newset = Set::new(|u: Seq<char>| exists|k: int| 0 <= k < extra@.len() && (#[trigger] extra@[k]).state_key@ == u);
                        assert(newset.contains(s));
                    }
                }
            }
        }
        t += 1;
    }
    (extra, lazy_loaded)
}

} // verus!

verus! {

/// A requested window over the joined rooms, clamped to them: the start to
/// the last room, the end between the start and the last room. Without
/// joined rooms every window is empty.
pub open spec fn clamp_range(n: nat, a: u64, b: u64) -> (u64, u64) {
    if n == 0 {
        (0, 0)
    } else {
        let last = (n - 1) as u64;
        let s = if a < last { a } else { last };
        let e = if b < s { s } else if b < last { b } else { last };
        (s, e)
    }
}

/// The rooms a clamped window covers.
pub open spec fn window_rooms(joined: Seq<Seq<char>>, a: u64, b: u64) -> Seq<Seq<char>> {
    if joined.len() == 0 {
        Seq::empty()
    } else {
        let (s, e) = clamp_range(joined.len(), a, b);
        joined.subrange(s as int, e + 1)
    }
}

/// The sync operations of a sliding-sync list: for each requested range, the
/// range clamped to the joined rooms and the rooms it covers.
pub fn sliding_list_ops(joined: &Vec<String>, ranges: &Vec<(u64, u64)>) -> (r: Vec<(u64, u64, Vec<String>)>)
    ensures
        r@.len() == ranges@.len(),
        forall|i: int|
            0 <= i < r@.len() ==> ((#[trigger] r@[i]).0, r@[i].1) == clamp_range(
                joined@.len(),
                ranges@[i].0,
                ranges@[i].1,
            ) && r@[i].2@.map_values(|s: String| s@) == window_rooms(
                joined@.map_values(|s: String| s@),
                ranges@[i].0,
                ranges@[i].1,
            ),
{
    let ghost jv = joined@.map_values(|s: String| s@);
    let mut r: Vec<(u64, u64, Vec<String>)> = Vec::new();
    let mut i: usize = 0;
    while i < ranges.len()
        invariant
            i <= ranges@.len(),
            r@.len() == i,
            jv == joined@.map_values(|s: String| s@),
            forall|k: int|
                0 <= k < i ==> ((#[trigger] r@[k]).0, r@[k].1) == clamp_range(joined@.len(), ranges@[k].0, ranges@[k].1)
                    && r@[k].2@.map_values(|s: String| s@) == window_rooms(jv, ranges@[k].0, ranges@[k].1),
        decreases ranges@.len() - i,
    {
        let (a, b) = ranges[i];
        let n = joined.len();
        let mut rooms: Vec<String> = Vec::new();
        let (s, e): (u64, u64) = if n == 0 {
            (0, 0)
        } else {
            let last = (n - 1) as u64;
            let s = if a < last { a } else { last };
            let e = if b < s { s } else if b < last { b } else { last };
            let mut k: usize = s as usize;
            while k <= e as usize
                invariant
                    n == joined@.len(),
                    n > 0,
                    s <= e,
                    e as int <= n - 1,
                    s as int <= k as int <= e as int + 1,
                    rooms@.map_values(|x: String| x@) == jv.subrange(s as int, k as int),
                    jv == joined@.map_values(|x: String| x@),
                decreases e as int + 1 - k as int,
            {
                let ghost before = rooms@;
                rooms.push(joined[k].clone());
                assert(rooms@.map_values(|x: String| x@) =~= before.map_values(|x: String| x@).push(jv[k as int]));
                assert(jv.subrange(s as int, k + 1) =~= jv.subrange(s as int, k as int).push(jv[k as int]));
                k += 1;
            }
            (s, e)
        };
        proof {
            if n == 0 {
                assert(rooms@.map_values(|x: String| x@) =~= Seq::<Seq<char>>::empty());
            }
        }
        r.push((s, e, rooms));
        i += 1;
    }
    r
}

/// How long a sync waits for news, in milliseconds: only an empty response
/// to a sync that does not ask for the full state waits, for the requested
/// time but never more than 30 seconds.
pub fn sync_wait_ms(full_state: bool, response_empty: bool, timeout_ms: Option<u64>) -> (r: u64)
    ensures
        r == (if !full_state && response_empty {
            match timeout_ms {
                Some(t) => if t < 30000 { t } else { 30000 },
                None => 0,
            }
        } else {
            0
        }),
{
    if !full_state && response_empty {
        let t = match timeout_ms {
            Some(t) => t,
            None => 0,
        };
        if t < 30000 {
            t
        } else {
            30000
        }
    } else {
        0
    }
}

/// The invites a sync reports: those that arrived after `since`.
pub fn new_invites(invites: &Vec<(String, Option<u64>)>, since: u64) -> (r: Vec<String>)
    ensures
        r@.map_values(|s: String| s@) == invites@.filter(
            |e: (String, Option<u64>)| e.1 is Some && e.1->Some_0 > since,
        ).map_values(|e: (String, Option<u64>)| e.0@),
{
    let ghost pred = |e: (String, Option<u64>)| e.1 is Some && e.1->Some_0 > since;
    let mut r: Vec<String> = Vec::new();
    let mut i: usize = 0;
    while i < invites.len()
        invariant
            i <= invites@.len(),
            pred == (|e: (String, Option<u64>)| e.1 is Some && e.1->Some_0 > since),
            r@.map_values(|s: String| s@) == invites@.take(i as int).filter(pred).map_values(
                |e: (String, Option<u64>)| e.0@,
            ),
        decreases invites@.len() - i,
    {
        proof {
            crate::tree::lemma_filter_take_step(invites@, i as int, pred);
        }
        let ghost before = r@;
        let keep = match invites[i].1 {
            Some(c) => c > since,
            None => false,
        };
        if keep {
            r.push(invites[i].0.clone());
            assert(r@.map_values(|s: String| s@) =~= before.map_values(|s: String| s@).push(invites@[i as int].0@));
        }
        assert(invites@.take(i as int).filter(pred).push(invites@[i as int]).map_values(
            |e: (String, Option<u64>)| e.0@,
        ) =~= invites@.take(i as int).filter(pred).map_values(|e: (String, Option<u64>)| e.0@).push(
            invites@[i as int].0@,
        ));
        i += 1;
    }
    assert(invites@.take(i as int) =~= invites@);
    r
}

/// The to-device messages a device still holds once a sync from `since`
/// confirmed the earlier ones: those queued after `since`.
pub fn drain_to_device(messages: &Vec<(u64, Vec<u8>)>, since: u64) -> (r: Vec<(u64, Vec<u8>)>)
    ensures
        r@.map_values(|m: (u64, Vec<u8>)| (m.0, m.1@)) == messages@.map_values(|m: (u64, Vec<u8>)| (m.0, m.1@)).filter(
            |m: (u64, Seq<u8>)| m.0 > since,
        ),
{
    let ghost mv = messages@.map_values(|m: (u64, Vec<u8>)| (m.0, m.1@));
    let ghost pred = |m: (u64, Seq<u8>)| m.0 > since;
    let mut r: Vec<(u64, Vec<u8>)> = Vec::new();
    let mut i: usize = 0;
    while i < messages.len()
        invariant
            i <= messages@.len(),
            mv == messages@.map_values(|m: (u64, Vec<u8>)| (m.0, m.1@)),
            pred == (|m: (u64, Seq<u8>)| m.0 > since),
            r@.map_values(|m: (u64, Vec<u8>)| (m.0, m.1@)) == mv.take(i as int).filter(pred),
        decreases messages@.len() - i,
    {
        proof {
            crate::tree::lemma_filter_take_step(mv, i as int, pred);
        }
        let ghost before = r@;
        if messages[i].0 > since {
            r.push((messages[i].0, crate::tree::copy_bytes(messages[i].1.as_slice())));
            assert(r@.map_values(|m: (u64, Vec<u8>)| (m.0, m.1@)) =~= before.map_values(
                |m: (u64, Vec<u8>)| (m.0, m.1@),
            ).push(mv[i as int]));
        }
        i += 1;
    }
    assert(mv.take(i as int) =~= mv);
    r
}

/// What a sync reports of a room the user left: the state entries of the
/// room at the leave that were not already so at `since` (all of them for a
/// full-state sync), no timeline, and not limited.
pub struct LeftRoomSync {
    pub state: Vec<(u64, u64)>,
    pub timeline: Vec<String>,
    pub limited: bool,
}

/// The left-room part of a sync response.
pub fn left_room_sync(since_state: &Vec<(u64, u64)>, left_state: &Vec<(u64, u64)>, full_state: bool) -> (r:
    LeftRoomSync)
    ensures
        r.state@ == left_state@.filter(|e: (u64, u64)| full_state || !since_state@.contains(e)),
        r.timeline@.len() == 0,
        !r.limited,
{
    let ghost pred = |e: (u64, u64)| full_state || !since_state@.contains(e);
    let mut state: Vec<(u64, u64)> = Vec::new();
    let mut i: usize = 0;
    while i < left_state.len()
        invariant
            i <= left_state@.len(),
            pred == (|e: (u64, u64)| full_state || !since_state@.contains(e)),
            state@ == left_state@.take(i as int).filter(pred),
        decreases left_state@.len() - i,
    {
        proof {
            crate::tree::lemma_filter_take_step(left_state@, i as int, pred);
        }
        let e = left_state[i];
        let mut seen = false;
        let mut k: usize = 0;
        while k < since_state.len()
            invariant
                k <= since_state@.len(),
                seen <==> exists|j: int| 0 <= j < k && since_state@[j] == e,
            decreases since_state@.len() - k,
        {
            if since_state[k].0 == e.0 && since_state[k].1 == e.1 {
                seen = true;
            }
            k += 1;
        }
        proof {
            if seen {
                let j = choose|j: int| 0 <= j < k && since_state@[j] == e;
                assert(since_state@.contains(e));
            }
            if since_state@.contains(e) {
                let j = choose|j: int| 0 <= j < since_state@.len() && since_state@[j] == e;
                assert(exists|j2: int| 0 <= j2 < k && since_state@[j2] == e);
            }
        }
        if full_state || !seen {
            state.push(e);
        }
        i += 1;
    }
    assert(left_state@.take(i as int) =~= left_state@);
    LeftRoomSync { state, timeline: Vec::new(), limited: false }
}

} // verus!
