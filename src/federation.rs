use vstd::prelude::*;
use crate::appservice::str_eq;
use crate::error::{kind_code, Error, ErrorKind};
use vstd::string::StringExecFns;

verus! {

/// The message a remote server receives for a refused PDU.
pub open spec fn error_message(e: Error) -> Seq<char> {
    match e {
        Error::BadRequest(k) => kind_code(k),
        Error::BadDatabase => "M_UNKNOWN"@,
        Error::CounterExhausted => "M_UNKNOWN"@,
    }
}

impl Error {
    /// The error code clients and servers see; storage and counter failures
    /// never show their cause.
    pub fn errcode(&self) -> (r: &'static str)
        ensures
            r@ == error_message(*self),
    {
        match self {
            Error::BadRequest(k) => k.errcode(),
            Error::BadDatabase => "M_UNKNOWN",
            Error::CounterExhausted => "M_UNKNOWN",
        }
    }
}

/// The outcome recorded for an event id: the last result given for it.
pub open spec fn last_outcome(results: Seq<(String, Result<(), Error>)>, id: Seq<char>) -> Option<Option<Seq<char>>>
    decreases results.len(),
{
    if results.len() == 0 {
        None
    } else if results.last().0@ == id {
        Some(
            match results.last().1 {
                Ok(()) => None,
                Err(e) => Some(error_message(e)),
            },
        )
    } else {
        last_outcome(results.drop_last(), id)
    }
}

/// Some entry is for `id`.
pub open spec fn has_entry(r: Seq<(String, Option<String>)>, id: Seq<char>) -> bool {
    exists|i: int| 0 <= i < r.len() && (#[trigger] r[i]).0@ == id
}

/// Where the entry for `id` stands, if anywhere.
fn position_of(r: &Vec<(String, Option<String>)>, id: &str) -> (p: Option<usize>)
    ensures
        p is None ==> forall|i: int| 0 <= i < r@.len() ==> (#[trigger] r@[i]).0@ != id@,
        p is Some ==> p->Some_0 < r@.len() && r@[p->Some_0 as int].0@ == id@,
{
    let mut pos: usize = 0;
    while pos < r.len()
        invariant
            pos <= r@.len(),
            forall|i: int| 0 <= i < pos ==> (#[trigger] r@[i]).0@ != id@,
        decreases r@.len() - pos,
    {
        if str_eq(r[pos].0.as_str(), id) {
            return Some(pos);
        }
        pos += 1;
    }
    None
}

/// The per-PDU part of the answer to a federation transaction: for each
/// event id handled, nothing when it was accepted, the error otherwise. A
/// failed PDU never fails the transaction.
pub fn transaction_pdu_outcomes(results: &Vec<(String, Result<(), Error>)>) -> (r: Vec<(String, Option<String>)>)
    ensures
        forall|i: int, j: int| 0 <= i < j < r@.len() ==> (#[trigger] r@[i]).0@ != (#[trigger] r@[j]).0@,
        forall|i: int|
            0 <= i < r@.len() ==> last_outcome(results@, (#[trigger] r@[i]).0@) == Some(
                match r@[i].1 {
                    Some(m) => Some(m@),
                    None => None::<Seq<char>>,
                },
            ),
        forall|k: int| 0 <= k < results@.len() ==> has_entry(r@, (#[trigger] results@[k]).0@),
{
    let mut r: Vec<(String, Option<String>)> = Vec::new();
    let mut k: usize = 0;
    while k < results.len()
        invariant
            k <= results@.len(),
            forall|i: int, j: int| 0 <= i < j < r@.len() ==> (#[trigger] r@[i]).0@ != (#[trigger] r@[j]).0@,
            forall|i: int|
                0 <= i < r@.len() ==> last_outcome(results@.take(k as int), (#[trigger] r@[i]).0@) == Some(
                    match r@[i].1 {
                        Some(m) => Some(m@),
                        None => None::<Seq<char>>,
                    },
                ),
            forall|m: int| 0 <= m < k ==> has_entry(r@, (#[trigger] results@[m]).0@),
        decreases results@.len() - k,
    {
        let ghost prev = results@.take(k as int);
        let ghost next = results@.take(k + 1);
        assert(next.drop_last() =~= prev);
        let outcome: Option<String> = match &results[k].1 {
            Ok(()) => None,
            Err(e) => Some(String::from_str(e.errcode())),
        };
        let id = results[k].0.clone();
        let at = position_of(&r, id.as_str());
        let found = at.is_some();
        let pos: usize = match at {
            Some(p) => p,
            None => 0,
        };
        assert(next.last() == results@[k as int]);
        assert(found ==> r@[pos as int].0@ == id@);
        let ghost before = r@;
        if found {
            r.set(pos, (id, outcome));
        } else {
            r.push((id, outcome));
        }
        proof {
            assert forall|i: int, j: int| 0 <= i < j < r@.len() implies (#[trigger] r@[i]).0@ != (
            #[trigger] r@[j]).0@ by {
                if !found && j == before.len() {
                    assert(before[i].0@ != id@);
                } else {
                    assert(before[i].0@ != before[j].0@);
                }
            }
            assert forall|i: int| 0 <= i < r@.len() implies last_outcome(next, (#[trigger] r@[i]).0@) == Some(
                match r@[i].1 {
                    Some(m) => Some(m@),
                    None => None::<Seq<char>>,
                },
            ) by {
                if r@[i].0@ != id@ {
                    assert(r@[i] == before[i]);
                    assert(last_outcome(next, r@[i].0@) == last_outcome(prev, r@[i].0@));
                }
            }
            assert forall|m: int| 0 <= m < k + 1 implies has_entry(r@, (#[trigger] results@[m]).0@) by {
                if m < k {
                    assert(has_entry(before, results@[m].0@));
                    let i = choose|i: int| 0 <= i < before.len() && (#[trigger] before[i]).0@ == results@[m].0@;
                    if found && i == pos {
                        assert(r@[i].0@ == id@);
                    } else {
                        assert(r@[i] == before[i]);
                    }
                } else if found {
                    assert(r@[pos as int].0@ == results@[m].0@);
                } else {
                    assert(r@[before.len() as int].0@ == results@[m].0@);
                }
            }
        }
        k += 1;
    }
    assert(results@.take(results@.len() as int) =~= results@);
    r
}

} // verus!

verus! {

/// An event as the missing-events walk sees it: its room, the events it
/// follows, and whether the asking server may see it.
#[derive(Clone, Debug)]
pub struct StoredEvent {
    pub event_id: String,
    pub room_id: String,
    pub prev_events: Vec<String>,
    pub visible: bool,
}

/// Where the first stored event with id `id` stands, at or after `j`.
pub open spec fn event_index(events: Seq<StoredEvent>, id: Seq<char>, j: int) -> Option<int>
    decreases events.len() - j,
{
    if j < 0 || j >= events.len() {
        None
    } else if events[j].event_id@ == id {
        Some(j)
    } else {
        event_index(events, id, j + 1)
    }
}

/// The views of a list of ids.
pub open spec fn ids_view(v: Seq<String>) -> Seq<Seq<char>> {
    v.map_values(|s: String| s@)
}

/// The walk for missing events, from position `i` of the queue with `out`
/// collected so far: an unknown id is skipped; an event of another room
/// ends the walk in refusal; an earliest or invisible event is skipped;
/// any other event is sent and the events it follows join the queue. The
/// walk stops when the queue is done or `limit` events were collected.
pub open spec fn missing_walk(
    events: Seq<StoredEvent>,
    queue: Seq<Seq<char>>,
    i: int,
    out: Seq<Seq<char>>,
    earliest: Set<Seq<char>>,
    room: Seq<char>,
    limit: int,
) -> Result<Seq<Seq<char>>, ()>
    decreases limit - out.len(), queue.len() - i,
{
    if i < 0 || i >= queue.len() || out.len() >= limit {
        Ok(out)
    } else {
        match event_index(events, queue[i], 0) {
            None => missing_walk(events, queue, i + 1, out, earliest, room, limit),
            Some(j) => if 0 <= j < events.len() && events[j].room_id@ != room {
                Err(())
            } else if earliest.contains(queue[i]) || (0 <= j < events.len() && !events[j].visible) {
                missing_walk(events, queue, i + 1, out, earliest, room, limit)
            } else if 0 <= j < events.len() {
                missing_walk(
                    events,
                    queue + ids_view(events[j].prev_events@),
                    i + 1,
                    out.push(queue[i]),
                    earliest,
                    room,
                    limit,
                )
            } else {
                Ok(out)
            },
        }
    }
}

/// The first stored event with id `id`, if any.
fn find_event(events: &Vec<StoredEvent>, id: &str) -> (r: Option<usize>)
    ensures
        r is None ==> event_index(events@, id@, 0) is None,
        r is None ==> forall|i: int| 0 <= i < events@.len() ==> (#[trigger] events@[i]).event_id@ != id@,
        r is Some ==> event_index(events@, id@, 0) == Some(r->Some_0 as int) && r->Some_0 < events@.len()
            && events@[r->Some_0 as int].event_id@ == id@,
{
    let mut i: usize = 0;
    while i < events.len()
        invariant
            i <= events@.len(),
            forall|j: int| 0 <= j < i ==> (#[trigger] events@[j]).event_id@ != id@,
            event_index(events@, id@, 0) == event_index(events@, id@, i as int),
        decreases events@.len() - i,
    {
        if str_eq(events[i].event_id.as_str(), id) {
            return Some(i);
        }
        i += 1;
    }
    None
}

/// Some stored event with id `id` is visible, outside the earliest events,
/// and in room `room`.
pub open spec fn may_send(events: Seq<StoredEvent>, earliest: Seq<String>, room: Seq<char>, id: Seq<char>) -> bool {
    exists|i: int|
        0 <= i < events.len() && (#[trigger] events[i]).event_id@ == id && events[i].room_id@ == room
            && events[i].visible && !crate::timeline::id_set(earliest).contains(id)
}

/// Walks back from the latest events a remote server knows, through the
/// events each one follows, collecting up to `limit` events the server may
/// see and does not have yet. Reaching an event of another room is refused.
pub fn get_missing_events(
    room_id: &str,
    events: &Vec<StoredEvent>,
    latest_events: &Vec<String>,
    earliest_events: &Vec<String>,
    limit: usize,
) -> (r: Result<Vec<String>, Error>)
    ensures
        ({
            let w = missing_walk(
                events@,
                ids_view(latest_events@),
                0,
                Seq::empty(),
                crate::timeline::id_set(earliest_events@),
                room_id@,
                limit as int,
            );
            &&& r is Ok <==> w is Ok
            &&& r is Ok ==> ids_view(r->Ok_0@) == w->Ok_0
        }),
        r is Ok ==> r->Ok_0@.len() <= limit,
        r is Ok ==> forall|k: int|
            0 <= k < r->Ok_0@.len() ==> may_send(events@, earliest_events@, room_id@, (#[trigger] r->Ok_0@[k])@),
        r is Err ==> r->Err_0 == Error::BadRequest(ErrorKind::InvalidParam) && exists|i: int|
            0 <= i < events@.len() && (#[trigger] events@[i]).room_id@ != room_id@,
        (forall|i: int| 0 <= i < events@.len() ==> (#[trigger] events@[i]).room_id@ == room_id@) ==> r is Ok,
{
    let ghost earliest = crate::timeline::id_set(earliest_events@);
    let mut queue: Vec<String> = Vec::new();
    let mut q: usize = 0;
    while q < latest_events.len()
        invariant
            q <= latest_events@.len(),
            ids_view(queue@) == ids_view(latest_events@).take(q as int),
        decreases latest_events@.len() - q,
    {
        let ghost before = queue@;
        let item = latest_events[q].clone();
        queue.push(item);
        assert(ids_view(queue@) =~= ids_view(before).push(latest_events@[q as int]@));
        q += 1;
        assert(ids_view(queue@) =~= ids_view(latest_events@).take(q as int));
    }
    assert(ids_view(latest_events@).take(q as int) =~= ids_view(latest_events@));
    let ghost start = missing_walk(events@, ids_view(latest_events@), 0, Seq::empty(), earliest, room_id@, limit as int);
    let mut out: Vec<String> = Vec::new();
    assert(ids_view(out@) =~= Seq::<Seq<char>>::empty());
    let mut i: usize = 0;
    while i < queue.len() && out.len() < limit
        invariant
            out@.len() <= limit,
            i <= queue@.len(),
            earliest == crate::timeline::id_set(earliest_events@),
            start == missing_walk(
                events@,
                ids_view(latest_events@),
                0,
                Seq::empty(),
                earliest,
                room_id@,
                limit as int,
            ),
            missing_walk(events@, ids_view(queue@), i as int, ids_view(out@), earliest, room_id@, limit as int) == start,
            forall|k: int| 0 <= k < out@.len() ==> may_send(events@, earliest_events@, room_id@, (#[trigger] out@[k])@),
        decreases limit - out@.len(), queue@.len() - i,
    {
        let ghost qv = ids_view(queue@);
        assert(qv[i as int] == queue@[i as int]@);
        match find_event(events, queue[i].as_str()) {
            None => {
                i += 1;
            },
            Some(j) => {
                if !str_eq(events[j].room_id.as_str(), room_id) {
                    assert(missing_walk(events@, qv, i as int, ids_view(out@), earliest, room_id@, limit as int) is Err);
                    return Err(Error::BadRequest(ErrorKind::InvalidParam));
                }
                if crate::timeline::holds_id(earliest_events, queue[i].as_str()) || !events[j].visible {
                    i += 1;
                } else {
                    let id = queue[i].clone();
                    let ghost prevs = ids_view(events@[j as int].prev_events@);
                    let mut p: usize = 0;
                    while p < events[j].prev_events.len()
                        invariant
                            j < events@.len(),
                            prevs == ids_view(events@[j as int].prev_events@),
                            p <= prevs.len(),
                            ids_view(queue@) == qv + prevs.take(p as int),
                        decreases prevs.len() - p,
                    {
                        let ghost before = queue@;
                        let item = events[j].prev_events[p].clone();
                        queue.push(item);
                        assert(ids_view(queue@) =~= ids_view(before).push(prevs[p as int]));
                        p += 1;
                        assert(ids_view(queue@) =~= qv + prevs.take(p as int));
                    }
                    assert(prevs.take(p as int) =~= prevs);
                    let ghost before_out = out@;
                    out.push(id);
                    assert(ids_view(out@) =~= ids_view(before_out).push(qv[i as int]));
                    i += 1;
                }
            },
        }
    }
    Ok(out)
}

} // verus!

verus! {

/// Whether a join through a remote server is refused because that server,
/// or the server the room id names, is forbidden here.
pub fn join_server_forbidden(forbidden: &Vec<String>, sender_server: &str, room_server: Option<&str>) -> (r: bool)
    ensures
        r == (crate::timeline::id_set(forbidden@).contains(sender_server@) || match room_server {
            Some(s) => crate::timeline::id_set(forbidden@).contains(s@),
            None => false,
        }),
{
    if crate::timeline::holds_id(forbidden, sender_server) {
        return true;
    }
    match room_server {
        Some(s) => crate::timeline::holds_id(forbidden, s),
        None => false,
    }
}

/// The local user who vouches for a join under a restricted join rule: the
/// first local member able to invite, when the joining user is in one of
/// the allowed rooms and not yet in this one. Without a restricted rule, or
/// when the user is already invited or joined, nobody is needed.
pub fn join_authorising_user(
    restricted: bool,
    in_allowed_room: bool,
    user_has_left: bool,
    local_members: &Vec<(String, bool)>,
) -> (r: Result<Option<String>, Error>)
    ensures
        !restricted ==> r == Ok::<Option<String>, Error>(None),
        restricted && !in_allowed_room ==> r == Err::<Option<String>, Error>(
            Error::BadRequest(ErrorKind::UnableToAuthorizeJoin),
        ),
        restricted && in_allowed_room && !user_has_left ==> r == Ok::<Option<String>, Error>(None),
        restricted && in_allowed_room && user_has_left ==> match r {
            Ok(Some(u)) => exists|i: int|
                0 <= i < local_members@.len() && (#[trigger] local_members@[i]).0@ == u@ && local_members@[i].1 && forall|j: int|
                    0 <= j < i ==> !local_members@[j].1,
            Ok(None) => false,
            Err(e) => e == Error::BadRequest(ErrorKind::UnableToGrantJoin) && forall|j: int|
                0 <= j < local_members@.len() ==> !(#[trigger] local_members@[j]).1,
        },
{
    if !restricted {
        return Ok(None);
    }
    if !in_allowed_room {
        return Err(Error::BadRequest(ErrorKind::UnableToAuthorizeJoin));
    }
    if !user_has_left {
        return Ok(None);
    }
    let mut i: usize = 0;
    while i < local_members.len()
        invariant
            restricted && in_allowed_room && user_has_left,
            i <= local_members@.len(),
            forall|j: int| 0 <= j < i ==> !(#[trigger] local_members@[j]).1,
        decreases local_members@.len() - i,
    {
        if local_members[i].1 {
            return Ok(Some(local_members[i].0.clone()));
        }
        i += 1;
    }
    Err(Error::BadRequest(ErrorKind::UnableToGrantJoin))
}

/// A join template is made only in a room version the joining server
/// supports.
pub fn check_join_room_version(supported: &Vec<crate::pdu::RoomVersion>, room_version: crate::pdu::RoomVersion) -> (r:
    Result<(), Error>)
    ensures
        r is Ok <==> supported@.contains(room_version),
        r is Err ==> r->Err_0 == Error::BadRequest(ErrorKind::IncompatibleRoomVersion),
{
    let mut i: usize = 0;
    while i < supported.len()
        invariant
            i <= supported@.len(),
            forall|j: int| 0 <= j < i ==> supported@[j] != room_version,
        decreases supported@.len() - i,
    {
        if supported[i] == room_version {
            assert(supported@[i as int] == room_version);
            return Ok(());
        }
        i += 1;
    }
    Err(Error::BadRequest(ErrorKind::IncompatibleRoomVersion))
}

/// Whether an event sent over federation carries its id: only in room
/// versions 1 and 2.
pub fn wire_format_keeps_event_id(version: crate::pdu::RoomVersion) -> (r: bool)
    ensures
        r == (crate::pdu::version_number(version) < 3),
{
    version.number() < 3
}

} // verus!

verus! {

/// Why an invite from another server is refused, in the order the checks
/// run, or `None` when it passes them.
pub open spec fn invite_refusal(
    supported: Seq<crate::pdu::RoomVersion>,
    room_version: crate::pdu::RoomVersion,
    forbidden: Set<Seq<char>>,
    sender_server: Seq<char>,
    room_server: Option<Seq<char>>,
    via_empty: bool,
    room_banned: bool,
    invited_is_admin: bool,
    block_non_admin_invites: bool,
) -> Option<ErrorKind> {
    if !supported.contains(room_version) {
        Some(ErrorKind::IncompatibleRoomVersion)
    } else if room_server is Some && forbidden.contains(room_server->Some_0) {
        Some(ErrorKind::Forbidden)
    } else if forbidden.contains(sender_server) {
        Some(ErrorKind::Forbidden)
    } else if via_empty {
        Some(ErrorKind::InvalidParam)
    } else if room_banned && !invited_is_admin {
        Some(ErrorKind::Forbidden)
    } else if block_non_admin_invites && !invited_is_admin {
        Some(ErrorKind::Forbidden)
    } else {
        None
    }
}

/// Checks an invite that another server sends for one of our users: the
/// room version must be one we support, neither the room's server nor the
/// sender may be banned here, a `via` list must not be empty, and a banned
/// room, or a server that blocks invites, admits only invites to admins.
pub fn check_incoming_invite(
    supported: &Vec<crate::pdu::RoomVersion>,
    room_version: crate::pdu::RoomVersion,
    forbidden: &Vec<String>,
    sender_server: &str,
    room_server: Option<&str>,
    via: Option<&Vec<String>>,
    room_banned: bool,
    invited_is_admin: bool,
    block_non_admin_invites: bool,
) -> (r: Result<(), Error>)
    ensures
        ({
            let refusal = invite_refusal(
                supported@,
                room_version,
                crate::timeline::id_set(forbidden@),
                sender_server@,
                match room_server {
                    Some(s) => Some(s@),
                    None => None,
                },
                via is Some && via->Some_0@.len() == 0,
                room_banned,
                invited_is_admin,
                block_non_admin_invites,
            );
            &&& r is Ok <==> refusal is None
            &&& r is Err ==> r->Err_0 == Error::BadRequest(refusal->Some_0)
        }),
{
    match check_join_room_version(supported, room_version) {
        Ok(()) => {},
        Err(e) => return Err(e),
    }
    match room_server {
        Some(s) => {
            if crate::timeline::holds_id(forbidden, s) {
                return Err(Error::BadRequest(ErrorKind::Forbidden));
            }
        },
        None => {},
    }
    if crate::timeline::holds_id(forbidden, sender_server) {
        return Err(Error::BadRequest(ErrorKind::Forbidden));
    }
    match via {
        Some(v) => {
            if v.len() == 0 {
                return Err(Error::BadRequest(ErrorKind::InvalidParam));
            }
        },
        None => {},
    }
    if room_banned && !invited_is_admin {
        return Err(Error::BadRequest(ErrorKind::Forbidden));
    }
    if block_non_admin_invites && !invited_is_admin {
        return Err(Error::BadRequest(ErrorKind::Forbidden));
    }
    Ok(())
}

} // verus!

verus! {

/// An ephemeral event of a federation transaction, with what decides its
/// handling.
#[derive(Clone, Debug)]
pub enum Edu {
    Presence,
    Receipt,
    /// Whether the user started or stopped typing, and whether they are
    /// joined to the room.
    Typing { typing: bool, user_joined: bool },
    DeviceListUpdate,
    /// Whether a message with the same id from the same sender was seen.
    DirectToDevice { seen_before: bool },
    /// The user whose keys changed, and whether a master key came along.
    SigningKeyUpdate { user_id: String, has_master_key: bool },
    Custom,
}

/// What the server does with an ephemeral event.
#[derive(Clone, Copy, Debug, PartialEq, Eq, Structural)]
pub enum EduAction {
    Ignore,
    SetPresence,
    UpdateReceipts,
    /// Mark the user typing until this time, in milliseconds.
    AddTyping(u64),
    RemoveTyping,
    MarkDeviceKeyUpdate,
    DeliverToDevice,
    AddCrossSigningKeys,
}

/// The server's settings for incoming ephemeral events.
#[derive(Clone, Copy, Debug)]
pub struct EduPolicy {
    pub allow_incoming_presence: bool,
    pub allow_incoming_read_receipts: bool,
    pub allow_incoming_typing: bool,
    pub typing_federation_timeout_s: u64,
}

/// `a + b`, or the largest value when that overflows.
pub open spec fn sat_add(a: u64, b: u64) -> u64 {
    if a + b > u64::MAX { u64::MAX } else { (a + b) as u64 }
}

/// `a * b`, or the largest value when that overflows.
pub open spec fn sat_mul(a: u64, b: u64) -> u64 {
    if a * b > u64::MAX { u64::MAX } else { (a * b) as u64 }
}

/// The action for an ephemeral event from `sender_server`, received at
/// `now_ms`.
pub open spec fn edu_action_for(edu: Edu, policy: EduPolicy, sender_server: Seq<char>, now_ms: u64) -> EduAction {
    match edu {
        Edu::Presence => if policy.allow_incoming_presence { EduAction::SetPresence } else { EduAction::Ignore },
        Edu::Receipt => if policy.allow_incoming_read_receipts {
            EduAction::UpdateReceipts
        } else {
            EduAction::Ignore
        },
        Edu::Typing { typing, user_joined } => if !policy.allow_incoming_typing || !user_joined {
            EduAction::Ignore
        } else if typing {
            EduAction::AddTyping(sat_add(now_ms, sat_mul(policy.typing_federation_timeout_s, 1000)))
        } else {
            EduAction::RemoveTyping
        },
        Edu::DeviceListUpdate => EduAction::MarkDeviceKeyUpdate,
        Edu::DirectToDevice { seen_before } => if seen_before { EduAction::Ignore } else { EduAction::DeliverToDevice },
        Edu::SigningKeyUpdate { user_id, has_master_key } => if crate::globals::user_server(user_id@) != sender_server
            || !has_master_key {
            EduAction::Ignore
        } else {
            EduAction::AddCrossSigningKeys
        },
        Edu::Custom => EduAction::Ignore,
    }
}

/// Decides what to do with an ephemeral event of a transaction: presence,
/// receipts and typing only when the server accepts them, typing only for
/// joined users, to-device messages once per message id, signing keys only
/// from the user's own server.
pub fn edu_action(edu: &Edu, policy: &EduPolicy, sender_server: &str, now_ms: u64) -> (r: EduAction)
    ensures
        r == edu_action_for(*edu, *policy, sender_server@, now_ms),
{
    match edu {
        Edu::Presence => if policy.allow_incoming_presence { EduAction::SetPresence } else { EduAction::Ignore },
        Edu::Receipt => if policy.allow_incoming_read_receipts {
            EduAction::UpdateReceipts
        } else {
            EduAction::Ignore
        },
        Edu::Typing { typing, user_joined } => if !policy.allow_incoming_typing || !*user_joined {
            EduAction::Ignore
        } else if *typing {
            let s = policy.typing_federation_timeout_s;
            let t: u64 = if s > u64::MAX / 1000 { u64::MAX } else { s * 1000 };
            let d: u64 = if now_ms > u64::MAX - t { u64::MAX } else { now_ms + t };
            EduAction::AddTyping(d)
        } else {
            EduAction::RemoveTyping
        },
        Edu::DeviceListUpdate => EduAction::MarkDeviceKeyUpdate,
        Edu::DirectToDevice { seen_before } => if *seen_before {
            EduAction::Ignore
        } else {
            EduAction::DeliverToDevice
        },
        Edu::SigningKeyUpdate { user_id, has_master_key } => {
            let server = crate::text::after_first_str(user_id.as_str(), ":");
            if !str_eq(server.as_str(), sender_server) || !*has_master_key {
                EduAction::Ignore
            } else {
                EduAction::AddCrossSigningKeys
            }
        },
        Edu::Custom => EduAction::Ignore,
    }
}

/// The event a read receipt points at: of the listed events the server
/// knows (those with a count), the one with the largest count, the last of
/// them on a tie.
pub fn receipt_target(events: &Vec<(String, Option<u64>)>) -> (r: Option<usize>)
    ensures
        r is None <==> forall|i: int| 0 <= i < events@.len() ==> (#[trigger] events@[i]).1 is None,
        r is Some ==> r->Some_0 < events@.len() && events@[r->Some_0 as int].1 is Some,
        r is Some ==> forall|i: int|
            0 <= i < events@.len() && (#[trigger] events@[i]).1 is Some ==> events@[i].1->Some_0
                <= events@[r->Some_0 as int].1->Some_0,
        r is Some ==> forall|i: int|
            r->Some_0 < i < events@.len() && (#[trigger] events@[i]).1 is Some ==> events@[i].1->Some_0
                < events@[r->Some_0 as int].1->Some_0,
{
    let mut best: Option<usize> = None;
    let mut i: usize = 0;
    while i < events.len()
        invariant
            i <= events@.len(),
            best is None <==> forall|j: int| 0 <= j < i ==> (#[trigger] events@[j]).1 is None,
            best is Some ==> best->Some_0 < i && events@[best->Some_0 as int].1 is Some,
            best is Some ==> forall|j: int|
                0 <= j < i && (#[trigger] events@[j]).1 is Some ==> events@[j].1->Some_0
                    <= events@[best->Some_0 as int].1->Some_0,
            best is Some ==> forall|j: int|
                best->Some_0 < j < i && (#[trigger] events@[j]).1 is Some ==> events@[j].1->Some_0
                    < events@[best->Some_0 as int].1->Some_0,
        decreases events@.len() - i,
    {
        match events[i].1 {
            None => {},
            Some(c) => {
                let take = match best {
                    None => true,
                    Some(b) => match events[b].1 {
                        Some(bc) => c >= bc,
                        None => true,
                    },
                };
                if take {
                    best = Some(i);
                }
            },
        }
        i += 1;
    }
    best
}

} // verus!
