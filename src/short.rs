use vstd::prelude::*;
use crate::bytes::{be_bytes, be_value, lemma_be_bytes_of_value, lemma_be_value_of_bytes, string_from_bytes, u64_from_bytes, u64_to_bytes};
use crate::error::Error;
use crate::globals::Globals;
use crate::tree::{copy_bytes, first_ff, Tree};
use vstd::utf8::{decode_utf8, encode_utf8, valid_utf8};

verus! {

broadcast use vstd::utf8::encode_utf8_valid_utf8, vstd::utf8::encode_utf8_decode_utf8;

/// A two-way table between full identifiers (as bytes) and short ids (as
/// eight big-endian bytes). `bound` is the largest short id handed out.
pub open spec fn bijective(fwd: Map<Seq<u8>, Seq<u8>>, back: Map<Seq<u8>, Seq<u8>>, bound: u64) -> bool {
    &&& forall|k: Seq<u8>| #[trigger]
        fwd.contains_key(k) ==> fwd[k].len() == 8 && back.contains_key(fwd[k]) && back[fwd[k]] == k
    &&& forall|s: Seq<u8>| #[trigger]
        back.contains_key(s) ==> s.len() == 8 && be_value(s) <= bound && fwd.contains_key(back[s])
            && fwd[back[s]] == s
}

/// A one-way table from full identifiers to distinct short ids, none above
/// `bound`.
pub open spec fn injective(fwd: Map<Seq<u8>, Seq<u8>>, bound: u64) -> bool {
    &&& forall|k: Seq<u8>| #[trigger]
        fwd.contains_key(k) ==> fwd[k].len() == 8 && be_value(fwd[k]) <= bound
    &&& forall|k1: Seq<u8>, k2: Seq<u8>|
        #[trigger] fwd.contains_key(k1) && #[trigger] fwd.contains_key(k2) && k1 != k2 ==> fwd[k1]
            != fwd[k2]
}

/// The short id that a table gives `key`, if any.
pub open spec fn short_in(fwd: Map<Seq<u8>, Seq<u8>>, key: Seq<u8>) -> Option<u64> {
    if fwd.contains_key(key) {
        Some(be_value(fwd[key]))
    } else {
        None
    }
}

/// The full identifier that a reverse table gives `short`, if any.
pub open spec fn full_in(back: Map<Seq<u8>, Seq<u8>>, short: u64) -> Option<Seq<u8>> {
    if back.contains_key(be_bytes(short)) {
        Some(back[be_bytes(short)])
    } else {
        None
    }
}

/// The bytes that name the state entry `(event_type, state_key)`: the type,
/// a 0xFF byte, then the state key.
pub open spec fn state_key_bytes(event_type: Seq<char>, state_key: Seq<char>) -> Seq<u8> {
    encode_utf8(event_type).push(0xFFu8) + encode_utf8(state_key)
}

/// Looks `key` up in a table of short ids.
fn lookup_short(t: &Tree, key: &[u8]) -> (r: Result<Option<u64>, Error>)
    requires
        t.wf(),
    ensures
        (forall|k: Seq<u8>| #[trigger] t@.contains_key(k) ==> t@[k].len() == 8) ==> r is Ok,
        r is Ok ==> r->Ok_0 == short_in(t@, key@),
{
    match t.get(key) {
        None => Ok(None),
        Some(b) => match u64_from_bytes(b.as_slice()) {
            Ok(v) => Ok(Some(v)),
            Err(()) => Err(Error::BadDatabase),
        },
    }
}

/// Gives `key` a short id in a two-way table, allocating one from the global
/// counter if it has none.
fn intern_two_way(fwd: &mut Tree, back: &mut Tree, g: &mut Globals, key: &[u8]) -> (r: Result<u64, Error>)
    requires
        old(fwd).wf(),
        old(back).wf(),
        old(g).wf(),
        bijective(old(fwd)@, old(back)@, old(g).count()),
    ensures
        final(fwd).wf(),
        final(back).wf(),
        final(g).wf(),
        bijective(final(fwd)@, final(back)@, final(g).count()),
        r is Err <==> !old(fwd)@.contains_key(key@) && old(g).count() == u64::MAX,
        r is Ok ==> short_in(final(fwd)@, key@) == Some(r->Ok_0),
        old(fwd)@.contains_key(key@) ==> r == Ok::<u64, Error>(be_value(old(fwd)@[key@]))
            && final(fwd)@ == old(fwd)@ && final(back)@ == old(back)@ && *final(g) == *old(g),
        !old(fwd)@.contains_key(key@) && r is Ok ==> final(fwd)@ == old(fwd)@.insert(
            key@,
            be_bytes(r->Ok_0),
        ) && final(back)@ == old(back)@.insert(be_bytes(r->Ok_0), key@) && r->Ok_0 == old(g).count() + 1,
        r is Err ==> final(fwd)@ == old(fwd)@ && final(back)@ == old(back)@ && *final(g) == *old(g),
        final(g).count() >= old(g).count(),
        final(g).count() <= old(g).count() + 1,
        forall|k: Seq<u8>| #[trigger]
            old(fwd)@.contains_key(k) ==> final(fwd)@.contains_key(k) && final(fwd)@[k] == old(fwd)@[k],
{
    match lookup_short(fwd, key) {
        Ok(Some(v)) => Ok(v),
        Err(e) => Err(e),
        Ok(None) => {
            let short = match g.next_count() {
                Ok(s) => s,
                Err(e) => return Err(e),
            };
            let sb = u64_to_bytes(short);
            proof {
                lemma_be_value_of_bytes(short);
                if back@.contains_key(sb@) {
                    assert(be_value(sb@) <= old(g).count());
                }
            }
            fwd.insert(key, sb.as_slice());
            back.insert(sb.as_slice(), key);
            proof {
                let (f0, b0) = (old(fwd)@, old(back)@);
                let (f1, b1) = (fwd@, back@);
                assert forall|k: Seq<u8>| #[trigger] f1.contains_key(k) implies f1[k].len() == 8
                    && b1.contains_key(f1[k]) && b1[f1[k]] == k by {
                    if k != key@ {
                        assert(f0.contains_key(k));
                        assert(b0.contains_key(f0[k]));
                    }
                }
                assert forall|s: Seq<u8>| #[trigger] b1.contains_key(s) implies s.len() == 8
                    && be_value(s) <= g.count() && f1.contains_key(b1[s]) && f1[b1[s]] == s by {
                    if s != sb@ {
                        assert(b0.contains_key(s));
                        assert(f0.contains_key(b0[s]));
                        assert(b0[s] != key@);
                    }
                }
            }
            Ok(short)
        },
    }
}

/// Gives `key` a short id in a one-way table, allocating one from the global
/// counter if it has none. Also tells whether it had one.
fn intern_one_way(fwd: &mut Tree, g: &mut Globals, key: &[u8]) -> (r: Result<(u64, bool), Error>)
    requires
        old(fwd).wf(),
        old(g).wf(),
        injective(old(fwd)@, old(g).count()),
    ensures
        final(fwd).wf(),
        final(g).wf(),
        injective(final(fwd)@, final(g).count()),
        r is Err <==> !old(fwd)@.contains_key(key@) && old(g).count() == u64::MAX,
        r is Ok ==> short_in(final(fwd)@, key@) == Some(r->Ok_0.0),
        r is Ok ==> r->Ok_0.1 == old(fwd)@.contains_key(key@),
        old(fwd)@.contains_key(key@) ==> r == Ok::<(u64, bool), Error>(
            (be_value(old(fwd)@[key@]), true),
        ) && final(fwd)@ == old(fwd)@ && *final(g) == *old(g),
        !old(fwd)@.contains_key(key@) && r is Ok ==> final(fwd)@ == old(fwd)@.insert(
            key@,
            be_bytes(r->Ok_0.0),
        ) && r->Ok_0.0 == old(g).count() + 1,
        r is Err ==> final(fwd)@ == old(fwd)@ && *final(g) == *old(g),
        final(g).count() >= old(g).count(),
{
    match lookup_short(fwd, key) {
        Ok(Some(v)) => Ok((v, true)),
        Err(e) => Err(e),
        Ok(None) => {
            let short = match g.next_count() {
                Ok(s) => s,
                Err(e) => return Err(e),
            };
            let sb = u64_to_bytes(short);
            proof {
                lemma_be_value_of_bytes(short);
            }
            fwd.insert(key, sb.as_slice());
            proof {
                let f0 = old(fwd)@;
                let f1 = fwd@;
                assert forall|k1: Seq<u8>, k2: Seq<u8>|
                    #[trigger] f1.contains_key(k1) && #[trigger] f1.contains_key(k2) && k1
                        != k2 implies f1[k1] != f1[k2] by {
                    if k1 == key@ {
                        assert(be_value(f0[k2]) <= old(g).count());
                    } else if k2 == key@ {
                        assert(be_value(f0[k1]) <= old(g).count());
                    } else {
                        assert(f0.contains_key(k1) && f0.contains_key(k2));
                    }
                }
            }
            Ok((short, false))
        },
    }
}

/// The full identifier that a reverse table holds for `short`.
fn reverse_lookup(back: &Tree, short: u64) -> (r: Option<Vec<u8>>)
    requires
        back.wf(),
    ensures
        r is Some <==> full_in(back@, short) is Some,
        r is Some ==> r->Some_0@ == full_in(back@, short)->Some_0,
{
    let sb = u64_to_bytes(short);
    back.get(sb.as_slice())
}

/// Interns full identifiers as dense 64-bit short ids: event ids and state
/// keys both ways, state hashes and room ids one way.
pub struct ShortIds {
    pub eventid_shorteventid: Tree,
    pub shorteventid_eventid: Tree,
    pub statekey_shortstatekey: Tree,
    pub shortstatekey_statekey: Tree,
    pub statehash_shortstatehash: Tree,
    pub roomid_shortroomid: Tree,
}

impl ShortIds {
    /// The tables are well formed and every short id in them was handed out
    /// by `g`'s counter.
    pub open spec fn wf(&self, g: &Globals) -> bool {
        &&& g.wf()
        &&& self.eventid_shorteventid.wf()
        &&& self.shorteventid_eventid.wf()
        &&& self.statekey_shortstatekey.wf()
        &&& self.shortstatekey_statekey.wf()
        &&& self.statehash_shortstatehash.wf()
        &&& self.roomid_shortroomid.wf()
        &&& bijective(self.eventid_shorteventid@, self.shorteventid_eventid@, g.count())
        &&& bijective(self.statekey_shortstatekey@, self.shortstatekey_statekey@, g.count())
        &&& injective(self.statehash_shortstatehash@, g.count())
        &&& injective(self.roomid_shortroomid@, g.count())
        &&& forall|k: Seq<u8>| #[trigger]
            self.eventid_shorteventid@.contains_key(k) ==> valid_utf8(k)
        &&& forall|k: Seq<u8>| #[trigger]
            self.statekey_shortstatekey@.contains_key(k) ==> exists|t: Seq<char>, sk: Seq<char>|
                k == #[trigger] state_key_bytes(t, sk)
    }

    /// The contents of all tables.
    pub open spec fn views(&self) -> Seq<Map<Seq<u8>, Seq<u8>>> {
        seq![
            self.eventid_shorteventid@,
            self.shorteventid_eventid@,
            self.statekey_shortstatekey@,
            self.shortstatekey_statekey@,
            self.statehash_shortstatehash@,
            self.roomid_shortroomid@,
        ]
    }

    /// The short id of an event id.
    pub open spec fn event_short(&self, event_id: Seq<char>) -> Option<u64> {
        short_in(self.eventid_shorteventid@, encode_utf8(event_id))
    }

    /// The event id of a short id.
    pub open spec fn event_of_short(&self, short: u64) -> Option<Seq<char>> {
        match full_in(self.shorteventid_eventid@, short) {
            Some(b) => Some(decode_utf8(b)),
            None => None,
        }
    }

    /// The short id of a state entry.
    pub open spec fn statekey_short(&self, event_type: Seq<char>, state_key: Seq<char>) -> Option<u64> {
        short_in(self.statekey_shortstatekey@, state_key_bytes(event_type, state_key))
    }

    /// The state entry that a short id stands for.
    pub open spec fn statekey_of_short(&self, short: u64) -> Option<(Seq<char>, Seq<char>)> {
        match full_in(self.shortstatekey_statekey@, short) {
            Some(b) => Some(
                choose|p: (Seq<char>, Seq<char>)| b == #[trigger] state_key_bytes(p.0, p.1),
            ),
            None => None,
        }
    }

    /// The short id of a state hash.
    pub open spec fn statehash_short(&self, state_hash: Seq<u8>) -> Option<u64> {
        short_in(self.statehash_shortstatehash@, state_hash)
    }

    /// The short id of a room id.
    pub open spec fn room_short(&self, room_id: Seq<char>) -> Option<u64> {
        short_in(self.roomid_shortroomid@, encode_utf8(room_id))
    }

    pub fn new() -> (r: ShortIds)
        ensures
            forall|g: &Globals| g.wf() ==> r.wf(g),
    {
        ShortIds {
            eventid_shorteventid: Tree::new(),
            shorteventid_eventid: Tree::new(),
            statekey_shortstatekey: Tree::new(),
            shortstatekey_statekey: Tree::new(),
            statehash_shortstatehash: Tree::new(),
            roomid_shortroomid: Tree::new(),
        }
    }

    /// The short id of `event_id`, allocated on first sight.
    pub fn get_or_create_shorteventid(&mut self, g: &mut Globals, event_id: &str) -> (r: Result<u64, Error>)
        requires
            old(self).wf(old(g)),
        ensures
            final(self).wf(final(g)),
            r is Err <==> old(self).event_short(event_id@) is None && old(g).count() == u64::MAX,
            r is Ok ==> final(self).event_short(event_id@) == Some(r->Ok_0),
            old(self).event_short(event_id@) is Some ==> r == Ok::<u64, Error>(
                old(self).event_short(event_id@)->Some_0,
            ) && final(self).views() == old(self).views() && *final(g) == *old(g),
            old(self).event_short(event_id@) is None && r is Ok ==> r->Ok_0 == old(g).count() + 1,
            r is Err ==> final(self).views() == old(self).views(),
            final(g).count() <= old(g).count() + 1,
            forall|k: Seq<u8>| #[trigger]
                old(self).eventid_shorteventid@.contains_key(k) ==> final(self).eventid_shorteventid@.contains_key(k)
                    && final(self).eventid_shorteventid@[k] == old(self).eventid_shorteventid@[k],
    {
        let key = copy_bytes(event_id.as_bytes());
        intern_two_way(&mut self.eventid_shorteventid, &mut self.shorteventid_eventid, g, key.as_slice())
    }

    /// The short ids of several event ids, in their order, each allocated on
    /// first sight. Stops at the first failure.
    pub fn multi_get_or_create_shorteventid(&mut self, g: &mut Globals, event_ids: &Vec<String>) -> (r:
        Result<Vec<u64>, Error>)
        requires
            old(self).wf(old(g)),
        ensures
            final(self).wf(final(g)),
            r is Ok ==> r->Ok_0@.len() == event_ids@.len(),
            r is Ok ==> forall|i: int|
                0 <= i < event_ids@.len() ==> final(self).event_short(#[trigger] event_ids@[i]@)
                    == Some(r->Ok_0@[i]),
            r is Ok ==> forall|i: int|
                0 <= i < event_ids@.len() && old(self).event_short(#[trigger] event_ids@[i]@) is Some
                    ==> r->Ok_0@[i] == old(self).event_short(event_ids@[i]@)->Some_0,
            r is Err ==> old(g).count() > u64::MAX - event_ids@.len(),
    {
        let mut ret: Vec<u64> = Vec::with_capacity(event_ids.len());
        let mut i: usize = 0;
        while i < event_ids.len()
            invariant
                self.wf(g),
                i <= event_ids@.len(),
                ret@.len() == i,
                g.count() <= old(g).count() + i,
                forall|j: int|
                    0 <= j < i ==> self.event_short(#[trigger] event_ids@[j]@) == Some(ret@[j]),
                forall|j: int|
                    0 <= j < i && old(self).event_short(#[trigger] event_ids@[j]@) is Some ==> ret@[j]
                        == old(self).event_short(event_ids@[j]@)->Some_0,
                forall|k: Seq<u8>| #[trigger]
                    old(self).eventid_shorteventid@.contains_key(k) ==> self.eventid_shorteventid@.contains_key(k)
                        && self.eventid_shorteventid@[k] == old(self).eventid_shorteventid@[k],
            decreases event_ids@.len() - i,
        {
            let ghost before = self.eventid_shorteventid@;
            let ghost cb = g.count();
            let short = match self.get_or_create_shorteventid(g, event_ids[i].as_str()) {
                Ok(s) => s,
                Err(e) => {
                    assert(cb == u64::MAX);
                    return Err(e);
                },
            };
            proof {
                assert forall|j: int| 0 <= j < i implies self.event_short(#[trigger] event_ids@[j]@)
                    == Some(ret@[j]) by {
                    assert(before.contains_key(encode_utf8(event_ids@[j]@)));
                }
            }
            ret.push(short);
            i += 1;
        }
        Ok(ret)
    }

    /// The short id of an event id, if it has one.
    pub fn get_shorteventid(&self, g: &Globals, event_id: &str) -> (r: Option<u64>)
        requires
            self.wf(g),
        ensures
            r == self.event_short(event_id@),
    {
        let key = copy_bytes(event_id.as_bytes());
        match lookup_short(&self.eventid_shorteventid, key.as_slice()) {
            Ok(v) => v,
            Err(_) => None,
        }
    }

    /// The event id that `shorteventid` stands for; a short id that was never
    /// handed out is a database error.
    pub fn get_eventid_from_short(&self, g: &Globals, shorteventid: u64) -> (r: Result<String, Error>)
        requires
            self.wf(g),
        ensures
            r is Ok <==> self.event_of_short(shorteventid) is Some,
            r is Ok ==> r->Ok_0@ == self.event_of_short(shorteventid)->Some_0,
            r is Err ==> r->Err_0 == Error::BadDatabase,
    {
        match reverse_lookup(&self.shorteventid_eventid, shorteventid) {
            None => Err(Error::BadDatabase),
            Some(b) => {
                proof {
                    let back = self.shorteventid_eventid@;
                    assert(back.contains_key(be_bytes(shorteventid)));
                    assert(self.eventid_shorteventid@.contains_key(back[be_bytes(shorteventid)]));
                }
                match string_from_bytes(b.as_slice()) {
                    Ok(s) => Ok(s),
                    Err(()) => Err(Error::BadDatabase),
                }
            },
        }
    }

    /// The short id of the state entry `(event_type, state_key)`, if it has
    /// one.
    pub fn get_shortstatekey(&self, g: &Globals, event_type: &str, state_key: &str) -> (r: Option<u64>)
        requires
            self.wf(g),
        ensures
            r == self.statekey_short(event_type@, state_key@),
    {
        let key = statekey_vec(event_type, state_key);
        match lookup_short(&self.statekey_shortstatekey, key.as_slice()) {
            Ok(v) => v,
            Err(_) => None,
        }
    }

    /// The short id of the state entry `(event_type, state_key)`, allocated on
    /// first sight.
    pub fn get_or_create_shortstatekey(&mut self, g: &mut Globals, event_type: &str, state_key: &str) -> (r:
        Result<u64, Error>)
        requires
            old(self).wf(old(g)),
        ensures
            final(self).wf(final(g)),
            r is Err <==> old(self).statekey_short(event_type@, state_key@) is None && old(g).count()
                == u64::MAX,
            r is Ok ==> final(self).statekey_short(event_type@, state_key@) == Some(r->Ok_0),
            old(self).statekey_short(event_type@, state_key@) is Some ==> r == Ok::<u64, Error>(
                old(self).statekey_short(event_type@, state_key@)->Some_0,
            ) && final(self).views() == old(self).views() && *final(g) == *old(g),
            r is Err ==> final(self).views() == old(self).views(),
    {
        let key = statekey_vec(event_type, state_key);
        let r = intern_two_way(&mut self.statekey_shortstatekey, &mut self.shortstatekey_statekey, g, key.as_slice());
        proof {
            assert forall|k: Seq<u8>| #[trigger]
                self.statekey_shortstatekey@.contains_key(k) implies exists|t: Seq<char>, sk: Seq<char>|
                    k == #[trigger] state_key_bytes(t, sk) by {
                if k == key@ {
                    assert(k == state_key_bytes(event_type@, state_key@));
                } else {
                    assert(old(self).statekey_shortstatekey@.contains_key(k));
                }
            }
        }
        r
    }

    /// The state entry `(event_type, state_key)` that `shortstatekey` stands
    /// for; a short id that was never handed out is a database error.
    pub fn get_statekey_from_short(&self, g: &Globals, shortstatekey: u64) -> (r: Result<(String, String), Error>)
        requires
            self.wf(g),
        ensures
            r is Ok <==> full_in(self.shortstatekey_statekey@, shortstatekey) is Some,
            r is Ok ==> state_key_bytes(r->Ok_0.0@, r->Ok_0.1@) == full_in(
                self.shortstatekey_statekey@,
                shortstatekey,
            )->Some_0,
            r is Ok ==> (r->Ok_0.0@, r->Ok_0.1@) == self.statekey_of_short(shortstatekey)->Some_0,
            r is Err ==> r->Err_0 == Error::BadDatabase,
    {
        let b = match reverse_lookup(&self.shortstatekey_statekey, shortstatekey) {
            None => return Err(Error::BadDatabase),
            Some(b) => b,
        };
        let ghost t;
        let ghost sk;
        proof {
            let back = self.shortstatekey_statekey@;
            assert(back.contains_key(be_bytes(shortstatekey)));
            assert(self.statekey_shortstatekey@.contains_key(back[be_bytes(shortstatekey)]));
            let (t0, sk0) = choose|t0: Seq<char>, sk0: Seq<char>| b@ == #[trigger] state_key_bytes(t0, sk0);
            t = t0;
            sk = sk0;
            lemma_no_ff(t);
        }
        let i = match first_ff(b.as_slice()) {
            Some(i) => i,
            None => {
                assert(b@[encode_utf8(t).len() as int] == 0xFFu8);
                return Err(Error::BadDatabase);
            },
        };
        assert(i < b.len());
        proof {
            let n = encode_utf8(t).len() as int;
            assert(b@[n] == 0xFFu8);
            if (i as int) < n {
                assert(b@[i as int] == encode_utf8(t)[i as int]);
            }
            assert(i as int == n);
            assert(b@.subrange(0, n) =~= encode_utf8(t));
            assert(b@.subrange(n + 1, b@.len() as int) =~= encode_utf8(sk));
        }
        let event_type = match string_from_bytes(&b.as_slice()[0..i]) {
            Ok(s) => s,
            Err(()) => return Err(Error::BadDatabase),
        };
        let state_key = match string_from_bytes(&b.as_slice()[i + 1..b.len()]) {
            Ok(s) => s,
            Err(()) => return Err(Error::BadDatabase),
        };
        proof {
            let p = choose|p: (Seq<char>, Seq<char>)| b@ == #[trigger] state_key_bytes(p.0, p.1);
            assert(b@ == state_key_bytes(t, sk));
            lemma_state_key_bytes_injective(p.0, p.1, t, sk);
        }
        Ok((event_type, state_key))
    }

    /// The short id of a state hash, allocated on first sight, and whether it
    /// existed before.
    pub fn get_or_create_shortstatehash(&mut self, g: &mut Globals, state_hash: &[u8]) -> (r: Result<
        (u64, bool),
        Error,
    >)
        requires
            old(self).wf(old(g)),
        ensures
            final(self).wf(final(g)),
            r is Err <==> old(self).statehash_short(state_hash@) is None && old(g).count() == u64::MAX,
            r is Ok ==> final(self).statehash_short(state_hash@) == Some(r->Ok_0.0),
            r is Ok ==> r->Ok_0.1 == old(self).statehash_short(state_hash@) is Some,
            old(self).statehash_short(state_hash@) is Some ==> r == Ok::<(u64, bool), Error>(
                (old(self).statehash_short(state_hash@)->Some_0, true),
            ) && final(self).views() == old(self).views() && *final(g) == *old(g),
            r is Err ==> final(self).views() == old(self).views(),
    {
        intern_one_way(&mut self.statehash_shortstatehash, g, state_hash)
    }

    /// The short id of a room id, if it has one.
    pub fn get_shortroomid(&self, g: &Globals, room_id: &str) -> (r: Option<u64>)
        requires
            self.wf(g),
        ensures
            r == self.room_short(room_id@),
    {
        let key = copy_bytes(room_id.as_bytes());
        match lookup_short(&self.roomid_shortroomid, key.as_slice()) {
            Ok(v) => v,
            Err(_) => None,
        }
    }

    /// The short id of a room id, allocated on first sight.
    pub fn get_or_create_shortroomid(&mut self, g: &mut Globals, room_id: &str) -> (r: Result<u64, Error>)
        requires
            old(self).wf(old(g)),
        ensures
            final(self).wf(final(g)),
            r is Err <==> old(self).room_short(room_id@) is None && old(g).count() == u64::MAX,
            r is Ok ==> final(self).room_short(room_id@) == Some(r->Ok_0),
            old(self).room_short(room_id@) is Some ==> r == Ok::<u64, Error>(
                old(self).room_short(room_id@)->Some_0,
            ) && final(self).views() == old(self).views() && *final(g) == *old(g),
            r is Err ==> final(self).views() == old(self).views(),
    {
        let key = copy_bytes(room_id.as_bytes());
        match intern_one_way(&mut self.roomid_shortroomid, g, key.as_slice()) {
            Ok((s, _)) => Ok(s),
            Err(e) => Err(e),
        }
    }
}

/// The bytes naming a state entry.
fn statekey_vec(event_type: &str, state_key: &str) -> (r: Vec<u8>)
    ensures
        r@ == state_key_bytes(event_type@, state_key@),
{
    let mut r = copy_bytes(event_type.as_bytes());
    r.push(0xFFu8);
    let tail = copy_bytes(state_key.as_bytes());
    let mut i: usize = 0;
    let ghost head = r@;
    while i < tail.len()
        invariant
            i <= tail@.len(),
            r@ == head + tail@.take(i as int),
        decreases tail@.len() - i,
    {
        r.push(tail[i]);
        i += 1;
        assert(r@ =~= head + tail@.take(i as int));
    }
    assert(tail@.take(tail@.len() as int) =~= tail@);
    r
}

/// Distinct state entries have distinct bytes.
pub proof fn lemma_state_key_bytes_injective(t1: Seq<char>, k1: Seq<char>, t2: Seq<char>, k2: Seq<char>)
    ensures
        state_key_bytes(t1, k1) == state_key_bytes(t2, k2) ==> t1 == t2 && k1 == k2,
{
    if state_key_bytes(t1, k1) == state_key_bytes(t2, k2) {
        let b = state_key_bytes(t1, k1);
        let (n1, n2) = (encode_utf8(t1).len() as int, encode_utf8(t2).len() as int);
        lemma_no_ff(t1);
        lemma_no_ff(t2);
        assert(b[n1] == 0xFFu8);
        assert(b[n2] == 0xFFu8);
        if n1 < n2 {
            assert(b[n1] == encode_utf8(t2)[n1]);
        }
        if n2 < n1 {
            assert(b[n2] == encode_utf8(t1)[n2]);
        }
        assert(n1 == n2);
        assert(encode_utf8(t1) =~= b.subrange(0, n1));
        assert(encode_utf8(t2) =~= b.subrange(0, n1));
        assert(encode_utf8(k1) =~= b.subrange(n1 + 1, b.len() as int));
        assert(encode_utf8(k2) =~= b.subrange(n1 + 1, b.len() as int));
        vstd::utf8::encode_utf8_decode_utf8(t1);
        vstd::utf8::encode_utf8_decode_utf8(t2);
        vstd::utf8::encode_utf8_decode_utf8(k1);
        vstd::utf8::encode_utf8_decode_utf8(k2);
    }
}

/// Looking up the short id of an event id, then the event id of that short
/// id, yields the event id again; and the other way round.
pub proof fn lemma_event_id_round_trip(ids: &ShortIds, g: &Globals, event_id: Seq<char>, short: u64)
    requires
        ids.wf(g),
    ensures
        ids.event_short(event_id) is Some ==> ids.event_of_short(ids.event_short(event_id)->Some_0)
            == Some(event_id),
        ids.event_of_short(short) is Some ==> ids.event_short(ids.event_of_short(short)->Some_0)
            == Some(short),
{
    let (fwd, back) = (ids.eventid_shorteventid@, ids.shorteventid_eventid@);
    let k = encode_utf8(event_id);
    if fwd.contains_key(k) {
        lemma_be_bytes_of_value(fwd[k]);
        assert(back.contains_key(fwd[k]));
    }
    let sb = be_bytes(short);
    if back.contains_key(sb) {
        let full = back[sb];
        assert(fwd.contains_key(full));
        assert(valid_utf8(full));
        vstd::utf8::decode_utf8_encode_utf8(full);
        lemma_be_value_of_bytes(short);
    }
}

/// Looking up the short id of a state entry, then the state entry of that
/// short id, yields the state entry again; and the other way round.
pub proof fn lemma_state_key_round_trip(
    ids: &ShortIds,
    g: &Globals,
    event_type: Seq<char>,
    state_key: Seq<char>,
    short: u64,
)
    requires
        ids.wf(g),
    ensures
        ids.statekey_short(event_type, state_key) is Some ==> ids.statekey_of_short(
            ids.statekey_short(event_type, state_key)->Some_0,
        ) == Some((event_type, state_key)),
        ids.statekey_of_short(short) is Some ==> ids.statekey_short(
            ids.statekey_of_short(short)->Some_0.0,
            ids.statekey_of_short(short)->Some_0.1,
        ) == Some(short),
{
    let (fwd, back) = (ids.statekey_shortstatekey@, ids.shortstatekey_statekey@);
    let k = state_key_bytes(event_type, state_key);
    if fwd.contains_key(k) {
        lemma_be_bytes_of_value(fwd[k]);
        assert(back.contains_key(fwd[k]));
        let s = be_value(fwd[k]);
        let w = (event_type, state_key);
        assert(back[be_bytes(s)] == state_key_bytes(w.0, w.1));
        let p = choose|p: (Seq<char>, Seq<char>)| back[be_bytes(s)] == #[trigger] state_key_bytes(p.0, p.1);
        assert(back[be_bytes(s)] == state_key_bytes(event_type, state_key));
        lemma_state_key_bytes_injective(p.0, p.1, event_type, state_key);
    }
    let sb = be_bytes(short);
    if back.contains_key(sb) {
        let full = back[sb];
        assert(fwd.contains_key(full));
        let (t, sk) = choose|t: Seq<char>, sk: Seq<char>| full == #[trigger] state_key_bytes(t, sk);
        let p = choose|p: (Seq<char>, Seq<char>)| full == #[trigger] state_key_bytes(p.0, p.1);
        assert(full == state_key_bytes((t, sk).0, (t, sk).1));
        lemma_be_value_of_bytes(short);
    }
}

/// Two distinct room ids never share a short id.
pub proof fn lemma_room_short_distinct(ids: &ShortIds, g: &Globals, a: Seq<char>, b: Seq<char>)
    requires
        ids.wf(g),
        a != b,
        ids.room_short(a) is Some,
        ids.room_short(b) is Some,
    ensures
        ids.room_short(a) != ids.room_short(b),
{
    let fwd = ids.roomid_shortroomid@;
    vstd::utf8::encode_utf8_decode_utf8(a);
    vstd::utf8::encode_utf8_decode_utf8(b);
    let (ka, kb) = (encode_utf8(a), encode_utf8(b));
    assert(fwd.contains_key(ka) && fwd.contains_key(kb));
    assert(fwd[ka] != fwd[kb]);
    lemma_be_bytes_of_value(fwd[ka]);
    lemma_be_bytes_of_value(fwd[kb]);
}

/// No byte of a UTF-8 encoding is 0xFF.
pub proof fn lemma_no_ff(chars: Seq<char>)
    ensures
        forall|j: int| 0 <= j < encode_utf8(chars).len() ==> encode_utf8(chars)[j] != 0xFFu8,
    decreases chars.len(),
{
    if chars.len() > 0 {
        let c = chars[0] as u32;
        assert((c & 0x7F) as u8 != 0xFFu8) by (bit_vector);
        assert(0xC0u8 | ((c >> 6u32) & 0x1F) as u8 != 0xFFu8) by (bit_vector);
        assert(0xE0u8 | ((c >> 12u32) & 0x0F) as u8 != 0xFFu8) by (bit_vector);
        assert(0xF0u8 | ((c >> 18u32) & 0x7) as u8 != 0xFFu8) by (bit_vector);
        assert(0x80u8 | (c & 0x3F) as u8 != 0xFFu8) by (bit_vector);
        assert(0x80u8 | ((c >> 6u32) & 0x3F) as u8 != 0xFFu8) by (bit_vector);
        assert(0x80u8 | ((c >> 12u32) & 0x3F) as u8 != 0xFFu8) by (bit_vector);
        lemma_no_ff(chars.drop_first());
        let e = vstd::utf8::encode_scalar(c);
        assert forall|j: int| 0 <= j < e.len() implies e[j] != 0xFFu8 by {}
        assert forall|j: int| 0 <= j < encode_utf8(chars).len() implies encode_utf8(chars)[j] != 0xFFu8 by {
            if j >= e.len() {
                assert(encode_utf8(chars)[j] == encode_utf8(chars.drop_first())[j - e.len()]);
            }
        }
    }
}

} // verus!

verus! {

/// The state just before an event: its short state hash, looked up through
/// the event's short id. An event without a short id, or without a recorded
/// state, has none; unreadable bytes are a database error.
pub fn pdu_shortstatehash(
    ids: &ShortIds,
    g: &Globals,
    shorteventid_shortstatehash: &Tree,
    event_id: &str,
) -> (r: Result<Option<u64>, Error>)
    requires
        ids.wf(g),
        shorteventid_shortstatehash.wf(),
    ensures
        ids.event_short(event_id@) is None ==> r == Ok::<Option<u64>, Error>(None),
        ids.event_short(event_id@) is Some ==> {
            let key = be_bytes(ids.event_short(event_id@)->Some_0);
            &&& !shorteventid_shortstatehash@.contains_key(key) ==> r == Ok::<Option<u64>, Error>(None)
            &&& shorteventid_shortstatehash@.contains_key(key) ==> (r is Ok <==> shorteventid_shortstatehash@[key].len()
                == 8)
            &&& shorteventid_shortstatehash@.contains_key(key) && r is Ok ==> r == Ok::<Option<u64>, Error>(
                Some(be_value(shorteventid_shortstatehash@[key])),
            )
        },
        r is Err ==> r->Err_0 == Error::BadDatabase,
{
    let key = copy_bytes(event_id.as_bytes());
    let short = match ids.eventid_shorteventid.get(key.as_slice()) {
        None => return Ok(None),
        Some(s) => s,
    };
    proof {
        lemma_be_bytes_of_value(short@);
    }
    match shorteventid_shortstatehash.get(short.as_slice()) {
        None => Ok(None),
        Some(b) => match u64_from_bytes(b.as_slice()) {
            Ok(v) => Ok(Some(v)),
            Err(()) => Err(Error::BadDatabase),
        },
    }
}

} // verus!
