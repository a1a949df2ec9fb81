use vstd::prelude::*;
use crate::bytes::{be_bytes, be_value, lemma_be_bytes_of_value, lemma_be_value_of_bytes, u64_from_bytes, u64_to_bytes};
use crate::error::Error;
use crate::tree::append_bytes;

verus! {

/// The 16-byte record of one state entry: the short state key, then the
/// short event id, both big-endian.
pub open spec fn compressed(shortstatekey: u64, shorteventid: u64) -> Seq<u8> {
    be_bytes(shortstatekey) + be_bytes(shorteventid)
}

/// The record of a state entry.
pub fn compress_state_event(shortstatekey: u64, shorteventid: u64) -> (r: Vec<u8>)
    ensures
        r@ == compressed(shortstatekey, shorteventid),
{
    let mut v = u64_to_bytes(shortstatekey);
    let e = u64_to_bytes(shorteventid);
    append_bytes(&mut v, e.as_slice());
    v
}

/// The state entry a 16-byte record holds; any other length is a database
/// error.
pub fn parse_compressed_state_event(compressed_event: &[u8]) -> (r: Result<(u64, u64), Error>)
    ensures
        r is Ok <==> compressed_event@.len() == 16,
        r is Ok ==> compressed(r->Ok_0.0, r->Ok_0.1) == compressed_event@,
        r is Err ==> r->Err_0 == Error::BadDatabase,
{
    if compressed_event.len() != 16 {
        return Err(Error::BadDatabase);
    }
    let a = match u64_from_bytes(&compressed_event[0..8]) {
        Ok(a) => a,
        Err(()) => return Err(Error::BadDatabase),
    };
    let b = match u64_from_bytes(&compressed_event[8..16]) {
        Ok(b) => b,
        Err(()) => return Err(Error::BadDatabase),
    };
    assert(compressed(a, b) =~= compressed_event@);
    Ok((a, b))
}

/// Reading a record back gives the entry it was made from.
pub proof fn lemma_compressed_round_trip(k: u64, e: u64, k2: u64, e2: u64)
    ensures
        compressed(k, e) == compressed(k2, e2) <==> k == k2 && e == e2,
{
    if compressed(k, e) == compressed(k2, e2) {
        assert(be_bytes(k) =~= compressed(k, e).subrange(0, 8));
        assert(be_bytes(k2) =~= compressed(k2, e2).subrange(0, 8));
        assert(be_bytes(e) =~= compressed(k, e).subrange(8, 16));
        assert(be_bytes(e2) =~= compressed(k2, e2).subrange(8, 16));
        lemma_be_value_of_bytes(k);
        lemma_be_value_of_bytes(k2);
        lemma_be_value_of_bytes(e);
        lemma_be_value_of_bytes(e2);
    }
}

/// The state of a room as the map from short state keys to short event ids
/// that its records stand for.
pub open spec fn state_map(s: Seq<(u64, u64)>) -> Map<u64, u64> {
    Map::new(
        |k: u64| exists|i: int| 0 <= i < s.len() && s[i].0 == k,
        |k: u64| s[choose|i: int| 0 <= i < s.len() && s[i].0 == k].1,
    )
}

/// No short state key occurs twice.
pub open spec fn keys_unique(s: Seq<(u64, u64)>) -> bool {
    forall|i: int, j: int| 0 <= i < j < s.len() ==> #[trigger] s[i].0 != #[trigger] s[j].0
}

proof fn lemma_state_map_at(s: Seq<(u64, u64)>, i: int)
    requires
        keys_unique(s),
        0 <= i < s.len(),
    ensures
        state_map(s).contains_key(s[i].0),
        state_map(s)[s[i].0] == s[i].1,
{
    let k = s[i].0;
    assert(exists|j: int| 0 <= j < s.len() && s[j].0 == k);
    let j = choose|j: int| 0 <= j < s.len() && s[j].0 == k;
    if j < i {
        assert(s[j].0 != s[i].0);
    } else if j > i {
        assert(s[i].0 != s[j].0);
    }
}

/// The state after an event: the state before it with the event's entry set
/// to the event. A message event does not change the state.
pub fn state_after(before: &Vec<(u64, u64)>, entry: Option<u64>, shorteventid: u64) -> (r: Vec<(u64, u64)>)
    requires
        keys_unique(before@),
    ensures
        keys_unique(r@),
        entry is Some ==> state_map(r@) == state_map(before@).insert(entry->Some_0, shorteventid),
        entry is None ==> state_map(r@) == state_map(before@),
{
    let mut r: Vec<(u64, u64)> = Vec::new();
    let mut found = false;
    let mut i: usize = 0;
    while i < before.len()
        invariant
            i <= before@.len(),
            keys_unique(before@),
            r@.len() == i,
            forall|j: int| 0 <= j < i ==> (#[trigger] r@[j]).0 == before@[j].0,
            forall|j: int|
                0 <= j < i ==> (#[trigger] r@[j]).1 == (if entry == Some(before@[j].0) {
                    shorteventid
                } else {
                    before@[j].1
                }),
            found <==> exists|j: int| 0 <= j < i && entry == Some(#[trigger] before@[j].0),
        decreases before@.len() - i,
    {
        let (k, e) = before[i];
        let hit = match entry {
            Some(x) => x == k,
            None => false,
        };
        if hit {
            r.push((k, shorteventid));
            found = true;
        } else {
            r.push((k, e));
        }
        i += 1;
    }
    let ghost mid = r@;
    if !found {
        if let Some(x) = entry {
            r.push((x, shorteventid));
        }
    }
    proof {
        assert forall|a: int, b: int| 0 <= a < b < r@.len() implies #[trigger] r@[a].0 != #[trigger] r@[b].0 by {
            if b < before@.len() {
                assert(before@[a].0 != before@[b].0);
            }
        }
        assert forall|j: int| 0 <= j < r@.len() implies state_map(r@).contains_key(r@[j].0) && state_map(
            r@,
        )[r@[j].0] == r@[j].1 by {
            lemma_state_map_at(r@, j);
        }
        assert forall|j: int| 0 <= j < before@.len() implies state_map(before@).contains_key(before@[j].0)
            && state_map(before@)[before@[j].0] == before@[j].1 by {
            lemma_state_map_at(before@, j);
        }
        let expect = match entry {
            Some(x) => state_map(before@).insert(x, shorteventid),
            None => state_map(before@),
        };
        assert forall|k: u64| #[trigger] state_map(r@).contains_key(k) implies expect.contains_key(k)
            && state_map(r@)[k] == expect[k] by {
            let j = choose|j: int| 0 <= j < r@.len() && r@[j].0 == k;
            if j < before@.len() {
                assert(before@[j].0 == k);
            }
        }
        assert forall|k: u64| #[trigger] expect.contains_key(k) implies state_map(r@).contains_key(k) by {
            if entry == Some(k) {
                if found {
                    let j = choose|j: int| 0 <= j < before@.len() && entry == Some(#[trigger] before@[j].0);
                    assert(r@[j].0 == k);
                } else {
                    assert(r@[before@.len() as int].0 == k);
                }
            } else {
                let j = choose|j: int| 0 <= j < before@.len() && before@[j].0 == k;
                assert(r@[j].0 == k);
            }
        }
        assert(state_map(r@) =~= expect);
    }
    r
}

/// A state event changes the state of its room at its own entry and
/// nowhere else.
pub proof fn lemma_state_changes_only_own_entry(before: Seq<(u64, u64)>, after: Seq<(u64, u64)>, entry: u64, event: u64)
    requires
        state_map(after) == state_map(before).insert(entry, event),
    ensures
        forall|k: u64| k != entry ==> (#[trigger] state_map(after).contains_key(k) <==> state_map(
            before,
        ).contains_key(k)),
        forall|k: u64| k != entry && #[trigger] state_map(after).contains_key(k) ==> state_map(after)[k]
            == state_map(before)[k],
        state_map(after).contains_key(entry) && state_map(after)[entry] == event,
{
}

} // verus!

verus! {

/// The entries of a full state, read from its records; a malformed record
/// is a database error.
pub fn state_full_ids(full_state: &Vec<Vec<u8>>) -> (r: Result<Vec<(u64, u64)>, Error>)
    ensures
        r is Ok <==> forall|i: int| 0 <= i < full_state@.len() ==> (#[trigger] full_state@[i])@.len() == 16,
        r is Ok ==> r->Ok_0@.len() == full_state@.len(),
        r is Ok ==> forall|i: int|
            0 <= i < full_state@.len() ==> compressed((#[trigger] r->Ok_0@[i]).0, r->Ok_0@[i].1)
                == full_state@[i]@,
        r is Err ==> r->Err_0 == Error::BadDatabase,
{
    let mut out: Vec<(u64, u64)> = Vec::new();
    let mut i: usize = 0;
    while i < full_state.len()
        invariant
            i <= full_state@.len(),
            out@.len() == i,
            forall|j: int| 0 <= j < i ==> (#[trigger] full_state@[j])@.len() == 16,
            forall|j: int| 0 <= j < i ==> compressed((#[trigger] out@[j]).0, out@[j].1) == full_state@[j]@,
        decreases full_state@.len() - i,
    {
        match parse_compressed_state_event(full_state[i].as_slice()) {
            Ok(p) => out.push(p),
            Err(e) => return Err(e),
        }
        i += 1;
    }
    Ok(out)
}

/// The short event id that a full state gives a short state key: from the
/// first record that starts with the key's bytes, if that record is well
/// formed.
pub fn state_get_id(full_state: &Vec<Vec<u8>>, shortstatekey: Option<u64>) -> (r: Option<u64>)
    ensures
        shortstatekey is None ==> r is None,
        r is Some ==> exists|i: int|
            0 <= i < full_state@.len() && (#[trigger] full_state@[i])@ == compressed(
                shortstatekey->Some_0,
                r->Some_0,
            ),
        shortstatekey is Some && (forall|i: int|
            0 <= i < full_state@.len() ==> (#[trigger] full_state@[i])@.len() == 16) && (exists|i: int|
            0 <= i < full_state@.len() && crate::tree::has_prefix(
                #[trigger] full_state@[i]@,
                be_bytes(shortstatekey->Some_0),
            )) ==> r is Some,
{
    let key = match shortstatekey {
        None => return None,
        Some(k) => k,
    };
    let kb = u64_to_bytes(key);
    let mut i: usize = 0;
    while i < full_state.len()
        invariant
            i <= full_state@.len(),
            shortstatekey == Some(key),
            kb@ == be_bytes(key),
            forall|j: int| 0 <= j < i ==> !crate::tree::has_prefix(#[trigger] full_state@[j]@, kb@),
        decreases full_state@.len() - i,
    {
        if crate::tree::starts_with(full_state[i].as_slice(), kb.as_slice()) {
            return match parse_compressed_state_event(full_state[i].as_slice()) {
                Ok((k, e)) => {
                    proof {
                        let rec = full_state@[i as int]@;
                        assert(rec.subrange(0, 8) == be_bytes(key));
                        assert(compressed(k, e).subrange(0, 8) =~= be_bytes(k));
                        assert(rec.subrange(0, 8) =~= compressed(k, e).subrange(0, 8));
                        lemma_be_value_of_bytes(k);
                        lemma_be_value_of_bytes(key);
                        assert(k == key);
                        assert(full_state@[i as int]@ == compressed(key, e));
                    }
                    Some(e)
                },
                Err(_) => None,
            };
        }
        i += 1;
    }
    None
}

} // verus!
