use vstd::prelude::*;
use crate::bytes::{be_bytes, be_value, lemma_be_value_of_bytes, u64_from_bytes, u64_to_bytes};
use crate::error::Error;
use crate::tree::Tree;

verus! {

/// Key of the global counter.
pub open spec fn counter_key() -> Seq<u8> {
    seq![99u8]
}

/// Key of the last update-check id.
pub open spec fn update_check_key() -> Seq<u8> {
    seq![117u8]
}

/// Key of the database schema version.
pub open spec fn version_key() -> Seq<u8> {
    seq![118u8, 101u8, 114u8, 115u8, 105u8, 111u8, 110u8]
}

/// The number stored under `key`: 0 when absent, `None` when the stored bytes
/// are not a number.
pub open spec fn stored_u64(m: Map<Seq<u8>, Seq<u8>>, key: Seq<u8>) -> Option<u64> {
    if !m.contains_key(key) {
        Some(0)
    } else if m[key].len() == 8 {
        Some(be_value(m[key]))
    } else {
        None
    }
}

/// The counter's value: what the last allocation returned, 0 before the
/// first one. Unreadable bytes count as 0, so the next allocation is 1.
pub open spec fn counter_value(m: Map<Seq<u8>, Seq<u8>>) -> u64 {
    match stored_u64(m, counter_key()) {
        Some(v) => v,
        None => 0,
    }
}

/// Process-wide values kept in the database: the global counter, the schema
/// version and the last update-check id.
pub struct Globals {
    pub global: Tree,
}

impl Globals {
    pub open spec fn wf(&self) -> bool {
        self.global.wf()
    }

    /// The value of the global counter.
    pub open spec fn count(&self) -> u64 {
        counter_value(self.global@)
    }

    pub fn new() -> (r: Globals)
        ensures
            r.wf(),
            r.global@ == Map::<Seq<u8>, Seq<u8>>::empty(),
            r.count() == 0,
    {
        Globals { global: Tree::new() }
    }

    /// Reads the number stored under `key`.
    fn read_u64(&self, key: &[u8]) -> (r: Result<u64, Error>)
        requires
            self.wf(),
        ensures
            r is Ok <==> stored_u64(self.global@, key@) is Some,
            r is Ok ==> r->Ok_0 == stored_u64(self.global@, key@)->Some_0,
            r is Err ==> r->Err_0 == Error::BadDatabase,
    {
        match self.global.get(key) {
            None => Ok(0),
            Some(b) => match u64_from_bytes(b.as_slice()) {
                Ok(v) => Ok(v),
                Err(()) => Err(Error::BadDatabase),
            },
        }
    }

    /// Allocates the next value of the global counter and returns it. Every
    /// value handed out is larger than all earlier ones.
    pub fn next_count(&mut self) -> (r: Result<u64, Error>)
        requires
            old(self).wf(),
        ensures
            final(self).wf(),
            r is Err <==> old(self).count() == u64::MAX,
            r is Ok ==> r->Ok_0 == old(self).count() + 1 && final(self).count() == r->Ok_0,
            r is Ok ==> final(self).global@ == old(self).global@.insert(
                counter_key(),
                be_bytes(r->Ok_0),
            ),
            r is Err ==> *final(self) == *old(self),
    {
        let key: Vec<u8> = vec![99u8];
        assert(key@ =~= counter_key());
        let current: u64 = match self.global.get(key.as_slice()) {
            None => 0,
            Some(b) => match u64_from_bytes(b.as_slice()) {
                Ok(v) => v,
                Err(()) => 0,
            },
        };
        if current == u64::MAX {
            return Err(Error::CounterExhausted);
        }
        let next = current + 1;
        let bytes = u64_to_bytes(next);
        self.global.insert(key.as_slice(), bytes.as_slice());
        proof {
            lemma_be_value_of_bytes(next);
        }
        Ok(next)
    }

    /// The value of the global counter, 0 before the first allocation.
    pub fn current_count(&self) -> (r: Result<u64, Error>)
        requires
            self.wf(),
        ensures
            r is Ok <==> stored_u64(self.global@, counter_key()) is Some,
            r is Ok ==> r->Ok_0 == self.count(),
            r is Err ==> r->Err_0 == Error::BadDatabase,
    {
        let key: Vec<u8> = vec![99u8];
        assert(key@ =~= counter_key());
        self.read_u64(key.as_slice())
    }

    /// The id of the last update notice that was checked, 0 if none was.
    pub fn last_check_for_updates_id(&self) -> (r: Result<u64, Error>)
        requires
            self.wf(),
        ensures
            r is Ok <==> stored_u64(self.global@, update_check_key()) is Some,
            r is Ok ==> r->Ok_0 == stored_u64(self.global@, update_check_key())->Some_0,
            r is Err ==> r->Err_0 == Error::BadDatabase,
    {
        let key: Vec<u8> = vec![117u8];
        assert(key@ =~= update_check_key());
        self.read_u64(key.as_slice())
    }

    pub fn update_check_for_updates_id(&mut self, id: u64)
        requires
            old(self).wf(),
        ensures
            final(self).wf(),
            final(self).global@ == old(self).global@.insert(update_check_key(), be_bytes(id)),
    {
        let key: Vec<u8> = vec![117u8];
        assert(key@ =~= update_check_key());
        let bytes = u64_to_bytes(id);
        self.global.insert(key.as_slice(), bytes.as_slice());
    }

    /// The schema version of the database, 0 if none was recorded.
    pub fn database_version(&self) -> (r: Result<u64, Error>)
        requires
            self.wf(),
        ensures
            r is Ok <==> stored_u64(self.global@, version_key()) is Some,
            r is Ok ==> r->Ok_0 == stored_u64(self.global@, version_key())->Some_0,
            r is Err ==> r->Err_0 == Error::BadDatabase,
    {
        let key: Vec<u8> = vec![118u8, 101u8, 114u8, 115u8, 105u8, 111u8, 110u8];
        assert(key@ =~= version_key());
        self.read_u64(key.as_slice())
    }

    pub fn bump_database_version(&mut self, new_version: u64)
        requires
            old(self).wf(),
        ensures
            final(self).wf(),
            final(self).global@ == old(self).global@.insert(version_key(), be_bytes(new_version)),
            stored_u64(final(self).global@, version_key()) == Some(new_version),
    {
        let key: Vec<u8> = vec![118u8, 101u8, 114u8, 115u8, 105u8, 111u8, 110u8];
        assert(key@ =~= version_key());
        let bytes = u64_to_bytes(new_version);
        self.global.insert(key.as_slice(), bytes.as_slice());
        proof {
            lemma_be_value_of_bytes(new_version);
        }
    }
}

} // verus!

verus! {

/// Which caches a clearing of strength `amount` empties: the auth-chain
/// cache from 2 on, the local-users cache from 3 on, the appservice-in-room
/// cache from 4 on, the last-timeline-count cache from 5 on.
pub fn caches_to_clear(amount: u32) -> (r: (bool, bool, bool, bool))
    ensures
        r == (amount > 1, amount > 2, amount > 3, amount > 4),
{
    (amount > 1, amount > 2, amount > 3, amount > 4)
}

/// Splits the stored keypair record into its version and its key, which
/// are separated by the first 0xFF byte. A record without one, or whose
/// version is not UTF-8, is a database error.
pub fn split_keypair(keypair_bytes: &[u8]) -> (r: Result<(String, Vec<u8>), Error>)
    ensures
        r is Ok <==> crate::tree::ff_from(keypair_bytes@, 0) is Some && vstd::utf8::valid_utf8(
            keypair_bytes@.take(crate::tree::ff_from(keypair_bytes@, 0)->Some_0),
        ),
        r is Ok ==> r->Ok_0.0@ == vstd::utf8::decode_utf8(
            keypair_bytes@.take(crate::tree::ff_from(keypair_bytes@, 0)->Some_0),
        ) && r->Ok_0.1@ == keypair_bytes@.skip(crate::tree::ff_from(keypair_bytes@, 0)->Some_0 + 1),
        r is Err ==> r->Err_0 == Error::BadDatabase,
{
    let i = match crate::tree::first_ff(keypair_bytes) {
        Some(i) => i,
        None => return Err(Error::BadDatabase),
    };
    assert(keypair_bytes@.subrange(0, i as int) =~= keypair_bytes@.take(i as int));
    let version = match crate::bytes::string_from_bytes(&keypair_bytes[0..i]) {
        Ok(v) => v,
        Err(()) => return Err(Error::BadDatabase),
    };
    assert(i < keypair_bytes.len());
    let key = crate::tree::copy_bytes(&keypair_bytes[i + 1..keypair_bytes.len()]);
    assert(key@ =~= keypair_bytes@.skip(i + 1));
    Ok((version, key))
}

/// The verify keys of a server: current ones by key id, and old ones by key
/// id with the time they expired.
#[derive(Clone, Debug)]
pub struct ServerSigningKeys {
    pub verify_keys: Vec<(String, String)>,
    pub old_verify_keys: Vec<(String, String, u64)>,
}

/// The key a record list gives `id`, if any: the last one written.
pub open spec fn key_of(v: Seq<(Seq<char>, Seq<char>)>, id: Seq<char>) -> Option<Seq<char>>
    decreases v.len(),
{
    if v.len() == 0 {
        None
    } else if v.last().0 == id {
        Some(v.last().1)
    } else {
        key_of(v.drop_last(), id)
    }
}

pub open spec fn keys_view(v: Seq<(String, String)>) -> Seq<(Seq<char>, Seq<char>)> {
    v.map_values(|e: (String, String)| (e.0@, e.1@))
}

pub open spec fn old_keys_view(v: Seq<(String, String, u64)>) -> Seq<(Seq<char>, Seq<char>)> {
    v.map_values(|e: (String, String, u64)| (e.0@, e.1@))
}

/// Appends copies of the records of `src` to `dst`.
fn append_keys(dst: &mut Vec<(String, String)>, src: &Vec<(String, String)>)
    ensures
        keys_view(final(dst)@) == keys_view(old(dst)@) + keys_view(src@),
{
    let mut i: usize = 0;
    while i < src.len()
        invariant
            i <= src@.len(),
            keys_view(dst@) == keys_view(old(dst)@) + keys_view(src@).take(i as int),
        decreases src@.len() - i,
    {
        let ghost before = dst@;
        dst.push((src[i].0.clone(), src[i].1.clone()));
        assert(keys_view(dst@) =~= keys_view(before).push(keys_view(src@)[i as int]));
        i += 1;
        assert(keys_view(dst@) =~= keys_view(old(dst)@) + keys_view(src@).take(i as int));
    }
    assert(keys_view(src@).take(i as int) =~= keys_view(src@));
}

/// Appends copies of the old-key records of `src` to `dst`, with or without
/// their expiry.
fn append_old_keys(dst: &mut Vec<(String, String)>, src: &Vec<(String, String, u64)>)
    ensures
        keys_view(final(dst)@) == keys_view(old(dst)@) + old_keys_view(src@),
{
    let mut i: usize = 0;
    while i < src.len()
        invariant
            i <= src@.len(),
            keys_view(dst@) == keys_view(old(dst)@) + old_keys_view(src@).take(i as int),
        decreases src@.len() - i,
    {
        let ghost before = dst@;
        dst.push((src[i].0.clone(), src[i].1.clone()));
        assert(keys_view(dst@) =~= keys_view(before).push(old_keys_view(src@)[i as int]));
        i += 1;
        assert(keys_view(dst@) =~= keys_view(old(dst)@) + old_keys_view(src@).take(i as int));
    }
    assert(old_keys_view(src@).take(i as int) =~= old_keys_view(src@));
}

/// Appends copies of the old-key records of `src` to `dst`.
fn append_old_records(dst: &mut Vec<(String, String, u64)>, src: &Vec<(String, String, u64)>)
    ensures
        old_keys_view(final(dst)@) == old_keys_view(old(dst)@) + old_keys_view(src@),
{
    let mut i: usize = 0;
    while i < src.len()
        invariant
            i <= src@.len(),
            old_keys_view(dst@) == old_keys_view(old(dst)@) + old_keys_view(src@).take(i as int),
        decreases src@.len() - i,
    {
        let ghost before = dst@;
        dst.push((src[i].0.clone(), src[i].1.clone(), src[i].2));
        assert(old_keys_view(dst@) =~= old_keys_view(before).push(old_keys_view(src@)[i as int]));
        i += 1;
        assert(old_keys_view(dst@) =~= old_keys_view(old(dst)@) + old_keys_view(src@).take(i as int));
    }
    assert(old_keys_view(src@).take(i as int) =~= old_keys_view(src@));
}

/// Every key a server ever published, current or old: the current keys,
/// then the old ones, a later record winning for the same key id.
pub fn signing_keys_for(keys: &ServerSigningKeys) -> (r: Vec<(String, String)>)
    ensures
        keys_view(r@) == keys_view(keys.verify_keys@) + old_keys_view(keys.old_verify_keys@),
        forall|id: Seq<char>| #[trigger] key_of(keys_view(r@), id) == match key_of(old_keys_view(keys.old_verify_keys@), id) {
            Some(k) => Some(k),
            None => key_of(keys_view(keys.verify_keys@), id),
        },
{
    let mut r: Vec<(String, String)> = Vec::new();
    assert(keys_view(r@) =~= Seq::<(Seq<char>, Seq<char>)>::empty());
    append_keys(&mut r, &keys.verify_keys);
    assert(keys_view(r@) =~= keys_view(keys.verify_keys@));
    append_old_keys(&mut r, &keys.old_verify_keys);
    proof {
        assert forall|id: Seq<char>| #[trigger] key_of(keys_view(r@), id) == match key_of(old_keys_view(keys.old_verify_keys@), id) {
            Some(k) => Some(k),
            None => key_of(keys_view(keys.verify_keys@), id),
        } by {
            lemma_key_of_concat(keys_view(keys.verify_keys@), old_keys_view(keys.old_verify_keys@), id);
        }
    }
    r
}

proof fn lemma_key_of_concat(a: Seq<(Seq<char>, Seq<char>)>, b: Seq<(Seq<char>, Seq<char>)>, id: Seq<char>)
    ensures
        key_of(a + b, id) == match key_of(b, id) {
            Some(k) => Some(k),
            None => key_of(a, id),
        },
    decreases b.len(),
{
    if b.len() == 0 {
        assert(a + b =~= a);
    } else {
        assert((a + b).drop_last() =~= a + b.drop_last());
        assert((a + b).last() == b.last());
        lemma_key_of_concat(a, b.drop_last(), id);
    }
}

/// Adds newly fetched keys to the stored ones: current and old keys are
/// each appended after the stored ones of their kind.
pub fn add_signing_key(stored: &ServerSigningKeys, new_keys: &ServerSigningKeys) -> (r: ServerSigningKeys)
    ensures
        keys_view(r.verify_keys@) == keys_view(stored.verify_keys@) + keys_view(new_keys.verify_keys@),
        old_keys_view(r.old_verify_keys@) == old_keys_view(stored.old_verify_keys@) + old_keys_view(
            new_keys.old_verify_keys@,
        ),
{
    let mut verify_keys: Vec<(String, String)> = Vec::new();
    assert(keys_view(verify_keys@) =~= Seq::<(Seq<char>, Seq<char>)>::empty());
    append_keys(&mut verify_keys, &stored.verify_keys);
    assert(keys_view(verify_keys@) =~= keys_view(stored.verify_keys@));
    append_keys(&mut verify_keys, &new_keys.verify_keys);
    let mut old_verify_keys: Vec<(String, String, u64)> = Vec::new();
    assert(old_keys_view(old_verify_keys@) =~= Seq::<(Seq<char>, Seq<char>)>::empty());
    append_old_records(&mut old_verify_keys, &stored.old_verify_keys);
    assert(old_keys_view(old_verify_keys@) =~= old_keys_view(stored.old_verify_keys@));
    append_old_records(&mut old_verify_keys, &new_keys.old_verify_keys);
    ServerSigningKeys { verify_keys, old_verify_keys }
}

} // verus!

verus! {

/// The file name under which a media file is stored: its metadata key in
/// unpadded URL-safe base64.
pub fn media_file_name(key: &[u8]) -> (r: String)
    requires
        key@.len() <= usize::MAX / 4,
    ensures
        r@ == crate::pdu::base64_url_safe(key@),
{
    crate::pdu::encode_url_safe(key)
}

/// The file name under which a media file is stored when names are hashed:
/// the SHA-256 digest of its metadata key in unpadded URL-safe base64, which
/// keeps every path short.
pub fn media_file_name_hashed(key: &[u8]) -> (r: String)
    ensures
        r@ == crate::pdu::base64_url_safe(crate::pdu::sha256_of(key@)),
{
    let digest = crate::pdu::sha256(key);
    crate::pdu::encode_url_safe(digest.as_slice())
}

/// The room versions this server offers: the stable ones, then the unstable
/// ones when they are allowed.
pub fn supported_room_versions(
    stable: &Vec<crate::pdu::RoomVersion>,
    unstable: &Vec<crate::pdu::RoomVersion>,
    allow_unstable: bool,
) -> (r: Vec<crate::pdu::RoomVersion>)
    ensures
        allow_unstable ==> r@ == stable@ + unstable@,
        !allow_unstable ==> r@ == stable@,
{
    let mut r: Vec<crate::pdu::RoomVersion> = Vec::new();
    let mut i: usize = 0;
    while i < stable.len()
        invariant
            i <= stable@.len(),
            r@ == stable@.take(i as int),
        decreases stable@.len() - i,
    {
        r.push(stable[i]);
        i += 1;
        assert(r@ =~= stable@.take(i as int));
    }
    assert(stable@.take(i as int) =~= stable@);
    if allow_unstable {
        let mut j: usize = 0;
        while j < unstable.len()
            invariant
                j <= unstable@.len(),
                r@ == stable@ + unstable@.take(j as int),
            decreases unstable@.len() - j,
        {
            r.push(unstable[j]);
            j += 1;
            assert(r@ =~= stable@ + unstable@.take(j as int));
        }
        assert(unstable@.take(j as int) =~= unstable@);
    }
    r
}

/// The server part of a user id `@localpart:server`: what follows the first
/// `:`, empty when there is none.
pub open spec fn user_server(user_id: Seq<char>) -> Seq<char> {
    crate::text::after_first(user_id, ":"@)
}

/// Whether a server name is this server's.
pub fn server_is_ours(server_name: &str, our_server: &str) -> (r: bool)
    ensures
        r == (server_name@ == our_server@),
{
    crate::appservice::str_eq(server_name, our_server)
}

/// Whether a user belongs to this server.
pub fn user_is_local(user_id: &str, our_server: &str) -> (r: bool)
    ensures
        r == (user_server(user_id@) == our_server@),
{
    let server = crate::text::after_first_str(user_id, ":");
    server_is_ours(server.as_str(), our_server)
}

} // verus!
