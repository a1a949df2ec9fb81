use vstd::prelude::*;
use crate::appservice::str_eq;
use crate::error::{Error, ErrorKind};
use vstd::string::StringExecFns;

verus! {

/// The room versions this server understands.
#[derive(Clone, Copy, Debug, PartialEq, Eq, Structural)]
pub enum RoomVersion {
    V1,
    V2,
    V3,
    V4,
    V5,
    V6,
    V7,
    V8,
    V9,
    V10,
    V11,
}

/// The number of a room version.
pub open spec fn version_number(v: RoomVersion) -> nat {
    match v {
        RoomVersion::V1 => 1,
        RoomVersion::V2 => 2,
        RoomVersion::V3 => 3,
        RoomVersion::V4 => 4,
        RoomVersion::V5 => 5,
        RoomVersion::V6 => 6,
        RoomVersion::V7 => 7,
        RoomVersion::V8 => 8,
        RoomVersion::V9 => 9,
        RoomVersion::V10 => 10,
        RoomVersion::V11 => 11,
    }
}

impl RoomVersion {
    /// The number of this version.
    pub fn number(&self) -> (r: u64)
        ensures
            r == version_number(*self),
    {
        match self {
            RoomVersion::V1 => 1,
            RoomVersion::V2 => 2,
            RoomVersion::V3 => 3,
            RoomVersion::V4 => 4,
            RoomVersion::V5 => 5,
            RoomVersion::V6 => 6,
            RoomVersion::V7 => 7,
            RoomVersion::V8 => 8,
            RoomVersion::V9 => 9,
            RoomVersion::V10 => 10,
            RoomVersion::V11 => 11,
        }
    }
}

/// The SHA-256 digest of some bytes.
pub uninterp spec fn sha256_of(data: Seq<u8>) -> Seq<u8>;

/// Unpadded base64 with the standard alphabet.
pub uninterp spec fn base64_standard(data: Seq<u8>) -> Seq<char>;

/// Unpadded base64 with the URL-safe alphabet.
pub uninterp spec fn base64_url_safe(data: Seq<u8>) -> Seq<char>;

/// Relies on `sha2::Sha256::digest`: the 32-byte SHA-256 digest of the data.
#[verifier::external_body]
pub(crate) fn sha256(data: &[u8]) -> (r: Vec<u8>)
    ensures
        r@ == sha256_of(data@),
        r@.len() == 32,
{
    <sha2::Sha256 as sha2::Digest>::digest(data).to_vec()
}

/// Relies on `base64::engine::general_purpose::STANDARD_NO_PAD`'s `encode`,
/// which panics only when the encoded length overflows.
#[verifier::external_body]
fn encode_standard(data: &[u8]) -> (r: String)
    requires
        data@.len() <= usize::MAX / 4,
    ensures
        r@ == base64_standard(data@),
{
    base64::Engine::encode(&base64::engine::general_purpose::STANDARD_NO_PAD, data)
}

/// Relies on `base64::engine::general_purpose::URL_SAFE_NO_PAD`'s `encode`,
/// which panics only when the encoded length overflows.
#[verifier::external_body]
pub(crate) fn encode_url_safe(data: &[u8]) -> (r: String)
    requires
        data@.len() <= usize::MAX / 4,
    ensures
        r@ == base64_url_safe(data@),
{
    base64::Engine::encode(&base64::engine::general_purpose::URL_SAFE_NO_PAD, data)
}

/// The id that the reference hash of an event's redacted canonical JSON
/// gives it: `$` and the hash in base64, URL-safe from version 4 on.
pub open spec fn reference_event_id(version: RoomVersion, redacted_canonical_json: Seq<u8>) -> Seq<char> {
    if version_number(version) >= 4 {
        "$"@ + base64_url_safe(sha256_of(redacted_canonical_json))
    } else {
        "$"@ + base64_standard(sha256_of(redacted_canonical_json))
    }
}

/// The id of an incoming event. Versions 1 and 2 carry it in the event;
/// from version 3 on it is computed from the reference hash, and a claimed
/// id is only informational.
pub fn event_id_for(version: RoomVersion, redacted_canonical_json: &[u8], claimed: Option<String>) -> (r: Result<
    String,
    Error,
>)
    ensures
        version_number(version) >= 3 ==> r is Ok && r->Ok_0@ == reference_event_id(
            version,
            redacted_canonical_json@,
        ),
        version_number(version) < 3 ==> (r is Ok <==> claimed is Some),
        version_number(version) < 3 && claimed is Some ==> r->Ok_0 == claimed->Some_0,
        r is Err ==> r->Err_0 == Error::BadRequest(ErrorKind::BadJson),
{
    if version.number() < 3 {
        return match claimed {
            Some(id) => Ok(id),
            None => Err(Error::BadRequest(ErrorKind::BadJson)),
        };
    }
    let digest = sha256(redacted_canonical_json);
    let encoded = if version.number() >= 4 {
        encode_url_safe(digest.as_slice())
    } else {
        encode_standard(digest.as_slice())
    };
    let mut id = String::from_str("$");
    id.append(encoded.as_str());
    Ok(id)
}

/// Whether redaction keeps the content field `key` of an event of type
/// `kind` in a room of `version`.
pub open spec fn preserved(version: RoomVersion, kind: Seq<char>, key: Seq<char>) -> bool {
    let n = version_number(version);
    if kind == "m.room.member"@ {
        key == "membership"@ || (n >= 9 && key == "join_authorized_via_users_server"@)
    } else if kind == "m.room.create"@ {
        n >= 11 || key == "creator"@
    } else if kind == "m.room.join_rules"@ {
        key == "join_rule"@ || (n >= 8 && key == "allow"@)
    } else if kind == "m.room.power_levels"@ {
        key == "ban"@ || key == "events"@ || key == "events_default"@ || key == "kick"@ || key
            == "redact"@ || key == "state_default"@ || key == "users"@ || key == "users_default"@ || (n
            >= 11 && key == "invite"@)
    } else if kind == "m.room.history_visibility"@ {
        key == "history_visibility"@
    } else if kind == "m.room.aliases"@ {
        n <= 5 && key == "aliases"@
    } else if kind == "m.room.redaction"@ {
        n >= 11 && key == "redacts"@
    } else {
        false
    }
}

/// Whether redaction keeps a content field.
pub fn is_preserved(version: RoomVersion, kind: &str, key: &str) -> (r: bool)
    ensures
        r == preserved(version, kind@, key@),
{
    let n = version.number();
    if str_eq(kind, "m.room.member") {
        str_eq(key, "membership") || (n >= 9 && str_eq(key, "join_authorized_via_users_server"))
    } else if str_eq(kind, "m.room.create") {
        n >= 11 || str_eq(key, "creator")
    } else if str_eq(kind, "m.room.join_rules") {
        str_eq(key, "join_rule") || (n >= 8 && str_eq(key, "allow"))
    } else if str_eq(kind, "m.room.power_levels") {
        str_eq(key, "ban") || str_eq(key, "events") || str_eq(key, "events_default") || str_eq(key, "kick")
            || str_eq(key, "redact") || str_eq(key, "state_default") || str_eq(key, "users") || str_eq(
            key,
            "users_default",
        ) || (n >= 11 && str_eq(key, "invite"))
    } else if str_eq(kind, "m.room.history_visibility") {
        str_eq(key, "history_visibility")
    } else if str_eq(kind, "m.room.aliases") {
        n <= 5 && str_eq(key, "aliases")
    } else if str_eq(kind, "m.room.redaction") {
        n >= 11 && str_eq(key, "redacts")
    } else {
        false
    }
}

/// A persistent event, with its content as top-level fields and their
/// serialised values.
#[derive(Clone, Debug)]
pub struct Pdu {
    pub event_id: String,
    pub kind: String,
    pub content: Vec<(String, String)>,
}

/// Strips the content fields that redaction does not keep. The id, the type
/// and the kept fields, in their order, stay as they were.
pub fn redact(version: RoomVersion, pdu: &Pdu) -> (r: Pdu)
    ensures
        r.event_id == pdu.event_id,
        r.kind == pdu.kind,
        r.content@ == pdu.content@.filter(|f: (String, String)| preserved(version, pdu.kind@, f.0@)),
{
    let ghost pred = |f: (String, String)| preserved(version, pdu.kind@, f.0@);
    let mut content: Vec<(String, String)> = Vec::new();
    let mut i: usize = 0;
    while i < pdu.content.len()
        invariant
            i <= pdu.content@.len(),
            pred == (|f: (String, String)| preserved(version, pdu.kind@, f.0@)),
            content@ == pdu.content@.take(i as int).filter(pred),
        decreases pdu.content@.len() - i,
    {
        proof {
            crate::tree::lemma_filter_take_step(pdu.content@, i as int, pred);
        }
        if is_preserved(version, pdu.kind.as_str(), pdu.content[i].0.as_str()) {
            content.push((pdu.content[i].0.clone(), pdu.content[i].1.clone()));
        }
        i += 1;
    }
    assert(pdu.content@.take(pdu.content@.len() as int) =~= pdu.content@);
    Pdu { event_id: pdu.event_id.clone(), kind: pdu.kind.clone(), content }
}

/// Redaction keeps an event's id and type, keeps every content field of the
/// preserve-set of the room version with its value, and removes every
/// other one.
pub proof fn lemma_redaction(version: RoomVersion, before: Pdu, after: Pdu)
    requires
        after.event_id == before.event_id,
        after.kind == before.kind,
        after.content@ == before.content@.filter(|f: (String, String)| preserved(version, before.kind@, f.0@)),
    ensures
        after.event_id@ == before.event_id@,
        forall|i: int| 0 <= i < after.content@.len() ==> preserved(version, before.kind@, (#[trigger] after.content@[i]).0@),
        forall|i: int|
            0 <= i < before.content@.len() && preserved(version, before.kind@, (#[trigger] before.content@[i]).0@)
                ==> after.content@.contains(before.content@[i]),
{
    broadcast use Seq::lemma_filter_pred, Seq::lemma_filter_contains;

}

} // verus!
