//! Core logic of a federated chat homeserver.
//!
//! - `tree`, `bytes`, `globals`: an ordered byte key-value store, big-endian
//!   number records and the global counter that orders events and sync
//!   tokens.
//! - `short`: the interner between full identifiers and 64-bit short ids.
//! - `state`, `state_res`, `timeline`, `pdu`: compressed room state, state
//!   deltas, resolution of concurrent power events, the per-room timeline,
//!   forward extremities, event ids and redaction.
//! - `sync`, `lazy_loading`: the decisions of the sync engine.
//! - `federation`, `auth`, `sending`: transaction outcomes, the walk for
//!   missing events, join templates, request authentication and the
//!   outbound queue.
//! - `room`, `appservice`, `media`, `content_disposition`: room creation and
//!   upgrade rules, appservice namespaces, media metadata records and the
//!   Content-Disposition of served files.
pub mod appservice;
pub mod auth;
pub mod bytes;
pub mod content_disposition;
pub mod error;
pub mod federation;
pub mod globals;
pub mod lazy_loading;
pub mod media;
pub mod pdu;
pub mod room;
pub mod sending;
pub mod short;
pub mod state;
pub mod state_res;
pub mod sync;
pub mod timeline;
pub mod text;
pub mod tree;

pub use crate::bytes::{be_bytes, be_value, u64_from_bytes, u64_to_bytes};
pub use crate::error::{Error, ErrorKind};
pub use crate::globals::Globals;
pub use crate::tree::{bytes_eq, copy_bytes, starts_with, Tree};
pub use crate::short::ShortIds;
pub use crate::content_disposition::{content_disposition_type, make_content_disposition, make_content_type, sanitise_filename, MediaKind};
pub use crate::sending::{parse_servercurrentevent, Destination, Sending, SendingEvent};
pub use crate::appservice::{Namespace, NamespaceRegex, Namespaces, Registration, RegistrationInfo};
pub use crate::room::{check_join, room_creation_event_types, Membership, custom_room_id_check, move_local_aliases, plan_room_upgrade, RoomUpgrade, Tombstone, default_power_levels_content, effective_preset, guest_access_for, initial_power_users, join_rule_for, room_alias_check, transferable_state_events, upgraded_power_levels, GuestAccess, JoinRule, PowerLevels, PowerLevelsOverride, RoomPreset, Visibility};
pub use crate::state::{compress_state_event, parse_compressed_state_event, state_after, state_full_ids, state_get_id};
pub use crate::timeline::{load_timeline, update_forward_extremities, PduCount, Timeline};
pub use crate::sync::{merge_presence, room_name_from_heroes, sliding_timeline_limit, PresenceContent, calculate_heroes, initial_sync_state, HeroCandidate, StateEntry};
pub use crate::pdu::{event_id_for, is_preserved, redact, Pdu, RoomVersion};
pub use crate::federation::{get_missing_events, transaction_pdu_outcomes, StoredEvent};
pub use crate::state_res::{resolve_power_event, str_less, PowerEvent};
pub use crate::lazy_loading::LazyLoading;
