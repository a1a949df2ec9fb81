use vstd::prelude::*;

verus! {

/// Why a request was refused.
#[derive(Clone, Copy, Debug, PartialEq, Eq, Structural)]
pub enum ErrorKind {
    Forbidden,
    NotFound,
    InvalidParam,
    RoomInUse,
    Exclusive,
    BadJson,
    Unknown,
    MissingToken,
    UnknownToken,
    Unauthorized,
    InvalidUsername,
    UnableToGrantJoin,
    UnableToAuthorizeJoin,
    IncompatibleRoomVersion,
}

/// The failures of this library.
#[derive(Clone, Copy, Debug, PartialEq, Eq, Structural)]
pub enum Error {
    /// The client's request cannot be served.
    BadRequest(ErrorKind),
    /// Stored data does not have the shape it was written with.
    BadDatabase,
    /// The global counter cannot grow any further.
    CounterExhausted,
}

/// The stable error code of a kind of refusal.
pub open spec fn kind_code(k: ErrorKind) -> Seq<char> {
    match k {
        ErrorKind::Forbidden => "M_FORBIDDEN"@,
        ErrorKind::NotFound => "M_NOT_FOUND"@,
        ErrorKind::InvalidParam => "M_INVALID_PARAM"@,
        ErrorKind::RoomInUse => "M_ROOM_IN_USE"@,
        ErrorKind::Exclusive => "M_EXCLUSIVE"@,
        ErrorKind::BadJson => "M_BAD_JSON"@,
        ErrorKind::Unknown => "M_UNKNOWN"@,
        ErrorKind::MissingToken => "M_MISSING_TOKEN"@,
        ErrorKind::UnknownToken => "M_UNKNOWN_TOKEN"@,
        ErrorKind::Unauthorized => "M_UNAUTHORIZED"@,
        ErrorKind::InvalidUsername => "M_INVALID_USERNAME"@,
        ErrorKind::UnableToGrantJoin => "M_UNABLE_TO_GRANT_JOIN"@,
        ErrorKind::UnableToAuthorizeJoin => "M_UNABLE_TO_AUTHORISE_JOIN"@,
        ErrorKind::IncompatibleRoomVersion => "M_INCOMPATIBLE_ROOM_VERSION"@,
    }
}

impl ErrorKind {
    /// The stable error code that clients see.
    pub fn errcode(&self) -> (r: &'static str)
        ensures
            r@ == kind_code(*self),
    {
        match self {
            ErrorKind::Forbidden => "M_FORBIDDEN",
            ErrorKind::NotFound => "M_NOT_FOUND",
            ErrorKind::InvalidParam => "M_INVALID_PARAM",
            ErrorKind::RoomInUse => "M_ROOM_IN_USE",
            ErrorKind::Exclusive => "M_EXCLUSIVE",
            ErrorKind::BadJson => "M_BAD_JSON",
            ErrorKind::Unknown => "M_UNKNOWN",
            ErrorKind::MissingToken => "M_MISSING_TOKEN",
            ErrorKind::UnknownToken => "M_UNKNOWN_TOKEN",
            ErrorKind::Unauthorized => "M_UNAUTHORIZED",
            ErrorKind::InvalidUsername => "M_INVALID_USERNAME",
            ErrorKind::UnableToGrantJoin => "M_UNABLE_TO_GRANT_JOIN",
            ErrorKind::UnableToAuthorizeJoin => "M_UNABLE_TO_AUTHORISE_JOIN",
            ErrorKind::IncompatibleRoomVersion => "M_INCOMPATIBLE_ROOM_VERSION",
        }
    }
}

} // verus!
