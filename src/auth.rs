use vstd::prelude::*;
use crate::appservice::{localpart, set_matches, RegistrationInfo};
use crate::error::{Error, ErrorKind};
use vstd::string::StringExecFns;

verus! {

/// How an endpoint authenticates its callers.
#[derive(Clone, Copy, Debug, PartialEq, Eq, Structural)]
pub enum AuthScheme {
    Unauthenticated,
    AccessToken,
    AccessTokenOptional,
    AppserviceToken,
    ServerSignatures,
}

/// What the access token of a request turned out to be.
#[derive(Clone, Copy, Debug, PartialEq, Eq, Structural)]
pub enum TokenKind {
    /// An appservice's token.
    Appservice,
    /// A user's device token.
    User,
    /// A token nobody holds.
    Invalid,
    /// No token.
    Missing,
}

/// How a request is authenticated further.
#[derive(Clone, Copy, Debug, PartialEq, Eq, Structural)]
pub enum AuthRoute {
    /// No one in particular.
    Anonymous,
    /// The appservice, acting as one of its users.
    AppserviceUser,
    /// The appservice itself.
    AppserviceOnly,
    /// The user of the token.
    User,
    /// A remote server, by its X-Matrix signature.
    Server,
}

/// The outcome of authentication for an endpoint's scheme and the kind of
/// token presented.
pub open spec fn route_for(scheme: AuthScheme, token: TokenKind) -> Result<AuthRoute, Error> {
    match (scheme, token) {
        (_, TokenKind::Invalid) => Err(Error::BadRequest(ErrorKind::UnknownToken)),
        (AuthScheme::AccessToken, TokenKind::Appservice) => Ok(AuthRoute::AppserviceUser),
        (AuthScheme::ServerSignatures, TokenKind::Appservice) => Err(Error::BadRequest(ErrorKind::Unauthorized)),
        (_, TokenKind::Appservice) => Ok(AuthRoute::AppserviceOnly),
        (AuthScheme::AccessToken, TokenKind::Missing) => Err(Error::BadRequest(ErrorKind::MissingToken)),
        (AuthScheme::ServerSignatures, TokenKind::Missing) => Ok(AuthRoute::Server),
        (_, TokenKind::Missing) => Ok(AuthRoute::Anonymous),
        (AuthScheme::ServerSignatures, TokenKind::User) => Err(Error::BadRequest(ErrorKind::Unauthorized)),
        (AuthScheme::AppserviceToken, TokenKind::User) => Err(Error::BadRequest(ErrorKind::Unauthorized)),
        (_, TokenKind::User) => Ok(AuthRoute::User),
    }
}

/// Decides how a request is authenticated. The public room directory asks
/// for a valid token unless the server lets anyone read it.
pub fn auth_route(
    scheme: AuthScheme,
    token: TokenKind,
    public_rooms_path: bool,
    allow_public_room_directory_without_auth: bool,
) -> (r: Result<AuthRoute, Error>)
    ensures
        scheme == AuthScheme::Unauthenticated && public_rooms_path && !allow_public_room_directory_without_auth && (token
            == TokenKind::Missing || token == TokenKind::Invalid) ==> r == Err::<AuthRoute, Error>(
            Error::BadRequest(ErrorKind::MissingToken),
        ),
        !(scheme == AuthScheme::Unauthenticated && public_rooms_path && !allow_public_room_directory_without_auth && (token
            == TokenKind::Missing || token == TokenKind::Invalid)) ==> r == route_for(scheme, token),
{
    let anonymous_token = match token {
        TokenKind::Missing | TokenKind::Invalid => true,
        _ => false,
    };
    let no_auth = match scheme {
        AuthScheme::Unauthenticated => true,
        _ => false,
    };
    if no_auth && public_rooms_path && !allow_public_room_directory_without_auth && anonymous_token {
        return Err(Error::BadRequest(ErrorKind::MissingToken));
    }
    match (scheme, token) {
        (_, TokenKind::Invalid) => Err(Error::BadRequest(ErrorKind::UnknownToken)),
        (AuthScheme::AccessToken, TokenKind::Appservice) => Ok(AuthRoute::AppserviceUser),
        (AuthScheme::ServerSignatures, TokenKind::Appservice) => Err(Error::BadRequest(ErrorKind::Unauthorized)),
        (_, TokenKind::Appservice) => Ok(AuthRoute::AppserviceOnly),
        (AuthScheme::AccessToken, TokenKind::Missing) => Err(Error::BadRequest(ErrorKind::MissingToken)),
        (AuthScheme::ServerSignatures, TokenKind::Missing) => Ok(AuthRoute::Server),
        (_, TokenKind::Missing) => Ok(AuthRoute::Anonymous),
        (AuthScheme::ServerSignatures, TokenKind::User) => Err(Error::BadRequest(ErrorKind::Unauthorized)),
        (AuthScheme::AppserviceToken, TokenKind::User) => Err(Error::BadRequest(ErrorKind::Unauthorized)),
        (_, TokenKind::User) => Ok(AuthRoute::User),
    }
}

/// The user an appservice acts as: the one it names, else its own sender
/// `@localpart:server`.
pub open spec fn appservice_user(info: RegistrationInfo, requested: Option<Seq<char>>, server_name: Seq<char>) -> Seq<char> {
    match requested {
        Some(u) => u,
        None => "@"@ + info.registration.sender_localpart@ + ":"@ + server_name,
    }
}

/// The user an appservice request acts as. It must lie in the appservice's
/// user namespace (or be its sender), and exist.
pub fn auth_appservice(
    info: &RegistrationInfo,
    requested_user: Option<&str>,
    server_name: &str,
    user_exists: bool,
) -> (r: Result<String, Error>)
    ensures
        ({
            let u = appservice_user(*info, match requested_user { Some(s) => Some(s@), None => None }, server_name@);
            let in_namespace = set_matches(info.users.exclusive, u) || set_matches(info.users.non_exclusive, u)
                || info.registration.sender_localpart@ == localpart(u);
            &&& !in_namespace ==> r == Err::<String, Error>(Error::BadRequest(ErrorKind::Exclusive))
            &&& in_namespace && !user_exists ==> r == Err::<String, Error>(Error::BadRequest(ErrorKind::Forbidden))
            &&& in_namespace && user_exists ==> r is Ok && r->Ok_0@ == u
        }),
{
    let user_id = match requested_user {
        Some(u) => String::from_str(u),
        None => {
            let mut s = String::from_str("@");
            s.append(info.registration.sender_localpart.as_str());
            s.append(":");
            s.append(server_name);
            s
        },
    };
    if !info.is_user_match(user_id.as_str()) {
        return Err(Error::BadRequest(ErrorKind::Exclusive));
    }
    if !user_exists {
        return Err(Error::BadRequest(ErrorKind::Forbidden));
    }
    Ok(user_id)
}

/// An X-Matrix header may name a destination; when it does, it must be
/// this server.
pub fn x_matrix_destination_ok(destination: Option<&str>, server_name: &str) -> (r: bool)
    ensures
        r == match destination {
            Some(d) => d@ == server_name@,
            None => true,
        },
{
    match destination {
        Some(d) => crate::appservice::str_eq(d, server_name),
        None => true,
    }
}

} // verus!
