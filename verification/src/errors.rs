use vstd::prelude::*;

verus! {

/// Failure of session-token verification. `InvalidToken` covers a malformed
/// token or a bad integrity tag; `Expired` a well-formed token past its
/// expiry. The two are surfaced distinctly so a client can tell re-login
/// from refresh.
#[derive(Clone, Copy, Debug, PartialEq, Eq, Structural)]
pub enum TokenError {
    InvalidToken,
    Expired,
}

/// Failure of authorization: no cookie was presented, or the cookie's
/// token did not verify. Protected routes fail closed with this single
/// error.
#[derive(Clone, Copy, Debug, PartialEq, Eq, Structural)]
pub enum GateError {
    Unauthenticated,
}

/// Failure of local-account registration.
#[derive(Clone, Copy, Debug, PartialEq, Eq, Structural)]
pub enum RegisterError {
    /// The email does not match the registration grammar.
    InvalidEmailAddress,
    /// A user with this email already exists.
    DuplicateAccount,
    /// The password hasher reported an internal error.
    HashingFailure,
    /// The freshly drawn user id collided with an existing record.
    Internal,
}

/// Failure of local login. One error for both "no such user" and "wrong
/// password", so that responses do not allow account enumeration.
#[derive(Clone, Copy, Debug, PartialEq, Eq, Structural)]
pub enum LoginError {
    InvalidCredentials,
}

/// Failure of external-login resolution.
#[derive(Clone, Copy, Debug, PartialEq, Eq, Structural)]
pub enum ExternalLoginError {
    /// The freshly drawn user id collided with an existing record.
    Internal,
}

/// Failure of a team-membership operation.
#[derive(Clone, Copy, Debug, PartialEq, Eq, Structural)]
pub enum TeamError {
    /// The acting (or targeted) user id resolves to no record.
    UserNotFound,
    /// The user already belongs to a team.
    AlreadyInTeam,
    /// A team with the requested name already exists.
    DuplicateTeamName,
    /// The team id resolves to no record.
    TeamNotFound,
    /// The user belongs to no team.
    NotInTeam,
    /// The actor lacks leadership over the targeted team or member.
    Forbidden,
    /// The freshly drawn team id collided with an existing record.
    Internal,
}

impl TokenError {
    pub open spec fn spec_status_code(&self) -> u16 {
        401
    }

    pub fn status_code(&self) -> (code: u16)
        ensures
            code == self.spec_status_code(),
    {
        401
    }
}

impl GateError {
    pub open spec fn spec_status_code(&self) -> u16 {
        401
    }

    pub fn status_code(&self) -> (code: u16)
        ensures
            code == self.spec_status_code(),
    {
        401
    }
}

impl RegisterError {
    pub open spec fn spec_status_code(&self) -> u16 {
        match self {
            RegisterError::InvalidEmailAddress => 400,
            RegisterError::DuplicateAccount => 409,
            RegisterError::HashingFailure => 500,
            RegisterError::Internal => 500,
        }
    }

    pub fn status_code(&self) -> (code: u16)
        ensures
            code == self.spec_status_code(),
    {
        match self {
            RegisterError::InvalidEmailAddress => 400,
            RegisterError::DuplicateAccount => 409,
            RegisterError::HashingFailure => 500,
            RegisterError::Internal => 500,
        }
    }
}

impl LoginError {
    pub open spec fn spec_status_code(&self) -> u16 {
        401
    }

    pub fn status_code(&self) -> (code: u16)
        ensures
            code == self.spec_status_code(),
    {
        401
    }
}

impl ExternalLoginError {
    pub open spec fn spec_status_code(&self) -> u16 {
        500
    }

    pub fn status_code(&self) -> (code: u16)
        ensures
            code == self.spec_status_code(),
    {
        500
    }
}

impl TeamError {
    pub open spec fn spec_status_code(&self) -> u16 {
        match self {
            TeamError::UserNotFound => 404,
            TeamError::AlreadyInTeam => 403,
            TeamError::DuplicateTeamName => 409,
            TeamError::TeamNotFound => 404,
            TeamError::NotInTeam => 404,
            TeamError::Forbidden => 403,
            TeamError::Internal => 500,
        }
    }

    pub fn status_code(&self) -> (code: u16)
        ensures
            code == self.spec_status_code(),
    {
        match self {
            TeamError::UserNotFound => 404,
            TeamError::AlreadyInTeam => 403,
            TeamError::DuplicateTeamName => 409,
            TeamError::TeamNotFound => 404,
            TeamError::NotInTeam => 404,
            TeamError::Forbidden => 403,
            TeamError::Internal => 500,
        }
    }
}

} // verus!
