use vstd::prelude::*;

use crate::email::{is_valid_email, valid_email};
use crate::errors::{ExternalLoginError, LoginError, RegisterError};
use crate::ids::fresh_id;
use crate::password::{hash_password, password_matches, verify_password};
use crate::store::{Store, User, copy_bytes, email_taken, user_at, user_exists};
use crate::token::{SigningKey, issue, issue_spec};

verus! {

/// A local registration request: display name, email (the uniqueness
/// key for local accounts) and the plain password, which leaves this
/// type only as a hash.
pub struct RegisterModel {
    pub name: Vec<u8>,
    pub email: Vec<u8>,
    pub password: Vec<u8>,
}

/// A verified external identity, asserted by an OAuth2 provider after
/// its own handshake and consumed here as trusted input.
pub struct ExternalIdentity {
    pub provider: Provider,
    pub provider_user_id: Vec<u8>,
    pub email: Vec<u8>,
}

#[derive(Clone, Copy, Debug, PartialEq, Eq, Structural)]
pub enum Provider {
    GitHub,
    Google,
}

/// What a successful registration or login hands back: the subject's id
/// and the signed session token to be set as the `access_token` cookie.
#[derive(Debug)]
pub struct SessionResponse {
    pub user_id: u128,
    pub token: Vec<u8>,
}

/// The state after a successful registration: one new unaffiliated user
/// record, whose stored hash matches the registered password.
pub open spec fn register_post(
    pre: Store,
    post: Store,
    uid: u128,
    name: Seq<u8>,
    email: Seq<u8>,
    password: Seq<u8>,
    now: u64,
) -> bool {
    &&& post.teams@ == pre.teams@
    &&& post.users@ == pre.users@.push(post.users@.last())
    &&& post.users@.last().id == uid
    &&& post.users@.last().username@ == name
    &&& post.users@.last().email@ == email
    &&& post.users@.last().created_at == now
    &&& post.users@.last().team is None
    &&& !post.users@.last().is_leader
    &&& post.users@.last().permissions is None
    &&& post.users@.last().password_hash is Some
    &&& password_matches(password, post.users@.last().password_hash->Some_0@)
}

/// The state after a first external login: one new unaffiliated user
/// record with no local password, named after its email.
pub open spec fn external_post(pre: Store, post: Store, uid: u128, email: Seq<u8>, now: u64) -> bool {
    &&& post.teams@ == pre.teams@
    &&& post.users@ == pre.users@.push(post.users@.last())
    &&& post.users@.last().id == uid
    &&& post.users@.last().username@ == email
    &&& post.users@.last().email@ == email
    &&& post.users@.last().created_at == now
    &&& post.users@.last().team is None
    &&& !post.users@.last().is_leader
    &&& post.users@.last().permissions is None
    &&& post.users@.last().password_hash is None
}

/// Some record carries this email and a local hash matching this
/// password. Exactly these logins are owed a session.
pub open spec fn login_ok(users: Seq<User>, email: Seq<u8>, password: Seq<u8>) -> bool {
    exists|i: int|
        0 <= i < users.len() && (#[trigger] users[i]).email@ == email && users[i].password_hash
            is Some && password_matches(password, users[i].password_hash->Some_0@)
}

impl Store {
    proof fn lemma_email_idx_unique(self, i: int, k: int, email: Seq<u8>)
        requires
            self.wf(),
            0 <= i < self.users@.len(),
            0 <= k < self.users@.len(),
            self.users@[i].email@ == email,
            self.users@[k].email@ == email,
        ensures
            i == k,
    {
        if i < k {
            assert(self.users@[i].email@ != self.users@[k].email@);
        } else if k < i {
            assert(self.users@[k].email@ != self.users@[i].email@);
        }
    }

    proof fn lemma_push_user_wf(self, pre: Store, u: User)
        requires
            pre.wf(),
            !user_exists(pre.users@, u.id),
            !email_taken(pre.users@, u.email@),
            u.team is None,
            !u.is_leader,
            self.users@ == pre.users@.push(u),
            self.teams@ == pre.teams@,
        ensures
            self.wf(),
    {
        let users = self.users@;
        let pusers = pre.users@;
        let n = pusers.len() as int;
        assert forall|a: int, b: int| 0 <= a < b < users.len() implies (#[trigger] users[a]).id != (
        #[trigger] users[b]).id && users[a].email@ != users[b].email@ by {
            if b == n {
                assert(!user_at(pusers, a, u.id));
                assert(!(0 <= a < pusers.len() && pusers[a].email@ == u.email@));
            }
        }
        assert forall|a: int| 0 <= a < self.teams@.len() implies crate::store::has_leader(
            users,
            (#[trigger] self.teams@[a]).id,
        ) by {
            assert(crate::store::has_leader(pusers, self.teams@[a].id));
            let k = choose|k: int|
                0 <= k < pusers.len() && crate::store::leads(
                    #[trigger] pusers[k],
                    self.teams@[a].id,
                );
            assert(crate::store::leads(users[k], self.teams@[a].id));
        }
    }

    /// Registers a local account: the email must match the registration
    /// grammar (checked before anything is written), must not already be
    /// in use, and the password is stored only as its hash. On success a
    /// fresh record is persisted and a session is issued for it.
    pub fn register(
        &mut self,
        key: &SigningKey,
        request: &RegisterModel,
        now: u64,
        ttl: u64,
    ) -> (r: Result<SessionResponse, RegisterError>)
        requires
            old(self).wf(),
            now + ttl <= u64::MAX,
        ensures
            final(self).wf(),
            match r {
                Ok(resp) => {
                    &&& valid_email(request.email@)
                    &&& !email_taken(old(self).users@, request.email@)
                    &&& !user_exists(old(self).users@, resp.user_id)
                    &&& register_post(
                        *old(self),
                        *final(self),
                        resp.user_id,
                        request.name@,
                        request.email@,
                        request.password@,
                        now,
                    )
                    &&& resp.token@ == issue_spec(
                        key@,
                        resp.user_id,
                        request.email@,
                        now,
                        (now + ttl) as u64,
                    )
                },
                Err(e) => *final(self) == *old(self) && (match e {
                    RegisterError::InvalidEmailAddress => !valid_email(request.email@),
                    RegisterError::HashingFailure => valid_email(request.email@),
                    RegisterError::DuplicateAccount => valid_email(request.email@) && email_taken(
                        old(self).users@,
                        request.email@,
                    ),
                    RegisterError::Internal => valid_email(request.email@) && !email_taken(
                        old(self).users@,
                        request.email@,
                    ),
                }),
            },
    {
        if !is_valid_email(request.email.as_slice()) {
            return Err(RegisterError::InvalidEmailAddress);
        }
        let h = match hash_password(&request.password) {
            None => {
                return Err(RegisterError::HashingFailure);
            },
            Some(h) => h,
        };
        if self.find_user_by_email(&request.email).is_some() {
            return Err(RegisterError::DuplicateAccount);
        }
        let uid = fresh_id();
        if self.find_user(uid).is_some() {
            return Err(RegisterError::Internal);
        }
        let ghost pre = *self;
        let user = User {
            id: uid,
            username: copy_bytes(&request.name),
            email: copy_bytes(&request.email),
            password_hash: Some(h),
            created_at: now,
            team: None,
            is_leader: false,
            permissions: None,
        };
        self.users.push(user);
        proof {
            self.lemma_push_user_wf(pre, self.users@.last());
        }
        let token = issue(key, uid, &request.email, now, ttl);
        Ok(SessionResponse { user_id: uid, token })
    }

    /// Logs a local account in. One error covers both an unknown email
    /// and a wrong or absent password, so responses cannot be used to
    /// enumerate accounts; a session is owed exactly when a record
    /// carries this email and a matching local hash.
    pub fn login(&self, key: &SigningKey, email: &Vec<u8>, password: &Vec<u8>, now: u64, ttl: u64) -> (r:
        Result<SessionResponse, LoginError>)
        requires
            self.wf(),
            now + ttl <= u64::MAX,
        ensures
            match r {
                Ok(resp) => login_ok(self.users@, email@, password@) && exists|i: int|
                    0 <= i < self.users@.len() && (#[trigger] self.users@[i]).email@ == email@
                        && resp.user_id == self.users@[i].id && resp.token@ == issue_spec(
                        key@,
                        self.users@[i].id,
                        email@,
                        now,
                        (now + ttl) as u64,
                    ),
                Err(LoginError::InvalidCredentials) => !login_ok(self.users@, email@, password@),
            },
    {
        let i = match self.find_user_by_email(email) {
            None => {
                return Err(LoginError::InvalidCredentials);
            },
            Some(i) => i,
        };
        proof {
            assert forall|k: int|
                0 <= k < self.users@.len() && (#[trigger] self.users@[k]).email@
                    == email@ implies k == i by {
                self.lemma_email_idx_unique(i as int, k, email@);
            }
        }
        let matches = match &self.users[i].password_hash {
            None => false,
            Some(h) => verify_password(password, h),
        };
        if !matches {
            return Err(LoginError::InvalidCredentials);
        }
        let uid = self.users[i].id;
        let token = issue(key, uid, email, now, ttl);
        Ok(SessionResponse { user_id: uid, token })
    }

    /// Resolves a verified external identity to a local record, looking
    /// it up by email and creating a passwordless record on a first
    /// login, then issues a session either way. `Internal` only when the
    /// freshly drawn id for a new record collided.
    pub fn resolve_external(
        &mut self,
        key: &SigningKey,
        identity: &ExternalIdentity,
        now: u64,
        ttl: u64,
    ) -> (r: Result<SessionResponse, ExternalLoginError>)
        requires
            old(self).wf(),
            now + ttl <= u64::MAX,
        ensures
            final(self).wf(),
            match r {
                Ok(resp) => {
                    &&& (email_taken(old(self).users@, identity.email@) ==> *final(self) == *old(
                        self,
                    ) && exists|i: int|
                        0 <= i < old(self).users@.len() && (#[trigger] old(self).users@[i]).email@
                            == identity.email@ && resp.user_id == old(self).users@[i].id)
                    &&& (!email_taken(old(self).users@, identity.email@) ==> !user_exists(
                        old(self).users@,
                        resp.user_id,
                    ) && external_post(*old(self), *final(self), resp.user_id, identity.email@, now))
                    &&& resp.token@ == issue_spec(
                        key@,
                        resp.user_id,
                        identity.email@,
                        now,
                        (now + ttl) as u64,
                    )
                },
                Err(ExternalLoginError::Internal) => !email_taken(old(self).users@, identity.email@)
                    && *final(self) == *old(self),
            },
    {
        match self.find_user_by_email(&identity.email) {
            Some(i) => {
                let uid = self.users[i].id;
                let token = issue(key, uid, &identity.email, now, ttl);
                Ok(SessionResponse { user_id: uid, token })
            },
            None => {
                let uid = fresh_id();
                if self.find_user(uid).is_some() {
                    return Err(ExternalLoginError::Internal);
                }
                let ghost pre = *self;
                let user = User {
                    id: uid,
                    username: copy_bytes(&identity.email),
                    email: copy_bytes(&identity.email),
                    password_hash: None,
                    created_at: now,
                    team: None,
                    is_leader: false,
                    permissions: None,
                };
                self.users.push(user);
                proof {
                    self.lemma_push_user_wf(pre, self.users@.last());
                }
                let token = issue(key, uid, &identity.email, now, ttl);
                Ok(SessionResponse { user_id: uid, token })
            },
        }
    }
}

} // verus!
