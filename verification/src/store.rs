use vstd::prelude::*;

verus! {

/// A persisted identity record. `team` is `None` for an unaffiliated
/// user; `is_leader` is meaningful only while `team` is set and is kept
/// `false` otherwise.
pub struct User {
    pub id: u128,
    pub username: Vec<u8>,
    pub email: Vec<u8>,
    /// Self-describing password-hash string; `None` for accounts created
    /// through an external login.
    pub password_hash: Option<String>,
    pub created_at: u64,
    pub team: Option<u128>,
    pub is_leader: bool,
    /// Orthogonal role marker; never read by this subsystem.
    pub permissions: Option<Vec<u8>>,
}

/// A persisted group record. A team exists only while it has at least
/// one member.
pub struct Team {
    pub id: u128,
    pub name: Vec<u8>,
    pub created_at: u64,
}

/// The user and team records, modelling the rows this subsystem reads
/// and writes through the persistence collaborator. All team-mutating
/// operations on it are serialized by the caller, so each operation sees
/// and leaves a consistent state.
pub struct Store {
    pub users: Vec<User>,
    pub teams: Vec<Team>,
}

pub open spec fn user_at(users: Seq<User>, i: int, uid: u128) -> bool {
    0 <= i < users.len() && users[i].id == uid
}

pub open spec fn user_exists(users: Seq<User>, uid: u128) -> bool {
    exists|i: int| user_at(users, i, uid)
}

pub open spec fn email_taken(users: Seq<User>, email: Seq<u8>) -> bool {
    exists|i: int| 0 <= i < users.len() && (#[trigger] users[i]).email@ == email
}

pub open spec fn team_at(teams: Seq<Team>, j: int, tid: u128) -> bool {
    0 <= j < teams.len() && teams[j].id == tid
}

pub open spec fn team_exists(teams: Seq<Team>, tid: u128) -> bool {
    exists|j: int| team_at(teams, j, tid)
}

pub open spec fn team_name_taken(teams: Seq<Team>, name: Seq<u8>) -> bool {
    exists|j: int| 0 <= j < teams.len() && (#[trigger] teams[j]).name@ == name
}

/// `u` is a member of the team with id `tid`.
pub open spec fn member_of(u: User, tid: u128) -> bool {
    u.team == Some(tid)
}

/// `u` is the leader of the team with id `tid`.
pub open spec fn leads(u: User, tid: u128) -> bool {
    u.team == Some(tid) && u.is_leader
}

/// Some user leads the team with id `tid`.
pub open spec fn has_leader(users: Seq<User>, tid: u128) -> bool {
    exists|k: int| 0 <= k < users.len() && leads(#[trigger] users[k], tid)
}

/// Every existing team has a leader (hence at least one member).
pub open spec fn each_team_led(users: Seq<User>, teams: Seq<Team>) -> bool {
    forall|j: int| 0 <= j < teams.len() ==> has_leader(users, (#[trigger] teams[j]).id)
}

impl Store {
    /// Record-level consistency: unique user ids and emails, unique team
    /// ids and names, membership references resolve, the leader flag is
    /// only set together with a team, and every existing team has exactly
    /// one leader (hence at least one member).
    pub open spec fn wf(self) -> bool {
        &&& forall|i: int, j: int|
            0 <= i < j < self.users@.len() ==> (#[trigger] self.users@[i]).id != (
            #[trigger] self.users@[j]).id
        &&& forall|i: int, j: int|
            0 <= i < j < self.users@.len() ==> (#[trigger] self.users@[i]).email@ != (
            #[trigger] self.users@[j]).email@
        &&& forall|i: int, j: int|
            0 <= i < j < self.teams@.len() ==> (#[trigger] self.teams@[i]).id != (
            #[trigger] self.teams@[j]).id
        &&& forall|i: int, j: int|
            0 <= i < j < self.teams@.len() ==> (#[trigger] self.teams@[i]).name@ != (
            #[trigger] self.teams@[j]).name@
        &&& forall|i: int|
            0 <= i < self.users@.len() && (#[trigger] self.users@[i]).team is Some ==> team_exists(
                self.teams@,
                self.users@[i].team->Some_0,
            )
        &&& forall|i: int|
            0 <= i < self.users@.len() && (#[trigger] self.users@[i]).team is None
                ==> !self.users@[i].is_leader
        &&& each_team_led(self.users@, self.teams@)
        &&& forall|i: int, k: int|
            0 <= i < self.users@.len() && 0 <= k < self.users@.len() && i != k ==> !((
            #[trigger] self.users@[i]).is_leader && (#[trigger] self.users@[k]).is_leader
                && self.users@[i].team == self.users@[k].team && self.users@[i].team is Some)
    }

    pub fn new() -> (s: Store)
        ensures
            s.wf(),
            s.users@.len() == 0,
            s.teams@.len() == 0,
    {
        Store { users: Vec::new(), teams: Vec::new() }
    }

    /// Linear search for a user record by id; `Some(i)` is the first
    /// (with `wf`, the only) index holding it.
    pub fn find_user(&self, uid: u128) -> (r: Option<usize>)
        ensures
            match r {
                Some(i) => user_at(self.users@, i as int, uid),
                None => !user_exists(self.users@, uid),
            },
    {
        let n = self.users.len();
        let mut i: usize = 0;
        while i < n
            invariant
                n == self.users@.len(),
                i <= n,
                forall|k: int| 0 <= k < i ==> (#[trigger] self.users@[k]).id != uid,
            decreases n - i,
        {
            if self.users[i].id == uid {
                return Some(i);
            }
            i = i + 1;
        }
        assert forall|k: int| !user_at(self.users@, k, uid) by {
            if 0 <= k < self.users@.len() {
                assert(self.users@[k].id != uid);
            }
        }
        None
    }

    /// Linear search for a user record by email.
    pub fn find_user_by_email(&self, email: &Vec<u8>) -> (r: Option<usize>)
        ensures
            match r {
                Some(i) => 0 <= i < self.users@.len() && self.users@[i as int].email@ == email@,
                None => !email_taken(self.users@, email@),
            },
    {
        let n = self.users.len();
        let mut i: usize = 0;
        while i < n
            invariant
                n == self.users@.len(),
                i <= n,
                forall|k: int| 0 <= k < i ==> (#[trigger] self.users@[k]).email@ != email@,
            decreases n - i,
        {
            if eq_bytes(&self.users[i].email, email) {
                return Some(i);
            }
            i = i + 1;
        }
        None
    }

    /// Linear search for a team record by id.
    pub fn find_team(&self, tid: u128) -> (r: Option<usize>)
        ensures
            match r {
                Some(j) => team_at(self.teams@, j as int, tid),
                None => !team_exists(self.teams@, tid),
            },
    {
        let n = self.teams.len();
        let mut j: usize = 0;
        while j < n
            invariant
                n == self.teams@.len(),
                j <= n,
                forall|k: int| 0 <= k < j ==> (#[trigger] self.teams@[k]).id != tid,
            decreases n - j,
        {
            if self.teams[j].id == tid {
                return Some(j);
            }
            j = j + 1;
        }
        assert forall|k: int| !team_at(self.teams@, k, tid) by {
            if 0 <= k < self.teams@.len() {
                assert(self.teams@[k].id != tid);
            }
        }
        None
    }

    /// Linear search for a team record by (exact, case-sensitive) name.
    pub fn find_team_by_name(&self, name: &Vec<u8>) -> (r: Option<usize>)
        ensures
            match r {
                Some(j) => 0 <= j < self.teams@.len() && self.teams@[j as int].name@ == name@,
                None => !team_name_taken(self.teams@, name@),
            },
    {
        let n = self.teams.len();
        let mut j: usize = 0;
        while j < n
            invariant
                n == self.teams@.len(),
                j <= n,
                forall|k: int| 0 <= k < j ==> (#[trigger] self.teams@[k]).name@ != name@,
            decreases n - j,
        {
            if eq_bytes(&self.teams[j].name, name) {
                return Some(j);
            }
            j = j + 1;
        }
        None
    }
}

/// A fresh copy of a byte string.
pub fn copy_bytes(a: &Vec<u8>) -> (r: Vec<u8>)
    ensures
        r@ == a@,
{
    let n = a.len();
    let mut r: Vec<u8> = Vec::new();
    let mut i: usize = 0;
    while i < n
        invariant
            n == a@.len(),
            i <= n,
            r@ == a@.subrange(0, i as int),
        decreases n - i,
    {
        r.push(a[i]);
        assert(r@ =~= a@.subrange(0, i + 1));
        i = i + 1;
    }
    assert(r@ =~= a@);
    r
}

/// Byte-string equality.
pub fn eq_bytes(a: &Vec<u8>, b: &Vec<u8>) -> (r: bool)
    ensures
        r == (a@ == b@),
{
    if a.len() != b.len() {
        return false;
    }
    let n = a.len();
    let mut i: usize = 0;
    while i < n
        invariant
            n == a@.len() == b@.len(),
            i <= n,
            forall|k: int| 0 <= k < i ==> a@[k] == b@[k],
        decreases n - i,
    {
        if a[i] != b[i] {
            return false;
        }
        i = i + 1;
    }
    assert(a@ =~= b@);
    true
}

} // verus!
