use vstd::pervasive::unreached;
use vstd::prelude::*;

use crate::errors::TeamError;
use crate::ids::fresh_id;
use crate::store::{
    Store, Team, User, has_leader, leads, member_of, team_at, team_exists, team_name_taken,
    user_at, user_exists,
};

verus! {

/// `u` with its membership replaced.
pub open spec fn with_team(u: User, team: Option<u128>, is_leader: bool) -> User {
    User {
        id: u.id,
        username: u.username,
        email: u.email,
        password_hash: u.password_hash,
        created_at: u.created_at,
        team,
        is_leader,
        permissions: u.permissions,
    }
}

/// The user with id `uid` exists and is on some team.
pub open spec fn user_in_team(users: Seq<User>, uid: u128) -> bool {
    exists|i: int| #[trigger] user_at(users, i, uid) && users[i].team is Some
}

/// `u` with only its leader flag replaced.
pub open spec fn set_leader(u: User, is_leader: bool) -> User {
    with_team(u, u.team, is_leader)
}

/// The record with id `uid`; meaningful once `user_exists` holds (with
/// `Store::wf`, ids are unique, so the record is determined).
pub open spec fn user_rec(users: Seq<User>, uid: u128) -> User {
    users[choose|i: int| user_at(users, i, uid)]
}

/// No user besides the one at index `i` is a member of `tid`.
pub open spec fn sole_member(users: Seq<User>, i: int, tid: u128) -> bool {
    forall|k: int| 0 <= k < users.len() && k != i ==> !member_of(#[trigger] users[k], tid)
}

/// `k` is the earliest member of `tid` other than the user at index `i`.
/// The departure rules promote this member, so leadership reassignment
/// is deterministic: the earliest-created remaining member inherits it.
pub open spec fn first_other_member(users: Seq<User>, i: int, tid: u128, k: int) -> bool {
    &&& 0 <= k < users.len()
    &&& k != i
    &&& member_of(users[k], tid)
    &&& forall|m: int| 0 <= m < k && m != i ==> !member_of(#[trigger] users[m], tid)
}

/// The state after the user at index `i` departs from its team `tid`
/// (by leaving or by being kicked): the team record is deleted when that
/// user was the sole member; leadership passes to the earliest remaining
/// member when the leader departs from a larger team; a team with
/// members but no leader is never observable.
pub open spec fn depart_post(pre: Store, post: Store, i: int, tid: u128) -> bool {
    let cleared = with_team(pre.users@[i], None, false);
    if sole_member(pre.users@, i, tid) {
        &&& post.users@ == pre.users@.update(i, cleared)
        &&& exists|j: int| #[trigger] team_at(pre.teams@, j, tid) && post.teams@ == pre.teams@.remove(j)
    } else if pre.users@[i].is_leader {
        &&& post.teams@ == pre.teams@
        &&& exists|k: int| #[trigger] first_other_member(pre.users@, i, tid, k) && post.users@
            == pre.users@.update(i, cleared).update(k, with_team(pre.users@[k], Some(tid), true))
    } else {
        &&& post.teams@ == pre.teams@
        &&& post.users@ == pre.users@.update(i, cleared)
    }
}

/// Which failure `create_team` owes for this state, if any, when the
/// fresh team id drawn is `tid`. The checks happen in this order.
pub open spec fn create_team_err(s: Store, uid: u128, name: Seq<u8>, tid: u128) -> Option<
    TeamError,
> {
    if !user_exists(s.users@, uid) {
        Some(TeamError::UserNotFound)
    } else if user_in_team(s.users@, uid) {
        Some(TeamError::AlreadyInTeam)
    } else if team_name_taken(s.teams@, name) {
        Some(TeamError::DuplicateTeamName)
    } else if team_exists(s.teams@, tid) {
        Some(TeamError::Internal)
    } else {
        None
    }
}

/// Which failure `leave_team` owes for this state, if any.
pub open spec fn leave_team_err(s: Store, uid: u128) -> Option<TeamError> {
    if !user_exists(s.users@, uid) {
        Some(TeamError::UserNotFound)
    } else if !user_in_team(s.users@, uid) {
        Some(TeamError::NotInTeam)
    } else {
        None
    }
}

/// Which failure `kick_member` owes for this state, if any. The checks
/// happen in this order.
pub open spec fn kick_err(s: Store, actor: u128, target: u128) -> Option<TeamError> {
    if !user_exists(s.users@, actor) {
        Some(TeamError::UserNotFound)
    } else if !user_rec(s.users@, actor).is_leader {
        Some(TeamError::Forbidden)
    } else if !user_exists(s.users@, target) {
        Some(TeamError::UserNotFound)
    } else if !user_in_team(s.users@, target) {
        Some(TeamError::NotInTeam)
    } else if user_rec(s.users@, target).team != user_rec(s.users@, actor).team {
        Some(TeamError::Forbidden)
    } else {
        None
    }
}

/// Which failure `transfer_leadership` owes for this state, if any. The
/// checks happen in this order.
pub open spec fn transfer_err(s: Store, actor: u128, new_leader: u128) -> Option<TeamError> {
    if !user_exists(s.users@, actor) {
        Some(TeamError::UserNotFound)
    } else if !user_rec(s.users@, actor).is_leader {
        Some(TeamError::Forbidden)
    } else if !user_exists(s.users@, new_leader) {
        Some(TeamError::UserNotFound)
    } else if user_rec(s.users@, new_leader).team != user_rec(s.users@, actor).team {
        Some(TeamError::NotInTeam)
    } else {
        None
    }
}

/// The user table after leadership passes from the record at index `ai`
/// to the one at index `ni`.
pub open spec fn transfer_users(users: Seq<User>, ai: int, ni: int) -> Seq<User> {
    let mid = users.update(ai, set_leader(users[ai], false));
    mid.update(ni, set_leader(mid[ni], true))
}

/// The state after a successful `create_team`: the new team record is
/// appended and the founding user becomes its sole member and leader.
/// `i` is the founder's index in the user table.
pub open spec fn create_team_post(
    pre: Store,
    post: Store,
    i: int,
    uid: u128,
    name: Seq<u8>,
    tid: u128,
    now: u64,
) -> bool {
    &&& user_at(pre.users@, i, uid)
    &&& pre.users@[i].team is None
    &&& post.users@ == pre.users@.update(i, with_team(pre.users@[i], Some(tid), true))
    &&& post.teams@.len() == pre.teams@.len() + 1
    &&& post.teams@.subrange(0, pre.teams@.len() as int) == pre.teams@
    &&& post.teams@.last().id == tid
    &&& post.teams@.last().name@ == name
    &&& post.teams@.last().created_at == now
}

/// Once a team of this name exists, a second `create_team` with the
/// same name by any other unaffiliated user is owed exactly
/// `DuplicateTeamName`, whatever fresh id it draws: of two concurrent
/// (serialized) creations, at most one can succeed.
pub proof fn lemma_second_create_rejected(
    pre: Store,
    mid: Store,
    founder: u128,
    i: int,
    name: Seq<u8>,
    tid: u128,
    now: u64,
    other: u128,
    tid2: u128,
)
    requires
        create_team_post(pre, mid, i, founder, name, tid, now),
        user_exists(mid.users@, other),
        !user_in_team(mid.users@, other),
    ensures
        create_team_err(mid, other, name, tid2) == Some(TeamError::DuplicateTeamName),
{
    let n = mid.teams@.len() - 1;
    assert(0 <= n < mid.teams@.len() && mid.teams@[n].name@ == name);
    assert(team_name_taken(mid.teams@, name));
}

/// When the sole member of a team departs, the team record itself is
/// gone: a later `join_team` with its id is owed `TeamNotFound`.
pub proof fn lemma_sole_departure_deletes_team(pre: Store, post: Store, i: int, tid: u128)
    requires
        pre.wf(),
        0 <= i < pre.users@.len(),
        pre.users@[i].team == Some(tid),
        sole_member(pre.users@, i, tid),
        depart_post(pre, post, i, tid),
    ensures
        !team_exists(post.teams@, tid),
{
    let j = choose|j: int|
        #[trigger] team_at(pre.teams@, j, tid) && post.teams@ == pre.teams@.remove(j);
    assert(team_at(pre.teams@, j, tid) && post.teams@ == pre.teams@.remove(j));
    assert forall|a: int| !team_at(post.teams@, a, tid) by {
        if 0 <= a < post.teams@.len() {
            let a_old: int = if a < j {
                a
            } else {
                a + 1
            };
            assert(post.teams@[a] == pre.teams@[a_old]);
            if pre.teams@[a_old].id == tid {
                assert(pre.teams@[a_old].id != pre.teams@[j].id);
            }
        }
    }
}

/// When the leader departs from a team that keeps other members,
/// leadership passes deterministically to the earliest remaining
/// member, and that member is afterwards the team's only leader.
pub proof fn lemma_leadership_reassigned(pre: Store, post: Store, i: int, tid: u128, k: int)
    requires
        pre.wf(),
        post.wf(),
        0 <= i < pre.users@.len(),
        pre.users@[i].team == Some(tid),
        pre.users@[i].is_leader,
        !sole_member(pre.users@, i, tid),
        first_other_member(pre.users@, i, tid, k),
        depart_post(pre, post, i, tid),
    ensures
        0 <= k < post.users@.len(),
        leads(post.users@[k], tid),
        forall|m: int|
            0 <= m < post.users@.len() && m != k ==> !leads(#[trigger] post.users@[m], tid),
{
    let k2 = choose|k2: int|
        #[trigger] first_other_member(pre.users@, i, tid, k2) && post.users@ == pre.users@.update(
            i,
            with_team(pre.users@[i], None, false),
        ).update(k2, with_team(pre.users@[k2], Some(tid), true));
    assert(first_other_member(pre.users@, i, tid, k2));
    if k2 < k {
        assert(member_of(pre.users@[k2], tid));
        assert(false);
    } else if k < k2 {
        assert(member_of(pre.users@[k], tid));
        assert(false);
    }
    assert(leads(post.users@[k], tid));
    assert forall|m: int|
        0 <= m < post.users@.len() && m != k implies !leads(#[trigger] post.users@[m], tid) by {
        if leads(post.users@[m], tid) {
            assert(post.users@[m].is_leader && post.users@[k].is_leader && post.users@[m].team
                == post.users@[k].team && post.users@[m].team is Some);
        }
    }
}

impl Store {
    proof fn lemma_user_idx_unique(self, i: int, k: int, uid: u128)
        requires
            self.wf(),
            user_at(self.users@, i, uid),
            user_at(self.users@, k, uid),
        ensures
            i == k,
    {
        if i < k {
            assert(self.users@[i].id != self.users@[k].id);
        } else if k < i {
            assert(self.users@[k].id != self.users@[i].id);
        }
    }

    /// Creates a team named `name` with the already-drawn id `tid`,
    /// founded and led by the user with id `uid`. The record changes of
    /// a success are a single logical unit: on any failure the store is
    /// untouched.
    pub fn create_team_with_id(
        &mut self,
        uid: u128,
        name: Vec<u8>,
        tid: u128,
        now: u64,
    ) -> (r: Result<(), TeamError>)
        requires
            old(self).wf(),
        ensures
            final(self).wf(),
            match r {
                Ok(()) => create_team_err(*old(self), uid, name@, tid) is None && exists|i: int|
                    create_team_post(*old(self), *final(self), i, uid, name@, tid, now),
                Err(e) => create_team_err(*old(self), uid, name@, tid) == Some(e) && *final(self)
                    == *old(self),
            },
    {
        let i = match self.find_user(uid) {
            None => {
                return Err(TeamError::UserNotFound);
            },
            Some(i) => i,
        };
        if self.users[i].team.is_some() {
            assert(user_in_team(self.users@, uid));
            return Err(TeamError::AlreadyInTeam);
        }
        proof {
            assert forall|k: int| !(#[trigger] user_at(self.users@, k, uid) && self.users@[k].team
                is Some) by {
                if user_at(self.users@, k, uid) {
                    self.lemma_user_idx_unique(i as int, k, uid);
                }
            }
        }
        if self.find_team_by_name(&name).is_some() {
            return Err(TeamError::DuplicateTeamName);
        }
        if self.find_team(tid).is_some() {
            return Err(TeamError::Internal);
        }
        let ghost pre = *self;
        self.users[i].team = Some(tid);
        self.users[i].is_leader = true;
        self.teams.push(Team { id: tid, name, created_at: now });
        proof {
            let iu = i as int;
            assert(self.users@ =~= pre.users@.update(
                iu,
                with_team(pre.users@[iu], Some(tid), true),
            ));
            assert(self.teams@.subrange(0, pre.teams@.len() as int) =~= pre.teams@);
            assert(create_team_post(pre, *self, iu, uid, name@, tid, now));
            self.lemma_create_team_wf(pre, iu, uid, tid);
        }
        Ok(())
    }

    proof fn lemma_create_team_wf(self, pre: Store, i: int, uid: u128, tid: u128)
        requires
            pre.wf(),
            user_at(pre.users@, i, uid),
            pre.users@[i].team is None,
            !team_exists(pre.teams@, tid),
            !team_name_taken(pre.teams@, self.teams@.last().name@),
            self.users@ == pre.users@.update(i, with_team(pre.users@[i], Some(tid), true)),
            self.teams@.len() == pre.teams@.len() + 1,
            self.teams@.subrange(0, pre.teams@.len() as int) == pre.teams@,
            self.teams@.last().id == tid,
        ensures
            self.wf(),
    {
        let users = self.users@;
        let pusers = pre.users@;
        let teams = self.teams@;
        let pteams = pre.teams@;
        let n = pteams.len() as int;
        assert(forall|j: int| 0 <= j < n ==> teams[j] == pteams.subrange(0, n)[j]);
        // Team ids and names stay distinct: the appended record carries a
        // fresh id and an unused name.
        assert forall|a: int, b: int| 0 <= a < b < teams.len() implies (#[trigger] teams[a]).id != (
        #[trigger] teams[b]).id by {
            if b == n {
                assert(!team_at(pteams, a, tid));
            }
        }
        assert forall|a: int, b: int| 0 <= a < b < teams.len() implies (
        #[trigger] teams[a]).name@ != (#[trigger] teams[b]).name@ by {
            if b == n {
                assert(!(0 <= a < pteams.len() && pteams[a].name@ == teams[n].name@));
            }
        }
        // Memberships still resolve: old references point into the
        // preserved prefix, the founder's into the appended record.
        assert forall|k: int| 0 <= k < users.len() && (#[trigger] users[k]).team
            is Some implies team_exists(teams, users[k].team->Some_0) by {
            if k != i {
                assert(users[k] == pusers[k]);
                let t = users[k].team->Some_0;
                let j = choose|j: int| team_at(pteams, j, t);
                assert(team_at(teams, j, t));
            } else {
                assert(team_at(teams, n, tid));
            }
        }
        // Exactly one leader per team.
        assert forall|j: int| 0 <= j < self.teams@.len() implies has_leader(
            self.users@,
            (#[trigger] self.teams@[j]).id,
        ) by {
            if j < n {
                assert(has_leader(pusers, pteams[j].id));
                let k = choose|k: int|
                    0 <= k < pusers.len() && leads(#[trigger] pusers[k], pteams[j].id);
                assert(k != i);
                assert(leads(users[k], teams[j].id));
            } else {
                assert(leads(users[i], tid));
            }
        }
        assert forall|a: int, b: int|
            0 <= a < users.len() && 0 <= b < users.len() && a != b implies !((
        #[trigger] users[a]).is_leader && (#[trigger] users[b]).is_leader && users[a].team
            == users[b].team && users[a].team is Some) by {
            if a != i && b != i {
                assert(users[a] == pusers[a]);
                assert(users[b] == pusers[b]);
            } else {
                let o = if a == i {
                    b
                } else {
                    a
                };
                if users[o].team == Some(tid) {
                    assert(pusers[o].team is Some);
                    assert(team_exists(pteams, tid));
                }
            }
        }
    }

    /// Creates a team named `name`, founded and led by the user with id
    /// `uid`, drawing a fresh random team id. Whatever id was drawn, a
    /// failure leaves the store untouched and is owed exactly as stated;
    /// an `Internal` failure means the drawn id collided with an
    /// existing team.
    pub fn create_team(&mut self, uid: u128, name: Vec<u8>, now: u64) -> (r: Result<
        u128,
        TeamError,
    >)
        requires
            old(self).wf(),
        ensures
            final(self).wf(),
            match r {
                Ok(tid) => create_team_err(*old(self), uid, name@, tid) is None && exists|i: int|
                    create_team_post(*old(self), *final(self), i, uid, name@, tid, now),
                Err(e) => *final(self) == *old(self) && (match e {
                    TeamError::UserNotFound => !user_exists(old(self).users@, uid),
                    TeamError::AlreadyInTeam => user_in_team(old(self).users@, uid),
                    TeamError::DuplicateTeamName => user_exists(old(self).users@, uid)
                        && !user_in_team(old(self).users@, uid) && team_name_taken(
                        old(self).teams@,
                        name@,
                    ),
                    TeamError::Internal => user_exists(old(self).users@, uid) && !user_in_team(
                        old(self).users@,
                        uid,
                    ) && !team_name_taken(old(self).teams@, name@),
                    _ => false,
                }),
            },
    {
        let tid = fresh_id();
        match self.create_team_with_id(uid, name, tid, now) {
            Ok(()) => Ok(tid),
            Err(e) => Err(e),
        }
    }

    /// Adds the user with id `uid` to the existing team `tid`, as an
    /// ordinary (non-leader) member.
    pub fn join_team(&mut self, uid: u128, tid: u128) -> (r: Result<(), TeamError>)
        requires
            old(self).wf(),
        ensures
            final(self).wf(),
            match r {
                Ok(()) => {
                    &&& user_exists(old(self).users@, uid)
                    &&& !user_in_team(old(self).users@, uid)
                    &&& team_exists(old(self).teams@, tid)
                    &&& final(self).teams@ == old(self).teams@
                    &&& exists|i: int|
                        user_at(old(self).users@, i, uid) && final(self).users@ == old(
                            self,
                        ).users@.update(i, with_team(old(self).users@[i], Some(tid), false))
                },
                Err(e) => *final(self) == *old(self) && (match e {
                    TeamError::UserNotFound => !user_exists(old(self).users@, uid),
                    TeamError::AlreadyInTeam => user_in_team(old(self).users@, uid),
                    TeamError::TeamNotFound => user_exists(old(self).users@, uid) && !user_in_team(
                        old(self).users@,
                        uid,
                    ) && !team_exists(old(self).teams@, tid),
                    _ => false,
                }),
            },
    {
        let i = match self.find_user(uid) {
            None => {
                return Err(TeamError::UserNotFound);
            },
            Some(i) => i,
        };
        if self.users[i].team.is_some() {
            assert(user_in_team(self.users@, uid));
            return Err(TeamError::AlreadyInTeam);
        }
        proof {
            assert forall|k: int| !(#[trigger] user_at(self.users@, k, uid) && self.users@[k].team
                is Some) by {
                if user_at(self.users@, k, uid) {
                    self.lemma_user_idx_unique(i as int, k, uid);
                }
            }
        }
        if self.find_team(tid).is_none() {
            return Err(TeamError::TeamNotFound);
        }
        let ghost pre = *self;
        self.users[i].team = Some(tid);
        self.users[i].is_leader = false;
        proof {
            let iu = i as int;
            assert(self.users@ =~= pre.users@.update(
                iu,
                with_team(pre.users@[iu], Some(tid), false),
            ));
            self.lemma_join_team_wf(pre, iu, uid, tid);
        }
        Ok(())
    }

    /// Linear search for the earliest member of `tid` other than the
    /// user at index `i`; `None` means that user is the sole member.
    fn find_other_member(&self, i: usize, tid: u128) -> (r: Option<usize>)
        ensures
            match r {
                Some(k) => first_other_member(self.users@, i as int, tid, k as int),
                None => sole_member(self.users@, i as int, tid),
            },
    {
        let n = self.users.len();
        let mut k: usize = 0;
        while k < n
            invariant
                n == self.users@.len(),
                k <= n,
                forall|m: int|
                    0 <= m < k && m != i ==> !member_of(#[trigger] self.users@[m], tid),
            decreases n - k,
        {
            if k != i && self.users[k].team == Some(tid) {
                return Some(k);
            }
            k = k + 1;
        }
        None
    }

    /// Removes the user at index `i` from its team `tid`, deleting the
    /// team when that user was its sole member and otherwise handing
    /// leadership to the earliest remaining member if the departing user
    /// led the team.
    fn depart(&mut self, i: usize, tid: u128)
        requires
            old(self).wf(),
            i < old(self).users@.len(),
            old(self).users@[i as int].team == Some(tid),
        ensures
            final(self).wf(),
            depart_post(*old(self), *final(self), i as int, tid),
    {
        let ghost pre = *self;
        match self.find_other_member(i, tid) {
            None => {
                let j = match self.find_team(tid) {
                    Some(j) => j,
                    None => {
                        proof {
                            assert(team_exists(pre.teams@, tid));
                        }
                        unreached()
                    },
                };
                self.users[i].team = None;
                self.users[i].is_leader = false;
                self.teams.remove(j);
                proof {
                    let iu = i as int;
                    assert(self.users@ =~= pre.users@.update(
                        iu,
                        with_team(pre.users@[iu], None, false),
                    ));
                    self.lemma_depart_sole_wf(pre, iu, j as int, tid);
                }
            },
            Some(k) => {
                if self.users[i].is_leader {
                    self.users[i].team = None;
                    self.users[i].is_leader = false;
                    self.users[k].is_leader = true;
                    proof {
                        let iu = i as int;
                        let ku = k as int;
                        let mid = pre.users@.update(iu, with_team(pre.users@[iu], None, false));
                        assert(self.users@ =~= mid.update(
                            ku,
                            with_team(pre.users@[ku], Some(tid), true),
                        ));
                        self.lemma_depart_promote_wf(pre, iu, ku, tid);
                    }
                } else {
                    self.users[i].team = None;
                    self.users[i].is_leader = false;
                    proof {
                        let iu = i as int;
                        assert(self.users@ =~= pre.users@.update(
                            iu,
                            with_team(pre.users@[iu], None, false),
                        ));
                        self.lemma_depart_plain_wf(pre, iu, tid);
                    }
                }
            },
        }
    }

    proof fn lemma_join_team_wf(self, pre: Store, i: int, uid: u128, tid: u128)
        requires
            pre.wf(),
            user_at(pre.users@, i, uid),
            pre.users@[i].team is None,
            team_exists(pre.teams@, tid),
            self.users@ == pre.users@.update(i, with_team(pre.users@[i], Some(tid), false)),
            self.teams@ == pre.teams@,
        ensures
            self.wf(),
    {
        let users = self.users@;
        let pusers = pre.users@;
        assert forall|j: int| 0 <= j < self.teams@.len() implies has_leader(
            self.users@,
            (#[trigger] self.teams@[j]).id,
        ) by {
            assert(has_leader(pusers, pre.teams@[j].id));
            let k = choose|k: int|
                0 <= k < pusers.len() && leads(#[trigger] pusers[k], pre.teams@[j].id);
            assert(k != i);
            assert(leads(users[k], self.teams@[j].id));
        }
    }

    proof fn lemma_depart_sole_wf(self, pre: Store, i: int, j: int, tid: u128)
        requires
            pre.wf(),
            0 <= i < pre.users@.len(),
            pre.users@[i].team == Some(tid),
            sole_member(pre.users@, i, tid),
            team_at(pre.teams@, j, tid),
            self.users@ == pre.users@.update(i, with_team(pre.users@[i], None, false)),
            self.teams@ == pre.teams@.remove(j),
        ensures
            self.wf(),
    {
        let users = self.users@;
        let pusers = pre.users@;
        let teams = self.teams@;
        let pteams = pre.teams@;
        // Every index of the shortened team table maps to an old index
        // other than `j`.
        let to_old = |a: int| if a < j { a } else { a + 1 };
        assert(forall|a: int| 0 <= a < teams.len() ==> #[trigger] teams[a] == pteams[to_old(a)]);
        assert forall|a: int, b: int| 0 <= a < b < users.len() implies (#[trigger] users[a]).id != (
        #[trigger] users[b]).id && users[a].email@ != users[b].email@ by {
            assert(users[a].id == pusers[a].id && users[a].email@ == pusers[a].email@);
            assert(users[b].id == pusers[b].id && users[b].email@ == pusers[b].email@);
        }
        assert forall|m: int|
            0 <= m < users.len() && (#[trigger] users[m]).team is None implies !users[m].is_leader by {
            if m != i {
                assert(users[m] == pusers[m]);
            }
        }
        assert forall|a: int, b: int| 0 <= a < b < teams.len() implies (#[trigger] teams[a]).id != (
        #[trigger] teams[b]).id && teams[a].name@ != teams[b].name@ by {
            assert(teams[a] == pteams[to_old(a)]);
            assert(teams[b] == pteams[to_old(b)]);
        }
        // Remaining memberships point to teams other than `tid`, which
        // survive the removal.
        assert forall|k: int| 0 <= k < users.len() && (#[trigger] users[k]).team
            is Some implies team_exists(teams, users[k].team->Some_0) by {
            assert(k != i);
            assert(users[k] == pusers[k]);
            let t = users[k].team->Some_0;
            assert(!member_of(pusers[k], tid));
            let j2 = choose|j2: int| team_at(pteams, j2, t);
            assert(t != tid);
            assert(j2 != j);
            if j2 < j {
                assert(team_at(teams, j2, t));
            } else {
                assert(team_at(teams, j2 - 1, t));
            }
        }
        // Each surviving team keeps its old leader, who was not the
        // departing sole member of `tid`.
        assert forall|a: int| 0 <= a < self.teams@.len() implies has_leader(
            self.users@,
            (#[trigger] self.teams@[a]).id,
        ) by {
            assert(teams[a] == pteams[to_old(a)]);
            let t = pteams[to_old(a)].id;
            assert(has_leader(pusers, t));
            let k = choose|k: int| 0 <= k < pusers.len() && leads(#[trigger] pusers[k], t);
            assert(t != tid);
            assert(k != i);
            assert(leads(users[k], teams[a].id));
        }
        assert forall|a: int, b: int|
            0 <= a < users.len() && 0 <= b < users.len() && a != b implies !((
        #[trigger] users[a]).is_leader && (#[trigger] users[b]).is_leader && users[a].team
            == users[b].team && users[a].team is Some) by {
            if a != i && b != i {
                assert(users[a] == pusers[a]);
                assert(users[b] == pusers[b]);
            }
        }
    }

    proof fn lemma_depart_promote_wf(self, pre: Store, i: int, k: int, tid: u128)
        requires
            pre.wf(),
            0 <= i < pre.users@.len(),
            0 <= k < pre.users@.len(),
            k != i,
            pre.users@[i].team == Some(tid),
            pre.users@[i].is_leader,
            member_of(pre.users@[k], tid),
            self.users@ == pre.users@.update(i, with_team(pre.users@[i], None, false)).update(
                k,
                with_team(pre.users@[k], Some(tid), true),
            ),
            self.teams@ == pre.teams@,
        ensures
            self.wf(),
    {
        let users = self.users@;
        let pusers = pre.users@;
        let teams = self.teams@;
        assert(leads(pusers[i], tid));
        // Memberships are unchanged except for the departing user.
        assert forall|m: int| 0 <= m < users.len() && (#[trigger] users[m]).team
            is Some implies team_exists(teams, users[m].team->Some_0) by {
            assert(users[m].team == pusers[m].team);
        }
        // The promoted member leads `tid`; every other team keeps its
        // old leader, who is neither the departing nor the promoted
        // member, both members of `tid`.
        assert forall|a: int| 0 <= a < self.teams@.len() implies has_leader(
            self.users@,
            (#[trigger] self.teams@[a]).id,
        ) by {
            let t = teams[a].id;
            if t == tid {
                assert(leads(users[k], t));
            } else {
                assert(has_leader(pusers, t));
                let m = choose|m: int| 0 <= m < pusers.len() && leads(#[trigger] pusers[m], t);
                assert(pusers[i].team != Some(t));
                assert(pusers[k].team != Some(t));
                assert(m != i && m != k);
                assert(leads(users[m], t));
            }
        }
        // At most one leader per team: a second leader of `tid` in the
        // new state would already have led it beside the departing
        // leader in the old one.
        assert forall|a: int, b: int|
            0 <= a < users.len() && 0 <= b < users.len() && a != b implies !((
        #[trigger] users[a]).is_leader && (#[trigger] users[b]).is_leader && users[a].team
            == users[b].team && users[a].team is Some) by {
            if a != i && b != i {
                if a == k || b == k {
                    let o = if a == k {
                        b
                    } else {
                        a
                    };
                    if users[o].is_leader && users[o].team == Some(tid) {
                        assert(pusers[o].is_leader && pusers[o].team == Some(tid));
                        assert(leads(pusers[o], tid) && leads(pusers[i], tid));
                    }
                } else {
                    assert(users[a] == pusers[a]);
                    assert(users[b] == pusers[b]);
                }
            }
        }
    }

    proof fn lemma_depart_plain_wf(self, pre: Store, i: int, tid: u128)
        requires
            pre.wf(),
            0 <= i < pre.users@.len(),
            pre.users@[i].team == Some(tid),
            !pre.users@[i].is_leader,
            self.users@ == pre.users@.update(i, with_team(pre.users@[i], None, false)),
            self.teams@ == pre.teams@,
        ensures
            self.wf(),
    {
        let users = self.users@;
        let pusers = pre.users@;
        let teams = self.teams@;
        assert forall|m: int| 0 <= m < users.len() && (#[trigger] users[m]).team
            is Some implies team_exists(teams, users[m].team->Some_0) by {
            assert(users[m].team == pusers[m].team);
        }
        // The departing user led nothing, so every team keeps its leader.
        assert forall|a: int| 0 <= a < self.teams@.len() implies has_leader(
            self.users@,
            (#[trigger] self.teams@[a]).id,
        ) by {
            let t = teams[a].id;
            assert(has_leader(pusers, t));
            let m = choose|m: int| 0 <= m < pusers.len() && leads(#[trigger] pusers[m], t);
            assert(m != i);
            assert(leads(users[m], t));
        }
    }

    /// With `wf`, the record found at a matching index is the record
    /// `user_rec` denotes.
    proof fn lemma_user_rec(self, i: int, uid: u128)
        requires
            self.wf(),
            user_at(self.users@, i, uid),
        ensures
            user_rec(self.users@, uid) == self.users@[i],
    {
        let c = choose|k: int| user_at(self.users@, k, uid);
        assert(user_at(self.users@, c, uid));
        self.lemma_user_idx_unique(i, c, uid);
    }

    /// With `wf`, no second record carries the id of the one at `i`.
    proof fn lemma_only_idx(self, i: int, uid: u128)
        requires
            self.wf(),
            user_at(self.users@, i, uid),
        ensures
            forall|k: int| #[trigger] user_at(self.users@, k, uid) ==> k == i,
            user_in_team(self.users@, uid) == (self.users@[i].team is Some),
    {
        assert forall|k: int| #[trigger] user_at(self.users@, k, uid) implies k == i by {
            self.lemma_user_idx_unique(i, k, uid);
        }
        if self.users@[i].team is Some {
            assert(user_at(self.users@, i, uid) && self.users@[i].team is Some);
        }
    }

    /// Removes the user with id `uid` from its team, deleting the team
    /// when the user was its sole member and otherwise passing
    /// leadership to the earliest remaining member if the departing user
    /// led it. The record changes are a single logical unit: on any
    /// failure the store is untouched.
    pub fn leave_team(&mut self, uid: u128) -> (r: Result<(), TeamError>)
        requires
            old(self).wf(),
        ensures
            final(self).wf(),
            match r {
                Ok(()) => leave_team_err(*old(self), uid) is None && exists|i: int|
                    #[trigger] user_at(old(self).users@, i, uid) && old(self).users@[i].team
                        is Some && depart_post(
                        *old(self),
                        *final(self),
                        i,
                        old(self).users@[i].team->Some_0,
                    ),
                Err(e) => leave_team_err(*old(self), uid) == Some(e) && *final(self) == *old(
                    self,
                ),
            },
    {
        let i = match self.find_user(uid) {
            None => {
                return Err(TeamError::UserNotFound);
            },
            Some(i) => i,
        };
        proof {
            self.lemma_only_idx(i as int, uid);
        }
        let tid = match self.users[i].team {
            None => {
                return Err(TeamError::NotInTeam);
            },
            Some(t) => t,
        };
        let ghost pre = *self;
        self.depart(i, tid);
        proof {
            assert(user_at(pre.users@, i as int, uid) && pre.users@[i as int].team is Some
                && depart_post(pre, *self, i as int, tid));
        }
        Ok(())
    }

    /// Removes the user with id `target` from the team led by `actor`,
    /// with the same departure rules as `leave_team`. Only the leader of
    /// the target's own team may do this.
    pub fn kick_member(&mut self, actor: u128, target: u128) -> (r: Result<(), TeamError>)
        requires
            old(self).wf(),
        ensures
            final(self).wf(),
            match r {
                Ok(()) => kick_err(*old(self), actor, target) is None && exists|i: int|
                    #[trigger] user_at(old(self).users@, i, target) && old(self).users@[i].team
                        is Some && depart_post(
                        *old(self),
                        *final(self),
                        i,
                        old(self).users@[i].team->Some_0,
                    ),
                Err(e) => kick_err(*old(self), actor, target) == Some(e) && *final(self) == *old(
                    self,
                ),
            },
    {
        let ai = match self.find_user(actor) {
            None => {
                return Err(TeamError::UserNotFound);
            },
            Some(ai) => ai,
        };
        proof {
            self.lemma_user_rec(ai as int, actor);
        }
        if !self.users[ai].is_leader {
            return Err(TeamError::Forbidden);
        }
        let ti = match self.find_user(target) {
            None => {
                return Err(TeamError::UserNotFound);
            },
            Some(ti) => ti,
        };
        proof {
            self.lemma_user_rec(ti as int, target);
            self.lemma_only_idx(ti as int, target);
        }
        let tid = match self.users[ti].team {
            None => {
                return Err(TeamError::NotInTeam);
            },
            Some(t) => t,
        };
        if self.users[ai].team != Some(tid) {
            return Err(TeamError::Forbidden);
        }
        let ghost pre = *self;
        self.depart(ti, tid);
        proof {
            assert(user_at(pre.users@, ti as int, target) && pre.users@[ti as int].team is Some
                && depart_post(pre, *self, ti as int, tid));
        }
        Ok(())
    }

    /// Atomically hands leadership of the actor's team to `new_leader`,
    /// a member of the same team: the actor's leader flag is cleared and
    /// the new leader's set, and no intermediate state is observable.
    pub fn transfer_leadership(&mut self, actor: u128, new_leader: u128) -> (r: Result<
        (),
        TeamError,
    >)
        requires
            old(self).wf(),
        ensures
            final(self).wf(),
            match r {
                Ok(()) => transfer_err(*old(self), actor, new_leader) is None
                    && final(self).teams@ == old(self).teams@ && exists|ai: int, ni: int|
                    #[trigger] user_at(old(self).users@, ai, actor) && #[trigger] user_at(
                        old(self).users@,
                        ni,
                        new_leader,
                    ) && final(self).users@ == transfer_users(old(self).users@, ai, ni),
                Err(e) => transfer_err(*old(self), actor, new_leader) == Some(e) && *final(self)
                    == *old(self),
            },
    {
        let ai = match self.find_user(actor) {
            None => {
                return Err(TeamError::UserNotFound);
            },
            Some(ai) => ai,
        };
        proof {
            self.lemma_user_rec(ai as int, actor);
        }
        if !self.users[ai].is_leader {
            return Err(TeamError::Forbidden);
        }
        let ni = match self.find_user(new_leader) {
            None => {
                return Err(TeamError::UserNotFound);
            },
            Some(ni) => ni,
        };
        proof {
            self.lemma_user_rec(ni as int, new_leader);
        }
        if self.users[ni].team != self.users[ai].team {
            return Err(TeamError::NotInTeam);
        }
        let ghost pre = *self;
        let ghost tid = pre.users@[ai as int].team->Some_0;
        self.users[ai].is_leader = false;
        self.users[ni].is_leader = true;
        proof {
            let au = ai as int;
            let nu = ni as int;
            assert(pre.users@[au].team is Some);
            assert(self.users@ =~= transfer_users(pre.users@, au, nu));
            self.lemma_transfer_wf(pre, au, nu, tid);
            assert(user_at(pre.users@, au, actor) && user_at(pre.users@, nu, new_leader)
                && self.users@ == transfer_users(pre.users@, au, nu));
        }
        Ok(())
    }

    proof fn lemma_transfer_wf(self, pre: Store, ai: int, ni: int, tid: u128)
        requires
            pre.wf(),
            0 <= ai < pre.users@.len(),
            0 <= ni < pre.users@.len(),
            pre.users@[ai].team == Some(tid),
            pre.users@[ai].is_leader,
            pre.users@[ni].team == Some(tid),
            self.users@ == transfer_users(pre.users@, ai, ni),
            self.teams@ == pre.teams@,
        ensures
            self.wf(),
    {
        let users = self.users@;
        let pusers = pre.users@;
        if ai == ni {
            assert(users =~= pusers);
            assert(forall|a: int|
                0 <= a < self.teams@.len() ==> has_leader(users, (#[trigger] self.teams@[a]).id)
                    == has_leader(pusers, self.teams@[a].id));
            return ;
        }
        assert(leads(pusers[ai], tid));
        // Memberships are untouched; only two leader flags change.
        assert forall|m: int| 0 <= m < users.len() && (#[trigger] users[m]).team
            is Some implies team_exists(self.teams@, users[m].team->Some_0) by {
            assert(users[m].team == pusers[m].team);
        }
        // The handed-over team is led by the new leader; every other
        // team keeps its old leader, who is neither party.
        assert forall|a: int| 0 <= a < self.teams@.len() implies has_leader(
            users,
            (#[trigger] self.teams@[a]).id,
        ) by {
            let t = self.teams@[a].id;
            if t == tid {
                assert(leads(users[ni], t));
            } else {
                assert(has_leader(pusers, t));
                let m = choose|m: int| 0 <= m < pusers.len() && leads(#[trigger] pusers[m], t);
                assert(pusers[ai].team != Some(t));
                assert(pusers[ni].team != Some(t));
                assert(m != ai && m != ni);
                assert(leads(users[m], t));
            }
        }
        // At most one leader: a second leader of `tid` would already
        // have led it beside the old leader.
        assert forall|a: int, b: int|
            0 <= a < users.len() && 0 <= b < users.len() && a != b implies !((
        #[trigger] users[a]).is_leader && (#[trigger] users[b]).is_leader && users[a].team
            == users[b].team && users[a].team is Some) by {
            if a != ai && b != ai {
                if a == ni || b == ni {
                    let o = if a == ni {
                        b
                    } else {
                        a
                    };
                    if users[o].is_leader && users[o].team == Some(tid) {
                        assert(pusers[o].is_leader && pusers[o].team == Some(tid));
                        assert(leads(pusers[o], tid) && leads(pusers[ai], tid));
                    }
                } else {
                    assert(users[a] == pusers[a]);
                    assert(users[b] == pusers[b]);
                }
            }
        }
    }
}

} // verus!
