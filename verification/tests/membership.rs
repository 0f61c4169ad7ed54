use auth_core::errors::TeamError;
use auth_core::store::{Store, Team, User};

fn member(id: u128, email: &[u8], team: Option<u128>, is_leader: bool) -> User {
    User {
        id,
        username: email.to_vec(),
        email: email.to_vec(),
        password_hash: None,
        created_at: id as u64,
        team,
        is_leader,
        permissions: None,
    }
}

const TEAM: u128 = 0x1000;

fn three_member_team() -> Store {
    Store {
        users: vec![
            member(1, b"leader@example.com", Some(TEAM), true),
            member(2, b"second@example.com", Some(TEAM), false),
            member(3, b"third@example.com", Some(TEAM), false),
        ],
        teams: vec![Team { id: TEAM, name: b"Dziengiel".to_vec(), created_at: 0 }],
    }
}

#[test]
fn leave_team_sole_member_deletes_team() {
    let mut store = Store {
        users: vec![member(1, b"leader@example.com", Some(TEAM), true)],
        teams: vec![Team { id: TEAM, name: b"Dziengiel".to_vec(), created_at: 0 }],
    };
    store.leave_team(1).unwrap();
    assert_eq!(store.teams.len(), 0);
    assert_eq!(store.users[0].team, None);
    assert!(!store.users[0].is_leader);

    // The team id no longer resolves for later joiners.
    let mut joiner = store;
    joiner.users.push(member(2, b"second@example.com", None, false));
    assert_eq!(joiner.join_team(2, TEAM), Err(TeamError::TeamNotFound));
}

#[test]
fn leave_team_leader_promotes_earliest_member() {
    let mut store = three_member_team();
    store.leave_team(1).unwrap();
    assert_eq!(store.teams.len(), 1);
    assert_eq!(store.users[0].team, None);
    assert!(!store.users[0].is_leader);
    // The earliest remaining member inherits leadership; exactly one
    // member of the remaining set leads.
    assert!(store.users[1].is_leader);
    assert!(!store.users[2].is_leader);
    assert_eq!(store.users[1].team, Some(TEAM));
    assert_eq!(store.users[2].team, Some(TEAM));
}

#[test]
fn leave_team_non_leader_keeps_leader() {
    let mut store = three_member_team();
    store.leave_team(2).unwrap();
    assert_eq!(store.teams.len(), 1);
    assert!(store.users[0].is_leader);
    assert_eq!(store.users[1].team, None);
    assert!(!store.users[2].is_leader);
}

#[test]
fn leave_team_unaffiliated_fails() {
    let mut store = three_member_team();
    store.users.push(member(9, b"loner@example.com", None, false));
    assert_eq!(store.leave_team(9), Err(TeamError::NotInTeam));
    assert_eq!(store.leave_team(42), Err(TeamError::UserNotFound));
}

#[test]
fn join_team_rules() {
    let mut store = three_member_team();
    store.users.push(member(9, b"joiner@example.com", None, false));
    assert_eq!(store.join_team(2, TEAM), Err(TeamError::AlreadyInTeam));
    assert_eq!(store.join_team(9, 0xdead), Err(TeamError::TeamNotFound));
    store.join_team(9, TEAM).unwrap();
    assert_eq!(store.users[3].team, Some(TEAM));
    assert!(!store.users[3].is_leader);
}

#[test]
fn kick_member_requires_leadership_of_same_team() {
    let mut store = three_member_team();
    store.users.push(member(9, b"loner@example.com", None, false));
    // A non-leader cannot kick.
    assert_eq!(store.kick_member(2, 3), Err(TeamError::Forbidden));
    // A target without a team cannot be kicked.
    assert_eq!(store.kick_member(1, 9), Err(TeamError::NotInTeam));
    // The leader kicks an own member.
    store.kick_member(1, 3).unwrap();
    assert_eq!(store.users[2].team, None);
    assert!(!store.users[2].is_leader);
    assert!(store.users[0].is_leader);
    assert_eq!(store.teams.len(), 1);
}

#[test]
fn kick_member_across_teams_is_forbidden() {
    let mut store = three_member_team();
    let other: u128 = 0x2000;
    store.teams.push(Team { id: other, name: b"Rivals".to_vec(), created_at: 0 });
    store.users.push(member(9, b"rival@example.com", Some(other), true));
    assert_eq!(store.kick_member(1, 9), Err(TeamError::Forbidden));
}

#[test]
fn kick_leader_of_own_team_departs_like_leave() {
    let mut store = three_member_team();
    // The leader removes themselves through the kick path: leadership
    // passes to the earliest remaining member.
    store.kick_member(1, 1).unwrap();
    assert_eq!(store.users[0].team, None);
    assert!(store.users[1].is_leader);
    assert!(!store.users[2].is_leader);
}

#[test]
fn transfer_leadership_flips_both_records() {
    let mut store = three_member_team();
    store.transfer_leadership(1, 3).unwrap();
    assert!(!store.users[0].is_leader);
    assert!(!store.users[1].is_leader);
    assert!(store.users[2].is_leader);
    assert_eq!(store.users[0].team, Some(TEAM));

    // Only the current leader may transfer.
    assert_eq!(store.transfer_leadership(1, 2), Err(TeamError::Forbidden));
    // The new leader must be on the same team.
    store.users.push(member(9, b"loner@example.com", None, false));
    assert_eq!(store.transfer_leadership(3, 9), Err(TeamError::NotInTeam));
}
