use auth_core::errors::TeamError;
use auth_core::gate::authorize;
use auth_core::store::{Store, Team, User};
use auth_core::token::{SigningKey, issue};

fn test_key() -> SigningKey {
    SigningKey { bytes: b"unit-test-signing-key".to_vec() }
}

fn salieri(id: u128, team: Option<u128>, is_leader: bool) -> User {
    User {
        id,
        username: b"Salieri".to_vec(),
        email: b"example@gmail.com".to_vec(),
        password_hash: None,
        created_at: 0,
        team,
        is_leader,
        permissions: None,
    }
}

fn status_of(r: Result<u128, TeamError>) -> u16 {
    match r {
        Ok(_) => 200,
        Err(e) => e.status_code(),
    }
}

#[test]
fn create_team_user_already_belongs_to_team() {
    let uuid: u128 = 0x15;
    let team_id: u128 = 0x10;
    let mut store = Store {
        users: vec![salieri(uuid, Some(team_id), true)],
        teams: vec![Team { id: team_id, name: b"Dziengiel".to_vec(), created_at: 0 }],
    };

    let key = test_key();
    let access_token = issue(&key, uuid, &b"example@gmail.com".to_vec(), 0, 10 * 60);
    let identity = authorize(&key, Some(&access_token), 1).unwrap();

    let response = store.create_team(identity.user_id, b"team1".to_vec(), 1);

    assert_eq!(status_of(response), 403);
}

#[test]
fn create_duplicate_team() {
    let uuid: u128 = 0x15;
    let team_id: u128 = 0x10;
    let founder: u128 = 0x77;
    let mut store = Store {
        users: vec![salieri(uuid, None, false), {
            let mut f = salieri(founder, Some(team_id), true);
            f.username = b"founder".to_vec();
            f.email = b"founder@gmail.com".to_vec();
            f
        }],
        teams: vec![Team { id: team_id, name: b"Dziengiel".to_vec(), created_at: 0 }],
    };

    let key = test_key();
    let access_token = issue(&key, uuid, &b"example@gmail.com".to_vec(), 0, 10 * 60);
    let identity = authorize(&key, Some(&access_token), 1).unwrap();

    let response = store.create_team(identity.user_id, b"Dziengiel".to_vec(), 1);

    assert_eq!(status_of(response), 409);
}

#[test]
fn create_team_success() {
    let uuid: u128 = 0x15;
    let mut store = Store { users: vec![salieri(uuid, None, false)], teams: vec![] };

    let key = test_key();
    let access_token = issue(&key, uuid, &b"example@gmail.com".to_vec(), 0, 10 * 60);
    let identity = authorize(&key, Some(&access_token), 1).unwrap();

    let response = store.create_team(identity.user_id, b"Dziengiel".to_vec(), 1);

    assert_eq!(status_of(response), 200);
    assert_eq!(store.teams.len(), 1);
    assert_eq!(store.teams[0].name, b"Dziengiel".to_vec());
    assert_eq!(store.users[0].team, Some(store.teams[0].id));
    assert!(store.users[0].is_leader);
}

#[test]
fn concurrent_creates_of_one_name_let_exactly_one_through() {
    // Two unaffiliated users race to create the same team name; the
    // store serializes them, so exactly one succeeds and the other is
    // turned away as a duplicate.
    let uuid_a: u128 = 0x15;
    let uuid_b: u128 = 0x16;
    let mut store = Store {
        users: vec![salieri(uuid_a, None, false), {
            let mut b = salieri(uuid_b, None, false);
            b.username = b"Mozart".to_vec();
            b.email = b"mozart@gmail.com".to_vec();
            b
        }],
        teams: vec![],
    };
    let first = store.create_team(uuid_a, b"Dziengiel".to_vec(), 1);
    let second = store.create_team(uuid_b, b"Dziengiel".to_vec(), 2);
    assert_eq!(status_of(first), 200);
    assert_eq!(status_of(second), 409);
    assert_eq!(store.teams.len(), 1);
}
