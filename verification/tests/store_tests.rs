use snapshot_analytics::data::{User, UserTeam};
use snapshot_analytics::store::Root;

fn member(id: &str, score: u16, active: bool, country: &str, team: &str) -> User {
    User {
        id: id.to_string(),
        name: format!("user {}", id),
        age: 40,
        score,
        active,
        country: country.to_string(),
        team: UserTeam { name: team.to_string(), leader: false, projects: vec![] },
        logs: vec![],
    }
}

#[test]
fn new_store_is_empty() {
    let root = Root::new();
    assert_eq!(root.get_users().len(), 0);
}

#[test]
fn from_users_holds_the_first_generation() {
    let root = Root::from_users(vec![member("a", 1, true, "BR", "t")]);
    let users = root.get_users();
    assert_eq!(users.len(), 1);
    assert_eq!(users[0].id, "a");
}

#[test]
fn update_replaces_the_whole_dataset() {
    let root = Root::new();
    root.update(vec![member("a", 1, true, "BR", "t"), member("b", 1, true, "AR", "t")]);
    assert_eq!(root.get_users().len(), 2);
    root.update(vec![member("c", 1, true, "CL", "t")]);
    let users = root.get_users();
    assert_eq!(users.len(), 1);
    assert_eq!(users[0].id, "c");
}

#[test]
fn last_update_wins() {
    // Replacing with A and then with B leaves exactly B current, never a mix.
    let root = Root::new();
    let a = vec![member("a1", 1, true, "BR", "t"), member("a2", 1, true, "BR", "t")];
    let b = vec![member("b1", 1, true, "AR", "t")];
    root.update(a);
    root.update(b);
    let users = root.get_users();
    assert_eq!(users.len(), 1);
    assert_eq!(users[0].id, "b1");
}

#[test]
fn read_result_is_isolated_from_later_updates() {
    // The view a reader copied out is independent: a later replace does not
    // touch it.
    let root = Root::from_users(vec![member("old", 7, true, "BR", "t")]);
    let snapshot = root.get_users();
    root.update(vec![member("new", 9, false, "AR", "u"), member("new2", 9, false, "AR", "u")]);
    assert_eq!(snapshot.len(), 1);
    assert_eq!(snapshot[0].id, "old");
    assert_eq!(snapshot[0].score, 7);
    let after = root.get_users();
    assert_eq!(after.len(), 2);
    assert_eq!(after[0].id, "new");
}

#[test]
fn ingest_returns_the_accepted_count() {
    let root = Root::new();
    let n = root.ingest(vec![member("a", 1, true, "BR", "t"), member("b", 1, true, "BR", "t")]);
    assert_eq!(n, 2);
    assert_eq!(root.get_users().len(), 2);
}

#[test]
fn ingest_accepts_the_empty_dataset() {
    let root = Root::from_users(vec![member("a", 1, true, "BR", "t")]);
    let n = root.ingest(vec![]);
    assert_eq!(n, 0);
    assert_eq!(root.get_users().len(), 0);
}
