use snapshot_analytics::api::{
    get_active_users_per_day, get_superusers, get_team_insights, get_topcountries, index,
};
use snapshot_analytics::data::{TeamProject, User, UserLog, UserTeam};
use snapshot_analytics::store::Root;

fn filler(id: &str, score: u16, active: bool, country: &str, team: &str) -> User {
    User {
        id: id.to_string(),
        name: format!("user {}", id),
        age: 25,
        score,
        active,
        country: country.to_string(),
        team: UserTeam { name: team.to_string(), leader: false, projects: vec![] },
        logs: vec![UserLog { date: "2025-03-01".to_string(), action: "login".to_string() }],
    }
}

fn clarice() -> User {
    User {
        id: "c460b871-77ec-46f1-9127-22ea6989b0bc".to_string(),
        name: "Clarice Porto".to_string(),
        age: 52,
        score: 1040,
        active: true,
        country: "Argentina".to_string(),
        team: UserTeam {
            name: "Frontend Avengers".to_string(),
            leader: true,
            projects: vec![TeamProject { name: "Sistema Interno".to_string(), completed: true }],
        },
        logs: vec![
            UserLog { date: "2025-03-28".to_string(), action: "login".to_string() },
            UserLog { date: "2025-03-29".to_string(), action: "login".to_string() },
            UserLog { date: "2025-03-30".to_string(), action: "login".to_string() },
            UserLog { date: "2025-03-27".to_string(), action: "login".to_string() },
            UserLog { date: "2025-03-30".to_string(), action: "login".to_string() },
        ],
    }
}

/// Ten records with exactly one superuser among them.
fn ten_users() -> Vec<User> {
    vec![
        filler("u1", 120, true, "Brasil", "Backend"),
        filler("u2", 870, true, "Brasil", "Backend"),
        clarice(),
        filler("u3", 899, true, "Chile", "Frontend Avengers"),
        filler("u4", 950, false, "Argentina", "Data"),
        filler("u5", 400, false, "Peru", "Data"),
        filler("u6", 10, true, "Brasil", "Backend"),
        filler("u7", 600, true, "Uruguai", "Mobile"),
        filler("u8", 1100, false, "Chile", "Mobile"),
        filler("u9", 0, false, "Brasil", "Backend"),
    ]
}

#[test]
fn test_get_superusers() {
    let root = Root::from_users(ten_users());

    let resp = get_superusers(&root);

    let expect_user = clarice();

    let timestamp: String = resp.timestamp;
    assert!(!timestamp.is_empty());
    let elapsed: u128 = resp.execution_time_ms;
    assert!(elapsed < u128::MAX);
    assert_eq!(resp.user_count, 1);
    assert_eq!(resp.data[0], expect_user);
}

#[test]
fn index_greets() {
    assert_eq!(index(), "Hello, world!");
}

#[test]
fn reports_on_a_small_dataset() {
    let root = Root::from_users(ten_users());

    let top = get_topcountries(&root);
    assert_eq!(top.countries.len(), 5);
    assert_eq!(top.countries[0].country, "Brasil");
    assert_eq!(top.countries[0].total, 4);

    let teams = get_team_insights(&root).unwrap();
    assert_eq!(teams.teams.len(), 4);
    assert_eq!(teams.teams[0].team, "Backend");
    assert_eq!(teams.teams[0].total_members, 4);

    let logins = get_active_users_per_day(Some(2), &root).unwrap();
    assert_eq!(logins.logins.len(), 2);
}

#[test]
fn empty_store_yields_empty_reports() {
    // Ingesting nothing and querying is not an error: every report is
    // empty or zeroed.
    let root = Root::new();
    let n = root.ingest(vec![]);
    assert_eq!(n, 0);

    let su = get_superusers(&root);
    assert_eq!(su.user_count, 0);
    assert_eq!(su.data.len(), 0);

    let top = get_topcountries(&root);
    assert_eq!(top.countries.len(), 0);

    let teams = get_team_insights(&root).unwrap();
    assert_eq!(teams.teams.len(), 0);

    let logins = get_active_users_per_day(None, &root).unwrap();
    assert_eq!(logins.logins.len(), 0);
}
