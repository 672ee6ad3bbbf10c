use snapshot_analytics::countries::top_countries;
use snapshot_analytics::data::{TeamProject, User, UserLog, UserTeam};
use snapshot_analytics::logins::{active_users_per_day, total_login_entries};
use snapshot_analytics::superusers::superusers;
use snapshot_analytics::teams::{team_insights, total_completed_projects, TeamInsight};

fn user(
    id: &str,
    score: u16,
    active: bool,
    country: &str,
    team_name: &str,
    leader: bool,
    projects: Vec<(&str, bool)>,
    logs: Vec<(&str, &str)>,
) -> User {
    User {
        id: id.to_string(),
        name: format!("user {}", id),
        age: 30,
        score,
        active,
        country: country.to_string(),
        team: UserTeam {
            name: team_name.to_string(),
            leader,
            projects: projects
                .into_iter()
                .map(|(n, c)| TeamProject { name: n.to_string(), completed: c })
                .collect(),
        },
        logs: logs
            .into_iter()
            .map(|(d, a)| UserLog { date: d.to_string(), action: a.to_string() })
            .collect(),
    }
}

fn plain(id: &str, score: u16, active: bool, country: &str, team: &str) -> User {
    user(id, score, active, country, team, false, vec![], vec![])
}

#[test]
fn superusers_filters_on_score_and_active() {
    let users = vec![
        plain("a", 900, true, "BR", "t"),
        plain("b", 899, true, "BR", "t"),
        plain("c", 1000, false, "BR", "t"),
        plain("d", 950, true, "AR", "t"),
    ];
    let res = superusers(&users);
    assert_eq!(res.len(), 2);
    assert_eq!(res[0].id, "a");
    assert_eq!(res[1].id, "d");
}

#[test]
fn superusers_keeps_duplicates_and_order() {
    let dup = plain("a", 901, true, "BR", "t");
    let users = vec![dup.clone(), plain("b", 10, true, "BR", "t"), dup.clone()];
    let res = superusers(&users);
    assert_eq!(res.len(), 2);
    assert_eq!(res[0].id, "a");
    assert_eq!(res[1].id, "a");
}

#[test]
fn superusers_empty_dataset() {
    let users: Vec<User> = vec![];
    assert_eq!(superusers(&users).len(), 0);
}

#[test]
fn top_countries_truncates_to_available_countries() {
    // Three distinct countries: exactly 3 entries, not 5, and no error.
    let users = vec![
        plain("a", 1, true, "BR", "t"),
        plain("b", 1, true, "AR", "t"),
        plain("c", 1, true, "CL", "t"),
        plain("d", 1, true, "BR", "t"),
    ];
    let res = top_countries(&users);
    assert_eq!(res.len(), 3);
    assert_eq!(res[0].country, "BR");
    assert_eq!(res[0].total, 2);
}

#[test]
fn top_countries_sorts_by_count_then_first_seen() {
    let users = vec![
        plain("a", 1, true, "CL", "t"),
        plain("b", 1, true, "BR", "t"),
        plain("c", 1, true, "AR", "t"),
        plain("d", 1, true, "BR", "t"),
        plain("e", 1, true, "AR", "t"),
    ];
    let res = top_countries(&users);
    assert_eq!(res.len(), 3);
    // BR and AR both count 2; BR was seen first. CL has count 1.
    assert_eq!(res[0].country, "BR");
    assert_eq!(res[0].total, 2);
    assert_eq!(res[1].country, "AR");
    assert_eq!(res[1].total, 2);
    assert_eq!(res[2].country, "CL");
    assert_eq!(res[2].total, 1);
}

#[test]
fn top_countries_returns_at_most_five() {
    let users = vec![
        plain("a", 1, true, "BR", "t"),
        plain("b", 1, true, "AR", "t"),
        plain("c", 1, true, "CL", "t"),
        plain("d", 1, true, "PE", "t"),
        plain("e", 1, true, "UY", "t"),
        plain("f", 1, true, "PY", "t"),
        plain("g", 1, true, "PY", "t"),
    ];
    let res = top_countries(&users);
    assert_eq!(res.len(), 5);
    assert_eq!(res[0].country, "PY");
    assert_eq!(res[0].total, 2);
}

#[test]
fn top_countries_empty_dataset() {
    let users: Vec<User> = vec![];
    assert_eq!(top_countries(&users).len(), 0);
}

#[test]
fn team_insight_running_percentage_truncates() {
    // Members added active, inactive, active: 100.0%, 50.0%, 66.6%
    // (truncated at one decimal, not rounded).
    let mut insight = TeamInsight::new("Alpha".to_string());
    let m1 = plain("a", 1, true, "BR", "Alpha");
    let m2 = plain("b", 1, false, "BR", "Alpha");
    let m3 = plain("c", 1, true, "BR", "Alpha");
    insight.update_with_user(&m1);
    assert_eq!(insight.active_percentage_tenths, 1000);
    insight.update_with_user(&m2);
    assert_eq!(insight.active_percentage_tenths, 500);
    insight.update_with_user(&m3);
    assert_eq!(insight.active_percentage_tenths, 666);
    assert_eq!(insight.total_members, 3);
    assert_eq!(insight.active_count, 2);
}

#[test]
fn team_insights_groups_by_team_name() {
    let users = vec![
        user("a", 1, true, "BR", "Alpha", true, vec![("p1", true), ("p2", false)], vec![]),
        user("b", 1, false, "BR", "Beta", false, vec![("p3", true)], vec![]),
        user("c", 1, true, "BR", "Alpha", false, vec![("p4", true)], vec![]),
    ];
    let res = team_insights(&users);
    assert_eq!(res.len(), 2);
    assert_eq!(res[0].team, "Alpha");
    assert_eq!(res[0].total_members, 2);
    assert_eq!(res[0].leaders, 1);
    assert_eq!(res[0].completed_projects, 2);
    assert_eq!(res[0].active_percentage_tenths, 1000);
    assert_eq!(res[1].team, "Beta");
    assert_eq!(res[1].total_members, 1);
    assert_eq!(res[1].leaders, 0);
    assert_eq!(res[1].completed_projects, 1);
    assert_eq!(res[1].active_percentage_tenths, 0);
}

#[test]
fn team_insights_empty_dataset() {
    let users: Vec<User> = vec![];
    assert_eq!(team_insights(&users).len(), 0);
}

#[test]
fn total_completed_projects_counts_whole_dataset() {
    let users = vec![
        user("a", 1, true, "BR", "t", false, vec![("p1", true), ("p2", false)], vec![]),
        user("b", 1, true, "BR", "t", false, vec![("p3", true)], vec![]),
    ];
    assert_eq!(total_completed_projects(&users), Some(2));
}

#[test]
fn logins_threshold_filters_days() {
    // Logins {2025-01-01: 3, 2025-01-02: 1} with min=2: only 2025-01-01,
    // with total 3.
    let users = vec![
        user(
            "a",
            1,
            true,
            "BR",
            "t",
            false,
            vec![],
            vec![("2025-01-01", "login"), ("2025-01-02", "login"), ("2025-01-01", "login")],
        ),
        user("b", 1, true, "BR", "t", false, vec![], vec![("2025-01-01", "login")]),
    ];
    let res = active_users_per_day(&users, Some(2));
    assert_eq!(res.len(), 1);
    assert_eq!(res[0].date, "2025-01-01");
    assert_eq!(res[0].total, 3);
}

#[test]
fn logins_without_threshold_keeps_every_day() {
    let users = vec![user(
        "a",
        1,
        true,
        "BR",
        "t",
        false,
        vec![],
        vec![("2025-01-01", "login"), ("2025-01-02", "login"), ("2025-01-01", "login")],
    )];
    let res = active_users_per_day(&users, None);
    assert_eq!(res.len(), 2);
    assert_eq!(res[0].date, "2025-01-01");
    assert_eq!(res[0].total, 2);
    assert_eq!(res[1].date, "2025-01-02");
    assert_eq!(res[1].total, 1);
}

#[test]
fn logins_empty_dataset() {
    let users: Vec<User> = vec![];
    assert_eq!(active_users_per_day(&users, None).len(), 0);
    assert_eq!(total_login_entries(&users), Some(0));
}
