use myprs::app::{App, Effect, KeyInput, RepoFetch};
use myprs::config::{Config, PrStatus, RepoRef};
use myprs::pull_request::PullRequest;

fn pr(workspace: &str, repo: &str, id: u64, title: &str, updated_on: &str) -> PullRequest {
    PullRequest {
        workspace: workspace.to_string(),
        repo: repo.to_string(),
        id,
        title: title.to_string(),
        description: format!("description of {title}"),
        author: "alice".to_string(),
        state: "OPEN".to_string(),
        updated_on: updated_on.to_string(),
        url: format!("https://example.invalid/{workspace}/{repo}/{id}"),
    }
}

fn configured_app() -> App {
    let mut config = Config::default();
    config.bitbucket_email = Some("me@example.com".to_string());
    config.bitbucket_api_token = Some("token-value".to_string());
    config.add_repo(RepoRef::new("alpha".to_string(), "one".to_string()));
    config.add_repo(RepoRef::new("beta".to_string(), "two".to_string()));
    App::new(config)
}

fn ok_fetch(workspace: &str, repo: &str, prs: Vec<PullRequest>) -> RepoFetch {
    RepoFetch {
        repo: RepoRef::new(workspace.to_string(), repo.to_string()),
        result: Ok(prs),
    }
}

fn loaded_app() -> App {
    let mut app = configured_app();
    app.refresh_pull_requests(vec![
        ok_fetch(
            "beta",
            "two",
            vec![
                pr("beta", "two", 7, "newer change", "2024-03-02T10:00:00"),
                pr("beta", "two", 5, "older change", "2024-01-01T10:00:00"),
            ],
        ),
        ok_fetch(
            "alpha",
            "one",
            vec![
                pr("alpha", "one", 42, "fix the widget", "2024-02-01T10:00:00"),
                pr("alpha", "one", 43, "late arrival", "2024-02-20T10:00:00"),
            ],
        ),
    ]);
    app
}

#[test]
fn refresh_sorts_workspaces_first() {
    let app = loaded_app();
    assert_eq!(app.all_pull_requests.len(), 4);
    assert_eq!(app.all_pull_requests[0].workspace, "alpha");
    assert_eq!(app.all_pull_requests[1].workspace, "alpha");
    assert_eq!(app.all_pull_requests[2].workspace, "beta");
    assert_eq!(app.all_pull_requests[3].workspace, "beta");
    assert_eq!(app.selected_index, 0);
}

#[test]
fn refresh_orders_groups_most_recent_first() {
    let app = loaded_app();
    assert_eq!(app.all_pull_requests[0].id, 43);
    assert_eq!(app.all_pull_requests[1].id, 42);
    assert_eq!(app.all_pull_requests[2].id, 7);
    assert_eq!(app.all_pull_requests[3].id, 5);
}

#[test]
fn refresh_logs_summary_and_failures() {
    let mut app = configured_app();
    app.refresh_pull_requests(vec![
        ok_fetch(
            "alpha",
            "one",
            vec![pr("alpha", "one", 1, "only one", "2024-01-01T00:00:00")],
        ),
        RepoFetch {
            repo: RepoRef::new("beta".to_string(), "two".to_string()),
            result: Err("service unavailable".to_string()),
        },
    ]);
    assert_eq!(app.all_pull_requests.len(), 1);
    let logs = &app.logs;
    assert_eq!(logs[0], "Failed loading beta/two: service unavailable");
    assert_eq!(logs[1], "Loaded 1 PR(s) with status 'open' across 2 repo(s)");
    assert_eq!(logs[2], "1 repo(s) failed during refresh");
}

#[test]
fn search_by_id_then_clear() {
    let mut app = loaded_app();
    app.handle_search_command(&vec!["42".to_string()]);
    assert_eq!(app.pull_requests.len(), 1);
    assert_eq!(app.pull_requests[0].id, 42);
    app.handle_search_command(&vec!["CLEAR".to_string()]);
    assert_eq!(app.pull_requests.len(), 4);
    assert!(app.search_query.is_none());
}

#[test]
fn search_matches_title_case_insensitively() {
    let mut app = loaded_app();
    app.handle_search_command(&vec!["WIDGET".to_string()]);
    assert_eq!(app.pull_requests.len(), 1);
    assert_eq!(app.pull_requests[0].id, 42);
    assert_eq!(
        app.logs.last().map(String::as_str),
        Some("Search set to 'WIDGET'. 1 matching PR(s).")
    );
}

#[test]
fn search_clamps_selection() {
    let mut app = loaded_app();
    app.selected_index = 2;
    app.handle_search_command(&vec!["42".to_string()]);
    assert_eq!(app.pull_requests.len(), 1);
    assert_eq!(app.selected_index, 0);
}

#[test]
fn status_command_sets_persists_and_refreshes() {
    let mut app = configured_app();
    let effects = app
        .execute_command("/status merged")
        .expect("status command runs");
    assert_eq!(app.status_filter, PrStatus::Merged);
    assert_eq!(app.config.status(), PrStatus::Merged);
    assert_eq!(effects, vec![Effect::SaveConfig, Effect::Refresh]);
    assert_eq!(
        app.logs.last().map(String::as_str),
        Some("Status filter set to merged. Refreshing...")
    );
    app.refresh_pull_requests(Vec::new());
    let n = app.logs.len();
    assert_eq!(app.logs[n - 2], "Status filter set to merged. Refreshing...");
    assert_eq!(
        app.logs[n - 1],
        "Loaded 0 PR(s) with status 'merged' across 0 repo(s)"
    );
}

#[test]
fn repo_add_then_remove_restores_the_list() {
    let mut app = App::new(Config::default());
    app.execute_command("/repo add teamx/app1").expect("add runs");
    assert_eq!(app.config.repos().len(), 1);
    app.execute_command("/repo rm teamx/app1").expect("rm runs");
    assert_eq!(app.config.repos().len(), 0);
    assert_eq!(
        app.logs.last().map(String::as_str),
        Some("Removed repo teamx/app1")
    );
}

#[test]
fn bare_repo_argument_adds() {
    let mut app = App::new(Config::default());
    let effects = app.execute_command("/repo teamx/app1").expect("alias runs");
    assert_eq!(app.config.repos().len(), 1);
    assert_eq!(app.config.repos()[0].to_text(), "teamx/app1");
    assert_eq!(effects, vec![Effect::SaveConfig]);
    let effects = app.execute_command("/repo teamx/app1").expect("duplicate runs");
    assert_eq!(effects, Vec::new());
    assert_eq!(
        app.logs.last().map(String::as_str),
        Some("Repo teamx/app1 already exists")
    );
}

#[test]
fn repo_command_usage_errors() {
    let mut app = App::new(Config::default());
    let err = app.execute_command("/repo").expect_err("usage error");
    assert_eq!(
        err.message(),
        "usage: /repo add <workspace>/<repo> | /repo rm <workspace>/<repo>"
    );
    let err = app.execute_command("/repo add").expect_err("usage error");
    assert_eq!(err.message(), "usage: /repo add <workspace>/<repo>");
    let err = app.execute_command("/repo add nope").expect_err("parse error");
    assert_eq!(err.message(), "repo must be in the form workspace/repo");
    let err = app.execute_command("/repo rm").expect_err("usage error");
    assert_eq!(err.message(), "usage: /repo rm <workspace>/<repo>");
    let err = app.execute_command("/status").expect_err("usage error");
    assert_eq!(err.message(), "usage: /status <open|merged|declined|all>");
}

#[test]
fn unknown_and_unprefixed_commands_log_hints() {
    let mut app = App::new(Config::default());
    app.execute_command("hello").expect("hint runs");
    assert_eq!(
        app.logs.last().map(String::as_str),
        Some("Commands must start with '/'. Try /help.")
    );
    app.execute_command("/nonsense").expect("hint runs");
    assert_eq!(
        app.logs.last().map(String::as_str),
        Some("Unknown command. Try /help.")
    );
}

#[test]
fn autocomplete_suggests_in_catalog_order() {
    let mut app = App::new(Config::default());
    app.input = "/s".to_string();
    let names: Vec<&str> = app
        .command_suggestions()
        .iter()
        .map(|spec| spec.name)
        .collect();
    assert_eq!(names, vec!["/status", "/search"]);
    assert!(app.apply_command_completion());
    assert_eq!(app.input, "/status ");
    assert_eq!(app.command_suggestion_index, 0);
}

#[test]
fn autocomplete_selection_wraps() {
    let mut app = App::new(Config::default());
    app.input = "/s".to_string();
    app.move_command_selection(1);
    assert_eq!(app.command_suggestion_index, 1);
    app.move_command_selection(1);
    assert_eq!(app.command_suggestion_index, 0);
    app.move_command_selection(-1);
    assert_eq!(app.command_suggestion_index, 1);
}

#[test]
fn enter_completes_partial_command() {
    let mut app = App::new(Config::default());
    app.input = "/hel".to_string();
    let effects = app.handle_key(KeyInput::Enter);
    assert!(effects.is_empty());
    assert_eq!(app.input, "/help");
    assert!(app.logs.is_empty());
}

#[test]
fn enter_with_blank_input_and_no_rows_logs() {
    let mut app = App::new(Config::default());
    let effects = app.handle_key(KeyInput::Enter);
    assert!(effects.is_empty());
    assert_eq!(
        app.logs.last().map(String::as_str),
        Some("No pull request selected.")
    );
}

#[test]
fn enter_with_blank_input_opens_selection() {
    let mut app = loaded_app();
    app.selected_index = 1;
    let effects = app.handle_key(KeyInput::Enter);
    assert_eq!(effects, vec![Effect::OpenPullRequest(2)]);
    let url = app.open_pull_request(2).expect("selection resolves");
    assert_eq!(url, "https://example.invalid/alpha/one/42");
    app.log_pull_request_opened(2);
    assert_eq!(
        app.logs.last().map(String::as_str),
        Some("Opened alpha/one PR #42 in browser.")
    );
}

#[test]
fn open_pull_request_rejects_bad_indices() {
    let app = loaded_app();
    assert_eq!(
        app.open_pull_request(0).expect_err("zero fails").message(),
        "pull request index must be >= 1"
    );
    assert_eq!(
        app.open_pull_request(9).expect_err("nine fails").message(),
        "no pull request at index 9"
    );
}

#[test]
fn non_search_command_clears_active_search() {
    let mut app = loaded_app();
    app.handle_search_command(&vec!["42".to_string()]);
    assert_eq!(app.pull_requests.len(), 1);
    for c in "/repos".chars() {
        app.handle_key(KeyInput::Char(c));
    }
    app.handle_key(KeyInput::Enter);
    assert!(app.search_query.is_none());
    assert_eq!(app.pull_requests.len(), 4);
    assert!(app
        .logs
        .iter()
        .any(|l| l == "Search cleared due to non-search command."));
}

#[test]
fn navigation_saturates_at_bounds() {
    let mut app = loaded_app();
    app.handle_key(KeyInput::Up);
    assert_eq!(app.selected_index, 0);
    for _ in 0..10 {
        app.handle_key(KeyInput::Down);
    }
    assert_eq!(app.selected_index, 3);
    app.handle_key(KeyInput::Up);
    assert_eq!(app.selected_index, 2);
}

#[test]
fn typing_and_backspace_edit_the_input() {
    let mut app = App::new(Config::default());
    app.handle_key(KeyInput::Char('/'));
    app.handle_key(KeyInput::Char('q'));
    app.handle_key(KeyInput::Char('x'));
    app.handle_key(KeyInput::Backspace);
    assert_eq!(app.input, "/q");
    app.handle_key(KeyInput::Escape);
    assert!(app.should_quit);
}

#[test]
fn quit_command_sets_the_flag() {
    let mut app = App::new(Config::default());
    let effects = app.execute_command("/quit").expect("quit runs");
    assert!(effects.is_empty());
    assert!(app.should_quit);
}

#[test]
fn grouped_rows_have_headers_counts_and_numbering() {
    let mut app = loaded_app();
    app.selected_index = 2;
    let (rows, selected) = app.grouped_rows();
    let texts: Vec<(&str, bool)> = rows.iter().map(|(t, h)| (t.as_str(), *h)).collect();
    assert_eq!(
        texts,
        vec![
            ("alpha/one (2 PRs):", true),
            ("  1. #43 [OPEN] late arrival (alice)", false),
            ("  2. #42 [OPEN] fix the widget (alice)", false),
            ("beta/two (2 PRs):", true),
            ("  1. #7 [OPEN] newer change (alice)", false),
            ("  2. #5 [OPEN] older change (alice)", false),
        ]
    );
    assert_eq!(selected, Some(4));
}

#[test]
fn grouped_rows_singular_count() {
    let mut app = configured_app();
    app.refresh_pull_requests(vec![ok_fetch(
        "alpha",
        "one",
        vec![pr("alpha", "one", 9, "lone", "2024-01-01T00:00:00")],
    )]);
    let (rows, selected) = app.grouped_rows();
    assert_eq!(rows[0].0, "alpha/one (1 PR):");
    assert_eq!(selected, Some(1));
}

#[test]
fn refresh_request_needs_credentials_and_repos() {
    let mut app = App::new(Config::default());
    assert!(app.refresh_request().is_none());
    assert_eq!(
        app.logs.last().map(String::as_str),
        Some("Missing credentials. Set BITBUCKET_EMAIL and BITBUCKET_API_TOKEN.")
    );
    app.config.bitbucket_email = Some("me@example.com".to_string());
    app.config.bitbucket_api_token = Some("token-value".to_string());
    assert!(app.refresh_request().is_none());
    assert_eq!(
        app.logs.last().map(String::as_str),
        Some("No repos configured. Add repos via /repo add <workspace>/<repo>.")
    );
    app.config.add_repo(RepoRef::new("alpha".to_string(), "one".to_string()));
    let req = app.refresh_request().expect("request is ready");
    assert_eq!(req.email, "me@example.com");
    assert_eq!(req.repos.len(), 1);
    assert_eq!(req.status, PrStatus::Open);
}

#[test]
fn identity_failure_is_logged() {
    let mut app = configured_app();
    app.refresh_identity_failed("boom");
    assert_eq!(
        app.logs.last().map(String::as_str),
        Some("Failed to fetch current user: boom")
    );
}

#[test]
fn refresh_summary_mentions_active_search() {
    let mut app = loaded_app();
    app.handle_search_command(&vec!["42".to_string()]);
    app.refresh_pull_requests(vec![ok_fetch(
        "alpha",
        "one",
        vec![
            pr("alpha", "one", 42, "fix the widget", "2024-02-01T10:00:00"),
            pr("alpha", "one", 43, "late arrival", "2024-02-20T10:00:00"),
        ],
    )]);
    assert_eq!(app.pull_requests.len(), 1);
    assert_eq!(
        app.logs.last().map(String::as_str),
        Some("Loaded 1 matching PR(s) out of 2 total with status 'open' across 1 repo(s) | search='42'")
    );
}

#[test]
fn help_logs_usage_lines() {
    let mut app = App::new(Config::default());
    app.execute_command("/help").expect("help runs");
    assert_eq!(app.logs.len(), 3);
    assert!(app.logs[0].starts_with("Commands: /repo add"));
}

#[test]
fn repos_command_lists_in_insertion_order() {
    let mut app = configured_app();
    app.execute_command("/repos").expect("repos runs");
    let n = app.logs.len();
    assert_eq!(app.logs[n - 3], "Configured repos:");
    assert_eq!(app.logs[n - 2], "- alpha/one");
    assert_eq!(app.logs[n - 1], "- beta/two");
}
