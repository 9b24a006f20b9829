use myprs::config::{Config, EnvOverrides, ParseError, PrStatus, RepoRef};

fn no_env() -> EnvOverrides {
    EnvOverrides {
        email: None,
        api_token: None,
        status: None,
        base_url: None,
        repo_list: None,
        workspace: None,
        repo: None,
    }
}

#[test]
fn parses_repo_ref() {
    let repo = RepoRef::parse("team/project").expect("expected valid repo ref");
    assert_eq!(repo.workspace, "team");
    assert_eq!(repo.repo, "project");
}

#[test]
fn rejects_invalid_repo_ref() {
    assert!(RepoRef::parse("team").is_err());
    assert!(RepoRef::parse("team/project/extra").is_err());
    assert!(RepoRef::parse("/").is_err());
}

#[test]
fn parses_status_values() {
    assert_eq!(
        "open".parse::<PrStatus>().expect("open parse"),
        PrStatus::Open
    );
    assert_eq!(
        "MERGED".parse::<PrStatus>().expect("merged parse"),
        PrStatus::Merged
    );
    assert_eq!(
        "declined".parse::<PrStatus>().expect("declined parse"),
        PrStatus::Declined
    );
    assert_eq!("all".parse::<PrStatus>().expect("all parse"), PrStatus::All);
}

#[test]
fn parse_trims_components() {
    let repo = RepoRef::parse(" team / project ").expect("trimmed parse");
    assert_eq!(repo.workspace, "team");
    assert_eq!(repo.repo, "project");
}

#[test]
fn status_parse_reports_bad_text() {
    match PrStatus::parse("bogus") {
        Err(e) => assert_eq!(
            e.message(),
            "invalid status 'bogus'. expected: open|merged|declined|all"
        ),
        Ok(_) => panic!("bogus must not parse"),
    }
}

#[test]
fn status_labels_and_query_states() {
    assert_eq!(PrStatus::Open.label(), "open");
    assert_eq!(PrStatus::Merged.label(), "merged");
    assert_eq!(PrStatus::Declined.label(), "declined");
    assert_eq!(PrStatus::All.label(), "all");
    assert_eq!(PrStatus::Open.as_query_state(), Some("OPEN"));
    assert_eq!(PrStatus::Merged.as_query_state(), Some("MERGED"));
    assert_eq!(PrStatus::Declined.as_query_state(), Some("DECLINED"));
    assert_eq!(PrStatus::All.as_query_state(), None);
}

#[test]
fn add_and_remove_repo() {
    let mut config = Config::default();
    let a = RepoRef::new("ws".to_string(), "one".to_string());
    assert!(config.add_repo(a.duplicate()));
    assert!(!config.add_repo(a.duplicate()));
    assert_eq!(config.repos().len(), 1);
    assert!(config.remove_repo(&a));
    assert!(!config.remove_repo(&a));
    assert_eq!(config.repos().len(), 0);
}

#[test]
fn repo_ref_round_trip_text() {
    let r = RepoRef::new("team".to_string(), "proj".to_string());
    assert_eq!(r.to_text(), "team/proj");
}

#[test]
fn parse_repo_list_handles_commas_and_blanks() {
    let list = myprs::config::parse_repo_list("a/b, c/d , ,").expect("list parses");
    assert_eq!(list.len(), 2);
    assert_eq!(list[0].to_text(), "a/b");
    assert_eq!(list[1].to_text(), "c/d");
    assert!(myprs::config::parse_repo_list("a/b, nope").is_err());
}

#[test]
fn apply_overrides_env_then_cli() {
    let mut config = Config::default();
    let env = EnvOverrides {
        email: Some("env@example.com".to_string()),
        api_token: Some("token-value".to_string()),
        status: Some("merged".to_string()),
        base_url: None,
        repo_list: Some("ws/one, ws/two".to_string()),
        workspace: Some("ws".to_string()),
        repo: Some("three".to_string()),
    };
    let changed = config
        .apply_env_and_cli(
            env,
            vec!["cli/repo".to_string()],
            Some("cli@example.com".to_string()),
            None,
            Some(PrStatus::Declined),
            Some("https://example.invalid/api".to_string()),
        )
        .expect("overrides apply");
    assert!(changed);
    assert_eq!(config.bitbucket_email.as_deref(), Some("cli@example.com"));
    assert_eq!(config.status(), PrStatus::Declined);
    assert_eq!(config.bitbucket_base_url, "https://example.invalid/api");
    let texts: Vec<String> = config.repos().iter().map(|r| r.to_text()).collect();
    assert_eq!(texts, vec!["ws/one", "ws/two", "ws/three", "cli/repo"]);
}

#[test]
fn apply_overrides_rejects_bad_env_status() {
    let mut config = Config::default();
    let mut env = no_env();
    env.status = Some("sideways".to_string());
    match config.apply_env_and_cli(env, Vec::new(), None, None, None, None) {
        Err(ParseError::InvalidStatus(t)) => assert_eq!(t, "sideways"),
        _ => panic!("expected an invalid status"),
    }
}

#[test]
fn apply_overrides_without_changes() {
    let mut config = Config::default();
    let changed = config
        .apply_env_and_cli(no_env(), Vec::new(), None, None, None, None)
        .expect("empty overrides apply");
    assert!(!changed);
}
