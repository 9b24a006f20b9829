//! The interactive application state machine: the command interpreter, the
//! pull-request aggregate with its search filter, the autocomplete engine,
//! and the selection state. All terminal, network, and file work stays with
//! the caller, which runs the returned effects and feeds results back in.
use crate::catalog::{catalog_spec, command_specs, CommandSpec, CommandSpecV};
use crate::config::{
    add_repo_model, parse_error_text, parse_repo_spec, parse_status_spec, repo_text,
    status_label, without_repo, Config, ConfigV, ParseError, PrStatus, RepoRef, RepoRefV,
};
use crate::pull_request::{pr_matches, pr_matches_exec, prs_sorted, PrV, PullRequest};
use crate::text::{
    dec_str, is_space_char, join_spaced, lower_seq, split_tokens, str_eq, str_eq_ignore_case,
    str_starts_with, tokens_spec, trim, trim_spec, trim_start_spec, u64_to_string,
};
use vstd::prelude::*;

verus! {

/// Outside work the caller must perform after a state transition, in order:
/// persist the configuration, run a refresh, or open a pull request (by its
/// one-based position in the filtered view) in the browser.
#[derive(PartialEq, Eq, Structural, Clone, Copy, Debug)]
pub enum Effect {
    SaveConfig,
    Refresh,
    OpenPullRequest(usize),
}

/// A command failure, surfaced as one `Command failed:` log line.
#[derive(Debug)]
pub enum AppError {
    /// `/repo` with no arguments.
    UsageRepo,
    /// `/repo add` with no repository.
    UsageRepoAdd,
    /// `/repo rm` with no repository.
    UsageRepoRm,
    /// `/status` with no argument.
    UsageStatus,
    /// A repository or status argument that does not parse.
    BadParse(ParseError),
    /// A pull-request index of zero.
    IndexZero,
    /// A pull-request index past the filtered view.
    NoSuchIndex(usize),
}

/// The message text that `AppError::message` produces.
pub open spec fn app_error_text(e: &AppError) -> Seq<char> {
    match e {
        AppError::UsageRepo => "usage: /repo add <workspace>/<repo> | /repo rm <workspace>/<repo>"@,
        AppError::UsageRepoAdd => "usage: /repo add <workspace>/<repo>"@,
        AppError::UsageRepoRm => "usage: /repo rm <workspace>/<repo>"@,
        AppError::UsageStatus => "usage: /status <open|merged|declined|all>"@,
        AppError::BadParse(p) => parse_error_text(p),
        AppError::IndexZero => "pull request index must be >= 1"@,
        AppError::NoSuchIndex(i) => "no pull request at index "@ + dec_str(*i as nat),
    }
}

impl AppError {
    /// The human-readable message for this failure.
    pub fn message(&self) -> (r: String)
        ensures
            r@ == app_error_text(self),
    {
        match self {
            AppError::UsageRepo => {
                proof {
                    reveal_strlit(
                        "usage: /repo add <workspace>/<repo> | /repo rm <workspace>/<repo>",
                    );
                }
                String::from_str("usage: /repo add <workspace>/<repo> | /repo rm <workspace>/<repo>")
            },
            AppError::UsageRepoAdd => String::from_str("usage: /repo add <workspace>/<repo>"),
            AppError::UsageRepoRm => String::from_str("usage: /repo rm <workspace>/<repo>"),
            AppError::UsageStatus => String::from_str("usage: /status <open|merged|declined|all>"),
            AppError::BadParse(p) => p.message(),
            AppError::IndexZero => String::from_str("pull request index must be >= 1"),
            AppError::NoSuchIndex(i) => {
                proof {
                    reveal_strlit("no pull request at index ");
                }
                let mut m = String::from_str("no pull request at index ");
                m.append(u64_to_string(*i as u64).as_str());
                proof {
                    assert(m@ =~= app_error_text(self));
                }
                m
            },
        }
    }
}

/// The mathematical value of the application state.
#[verifier::ext_equal]
pub ghost struct AppV {
    pub config: ConfigV,
    pub status_filter: PrStatus,
    pub input: Seq<char>,
    pub logs: Seq<Seq<char>>,
    pub pull_requests: Seq<PrV>,
    pub all_pull_requests: Seq<PrV>,
    pub search_query: Option<Seq<char>>,
    pub selected_index: int,
    pub command_suggestion_index: int,
    pub should_quit: bool,
}

/// The application state: configuration, the aggregate of fetched pull
/// requests with its filtered view, input and selection state, and the log.
pub struct App {
    pub config: Config,
    pub status_filter: PrStatus,
    pub input: String,
    pub logs: Vec<String>,
    pub pull_requests: Vec<PullRequest>,
    pub all_pull_requests: Vec<PullRequest>,
    pub search_query: Option<String>,
    pub selected_index: usize,
    pub command_suggestion_index: usize,
    pub should_quit: bool,
    pub commands: Vec<CommandSpec>,
}

impl View for App {
    type V = AppV;

    open spec fn view(&self) -> AppV {
        AppV {
            config: self.config@,
            status_filter: self.status_filter,
            input: self.input@,
            logs: self.logs.deep_view(),
            pull_requests: self.pull_requests.deep_view(),
            all_pull_requests: self.all_pull_requests.deep_view(),
            search_query: self.search_query.deep_view(),
            selected_index: self.selected_index as int,
            command_suggestion_index: self.command_suggestion_index as int,
            should_quit: self.should_quit,
        }
    }
}

/// The query actually applied: the stored text trimmed and case-folded, or
/// nothing when that leaves nothing.
pub open spec fn active_query(q: Option<Seq<char>>) -> Option<Seq<char>> {
    match q {
        None => None,
        Some(s) => {
            let t = lower_seq(trim_spec(s));
            if t.len() == 0 {
                None
            } else {
                Some(t)
            }
        },
    }
}

/// The pull requests that match the query, in their original order.
pub open spec fn matching_prs(s: Seq<PrV>, q: Seq<char>) -> Seq<PrV>
    decreases s.len(),
{
    if s.len() == 0 {
        Seq::empty()
    } else if pr_matches(s[0], q) {
        seq![s[0]] + matching_prs(s.drop_first(), q)
    } else {
        matching_prs(s.drop_first(), q)
    }
}

/// The filtered view: everything, or only the matches of the active query.
pub open spec fn filtered_model(all: Seq<PrV>, q: Option<Seq<char>>) -> Seq<PrV> {
    match active_query(q) {
        None => all,
        Some(t) => matching_prs(all, t),
    }
}

/// Where the selection lands when the view has `len` rows: unchanged while
/// in range, the last row when the view shrank, the top when it is empty.
pub open spec fn clamp_index(sel: int, len: int) -> int {
    if len == 0 {
        0
    } else if sel < len {
        sel
    } else {
        len - 1
    }
}

impl App {
    /// The standing invariant: the command catalog is fixed, the tracked
    /// repositories have no duplicates, the filtered view is exactly the
    /// active query's matches, and the selection is in range.
    pub open spec fn wf(&self) -> bool {
        &&& self.commands.deep_view() == catalog_spec()
        &&& self@.config.wf()
        &&& self@.pull_requests == filtered_model(self@.all_pull_requests, self@.search_query)
        &&& self@.selected_index == clamp_index(self@.selected_index, self@.pull_requests.len() as int)
        &&& self@.command_suggestion_index < 8
    }

    /// A fresh application over a configuration: nothing fetched, nothing
    /// typed, the configured status filter active.
    pub fn new(config: Config) -> (r: Self)
        ensures
            r@ == (AppV {
                config: config@,
                status_filter: config@.default_status,
                input: Seq::empty(),
                logs: Seq::empty(),
                pull_requests: Seq::empty(),
                all_pull_requests: Seq::empty(),
                search_query: None,
                selected_index: 0,
                command_suggestion_index: 0,
                should_quit: false,
            }),
            config@.wf() ==> r.wf(),
    {
        let status_filter = config.status();
        let r = Self {
            config,
            status_filter,
            input: String::new(),
            logs: Vec::new(),
            pull_requests: Vec::new(),
            all_pull_requests: Vec::new(),
            search_query: None,
            selected_index: 0,
            command_suggestion_index: 0,
            should_quit: false,
            commands: command_specs(),
        };
        proof {
            assert(r@ =~~= (AppV {
                config: r.config@,
                status_filter: r.config@.default_status,
                input: Seq::empty(),
                logs: Seq::empty(),
                pull_requests: Seq::empty(),
                all_pull_requests: Seq::empty(),
                search_query: None,
                selected_index: 0,
                command_suggestion_index: 0,
                should_quit: false,
            }));
        }
        r
    }

    /// Appends one line to the log.
    pub fn log(&mut self, message: &str)
        ensures
            (*final(self))@ == (AppV { logs: old(self)@.logs.push(message@), ..old(self)@ }),
            final(self).commands.deep_view() == old(self).commands.deep_view(),
            old(self).wf() ==> final(self).wf(),
    {
        self.logs.push(message.to_owned());
        proof {
            assert(self@ =~~= (AppV { logs: old(self)@.logs.push(message@), ..old(self)@ }));
        }
    }

    /// Recomputes the filtered view from the full collection and the stored
    /// query, clamping the selection to the new view.
    #[verifier::loop_isolation(false)]
    pub fn apply_search_filter(&mut self)
        ensures
            (*final(self))@ == (AppV {
                pull_requests: filtered_model(old(self)@.all_pull_requests, old(self)@.search_query),
                selected_index: clamp_index(
                    old(self)@.selected_index,
                    filtered_model(
                        old(self)@.all_pull_requests,
                        old(self)@.search_query,
                    ).len() as int,
                ),
                ..old(self)@
            }),
            final(self).commands.deep_view() == old(self).commands.deep_view(),
    {
        let ghost allv = self@.all_pull_requests;
        let ghost qv = self@.search_query;
        let use_all: bool;
        let mut trimmed = String::new();
        match &self.search_query {
            None => {
                use_all = true;
            },
            Some(raw) => {
                let t = trim(raw.as_str());
                if t.unicode_len() == 0 {
                    use_all = true;
                } else {
                    use_all = false;
                    trimmed = t.to_owned();
                }
            },
        }
        proof {
            if use_all {
                assert(active_query(qv) is None);
            } else {
                assert(lower_seq(trimmed@).len() == trimmed@.len());
                assert(active_query(qv) == Some(lower_seq(trimmed@)));
            }
        }
        let mut picked: Vec<PullRequest> = Vec::new();
        let mut i: usize = 0;
        proof {
            assert(allv.skip(0) =~= allv);
        }
        while i < self.all_pull_requests.len()
            invariant
                i <= self.all_pull_requests.len(),
                allv == self@.all_pull_requests,
                allv.len() == self.all_pull_requests@.len(),
                use_all ==> picked.deep_view() =~= allv.take(i as int),
                !use_all ==> matching_prs(allv, lower_seq(trimmed@)) == picked.deep_view()
                    + matching_prs(allv.skip(i as int), lower_seq(trimmed@)),
            decreases self.all_pull_requests.len() - i,
        {
            let ghost dv = picked.deep_view();
            proof {
                assert(allv[i as int] == self.all_pull_requests@[i as int].deep_view());
                assert(allv.skip(i as int)[0] == allv[i as int]);
                assert(allv.skip(i as int).drop_first() =~= allv.skip(i + 1));
            }
            if use_all {
                picked.push(self.all_pull_requests[i].duplicate());
                proof {
                    assert(picked.deep_view() =~= allv.take(i + 1));
                }
            } else {
                if pr_matches_exec(&self.all_pull_requests[i], trimmed.as_str()) {
                    picked.push(self.all_pull_requests[i].duplicate());
                    proof {
                        assert(picked.deep_view() =~= dv.push(allv[i as int]));
                        assert(dv.push(allv[i as int]) + matching_prs(
                            allv.skip(i + 1),
                            lower_seq(trimmed@),
                        ) =~= dv + (seq![allv[i as int]] + matching_prs(
                            allv.skip(i + 1),
                            lower_seq(trimmed@),
                        )));
                    }
                }
            }
            i += 1;
        }
        proof {
            assert(allv.take(allv.len() as int) =~= allv);
            assert(allv.skip(allv.len() as int) =~= Seq::<PrV>::empty());
            if !use_all {
                assert(matching_prs(Seq::<PrV>::empty(), lower_seq(trimmed@))
                    == Seq::<PrV>::empty());
                assert(picked.deep_view() + Seq::<PrV>::empty() =~= picked.deep_view());
            }
            assert(picked.deep_view() =~= filtered_model(allv, qv));
        }
        let len = picked.len();
        self.pull_requests = picked;
        if len == 0 {
            self.selected_index = 0;
        } else if self.selected_index >= len {
            self.selected_index = len - 1;
        }
        proof {
            assert(self@ =~~= (AppV {
                pull_requests: filtered_model(allv, qv),
                selected_index: clamp_index(
                    old(self)@.selected_index,
                    filtered_model(allv, qv).len() as int,
                ),
                ..old(self)@
            }));
        }
    }
}


/// One log line appended.
pub open spec fn log_model(a: AppV, line: Seq<char>) -> AppV {
    AppV { logs: a.logs.push(line), ..a }
}

/// The filtered view and selection recomputed from the full collection and
/// the stored query.
pub open spec fn refilter_model(a: AppV) -> AppV {
    let f = filtered_model(a.all_pull_requests, a.search_query);
    AppV {
        pull_requests: f,
        selected_index: clamp_index(a.selected_index, f.len() as int),
        ..a
    }
}

/// An active search dropped and logged; without one, nothing happens.
pub open spec fn clear_search_model(a: AppV) -> AppV {
    if a.search_query is None {
        a
    } else {
        log_model(
            refilter_model(AppV { search_query: None, ..a }),
            "Search cleared due to non-search command."@,
        )
    }
}

/// The `/search` command: its arguments joined with single spaces and
/// trimmed become the query; an empty query or the word `clear` (any case)
/// drops the search instead. The log reports the outcome.
pub open spec fn search_cmd_model(a: AppV, args: Seq<Seq<char>>) -> AppV {
    let q = trim_spec(join_spaced(args));
    if q.len() == 0 || lower_seq(q) == "clear"@ {
        log_model(refilter_model(AppV { search_query: None, ..a }), "Search cleared."@)
    } else {
        let a2 = refilter_model(AppV { search_query: Some(q), ..a });
        log_model(
            a2,
            "Search set to '"@ + q + "'. "@ + dec_str(a2.pull_requests.len() as nat)
                + " matching PR(s)."@,
        )
    }
}

impl App {
    /// Drops an active search before a non-search command runs, so the
    /// command sees the full collection; logs when it does so.
    pub fn clear_search_filter_if_active(&mut self)
        ensures
            (*final(self))@ == clear_search_model(old(self)@),
            final(self).commands.deep_view() == old(self).commands.deep_view(),
    {
        if self.search_query.is_none() {
            return ;
        }
        self.search_query = None;
        self.apply_search_filter();
        self.log("Search cleared due to non-search command.");
        proof {
            assert(self@ =~~= clear_search_model(old(self)@));
        }
    }

    /// The `/search` command.
    pub fn handle_search_command(&mut self, args: &Vec<String>)
        ensures
            (*final(self))@ == search_cmd_model(old(self)@, args.deep_view()),
            final(self).commands.deep_view() == old(self).commands.deep_view(),
    {
        proof {
            reveal_strlit("clear");
            crate::config::lemma_lower_lit("clear"@);
            assert(args.deep_view() =~= args@.map_values(|t: String| t@));
        }
        let joined = crate::text::join_with_spaces(args);
        let query = trim(joined.as_str()).to_owned();
        if query.as_str().is_empty() || str_eq_ignore_case(query.as_str(), "clear") {
            self.search_query = None;
            self.apply_search_filter();
            self.log("Search cleared.");
            proof {
                assert(self@ =~~= search_cmd_model(old(self)@, args.deep_view()));
            }
            return ;
        }
        let ghost qv = query@;
        self.search_query = Some(query.clone());
        self.apply_search_filter();
        proof {
            reveal_strlit("Search set to '");
            reveal_strlit("'. ");
            reveal_strlit(" matching PR(s).");
        }
        let mut msg = String::from_str("Search set to '");
        msg.append(query.as_str());
        msg.append("'. ");
        msg.append(u64_to_string(self.pull_requests.len() as u64).as_str());
        msg.append(" matching PR(s).");
        proof {
            assert(msg@ =~= "Search set to '"@ + qv + "'. "@ + dec_str(
                self.pull_requests@.len() as nat,
            ) + " matching PR(s)."@);
        }
        self.log(msg.as_str());
        proof {
            assert(self@ =~~= search_cmd_model(old(self)@, args.deep_view()));
        }
    }
}


/// The mathematical value of an `AppError`.
pub ghost enum AppErrV {
    UsageRepo,
    UsageRepoAdd,
    UsageRepoRm,
    UsageStatus,
    RepoFormat,
    Status(Seq<char>),
    IndexZero,
    NoSuchIndex(int),
}

/// The mathematical value of a concrete error.
pub open spec fn err_view(e: &AppError) -> AppErrV {
    match e {
        AppError::UsageRepo => AppErrV::UsageRepo,
        AppError::UsageRepoAdd => AppErrV::UsageRepoAdd,
        AppError::UsageRepoRm => AppErrV::UsageRepoRm,
        AppError::UsageStatus => AppErrV::UsageStatus,
        AppError::BadParse(p) => match p {
            ParseError::InvalidRepoFormat => AppErrV::RepoFormat,
            ParseError::InvalidStatus(s) => AppErrV::Status(s@),
        },
        AppError::IndexZero => AppErrV::IndexZero,
        AppError::NoSuchIndex(i) => AppErrV::NoSuchIndex(*i as int),
    }
}

/// The message text of an error value.
pub open spec fn err_text(e: AppErrV) -> Seq<char> {
    match e {
        AppErrV::UsageRepo => "usage: /repo add <workspace>/<repo> | /repo rm <workspace>/<repo>"@,
        AppErrV::UsageRepoAdd => "usage: /repo add <workspace>/<repo>"@,
        AppErrV::UsageRepoRm => "usage: /repo rm <workspace>/<repo>"@,
        AppErrV::UsageStatus => "usage: /status <open|merged|declined|all>"@,
        AppErrV::RepoFormat => "repo must be in the form workspace/repo"@,
        AppErrV::Status(s) => "invalid status '"@ + s
            + "'. expected: open|merged|declined|all"@,
        AppErrV::IndexZero => "pull request index must be >= 1"@,
        AppErrV::NoSuchIndex(i) => if i >= 0 {
            "no pull request at index "@ + dec_str(i as nat)
        } else {
            "no pull request at index "@
        },
    }
}

/// The two message views agree on every concrete error.
pub proof fn lemma_err_text(e: &AppError)
    ensures
        app_error_text(e) == err_text(err_view(e)),
{
}

/// What a command did: the new state with the effects the caller must run,
/// or a failure.
#[verifier::ext_equal]
pub ghost enum CmdOutcome {
    Done { app: AppV, effects: Seq<Effect> },
    Fail { err: AppErrV },
}

/// Adding one repository through a command: the configuration gains it
/// unless already present, the log reports which, and a change is persisted.
pub open spec fn add_repo_outcome(a: AppV, r: RepoRefV) -> CmdOutcome {
    let q = add_repo_model(a.config, r);
    if q.1 {
        CmdOutcome::Done {
            app: log_model(AppV { config: q.0, ..a }, "Added repo "@ + repo_text(r)),
            effects: seq![Effect::SaveConfig],
        }
    } else {
        CmdOutcome::Done {
            app: log_model(a, "Repo "@ + repo_text(r) + " already exists"@),
            effects: Seq::empty(),
        }
    }
}

/// Removing one repository through a command.
pub open spec fn rm_repo_outcome(a: AppV, r: RepoRefV) -> CmdOutcome {
    let present = crate::config::repos_contain(a.config.repos, r);
    if present {
        CmdOutcome::Done {
            app: log_model(
                AppV {
                    config: ConfigV { repos: without_repo(a.config.repos, r), ..a.config },
                    ..a
                },
                "Removed repo "@ + repo_text(r),
            ),
            effects: seq![Effect::SaveConfig],
        }
    } else {
        CmdOutcome::Done {
            app: log_model(a, "Repo "@ + repo_text(r) + " not found"@),
            effects: Seq::empty(),
        }
    }
}

/// The `/repo` command: `add` and `rm`/`remove` subcommands, with a bare
/// reference accepted as an alias for `add`.
pub open spec fn repo_cmd_model(a: AppV, args: Seq<Seq<char>>) -> CmdOutcome {
    if args.len() == 0 {
        CmdOutcome::Fail { err: AppErrV::UsageRepo }
    } else if args[0] == "add"@ {
        if args.len() < 2 {
            CmdOutcome::Fail { err: AppErrV::UsageRepoAdd }
        } else {
            match parse_repo_spec(args[1]) {
                None => CmdOutcome::Fail { err: AppErrV::RepoFormat },
                Some(r) => add_repo_outcome(a, r),
            }
        }
    } else if args[0] == "rm"@ || args[0] == "remove"@ {
        if args.len() < 2 {
            CmdOutcome::Fail { err: AppErrV::UsageRepoRm }
        } else {
            match parse_repo_spec(args[1]) {
                None => CmdOutcome::Fail { err: AppErrV::RepoFormat },
                Some(r) => rm_repo_outcome(a, r),
            }
        }
    } else {
        match parse_repo_spec(args[0]) {
            None => CmdOutcome::Fail { err: AppErrV::RepoFormat },
            Some(r) => add_repo_outcome(a, r),
        }
    }
}

/// The `/status` command: the parsed status becomes the active filter, is
/// persisted when it differs from the configured one, and a refresh runs.
pub open spec fn status_cmd_model(a: AppV, args: Seq<Seq<char>>) -> CmdOutcome {
    if args.len() == 0 {
        CmdOutcome::Fail { err: AppErrV::UsageStatus }
    } else {
        match parse_status_spec(args[0]) {
            None => CmdOutcome::Fail { err: AppErrV::Status(args[0]) },
            Some(st) => {
                let changed = a.config.default_status != st;
                let a2 = log_model(
                    AppV {
                        status_filter: st,
                        config: ConfigV { default_status: st, ..a.config },
                        ..a
                    },
                    "Status filter set to "@ + status_label(st) + ". Refreshing..."@,
                );
                CmdOutcome::Done {
                    app: a2,
                    effects: if changed {
                        seq![Effect::SaveConfig, Effect::Refresh]
                    } else {
                        seq![Effect::Refresh]
                    },
                }
            },
        }
    }
}

/// One `- workspace/repo` line for each tracked repository, in order.
pub open spec fn repo_lines(rs: Seq<RepoRefV>) -> Seq<Seq<char>>
    decreases rs.len(),
{
    if rs.len() == 0 {
        Seq::empty()
    } else {
        seq!["- "@ + repo_text(rs[0])] + repo_lines(rs.drop_first())
    }
}

/// The `/repos` command: a hint when nothing is tracked, else a header line
/// and one line per repository.
pub open spec fn show_repos_model(a: AppV) -> AppV {
    if a.config.repos.len() == 0 {
        log_model(a, "No repos configured. Add one with /repo add <workspace>/<repo>."@)
    } else {
        AppV { logs: a.logs + seq!["Configured repos:"@] + repo_lines(a.config.repos), ..a }
    }
}

impl App {
    /// The `/repo` command.
    #[verifier::loop_isolation(false)]
    pub fn handle_repo_command(&mut self, args: &Vec<String>) -> (r: Result<Vec<Effect>, AppError>)
        ensures
            match r {
                Ok(effects) => repo_cmd_model(old(self)@, args.deep_view())
                    == (CmdOutcome::Done { app: (*final(self))@, effects: effects@ }),
                Err(e) => repo_cmd_model(old(self)@, args.deep_view()) == (CmdOutcome::Fail {
                    err: err_view(&e),
                }) && *final(self) == *old(self),
            },
            final(self).commands.deep_view() == old(self).commands.deep_view(),
            old(self).wf() ==> final(self).wf(),
    {
        proof {
            reveal_strlit("add");
            reveal_strlit("rm");
            reveal_strlit("remove");
        }
        if args.len() == 0 {
            return Err(AppError::UsageRepo);
        }
        proof {
            assert(args.deep_view()[0] == args@[0].deep_view());
            if args@.len() >= 2 {
                assert(args.deep_view()[1] == args@[1].deep_view());
            }
        }
        if str_eq(args[0].as_str(), "add") {
            if args.len() < 2 {
                return Err(AppError::UsageRepoAdd);
            }
            let rr = match RepoRef::parse(args[1].as_str()) {
                Ok(rr) => rr,
                Err(_) => {
                    return Err(AppError::BadParse(ParseError::InvalidRepoFormat));
                },
            };
            Ok(self.add_repo_logged(rr))
        } else if str_eq(args[0].as_str(), "rm") || str_eq(args[0].as_str(), "remove") {
            if args.len() < 2 {
                return Err(AppError::UsageRepoRm);
            }
            let rr = match RepoRef::parse(args[1].as_str()) {
                Ok(rr) => rr,
                Err(_) => {
                    return Err(AppError::BadParse(ParseError::InvalidRepoFormat));
                },
            };
            Ok(self.rm_repo_logged(rr))
        } else {
            let rr = match RepoRef::parse(args[0].as_str()) {
                Ok(rr) => rr,
                Err(_) => {
                    return Err(AppError::BadParse(ParseError::InvalidRepoFormat));
                },
            };
            Ok(self.add_repo_logged(rr))
        }
    }

    /// Adds a repository and logs the outcome.
    fn add_repo_logged(&mut self, rr: RepoRef) -> (r: Vec<Effect>)
        ensures
            add_repo_outcome(old(self)@, rr@) == (CmdOutcome::Done {
                app: (*final(self))@,
                effects: r@,
            }),
            final(self).commands.deep_view() == old(self).commands.deep_view(),
            old(self).wf() ==> final(self).wf(),
    {
        proof {
            reveal_strlit("Added repo ");
            reveal_strlit("Repo ");
            reveal_strlit(" already exists");
        }
        let text = rr.to_text();
        let added = self.config.add_repo(rr);
        let mut effects: Vec<Effect> = Vec::new();
        if added {
            let mut msg = String::from_str("Added repo ");
            msg.append(text.as_str());
            proof {
                assert(msg@ =~= "Added repo "@ + repo_text(rr@));
            }
            self.log(msg.as_str());
            effects.push(Effect::SaveConfig);
            proof {
                assert(effects@ =~= seq![Effect::SaveConfig]);
                assert(add_repo_outcome(old(self)@, rr@) == (CmdOutcome::Done {
                    app: self@,
                    effects: effects@,
                }));
            }
        } else {
            let mut msg = String::from_str("Repo ");
            msg.append(text.as_str());
            msg.append(" already exists");
            proof {
                assert(msg@ =~= "Repo "@ + repo_text(rr@) + " already exists"@);
            }
            self.log(msg.as_str());
            proof {
                assert(effects@ =~= Seq::<Effect>::empty());
                assert(add_repo_outcome(old(self)@, rr@) == (CmdOutcome::Done {
                    app: self@,
                    effects: effects@,
                }));
            }
        }
        effects
    }

    /// Removes a repository and logs the outcome.
    fn rm_repo_logged(&mut self, rr: RepoRef) -> (r: Vec<Effect>)
        ensures
            rm_repo_outcome(old(self)@, rr@) == (CmdOutcome::Done {
                app: (*final(self))@,
                effects: r@,
            }),
            final(self).commands.deep_view() == old(self).commands.deep_view(),
            old(self).wf() ==> final(self).wf(),
    {
        proof {
            reveal_strlit("Removed repo ");
            reveal_strlit("Repo ");
            reveal_strlit(" not found");
        }
        let text = rr.to_text();
        let removed = self.config.remove_repo(&rr);
        let mut effects: Vec<Effect> = Vec::new();
        if removed {
            let mut msg = String::from_str("Removed repo ");
            msg.append(text.as_str());
            proof {
                assert(msg@ =~= "Removed repo "@ + repo_text(rr@));
            }
            self.log(msg.as_str());
            effects.push(Effect::SaveConfig);
            proof {
                assert(effects@ =~= seq![Effect::SaveConfig]);
                assert(crate::config::repos_contain(old(self)@.config.repos, rr@));
                assert(self@ =~~= log_model(
                    AppV {
                        config: ConfigV {
                            repos: without_repo(old(self)@.config.repos, rr@),
                            ..old(self)@.config
                        },
                        ..old(self)@
                    },
                    "Removed repo "@ + repo_text(rr@),
                ));
                assert(rm_repo_outcome(old(self)@, rr@) =~~= (CmdOutcome::Done {
                    app: self@,
                    effects: effects@,
                }));
            }
        } else {
            let mut msg = String::from_str("Repo ");
            msg.append(text.as_str());
            msg.append(" not found");
            proof {
                assert(msg@ =~= "Repo "@ + repo_text(rr@) + " not found"@);
            }
            self.log(msg.as_str());
            proof {
                assert(effects@ =~= Seq::<Effect>::empty());
                assert(!crate::config::repos_contain(old(self)@.config.repos, rr@));
                crate::config::lemma_without_repo_absent(old(self)@.config.repos, rr@);
                assert(self@.config =~~= old(self)@.config);
                assert(self@ =~~= log_model(
                    old(self)@,
                    "Repo "@ + repo_text(rr@) + " not found"@,
                ));
                assert(rm_repo_outcome(old(self)@, rr@) =~~= (CmdOutcome::Done {
                    app: self@,
                    effects: effects@,
                }));
            }
        }
        effects
    }

    /// The `/status` command.
    pub fn handle_status_command(&mut self, args: &Vec<String>) -> (r: Result<
        Vec<Effect>,
        AppError,
    >)
        ensures
            match r {
                Ok(effects) => status_cmd_model(old(self)@, args.deep_view())
                    == (CmdOutcome::Done { app: (*final(self))@, effects: effects@ }),
                Err(e) => status_cmd_model(old(self)@, args.deep_view()) == (CmdOutcome::Fail {
                    err: err_view(&e),
                }) && *final(self) == *old(self),
            },
            final(self).commands.deep_view() == old(self).commands.deep_view(),
            old(self).wf() ==> final(self).wf(),
    {
        if args.len() == 0 {
            return Err(AppError::UsageStatus);
        }
        proof {
            assert(args.deep_view()[0] == args@[0].deep_view());
        }
        let st = match PrStatus::parse(args[0].as_str()) {
            Ok(st) => st,
            Err(e) => {
                return Err(AppError::BadParse(e));
            },
        };
        self.status_filter = st;
        let changed = self.config.set_status(st);
        proof {
            reveal_strlit("Status filter set to ");
            reveal_strlit(". Refreshing...");
        }
        let mut msg = String::from_str("Status filter set to ");
        msg.append(st.label());
        msg.append(". Refreshing...");
        proof {
            assert(msg@ =~= "Status filter set to "@ + status_label(st) + ". Refreshing..."@);
        }
        self.log(msg.as_str());
        let mut effects: Vec<Effect> = Vec::new();
        if changed {
            effects.push(Effect::SaveConfig);
        }
        effects.push(Effect::Refresh);
        proof {
            if changed {
                assert(effects@ =~= seq![Effect::SaveConfig, Effect::Refresh]);
            } else {
                assert(effects@ =~= seq![Effect::Refresh]);
            }
            assert(status_cmd_model(old(self)@, args.deep_view()) == (CmdOutcome::Done {
                app: self@,
                effects: effects@,
            }));
        }
        Ok(effects)
    }

    /// The `/repos` command.
    #[verifier::loop_isolation(false)]
    pub fn show_repos(&mut self)
        ensures
            (*final(self))@ == show_repos_model(old(self)@),
            final(self).commands.deep_view() == old(self).commands.deep_view(),
            old(self).wf() ==> final(self).wf(),
    {
        proof {
            reveal_strlit("- ");
        }
        if self.config.repos.len() == 0 {
            self.log("No repos configured. Add one with /repo add <workspace>/<repo>.");
            proof {
                assert(self@ =~~= show_repos_model(old(self)@));
            }
            return ;
        }
        self.log("Configured repos:");
        let ghost rs = old(self)@.config.repos;
        let ghost base = self@.logs;
        let mut i: usize = 0;
        proof {
            assert(rs.skip(0) =~= rs);
        }
        while i < self.config.repos.len()
            invariant
                i <= self.config.repos.len(),
                rs.len() == self.config.repos@.len(),
                self@.config == old(self)@.config,
                rs == self@.config.repos,
                self.commands.deep_view() == old(self).commands.deep_view(),
                self@ == (AppV { logs: self@.logs, ..old(self)@ }),
                base + repo_lines(rs) =~= self@.logs + repo_lines(rs.skip(i as int)),
            decreases self.config.repos.len() - i,
        {
            proof {
                assert(rs.skip(i as int)[0] == rs[i as int]);
                assert(rs.skip(i as int).drop_first() =~= rs.skip(i + 1));
                assert(rs[i as int] == self.config.repos@[i as int].deep_view());
            }
            let mut line = String::from_str("- ");
            line.append(self.config.repos[i].to_text().as_str());
            proof {
                assert(line@ =~= "- "@ + repo_text(rs[i as int]));
            }
            let ghost logs_before = self@.logs;
            self.logs.push(line);
            proof {
                assert(self@.logs =~= logs_before.push(line@));
                assert(base + repo_lines(rs) =~= self@.logs + repo_lines(rs.skip(i + 1)));
            }
            i += 1;
        }
        proof {
            assert(rs.skip(rs.len() as int) =~= Seq::<RepoRefV>::empty());
            assert(self@.logs + Seq::<Seq<char>>::empty() =~= self@.logs);
            assert(self@.logs =~= base + repo_lines(rs));
            assert(self@ =~~= show_repos_model(old(self)@));
        }
    }
}


/// The command token being typed, if any: the input without leading
/// whitespace, when it starts with the prefix character and holds no
/// whitespace at all (the user is still typing the command name).
pub open spec fn query_spec(input: Seq<char>) -> Option<Seq<char>> {
    let t = trim_start_spec(input);
    if t.len() > 0 && t[0] == '/' && (forall|k: int| 0 <= k < t.len() ==> !is_space_char(t[k])) {
        Some(t)
    } else {
        None
    }
}

/// The catalog entries whose names start with the query, in catalog order.
pub open spec fn prefix_filtered(cs: Seq<CommandSpecV>, q: Seq<char>) -> Seq<CommandSpecV>
    decreases cs.len(),
{
    if cs.len() == 0 {
        Seq::empty()
    } else if q.is_prefix_of(cs[0].name) {
        seq![cs[0]] + prefix_filtered(cs.drop_first(), q)
    } else {
        prefix_filtered(cs.drop_first(), q)
    }
}

/// The autocomplete suggestions for the current input.
pub open spec fn suggestions_spec(input: Seq<char>) -> Seq<CommandSpecV> {
    match query_spec(input) {
        None => Seq::empty(),
        Some(q) => prefix_filtered(catalog_spec(), q),
    }
}

/// There are never more suggestions than catalog entries.
pub proof fn lemma_prefix_filtered_len(cs: Seq<CommandSpecV>, q: Seq<char>)
    ensures
        prefix_filtered(cs, q).len() <= cs.len(),
    decreases cs.len(),
{
    if cs.len() > 0 {
        lemma_prefix_filtered_len(cs.drop_first(), q);
    }
}

/// The selected suggestion: the cyclable index, clamped into the list.
pub open spec fn selected_suggestion(a: AppV) -> CommandSpecV
    recommends
        suggestions_spec(a.input).len() > 0,
{
    let s = suggestions_spec(a.input);
    s[if a.command_suggestion_index < s.len() {
        a.command_suggestion_index
    } else {
        s.len() - 1
    }]
}

/// Acceptance of the selected suggestion: the input becomes the command
/// name, with a trailing space when the command takes arguments.
pub open spec fn completion_model(a: AppV) -> (AppV, bool) {
    let s = suggestions_spec(a.input);
    if s.len() == 0 {
        (a, false)
    } else {
        let sel = selected_suggestion(a);
        (
            AppV {
                input: if sel.accepts_args {
                    sel.name + " "@
                } else {
                    sel.name
                },
                command_suggestion_index: 0,
                ..a
            },
            true,
        )
    }
}

/// Acceptance on Enter: only when the typed token is a strict prefix of the
/// selected suggestion, not already the full name.
pub open spec fn completion_if_partial_model(a: AppV) -> (AppV, bool) {
    match query_spec(a.input) {
        None => (a, false),
        Some(q) => {
            let s = suggestions_spec(a.input);
            if s.len() == 0 {
                (a, false)
            } else if q == selected_suggestion(a).name {
                (a, false)
            } else {
                completion_model(a)
            }
        },
    }
}

impl App {
    /// The command token being typed, if any.
    #[verifier::loop_isolation(false)]
    pub fn command_query(&self) -> (r: Option<String>)
        ensures
            match r {
                Some(s) => query_spec(self@.input) == Some(s@),
                None => query_spec(self@.input) is None,
            },
    {
        let t = crate::text::trim_start(self.input.as_str());
        let n = t.unicode_len();
        if n == 0 {
            return None;
        }
        if t.get_char(0) != '/' {
            return None;
        }
        let mut k: usize = 1;
        while k < n
            invariant
                1 <= k <= n,
                n == t@.len(),
                forall|j: int| 0 <= j < k ==> !is_space_char(t@[j]),
            decreases n - k,
        {
            if crate::text::is_space(t.get_char(k)) {
                return None;
            }
            k += 1;
        }
        Some(t.to_owned())
    }

    /// The autocomplete suggestions for the current input, in catalog order.
    #[verifier::loop_isolation(false)]
    pub fn command_suggestions(&self) -> (r: Vec<CommandSpec>)
        requires
            self.commands.deep_view() == catalog_spec(),
        ensures
            r.deep_view() == suggestions_spec(self@.input),
    {
        let mut out: Vec<CommandSpec> = Vec::new();
        let q = match self.command_query() {
            None => {
                proof {
                    assert(out.deep_view() =~= suggestions_spec(self@.input));
                }
                return out;
            },
            Some(q) => q,
        };
        let ghost cs = catalog_spec();
        let mut i: usize = 0;
        proof {
            assert(cs.skip(0) =~= cs);
        }
        while i < self.commands.len()
            invariant
                i <= self.commands.len(),
                cs.len() == self.commands@.len(),
                prefix_filtered(cs, q@) == out.deep_view() + prefix_filtered(
                    cs.skip(i as int),
                    q@,
                ),
            decreases self.commands.len() - i,
        {
            let ghost dv = out.deep_view();
            proof {
                assert(cs[i as int] == self.commands@[i as int].deep_view());
                assert(cs.skip(i as int)[0] == cs[i as int]);
                assert(cs.skip(i as int).drop_first() =~= cs.skip(i + 1));
            }
            if str_starts_with(self.commands[i].name, q.as_str()) {
                out.push(self.commands[i]);
                proof {
                    assert(out.deep_view() =~= dv.push(cs[i as int]));
                    assert(dv.push(cs[i as int]) + prefix_filtered(cs.skip(i + 1), q@) =~= dv + (
                    seq![cs[i as int]] + prefix_filtered(cs.skip(i + 1), q@)));
                }
            }
            i += 1;
        }
        proof {
            assert(cs.skip(cs.len() as int) =~= Seq::<CommandSpecV>::empty());
            assert(out.deep_view() + Seq::<CommandSpecV>::empty() =~= out.deep_view());
        }
        out
    }

    /// Whether the autocomplete popup is showing.
    pub fn has_command_suggestions(&self) -> (r: bool)
        requires
            self.commands.deep_view() == catalog_spec(),
        ensures
            r == (suggestions_spec(self@.input).len() != 0),
    {
        let s = self.command_suggestions();
        s.len() != 0
    }

    /// Moves the cyclable suggestion selection with wraparound; with no
    /// suggestions showing it returns to the top.
    pub fn move_command_selection(&mut self, direction: i32)
        requires
            old(self).commands.deep_view() == catalog_spec(),
            old(self)@.command_suggestion_index < 8,
        ensures
            (*final(self))@ == (AppV {
                command_suggestion_index: ({
                    let s = suggestions_spec(old(self)@.input);
                    if s.len() == 0 {
                        0int
                    } else {
                        (old(self)@.command_suggestion_index + direction as int) % (
                        s.len() as int)
                    }
                }),
                ..old(self)@
            }),
            final(self).commands.deep_view() == old(self).commands.deep_view(),
            old(self).wf() ==> final(self).wf(),
    {
        let suggestions = self.command_suggestions();
        if suggestions.len() == 0 {
            self.command_suggestion_index = 0;
            proof {
                assert(self@ =~~= (AppV { command_suggestion_index: 0int, ..old(self)@ }));
            }
            return ;
        }
        proof {
            match query_spec(old(self)@.input) {
                Some(q) => lemma_prefix_filtered_len(catalog_spec(), q),
                None => (),
            }
            assert(suggestions.deep_view().len() == suggestions@.len());
            assert(suggestions@.len() <= 7);
        }
        let len: i64 = suggestions.len() as i64;
        let s: i64 = self.command_suggestion_index as i64 + direction as i64;
        let shift: i64 = 0x100000000;
        let s2: i64 = s + shift * len;
        let m2: i64 = s2 % len;
        proof {
            vstd::arithmetic::div_mod::lemma_mod_multiples_vanish(
                shift as int,
                s as int,
                len as int,
            );
            assert(0 <= m2 < len);
            assert(m2 as int == (old(self)@.command_suggestion_index + direction as int) % (
            suggestions.deep_view().len() as int));
        }
        self.command_suggestion_index = m2 as usize;
        proof {
            assert(self@ =~~= (AppV {
                command_suggestion_index: ({
                    let sg = suggestions_spec(old(self)@.input);
                    (old(self)@.command_suggestion_index + direction as int) % (sg.len() as int)
                }),
                ..old(self)@
            }));
        }
    }

    /// Accepts the selected suggestion, replacing the input buffer; reports
    /// whether there was anything to accept.
    pub fn apply_command_completion(&mut self) -> (r: bool)
        requires
            old(self).commands.deep_view() == catalog_spec(),
        ensures
            (*final(self))@ == completion_model(old(self)@).0,
            r == completion_model(old(self)@).1,
            final(self).commands.deep_view() == old(self).commands.deep_view(),
            old(self).wf() ==> final(self).wf(),
    {
        let suggestions = self.command_suggestions();
        if suggestions.len() == 0 {
            return false;
        }
        let idx = if self.command_suggestion_index < suggestions.len() {
            self.command_suggestion_index
        } else {
            suggestions.len() - 1
        };
        let sel = suggestions[idx];
        proof {
            assert(sel@ == suggestions.deep_view()[idx as int]);
            assert(sel@ == selected_suggestion(old(self)@));
            reveal_strlit(" ");
        }
        if sel.accepts_args {
            let mut input = String::from_str(sel.name);
            input.append(" ");
            self.input = input;
        } else {
            self.input = String::from_str(sel.name);
        }
        self.command_suggestion_index = 0;
        proof {
            assert(self@ =~~= completion_model(old(self)@).0);
        }
        true
    }

    /// On Enter: completes instead of submitting when the typed token is a
    /// strict prefix of the selected suggestion.
    pub fn apply_command_completion_if_partial(&mut self) -> (r: bool)
        requires
            old(self).commands.deep_view() == catalog_spec(),
        ensures
            (*final(self))@ == completion_if_partial_model(old(self)@).0,
            r == completion_if_partial_model(old(self)@).1,
            final(self).commands.deep_view() == old(self).commands.deep_view(),
            old(self).wf() ==> final(self).wf(),
    {
        let query = match self.command_query() {
            None => {
                return false;
            },
            Some(q) => q,
        };
        let suggestions = self.command_suggestions();
        if suggestions.len() == 0 {
            return false;
        }
        let idx = if self.command_suggestion_index < suggestions.len() {
            self.command_suggestion_index
        } else {
            suggestions.len() - 1
        };
        let sel = suggestions[idx];
        proof {
            assert(sel@ == suggestions.deep_view()[idx as int]);
            assert(sel@ == selected_suggestion(old(self)@));
            reveal_strlit(" ");
        }
        if str_eq(query.as_str(), sel.name) {
            return false;
        }
        if sel.accepts_args {
            let mut input = String::from_str(sel.name);
            input.append(" ");
            self.input = input;
        } else {
            self.input = String::from_str(sel.name);
        }
        self.command_suggestion_index = 0;
        proof {
            assert(self@ =~~= completion_if_partial_model(old(self)@).0);
        }
        true
    }
}


/// The `/help` command: the fixed usage summary, three lines.
pub open spec fn help_model(a: AppV) -> AppV {
    AppV {
        logs: a.logs
            + seq![
            "Commands: /repo add <w>/<r>, /repo rm <w>/<r>, /repos, /status <open|merged|declined|all>, /refresh, /search <text|pr-number>, /search clear, /quit"@,
            "Tip: type '/' to show command suggestions; use Up/Down + Tab to autocomplete."@,
            "Tip: press Enter with empty command input to open selected PR."@,
        ],
        ..a
    }
}

/// One submitted command line, already trimmed: dispatch by the first
/// whitespace-separated token, with the rest as arguments.
pub open spec fn exec_cmd_model(a: AppV, cmd: Seq<char>) -> CmdOutcome {
    if cmd.len() == 0 || cmd[0] != '/' {
        CmdOutcome::Done {
            app: log_model(a, "Commands must start with '/'. Try /help."@),
            effects: Seq::empty(),
        }
    } else {
        let toks = tokens_spec(cmd);
        let name = toks[0];
        let args = toks.drop_first();
        if name == "/help"@ {
            CmdOutcome::Done { app: help_model(a), effects: Seq::empty() }
        } else if name == "/quit"@ {
            CmdOutcome::Done { app: AppV { should_quit: true, ..a }, effects: Seq::empty() }
        } else if name == "/repo"@ {
            repo_cmd_model(a, args)
        } else if name == "/repos"@ {
            CmdOutcome::Done { app: show_repos_model(a), effects: Seq::empty() }
        } else if name == "/status"@ {
            status_cmd_model(a, args)
        } else if name == "/refresh"@ {
            CmdOutcome::Done { app: a, effects: seq![Effect::Refresh] }
        } else if name == "/search"@ {
            CmdOutcome::Done { app: search_cmd_model(a, args), effects: Seq::empty() }
        } else {
            CmdOutcome::Done {
                app: log_model(a, "Unknown command. Try /help."@),
                effects: Seq::empty(),
            }
        }
    }
}

impl App {
    /// Executes one submitted command line.
    #[verifier::loop_isolation(false)]
    #[verifier::rlimit(60)]
    pub fn execute_command(&mut self, command: &str) -> (r: Result<Vec<Effect>, AppError>)
        ensures
            match r {
                Ok(effects) => exec_cmd_model(old(self)@, command@) == (CmdOutcome::Done {
                    app: (*final(self))@,
                    effects: effects@,
                }),
                Err(e) => exec_cmd_model(old(self)@, command@) == (CmdOutcome::Fail {
                    err: err_view(&e),
                }) && *final(self) == *old(self),
            },
            final(self).commands.deep_view() == old(self).commands.deep_view(),
            old(self).wf() ==> final(self).wf(),
    {
        proof {
            reveal_strlit("/help");
            reveal_strlit("/quit");
            reveal_strlit("/repo");
            reveal_strlit("/repos");
            reveal_strlit("/status");
            reveal_strlit("/refresh");
            reveal_strlit("/search");
        }
        let n = command.unicode_len();
        if n == 0 || command.get_char(0) != '/' {
            self.log("Commands must start with '/'. Try /help.");
            let effects: Vec<Effect> = Vec::new();
            proof {
                assert(effects@ =~= Seq::<Effect>::empty());
            }
            return Ok(effects);
        }
        let tokens = split_tokens(command);
        let ghost toks = tokens_spec(command@);
        proof {
            assert(!is_space_char(command@[0]));
            assert(toks.len() > 0);
            assert(tokens@.map_values(|t: String| t@).len() == tokens@.len());
            assert(tokens@[0]@ == toks[0]);
        }
        let mut args: Vec<String> = Vec::new();
        let mut i: usize = 1;
        while i < tokens.len()
            invariant
                1 <= i <= tokens.len(),
                tokens@.map_values(|t: String| t@) == toks,
                args.deep_view() =~= toks.subrange(1, i as int),
            decreases tokens.len() - i,
        {
            proof {
                assert(tokens@[i as int]@ == toks[i as int]);
            }
            args.push(tokens[i].clone());
            proof {
                assert(args.deep_view() =~= toks.subrange(1, i + 1));
            }
            i += 1;
        }
        proof {
            assert(args.deep_view() =~= toks.drop_first());
        }
        let name = &tokens[0];
        if str_eq(name.as_str(), "/help") {
            self.log(
                "Commands: /repo add <w>/<r>, /repo rm <w>/<r>, /repos, /status <open|merged|declined|all>, /refresh, /search <text|pr-number>, /search clear, /quit",
            );
            self.log(
                "Tip: type '/' to show command suggestions; use Up/Down + Tab to autocomplete.",
            );
            self.log("Tip: press Enter with empty command input to open selected PR.");
            let effects: Vec<Effect> = Vec::new();
            proof {
                assert(effects@ =~= Seq::<Effect>::empty());
                assert(self@ =~~= help_model(old(self)@));
            }
            Ok(effects)
        } else if str_eq(name.as_str(), "/quit") {
            self.should_quit = true;
            let effects: Vec<Effect> = Vec::new();
            proof {
                assert(effects@ =~= Seq::<Effect>::empty());
                assert(self@ =~~= (AppV { should_quit: true, ..old(self)@ }));
            }
            Ok(effects)
        } else if str_eq(name.as_str(), "/repo") {
            self.handle_repo_command(&args)
        } else if str_eq(name.as_str(), "/repos") {
            self.show_repos();
            let effects: Vec<Effect> = Vec::new();
            proof {
                assert(effects@ =~= Seq::<Effect>::empty());
            }
            Ok(effects)
        } else if str_eq(name.as_str(), "/status") {
            self.handle_status_command(&args)
        } else if str_eq(name.as_str(), "/refresh") {
            let mut effects: Vec<Effect> = Vec::new();
            effects.push(Effect::Refresh);
            proof {
                assert(effects@ =~= seq![Effect::Refresh]);
            }
            Ok(effects)
        } else if str_eq(name.as_str(), "/search") {
            self.handle_search_command(&args);
            let effects: Vec<Effect> = Vec::new();
            proof {
                assert(effects@ =~= Seq::<Effect>::empty());
            }
            Ok(effects)
        } else {
            self.log("Unknown command. Try /help.");
            let effects: Vec<Effect> = Vec::new();
            proof {
                assert(effects@ =~= Seq::<Effect>::empty());
            }
            Ok(effects)
        }
    }
}


/// What the caller must fetch for one refresh: where, with which
/// credentials, which repositories, and under which status filter.
pub struct RefreshRequest {
    pub base_url: String,
    pub email: String,
    pub api_token: String,
    pub repos: Vec<RepoRef>,
    pub status: PrStatus,
}

/// What came back for one repository: its pull requests, or the text of the
/// error, which is non-fatal to the refresh.
pub struct RepoFetch {
    pub repo: RepoRef,
    pub result: Result<Vec<PullRequest>, String>,
}

/// The mathematical value of a `RepoFetch`.
#[verifier::ext_equal]
pub ghost struct RepoFetchV {
    pub repo: RepoRefV,
    pub result: Result<Seq<PrV>, Seq<char>>,
}

impl View for RepoFetch {
    type V = RepoFetchV;

    open spec fn view(&self) -> RepoFetchV {
        RepoFetchV {
            repo: self.repo@,
            result: match self.result {
                Ok(ref v) => Ok(v.deep_view()),
                Err(ref e) => Err(e@),
            },
        }
    }
}

impl DeepView for RepoFetch {
    type V = RepoFetchV;

    open spec fn deep_view(&self) -> RepoFetchV {
        self@
    }
}

/// The successful repositories' pull requests, concatenated in order.
pub open spec fn successes_concat(fv: Seq<RepoFetchV>) -> Seq<PrV>
    decreases fv.len(),
{
    if fv.len() == 0 {
        Seq::empty()
    } else {
        (match fv[0].result {
            Ok(ps) => ps,
            Err(_) => Seq::empty(),
        }) + successes_concat(fv.drop_first())
    }
}

/// One log line per failed repository, in order.
pub open spec fn failure_lines(fv: Seq<RepoFetchV>) -> Seq<Seq<char>>
    decreases fv.len(),
{
    if fv.len() == 0 {
        Seq::empty()
    } else {
        (match fv[0].result {
            Ok(_) => Seq::empty(),
            Err(e) => seq!["Failed loading "@ + repo_text(fv[0].repo) + ": "@ + e],
        }) + failure_lines(fv.drop_first())
    }
}

/// How many repositories failed.
pub open spec fn failed_count(fv: Seq<RepoFetchV>) -> nat
    decreases fv.len(),
{
    if fv.len() == 0 {
        0
    } else {
        (if fv[0].result is Err {
            1nat
        } else {
            0nat
        }) + failed_count(fv.drop_first())
    }
}

/// The summary line logged after a refresh.
pub open spec fn refresh_summary(
    matched: nat,
    total: nat,
    status: PrStatus,
    repo_count: nat,
    q: Option<Seq<char>>,
) -> Seq<char> {
    match q {
        Some(query) => "Loaded "@ + dec_str(matched) + " matching PR(s) out of "@ + dec_str(total)
            + " total with status '"@ + status_label(status) + "' across "@ + dec_str(repo_count)
            + " repo(s) | search='"@ + query + "'"@,
        None => "Loaded "@ + dec_str(matched) + " PR(s) with status '"@ + status_label(status)
            + "' across "@ + dec_str(repo_count) + " repo(s)"@,
    }
}

impl App {
    /// Starts a refresh: checks that credentials and repositories are
    /// configured, logging and declining when they are not, and otherwise
    /// hands back everything the caller needs to fetch.
    #[verifier::loop_isolation(false)]
    pub fn refresh_request(&mut self) -> (r: Option<RefreshRequest>)
        ensures
            match r {
                Some(req) => {
                    &&& *final(self) == *old(self)
                    &&& old(self)@.config.email == Some(req.email@)
                    &&& old(self)@.config.api_token == Some(req.api_token@)
                    &&& req.base_url@ == old(self)@.config.base_url
                    &&& req.repos.deep_view() == old(self)@.config.repos
                    &&& req.repos@.len() > 0
                    &&& req.status == old(self)@.status_filter
                },
                None => {
                    &&& (old(self)@.config.email is None || old(self)@.config.api_token is None
                        || old(self)@.config.repos.len() == 0)
                    &&& (*final(self))@ == log_model(
                        old(self)@,
                        if old(self)@.config.email is None || old(self)@.config.api_token
                            is None {
                            "Missing credentials. Set BITBUCKET_EMAIL and BITBUCKET_API_TOKEN."@
                        } else {
                            "No repos configured. Add repos via /repo add <workspace>/<repo>."@
                        },
                    )
                },
            },
            final(self).commands.deep_view() == old(self).commands.deep_view(),
            old(self).wf() ==> final(self).wf(),
    {
        let creds_ok = match (&self.config.bitbucket_email, &self.config.bitbucket_api_token) {
            (Some(_), Some(_)) => true,
            _ => false,
        };
        if !creds_ok {
            self.log("Missing credentials. Set BITBUCKET_EMAIL and BITBUCKET_API_TOKEN.");
            return None;
        }
        if self.config.repos.len() == 0 {
            self.log("No repos configured. Add repos via /repo add <workspace>/<repo>.");
            return None;
        }
        let email = match &self.config.bitbucket_email {
            Some(e) => e.clone(),
            None => String::new(),
        };
        let api_token = match &self.config.bitbucket_api_token {
            Some(t) => t.clone(),
            None => String::new(),
        };
        let mut repos: Vec<RepoRef> = Vec::new();
        let mut i: usize = 0;
        while i < self.config.repos.len()
            invariant
                i <= self.config.repos.len(),
                repos.deep_view() =~= self@.config.repos.take(i as int),
                self@.config.repos.len() == self.config.repos@.len(),
            decreases self.config.repos.len() - i,
        {
            let ghost dvr = repos.deep_view();
            proof {
                assert(self@.config.repos[i as int] == self.config.repos@[
                    i as int].deep_view());
            }
            repos.push(self.config.repos[i].duplicate());
            proof {
                assert(repos.deep_view() =~= dvr.push(self@.config.repos[i as int]));
                assert(repos.deep_view() =~= self@.config.repos.take(i + 1));
            }
            i += 1;
        }
        proof {
            assert(self@.config.repos.take(self@.config.repos.len() as int) =~= self@.config.repos);
        }
        Some(
            RefreshRequest {
                base_url: self.config.bitbucket_base_url.clone(),
                email,
                api_token,
                repos,
                status: self.status_filter,
            },
        )
    }

    /// Records that resolving the current identity failed, which aborts the
    /// whole refresh attempt.
    pub fn refresh_identity_failed(&mut self, error_text: &str)
        ensures
            (*final(self))@ == log_model(
                old(self)@,
                "Failed to fetch current user: "@ + error_text@,
            ),
            final(self).commands.deep_view() == old(self).commands.deep_view(),
            old(self).wf() ==> final(self).wf(),
    {
        proof {
            reveal_strlit("Failed to fetch current user: ");
        }
        let mut msg = String::from_str("Failed to fetch current user: ");
        msg.append(error_text);
        self.log(msg.as_str());
        proof {
            assert(self@ =~~= log_model(
                old(self)@,
                "Failed to fetch current user: "@ + error_text@,
            ));
        }
    }

    /// Takes one refresh's fetched results: logs each failed repository,
    /// replaces the full collection with the successes sorted into canonical
    /// order, resets the selection, reapplies the search, and logs the
    /// summary.
    #[verifier::loop_isolation(false)]
    #[verifier::rlimit(60)]
    pub fn refresh_pull_requests(&mut self, fetches: Vec<RepoFetch>)
        ensures
            ({
                let fv = fetches.deep_view();
                let a = (*final(self))@;
                &&& prs_sorted(a.all_pull_requests)
                &&& a.all_pull_requests.to_multiset() == successes_concat(fv).to_multiset()
                &&& a.all_pull_requests.len() == successes_concat(fv).len()
                &&& a.pull_requests == filtered_model(a.all_pull_requests, old(self)@.search_query)
                &&& a.selected_index == 0
                &&& a.logs == old(self)@.logs + failure_lines(fv) + seq![
                    refresh_summary(
                        a.pull_requests.len() as nat,
                        a.all_pull_requests.len() as nat,
                        old(self)@.status_filter,
                        fv.len() as nat,
                        old(self)@.search_query,
                    ),
                ] + if failed_count(fv) > 0 {
                    seq![dec_str(failed_count(fv)) + " repo(s) failed during refresh"@]
                } else {
                    Seq::<Seq<char>>::empty()
                }
                &&& a.config == old(self)@.config
                &&& a.status_filter == old(self)@.status_filter
                &&& a.input == old(self)@.input
                &&& a.search_query == old(self)@.search_query
                &&& a.should_quit == old(self)@.should_quit
                &&& a.command_suggestion_index == old(self)@.command_suggestion_index
            }),
            final(self).commands.deep_view() == old(self).commands.deep_view(),
            old(self).wf() ==> final(self).wf(),
    {
        proof {
            reveal_strlit("Failed loading ");
            reveal_strlit(": ");
        }
        let ghost fv = fetches.deep_view();
        let n_repos = fetches.len();
        let mut all: Vec<PullRequest> = Vec::new();
        let mut failed: usize = 0;
        let mut rest = fetches;
        let ghost logs0 = self@.logs;
        proof {
            assert(fv.skip(0) =~= fv);
            assert(all.deep_view() =~= Seq::<PrV>::empty());
        }
        while rest.len() != 0
            invariant
                rest.deep_view() =~= fv.skip(fv.len() - rest@.len()),
                rest@.len() <= fv.len(),
                successes_concat(fv) =~= all.deep_view() + successes_concat(
                    fv.skip(fv.len() - rest@.len()),
                ),
                logs0 + failure_lines(fv) =~= self@.logs + failure_lines(
                    fv.skip(fv.len() - rest@.len()),
                ),
                failed_count(fv) == failed + failed_count(fv.skip(fv.len() - rest@.len())),
                failed <= fv.len() - rest@.len(),
                self@ == (AppV { logs: self@.logs, ..old(self)@ }),
                self.commands.deep_view() == old(self).commands.deep_view(),
            decreases rest@.len(),
        {
            let ghost k = fv.len() - rest@.len();
            let ghost old_rest_dv = rest.deep_view();
            let ghost old_rest_seq = rest@;
            let f = rest.remove(0);
            proof {
                assert(f@ == old_rest_dv[0]);
                assert(fv.skip(k)[0] == fv[k]);
                assert forall|j: int| 0 <= j < rest@.len() implies #[trigger] rest.deep_view()[j]
                    == old_rest_dv[j + 1] by {
                    assert(rest.deep_view()[j] == rest@[j].deep_view());
                    assert(rest@[j] == old_rest_seq.remove(0)[j]);
                    assert(old_rest_seq.remove(0)[j] == old_rest_seq[j + 1]);
                    assert(old_rest_dv[j + 1] == old_rest_seq[j + 1].deep_view());
                }
                assert(rest.deep_view() =~= fv.skip(k + 1));
                assert(fv.skip(k).drop_first() =~= fv.skip(k + 1));
            }
            let ghost all0 = all.deep_view();
            match f.result {
                Ok(mut prs) => {
                    all.append(&mut prs);
                    proof {
                        assert(all.deep_view() =~= all0 + (match fv[k].result {
                            Ok(ps) => ps,
                            Err(_) => Seq::empty(),
                        }));
                    }
                },
                Err(e) => {
                    failed = failed + 1;
                    let mut msg = String::from_str("Failed loading ");
                    msg.append(f.repo.to_text().as_str());
                    msg.append(": ");
                    msg.append(e.as_str());
                    proof {
                        assert(msg@ =~= "Failed loading "@ + repo_text(fv[k].repo) + ": "@
                            + (match fv[k].result {
                            Ok(_) => Seq::empty(),
                            Err(t) => t,
                        }));
                    }
                    self.log(msg.as_str());
                },
            }
        }
        proof {
            assert(fv.skip(fv.len() as int) =~= Seq::<RepoFetchV>::empty());
            assert(all.deep_view() =~= successes_concat(fv));
            assert(self@.logs =~= logs0 + failure_lines(fv));
        }
        crate::pull_request::sort_pull_requests(&mut all);
        self.selected_index = 0;
        self.all_pull_requests = all;
        self.apply_search_filter();
        let matched = self.pull_requests.len();
        let total = self.all_pull_requests.len();
        proof {
            reveal_strlit("Loaded ");
            reveal_strlit(" matching PR(s) out of ");
            reveal_strlit(" total with status '");
            reveal_strlit("' across ");
            reveal_strlit(" repo(s) | search='");
            reveal_strlit("'");
            reveal_strlit(" PR(s) with status '");
            reveal_strlit(" repo(s)");
            reveal_strlit(" repo(s) failed during refresh");
        }
        let has_query = self.search_query.is_some();
        if has_query {
            let q = match &self.search_query {
                Some(q) => q.clone(),
                None => String::new(),
            };
            let mut msg = String::from_str("Loaded ");
            msg.append(u64_to_string(matched as u64).as_str());
            msg.append(" matching PR(s) out of ");
            msg.append(u64_to_string(total as u64).as_str());
            msg.append(" total with status '");
            msg.append(self.status_filter.label());
            msg.append("' across ");
            msg.append(u64_to_string(n_repos as u64).as_str());
            msg.append(" repo(s) | search='");
            msg.append(q.as_str());
            msg.append("'");
            proof {
                assert(msg@ =~= refresh_summary(
                    matched as nat,
                    total as nat,
                    old(self)@.status_filter,
                    fv.len() as nat,
                    old(self)@.search_query,
                ));
            }
            self.log(msg.as_str());
        } else {
            let mut msg = String::from_str("Loaded ");
            msg.append(u64_to_string(matched as u64).as_str());
            msg.append(" PR(s) with status '");
            msg.append(self.status_filter.label());
            msg.append("' across ");
            msg.append(u64_to_string(n_repos as u64).as_str());
            msg.append(" repo(s)");
            proof {
                assert(msg@ =~= refresh_summary(
                    matched as nat,
                    total as nat,
                    old(self)@.status_filter,
                    fv.len() as nat,
                    old(self)@.search_query,
                ));
            }
            self.log(msg.as_str());
        }
        if failed > 0 {
            let mut msg = u64_to_string(failed as u64);
            msg.append(" repo(s) failed during refresh");
            proof {
                assert(msg@ =~= dec_str(failed_count(fv)) + " repo(s) failed during refresh"@);
            }
            self.log(msg.as_str());
        }
        proof {
            assert((*final(self))@.logs =~= old(self)@.logs + failure_lines(fv) + seq![
                refresh_summary(
                    matched as nat,
                    total as nat,
                    old(self)@.status_filter,
                    fv.len() as nat,
                    old(self)@.search_query,
                ),
            ] + if failed_count(fv) > 0 {
                seq![dec_str(failed_count(fv)) + " repo(s) failed during refresh"@]
            } else {
                Seq::<Seq<char>>::empty()
            });
        }
    }

    /// The address of the pull request at a one-based position in the
    /// filtered view; positions outside the view fail.
    pub fn open_pull_request(&self, index: usize) -> (r: Result<String, AppError>)
        ensures
            match r {
                Ok(url) => {
                    &&& 1 <= index <= self@.pull_requests.len()
                    &&& url@ == self@.pull_requests[index - 1].url
                },
                Err(e) => match e {
                    AppError::IndexZero => index == 0,
                    AppError::NoSuchIndex(i) => i == index && index > self@.pull_requests.len(),
                    _ => false,
                },
            },
    {
        if index == 0 {
            return Err(AppError::IndexZero);
        }
        if index > self.pull_requests.len() {
            return Err(AppError::NoSuchIndex(index));
        }
        proof {
            assert(self@.pull_requests[index - 1] == self.pull_requests@[
                index - 1].deep_view());
        }
        Ok(self.pull_requests[index - 1].url.clone())
    }

    /// Records that the pull request at a one-based position was opened in
    /// the browser.
    pub fn log_pull_request_opened(&mut self, index: usize)
        requires
            1 <= index <= old(self)@.pull_requests.len(),
        ensures
            (*final(self))@ == log_model(
                old(self)@,
                ({
                    let p = old(self)@.pull_requests[index - 1];
                    "Opened "@ + p.workspace + "/"@ + p.repo + " PR #"@ + dec_str(p.id as nat)
                        + " in browser."@
                }),
            ),
            final(self).commands.deep_view() == old(self).commands.deep_view(),
            old(self).wf() ==> final(self).wf(),
    {
        proof {
            reveal_strlit("Opened ");
            reveal_strlit("/");
            reveal_strlit(" PR #");
            reveal_strlit(" in browser.");
            assert(self@.pull_requests[index - 1] == self.pull_requests@[
                index - 1].deep_view());
        }
        let pr = &self.pull_requests[index - 1];
        let mut msg = String::from_str("Opened ");
        msg.append(pr.workspace.as_str());
        msg.append("/");
        msg.append(pr.repo.as_str());
        msg.append(" PR #");
        msg.append(u64_to_string(pr.id).as_str());
        msg.append(" in browser.");
        let ghost line = ({
            let p = old(self)@.pull_requests[index - 1];
            "Opened "@ + p.workspace + "/"@ + p.repo + " PR #"@ + dec_str(p.id as nat)
                + " in browser."@
        });
        proof {
            assert(msg@ =~= line);
        }
        self.log(msg.as_str());
        proof {
            assert(self@ =~~= log_model(old(self)@, line));
        }
    }
}


/// One terminal key, as the caller decodes it.
#[derive(PartialEq, Eq, Structural, Clone, Copy, Debug)]
pub enum KeyInput {
    Up,
    Down,
    Tab,
    Enter,
    Backspace,
    Char(char),
    Escape,
    CtrlC,
}

/// The suggestion index after a cyclable move.
pub open spec fn move_selection_model(a: AppV, direction: int) -> int {
    let s = suggestions_spec(a.input);
    if s.len() == 0 {
        0int
    } else {
        (a.command_suggestion_index + direction) % (s.len() as int)
    }
}

/// Enter: completion when the typed token is a strict prefix of the
/// selected suggestion; otherwise the input is taken as a command line, an
/// active search is dropped first for non-search commands, and an empty
/// line opens the highlighted pull request.
pub open spec fn enter_model(a: AppV) -> (AppV, Seq<Effect>) {
    let done = completion_if_partial_model(a);
    if done.1 {
        (done.0, Seq::empty())
    } else {
        let cmd = trim_spec(a.input);
        let a2 = if cmd.len() > 0 && !"/search"@.is_prefix_of(cmd) {
            clear_search_model(a)
        } else {
            a
        };
        let a3 = AppV { input: Seq::empty(), ..a2 };
        if cmd.len() == 0 {
            if a3.pull_requests.len() == 0 {
                (log_model(a3, "No pull request selected."@), Seq::empty())
            } else {
                (
                    a3,
                    seq![
                        Effect::OpenPullRequest(
                            (clamp_index(a3.selected_index, a3.pull_requests.len() as int)
                                + 1) as usize,
                        ),
                    ],
                )
            }
        } else {
            match exec_cmd_model(a3, cmd) {
                CmdOutcome::Done { app, effects } => (app, effects),
                CmdOutcome::Fail { err } => (
                    log_model(a3, "Command failed: "@ + err_text(err)),
                    Seq::empty(),
                ),
            }
        }
    }
}

/// One key handled: navigation moves the selection (or, while suggestions
/// show, the suggestion cursor), Tab completes, Enter submits, Escape and
/// Control-C quit, and text keys edit the input.
pub open spec fn key_model(a: AppV, key: KeyInput) -> (AppV, Seq<Effect>) {
    match key {
        KeyInput::CtrlC => (AppV { should_quit: true, ..a }, Seq::empty()),
        KeyInput::Escape => (AppV { should_quit: true, ..a }, Seq::empty()),
        KeyInput::Up => if suggestions_spec(a.input).len() != 0 {
            (AppV { command_suggestion_index: move_selection_model(a, -1), ..a }, Seq::empty())
        } else {
            (
                AppV {
                    selected_index: if a.selected_index > 0 {
                        a.selected_index - 1
                    } else {
                        0int
                    },
                    ..a
                },
                Seq::empty(),
            )
        },
        KeyInput::Down => if suggestions_spec(a.input).len() != 0 {
            (AppV { command_suggestion_index: move_selection_model(a, 1), ..a }, Seq::empty())
        } else if a.selected_index + 1 < a.pull_requests.len() {
            (AppV { selected_index: a.selected_index + 1, ..a }, Seq::empty())
        } else {
            (a, Seq::empty())
        },
        KeyInput::Tab => (completion_model(a).0, Seq::empty()),
        KeyInput::Backspace => (
            AppV {
                input: if a.input.len() > 0 {
                    a.input.drop_last()
                } else {
                    a.input
                },
                command_suggestion_index: 0,
                ..a
            },
            Seq::empty(),
        ),
        KeyInput::Char(c) => (
            AppV { input: a.input.push(c), command_suggestion_index: 0, ..a },
            Seq::empty(),
        ),
        KeyInput::Enter => enter_model(a),
    }
}

impl App {
    /// Handles one key.
    #[verifier::rlimit(100)]
    pub fn handle_key(&mut self, key: KeyInput) -> (r: Vec<Effect>)
        requires
            old(self).wf(),
        ensures
            (*final(self))@ == key_model(old(self)@, key).0,
            r@ == key_model(old(self)@, key).1,
            final(self).wf(),
    {
        proof {
            reveal_strlit("/search");
            reveal_strlit("Command failed: ");
        }
        let no_effects: Vec<Effect> = Vec::new();
        proof {
            assert(no_effects@ =~= Seq::<Effect>::empty());
        }
        match key {
            KeyInput::CtrlC => {
                self.should_quit = true;
                proof {
                    assert(self@ =~~= (AppV { should_quit: true, ..old(self)@ }));
                }
                no_effects
            },
            KeyInput::Escape => {
                self.should_quit = true;
                proof {
                    assert(self@ =~~= (AppV { should_quit: true, ..old(self)@ }));
                }
                no_effects
            },
            KeyInput::Up => {
                if self.has_command_suggestions() {
                    self.move_command_selection(-1);
                    proof {
                        assert(self@ =~~= (AppV {
                            command_suggestion_index: move_selection_model(old(self)@, -1),
                            ..old(self)@
                        }));
                    }
                } else {
                    if self.selected_index > 0 {
                        self.selected_index = self.selected_index - 1;
                    }
                    proof {
                        assert(self@ =~~= key_model(old(self)@, key).0);
                    }
                }
                no_effects
            },
            KeyInput::Down => {
                if self.has_command_suggestions() {
                    self.move_command_selection(1);
                    proof {
                        assert(self@ =~~= (AppV {
                            command_suggestion_index: move_selection_model(old(self)@, 1),
                            ..old(self)@
                        }));
                    }
                } else {
                    proof {
                        assert(old(self)@.selected_index == clamp_index(
                            old(self)@.selected_index,
                            old(self)@.pull_requests.len() as int,
                        ));
                        assert(self.selected_index as int <= self.pull_requests@.len());
                    }
                    let len = self.pull_requests.len();
                    if len > 0 && self.selected_index < len - 1 {
                        self.selected_index = self.selected_index + 1;
                    }
                    proof {
                        assert(self@ =~~= key_model(old(self)@, key).0);
                    }
                }
                no_effects
            },
            KeyInput::Tab => {
                let _ = self.apply_command_completion();
                no_effects
            },
            KeyInput::Backspace => {
                let n = self.input.as_str().unicode_len();
                if n > 0 {
                    let shorter = self.input.as_str().substring_char(0, n - 1).to_owned();
                    proof {
                        assert(shorter@ =~= old(self)@.input.drop_last());
                    }
                    self.input = shorter;
                }
                self.command_suggestion_index = 0;
                proof {
                    assert(self@ =~~= key_model(old(self)@, key).0);
                }
                no_effects
            },
            KeyInput::Char(c) => {
                crate::text::push_char(&mut self.input, c);
                self.command_suggestion_index = 0;
                proof {
                    assert(self@ =~~= key_model(old(self)@, key).0);
                }
                no_effects
            },
            KeyInput::Enter => {
                if self.apply_command_completion_if_partial() {
                    proof {
                        assert(self@ =~~= key_model(old(self)@, key).0);
                    }
                    return no_effects;
                }
                let cmd = trim(self.input.as_str()).to_owned();
                let cmd_empty = cmd.as_str().is_empty();
                if !cmd_empty && !str_starts_with(cmd.as_str(), "/search") {
                    self.clear_search_filter_if_active();
                }
                self.input = String::new();
                let ghost a3 = (AppV {
                    input: Seq::empty(),
                    ..if trim_spec(old(self)@.input).len() > 0 && !"/search"@.is_prefix_of(
                        trim_spec(old(self)@.input),
                    ) {
                        clear_search_model(old(self)@)
                    } else {
                        old(self)@
                    }
                });
                proof {
                    assert(self@ =~~= a3);
                }
                if cmd_empty {
                    if self.pull_requests.len() == 0 {
                        self.log("No pull request selected.");
                        proof {
                            assert(self@ =~~= key_model(old(self)@, key).0);
                        }
                        no_effects
                    } else {
                        let last = self.pull_requests.len() - 1;
                        let index = if self.selected_index < last {
                            self.selected_index
                        } else {
                            last
                        } + 1;
                        let mut effects: Vec<Effect> = Vec::new();
                        effects.push(Effect::OpenPullRequest(index));
                        proof {
                            assert(effects@ =~= seq![
                                Effect::OpenPullRequest(
                                    (clamp_index(
                                        a3.selected_index,
                                        a3.pull_requests.len() as int,
                                    ) + 1) as usize,
                                ),
                            ]);
                            assert(self@ =~~= key_model(old(self)@, key).0);
                        }
                        effects
                    }
                } else {
                    match self.execute_command(cmd.as_str()) {
                        Ok(effects) => {
                            proof {
                                assert(self@ =~~= key_model(old(self)@, key).0);
                            }
                            effects
                        },
                        Err(e) => {
                            let mut msg = String::from_str("Command failed: ");
                            msg.append(e.message().as_str());
                            proof {
                                lemma_err_text(&e);
                                assert(msg@ =~= "Command failed: "@ + err_text(err_view(&e)));
                            }
                            self.log(msg.as_str());
                            proof {
                                assert(self@ =~~= key_model(old(self)@, key).0);
                            }
                            no_effects
                        },
                    }
                }
            },
        }
    }
}


/// The `workspace/repo` group key of a pull request.
pub open spec fn pr_key(p: PrV) -> Seq<char> {
    p.workspace + seq!['/'] + p.repo
}

/// Whether a group starts at position `i`: the first row, or a key change.
pub open spec fn new_group(prs: Seq<PrV>, i: int) -> bool {
    i == 0 || pr_key(prs[i - 1]) != pr_key(prs[i])
}

/// The position of row `i` within its group, counted from zero.
pub open spec fn run_index(prs: Seq<PrV>, i: int) -> nat
    decreases i,
{
    if i <= 0 || new_group(prs, i) {
        0
    } else {
        run_index(prs, i - 1) + 1
    }
}

/// How many pull requests in the whole view share a key.
pub open spec fn count_key(prs: Seq<PrV>, key: Seq<char>) -> nat
    decreases prs.len(),
{
    if prs.len() == 0 {
        0
    } else {
        (if pr_key(prs[0]) == key {
            1nat
        } else {
            0nat
        }) + count_key(prs.drop_first(), key)
    }
}

/// The bold header row that opens the group of the pull request at `i`.
pub open spec fn header_text(prs: Seq<PrV>, i: int) -> Seq<char> {
    let key = pr_key(prs[i]);
    let count = count_key(prs, key);
    key + " ("@ + dec_str(count) + " "@ + (if count == 1 {
        "PR"@
    } else {
        "PRs"@
    }) + "):"@
}

/// The numbered row for the pull request at `i`.
pub open spec fn pr_row_text(prs: Seq<PrV>, i: int) -> Seq<char> {
    let p = prs[i];
    "  "@ + dec_str(run_index(prs, i) + 1) + ". #"@ + dec_str(p.id as nat) + " ["@ + p.state
        + "] "@ + p.title + " ("@ + p.author + ")"@
}

/// The display rows for the first `i` pull requests: each group opened by
/// its header, followed by its numbered rows.
pub open spec fn rows_upto(prs: Seq<PrV>, i: int) -> Seq<(Seq<char>, bool)>
    decreases i,
{
    if i <= 0 {
        Seq::empty()
    } else {
        rows_upto(prs, i - 1) + (if new_group(prs, i - 1) {
            seq![(header_text(prs, i - 1), true)]
        } else {
            Seq::empty()
        }) + seq![(pr_row_text(prs, i - 1), false)]
    }
}

/// The display row of the highlighted pull request: its position among the
/// rows, headers included; nothing when the view is empty.
pub open spec fn selected_row_spec(prs: Seq<PrV>, sel: int) -> Option<int> {
    if prs.len() == 0 {
        None
    } else {
        let s = clamp_index(sel, prs.len() as int);
        Some(
            rows_upto(prs, s).len() + if new_group(prs, s) {
                1int
            } else {
                0int
            },
        )
    }
}

/// The text and emphasis of each produced row.
pub open spec fn row_views(s: Seq<(String, bool)>) -> Seq<(Seq<char>, bool)>
    decreases s.len(),
{
    if s.len() == 0 {
        Seq::empty()
    } else {
        seq![(s[0].0@, s[0].1)] + row_views(s.drop_first())
    }
}

proof fn lemma_row_views_push(s: Seq<(String, bool)>, x: (String, bool))
    ensures
        row_views(s.push(x)) == row_views(s).push((x.0@, x.1)),
    decreases s.len(),
{
    let p = s.push(x);
    assert(p[0] == if s.len() == 0 {
        x
    } else {
        s[0]
    });
    if s.len() == 0 {
        assert(p.drop_first() =~= Seq::<(String, bool)>::empty());
        assert(row_views(p) == seq![(p[0].0@, p[0].1)] + row_views(p.drop_first()));
        assert(row_views(p.drop_first()) == Seq::<(Seq<char>, bool)>::empty());
        assert(row_views(s) == Seq::<(Seq<char>, bool)>::empty());
        assert(p[0] == x);
        assert(row_views(p) =~~= row_views(s).push((x.0@, x.1)));
    } else {
        assert(p.drop_first() =~= s.drop_first().push(x));
        lemma_row_views_push(s.drop_first(), x);
        assert(row_views(p) =~~= row_views(s).push((x.0@, x.1)));
    }
}

proof fn lemma_row_views_len(s: Seq<(String, bool)>)
    ensures
        row_views(s).len() == s.len(),
    decreases s.len(),
{
    if s.len() > 0 {
        lemma_row_views_len(s.drop_first());
    }
}

/// Builds one pull request's group key.
fn pr_key_exec(p: &PullRequest) -> (r: String)
    ensures
        r@ == pr_key(p@),
{
    proof {
        reveal_strlit("/");
    }
    let mut m = p.workspace.clone();
    m.append("/");
    m.append(p.repo.as_str());
    proof {
        assert(m@ =~= pr_key(p@));
    }
    m
}

impl App {
    /// The grouped display rows of the filtered view: consecutive pull
    /// requests with the same key sit under one bold header naming the key
    /// and its total count, each numbered within its group; also the row of
    /// the highlighted pull request (headers are never selectable).
    #[verifier::loop_isolation(false)]
    #[verifier::rlimit(100)]
    pub fn grouped_rows(&self) -> (r: (Vec<(String, bool)>, Option<usize>))
        ensures
            row_views(r.0@) == rows_upto(self@.pull_requests, self@.pull_requests.len() as int),
            match r.1 {
                Some(row) => selected_row_spec(self@.pull_requests, self@.selected_index)
                    == Some(row as int),
                None => selected_row_spec(self@.pull_requests, self@.selected_index) is None,
            },
    {
        let ghost prsv = self@.pull_requests;
        let mut rows: Vec<(String, bool)> = Vec::new();
        let mut selected_row: Option<usize> = None;
        let n = self.pull_requests.len();
        proof {
            assert(row_views(rows@) =~= Seq::<(Seq<char>, bool)>::empty());
        }
        if n == 0 {
            return (rows, None);
        }
        let sel = if self.selected_index < n {
            self.selected_index
        } else {
            n - 1
        };
        let mut repo_ctr: usize = 0;
        let mut i: usize = 0;
        while i < n
            invariant
                i <= n,
                n == prsv.len(),
                n == self.pull_requests@.len(),
                prsv == self@.pull_requests,
                row_views(rows@) == rows_upto(prsv, i as int),
                i > 0 ==> repo_ctr == run_index(prsv, i - 1) + 1,
                repo_ctr <= i,
                sel as int == clamp_index(self@.selected_index, n as int),
                sel < n,
                match selected_row {
                    Some(row) => sel < i && row as int == rows_upto(prsv, sel as int).len() + (
                    if new_group(prsv, sel as int) {
                        1int
                    } else {
                        0int
                    }),
                    None => sel >= i,
                },
            decreases n - i,
        {
            proof {
                assert(prsv[i as int] == self.pull_requests@[i as int].deep_view());
                if i > 0 {
                    assert(prsv[i - 1] == self.pull_requests@[i - 1].deep_view());
                }
            }
            let key = pr_key_exec(&self.pull_requests[i]);
            let is_new = if i == 0 {
                true
            } else {
                !str_eq(pr_key_exec(&self.pull_requests[i - 1]).as_str(), key.as_str())
            };
            proof {
                assert(is_new == new_group(prsv, i as int));
            }
            if is_new {
                repo_ctr = 0;
                let mut count: usize = 0;
                let mut j: usize = 0;
                proof {
                    assert(prsv.skip(0) =~= prsv);
                }
                while j < n
                    invariant
                        j <= n,
                        count <= j,
                        count_key(prsv, key@) == count + count_key(
                            prsv.skip(j as int),
                            key@,
                        ),
                    decreases n - j,
                {
                    proof {
                        assert(prsv[j as int] == self.pull_requests@[j as int].deep_view());
                        assert(prsv.skip(j as int)[0] == prsv[j as int]);
                        assert(prsv.skip(j as int).drop_first() =~= prsv.skip(j + 1));
                    }
                    if str_eq(pr_key_exec(&self.pull_requests[j]).as_str(), key.as_str()) {
                        count = count + 1;
                    }
                    j += 1;
                }
                proof {
                    assert(prsv.skip(n as int) =~= Seq::<PrV>::empty());
                    assert(count as nat == count_key(prsv, key@));
                }
                proof {
                    reveal_strlit(" (");
                    reveal_strlit(" ");
                    reveal_strlit("PR");
                    reveal_strlit("PRs");
                    reveal_strlit("):");
                }
                let mut header = key.clone();
                header.append(" (");
                header.append(u64_to_string(count as u64).as_str());
                header.append(" ");
                if count == 1 {
                    header.append("PR");
                } else {
                    header.append("PRs");
                }
                header.append("):");
                proof {
                    assert(header@ =~= header_text(prsv, i as int));
                }
                let ghost rows0 = rows@;
                rows.push((header, true));
                proof {
                    lemma_row_views_push(rows0, rows@[rows@.len() - 1]);
                    assert(row_views(rows@) =~= rows_upto(prsv, i as int) + seq![
                        (header_text(prsv, i as int), true),
                    ]);
                }
            }
            if i == sel {
                selected_row = Some(rows.len());
                proof {
                    lemma_row_views_len(rows@);
                    assert(rows@.len() as int == rows_upto(prsv, sel as int).len() + (
                    if new_group(prsv, sel as int) {
                        1int
                    } else {
                        0int
                    }));
                }
            }
            repo_ctr = repo_ctr + 1;
            proof {
                if is_new {
                    assert(run_index(prsv, i as int) == 0);
                } else {
                    assert(run_index(prsv, i as int) == run_index(prsv, i - 1) + 1);
                }
                assert(repo_ctr == run_index(prsv, i as int) + 1);
                reveal_strlit("  ");
                reveal_strlit(". #");
                reveal_strlit(" [");
                reveal_strlit("] ");
                reveal_strlit(" (");
                reveal_strlit(")");
            }
            let mut line = String::from_str("  ");
            line.append(u64_to_string(repo_ctr as u64).as_str());
            line.append(". #");
            line.append(u64_to_string(self.pull_requests[i].id).as_str());
            line.append(" [");
            line.append(self.pull_requests[i].state.as_str());
            line.append("] ");
            line.append(self.pull_requests[i].title.as_str());
            line.append(" (");
            line.append(self.pull_requests[i].author.as_str());
            line.append(")");
            proof {
                assert(line@ =~= pr_row_text(prsv, i as int));
            }
            let ghost rows1 = rows@;
            rows.push((line, false));
            proof {
                lemma_row_views_push(rows1, rows@[rows@.len() - 1]);
                assert(row_views(rows@) =~= rows_upto(prsv, i + 1));
            }
            i += 1;
        }
        (rows, selected_row)
    }
}

} // verus!
