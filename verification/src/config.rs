//! Configuration model: repository references, the pull-request status
//! filter, and the in-memory settings object that the command interpreter
//! mutates. Loading and saving the persisted settings file is the caller's
//! business; everything here works on plain values.
use crate::text::{
    find_from, is_space_char, lower_seq, str_eq, str_eq_ignore_case, trim, trim_spec,
};
use vstd::prelude::*;

verus! {

/// A parse failure for user-supplied configuration text.
#[derive(Debug)]
pub enum ParseError {
    /// The text did not have the form `workspace/repo` with two non-empty parts.
    InvalidRepoFormat,
    /// The text named no known status; the offending text is kept for the message.
    InvalidStatus(String),
}

impl ParseError {
    /// The human-readable message for this failure.
    pub fn message(&self) -> (r: String)
        ensures
            r@ == parse_error_text(self),
    {
        match self {
            ParseError::InvalidRepoFormat => {
                let m = "repo must be in the form workspace/repo";
                proof {
                    reveal_strlit("repo must be in the form workspace/repo");
                }
                String::from_str(m)
            },
            ParseError::InvalidStatus(s) => {
                proof {
                    reveal_strlit("invalid status '");
                    reveal_strlit("'. expected: open|merged|declined|all");
                }
                let mut m = String::from_str("invalid status '");
                m.append(s.as_str());
                m.append("'. expected: open|merged|declined|all");
                proof {
                    assert(m@ =~= parse_error_text(self));
                }
                m
            },
        }
    }
}

/// The message text that `ParseError::message` produces.
pub open spec fn parse_error_text(e: &ParseError) -> Seq<char> {
    match e {
        ParseError::InvalidRepoFormat => "repo must be in the form workspace/repo"@,
        ParseError::InvalidStatus(s) => "invalid status '"@ + s@
            + "'. expected: open|merged|declined|all"@,
    }
}

/// A tracked repository: a workspace name and a repository name.
pub struct RepoRef {
    pub workspace: String,
    pub repo: String,
}

/// The mathematical value of a `RepoRef`.
#[verifier::ext_equal]
pub ghost struct RepoRefV {
    pub workspace: Seq<char>,
    pub repo: Seq<char>,
}

impl View for RepoRef {
    type V = RepoRefV;

    open spec fn view(&self) -> RepoRefV {
        RepoRefV { workspace: self.workspace@, repo: self.repo@ }
    }
}

impl DeepView for RepoRef {
    type V = RepoRefV;

    open spec fn deep_view(&self) -> RepoRefV {
        self@
    }
}

/// The canonical `workspace/repo` form of a repository reference.
pub open spec fn repo_text(r: RepoRefV) -> Seq<char> {
    r.workspace + seq!['/'] + r.repo
}

/// The parse of `workspace/repo` text: the two `/`-separated parts, each
/// trimmed and non-empty; any other shape fails.
pub open spec fn parse_repo_spec(s: Seq<char>) -> Option<RepoRefV> {
    let i = find_from(s, '/', 0);
    if i == s.len() {
        None
    } else {
        let ws = trim_spec(s.subrange(0, i));
        let rest = s.subrange(i + 1, s.len() as int);
        if find_from(rest, '/', 0) != rest.len() {
            None
        } else {
            let rp = trim_spec(rest);
            if ws.len() == 0 || rp.len() == 0 {
                None
            } else {
                Some(RepoRefV { workspace: ws, repo: rp })
            }
        }
    }
}

impl RepoRef {
    /// Pairs a workspace name with a repository name.
    pub fn new(workspace: String, repo: String) -> (r: Self)
        ensures
            r@ == (RepoRefV { workspace: workspace@, repo: repo@ }),
    {
        Self { workspace, repo }
    }

    /// Parses `workspace/repo` text, rejecting anything without exactly two
    /// non-empty parts.
    pub fn parse(value: &str) -> (r: Result<Self, ParseError>)
        ensures
            match r {
                Ok(rr) => parse_repo_spec(value@) == Some(rr@),
                Err(e) => parse_repo_spec(value@) is None && e is InvalidRepoFormat,
            },
    {
        let n = value.unicode_len();
        let i = crate::text::find_char(value, '/');
        proof {
            crate::text::lemma_find_from(value@, '/', 0);
        }
        if i == n {
            return Err(ParseError::InvalidRepoFormat);
        }
        let ws = trim(value.substring_char(0, i));
        let rest = value.substring_char(i + 1, n);
        let j = crate::text::find_char(rest, '/');
        if j != rest.unicode_len() {
            return Err(ParseError::InvalidRepoFormat);
        }
        let rp = trim(rest);
        if ws.unicode_len() == 0 || rp.unicode_len() == 0 {
            return Err(ParseError::InvalidRepoFormat);
        }
        Ok(Self { workspace: ws.to_owned(), repo: rp.to_owned() })
    }

    /// A copy with the same contents.
    pub fn duplicate(&self) -> (r: Self)
        ensures
            r@ == self@,
    {
        Self { workspace: self.workspace.clone(), repo: self.repo.clone() }
    }

    /// The canonical `workspace/repo` text.
    pub fn to_text(&self) -> (r: String)
        ensures
            r@ == repo_text(self@),
    {
        proof {
            reveal_strlit("/");
        }
        let mut m = self.workspace.clone();
        m.append("/");
        m.append(self.repo.as_str());
        proof {
            assert(m@ =~= repo_text(self@));
        }
        m
    }
}

/// Equality of two repository references, field by field.
pub fn repo_ref_eq(a: &RepoRef, b: &RepoRef) -> (r: bool)
    ensures
        r == (a@ == b@),
{
    let r = str_eq(a.workspace.as_str(), b.workspace.as_str()) && str_eq(
        a.repo.as_str(),
        b.repo.as_str(),
    );
    proof {
        if a@.workspace == b@.workspace && a@.repo == b@.repo {
            assert(a@ =~= b@);
        }
    }
    r
}

/// The pull-request lifecycle state used to restrict results.
#[derive(Clone, Copy, Debug, PartialEq, Eq, Structural)]
pub enum PrStatus {
    Open,
    Merged,
    Declined,
    All,
}

impl Default for PrStatus {
    /// The status assumed when none was configured.
    fn default() -> (r: Self)
        ensures
            r == PrStatus::Open,
    {
        PrStatus::Open
    }
}

/// The display name of a status.
pub open spec fn status_label(s: PrStatus) -> Seq<char> {
    match s {
        PrStatus::Open => "open"@,
        PrStatus::Merged => "merged"@,
        PrStatus::Declined => "declined"@,
        PrStatus::All => "all"@,
    }
}

/// The state value sent to the review service for a status; `All` sends none.
pub open spec fn query_state_spec(s: PrStatus) -> Option<Seq<char>> {
    match s {
        PrStatus::Open => Some("OPEN"@),
        PrStatus::Merged => Some("MERGED"@),
        PrStatus::Declined => Some("DECLINED"@),
        PrStatus::All => None,
    }
}

/// The parse of status text: one of the four names, insensitive to case and
/// surrounding whitespace.
pub open spec fn parse_status_spec(s: Seq<char>) -> Option<PrStatus> {
    let t = lower_seq(trim_spec(s));
    if t == "open"@ {
        Some(PrStatus::Open)
    } else if t == "merged"@ {
        Some(PrStatus::Merged)
    } else if t == "declined"@ {
        Some(PrStatus::Declined)
    } else if t == "all"@ {
        Some(PrStatus::All)
    } else {
        None
    }
}

/// Lower-casing a string already made of lower-case letters changes nothing.
pub proof fn lemma_lower_lit(s: Seq<char>)
    requires
        forall|k: int| 0 <= k < s.len() ==> !('A' <= #[trigger] s[k] && s[k] <= 'Z'),
    ensures
        lower_seq(s) == s,
{
    assert(lower_seq(s) =~= s);
}

impl PrStatus {
    /// The state value for the review service's query, if this status
    /// restricts state at all.
    pub fn as_query_state(self) -> (r: Option<&'static str>)
        ensures
            match r {
                Some(t) => query_state_spec(self) == Some(t@),
                None => query_state_spec(self) is None,
            },
    {
        match self {
            Self::Open => Some("OPEN"),
            Self::Merged => Some("MERGED"),
            Self::Declined => Some("DECLINED"),
            Self::All => None,
        }
    }

    /// The display name of this status.
    pub fn label(self) -> (r: &'static str)
        ensures
            r@ == status_label(self),
    {
        match self {
            Self::Open => "open",
            Self::Merged => "merged",
            Self::Declined => "declined",
            Self::All => "all",
        }
    }

    /// Parses status text, insensitive to case and surrounding whitespace.
    pub fn parse(s: &str) -> (r: Result<Self, ParseError>)
        ensures
            match r {
                Ok(st) => parse_status_spec(s@) == Some(st),
                Err(e) => {
                    &&& parse_status_spec(s@) is None
                    &&& e matches ParseError::InvalidStatus(t) && t@ == s@
                },
            },
    {
        proof {
            reveal_strlit("open");
            reveal_strlit("merged");
            reveal_strlit("declined");
            reveal_strlit("all");
            lemma_lower_lit("open"@);
            lemma_lower_lit("merged"@);
            lemma_lower_lit("declined"@);
            lemma_lower_lit("all"@);
        }
        let t = trim(s);
        if str_eq_ignore_case(t, "open") {
            Ok(Self::Open)
        } else if str_eq_ignore_case(t, "merged") {
            Ok(Self::Merged)
        } else if str_eq_ignore_case(t, "declined") {
            Ok(Self::Declined)
        } else if str_eq_ignore_case(t, "all") {
            Ok(Self::All)
        } else {
            Err(ParseError::InvalidStatus(s.to_owned()))
        }
    }
}

/// The review-service query that selects the user's authored pull requests,
/// optionally restricted by state.
pub open spec fn build_query_spec(author_uuid: Seq<char>, status: PrStatus) -> Seq<char> {
    let base = "author.uuid=\""@ + author_uuid + "\""@;
    match query_state_spec(status) {
        None => base,
        Some(state) => base + " AND state=\""@ + state + "\""@,
    }
}

/// Builds the review-service query text.
pub fn build_query(author_uuid: &str, status: PrStatus) -> (r: String)
    ensures
        r@ == build_query_spec(author_uuid@, status),
{
    proof {
        reveal_strlit("author.uuid=\"");
        reveal_strlit("\"");
        reveal_strlit(" AND state=\"");
    }
    let mut q = String::from_str("author.uuid=\"");
    q.append(author_uuid);
    q.append("\"");
    match status.as_query_state() {
        None => {
            proof {
                assert(q@ =~= build_query_spec(author_uuid@, status));
            }
            q
        },
        Some(state) => {
            q.append(" AND state=\"");
            q.append(state);
            q.append("\"");
            proof {
                assert(q@ =~= build_query_spec(author_uuid@, status));
            }
            q
        },
    }
}

impl core::str::FromStr for PrStatus {
    type Err = ParseError;

    fn from_str(s: &str) -> Result<Self, ParseError> {
        PrStatus::parse(s)
    }
}

/// The mathematical value of a `Config`.
#[verifier::ext_equal]
pub ghost struct ConfigV {
    pub base_url: Seq<char>,
    pub email: Option<Seq<char>>,
    pub api_token: Option<Seq<char>>,
    pub repos: Seq<RepoRefV>,
    pub default_status: PrStatus,
}

impl ConfigV {
    /// The tracked-repository list never holds the same reference twice.
    pub open spec fn wf(self) -> bool {
        self.repos.no_duplicates()
    }
}

/// Membership of a repository reference in a list.
pub open spec fn repos_contain(rs: Seq<RepoRefV>, r: RepoRefV) -> bool {
    exists|i: int| 0 <= i < rs.len() && rs[i] == r
}

/// The user's settings: service location, credentials, tracked repositories,
/// and the default status filter.
pub struct Config {
    pub bitbucket_base_url: String,
    pub bitbucket_email: Option<String>,
    pub bitbucket_api_token: Option<String>,
    pub repos: Vec<RepoRef>,
    pub default_status: PrStatus,
}

impl View for Config {
    type V = ConfigV;

    open spec fn view(&self) -> ConfigV {
        ConfigV {
            base_url: self.bitbucket_base_url@,
            email: self.bitbucket_email.deep_view(),
            api_token: self.bitbucket_api_token.deep_view(),
            repos: self.repos.deep_view(),
            default_status: self.default_status,
        }
    }
}

/// The service location assumed when none was configured.
pub fn default_base_url() -> (r: &'static str)
    ensures
        r@ == "https://api.bitbucket.org/2.0"@,
{
    "https://api.bitbucket.org/2.0"
}

impl Default for Config {
    /// A configuration with no credentials, no repositories, the default
    /// service location, and the `Open` filter.
    fn default() -> (r: Self)
        ensures
            r@ == (ConfigV {
                base_url: "https://api.bitbucket.org/2.0"@,
                email: None,
                api_token: None,
                repos: Seq::empty(),
                default_status: PrStatus::Open,
            }),
    {
        let r = Config {
            bitbucket_base_url: String::from_str(default_base_url()),
            bitbucket_email: None,
            bitbucket_api_token: None,
            repos: Vec::new(),
            default_status: PrStatus::Open,
        };
        proof {
            assert(r@ =~= (ConfigV {
                base_url: "https://api.bitbucket.org/2.0"@,
                email: None,
                api_token: None,
                repos: Seq::empty(),
                default_status: PrStatus::Open,
            }));
        }
        r
    }
}

impl Config {
    /// The credentials, if both parts are present.
    pub fn credentials(&self) -> (r: Option<(&str, &str)>)
        ensures
            match r {
                Some(p) => self@.email == Some(p.0@) && self@.api_token == Some(p.1@),
                None => self@.email is None || self@.api_token is None,
            },
    {
        match (&self.bitbucket_email, &self.bitbucket_api_token) {
            (Some(email), Some(token)) => Some((email.as_str(), token.as_str())),
            _ => None,
        }
    }

    /// The tracked repositories, in insertion order.
    pub fn repos(&self) -> (r: &Vec<RepoRef>)
        ensures
            r.deep_view() == self@.repos,
    {
        &self.repos
    }

    /// Appends a repository unless it is already tracked; reports whether the
    /// list changed. The list never acquires a duplicate.
    pub fn add_repo(&mut self, repo_ref: RepoRef) -> (r: bool)
        ensures
            (*final(self))@ == add_repo_model(old(self)@, repo_ref@).0,
            r == add_repo_model(old(self)@, repo_ref@).1,
            old(self)@.wf() ==> (*final(self))@.wf(),
    {
        let ghost rs = self@.repos;
        let mut i: usize = 0;
        while i < self.repos.len()
            invariant
                i <= self.repos.len(),
                rs == self@.repos,
                rs.len() == self.repos.len(),
                forall|k: int| 0 <= k < i ==> rs[k] != repo_ref@,
            decreases self.repos.len() - i,
        {
            if repo_ref_eq(&self.repos[i], &repo_ref) {
                proof {
                    assert(rs[i as int] == repo_ref@);
                }
                return false;
            }
            i += 1;
        }
        proof {
            assert(!repos_contain(rs, repo_ref@));
        }
        self.repos.push(repo_ref);
        proof {
            assert(self@.repos =~= rs.push(repo_ref@));
            assert(self@ =~= add_repo_model(old(self)@, repo_ref@).0);
            if old(self)@.wf() {
                assert(self@.repos.drop_last() =~= rs);
                assert(self@.wf());
            }
        }
        true
    }

    /// Removes every occurrence of a repository; reports whether the list
    /// changed.
    pub fn remove_repo(&mut self, repo_ref: &RepoRef) -> (r: bool)
        ensures
            (*final(self))@ == (ConfigV {
                repos: without_repo(old(self)@.repos, repo_ref@),
                ..old(self)@
            }),
            r == repos_contain(old(self)@.repos, repo_ref@),
            old(self)@.wf() ==> (*final(self))@.wf(),
    {
        let ghost rs = self@.repos;
        let mut kept: Vec<RepoRef> = Vec::new();
        let mut found = false;
        let mut i: usize = 0;
        proof {
            assert(rs.skip(0) =~= rs);
        }
        while i < self.repos.len()
            invariant
                i <= self.repos.len(),
                rs == self@.repos,
                rs.len() == self.repos.len(),
                without_repo(rs, repo_ref@) == kept.deep_view() + without_repo(
                    rs.skip(i as int),
                    repo_ref@,
                ),
                found == repos_contain(rs.take(i as int), repo_ref@),
            decreases self.repos.len() - i,
        {
            let keep = !repo_ref_eq(&self.repos[i], repo_ref);
            let ghost dv = kept.deep_view();
            proof {
                assert(rs[i as int] == self.repos@[i as int].deep_view());
                assert(rs.skip(i as int).drop_first() =~= rs.skip(i + 1));
                assert(rs.skip(i as int)[0] == rs[i as int]);
                assert(rs.take(i + 1) =~= rs.take(i as int).push(rs[i as int]));
            }
            if keep {
                kept.push(self.repos[i].duplicate());
                proof {
                    assert(kept.deep_view() =~= dv.push(rs[i as int]));
                    assert(dv.push(rs[i as int]) + without_repo(rs.skip(i + 1), repo_ref@) =~= dv
                        + (seq![rs[i as int]] + without_repo(rs.skip(i + 1), repo_ref@)));
                    assert(found == repos_contain(rs.take(i + 1), repo_ref@)) by {
                        assert forall|k: int|
                            0 <= k < i + 1 && #[trigger] rs.take(i + 1)[k] == repo_ref@
                            implies repos_contain(rs.take(i as int), repo_ref@) by {
                            assert(k < i);
                            assert(rs.take(i as int)[k] == repo_ref@);
                        }
                    }
                }
            } else {
                found = true;
                proof {
                    assert(rs.take(i + 1)[i as int] == repo_ref@);
                }
            }
            i += 1;
        }
        proof {
            assert(rs.take(rs.len() as int) =~= rs);
            assert(rs.skip(rs.len() as int) =~= Seq::<RepoRefV>::empty());
            assert(kept.deep_view() + Seq::<RepoRefV>::empty() =~= kept.deep_view());
        }
        self.repos = kept;
        proof {
            assert(self@ =~= (ConfigV { repos: without_repo(rs, repo_ref@), ..old(self)@ }));
            if old(self)@.wf() {
                lemma_without_repo(rs, repo_ref@);
            }
        }
        found
    }

    /// The active default status filter.
    pub fn status(&self) -> (r: PrStatus)
        ensures
            r == self@.default_status,
    {
        self.default_status
    }

    /// Sets the default status filter; reports whether it changed.
    pub fn set_status(&mut self, status: PrStatus) -> (r: bool)
        ensures
            (*final(self))@ == (ConfigV { default_status: status, ..old(self)@ }),
            r == (old(self)@.default_status != status),
    {
        if self.default_status == status {
            proof {
                assert(self@ =~= (ConfigV { default_status: status, ..old(self)@ }));
            }
            return false;
        }
        self.default_status = status;
        proof {
            assert(self@ =~= (ConfigV { default_status: status, ..old(self)@ }));
        }
        true
    }
}

/// Adding a repository: a no-op on a duplicate, an append otherwise; the
/// flag reports whether the list changed.
pub open spec fn add_repo_model(c: ConfigV, r: RepoRefV) -> (ConfigV, bool) {
    if repos_contain(c.repos, r) {
        (c, false)
    } else {
        (ConfigV { repos: c.repos.push(r), ..c }, true)
    }
}

/// Values read from the process environment, already trimmed and with empty
/// values dropped by the caller.
pub struct EnvOverrides {
    pub email: Option<String>,
    pub api_token: Option<String>,
    pub status: Option<String>,
    pub base_url: Option<String>,
    pub repo_list: Option<String>,
    pub workspace: Option<String>,
    pub repo: Option<String>,
}

/// The mathematical value of `EnvOverrides`.
#[verifier::ext_equal]
pub ghost struct EnvOverridesV {
    pub email: Option<Seq<char>>,
    pub api_token: Option<Seq<char>>,
    pub status: Option<Seq<char>>,
    pub base_url: Option<Seq<char>>,
    pub repo_list: Option<Seq<char>>,
    pub workspace: Option<Seq<char>>,
    pub repo: Option<Seq<char>>,
}

impl View for EnvOverrides {
    type V = EnvOverridesV;

    open spec fn view(&self) -> EnvOverridesV {
        EnvOverridesV {
            email: self.email.deep_view(),
            api_token: self.api_token.deep_view(),
            status: self.status.deep_view(),
            base_url: self.base_url.deep_view(),
            repo_list: self.repo_list.deep_view(),
            workspace: self.workspace.deep_view(),
            repo: self.repo.deep_view(),
        }
    }
}

/// Environment credentials and service location applied over a
/// configuration; every present value counts as a change.
pub open spec fn env_simple_model(c: ConfigV, env: EnvOverridesV) -> (ConfigV, bool) {
    let p1 = if env.email is Some {
        (ConfigV { email: env.email, ..c }, true)
    } else {
        (c, false)
    };
    if env.api_token is Some {
        (ConfigV { api_token: env.api_token, ..p1.0 }, true)
    } else {
        p1
    }
}

/// The environment status override applied; bad text fails.
pub open spec fn env_status_model(p: (ConfigV, bool), status: Option<Seq<char>>) -> Option<
    (ConfigV, bool),
> {
    match status {
        None => Some(p),
        Some(t) => match parse_status_spec(t) {
            None => None,
            Some(st) => Some(((ConfigV { default_status: st, ..p.0 }), true)),
        },
    }
}

/// The environment repository overrides applied: the comma list, then the
/// single workspace/repository pair.
pub open spec fn env_repos_model(p: (ConfigV, bool), env: EnvOverridesV) -> Option<
    (ConfigV, bool),
> {
    let after_list = match env.repo_list {
        None => Some(p),
        Some(t) => match parse_list_model(repo_list_items(t)) {
            None => None,
            Some(rs) => Some(add_refs_model(p, rs)),
        },
    };
    match after_list {
        None => None,
        Some(q) => Some(
            if env.workspace is Some && env.repo is Some {
                add_repo_step(
                    q,
                    RepoRefV { workspace: env.workspace.unwrap(), repo: env.repo.unwrap() },
                )
            } else {
                q
            },
        ),
    }
}

/// The command-line credentials, status, and service location applied; the
/// status and the location count as changes only when they differ.
pub open spec fn cli_simple_model(
    p: (ConfigV, bool),
    email: Option<Seq<char>>,
    api_token: Option<Seq<char>>,
    status: Option<PrStatus>,
    base_url: Option<Seq<char>>,
) -> (ConfigV, bool) {
    let p1 = if email is Some {
        (ConfigV { email: email, ..p.0 }, true)
    } else {
        p
    };
    let p2 = if api_token is Some {
        (ConfigV { api_token: api_token, ..p1.0 }, true)
    } else {
        p1
    };
    let p3 = match status {
        None => p2,
        Some(st) => (
            ConfigV { default_status: st, ..p2.0 },
            p2.1 || p2.0.default_status != st,
        ),
    };
    match base_url {
        None => p3,
        Some(u) => if p3.0.base_url != u {
            (ConfigV { base_url: u, ..p3.0 }, true)
        } else {
            p3
        },
    }
}

/// The environment half of the override pipeline.
pub open spec fn env_overrides_model(c: ConfigV, env: EnvOverridesV) -> Option<(ConfigV, bool)> {
    let p1 = env_simple_model(c, env);
    match env_status_model(p1, env.status) {
        None => None,
        Some(p2) => {
            let p3 = if env.base_url is Some {
                (ConfigV { base_url: env.base_url.unwrap(), ..p2.0 }, true)
            } else {
                p2
            };
            env_repos_model(p3, env)
        },
    }
}

/// The command-line half of the override pipeline.
pub open spec fn cli_overrides_model(
    p: (ConfigV, bool),
    cli_repos: Seq<Seq<char>>,
    cli_email: Option<Seq<char>>,
    cli_api_token: Option<Seq<char>>,
    cli_status: Option<PrStatus>,
    cli_base_url: Option<Seq<char>>,
) -> Option<(ConfigV, bool)> {
    add_texts_model(
        cli_simple_model(p, cli_email, cli_api_token, cli_status, cli_base_url),
        cli_repos,
    )
}

/// The whole override pipeline: environment values first, command-line
/// values second, repositories appended without duplicates; any bad status
/// or repository text fails the run. The flag says whether anything changed
/// and so whether the caller should persist the configuration.
pub open spec fn apply_overrides_model(
    c: ConfigV,
    env: EnvOverridesV,
    cli_repos: Seq<Seq<char>>,
    cli_email: Option<Seq<char>>,
    cli_api_token: Option<Seq<char>>,
    cli_status: Option<PrStatus>,
    cli_base_url: Option<Seq<char>>,
) -> Option<(ConfigV, bool)> {
    match env_overrides_model(c, env) {
        None => None,
        Some(p) => cli_overrides_model(
            p,
            cli_repos,
            cli_email,
            cli_api_token,
            cli_status,
            cli_base_url,
        ),
    }
}

impl Config {
    /// Applies the environment overrides in order, returning whether
    /// anything changed; a bad status or repository text fails the run with
    /// earlier overrides already applied.
    #[verifier::rlimit(60)]
    #[verifier::loop_isolation(false)]
    fn apply_env_overrides(&mut self, env: EnvOverrides) -> (r: Result<bool, ParseError>)
        ensures
            match r {
                Ok(changed) => env_overrides_model(old(self)@, env@) == Some(
                    ((*final(self))@, changed),
                ),
                Err(e) => {
                    &&& env_overrides_model(old(self)@, env@) is None
                    &&& match e {
                        ParseError::InvalidStatus(t) => env@.status == Some(t@)
                            && parse_status_spec(t@) is None,
                        ParseError::InvalidRepoFormat => true,
                    }
                },
            },
            old(self)@.wf() ==> (*final(self))@.wf(),
    {
        let ghost c0 = self@;
        let ghost envv = env@;
        let mut changed = false;
        let EnvOverrides {
            email: env_email,
            api_token: env_api_token,
            status: env_status,
            base_url: env_base_url,
            repo_list: env_repo_list,
            workspace: env_workspace,
            repo: env_repo,
        } = env;
        if let Some(v) = env_email {
            self.bitbucket_email = Some(v);
            changed = true;
        }
        if let Some(v) = env_api_token {
            self.bitbucket_api_token = Some(v);
            changed = true;
        }
        proof {
            assert((self@, changed) =~= env_simple_model(c0, envv));
        }
        let ghost p1 = env_simple_model(c0, envv);
        if let Some(v) = env_status {
            match PrStatus::parse(v.as_str()) {
                Ok(st) => {
                    self.default_status = st;
                    changed = true;
                },
                Err(e) => {
                    return Err(e);
                },
            }
        }
        proof {
            assert(Some((self@, changed)) =~= env_status_model(p1, envv.status));
        }
        let ghost p2 = (self@, changed);
        if let Some(v) = env_base_url {
            self.bitbucket_base_url = v;
            changed = true;
        }
        let ghost p3 = (self@, changed);
        proof {
            if envv.base_url is Some {
                assert(p3 =~= (ConfigV { base_url: envv.base_url.unwrap(), ..p2.0 }, true));
            }
        }
        if let Some(v) = env_repo_list {
            let list = match parse_repo_list(v.as_str()) {
                Ok(list) => list,
                Err(e) => {
                    proof {
                        assert(env_repos_after_list(p3, envv) is None);
                        assert(env_repos_model(p3, envv) is None);
                    }
                    return Err(e);
                },
            };
            let ghost rs = list.deep_view();
            let ghost pstart = (self@, changed);
            let mut i: usize = 0;
            proof {
                assert(rs.skip(0) =~= rs);
            }
            while i < list.len()
                invariant
                    i <= list.len(),
                    rs.len() == list@.len(),
                    add_refs_model(pstart, rs) == add_refs_model(
                        (self@, changed),
                        rs.skip(i as int),
                    ),
                    c0.wf() ==> self@.wf(),
                decreases list.len() - i,
            {
                proof {
                    assert(rs.skip(i as int)[0] == rs[i as int]);
                    assert(rs.skip(i as int).drop_first() =~= rs.skip(i + 1));
                    assert(rs[i as int] == list@[i as int].deep_view());
                }
                let added = self.add_repo(list[i].duplicate());
                changed = changed || added;
                i += 1;
            }
            proof {
                assert(rs.skip(rs.len() as int) =~= Seq::<RepoRefV>::empty());
            }
        }
        proof {
            assert(Some((self@, changed)) =~= env_repos_after_list(p3, envv));
        }
        if let (Some(ws), Some(rp)) = (env_workspace, env_repo) {
            let added = self.add_repo(RepoRef::new(ws, rp));
            changed = changed || added;
        }
        proof {
            assert(Some((self@, changed)) =~= env_repos_model(p3, envv));
        }
        Ok(changed)
    }

    /// Applies the command-line overrides in order, continuing an earlier
    /// change flag; a bad repository text fails the run with earlier
    /// overrides already applied.
    #[verifier::rlimit(60)]
    #[verifier::loop_isolation(false)]
    fn apply_cli_overrides(
        &mut self,
        start_changed: bool,
        repos: Vec<String>,
        email: Option<String>,
        api_token: Option<String>,
        status: Option<PrStatus>,
        base_url: Option<String>,
    ) -> (r: Result<bool, ParseError>)
        ensures
            match r {
                Ok(changed) => cli_overrides_model(
                    (old(self)@, start_changed),
                    repos.deep_view(),
                    email.deep_view(),
                    api_token.deep_view(),
                    status,
                    base_url.deep_view(),
                ) == Some(((*final(self))@, changed)),
                Err(e) => {
                    &&& cli_overrides_model(
                        (old(self)@, start_changed),
                        repos.deep_view(),
                        email.deep_view(),
                        api_token.deep_view(),
                        status,
                        base_url.deep_view(),
                    ) is None
                    &&& e is InvalidRepoFormat
                },
            },
            old(self)@.wf() ==> (*final(self))@.wf(),
    {
        let ghost c0 = self@;
        let ghost p4 = (self@, start_changed);
        let ghost cev = email.deep_view();
        let ghost ctv = api_token.deep_view();
        let ghost cbv = base_url.deep_view();
        let mut changed = start_changed;
        if let Some(v) = email {
            self.bitbucket_email = Some(v);
            changed = true;
        }
        if let Some(v) = api_token {
            self.bitbucket_api_token = Some(v);
            changed = true;
        }
        if let Some(st) = status {
            let st_changed = self.set_status(st);
            changed = changed || st_changed;
        }
        if let Some(v) = base_url {
            if !crate::text::str_eq(self.bitbucket_base_url.as_str(), v.as_str()) {
                self.bitbucket_base_url = v;
                changed = true;
            }
        }
        proof {
            assert((self@, changed) =~= cli_simple_model(p4, cev, ctv, status, cbv));
        }
        let ghost p5 = (self@, changed);
        let ghost texts = repos.deep_view();
        let mut i: usize = 0;
        proof {
            assert(texts.skip(0) =~= texts);
        }
        while i < repos.len()
            invariant
                i <= repos.len(),
                texts.len() == repos@.len(),
                add_texts_model(p5, texts) == add_texts_model(
                    (self@, changed),
                    texts.skip(i as int),
                ),
                c0.wf() ==> self@.wf(),
            decreases repos.len() - i,
        {
            proof {
                assert(texts.skip(i as int)[0] == texts[i as int]);
                assert(texts.skip(i as int).drop_first() =~= texts.skip(i + 1));
                assert(texts[i as int] == repos@[i as int].deep_view());
            }
            let rr = match RepoRef::parse(repos[i].as_str()) {
                Ok(rr) => rr,
                Err(e) => {
                    proof {
                        assert(add_texts_model((self@, changed), texts.skip(i as int)) is None);
                        assert(add_texts_model(p5, texts) is None);
                    }
                    return Err(e);
                },
            };
            let added = self.add_repo(rr);
            changed = changed || added;
            i += 1;
        }
        proof {
            assert(texts.skip(texts.len() as int) =~= Seq::<Seq<char>>::empty());
            assert(add_texts_model(p5, texts) == Some((self@, changed)));
        }
        Ok(changed)
    }

    /// Applies environment and command-line overrides in order, returning
    /// whether anything changed (and so whether the caller should persist).
    /// A bad status or repository text fails the run; earlier overrides may
    /// then already be applied, matching a caller that treats the failure as
    /// fatal.
    pub fn apply_env_and_cli(
        &mut self,
        env: EnvOverrides,
        repos: Vec<String>,
        email: Option<String>,
        api_token: Option<String>,
        status: Option<PrStatus>,
        base_url: Option<String>,
    ) -> (r: Result<bool, ParseError>)
        ensures
            match r {
                Ok(changed) => apply_overrides_model(
                    old(self)@,
                    env@,
                    repos.deep_view(),
                    email.deep_view(),
                    api_token.deep_view(),
                    status,
                    base_url.deep_view(),
                ) == Some(((*final(self))@, changed)),
                Err(e) => {
                    &&& apply_overrides_model(
                        old(self)@,
                        env@,
                        repos.deep_view(),
                        email.deep_view(),
                        api_token.deep_view(),
                        status,
                        base_url.deep_view(),
                    ) is None
                    &&& match e {
                        ParseError::InvalidStatus(t) => env@.status == Some(t@)
                            && parse_status_spec(t@) is None,
                        ParseError::InvalidRepoFormat => true,
                    }
                },
            },
            old(self)@.wf() ==> (*final(self))@.wf(),
    {
        let env_changed = match self.apply_env_overrides(env) {
            Ok(c) => c,
            Err(e) => {
                return Err(e);
            },
        };
        match self.apply_cli_overrides(env_changed, repos, email, api_token, status, base_url) {
            Ok(c) => Ok(c),
            Err(e) => Err(e),
        }
    }
}

/// The state after the environment's comma list alone.
pub open spec fn env_repos_after_list(p: (ConfigV, bool), env: EnvOverridesV) -> Option<
    (ConfigV, bool),
> {
    match env.repo_list {
        None => Some(p),
        Some(t) => match parse_list_model(repo_list_items(t)) {
            None => None,
            Some(rs) => Some(add_refs_model(p, rs)),
        },
    }
}

/// The repository list with every occurrence of `r` removed, order kept.
pub open spec fn without_repo(rs: Seq<RepoRefV>, r: RepoRefV) -> Seq<RepoRefV>
    decreases rs.len(),
{
    if rs.len() == 0 {
        Seq::empty()
    } else if rs[0] == r {
        without_repo(rs.drop_first(), r)
    } else {
        seq![rs[0]] + without_repo(rs.drop_first(), r)
    }
}

/// Removing a reference that is not in the list changes nothing.
pub proof fn lemma_without_repo_absent(rs: Seq<RepoRefV>, r: RepoRefV)
    requires
        !repos_contain(rs, r),
    ensures
        without_repo(rs, r) == rs,
    decreases rs.len(),
{
    if rs.len() > 0 {
        assert(rs[0] != r);
        assert(!repos_contain(rs.drop_first(), r)) by {
            if repos_contain(rs.drop_first(), r) {
                let k = choose|k: int|
                    0 <= k < rs.drop_first().len() && rs.drop_first()[k] == r;
                assert(rs[k + 1] == r);
            }
        }
        lemma_without_repo_absent(rs.drop_first(), r);
        assert(without_repo(rs, r) =~= rs);
    } else {
        assert(without_repo(rs, r) =~= rs);
    }
}

/// What removal keeps: exactly the other elements, without introducing
/// duplicates.
pub proof fn lemma_without_repo(rs: Seq<RepoRefV>, r: RepoRefV)
    ensures
        forall|x: RepoRefV|
            #[trigger] without_repo(rs, r).contains(x) <==> (rs.contains(x) && x != r),
        rs.no_duplicates() ==> without_repo(rs, r).no_duplicates(),
    decreases rs.len(),
{
    if rs.len() == 0 {
    } else {
        let rest = rs.drop_first();
        lemma_without_repo(rest, r);
        let w = without_repo(rs, r);
        assert forall|x: RepoRefV| #[trigger] w.contains(x) implies (rs.contains(x) && x != r) by {
            if rs[0] == r {
                assert(w == without_repo(rest, r));
                assert(without_repo(rest, r).contains(x));
                assert(rest.contains(x));
                let k = choose|k: int| 0 <= k < rest.len() && rest[k] == x;
                assert(rs[k + 1] == x);
            } else {
                let k = choose|k: int| 0 <= k < w.len() && w[k] == x;
                if k == 0 {
                    assert(rs.contains(rs[0]));
                } else {
                    assert(without_repo(rest, r)[k - 1] == x);
                    assert(without_repo(rest, r).contains(x));
                    let m = choose|m: int| 0 <= m < rest.len() && rest[m] == x;
                    assert(rs[m + 1] == x);
                }
            }
        }
        assert forall|x: RepoRefV| rs.contains(x) && x != r implies #[trigger] w.contains(x) by {
            let k = choose|k: int| 0 <= k < rs.len() && rs[k] == x;
            if k == 0 {
                if rs[0] != r {
                    assert(w[0] == x);
                }
            } else {
                assert(rest[k - 1] == x);
                assert(rest.contains(x));
                assert(without_repo(rest, r).contains(x));
                if rs[0] != r {
                    let m = choose|m: int|
                        0 <= m < without_repo(rest, r).len() && without_repo(rest, r)[m] == x;
                    assert(w[m + 1] == x);
                }
            }
        }
        if rs.no_duplicates() {
            assert forall|i: int, j: int|
                0 <= i < j < rest.len() implies rest[i] != rest[j] by {
                assert(rs[i + 1] == rest[i]);
                assert(rs[j + 1] == rest[j]);
            }
            assert(rest.no_duplicates());
            if rs[0] != r {
                if without_repo(rest, r).contains(rs[0]) {
                    assert(rest.contains(rs[0]));
                    let m = choose|m: int| 0 <= m < rest.len() && rest[m] == rs[0];
                    assert(rs[m + 1] == rs[0]);
                }
                assert forall|i: int, j: int|
                    0 <= i < j < w.len() implies w[i] != w[j] by {
                    if i == 0 {
                        assert(w[j] == without_repo(rest, r)[j - 1]);
                        assert(without_repo(rest, r).contains(w[j]));
                        if w[0] == w[j] {
                            assert(without_repo(rest, r).contains(rs[0]));
                        }
                    } else {
                        assert(w[i] == without_repo(rest, r)[i - 1]);
                        assert(w[j] == without_repo(rest, r)[j - 1]);
                    }
                }
                assert(w.no_duplicates());
            }
        }
    }
}

/// One step of repository addition carrying the accumulated change flag.
pub open spec fn add_repo_step(p: (ConfigV, bool), r: RepoRefV) -> (ConfigV, bool) {
    let q = add_repo_model(p.0, r);
    (q.0, p.1 || q.1)
}

/// Adds each reference in turn, accumulating the change flag.
pub open spec fn add_refs_model(p: (ConfigV, bool), rs: Seq<RepoRefV>) -> (ConfigV, bool)
    decreases rs.len(),
{
    if rs.len() == 0 {
        p
    } else {
        add_refs_model(add_repo_step(p, rs[0]), rs.drop_first())
    }
}

/// Parses each text and adds the result in turn; the first bad text fails
/// the whole run.
pub open spec fn add_texts_model(p: (ConfigV, bool), texts: Seq<Seq<char>>) -> Option<
    (ConfigV, bool),
>
    decreases texts.len(),
{
    if texts.len() == 0 {
        Some(p)
    } else {
        match parse_repo_spec(texts[0]) {
            None => None,
            Some(r) => add_texts_model(add_repo_step(p, r), texts.drop_first()),
        }
    }
}

/// The comma-separated segments of `s`, in order, separators removed.
pub open spec fn split_commas(s: Seq<char>) -> Seq<Seq<char>>
    decreases s.len(),
    via split_commas_decreases
{
    let i = find_from(s, ',', 0);
    if i == s.len() {
        seq![s]
    } else {
        seq![s.subrange(0, i)] + split_commas(s.subrange(i + 1, s.len() as int))
    }
}

#[via_fn]
proof fn split_commas_decreases(s: Seq<char>) {
    crate::text::lemma_find_from(s, ',', 0);
}

/// Each item trimmed, with items that trim to nothing dropped.
pub open spec fn nonempty_trimmed(items: Seq<Seq<char>>) -> Seq<Seq<char>>
    decreases items.len(),
{
    if items.len() == 0 {
        Seq::empty()
    } else {
        let t = trim_spec(items[0]);
        let rest = nonempty_trimmed(items.drop_first());
        if t.len() == 0 {
            rest
        } else {
            seq![t] + rest
        }
    }
}

/// The repository texts named by a comma-separated list.
pub open spec fn repo_list_items(s: Seq<char>) -> Seq<Seq<char>> {
    nonempty_trimmed(split_commas(s))
}

/// The parses of all the texts, or nothing if any text is bad.
pub open spec fn parse_list_model(texts: Seq<Seq<char>>) -> Option<Seq<RepoRefV>>
    decreases texts.len(),
{
    if texts.len() == 0 {
        Some(Seq::empty())
    } else {
        match parse_repo_spec(texts[0]) {
            None => None,
            Some(r) => match parse_list_model(texts.drop_first()) {
                None => None,
                Some(rest) => Some(seq![r] + rest),
            },
        }
    }
}

/// Parses a comma-separated list of `workspace/repo` texts, ignoring
/// segments that are empty after trimming.
pub fn parse_repo_list(value: &str) -> (r: Result<Vec<RepoRef>, ParseError>)
    ensures
        match r {
            Ok(v) => parse_list_model(repo_list_items(value@)) == Some(v.deep_view()),
            Err(e) => parse_list_model(repo_list_items(value@)) is None && e
                is InvalidRepoFormat,
        },
{
    let mut out: Vec<RepoRef> = Vec::new();
    let mut rest: &str = value;
    let mut done = false;
    proof {
        assert(out.deep_view() =~= Seq::<RepoRefV>::empty());
        lemma_prepend_parsed_nil(repo_list_items(value@));
    }
    while !done
        invariant
            done ==> parse_list_model(repo_list_items(value@)) == prepend_parsed(
                out.deep_view(),
                Seq::empty(),
            ),
            !done ==> parse_list_model(repo_list_items(value@)) == prepend_parsed(
                out.deep_view(),
                repo_list_items(rest@),
            ),
        decreases rest@.len() + (if done { 0int } else { 1int }),
    {
        let i = crate::text::find_char(rest, ',');
        proof {
            crate::text::lemma_find_from(rest@, ',', 0);
        }
        let n = rest.unicode_len();
        let seg = if i == n {
            rest
        } else {
            rest.substring_char(0, i)
        };
        let ghost old_rest = rest@;
        let ghost old_out = out.deep_view();
        let next: &str = if i == n {
            ""
        } else {
            rest.substring_char(i + 1, n)
        };
        proof {
            if i == n {
                assert(split_commas(old_rest) =~= seq![old_rest]);
                assert(seg@ == old_rest);
                lemma_nonempty_trimmed_single(old_rest);
            } else {
                assert(seg@ == old_rest.subrange(0, i as int));
                assert(next@ == old_rest.subrange(i + 1, old_rest.len() as int));
                assert(split_commas(old_rest) =~= seq![seg@] + split_commas(next@));
                lemma_nonempty_trimmed_cons(seg@, split_commas(next@));
            }
        }
        let t = trim(seg);
        if t.unicode_len() == 0 {
            proof {
                if i == n {
                    assert(repo_list_items(old_rest) =~= Seq::<Seq<char>>::empty());
                    assert(prepend_parsed(old_out, repo_list_items(old_rest)) == prepend_parsed(
                        old_out,
                        Seq::empty(),
                    ));
                } else {
                    assert(split_commas(old_rest) =~= seq![seg@] + split_commas(next@));
                    assert(split_commas(old_rest).drop_first() =~= split_commas(next@));
                    assert(repo_list_items(old_rest) == repo_list_items(next@));
                }
            }
        } else {
            match RepoRef::parse(t) {
                Err(_) => {
                    proof {
                        lemma_trim_idempotent(seg@);
                        if i == n {
                            assert(repo_list_items(old_rest) =~= seq![t@]);
                        } else {
                            assert(split_commas(old_rest) =~= seq![seg@] + split_commas(next@));
                            assert(split_commas(old_rest).drop_first() =~= split_commas(next@));
                            assert(repo_list_items(old_rest) =~= seq![t@] + repo_list_items(
                                next@,
                            ));
                            assert(repo_list_items(old_rest)[0] == t@);
                            assert(repo_list_items(old_rest).drop_first() =~= repo_list_items(
                                next@,
                            ));
                        }
                        lemma_prepend_parsed_none(old_out, repo_list_items(old_rest));
                    }
                    return Err(ParseError::InvalidRepoFormat);
                },
                Ok(rr) => {
                    let ghost rv = rr@;
                    out.push(rr);
                    proof {
                        lemma_trim_idempotent(seg@);
                        assert(out.deep_view() =~= old_out.push(rv));
                        if i == n {
                            assert(repo_list_items(old_rest) =~= seq![t@]);
                            assert(repo_list_items(old_rest)[0] == t@);
                            assert(repo_list_items(old_rest).drop_first() =~= Seq::<Seq<
                                char,
                            >>::empty());
                            lemma_prepend_parsed_push(old_out, rv, Seq::empty());
                        } else {
                            assert(split_commas(old_rest) =~= seq![seg@] + split_commas(next@));
                            assert(split_commas(old_rest).drop_first() =~= split_commas(next@));
                            assert(repo_list_items(old_rest) =~= seq![t@] + repo_list_items(
                                next@,
                            ));
                            assert(repo_list_items(old_rest)[0] == t@);
                            assert(repo_list_items(old_rest).drop_first() =~= repo_list_items(
                                next@,
                            ));
                            lemma_prepend_parsed_push(old_out, rv, repo_list_items(next@));
                        }
                    }
                },
            }
        }
        if i == n {
            done = true;
        } else {
            rest = next;
        }
    }
    proof {
        lemma_prepend_parsed_empty(out.deep_view());
    }
    Ok(out)
}

/// `parse_list_model` of the remaining texts, with already-parsed references
/// in front.
pub open spec fn prepend_parsed(acc: Seq<RepoRefV>, texts: Seq<Seq<char>>) -> Option<
    Seq<RepoRefV>,
> {
    match parse_list_model(texts) {
        None => None,
        Some(v) => Some(acc + v),
    }
}

proof fn lemma_nonempty_trimmed_single(x: Seq<char>)
    ensures
        nonempty_trimmed(seq![x]) == if trim_spec(x).len() == 0 {
            Seq::<Seq<char>>::empty()
        } else {
            seq![trim_spec(x)]
        },
{
    let items = seq![x];
    assert(items.len() == 1);
    assert(items[0] == x);
    assert(items.drop_first() =~= Seq::<Seq<char>>::empty());
    assert(nonempty_trimmed(Seq::<Seq<char>>::empty()) == Seq::<Seq<char>>::empty());
    if trim_spec(x).len() != 0 {
        assert(nonempty_trimmed(items) =~= seq![trim_spec(x)]);
    }
}

proof fn lemma_nonempty_trimmed_cons(x: Seq<char>, rest: Seq<Seq<char>>)
    ensures
        nonempty_trimmed(seq![x] + rest) == if trim_spec(x).len() == 0 {
            nonempty_trimmed(rest)
        } else {
            seq![trim_spec(x)] + nonempty_trimmed(rest)
        },
{
    let items = seq![x] + rest;
    assert(items[0] == x);
    assert(items.drop_first() =~= rest);
}

proof fn lemma_prepend_parsed_nil(texts: Seq<Seq<char>>)
    ensures
        prepend_parsed(Seq::empty(), texts) == parse_list_model(texts),
{
    match parse_list_model(texts) {
        None => {},
        Some(v) => {
            assert(Seq::<RepoRefV>::empty() + v =~= v);
        },
    }
}

proof fn lemma_prepend_parsed_empty(acc: Seq<RepoRefV>)
    ensures
        prepend_parsed(acc, Seq::empty()) == Some(acc),
{
    assert(parse_list_model(Seq::empty()) == Some(Seq::<RepoRefV>::empty()));
    assert(acc + Seq::<RepoRefV>::empty() =~= acc);
}

proof fn lemma_prepend_parsed_none(acc: Seq<RepoRefV>, texts: Seq<Seq<char>>)
    requires
        texts.len() > 0,
        parse_repo_spec(texts[0]) is None,
    ensures
        prepend_parsed(acc, texts) is None,
{
}

proof fn lemma_prepend_parsed_push(acc: Seq<RepoRefV>, r: RepoRefV, rest_texts: Seq<Seq<char>>)
    ensures
        forall|texts: Seq<Seq<char>>|
            texts.len() > 0 && parse_repo_spec(texts[0]) == Some(r) && texts.drop_first()
                =~= rest_texts ==> #[trigger] prepend_parsed(acc, texts) == prepend_parsed(
                acc.push(r),
                rest_texts,
            ),
{
    assert forall|texts: Seq<Seq<char>>|
        texts.len() > 0 && parse_repo_spec(texts[0]) == Some(r) && texts.drop_first()
            =~= rest_texts implies #[trigger] prepend_parsed(acc, texts) == prepend_parsed(
        acc.push(r),
        rest_texts,
    ) by {
        match parse_list_model(rest_texts) {
            None => {},
            Some(v) => {
                assert(acc + (seq![r] + v) =~= acc.push(r) + v);
            },
        }
    }
}

/// Trimming is idempotent.
pub proof fn lemma_trim_idempotent(s: Seq<char>)
    ensures
        trim_spec(trim_spec(s)) == trim_spec(s),
{
    lemma_trim_chars(s);
    let t = trim_spec(s);
    if t.len() > 0 {
        crate::text::lemma_trim_edges(t);
    }
}

/// The trimmed string has non-whitespace characters at both edges.
proof fn lemma_trim_chars(s: Seq<char>)
    ensures
        trim_spec(s).len() > 0 ==> !is_space_char(trim_spec(s)[0]),
        trim_spec(s).len() > 0 ==> !is_space_char(trim_spec(s)[trim_spec(s).len() - 1]),
{
    crate::text::lemma_trim_spec_edges(s);
}

} // verus!
