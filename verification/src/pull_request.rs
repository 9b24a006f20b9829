//! The pull-request value, its canonical ordering (workspace, then
//! repository, then most recently updated first), the search predicate, and
//! a verified sort.
use crate::text::{
    dec_str, lemma_dec_str_digits, lemma_lex_lt_connected, lemma_lex_lt_transitive, lex_lt,
    lower_char, lower_seq, seq_contains_seq, str_compare, str_contains_ignore_case, u64_to_string,
};
use vstd::prelude::*;

verus! {

/// One review request, as returned by the remote service.
pub struct PullRequest {
    pub workspace: String,
    pub repo: String,
    pub id: u64,
    pub title: String,
    pub description: String,
    pub author: String,
    pub state: String,
    pub updated_on: String,
    pub url: String,
}

/// The mathematical value of a `PullRequest`.
#[verifier::ext_equal]
pub ghost struct PrV {
    pub workspace: Seq<char>,
    pub repo: Seq<char>,
    pub id: u64,
    pub title: Seq<char>,
    pub description: Seq<char>,
    pub author: Seq<char>,
    pub state: Seq<char>,
    pub updated_on: Seq<char>,
    pub url: Seq<char>,
}

impl View for PullRequest {
    type V = PrV;

    open spec fn view(&self) -> PrV {
        PrV {
            workspace: self.workspace@,
            repo: self.repo@,
            id: self.id,
            title: self.title@,
            description: self.description@,
            author: self.author@,
            state: self.state@,
            updated_on: self.updated_on@,
            url: self.url@,
        }
    }
}

impl DeepView for PullRequest {
    type V = PrV;

    open spec fn deep_view(&self) -> PrV {
        self@
    }
}

impl PullRequest {
    /// A copy with the same contents.
    pub fn duplicate(&self) -> (r: Self)
        ensures
            r@ == self@,
    {
        let r = Self {
            workspace: self.workspace.clone(),
            repo: self.repo.clone(),
            id: self.id,
            title: self.title.clone(),
            description: self.description.clone(),
            author: self.author.clone(),
            state: self.state.clone(),
            updated_on: self.updated_on.clone(),
            url: self.url.clone(),
        };
        proof {
            assert(r@ =~= self@);
        }
        r
    }
}

/// The canonical order: workspace ascending, then repository ascending, then
/// last-updated timestamp descending.
pub open spec fn pr_le(a: PrV, b: PrV) -> bool {
    ||| lex_lt(a.workspace, b.workspace)
    ||| (a.workspace == b.workspace && (lex_lt(a.repo, b.repo) || (a.repo == b.repo && (lex_lt(
        b.updated_on,
        a.updated_on,
    ) || a.updated_on == b.updated_on))))
}

/// The order relates every pair of pull requests, one way or the other.
pub proof fn lemma_pr_le_total(a: PrV, b: PrV)
    ensures
        pr_le(a, b) || pr_le(b, a),
{
    lemma_lex_lt_connected(a.workspace, b.workspace);
    lemma_lex_lt_connected(a.repo, b.repo);
    lemma_lex_lt_connected(a.updated_on, b.updated_on);
}

/// The order is transitive.
pub proof fn lemma_pr_le_transitive(a: PrV, b: PrV, c: PrV)
    requires
        pr_le(a, b),
        pr_le(b, c),
    ensures
        pr_le(a, c),
{
    lemma_lex_lt_connected(a.workspace, b.workspace);
    lemma_lex_lt_connected(b.workspace, c.workspace);
    lemma_lex_lt_connected(a.repo, b.repo);
    lemma_lex_lt_connected(b.repo, c.repo);
    if lex_lt(a.workspace, b.workspace) && lex_lt(b.workspace, c.workspace) {
        lemma_lex_lt_transitive(a.workspace, b.workspace, c.workspace);
    }
    if a.workspace == b.workspace && b.workspace == c.workspace {
        if lex_lt(a.repo, b.repo) && lex_lt(b.repo, c.repo) {
            lemma_lex_lt_transitive(a.repo, b.repo, c.repo);
        }
        if a.repo == b.repo && b.repo == c.repo {
            if lex_lt(b.updated_on, a.updated_on) && lex_lt(c.updated_on, b.updated_on) {
                lemma_lex_lt_transitive(c.updated_on, b.updated_on, a.updated_on);
            }
        }
    }
}

/// Decides the canonical order between two pull requests.
pub fn pr_le_exec(a: &PullRequest, b: &PullRequest) -> (r: bool)
    ensures
        r == pr_le(a@, b@),
{
    proof {
        lemma_lex_lt_connected(a@.workspace, b@.workspace);
        lemma_lex_lt_connected(a@.repo, b@.repo);
        lemma_lex_lt_connected(b@.updated_on, a@.updated_on);
    }
    let ws = str_compare(a.workspace.as_str(), b.workspace.as_str());
    if ws != 0 {
        return ws == -1;
    }
    let rp = str_compare(a.repo.as_str(), b.repo.as_str());
    if rp != 0 {
        return rp == -1;
    }
    let up = str_compare(b.updated_on.as_str(), a.updated_on.as_str());
    up != 1
}

/// A sequence ordered by the canonical pull-request order.
pub open spec fn prs_sorted(s: Seq<PrV>) -> bool {
    forall|i: int, j: int| 0 <= i < j < s.len() ==> pr_le(#[trigger] s[i], #[trigger] s[j])
}

/// Sorts pull requests into the canonical order. The result holds exactly
/// the same pull requests.
#[verifier::loop_isolation(false)]
pub fn sort_pull_requests(v: &mut Vec<PullRequest>)
    ensures
        prs_sorted(final(v).deep_view()),
        final(v).deep_view().to_multiset() == old(v).deep_view().to_multiset(),
        final(v)@.len() == old(v)@.len(),
{
    broadcast use vstd::seq_lib::group_to_multiset_ensures;

    let ghost dv0 = v.deep_view();
    if v.len() <= 1 {
        proof {
            assert(v.deep_view() =~= dv0);
        }
        return ;
    }
    let mut i: usize = 1;
    while i < v.len()
        invariant
            1 <= i <= v.len(),
            prs_sorted(v.deep_view().take(i as int)),
            v.deep_view().to_multiset() == dv0.to_multiset(),
            v@.len() == dv0.len(),
        decreases v.len() - i,
    {
        let ghost dv = v.deep_view();
        let mut j: usize = 0;
        while j < i && pr_le_exec(&v[j], &v[i])
            invariant
                0 <= j <= i < v.len(),
                dv == v.deep_view(),
                dv.len() == v@.len(),
                forall|k: int| 0 <= k < j ==> pr_le(#[trigger] dv[k], dv[i as int]),
            decreases i - j,
        {
            proof {
                assert(dv[j as int] == v@[j as int].deep_view());
            }
            j += 1;
        }
        proof {
            assert(dv[i as int] == v@[i as int].deep_view());
            if j < i {
                assert(dv[j as int] == v@[j as int].deep_view());
                assert(!pr_le(dv[j as int], dv[i as int]));
                lemma_pr_le_total(dv[j as int], dv[i as int]);
                assert(pr_le(dv[i as int], dv[j as int]));
            }
        }
        let x = v.remove(i);
        v.insert(j, x);
        proof {
            let ghost xv = dv[i as int];
            let removed = dv.remove(i as int);
            let inserted = removed.insert(j as int, xv);
            assert(v.deep_view() =~= inserted);
            crate::seqs::lemma_insert_to_multiset(removed, j as int, xv);
            assert(removed.to_multiset() =~= dv.to_multiset().remove(xv));
            assert(dv.contains(xv));
            assert(dv.to_multiset().count(xv) > 0);
            assert(inserted.to_multiset() =~= dv.to_multiset()) by {
                assert(inserted.to_multiset() =~= dv.to_multiset().remove(xv).insert(xv));
                assert forall|y: PrV|
                    dv.to_multiset().remove(xv).insert(xv).count(y) == dv.to_multiset().count(
                    y) by {
                    if y == xv {
                        assert(dv.to_multiset().count(xv) >= 1);
                    }
                }
            }
            assert(prs_sorted(inserted.take(i + 1))) by {
                let t = inserted.take(i + 1);
                assert forall|a: int, b: int| 0 <= a < b < t.len() implies pr_le(
                    #[trigger] t[a],
                    #[trigger] t[b],
                ) by {
                    assert(forall|k: int|
                        0 <= k < j ==> #[trigger] inserted[k] == dv[k]);
                    assert(inserted[j as int] == xv);
                    assert(forall|k: int|
                        j < k <= i ==> #[trigger] inserted[k] == dv[k - 1]);
                    if a < j && b < j {
                        assert(dv.take(i as int)[a] == dv[a]);
                        assert(dv.take(i as int)[b] == dv[b]);
                        assert(pr_le(dv.take(i as int)[a], dv.take(i as int)[b]));
                    } else if a < j && b == j {
                        assert(pr_le(dv[a], xv));
                    } else if a < j && b > j {
                        assert(dv.take(i as int)[a] == dv[a]);
                        assert(dv.take(i as int)[b - 1] == dv[b - 1]);
                        assert(pr_le(dv.take(i as int)[a], dv.take(i as int)[b - 1]));
                    } else if a == j && b > j {
                        assert(pr_le(xv, dv[j as int]));
                        if b - 1 > j {
                            assert(dv.take(i as int)[j as int] == dv[j as int]);
                            assert(dv.take(i as int)[b - 1] == dv[b - 1]);
                            assert(pr_le(dv.take(i as int)[j as int], dv.take(i as int)[b - 1]));
                            lemma_pr_le_transitive(xv, dv[j as int], dv[b - 1]);
                        }
                    } else {
                        assert(a > j && b > j);
                        assert(dv.take(i as int)[a - 1] == dv[a - 1]);
                        assert(dv.take(i as int)[b - 1] == dv[b - 1]);
                        assert(pr_le(dv.take(i as int)[a - 1], dv.take(i as int)[b - 1]));
                    }
                }
            }
        }
        i += 1;
    }
    proof {
        assert(v.deep_view().take(v@.len() as int) =~= v.deep_view());
    }
}

/// Whether a pull request matches a search query: the query occurs in the
/// decimal form of the identifier, or, after case folding, in the title and
/// description joined by one space.
pub open spec fn pr_matches(p: PrV, q: Seq<char>) -> bool {
    ||| seq_contains_seq(dec_str(p.id as nat), q)
    ||| seq_contains_seq(lower_seq(p.title + " "@ + p.description), q)
}

/// Digits are unchanged by case folding.
pub proof fn lemma_lower_digits(n: nat)
    ensures
        lower_seq(dec_str(n)) == dec_str(n),
{
    lemma_dec_str_digits(n);
    assert forall|k: int| 0 <= k < dec_str(n).len() implies lower_seq(dec_str(n))[k] == dec_str(
        n,
    )[k] by {
        assert(lower_seq(dec_str(n))[k] == lower_char(dec_str(n)[k]));
    }
    assert(lower_seq(dec_str(n)) =~= dec_str(n));
}

/// Decides the search predicate for one pull request against a query that
/// the caller has already trimmed; matching folds case on both sides.
pub fn pr_matches_exec(p: &PullRequest, q: &str) -> (r: bool)
    ensures
        r == pr_matches(p@, lower_seq(q@)),
{
    proof {
        reveal_strlit(" ");
    }
    let id_text = u64_to_string(p.id);
    if str_contains_ignore_case(id_text.as_str(), q) {
        proof {
            lemma_lower_digits(p.id as nat);
        }
        return true;
    }
    let mut hay = p.title.clone();
    hay.append(" ");
    hay.append(p.description.as_str());
    let r = str_contains_ignore_case(hay.as_str(), q);
    proof {
        lemma_lower_digits(p.id as nat);
        assert(hay@ =~= p@.title + " "@ + p@.description);
    }
    r
}

} // verus!
