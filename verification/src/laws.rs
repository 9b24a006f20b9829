//! The library's standing laws, proved once over the models that the
//! executable functions' contracts use.
use crate::app::{active_query, filtered_model, matching_prs};
use crate::config::{add_repo_model, repos_contain, without_repo, ConfigV, RepoRefV};
use crate::pull_request::{pr_le, pr_matches, prs_sorted, PrV};
use crate::text::{
    contains_at, dec_str, is_space_char, lemma_dec_str_digits, lemma_lex_lt_connected,
    lemma_trim_noop, lex_lt, lower_seq, seq_contains_seq, trim_spec,
};
use vstd::prelude::*;

verus! {

/// In a sorted collection, the rows of one repository stand together, and
/// the very first row belongs to the least repository present: whatever
/// stands between two rows of a repository belongs to it too, and every row
/// follows the first in the canonical order.
pub proof fn lemma_sorted_repo_groups(s: Seq<PrV>)
    requires
        prs_sorted(s),
    ensures
        forall|i: int, j: int, k: int|
            0 <= i <= j <= k < s.len() && #[trigger] s[i].workspace == #[trigger] s[k].workspace
                && s[i].repo == s[k].repo ==> #[trigger] s[j].workspace == s[i].workspace
                && s[j].repo == s[i].repo,
        forall|i: int| 0 <= i < s.len() ==> pr_le(s[0], #[trigger] s[i]),
{
    assert forall|i: int, j: int, k: int|
        0 <= i <= j <= k < s.len() && #[trigger] s[i].workspace == #[trigger] s[k].workspace
        && s[i].repo == s[k].repo implies #[trigger] s[j].workspace == s[i].workspace
        && s[j].repo == s[i].repo by {
        if i < j && j < k {
            assert(pr_le(s[i], s[j]));
            assert(pr_le(s[j], s[k]));
            lemma_lex_lt_connected(s[i].workspace, s[j].workspace);
            lemma_lex_lt_connected(s[j].workspace, s[k].workspace);
            assert(s[j].workspace == s[i].workspace);
            lemma_lex_lt_connected(s[i].repo, s[j].repo);
            lemma_lex_lt_connected(s[j].repo, s[k].repo);
        }
    }
}

/// Within one repository's rows of a sorted collection, later rows were
/// updated no later than earlier ones: most recently updated first.
pub proof fn lemma_group_recency(s: Seq<PrV>, i: int, j: int)
    requires
        prs_sorted(s),
        0 <= i < j < s.len(),
        s[i].workspace == s[j].workspace,
        s[i].repo == s[j].repo,
    ensures
        lex_lt(s[j].updated_on, s[i].updated_on) || s[j].updated_on == s[i].updated_on,
{
    assert(pr_le(s[i], s[j]));
    lemma_lex_lt_connected(s[i].workspace, s[j].workspace);
    lemma_lex_lt_connected(s[i].repo, s[j].repo);
}

/// A pull request that satisfies the search predicate stays in the
/// filtered sequence.
proof fn lemma_matching_contains(s: Seq<PrV>, q: Seq<char>, i: int)
    requires
        0 <= i < s.len(),
        pr_matches(s[i], q),
    ensures
        matching_prs(s, q).contains(s[i]),
    decreases i,
{
    if i == 0 {
        assert(matching_prs(s, q)[0] == s[0]);
    } else {
        assert(s.drop_first()[i - 1] == s[i]);
        lemma_matching_contains(s.drop_first(), q, i - 1);
        let m = choose|k: int|
            0 <= k < matching_prs(s.drop_first(), q).len() && matching_prs(s.drop_first(), q)[k]
                == s[i];
        if pr_matches(s[0], q) {
            assert(matching_prs(s, q)[m + 1] == s[i]);
        }
    }
}

/// Searching for a pull request's numeric identifier keeps that pull
/// request in the filtered view, whatever else the query drops.
pub proof fn lemma_search_by_id(all: Seq<PrV>, i: int, q: Seq<char>)
    requires
        0 <= i < all.len(),
        q == dec_str(all[i].id as nat),
    ensures
        filtered_model(all, Some(q)).contains(all[i]),
{
    let n = all[i].id as nat;
    lemma_dec_str_digits(n);
    assert forall|k: int| 0 <= k < q.len() implies !is_space_char(#[trigger] q[k]) by {
        assert('0' <= q[k] && q[k] <= '9');
    }
    lemma_trim_noop(q);
    crate::pull_request::lemma_lower_digits(n);
    assert(active_query(Some(q)) == Some(q));
    assert(contains_at(dec_str(n), q, 0));
    assert(seq_contains_seq(dec_str(n), q));
    assert(pr_matches(all[i], q));
    lemma_matching_contains(all, q, i);
}

/// Adding a repository that was not tracked and then removing it restores
/// the tracked list exactly.
pub proof fn lemma_add_then_remove(c: ConfigV, r: RepoRefV)
    requires
        !repos_contain(c.repos, r),
    ensures
        without_repo(add_repo_model(c, r).0.repos, r) == c.repos,
{
    lemma_without_push(c.repos, r);
}

proof fn lemma_without_push(rs: Seq<RepoRefV>, r: RepoRefV)
    requires
        !repos_contain(rs, r),
    ensures
        without_repo(rs.push(r), r) == rs,
    decreases rs.len(),
{
    let p = rs.push(r);
    if rs.len() == 0 {
        assert(p[0] == r);
        assert(p.drop_first() =~= Seq::<RepoRefV>::empty());
        assert(without_repo(p, r) == without_repo(p.drop_first(), r));
        assert(without_repo(Seq::<RepoRefV>::empty(), r) == Seq::<RepoRefV>::empty());
        assert(without_repo(p, r) =~= rs);
    } else {
        assert(p[0] == rs[0]);
        assert(rs[0] != r) by {
            assert(!(exists|i: int| 0 <= i < rs.len() && rs[i] == r));
        }
        assert(p.drop_first() =~= rs.drop_first().push(r));
        assert(!repos_contain(rs.drop_first(), r)) by {
            if repos_contain(rs.drop_first(), r) {
                let k = choose|k: int|
                    0 <= k < rs.drop_first().len() && rs.drop_first()[k] == r;
                assert(rs[k + 1] == r);
            }
        }
        lemma_without_push(rs.drop_first(), r);
        assert(without_repo(p, r) =~= rs);
    }
}

/// A blank search query, after trimming, filters nothing out.
pub proof fn lemma_blank_query_shows_all(all: Seq<PrV>, q: Seq<char>)
    requires
        trim_spec(q).len() == 0,
    ensures
        filtered_model(all, Some(q)) == all,
{
    assert(lower_seq(trim_spec(q)).len() == 0);
}

} // verus!
