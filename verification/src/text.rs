//! Character and string helpers shared by the command interpreter and the
//! pull-request search/sort logic: ASCII case folding, whitespace trimming,
//! tokenization, lexicographic ordering, substring search, and decimal
//! rendering of numeric identifiers.
use vstd::prelude::*;

verus! {

/// The whitespace characters recognized when trimming and splitting input.
pub open spec fn is_space_char(c: char) -> bool {
    c == ' ' || c == '\t' || c == '\n' || c == '\r'
}

/// Executable mirror of `is_space_char`.
pub fn is_space(c: char) -> (r: bool)
    ensures
        r == is_space_char(c),
{
    c == ' ' || c == '\t' || c == '\n' || c == '\r'
}

/// ASCII lower-casing of a single character; other characters are unchanged.
pub open spec fn lower_char(c: char) -> char {
    if 'A' <= c && c <= 'Z' {
        ((c as u32) + 32) as char
    } else {
        c
    }
}

/// The sequence with `lower_char` applied to every character.
pub open spec fn lower_seq(s: Seq<char>) -> Seq<char> {
    s.map_values(|c: char| lower_char(c))
}

/// Executable mirror of `lower_char`.
pub fn to_lower(c: char) -> (r: char)
    ensures
        r == lower_char(c),
{
    if 'A' <= c && c <= 'Z' {
        (((c as u32) + 32) as u8) as char
    } else {
        c
    }
}

/// Character-for-character equality of two strings.
pub fn str_eq(a: &str, b: &str) -> (r: bool)
    ensures
        r == (a@ == b@),
{
    let n = a.unicode_len();
    let m = b.unicode_len();
    if n != m {
        return false;
    }
    let mut i: usize = 0;
    while i < n
        invariant
            i <= n,
            n == a@.len(),
            n == b@.len(),
            forall|k: int| 0 <= k < i ==> a@[k] == b@[k],
        decreases n - i,
    {
        if a.get_char(i) != b.get_char(i) {
            return false;
        }
        i += 1;
    }
    proof {
        assert(a@ =~= b@);
    }
    true
}

/// Whether `p` is a prefix of `s`, compared character for character.
pub fn str_starts_with(s: &str, p: &str) -> (r: bool)
    ensures
        r == p@.is_prefix_of(s@),
{
    let n = s.unicode_len();
    let m = p.unicode_len();
    if m > n {
        return false;
    }
    let mut i: usize = 0;
    while i < m
        invariant
            i <= m,
            m <= n,
            n == s@.len(),
            m == p@.len(),
            forall|k: int| 0 <= k < i ==> s@[k] == p@[k],
        decreases m - i,
    {
        if s.get_char(i) != p.get_char(i) {
            proof {
                assert(s@.subrange(0, p@.len() as int)[i as int] == s@[i as int]);
            }
            return false;
        }
        i += 1;
    }
    proof {
        assert(p@ =~= s@.subrange(0, p@.len() as int));
    }
    true
}

/// Case-insensitive equality: the two strings agree after ASCII lower-casing.
pub fn str_eq_ignore_case(a: &str, b: &str) -> (r: bool)
    ensures
        r == (lower_seq(a@) == lower_seq(b@)),
{
    let n = a.unicode_len();
    let m = b.unicode_len();
    if n != m {
        proof {
            assert(lower_seq(a@).len() == a@.len());
            assert(lower_seq(b@).len() == b@.len());
        }
        return false;
    }
    let mut i: usize = 0;
    while i < n
        invariant
            i <= n,
            n == a@.len(),
            n == b@.len(),
            forall|k: int| 0 <= k < i ==> lower_char(a@[k]) == lower_char(b@[k]),
        decreases n - i,
    {
        if to_lower(a.get_char(i)) != to_lower(b.get_char(i)) {
            proof {
                assert(lower_seq(a@)[i as int] == lower_char(a@[i as int]));
                assert(lower_seq(b@)[i as int] == lower_char(b@[i as int]));
            }
            return false;
        }
        i += 1;
    }
    proof {
        assert(lower_seq(a@) =~= lower_seq(b@));
    }
    true
}

/// `needle` occurs in `hay` starting at position `i`.
pub open spec fn contains_at(hay: Seq<char>, needle: Seq<char>, i: int) -> bool {
    &&& 0 <= i
    &&& i + needle.len() <= hay.len()
    &&& forall|k: int| 0 <= k < needle.len() ==> hay[i + k] == needle[k]
}

/// `needle` occurs somewhere in `hay` as a contiguous run.
pub open spec fn seq_contains_seq(hay: Seq<char>, needle: Seq<char>) -> bool {
    exists|i: int| contains_at(hay, needle, i)
}

/// Substring search, insensitive to ASCII case on both sides.
pub fn str_contains_ignore_case(hay: &str, needle: &str) -> (r: bool)
    ensures
        r == seq_contains_seq(lower_seq(hay@), lower_seq(needle@)),
{
    let h = hay.unicode_len();
    let n = needle.unicode_len();
    proof {
        assert(lower_seq(hay@).len() == hay@.len());
        assert(lower_seq(needle@).len() == needle@.len());
    }
    if n > h {
        return false;
    }
    let mut i: usize = 0;
    while i <= h - n
        invariant
            n <= h,
            h == hay@.len(),
            n == needle@.len(),
            i <= h - n + 1,
            forall|m: int| 0 <= m < i ==> !contains_at(lower_seq(hay@), lower_seq(needle@), m),
        decreases h - i,
    {
        let mut j: usize = 0;
        while j < n && to_lower(hay.get_char(i + j)) == to_lower(needle.get_char(j))
            invariant
                i + n <= h,
                h == hay@.len(),
                n == needle@.len(),
                j <= n,
                forall|k: int| 0 <= k < j ==> lower_seq(hay@)[i + k] == lower_seq(needle@)[k],
            decreases n - j,
        {
            proof {
                assert(lower_seq(hay@)[i + j] == lower_char(hay@[i + j]));
                assert(lower_seq(needle@)[j as int] == lower_char(needle@[j as int]));
            }
            j += 1;
        }
        if j == n {
            proof {
                assert(contains_at(lower_seq(hay@), lower_seq(needle@), i as int));
            }
            return true;
        }
        proof {
            assert(lower_seq(hay@)[i + j] == lower_char(hay@[i + j]));
            assert(lower_seq(needle@)[j as int] == lower_char(needle@[j as int]));
            assert(!contains_at(lower_seq(hay@), lower_seq(needle@), i as int));
        }
        i += 1;
    }
    proof {
        assert forall|m: int| !contains_at(lower_seq(hay@), lower_seq(needle@), m) by {
            if contains_at(lower_seq(hay@), lower_seq(needle@), m) {
                assert(0 <= m && m + n <= h);
                assert(m < i);
            }
        }
    }
    false
}

/// Leading whitespace removed.
pub open spec fn trim_start_spec(s: Seq<char>) -> Seq<char>
    decreases s.len(),
{
    if s.len() > 0 && is_space_char(s[0]) {
        trim_start_spec(s.drop_first())
    } else {
        s
    }
}

/// Trailing whitespace removed.
pub open spec fn trim_end_spec(s: Seq<char>) -> Seq<char>
    decreases s.len(),
{
    if s.len() > 0 && is_space_char(s[s.len() - 1]) {
        trim_end_spec(s.drop_last())
    } else {
        s
    }
}

/// Both leading and trailing whitespace removed.
pub open spec fn trim_spec(s: Seq<char>) -> Seq<char> {
    trim_end_spec(trim_start_spec(s))
}

/// If the first `i` characters are whitespace, trimming from the start skips
/// at least those characters.
proof fn lemma_trim_start_skip(s: Seq<char>, i: int)
    requires
        0 <= i <= s.len(),
        forall|j: int| 0 <= j < i ==> is_space_char(s[j]),
    ensures
        trim_start_spec(s) == trim_start_spec(s.subrange(i, s.len() as int)),
    decreases i,
{
    if i > 0 {
        assert(s.drop_first() =~= s.subrange(1, s.len() as int));
        lemma_trim_start_skip(s.drop_first(), i - 1);
        assert(s.drop_first().subrange(i - 1, s.drop_first().len() as int) =~= s.subrange(
            i,
            s.len() as int,
        ));
    } else {
        assert(s.subrange(0, s.len() as int) =~= s);
    }
}

/// If character `i` exists and is not whitespace, trimming from the start
/// keeps everything from `i` on.
proof fn lemma_trim_start_stop(s: Seq<char>, i: int)
    requires
        0 <= i < s.len(),
        forall|j: int| 0 <= j < i ==> is_space_char(s[j]),
        !is_space_char(s[i]),
    ensures
        trim_start_spec(s) == s.subrange(i, s.len() as int),
    decreases i,
{
    lemma_trim_start_skip(s, i);
    let t = s.subrange(i, s.len() as int);
    assert(t.len() > 0 && !is_space_char(t[0]));
}

/// If the characters from `e` on are whitespace, trimming from the end skips
/// at least those characters.
proof fn lemma_trim_end_skip(s: Seq<char>, e: int)
    requires
        0 <= e <= s.len(),
        forall|j: int| e <= j < s.len() ==> is_space_char(s[j]),
    ensures
        trim_end_spec(s) == trim_end_spec(s.subrange(0, e)),
    decreases s.len() - e,
{
    if e < s.len() {
        assert(s.drop_last() =~= s.subrange(0, s.len() - 1));
        lemma_trim_end_skip(s.drop_last(), e);
        assert(s.drop_last().subrange(0, e) =~= s.subrange(0, e));
    } else {
        assert(s.subrange(0, s.len() as int) =~= s);
    }
}

/// If character `e - 1` exists and is not whitespace, trimming from the end
/// keeps everything up to `e`.
proof fn lemma_trim_end_stop(s: Seq<char>, e: int)
    requires
        0 < e <= s.len(),
        forall|j: int| e <= j < s.len() ==> is_space_char(s[j]),
        !is_space_char(s[e - 1]),
    ensures
        trim_end_spec(s) == s.subrange(0, e),
{
    lemma_trim_end_skip(s, e);
    let t = s.subrange(0, e);
    assert(t.len() > 0 && !is_space_char(t[t.len() - 1]));
}

/// Trimming a string with no whitespace on either edge changes nothing.
pub proof fn lemma_trim_noop(s: Seq<char>)
    requires
        forall|j: int| 0 <= j < s.len() ==> !is_space_char(s[j]),
    ensures
        trim_spec(s) == s,
{
    if s.len() > 0 {
        lemma_trim_start_stop(s, 0);
        assert(s.subrange(0, s.len() as int) =~= s);
        lemma_trim_end_stop(s, s.len() as int);
    }
}

/// Leading whitespace removed; the result borrows from the input.
pub fn trim_start(s: &str) -> (r: &str)
    ensures
        r@ == trim_start_spec(s@),
{
    let n = s.unicode_len();
    let mut i: usize = 0;
    while i < n && is_space(s.get_char(i))
        invariant
            i <= n,
            n == s@.len(),
            forall|j: int| 0 <= j < i ==> is_space_char(s@[j]),
        decreases n - i,
    {
        i += 1;
    }
    proof {
        if i < n {
            lemma_trim_start_stop(s@, i as int);
        } else {
            lemma_trim_start_skip(s@, n as int);
        }
    }
    s.substring_char(i, n)
}

/// Whitespace removed from both ends; the result borrows from the input.
pub fn trim(s: &str) -> (r: &str)
    ensures
        r@ == trim_spec(s@),
{
    let t = trim_start(s);
    let m = t.unicode_len();
    let mut e: usize = m;
    while e > 0 && is_space(t.get_char(e - 1))
        invariant
            e <= m,
            m == t@.len(),
            forall|j: int| e <= j < m ==> is_space_char(t@[j]),
        decreases e,
    {
        e -= 1;
    }
    proof {
        if e > 0 {
            lemma_trim_end_stop(t@, e as int);
        } else {
            lemma_trim_end_skip(t@, 0);
            assert(t@.subrange(0, 0) =~= Seq::<char>::empty());
            assert(trim_end_spec(Seq::<char>::empty()) =~= Seq::<char>::empty());
        }
    }
    t.substring_char(0, e)
}

/// The maximal run of non-whitespace characters at the head of `s`.
pub open spec fn take_word(s: Seq<char>) -> Seq<char>
    decreases s.len(),
{
    if s.len() > 0 && !is_space_char(s[0]) {
        seq![s[0]] + take_word(s.drop_first())
    } else {
        Seq::empty()
    }
}

/// What remains of `s` after its leading non-whitespace run.
pub open spec fn drop_word(s: Seq<char>) -> Seq<char>
    decreases s.len(),
{
    if s.len() > 0 && !is_space_char(s[0]) {
        drop_word(s.drop_first())
    } else {
        s
    }
}

proof fn lemma_drop_word_len(s: Seq<char>)
    ensures
        drop_word(s).len() <= s.len(),
        s.len() > 0 && !is_space_char(s[0]) ==> drop_word(s).len() < s.len(),
    decreases s.len(),
{
    if s.len() > 0 && !is_space_char(s[0]) {
        lemma_drop_word_len(s.drop_first());
    }
}

/// The whitespace-separated words of `s`, in order.
pub open spec fn tokens_spec(s: Seq<char>) -> Seq<Seq<char>>
    decreases s.len(),
    via tokens_spec_decreases
{
    if s.len() == 0 {
        Seq::empty()
    } else if is_space_char(s[0]) {
        tokens_spec(s.drop_first())
    } else {
        seq![take_word(s)] + tokens_spec(drop_word(s))
    }
}

#[via_fn]
proof fn tokens_spec_decreases(s: Seq<char>) {
    lemma_drop_word_len(s);
}

/// Over a range of non-whitespace characters ended by a boundary, the leading
/// word of the suffix starting at `i` is exactly the characters up to `j`.
proof fn lemma_word_range(s: Seq<char>, i: int, j: int)
    requires
        0 <= i <= j <= s.len(),
        forall|m: int| i <= m < j ==> !is_space_char(s[m]),
        j == s.len() || is_space_char(s[j]),
    ensures
        take_word(s.subrange(i, s.len() as int)) == s.subrange(i, j),
        drop_word(s.subrange(i, s.len() as int)) == s.subrange(j, s.len() as int),
    decreases j - i,
{
    let t = s.subrange(i, s.len() as int);
    if i == j {
        if t.len() > 0 {
            assert(t[0] == s[i]);
        }
        assert(take_word(t) =~= s.subrange(i, j));
        assert(drop_word(t) =~= s.subrange(j, s.len() as int));
    } else {
        assert(t.len() > 0 && !is_space_char(t[0]));
        lemma_word_range(s, i + 1, j);
        assert(t.drop_first() =~= s.subrange(i + 1, s.len() as int));
        assert(take_word(t) =~= seq![s[i]] + s.subrange(i + 1, j));
        assert(take_word(t) =~= s.subrange(i, j));
    }
}

/// Dropping one leading whitespace character leaves the token list unchanged.
proof fn lemma_tokens_skip_space(s: Seq<char>, i: int)
    requires
        0 <= i < s.len(),
        is_space_char(s[i]),
    ensures
        tokens_spec(s.subrange(i, s.len() as int)) == tokens_spec(
            s.subrange(i + 1, s.len() as int),
        ),
{
    let t = s.subrange(i, s.len() as int);
    assert(t.len() > 0 && is_space_char(t[0]));
    assert(t.drop_first() =~= s.subrange(i + 1, s.len() as int));
}

/// Splits a string into its whitespace-separated words.
pub fn split_tokens(s: &str) -> (r: Vec<String>)
    ensures
        r@.map_values(|t: String| t@) == tokens_spec(s@),
{
    let n = s.unicode_len();
    let mut r: Vec<String> = Vec::new();
    let mut i: usize = 0;
    proof {
        assert(s@.subrange(0, n as int) =~= s@);
    }
    while i < n
        invariant
            i <= n,
            n == s@.len(),
            tokens_spec(s@) == r@.map_values(|t: String| t@) + tokens_spec(
                s@.subrange(i as int, n as int),
            ),
        decreases n - i,
    {
        let c = s.get_char(i);
        if is_space(c) {
            proof {
                lemma_tokens_skip_space(s@, i as int);
            }
            i += 1;
        } else {
            let start = i;
            let mut j = i;
            while j < n && !is_space(s.get_char(j))
                invariant
                    start <= j <= n,
                    n == s@.len(),
                    forall|m: int| start <= m < j ==> !is_space_char(s@[m]),
                decreases n - j,
            {
                j += 1;
            }
            let word = s.substring_char(start, j);
            proof {
                lemma_word_range(s@, start as int, j as int);
            }
            r.push(word.to_owned());
            proof {
                assert(r@.map_values(|t: String| t@) =~= r@.drop_last().map_values(
                    |t: String| t@,
                ).push(s@.subrange(start as int, j as int)));
                assert(tokens_spec(s@) =~= r@.map_values(|t: String| t@) + tokens_spec(
                    s@.subrange(j as int, n as int),
                ));
            }
            i = j;
        }
    }
    proof {
        assert(s@.subrange(n as int, n as int) =~= Seq::<char>::empty());
        assert(tokens_spec(Seq::<char>::empty()) =~= Seq::<Seq<char>>::empty());
        assert(r@.map_values(|t: String| t@) =~= tokens_spec(s@));
    }
    r
}

/// No token of any string is empty or holds whitespace.
pub proof fn lemma_tokens_words(s: Seq<char>)
    ensures
        forall|i: int|
            0 <= i < tokens_spec(s).len() ==> (#[trigger] tokens_spec(s)[i]).len() > 0,
        forall|i: int, k: int|
            0 <= i < tokens_spec(s).len() && 0 <= k < tokens_spec(s)[i].len()
                ==> !is_space_char(#[trigger] tokens_spec(s)[i][k]),
    decreases s.len(),
{
    if s.len() == 0 {
    } else if is_space_char(s[0]) {
        lemma_tokens_words(s.drop_first());
        assert(tokens_spec(s) == tokens_spec(s.drop_first()));
    } else {
        lemma_drop_word_len(s);
        lemma_tokens_words(drop_word(s));
        lemma_take_word_chars(s);
        let ts = tokens_spec(s);
        assert(ts == seq![take_word(s)] + tokens_spec(drop_word(s)));
        assert(ts[0] == take_word(s));
        assert forall|i: int| 0 <= i < ts.len() implies (#[trigger] ts[i]).len() > 0 by {
            if i > 0 {
                assert(ts[i] == tokens_spec(drop_word(s))[i - 1]);
            }
        }
        assert forall|i: int, k: int|
            0 <= i < ts.len() && 0 <= k < ts[i].len() implies !is_space_char(
            #[trigger] ts[i][k]) by {
            if i > 0 {
                assert(ts[i] == tokens_spec(drop_word(s))[i - 1]);
            }
        }
    }
}

/// The leading word is non-empty (when the head is not whitespace) and has
/// no whitespace characters.
proof fn lemma_take_word_chars(s: Seq<char>)
    ensures
        s.len() > 0 && !is_space_char(s[0]) ==> take_word(s).len() > 0,
        forall|k: int| 0 <= k < take_word(s).len() ==> !is_space_char(#[trigger] take_word(s)[k]),
    decreases s.len(),
{
    if s.len() > 0 && !is_space_char(s[0]) {
        lemma_take_word_chars(s.drop_first());
        assert forall|k: int| 0 <= k < take_word(s).len() implies !is_space_char(
            #[trigger] take_word(s)[k]) by {
            if k == 0 {
                assert(take_word(s)[0] == s[0]);
            } else {
                assert(take_word(s)[k] == take_word(s.drop_first())[k - 1]);
            }
        }
    }
}

/// After trimming from the start, a non-empty result begins with a
/// non-whitespace character.
proof fn lemma_trim_start_head(s: Seq<char>)
    ensures
        trim_start_spec(s).len() > 0 ==> !is_space_char(trim_start_spec(s)[0]),
        trim_start_spec(s).len() <= s.len(),
    decreases s.len(),
{
    if s.len() > 0 && is_space_char(s[0]) {
        lemma_trim_start_head(s.drop_first());
    }
}

/// Trimming from the end keeps a prefix whose last character, if any, is not
/// whitespace.
proof fn lemma_trim_end_props(t: Seq<char>)
    ensures
        trim_end_spec(t).len() <= t.len(),
        trim_end_spec(t) == t.subrange(0, trim_end_spec(t).len() as int),
        trim_end_spec(t).len() > 0 ==> !is_space_char(trim_end_spec(t)[trim_end_spec(t).len() - 1]),
    decreases t.len(),
{
    if t.len() > 0 && is_space_char(t[t.len() - 1]) {
        lemma_trim_end_props(t.drop_last());
        assert(t.drop_last() =~= t.subrange(0, t.len() - 1));
        assert(t.drop_last().subrange(0, trim_end_spec(t).len() as int) =~= t.subrange(
            0,
            trim_end_spec(t).len() as int,
        ));
    } else {
        assert(t =~= t.subrange(0, t.len() as int));
    }
}

/// A fully trimmed string has non-whitespace characters at both edges.
pub proof fn lemma_trim_spec_edges(s: Seq<char>)
    ensures
        trim_spec(s).len() > 0 ==> !is_space_char(trim_spec(s)[0]),
        trim_spec(s).len() > 0 ==> !is_space_char(trim_spec(s)[trim_spec(s).len() - 1]),
{
    let u = trim_start_spec(s);
    lemma_trim_start_head(s);
    lemma_trim_end_props(u);
    let v = trim_spec(s);
    if v.len() > 0 {
        assert(v[0] == u.subrange(0, v.len() as int)[0]);
        assert(v[0] == u[0]);
    }
}

/// Trimming a string whose edges are not whitespace changes nothing.
pub proof fn lemma_trim_edges(t: Seq<char>)
    requires
        t.len() > 0,
        !is_space_char(t[0]),
        !is_space_char(t[t.len() - 1]),
    ensures
        trim_spec(t) == t,
{
}

/// The position of the first occurrence of `c` in `s` at or after `i`, or
/// the length of `s` if there is none.
pub open spec fn find_from(s: Seq<char>, c: char, i: int) -> int
    decreases s.len() - i,
{
    if i < 0 || i >= s.len() {
        s.len() as int
    } else if s[i] == c {
        i
    } else {
        find_from(s, c, i + 1)
    }
}

/// Where `find_from` lands: within bounds, on an occurrence if there is one,
/// with no occurrence before it.
pub proof fn lemma_find_from(s: Seq<char>, c: char, i: int)
    requires
        0 <= i <= s.len(),
    ensures
        i <= find_from(s, c, i) <= s.len(),
        forall|j: int| i <= j < find_from(s, c, i) ==> s[j] != c,
        find_from(s, c, i) < s.len() ==> s[find_from(s, c, i)] == c,
    decreases s.len() - i,
{
    if i < s.len() && s[i] != c {
        lemma_find_from(s, c, i + 1);
    }
}

/// The position of the first occurrence of `c` in `s`, or the length of `s`.
pub fn find_char(s: &str, c: char) -> (r: usize)
    ensures
        r as int == find_from(s@, c, 0),
{
    let n = s.unicode_len();
    let mut i: usize = 0;
    while i < n
        invariant
            i <= n,
            n == s@.len(),
            find_from(s@, c, 0) == find_from(s@, c, i as int),
        decreases n - i,
    {
        if s.get_char(i) == c {
            return i;
        }
        i += 1;
    }
    i
}

/// Relies on String::push: appends exactly the one character.
#[verifier::external_body]
pub(crate) fn push_char(s: &mut String, c: char)
    ensures
        final(s)@ == old(s)@.push(c),
{
    s.push(c);
}

/// Strict lexicographic order on character sequences, by scalar value.
pub open spec fn lex_lt(a: Seq<char>, b: Seq<char>) -> bool
    decreases a.len(),
{
    if b.len() == 0 {
        false
    } else if a.len() == 0 {
        true
    } else if (a[0] as u32) < (b[0] as u32) {
        true
    } else if (b[0] as u32) < (a[0] as u32) {
        false
    } else {
        lex_lt(a.drop_first(), b.drop_first())
    }
}

/// Characters with the same scalar value are the same character.
proof fn lemma_char_injective(a: char, b: char)
    requires
        a as u32 == b as u32,
    ensures
        a == b,
{
}

/// Lexicographic order admits no two-way tie between distinct sequences.
pub proof fn lemma_lex_lt_connected(a: Seq<char>, b: Seq<char>)
    ensures
        lex_lt(a, b) || lex_lt(b, a) || a == b,
        !(lex_lt(a, b) && lex_lt(b, a)),
    decreases a.len(),
{
    if a.len() == 0 || b.len() == 0 {
        if a.len() == 0 && b.len() == 0 {
            assert(a =~= b);
        }
    } else if (a[0] as u32) == (b[0] as u32) {
        lemma_char_injective(a[0], b[0]);
        lemma_lex_lt_connected(a.drop_first(), b.drop_first());
        if a.drop_first() == b.drop_first() {
            assert forall|i: int| 0 <= i < a.len() implies a[i] == b[i] by {
                if i > 0 {
                    assert(a.drop_first()[i - 1] == b.drop_first()[i - 1]);
                }
            }
            assert(a =~= b);
        }
    }
}

/// Lexicographic order is transitive.
pub proof fn lemma_lex_lt_transitive(a: Seq<char>, b: Seq<char>, c: Seq<char>)
    requires
        lex_lt(a, b),
        lex_lt(b, c),
    ensures
        lex_lt(a, c),
    decreases a.len(),
{
    if a.len() > 0 && b.len() > 0 && c.len() > 0 && (a[0] as u32) == (b[0] as u32) && (b[0] as u32)
        == (c[0] as u32) {
        lemma_char_injective(a[0], b[0]);
        lemma_char_injective(b[0], c[0]);
        lemma_lex_lt_transitive(a.drop_first(), b.drop_first(), c.drop_first());
    }
}

/// Three-way lexicographic comparison; negative, zero, and positive stand for
/// less-than, equal, and greater-than.
pub fn str_compare(a: &str, b: &str) -> (r: i8)
    ensures
        (r == -1) == lex_lt(a@, b@),
        (r == 0) == (a@ == b@),
        (r == 1) == lex_lt(b@, a@),
{
    proof {
        lemma_lex_lt_connected(a@, b@);
        assert(a@.skip(0) =~= a@);
        assert(b@.skip(0) =~= b@);
    }
    let n = a.unicode_len();
    let m = b.unicode_len();
    let mut i: usize = 0;
    while i < n && i < m
        invariant
            i <= n,
            i <= m,
            n == a@.len(),
            m == b@.len(),
            forall|k: int| 0 <= k < i ==> a@[k] == b@[k],
            lex_lt(a@, b@) == lex_lt(a@.skip(i as int), b@.skip(i as int)),
            lex_lt(b@, a@) == lex_lt(b@.skip(i as int), a@.skip(i as int)),
        decreases n - i,
    {
        let ca = a.get_char(i);
        let cb = b.get_char(i);
        if (ca as u32) < (cb as u32) {
            proof {
                assert(a@.skip(i as int)[0] == ca);
                assert(b@.skip(i as int)[0] == cb);
            }
            return -1;
        }
        if (cb as u32) < (ca as u32) {
            proof {
                assert(a@.skip(i as int)[0] == ca);
                assert(b@.skip(i as int)[0] == cb);
            }
            return 1;
        }
        proof {
            lemma_char_injective(ca, cb);
            assert(a@.skip(i as int)[0] == ca);
            assert(b@.skip(i as int)[0] == cb);
            assert(a@.skip(i as int).drop_first() =~= a@.skip(i + 1));
            assert(b@.skip(i as int).drop_first() =~= b@.skip(i + 1));
        }
        i += 1;
    }
    proof {
        assert(a@.skip(i as int).len() == n - i);
        assert(b@.skip(i as int).len() == m - i);
    }
    if n == m {
        proof {
            assert(a@ =~= b@);
        }
        0
    } else if n < m {
        -1
    } else {
        1
    }
}

/// The character for a single decimal digit.
pub open spec fn digit_char(d: nat) -> char {
    if d == 0 {
        '0'
    } else if d == 1 {
        '1'
    } else if d == 2 {
        '2'
    } else if d == 3 {
        '3'
    } else if d == 4 {
        '4'
    } else if d == 5 {
        '5'
    } else if d == 6 {
        '6'
    } else if d == 7 {
        '7'
    } else if d == 8 {
        '8'
    } else {
        '9'
    }
}

/// The decimal digit string of `n`, with no leading zeros (a single zero for
/// zero itself).
pub open spec fn dec_str(n: nat) -> Seq<char>
    decreases n,
{
    if n < 10 {
        seq![digit_char(n)]
    } else {
        dec_str(n / 10).push(digit_char(n % 10))
    }
}

/// Every character of a decimal digit string is a digit.
pub proof fn lemma_dec_str_digits(n: nat)
    ensures
        dec_str(n).len() > 0,
        forall|k: int|
            0 <= k < dec_str(n).len() ==> '0' <= #[trigger] dec_str(n)[k] && dec_str(n)[k] <= '9',
    decreases n,
{
    if n < 10 {
    } else {
        lemma_dec_str_digits(n / 10);
        assert forall|k: int|
            0 <= k < dec_str(n).len() implies '0' <= #[trigger] dec_str(n)[k] && dec_str(n)[k]
            <= '9' by {
            if k < dec_str(n / 10).len() {
                assert(dec_str(n)[k] == dec_str(n / 10)[k]);
            } else {
                assert(dec_str(n)[k] == digit_char(n % 10));
            }
        }
    }
}

fn digit_str(d: u64) -> (r: &'static str)
    requires
        d < 10,
    ensures
        r@ =~= seq![digit_char(d as nat)],
{
    proof {
        reveal_strlit("0");
        reveal_strlit("1");
        reveal_strlit("2");
        reveal_strlit("3");
        reveal_strlit("4");
        reveal_strlit("5");
        reveal_strlit("6");
        reveal_strlit("7");
        reveal_strlit("8");
        reveal_strlit("9");
    }
    match d {
        0 => "0",
        1 => "1",
        2 => "2",
        3 => "3",
        4 => "4",
        5 => "5",
        6 => "6",
        7 => "7",
        8 => "8",
        _ => "9",
    }
}

/// Renders `n` in decimal.
pub fn u64_to_string(n: u64) -> (r: String)
    ensures
        r@ == dec_str(n as nat),
    decreases n,
{
    if n < 10 {
        String::from_str(digit_str(n))
    } else {
        let mut s = u64_to_string(n / 10);
        s.append(digit_str(n % 10));
        proof {
            assert(dec_str((n / 10) as nat) + seq![digit_char((n % 10) as nat)] =~= dec_str(
                (n / 10) as nat,
            ).push(digit_char((n % 10) as nat)));
        }
        s
    }
}

/// The items joined with a single space between consecutive items.
pub open spec fn join_spaced(items: Seq<Seq<char>>) -> Seq<char>
    decreases items.len(),
{
    if items.len() == 0 {
        Seq::empty()
    } else if items.len() == 1 {
        items[0]
    } else {
        items[0] + seq![' '] + join_spaced(items.drop_first())
    }
}

proof fn lemma_join_push(items: Seq<Seq<char>>, x: Seq<char>)
    requires
        items.len() > 0,
    ensures
        join_spaced(items.push(x)) == join_spaced(items) + seq![' '] + x,
    decreases items.len(),
{
    let p = items.push(x);
    assert(p[0] == items[0]);
    if items.len() == 1 {
        assert(p.drop_first() =~= seq![x]);
        assert(join_spaced(p.drop_first()) == x);
    } else {
        lemma_join_push(items.drop_first(), x);
        assert(p.drop_first() =~= items.drop_first().push(x));
        assert(join_spaced(p) =~= join_spaced(items) + seq![' '] + x);
    }
}

/// Joins the items with single spaces.
pub fn join_with_spaces(items: &Vec<String>) -> (r: String)
    ensures
        r@ == join_spaced(items@.map_values(|t: String| t@)),
{
    let ghost view = items@.map_values(|t: String| t@);
    let mut r = String::new();
    let mut i: usize = 0;
    while i < items.len()
        invariant
            i <= items.len(),
            view == items@.map_values(|t: String| t@),
            view.len() == items@.len(),
            r@ == join_spaced(view.take(i as int)),
        decreases items.len() - i,
    {
        if i > 0 {
            r.append(" ");
            proof {
                reveal_strlit(" ");
            }
        }
        r.append(items[i].as_str());
        proof {
            assert(view.take(i + 1) =~= view.take(i as int).push(view[i as int]));
            if i > 0 {
                lemma_join_push(view.take(i as int), view[i as int]);
                assert(r@ =~= join_spaced(view.take(i + 1)));
            } else {
                assert(join_spaced(view.take(1)) == view[0]);
                assert(r@ =~= join_spaced(view.take(1)));
            }
        }
        i += 1;
    }
    proof {
        assert(view.take(items@.len() as int) =~= view);
    }
    r
}


} // verus!
