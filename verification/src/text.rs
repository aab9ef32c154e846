//! Verified text primitives for the network-detail parsers: substring
//! search, trimming, whitespace tokens, delimiter segments and line
//! splitting, each tied to a mathematical model over `Seq<char>`.
use vstd::prelude::*;
use vstd::string::StrSliceExecFns;
use vstd::string::StringExecFns;

verus! {

/// The character views of a sequence of strings.
pub open spec fn views(v: Seq<String>) -> Seq<Seq<char>> {
    v.map_values(|s: String| s@)
}

pub proof fn lemma_views_push(v: Seq<String>, x: String)
    ensures
        views(v.push(x)) == views(v).push(x@),
{
    assert(views(v.push(x)) =~= views(v).push(x@));
}

/// Whitespace as these parsers understand it.
pub open spec fn is_space(c: char) -> bool {
    c == ' ' || c == '\t' || c == '\r' || c == '\n'
}

pub fn is_space_char(c: char) -> (r: bool)
    ensures
        r == is_space(c),
{
    c == ' ' || c == '\t' || c == '\r' || c == '\n'
}

/// `pat` occurs in `s` starting at index `i`.
pub open spec fn match_at(s: Seq<char>, pat: Seq<char>, i: int) -> bool {
    0 <= i && i + pat.len() <= s.len() && s.subrange(i, i + pat.len()) == pat
}

/// Index of the first occurrence of `pat` in `s`, `-1` when there is none.
pub open spec fn find_idx(s: Seq<char>, pat: Seq<char>) -> int
    decreases s.len(),
{
    if pat.len() == 0 {
        0
    } else if s.len() < pat.len() {
        -1
    } else if s.take(pat.len() as int) == pat {
        0
    } else {
        let r = find_idx(s.skip(1), pat);
        if r == -1 {
            -1
        } else {
            r + 1
        }
    }
}

pub open spec fn has_match(s: Seq<char>, pat: Seq<char>) -> bool {
    find_idx(s, pat) >= 0
}

/// `find_idx` names the first match: a match where it points, none before
/// it, and `-1` exactly when no index matches.
pub proof fn lemma_find_idx(s: Seq<char>, pat: Seq<char>)
    ensures
        find_idx(s, pat) >= -1,
        find_idx(s, pat) >= 0 ==> match_at(s, pat, find_idx(s, pat)),
        find_idx(s, pat) >= 0 ==> forall|j: int| 0 <= j < find_idx(s, pat) ==> !match_at(s, pat, j),
        find_idx(s, pat) == -1 ==> forall|j: int| !match_at(s, pat, j),
    decreases s.len(),
{
    if pat.len() == 0 {
        assert(s.subrange(0, 0) =~= pat);
        assert(match_at(s, pat, 0));
    } else if s.len() < pat.len() {
        assert forall|j: int| !match_at(s, pat, j) by {
            if 0 <= j && j + pat.len() <= s.len() {
                assert(false);
            }
        }
    } else if s.take(pat.len() as int) == pat {
        assert(s.subrange(0, pat.len() as int) =~= s.take(pat.len() as int));
        assert(match_at(s, pat, 0));
    } else {
        lemma_find_idx(s.skip(1), pat);
        assert(s.subrange(0, pat.len() as int) =~= s.take(pat.len() as int));
        assert(!match_at(s, pat, 0));
        assert forall|j: int| 0 <= j implies (#[trigger] match_at(s, pat, j + 1) == match_at(
            s.skip(1),
            pat,
            j,
        )) by {
            if 0 <= j && j + pat.len() <= s.skip(1).len() {
                assert(s.subrange(j + 1, j + 1 + pat.len()) =~= s.skip(1).subrange(
                    j,
                    j + pat.len(),
                ));
            }
        }
        let r = find_idx(s.skip(1), pat);
        if r == -1 {
            assert forall|j: int| !match_at(s, pat, j) by {
                if j >= 1 {
                    assert(!match_at(s.skip(1), pat, j - 1));
                    assert(match_at(s, pat, (j - 1) + 1) == match_at(s.skip(1), pat, j - 1));
                }
            }
        } else {
            assert(match_at(s.skip(1), pat, r));
            assert(match_at(s, pat, r + 1) == match_at(s.skip(1), pat, r));
            assert forall|j: int| 0 <= j < r + 1 implies !match_at(s, pat, j) by {
                if j >= 1 {
                    assert(!match_at(s.skip(1), pat, j - 1));
                    assert(match_at(s, pat, (j - 1) + 1) == match_at(s.skip(1), pat, j - 1));
                }
            }
        }
    }
}

/// First occurrence of `pat` in `s`, as `find_idx` names it.
pub fn find_sub(s: &str, pat: &str) -> (r: Option<usize>)
    ensures
        match r {
            Some(i) => find_idx(s@, pat@) == i as int,
            None => find_idx(s@, pat@) == -1,
        },
{
    proof {
        lemma_find_idx(s@, pat@);
    }
    let n = s.unicode_len();
    let m = pat.unicode_len();
    if m == 0 {
        return Some(0);
    }
    if m > n {
        return None;
    }
    let mut i: usize = 0;
    while i <= n - m
        invariant
            1 <= m <= n,
            n == s@.len(),
            m == pat@.len(),
            i <= n - m + 1,
            forall|j: int| 0 <= j < i ==> !match_at(s@, pat@, j),
        decreases n - m + 1 - i,
    {
        let mut j: usize = 0;
        let mut ok = true;
        while j < m
            invariant
                m <= n,
                n == s@.len(),
                m == pat@.len(),
                i + m <= n,
                j <= m,
                ok ==> forall|k: int| 0 <= k < j ==> s@[i + k] == pat@[k],
                !ok ==> !match_at(s@, pat@, i as int),
            ensures
                ok ==> j == m && forall|k: int| 0 <= k < m ==> s@[i + k] == pat@[k],
                !ok ==> !match_at(s@, pat@, i as int),
            decreases m - j,
        {
            if s.get_char(i + j) != pat.get_char(j) {
                proof {
                    if match_at(s@, pat@, i as int) {
                        assert(s@.subrange(i as int, i + pat@.len())[j as int] == pat@[j as int]);
                    }
                }
                ok = false;
                break ;
            }
            j += 1;
        }
        if ok {
            proof {
                assert(s@.subrange(i as int, i + pat@.len()) =~= pat@);
                assert(match_at(s@, pat@, i as int));
                lemma_find_idx(s@, pat@);
            }
            return Some(i);
        }
        i += 1;
    }
    proof {
        assert forall|j: int| !match_at(s@, pat@, j) by {
            if 0 <= j < i {
            } else if j > n - m {
                if 0 <= j && j + pat@.len() <= s@.len() {
                    assert(false);
                }
            }
        }
        lemma_find_idx(s@, pat@);
    }
    None
}

pub fn contains_sub(s: &str, pat: &str) -> (r: bool)
    ensures
        r == has_match(s@, pat@),
{
    match find_sub(s, pat) {
        Some(_) => true,
        None => false,
    }
}

/// `s` without its leading whitespace.
pub open spec fn trim_start_spec(s: Seq<char>) -> Seq<char>
    decreases s.len(),
{
    if s.len() > 0 && is_space(s[0]) {
        trim_start_spec(s.skip(1))
    } else {
        s
    }
}

/// `s` without its trailing whitespace.
pub open spec fn trim_end_spec(s: Seq<char>) -> Seq<char>
    decreases s.len(),
{
    if s.len() > 0 && is_space(s[s.len() - 1]) {
        trim_end_spec(s.take(s.len() - 1))
    } else {
        s
    }
}

/// `s` without leading and trailing whitespace.
pub open spec fn trim_spec(s: Seq<char>) -> Seq<char> {
    trim_end_spec(trim_start_spec(s))
}

pub proof fn lemma_trim_start_skip(s: Seq<char>, a: int)
    requires
        0 <= a <= s.len(),
        forall|k: int| 0 <= k < a ==> is_space(s[k]),
    ensures
        trim_start_spec(s) == trim_start_spec(s.skip(a)),
    decreases a,
{
    if a > 0 {
        assert(is_space(s[0]));
        let t = s.skip(1);
        assert forall|k: int| 0 <= k < a - 1 implies is_space(#[trigger] t[k]) by {
            assert(t[k] == s[k + 1]);
        }
        lemma_trim_start_skip(t, a - 1);
        assert(t.skip(a - 1) =~= s.skip(a));
    } else {
        assert(s.skip(0) =~= s);
    }
}

pub proof fn lemma_trim_end_take(s: Seq<char>, b: int)
    requires
        0 <= b <= s.len(),
        forall|k: int| b <= k < s.len() ==> is_space(s[k]),
    ensures
        trim_end_spec(s) == trim_end_spec(s.take(b)),
    decreases s.len() - b,
{
    if b < s.len() {
        assert(is_space(s[s.len() - 1]));
        let t = s.take(s.len() - 1);
        assert forall|k: int| b <= k < t.len() implies is_space(#[trigger] t[k]) by {
            assert(t[k] == s[k]);
        }
        lemma_trim_end_take(t, b);
        assert(t.take(b) =~= s.take(b));
    } else {
        assert(s.take(b) =~= s);
    }
}

/// Slice of `s` with the surrounding whitespace removed.
pub fn trim_str<'a>(s: &'a str) -> (r: &'a str)
    ensures
        r@ == trim_spec(s@),
{
    let n = s.unicode_len();
    let mut a: usize = 0;
    while a < n && is_space_char(s.get_char(a))
        invariant
            a <= n,
            n == s@.len(),
            forall|k: int| 0 <= k < a ==> is_space(s@[k]),
        decreases n - a,
    {
        a += 1;
    }
    proof {
        lemma_trim_start_skip(s@, a as int);
    }
    let mut b: usize = n;
    while b > a && is_space_char(s.get_char(b - 1))
        invariant
            a <= b <= n,
            n == s@.len(),
            forall|k: int| b <= k < n ==> is_space(s@[k]),
        decreases b,
    {
        b -= 1;
    }
    proof {
        let t = s@.skip(a as int);
        assert(forall|k: int|
            b - a <= k < t.len() ==> is_space(#[trigger] t[k]) == is_space(s@[k + a]));
        lemma_trim_end_take(t, b - a);
        assert(t.take(b - a) =~= s@.subrange(a as int, b as int));
        if b > a {
            assert(t.take(b - a)[b - a - 1] == s@[b - 1]);
        }
    }
    s.substring_char(a, b)
}

/// Length of the leading run of non-whitespace characters.
pub open spec fn token_len(s: Seq<char>) -> int
    decreases s.len(),
{
    if s.len() == 0 || is_space(s[0]) {
        0
    } else {
        1 + token_len(s.skip(1))
    }
}

pub proof fn lemma_token_len(t: Seq<char>, e: int)
    requires
        0 <= e <= t.len(),
        forall|k: int| 0 <= k < e ==> !is_space(t[k]),
        e == t.len() || is_space(t[e]),
    ensures
        token_len(t) == e,
    decreases e,
{
    if e > 0 {
        assert(!is_space(t[0]));
        lemma_token_len(t.skip(1), e - 1);
    }
}

/// The first whitespace-separated token of `s`, empty when there is none.
pub open spec fn first_token_spec(s: Seq<char>) -> Seq<char> {
    trim_start_spec(s).take(token_len(trim_start_spec(s)))
}

pub fn first_token(s: &str) -> (r: String)
    ensures
        r@ == first_token_spec(s@),
{
    let n = s.unicode_len();
    let mut a: usize = 0;
    while a < n && is_space_char(s.get_char(a))
        invariant
            a <= n,
            n == s@.len(),
            forall|k: int| 0 <= k < a ==> is_space(s@[k]),
        decreases n - a,
    {
        a += 1;
    }
    let mut e: usize = a;
    while e < n && !is_space_char(s.get_char(e))
        invariant
            a <= e <= n,
            n == s@.len(),
            forall|k: int| a <= k < e ==> !is_space(s@[k]),
        decreases n - e,
    {
        e += 1;
    }
    proof {
        lemma_trim_start_skip(s@, a as int);
        let t = s@.skip(a as int);
        assert(forall|k: int| 0 <= k < e - a ==> is_space(#[trigger] t[k]) == is_space(s@[k + a]));
        if e < n {
            assert(t[e - a] == s@[e as int]);
        }
        lemma_token_len(t, e - a);
        assert(t.take(e - a) =~= s@.subrange(a as int, e as int));
    }
    String::from_str(s.substring_char(a, e))
}

/// The text between the first occurrence of `pat` and the next one after
/// it (or the end of `s`): the second element of a split of `s` at `pat`.
pub open spec fn second_segment_spec(s: Seq<char>, pat: Seq<char>) -> Seq<char>
    recommends
        has_match(s, pat),
{
    let rest = s.subrange(find_idx(s, pat) + pat.len(), s.len() as int);
    if has_match(rest, pat) {
        rest.take(find_idx(rest, pat))
    } else {
        rest
    }
}

pub fn second_segment<'a>(s: &'a str, pat: &str) -> (r: Option<&'a str>)
    ensures
        match r {
            Some(t) => has_match(s@, pat@) && t@ == second_segment_spec(s@, pat@),
            None => !has_match(s@, pat@),
        },
{
    let n = s.unicode_len();
    let m = pat.unicode_len();
    match find_sub(s, pat) {
        None => None,
        Some(i) => {
            proof {
                lemma_find_idx(s@, pat@);
            }
            let rest = s.substring_char(i + m, n);
            match find_sub(rest, pat) {
                None => Some(rest),
                Some(k) => {
                    proof {
                        lemma_find_idx(rest@, pat@);
                    }
                    Some(rest.substring_char(0, k))
                },
            }
        },
    }
}

/// `s` begins with `pat`.
pub open spec fn starts_with_spec(s: Seq<char>, pat: Seq<char>) -> bool {
    pat.len() <= s.len() && s.take(pat.len() as int) == pat
}

pub fn starts_with_str(s: &str, pat: &str) -> (r: bool)
    ensures
        r == starts_with_spec(s@, pat@),
{
    let n = s.unicode_len();
    let m = pat.unicode_len();
    if m > n {
        return false;
    }
    let mut j: usize = 0;
    while j < m
        invariant
            m <= n,
            n == s@.len(),
            m == pat@.len(),
            j <= m,
            forall|k: int| 0 <= k < j ==> s@[k] == pat@[k],
        decreases m - j,
    {
        if s.get_char(j) != pat.get_char(j) {
            proof {
                assert(s@.take(m as int)[j as int] == s@[j as int]);
            }
            return false;
        }
        j += 1;
    }
    proof {
        assert(s@.take(m as int) =~= pat@);
    }
    true
}

/// The lines of `s`, split at each newline character; always at least one
/// line, and a trailing newline yields a final empty line.
pub open spec fn lines_spec(s: Seq<char>) -> Seq<Seq<char>>
    decreases s.len(),
{
    if s.len() == 0 {
        seq![Seq::<char>::empty()]
    } else if s[0] == '\n' {
        seq![Seq::<char>::empty()] + lines_spec(s.skip(1))
    } else {
        let r = lines_spec(s.skip(1));
        seq![seq![s[0]] + r[0]] + r.skip(1)
    }
}

pub proof fn lemma_lines_len(s: Seq<char>)
    ensures
        lines_spec(s).len() >= 1,
    decreases s.len(),
{
    if s.len() > 0 {
        lemma_lines_len(s.skip(1));
    }
}

/// Reading `lines_spec` chunk-wise: a newline-free prefix of length `k`
/// followed by a newline (or the end) is the first line.
pub proof fn lemma_lines_chunk(s: Seq<char>, k: int)
    requires
        0 <= k <= s.len(),
        forall|j: int| 0 <= j < k ==> s[j] != '\n',
    ensures
        k == s.len() ==> lines_spec(s) == seq![s],
        k < s.len() && s[k] == '\n' ==> lines_spec(s) == seq![s.take(k)] + lines_spec(
            s.skip(k + 1),
        ),
    decreases k,
{
    if k == 0 {
        if 0 == s.len() {
            assert(s =~= Seq::<char>::empty());
            assert(lines_spec(s) =~= seq![s]);
        } else if s[0] == '\n' {
            assert(s.take(0) =~= Seq::<char>::empty());
            assert(lines_spec(s) =~= seq![s.take(0)] + lines_spec(s.skip(1)));
        }
    } else {
        lemma_lines_chunk(s.skip(1), k - 1);
        lemma_lines_len(s.skip(1));
        let r = lines_spec(s.skip(1));
        if k == s.len() {
            assert(s.skip(1).len() == k - 1);
            assert(r == seq![s.skip(1)]);
            assert(seq![s[0]] + s.skip(1) =~= s);
            assert(r.skip(1) =~= Seq::<Seq<char>>::empty());
            assert(lines_spec(s) =~= seq![s]);
        } else if s[k] == '\n' {
            assert(s.skip(1)[k - 1] == s[k]);
            assert(r == seq![s.skip(1).take(k - 1)] + lines_spec(s.skip(1).skip(k)));
            assert(s.skip(1).skip(k) =~= s.skip(k + 1));
            assert(r[0] == s.skip(1).take(k - 1));
            assert(seq![s[0]] + s.skip(1).take(k - 1) =~= s.take(k));
            assert(r.skip(1) =~= lines_spec(s.skip(k + 1)));
            assert(lines_spec(s) =~= seq![s.take(k)] + lines_spec(s.skip(k + 1)));
        }
    }
}

/// Split `s` into its lines at each newline character.
pub fn split_lines(s: &str) -> (r: Vec<String>)
    ensures
        views(r@) == lines_spec(s@),
{
    let n = s.unicode_len();
    let mut out: Vec<String> = Vec::new();
    let mut start: usize = 0;
    let mut i: usize = 0;
    proof {
        assert(views(out@) =~= Seq::<Seq<char>>::empty());
        assert(s@.skip(0) =~= s@);
        assert(views(out@) + lines_spec(s@) =~= lines_spec(s@));
    }
    while i < n
        invariant
            start <= i <= n,
            n == s@.len(),
            forall|j: int| start <= j < i ==> s@[j] != '\n',
            lines_spec(s@) == views(out@) + lines_spec(s@.skip(start as int)),
        decreases n - i,
    {
        if s.get_char(i) == '\n' {
            let line = String::from_str(s.substring_char(start, i));
            proof {
                let t = s@.skip(start as int);
                assert(forall|j: int|
                    0 <= j < i - start ==> #[trigger] t[j] == s@[j + start] && s@[j + start]
                        != '\n');
                assert(t[i - start] == s@[i as int]);
                lemma_lines_chunk(t, i - start);
                assert(t.take(i - start) =~= s@.subrange(start as int, i as int));
                assert(t.skip(i - start + 1) =~= s@.skip(i + 1));
                lemma_views_push(out@, line);
                assert(views(out@).push(line@) + lines_spec(s@.skip(i + 1)) =~= views(out@) + (
                seq![line@] + lines_spec(s@.skip(i + 1))));
            }
            out.push(line);
            start = i + 1;
        }
        i += 1;
    }
    let last = String::from_str(s.substring_char(start, n));
    proof {
        let t = s@.skip(start as int);
        assert(forall|j: int|
            0 <= j < t.len() ==> #[trigger] t[j] == s@[j + start] && s@[j + start] != '\n');
        lemma_lines_chunk(t, t.len() as int);
        assert(t =~= s@.subrange(start as int, n as int));
        lemma_views_push(out@, last);
        assert(views(out@).push(last@) =~= views(out@) + seq![t]);
    }
    out.push(last);
    out
}

} // verus!
