//! Verified character-level helpers on `&str` / `String`: equality,
//! prefix and substring tests, case-insensitive comparison, trimming,
//! and splitting (plain and parenthesis-aware).

use vstd::prelude::*;

verus! {

/// `p` is an initial segment of `s`.
pub open spec fn is_prefix(p: Seq<char>, s: Seq<char>) -> bool {
    p.len() <= s.len() && p == s.subrange(0, p.len() as int)
}

/// Character code with ASCII upper case folded to lower case.
pub open spec fn lower_code(c: char) -> u32 {
    if 65 <= c as u32 && c as u32 <= 90 {
        (c as u32 + 32) as u32
    } else {
        c as u32
    }
}

/// ASCII-case-insensitive equality of two character sequences.
pub open spec fn eq_ci(a: Seq<char>, b: Seq<char>) -> bool {
    a.len() == b.len() && forall|i: int| 0 <= i < a.len() ==> lower_code(a[i]) == lower_code(b[i])
}

/// `s` contains `p` as a contiguous subsequence.
pub open spec fn contains_seq(s: Seq<char>, p: Seq<char>) -> bool {
    exists|i: int| 0 <= i && i + p.len() <= s.len() && p == #[trigger] s.subrange(i, i + p.len() as int)
}

/// `s` contains a subsequence ASCII-case-insensitively equal to `p`.
pub open spec fn contains_seq_ci(s: Seq<char>, p: Seq<char>) -> bool {
    exists|i: int| 0 <= i && i + p.len() <= s.len() && eq_ci(p, #[trigger] s.subrange(i, i + p.len() as int))
}

pub fn str_eq(a: &str, b: &str) -> (r: bool)
    ensures
        r == (a@ == b@),
{
    let al = a.unicode_len();
    let bl = b.unicode_len();
    if al != bl {
        return false;
    }
    let mut i: usize = 0;
    while i < al
        invariant
            al == a@.len(),
            al == b@.len(),
            i <= al,
            forall|j: int| 0 <= j < i ==> a@[j] == b@[j],
        decreases al - i,
    {
        if a.get_char(i) != b.get_char(i) {
            return false;
        }
        i += 1;
    }
    proof {
        assert(a@ =~= b@);
    }
    true
}

pub fn has_prefix(s: &str, p: &str) -> (r: bool)
    ensures
        r == is_prefix(p@, s@),
{
    let sl = s.unicode_len();
    let pl = p.unicode_len();
    if pl > sl {
        return false;
    }
    let mut i: usize = 0;
    while i < pl
        invariant
            sl == s@.len(),
            pl == p@.len(),
            pl <= sl,
            i <= pl,
            forall|j: int| 0 <= j < i ==> p@[j] == s@[j],
        decreases pl - i,
    {
        if s.get_char(i) != p.get_char(i) {
            proof {
                assert(!is_prefix(p@, s@)) by {
                    if is_prefix(p@, s@) {
                        assert(p@[i as int] == s@.subrange(0, p@.len() as int)[i as int]);
                    }
                }
            }
            return false;
        }
        i += 1;
    }
    proof {
        assert(p@ =~= s@.subrange(0, p@.len() as int));
    }
    true
}

/// The suffix of `s` after its first `n` characters.
pub fn suffix_from(s: &str, n: usize) -> (r: String)
    requires
        n <= s@.len(),
    ensures
        r@ == s@.subrange(n as int, s@.len() as int),
{
    let sl = s.unicode_len();
    let sub = s.substring_char(n, sl);
    sub.to_owned()
}

pub fn eq_ignore_case(a: &str, b: &str) -> (r: bool)
    ensures
        r == eq_ci(a@, b@),
{
    let al = a.unicode_len();
    let bl = b.unicode_len();
    if al != bl {
        return false;
    }
    let mut i: usize = 0;
    while i < al
        invariant
            al == a@.len(),
            al == b@.len(),
            i <= al,
            forall|j: int| 0 <= j < i ==> lower_code(a@[j]) == lower_code(b@[j]),
        decreases al - i,
    {
        let ca = a.get_char(i) as u32;
        let cb = b.get_char(i) as u32;
        let fa = if 65 <= ca && ca <= 90 {
            ca + 32
        } else {
            ca
        };
        let fb = if 65 <= cb && cb <= 90 {
            cb + 32
        } else {
            cb
        };
        if fa != fb {
            return false;
        }
        i += 1;
    }
    true
}

pub fn contains_str(s: &str, p: &str) -> (r: bool)
    ensures
        r == contains_seq(s@, p@),
{
    let sl = s.unicode_len();
    let pl = p.unicode_len();
    if pl > sl {
        return false;
    }
    if pl == 0 {
        proof {
            assert(p@ =~= s@.subrange(0, 0 + p@.len() as int));
        }
        return true;
    }
    let mut i: usize = 0;
    while i <= sl - pl
        invariant
            sl == s@.len(),
            pl == p@.len(),
            1 <= pl <= sl,
            i <= sl - pl + 1,
            forall|j: int| 0 <= j < i ==> p@ != #[trigger] s@.subrange(j, j + p@.len() as int),
        decreases sl - i,
    {
        let sub = s.substring_char(i, i + pl);
        if str_eq(sub, p) {
            return true;
        }
        i += 1;
    }
    false
}

pub fn contains_str_ci(s: &str, p: &str) -> (r: bool)
    ensures
        r == contains_seq_ci(s@, p@),
{
    let sl = s.unicode_len();
    let pl = p.unicode_len();
    if pl > sl {
        return false;
    }
    if pl == 0 {
        proof {
            assert(p@ =~= s@.subrange(0, 0 + p@.len() as int));
            assert(eq_ci(p@, s@.subrange(0, 0 + p@.len() as int)));
        }
        return true;
    }
    let mut i: usize = 0;
    while i <= sl - pl
        invariant
            sl == s@.len(),
            pl == p@.len(),
            1 <= pl <= sl,
            i <= sl - pl + 1,
            forall|j: int| 0 <= j < i ==> !eq_ci(p@, #[trigger] s@.subrange(j, j + p@.len() as int)),
        decreases sl - i,
    {
        let sub = s.substring_char(i, i + pl);
        if eq_ignore_case(p, sub) {
            return true;
        }
        i += 1;
    }
    false
}

/// ASCII whitespace, as trimmed from the edges of grammar fragments.
pub open spec fn is_space(c: char) -> bool {
    c == ' ' || c == '\t' || c == '\n' || c == '\r'
}

/// `s` with leading and trailing ASCII whitespace removed.
pub open spec fn spec_trim(s: Seq<char>) -> Seq<char>
    decreases s.len(),
{
    if s.len() == 0 {
        s
    } else if is_space(s[0]) {
        spec_trim(s.subrange(1, s.len() as int))
    } else if is_space(s[s.len() - 1]) {
        spec_trim(s.subrange(0, s.len() - 1))
    } else {
        s
    }
}

fn is_space_char(c: char) -> (r: bool)
    ensures
        r == is_space(c),
{
    c == ' ' || c == '\t' || c == '\n' || c == '\r'
}

#[verifier::rlimit(50)]
pub fn trim(s: &str) -> (r: String)
    ensures
        r@ == spec_trim(s@),
{
    let sl = s.unicode_len();
    let mut lo: usize = 0;
    let mut hi: usize = sl;
    proof {
        assert(s@.subrange(0, sl as int) =~= s@);
    }
    while lo < hi && is_space_char(s.get_char(lo))
        invariant
            sl == s@.len(),
            lo <= hi,
            hi == sl,
            spec_trim(s@) == spec_trim(s@.subrange(lo as int, hi as int)),
        decreases hi - lo,
    {
        proof {
            let cur = s@.subrange(lo as int, hi as int);
            assert(cur[0] == s@[lo as int]);
            assert(cur.subrange(1, cur.len() as int) =~= s@.subrange(lo + 1, hi as int));
        }
        lo += 1;
    }
    while lo < hi && is_space_char(s.get_char(hi - 1))
        invariant
            sl == s@.len(),
            lo <= hi <= sl,
            spec_trim(s@) == spec_trim(s@.subrange(lo as int, hi as int)),
            lo < hi ==> !is_space(s@[lo as int]),
        decreases hi - lo,
    {
        proof {
            let cur = s@.subrange(lo as int, hi as int);
            assert(cur[0] == s@[lo as int]);
            assert(cur[cur.len() - 1] == s@[hi - 1]);
            assert(cur.subrange(0, cur.len() - 1) =~= s@.subrange(lo as int, hi - 1));
        }
        hi -= 1;
    }
    proof {
        let cur = s@.subrange(lo as int, hi as int);
        assert(spec_trim(cur) == cur);
    }
    let sub = s.substring_char(lo, hi);
    sub.to_owned()
}

/// Splitting with an accumulator for the piece under construction:
/// every separator ends a piece, and the tail piece is always kept.
pub open spec fn split_acc(s: Seq<char>, sep: char, cur: Seq<char>) -> Seq<Seq<char>>
    decreases s.len(),
{
    if s.len() == 0 {
        seq![cur]
    } else if s[0] == sep {
        seq![cur] + split_acc(s.subrange(1, s.len() as int), sep, Seq::empty())
    } else {
        split_acc(s.subrange(1, s.len() as int), sep, cur.push(s[0]))
    }
}

/// `s` split on every occurrence of `sep`, empty pieces kept.
pub open spec fn spec_split(s: Seq<char>, sep: char) -> Seq<Seq<char>> {
    split_acc(s, sep, Seq::empty())
}

/// A split always yields at least one piece.
pub proof fn lemma_split_acc_len(s: Seq<char>, sep: char, cur: Seq<char>)
    ensures
        split_acc(s, sep, cur).len() >= 1,
    decreases s.len(),
{
    if s.len() == 0 {
    } else if s[0] == sep {
    } else {
        lemma_split_acc_len(s.subrange(1, s.len() as int), sep, cur.push(s[0]));
    }
}

pub fn split_char(s: &str, sep: char) -> (r: Vec<String>)
    ensures
        r@.map_values(|p: String| p@) == spec_split(s@, sep),
{
    let sl = s.unicode_len();
    let mut parts: Vec<String> = Vec::new();
    let mut cur = String::new();
    let mut i: usize = 0;
    proof {
        assert(s@.subrange(0, sl as int) =~= s@);
        assert(parts@.map_values(|p: String| p@) =~= Seq::<Seq<char>>::empty());
        assert(Seq::<Seq<char>>::empty() + split_acc(s@, sep, cur@) =~= split_acc(s@, sep, cur@));
    }
    while i < sl
        invariant
            sl == s@.len(),
            i <= sl,
            spec_split(s@, sep) == parts@.map_values(|p: String| p@) + split_acc(
                s@.subrange(i as int, sl as int),
                sep,
                cur@,
            ),
        decreases sl - i,
    {
        let c = s.get_char(i);
        proof {
            let rest = s@.subrange(i as int, sl as int);
            assert(rest[0] == s@[i as int]);
            assert(rest.subrange(1, rest.len() as int) =~= s@.subrange(i + 1, sl as int));
        }
        if c == sep {
            let done = cur;
            cur = String::new();
            let ghost prev = parts@;
            parts.push(done);
            proof {
                assert(parts@.map_values(|p: String| p@) =~= prev.map_values(|p: String| p@)
                    + seq![done@]);
            }
        } else {
            let ghost prev_cur = cur@;
            let tmp = s.substring_char(i, i + 1);
            cur.append(tmp);
            proof {
                assert(s@.subrange(i as int, i + 1) =~= seq![s@[i as int]]);
                assert(cur@ =~= prev_cur.push(s@[i as int]));
            }
        }
        i += 1;
    }
    proof {
        assert(s@.subrange(sl as int, sl as int) =~= Seq::<char>::empty());
    }
    let ghost prev = parts@;
    let ghost last = cur@;
    parts.push(cur);
    proof {
        assert(parts@.map_values(|p: String| p@) =~= prev.map_values(|p: String| p@) + seq![last]);
    }
    parts
}

/// Parenthesis-aware splitting with an accumulator: a comma at nesting
/// depth zero ends a piece; the final piece is kept only if non-empty.
pub open spec fn split_parens_acc(s: Seq<char>, cur: Seq<char>, depth: int) -> Seq<Seq<char>>
    decreases s.len(),
{
    if s.len() == 0 {
        if cur.len() == 0 {
            Seq::empty()
        } else {
            seq![cur]
        }
    } else if s[0] == ',' && depth == 0 {
        seq![cur] + split_parens_acc(s.subrange(1, s.len() as int), Seq::empty(), depth)
    } else {
        let d = if s[0] == '(' {
            depth + 1
        } else if s[0] == ')' {
            depth - 1
        } else {
            depth
        };
        split_parens_acc(s.subrange(1, s.len() as int), cur.push(s[0]), d)
    }
}

/// `s` split on commas that are outside any parentheses; an empty
/// trailing piece is dropped.
pub open spec fn spec_split_parens(s: Seq<char>) -> Seq<Seq<char>> {
    split_parens_acc(s, Seq::empty(), 0)
}

pub fn split_respecting_parens(s: &str) -> (r: Vec<String>)
    ensures
        r@.map_values(|p: String| p@) == spec_split_parens(s@),
{
    let sl = s.unicode_len();
    let mut parts: Vec<String> = Vec::new();
    let mut cur = String::new();
    let mut depth: i128 = 0;
    let mut i: usize = 0;
    proof {
        assert(s@.subrange(0, sl as int) =~= s@);
        assert(parts@.map_values(|p: String| p@) =~= Seq::<Seq<char>>::empty());
        assert(Seq::<Seq<char>>::empty() + split_parens_acc(s@, cur@, 0) =~= split_parens_acc(
            s@,
            cur@,
            0,
        ));
    }
    while i < sl
        invariant
            sl == s@.len(),
            i <= sl,
            -(i as int) <= depth as int <= i as int,
            spec_split_parens(s@) == parts@.map_values(|p: String| p@) + split_parens_acc(
                s@.subrange(i as int, sl as int),
                cur@,
                depth as int,
            ),
        decreases sl - i,
    {
        let c = s.get_char(i);
        proof {
            let rest = s@.subrange(i as int, sl as int);
            assert(rest[0] == s@[i as int]);
            assert(rest.subrange(1, rest.len() as int) =~= s@.subrange(i + 1, sl as int));
        }
        if c == ',' && depth == 0 {
            let done = cur;
            cur = String::new();
            let ghost prev = parts@;
            parts.push(done);
            proof {
                assert(parts@.map_values(|p: String| p@) =~= prev.map_values(|p: String| p@)
                    + seq![done@]);
            }
        } else {
            if c == '(' {
                depth += 1;
            } else if c == ')' {
                depth -= 1;
            }
            let ghost prev_cur = cur@;
            let tmp = s.substring_char(i, i + 1);
            cur.append(tmp);
            proof {
                assert(s@.subrange(i as int, i + 1) =~= seq![s@[i as int]]);
                assert(cur@ =~= prev_cur.push(s@[i as int]));
            }
        }
        i += 1;
    }
    proof {
        assert(s@.subrange(sl as int, sl as int) =~= Seq::<char>::empty());
    }
    if !cur.as_str().is_empty() {
        let ghost prev = parts@;
        let ghost last = cur@;
        parts.push(cur);
        proof {
            assert(parts@.map_values(|p: String| p@) =~= prev.map_values(|p: String| p@)
                + seq![last]);
        }
    } else {
        proof {
            assert(parts@.map_values(|p: String| p@) =~= parts@.map_values(|p: String| p@)
                + Seq::<Seq<char>>::empty());
        }
    }
    parts
}

pub fn find_char(s: &str, c: char) -> (r: Option<usize>)
    ensures
        match r {
            Some(i) => 0 <= i < s@.len() && s@[i as int] == c && forall|j: int|
                0 <= j < i ==> s@[j] != c,
            None => forall|j: int| 0 <= j < s@.len() ==> s@[j] != c,
        },
{
    let sl = s.unicode_len();
    let mut i: usize = 0;
    while i < sl
        invariant
            sl == s@.len(),
            i <= sl,
            forall|j: int| 0 <= j < i ==> s@[j] != c,
        decreases sl - i,
    {
        if s.get_char(i) == c {
            return Some(i);
        }
        i += 1;
    }
    None
}

/// There is an occurrence of `c` in `s`.
pub open spec fn has_char(s: Seq<char>, c: char) -> bool {
    exists|i: int| 0 <= i < s.len() && s[i] == c
}

/// The first occurrence of `c` in `s` (meaningful only when one exists).
pub open spec fn first_index(s: Seq<char>, c: char) -> int {
    choose|i: int|
        0 <= i < s.len() && s[i] == c && (forall|j: int| 0 <= j < i ==> s[j] != c)
}

pub proof fn lemma_has_char_first(s: Seq<char>, c: char)
    requires
        has_char(s, c),
    ensures
        0 <= first_index(s, c) < s.len(),
        s[first_index(s, c)] == c,
        forall|j: int| 0 <= j < first_index(s, c) ==> s[j] != c,
    decreases s.len(),
{
    if s[0] == c {
        assert(0 <= 0 < s.len() && s[0] == c && (forall|j: int| 0 <= j < 0 ==> s[j] != c));
    } else {
        let tail = s.subrange(1, s.len() as int);
        assert(has_char(tail, c)) by {
            let w = choose|i: int| 0 <= i < s.len() && s[i] == c;
            assert(tail[w - 1] == c);
        }
        lemma_has_char_first(tail, c);
        let d = first_index(tail, c);
        assert(s[d + 1] == c);
        assert forall|j: int| 0 <= j < d + 1 implies s[j] != c by {
            if j > 0 {
                assert(tail[j - 1] == s[j]);
            }
        }
        assert(0 <= d + 1 < s.len() && s[d + 1] == c && (forall|j: int|
            0 <= j < d + 1 ==> s[j] != c));
    }
}

pub proof fn lemma_first_index_agrees(s: Seq<char>, c: char, d: int)
    requires
        0 <= d < s.len(),
        s[d] == c,
        forall|j: int| 0 <= j < d ==> s[j] != c,
    ensures
        has_char(s, c),
        first_index(s, c) == d,
{
    assert(0 <= d < s.len() && s[d] == c && (forall|j: int| 0 <= j < d ==> s[j] != c));
    let i = first_index(s, c);
    assert(0 <= i < s.len() && s[i] == c && (forall|j: int| 0 <= j < i ==> s[j] != c));
    if i < d {
        assert(s[i] != c);
    } else if d < i {
        assert(s[d] != c);
    }
}

pub proof fn lemma_trim_len(s: Seq<char>)
    ensures
        spec_trim(s).len() <= s.len(),
    decreases s.len(),
{
    if s.len() == 0 {
    } else if is_space(s[0]) {
        lemma_trim_len(s.subrange(1, s.len() as int));
    } else if is_space(s[s.len() - 1]) {
        lemma_trim_len(s.subrange(0, s.len() - 1));
    }
}

pub proof fn lemma_split_parens_piece_len(s: Seq<char>, cur: Seq<char>, depth: int)
    ensures
        forall|i: int|
            0 <= i < split_parens_acc(s, cur, depth).len() ==> (
            #[trigger] split_parens_acc(s, cur, depth)[i].len()) <= s.len() + cur.len(),
    decreases s.len(),
{
    if s.len() == 0 {
    } else if s[0] == ',' && depth == 0 {
        let tail = s.subrange(1, s.len() as int);
        lemma_split_parens_piece_len(tail, Seq::empty(), depth);
        let rec = split_parens_acc(tail, Seq::empty(), depth);
        let whole = split_parens_acc(s, cur, depth);
        assert forall|i: int| 0 <= i < whole.len() implies (#[trigger] whole[i].len()) <= s.len()
            + cur.len() by {
            if i > 0 {
                assert(whole[i] == rec[i - 1]);
            }
        }
    } else {
        let d = if s[0] == '(' {
            depth + 1
        } else if s[0] == ')' {
            depth - 1
        } else {
            depth
        };
        let tail = s.subrange(1, s.len() as int);
        lemma_split_parens_piece_len(tail, cur.push(s[0]), d);
        let rec = split_parens_acc(tail, cur.push(s[0]), d);
        let whole = split_parens_acc(s, cur, depth);
        assert forall|i: int| 0 <= i < whole.len() implies (#[trigger] whole[i].len()) <= s.len()
            + cur.len() by {
            assert(whole[i] == rec[i]);
        }
    }
}

/// `s` with one outer pair of parentheses removed, when both are present.
pub open spec fn strip_outer_parens(s: Seq<char>) -> Seq<char> {
    if s.len() >= 2 && s[0] == '(' && s[s.len() - 1] == ')' {
        s.subrange(1, s.len() - 1)
    } else {
        s
    }
}

/// Strips one outer pair of parentheses, when both are present.
pub fn strip_parens(s: &str) -> (r: String)
    ensures
        r@ == strip_outer_parens(s@),
{
    let sl = s.unicode_len();
    if sl >= 2 && s.get_char(0) == '(' && s.get_char(sl - 1) == ')' {
        let sub = s.substring_char(1, sl - 1);
        sub.to_owned()
    } else {
        s.to_owned()
    }
}

} // verus!
