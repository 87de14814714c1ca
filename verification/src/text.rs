use vstd::prelude::*;

verus! {

/// Whitespace as the parser understands it: the ASCII blanks that the
/// external tool's output can contain.
pub open spec fn is_space(c: char) -> bool {
    c == ' ' || c == '\t' || c == '\r' || c == '\n'
}

/// Index of the first non-space character at or after `i` (the length of `s`
/// when every remaining character is a space).
pub open spec fn first_non_space(s: Seq<char>, i: int) -> int
    decreases s.len() - i,
{
    if i < 0 || i >= s.len() {
        s.len() as int
    } else if is_space(s[i]) {
        first_non_space(s, i + 1)
    } else {
        i
    }
}

/// End (exclusive) of the last non-space character strictly before `j`
/// (0 when every such character is a space).
pub open spec fn last_non_space_end(s: Seq<char>, j: int) -> int
    decreases j,
{
    if j <= 0 {
        0
    } else if is_space(s[j - 1]) {
        last_non_space_end(s, j - 1)
    } else {
        j
    }
}

/// Index of the first space character at or after `i` (the length of `s`
/// when no space follows).
pub open spec fn first_space_from(s: Seq<char>, i: int) -> int
    decreases s.len() - i,
{
    if i < 0 || i >= s.len() {
        s.len() as int
    } else if is_space(s[i]) {
        i
    } else {
        first_space_from(s, i + 1)
    }
}

/// `s` with leading and trailing spaces removed.
pub open spec fn spec_trim(s: Seq<char>) -> Seq<char> {
    let a = first_non_space(s, 0);
    let b = last_non_space_end(s, s.len() as int);
    if a <= b {
        s.subrange(a, b)
    } else {
        Seq::empty()
    }
}

/// `pat` occurs in `s` starting at index `i`.
pub open spec fn contains_at(s: Seq<char>, i: int, pat: Seq<char>) -> bool {
    0 <= i && i + pat.len() <= s.len() && s.subrange(i, i + pat.len()) == pat
}

/// `pat` occurs somewhere in `s`.
pub open spec fn has_sub(s: Seq<char>, pat: Seq<char>) -> bool {
    exists|i: int| contains_at(s, i, pat)
}

/// Index of the first occurrence of `pat` in `s` at or after `i`.
pub open spec fn first_sub_from(s: Seq<char>, pat: Seq<char>, i: int) -> Option<int>
    decreases s.len() + 1 - i,
{
    if i < 0 || i + pat.len() > s.len() {
        None
    } else if contains_at(s, i, pat) {
        Some(i)
    } else {
        first_sub_from(s, pat, i + 1)
    }
}

/// Index of the first occurrence of `pat` in `s`.
pub open spec fn first_sub(s: Seq<char>, pat: Seq<char>) -> Option<int> {
    first_sub_from(s, pat, 0)
}

proof fn lemma_first_sub_found(s: Seq<char>, pat: Seq<char>, i: int, j: int)
    requires
        0 <= i <= j,
        contains_at(s, j, pat),
        forall|k: int| i <= k < j ==> !contains_at(s, k, pat),
    ensures
        first_sub_from(s, pat, i) == Some(j),
    decreases j - i,
{
    if i < j {
        lemma_first_sub_found(s, pat, i + 1, j);
    }
}

proof fn lemma_first_sub_none(s: Seq<char>, pat: Seq<char>, i: int)
    requires
        0 <= i,
        forall|k: int| i <= k ==> !contains_at(s, k, pat),
    ensures
        first_sub_from(s, pat, i) is None,
    decreases s.len() + 1 - i,
{
    if i + pat.len() <= s.len() {
        lemma_first_sub_none(s, pat, i + 1);
    }
}

/// Character-for-character equality of two string slices.
pub fn str_eq(a: &str, b: &str) -> (r: bool)
    ensures
        r == (a@ == b@),
{
    let n = a.unicode_len();
    if n != b.unicode_len() {
        return false;
    }
    let mut i: usize = 0;
    while i < n
        invariant
            n == a@.len(),
            n == b@.len(),
            i <= n,
            forall|k: int| 0 <= k < i ==> a@[k] == b@[k],
        decreases n - i,
    {
        if a.get_char(i) != b.get_char(i) {
            return false;
        }
        i += 1;
    }
    proof {
        assert(a@ =~= b@);
    }
    true
}

/// Does `pat` occur in `s` starting exactly at index `i`?
pub fn match_at(s: &str, i: usize, pat: &str) -> (r: bool)
    ensures
        r == contains_at(s@, i as int, pat@),
{
    let n = s.unicode_len();
    let m = pat.unicode_len();
    if i > n || n - i < m {
        return false;
    }
    let mut k: usize = 0;
    while k < m
        invariant
            n == s@.len(),
            m == pat@.len(),
            i + m <= n,
            k <= m,
            forall|k2: int| 0 <= k2 < k ==> s@[i + k2] == pat@[k2],
        decreases m - k,
    {
        if s.get_char(i + k) != pat.get_char(k) {
            return false;
        }
        k += 1;
    }
    proof {
        assert(s@.subrange(i as int, i + m) =~= pat@);
    }
    true
}

/// First occurrence of `pat` in `s`, if any.
pub fn find_sub(s: &str, pat: &str) -> (r: Option<usize>)
    ensures
        match r {
            Some(i) => first_sub(s@, pat@) == Some(i as int) && contains_at(s@, i as int, pat@),
            None => first_sub(s@, pat@) is None,
        },
{
    let n = s.unicode_len();
    let m = pat.unicode_len();
    let mut i: usize = 0;
    if m == 0 {
        proof {
            assert(s@.subrange(0, 0) =~= pat@);
        }
        return Some(0);
    }
    if m > n {
        proof {
            lemma_first_sub_none(s@, pat@, 0);
        }
        return None;
    }
    while i <= n - m
        invariant
            n == s@.len(),
            m == pat@.len(),
            1 <= m <= n,
            i <= n - m + 1,
            forall|k: int| 0 <= k < i ==> !contains_at(s@, k, pat@),
        decreases n - m + 1 - i,
    {
        if match_at(s, i, pat) {
            proof {
                lemma_first_sub_found(s@, pat@, 0, i as int);
            }
            return Some(i);
        }
        i += 1;
    }
    proof {
        assert(forall|k: int| i <= k ==> !contains_at(s@, k, pat@));
        lemma_first_sub_none(s@, pat@, 0);
    }
    None
}

/// Does `pat` occur anywhere in `s`?
pub fn contains_sub(s: &str, pat: &str) -> (r: bool)
    ensures
        r == has_sub(s@, pat@),
{
    match find_sub(s, pat) {
        Some(i) => {
            proof {
                lemma_first_sub_some_unfold(s@, pat@, 0, i as int);
            }
            true
        },
        None => {
            proof {
                lemma_first_sub_none_unfold(s@, pat@, 0);
            }
            false
        },
    }
}

proof fn lemma_first_sub_some_unfold(s: Seq<char>, pat: Seq<char>, i: int, j: int)
    requires
        first_sub_from(s, pat, i) == Some(j),
        0 <= i,
    ensures
        contains_at(s, j, pat),
    decreases s.len() + 1 - i,
{
    if i + pat.len() <= s.len() && !contains_at(s, i, pat) {
        lemma_first_sub_some_unfold(s, pat, i + 1, j);
    }
}

proof fn lemma_first_sub_none_unfold(s: Seq<char>, pat: Seq<char>, i: int)
    requires
        first_sub_from(s, pat, i) is None,
        0 <= i,
    ensures
        forall|k: int| i <= k ==> !contains_at(s, k, pat),
    decreases s.len() + 1 - i,
{
    if i + pat.len() <= s.len() {
        lemma_first_sub_none_unfold(s, pat, i + 1);
    }
}

/// Index of the first newline at or after `i` (the length of `s` when no
/// newline follows).
pub open spec fn first_nl_at(s: Seq<char>, i: int) -> int
    decreases s.len() - i,
{
    if i < 0 || i >= s.len() {
        s.len() as int
    } else if s[i] == '\n' {
        i
    } else {
        first_nl_at(s, i + 1)
    }
}

/// A line body with the carriage return of a CRLF ending dropped.
pub open spec fn strip_cr(line: Seq<char>) -> Seq<char> {
    if line.len() > 0 && line.last() == '\r' {
        line.drop_last()
    } else {
        line
    }
}

/// The lines of `s`: split at each newline, every newline-terminated piece
/// losing a trailing carriage return; a final piece without a newline is
/// kept as it stands, and a trailing newline adds no empty piece.
pub open spec fn spec_lines(s: Seq<char>) -> Seq<Seq<char>>
    decreases s.len(),
{
    if s.len() == 0 {
        Seq::empty()
    } else {
        let p = first_nl_at(s, 0);
        if 0 <= p && p < s.len() {
            seq![strip_cr(s.subrange(0, p))] + spec_lines(s.subrange(p + 1, s.len() as int))
        } else {
            seq![s]
        }
    }
}

proof fn lemma_first_nl_found(t: Seq<char>, i: int, j: int)
    requires
        0 <= i <= j < t.len(),
        t[j] == '\n',
        forall|k: int| i <= k < j ==> t[k] != '\n',
    ensures
        first_nl_at(t, i) == j,
    decreases j - i,
{
    if i < j {
        lemma_first_nl_found(t, i + 1, j);
    }
}

proof fn lemma_first_nl_none(t: Seq<char>, i: int)
    requires
        0 <= i,
        forall|k: int| i <= k < t.len() ==> t[k] != '\n',
    ensures
        first_nl_at(t, i) == t.len(),
    decreases t.len() - i,
{
    if i < t.len() {
        lemma_first_nl_none(t, i + 1);
    }
}

/// Splits a string into its lines, as `spec_lines` describes.
pub fn split_lines(s: &str) -> (r: Vec<String>)
    ensures
        r.deep_view() == spec_lines(s@),
{
    let n = s.unicode_len();
    let mut out: Vec<String> = Vec::new();
    let mut start: usize = 0;
    let mut i: usize = 0;
    proof {
        assert(s@.subrange(0, n as int) =~= s@);
        assert(out.deep_view() + spec_lines(s@.subrange(0, n as int)) =~~= spec_lines(s@));
    }
    while i < n
        invariant
            start <= i <= n,
            n == s@.len(),
            forall|k: int| start <= k < i ==> s@[k] != '\n',
            out.deep_view() + spec_lines(s@.subrange(start as int, n as int)) == spec_lines(s@),
        decreases n - i,
    {
        let c = s.get_char(i);
        if c == '\n' {
            let end = if i > start && s.get_char(i - 1) == '\r' {
                i - 1
            } else {
                i
            };
            let piece = s.substring_char(start, end).to_owned();
            let ghost rem = s@.subrange(start as int, n as int);
            let ghost pre_out = out.deep_view();
            out.push(piece);
            proof {
                assert(rem[i - start] == s@[i as int]);
                assert forall|k: int| 0 <= k < i - start implies rem[k] != '\n' by {
                    assert(rem[k] == s@[start + k]);
                }
                lemma_first_nl_found(rem, 0, i - start);
                assert(rem.subrange(0, i - start) =~= s@.subrange(start as int, i as int));
                assert(strip_cr(s@.subrange(start as int, i as int)) =~= s@.subrange(
                    start as int,
                    end as int,
                ));
                assert(rem.subrange(i - start + 1, rem.len() as int) =~= s@.subrange(
                    i + 1,
                    n as int,
                ));
                assert(spec_lines(rem) == seq![strip_cr(rem.subrange(0, i - start))] + spec_lines(
                    s@.subrange(i + 1, n as int),
                ));
                assert(out.deep_view() =~~= pre_out.push(piece@));
                assert(out.deep_view() + spec_lines(s@.subrange(i + 1, n as int)) =~~= pre_out
                    + spec_lines(rem));
            }
            start = i + 1;
        }
        i += 1;
    }
    if start < n {
        let piece = s.substring_char(start, n).to_owned();
        let ghost rem = s@.subrange(start as int, n as int);
        let ghost pre_out = out.deep_view();
        out.push(piece);
        proof {
            assert forall|k: int| 0 <= k < rem.len() implies rem[k] != '\n' by {
                assert(rem[k] == s@[start + k]);
            }
            lemma_first_nl_none(rem, 0);
            assert(spec_lines(rem) == seq![rem]);
            assert(piece@ =~= rem);
            assert(out.deep_view() =~~= pre_out.push(rem));
            assert(out.deep_view() =~~= pre_out + spec_lines(rem));
        }
    } else {
        proof {
            let rem = s@.subrange(start as int, n as int);
            assert(rem =~= Seq::<char>::empty());
            assert(spec_lines(rem) =~~= Seq::<Seq<char>>::empty());
            assert(out.deep_view() + spec_lines(rem) =~~= out.deep_view());
        }
    }
    out
}

/// `s` with leading and trailing spaces removed.
pub fn trim_str<'a>(s: &'a str) -> (r: &'a str)
    ensures
        r@ == spec_trim(s@),
{
    let n = s.unicode_len();
    let mut a: usize = 0;
    while a < n
        invariant
            n == s@.len(),
            a <= n,
            first_non_space(s@, 0) == first_non_space(s@, a as int),
        ensures
            a <= n,
            first_non_space(s@, 0) == a as int,
        decreases n - a,
    {
        let c = s.get_char(a);
        if c == ' ' || c == '\t' || c == '\r' || c == '\n' {
            a += 1;
        } else {
            break;
        }
    }
    let mut b: usize = n;
    while b > 0
        invariant
            n == s@.len(),
            b <= n,
            last_non_space_end(s@, n as int) == last_non_space_end(s@, b as int),
        ensures
            b <= n,
            last_non_space_end(s@, n as int) == b as int,
        decreases b,
    {
        let c = s.get_char(b - 1);
        if c == ' ' || c == '\t' || c == '\r' || c == '\n' {
            b -= 1;
        } else {
            break;
        }
    }
    if a >= b {
        let r = s.substring_char(0, 0);
        proof {
            assert(r@ =~= spec_trim(s@));
        }
        r
    } else {
        let r = s.substring_char(a, b);
        proof {
            assert(r@ =~= spec_trim(s@));
        }
        r
    }
}

} // verus!
