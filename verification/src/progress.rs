use vstd::prelude::*;
use crate::downloader::{DownloadProgress, DownloadStatus, ProgressModel, MAX_PERCENT_MILLI};
use crate::text::{
    contains_sub, find_sub, first_non_space, first_space_from, first_sub, has_sub, spec_trim,
    trim_str,
};

verus! {

// ---------------------------------------------------------------------------
// Percentage tokens.
//
// A percentage token is a maximal run of digits and dots immediately followed
// by `%`; it is well formed when the run holds at least one digit and at most
// one dot. The first well-formed token in the line wins; ill-formed ones are
// skipped.
// ---------------------------------------------------------------------------

pub open spec fn is_digit(c: char) -> bool {
    48 <= (c as u32) && (c as u32) <= 57
}

pub open spec fn is_tokchar(c: char) -> bool {
    is_digit(c) || c == '.'
}

pub open spec fn digit_of(c: char) -> nat {
    ((c as u32) - 48) as nat
}

/// Start of the maximal digit-and-dot run ending just before index `j`.
pub open spec fn run_start(s: Seq<char>, j: int) -> int
    decreases j,
{
    if j <= 0 {
        0
    } else if is_tokchar(s[j - 1]) {
        run_start(s, j - 1)
    } else {
        j
    }
}

pub open spec fn count_dots(s: Seq<char>) -> nat
    decreases s.len(),
{
    if s.len() == 0 {
        0
    } else {
        count_dots(s.drop_last()) + if s.last() == '.' {
            1nat
        } else {
            0nat
        }
    }
}

pub open spec fn has_digit(s: Seq<char>) -> bool {
    exists|i: int| 0 <= i < s.len() && is_digit(s[i])
}

/// Index of the first dot at or after `i`.
pub open spec fn first_dot_from(s: Seq<char>, i: int) -> Option<int>
    decreases s.len() - i,
{
    if i < 0 || i >= s.len() {
        None
    } else if s[i] == '.' {
        Some(i)
    } else {
        first_dot_from(s, i + 1)
    }
}

pub open spec fn first_dot(s: Seq<char>) -> Option<int> {
    first_dot_from(s, 0)
}

/// Value of a sequence of decimal digits.
pub open spec fn digits_val(s: Seq<char>) -> nat
    decreases s.len(),
{
    if s.len() == 0 {
        0
    } else {
        digits_val(s.drop_last()) * 10 + digit_of(s.last())
    }
}

pub open spec fn frac_digit(s: Seq<char>, i: int) -> nat {
    if 0 <= i < s.len() {
        digit_of(s[i])
    } else {
        0
    }
}

/// Value contributed by a fractional part, in thousandths; digits beyond the
/// third are ignored.
pub open spec fn frac_milli(s: Seq<char>) -> nat {
    frac_digit(s, 0) * 100 + frac_digit(s, 1) * 10 + frac_digit(s, 2)
}

/// Value of a well-formed token (the run without its `%`), in thousandths of
/// a percent.
pub open spec fn token_milli(tok: Seq<char>) -> nat {
    match first_dot(tok) {
        None => digits_val(tok) * 1000,
        Some(d) => digits_val(tok.subrange(0, d)) * 1000 + frac_milli(
            tok.subrange(d + 1, tok.len() as int),
        ),
    }
}

/// A well-formed percentage token ends at index `j` (where `s[j]` is the
/// `%`).
pub open spec fn pct_token_at(s: Seq<char>, j: int) -> bool {
    &&& 0 <= j < s.len()
    &&& s[j] == '%'
    &&& has_digit(s.subrange(run_start(s, j), j))
    &&& count_dots(s.subrange(run_start(s, j), j)) <= 1
}

/// Position of the `%` of the first well-formed token at or after `j`.
pub open spec fn first_pct_end_from(s: Seq<char>, j: int) -> Option<int>
    decreases s.len() - j,
{
    if j < 0 || j >= s.len() {
        None
    } else if pct_token_at(s, j) {
        Some(j)
    } else {
        first_pct_end_from(s, j + 1)
    }
}

pub open spec fn first_pct_end(s: Seq<char>) -> Option<int> {
    first_pct_end_from(s, 0)
}

/// The percentage a line reports: the value of its first well-formed token,
/// in thousandths of a percent, unbounded.
pub open spec fn line_percent(s: Seq<char>) -> Option<nat> {
    match first_pct_end(s) {
        None => None,
        Some(j) => Some(token_milli(s.subrange(run_start(s, j), j))),
    }
}

/// Saturation applied to a reported percentage before it is stored.
pub open spec fn clamp_milli(v: nat) -> u64 {
    if v >= MAX_PERCENT_MILLI {
        MAX_PERCENT_MILLI
    } else {
        v as u64
    }
}

proof fn lemma_run_start_props(s: Seq<char>, j: int)
    requires
        0 <= j <= s.len(),
    ensures
        0 <= run_start(s, j) <= j,
        forall|k: int| run_start(s, j) <= k < j ==> is_tokchar(s[k]),
        run_start(s, j) > 0 ==> !is_tokchar(s[run_start(s, j) - 1]),
    decreases j,
{
    if j > 0 && is_tokchar(s[j - 1]) {
        lemma_run_start_props(s, j - 1);
    }
}

proof fn lemma_first_pct_found(s: Seq<char>, j: int)
    requires
        pct_token_at(s, j),
        forall|k: int| 0 <= k < j ==> !pct_token_at(s, k),
    ensures
        first_pct_end(s) == Some(j),
{
    lemma_first_pct_found_from(s, 0, j);
}

proof fn lemma_first_pct_found_from(s: Seq<char>, i: int, j: int)
    requires
        0 <= i <= j,
        pct_token_at(s, j),
        forall|k: int| i <= k < j ==> !pct_token_at(s, k),
    ensures
        first_pct_end_from(s, i) == Some(j),
    decreases j - i,
{
    if i < j {
        lemma_first_pct_found_from(s, i + 1, j);
    }
}

proof fn lemma_first_pct_none(s: Seq<char>, i: int)
    requires
        0 <= i,
        forall|k: int| i <= k ==> !pct_token_at(s, k),
    ensures
        first_pct_end_from(s, i) is None,
    decreases s.len() - i,
{
    if i < s.len() {
        lemma_first_pct_none(s, i + 1);
    }
}

proof fn lemma_one_dot_counts(s: Seq<char>, p: int)
    requires
        0 <= p < s.len(),
        s[p] == '.',
    ensures
        count_dots(s) >= 1,
    decreases s.len(),
{
    if p < s.len() - 1 {
        assert(s.drop_last()[p] == s[p]);
        lemma_one_dot_counts(s.drop_last(), p);
    }
}

proof fn lemma_two_dots_count(s: Seq<char>, p1: int, p2: int)
    requires
        0 <= p1 < p2 < s.len(),
        s[p1] == '.',
        s[p2] == '.',
    ensures
        count_dots(s) >= 2,
    decreases s.len(),
{
    if p2 == s.len() - 1 {
        lemma_one_dot_counts(s.drop_last(), p1);
    } else {
        lemma_two_dots_count(s.drop_last(), p1, p2);
    }
}

proof fn lemma_first_dot_is_first(s: Seq<char>, i: int, d: int)
    requires
        0 <= i,
        first_dot_from(s, i) == Some(d),
    ensures
        i <= d < s.len(),
        s[d] == '.',
        forall|k: int| i <= k < d ==> s[k] != '.',
    decreases s.len() - i,
{
    if i < s.len() && s[i] != '.' {
        lemma_first_dot_is_first(s, i + 1, d);
    }
}

proof fn lemma_first_dot_none(s: Seq<char>, i: int)
    requires
        0 <= i,
        first_dot_from(s, i) is None,
    ensures
        forall|k: int| i <= k < s.len() ==> s[k] != '.',
    decreases s.len() - i,
{
    if i < s.len() {
        lemma_first_dot_none(s, i + 1);
    }
}

// ---------------------------------------------------------------------------
// Executable scanning.
// ---------------------------------------------------------------------------

/// Is this character a digit or a dot?
fn tokchar_exec(c: char) -> (r: bool)
    ensures
        r == is_tokchar(c),
{
    let d = c as u32;
    (48 <= d && d <= 57) || c == '.'
}

/// Start of the maximal digit-and-dot run ending just before `j`.
fn run_start_exec(s: &str, j: usize) -> (r: usize)
    requires
        j <= s@.len(),
    ensures
        r == run_start(s@, j as int),
{
    let mut i = j;
    while i > 0
        invariant
            i <= j <= s@.len(),
            run_start(s@, j as int) == run_start(s@, i as int),
        ensures
            i <= j,
            run_start(s@, j as int) == i as int,
        decreases i,
    {
        let c = s.get_char(i - 1);
        if tokchar_exec(c) {
            i -= 1;
        } else {
            break;
        }
    }
    i
}

/// Count of dots and presence of a digit in `s[i..j]`.
fn run_stats(s: &str, i: usize, j: usize) -> (r: (usize, bool))
    requires
        i <= j <= s@.len(),
    ensures
        r.0 == count_dots(s@.subrange(i as int, j as int)),
        r.1 == has_digit(s@.subrange(i as int, j as int)),
{
    let mut dots: usize = 0;
    let mut dig = false;
    let mut k = i;
    while k < j
        invariant
            i <= k <= j <= s@.len(),
            dots == count_dots(s@.subrange(i as int, k as int)),
            dig == has_digit(s@.subrange(i as int, k as int)),
            dots <= k - i,
        decreases j - k,
    {
        let c = s.get_char(k);
        let ghost pre = s@.subrange(i as int, k as int);
        let ghost post = s@.subrange(i as int, k as int + 1);
        proof {
            assert(post.drop_last() =~= pre);
            assert(post.last() == s@[k as int]);
            assert(has_digit(post) == (has_digit(pre) || is_digit(s@[k as int]))) by {
                if has_digit(pre) {
                    let idx = choose|idx: int| 0 <= idx < pre.len() && is_digit(pre[idx]);
                    assert(is_digit(post[idx]));
                }
                if is_digit(s@[k as int]) {
                    assert(is_digit(post[pre.len() as int]));
                }
                if has_digit(post) {
                    let idx = choose|idx: int| 0 <= idx < post.len() && is_digit(post[idx]);
                    if idx < pre.len() {
                        assert(is_digit(pre[idx]));
                    }
                }
            }
        }
        if c == '.' {
            dots += 1;
        } else {
            let d = c as u32;
            if 48 <= d && d <= 57 {
                dig = true;
            }
        }
        k += 1;
    }
    (dots, dig)
}

/// First dot in `s[i..j]`, as an absolute index.
fn find_dot(s: &str, i: usize, j: usize) -> (r: Option<usize>)
    requires
        i <= j <= s@.len(),
    ensures
        match r {
            Some(d) => i <= d < j && s@[d as int] == '.' && first_dot(
                s@.subrange(i as int, j as int),
            ) == Some(d - i),
            None => first_dot(s@.subrange(i as int, j as int)) is None,
        },
{
    let ghost run = s@.subrange(i as int, j as int);
    let mut k = i;
    while k < j
        invariant
            i <= k <= j <= s@.len(),
            run == s@.subrange(i as int, j as int),
            first_dot_from(run, 0) == first_dot_from(run, k - i),
        ensures
            i <= k <= j,
            first_dot_from(run, 0) == first_dot_from(run, k - i),
            k < j ==> s@[k as int] == '.',
        decreases j - k,
    {
        let c = s.get_char(k);
        proof {
            assert(run[k - i] == s@[k as int]);
        }
        if c == '.' {
            break;
        }
        k += 1;
    }
    if k < j {
        proof {
            assert(first_dot_from(run, k - i) == Some(k - i));
        }
        Some(k)
    } else {
        proof {
            assert(first_dot_from(run, k - i) is None);
        }
        None
    }
}

/// Value of the digit sequence `s[i..j]`, saturated at one million.
fn digits_exec(s: &str, i: usize, j: usize) -> (r: u64)
    requires
        i <= j <= s@.len(),
        forall|k: int| i <= k < j ==> is_digit(s@[k]),
    ensures
        digits_val(s@.subrange(i as int, j as int)) >= 1_000_000 ==> r == 1_000_000,
        digits_val(s@.subrange(i as int, j as int)) < 1_000_000 ==> r == digits_val(
            s@.subrange(i as int, j as int),
        ),
{
    let mut acc: u64 = 0;
    let mut k = i;
    while k < j
        invariant
            i <= k <= j <= s@.len(),
            forall|k2: int| i <= k2 < j ==> is_digit(s@[k2]),
            acc <= 1_000_000,
            digits_val(s@.subrange(i as int, k as int)) >= 1_000_000 ==> acc == 1_000_000,
            digits_val(s@.subrange(i as int, k as int)) < 1_000_000 ==> acc == digits_val(
                s@.subrange(i as int, k as int),
            ),
        decreases j - k,
    {
        let c = s.get_char(k);
        let d = (c as u32 - 48) as u64;
        let ghost pre = s@.subrange(i as int, k as int);
        let ghost post = s@.subrange(i as int, k as int + 1);
        proof {
            assert(post.drop_last() =~= pre);
            assert(post.last() == s@[k as int]);
            assert(is_digit(s@[k as int]));
            assert(digits_val(post) == digits_val(pre) * 10 + digit_of(s@[k as int]));
        }
        let t = acc * 10 + d;
        acc = if t >= 1_000_000 {
            1_000_000
        } else {
            t
        };
        k += 1;
    }
    acc
}

/// Extracts the first well-formed percentage token from a line, returning
/// its value in thousandths of a percent, saturated.
pub fn extract_percentage(line: &str) -> (r: Option<u64>)
    ensures
        match line_percent(line@) {
            None => r is None,
            Some(v) => r == Some(clamp_milli(v)),
        },
{
    let n = line.unicode_len();
    let mut j: usize = 0;
    while j < n
        invariant
            j <= n,
            n == line@.len(),
            forall|j2: int| 0 <= j2 < j ==> !pct_token_at(line@, j2),
        ensures
            j <= n,
            n == line@.len(),
            forall|j2: int| 0 <= j2 < j ==> !pct_token_at(line@, j2),
            j < n ==> pct_token_at(line@, j as int),
        decreases n - j,
    {
        let c = line.get_char(j);
        if c == '%' {
            let i = run_start_exec(line, j);
            proof {
                lemma_run_start_props(line@, j as int);
            }
            let (dots, hasdig) = run_stats(line, i, j);
            if hasdig && dots <= 1 {
                break;
            }
            proof {
                assert(!pct_token_at(line@, j as int));
            }
        } else {
            proof {
                assert(!pct_token_at(line@, j as int));
            }
        }
        j += 1;
    }
    if j >= n {
        proof {
            lemma_first_pct_none(line@, 0);
        }
        return None;
    }
    proof {
        lemma_first_pct_found(line@, j as int);
    }
    let i = run_start_exec(line, j);
    proof {
        lemma_run_start_props(line@, j as int);
    }
    let v = token_value_exec(line, i, j);
    Some(v)
}

/// Value of the well-formed token occupying `s[i..j]` (saturated), where the
/// run holds only digits and at most one dot.
fn token_value_exec(s: &str, i: usize, j: usize) -> (r: u64)
    requires
        i <= j <= s@.len(),
        forall|k: int| i <= k < j ==> is_tokchar(s@[k]),
        count_dots(s@.subrange(i as int, j as int)) <= 1,
    ensures
        r == clamp_milli(token_milli(s@.subrange(i as int, j as int))),
{
    let ghost tok = s@.subrange(i as int, j as int);
    let fd = find_dot(s, i, j);
    let int_end = match fd {
        Some(d) => d,
        None => j,
    };
    proof {
        assert(s@.subrange(i as int, int_end as int) =~= tok.subrange(0, int_end - i));
        match fd {
            Some(d) => {
                lemma_first_dot_is_first(tok, 0, d - i);
                assert forall|k: int| i <= k < int_end implies is_digit(s@[k]) by {
                    assert(tok[k - i] == s@[k]);
                    assert(tok[k - i] != '.');
                }
            },
            None => {
                lemma_first_dot_none(tok, 0);
                assert forall|k: int| i <= k < int_end implies is_digit(s@[k]) by {
                    assert(tok[k - i] == s@[k]);
                    assert(tok[k - i] != '.');
                }
            },
        }
    }
    let int_acc = digits_exec(s, i, int_end);
    let mut frac: u64 = 0;
    if let Some(d) = fd {
        let ghost fr = tok.subrange(d - i + 1, tok.len() as int);
        proof {
            // after the single dot, every run character is a digit
            assert forall|k: int| 0 <= k < fr.len() implies is_digit(fr[k]) by {
                let abs = d - i + 1 + k + i;
                assert(fr[k] == tok[d - i + 1 + k]);
                assert(is_tokchar(tok[d - i + 1 + k]));
                if tok[d - i + 1 + k] == '.' {
                    lemma_two_dots_count(tok, d - i, d - i + 1 + k);
                }
            }
        }
        if d + 1 < j {
            let c = s.get_char(d + 1);
            proof {
                assert(fr[0] == tok[d - i + 1] == s@[d + 1]);
            }
            frac += ((c as u32 - 48) as u64) * 100;
        }
        if j - d > 2 {
            let c = s.get_char(d + 2);
            proof {
                assert(fr[1] == tok[d - i + 2] == s@[d + 2]);
            }
            frac += ((c as u32 - 48) as u64) * 10;
        }
        if j - d > 3 {
            let c = s.get_char(d + 3);
            proof {
                assert(fr[2] == tok[d - i + 3] == s@[d + 3]);
            }
            frac += (c as u32 - 48) as u64;
        }
        proof {
            assert(frac == frac_milli(fr));
            assert(frac < 1000);
            assert(token_milli(tok) == digits_val(tok.subrange(0, d - i)) * 1000 + frac_milli(fr));
        }
    } else {
        proof {
            assert(token_milli(tok) == digits_val(tok.subrange(0, int_end - i)) * 1000);
        }
    }
    if int_acc >= 1_000_000 {
        proof {
            let iv = digits_val(tok.subrange(0, int_end - i));
            assert(iv >= 1_000_000);
            assert(iv * 1000 >= 1_000_000_000) by (nonlinear_arith)
                requires
                    iv >= 1_000_000,
            ;
            assert(token_milli(tok) >= MAX_PERCENT_MILLI);
        }
        MAX_PERCENT_MILLI
    } else {
        proof {
            let iv = digits_val(tok.subrange(0, int_end - i));
            assert(iv == int_acc);
            assert(iv * 1000 + frac < 1_000_000_000);
        }
        int_acc * 1000 + frac
    }
}

// ---------------------------------------------------------------------------
// Whole-line parsing.
// ---------------------------------------------------------------------------

/// A trimmed line announces the post-processing phase when it carries one of
/// these marker substrings (case-sensitive).
pub open spec fn marker_line(t: Seq<char>) -> bool {
    has_sub(t, "[ffmpeg]"@) || has_sub(t, "Converting"@) || has_sub(t, "Deleting"@)
}

/// The substring between the first occurrence of `pat` and the next space,
/// trimmed; absent when `pat` does not occur or no space follows it.
pub open spec fn spec_field_after(t: Seq<char>, pat: Seq<char>) -> Option<Seq<char>> {
    match first_sub(t, pat) {
        None => None,
        Some(p) => {
            let rest = t.subrange(p + pat.len(), t.len() as int);
            match first_sub(rest, " "@) {
                None => None,
                Some(sp) => Some(spec_trim(rest.subrange(0, sp))),
            }
        },
    }
}

/// The reported total size: between `" of "` and the next space.
pub open spec fn spec_total_size(t: Seq<char>) -> Option<Seq<char>> {
    spec_field_after(t, " of "@)
}

/// The reported transfer speed: between `" at "` and the next space.
pub open spec fn spec_speed(t: Seq<char>) -> Option<Seq<char>> {
    spec_field_after(t, " at "@)
}

/// The reported time remaining: the first blank-delimited word after
/// `"ETA "`; absent when nothing but spaces follows.
pub open spec fn spec_eta(t: Seq<char>) -> Option<Seq<char>> {
    match first_sub(t, "ETA "@) {
        None => None,
        Some(p) => {
            let rest = t.subrange(p + "ETA "@.len(), t.len() as int);
            let a = first_non_space(rest, 0);
            if a >= rest.len() {
                None
            } else {
                Some(rest.subrange(a, first_space_from(rest, a)))
            }
        },
    }
}

/// What one line of tool output means, with `raw` trimmed first: a marker
/// line is the 95% Processing sentinel; otherwise the first well-formed
/// percentage token decides (under 100% downloading, at or over it
/// processing) and the size, speed and ETA hints are carried along; a line
/// with neither yields nothing.
pub open spec fn spec_parse_line(raw: Seq<char>, id: Seq<char>) -> Option<ProgressModel> {
    let t = spec_trim(raw);
    if marker_line(t) {
        Some(
            (ProgressModel {
                id,
                status: DownloadStatus::Processing,
                progress: 95_000u64,
                speed: None,
                eta: None,
                downloaded: None,
                total_size: None,
                error: None,
            }),
        )
    } else {
        match line_percent(t) {
            None => None,
            Some(v) => Some(
                (ProgressModel {
                    id,
                    status: if v >= 100_000 {
                        DownloadStatus::Processing
                    } else {
                        DownloadStatus::Downloading
                    },
                    progress: clamp_milli(v),
                    speed: spec_speed(t),
                    eta: spec_eta(t),
                    downloaded: None,
                    total_size: spec_total_size(t),
                    error: None,
                }),
            ),
        }
    }
}

/// The substring between the first occurrence of `pat` and the next space,
/// trimmed.
fn field_after(t: &str, pat: &str) -> (r: Option<String>)
    ensures
        match r {
            None => spec_field_after(t@, pat@) is None,
            Some(x) => spec_field_after(t@, pat@) == Some(x@),
        },
{
    let n = t.unicode_len();
    let m = pat.unicode_len();
    match find_sub(t, pat) {
        None => None,
        Some(p) => {
            let rest = t.substring_char(p + m, n);
            match find_sub(rest, " ") {
                None => None,
                Some(sp) => {
                    let piece = rest.substring_char(0, sp);
                    let tr = trim_str(piece);
                    Some(tr.to_owned())
                },
            }
        },
    }
}

/// The first blank-delimited word after `"ETA "`.
fn eta_after(t: &str) -> (r: Option<String>)
    ensures
        match r {
            None => spec_eta(t@) is None,
            Some(x) => spec_eta(t@) == Some(x@),
        },
{
    let pat = "ETA ";
    let n = t.unicode_len();
    let m = pat.unicode_len();
    match find_sub(t, pat) {
        None => None,
        Some(p) => {
            let rest = t.substring_char(p + m, n);
            let rn = rest.unicode_len();
            let mut a: usize = 0;
            while a < rn
                invariant
                    a <= rn,
                    rn == rest@.len(),
                    first_non_space(rest@, 0) == first_non_space(rest@, a as int),
                ensures
                    a <= rn,
                    rn == rest@.len(),
                    first_non_space(rest@, 0) == a as int,
                decreases rn - a,
            {
                let c = rest.get_char(a);
                if c == ' ' || c == '\t' || c == '\r' || c == '\n' {
                    a += 1;
                } else {
                    break;
                }
            }
            if a >= rn {
                return None;
            }
            let mut b: usize = a;
            while b < rn
                invariant
                    a <= b <= rn,
                    rn == rest@.len(),
                    first_space_from(rest@, a as int) == first_space_from(rest@, b as int),
                ensures
                    a <= b <= rn,
                    rn == rest@.len(),
                    first_space_from(rest@, a as int) == b as int,
                decreases rn - b,
            {
                let c = rest.get_char(b);
                if c == ' ' || c == '\t' || c == '\r' || c == '\n' {
                    break;
                } else {
                    b += 1;
                }
            }
            Some(rest.substring_char(a, b).to_owned())
        },
    }
}

/// Turns one line of tool output into at most one progress event for job
/// `id`, exactly as `spec_parse_line` describes.
pub fn parse_progress_line(line: &str, id: &str) -> (r: Option<DownloadProgress>)
    ensures
        match r {
            None => spec_parse_line(line@, id@) is None,
            Some(ev) => spec_parse_line(line@, id@) == Some(ev@),
        },
{
    let t = trim_str(line);
    if contains_sub(t, "[ffmpeg]") || contains_sub(t, "Converting") || contains_sub(t, "Deleting") {
        let ev = DownloadProgress {
            id: id.to_owned(),
            status: DownloadStatus::Processing,
            progress: 95_000,
            speed: None,
            eta: None,
            downloaded: None,
            total_size: None,
            error: None,
        };
        proof {
            assert(marker_line(t@));
            assert(ev@ =~= spec_parse_line(line@, id@)->Some_0);
        }
        return Some(ev);
    }
    match extract_percentage(t) {
        None => None,
        Some(p) => {
            let status = if p >= 100_000 {
                DownloadStatus::Processing
            } else {
                DownloadStatus::Downloading
            };
            let speed = field_after(t, " at ");
            let total_size = field_after(t, " of ");
            let eta = eta_after(t);
            let ev = DownloadProgress {
                id: id.to_owned(),
                status,
                progress: p,
                speed,
                eta,
                downloaded: None,
                total_size,
                error: None,
            };
            proof {
                let v = line_percent(t@)->Some_0;
                assert(clamp_milli(v) >= 100_000 <==> v >= 100_000);
                assert(ev@ =~= spec_parse_line(line@, id@)->Some_0);
            }
            Some(ev)
        },
    }
}

// ---------------------------------------------------------------------------
// Laws of the parser.
// ---------------------------------------------------------------------------

/// Law: a line whose trimmed form carries a well-formed percentage token and
/// no post-processing marker yields an event whose status is Downloading
/// below 100% and Processing at or above it, with the token's (saturated)
/// value as its progress.
pub proof fn lemma_percent_line_status(raw: Seq<char>, id: Seq<char>, v: nat)
    requires
        !marker_line(spec_trim(raw)),
        line_percent(spec_trim(raw)) == Some(v),
    ensures
        spec_parse_line(raw, id) matches Some(ev) && ev.progress == clamp_milli(v) && ev.status
            == (if v >= 100_000 {
            DownloadStatus::Processing
        } else {
            DownloadStatus::Downloading
        }),
{
}

/// Law: a post-processing marker wins over any numeric content on the line:
/// the event is Processing at the fixed 95% sentinel and carries no
/// optional fields.
pub proof fn lemma_marker_line_event(raw: Seq<char>, id: Seq<char>)
    requires
        marker_line(spec_trim(raw)),
    ensures
        spec_parse_line(raw, id) == Some(
            (ProgressModel {
                id,
                status: DownloadStatus::Processing,
                progress: 95_000u64,
                speed: None,
                eta: None,
                downloaded: None,
                total_size: None,
                error: None,
            }),
        ),
{
}

/// Law: a line with neither a well-formed percentage token nor a
/// post-processing marker yields no event at all.
pub proof fn lemma_silent_line(raw: Seq<char>, id: Seq<char>)
    requires
        !marker_line(spec_trim(raw)),
        line_percent(spec_trim(raw)) is None,
    ensures
        spec_parse_line(raw, id) is None,
{
}

} // verus!
