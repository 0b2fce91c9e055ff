//! Character-level analysis of a publication's text: trimming, length,
//! letter case, links and repeated characters.
use vstd::prelude::*;

verus! {

// ---------------------------------------------------------------------------
// Unicode character properties, as decided by the standard library.
// ---------------------------------------------------------------------------

/// Whether `c` has the Unicode `White_Space` property, which `char::is_whitespace`
/// decides: the 25 code points listed for it in the Unicode `PropList.txt`.
pub open spec fn unicode_white_space(c: char) -> bool {
    let u = c as u32;
    ||| 0x09 <= u <= 0x0d
    ||| u == 0x20
    ||| u == 0x85
    ||| u == 0xa0
    ||| u == 0x1680
    ||| 0x2000 <= u <= 0x200a
    ||| u == 0x2028
    ||| u == 0x2029
    ||| u == 0x202f
    ||| u == 0x205f
    ||| u == 0x3000
}

/// Whether `c` has the Unicode `Alphabetic` property, as `char::is_alphabetic` decides it.
pub uninterp spec fn unicode_alphabetic(c: char) -> bool;

/// Whether `c` has the Unicode `Uppercase` property, as `char::is_uppercase` decides it.
pub uninterp spec fn unicode_uppercase(c: char) -> bool;

/// Calls `char::is_whitespace`, which the documentation defines as the Unicode
/// `White_Space` property; the contract spells that set of code points out.
#[verifier::external_body]
fn is_whitespace(c: char) -> (r: bool)
    ensures
        r == unicode_white_space(c),
{
    c.is_whitespace()
}

/// Calls `char::is_alphabetic`. The contract claims only that the answer is a fixed
/// property of the character (the Unicode `Alphabetic` property).
#[verifier::external_body]
fn is_alphabetic(c: char) -> (r: bool)
    ensures
        r == unicode_alphabetic(c),
{
    c.is_alphabetic()
}

/// Calls `char::is_uppercase`. The contract claims only that the answer is a fixed
/// property of the character (the Unicode `Uppercase` property).
#[verifier::external_body]
fn is_uppercase(c: char) -> (r: bool)
    ensures
        r == unicode_uppercase(c),
{
    c.is_uppercase()
}

// ---------------------------------------------------------------------------
// Characters of a string.
// ---------------------------------------------------------------------------

/// The characters of `s`, in order.
pub fn chars_of(s: &str) -> (v: Vec<char>)
    ensures
        v@ == s@,
{
    let mut v: Vec<char> = Vec::new();
    for c in it: s.chars()
        invariant
            v@ == it.seq().take(it.index() as int),
    {
        v.push(c);
    }
    v
}

// ---------------------------------------------------------------------------
// Trimming.
// ---------------------------------------------------------------------------

/// `s` without its leading white space.
pub open spec fn trim_start(s: Seq<char>) -> Seq<char>
    decreases s.len(),
{
    if s.len() > 0 && unicode_white_space(s[0]) {
        trim_start(s.drop_first())
    } else {
        s
    }
}

/// `s` without its trailing white space.
pub open spec fn trim_end(s: Seq<char>) -> Seq<char>
    decreases s.len(),
{
    if s.len() > 0 && unicode_white_space(s.last()) {
        trim_end(s.drop_last())
    } else {
        s
    }
}

/// `s` without its leading and trailing white space (what `str::trim` returns).
pub open spec fn trimmed(s: Seq<char>) -> Seq<char> {
    trim_end(trim_start(s))
}

/// The bounds `(lo, hi)` of `text` once its leading and trailing white space
/// is left out.
pub fn trim_bounds(text: &Vec<char>) -> (r: (usize, usize))
    ensures
        r.0 <= r.1 <= text@.len(),
        text@.subrange(r.0 as int, r.1 as int) == trimmed(text@),
{
    let n = text.len();
    let mut lo: usize = 0;
    assert(text@.subrange(0, n as int) =~= text@);
    while lo < n && is_whitespace(text[lo])
        invariant
            lo <= n == text@.len(),
            trim_start(text@) == trim_start(text@.subrange(lo as int, n as int)),
        decreases n - lo,
    {
        assert(text@.subrange(lo as int, n as int).drop_first() =~= text@.subrange(
            lo + 1,
            n as int,
        ));
        lo = lo + 1;
    }
    assert(trim_start(text@) == text@.subrange(lo as int, n as int));
    let mut hi: usize = n;
    while hi > lo && is_whitespace(text[hi - 1])
        invariant
            lo <= hi <= n == text@.len(),
            trim_start(text@) == text@.subrange(lo as int, n as int),
            trimmed(text@) == trim_end(text@.subrange(lo as int, hi as int)),
        decreases hi,
    {
        assert(text@.subrange(lo as int, hi as int).drop_last() =~= text@.subrange(
            lo as int,
            hi - 1,
        ));
        hi = hi - 1;
    }
    (lo, hi)
}

/// A copy of `text` without its leading and trailing white space.
pub fn trim(text: &Vec<char>) -> (r: Vec<char>)
    ensures
        r@ == trimmed(text@),
{
    let (lo, hi) = trim_bounds(text);
    let mut r: Vec<char> = Vec::new();
    let mut i = lo;
    while i < hi
        invariant
            lo <= i <= hi <= text@.len(),
            r@ == text@.subrange(lo as int, i as int),
        decreases hi - i,
    {
        r.push(text[i]);
        assert(r@ =~= text@.subrange(lo as int, i + 1));
        i = i + 1;
    }
    r
}

// ---------------------------------------------------------------------------
// Repeated characters.
// ---------------------------------------------------------------------------

/// Whether the `len` characters of `s` from position `start` lie within `s`
/// and are all one same character.
pub open spec fn repeats_at(s: Seq<char>, start: int, len: int) -> bool {
    &&& 0 <= start
    &&& 0 <= len
    &&& start + len <= s.len()
    &&& forall|k: int| start <= k < start + len ==> s[k] == s[start]
}

/// Whether `r` is the length of the longest stretch of `s` that repeats one
/// single character: some stretch has that length, none is one longer.
pub open spec fn is_longest_run(s: Seq<char>, r: int) -> bool {
    &&& exists|i: int| #[trigger] repeats_at(s, i, r)
    &&& forall|i: int| !#[trigger] repeats_at(s, i, r + 1)
}

/// Length of the longest stretch of `s` that repeats one single character.
pub open spec fn longest_repetition(s: Seq<char>) -> nat {
    choose|r: nat| is_longest_run(s, r as int)
}

/// At most one length is the longest.
pub proof fn lemma_longest_run_unique(s: Seq<char>, r1: int, r2: int)
    requires
        is_longest_run(s, r1),
        is_longest_run(s, r2),
    ensures
        r1 == r2,
{
    if r1 < r2 {
        let i = choose|i: int| #[trigger] repeats_at(s, i, r2);
        assert(repeats_at(s, i, r1 + 1));
    } else if r2 < r1 {
        let i = choose|i: int| #[trigger] repeats_at(s, i, r1);
        assert(repeats_at(s, i, r2 + 1));
    }
}

/// Length of the longest stretch of `text` that repeats one single character
/// (`"aaaaaaaaaa"` gives 10; an empty text gives 0).
pub fn max_repetition(text: &Vec<char>) -> (r: usize)
    ensures
        r == longest_repetition(text@),
        is_longest_run(text@, r as int),
{
    let ghost s = text@;
    let n = text.len();
    let mut max_run: usize = 0;
    let mut current_run: usize = 0;
    let mut i: usize = 0;
    assert(repeats_at(s, 0, 0));
    while i < n
        invariant
            n == s.len(),
            s == text@,
            i <= n,
            current_run <= max_run <= i,
            i == 0 ==> current_run == 0,
            i > 0 ==> {
                &&& current_run >= 1
                &&& repeats_at(s, i - current_run, current_run as int)
                &&& (current_run == i || s[i - current_run - 1] != s[i - 1])
            },
            exists|j: int| j + max_run <= i && #[trigger] repeats_at(s, j, max_run as int),
            forall|j: int| j + max_run + 1 <= i ==> !#[trigger] repeats_at(s, j, max_run + 1),
        decreases n - i,
    {
        let ghost old_max = max_run;
        let ghost old_run = current_run;
        if i > 0 && text[i] == text[i - 1] {
            current_run = current_run + 1;
        } else {
            current_run = 1;
        }
        assert(repeats_at(s, i + 1 - current_run, current_run as int)) by {
            if current_run > 1 {
                assert(repeats_at(s, i - old_run, old_run as int));
            }
        }
        assert(current_run == i + 1 || s[i - current_run] != s[i as int]);
        if current_run > max_run {
            max_run = current_run;
        }
        assert forall|j: int| j + max_run + 1 <= i + 1 implies !#[trigger] repeats_at(
            s,
            j,
            max_run + 1,
        ) by {
            if j + max_run + 1 == i + 1 {
                // a longer stretch ending here would extend the current one
                if repeats_at(s, j, max_run + 1) {
                    assert(s[i - current_run] == s[j]);
                    assert(s[i as int] == s[j]);
                }
            } else if repeats_at(s, j, max_run + 1) {
                assert(repeats_at(s, j, old_max + 1));
            }
        }
        i = i + 1;
    }
    proof {
        assert(is_longest_run(s, max_run as int));
        lemma_longest_run_unique(s, max_run as int, longest_repetition(s) as int);
    }
    max_run
}

// ---------------------------------------------------------------------------
// Links.
// ---------------------------------------------------------------------------

/// Whether `s` begins with `p`.
pub open spec fn begins_with(s: Seq<char>, p: Seq<char>) -> bool {
    p.len() <= s.len() && s.take(p.len() as int) == p
}

/// Number of disjoint occurrences of the nonempty pattern `p` in `s`, found from
/// left to right (what `str::matches(..).count()` gives).
pub open spec fn count_matches(s: Seq<char>, p: Seq<char>) -> nat
    decreases s.len(),
{
    if p.len() == 0 || s.len() < p.len() {
        0
    } else if begins_with(s, p) {
        1 + count_matches(s.skip(p.len() as int), p)
    } else {
        count_matches(s.drop_first(), p)
    }
}

/// Disjoint occurrences of `p` cannot take more room than `s` has.
proof fn lemma_count_matches_bound(s: Seq<char>, p: Seq<char>)
    ensures
        count_matches(s, p) * p.len() <= s.len(),
    decreases s.len(),
{
    let len = p.len();
    if p.len() == 0 || s.len() < p.len() {
        assert(count_matches(s, p) == 0);
        assert(0 * len == 0) by (nonlinear_arith);
    } else if begins_with(s, p) {
        let rest = s.skip(p.len() as int);
        lemma_count_matches_bound(rest, p);
        let c = count_matches(rest, p);
        assert(count_matches(s, p) == 1 + c);
        assert((1 + c) * len == len + c * len) by (nonlinear_arith);
    } else {
        lemma_count_matches_bound(s.drop_first(), p);
        assert(count_matches(s, p) == count_matches(s.drop_first(), p));
    }
}

/// Whether `text` holds `pat` at position `at`.
fn occurs_at(text: &Vec<char>, pat: &Vec<char>, at: usize) -> (r: bool)
    requires
        at <= text@.len(),
    ensures
        r == begins_with(text@.skip(at as int), pat@),
{
    if pat.len() > text.len() - at {
        return false;
    }
    let mut k: usize = 0;
    while k < pat.len()
        invariant
            at + pat@.len() <= text@.len(),
            pat@.len() == pat.len(),
            text@.len() == text.len(),
            k <= pat@.len(),
            forall|m: int| 0 <= m < k ==> text@[at + m] == pat@[m],
        decreases pat@.len() - k,
    {
        if text[at + k] != pat[k] {
            assert(text@.skip(at as int).take(pat@.len() as int)[k as int] != pat@[k as int]);
            return false;
        }
        k = k + 1;
    }
    assert(text@.skip(at as int).take(pat@.len() as int) =~= pat@);
    true
}

/// Number of disjoint occurrences of the nonempty pattern `pat` in `text`.
pub fn count_occurrences(text: &Vec<char>, pat: &Vec<char>) -> (r: usize)
    requires
        pat@.len() > 0,
    ensures
        r == count_matches(text@, pat@),
{
    let n = text.len();
    let m = pat.len();
    let mut count: usize = 0;
    let mut i: usize = 0;
    assert(text@.skip(0) =~= text@);
    while i < n
        invariant
            n == text@.len(),
            m == pat@.len() > 0,
            i <= n,
            count <= i,
            count + count_matches(text@.skip(i as int), pat@) == count_matches(text@, pat@),
        decreases n - i,
    {
        let ghost rest = text@.skip(i as int);
        if occurs_at(text, pat, i) {
            assert(rest.skip(m as int) =~= text@.skip(i + m));
            count = count + 1;
            i = i + m;
        } else {
            assert(rest.drop_first() =~= text@.skip(i + 1));
            i = i + 1;
        }
    }
    assert(count_matches(text@.skip(i as int), pat@) == 0);
    count
}

/// Number of links in `s`: occurrences of `http://` plus occurrences of `https://`.
pub open spec fn link_count(s: Seq<char>) -> nat {
    count_matches(s, "http://"@) + count_matches(s, "https://"@)
}

/// Number of links in `text`: occurrences of `http://` plus occurrences of `https://`.
pub fn count_links(text: &Vec<char>) -> (r: usize)
    ensures
        r == link_count(text@),
{
    let http = chars_of("http://");
    let https = chars_of("https://");
    proof {
        reveal_strlit("http://");
        reveal_strlit("https://");
    }
    let len = text.len();
    let a = count_occurrences(text, &http);
    let b = count_occurrences(text, &https);
    proof {
        lemma_count_matches_bound(text@, http@);
        lemma_count_matches_bound(text@, https@);
        let n = text@.len();
        let lh = http@.len();
        let lhs = https@.len();
        assert(lh == 7 && lhs == 8);
        assert(a + b <= n) by (nonlinear_arith)
            requires
                a * lh <= n,
                b * lhs <= n,
                lh == 7,
                lhs == 8,
        ;
    }
    assert(a + b <= len);
    a + b
}

// ---------------------------------------------------------------------------
// Letters and capitals.
// ---------------------------------------------------------------------------

/// Number of alphabetic characters in `s`.
pub open spec fn letter_count(s: Seq<char>) -> nat
    decreases s.len(),
{
    if s.len() == 0 {
        0
    } else {
        letter_count(s.drop_last()) + if unicode_alphabetic(s.last()) {
            1nat
        } else {
            0nat
        }
    }
}

/// Number of alphabetic characters of `s` that are uppercase.
pub open spec fn capital_count(s: Seq<char>) -> nat
    decreases s.len(),
{
    if s.len() == 0 {
        0
    } else {
        capital_count(s.drop_last()) + if unicode_alphabetic(s.last()) && unicode_uppercase(
            s.last(),
        ) {
            1nat
        } else {
            0nat
        }
    }
}

proof fn lemma_capitals_among_letters(s: Seq<char>)
    ensures
        capital_count(s) <= letter_count(s) <= s.len(),
    decreases s.len(),
{
    if s.len() > 0 {
        lemma_capitals_among_letters(s.drop_last());
    }
}

/// The number of letters of `text` and, among them, the number of capitals.
pub fn letter_counts(text: &Vec<char>) -> (r: (usize, usize))
    ensures
        r.0 == letter_count(text@),
        r.1 == capital_count(text@),
{
    let n = text.len();
    let mut letters: usize = 0;
    let mut capitals: usize = 0;
    let mut i: usize = 0;
    while i < n
        invariant
            n == text@.len(),
            i <= n,
            letters == letter_count(text@.take(i as int)),
            capitals == capital_count(text@.take(i as int)),
        decreases n - i,
    {
        proof {
            lemma_capitals_among_letters(text@.take(i as int));
        }
        let c = text[i];
        assert(text@.take(i + 1).drop_last() =~= text@.take(i as int));
        if is_alphabetic(c) {
            letters = letters + 1;
            if is_uppercase(c) {
                capitals = capitals + 1;
            }
        }
        i = i + 1;
    }
    assert(text@.take(n as int) =~= text@);
    (letters, capitals)
}

} // verus!
