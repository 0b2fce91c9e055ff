//! Properties of the library as a whole, over several calls.
use std::collections::hash_map::DefaultHasher;
use vstd::prelude::*;
use vstd::std_specs::hash::DefaultHasherAdditionalSpecFns;

use crate::config::PurityConfig;
use crate::fingerprint::fingerprint;
use crate::fingerprint::lowercase;
use crate::fingerprint::str_hash_writes;
use crate::guard::author_reset;
use crate::guard::drop_expired;
use crate::guard::empty_history;
use crate::guard::evaluated;
use crate::guard::history_in;
use crate::guard::window_start;
use crate::guard::GuardView;
use crate::text::capital_count;
use crate::text::count_matches;
use crate::text::is_longest_run;
use crate::text::longest_repetition;
use crate::text::repeats_at;
use crate::text::letter_count;
use crate::text::trim_end;
use crate::text::trim_start;
use crate::text::trimmed;
use crate::text::unicode_alphabetic;
use crate::text::unicode_uppercase;
use crate::text::unicode_white_space;
use crate::verdict::duplicate_label;
use crate::verdict::label_if;
use crate::verdict::links_label;
use crate::verdict::quality_of;
use crate::verdict::rate_label;
use crate::verdict::repetition_label;
use crate::verdict::short_label;
use crate::verdict::shouting_label;
use crate::verdict::PurityVerdict;
use crate::verdict::QualityVerdict;

verus! {

/// Whether every character of `w` is white space.
pub open spec fn all_white_space(w: Seq<char>) -> bool {
    forall|i: int| 0 <= i < w.len() ==> unicode_white_space(#[trigger] w[i])
}

proof fn lemma_trim_start_skips_white(w: Seq<char>, s: Seq<char>)
    requires
        all_white_space(w),
    ensures
        trim_start(w + s) == trim_start(s),
    decreases w.len(),
{
    if w.len() > 0 {
        assert((w + s)[0] == w[0]);
        assert((w + s).drop_first() =~= w.drop_first() + s);
        lemma_trim_start_skips_white(w.drop_first(), s);
    } else {
        assert(w + s =~= s);
    }
}

proof fn lemma_trim_end_skips_white(s: Seq<char>, w: Seq<char>)
    requires
        all_white_space(w),
    ensures
        trim_end(s + w) == trim_end(s),
    decreases w.len(),
{
    if w.len() > 0 {
        assert((s + w).last() == w.last());
        assert((s + w).drop_last() =~= s + w.drop_last());
        lemma_trim_end_skips_white(s, w.drop_last());
    } else {
        assert(s + w =~= s);
    }
}

proof fn lemma_trim_start_append(s: Seq<char>, w: Seq<char>)
    ensures
        trim_start(s).len() > 0 ==> trim_start(s + w) == trim_start(s) + w,
        trim_start(s).len() == 0 ==> trim_start(s + w) == trim_start(w),
    decreases s.len(),
{
    if s.len() == 0 {
        assert(s + w =~= w);
    } else {
        assert((s + w)[0] == s[0]);
        if unicode_white_space(s[0]) {
            assert((s + w).drop_first() =~= s.drop_first() + w);
            lemma_trim_start_append(s.drop_first(), w);
        }
    }
}

proof fn lemma_trimmed_ignores_white(before: Seq<char>, content: Seq<char>, after: Seq<char>)
    requires
        all_white_space(before),
        all_white_space(after),
    ensures
        trimmed(before + content + after) == trimmed(content),
{
    assert(before + content + after =~= before + (content + after));
    lemma_trim_start_skips_white(before, content + after);
    lemma_trim_start_append(content, after);
    if trim_start(content).len() > 0 {
        lemma_trim_end_skips_white(trim_start(content), after);
    } else {
        lemma_trim_start_skips_white(after, Seq::empty());
        assert(after + Seq::<char>::empty() =~= after);
        assert(trim_start(content) =~= Seq::<char>::empty());
    }
}

/// Whether `core` neither starts nor ends with white space.
pub open spec fn bare(core: Seq<char>) -> bool {
    core.len() > 0 ==> !unicode_white_space(core[0]) && !unicode_white_space(core.last())
}

/// Trimming `before + core + after`, where `before` and `after` are white space
/// and `core` neither starts nor ends with white space, gives `core` whole.
proof fn lemma_trimmed_core(before: Seq<char>, core: Seq<char>, after: Seq<char>)
    requires
        all_white_space(before),
        all_white_space(after),
        bare(core),
    ensures
        trimmed(before + core + after) == core,
{
    lemma_trimmed_ignores_white(before, core, after);
    assert(trim_start(core) == core);
    assert(trim_end(core) == core);
}

/// White space added at either end of a publication does not change its
/// fingerprint.
pub proof fn law_fingerprint_ignores_surrounding_white_space(
    before: Seq<char>,
    content: Seq<char>,
    after: Seq<char>,
)
    requires
        all_white_space(before),
        all_white_space(after),
    ensures
        fingerprint(before + content + after) == fingerprint(content),
{
    lemma_trimmed_ignores_white(before, content, after);
}

/// The fingerprint of a publication is the digest of its whole text once the
/// white space around it is dropped and it is lowercased: every character of
/// `core`, from the first to the last, goes into the hash.
pub proof fn law_fingerprint_digests_whole_trimmed_text(
    before: Seq<char>,
    core: Seq<char>,
    after: Seq<char>,
)
    requires
        all_white_space(before),
        all_white_space(after),
        bare(core),
    ensures
        fingerprint(before + core + after) == DefaultHasher::spec_finish(
            str_hash_writes(lowercase(core)),
        ),
{
    lemma_trimmed_core(before, core, after);
}

/// The predicate "is a letter" (Unicode `Alphabetic`).
pub open spec fn is_letter() -> spec_fn(char) -> bool {
    |c: char| unicode_alphabetic(c)
}

/// The predicate "is a capital" (Unicode `Uppercase`).
pub open spec fn is_capital() -> spec_fn(char) -> bool {
    |c: char| unicode_uppercase(c)
}

proof fn lemma_counts_are_filters(s: Seq<char>)
    ensures
        letter_count(s) == s.filter(is_letter()).len(),
        capital_count(s) == s.filter(is_letter()).filter(is_capital()).len(),
    decreases s.len(),
{
    reveal(Seq::filter);
    if s.len() > 0 {
        let d = s.drop_last();
        lemma_counts_are_filters(d);
        assert(s.filter(is_letter()) == if unicode_alphabetic(s.last()) {
            d.filter(is_letter()).push(s.last())
        } else {
            d.filter(is_letter())
        });
        d.filter(is_letter()).lemma_filter_push(s.last(), is_capital());
    }
}

/// The text signals are measured on the publication without the white space
/// around it: it is too short when that text has fewer characters than the
/// minimum (every character counts, letter or not); it is shouting when the
/// capitals make up more than the allowed share of its letters (characters that
/// are not letters count for nothing); it has link spam when `http://` and
/// `https://` occur more often than allowed; it has character spam when one
/// character is repeated more times in a row than allowed.
pub proof fn law_quality_measures_trimmed_text(
    before: Seq<char>,
    core: Seq<char>,
    after: Seq<char>,
    config: PurityConfig,
)
    requires
        all_white_space(before),
        all_white_space(after),
        bare(core),
    ensures
        ({
            let q = quality_of(before + core + after, config);
            let letters = core.filter(is_letter());
            let capitals = letters.filter(is_capital());
            &&& q.is_too_short == (core.len() < config.min_content_length)
            &&& q.is_shouting == (capitals.len() * config.max_uppercase_ratio.den
                > config.max_uppercase_ratio.num * letters.len())
            &&& q.has_link_spam == (count_matches(core, "http://"@) + count_matches(
                core,
                "https://"@,
            ) > config.max_links)
            &&& q.has_char_spam == exists|i: int|
                #[trigger] repeats_at(core, i, config.max_char_repetition + 1)
        }),
{
    lemma_trimmed_core(before, core, after);
    lemma_counts_are_filters(core);
    lemma_run_of_length(core, config.max_char_repetition + 1);
}

/// Some stretch of `s` of length `r` repeats one character, and none of length
/// `r + 1` does, for some `r` no smaller than a length known to occur.
proof fn lemma_longest_exists(s: Seq<char>, r: int)
    requires
        0 <= r,
        exists|i: int| #[trigger] repeats_at(s, i, r),
    ensures
        exists|m: int| m >= r && is_longest_run(s, m),
    decreases s.len() - r,
{
    let i = choose|i: int| #[trigger] repeats_at(s, i, r);
    if exists|j: int| #[trigger] repeats_at(s, j, r + 1) {
        let j = choose|j: int| #[trigger] repeats_at(s, j, r + 1);
        assert(r + 1 <= s.len());
        lemma_longest_exists(s, r + 1);
    } else {
        assert(is_longest_run(s, r));
    }
}

/// `s` holds a stretch of length `n >= 1` repeating one character exactly when
/// its longest such stretch is at least `n` long.
proof fn lemma_run_of_length(s: Seq<char>, n: int)
    requires
        n >= 1,
    ensures
        (exists|i: int| #[trigger] repeats_at(s, i, n)) <==> longest_repetition(s) >= n,
{
    assert(repeats_at(s, 0, 0));
    lemma_longest_exists(s, 0);
    let r = longest_repetition(s) as int;
    assert(is_longest_run(s, r));
    if exists|i: int| #[trigger] repeats_at(s, i, n) {
        let i = choose|i: int| #[trigger] repeats_at(s, i, n);
        if r < n {
            assert(repeats_at(s, i, r + 1));
        }
    }
    if r >= n {
        let i = choose|i: int| #[trigger] repeats_at(s, i, r);
        assert(repeats_at(s, i, n));
    }
}

/// Two publications whose texts, white space around them dropped, have the same
/// letters in the same order are either both shouting or neither: digits,
/// spaces and punctuation never change the verdict on capitals.
pub proof fn law_shouting_ignores_non_letters(c1: Seq<char>, c2: Seq<char>, config: PurityConfig)
    requires
        trimmed(c1).filter(is_letter()) == trimmed(c2).filter(is_letter()),
    ensures
        quality_of(c1, config).is_shouting == quality_of(c2, config).is_shouting,
{
    lemma_counts_are_filters(trimmed(c1));
    lemma_counts_are_filters(trimmed(c2));
}

/// The same publication (same fingerprint), published again by the same author,
/// is reported as a duplicate, whatever happened to the author's frequency.
pub proof fn law_republication_is_duplicate(
    g: GuardView,
    author: Seq<char>,
    first: Seq<char>,
    second: Seq<char>,
    t1: u64,
    t2: u64,
)
    requires
        fingerprint(first) == fingerprint(second),
    ensures
        evaluated(evaluated(g, author, first, t1).1, author, second, t2).0.is_duplicate,
{
}

/// Duplicates and frequencies are counted per author: what one author publishes
/// changes nothing in the verdicts on another author.
pub proof fn law_authors_are_independent(
    g: GuardView,
    a: Seq<char>,
    b: Seq<char>,
    first: Seq<char>,
    second: Seq<char>,
    t1: u64,
    t2: u64,
)
    requires
        a != b,
    ensures
        evaluated(evaluated(g, a, first, t1).1, b, second, t2).0 == evaluated(g, b, second, t2).0,
{
    assert(history_in(evaluated(g, a, first, t1).1.histories, b) == history_in(g.histories, b));
}

/// An author never met (or forgotten) is never reported as a duplicate, and is
/// rate limited only when no action at all is allowed.
pub proof fn law_newcomer(g: GuardView, author: Seq<char>, content: Seq<char>, now: u64)
    requires
        !g.histories.contains_key(author),
    ensures
        !evaluated(g, author, content, now).0.is_duplicate,
        evaluated(g, author, content, now).0.is_rate_limited == (g.config.rate_limit_max_actions
            == 0),
{
    assert(drop_expired(Seq::<u64>::empty(), window_start(now, g.config.rate_window_secs))
        == Seq::<u64>::empty());
}

/// Every evaluation is recorded, suspicious or not: afterwards the author's
/// history holds the publication's fingerprint, and its last action is `now`.
pub proof fn law_evaluation_is_recorded(g: GuardView, author: Seq<char>, content: Seq<char>, now: u64)
    ensures
        ({
            let after = evaluated(g, author, content, now).1;
            &&& after.histories.contains_key(author)
            &&& after.histories[author].seen.contains(fingerprint(content))
            &&& after.histories[author].actions.last() == now
            &&& after.config == g.config
        }),
{
}

/// Resetting an author undoes everything that author published: the guard is
/// left as if the author had been reset before.
pub proof fn law_reset_undoes_evaluation(g: GuardView, author: Seq<char>, content: Seq<char>, now: u64)
    ensures
        author_reset(evaluated(g, author, content, now).1, author) == author_reset(g, author),
{
    assert(author_reset(evaluated(g, author, content, now).1, author).histories =~= author_reset(
        g,
        author,
    ).histories);
}

/// Once an author is reset, their next publication is judged as a newcomer's.
pub proof fn law_reset_author_forgets(g: GuardView, author: Seq<char>, content: Seq<char>, now: u64)
    ensures
        evaluated(author_reset(g, author), author, content, now).0 == evaluated(
            (GuardView { config: g.config, histories: Map::empty() }),
            author,
            content,
            now,
        ).0,
        !evaluated(author_reset(g, author), author, content, now).0.is_duplicate,
{
    law_newcomer(author_reset(g, author), author, content, now);
}

proof fn lemma_all_expired(log: Seq<u64>, start: u64)
    requires
        forall|i: int| 0 <= i < log.len() ==> #[trigger] log[i] < start,
    ensures
        drop_expired(log, start) == Seq::<u64>::empty(),
    decreases log.len(),
{
    if log.len() > 0 {
        assert forall|i: int| 0 <= i < log.drop_first().len() implies #[trigger] log.drop_first()[i]
            < start by {
            assert(log.drop_first()[i] == log[i + 1]);
        }
        lemma_all_expired(log.drop_first(), start);
    }
}

/// When every recorded action `t` of the author is older than the window ending
/// at `now` (`t + rate_window_secs < now`), the new action is rate limited only
/// when no action at all is allowed.
pub proof fn law_window_expires(g: GuardView, author: Seq<char>, content: Seq<char>, now: u64)
    requires
        forall|i: int|
            0 <= i < history_in(g.histories, author).actions.len() ==> #[trigger] history_in(
                g.histories,
                author,
            ).actions[i] + g.config.rate_window_secs < now,
    ensures
        evaluated(g, author, content, now).0.is_rate_limited == (g.config.rate_limit_max_actions
            == 0),
{
    lemma_all_expired(
        history_in(g.histories, author).actions,
        window_start(now, g.config.rate_window_secs),
    );
}

/// When the author already has as many actions as allowed and the oldest of
/// them, `t`, still lies within the window ending at `now`
/// (`t + rate_window_secs >= now`), the new action is rate limited.
pub proof fn law_rate_limit_triggers(g: GuardView, author: Seq<char>, content: Seq<char>, now: u64)
    requires
        history_in(g.histories, author).actions.len() >= g.config.rate_limit_max_actions,
        history_in(g.histories, author).actions.len() > 0 ==> history_in(
            g.histories,
            author,
        ).actions[0] + g.config.rate_window_secs >= now,
    ensures
        evaluated(g, author, content, now).0.is_rate_limited,
{
}

/// The guard judges the text of a publication exactly as the stateless quality
/// analysis does.
pub proof fn law_guard_judges_text_like_evaluate_quality(
    g: GuardView,
    author: Seq<char>,
    content: Seq<char>,
    now: u64,
)
    ensures
        ({
            let v = evaluated(g, author, content, now).0;
            let q = quality_of(content, g.config);
            &&& v.is_too_short == q.is_too_short
            &&& v.is_shouting == q.is_shouting
            &&& v.has_link_spam == q.has_link_spam
            &&& v.has_char_spam == q.has_char_spam
        }),
{
}

proof fn lemma_label_if_len(raised: bool, label: Seq<char>)
    ensures
        label_if(raised, label).len() == if raised {
            1int
        } else {
            0int
        },
{
}

/// A verdict is clean exactly when it gives no reason.
pub proof fn law_clean_iff_no_reason(v: PurityVerdict, q: QualityVerdict)
    ensures
        v.clean() <==> v.reason_labels().len() == 0,
        q.clean() <==> q.reason_labels().len() == 0,
{
    lemma_label_if_len(v.is_duplicate, duplicate_label());
    lemma_label_if_len(v.is_rate_limited, rate_label());
    lemma_label_if_len(v.is_too_short, short_label());
    lemma_label_if_len(v.is_shouting, shouting_label());
    lemma_label_if_len(v.has_link_spam, links_label());
    lemma_label_if_len(v.has_char_spam, repetition_label());
    lemma_label_if_len(q.is_too_short, short_label());
    lemma_label_if_len(q.is_shouting, shouting_label());
    lemma_label_if_len(q.has_link_spam, links_label());
    lemma_label_if_len(q.has_char_spam, repetition_label());
}

proof fn lemma_contains_concat(a: Seq<Seq<char>>, b: Seq<Seq<char>>, x: Seq<char>)
    ensures
        (a + b).contains(x) <==> a.contains(x) || b.contains(x),
{
    if (a + b).contains(x) {
        let i = choose|i: int| 0 <= i < (a + b).len() && (a + b)[i] == x;
        if i < a.len() {
            assert(a[i] == x);
        } else {
            assert(b[i - a.len()] == x);
        }
    }
    if a.contains(x) {
        let i = choose|i: int| 0 <= i < a.len() && a[i] == x;
        assert((a + b)[i] == x);
    }
    if b.contains(x) {
        let i = choose|i: int| 0 <= i < b.len() && b[i] == x;
        assert((a + b)[i + a.len()] == x);
    }
}

proof fn lemma_label_if_contains(raised: bool, label: Seq<char>, x: Seq<char>)
    ensures
        label_if(raised, label).contains(x) <==> raised && x == label,
{
    if raised {
        assert(label_if(raised, label)[0] == label);
    }
}

/// The number of signals raised among `flags`.
pub open spec fn raised_count(flags: Seq<bool>) -> int
    decreases flags.len(),
{
    if flags.len() == 0 {
        0
    } else {
        raised_count(flags.drop_last()) + if flags.last() {
            1int
        } else {
            0int
        }
    }
}

proof fn lemma_quality_label(q: QualityVerdict, x: Seq<char>)
    ensures
        q.reason_labels().contains(x) <==> (q.is_too_short && x == short_label()) || (q.is_shouting
            && x == shouting_label()) || (q.has_link_spam && x == links_label()) || (
        q.has_char_spam && x == repetition_label()),
{
    let a = label_if(q.is_too_short, short_label());
    let b = label_if(q.is_shouting, shouting_label());
    let c = label_if(q.has_link_spam, links_label());
    let d = label_if(q.has_char_spam, repetition_label());
    lemma_contains_concat(a + b + c, d, x);
    lemma_contains_concat(a + b, c, x);
    lemma_contains_concat(a, b, x);
    lemma_label_if_contains(q.is_too_short, short_label(), x);
    lemma_label_if_contains(q.is_shouting, shouting_label(), x);
    lemma_label_if_contains(q.has_link_spam, links_label(), x);
    lemma_label_if_contains(q.has_char_spam, repetition_label(), x);
}

/// A quality verdict is clean only when no signal is raised, and its reasons
/// name exactly the raised signals, one reason each: a text that is too short,
/// shouting, full of links or repeating a character is never clean and always
/// gets the matching reason.
pub proof fn law_quality_verdict_names_every_raised_signal(q: QualityVerdict)
    ensures
        q.clean() <==> !(q.is_too_short || q.is_shouting || q.has_link_spam || q.has_char_spam),
        q.reason_labels().contains("contenu trop court"@) <==> q.is_too_short,
        q.reason_labels().contains("majuscules excessives"@) <==> q.is_shouting,
        q.reason_labels().contains("trop de liens"@) <==> q.has_link_spam,
        q.reason_labels().contains("répétition de caractères excessive"@) <==> q.has_char_spam,
        q.reason_labels().len() == raised_count(
            seq![q.is_too_short, q.is_shouting, q.has_link_spam, q.has_char_spam],
        ),
{
    reveal_strlit("contenu trop court");
    reveal_strlit("majuscules excessives");
    reveal_strlit("trop de liens");
    reveal_strlit("répétition de caractères excessive");
    assert(short_label().len() == 18 && shouting_label().len() == 21 && links_label().len() == 13
        && repetition_label().len() == 34);
    lemma_quality_label(q, short_label());
    lemma_quality_label(q, shouting_label());
    lemma_quality_label(q, links_label());
    lemma_quality_label(q, repetition_label());
    lemma_label_if_len(q.is_too_short, short_label());
    lemma_label_if_len(q.is_shouting, shouting_label());
    lemma_label_if_len(q.has_link_spam, links_label());
    lemma_label_if_len(q.has_char_spam, repetition_label());
    reveal_with_fuel(raised_count, 5);
    let flags = seq![q.is_too_short, q.is_shouting, q.has_link_spam, q.has_char_spam];
    assert(flags.drop_last() =~= seq![q.is_too_short, q.is_shouting, q.has_link_spam]);
    assert(flags.drop_last().drop_last() =~= seq![q.is_too_short, q.is_shouting]);
    assert(flags.drop_last().drop_last().drop_last() =~= seq![q.is_too_short]);
    assert(flags.drop_last().drop_last().drop_last().drop_last() =~= Seq::<bool>::empty());
}

proof fn lemma_purity_label(v: PurityVerdict, x: Seq<char>)
    ensures
        v.reason_labels().contains(x) <==> (v.is_duplicate && x == duplicate_label()) || (
        v.is_rate_limited && x == rate_label()) || (v.is_too_short && x == short_label()) || (
        v.is_shouting && x == shouting_label()) || (v.has_link_spam && x == links_label()) || (
        v.has_char_spam && x == repetition_label()),
{
    let a = label_if(v.is_duplicate, duplicate_label());
    let b = label_if(v.is_rate_limited, rate_label());
    let c = label_if(v.is_too_short, short_label());
    let d = label_if(v.is_shouting, shouting_label());
    let e = label_if(v.has_link_spam, links_label());
    let f = label_if(v.has_char_spam, repetition_label());
    lemma_contains_concat(a + b + c + d + e, f, x);
    lemma_contains_concat(a + b + c + d, e, x);
    lemma_contains_concat(a + b + c, d, x);
    lemma_contains_concat(a + b, c, x);
    lemma_contains_concat(a, b, x);
    lemma_label_if_contains(v.is_duplicate, duplicate_label(), x);
    lemma_label_if_contains(v.is_rate_limited, rate_label(), x);
    lemma_label_if_contains(v.is_too_short, short_label(), x);
    lemma_label_if_contains(v.is_shouting, shouting_label(), x);
    lemma_label_if_contains(v.has_link_spam, links_label(), x);
    lemma_label_if_contains(v.has_char_spam, repetition_label(), x);
}

/// A verdict of the guard is clean only when no signal is raised, and its
/// reasons name exactly the raised signals, one reason each.
pub proof fn law_verdict_names_every_raised_signal(v: PurityVerdict)
    ensures
        v.clean() <==> !(v.is_duplicate || v.is_rate_limited || v.is_too_short || v.is_shouting
            || v.has_link_spam || v.has_char_spam),
        v.reason_labels().contains("contenu dupliqué"@) <==> v.is_duplicate,
        v.reason_labels().contains("fréquence de publication excessive"@) <==> v.is_rate_limited,
        v.reason_labels().contains("contenu trop court"@) <==> v.is_too_short,
        v.reason_labels().contains("majuscules excessives"@) <==> v.is_shouting,
        v.reason_labels().contains("trop de liens"@) <==> v.has_link_spam,
        v.reason_labels().contains("répétition de caractères excessive"@) <==> v.has_char_spam,
        v.reason_labels().len() == raised_count(
            seq![
                v.is_duplicate,
                v.is_rate_limited,
                v.is_too_short,
                v.is_shouting,
                v.has_link_spam,
                v.has_char_spam,
            ],
        ),
{
    reveal_strlit("contenu dupliqué");
    reveal_strlit("fréquence de publication excessive");
    reveal_strlit("contenu trop court");
    reveal_strlit("majuscules excessives");
    reveal_strlit("trop de liens");
    reveal_strlit("répétition de caractères excessive");
    assert(duplicate_label().len() == 16 && rate_label().len() == 34 && short_label().len() == 18
        && shouting_label().len() == 21 && links_label().len() == 13 && repetition_label().len()
        == 34);
    assert(rate_label()[0] == 'f' && repetition_label()[0] == 'r');
    lemma_purity_label(v, duplicate_label());
    lemma_purity_label(v, rate_label());
    lemma_purity_label(v, short_label());
    lemma_purity_label(v, shouting_label());
    lemma_purity_label(v, links_label());
    lemma_purity_label(v, repetition_label());
    lemma_label_if_len(v.is_duplicate, duplicate_label());
    lemma_label_if_len(v.is_rate_limited, rate_label());
    lemma_label_if_len(v.is_too_short, short_label());
    lemma_label_if_len(v.is_shouting, shouting_label());
    lemma_label_if_len(v.has_link_spam, links_label());
    lemma_label_if_len(v.has_char_spam, repetition_label());
    reveal_with_fuel(raised_count, 7);
    let flags = seq![
        v.is_duplicate,
        v.is_rate_limited,
        v.is_too_short,
        v.is_shouting,
        v.has_link_spam,
        v.has_char_spam,
    ];
    assert(flags.drop_last() =~= seq![
        v.is_duplicate,
        v.is_rate_limited,
        v.is_too_short,
        v.is_shouting,
        v.has_link_spam,
    ]);
    assert(flags.drop_last().drop_last() =~= seq![
        v.is_duplicate,
        v.is_rate_limited,
        v.is_too_short,
        v.is_shouting,
    ]);
    assert(flags.drop_last().drop_last().drop_last() =~= seq![
        v.is_duplicate,
        v.is_rate_limited,
        v.is_too_short,
    ]);
    assert(flags.drop_last().drop_last().drop_last().drop_last() =~= seq![
        v.is_duplicate,
        v.is_rate_limited,
    ]);
    assert(flags.drop_last().drop_last().drop_last().drop_last().drop_last() =~= seq![
        v.is_duplicate,
    ]);
    assert(flags.drop_last().drop_last().drop_last().drop_last().drop_last().drop_last()
        =~= Seq::<bool>::empty());
}

} // verus!
