//! The guard over a whole sequence of calls: duplicates and rate limiting as
//! functions of everything an author published since their last reset, the
//! shape of the action log, and what recording a publication twice does.
use vstd::prelude::*;

use crate::config::PurityConfig;
use crate::fingerprint::fingerprint;
use crate::guard::action_recorded;
use crate::guard::author_reset;
use crate::guard::drop_expired;
use crate::guard::duplicate_recorded;
use crate::guard::expired_prefix;
use crate::guard::evaluated;
use crate::guard::history_in;
use crate::guard::window_start;
use crate::guard::with_fingerprint;
use crate::guard::GuardView;

verus! {

broadcast use vstd::seq_lib::group_seq_properties;

// ---------------------------------------------------------------------------
// Calls and runs.
// ---------------------------------------------------------------------------

/// One call that changes a guard.
pub enum GuardCall {
    /// `evaluate(author, content, now)`.
    Evaluate { author: Seq<char>, content: Seq<char>, now: u64 },
    /// `reset_author(author)`.
    ResetAuthor { author: Seq<char> },
    /// `reset_all()`.
    ResetAll,
}

/// A guard just created with `config` (what `PurityGuard::new` gives).
pub open spec fn fresh_guard(config: PurityConfig) -> GuardView {
    GuardView { config, histories: Map::empty() }
}

/// The state of a guard in state `g` after `call`.
pub open spec fn apply(g: GuardView, call: GuardCall) -> GuardView {
    match call {
        GuardCall::Evaluate { author, content, now } => evaluated(g, author, content, now).1,
        GuardCall::ResetAuthor { author } => author_reset(g, author),
        GuardCall::ResetAll => fresh_guard(g.config),
    }
}

/// The state of a guard in state `g` after `calls`, in order.
pub open spec fn run(g: GuardView, calls: Seq<GuardCall>) -> GuardView
    decreases calls.len(),
{
    if calls.len() == 0 {
        g
    } else {
        apply(run(g, calls.drop_last()), calls.last())
    }
}

/// Whether `call` forgets `author`.
pub open spec fn resets(call: GuardCall, author: Seq<char>) -> bool {
    match call {
        GuardCall::ResetAuthor { author: a } => a == author,
        GuardCall::ResetAll => true,
        GuardCall::Evaluate { .. } => false,
    }
}

/// Whether `call` is a publication by `author` with fingerprint `fp`.
pub open spec fn publishes(call: GuardCall, author: Seq<char>, fp: u64) -> bool {
    match call {
        GuardCall::Evaluate { author: a, content, now } => a == author && fingerprint(content) == fp,
        _ => false,
    }
}

/// Whether some call of `calls` is a publication by `author` with fingerprint
/// `fp` that no later call resets.
pub open spec fn published_since_reset(calls: Seq<GuardCall>, author: Seq<char>, fp: u64) -> bool {
    exists|i: int|
        0 <= i < calls.len() && #[trigger] publishes(calls[i], author, fp) && forall|j: int|
            i < j < calls.len() ==> !#[trigger] resets(calls[j], author)
}

/// The timestamps of the publications of `author` in `calls` since the last
/// call that resets them, in order.
pub open spec fn stamps_since_reset(calls: Seq<GuardCall>, author: Seq<char>) -> Seq<u64>
    decreases calls.len(),
{
    if calls.len() == 0 {
        Seq::empty()
    } else {
        let before = stamps_since_reset(calls.drop_last(), author);
        match calls.last() {
            GuardCall::Evaluate { author: a, content, now } => if a == author {
                before.push(now)
            } else {
                before
            },
            GuardCall::ResetAuthor { author: a } => if a == author {
                Seq::empty()
            } else {
                before
            },
            GuardCall::ResetAll => Seq::empty(),
        }
    }
}

/// Whether `s` never decreases.
pub open spec fn nondecreasing(s: Seq<u64>) -> bool {
    forall|i: int, j: int| 0 <= i <= j < s.len() ==> s[i] <= s[j]
}

/// Whether a timestamp lies at or after `start`.
pub open spec fn in_window(start: u64) -> spec_fn(u64) -> bool {
    |t: u64| t >= start
}

// ---------------------------------------------------------------------------
// The action log.
// ---------------------------------------------------------------------------

/// Dropping the expired actions removes exactly the longest prefix of the log
/// made of timestamps older than the window start.
pub proof fn law_window_drops_expired_prefix(log: Seq<u64>, start: u64)
    ensures
        expired_prefix(log, start) <= log.len(),
        forall|j: int| 0 <= j < expired_prefix(log, start) ==> #[trigger] log[j] < start,
        expired_prefix(log, start) == log.len() || log[expired_prefix(log, start) as int] >= start,
        drop_expired(log, start) == log.subrange(expired_prefix(log, start) as int, log.len() as int),
    decreases log.len(),
{
    if log.len() > 0 && log[0] < start {
        let rest = log.drop_first();
        law_window_drops_expired_prefix(rest, start);
        let p = expired_prefix(rest, start);
        assert forall|j: int| 0 <= j < expired_prefix(log, start) implies #[trigger] log[j]
            < start by {
            if j > 0 {
                assert(log[j] == rest[j - 1]);
            }
        }
        assert(rest.subrange(p as int, rest.len() as int) =~= log.subrange(
            (p + 1) as int,
            log.len() as int,
        ));
    } else {
        assert(log.subrange(0, log.len() as int) =~= log);
    }
}

/// A sequence split at `m` into older-than-`start` and not-older entries keeps,
/// once filtered on the window, exactly its part from `m` on.
proof fn lemma_filter_split(s: Seq<u64>, start: u64, m: int)
    requires
        0 <= m <= s.len(),
        forall|j: int| 0 <= j < m ==> #[trigger] s[j] < start,
        forall|j: int| m <= j < s.len() ==> #[trigger] s[j] >= start,
    ensures
        s.filter(in_window(start)) == s.subrange(m, s.len() as int),
    decreases s.len(),
{
    if s.len() == 0 {
        reveal(Seq::filter);
        assert(s.subrange(m, 0) =~= s);
    } else {
        let rest = s.drop_first();
        assert(s =~= seq![s[0]] + rest);
        rest.lemma_filter_prepend(s[0], in_window(start));
        if m > 0 {
            assert forall|j: int| 0 <= j < m - 1 implies #[trigger] rest[j] < start by {
                assert(rest[j] == s[j + 1]);
            }
            assert forall|j: int| m - 1 <= j < rest.len() implies #[trigger] rest[j] >= start by {
                assert(rest[j] == s[j + 1]);
            }
            lemma_filter_split(rest, start, m - 1);
            assert(rest.subrange(m - 1, rest.len() as int) =~= s.subrange(m, s.len() as int));
            assert(Seq::<u64>::empty() + rest.filter(in_window(start)) =~= rest.filter(
                in_window(start),
            ));
        } else {
            assert forall|j: int| 0 <= j < rest.len() implies #[trigger] rest[j] >= start by {
                assert(rest[j] == s[j + 1]);
            }
            lemma_filter_split(rest, start, 0);
            assert(rest.subrange(0, rest.len() as int) =~= rest);
            assert(s.subrange(0, s.len() as int) =~= s);
        }
    }
}

/// On a log sorted by time, with no timestamp after `now`, dropping the expired
/// entries and appending `now` gives a sorted log that ends with `now` and
/// keeps exactly the old timestamps within the window.
proof fn lemma_log_step(log: Seq<u64>, now: u64, window: u64)
    requires
        nondecreasing(log),
        forall|i: int| 0 <= i < log.len() ==> #[trigger] log[i] <= now,
    ensures
        ({
            let start = window_start(now, window);
            let after = drop_expired(log, start).push(now);
            &&& nondecreasing(after)
            &&& after.last() == now
            &&& after.drop_last() == log.filter(in_window(start))
        }),
{
    let start = window_start(now, window);
    law_window_drops_expired_prefix(log, start);
    let p = expired_prefix(log, start) as int;
    assert forall|j: int| p <= j < log.len() implies #[trigger] log[j] >= start by {
        assert(log[p] <= log[j]);
    }
    lemma_filter_split(log, start, p);
    let after = drop_expired(log, start).push(now);
    assert(after.drop_last() =~= log.subrange(p, log.len() as int));
}

/// The window ending at `now` holds exactly the timestamps `t` with
/// `t + window >= now`.
proof fn lemma_window_is_recent(now: u64, window: u64)
    ensures
        in_window(window_start(now, window)) == (|t: u64| t + window >= now),
{
    assert(in_window(window_start(now, window)) =~= (|t: u64| t + window >= now));
}

/// When an author's action log is sorted by time and holds no timestamp after
/// `now`, recording an action at `now` keeps it sorted, puts `now` last, and
/// keeps exactly the old timestamps that lie within the window ending at `now`.
pub proof fn law_action_log_stays_sorted(g: GuardView, author: Seq<char>, now: u64)
    requires
        nondecreasing(history_in(g.histories, author).actions),
        forall|i: int|
            0 <= i < history_in(g.histories, author).actions.len() ==> #[trigger] history_in(
                g.histories,
                author,
            ).actions[i] <= now,
    ensures
        ({
            let log = history_in(g.histories, author).actions;
            let after = history_in(action_recorded(g, author, now).1.histories, author).actions;
            &&& nondecreasing(after)
            &&& after.last() == now
            &&& after.drop_last() == log.filter(
                (|t: u64| t + g.config.rate_window_secs >= now),
            )
        }),
{
    lemma_log_step(history_in(g.histories, author).actions, now, g.config.rate_window_secs);
    lemma_window_is_recent(now, g.config.rate_window_secs);
}

/// Recording the same publication twice: the second check reports it as a
/// duplicate and leaves the guard exactly as the first one left it.
pub proof fn law_recording_twice_changes_nothing(g: GuardView, author: Seq<char>, content: Seq<char>)
    ensures
        ({
            let once = duplicate_recorded(g, author, content).1;
            let twice = duplicate_recorded(once, author, content);
            &&& twice.0
            &&& twice.1 == once
        }),
{
    let once = duplicate_recorded(g, author, content).1;
    let fp = fingerprint(content);
    assert(history_in(once.histories, author).seen.insert(fp) =~= history_in(
        once.histories,
        author,
    ).seen);
    assert(once.histories.insert(author, with_fingerprint(history_in(once.histories, author), fp))
        =~= once.histories);
    assert(duplicate_recorded(once, author, content).1 =~= once);
}

// ---------------------------------------------------------------------------
// Whole histories.
// ---------------------------------------------------------------------------

proof fn lemma_run_keeps_config(config: PurityConfig, calls: Seq<GuardCall>)
    ensures
        run(fresh_guard(config), calls).config == config,
    decreases calls.len(),
{
    if calls.len() > 0 {
        lemma_run_keeps_config(config, calls.drop_last());
    }
}

/// What the guard remembers of the fingerprints of `author` after `calls`:
/// exactly those of the publications since the author's last reset.
proof fn lemma_seen_over_history(config: PurityConfig, calls: Seq<GuardCall>, author: Seq<char>, fp: u64)
    ensures
        history_in(run(fresh_guard(config), calls).histories, author).seen.contains(fp)
            == published_since_reset(calls, author, fp),
    decreases calls.len(),
{
    if calls.len() == 0 {
        return;
    }
    let pre = calls.drop_last();
    let last = calls.last();
    let n = calls.len() - 1;
    lemma_seen_over_history(config, pre, author, fp);
    let g = run(fresh_guard(config), pre);
    assert(run(fresh_guard(config), calls) == apply(g, last));
    if published_since_reset(calls, author, fp) {
        let i = choose|i: int|
            0 <= i < calls.len() && #[trigger] publishes(calls[i], author, fp) && forall|j: int|
                i < j < calls.len() ==> !#[trigger] resets(calls[j], author);
        if i < n {
            assert(!resets(calls[n], author));
            assert(pre[i] == calls[i]);
            assert forall|j: int| i < j < pre.len() implies !#[trigger] resets(pre[j], author) by {
                assert(pre[j] == calls[j]);
            }
            assert(published_since_reset(pre, author, fp));
        }
    }
    if published_since_reset(pre, author, fp) && !resets(last, author) {
        let i = choose|i: int|
            0 <= i < pre.len() && #[trigger] publishes(pre[i], author, fp) && forall|j: int|
                i < j < pre.len() ==> !#[trigger] resets(pre[j], author);
        assert(calls[i] == pre[i]);
        assert forall|j: int| i < j < calls.len() implies !#[trigger] resets(calls[j], author) by {
            if j < n {
                assert(pre[j] == calls[j]);
            }
        }
    }
    match last {
        GuardCall::Evaluate { author: a, content, now } => {
            if a == author && fingerprint(content) == fp {
                assert(publishes(calls[n], author, fp));
            }
        },
        GuardCall::ResetAuthor { author: a } => {
            if a == author {
                if published_since_reset(calls, author, fp) {
                    let i = choose|i: int|
                        0 <= i < calls.len() && #[trigger] publishes(calls[i], author, fp)
                            && forall|j: int| i < j < calls.len() ==> !#[trigger] resets(calls[j], author);
                    assert(resets(calls[n], author));
                }
            }
        },
        GuardCall::ResetAll => {
            if published_since_reset(calls, author, fp) {
                let i = choose|i: int|
                    0 <= i < calls.len() && #[trigger] publishes(calls[i], author, fp) && forall|j: int|
                        i < j < calls.len() ==> !#[trigger] resets(calls[j], author);
                assert(resets(calls[n], author));
            }
        },
    }
}

/// Over any sequence of calls on a new guard, a publication is reported as a
/// duplicate exactly when the same author published something with the same
/// fingerprint since their last reset (whatever verdict that publication got).
pub proof fn law_duplicate_over_history(
    config: PurityConfig,
    calls: Seq<GuardCall>,
    author: Seq<char>,
    content: Seq<char>,
    now: u64,
)
    ensures
        evaluated(run(fresh_guard(config), calls), author, content, now).0.is_duplicate
            == published_since_reset(calls, author, fingerprint(content)),
{
    lemma_seen_over_history(config, calls, author, fingerprint(content));
}

/// After any sequence of calls on a new guard, the action log of `author` is
/// the tail of their timestamps since their last reset (as long as those never
/// decrease): the entries left out are all older than the window ending at the
/// latest of them.
pub proof fn law_action_log_over_history(config: PurityConfig, calls: Seq<GuardCall>, author: Seq<char>) -> (k: int)
    requires
        nondecreasing(stamps_since_reset(calls, author)),
    ensures
        ({
            let st = stamps_since_reset(calls, author);
            &&& 0 <= k <= st.len()
            &&& history_in(run(fresh_guard(config), calls).histories, author).actions
                == st.subrange(k, st.len() as int)
            &&& forall|j: int|
                0 <= j < k ==> #[trigger] st[j] < window_start(st.last(), config.rate_window_secs)
        }),
    decreases calls.len(),
{
    let st = stamps_since_reset(calls, author);
    if calls.len() == 0 {
        assert(st.subrange(0, 0) =~= Seq::<u64>::empty());
        return 0;
    }
    let pre = calls.drop_last();
    let g = run(fresh_guard(config), pre);
    lemma_run_keeps_config(config, pre);
    assert(run(fresh_guard(config), calls) == apply(g, calls.last()));
    let w = config.rate_window_secs;
    match calls.last() {
        GuardCall::Evaluate { author: a, content, now } => {
            if a == author {
                let before = stamps_since_reset(pre, author);
                assert(st == before.push(now));
                assert forall|i: int, j: int| 0 <= i <= j < before.len() implies before[i]
                    <= before[j] by {
                    assert(before[i] == st[i] && before[j] == st[j]);
                }
                let k0 = law_action_log_over_history(config, pre, author);
                let log = history_in(g.histories, author).actions;
                law_window_drops_expired_prefix(log, window_start(now, w));
                let m = expired_prefix(log, window_start(now, w)) as int;
                assert(history_in(run(fresh_guard(config), calls).histories, author).actions
                    == drop_expired(log, window_start(now, w)).push(now));
                assert(log.subrange(m, log.len() as int).push(now) =~= st.subrange(
                    k0 + m,
                    st.len() as int,
                ));
                assert forall|j: int| 0 <= j < k0 + m implies #[trigger] st[j] < window_start(
                    st.last(),
                    w,
                ) by {
                    if j < k0 {
                        assert(st[j] == before[j]);
                        assert(before.last() == st[before.len() - 1]);
                        assert(st[before.len() as int] == now);
                        assert(st[before.len() - 1] <= st[before.len() as int]);
                    } else {
                        assert(st[j] == log[j - k0]);
                    }
                }
                return k0 + m;
            } else {
                assert(st == stamps_since_reset(pre, author));
                return law_action_log_over_history(config, pre, author);
            }
        },
        GuardCall::ResetAuthor { author: a } => {
            if a == author {
                assert(st.subrange(0, 0) =~= Seq::<u64>::empty());
                return 0;
            } else {
                assert(st == stamps_since_reset(pre, author));
                return law_action_log_over_history(config, pre, author);
            }
        },
        GuardCall::ResetAll => {
            assert(st.subrange(0, 0) =~= Seq::<u64>::empty());
            return 0;
        },
    }
}

/// Over any sequence of calls on a new guard, a publication at `now` is rate
/// limited exactly when, counting itself, the author's publications since their
/// last reset at times `t` with `t + rate_window_secs >= now` are more than the
/// allowed number, whatever verdict they got (as long as the author's
/// timestamps never decrease and none lies after `now`).
pub proof fn law_rate_limit_over_history(
    config: PurityConfig,
    calls: Seq<GuardCall>,
    author: Seq<char>,
    content: Seq<char>,
    now: u64,
)
    requires
        nondecreasing(stamps_since_reset(calls, author)),
        forall|i: int|
            0 <= i < stamps_since_reset(calls, author).len() ==> #[trigger] stamps_since_reset(
                calls,
                author,
            )[i] <= now,
    ensures
        evaluated(run(fresh_guard(config), calls), author, content, now).0.is_rate_limited == (
        stamps_since_reset(calls, author).filter(
            (|t: u64| t + config.rate_window_secs >= now),
        ).len() + 1 > config.rate_limit_max_actions),
{
    let st = stamps_since_reset(calls, author);
    let w = config.rate_window_secs;
    let start = window_start(now, w);
    let g = run(fresh_guard(config), calls);
    lemma_run_keeps_config(config, calls);
    let k = law_action_log_over_history(config, calls, author);
    let log = history_in(g.histories, author).actions;
    law_window_drops_expired_prefix(log, start);
    let m = expired_prefix(log, start) as int;
    assert forall|j: int| 0 <= j < k + m implies #[trigger] st[j] < start by {
        if j < k {
            assert(st.last() <= now);
        } else {
            assert(st[j] == log[j - k]);
        }
    }
    assert forall|j: int| k + m <= j < st.len() implies #[trigger] st[j] >= start by {
        assert(st[j] == log[j - k]);
        assert(log[m] == st[k + m]);
        assert(st[k + m] <= st[j]);
    }
    lemma_filter_split(st, start, k + m);
    lemma_window_is_recent(now, w);
}

} // verus!
