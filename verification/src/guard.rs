//! The stateful guard: per-author history of fingerprints and actions, giving
//! duplicate detection and rate limiting on top of the quality analysis.
use std::collections::HashSet;
use std::collections::VecDeque;
use vstd::prelude::*;

use crate::config::PurityConfig;
use crate::fingerprint::content_fingerprint;
use crate::fingerprint::fingerprint;
use crate::history::law_window_drops_expired_prefix;
use crate::verdict::evaluate_quality;
use crate::verdict::quality_of;
use crate::verdict::PurityVerdict;

verus! {

broadcast use vstd::std_specs::hash::group_hash_axioms;

// ---------------------------------------------------------------------------
// Model.
// ---------------------------------------------------------------------------

/// What the guard remembers of one author.
pub struct AuthorHistory {
    /// Fingerprints of the publications already seen.
    pub seen: Set<u64>,
    /// Timestamps of the recent actions, oldest first.
    pub actions: Seq<u64>,
}

/// The abstract state of a [`PurityGuard`].
#[verifier::ext_equal]
pub struct GuardView {
    /// The thresholds.
    pub config: PurityConfig,
    /// The history of each author met since the last reset.
    pub histories: Map<Seq<char>, AuthorHistory>,
}

/// The history of an author never met: nothing seen, no action.
pub open spec fn empty_history() -> AuthorHistory {
    AuthorHistory { seen: Set::empty(), actions: Seq::empty() }
}

/// The history of `author` in `histories` (empty when the author is unknown).
pub open spec fn history_in(histories: Map<Seq<char>, AuthorHistory>, author: Seq<char>) -> AuthorHistory {
    if histories.contains_key(author) {
        histories[author]
    } else {
        empty_history()
    }
}

/// Start of the sliding window that ends at `now` (`now - window`, or 0).
pub open spec fn window_start(now: u64, window: u64) -> u64 {
    if now >= window {
        (now - window) as u64
    } else {
        0
    }
}

/// `log` without its leading timestamps older than `start`: the oldest entries
/// are dropped as long as they fall before the window.
pub open spec fn drop_expired(log: Seq<u64>, start: u64) -> Seq<u64>
    decreases log.len(),
{
    if log.len() > 0 && log[0] < start {
        drop_expired(log.drop_first(), start)
    } else {
        log
    }
}

/// Number of leading entries of `log` older than `start`.
pub open spec fn expired_prefix(log: Seq<u64>, start: u64) -> nat
    decreases log.len(),
{
    if log.len() > 0 && log[0] < start {
        1 + expired_prefix(log.drop_first(), start)
    } else {
        0
    }
}

/// The history once fingerprint `fp` is recorded.
pub open spec fn with_fingerprint(h: AuthorHistory, fp: u64) -> AuthorHistory {
    AuthorHistory { seen: h.seen.insert(fp), actions: h.actions }
}

/// The history once an action at `now` is recorded, with a window of `window` seconds.
pub open spec fn with_action(h: AuthorHistory, now: u64, window: u64) -> AuthorHistory {
    AuthorHistory { seen: h.seen, actions: drop_expired(h.actions, window_start(now, window)).push(now) }
}

/// The verdict on a publication `content` of an author whose history is `h`,
/// evaluated at `now`, and the author's history afterwards.
pub open spec fn evaluation(config: PurityConfig, h: AuthorHistory, content: Seq<char>, now: u64) -> (
    PurityVerdict,
    AuthorHistory,
) {
    let fp = fingerprint(content);
    let after = with_action(with_fingerprint(h, fp), now, config.rate_window_secs);
    let q = quality_of(content, config);
    (
        PurityVerdict {
            is_duplicate: h.seen.contains(fp),
            is_rate_limited: after.actions.len() > config.rate_limit_max_actions,
            is_too_short: q.is_too_short,
            is_shouting: q.is_shouting,
            has_link_spam: q.has_link_spam,
            has_char_spam: q.has_char_spam,
        },
        after,
    )
}

/// The verdict on `content`, published by `author` at `now` on a guard in state
/// `g`, and the state of the guard afterwards.
pub open spec fn evaluated(g: GuardView, author: Seq<char>, content: Seq<char>, now: u64) -> (
    PurityVerdict,
    GuardView,
) {
    let e = evaluation(g.config, history_in(g.histories, author), content, now);
    (e.0, GuardView { config: g.config, histories: g.histories.insert(author, e.1) })
}

/// Whether `content` duplicates a publication already seen for `author` on a
/// guard in state `g`, and the state once its fingerprint is recorded.
pub open spec fn duplicate_recorded(g: GuardView, author: Seq<char>, content: Seq<char>) -> (
    bool,
    GuardView,
) {
    let h = history_in(g.histories, author);
    let fp = fingerprint(content);
    (
        h.seen.contains(fp),
        GuardView { config: g.config, histories: g.histories.insert(author, with_fingerprint(h, fp)) },
    )
}

/// Whether an action of `author` at `now` goes over the limit on a guard in
/// state `g`, and the state once the action is recorded.
pub open spec fn action_recorded(g: GuardView, author: Seq<char>, now: u64) -> (bool, GuardView) {
    let after = with_action(history_in(g.histories, author), now, g.config.rate_window_secs);
    (
        after.actions.len() > g.config.rate_limit_max_actions,
        GuardView { config: g.config, histories: g.histories.insert(author, after) },
    )
}

/// The state of a guard in state `g` once `author` is forgotten.
pub open spec fn author_reset(g: GuardView, author: Seq<char>) -> GuardView {
    GuardView { config: g.config, histories: g.histories.remove(author) }
}

// ---------------------------------------------------------------------------
// One author's record.
// ---------------------------------------------------------------------------

struct AuthorRecord {
    author: String,
    fingerprints: HashSet<u64>,
    actions: VecDeque<u64>,
}

impl AuthorRecord {
    spec fn history(self) -> AuthorHistory {
        AuthorHistory { seen: self.fingerprints@, actions: self.actions@ }
    }

    fn fresh(author: String) -> (r: AuthorRecord)
        ensures
            r.author == author,
            r.history() == empty_history(),
    {
        AuthorRecord { author, fingerprints: HashSet::new(), actions: VecDeque::new() }
    }

    /// Records `fp`; tells whether it had been seen before.
    fn note_fingerprint(&mut self, fp: u64) -> (seen_before: bool)
        ensures
            final(self).author == old(self).author,
            seen_before == old(self).fingerprints@.contains(fp),
            final(self).history() == with_fingerprint(old(self).history(), fp),
    {
        if self.fingerprints.contains(&fp) {
            assert(self.fingerprints@.insert(fp) =~= self.fingerprints@);
            true
        } else {
            self.fingerprints.insert(fp);
            false
        }
    }

    /// Drops the actions older than `start` from the front, then records `now`.
    fn note_action(&mut self, now: u64, start: u64)
        ensures
            final(self).author == old(self).author,
            final(self).fingerprints@ == old(self).fingerprints@,
            final(self).actions@ == drop_expired(old(self).actions@, start).push(now),
    {
        while self.actions.len() > 0 && self.actions[0] < start
            invariant
                self.author == old(self).author,
                self.fingerprints@ == old(self).fingerprints@,
                drop_expired(self.actions@, start) == drop_expired(old(self).actions@, start),
            decreases self.actions@.len(),
        {
            let _ = self.actions.pop_front();
        }
        self.actions.push_back(now);
    }
}

// ---------------------------------------------------------------------------
// The records of all authors.
// ---------------------------------------------------------------------------

spec fn holds_author(rs: Seq<AuthorRecord>, i: int, author: Seq<char>) -> bool {
    0 <= i < rs.len() && rs[i].author@ == author
}

spec fn distinct_authors(rs: Seq<AuthorRecord>) -> bool {
    forall|i: int, j: int|
        0 <= i < rs.len() && 0 <= j < rs.len() && #[trigger] rs[i].author@ == #[trigger] rs[j].author@
            ==> i == j
}

spec fn histories_of(rs: Seq<AuthorRecord>) -> Map<Seq<char>, AuthorHistory> {
    Map::new(
        |a: Seq<char>| exists|i: int| holds_author(rs, i, a),
        |a: Seq<char>| rs[choose|i: int| holds_author(rs, i, a)].history(),
    )
}

proof fn lemma_histories_of(rs: Seq<AuthorRecord>)
    requires
        distinct_authors(rs),
    ensures
        forall|i: int|
            0 <= i < rs.len() ==> #[trigger] histories_of(rs).contains_key(rs[i].author@)
                && histories_of(rs)[rs[i].author@] == rs[i].history(),
        forall|a: Seq<char>|
            #[trigger] histories_of(rs).contains_key(a) ==> exists|i: int| holds_author(rs, i, a),
{
    assert forall|i: int| 0 <= i < rs.len() implies #[trigger] histories_of(rs).contains_key(
        rs[i].author@,
    ) && histories_of(rs)[rs[i].author@] == rs[i].history() by {
        let a = rs[i].author@;
        assert(holds_author(rs, i, a));
        let j = choose|j: int| holds_author(rs, j, a);
        assert(rs[j].author@ == rs[i].author@);
    }
}

proof fn lemma_histories_update(rs: Seq<AuthorRecord>, i: int, r: AuthorRecord)
    requires
        distinct_authors(rs),
        0 <= i < rs.len(),
        r.author@ == rs[i].author@,
    ensures
        distinct_authors(rs.update(i, r)),
        histories_of(rs.update(i, r)) == histories_of(rs).insert(r.author@, r.history()),
{
    let rs2 = rs.update(i, r);
    assert forall|j: int, k: int|
        0 <= j < rs2.len() && 0 <= k < rs2.len() && #[trigger] rs2[j].author@
            == #[trigger] rs2[k].author@ implies j == k by {
        assert(rs[j].author@ == rs2[j].author@);
        assert(rs[k].author@ == rs2[k].author@);
    }
    lemma_histories_of(rs);
    lemma_histories_of(rs2);
    assert forall|a: Seq<char>| histories_of(rs).insert(
            r.author@,
            r.history(),
        ).contains_key(a) implies #[trigger] histories_of(rs2).contains_key(a) by {
        if a != r.author@ {
            let j = choose|j: int| holds_author(rs, j, a);
            assert(rs2[j].author@ == a);
        } else {
            assert(rs2[i].author@ == a);
        }
    }
    assert forall|a: Seq<char>| #[trigger]
        histories_of(rs2).contains_key(a) implies histories_of(rs).insert(
            r.author@,
            r.history(),
        ).contains_key(a) && histories_of(rs2)[a] == histories_of(rs).insert(
            r.author@,
            r.history(),
        )[a] by {
        let j = choose|j: int| holds_author(rs2, j, a);
        assert(rs2[j].author@ == a);
        if j != i {
            assert(rs[j] == rs2[j]);
        }
    }
    assert(histories_of(rs2) =~= histories_of(rs).insert(r.author@, r.history()));
}

proof fn lemma_histories_push(rs: Seq<AuthorRecord>, r: AuthorRecord)
    requires
        distinct_authors(rs),
        !histories_of(rs).contains_key(r.author@),
    ensures
        distinct_authors(rs.push(r)),
        histories_of(rs.push(r)) == histories_of(rs).insert(r.author@, r.history()),
{
    let rs2 = rs.push(r);
    lemma_histories_of(rs);
    assert forall|j: int, k: int|
        0 <= j < rs2.len() && 0 <= k < rs2.len() && #[trigger] rs2[j].author@
            == #[trigger] rs2[k].author@ implies j == k by {
        if j < rs.len() && k < rs.len() {
            assert(rs[j].author@ == rs2[j].author@);
            assert(rs[k].author@ == rs2[k].author@);
        } else if j < rs.len() {
            assert(rs[j].author@ == r.author@);
            assert(histories_of(rs).contains_key(rs[j].author@));
        } else if k < rs.len() {
            assert(rs[k].author@ == r.author@);
            assert(histories_of(rs).contains_key(rs[k].author@));
        }
    }
    lemma_histories_of(rs2);
    assert forall|a: Seq<char>| histories_of(rs).insert(
            r.author@,
            r.history(),
        ).contains_key(a) implies #[trigger] histories_of(rs2).contains_key(a) by {
        if a != r.author@ {
            let j = choose|j: int| holds_author(rs, j, a);
            assert(rs2[j].author@ == a);
        } else {
            assert(rs2[rs.len() as int].author@ == a);
        }
    }
    assert forall|a: Seq<char>| #[trigger]
        histories_of(rs2).contains_key(a) implies histories_of(rs).insert(
            r.author@,
            r.history(),
        ).contains_key(a) && histories_of(rs2)[a] == histories_of(rs).insert(
            r.author@,
            r.history(),
        )[a] by {
        let j = choose|j: int| holds_author(rs2, j, a);
        assert(rs2[j].author@ == a);
        if j < rs.len() {
            assert(rs[j] == rs2[j]);
        }
    }
    assert(histories_of(rs2) =~= histories_of(rs).insert(r.author@, r.history()));
}

proof fn lemma_histories_remove(rs: Seq<AuthorRecord>, i: int)
    requires
        distinct_authors(rs),
        0 <= i < rs.len(),
    ensures
        distinct_authors(rs.remove(i)),
        histories_of(rs.remove(i)) == histories_of(rs).remove(rs[i].author@),
{
    let rs2 = rs.remove(i);
    let a0 = rs[i].author@;
    lemma_histories_of(rs);
    assert forall|j: int, k: int|
        0 <= j < rs2.len() && 0 <= k < rs2.len() && #[trigger] rs2[j].author@
            == #[trigger] rs2[k].author@ implies j == k by {
        let jj = if j < i { j } else { j + 1 };
        let kk = if k < i { k } else { k + 1 };
        assert(rs2[j] == rs[jj]);
        assert(rs2[k] == rs[kk]);
    }
    lemma_histories_of(rs2);
    assert forall|a: Seq<char>| histories_of(rs).remove(a0).contains_key(a) implies #[trigger] histories_of(rs2).contains_key(a) by {
        let j = choose|j: int| holds_author(rs, j, a);
        assert(j != i);
        let jj = if j < i { j } else { j - 1 };
        assert(rs2[jj] == rs[j]);
    }
    assert forall|a: Seq<char>| #[trigger]
        histories_of(rs2).contains_key(a) implies histories_of(rs).remove(a0).contains_key(a)
        && histories_of(rs2)[a] == histories_of(rs).remove(a0)[a] by {
        let j = choose|j: int| holds_author(rs2, j, a);
        let jj = if j < i { j } else { j + 1 };
        assert(rs2[j] == rs[jj]);
        assert(jj != i);
    }
    assert(histories_of(rs2) =~= histories_of(rs).remove(a0));
}

// ---------------------------------------------------------------------------
// The guard.
// ---------------------------------------------------------------------------

/// Stateful anti-bot guard, to be kept for the whole life of the server.
///
/// It keeps, for each author, the fingerprints already seen and the timestamps of
/// the recent actions, which duplicate detection and rate limiting need. This
/// history lives in memory only: it is lost when the process restarts. Callers
/// that need it to survive should use [`content_fingerprint`] and
/// [`evaluate_quality`] with their own storage.
pub struct PurityGuard {
    config: PurityConfig,
    records: Vec<AuthorRecord>,
}

impl View for PurityGuard {
    type V = GuardView;

    closed spec fn view(&self) -> GuardView {
        GuardView { config: self.config, histories: histories_of(self.records@) }
    }
}

/// The index of the record of `author` in `records`, the record being created
/// empty if the author is unknown.
fn entry_index(records: &mut Vec<AuthorRecord>, author: &str) -> (i: usize)
    requires
        distinct_authors(old(records)@),
    ensures
        distinct_authors(final(records)@),
        i < final(records)@.len(),
        final(records)@[i as int].author@ == author@,
        final(records)@[i as int].history() == history_in(histories_of(old(records)@), author@),
        histories_of(final(records)@) == histories_of(old(records)@).insert(
            author@,
            history_in(histories_of(old(records)@), author@),
        ),
{
    proof {
        lemma_histories_of(records@);
    }
    let key = author.to_owned();
    let n = records.len();
    let mut i: usize = 0;
    while i < n
        invariant
            n == records@.len(),
            records@ == old(records)@,
            distinct_authors(records@),
            i <= n,
            key@ == author@,
            forall|j: int| 0 <= j < i ==> records@[j].author@ != author@,
        decreases n - i,
    {
        if records[i].author == key {
            proof {
                lemma_histories_of(records@);
                assert(histories_of(records@).insert(author@, history_in(histories_of(records@), author@))
                    =~= histories_of(records@));
            }
            return i;
        }
        i = i + 1;
    }
    proof {
        if histories_of(records@).contains_key(author@) {
            let j = choose|j: int| holds_author(records@, j, author@);
            assert(records@[j].author@ == author@);
        }
    }
    let rec = AuthorRecord::fresh(key);
    proof {
        lemma_histories_push(records@, rec);
    }
    records.push(rec);
    n
}

impl PurityGuard {
    /// The internal consistency of the guard: one record per author.
    #[verifier::type_invariant]
    spec fn one_record_per_author(self) -> bool {
        distinct_authors(self.records@)
    }

    /// A guard with the given thresholds and no history.
    pub fn new(config: PurityConfig) -> (g: Self)
        ensures
            g@.config == config,
            g@.histories == Map::<Seq<char>, AuthorHistory>::empty(),
    {
        let g = PurityGuard { config, records: Vec::new() };
        assert(g@.histories =~= Map::<Seq<char>, AuthorHistory>::empty());
        g
    }

    /// The fingerprint of `content`: its digest once trimmed and lowercased.
    pub fn calculate_fingerprint(&self, content: &str) -> (r: u64)
        ensures
            r == fingerprint(content@),
    {
        content_fingerprint(content)
    }

    /// Tells whether `content` duplicates a publication already seen for
    /// `author_id`, and records its fingerprint in every case.
    fn check_and_record_duplicate(&mut self, author_id: &str, content: &str) -> (r: bool)
        ensures
            r == duplicate_recorded(old(self)@, author_id@, content@).0,
            final(self)@ == duplicate_recorded(old(self)@, author_id@, content@).1,
            final(self)@.config == old(self)@.config,
            r == history_in(old(self)@.histories, author_id@).seen.contains(fingerprint(content@)),
            history_in(final(self)@.histories, author_id@).seen == history_in(
                old(self)@.histories,
                author_id@,
            ).seen.insert(fingerprint(content@)),
            history_in(final(self)@.histories, author_id@).actions == history_in(
                old(self)@.histories,
                author_id@,
            ).actions,
            forall|a: Seq<char>|
                a != author_id@ ==> #[trigger] history_in(final(self)@.histories, a) == history_in(
                    old(self)@.histories,
                    a,
                ),
    {
        proof {
            use_type_invariant(&*self);
        }
        let fp = self.calculate_fingerprint(content);
        let mut records: Vec<AuthorRecord> = Vec::new();
        std::mem::swap(&mut records, &mut self.records);
        let i = entry_index(&mut records, author_id);
        let ghost rs = records@;
        let seen_before = records[i].note_fingerprint(fp);
        proof {
            lemma_histories_update(rs, i as int, records@[i as int]);
            assert(records@ == rs.update(i as int, records@[i as int]));
        }
        self.records = records;
        assert(self@ =~= duplicate_recorded(old(self)@, author_id@, content@).1);
        seen_before
    }

    /// Tells whether `author_id` goes over the allowed number of actions in the
    /// sliding window ending at `now`, and records the action in every case:
    /// the leading actions older than the window are dropped, `now` is appended.
    fn check_and_record_rate_limit(&mut self, author_id: &str, now: u64) -> (r: bool)
        ensures
            r == action_recorded(old(self)@, author_id@, now).0,
            final(self)@ == action_recorded(old(self)@, author_id@, now).1,
            final(self)@.config == old(self)@.config,
            ({
                let log = history_in(old(self)@.histories, author_id@).actions;
                let k = expired_prefix(log, window_start(now, old(self)@.config.rate_window_secs));
                &&& history_in(final(self)@.histories, author_id@).actions == log.subrange(
                    k as int,
                    log.len() as int,
                ).push(now)
                &&& r == (log.len() - k + 1 > old(self)@.config.rate_limit_max_actions)
            }),
            history_in(final(self)@.histories, author_id@).seen == history_in(
                old(self)@.histories,
                author_id@,
            ).seen,
            forall|a: Seq<char>|
                a != author_id@ ==> #[trigger] history_in(final(self)@.histories, a) == history_in(
                    old(self)@.histories,
                    a,
                ),
    {
        proof {
            use_type_invariant(&*self);
            law_window_drops_expired_prefix(
                history_in(self@.histories, author_id@).actions,
                window_start(now, self.config.rate_window_secs),
            );
        }
        let start = now.saturating_sub(self.config.rate_window_secs);
        let mut records: Vec<AuthorRecord> = Vec::new();
        std::mem::swap(&mut records, &mut self.records);
        let i = entry_index(&mut records, author_id);
        let ghost rs = records@;
        records[i].note_action(now, start);
        proof {
            lemma_histories_update(rs, i as int, records@[i as int]);
            assert(records@ == rs.update(i as int, records@[i as int]));
        }
        let limited = records[i].actions.len() > self.config.rate_limit_max_actions;
        self.records = records;
        assert(self@ =~= action_recorded(old(self)@, author_id@, now).1);
        limited
    }

    /// Evaluates `content`, published by `author_id` at `now` (Unix time in
    /// seconds), and returns the verdict combining every signal.
    ///
    /// The publication is recorded (fingerprint and timestamp) whether or not it
    /// is found suspicious.
    pub fn evaluate(&mut self, author_id: &str, content: &str, now: u64) -> (r: PurityVerdict)
        ensures
            r == evaluated(old(self)@, author_id@, content@, now).0,
            final(self)@ == evaluated(old(self)@, author_id@, content@, now).1,
    {
        let is_duplicate = self.check_and_record_duplicate(author_id, content);
        let is_rate_limited = self.check_and_record_rate_limit(author_id, now);
        let quality = evaluate_quality(content, &self.config);
        let ghost h = history_in(old(self)@.histories, author_id@);
        let ghost fp = fingerprint(content@);
        assert(self@.histories =~= old(self)@.histories.insert(
            author_id@,
            with_action(with_fingerprint(h, fp), now, self.config.rate_window_secs),
        ));
        PurityVerdict {
            is_duplicate,
            is_rate_limited,
            is_too_short: quality.is_too_short,
            is_shouting: quality.is_shouting,
            has_link_spam: quality.has_link_spam,
            has_char_spam: quality.has_char_spam,
        }
    }

    /// Forgets everything about `author_id` (fingerprints and actions), for
    /// instance once a moderator has cleared the author.
    pub fn reset_author(&mut self, author_id: &str)
        ensures
            final(self)@ == author_reset(old(self)@, author_id@),
    {
        proof {
            use_type_invariant(&*self);
        }
        let key = author_id.to_owned();
        let n = self.records.len();
        let mut i: usize = 0;
        while i < n
            invariant
                n == self.records@.len(),
                self.records@ == old(self).records@,
                self.config == old(self).config,
                distinct_authors(self.records@),
                i <= n,
                key@ == author_id@,
                forall|j: int| 0 <= j < i ==> self.records@[j].author@ != author_id@,
            decreases n - i,
        {
            if self.records[i].author == key {
                let mut records: Vec<AuthorRecord> = Vec::new();
                std::mem::swap(&mut records, &mut self.records);
                proof {
                    lemma_histories_remove(records@, i as int);
                }
                let _ = records.remove(i);
                self.records = records;
                return;
            }
            i = i + 1;
        }
        proof {
            lemma_histories_of(self.records@);
            if histories_of(self.records@).contains_key(author_id@) {
                let j = choose|j: int| holds_author(self.records@, j, author_id@);
                assert(self.records@[j].author@ == author_id@);
            }
            assert(histories_of(self.records@).remove(author_id@) =~= histories_of(self.records@));
        }
    }

    /// Forgets everything about every author.
    pub fn reset_all(&mut self)
        ensures
            final(self)@.config == old(self)@.config,
            final(self)@.histories == Map::<Seq<char>, AuthorHistory>::empty(),
    {
        self.records = Vec::new();
        assert(self@.histories =~= Map::<Seq<char>, AuthorHistory>::empty());
    }
}

} // verus!
