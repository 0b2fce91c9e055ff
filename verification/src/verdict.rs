//! Verdicts on a publication, and the stateless quality analysis.
use vstd::prelude::*;

use crate::config::PurityConfig;
use crate::text::capital_count;
use crate::text::chars_of;
use crate::text::count_links;
use crate::text::letter_count;
use crate::text::letter_counts;
use crate::text::link_count;
use crate::text::longest_repetition;
use crate::text::max_repetition;
use crate::text::trim;
use crate::text::trimmed;

verus! {

/// Outcome of [`crate::guard::PurityGuard::evaluate`]. A verdict blocks nothing by
/// itself: the caller decides what to do with the signals it raises.
#[derive(Clone, Copy, Debug, PartialEq, Eq, Structural)]
pub struct PurityVerdict {
    /// The same (or a nearly identical) publication was already seen for this author.
    pub is_duplicate: bool,
    /// The author went over the number of actions allowed in the time window.
    pub is_rate_limited: bool,
    /// The publication is too short to be meaningful.
    pub is_too_short: bool,
    /// The publication has too large a share of capital letters.
    pub is_shouting: bool,
    /// The publication holds too many links.
    pub has_link_spam: bool,
    /// The publication repeats one character too many times in a row.
    pub has_char_spam: bool,
}

/// Label of a duplicated publication.
pub open spec fn duplicate_label() -> Seq<char> {
    "contenu dupliqué"@
}

/// Label of a too frequent author.
pub open spec fn rate_label() -> Seq<char> {
    "fréquence de publication excessive"@
}

/// Label of a too short publication.
pub open spec fn short_label() -> Seq<char> {
    "contenu trop court"@
}

/// Label of a shouting publication.
pub open spec fn shouting_label() -> Seq<char> {
    "majuscules excessives"@
}

/// Label of a publication with too many links.
pub open spec fn links_label() -> Seq<char> {
    "trop de liens"@
}

/// Label of a publication repeating one character too often.
pub open spec fn repetition_label() -> Seq<char> {
    "répétition de caractères excessive"@
}

/// `label` alone when `raised`, nothing otherwise.
pub open spec fn label_if(raised: bool, label: Seq<char>) -> Seq<Seq<char>> {
    if raised {
        seq![label]
    } else {
        Seq::empty()
    }
}

/// The views of a list of labels.
pub open spec fn label_views(v: Seq<&'static str>) -> Seq<Seq<char>> {
    v.map_values(|s: &'static str| s@)
}

impl PurityVerdict {
    /// The labels of the raised signals, in the order duplicate, frequency,
    /// length, capitals, links, repetition.
    pub open spec fn reason_labels(self) -> Seq<Seq<char>> {
        label_if(self.is_duplicate, duplicate_label()) + label_if(
            self.is_rate_limited,
            rate_label(),
        ) + label_if(self.is_too_short, short_label()) + label_if(
            self.is_shouting,
            shouting_label(),
        ) + label_if(self.has_link_spam, links_label()) + label_if(
            self.has_char_spam,
            repetition_label(),
        )
    }

    /// Whether no signal is raised.
    pub open spec fn clean(self) -> bool {
        !self.is_duplicate && !self.is_rate_limited && !self.is_too_short && !self.is_shouting
            && !self.has_link_spam && !self.has_char_spam
    }

    /// `true` when no suspicious signal was raised.
    pub fn is_clean(&self) -> (r: bool)
        ensures
            r == self.clean(),
    {
        !self.is_duplicate && !self.is_rate_limited && !self.is_too_short && !self.is_shouting
            && !self.has_link_spam && !self.has_char_spam
    }

    /// The readable reasons for suspicion, one per raised signal.
    pub fn reasons(&self) -> (r: Vec<&'static str>)
        ensures
            label_views(r@) == self.reason_labels(),
    {
        let mut reasons: Vec<&'static str> = Vec::new();
        if self.is_duplicate {
            reasons.push("contenu dupliqué");
        }
        if self.is_rate_limited {
            reasons.push("fréquence de publication excessive");
        }
        if self.is_too_short {
            reasons.push("contenu trop court");
        }
        if self.is_shouting {
            reasons.push("majuscules excessives");
        }
        if self.has_link_spam {
            reasons.push("trop de liens");
        }
        if self.has_char_spam {
            reasons.push("répétition de caractères excessive");
        }
        assert(label_views(reasons@) =~= self.reason_labels());
        reasons
    }
}

/// Outcome of [`evaluate_quality`]: the signals on the text alone, without any
/// history (no duplicate, no frequency).
#[derive(Clone, Copy, Debug, PartialEq, Eq, Structural)]
pub struct QualityVerdict {
    /// The publication is too short to be meaningful.
    pub is_too_short: bool,
    /// The publication has too large a share of capital letters.
    pub is_shouting: bool,
    /// The publication holds too many links.
    pub has_link_spam: bool,
    /// The publication repeats one character too many times in a row.
    pub has_char_spam: bool,
}

impl QualityVerdict {
    /// The labels of the raised signals, in the order length, capitals, links,
    /// repetition.
    pub open spec fn reason_labels(self) -> Seq<Seq<char>> {
        label_if(self.is_too_short, short_label()) + label_if(self.is_shouting, shouting_label())
            + label_if(self.has_link_spam, links_label()) + label_if(
            self.has_char_spam,
            repetition_label(),
        )
    }

    /// Whether no signal is raised.
    pub open spec fn clean(self) -> bool {
        !self.is_too_short && !self.is_shouting && !self.has_link_spam && !self.has_char_spam
    }

    /// `true` when no quality signal was raised.
    pub fn is_clean(&self) -> (r: bool)
        ensures
            r == self.clean(),
    {
        !self.is_too_short && !self.is_shouting && !self.has_link_spam && !self.has_char_spam
    }

    /// The readable reasons for suspicion, one per raised signal.
    pub fn reasons(&self) -> (r: Vec<&'static str>)
        ensures
            label_views(r@) == self.reason_labels(),
    {
        let mut reasons: Vec<&'static str> = Vec::new();
        if self.is_too_short {
            reasons.push("contenu trop court");
        }
        if self.is_shouting {
            reasons.push("majuscules excessives");
        }
        if self.has_link_spam {
            reasons.push("trop de liens");
        }
        if self.has_char_spam {
            reasons.push("répétition de caractères excessive");
        }
        assert(label_views(reasons@) =~= self.reason_labels());
        reasons
    }
}

/// The quality signals of a publication under `config`, measured on the
/// publication without its leading and trailing white space.
pub open spec fn quality_of(content: Seq<char>, config: PurityConfig) -> QualityVerdict {
    let t = trimmed(content);
    QualityVerdict {
        is_too_short: t.len() < config.min_content_length,
        is_shouting: config.max_uppercase_ratio.is_exceeded_by(
            capital_count(t) as int,
            letter_count(t) as int,
        ),
        has_link_spam: link_count(t) > config.max_links,
        has_char_spam: longest_repetition(t) > config.max_char_repetition,
    }
}

/// Analyses the text of a publication alone, with no history: meant for callers
/// that keep duplicates and frequencies themselves (for instance in a database).
pub fn evaluate_quality(content: &str, config: &PurityConfig) -> (r: QualityVerdict)
    ensures
        r == quality_of(content@, *config),
{
    let chars = chars_of(content);
    let t = trim(&chars);
    let (letters, capitals) = letter_counts(&t);
    QualityVerdict {
        is_too_short: t.len() < config.min_content_length,
        is_shouting: config.max_uppercase_ratio.exceeded_by(capitals, letters),
        has_link_spam: count_links(&t) > config.max_links,
        has_char_spam: max_repetition(&t) > config.max_char_repetition,
    }
}

} // verus!
