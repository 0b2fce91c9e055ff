//! Detection thresholds.
use vstd::prelude::*;

verus! {

/// A nonnegative ratio `num / den`, compared exactly (no rounding).
///
/// A ratio with `den == 0` stands for an unbounded ratio: nothing exceeds it.
#[derive(Clone, Copy, Debug, PartialEq, Eq, Structural)]
pub struct Ratio {
    /// Numerator.
    pub num: u64,
    /// Denominator.
    pub den: u64,
}

impl Ratio {
    /// The ratio `num / den`.
    pub fn new(num: u64, den: u64) -> (r: Ratio)
        ensures
            r.num == num,
            r.den == den,
    {
        Ratio { num, den }
    }

    /// Whether `part / whole` is strictly above this ratio (cross-multiplied, so that
    /// an empty `whole` never exceeds it).
    pub open spec fn is_exceeded_by(self, part: int, whole: int) -> bool {
        part * self.den > self.num * whole
    }

    /// Whether `part / whole` is strictly above this ratio.
    pub fn exceeded_by(&self, part: usize, whole: usize) -> (r: bool)
        ensures
            r == self.is_exceeded_by(part as int, whole as int),
    {
        let p = part as u128;
        let w = whole as u128;
        let n = self.num as u128;
        let d = self.den as u128;
        proof {
            let m = 0xffff_ffff_ffff_ffffu128;
            assert(p * d <= m * m) by (nonlinear_arith)
                requires
                    p <= m,
                    d <= m,
            ;
            assert(n * w <= m * m) by (nonlinear_arith)
                requires
                    n <= m,
                    w <= m,
            ;
        }
        p * d > n * w
    }
}

/// Thresholds of the anti-bot checks.
///
/// [`PurityConfig::default`] gives the standard values; each `with_*` method
/// returns a copy with one threshold replaced.
#[derive(Clone, Copy, Debug, PartialEq, Eq, Structural)]
pub struct PurityConfig {
    /// Number of actions allowed within `rate_window_secs` before an author is
    /// considered too frequent.
    pub rate_limit_max_actions: usize,
    /// Length, in seconds, of the sliding window used for rate limiting.
    pub rate_window_secs: u64,
    /// Length (in characters) under which a publication is too short.
    pub min_content_length: usize,
    /// Largest share of capitals among the letters before a text counts as shouting.
    pub max_uppercase_ratio: Ratio,
    /// Number of links (`http://` / `https://`) allowed in a publication.
    pub max_links: usize,
    /// Longest allowed stretch of one repeated character.
    pub max_char_repetition: usize,
}

/// The standard thresholds, meant for a social network of short to medium texts.
pub open spec fn standard_config() -> PurityConfig {
    PurityConfig {
        rate_limit_max_actions: 5,
        rate_window_secs: 60,
        min_content_length: 3,
        max_uppercase_ratio: Ratio { num: 7, den: 10 },
        max_links: 3,
        max_char_repetition: 6,
    }
}

impl Default for PurityConfig {
    /// The standard thresholds: 5 actions per 60 s, at least 3 characters, at most
    /// 7/10 of capitals, 3 links and 6 repetitions of one character.
    fn default() -> (r: Self)
        ensures
            r == standard_config(),
    {
        PurityConfig {
            rate_limit_max_actions: 5,
            rate_window_secs: 60,
            min_content_length: 3,
            max_uppercase_ratio: Ratio { num: 7, den: 10 },
            max_links: 3,
            max_char_repetition: 6,
        }
    }
}

impl PurityConfig {
    /// A copy with a new limit on the number of actions.
    pub fn with_rate_limit_max_actions(self, max: usize) -> (r: Self)
        ensures
            r == (PurityConfig { rate_limit_max_actions: max, ..self }),
    {
        let mut c = self;
        c.rate_limit_max_actions = max;
        c
    }

    /// A copy with a new time window.
    pub fn with_rate_window_secs(self, secs: u64) -> (r: Self)
        ensures
            r == (PurityConfig { rate_window_secs: secs, ..self }),
    {
        let mut c = self;
        c.rate_window_secs = secs;
        c
    }

    /// A copy with a new minimal length.
    pub fn with_min_content_length(self, len: usize) -> (r: Self)
        ensures
            r == (PurityConfig { min_content_length: len, ..self }),
    {
        let mut c = self;
        c.min_content_length = len;
        c
    }

    /// A copy with a new largest share of capitals.
    pub fn with_max_uppercase_ratio(self, ratio: Ratio) -> (r: Self)
        ensures
            r == (PurityConfig { max_uppercase_ratio: ratio, ..self }),
    {
        let mut c = self;
        c.max_uppercase_ratio = ratio;
        c
    }

    /// A copy with a new number of links allowed.
    pub fn with_max_links(self, max: usize) -> (r: Self)
        ensures
            r == (PurityConfig { max_links: max, ..self }),
    {
        let mut c = self;
        c.max_links = max;
        c
    }

    /// A copy with a new longest stretch of one repeated character.
    pub fn with_max_char_repetition(self, max: usize) -> (r: Self)
        ensures
            r == (PurityConfig { max_char_repetition: max, ..self }),
    {
        let mut c = self;
        c.max_char_repetition = max;
        c
    }
}

} // verus!
