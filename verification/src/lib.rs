//! # Purity
//!
//! Lightweight anti-bot and anti-spam screening for a social network. Three
//! complementary signals are combined into one verdict per publication:
//!
//! - **content fingerprint**: duplicated or nearly identical publications of one
//!   author (copy-and-paste spam);
//! - **rate limiting**: an unusual number of actions of one author in a short time;
//! - **content quality**: shouting in capitals, runs of one repeated character,
//!   too many links, too short a text.
//!
//! [`PurityGuard`] keeps the history in memory. [`content_fingerprint`] and
//! [`evaluate_quality`] need no state, for callers that keep duplicates and
//! frequencies in their own storage.
pub mod config;
pub mod fingerprint;
pub mod guard;
pub mod history;
pub mod laws;
pub mod text;
pub mod verdict;

pub use config::PurityConfig;
pub use config::Ratio;
pub use fingerprint::content_fingerprint;
pub use guard::PurityGuard;
pub use verdict::evaluate_quality;
pub use verdict::PurityVerdict;
pub use verdict::QualityVerdict;
