use purity::content_fingerprint;
use purity::evaluate_quality;
use purity::text::count_links;
use purity::text::letter_counts;
use purity::text::max_repetition;
use purity::text::trim;
use purity::text::trim_bounds;
use purity::PurityConfig;
use purity::PurityGuard;
use purity::PurityVerdict;
use purity::QualityVerdict;
use purity::Ratio;

fn chars(s: &str) -> Vec<char> {
    s.chars().collect()
}

#[test]
fn default_thresholds() {
    let c = PurityConfig::default();
    assert_eq!(c.rate_limit_max_actions, 5);
    assert_eq!(c.rate_window_secs, 60);
    assert_eq!(c.min_content_length, 3);
    assert_eq!(c.max_uppercase_ratio, Ratio::new(7, 10));
    assert_eq!(c.max_links, 3);
    assert_eq!(c.max_char_repetition, 6);
}

#[test]
fn builders_replace_one_threshold_each() {
    let base = PurityConfig::default();
    let c = base
        .with_rate_limit_max_actions(10)
        .with_rate_window_secs(120)
        .with_min_content_length(1)
        .with_max_uppercase_ratio(Ratio::new(1, 2))
        .with_max_links(0)
        .with_max_char_repetition(2);
    assert_eq!(c.rate_limit_max_actions, 10);
    assert_eq!(c.rate_window_secs, 120);
    assert_eq!(c.min_content_length, 1);
    assert_eq!(c.max_uppercase_ratio, Ratio::new(1, 2));
    assert_eq!(c.max_links, 0);
    assert_eq!(c.max_char_repetition, 2);
    assert_eq!(base.with_max_links(9).max_char_repetition, base.max_char_repetition);
}

#[test]
fn ratio_comparison_is_exact() {
    let r = Ratio::new(7, 10);
    assert!(!r.exceeded_by(7, 10));
    assert!(r.exceeded_by(8, 10));
    assert!(!r.exceeded_by(0, 0));
    assert!(r.exceeded_by(1, 1));
    assert!(!Ratio::new(1, 0).exceeded_by(1000, 1));
    assert!(Ratio::new(0, 1).exceeded_by(1, 1000));
}

#[test]
fn trim_removes_white_space_at_both_ends() {
    assert_eq!(trim(&chars("  \t hi there \n ")), chars("hi there"));
    assert_eq!(trim(&chars(" \u{a0}\u{2003}x")), chars("x"));
    assert_eq!(trim(&chars("   ")), chars(""));
    assert_eq!(trim(&chars("")), chars(""));
    assert_eq!(trim_bounds(&chars("  ab ")), (2, 4));
}

#[test]
fn longest_repetition_of_one_character() {
    assert_eq!(max_repetition(&chars("")), 0);
    assert_eq!(max_repetition(&chars("abc")), 1);
    assert_eq!(max_repetition(&chars("aabbbc")), 3);
    assert_eq!(max_repetition(&chars("aaaa")), 4);
    assert_eq!(max_repetition(&chars("wahouuuuuuuuuu incroyable")), 10);
}

#[test]
fn links_are_counted_disjointly() {
    assert_eq!(count_links(&chars("")), 0);
    assert_eq!(count_links(&chars("http://a https://b http://")), 3);
    assert_eq!(count_links(&chars("http:/ https:/ ftp://x")), 0);
    assert_eq!(count_links(&chars("https://https://http://")), 3);
    assert_eq!(count_links(&chars("Regarde http://a.com http://b.com http://c.com http://d.com")), 4);
}

#[test]
fn letters_and_capitals() {
    assert_eq!(letter_counts(&chars("Hé LLO 123 !")), (5, 4));
    assert_eq!(letter_counts(&chars("123 ...")), (0, 0));
    assert_eq!(letter_counts(&chars("ÉCOLE")), (5, 5));
}

#[test]
fn shouting_threshold_is_strict() {
    let config = PurityConfig::default();
    assert!(!evaluate_quality("AAAAAAAbbb", &config).is_shouting);
    assert!(evaluate_quality("AAAAAAAAbb", &config).is_shouting);
    assert!(!evaluate_quality("1234 !!", &config).is_shouting);
}

#[test]
fn repetition_and_link_thresholds_are_strict() {
    let config = PurityConfig::default();
    assert!(!evaluate_quality("aaaaaa b", &config).has_char_spam);
    assert!(evaluate_quality("aaaaaaa b", &config).has_char_spam);
    assert!(!evaluate_quality("http://a http://b http://c", &config).has_link_spam);
    assert!(evaluate_quality("http://a http://b http://c https://d", &config).has_link_spam);
}

#[test]
fn length_is_measured_without_surrounding_white_space() {
    let config = PurityConfig::default();
    assert!(evaluate_quality("   ab   ", &config).is_too_short);
    assert!(!evaluate_quality("  abc ", &config).is_too_short);
    assert!(evaluate_quality("", &config).is_too_short);
    assert!(!evaluate_quality("été", &config).is_too_short);
}

#[test]
fn purity_reasons_come_in_order() {
    let v = PurityVerdict {
        is_duplicate: true,
        is_rate_limited: true,
        is_too_short: true,
        is_shouting: true,
        has_link_spam: true,
        has_char_spam: true,
    };
    assert_eq!(
        v.reasons(),
        vec![
            "contenu dupliqué",
            "fréquence de publication excessive",
            "contenu trop court",
            "majuscules excessives",
            "trop de liens",
            "répétition de caractères excessive",
        ]
    );
    assert!(!v.is_clean());
    let clean = PurityVerdict {
        is_duplicate: false,
        is_rate_limited: false,
        is_too_short: false,
        is_shouting: false,
        has_link_spam: false,
        has_char_spam: false,
    };
    assert!(clean.is_clean());
    assert!(clean.reasons().is_empty());
    let one = PurityVerdict { is_rate_limited: true, ..clean };
    assert_eq!(one.reasons(), vec!["fréquence de publication excessive"]);
}

#[test]
fn quality_reasons_come_in_order() {
    let q = QualityVerdict {
        is_too_short: true,
        is_shouting: false,
        has_link_spam: true,
        has_char_spam: true,
    };
    assert_eq!(
        q.reasons(),
        vec!["contenu trop court", "trop de liens", "répétition de caractères excessive"]
    );
    assert!(!q.is_clean());
    let clean = QualityVerdict {
        is_too_short: false,
        is_shouting: false,
        has_link_spam: false,
        has_char_spam: false,
    };
    assert!(clean.is_clean());
    assert!(clean.reasons().is_empty());
}

#[test]
fn fingerprint_ignores_case_and_surrounding_white_space_only() {
    assert_eq!(content_fingerprint("ABC"), content_fingerprint("abc"));
    assert_eq!(content_fingerprint("\t abc \n"), content_fingerprint("abc"));
    assert_ne!(content_fingerprint("abc"), content_fingerprint("abd"));
    assert_ne!(content_fingerprint("a bc"), content_fingerprint("abc"));
    let guard = PurityGuard::new(PurityConfig::default());
    assert_eq!(guard.calculate_fingerprint(" Hello "), content_fingerprint("hello"));
}

#[test]
fn guard_quality_matches_stateless_quality() {
    let config = PurityConfig::default();
    let mut guard = PurityGuard::new(config);
    for (i, text) in ["ACHETEZ", "ok", "http://a http://b http://c http://d", "zzzzzzzz", "Bonjour à tous"]
        .iter()
        .enumerate()
    {
        let v = guard.evaluate("someone", text, 100 + i as u64);
        let q = evaluate_quality(text, &config);
        assert_eq!(v.is_too_short, q.is_too_short);
        assert_eq!(v.is_shouting, q.is_shouting);
        assert_eq!(v.has_link_spam, q.has_link_spam);
        assert_eq!(v.has_char_spam, q.has_char_spam);
    }
}

#[test]
fn republication_is_duplicate_even_much_later() {
    let mut guard = PurityGuard::new(PurityConfig::default());
    assert!(!guard.evaluate("alice", "Un projet en Rust", 10).is_duplicate);
    assert!(!guard.evaluate("alice", "autre chose", 20).is_duplicate);
    assert!(guard.evaluate("alice", "  UN PROJET EN RUST ", 1_000_000).is_duplicate);
}

#[test]
fn newcomer_with_no_allowed_action_is_rate_limited() {
    let mut guard = PurityGuard::new(PurityConfig::default().with_rate_limit_max_actions(0));
    let v = guard.evaluate("bob", "bonjour", 5);
    assert!(v.is_rate_limited);
    assert!(!v.is_duplicate);
}

#[test]
fn window_start_saturates_at_zero() {
    let config = PurityConfig::default().with_rate_limit_max_actions(1).with_rate_window_secs(100);
    let mut guard = PurityGuard::new(config);
    assert!(!guard.evaluate("c", "un", 0).is_rate_limited);
    assert!(guard.evaluate("c", "deux", 50).is_rate_limited);
    assert!(!guard.evaluate("c", "trois", 1000).is_rate_limited);
}

#[test]
fn reset_all_forgets_every_author() {
    let mut guard = PurityGuard::new(PurityConfig::default().with_rate_limit_max_actions(1));
    guard.evaluate("a", "message", 1);
    guard.evaluate("b", "message", 1);
    guard.reset_all();
    let va = guard.evaluate("a", "message", 2);
    let vb = guard.evaluate("b", "message", 2);
    assert!(!va.is_duplicate && !va.is_rate_limited);
    assert!(!vb.is_duplicate && !vb.is_rate_limited);
}

#[test]
fn reset_author_leaves_others_alone() {
    let mut guard = PurityGuard::new(PurityConfig::default());
    guard.evaluate("a", "message", 1);
    guard.evaluate("b", "message", 1);
    guard.reset_author("a");
    guard.reset_author("nobody");
    assert!(!guard.evaluate("a", "message", 2).is_duplicate);
    assert!(guard.evaluate("b", "message", 2).is_duplicate);
}

#[test]
fn moderation_flow_scenario() {
    let mut guard = PurityGuard::new(PurityConfig::default().with_rate_limit_max_actions(3));
    assert!(guard.evaluate("alice", "Voici mon projet du jour, un site en Rust.", 1000).is_clean());
    let bob = guard.evaluate("bob", "ACHETEZ MAINTENANT PROMO INCROYABLE", 1001);
    assert!(bob.is_shouting);
    assert!(guard.evaluate("alice", "Voici mon projet du jour, un site en Rust.", 1002).is_duplicate);
    let links = guard.evaluate("bob", "http://spam1.com http://spam2.com http://spam3.com http://spam4.com", 1003);
    assert!(links.has_link_spam);
    assert!(guard.evaluate("carol", "ok", 1004).is_too_short);
    assert!(!guard.evaluate("dave", "post 1", 1005).is_rate_limited);
    assert!(!guard.evaluate("dave", "post 2", 1006).is_rate_limited);
    assert!(!guard.evaluate("dave", "post 3", 1007).is_rate_limited);
    let fourth = guard.evaluate("dave", "post 4", 1008);
    assert!(fourth.is_rate_limited);
    assert_eq!(fourth.reasons(), vec!["fréquence de publication excessive"]);
}

#[test]
fn duplicates_over_a_history_with_resets() {
    let mut guard = PurityGuard::new(PurityConfig::default());
    assert!(!guard.evaluate("alice", "Bonjour tout le monde", 1).is_duplicate);
    assert!(!guard.evaluate("bob", "Bonjour tout le monde", 2).is_duplicate);
    guard.reset_author("bob");
    assert!(!guard.evaluate("alice", "Autre chose entierement", 3).is_duplicate);
    assert!(guard.evaluate("alice", "  bonjour TOUT le monde ", 4).is_duplicate);
    assert!(!guard.evaluate("bob", "Bonjour tout le monde", 5).is_duplicate);
    guard.reset_author("alice");
    assert!(!guard.evaluate("alice", "Bonjour tout le monde", 6).is_duplicate);
    guard.reset_all();
    assert!(!guard.evaluate("alice", "Bonjour tout le monde", 7).is_duplicate);
    assert!(!guard.evaluate("bob", "Bonjour tout le monde", 8).is_duplicate);
}

#[test]
fn rate_limit_counts_publications_in_window_since_reset() {
    let config = PurityConfig::default().with_rate_limit_max_actions(2).with_rate_window_secs(10);
    let mut guard = PurityGuard::new(config);
    // Flagged publications count as much as the others.
    assert!(!guard.evaluate("a", "un", 100).is_rate_limited);
    assert!(!guard.evaluate("a", "deux", 101).is_rate_limited);
    assert!(guard.evaluate("a", "trois", 102).is_rate_limited);
    assert!(guard.evaluate("a", "quatre", 110).is_rate_limited);
    // At 112 the window starts at 102: 100 and 101 have left, 102 and 110 remain.
    assert!(guard.evaluate("a", "cinq", 112).is_rate_limited);
    // Another author's actions and resets do not count.
    assert!(!guard.evaluate("b", "six", 112).is_rate_limited);
    guard.reset_author("b");
    assert!(guard.evaluate("a", "sept", 113).is_rate_limited);
    guard.reset_author("a");
    assert!(!guard.evaluate("a", "huit", 113).is_rate_limited);
    assert!(!guard.evaluate("a", "neuf", 113).is_rate_limited);
    assert!(guard.evaluate("a", "dix", 113).is_rate_limited);
    // Long after, only the new publication is in the window.
    assert!(!guard.evaluate("a", "onze", 1_000).is_rate_limited);
}

#[test]
fn publishing_the_same_text_twice_in_a_row() {
    let mut guard = PurityGuard::new(PurityConfig::default());
    let first = guard.evaluate("zoe", "Premier message de la journee", 50);
    let second = guard.evaluate("zoe", "Premier message de la journee", 51);
    let third = guard.evaluate("zoe", "Premier message de la journee", 52);
    assert!(!first.is_duplicate);
    assert!(second.is_duplicate);
    assert!(third.is_duplicate);
    assert_eq!(second.is_shouting, third.is_shouting);
}
