use purity::content_fingerprint;
use purity::evaluate_quality;
use purity::PurityConfig;
use purity::PurityGuard;
use purity::Ratio;

#[test]
fn test_clean_content_passes() {
    let mut guard = PurityGuard::new(PurityConfig::default());
    let verdict = guard.evaluate("author_1", "Un message authentique et réfléchi.", 1000);
    assert!(verdict.is_clean());
}

#[test]
fn test_duplicate_detection() {
    let mut guard = PurityGuard::new(PurityConfig::default());
    let content = "Toujours le même message";

    let first = guard.evaluate("author_1", content, 1000);
    assert!(!first.is_duplicate);

    let second = guard.evaluate("author_1", content, 1001);
    assert!(second.is_duplicate);
}

#[test]
fn test_duplicate_is_case_and_whitespace_insensitive() {
    let mut guard = PurityGuard::new(PurityConfig::default());

    let first = guard.evaluate("author_1", "  Bonjour Le Monde  ", 1000);
    assert!(!first.is_duplicate);

    let second = guard.evaluate("author_1", "bonjour le monde", 1001);
    assert!(second.is_duplicate);
}

#[test]
fn test_duplicate_is_per_author() {
    let mut guard = PurityGuard::new(PurityConfig::default());
    let content = "Message partagé par deux auteurs différents";

    let first = guard.evaluate("author_1", content, 1000);
    let second = guard.evaluate("author_2", content, 1001);

    assert!(!first.is_duplicate);
    assert!(!second.is_duplicate);
}

#[test]
fn test_rate_limiting_triggers_after_threshold() {
    let config = PurityConfig::default().with_rate_limit_max_actions(3);
    let mut guard = PurityGuard::new(config);

    for i in 0..3 {
        let verdict = guard.evaluate("author_1", &format!("message {i}"), 1000 + i);
        assert!(!verdict.is_rate_limited, "action {i} ne devrait pas être limitée");
    }

    let verdict = guard.evaluate("author_1", "message 4", 1004);
    assert!(verdict.is_rate_limited);
}

#[test]
fn test_rate_limit_window_expires() {
    let config = PurityConfig::default()
        .with_rate_limit_max_actions(2)
        .with_rate_window_secs(10);
    let mut guard = PurityGuard::new(config);

    guard.evaluate("author_1", "a", 1000);
    guard.evaluate("author_1", "b", 1001);
    let limited = guard.evaluate("author_1", "c", 1002);
    assert!(limited.is_rate_limited);

    let after_window = guard.evaluate("author_1", "d", 1020);
    assert!(!after_window.is_rate_limited);
}

#[test]
fn test_too_short_content() {
    let mut guard = PurityGuard::new(PurityConfig::default());
    let verdict = guard.evaluate("author_1", "ok", 1000);
    assert!(verdict.is_too_short);
}

#[test]
fn test_shouting_detection() {
    let mut guard = PurityGuard::new(PurityConfig::default());
    let verdict = guard.evaluate("author_1", "ACHETEZ MAINTENANT VITE VITE", 1000);
    assert!(verdict.is_shouting);
}

#[test]
fn test_normal_capitalization_is_not_shouting() {
    let mut guard = PurityGuard::new(PurityConfig::default());
    let verdict = guard.evaluate("author_1", "Ceci est une phrase normale.", 1000);
    assert!(!verdict.is_shouting);
}

#[test]
fn test_link_spam_detection() {
    let mut guard = PurityGuard::new(PurityConfig::default());
    let content = "Regarde http://a.com http://b.com http://c.com http://d.com";
    let verdict = guard.evaluate("author_1", content, 1000);
    assert!(verdict.has_link_spam);
}

#[test]
fn test_char_repetition_spam() {
    let mut guard = PurityGuard::new(PurityConfig::default());
    let verdict = guard.evaluate("author_1", "wahouuuuuuuuuu incroyable", 1000);
    assert!(verdict.has_char_spam);
}

#[test]
fn test_reset_author_clears_history() {
    let mut guard = PurityGuard::new(PurityConfig::default());
    let content = "message unique";

    guard.evaluate("author_1", content, 1000);
    guard.reset_author("author_1");

    let verdict = guard.evaluate("author_1", content, 1001);
    assert!(!verdict.is_duplicate);
}

#[test]
fn test_reasons_lists_all_triggered_signals() {
    let config = PurityConfig::default().with_min_content_length(50);
    let mut guard = PurityGuard::new(config);
    let verdict = guard.evaluate("author_1", "COURT", 1000);

    assert!(verdict.is_too_short);
    assert!(verdict.is_shouting);
    assert!(verdict.reasons().contains(&"contenu trop court"));
    assert!(verdict.reasons().contains(&"majuscules excessives"));
}

#[test]
fn test_builder_pattern_overrides_defaults() {
    // The ratio 0.9 is written exactly as 9/10.
    let config = PurityConfig::default()
        .with_max_links(1)
        .with_max_uppercase_ratio(Ratio::new(9, 10));

    assert_eq!(config.max_links, 1);
    assert_eq!(config.max_uppercase_ratio, Ratio::new(9, 10));
    assert_eq!(
        config.max_uppercase_ratio.num as f64 / config.max_uppercase_ratio.den as f64,
        0.9
    );
    assert_eq!(config.rate_limit_max_actions, PurityConfig::default().rate_limit_max_actions);
}

#[test]
fn test_content_fingerprint_matches_case_and_whitespace_insensitive() {
    let fp1 = content_fingerprint("  Bonjour Le Monde  ");
    let fp2 = content_fingerprint("bonjour le monde");
    assert_eq!(fp1, fp2);
}

#[test]
fn test_evaluate_quality_is_stateless() {
    let config = PurityConfig::default();

    let first = evaluate_quality("Un message authentique.", &config);
    let second = evaluate_quality("Un message authentique.", &config);
    assert_eq!(first, second);
    assert!(first.is_clean());
}

#[test]
fn test_evaluate_quality_detects_shouting() {
    let config = PurityConfig::default();
    let verdict = evaluate_quality("ACHETEZ MAINTENANT VITE VITE", &config);
    assert!(verdict.is_shouting);
}
