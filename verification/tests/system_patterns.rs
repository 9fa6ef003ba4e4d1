//! Further pattern rules of system e-mail detection.

use applymonitor::system_email::{
    decode_email_address, is_system_email_in, matches_pattern, matches_system_patterns,
    split_email_address, SystemEmailDomain,
};

fn domain(pattern: &str) -> SystemEmailDomain {
    SystemEmailDomain { id: "d".to_string(), domain_pattern: pattern.to_string(), name: None }
}

#[test]
fn pattern_equal_text_matches() {
    assert!(matches_pattern("", ""));
    assert!(matches_pattern("a*b*c", "a*b*c"));
}

#[test]
fn pattern_prefix_star_without_dot() {
    assert!(matches_pattern("noreply*", "noreply"));
    assert!(matches_pattern("noreply*", "noreplyteam"));
    assert!(!matches_pattern("noreply*", "no-reply"));
}

#[test]
fn pattern_prefix_and_suffix() {
    assert!(matches_pattern("mail*.com", "mailer.com"));
    assert!(matches_pattern("mail*.com", "mail.com"));
    assert!(!matches_pattern("mail*.com", "mailer.org"));
    assert!(!matches_pattern("mail*.com", "gmail.com"));
}

#[test]
fn pattern_star_suffix_without_dot() {
    assert!(matches_pattern("*bot", "robot"));
    assert!(matches_pattern("*bot", "bot"));
    assert!(!matches_pattern("*bot", "bots"));
}

#[test]
fn pattern_with_two_stars_never_matches_other_text() {
    assert!(!matches_pattern("*.*", "a.b"));
    assert!(!matches_pattern("a**", "abc"));
}

#[test]
fn pattern_without_star_is_exact() {
    assert!(!matches_pattern("example.com", "sub.example.com"));
    assert!(!matches_pattern("example.com", "Example.com"));
}

#[test]
fn lone_star_matches_everything() {
    assert!(matches_pattern("*", "anything"));
    assert!(matches_pattern("*", ""));
}

#[test]
fn decode_email_address_percent_forms() {
    assert_eq!(decode_email_address("jobs%40greenhouse%2Eio"), "jobs@greenhouse.io");
    assert_eq!(decode_email_address("plain@x.com"), "plain@x.com");
    assert_eq!(decode_email_address("%2e%40"), "%2e@");
}

#[test]
fn split_email_address_at_first_at() {
    assert_eq!(
        split_email_address("noreply@mail.example.com"),
        Some(("noreply".to_string(), "mail.example.com".to_string()))
    );
    assert_eq!(split_email_address("a@b@c"), Some(("a".to_string(), "b@c".to_string())));
    assert_eq!(split_email_address("x%40y.org"), Some(("x".to_string(), "y.org".to_string())));
    assert_eq!(split_email_address("no-at-sign"), None);
}

#[test]
fn system_patterns_match_domain_or_local_part() {
    let patterns = vec!["*.greenhouse.io".to_string(), "noreply.*".to_string()];
    assert!(matches_system_patterns(&patterns, "jobs@app.greenhouse.io"));
    assert!(matches_system_patterns(&patterns, "noreply@company.com"));
    assert!(matches_system_patterns(&patterns, "noreply-hr@company.com"));
    assert!(!matches_system_patterns(&patterns, "jane@company.com"));
    assert!(!matches_system_patterns(&patterns, "noreply"));
    assert!(!matches_system_patterns(&Vec::new(), "noreply@company.com"));
}

#[test]
fn system_domains_from_stored_rows() {
    let domains = vec![domain("mailchimp.com"), domain("*.lever.co")];
    assert!(is_system_email_in(&domains, "news@mailchimp.com"));
    assert!(is_system_email_in(&domains, "hire%40jobs.lever.co"));
    assert!(!is_system_email_in(&domains, "news@mailchimp.org"));
    assert!(!is_system_email_in(&Vec::new(), "news@mailchimp.com"));
}

#[test]
fn more_patterns_keep_matches() {
    let mut patterns = vec!["noreply.*".to_string()];
    assert!(matches_system_patterns(&patterns, "noreply@x.com"));
    patterns.push("mailchimp.com".to_string());
    assert!(matches_system_patterns(&patterns, "noreply@x.com"));
    assert!(matches_system_patterns(&patterns, "news@mailchimp.com"));
}
