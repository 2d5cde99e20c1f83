use leaf::domain_trie::DomainSuffixTrie;
use leaf::remote_rule::{
    after_failed_attempt, compile_rules, retry_delay_nanos, CompiledRemoteRule, RemoteDomainMatcher, RemoteRuleType, RetryStep,
};

#[test]
fn trie_matches_suffixes() {
    let mut t = DomainSuffixTrie::new();
    t.insert("google.com");
    t.insert(".baidu.com");
    assert!(t.matches("www.google.com"));
    assert!(t.matches("google.com"));
    assert!(t.matches("a.b.baidu.com"));
    assert!(t.matches("baidu.com"));
    assert!(!t.matches("example.com"));
    assert!(!t.matches("com"));
    assert!(!t.matches("notgoogle.com"));
    assert!(!t.matches(""));
}

#[test]
fn trie_empty_matches_nothing() {
    let t = DomainSuffixTrie::new();
    assert!(!t.matches("www.google.com"));
    assert!(!t.matches("com"));
}

#[test]
fn trie_wildcard_case_and_dots() {
    let mut t = DomainSuffixTrie::new();
    t.insert("*.Example.ORG.");
    t.insert("  # a comment  ");
    t.insert("   ");
    t.insert("...");
    assert!(t.matches("WWW.EXAMPLE.org"));
    assert!(t.matches("example.org."));
    assert!(t.matches("  sub.example.org  "));
    assert!(!t.matches("example.net"));
    assert!(!t.matches("#"));
}

#[test]
fn trie_shorter_suffix_covers_longer() {
    let mut t = DomainSuffixTrie::new();
    t.insert("mail.google.com");
    assert!(!t.matches("www.google.com"));
    t.insert("google.com");
    assert!(t.matches("www.google.com"));
    t.insert("x.y.google.com");
    assert!(t.matches("mail.google.com"));
    assert!(t.matches("z.google.com"));
}

#[test]
fn trie_empty_labels_are_skipped() {
    let mut t = DomainSuffixTrie::new();
    t.insert("a..b");
    assert!(t.matches("a.b"));
    assert!(t.matches("x.a..b"));
}

#[test]
fn compile_suffix_rules_counts_lines() {
    let (rule, n) = compile_rules("google.com\n.baidu.com\n\n# comment\r\n  \n", RemoteRuleType::Suffix);
    assert_eq!(n, 2);
    match rule {
        CompiledRemoteRule::Suffix(t) => {
            assert!(t.matches("www.google.com"));
            assert!(t.matches("tieba.baidu.com"));
            assert!(!t.matches("example.com"));
        }
        _ => panic!("expected suffix rules"),
    }
}

#[test]
fn compile_keyword_rules() {
    let (rule, n) = compile_rules("Google\nads\n#x\n", RemoteRuleType::Keyword);
    assert_eq!(n, 2);
    assert!(matches!(rule, CompiledRemoteRule::Keyword(Some(_))));
    let (rule, n) = compile_rules("# only comments\n\n", RemoteRuleType::Keyword);
    assert_eq!(n, 0);
    assert!(matches!(rule, CompiledRemoteRule::Keyword(None)));
}

/// Runs one refresh: attempts fail until `fail_first` have failed, then the
/// body is fetched; returns the result and the number of fetches made.
fn refresh(interval_nanos: u64, fail_first: usize, body: &str) -> (Result<String, String>, usize, Vec<u64>) {
    let mut fetches = 0usize;
    let mut delays = Vec::new();
    let mut attempt = 0u32;
    loop {
        fetches += 1;
        let outcome: Result<String, String> =
            if fetches > fail_first { Ok(body.to_string()) } else { Err("HTTP status 500".to_string()) };
        match outcome {
            Ok(b) => return (Ok(b), fetches, delays),
            Err(e) => match after_failed_attempt(interval_nanos, attempt) {
                RetryStep::Retry(d) => {
                    delays.push(d);
                    attempt += 1;
                }
                RetryStep::GiveUp => return (Err(e), fetches, delays),
            },
        }
    }
}

#[test]
fn test_remote_domain_matcher_lifecycle_and_error_handling() {
    let mut m = RemoteDomainMatcher::new("http://127.0.0.1:1/suffix.txt".to_string(), RemoteRuleType::Suffix);
    assert_eq!(m.url(), "http://127.0.0.1:1/suffix.txt");
    assert_eq!(m.rule_type(), RemoteRuleType::Suffix);
    let sess_google = Some("www.google.com");
    // 1. The first refresh fails with 500 on the fetch and its 3 retries:
    // the list is not loaded and nothing matches.
    let (r, fetches, delays) = refresh(500_000_000, 4, "");
    assert_eq!(fetches, 4);
    assert_eq!(delays, vec![62_500_000, 125_000_000, 250_000_000]);
    assert_eq!(m.apply_fetch(r), None);
    assert!(!m.is_initialized());
    assert!(!m.matches_domain(sess_google));
    // 2. The next refresh succeeds (the fifth request overall).
    let (r, fetches, _) = refresh(500_000_000, 0, "google.com\n.baidu.com\n");
    assert_eq!(fetches, 1);
    assert_eq!(m.apply_fetch(r), Some(2));
    assert!(m.is_initialized());
    assert!(m.matches_domain(sess_google));
    assert!(!m.matches_domain(Some("example.com")));
    // An IP destination never matches.
    assert!(!m.matches_domain(None));
    // 3. A later refresh fails with 502 across its retries: the rules stay.
    let (r, fetches, _) = refresh(500_000_000, 4, "");
    assert_eq!(fetches, 4);
    assert_eq!(r, Err("HTTP status 500".to_string()));
    assert_eq!(m.apply_fetch(r), None);
    assert!(m.matches_domain(sess_google));
}

#[test]
fn retry_steps() {
    assert_eq!(after_failed_attempt(500_000_000, 0), RetryStep::Retry(62_500_000));
    assert_eq!(after_failed_attempt(500_000_000, 2), RetryStep::Retry(250_000_000));
    assert_eq!(after_failed_attempt(500_000_000, 3), RetryStep::GiveUp);
}

#[test]
fn rules_ignore_ascii_case() {
    let mut t = DomainSuffixTrie::new();
    t.insert("GooGle.COM");
    assert!(t.matches("mail.google.com"));
    assert!(t.matches("MAIL.GOOGLE.COM"));
}

#[test]
fn keyword_matcher_matches_substrings() {
    let mut m = RemoteDomainMatcher::new("http://h/k.txt".to_string(), RemoteRuleType::Keyword);
    m.update("GOOGLE\n");
    assert!(m.matches_domain(Some("www.google.com")));
    assert!(m.matches_domain(Some("  WWW.Google.COM ")));
    assert!(!m.matches_domain(Some("example.com")));
    let mut empty = RemoteDomainMatcher::new("http://h/k.txt".to_string(), RemoteRuleType::Keyword);
    empty.update("\n");
    assert!(empty.is_initialized());
    assert!(!empty.matches_domain(Some("www.google.com")));
}

#[test]
fn retry_delays() {
    // 500 ms interval: an eighth is 62.5 ms.
    assert_eq!(retry_delay_nanos(500_000_000, 1), 62_500_000);
    assert_eq!(retry_delay_nanos(500_000_000, 2), 125_000_000);
    assert_eq!(retry_delay_nanos(500_000_000, 3), 250_000_000);
    // Short intervals use the 50 ms floor.
    assert_eq!(retry_delay_nanos(80_000_000, 1), 50_000_000);
    // Long intervals use the 1 s cap.
    assert_eq!(retry_delay_nanos(3_600_000_000_000, 3), 4_000_000_000);
}
