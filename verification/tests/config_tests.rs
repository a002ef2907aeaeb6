use inferrust_proxy::config::{
    backend_urls_from, behind_proxy_from, parse_backend_urls, rate_limit_config, rate_limit_from,
    DEFAULT_RATE_LIMIT,
};
use inferrust_proxy::text::{parse_usize, trim_str};

#[test]
fn rate_limit_values() {
    assert_eq!(rate_limit_from(None), DEFAULT_RATE_LIMIT);
    assert_eq!(rate_limit_from(Some("250")), 250);
    assert_eq!(rate_limit_from(Some("+7")), 7);
    assert_eq!(rate_limit_from(Some("abc")), 100);
    assert_eq!(rate_limit_from(Some("-1")), 100);
    assert_eq!(rate_limit_from(Some("")), 100);
    assert_eq!(rate_limit_from(Some(" 5")), 100);
    assert_eq!(rate_limit_from(Some("99999999999999999999999")), 100);
}

#[test]
fn parse_usize_agrees_with_std() {
    for s in ["0", "42", "+42", "+", "-", "-0", "007", "1_000", "١٢", "18446744073709551615", "18446744073709551616", ""] {
        assert_eq!(parse_usize(s), s.parse::<usize>().ok(), "input {:?}", s);
    }
}

#[test]
fn behind_proxy_values() {
    assert!(behind_proxy_from(Some("true")));
    assert!(behind_proxy_from(Some("1")));
    assert!(!behind_proxy_from(Some("TRUE")));
    assert!(!behind_proxy_from(Some("yes")));
    assert!(!behind_proxy_from(None));
    let c = rate_limit_config(Some("1"), Some("3"));
    assert_eq!((c.limit, c.behind_proxy), (3, true));
}

#[test]
fn backend_urls_are_cleaned() {
    assert_eq!(
        parse_backend_urls(" http://localhost:11434/ ,http://localhost:11435//"),
        vec!["http://localhost:11434".to_string(), "http://localhost:11435".to_string()]
    );
    assert_eq!(parse_backend_urls(""), vec![String::new()]);
    assert_eq!(parse_backend_urls("a,,b"), vec!["a".to_string(), String::new(), "b".to_string()]);
    assert_eq!(backend_urls_from(None), vec!["http://localhost:11434".to_string()]);
}

#[test]
fn backend_urls_agree_with_std() {
    for s in ["http://a/, http://b", " x / ,", "\u{3000}y\u{3000}", "/ /"] {
        let expected: Vec<String> = s.split(',').map(|p| p.trim().trim_end_matches('/').to_string()).collect();
        assert_eq!(parse_backend_urls(s), expected, "input {:?}", s);
    }
}

#[test]
fn trim_agrees_with_std() {
    for s in ["  a b  ", "\u{2003}x\u{85}", "", "   ", "\tq"] {
        assert_eq!(trim_str(s), s.trim());
    }
}
