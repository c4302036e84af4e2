use cep_core::grammar::parse_pattern;

#[test]
fn test_pattern_parser() {
    let patterns = vec![
        "speed > 0",
        "speed > 0 for 3 min or (sin(angle) > 0.5 and voltage <= 220)",
        "speed > 0 for 3 min",
        "speed > 0 for 3 min andThen position = 5",
    ];
    for pattern in patterns {
        assert!(parse_pattern(pattern), "{}", pattern);
    }
}

#[test]
fn parser_rejects_malformed() {
    assert!(!parse_pattern(""));
    assert!(!parse_pattern("speed >"));
    assert!(!parse_pattern("(speed > 0"));
    assert!(!parse_pattern("speed > 0)"));
    assert!(!parse_pattern("speed > 0 for min"));
    assert!(!parse_pattern("speed > 0 for 3"));
    assert!(!parse_pattern("and > 0"));
    assert!(!parse_pattern("speed ? 0"));
}

#[test]
fn parser_accepts_calls_and_operators() {
    assert!(parse_pattern("f()"));
    assert!(parse_pattern("lag(speed, 2) != -1"));
    assert!(parse_pattern("  a * b + c / 2.25 >= 10  "));
}
