use hostport::validate::is_valid_host;
use hostport::validate::is_valid_label;

#[test]
fn test_is_valid_label() {
    // invalid
    assert!(!is_valid_label(""));
    assert!(!is_valid_label("a".repeat(64).as_str()));
    assert!(!is_valid_label("a-"));
    assert!(!is_valid_label("-a"));
    assert!(!is_valid_label("-a-"));
    assert!(!is_valid_label("a|b"));
    assert!(!is_valid_label("000"));

    // valid
    assert!(is_valid_label("a"));
    assert!(is_valid_label("a-b"));
    assert!(is_valid_label("a-1"));
    assert!(is_valid_label("a1"));
    assert!(is_valid_label("a1b"));
    assert!(is_valid_label("a1-b2"));
}

#[test]
fn test_is_valid_host() {
    // invalid
    assert!(!is_valid_host(""));
    assert!(!is_valid_host("a".repeat(256).as_str()));
    assert!(!is_valid_host("000"));
    assert!(!is_valid_host("---"));
    assert!(!is_valid_host("aaa-"));
    assert!(!is_valid_host("-aaa"));
    assert!(!is_valid_host("aaa."));
    assert!(!is_valid_host(".aaa"));
    assert!(!is_valid_host("a.0"));
    assert!(!is_valid_host("f%%"));
    assert!(!is_valid_host("0"));
    assert!(!is_valid_host("10"));
    assert!(!is_valid_host("quake|se"));

    // valid
    assert!(is_valid_host("quake1.se"));
    assert!(is_valid_host("1quake.se"));
}

#[test]
fn test_host_examples() {
    assert!(is_valid_host("quake.se"));
    assert!(is_valid_host("quake-world.se"));
    assert!(is_valid_host("localhost"));
    assert!(is_valid_host("10.10.10.10"));
    assert!(!is_valid_host("foo."));
    assert!(!is_valid_host("1000.0.0.0"));
    assert!(!is_valid_host("a.0"));
}

#[test]
fn test_host_length_ceiling() {
    let label = "a".repeat(63);
    let long = format!("{}.{}.{}.{}", label, label, label, label);
    assert_eq!(long.len(), 255);
    assert!(is_valid_host(long.as_str()));
    let too_long = format!("b{}", long);
    assert!(!is_valid_host(too_long.as_str()));
}

#[test]
fn test_ipv4_literals() {
    assert!(is_valid_host("0.0.0.0"));
    assert!(is_valid_host("127.0.0.1"));
    assert!(is_valid_host("255.255.255.255"));
    // out-of-range octet
    assert!(!is_valid_host("256.0.0.0"));
    // leading zero in an octet
    assert!(!is_valid_host("01.0.0.0"));
    assert!(!is_valid_host("1.2.3.04"));
    // wrong number of numeric groups
    assert!(!is_valid_host("10.10.10"));
    assert!(!is_valid_host("1.2.3.4.5"));
    // empty group
    assert!(!is_valid_host("1..2.3"));
    // numeric groups mixed with a letter fall back to label rules
    assert!(!is_valid_host("a.1.2.3"));
}
