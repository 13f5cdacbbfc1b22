use hostport::HostPort;
use hostport::HostPortParseError;

#[test]
fn test_new() {
    {
        assert_eq!(
            HostPort::new("_", 50).unwrap_err(),
            HostPortParseError::InvalidHost("_".to_string())
        );
    }
    {
        let hostport = HostPort::new("quake.se", 28501).unwrap();
        assert_eq!(hostport.host(), "quake.se");
        assert_eq!(hostport.port(), 28501);
    }
}

#[test]
fn test_display() {
    let hostport = HostPort::new("quake.se", 28501).unwrap();
    assert_eq!(hostport.render(), "quake.se:28501");
}

#[test]
fn test_from_str() {
    let hostport = HostPort::parse("quake.se:28501").unwrap();
    assert_eq!(hostport.host(), "quake.se");
    assert_eq!(hostport.port(), 28501);
}

#[test]
fn test_partial_eq_str() {
    assert!(HostPort::new("quake.se", 28501).unwrap().eq_str("quake.se:28501"));
    assert!(!HostPort::new("quake.se", 28501).unwrap().eq_str("quake.se:28502"));
}

#[test]
fn test_parse_equals_new() {
    let parsed = HostPort::parse("quake.se:28501").unwrap();
    let built = HostPort::new("quake.se", 28501).unwrap();
    assert_eq!(parsed, built);
}

#[test]
fn test_parse_no_separator() {
    assert_eq!(
        HostPort::parse("no-colon-here").unwrap_err(),
        HostPortParseError::InvalidFormat
    );
    assert_eq!(HostPort::parse("").unwrap_err(), HostPortParseError::InvalidFormat);
}

#[test]
fn test_parse_bad_port() {
    assert_eq!(
        HostPort::parse("quake.se:abc").unwrap_err(),
        HostPortParseError::InvalidPort("abc".to_string())
    );
    assert_eq!(
        HostPort::parse("quake.se:65536").unwrap_err(),
        HostPortParseError::InvalidPort("65536".to_string())
    );
    assert_eq!(
        HostPort::parse("quake.se:+1").unwrap_err(),
        HostPortParseError::InvalidPort("+1".to_string())
    );
    assert_eq!(
        HostPort::parse("quake.se: 1").unwrap_err(),
        HostPortParseError::InvalidPort(" 1".to_string())
    );
    // the port candidate runs to the end of the string, later colons included
    assert_eq!(
        HostPort::parse("quake.se:1:2").unwrap_err(),
        HostPortParseError::InvalidPort("1:2".to_string())
    );
}

#[test]
fn test_parse_spoiled_host() {
    assert_eq!(
        HostPort::parse("quake.se$:1").unwrap_err(),
        HostPortParseError::InvalidHost("quake.se$".to_string())
    );
}

#[test]
fn test_parse_empty_host() {
    assert_eq!(
        HostPort::parse(":1").unwrap_err(),
        HostPortParseError::InvalidHost("".to_string())
    );
}

#[test]
fn test_parse_empty_port() {
    assert_eq!(
        HostPort::parse("host:").unwrap_err(),
        HostPortParseError::InvalidPort("".to_string())
    );
}

#[test]
fn test_render_parse_round_trip() {
    let domain = HostPort::new("quake.se", 28501).unwrap();
    assert_eq!(HostPort::parse(domain.render().as_str()).unwrap(), domain);
    let ip = HostPort::new("10.10.10.10", 0).unwrap();
    assert_eq!(HostPort::parse(ip.render().as_str()).unwrap(), ip);
    let alias = HostPort::new("localhost", 65535).unwrap();
    assert_eq!(HostPort::parse(alias.render().as_str()).unwrap(), alias);
}

#[test]
fn test_port_range() {
    assert_eq!(HostPort::parse("localhost:0").unwrap().port(), 0);
    assert_eq!(HostPort::parse("localhost:65535").unwrap().port(), 65535);
    // leading zeros are read as plain decimal
    assert_eq!(HostPort::parse("localhost:007").unwrap().port(), 7);
}

#[test]
fn test_eq_str_splits_on_last_colon() {
    let pair = HostPort::new("localhost", 1).unwrap();
    assert!(pair.eq_str("localhost:1"));
    assert!(!pair.eq_str("localhost"));
    assert!(!pair.eq_str("localhost:+1"));
    assert!(!pair.eq_str("localhost:1:2"));
    assert!(!pair.eq_str(":1"));
}

#[test]
fn test_parse_ipv4_pair() {
    let ip = HostPort::parse("10.10.10.10:28000").unwrap();
    assert_eq!(ip.host(), "10.10.10.10");
    assert_eq!(ip.port(), 28000);
}

#[test]
fn test_clone_keeps_value() {
    let pair = HostPort::new("quake.se", 28501).unwrap();
    let copy = pair.clone();
    assert_eq!(pair, copy);
}
