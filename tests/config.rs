use agora_gateway::config::{parse_port, Config, DEFAULT_PORT};

#[test]
fn defaults_when_nothing_is_set() {
    let c = Config::from_values(None, None, None);
    assert_eq!(c.database_url, "sqlite:./data.db");
    assert_eq!(c.api_port, 3000);
    assert_eq!(c.cors_origin, "http://localhost:5173");
}

#[test]
fn given_values_are_kept() {
    let c = Config::from_values(
        Some("sqlite:/tmp/x.db".to_string()),
        Some("8080".to_string()),
        Some("https://app.example".to_string()),
    );
    assert_eq!(c.database_url, "sqlite:/tmp/x.db");
    assert_eq!(c.api_port, 8080);
    assert_eq!(c.cors_origin, "https://app.example");
}

#[test]
fn unreadable_port_falls_back() {
    assert_eq!(Config::from_values(None, Some("http".to_string()), None).api_port, DEFAULT_PORT);
    assert_eq!(Config::from_values(None, Some("70000".to_string()), None).api_port, DEFAULT_PORT);
}

#[test]
fn port_parsing_matches_std() {
    for t in ["0", "1", "+80", "65535", "65536", "", "+", "-1", "12a", "007", " 80", "99999999999"] {
        assert_eq!(parse_port(t), t.parse::<u16>().ok(), "text {:?}", t);
    }
}
