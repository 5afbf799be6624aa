use intelli_telemetry::dtos::{
    ChampionshipAndUserId, ChampionshipId, GoogleUserInfo, Provider, UserRegistrationData,
};
use intelli_telemetry::error::{F1ServiceError, FirewallError};
use intelli_telemetry::firewall::{
    extract_handle_from_ruleset, FirewallRule, FirewallService, FirewallType,
};

const RULESET: &str = "table inet nftables_svc {\n\tchain allow {\n\t\tudp dport 27700 accept # handle 12\n\t\tip saddr 10.0.0.2 udp dport 27701 accept # handle 345\n\t}\n}\n";

#[test]
fn handle_of_open_rule() {
    assert_eq!(extract_handle_from_ruleset(RULESET, "udp dport 27700 accept"), Ok("12".to_string()));
}

#[test]
fn handle_of_narrowed_rule() {
    assert_eq!(
        extract_handle_from_ruleset(RULESET, "ip saddr 10.0.0.2 udp dport 27701 accept"),
        Ok("345".to_string())
    );
    assert_eq!(extract_handle_from_ruleset(RULESET, "udp dport 27701 accept"), Ok("345".to_string()));
}

#[test]
fn missing_rule_is_not_found() {
    assert_eq!(
        extract_handle_from_ruleset(RULESET, "udp dport 27799 accept"),
        Err(FirewallError::RuleNotFound)
    );
    assert_eq!(
        extract_handle_from_ruleset("udp dport 1 accept #handle 3", "udp dport 1 accept"),
        Err(FirewallError::RuleNotFound)
    );
    assert_eq!(extract_handle_from_ruleset("", "x"), Err(FirewallError::RuleNotFound));
}

#[test]
fn long_handle_is_kept_whole() {
    assert_eq!(
        extract_handle_from_ruleset("r # handle 99999999999999999999 x", "r"),
        Ok("99999999999999999999".to_string())
    );
    assert_eq!(
        extract_handle_from_ruleset("q # handle 1\nr  #\thandle   0042", "r"),
        Ok("0042".to_string())
    );
}

#[test]
fn rule_table_records_outcomes() {
    let mut fw = FirewallService::new();
    assert!(!fw.rule_exists(700000001));
    assert_eq!(fw.record_open(700000001, 27700, "12".to_string()), Ok(()));
    assert_eq!(
        fw.record_open(700000001, 27700, "13".to_string()),
        Err(FirewallError::RuleExists)
    );
    assert_eq!(
        fw.record_restrict(700000001, "10.0.0.2".to_string(), "345".to_string()),
        Ok(27700)
    );
    assert_eq!(
        fw.record_restrict(700000002, "10.0.0.3".to_string(), "1".to_string()),
        Err(FirewallError::RuleNotFound)
    );
    assert_eq!(fw.rule_ids(), vec![700000001]);
    assert!(matches!(
        fw.record_close(700000001, false),
        Err(FirewallError::ExecutionError)
    ));
    assert!(fw.rule_exists(700000001));
    let rule = fw.record_close(700000001, true).unwrap();
    assert_eq!(rule.handle, "345");
    assert_eq!(rule.rule_type, FirewallType::PartiallyClosed);
    assert_eq!(rule.ip_address.as_deref(), Some("10.0.0.2"));
    assert!(matches!(fw.record_close(700000001, true), Err(FirewallError::RuleNotFound)));
    assert!(!fw.rule_exists(700000001));
}

#[test]
fn new_rule_is_open() {
    let rule = FirewallRule::new(27705, FirewallType::Open, "7".to_string());
    assert_eq!(rule.port, 27705);
    assert_eq!(rule.rule_type, FirewallType::Open);
    assert_eq!(rule.handle, "7");
    assert!(rule.ip_address.is_none());
}

#[test]
fn championship_id_range() {
    assert!(ChampionshipId(700000000).validate());
    assert!(ChampionshipId(799999999).validate());
    assert!(!ChampionshipId(800000000).validate());
    assert!(!ChampionshipId(699999999).validate());
    assert!(ChampionshipAndUserId { championship_id: 700000005, user_id: 600000000 }.validate());
    assert!(!ChampionshipAndUserId { championship_id: 700000005, user_id: 700000000 }.validate());
}

#[test]
fn google_registration() {
    let info = GoogleUserInfo {
        email: "ana@example.com".to_string(),
        family_name: None,
        given_name: Some("Ana".to_string()),
        id: "g-1".to_string(),
        name: "Ana".to_string(),
        picture: "https://example.com/a.png".to_string(),
        verified_email: true,
    };
    let r = UserRegistrationData::from_google_user_info(info);
    assert_eq!(r.username, "Ana");
    assert_eq!(r.email, "ana@example.com");
    assert!(r.password.is_none());
    assert_eq!(r.avatar.as_deref(), Some("https://example.com/a.png"));
    assert_eq!(r.provider, Some(Provider::Google));
}

#[test]
fn every_service_error_has_a_message() {
    let cases = [
        (F1ServiceError::AlreadyExists, "Already Exists"),
        (F1ServiceError::NotActive, "Service not active"),
        (F1ServiceError::InvalidPacketType, "Invalid packet type"),
        (F1ServiceError::CastingError, "Error casting data"),
        (F1ServiceError::Shutdown, "Error shutting down service"),
        (F1ServiceError::UnsupportedFormat, "Unsupported Format"),
        (F1ServiceError::UdpSocket, "Error binding the udp socket"),
        (F1ServiceError::ReceivingData, "Error receiving data"),
        (F1ServiceError::Encoding, "Error encoding data"),
        (F1ServiceError::NoPortsAvailable, "No ports available"),
    ];
    for (e, m) in cases {
        assert_eq!(e.error_message(), m);
    }
}

#[test]
fn every_firewall_error_has_a_message() {
    assert_eq!(FirewallError::RuleExists.error_message(), "Rule already exists");
    assert_eq!(FirewallError::RuleExists.status_code(), 409);
    assert_eq!(FirewallError::ExecutionError.error_message(), "Failed to execute command");
    assert_eq!(FirewallError::ExecutionError.status_code(), 500);
    assert_eq!(FirewallError::ParseError.error_message(), "Failed to parse");
    assert_eq!(FirewallError::ParseError.status_code(), 500);
}
