use data_studio_agent::capabilities::permissions::{
    ConnectionMcpOverride, McpPermissionMode, McpPolicy,
};
use data_studio_agent::capabilities::types::{RiskLevel, SourceKind};

#[test]
fn test_mode_allows_risk_levels() {
    assert!(McpPermissionMode::ReadOnly.allows(RiskLevel::Safe));
    assert!(!McpPermissionMode::ReadOnly.allows(RiskLevel::Elevated));
    assert!(!McpPermissionMode::ReadOnly.allows(RiskLevel::Destructive));

    assert!(McpPermissionMode::DataReadWrite.allows(RiskLevel::Safe));
    assert!(McpPermissionMode::DataReadWrite.allows(RiskLevel::Elevated));
    assert!(!McpPermissionMode::DataReadWrite.allows(RiskLevel::Destructive));

    assert!(McpPermissionMode::FullAccess.allows(RiskLevel::Safe));
    assert!(McpPermissionMode::FullAccess.allows(RiskLevel::Elevated));
    assert!(McpPermissionMode::FullAccess.allows(RiskLevel::Destructive));
}

#[test]
fn test_default_policy_is_read_only_with_all_connections() {
    let policy = McpPolicy::default();
    assert_eq!(policy.mode, McpPermissionMode::ReadOnly);
    assert!(policy.allowed_connection_ids.is_empty());
    assert!(policy.is_connection_allowed("any-id"));
    assert!(!policy.is_connection_read_only("any-id"));
}

#[test]
fn test_allowlist_restricts_connections() {
    let policy =
        McpPolicy { allowed_connection_ids: vec!["conn-1".into()], ..McpPolicy::default() };
    assert!(policy.is_connection_allowed("conn-1"));
    assert!(!policy.is_connection_allowed("conn-2"));
    assert!(!policy.allows(RiskLevel::Safe, Some("conn-2")));
}

#[test]
fn test_read_only_override_blocks_elevated_but_allows_safe() {
    let policy = McpPolicy {
        mode: McpPermissionMode::FullAccess,
        connection_overrides: vec![("prod-es".into(), ConnectionMcpOverride { read_only: true })],
        ..McpPolicy::default()
    };
    assert!(policy.allows(RiskLevel::Destructive, Some("staging-es")));
    assert!(!policy.allows(RiskLevel::Destructive, Some("prod-es")));
    assert!(!policy.allows(RiskLevel::Elevated, Some("prod-es")));
    assert!(policy.allows(RiskLevel::Safe, Some("prod-es")));
}

#[test]
fn policy_without_connection_follows_mode() {
    let policy = McpPolicy {
        mode: McpPermissionMode::DataReadWrite,
        allowed_connection_ids: vec!["conn-1".into()],
        ..McpPolicy::default()
    };
    assert!(policy.allows(RiskLevel::Elevated, None));
    assert!(!policy.allows(RiskLevel::Destructive, None));
    assert!(policy.allows(RiskLevel::Elevated, Some("conn-1")));
    assert!(!policy.allows(RiskLevel::Elevated, Some("conn-2")));
}

#[test]
fn later_override_for_a_connection_wins() {
    let policy = McpPolicy {
        mode: McpPermissionMode::FullAccess,
        connection_overrides: vec![
            ("db".into(), ConnectionMcpOverride { read_only: true }),
            ("db".into(), ConnectionMcpOverride { read_only: false }),
        ],
        ..McpPolicy::default()
    };
    assert!(!policy.is_connection_read_only("db"));
    assert!(policy.allows(RiskLevel::Destructive, Some("db")));
}

#[test]
fn read_only_override_within_read_write_mode() {
    let policy = McpPolicy {
        mode: McpPermissionMode::DataReadWrite,
        allowed_connection_ids: vec!["a".into(), "b".into()],
        connection_overrides: vec![("b".into(), ConnectionMcpOverride { read_only: true })],
    };
    assert!(policy.is_connection_read_only("b"));
    assert!(!policy.is_connection_read_only("a"));
    assert!(policy.allows(RiskLevel::Elevated, Some("a")));
    assert!(!policy.allows(RiskLevel::Elevated, Some("b")));
    assert!(policy.allows(RiskLevel::Safe, Some("b")));
    assert!(!policy.allows(RiskLevel::Safe, Some("c")));
}

#[test]
fn source_kind_matches_db_type_ignoring_ascii_case() {
    assert!(SourceKind::Database("POSTGRESQL").matches_db_type("postgresql"));
    assert!(SourceKind::Database("MongoDB").matches_db_type("MONGODB"));
    assert!(!SourceKind::Database("MONGODB").matches_db_type("MONGO"));
    assert!(!SourceKind::Database("DYNAMODB").matches_db_type("DYNAMODX"));
    assert!(!SourceKind::File.matches_db_type("FILE"));
    assert!(!SourceKind::AppLocal.matches_db_type(""));
    assert!(SourceKind::Database("ÉS").matches_db_type("És"));
    assert!(!SourceKind::Database("ÉS").matches_db_type("és"));
}
