use ferrum_kv::persistence::config::{AofConfig, FsyncPolicy, ParseFsyncPolicyError};

#[test]
fn fsync_policy_parses_known_values() {
    assert_eq!(FsyncPolicy::parse("always").unwrap(), FsyncPolicy::Always);
    assert_eq!(
        FsyncPolicy::parse("EVERYSEC").unwrap(),
        FsyncPolicy::EverySec
    );
    assert_eq!(FsyncPolicy::parse("  no  ").unwrap(), FsyncPolicy::No);
}

#[test]
fn fsync_policy_rejects_unknown_values() {
    let err = FsyncPolicy::parse("sometimes").unwrap_err();
    assert_eq!(err, ParseFsyncPolicyError("sometimes".to_string()));
}

#[test]
fn aof_config_default_is_everysec() {
    let cfg = AofConfig::default();
    assert_eq!(cfg.fsync, FsyncPolicy::EverySec);
    assert_eq!(cfg.path(), "ferrum.aof");
}
