use ferrum_kv::config::file::{parse_bytes, FileConfig, FileConfigError};
use ferrum_kv::persistence::config::FsyncPolicy;
use ferrum_kv::storage::eviction::EvictionPolicy;

fn parse(text: &str) -> Result<FileConfig, FileConfigError> {
    FileConfig::parse(text, "test.conf")
}

#[test]
fn empty_file_yields_default_config() {
    assert_eq!(parse("").unwrap(), FileConfig::default());
}

#[test]
fn comments_and_blank_lines_are_ignored() {
    let cfg = parse("# heading\n\n   \n# another\n").unwrap();
    assert_eq!(cfg, FileConfig::default());
}

#[test]
fn bind_and_port_are_parsed() {
    let cfg = parse("bind 0.0.0.0\nport 6380\n").unwrap();
    assert_eq!(cfg.bind.as_deref(), Some("0.0.0.0"));
    assert_eq!(cfg.port, Some(6380));
}

#[test]
fn bind_accepts_whitespace_separated_addresses() {
    let cfg = parse("bind 127.0.0.1 ::1\n").unwrap();
    assert_eq!(cfg.bind.as_deref(), Some("127.0.0.1 ::1"));
}

#[test]
fn timeout_and_maxclients() {
    let cfg = parse("timeout 30\nmaxclients 128\n").unwrap();
    assert_eq!(cfg.timeout_secs, Some(30));
    assert_eq!(cfg.max_clients, Some(128));
}

#[test]
fn appendonly_and_fsync() {
    let cfg = parse(
        "appendonly yes\n\
         appendfilename \"ferrum.aof\"\n\
         appendfsync everysec\n",
    )
    .unwrap();
    assert_eq!(cfg.appendonly, Some(true));
    assert_eq!(cfg.appendfilename, Some("ferrum.aof".to_string()));
    assert_eq!(cfg.appendfsync, Some(FsyncPolicy::EverySec));
}

#[test]
fn loglevel_is_lowercased_and_validated() {
    assert_eq!(
        parse("loglevel DEBUG\n").unwrap().loglevel.as_deref(),
        Some("debug")
    );
    let err = parse("loglevel verbose\n").unwrap_err();
    assert!(err.to_string().contains("invalid loglevel"));
}

#[test]
fn unknown_directive_is_rejected() {
    let err = parse("glorp 42\n").unwrap_err();
    assert!(err.to_string().contains("unknown directive"));
}

#[test]
fn missing_value_is_rejected() {
    let err = parse("port\n").unwrap_err();
    assert!(err.to_string().contains("requires a value"));
}

#[test]
fn invalid_port_is_rejected() {
    let err = parse("port banana\n").unwrap_err();
    assert!(err.to_string().contains("invalid port"));
}

#[test]
fn appendonly_accepts_common_truthy_forms() {
    for v in ["yes", "YES", "true", "on", "1"] {
        let cfg = parse(&format!("appendonly {v}\n")).unwrap();
        assert_eq!(cfg.appendonly, Some(true), "value: {v}");
    }
    for v in ["no", "false", "off", "0"] {
        let cfg = parse(&format!("appendonly {v}\n")).unwrap();
        assert_eq!(cfg.appendonly, Some(false), "value: {v}");
    }
}

#[test]
fn key_is_case_insensitive() {
    let cfg = parse("PORT 12345\n").unwrap();
    assert_eq!(cfg.port, Some(12345));
}

#[test]
fn maxmemory_accepts_byte_and_suffix_forms() {
    assert_eq!(parse("maxmemory 0\n").unwrap().max_memory, Some(0));
    assert_eq!(parse("maxmemory 1024\n").unwrap().max_memory, Some(1024));
    assert_eq!(parse("maxmemory 2k\n").unwrap().max_memory, Some(2 * 1024));
    assert_eq!(
        parse("maxmemory 100mb\n").unwrap().max_memory,
        Some(100 * 1024 * 1024)
    );
    assert_eq!(
        parse("maxmemory 1GB\n").unwrap().max_memory,
        Some(1024 * 1024 * 1024)
    );
}

#[test]
fn maxmemory_rejects_nonsense() {
    assert!(parse("maxmemory abc\n").is_err());
    assert!(parse("maxmemory 10tb\n").is_err());
}

#[test]
fn maxmemory_policy_is_parsed_and_validated() {
    assert_eq!(
        parse("maxmemory-policy allkeys-lru\n")
            .unwrap()
            .max_memory_policy,
        Some(EvictionPolicy::AllKeysLru),
    );
    assert!(parse("maxmemory-policy bogus\n").is_err());
}

#[test]
fn maxmemory_samples_is_parsed() {
    assert_eq!(
        parse("maxmemory-samples 12\n").unwrap().max_memory_samples,
        Some(12),
    );
}

#[test]
fn a_comment_in_front_only_moves_the_line_numbers() {
    let text = "port 7000\nbind ::1\nprot 1\n";
    let line_of = |t: &str| match parse(t) {
        Err(FileConfigError::Parse { line_no, .. }) => line_no,
        _ => panic!("expected a parse error"),
    };
    assert_eq!(line_of(text), 3);
    assert_eq!(line_of(&format!("   # heading\n{text}")), 4);
    let good = "port 7000\nport 7001\n";
    assert_eq!(parse(good).unwrap(), parse(&format!(" \t\n{good}")).unwrap());
    assert_eq!(parse(good).unwrap().port, Some(7001));
}

#[test]
fn a_byte_size_holds_no_space() {
    for text in ["maxmemory 10 mb\n", "maxmemory 10\tkb\n", "maxmemory 1 g\n", "maxmemory 7 b\n"] {
        assert!(parse(text).is_err(), "{text:?}");
    }
    assert_eq!(parse("maxmemory   10mb  \n").unwrap().max_memory, Some(10 * 1024 * 1024));
    let chars: Vec<char> = "10 mb".chars().collect();
    assert_eq!(
        parse_bytes(&chars, "maxmemory").unwrap_err(),
        "invalid maxmemory: '10 mb' is not a byte size"
    );
    let around: Vec<char> = " 3k ".chars().collect();
    assert_eq!(parse_bytes(&around, "maxmemory").unwrap(), 3072);
}

#[test]
fn the_last_setting_of_a_field_wins() {
    let (first, second) = ("port 1\nbind a\ntimeout 5", "# more\nport 2\nmaxclients 9\n");
    let z = parse(&format!("{first}\n{second}")).unwrap();
    assert_eq!(z.port, Some(2));
    assert_eq!(z.bind.as_deref(), Some("a"));
    assert_eq!(z.timeout_secs, Some(5));
    assert_eq!(z.max_clients, Some(9));
    assert_eq!(z.loglevel, None);
}
