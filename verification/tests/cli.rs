use ferrum_kv::config::cli::{CliArgs, Invocation, DEFAULT_ADDR};
use ferrum_kv::persistence::config::FsyncPolicy;

fn parse(args: &[&str]) -> Result<Invocation, String> {
    CliArgs::parse(args.iter().map(|s| s.to_string()).collect())
}

fn parse_run(args: &[&str]) -> CliArgs {
    match parse(args).unwrap() {
        Invocation::Run(a) => a,
        Invocation::Help => panic!("expected Run, got Help"),
    }
}

#[test]
fn defaults_when_no_args_given() {
    let args = parse_run(&[]);
    assert_eq!(args.addr, DEFAULT_ADDR);
    assert!(args.aof_config().is_none());
}

#[test]
fn parses_aof_path_with_default_fsync() {
    let args = parse_run(&["--aof-path", "ferrum.aof"]);
    let cfg = args.aof_config().unwrap();
    assert_eq!(cfg.path(), "ferrum.aof");
    assert_eq!(cfg.fsync, FsyncPolicy::EverySec);
}

#[test]
fn parses_explicit_appendfsync() {
    let args = parse_run(&["--aof-path", "a.aof", "--appendfsync", "always"]);
    assert_eq!(args.aof_config().unwrap().fsync, FsyncPolicy::Always);
}

#[test]
fn rejects_appendfsync_without_aof_path() {
    let err = parse(&["--appendfsync", "always"]).unwrap_err();
    assert!(err.contains("requires --aof-path"));
}

#[test]
fn rejects_unknown_appendfsync_value() {
    let err = parse(&["--aof-path", "a.aof", "--appendfsync", "weekly"]).unwrap_err();
    assert!(err.contains("invalid --appendfsync"));
}

#[test]
fn rejects_unknown_flag() {
    let err = parse(&["--nope"]).unwrap_err();
    assert!(err.contains("unrecognised"));
}

#[test]
fn parses_custom_addr() {
    let args = parse_run(&["--addr", "0.0.0.0:1234"]);
    assert_eq!(args.addr, "0.0.0.0:1234");
}

#[test]
fn help_flag_returns_help_variant() {
    assert!(matches!(parse(&["--help"]).unwrap(), Invocation::Help));
    assert!(matches!(parse(&["-h"]).unwrap(), Invocation::Help));
}
