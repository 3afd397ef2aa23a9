//! The option set, the config merge rules, and range parsing.
use rustscan::input::{Config, Opts, PortRange, ScanOrder, ScriptsRequired};

fn test_config() -> Config {
    Config {
        addresses: Some(vec!["127.0.0.1".to_owned()]),
        ports: None,
        range: None,
        greppable: Some(true),
        batch_size: Some(25_000),
        timeout: Some(1_000),
        tries: Some(1),
        ulimit: None,
        command: Some(vec!["-A".to_owned()]),
        accessible: Some(true),
        resolver: None,
        scan_order: Some(ScanOrder::Random),
        scripts: None,
        exclude_ports: None,
        exclude_addresses: None,
        udp: Some(false),
    }
}

#[test]
fn opts_no_merge_when_config_is_ignored() {
    let mut opts = Opts::default();
    let config = test_config();

    opts.merge(&config);

    assert_eq!(opts.addresses, vec![] as Vec<String>);
    assert!(opts.greppable);
    assert!(!opts.accessible);
    assert_eq!(opts.timeout, 0);
    assert_eq!(opts.command, vec![] as Vec<String>);
    assert_eq!(opts.scan_order, ScanOrder::Serial);
}

#[test]
fn opts_merge_required_arguments() {
    let mut opts = Opts::default();
    let config = test_config();

    opts.merge_required(&config);

    assert_eq!(opts.addresses, config.addresses.unwrap());
    assert_eq!(opts.greppable, config.greppable.unwrap());
    assert_eq!(opts.timeout, config.timeout.unwrap());
    assert_eq!(opts.command, config.command.unwrap());
    assert_eq!(opts.accessible, config.accessible.unwrap());
    assert_eq!(opts.scan_order, config.scan_order.unwrap());
    assert_eq!(opts.scripts, ScriptsRequired::Default);
}

#[test]
fn opts_merge_optional_arguments() {
    let mut opts = Opts::default();
    let mut config = test_config();
    config.range = Some(PortRange {
        start: 1,
        end: 1_000,
    });
    config.ulimit = Some(1_000);
    config.resolver = Some("1.1.1.1".to_owned());

    opts.merge_optional(&config);

    assert_eq!(opts.range, config.range);
    assert_eq!(opts.ulimit, config.ulimit);
    assert_eq!(opts.resolver, config.resolver);
}

#[test]
fn default_range_fills_in_when_nothing_is_set() {
    let mut opts = Opts::default();
    opts.with_default_range();
    assert_eq!(opts.range, Some(PortRange { start: 1, end: 65535 }));

    let mut opts = Opts::default();
    opts.ports = Some(vec![80]);
    opts.with_default_range();
    assert_eq!(opts.range, None);
}

#[test]
fn parse_range_accepts_start_end() {
    let range = rustscan::input::parse_range("1-1000").unwrap();
    assert_eq!(range.start, 1);
    assert_eq!(range.end, 1000);
}

#[test]
fn parse_range_rejects_malformed_input() {
    assert!(rustscan::input::parse_range("").is_err());
    assert!(rustscan::input::parse_range("80").is_err());
    assert!(rustscan::input::parse_range("1-2-3").is_err());
    assert!(rustscan::input::parse_range("a-b").is_err());
    assert!(rustscan::input::parse_range("1-65536").is_err());
    assert!(rustscan::input::parse_range("-100").is_err());
    assert!(rustscan::input::parse_range("100-").is_err());
}
