//! Target resolution: literal addresses, CIDR expansion, deduplication,
//! exclusions, and the sorted order.
use rustscan::address::{ipv4, parse_address, parse_addresses, Ip};
use rustscan::input::Opts;

#[test]
fn parse_correct_addresses() {
    let mut opts = Opts::default();
    opts.addresses = vec!["127.0.0.1".to_owned(), "192.168.0.0/30".to_owned()];

    let ips = parse_addresses(&opts);

    assert_eq!(
        ips,
        [
            ipv4(127, 0, 0, 1),
            ipv4(192, 168, 0, 0),
            ipv4(192, 168, 0, 1),
            ipv4(192, 168, 0, 2),
            ipv4(192, 168, 0, 3)
        ]
    );
}

#[test]
fn parse_addresses_with_address_exclusions() {
    let mut opts = Opts::default();
    opts.addresses = vec!["192.168.0.0/30".to_owned()];
    opts.exclude_addresses = Some(vec!["192.168.0.1".to_owned()]);

    let ips = parse_addresses(&opts);

    assert_eq!(
        ips,
        [
            ipv4(192, 168, 0, 0),
            ipv4(192, 168, 0, 2),
            ipv4(192, 168, 0, 3)
        ]
    );
}

#[test]
fn parse_addresses_with_cidr_exclusions() {
    let mut opts = Opts::default();
    opts.addresses = vec!["192.168.0.0/29".to_owned()];
    opts.exclude_addresses = Some(vec!["192.168.0.0/30".to_owned()]);

    let ips = parse_addresses(&opts);

    assert_eq!(
        ips,
        [
            ipv4(192, 168, 0, 4),
            ipv4(192, 168, 0, 5),
            ipv4(192, 168, 0, 6),
            ipv4(192, 168, 0, 7),
        ]
    );
}

#[test]
fn parse_addresses_with_incorrect_address_exclusions() {
    let mut opts = Opts::default();
    opts.addresses = vec!["192.168.0.0/30".to_owned()];
    opts.exclude_addresses = Some(vec!["im_wrong".to_owned(), "192.168.0.1".to_owned()]);

    let ips = parse_addresses(&opts);

    assert_eq!(
        ips,
        [
            ipv4(192, 168, 0, 0),
            ipv4(192, 168, 0, 2),
            ipv4(192, 168, 0, 3)
        ]
    );
}

#[test]
fn parse_correct_and_incorrect_addresses() {
    let mut opts = Opts::default();
    opts.addresses = vec!["127.0.0.1".to_owned(), "im_wrong".to_owned()];

    let ips = parse_addresses(&opts);

    assert_eq!(ips, [ipv4(127, 0, 0, 1)]);
}

#[test]
fn parse_incorrect_addresses() {
    let mut opts = Opts::default();
    opts.addresses = vec!["im_wrong".to_owned(), "300.10.1.1".to_owned()];

    let ips = parse_addresses(&opts);

    assert!(ips.is_empty());
}

#[test]
fn parse_duplicate_cidrs() {
    let mut opts = Opts::default();
    opts.addresses = vec!["79.98.104.0/21".to_owned(), "79.98.104.0/24".to_owned()];

    let ips = parse_addresses(&opts);

    assert_eq!(ips.len(), 2_048);
}

#[test]
fn parse_address_expands_a_single_host() {
    assert_eq!(parse_address("127.0.0.1"), vec![ipv4(127, 0, 0, 1)]);
    assert_eq!(parse_address("192.168.1.5/32"), vec![ipv4(192, 168, 1, 5)]);
    assert_eq!(parse_address("::1"), vec![Ip::V6(1)]);
}

#[test]
fn very_wide_blocks_are_refused() {
    // expanding the whole IPv6 space is refused rather than attempted
    assert!(parse_address("::/0").is_empty());
    assert!(parse_address("2001:db8::/64").is_empty());
    // a block with 32 host bits or fewer expands normally
    assert_eq!(parse_address("2001:db8::/127").len(), 2);
}

#[test]
fn parse_address_rejects_noise_and_host_names() {
    assert!(parse_address("im_wrong").is_empty());
    assert!(parse_address("300.10.1.1").is_empty());
    assert!(parse_address("google.com").is_empty());
    assert!(parse_address("192.168.0.1/30").is_empty());
}

#[test]
fn resolved_addresses_come_out_sorted_and_deduplicated() {
    let mut opts = Opts::default();
    opts.addresses = vec![
        "::1".to_owned(),
        "192.168.0.2".to_owned(),
        "10.0.0.1".to_owned(),
        "192.168.0.2".to_owned(),
    ];

    let ips = parse_addresses(&opts);

    assert_eq!(
        ips,
        [ipv4(10, 0, 0, 1), ipv4(192, 168, 0, 2), Ip::V6(1)]
    );
}

#[test]
fn resolving_twice_returns_identical_sequences() {
    let mut opts = Opts::default();
    opts.addresses = vec!["192.168.0.0/29".to_owned(), "127.0.0.1".to_owned()];

    let first = parse_addresses(&opts);
    let second = parse_addresses(&opts);

    assert_eq!(first, second);
}
