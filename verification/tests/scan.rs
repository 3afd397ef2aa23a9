//! The scan engine's bookkeeping: endpoint enumeration, the batch window,
//! the open set, and the file-descriptor budget.
use rustscan::address::{ipv4, Ip};
use rustscan::input::{Opts, PortRange, ScanOrder};
use rustscan::port_strategy::PortStrategy;
use rustscan::scanner::{is_fd_exhaustion, payload_for_port, Scanner};
use rustscan::socket_iterator::{Endpoint, SocketIterator};
use rustscan::ulimit::{adjust_ulimit_size, infer_batch_size};

fn endpoint(ip: Ip, port: u16) -> Endpoint {
    Endpoint { ip, port }
}

#[test]
fn goes_through_every_ip_port_combination() {
    let addrs = vec![ipv4(127, 0, 0, 1), ipv4(192, 168, 0, 1)];
    let ports: Vec<u16> = vec![22, 80, 443];
    let mut it = SocketIterator::new(&addrs, &ports);

    assert_eq!(Some(endpoint(addrs[0], ports[0])), it.next());
    assert_eq!(Some(endpoint(addrs[1], ports[0])), it.next());
    assert_eq!(Some(endpoint(addrs[0], ports[1])), it.next());
    assert_eq!(Some(endpoint(addrs[1], ports[1])), it.next());
    assert_eq!(Some(endpoint(addrs[0], ports[2])), it.next());
    assert_eq!(Some(endpoint(addrs[1], ports[2])), it.next());
    assert_eq!(None, it.next());
}

#[test]
fn socket_iterator_is_empty_without_addresses() {
    let addrs: Vec<Ip> = Vec::new();
    let ports: Vec<u16> = vec![22, 80];
    let mut it = SocketIterator::new(&addrs, &ports);
    assert_eq!(None, it.next());
}

fn localhost_scanner(batch_size: u16, tries: u8) -> Scanner {
    Scanner::new(
        &vec![ipv4(127, 0, 0, 1)],
        batch_size,
        100,
        tries,
        true,
        PortStrategy::range(PortRange { start: 1, end: 1_000 }, ScanOrder::Random),
        true,
        vec![9_000],
        false,
    )
}

#[test]
fn mock_scan_finds_exactly_the_open_targets() {
    let scanner = localhost_scanner(10, 1);
    let open_port = 443;
    let table = vec![
        endpoint(ipv4(127, 0, 0, 1), open_port),
        // answering endpoints outside the scan's targets stay out
        endpoint(ipv4(127, 0, 0, 1), 5_000),
        endpoint(ipv4(10, 0, 0, 1), 80),
        // the excluded port must not be reported even if it answers
        endpoint(ipv4(127, 0, 0, 1), 9_000),
    ];

    let open = scanner.run_with_table(&table);

    assert_eq!(open, vec![endpoint(ipv4(127, 0, 0, 1), open_port)]);
}

#[test]
fn mock_scan_set_does_not_depend_on_batch_size() {
    let table = vec![
        endpoint(ipv4(127, 0, 0, 1), 22),
        endpoint(ipv4(127, 0, 0, 1), 443),
    ];

    let mut small: Vec<Endpoint> = localhost_scanner(1, 1).run_with_table(&table);
    let mut large: Vec<Endpoint> = localhost_scanner(500, 1).run_with_table(&table);
    small.sort_by_key(|e| e.port);
    large.sort_by_key(|e| e.port);

    assert_eq!(small, large);
    assert_eq!(small.len(), 2);
}

#[test]
fn mock_scan_twice_returns_the_same_set() {
    let scanner = localhost_scanner(10, 1);
    let table = vec![
        endpoint(ipv4(127, 0, 0, 1), 80),
        endpoint(ipv4(127, 0, 0, 1), 999),
    ];

    let mut first = scanner.run_with_table(&table);
    let mut second = scanner.run_with_table(&table);
    first.sort_by_key(|e| e.port);
    second.sort_by_key(|e| e.port);

    assert_eq!(first, second);
}

#[test]
fn mock_scan_with_no_addresses_returns_nothing() {
    let scanner = Scanner::new(
        &Vec::new(),
        10,
        100,
        1,
        true,
        PortStrategy::range(PortRange { start: 1, end: 1_000 }, ScanOrder::Serial),
        true,
        Vec::new(),
        false,
    );

    let open = scanner.run_with_table(&vec![endpoint(ipv4(127, 0, 0, 1), 80)]);

    assert!(open.is_empty());
}

#[test]
fn mock_scan_with_every_port_excluded_returns_nothing() {
    let scanner = Scanner::new(
        &vec![ipv4(127, 0, 0, 1)],
        10,
        100,
        1,
        true,
        PortStrategy::range(PortRange { start: 1, end: 5 }, ScanOrder::Serial),
        true,
        vec![1, 2, 3, 4, 5],
        false,
    );

    let open = scanner.run_with_table(&vec![endpoint(ipv4(127, 0, 0, 1), 3)]);

    assert!(open.is_empty());
}

#[test]
fn zero_tries_is_clamped_to_one() {
    let zero = localhost_scanner(10, 0);
    let one = localhost_scanner(10, 1);
    assert_eq!(zero.tries, 1);
    assert_eq!(zero.tries, one.tries);
}

#[test]
fn filtered_ports_leave_out_the_excluded() {
    let scanner = Scanner::new(
        &vec![ipv4(127, 0, 0, 1)],
        10,
        100,
        1,
        true,
        PortStrategy::range(PortRange { start: 1, end: 5 }, ScanOrder::Serial),
        true,
        vec![2, 4],
        false,
    );
    assert_eq!(scanner.filtered_ports(), vec![1, 3, 5]);
}

#[test]
fn fd_exhaustion_is_detected_in_any_case() {
    assert!(is_fd_exhaustion("too many open files"));
    assert!(is_fd_exhaustion("error: Too Many Open FILES (os error 24)"));
    assert!(!is_fd_exhaustion("connection refused"));
    assert!(!is_fd_exhaustion(""));
}

#[test]
fn payload_lookup_takes_the_first_matching_entry() {
    let table: Vec<(Vec<u16>, Vec<u8>)> = vec![
        (vec![53, 5353], vec![0x12, 0x34]),
        (vec![123], vec![0x1b]),
        (vec![53], vec![0xff]),
    ];
    assert_eq!(payload_for_port(&table, 53), vec![0x12, 0x34]);
    assert_eq!(payload_for_port(&table, 123), vec![0x1b]);
    assert_eq!(payload_for_port(&table, 9_999), Vec::<u8>::new());
}

#[test]
fn batch_size_lowered() {
    let mut opts = Opts::default();
    opts.batch_size = 50_000;
    let batch_size = infer_batch_size(&opts, 120);

    assert!(batch_size < opts.batch_size);
}

#[test]
fn batch_size_lowered_average_size() {
    let mut opts = Opts::default();
    opts.batch_size = 50_000;
    let batch_size = infer_batch_size(&opts, 9_000);

    assert!(batch_size == 3_000);
}

#[test]
fn batch_size_equals_ulimit_lowered() {
    // because ulimit and batch size are same size, batch size is lowered
    // to ULIMIT - 100
    let mut opts = Opts::default();
    opts.batch_size = 50_000;
    let batch_size = infer_batch_size(&opts, 5_000);

    assert!(batch_size == 4_900);
}

#[test]
fn batch_size_adjusted_2000() {
    // ulimit == batch_size
    let mut opts = Opts::default();
    opts.batch_size = 50_000;
    opts.ulimit = Some(2_000);
    let batch_size = adjust_ulimit_size(&opts).unwrap();

    assert!(batch_size == 2_000);
}

#[test]
fn test_high_ulimit_no_greppable_mode() {
    let mut opts = Opts::default();
    opts.batch_size = 10;
    opts.greppable = false;

    let batch_size = infer_batch_size(&opts, 1_000_000);

    assert!(batch_size == opts.batch_size);
}

#[test]
fn very_small_ulimit_halves_the_budget() {
    let mut opts = Opts::default();
    opts.batch_size = 50_000;
    assert_eq!(infer_batch_size(&opts, 120), 60);
}
